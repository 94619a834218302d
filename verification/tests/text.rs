use glass_ui::text::space_char;

#[test]
fn white_space_agrees_with_std_on_every_character() {
    for c in '\0'..=char::MAX {
        assert_eq!(space_char(c), c.is_whitespace(), "{:?}", c);
    }
}
