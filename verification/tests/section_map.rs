use glass_ui::sections::{NativeSectionKind, SectionInfo};
use glass_ui::section_map::{
    blend, brighten, build_section_tooltip, cell_colour, entropy_tint, legend, row_click,
    section_click, section_menu, table_row, OpenMode, SectionAction,
};
use glass_ui::symbols::{Symbol, SymbolKind, SymbolMap};

fn section(name: &str, address: u64, size: u64, kind: NativeSectionKind, entropy: f32) -> SectionInfo {
    SectionInfo { name: name.to_string(), address, size, kind, entropy: entropy.to_bits() }
}

fn sym(addr: u64, name: &str) -> Symbol {
    Symbol {
        address: addr,
        size: 4,
        kind: SymbolKind::Function,
        display_name: name.to_string(),
        name: name.to_string(),
    }
}

fn sections() -> Vec<SectionInfo> {
    vec![
        section(".text", 0x1000, 0x100, NativeSectionKind::Text, 6.1),
        section(".data", 0x2000, 0x40, NativeSectionKind::Data, 7.9),
        section(".bss", 0x3000, 0x40, NativeSectionKind::Bss, 0.0),
    ]
}

#[test]
fn blend_endpoints_and_midpoint() {
    assert_eq!(blend(0x000000, 0xFFFFFF, 0), 0x000000);
    assert_eq!(blend(0x000000, 0xFFFFFF, 100), 0xFFFFFF);
    // Halfway between black and white is mid-grey (0x80 each).
    assert_eq!(blend(0x000000, 0xFFFFFF, 50), 0x808080);
}

#[test]
fn entropy_tint_pushes_toward_red() {
    let tinted = entropy_tint(0x808080);
    let r = (tinted >> 16) & 0xff;
    let g = (tinted >> 8) & 0xff;
    let b = tinted & 0xff;
    assert!(r > g + 0x20 && r > b + 0x20, "not red enough: {tinted:06x}");
}

#[test]
fn tint_agrees_with_single_precision_blending() {
    for c in 0u32..256 {
        let grey = c << 16 | c << 8 | c;
        let mix = |a: u32, b: u32| {
            let v = a as f32 + (b as f32 - a as f32) * 0.55;
            (v.round() as i32).clamp(0, 0xff) as u32
        };
        let want = mix(c, 0xD0) << 16 | mix(c, 0x30) << 8 | mix(c, 0x2E);
        assert_eq!(entropy_tint(grey), want);
    }
}

#[test]
fn brighten_lifts_a_quarter() {
    assert_eq!(brighten(0x000000), 0x3f3f3f);
    assert_eq!(brighten(0xffffff), 0xffffff);
    assert_eq!(brighten(0x804020), 0x9f6f57);
}

#[test]
fn encrypted_cells_are_tinted_and_hot_cells_brightened() {
    let s = sections();
    assert_eq!(cell_colour(&s[0], false), NativeSectionKind::Text.colour());
    assert_eq!(cell_colour(&s[0], true), brighten(NativeSectionKind::Text.colour()));
    assert_eq!(cell_colour(&s[1], false), entropy_tint(NativeSectionKind::Data.colour()));
}

#[test]
fn clicks_open_by_kind() {
    let s = sections();
    match section_click(&s, Some(0), Some(0x1054), Some(0x1040), false) {
        SectionAction::Listing { section, addr, mode } => {
            assert_eq!(section, ".text");
            assert_eq!(addr, 0x1040);
            assert_eq!(mode, OpenMode::Here);
        }
        other => panic!("{:?}", other),
    }
    match section_click(&s, Some(0), Some(0x1054), None, true) {
        SectionAction::Listing { addr, mode, .. } => {
            assert_eq!(addr, 0x1000);
            assert_eq!(mode, OpenMode::ForceNewTab);
        }
        other => panic!("{:?}", other),
    }
    match section_click(&s, Some(1), Some(0x2010), None, false) {
        SectionAction::Hex { section, addr, mode } => {
            assert_eq!(section, ".data");
            assert_eq!(addr, 0x2010);
            assert_eq!(mode, OpenMode::NewTab);
        }
        other => panic!("{:?}", other),
    }
    assert!(matches!(section_click(&s, Some(2), None, None, false), SectionAction::Nothing));
    assert!(matches!(section_click(&s, Some(3), None, None, false), SectionAction::Nothing));
    assert!(matches!(section_click(&s, None, None, None, false), SectionAction::Nothing));
    assert!(section_menu(&s, Some(2), None, None).is_none());
    let menu = section_menu(&s, Some(1), None, None).expect("data has a menu");
    assert!(menu.is_hex);
    assert_eq!(menu.addr, 0x2000);
    assert!(matches!(
        row_click(&s[0]),
        SectionAction::Listing { addr: 0x1000, mode: OpenMode::NewTab, .. }
    ));
    assert!(matches!(row_click(&s[2]), SectionAction::Nothing));
}

#[test]
fn table_rows_and_legend() {
    let s = sections();
    let row = table_row(&s[1], true);
    assert_eq!(row.address, "0x2000");
    assert_eq!(row.size, "0x40");
    assert!(row.clickable && row.hot);
    assert!(!table_row(&s[2], false).clickable);
    assert_eq!(legend().len(), 6);
    assert_eq!(legend()[0], NativeSectionKind::Text);
    assert_eq!(legend()[5], NativeSectionKind::Other);
}

#[test]
fn tooltip_lists_symbols_and_cursor() {
    let s = sections();
    let all: Vec<Symbol> = (0..7u64).map(|i| sym(0x1000 + 16 * i, &format!("f{i}"))).collect();
    let map = SymbolMap::from_symbols(all);
    let f = sym(0x1010, "f1");
    let t = build_section_tooltip(&s, Some(0), Some(0x1014), Some(&f), &map).expect("hovered");
    assert_eq!(t.name, ".text");
    assert_eq!(t.range, "0x1000 – 0x1100   (256 bytes)");
    assert_eq!(t.cursor.as_deref(), Some("@ 0x1014   f1 + 0x4"));
    assert_eq!(t.count, "7 symbols in section");
    assert_eq!(t.symbols.len(), 5);
    assert_eq!(t.symbols[4].address, "00001040");
    assert_eq!(t.symbols[4].name, "f4");
    assert_eq!(t.more.as_deref(), Some("… (2 more)"));
    let u = build_section_tooltip(&s, Some(1), Some(0x2000), None, &map).expect("hovered");
    assert_eq!(u.cursor.as_deref(), Some("@ 0x2000"));
    assert_eq!(u.count, "0 symbols in section");
    assert!(u.more.is_none());
    assert!(build_section_tooltip(&s, Some(9), None, None, &map).is_none());
    assert!(build_section_tooltip(&s, None, None, None, &map).is_none());
}

#[test]
fn high_entropy_threshold() {
    assert!(section("a", 0, 1, NativeSectionKind::Text, 7.4).likely_encrypted());
    assert!(!section("a", 0, 1, NativeSectionKind::Text, 7.3999).likely_encrypted());
    assert!(!section("a", 0, 1, NativeSectionKind::Text, f32::NAN).likely_encrypted());
    assert!(!section("a", 0, 1, NativeSectionKind::Text, -8.0).likely_encrypted());
    assert!(section("a", 0, 1, NativeSectionKind::Text, f32::INFINITY).likely_encrypted());
}
