use glass_ui::digits::{hex_text, parse_address, to_decimal, to_hex, to_hex_padded};

#[test]
fn digits_agree_with_formatting() {
    for n in [0u64, 1, 9, 10, 15, 16, 255, 256, 4096, 123456789, u64::MAX - 1, u64::MAX] {
        assert_eq!(to_hex(n), format!("{:x}", n));
        assert_eq!(to_decimal(n), format!("{}", n));
        assert_eq!(to_hex_padded(n, 8), format!("{:08x}", n));
        assert_eq!(to_hex_padded(n, 16), format!("{:016x}", n));
        assert_eq!(hex_text(n), format!("0x{:x}", n));
        assert_eq!(parse_address(&hex_text(n)), Some(n));
    }
}

#[test]
fn addresses_parse_as_std_does() {
    for s in ["", "0x", "+", "+5", "0x+ff", "-1", "0xDEADbeef", "0x0x10", "zz", "0xffffffffffffffff",
        "0x10000000000000000", "000000000000000000001", "12 "]
    {
        let want = u64::from_str_radix(s.trim_start_matches("0x"), 16).ok();
        assert_eq!(parse_address(s), want, "{:?}", s);
    }
}
