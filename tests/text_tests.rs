use extrans::text::{parse_i32, trim};

#[test]
fn parse_i32_reads_as_std_does() {
    let cases = [
        "0", "7", "+7", "-7", "-0", "2147483647", "-2147483648", "2147483648", "-2147483649",
        "99999999999999999999", "", "+", "-", "+-1", "12x", " 1", "1 ", "007", "٣",
    ];
    for c in cases {
        assert_eq!(parse_i32(c), c.parse::<i32>().ok(), "case {:?}", c);
    }
    assert_eq!(parse_i32("453"), Some(453));
    assert_eq!(parse_i32("-120"), Some(-120));
    assert_eq!(parse_i32("abc"), None);
}

#[test]
fn trim_strips_unicode_whitespace() {
    let cases = [
        "  a b  ", "\t\n x \r\n", "\u{3000}wide\u{A0}", "\u{2009}thin\u{200A}", "none", "", "   ",
        "\u{85}x\u{2028}", "\u{200B}zero-width\u{200B}", "\u{1680}\u{202F}y\u{205F}",
    ];
    for c in cases {
        assert_eq!(trim(c), c.trim(), "case {:?}", c);
    }
    assert_eq!(trim("  key "), "key");
}
