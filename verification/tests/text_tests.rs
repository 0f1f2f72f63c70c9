use ctf::mcp::types::UnlockHintParams;
use ctf::mcp::validate_hint_id;
use ctf::text::{decimal_string, is_white_space_char, str_eq, str_less, trim};

#[test]
fn decimal_rendering() {
    assert_eq!(decimal_string(0), "0");
    assert_eq!(decimal_string(7), "7");
    assert_eq!(decimal_string(10), "10");
    assert_eq!(decimal_string(9999), "9999");
    assert_eq!(decimal_string(u64::MAX), u64::MAX.to_string());
}

#[test]
fn order_matches_string_ord() {
    let words = ["", "a", "A", "ab", "b", "ä", "web", "Web", "we"];
    for x in words {
        for y in words {
            assert_eq!(str_less(x, y), x < y, "{x} < {y}");
            assert_eq!(str_eq(x, y), x == y);
        }
    }
}

#[test]
fn trimming_strips_unicode_white_space_only() {
    let id = validate_hint_id(&UnlockHintParams { hint_id: "\u{3000}\t h7\u{a0}\u{2029}".into() }).unwrap();
    assert_eq!(id, "h7");
    let kept = validate_hint_id(&UnlockHintParams { hint_id: "\u{200b}h7\u{200b}".into() }).unwrap();
    assert_eq!(kept, "\u{200b}h7\u{200b}");
}

#[test]
fn trim_matches_std_trim() {
    let samples = [
        "", "   ", "x", "  a b  ", "\u{3000}\t h7\u{a0}\u{2029}", "\u{200b}h\u{200b}", "\u{85}é\u{1680}",
        "\r\n\u{b}\u{c}mid dle\u{202f}\u{205f}", "\u{2000}\u{200a}", "\u{180e}z",
    ];
    for x in samples {
        assert_eq!(trim(x), x.trim(), "{x:?}");
    }
}

#[test]
fn white_space_is_unicode_white_space() {
    for u in 0u32..0x3100 {
        if let Some(c) = char::from_u32(u) {
            assert_eq!(is_white_space_char(c), c.is_whitespace(), "U+{u:04X}");
        }
    }
}
