use elan_haptune::text::{
    decimal_text, hex_text, lines_text, parse_number, same, split_once_text, split_text,
    starts_with, trim_text,
};

#[test]
fn numbers_are_written_in_decimal_and_hexadecimal() {
    assert_eq!(decimal_text(0), "0");
    assert_eq!(decimal_text(65535), "65535");
    assert_eq!(decimal_text(u64::MAX), "18446744073709551615");
    assert_eq!(hex_text(0x03a2, 4), "03a2");
    assert_eq!(hex_text(0xfedc_ba98, 4), "fedcba98");
    assert_eq!(hex_text(7, 2), "07");
}

#[test]
fn numbers_are_read_as_the_standard_library_reads_them() {
    for text in [
        "", "+", "-", "0", "+0", "-0", "7f", "7F", "fffffff", "ffffffff", "100000000", "+ff", "++1",
        " 1", "1 ", "g", "4294967295", "4294967296", "00000000000000001", "\u{661}",
    ] {
        assert_eq!(parse_number(text, 16), u32::from_str_radix(text, 16).ok(), "{text}");
        assert_eq!(parse_number(text, 10), text.parse::<u32>().ok(), "{text}");
    }
}

#[test]
fn texts_are_taken_apart_as_the_standard_library_does() {
    for text in [
        "", "\n", "a", "a\n", "a\nb", "a\r\nb\r", "\r\n\r\n", "a\n\nb\n", "a=b:c=d", ":", "::", "a:",
        ":a", "\u{e9}=\u{e8}\n",
    ] {
        assert_eq!(lines_text(text), text.lines().collect::<Vec<_>>(), "{text:?}");
        assert_eq!(split_text(text, ':'), text.split(':').collect::<Vec<_>>(), "{text:?}");
        assert_eq!(
            split_once_text(text, '='),
            text.split_once('=').map(|(a, b)| (a.to_string(), b.to_string())),
            "{text:?}"
        );
    }
}

#[test]
fn white_space_around_a_text_is_removed() {
    for text in ["", " ", "a", " a ", "\t\na b\u{a0}\u{3000}", "\u{85}x\u{2028}", "\u{200b}x"] {
        assert_eq!(trim_text(text), text.trim(), "{text:?}");
    }
}

#[test]
fn texts_are_compared_by_their_characters() {
    assert!(same("", ""));
    assert!(same("\u{e9}a", "\u{e9}a"));
    assert!(!same("a", "ab"));
    assert!(!same("ab", "aB"));
    assert!(starts_with("ELAN2703:00", "ELAN2703:"));
    assert!(!starts_with("ELAN2703", "ELAN2703:"));
    assert!(starts_with("x", ""));
}
