use rift::text::{find_char, is_blank, number_text, parse_number, same_text, starts_with};

#[test]
fn prefixes_are_compared_by_character() {
    assert!(starts_with("cgdisplay-3", "cgdisplay-"));
    assert!(starts_with("\u{e4}b", "\u{e4}"));
    assert!(starts_with("x", ""));
    assert!(!starts_with("cgdisplay", "cgdisplay-"));
    assert!(!starts_with("Xb", "xb"));
    assert!(same_text("record", "record"));
    assert!(!same_text("record", "records"));
    assert!(!same_text("record", "recorD"));
}

#[test]
fn numbers_are_written_in_decimal() {
    assert_eq!(number_text(0), "0");
    assert_eq!(number_text(9), "9");
    assert_eq!(number_text(10), "10");
    assert_eq!(number_text(90210), "90210");
    assert_eq!(number_text(u64::MAX), u64::MAX.to_string());
}

#[test]
fn numbers_are_read_as_the_standard_library_reads_them() {
    for text in [
        "", "0", "7", "+7", "-7", "+", "007", "12 ", " 12", "1_000", "18446744073709551615",
        "18446744073709551616", "+18446744073709551615", "99999999999999999999999", "\u{661}", "1e3",
    ] {
        assert_eq!(parse_number(text), text.parse::<u64>().ok(), "{text:?}");
    }
}

#[test]
fn a_written_number_reads_back() {
    for n in [0, 1, 10, 999, 1_000_000, u64::MAX] {
        assert_eq!(parse_number(number_text(n).as_str()), Some(n));
    }
}

#[test]
fn blanks_are_those_of_the_standard_library() {
    for code in 0..0x3100u32 {
        if let Some(c) = char::from_u32(code) {
            let text = c.to_string();
            assert_eq!(is_blank(&text), text.trim().is_empty(), "{code:x}");
        }
    }
    assert!(is_blank(""));
    assert!(is_blank(" \t\u{3000}"));
    assert!(!is_blank("  x "));
}

#[test]
fn a_character_is_found_where_it_is_first() {
    assert_eq!(find_char("a b c", ' '), Some(1));
    assert_eq!(find_char("\u{e4} b", ' '), Some(1));
    assert_eq!(find_char("abc", ' '), None);
}
