use lokb::text::{
    char_is_ws, char_len_utf8, contains_exec, decimal_string, ends_with_exec, find_char_in, find_from,
    format_hex_prefixed, line_ranges, push_decimal, starts_with_exec, str_chars, string_from_chars, to_lowercase,
    trim_range, underscore_spaces, utf8_len_exceeds, word_ranges,
};
use lokb::types::encode;

fn chars(s: &str) -> Vec<char> {
    s.chars().collect()
}

fn slices(s: &str, ranges: &[(usize, usize)]) -> Vec<String> {
    let v = chars(s);
    ranges.iter().map(|&(a, b)| v[a..b].iter().collect()).collect()
}

#[test]
fn numbers_as_text() {
    assert_eq!(decimal_string(0), "0");
    assert_eq!(decimal_string(u64::MAX), u64::MAX.to_string());
    let mut s = "id_".to_string();
    push_decimal(&mut s, 42, 4);
    assert_eq!(s, "id_0042");
    let mut t = String::new();
    push_decimal(&mut t, 123456, 3);
    assert_eq!(t, "123456");
    assert_eq!(format_hex_prefixed(255), "0xff");
    assert_eq!(format_hex_prefixed(0), "0x0");
    assert_eq!(format_hex_prefixed(0x48_45_6c), format!("{:#x}", 0x48_45_6cu64));
    let mut bytes = [0u8; 32];
    bytes[0] = 0xab;
    bytes[31] = 0x01;
    assert_eq!(encode(bytes), format!("ab{}01", "0".repeat(60)));
}

#[test]
fn lines_and_words_split_as_std_does() {
    for s in ["a\nb\r\nc", "a\n\nb\n", "", "\n", "x\r", "one line"] {
        assert_eq!(slices(s, &line_ranges(&chars(s))), s.lines().map(str::to_string).collect::<Vec<_>>());
    }
    for s in ["  two  words ", "", "tab\tsep\u{A0}nbsp", "one"] {
        assert_eq!(slices(s, &word_ranges(&chars(s))), s.split_whitespace().map(str::to_string).collect::<Vec<_>>());
    }
    let v = chars("  hi there \n");
    let (a, b) = trim_range(&v, 0, v.len());
    assert_eq!(v[a..b].iter().collect::<String>(), "hi there");
    let (c, d) = trim_range(&v, 0, 2);
    assert_eq!(c, d);
}

#[test]
fn searching_characters() {
    let v = chars("abcabc");
    assert_eq!(find_from(&v, &chars("bc"), 0), Some(1));
    assert_eq!(find_from(&v, &chars("bc"), 2), Some(4));
    assert_eq!(find_from(&v, &chars("bc"), 5), None);
    assert_eq!(find_from(&v, &chars(""), 6), Some(6));
    assert!(starts_with_exec(&v, &chars("abc")));
    assert!(ends_with_exec(&v, &chars("cabc")));
    assert!(!ends_with_exec(&v, &chars("abcabcabc")));
    assert!(contains_exec(&v, &chars("ca")));
    assert!(!contains_exec(&v, &chars("cc")));
    assert_eq!(find_char_in(&v, 'c', 0, 6), 2);
    assert_eq!(find_char_in(&v, 'c', 3, 5), 5);
}

#[test]
fn characters_and_strings() {
    assert_eq!(str_chars("héllo"), chars("héllo"));
    assert_eq!(string_from_chars(&chars("héllo")), "héllo");
    for c in ['a', 'é', '€', '😀'] {
        assert_eq!(char_len_utf8(c), c.len_utf8());
    }
    for c in [' ', '\t', '\u{3000}', '\u{A0}', 'x', '_'] {
        assert_eq!(char_is_ws(c), c.is_whitespace());
    }
    assert!(utf8_len_exceeds(&chars("ééé"), 0, 3, 5));
    assert!(!utf8_len_exceeds(&chars("ééé"), 0, 3, 6));
    assert_eq!(to_lowercase("ÀB Ç"), "àb ç");
    assert_ne!(to_lowercase("ABC"), "ABC");
    assert_eq!(underscore_spaces("a b  c"), "a_b__c");
}
