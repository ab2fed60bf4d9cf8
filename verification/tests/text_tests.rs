// Text helpers: fields, numbers, trimming

use rust_tree::rust_tree::numbers::{parse_u64_check, push_decimal, push_decimal_padded};
use rust_tree::rust_tree::text::{
    chars_of, contains_check, ends_with_check, same_text, starts_with_check, string_of,
    whitespace_check,
};
use rust_tree::rust_tree::words::{
    find_last, join_fields, split_fields, strip_trailing_chars, trim_chars,
};

fn chars(s: &str) -> Vec<char> {
    s.chars().collect()
}

fn text(v: Vec<char>) -> String {
    v.into_iter().collect()
}

#[test]
fn strings_and_characters_convert_both_ways() {
    assert_eq!(chars_of("a/é✓"), vec!['a', '/', 'é', '✓']);
    assert_eq!(string_of(&vec!['a', '/', 'é', '✓']), "a/é✓");
    assert_eq!(string_of(&chars_of("")), "");
}

#[test]
fn white_space_is_what_unicode_says() {
    for c in ['\t', '\n', '\u{b}', '\u{c}', '\r', ' ', '\u{85}', '\u{a0}', '\u{1680}', '\u{2000}',
        '\u{200a}', '\u{2028}', '\u{2029}', '\u{202f}', '\u{205f}', '\u{3000}']
    {
        assert!(whitespace_check(c));
        assert!(c.is_whitespace());
    }
    for c in ['a', '0', '\u{8}', '\u{e}', '\u{200b}', '\u{feff}', '\u{180e}', '_'] {
        assert!(!whitespace_check(c));
        assert!(!c.is_whitespace());
    }
}

#[test]
fn prefixes_suffixes_and_parts() {
    let s = chars("Archive:  test.zip");
    assert!(starts_with_check(&s, "Archive:"));
    assert!(starts_with_check(&s, ""));
    assert!(!starts_with_check(&s, "archive"));
    assert!(!starts_with_check(&chars("Arch"), "Archive:"));
    assert!(ends_with_check(&s, ".zip"));
    assert!(ends_with_check(&s, "Archive:  test.zip"));
    assert!(!ends_with_check(&s, "x Archive:  test.zip"));
    assert!(contains_check(&s, "  "));
    assert!(contains_check(&s, "zip"));
    assert!(contains_check(&s, ""));
    assert!(!contains_check(&s, "zipp"));
    assert!(contains_check(&chars(""), ""));
    assert!(same_text(&s, "Archive:  test.zip"));
    assert!(!same_text(&s, "Archive:  test.zi"));
}

#[test]
fn lines_split_into_fields() {
    let parts = split_fields(&chars("  a\tbb \u{a0} c,d  "));
    let got: Vec<String> = parts.into_iter().map(text).collect();
    assert_eq!(got, vec!["a", "bb", "c,d"]);
    assert!(split_fields(&chars(" \t ")).is_empty());
    assert!(split_fields(&chars("")).is_empty());
    let same: Vec<String> = "x  y\nz".split_whitespace().map(|s| s.to_string()).collect();
    let got: Vec<String> = split_fields(&chars("x  y\nz")).into_iter().map(text).collect();
    assert_eq!(got, same);
}

#[test]
fn fields_join_with_single_spaces() {
    let parts = split_fields(&chars("a  b   c d"));
    assert_eq!(text(join_fields(&parts, 0)), "a b c d");
    assert_eq!(text(join_fields(&parts, 2)), "c d");
    assert_eq!(text(join_fields(&parts, 3)), "d");
    assert_eq!(text(join_fields(&parts, 4)), "");
    assert_eq!(text(join_fields(&parts, 9)), "");
}

#[test]
fn trimming() {
    assert_eq!(text(trim_chars(&chars("  a b \t"))), "a b");
    assert_eq!(text(trim_chars(&chars("a"))), "a");
    assert_eq!(text(trim_chars(&chars(" \n "))), "");
    assert_eq!(text(trim_chars(&chars(""))), "");
    assert_eq!(text(strip_trailing_chars(&chars("a/b///"), '/')), "a/b");
    assert_eq!(text(strip_trailing_chars(&chars("///"), '/')), "");
    assert_eq!(text(strip_trailing_chars(&chars("a/b"), '/')), "a/b");
    assert_eq!(find_last(&chars("a/b/c"), '/'), Some(3));
    assert_eq!(find_last(&chars("/"), '/'), Some(0));
    assert_eq!(find_last(&chars("abc"), '/'), None);
}

#[test]
fn numbers_are_read_as_the_standard_library_reads_them() {
    for s in ["0", "7", "007", "+5", "18446744073709551615", "18446744073709551616", "", "+",
        "-1", "1a", " 1", "1 ", "++1", "99999999999999999999999", "٣"]
    {
        assert_eq!(parse_u64_check(&chars(s)), s.parse::<u64>().ok());
    }
    assert_eq!(parse_u64_check(&chars("+0012")), Some(12));
}

#[test]
fn numbers_are_written_in_decimal() {
    for n in [0u64, 9, 10, 99, 100, 12345, u64::MAX] {
        let mut v = chars("n=");
        push_decimal(&mut v, n);
        assert_eq!(text(v), format!("n={}", n));
    }
    let mut v = Vec::new();
    push_decimal_padded(&mut v, 7, 5, ' ');
    push_decimal_padded(&mut v, 123456, 5, ' ');
    push_decimal_padded(&mut v, 7, 2, '0');
    push_decimal_padded(&mut v, 0, 0, '0');
    assert_eq!(text(v), "    7123456070");
}
