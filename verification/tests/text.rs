use hardware::number::{parse_i32, parse_u32, parse_u64, parse_u8, parse_up_to, parse_usize, push_decimal};
use hardware::order::{in_order, insert_sorted};
use hardware::text::{
    concat3, contains, find, remove, same, split_lines, split_parts, split_second, split_words,
    starts_with, to_lower, trim, trim_trailing,
};

#[test]
fn white_space_is_trimmed() {
    assert_eq!(trim(" \t\u{a0}\u{3000}a b\u{2028}\r\n"), "a b");
    assert_eq!(trim(" \n"), "");
    assert_eq!(trim(""), "");
    assert_eq!(trim("\u{200b}x"), "\u{200b}x");
}

#[test]
fn trimming_agrees_with_the_white_space_of_unicode() {
    for u in 0..0x3100 {
        if let Some(c) = char::from_u32(u) {
            let s = c.to_string();
            assert_eq!(trim(&s), s.trim());
        }
    }
}

#[test]
fn trailing_characters_are_trimmed() {
    assert_eq!(trim_trailing("a::b:::", ':'), "a::b");
    assert_eq!(trim_trailing(":::", ':'), "");
}

#[test]
fn words_lines_and_parts_are_split() {
    assert_eq!(split_words("  a\tbc \n d"), ["a", "bc", "d"]);
    assert!(split_words(" \n").is_empty());
    assert_eq!(split_lines("a\r\nb\n\nc\r"), ["a", "b", "", "c\r"]);
    assert!(split_lines("").is_empty());
    assert_eq!(split_lines("a\n"), ["a"]);
    assert_eq!(split_parts("a:b::c:", ':'), ["a", "b", "", "c", ""]);
    assert_eq!(split_parts("", ':'), [""]);
    assert_eq!(split_second("a:b:c", ':').as_deref(), Some("b"));
    assert_eq!(split_second("abc", ':'), None);
}

#[test]
fn occurrences_are_found() {
    assert_eq!(find("\u{e9}abab", "ab"), Some(1));
    assert_eq!(find("abc", ""), Some(0));
    assert_eq!(find("", "a"), None);
    assert!(contains("abc", "bc"));
    assert!(!contains("abc", "ac"));
    assert!(starts_with("abc", "ab"));
    assert!(!starts_with("abc", "b"));
}

#[test]
fn occurrences_are_removed() {
    assert_eq!(remove("aXXbXaX", "X"), "aba");
    assert_eq!(remove("aaa", "aa"), "a");
    assert_eq!(remove("abc", "x"), "abc");
}

#[test]
fn small_helpers_do_what_they_say() {
    assert!(same("abc", "abc"));
    assert!(!same("abc", "abd"));
    assert!(!same("abc", "ab"));
    assert_eq!(concat3("a", "", "b"), "ab");
    assert_eq!(to_lower("AZaz[\u{c9}"), "azaz[\u{c9}");
}

#[test]
fn numbers_are_read_within_their_limits() {
    assert_eq!(parse_u64("18446744073709551615"), Some(u64::MAX));
    assert_eq!(parse_u64("18446744073709551616"), None);
    assert_eq!(parse_u64("+7"), Some(7));
    assert_eq!(parse_u64("+"), None);
    assert_eq!(parse_u64(""), None);
    assert_eq!(parse_u64("-0"), None);
    assert_eq!(parse_u64(" 1"), None);
    assert_eq!(parse_u64("00000000000000000000000000012"), Some(12));
    assert_eq!(parse_u32("4294967295"), Some(u32::MAX));
    assert_eq!(parse_u32("4294967296"), None);
    assert_eq!(parse_u8("255"), Some(255));
    assert_eq!(parse_u8("256"), None);
    assert_eq!(parse_usize("12"), Some(12));
    assert_eq!(parse_up_to("10", 10), Some(10));
    assert_eq!(parse_up_to("11", 10), None);
}

#[test]
fn signed_numbers_are_read_within_their_limits() {
    assert_eq!(parse_i32("-2147483648"), Some(i32::MIN));
    assert_eq!(parse_i32("-2147483649"), None);
    assert_eq!(parse_i32("2147483647"), Some(i32::MAX));
    assert_eq!(parse_i32("2147483648"), None);
    assert_eq!(parse_i32("+5"), Some(5));
    assert_eq!(parse_i32("-"), None);
    assert_eq!(parse_i32("--5"), None);
    assert_eq!(parse_i32("-+5"), None);
    assert_eq!(parse_i32("-0"), Some(0));
}

#[test]
fn written_numbers_are_read_back() {
    for n in [0, 7, 10, 99, 100, 4_294_967_296, u64::MAX] {
        let mut s = String::new();
        push_decimal(&mut s, n);
        assert_eq!(s, n.to_string());
        assert_eq!(parse_u64(&s), Some(n));
    }
    let mut s = "cpu".to_string();
    push_decimal(&mut s, 12);
    assert_eq!(s, "cpu12");
}

#[test]
fn texts_are_in_the_order_of_their_bytes() {
    let texts = ["", "A", "a", "ab", "b", "\u{e9}", "\u{fffd}", "\u{10000}"];
    for (i, a) in texts.iter().enumerate() {
        for (j, b) in texts.iter().enumerate() {
            assert_eq!(in_order(a, b), i <= j);
            assert_eq!(in_order(a, b), a <= b);
        }
    }
}

#[test]
fn insertion_keeps_a_list_sorted() {
    let mut list = Vec::new();
    for s in ["b", "a", "c", "b", ""] {
        insert_sorted(&mut list, s.to_string());
    }
    assert_eq!(list, ["", "a", "b", "b", "c"]);
}
