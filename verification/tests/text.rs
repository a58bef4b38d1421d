use launcher::text::{
    chars_of, contains, ends_with, find_mark, is_white_space, join, join_path, le, parse_i32,
    push_decimal, push_signed_decimal, same, trim,
};

fn signed(n: i32) -> String {
    let mut out = String::new();
    push_signed_decimal(&mut out, n);
    out
}

#[test]
fn same_compares_all_characters() {
    assert!(same("", ""));
    assert!(same("Grüße", "Grüße"));
    assert!(!same("Grüße", "Grüsse"));
    assert!(!same("abc", "abcd"));
}

#[test]
fn le_is_the_order_of_str() {
    let words = ["", "a", "ab", "b", "Z", "é", "z\u{10000}", "z\u{ffff}", "gimp", "Gimp"];
    for a in words {
        for b in words {
            assert_eq!(le(a, b), a <= b, "{} {}", a, b);
        }
    }
}

#[test]
fn white_space_is_that_of_char() {
    for n in 0..0x11_0000u32 {
        if let Some(c) = char::from_u32(n) {
            assert_eq!(is_white_space(c), c.is_whitespace(), "{:x}", n);
        }
    }
}

#[test]
fn trim_is_that_of_str() {
    for s in ["", "  ", " a ", "\t12\r\n", "a b", "\u{3000}ü\u{a0}", "x"] {
        assert_eq!(trim(s), s.trim());
    }
}

#[test]
fn contains_finds_parts() {
    assert!(contains("firefox web browser", "web"));
    assert!(contains("abc", "abc"));
    assert!(contains("abc", ""));
    assert!(contains("", ""));
    assert!(contains("aaab", "aab"));
    assert!(!contains("abc", "abd"));
    assert!(!contains("ab", "abc"));
    assert!(contains("größe", "öß"));
}

#[test]
fn ends_with_looks_at_the_end() {
    assert!(ends_with("firefox.desktop", ".desktop"));
    assert!(!ends_with("firefox.desktop.bak", ".desktop"));
    assert!(!ends_with("desktop", ".desktop"));
    assert!(ends_with("x", ""));
}

#[test]
fn find_mark_starts_where_told() {
    let chars = chars_of("a;bc;d");
    assert_eq!(find_mark(&chars, ';', 0), 1);
    assert_eq!(find_mark(&chars, ';', 2), 4);
    assert_eq!(find_mark(&chars, ';', 5), 6);
}

#[test]
fn parse_i32_is_that_of_std() {
    for s in [
        "", "0", "7", "-7", "+7", "-", "+", "--1", "1-", "12345", "2147483647", "2147483648",
        "-2147483648", "-2147483649", "99999999999999999999", "00012", "-0", "1 2", " 1", "1a",
        "٣", "1_000",
    ] {
        assert_eq!(parse_i32(s), s.parse::<i32>().ok(), "{}", s);
    }
}

#[test]
fn decimals_are_those_of_std() {
    for n in [0, 7, 10, 42, 99, 100, 4294967295u32] {
        let mut out = "n=".to_string();
        push_decimal(&mut out, n);
        assert_eq!(out, format!("n={}", n));
    }
    for n in [0, -1, 1, -10, 2147483647, -2147483648] {
        assert_eq!(signed(n), n.to_string());
        assert_eq!(parse_i32(&signed(n)), Some(n));
    }
}

#[test]
fn join_puts_gaps_between() {
    assert_eq!(join(&vec![], " "), "");
    assert_eq!(join(&vec!["a".to_string()], " "), "a");
    assert_eq!(join(&vec!["a".to_string(), "b".to_string(), "c".to_string()], ", "), "a, b, c");
}

#[test]
fn join_path_is_that_of_path() {
    for dir in ["", "/", "/home/me", "/home/me/", "rel"] {
        assert_eq!(
            join_path(dir, ".config"),
            std::path::Path::new(dir).join(".config").to_str().unwrap()
        );
    }
}
