//! The text functions against those of the standard library.

use validate_readme::order::sort;
use validate_readme::text::{
    chars_of, find, find_second_word, find_str, fold_case, is_white_space, parse_number, rfind,
    same_text, split, starts_with, string_of, strip_end, to_decimal, to_lower, trim,
};

fn samples() -> Vec<String> {
    [
        "",
        " ",
        "a",
        "abc",
        "  abc\t",
        "\u{a0}x y\u{3000}",
        "a/b//",
        "///",
        "https://example.com",
        "no scheme",
        "a\nb\n\nc",
        "\n",
        "\u{e9}t\u{e9} \u{2028}",
        "::/://",
    ]
    .iter()
    .map(|s| s.to_string())
    .collect()
}

#[test]
fn white_space_is_the_unicode_property() {
    for code in 0..=0x10ffffu32 {
        if let Some(c) = char::from_u32(code) {
            assert_eq!(is_white_space(c), c.is_whitespace(), "{code:x}");
        }
    }
}

#[test]
fn strings_and_characters() {
    for s in samples() {
        assert_eq!(string_of(&chars_of(&s)), s);
        assert!(same_text(&s, &s.clone()));
        assert!(!same_text(&s, &format!("{s}!")));
    }
    assert!(!same_text("ab", "ac"));
}

#[test]
fn searching() {
    for s in samples() {
        let cs = chars_of(&s);
        for c in ['a', '/', ':', '\n', 'z'] {
            let first = s.chars().position(|x| x == c);
            let last = s.chars().count().checked_sub(1).and_then(|n| {
                s.chars()
                    .rev()
                    .position(|x| x == c)
                    .map(|i| n - i)
            });
            assert_eq!(find(&cs, c), first);
            assert_eq!(rfind(&cs, c), last);
        }
        for pat in ["", "://", "//", "abc", "b"] {
            let expected = s.find(pat).map(|i| s[..i].chars().count());
            assert_eq!(find_str(&cs, pat), expected, "{s:?} {pat:?}");
            assert_eq!(starts_with(&cs, pat), s.starts_with(pat));
        }
    }
}

#[test]
fn trimming() {
    for s in samples() {
        let cs = chars_of(&s);
        assert_eq!(string_of(trim(&cs)), s.trim());
        assert_eq!(string_of(strip_end(&cs, '/')), s.trim_end_matches('/'));
    }
}

#[test]
fn splitting_and_joining() {
    for s in samples() {
        let expected: Vec<String> = s.split('\n').map(|p| p.to_string()).collect();
        let pieces = split(&s, '\n');
        assert_eq!(pieces, expected);
        assert_eq!(pieces.join("\n"), s);
    }
}

#[test]
fn lower_case() {
    for s in [
        "HELLO World-09[]@",
        "\u{c0}\u{c9}T\u{c9}",
        "\u{39f}\u{394}\u{39f}\u{3a3}",
        "\u{130}stanbul",
        "",
    ] {
        assert_eq!(to_lower(s), s.to_lowercase());
        assert_eq!(to_lower(&to_lower(s)), to_lower(s));
    }
    assert_eq!(to_lower("A Book"), "a book");
}

#[test]
fn folded_case() {
    for (s, expected) in [
        ("HELLO World-09[]@", "hello world-09[]@"),
        ("Stra\u{df}e", "strasse"),
        ("\u{1e9e}", "ss"),
        ("\u{39f}\u{394}\u{39f}\u{3c2}", "\u{3bf}\u{3b4}\u{3bf}\u{3c3}"),
        ("o\u{fb03}ce", "office"),
        ("\u{c9}t\u{e9}", "\u{e9}t\u{e9}"),
        ("", ""),
    ] {
        assert_eq!(fold_case(s), expected);
    }
}

#[test]
fn numbers() {
    for n in [0usize, 1, 9, 10, 99, 100, 443, 65535, 65536, 4294967295, usize::MAX] {
        assert_eq!(to_decimal(n), n.to_string());
    }
    for s in [
        "0", "80", "443", "007", "+80", "+", "", "-1", "1a", " 1", "4294967295", "4294967296",
        "99999999999999999999", "\u{661}", "++1",
    ] {
        assert_eq!(parse_number(&chars_of(s), u32::MAX), s.parse::<u32>().ok(), "{s:?}");
        assert_eq!(
            parse_number(&chars_of(s), u16::MAX as u32),
            s.parse::<u16>().ok().map(|n| n as u32),
            "{s:?}"
        );
    }
}

#[test]
fn words() {
    for s in ["", " ", "one", " one ", "one two", "\tone\u{3000}two three", "HTTP/1.1 200\r"] {
        let expected = s.split_whitespace().nth(1).map(|w| w.to_string());
        assert_eq!(find_second_word(&chars_of(s)).map(string_of), expected, "{s:?}");
    }
}

#[test]
fn sorting() {
    let texts: Vec<String> = ["b", "", "ab", "a", "\u{e9}", "z", "b", "aa", "\u{1f600}", "B"]
        .iter()
        .map(|s| s.to_string())
        .collect();
    let mut expected = texts.clone();
    expected.sort();
    assert_eq!(sort(texts.clone()), expected);
    let mut reversed = texts;
    reversed.reverse();
    assert_eq!(sort(reversed), expected);
}
