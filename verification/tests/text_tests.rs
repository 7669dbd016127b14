use cynobot::number::{format_u128, format_u64, parse_i32, parse_u64};
use cynobot::split::{cut_first, holds, is_space, scan_past, split_lines, split_words};
use cynobot::text::{
    contains, extend, find_char, from_chars, matches_at, replace, same_chars, same_text, slice,
    to_chars,
};

fn chars(s: &str) -> Vec<char> {
    s.chars().collect()
}

fn strings(v: Vec<Vec<char>>) -> Vec<String> {
    v.iter().map(|w| w.iter().collect()).collect()
}

#[test]
fn to_chars_and_from_chars_are_inverse() {
    assert_eq!(to_chars("héllo {x}"), chars("héllo {x}"));
    assert_eq!(from_chars(&chars("héllo {x}")), "héllo {x}");
    assert_eq!(from_chars(&Vec::new()), "");
    assert_eq!(to_chars(""), Vec::<char>::new());
}

#[test]
fn from_chars_builds_every_character() {
    let built = from_chars(&chars("abc"));
    assert_eq!(built.len(), 3);
    assert_ne!(built, "");
}

#[test]
fn slice_copies_a_range() {
    assert_eq!(slice(&chars("abcdef"), 1, 4), chars("bcd"));
    assert_eq!(slice(&chars("abcdef"), 2, 2), chars(""));
}

#[test]
fn extend_appends() {
    let mut v = chars("ab");
    extend(&mut v, &chars("cd"));
    assert_eq!(v, chars("abcd"));
}

#[test]
fn find_char_gives_first_position_or_length() {
    assert_eq!(find_char(&chars("a=b=c"), '=', 0), 1);
    assert_eq!(find_char(&chars("a=b=c"), '=', 2), 3);
    assert_eq!(find_char(&chars("abc"), '=', 0), 3);
}

#[test]
fn matches_at_checks_one_position() {
    assert!(matches_at(&chars("hello"), &chars("ll"), 2));
    assert!(!matches_at(&chars("hello"), &chars("ll"), 1));
    assert!(!matches_at(&chars("hello"), &chars("lo"), 4));
    assert!(matches_at(&chars("hello"), &chars(""), 5));
    assert!(!matches_at(&chars("hello"), &chars(""), 6));
}

#[test]
fn contains_agrees_with_std() {
    let cases = [
        ("cpp is bad", "bad"),
        ("cpp is bad", "good"),
        ("cpp is bad", ""),
        ("", ""),
        ("", "a"),
        ("aaa", "aaaa"),
        ("abcabd", "abd"),
    ];
    for (s, pat) in cases {
        assert_eq!(contains(&chars(s), &chars(pat)), s.contains(pat), "{:?} in {:?}", pat, s);
    }
}

#[test]
fn replace_agrees_with_std_for_patterns_that_are_not_empty() {
    let cases = [
        ("hi {user}, {user}!", "{user}", "bob"),
        ("aaaa", "aa", "b"),
        ("aaa", "aa", "b"),
        ("abc", "x", "y"),
        ("abc", "abc", ""),
        ("", "a", "b"),
        ("ab", "abc", "z"),
        ("{a}{a}", "{a}", "{a}{a}"),
    ];
    for (s, pat, to) in cases {
        assert_eq!(
            from_chars(&replace(&chars(s), &chars(pat), &chars(to))),
            s.replace(pat, to),
            "{:?} {:?} {:?}",
            s,
            pat,
            to
        );
    }
}

#[test]
fn replace_with_empty_pattern_changes_nothing() {
    assert_eq!(replace(&chars("abc"), &chars(""), &chars("x")), chars("abc"));
}

#[test]
fn same_text_compares_characters() {
    assert!(same_text("abc", "abc"));
    assert!(!same_text("abc", "abd"));
    assert!(!same_text("abc", "ab"));
    assert!(same_chars(&chars(""), &chars("")));
}

#[test]
fn is_space_agrees_with_std_on_every_character() {
    let mut n: u32 = 0;
    while n <= 0x10FFFF {
        if let Some(c) = char::from_u32(n) {
            assert_eq!(is_space(c), c.is_whitespace(), "U+{:04X}", n);
        }
        n += 1;
    }
}

#[test]
fn split_lines_agrees_with_std() {
    let cases = [
        "",
        "a",
        "a\n",
        "a\nb",
        "a\r\nb\r\n",
        "a\n\nb",
        "\n",
        "\r\n",
        "a\rb\n",
        "a\r",
        "a\r\n\r\nb\r",
        "key=value\n-comment\n\n[list=x",
    ];
    for s in cases {
        let expected: Vec<String> = s.lines().map(|l| l.to_string()).collect();
        assert_eq!(strings(split_lines(&chars(s))), expected, "{:?}", s);
    }
}

#[test]
fn split_words_agrees_with_std() {
    let cases = ["", " ", "a", " a  b\tc\n", "cpp is bad", "\u{3000}x\u{a0}y ", "REPEAT 3 hi  there"];
    for s in cases {
        let expected: Vec<String> = s.split_whitespace().map(|l| l.to_string()).collect();
        assert_eq!(strings(split_words(&chars(s))), expected, "{:?}", s);
    }
}

#[test]
fn scan_past_stops_at_the_other_kind() {
    assert_eq!(scan_past(&chars("  ab c"), 0, true), 2);
    assert_eq!(scan_past(&chars("  ab c"), 2, false), 4);
    assert_eq!(scan_past(&chars("ab"), 0, false), 2);
}

#[test]
fn cut_first_cuts_at_the_first_delimiter_only() {
    assert_eq!(cut_first(&chars("a=b=c"), '='), Some((chars("a"), chars("b=c"))));
    assert_eq!(cut_first(&chars("=b"), '='), Some((chars(""), chars("b"))));
    assert_eq!(cut_first(&chars("a="), '='), Some((chars("a"), chars(""))));
    assert_eq!(cut_first(&chars("abc"), '='), None);
}

#[test]
fn holds_finds_a_string() {
    let names = vec!["a".to_string(), "b".to_string()];
    assert!(holds(&names, "b"));
    assert!(!holds(&names, "c"));
}

#[test]
fn format_writes_decimal() {
    assert_eq!(from_chars(&format_u64(0)), "0");
    assert_eq!(from_chars(&format_u64(7)), "7");
    assert_eq!(from_chars(&format_u64(1200)), "1200");
    assert_eq!(from_chars(&format_u64(u64::MAX)), "18446744073709551615");
    assert_eq!(from_chars(&format_u128(u128::MAX)), u128::MAX.to_string());
}

#[test]
fn parse_u64_agrees_with_std() {
    let cases = [
        "0",
        "42",
        "+42",
        "-42",
        "-0",
        "",
        "+",
        "-",
        "4 2",
        " 42",
        "42 ",
        "4_2",
        "0042",
        "18446744073709551615",
        "18446744073709551616",
        "99999999999999999999999",
        "000000000000000000000000000001",
        "１２",
        "1e3",
        "++1",
    ];
    for s in cases {
        assert_eq!(parse_u64(&chars(s)), s.parse::<u64>().ok(), "{:?}", s);
    }
}

#[test]
fn parse_i32_agrees_with_std() {
    let cases = [
        "0",
        "3",
        "+3",
        "-3",
        "-0",
        "",
        "+",
        "-",
        "--1",
        "+-1",
        "500",
        "2147483647",
        "2147483648",
        "-2147483648",
        "-2147483649",
        "99999999999",
        "abc",
        "3x",
    ];
    for s in cases {
        assert_eq!(parse_i32(&chars(s)), s.parse::<i32>().ok(), "{:?}", s);
    }
}
