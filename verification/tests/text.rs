use asset_manager::text::{
    chars_le, contains, count_occurrences, ends_with, ends_with_ignoring_ascii_case,
    is_whitespace, matches_at, replace, same_text, starts_with, to_ascii_lower, to_chars, trim,
};

fn chars(s: &str) -> Vec<char> {
    s.chars().collect()
}

#[test]
fn to_chars_gives_the_characters_in_order() {
    assert_eq!(to_chars("añ✅"), vec!['a', 'ñ', '\u{2705}']);
    assert_eq!(to_chars(""), Vec::<char>::new());
}

#[test]
fn same_text_compares_character_by_character() {
    assert!(same_text("", ""));
    assert!(same_text("abc", "abc"));
    assert!(!same_text("abc", "abd"));
    assert!(!same_text("abc", "ab"));
    assert!(!same_text("ab", "abc"));
}

#[test]
fn trim_agrees_with_the_standard_library() {
    let cases = [
        "",
        " ",
        "a",
        "  a  ",
        "\t\n a b \r\n",
        "\u{a0}x\u{3000}",
        "\u{2000}\u{200a}y\u{2028}\u{2029}",
        "\u{85}z\u{1680}",
        "\u{200b}w\u{200b}",
        "\u{202f}\u{205f}q\u{feff}",
        "\u{b}\u{c}k\u{1c}",
        "inner  space",
    ];
    for case in cases {
        assert_eq!(trim(case), case.trim(), "trimming {:?}", case);
    }
}

#[test]
fn whitespace_agrees_with_the_standard_library() {
    for code in 0u32..0x3100 {
        if let Some(c) = char::from_u32(code) {
            assert_eq!(is_whitespace(c), c.is_whitespace(), "U+{:04X}", code);
        }
    }
    assert!(!is_whitespace('\u{feff}'));
    assert!(!is_whitespace('\u{10ffff}'));
}

#[test]
fn suffixes_are_compared_exactly() {
    assert!(ends_with(&chars("a.svg"), &chars(".svg")));
    assert!(ends_with(&chars(".svg"), &chars(".svg")));
    assert!(ends_with(&chars("abc"), &chars("")));
    assert!(!ends_with(&chars("a.SVG"), &chars(".svg")));
    assert!(!ends_with(&chars("svg"), &chars(".svg")));
    assert!(!ends_with(&chars("a.svgx"), &chars(".svg")));
}

#[test]
fn suffixes_are_compared_without_regard_to_ascii_case() {
    assert!(ends_with_ignoring_ascii_case(&chars("a.TtF"), &chars(".ttf")));
    assert!(ends_with_ignoring_ascii_case(&chars("a.ttf"), &chars(".TTF")));
    assert!(!ends_with_ignoring_ascii_case(&chars("a.tt"), &chars(".ttf")));
    assert!(!ends_with_ignoring_ascii_case(&chars("a.ÄB"), &chars(".äb")));
    assert_eq!(to_ascii_lower('A'), 'a');
    assert_eq!(to_ascii_lower('Z'), 'z');
    assert_eq!(to_ascii_lower('a'), 'a');
    assert_eq!(to_ascii_lower('@'), '@');
    assert_eq!(to_ascii_lower('['), '[');
    assert_eq!(to_ascii_lower('Ä'), 'Ä');
}

#[test]
fn occurrences_are_counted_without_overlap() {
    let cases = [
        ("<path<path", "<path"),
        ("aaaa", "aa"),
        ("aaa", "aa"),
        ("abc", "abcd"),
        ("", "a"),
        ("abcabcab", "abc"),
        ("ababab", "aba"),
    ];
    for (text, needle) in cases {
        assert_eq!(
            count_occurrences(&chars(text), &chars(needle)),
            text.matches(needle).count(),
            "{:?} in {:?}",
            needle,
            text
        );
    }
    assert_eq!(count_occurrences(&chars("aaaa"), &chars("aa")), 2);
    assert_eq!(count_occurrences(&chars("abc"), &chars("")), 0);
}

#[test]
fn matches_at_looks_at_one_place() {
    assert!(matches_at(&chars("abcd"), &chars("bc"), 1));
    assert!(!matches_at(&chars("abcd"), &chars("bc"), 0));
    assert!(!matches_at(&chars("abcd"), &chars("cd"), 3));
    assert!(matches_at(&chars("abcd"), &chars(""), 4));
    assert!(!matches_at(&chars("abcd"), &chars(""), 5));
}

#[test]
fn prefixes_and_parts_are_found() {
    assert!(starts_with(&chars("/vault/a"), &chars("/vault")));
    assert!(starts_with(&chars("/vault"), &chars("")));
    assert!(!starts_with(&chars("/vaul"), &chars("/vault")));
    assert!(contains(&chars("hello"), &chars("ell")));
    assert!(contains(&chars("hello"), &chars("")));
    assert!(contains(&chars("hello"), &chars("o")));
    assert!(!contains(&chars("hello"), &chars("lol")));
}

#[test]
fn replace_agrees_with_the_standard_library() {
    let cases = [
        ("abcabc", "b", "xy"),
        ("aaaa", "aa", "a"),
        ("aaa", "aa", "b"),
        ("abc", "", "-"),
        ("", "", "-"),
        ("", "a", "b"),
        ("abc", "abc", ""),
        ("abc", "c", "cc"),
        ("ab", "abc", "x"),
    ];
    for (text, from, to) in cases {
        let out: String = replace(&chars(text), &chars(from), &chars(to)).into_iter().collect();
        assert_eq!(out, text.replace(from, to), "{:?} for {:?} in {:?}", to, from, text);
    }
}

#[test]
fn names_compare_as_strings_do() {
    let names = ["", "a", "A", "ab", "b", "B", "_", "ä", "a.svg", "a-b", "10", "9", "\u{10000}", "z"];
    for a in names {
        for b in names {
            assert_eq!(chars_le(&chars(a), &chars(b)), a <= b, "{:?} <= {:?}", a, b);
        }
    }
}
