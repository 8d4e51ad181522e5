use marker_site::sanitize;
use marker_site::text::{
    chain, from_chars, has_prefix, has_suffix, join, less_than, number_text, parse_number,
    split_lines, stem_len, to_chars, trim_back_at, trim_front_at,
};

fn chars(s: &str) -> Vec<char> {
    s.chars().collect()
}

fn stem(name: &str) -> String {
    let c = chars(name);
    let n = stem_len(&c);
    from_chars(&c, 0, n)
}

fn parse(s: &str, max: u64) -> Option<u64> {
    let c = chars(s);
    parse_number(&c, 0, c.len(), max)
}

#[test]
fn sanitize_keeps_letters_and_digits() {
    assert_eq!(sanitize("Hello World 42!"), "Hello-World-42-");
    assert_eq!(sanitize("azAZ09"), "azAZ09");
}

#[test]
fn sanitize_replaces_separators_and_dots() {
    assert_eq!(sanitize("a/b.c\\d"), "a-b-c-d");
    assert_eq!(sanitize("../etc"), "---etc");
}

#[test]
fn sanitize_replaces_each_character_once() {
    // One placeholder for one character, whatever it takes in bytes.
    assert_eq!(sanitize("Crème brûlée"), "Cr-me-br-l-e");
    assert_eq!(sanitize("日本"), "--");
    assert_eq!(sanitize(""), "");
}

#[test]
fn sanitize_twice_is_sanitize_once() {
    let once = sanitize("Soup & Salad (2021)");
    assert_eq!(sanitize(&once), once);
}

#[test]
fn to_chars_and_back() {
    let c = to_chars("héllo");
    assert_eq!(c, vec!['h', 'é', 'l', 'l', 'o']);
    assert_eq!(from_chars(&c, 1, 4), "éll");
    assert_eq!(from_chars(&c, 2, 2), "");
}

#[test]
fn lines_as_std_splits_them() {
    for text in [
        "",
        "\n",
        "a",
        "a\n",
        "a\nb",
        "a\nb\n",
        "a\r\nb\r\n",
        "a\n\nb",
        "a\rb",
        "tail\r",
        "\r\n",
        "x\r\r\ny",
        "Blank\nP Lines small\n\nP Grid",
    ] {
        let expected: Vec<String> = text.lines().map(str::to_string).collect();
        assert_eq!(split_lines(text), expected, "{:?}", text);
    }
}

#[test]
fn lines_exact() {
    assert_eq!(split_lines("a\r\nb\n"), vec!["a".to_string(), "b".to_string()]);
    assert_eq!(split_lines("\n"), vec!["".to_string()]);
    assert_eq!(split_lines("tail\r"), vec!["tail\r".to_string()]);
    assert!(split_lines("").is_empty());
}

#[test]
fn join_puts_one_separator() {
    assert_eq!(join("/", "posts/a.html"), "/posts/a.html");
    assert_eq!(join("/site", "posts"), "/site/posts");
    assert_eq!(join("/site/", "posts"), "/site/posts");
    assert_eq!(join("", "posts"), "posts");
    assert_eq!(join("posts", ""), "posts/");
}

#[test]
fn join_as_paths_join() {
    for (base, rel) in [("/", "a"), ("/x", "a/b"), ("/x/", "a"), ("", "a"), ("x", ""), ("svg", "0.svg")] {
        let expected = std::path::Path::new(base).join(rel);
        assert_eq!(join(base, rel), expected.to_str().unwrap());
    }
}

#[test]
fn chain_appends() {
    assert_eq!(chain("soup", ".html"), "soup.html");
    assert_eq!(chain("", ""), "");
}

#[test]
fn number_text_exact() {
    assert_eq!(number_text(0), "0");
    assert_eq!(number_text(7), "7");
    assert_eq!(number_text(10), "10");
    assert_eq!(number_text(65535), "65535");
    assert_eq!(number_text(u64::MAX), "18446744073709551615");
}

#[test]
fn parse_number_as_std_parses() {
    for text in [
        "", "0", "7", "007", "+5", "+", "++1", "-0", "-1", " 1", "1 ", "12a", "65535", "65536",
        "99999999999999999999", "000000000000000000000000065535", "٣",
    ] {
        let expected = text.parse::<u16>().ok().map(u64::from);
        assert_eq!(parse(text, 65535), expected, "{:?}", text);
    }
}

#[test]
fn parse_number_round_trip() {
    for n in [0u64, 1, 9, 10, 99, 100, 12345, u64::MAX] {
        assert_eq!(parse(&number_text(n), u64::MAX), Some(n));
    }
    assert_eq!(parse("18446744073709551616", u64::MAX), None);
    assert_eq!(parse("18446744073709551615", u64::MAX), Some(u64::MAX));
}

#[test]
fn parse_number_within_a_range() {
    let c = chars("ab12cd");
    assert_eq!(parse_number(&c, 2, 4, 100), Some(12));
    assert_eq!(parse_number(&c, 2, 5, 100), None);
    assert_eq!(parse_number(&c, 2, 2, 100), None);
    assert_eq!(parse_number(&c, 2, 4, 11), None);
}

#[test]
fn stems_as_paths_have_them() {
    for name in ["0.svg", "10.svg", "3", ".svg", "a.b.svg", "a.", "..", ".", "...", "", "x..y", ".a.b"] {
        let expected = std::path::Path::new(name)
            .file_stem()
            .map(|s| s.to_str().unwrap().to_string());
        if let Some(expected) = expected {
            assert_eq!(stem(name), expected, "{:?}", name);
        }
    }
}

#[test]
fn stems_exact() {
    assert_eq!(stem("12.svg"), "12");
    assert_eq!(stem(".svg"), ".svg");
    assert_eq!(stem("archive.tar.gz"), "archive.tar");
    assert_eq!(stem(".."), "..");
    assert_eq!(stem("plain"), "plain");
}

#[test]
fn prefixes_and_suffixes() {
    let c = chars("id/3.rm");
    assert!(has_suffix(&c, 0, c.len(), &chars(".rm")));
    assert!(!has_suffix(&c, 0, c.len(), &chars(".rmx")));
    assert!(has_suffix(&c, 0, c.len(), &chars("")));
    assert!(has_prefix(&c, 0, c.len(), &chars("id/")));
    assert!(!has_prefix(&c, 1, c.len(), &chars("id/")));
    assert!(!has_suffix(&c, 0, 2, &chars("id/")));
}

#[test]
fn trimming_is_repeated() {
    let c = chars("ab/ab/7.rm.rm");
    let start = trim_front_at(&c, 0, c.len(), &chars("ab/"));
    let end = trim_back_at(&c, start, c.len(), &chars(".rm"));
    assert_eq!(from_chars(&c, start, end), "7");
    assert_eq!("ab/ab/7.rm.rm".trim_start_matches("ab/").trim_end_matches(".rm"), "7");
    // An empty pattern removes nothing.
    assert_eq!(trim_front_at(&c, 0, c.len(), &chars("")), 0);
    assert_eq!(trim_back_at(&c, 0, c.len(), &chars("")), c.len());
    // The whole text can go.
    let d = chars("xx");
    assert_eq!(trim_front_at(&d, 0, 2, &chars("x")), 2);
    assert_eq!(trim_back_at(&d, 0, 2, &chars("x")), 0);
}

#[test]
fn texts_order_as_strings_do() {
    let samples = [
        "", "a", "A", "ab", "b", "Z", "a b", "a-b", "10", "2", "é", "e", "ez", "日本", "z", "\u{10000}", "\u{ffff}",
    ];
    for x in samples {
        for y in samples {
            assert_eq!(less_than(&chars(x), &chars(y)), x < y, "{:?} {:?}", x, y);
        }
    }
}
