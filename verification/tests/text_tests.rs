use domain_health::removal::parse_mapping;
use domain_health::text::{
    begins_with, chars_of, contains, decimal_text, digit_text, find_char, is_white_space,
    lines_of, same_text, slice, stands_at, to_ascii_lower, to_ascii_lowercase, trimmed,
    without_trailing,
};
use std::collections::HashMap;

fn chars(s: &str) -> Vec<char> {
    s.chars().collect()
}

fn text(v: Vec<char>) -> String {
    v.into_iter().collect()
}

const SAMPLES: [&str; 12] = [
    "",
    " ",
    "a",
    "  padded  ",
    "\t\r\n mixed \u{a0}\u{2003}\u{3000}",
    "\u{85}next line\u{1680}",
    "no-space",
    "inner  space",
    "\u{200b}zero width is no space\u{200b}",
    "é accents ü",
    "////",
    "a/b//",
];

#[test]
fn characters_are_those_of_the_string() {
    for s in SAMPLES {
        assert_eq!(chars_of(s), chars(s));
    }
}

#[test]
fn white_space_is_what_the_standard_library_says() {
    for code in 0..=0x10FFFFu32 {
        if let Some(c) = char::from_u32(code) {
            assert_eq!(is_white_space(c), c.is_whitespace(), "U+{:04X}", code);
        }
    }
}

#[test]
fn lower_case_is_what_the_standard_library_says() {
    for code in 0..=0x10FFFFu32 {
        if let Some(c) = char::from_u32(code) {
            assert_eq!(to_ascii_lower(c), c.to_ascii_lowercase(), "U+{:04X}", code);
        }
    }
    assert_eq!(text(to_ascii_lowercase(&chars("MiXeD ÄÖ 123"))), "mixed ÄÖ 123");
    assert_eq!(to_ascii_lowercase(&vec![]), vec![]);
}

#[test]
fn trimming_is_what_the_standard_library_says() {
    for s in SAMPLES {
        assert_eq!(text(trimmed(&chars(s))), s.trim());
        assert_eq!(text(without_trailing(&chars(s), '/')), s.trim_end_matches('/'));
    }
}

#[test]
fn search_is_what_the_standard_library_says() {
    let needles = ["", "a", "  ", "space", "é", "//", "padded  ", "zz"];
    for s in SAMPLES {
        for n in needles {
            assert_eq!(contains(&chars(s), &chars(n)), s.contains(n), "{:?} in {:?}", n, s);
            assert_eq!(begins_with(&chars(s), &chars(n)), s.starts_with(n));
            assert_eq!(same_text(&chars(s), &chars(n)), s == n);
        }
    }
    assert!(stands_at(&chars("abcabc"), &chars("bc"), 4));
    assert!(!stands_at(&chars("abcabc"), &chars("bc"), 5));
    assert!(!stands_at(&chars("abc"), &chars("c"), 7));
    assert!(stands_at(&chars("abc"), &chars(""), 3));
    assert!(!stands_at(&chars("abc"), &chars(""), 4));
}

#[test]
fn first_place_of_a_character() {
    let t = chars("a:b:c");
    assert_eq!(find_char(&t, ':', 0), Some(1));
    assert_eq!(find_char(&t, ':', 1), Some(1));
    assert_eq!(find_char(&t, ':', 2), Some(3));
    assert_eq!(find_char(&t, ':', 4), None);
    assert_eq!(find_char(&t, ':', 5), None);
    assert_eq!(find_char(&vec![], ':', 0), None);
    assert_eq!(text(slice(&t, 2, 5)), "b:c");
    assert_eq!(slice(&t, 3, 3), vec![]);
}

#[test]
fn lines_are_what_stands_between_line_feeds() {
    for s in ["", "one", "one\ntwo", "one\n", "\n", "\n\n", "a\r\nb\n\nc"] {
        let expected: Vec<Vec<char>> = s.split('\n').map(chars).collect();
        assert_eq!(lines_of(&chars(s)), expected, "{:?}", s);
    }
}

#[test]
fn numbers_are_written_in_decimal() {
    for n in [0u32, 1, 9, 10, 11, 99, 100, 101, 1070, 65535, 1000000, 4294967294, u32::MAX] {
        assert_eq!(decimal_text(n), n.to_string());
    }
    for d in 0..10u32 {
        assert_eq!(digit_text(d), d.to_string());
    }
}

/// The feed read with the string functions of the standard library.
fn mapping_by_std(feed: &str) -> HashMap<String, String> {
    let mut mapping = HashMap::new();
    for line in feed.lines() {
        let line = line.trim();
        if line.is_empty() {
            continue;
        }
        let parts: Vec<&str> = line.splitn(2, ':').collect();
        if parts.len() != 2 {
            continue;
        }
        let site = parts[0].trim();
        let address = parts[1].trim();
        let rest = match address.strip_prefix("https://") {
            Some(rest) => rest,
            None => continue,
        };
        mapping.insert(rest.trim_end_matches('/').to_string(), site.to_string());
    }
    mapping
}

#[test]
fn feed_is_read_as_with_the_standard_library() {
    let feeds = [
        "",
        "\n",
        "awiki: https://a.example\n",
        "awiki: https://a.example",
        "awiki: https://a.example\r\nbwiki: https://b.example/\r\n",
        "awiki: https://a.example\rbwiki: https://b.example",
        "  awiki :  https://a.example//  \n\n\nbwiki:https://b.example\n",
        "awiki: https://same.example\nbwiki: https://same.example\n",
        "# comment\nkey: value\nawiki: http://a.example\nnocolon\n: https://x.example\n",
        "a:b:c: https://odd.example\nwiki: https://odd.example/a:b/\n",
        "\u{3000}wide\u{2003}:\u{a0}https://wide.example/\u{85}\n",
        "awiki: https://\nbwiki: https:///\n",
    ];
    let probes = [
        "a.example",
        "b.example",
        "same.example",
        "x.example",
        "odd.example",
        "odd.example/a:b",
        "wide.example",
        "",
        "a.example\rbwiki: https://b.example",
        "missing.example",
    ];
    for feed in feeds {
        let expected = mapping_by_std(feed);
        let mapping = parse_mapping(feed);
        for probe in probes {
            assert_eq!(mapping.get(probe), expected.get(probe), "{:?} in {:?}", probe, feed);
        }
        for (domain, site) in &expected {
            assert_eq!(mapping.get(domain), Some(site), "{:?} in {:?}", domain, feed);
        }
    }
}
