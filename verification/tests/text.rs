//! Text helpers against the standard library, and the table and paths.

use beckon_macos::order::sort;
use beckon_macos::paths::{abbreviate_from, join_path};
use beckon_macos::table::Table;
use beckon_macos::text::{
    before, capitalize, contains, control, decimal_of, ends_with, join_all,
    lines_of, parse_i32, parse_u32, parse_u64, parse_usize, rsplit_once, signed_decimal_of, space,
    split_once, split_space, split_word, starts_with, strip_leading, strip_prefix,
    to_ascii_lowercase, trim, trim_end, trim_start, wide_signed_decimal_of,
};

const SAMPLES: &[&str] = &[
    "",
    " ",
    "a",
    "abc",
    " a b ",
    "\u{a0}x\u{2003}",
    "a\nb\r\nc",
    "\n",
    "x\n\ny\n",
    "\r\n",
    "caf\u{e9} \u{1F525}",
    "a=b=c",
    "=",
    "+12",
    "-12",
    "012",
    "--1",
    "4294967296",
    "2147483648",
    "-2147483648",
    "18446744073709551615",
    "18446744073709551616",
    "\u{fffd}\u{10ffff}",
    "tab\tsep  two",
];

#[test]
fn every_character_is_classed_as_the_standard_library_does() {
    for c in (0..=0x10ffffu32).filter_map(char::from_u32) {
        assert_eq!(space(c), c.is_whitespace(), "{c:?}");
        assert_eq!(control(c), c.is_control(), "{c:?}");
    }
}

#[test]
fn trimming_and_splitting_agree_with_the_standard_library() {
    for s in SAMPLES {
        assert_eq!(trim(s), s.trim());
        assert_eq!(trim_start(s), s.trim_start());
        assert_eq!(trim_end(s), s.trim_end());
        assert_eq!(lines_of(s), s.lines().collect::<Vec<_>>());
        assert_eq!(to_ascii_lowercase(s), s.to_ascii_lowercase());
        assert_eq!(strip_leading(s, 'a'), s.trim_start_matches('a'));
        let pair = |p: Option<(&str, &str)>| p.map(|(a, b)| (a.to_string(), b.to_string()));
        assert_eq!(split_once(s, '='), pair(s.split_once('=')));
        assert_eq!(rsplit_once(s, '='), pair(s.rsplit_once('=')));
        assert_eq!(
            split_word(s.trim()).map(|(w, _)| w),
            s.split_whitespace().next().map(|w| w.to_string())
        );
        for p in SAMPLES {
            assert_eq!(starts_with(s, p), s.starts_with(p), "{s:?} {p:?}");
            assert_eq!(ends_with(s, p), s.ends_with(p), "{s:?} {p:?}");
            assert_eq!(contains(s, p), s.contains(p), "{s:?} {p:?}");
            assert_eq!(before(s, p), s < p, "{s:?} {p:?}");
            assert_eq!(strip_prefix(s, p).as_deref(), s.strip_prefix(p), "{s:?} {p:?}");
        }
    }
    assert_eq!(split_space("a b c"), Some(("a".to_string(), "b c".to_string())));
}

#[test]
fn numbers_agree_with_the_standard_library() {
    for s in SAMPLES {
        assert_eq!(parse_u64(s), s.parse().ok(), "{s:?}");
        assert_eq!(parse_u32(s), s.parse().ok(), "{s:?}");
        assert_eq!(parse_usize(s), s.parse().ok(), "{s:?}");
        assert_eq!(parse_i32(s), s.parse().ok(), "{s:?}");
    }
    for n in [0, 9, 10, 12345, u64::MAX] {
        assert_eq!(decimal_of(n), n.to_string());
        assert_eq!(parse_u64(&decimal_of(n)), Some(n));
    }
    for n in [0, -1, 10, i64::MIN, i64::MAX] {
        assert_eq!(signed_decimal_of(n), n.to_string());
    }
    for n in [0, -7, i128::MIN, i128::MAX] {
        assert_eq!(wide_signed_decimal_of(n), n.to_string());
    }
}

#[test]
fn joining_and_capitals() {
    let parts = vec!["a".to_string(), "b".to_string(), "c".to_string()];
    assert_eq!(join_all(&parts, "+"), "a+b+c");
    assert_eq!(join_all(&vec![], "+"), "");
    assert_eq!(capitalize("space"), "Space");
    assert_eq!(capitalize("\u{e9}a"), "\u{e9}a");
    assert_eq!(capitalize(""), "");
}

#[test]
fn tables_keep_the_last_value() {
    let t = Table::new().insert("a", "1").insert("b", "2").insert("a", "3");
    assert_eq!(t.get("a").map(|s| s.as_str()), Some("3"));
    assert_eq!(t.get("b").map(|s| s.as_str()), Some("2"));
    assert_eq!(t.get("c"), None);
    assert!(t.contains_key("b") && !t.contains_key("c"));
}

#[test]
fn sorting_is_stable_and_by_text() {
    let v: Vec<String> =
        ["b", "a", "", "\u{e9}", "b", "Z"].iter().map(|s| s.to_string()).collect();
    assert_eq!(sort(&v), vec![2, 5, 1, 0, 4, 3]);
}

#[test]
fn paths_join_and_abbreviate() {
    assert_eq!(join_path("/a", "b"), "/a/b");
    assert_eq!(join_path("/a/", "b"), "/a/b");
    assert_eq!(join_path("/a", "/b"), "/b");
    assert_eq!(join_path("", "b"), "b");
    assert_eq!(abbreviate_from("/home/user/x", Some("/home/u")), "/home/user/x");
}
