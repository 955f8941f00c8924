use visurx::string_map::StringMap;
use visurx::text::append_decimal;
use visurx::text::chars_of;
use visurx::text::contains;
use visurx::text::ends_with;
use visurx::text::is_before;
use visurx::text::is_whitespace;
use visurx::text::join_with;
use visurx::text::replace;
use visurx::text::rsplit_before;
use visurx::text::same;
use visurx::text::skip;
use visurx::text::sort_and_dedup;
use visurx::text::split_on;
use visurx::text::split_once_after;
use visurx::text::split_whitespace;
use visurx::text::starts_with;
use visurx::text::string_of;
use visurx::text::strip_prefix;
use visurx::text::strip_suffix;
use visurx::text::trim;
use visurx::text::trim_slashes;

const SAMPLES: [&str; 8] =
    ["", "a", "a/b", "/a//b/", "gr\u{fc}n/\u{1f333}", "//", " x \t y ", "a.b.c"];

#[test]
fn joining_undoes_splitting() {
    for s in SAMPLES {
        assert_eq!(join_with(&split_on(s, '/'), "/"), s);
        let expected: Vec<String> = s.split('/').map(|p| p.to_string()).collect();
        assert_eq!(split_on(s, '/'), expected);
    }
}

#[test]
fn texts_are_searched_as_in_the_standard_library() {
    for s in SAMPLES {
        for t in ["", "a", "/", "b/", "\u{1f333}", "/a/"] {
            assert_eq!(starts_with(s, t), s.starts_with(t));
            assert_eq!(ends_with(s, t), s.ends_with(t));
            assert_eq!(contains(s, t), s.contains(t));
            assert_eq!(strip_prefix(s, t).as_deref(), s.strip_prefix(t));
            assert_eq!(strip_suffix(s, t).as_deref(), s.strip_suffix(t));
            assert_eq!(same(s, t), s == t);
            assert_eq!(is_before(s, t), s < t);
        }
        assert_eq!(split_once_after(s, '/').as_deref(), s.split_once('/').map(|p| p.1));
        assert_eq!(rsplit_before(s, '/'), s.rsplit_once('/').map(|p| p.0).unwrap_or(""));
        assert_eq!(trim_slashes(s), s.trim_end_matches('/'));
        assert_eq!(trim(s), s.trim());
        assert_eq!(replace(s, '/', '.'), s.replace('/', "."));
        assert_eq!(string_of(&chars_of(s)), s);
        let words: Vec<String> = s.split_whitespace().map(|w| w.to_string()).collect();
        assert_eq!(split_whitespace(s), words);
    }
    assert_eq!(skip("gr\u{fc}n", 3), "n");
}

#[test]
fn the_same_characters_are_white_space_as_in_the_standard_library() {
    for code in 0..0x11_0000u32 {
        if let Some(c) = char::from_u32(code) {
            assert_eq!(is_whitespace(c), c.is_whitespace());
        }
    }
}

#[test]
fn numbers_are_written_in_decimal() {
    for n in [0, 7, 10, 99, 100, 1234567890, u64::MAX] {
        let mut s = "n=".to_string();
        append_decimal(&mut s, n);
        assert_eq!(s, format!("n={n}"));
    }
}

#[test]
fn sorting_leaves_each_item_once() {
    let items: Vec<String> = ["b", "a", "c", "a", "B", "\u{fc}", "b"].iter().map(|s| s.to_string()).collect();
    let mut expected = items.clone();
    expected.sort();
    expected.dedup();
    assert_eq!(sort_and_dedup(items), expected);
    assert!(sort_and_dedup(Vec::new()).is_empty());
}

#[test]
fn a_map_keeps_its_keys_in_the_order_in_which_they_came() {
    let mut map: StringMap<u8> = StringMap::new();
    assert!(map.is_empty());
    assert_eq!(map.insert("b".to_string(), 1), None);
    assert_eq!(map.insert("a".to_string(), 2), None);
    assert_eq!(map.insert("b".to_string(), 3), Some(1));
    assert_eq!(map.keys(), vec!["b", "a"]);
    assert_eq!((map.key_at(1), *map.value_at(1)), ("a", 2));
    assert_eq!(map.len(), 2);
    let copy = map.clone();
    assert_eq!(map.remove("b"), Some(3));
    assert_eq!(map.remove("b"), None);
    assert!(!map.contains_key("b"));
    assert_eq!(map.keys(), vec!["a"]);
    assert_eq!(copy.get("b"), Some(&3));
    assert_eq!(copy.get("x"), None);
}
