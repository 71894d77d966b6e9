//! Texts, maps and orders.

use cargo_athena::distance::{edit_distance, suggest};
use cargo_athena::maps::{Data, TextMap};
use cargo_athena::sorted::insert_text;
use cargo_athena::text::{
    byte_count, cat3, contains, decimal, ends_with, join, less, parse_u64, replace, rsplit_once,
    split_on, split_once, starts_with, strip_prefix, strip_suffix, trim, trim_char,
};

fn s(t: &str) -> String {
    t.to_string()
}

#[test]
fn texts_are_cut() {
    assert_eq!(split_once("a=b=c", '='), Some((s("a"), s("b=c"))));
    assert_eq!(split_once("abc", '='), None);
    assert_eq!(rsplit_once("a.b.c", '.'), Some((s("a.b"), s("c"))));
    assert_eq!(split_on("a..b", '.'), vec![s("a"), s(""), s("b")]);
    assert_eq!(split_on("", '.'), vec![s("")]);
    assert_eq!(strip_prefix("host-1", "host-"), Some(s("1")));
    assert_eq!(strip_prefix("1", "host-"), None);
    assert_eq!(strip_suffix("a.rs", ".rs"), Some(s("a")));
    assert_eq!(trim(" \t a b \u{a0}\n"), "a b");
    assert_eq!(trim_char("--a-b-", '-'), "a-b");
    assert!(starts_with("abc", "ab") && ends_with("abc", "bc") && contains("abc", "b"));
    assert!(!starts_with("ab", "abc") && !ends_with("ab", "aab") && !contains("ab", "ba"));
}

#[test]
fn texts_are_made() {
    assert_eq!(cat3("a", "", "b"), "ab");
    assert_eq!(join(&vec![s("a"), s("b"), s("c")], ", "), "a, b, c");
    assert_eq!(join(&vec![], ", "), "");
    assert_eq!(replace("a@@b@@", "@@", "-"), "a-b-");
    assert_eq!(decimal(0), "0");
    assert_eq!(decimal(u128::MAX), u128::MAX.to_string());
    assert_eq!(byte_count("aé→"), 6);
}

#[test]
fn numbers_are_read() {
    assert_eq!(parse_u64("0"), Some(0));
    assert_eq!(parse_u64("18446744073709551615"), Some(u64::MAX));
    assert_eq!(parse_u64("18446744073709551616"), None);
    assert_eq!(parse_u64(""), None);
    assert_eq!(parse_u64("+1"), None);
}

#[test]
fn texts_are_ordered_as_rust_orders_them() {
    let words = ["", "a", "aa", "ab", "b", "é", "\u{10000}", "A"];
    for x in words {
        for y in words {
            assert_eq!(less(x, y), x < y, "{x:?} {y:?}");
        }
    }
}

#[test]
fn a_set_of_texts_is_in_order() {
    let mut v: Vec<String> = Vec::new();
    for w in ["b", "a", "b", "c", "a"] {
        insert_text(&mut v, s(w));
    }
    assert_eq!(v, vec![s("a"), s("b"), s("c")]);
}

#[test]
fn a_map_keeps_its_keys_in_order() {
    let mut m: TextMap<String> = TextMap::new();
    assert!(m.is_empty());
    m.insert(s("b"), s("1"));
    m.insert(s("a"), s("2"));
    m.insert(s("b"), s("3"));
    assert_eq!(m.len(), 2);
    assert_eq!(m.keys(), vec![s("a"), s("b")]);
    assert_eq!(m.get("b"), Some(&s("3")));
    assert_eq!(m.get("c"), None);
    assert_eq!(m.entry(0), (&s("a"), &s("2")));
    let copy = m.dup();
    assert!(copy.same(&m));
    m.insert(s("c"), s("4"));
    assert!(!copy.same(&m));
}

#[test]
fn words_are_some_edits_apart() {
    assert_eq!(edit_distance("kitten", "sitting"), 3);
    assert_eq!(edit_distance("sitting", "kitten"), 3);
    assert_eq!(edit_distance("", "abc"), 3);
    for (a, b, c) in [("kitten", "mitten", "sitting"), ("", "abc", "xyz"), ("ab", "ba", "b")] {
        assert!(edit_distance(a, c) <= edit_distance(a, b) + edit_distance(b, c));
        assert!(edit_distance(a, b) <= a.len().max(b.len()));
    }
    assert_eq!(edit_distance("flaw", "lawn"), 2);
    assert_eq!(edit_distance("\u{e9}t\u{e9}", "ete"), 2);
    assert_eq!(edit_distance("same", "same"), 0);
}

#[test]
fn a_near_word_is_suggested() {
    let known = vec![s("name"), s("count"), s("named")];
    assert_eq!(suggest("nmae", &known).as_deref(), Some("name"));
    assert_eq!(suggest("counts", &known).as_deref(), Some("count"));
    assert_eq!(suggest("elsewhere", &known), None);
}
