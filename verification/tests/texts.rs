use config_collector::collections::{place, Place, TextMap, TextSet};
use config_collector::numbers::{decimal_text, parse_number};
use config_collector::order::arrange;
use config_collector::percent::{percent_decode, percent_encode, safe_decode};
use config_collector::store::{add_link, add_links, set_links};
use config_collector::text::{
    bytes_in, ends_with, join, keep, lines, replace, replace_first, split, split_once,
    strip_prefix, strip_prefixes, trim, trim_end_of, trim_start_of, words,
};

fn owned(items: &[&str]) -> Vec<String> {
    items.iter().map(|s| s.to_string()).collect()
}

#[test]
fn lines_end_with_line_feeds() {
    assert_eq!(lines("a\nb\r\n\nc"), owned(&["a", "b", "", "c"]));
    assert_eq!(lines("a\n"), owned(&["a"]));
    assert_eq!(lines(""), owned(&[]));
    assert_eq!(lines("a\rb"), owned(&["a\rb"]));
}

#[test]
fn joined_lines_are_read_one_by_one() {
    let parts = owned(&["first", "second line", "third"]);
    assert_eq!(lines(&join(&parts, "\n")), parts);
}

#[test]
fn joined_parts_are_split_again() {
    let parts = owned(&["1", "", "3"]);
    assert_eq!(split(&join(&parts, "."), "."), parts);
}

#[test]
fn splitting_follows_the_separator() {
    assert_eq!(split("a://b://c", "://"), owned(&["a", "b", "c"]));
    assert_eq!(split("", ","), owned(&[""]));
    assert_eq!(split_once("a:b:c", ":"), Some(("a".to_string(), "b:c".to_string())));
    assert_eq!(split_once("abc", ":"), None);
    assert_eq!(words("  a\tb \n c "), owned(&["a", "b", "c"]));
    assert_eq!(words("   "), owned(&[]));
}

#[test]
fn prefixes_are_stripped() {
    assert_eq!(strip_prefix("@name", "@"), Some("name".to_string()));
    assert_eq!(strip_prefix("name", "@"), None);
    assert_eq!(strip_prefixes("ss://ss://x", "ss://"), "x");
    assert_eq!(strip_prefixes("x", ""), "x");
}

#[test]
fn trimming_a_second_time_changes_nothing() {
    let once = trim("\u{3000} a b \t\r\n");
    assert_eq!(once, "a b");
    assert_eq!(trim(&once), once);
    assert_eq!(trim_start_of("@@x@", &['@']), "x@");
    assert_eq!(trim_end_of("x)].", &[')', ']', '.']), "x");
    assert_eq!(trim(" \t "), "");
}

#[test]
fn replacing_goes_from_the_left() {
    assert_eq!(replace("aaa", "aa", "b"), "ba");
    assert_eq!(replace("a-b-c", "-", "+"), "a+b+c");
    assert_eq!(replace("abc", "x", "y"), "abc");
    assert_eq!(replace_first("a-b-c", "-", "+"), "a+b-c");
    assert_eq!(keep("a1b2.3", &['1', '2', '3']), "123");
    assert!(ends_with("a.EXE", ".EXE"));
    assert!(!ends_with("E", ".EXE"));
    assert_eq!(bytes_in("aé"), 3);
}

#[test]
fn numbers_are_written_and_read_back() {
    for n in [0u128, 9, 10, 4711, u64::MAX as u128, u128::MAX] {
        assert_eq!(parse_number(&decimal_text(n), 10, u128::MAX), Some(n));
    }
    assert_eq!(decimal_text(120), "120");
    assert_eq!(parse_number("+7", 10, 10), Some(7));
    assert_eq!(parse_number("+", 10, 10), None);
    assert_eq!(parse_number("", 10, 10), None);
    assert_eq!(parse_number("11", 10, 10), None);
    assert_eq!(parse_number("fF", 16, 255), Some(255));
    assert_eq!(parse_number("1a", 10, 255), None);
}

#[test]
fn percent_encoding_keeps_plain_characters() {
    assert_eq!(percent_encode("aZ9-._~ é#"), "aZ9-._~%20%C3%A9%23");
    assert_eq!(percent_encode("").len(), 0);
}

#[test]
fn percent_decoding_reads_single_characters() {
    assert_eq!(percent_decode("a%20b+c"), "a b c");
    assert_eq!(percent_decode("%C3%A9"), "\u{c3}\u{a9}");
    assert_eq!(percent_decode("%zz"), "%zz");
    assert_eq!(percent_decode("%4"), "\u{4}");
    assert_eq!(percent_decode("%"), "%");
}

#[test]
fn ascii_text_survives_percent_encoding() {
    let text = "[1] a | 20ms | x~y";
    assert_eq!(percent_decode(&percent_encode(text)), text);
}

#[test]
fn any_text_survives_encoding_and_safe_decoding() {
    let text = "  پروکسی 🔀 é ";
    assert_eq!(safe_decode(&percent_encode(text)), "پروکسی 🔀 é");
    assert_eq!(safe_decode("%F0%9F%9A%80+ok"), "🚀 ok");
    assert_eq!(safe_decode("%FF"), "\u{fffd}");
    assert_eq!(safe_decode("%q1x"), "%q1x");
}

#[test]
fn sets_are_kept_in_order() {
    let mut s = TextSet::new();
    assert!(s.is_empty());
    assert!(s.insert("b".to_string()));
    assert!(s.insert("a".to_string()));
    assert!(!s.insert("b".to_string()));
    assert!(s.insert("ab".to_string()));
    assert_eq!(s.to_vec(), owned(&["a", "ab", "b"]));
    assert_eq!(s.len(), 3);
    assert!(s.contains("ab"));
    assert!(!s.contains("c"));
    assert_eq!(s.first(2).to_vec(), owned(&["a", "ab"]));
    assert_eq!(s.get(1), "ab");
    let mut t = TextSet::from_list(&owned(&["z", "a"]));
    t.extend(&s);
    assert_eq!(t.to_vec(), owned(&["a", "ab", "b", "z"]));
    assert_eq!(t.clone().to_vec(), t.to_vec());
}

#[test]
fn texts_are_ordered_as_std_orders_strings() {
    let items = ["", "a", "aa", "b", "é", "🌐", "Z"];
    for a in items {
        for b in items {
            let p = place(a, b);
            match p {
                Place::Before => assert!(a < b),
                Place::Same => assert!(a == b),
                Place::After => assert!(a > b),
            }
        }
    }
}

#[test]
fn maps_are_kept_in_the_order_of_their_keys() {
    let mut m: TextMap<usize> = TextMap::new();
    m.insert("b".to_string(), 2);
    m.insert("a".to_string(), 1);
    m.insert("b".to_string(), 3);
    assert_eq!(m.len(), 2);
    assert_eq!(m.key(0), "a");
    assert_eq!(*m.value(1), 3);
    assert_eq!(m.get("b"), Some(&3));
    assert_eq!(m.get("c"), None);
    m.set_value(0, 9);
    assert_eq!(m.get("a"), Some(&9));
    assert_eq!(m.remove("a"), Some(9));
    assert_eq!(m.remove("a"), None);
    assert_eq!(m.len(), 1);
}

#[test]
fn links_are_grouped_by_protocol() {
    let mut m: TextMap<TextSet> = TextMap::new();
    add_link(&mut m, "ss", "ss://1".to_string());
    add_link(&mut m, "ss", "ss://1".to_string());
    add_links(&mut m, "ss", &TextSet::from_list(&owned(&["ss://2"])));
    set_links(&mut m, "tg", TextSet::from_list(&owned(&["tg://1"])));
    assert_eq!(m.get("ss").unwrap().to_vec(), owned(&["ss://1", "ss://2"]));
    assert_eq!(m.get("tg").unwrap().len(), 1);
}

#[test]
fn sorting_is_stable() {
    assert_eq!(arrange(&[3, 1, 2, 1, 3]), vec![1, 3, 2, 0, 4]);
    assert_eq!(arrange(&[]), Vec::<usize>::new());
}
