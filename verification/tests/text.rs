use receiver_mock::counters;
use receiver_mock::labels::Labels;
use receiver_mock::strmap::StrMap;
use receiver_mock::text::{
    chars_of, find_char, find_pair, i64_to_string, is_whitespace, lines_of, split, trim,
    u64_to_string,
};

#[test]
fn lines_end_at_line_feeds() {
    assert_eq!(lines_of(""), Vec::<String>::new());
    assert_eq!(lines_of("a"), vec!["a"]);
    assert_eq!(lines_of("a\n"), vec!["a"]);
    assert_eq!(lines_of("a\nb"), vec!["a", "b"]);
    assert_eq!(lines_of("a\r\nb\r\n"), vec!["a", "b"]);
    assert_eq!(lines_of("\n\na"), vec!["", "", "a"]);
    assert_eq!(lines_of("a\n\n"), vec!["a", ""]);
    assert_eq!(lines_of("a\rb\n\r\nc\r"), vec!["a\rb", "", "c\r"]);
    let text = "foo\nbar\n\r\nbaz\r";
    assert_eq!(lines_of(text), text.lines().collect::<Vec<_>>());
    let text = "ünï\r\ncødé\n\n";
    assert_eq!(lines_of(text), text.lines().collect::<Vec<_>>());
}

#[test]
fn split_gives_one_piece_more_than_separators() {
    assert_eq!(split("", ','), vec![""]);
    assert_eq!(split("a", ','), vec!["a"]);
    assert_eq!(split("a,b", ','), vec!["a", "b"]);
    assert_eq!(split(",a,,b,", ','), vec!["", "a", "", "b", ""]);
    for text in ["a b  c", " ", "x.y.z", "é,ü"] {
        for sep in [' ', '.', ','] {
            assert_eq!(split(text, sep), text.split(sep).collect::<Vec<_>>());
        }
    }
}

#[test]
fn trim_removes_white_space_at_both_ends() {
    assert_eq!(trim(""), "");
    assert_eq!(trim("   "), "");
    assert_eq!(trim(" a b \t\r\n"), "a b");
    assert_eq!(trim("\u{a0}\u{2003}x\u{3000}\u{85}"), "x");
    assert_eq!(trim("\u{200b}x"), "\u{200b}x");
    for code in 0..0x3100u32 {
        if let Some(c) = char::from_u32(code) {
            assert_eq!(is_whitespace(c), c.is_whitespace(), "{:x}", code);
        }
    }
}

#[test]
fn characters_are_found_by_index() {
    let chars = chars_of("a=b=c");
    assert_eq!(chars, vec!['a', '=', 'b', '=', 'c']);
    assert_eq!(find_char(&chars, 0, '='), 1);
    assert_eq!(find_char(&chars, 2, '='), 3);
    assert_eq!(find_char(&chars, 4, '='), 5);
    assert_eq!(find_char(&chars, 5, '='), 5);
    assert_eq!(find_pair(&chars_of("a b  c  d"), ' ', ' '), 3);
    assert_eq!(find_pair(&chars_of("a b c"), ' ', ' '), 5);
    assert_eq!(find_pair(&chars_of("  "), ' ', ' '), 0);
    assert_eq!(find_pair(&chars_of(" "), ' ', ' '), 1);
    assert_eq!(find_pair(&chars_of(""), ' ', ' '), 0);
}

#[test]
fn numbers_render_in_decimal_digits() {
    assert_eq!(u64_to_string(0), "0");
    assert_eq!(u64_to_string(9), "9");
    assert_eq!(u64_to_string(10), "10");
    assert_eq!(u64_to_string(1234567890), "1234567890");
    assert_eq!(u64_to_string(u64::MAX), "18446744073709551615");
    assert_eq!(i64_to_string(-1), "-1");
    assert_eq!(i64_to_string(i64::MIN), i64::MIN.to_string());
    assert_eq!(i64_to_string(i64::MAX), i64::MAX.to_string());
}

#[test]
fn map_keeps_keys_in_the_order_of_first_insertion() {
    let mut map: StrMap<u64> = StrMap::new();
    map.insert("b".to_string(), 1);
    map.insert("a".to_string(), 2);
    map.insert("b".to_string(), 3);
    assert_eq!(map.len(), 2);
    assert_eq!(map.key_at(0), "b");
    assert_eq!(*map.value_at(0), 3);
    assert_eq!(map.key_at(1), "a");
    assert_eq!(map.position("a"), Some(1));
    assert_eq!(map.position("c"), None);
    assert!(map.contains_key("a"));
    assert!(!map.contains_key("A"));
    assert_eq!(map.get("b"), Some(&3));
    map.set_value_at(1, 9);
    assert_eq!(map.get("a"), Some(&9));
    let mut other = 5;
    map.swap_value_at(0, &mut other);
    assert_eq!((other, map.get("b")), (3, Some(&5)));
    map.clear();
    assert_eq!(map.len(), 0);
    assert_eq!(map.get("a"), None);
}

#[test]
fn counters_add_up() {
    let mut counts: StrMap<u64> = StrMap::new();
    counts.add_count("a", 2);
    counts.add_count("b", 3);
    counts.add_count("a", 5);
    assert_eq!(counts.get("a"), Some(&7));
    let mut other: StrMap<u64> = StrMap::new();
    other.add_count("b", 1);
    other.add_count("c", 4);
    counts.add_all(&other);
    assert_eq!(counts.len(), 3);
    assert_eq!(
        (counts.get("a"), counts.get("b"), counts.get("c")),
        (Some(&7), Some(&4), Some(&4))
    );
    let _ = counters::sum;
}

#[test]
fn labels_compare_without_regard_to_order() {
    let mut a = Labels::new();
    a.set("x".to_string(), "1".to_string());
    a.set("y".to_string(), "2".to_string());
    let mut b = Labels::new();
    b.set("y".to_string(), "2".to_string());
    b.set("x".to_string(), "1".to_string());
    assert!(a.same_text(&b));
    b.set("x".to_string(), "3".to_string());
    assert!(!a.same_text(&b));
    let mut c = a.duplicate();
    assert!(c.same_text(&a));
    assert_eq!(c.key_at(0), "x");
    c.set("z".to_string(), "".to_string());
    assert!(!c.same_text(&a));
    assert!(!a.same_text(&c));
    a.extend_with(&b);
    assert_eq!(a.get_text("x"), Some("3"));
    assert_eq!(a.get_text("y"), Some("2"));
    assert_eq!(a.len(), 2);
    assert_eq!(a.get_text("nope"), None);
}
