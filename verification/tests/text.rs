//! Strings, names and the order of names.

use badness::names::{add_name, place_name, Name, NameMap, Placing};
use badness::text::{
    byte_len, has_prefix, is_white_space, last_list_item, same_text, take_bytes, trim_backslashes,
    trim_start, utf16_width_of, utf8_width_of,
};

const SAMPLES: [&str; 12] = [
    "",
    "a",
    "ab",
    "abc",
    "b",
    "B",
    "é",
    "z",
    "€uro",
    "😀",
    "\u{ffff}",
    "\u{10000}",
];

#[test]
fn widths_are_those_of_every_character() {
    for code in 0..=0x10ffffu32 {
        if let Some(c) = char::from_u32(code) {
            assert_eq!(utf8_width_of(c), c.len_utf8());
            assert_eq!(utf16_width_of(c), c.len_utf16());
            assert_eq!(is_white_space(c), c.is_whitespace());
        }
    }
}

#[test]
fn lengths_and_cuts_are_in_bytes() {
    for s in SAMPLES {
        assert_eq!(byte_len(s), s.len());
        for n in 0..=s.len() + 1 {
            assert_eq!(take_bytes(s, n), s.get(..n).unwrap_or(s), "{s:?} {n}");
        }
    }
}

#[test]
fn names_are_ordered_as_std_orders_strings() {
    for a in SAMPLES {
        for b in SAMPLES {
            let expected = if a < b {
                Placing::Before
            } else if a == b {
                Placing::Same
            } else {
                Placing::After
            };
            assert_eq!(place_name(a, b), expected, "{a:?} {b:?}");
            assert_eq!(same_text(a, b), a == b);
            assert_eq!(has_prefix(a, b), a.starts_with(b));
        }
    }
}

#[test]
fn added_names_are_sorted_and_distinct() {
    let mut found: Vec<String> = Vec::new();
    for name in SAMPLES.iter().rev().chain(SAMPLES.iter()) {
        add_name(&mut found, name);
    }
    let mut expected: Vec<&str> = SAMPLES.to_vec();
    expected.sort();
    expected.dedup();
    assert_eq!(found, expected);
}

#[test]
fn trims_and_list_items() {
    for s in ["", "  a b ", "\t\n\u{a0}\u{3000}x", "x", "\u{200b}x", "\u{85}"] {
        assert_eq!(trim_start(s), s.trim_start(), "{s:?}");
    }
    for s in ["", "\\", "\\\\a\\b", "a"] {
        assert_eq!(trim_backslashes(s), s.trim_start_matches('\\'));
    }
    for s in ["", ",", "a", "a,b", "a,,", "é,😀 ,ü"] {
        assert_eq!(last_list_item(s), s.rsplit(',').next().unwrap());
    }
}

#[test]
fn names_keep_their_spelling() {
    for s in SAMPLES {
        let name = Name::new(s);
        assert_eq!(name.as_str(), s);
        assert_eq!(name.clone().as_str(), s);
    }
    let long = "a rather long name that fits no inline buffer";
    assert_eq!(Name::new(long).as_str(), long);
}

#[test]
fn map_keeps_the_last_value_of_each_name() {
    let mut map: NameMap<Name> = NameMap::new();
    for (name, value) in [("b", "1"), ("a", "2"), ("b", "3"), ("c", "4")] {
        map.insert(name, Name::new(value));
    }
    assert_eq!(map.len(), 3);
    assert_eq!(map.all_names(), vec!["a", "b", "c"]);
    assert_eq!(map.get("b").unwrap().as_str(), "3");
    map.remove("b");
    map.remove("nowhere");
    assert!(map.get("b").is_none());
    assert_eq!(map.all_names(), vec!["a", "c"]);
    assert_eq!(map.entry_at(1).0, "c");
    assert_eq!(map.entry_at(1).1.as_str(), "4");
    assert_eq!(map.all_values()[0].as_str(), "2");
}
