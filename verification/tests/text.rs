use solark_monitor::text::tenths_text;
use solark_monitor::text_map::{place, Placement, TextMap};

#[test]
fn tenths_read_as_floating_point_prints_them() {
    assert_eq!(tenths_text(0), "0.0");
    assert_eq!(tenths_text(-1), "-0.1");
    assert_eq!(tenths_text(525), "52.5");
    assert_eq!(tenths_text(655350), "65535.0");
    assert_eq!(tenths_text(-327680), "-32768.0");
    assert_eq!(tenths_text(i32::MIN), "-214748364.8");
    for t in -327680..=655350 {
        assert_eq!(tenths_text(t), format!("{:?}", t as f64 / 10.0));
    }
}

#[test]
fn texts_are_placed_as_the_standard_library_orders_them() {
    let texts = ["", "a", "ab", "b", "B", "\u{e9}", "e", "\u{1f600}", "\u{ffff}", "abc", "a\0"];
    for a in texts {
        for b in texts {
            let expected = if a < b {
                Placement::Before
            } else if a == b {
                Placement::Same
            } else {
                Placement::After
            };
            assert_eq!(place(a, b), expected);
        }
    }
}

#[test]
fn a_text_map_keeps_its_entries_in_order() {
    let mut map = TextMap::new();
    for (i, key) in ["m", "c", "x", "a", "c", "\u{e9}", "z"].into_iter().enumerate() {
        map.insert(key.to_string(), i);
    }
    let keys: Vec<&str> = map.entries.iter().map(|(k, _)| k.as_str()).collect();
    assert_eq!(keys, vec!["a", "c", "m", "x", "z", "\u{e9}"]);
    assert_eq!(map.get("c"), Some(4));
    assert_eq!(map.get("b"), None);
    map.remove_at(1);
    assert_eq!(map.get("c"), None);
    assert_eq!(map.get("m"), Some(0));
    assert_eq!(map.get("a"), Some(3));
}
