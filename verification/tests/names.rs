use theme_test::{name_order, NameMap, NameOrder};

#[test]
fn names_are_ordered_as_strings_are() {
    let names = ["", "a", "A", "ab", "abc", "b", "B", "é", "e", "z", "zz", "~", "日本", "\u{10FFFF}", "a\u{0}"];
    for a in names {
        for b in names {
            let expected = if a < b {
                NameOrder::Before
            } else if a == b {
                NameOrder::Same
            } else {
                NameOrder::After
            };
            assert_eq!(name_order(a, b), expected, "{:?} {:?}", a, b);
        }
    }
}

#[test]
fn a_prefix_comes_first() {
    assert_eq!(name_order("text", "text.muted"), NameOrder::Before);
    assert_eq!(name_order("text.muted", "text"), NameOrder::After);
    assert_eq!(name_order("", "a"), NameOrder::Before);
    assert_eq!(name_order("", ""), NameOrder::Same);
}

#[test]
fn upper_case_comes_before_lower_case() {
    assert_eq!(name_order("Zebra", "apple"), NameOrder::Before);
    assert_eq!(name_order("apple", "Zebra"), NameOrder::After);
}

#[test]
fn name_map_binds_and_replaces() {
    let mut map: NameMap<u32> = NameMap::new();
    assert_eq!(map.len(), 0);
    assert_eq!(map.get("a"), None);
    assert_eq!(map.entry(0), None);
    map.insert("m".to_string(), 1);
    map.insert("a".to_string(), 2);
    map.insert("z".to_string(), 3);
    map.insert("m".to_string(), 4);
    assert_eq!(map.len(), 3);
    assert_eq!(map.get("a"), Some(&2));
    assert_eq!(map.get("m"), Some(&4));
    assert_eq!(map.get("z"), Some(&3));
    assert_eq!(map.get("b"), None);
    assert_eq!(map.get(""), None);
    assert_eq!(map.get("zz"), None);
    assert_eq!(map.entry(0), Some((&"a".to_string(), &2)));
    assert_eq!(map.entry(1), Some((&"m".to_string(), &4)));
    assert_eq!(map.entry(2), Some((&"z".to_string(), &3)));
    assert_eq!(map.entry(3), None);
}

#[test]
fn name_map_agrees_with_a_sorted_map() {
    let mut map: NameMap<usize> = NameMap::new();
    let mut model = std::collections::BTreeMap::new();
    let mut seed: u32 = 12345;
    for i in 0..500 {
        seed = seed.wrapping_mul(1103515245).wrapping_add(12345);
        let name = format!("n{}", (seed >> 16) % 97);
        map.insert(name.clone(), i);
        model.insert(name, i);
        assert_eq!(map.len(), model.len());
    }
    for (i, (name, value)) in model.iter().enumerate() {
        assert_eq!(map.entry(i), Some((name, value)));
        assert_eq!(map.get(name), Some(value));
    }
    assert_eq!(map.entry(model.len()), None);
}
