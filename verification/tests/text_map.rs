use weather_cli::text_map::TextMap;

fn keys(map: &TextMap<String>) -> Vec<String> {
    (0..map.len()).map(|i| map.key_at(i).clone()).collect()
}

#[test]
fn a_new_map_is_empty() {
    let map: TextMap<String> = TextMap::new();
    assert_eq!(map.len(), 0);
    assert!(map.is_empty());
    assert!(!map.contains_key("a"));
    assert_eq!(map.get("a"), None);
}

#[test]
fn holds_what_is_put_in() {
    let mut map: TextMap<String> = TextMap::new();
    assert_eq!(map.insert("apikey".to_string(), "XYZ".to_string()), None);
    assert_eq!(map.len(), 1);
    assert!(!map.is_empty());
    assert!(map.contains_key("apikey"));
    assert!(!map.contains_key("APIKEY"));
    assert_eq!(map.get("apikey"), Some(&"XYZ".to_string()));
}

#[test]
fn a_later_value_takes_the_place_of_an_earlier_one() {
    let mut map: TextMap<String> = TextMap::new();
    map.insert("k".to_string(), "one".to_string());
    map.insert("j".to_string(), "other".to_string());
    assert_eq!(map.insert("k".to_string(), "two".to_string()), Some("one".to_string()));
    assert_eq!(map.len(), 2);
    assert_eq!(map.get("k"), Some(&"two".to_string()));
    assert_eq!(map.get("j"), Some(&"other".to_string()));
}

#[test]
fn removes_a_key() {
    let mut map: TextMap<String> = TextMap::new();
    map.insert("a".to_string(), "1".to_string());
    map.insert("b".to_string(), "2".to_string());
    map.insert("c".to_string(), "3".to_string());
    assert_eq!(map.remove("b"), Some("2".to_string()));
    assert_eq!(keys(&map), ["a", "c"]);
    assert_eq!(map.remove("b"), None);
    assert_eq!(keys(&map), ["a", "c"]);
    assert_eq!(map.get("a"), Some(&"1".to_string()));
    assert_eq!(map.get("c"), Some(&"3".to_string()));
}

#[test]
fn keeps_keys_in_order_whatever_the_order_of_insertion() {
    let names = ["weatherapi", "accuweather", "openweather", "Zulu", "", "é", "open"];
    let orders: [[usize; 7]; 4] =
        [[0, 1, 2, 3, 4, 5, 6], [6, 5, 4, 3, 2, 1, 0], [3, 0, 6, 1, 5, 2, 4], [4, 3, 1, 6, 2, 0, 5]];
    let mut sorted: Vec<&str> = names.to_vec();
    sorted.sort();
    for order in orders {
        let mut map: TextMap<String> = TextMap::new();
        for i in order {
            map.insert(names[i].to_string(), i.to_string());
        }
        assert_eq!(keys(&map), sorted);
        for i in 0..map.len() {
            assert_eq!(map.get(map.key_at(i)), Some(map.value_at(i)));
        }
    }
}

#[test]
fn behaves_like_the_standard_ordered_map() {
    let mut ours: TextMap<String> = TextMap::new();
    let mut theirs = std::collections::BTreeMap::new();
    let script = [
        ("b", Some("1")), ("a", Some("2")), ("c", Some("3")), ("b", None), ("b", None),
        ("a", Some("4")), ("d", Some("5")), ("", Some("6")), ("c", None), ("zz", None),
        ("b", Some("7")), ("", None),
    ];
    for (key, value) in script {
        match value {
            Some(value) => assert_eq!(
                ours.insert(key.to_string(), value.to_string()),
                theirs.insert(key.to_string(), value.to_string())
            ),
            None => assert_eq!(ours.remove(key), theirs.remove(key)),
        }
        assert_eq!(ours.len(), theirs.len());
        let pairs: Vec<(String, String)> =
            (0..ours.len()).map(|i| (ours.key_at(i).clone(), ours.value_at(i).clone())).collect();
        let expected: Vec<(String, String)> =
            theirs.iter().map(|(k, v)| (k.clone(), v.clone())).collect();
        assert_eq!(pairs, expected);
    }
}
