use satellite::error::Error;
use satellite::list::{key_not_after, matches_key, paginate, sort_pairs, text_starts_with, KeyMatcher};
use satellite::table::Table;

fn pairs(keys: &[&str]) -> Vec<(String, u64)> {
    keys.iter().enumerate().map(|(i, k)| (k.to_string(), i as u64)).collect()
}

#[test]
fn keys_compare_byte_by_byte() {
    let words = ["", "a", "B", "ab", "b", "é", "z", "\u{7f}", "\u{80}", "\u{10ffff}", "aa"];
    for a in words {
        for b in words {
            assert_eq!(key_not_after(&a.to_string(), &b.to_string()), a <= b);
        }
    }
}

#[test]
fn sorting_is_by_key_and_keeps_equal_keys_in_order() {
    assert_eq!(sort_pairs(Vec::<(String, u64)>::new()), Vec::new());
    let sorted = sort_pairs(pairs(&["b", "a", "c", "a", "", "b"]));
    assert_eq!(
        sorted,
        vec![
            ("".to_string(), 4),
            ("a".to_string(), 1),
            ("a".to_string(), 3),
            ("b".to_string(), 0),
            ("b".to_string(), 5),
            ("c".to_string(), 2)
        ]
    );
    let mut expected = pairs(&["q", "w", "e", "r", "t", "y", "u", "i", "o", "p"]);
    let sorted = sort_pairs(expected.clone());
    expected.sort();
    assert_eq!(sorted, expected);
}

#[test]
fn pages_start_behind_the_first_entry_of_the_cursor() {
    let entries = pairs(&["a", "b", "a", "c"]);
    assert_eq!(paginate(entries.clone(), &None, None), Ok(entries.clone()));
    assert_eq!(paginate(entries.clone(), &None, Some(1)), Ok(pairs(&["a"])));
    assert_eq!(paginate(entries.clone(), &Some("a".to_string()), None), Ok(entries[1..].to_vec()));
    assert_eq!(paginate(entries.clone(), &Some("a".to_string()), Some(2)), Ok(entries[1..3].to_vec()));
    assert_eq!(paginate(entries.clone(), &Some("c".to_string()), Some(2)), Ok(Vec::new()));
    assert_eq!(paginate(entries.clone(), &Some("d".to_string()), None), Err(Error::InvalidInput));
    assert_eq!(paginate(Vec::<(String, u64)>::new(), &None, Some(3)), Ok(Vec::new()));
}

#[test]
fn matchers_compare_whole_keys_or_their_beginning() {
    let key = "users/42".to_string();
    assert!(matches_key(&None, &key));
    assert!(matches_key(&Some(KeyMatcher::Equals("users/42".to_string())), &key));
    assert!(!matches_key(&Some(KeyMatcher::Equals("users/4".to_string())), &key));
    assert!(matches_key(&Some(KeyMatcher::Prefix("users/".to_string())), &key));
    assert!(matches_key(&Some(KeyMatcher::Prefix("".to_string())), &key));
    assert!(matches_key(&Some(KeyMatcher::Prefix("users/42".to_string())), &key));
    assert!(!matches_key(&Some(KeyMatcher::Prefix("users/42/".to_string())), &key));
    assert!(!matches_key(&Some(KeyMatcher::Prefix("Users".to_string())), &key));
    assert!(text_starts_with(&"é1".to_string(), &"é".to_string()));
    assert!(!text_starts_with(&"e".to_string(), &"é".to_string()));
}

#[test]
fn tables_keep_one_value_per_key_in_order() {
    let mut table: Table<String, u64> = Table::new();
    assert_eq!(table.len(), 0);
    assert_eq!(table.put("a".to_string(), 1), None);
    assert_eq!(table.put("b".to_string(), 2), None);
    assert_eq!(table.put("a".to_string(), 3), Some(1));
    assert_eq!(table.entries(), vec![("a".to_string(), 3), ("b".to_string(), 2)]);
    assert_eq!(table.position(&"b".to_string()), Some(1));
    assert_eq!(table.get(&"c".to_string()), None);
    assert_eq!(table.key_at(0), "a");
    assert_eq!(*table.value_at(1), 2);
    table.insert_at(1, "c".to_string(), 9);
    assert_eq!(
        table.entries(),
        vec![("a".to_string(), 3), ("c".to_string(), 9), ("b".to_string(), 2)]
    );
    assert_eq!(table.remove_at(0), ("a".to_string(), 3));
    assert_eq!(table.take(&"b".to_string()), Some(2));
    assert_eq!(table.take(&"b".to_string()), None);
    assert_eq!(table.entries(), vec![("c".to_string(), 9)]);
}

#[test]
fn a_table_with_a_key_twice_is_found_out() {
    let mut table: Table<String, u64> = Table::new();
    assert!(table.check());
    table.put("a".to_string(), 1);
    table.put("b".to_string(), 2);
    assert!(table.check());
    // what the methods ask for is not asked at run time: a key can be forced in twice
    table.insert_at(2, "a".to_string(), 3);
    assert!(!table.check());
}
