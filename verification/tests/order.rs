use rich_media_viewer::collections::{TextMap, TextSet};
use rich_media_viewer::order::{
    first_positions, group_positions, last_positions, look_up, sort_positions, sort_texts, TextKey,
};

fn texts(list: &[&str]) -> Vec<String> {
    list.iter().map(|s| s.to_string()).collect()
}

#[test]
fn sorting_is_stable() {
    assert_eq!(sort_texts(&texts(&["b", "a", "b", "", "a"])), vec![3, 1, 4, 0, 2]);
    assert_eq!(sort_texts(&Vec::new()), Vec::<usize>::new());
}

#[test]
fn sorted_positions_are_those_of_the_standard_sort() {
    let mut list = Vec::new();
    let mut x: u64 = 3;
    for _ in 0..300 {
        x = x.wrapping_mul(6364136223846793005).wrapping_add(1442695040888963407);
        list.push(format!("k{}", (x >> 40) % 50));
    }
    let mut expected: Vec<usize> = (0..list.len()).collect();
    expected.sort_by(|a, b| list[*a].cmp(&list[*b]));
    let keys: Vec<TextKey> = list.iter().map(|t| TextKey(t.clone())).collect();
    assert_eq!(sort_positions(&keys), expected);
}

#[test]
fn positions_are_looked_up_by_text() {
    let list = texts(&["a", "b", "a"]);
    assert_eq!(look_up(&last_positions(&list), "a"), Some(2));
    assert_eq!(look_up(&first_positions(&list), "a"), Some(0));
    assert_eq!(look_up(&first_positions(&list), "c"), None);
    assert_eq!(group_positions(&texts(&["x", "y", "x"])), vec![vec![0, 2], vec![1]]);
}

#[test]
fn maps_and_sets_keep_texts() {
    let mut m: TextMap<i32> = TextMap::new();
    m.insert("a".to_string(), 1);
    m.insert("a".to_string(), 2);
    assert_eq!(m.get("a"), Some(&2));
    assert!(m.contains_key("a") && !m.contains_key("b"));
    m.remove("a");
    assert_eq!(m.get("a"), None);
    let mut s = TextSet::new();
    assert!(s.insert("a".to_string()));
    assert!(!s.insert("a".to_string()));
    assert!(s.contains("a") && !s.contains("b"));
}
