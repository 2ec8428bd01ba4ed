use pronto::options::{execute, Command};
use pronto::store::{StoreError, TaskStore};
use pronto::task::{contains_text, Task};

fn ids(entries: &[(i64, Task)]) -> Vec<i64> {
    let mut v: Vec<i64> = entries.iter().map(|e| e.0).collect();
    v.sort();
    v
}

fn store_with(descriptions: &[&str]) -> TaskStore {
    let mut s = TaskStore::new();
    for (i, d) in descriptions.iter().enumerate() {
        s.add(d.to_string(), 1_000 + i as i64).unwrap();
    }
    s
}

#[test]
fn three_adds_from_empty_give_one_two_three() {
    let mut s = TaskStore::new();
    assert_eq!(s.add("a".to_string(), 10), Some(1));
    assert_eq!(s.add("b".to_string(), 11), Some(2));
    assert_eq!(s.add("c".to_string(), 12), Some(3));
    assert_eq!(ids(&s.list()), vec![1, 2, 3]);
}

#[test]
fn deleting_the_largest_id_frees_it() {
    let mut s = store_with(&["a", "b", "c"]);
    s.delete(3);
    assert_eq!(s.add("d".to_string(), 20), Some(3));
    assert_eq!(ids(&s.list()), vec![1, 2, 3]);
}

#[test]
fn deleting_a_smaller_id_does_not_free_it() {
    let mut s = store_with(&["a", "b", "c"]);
    s.delete(2);
    assert_eq!(s.add("d".to_string(), 20), Some(4));
    assert_eq!(ids(&s.list()), vec![1, 3, 4]);
}

#[test]
fn ids_stay_distinct_across_adds_and_deletes() {
    let mut s = TaskStore::new();
    for round in 0..5i64 {
        s.add(format!("t{}", round), round).unwrap();
        s.add(format!("u{}", round), round).unwrap();
        s.delete(round + 1);
    }
    let got = ids(&s.list());
    let mut dedup = got.clone();
    dedup.dedup();
    assert_eq!(got, dedup);
    assert_eq!(got.len(), 5);
}

#[test]
fn added_task_is_open_and_keeps_its_time() {
    let mut s = TaskStore::new();
    let id = s.add("buy milk".to_string(), 1_600_000_000).unwrap();
    let t = s.get(id).unwrap();
    assert_eq!(t.description, "buy milk");
    assert!(!t.completed);
    assert_eq!(t.created_at, 1_600_000_000);
}

#[test]
fn empty_description_is_accepted() {
    let mut s = TaskStore::new();
    let id = s.add(String::new(), 5).unwrap();
    assert_eq!(s.get(id).unwrap().description, "");
}

#[test]
fn update_changes_only_the_description() {
    let mut s = store_with(&["a"]);
    s.complete(1);
    s.update(1, "renamed".to_string());
    let t = s.get(1).unwrap();
    assert_eq!(t.description, "renamed");
    assert!(t.completed);
    assert_eq!(t.created_at, 1_000);
}

#[test]
fn complete_sets_the_flag() {
    let mut s = store_with(&["a", "b"]);
    s.complete(2);
    assert!(s.get(2).unwrap().completed);
    assert!(!s.get(1).unwrap().completed);
    s.complete(2);
    assert!(s.get(2).unwrap().completed);
}

#[test]
fn operations_on_an_unknown_id_change_nothing() {
    let mut s = store_with(&["a", "b"]);
    s.update(7, "x".to_string());
    s.complete(-3);
    s.delete(99);
    assert_eq!(ids(&s.list()), vec![1, 2]);
    assert_eq!(s.get(1).unwrap().description, "a");
    assert!(!s.get(2).unwrap().completed);
    assert!(s.get(7).is_none());
}

#[test]
fn listed_entries_load_back_to_an_equal_store() {
    let mut s = store_with(&["buy milk", "buy bread", "call mum"]);
    s.complete(2);
    s.delete(1);
    let reloaded = TaskStore::from_entries(s.list()).unwrap();
    let mut a = s.list();
    let mut b = reloaded.list();
    a.sort_by_key(|e| e.0);
    b.sort_by_key(|e| e.0);
    assert_eq!(a.len(), b.len());
    for (x, y) in a.iter().zip(b.iter()) {
        assert_eq!(x.0, y.0);
        assert_eq!(x.1.description, y.1.description);
        assert_eq!(x.1.completed, y.1.completed);
        assert_eq!(x.1.created_at, y.1.created_at);
    }
}

#[test]
fn duplicate_ids_are_corrupt_data() {
    let entries = vec![
        (4, Task::new("a".to_string(), 1)),
        (5, Task::new("b".to_string(), 2)),
        (4, Task::new("c".to_string(), 3)),
    ];
    assert_eq!(TaskStore::from_entries(entries).err(), Some(StoreError::CorruptData));
}

#[test]
fn loaded_negative_ids_are_kept() {
    let entries = vec![(-5, Task::new("a".to_string(), 1))];
    let mut s = TaskStore::from_entries(entries).unwrap();
    assert_eq!(s.next_id(), Some(-4));
    assert_eq!(s.add("b".to_string(), 2), Some(-4));
}

#[test]
fn no_id_is_left_above_the_largest() {
    let entries = vec![(i64::MAX, Task::new("a".to_string(), 1))];
    let mut s = TaskStore::from_entries(entries).unwrap();
    assert_eq!(s.next_id(), None);
    assert_eq!(s.add("b".to_string(), 2), None);
    assert_eq!(ids(&s.list()), vec![i64::MAX]);
}

#[test]
fn clear_empties_and_is_idempotent() {
    let mut e = TaskStore::new();
    e.clear();
    assert!(e.list().is_empty());
    let mut s = store_with(&["a", "b"]);
    s.clear();
    assert!(s.list().is_empty());
    s.clear();
    assert!(s.list().is_empty());
    assert_eq!(s.add("c".to_string(), 1), Some(1));
}

#[test]
fn search_finds_by_substring() {
    let s = store_with(&["buy milk", "buy bread"]);
    assert_eq!(ids(&s.search(&"buy".to_string())), vec![1, 2]);
    let milk = s.search(&"milk".to_string());
    assert_eq!(ids(&milk), vec![1]);
    assert_eq!(milk[0].1.description, "buy milk");
    assert!(s.search(&"Buy".to_string()).is_empty());
    assert_eq!(ids(&s.search(&String::new())), vec![1, 2]);
}

#[test]
fn contains_text_compares_characters() {
    assert!(contains_text(&"héllo wörld".to_string(), &"ö".to_string()));
    assert!(contains_text(&"abc".to_string(), &"abc".to_string()));
    assert!(contains_text(&"abc".to_string(), &String::new()));
    assert!(!contains_text(&"ab".to_string(), &"abc".to_string()));
    assert!(!contains_text(&"abcabd".to_string(), &"abe".to_string()));
    assert!(contains_text(&"abcabd".to_string(), &"abd".to_string()));
}

#[test]
fn duplicate_copies_every_field() {
    let mut t = Task::new("x".to_string(), 9);
    t.completed = true;
    let c = t.duplicate();
    assert_eq!(c.description, "x");
    assert!(c.completed);
    assert_eq!(c.created_at, 9);
}

#[test]
fn execute_runs_each_command() {
    let mut s = TaskStore::new();
    let shown = execute(&mut s, Command::Add { description: "buy milk".to_string() }, 100);
    assert_eq!(ids(&shown), vec![1]);
    assert_eq!(shown[0].1.created_at, 100);
    execute(&mut s, Command::Add { description: "buy bread".to_string() }, 101);
    execute(&mut s, Command::Update { id: 2, description: "buy rye".to_string() }, 102);
    assert_eq!(s.get(2).unwrap().description, "buy rye");
    execute(&mut s, Command::Complete { id: 1 }, 103);
    assert!(s.get(1).unwrap().completed);
    let found = execute(&mut s, Command::Search { pattern: "rye".to_string() }, 104);
    assert_eq!(ids(&found), vec![2]);
    let all = execute(&mut s, Command::List, 105);
    assert_eq!(ids(&all), vec![1, 2]);
    let after = execute(&mut s, Command::Delete { id: 1 }, 106);
    assert_eq!(ids(&after), vec![2]);
    let cleared = execute(&mut s, Command::Clear, 107);
    assert!(cleared.is_empty());
}

#[test]
fn only_changing_commands_are_saved() {
    assert!(!Command::List.changes_store());
    assert!(!Command::Search { pattern: "a".to_string() }.changes_store());
    assert!(Command::Add { description: "a".to_string() }.changes_store());
    assert!(Command::Update { id: 1, description: "a".to_string() }.changes_store());
    assert!(Command::Delete { id: 1 }.changes_store());
    assert!(Command::Complete { id: 1 }.changes_store());
    assert!(Command::Clear.changes_store());
}
