//! The process table.

use aetheris::proc_table::{name_hash, ProcMeta, ProcessTable};

#[test]
fn upsert_get_remove() {
    let mut t = ProcessTable::new();
    assert_eq!(t.len(), 0);
    t.upsert(1234, "chrome.exe", false);
    assert_eq!(t.len(), 1);
    let m = t.get(1234).unwrap();
    assert_eq!(m.pid, 1234);
    assert!(!m.is_game);
    assert_eq!(t.name(1234), Some("chrome.exe"));
    t.upsert(1234, "chrome.exe", false);
    assert_eq!(t.len(), 1);
    t.remove(1234);
    assert_eq!(t.len(), 0);
    assert!(t.get(1234).is_none());
}

#[test]
fn iter_yields_all() {
    let mut t = ProcessTable::new();
    t.upsert(1, "a.exe", false);
    t.upsert(2, "game.exe", true);
    let v: Vec<(u32, String, bool)> =
        t.iter().into_iter().map(|(p, n, g)| (p, n.to_string(), g)).collect();
    assert_eq!(v.len(), 2);
    assert!(v.contains(&(1, "a.exe".to_string(), false)));
    assert!(v.contains(&(2, "game.exe".to_string(), true)));
}

#[test]
fn hash_is_stable_and_case_insensitive() {
    assert_eq!(name_hash("Chrome.EXE"), name_hash("chrome.exe"));
}

#[test]
fn different_names_hash_differently() {
    assert_ne!(name_hash("a.exe"), name_hash("b.exe"));
    assert_ne!(name_hash(""), name_hash("a"));
}

#[test]
fn seen_again_in_another_case_keeps_its_row_and_name() {
    let mut t = ProcessTable::new();
    t.upsert(5, "Tool.exe", false);
    t.upsert(5, "TOOL.EXE", true);
    assert_eq!(t.len(), 1);
    assert_eq!(t.name(5), Some("Tool.exe"));
    assert_eq!(
        t.get(5),
        Some(ProcMeta { pid: 5, name_hash: name_hash("tool.exe"), is_game: true })
    );
}

#[test]
fn another_name_gets_a_row_of_its_own() {
    let mut t = ProcessTable::new();
    t.upsert(5, "a.exe", false);
    t.upsert(6, "c.exe", false);
    t.upsert(5, "b.exe", false);
    assert_eq!(t.iter(), vec![(5, "b.exe", false), (6, "c.exe", false), (5, "b.exe", false)]);
    assert_eq!(t.remove(5), Some(()));
    assert_eq!(t.iter(), vec![(5, "", false), (6, "c.exe", false)]);
    assert_eq!(t.name(5), None);
    assert_eq!(t.remove(7), None);
    assert!(!t.is_empty());
}
