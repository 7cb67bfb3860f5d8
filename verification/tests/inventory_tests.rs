use spindle_speed_updater::error::SpindleSpeedUpdaterError;
use spindle_speed_updater::inventory::{
    index_entries, is_tap_file_name, selects, FileRecord, Inventory, ScannedEntry, Timestamp,
};
use std::io;

fn time(seconds: i64) -> Timestamp {
    Timestamp { seconds, nanoseconds: 0 }
}

fn record(path: &str, seconds: i64) -> FileRecord {
    FileRecord { path: path.to_string(), last_modified: time(seconds) }
}

fn entry(path: &str, is_file: bool, seconds: i64) -> ScannedEntry {
    let file_name = path.rsplit('/').next().unwrap().to_string();
    ScannedEntry { path: path.to_string(), file_name, is_file, last_modified: time(seconds) }
}

fn paths(inventory: &Inventory) -> Vec<String> {
    (0..inventory.len()).map(|i| inventory.get(i).unwrap().path.clone()).collect()
}

#[test]
fn tap_extension_is_matched_exactly() {
    assert!(is_tap_file_name("a.tap"));
    assert!(is_tap_file_name("part one.v2.tap"));
    assert!(is_tap_file_name("..tap"));
    assert!(!is_tap_file_name(".tap"));
    assert!(!is_tap_file_name("tap"));
    assert!(!is_tap_file_name("a.TAP"));
    assert!(!is_tap_file_name("a.tap "));
    assert!(!is_tap_file_name("a.tap.bak"));
    assert!(!is_tap_file_name("a.taps"));
    assert!(!is_tap_file_name("atap"));
    assert!(!is_tap_file_name(""));
}

#[test]
fn tap_extension_agrees_with_std_path() {
    for name in ["a.tap", ".tap", "..tap", "x.y.tap", "tap", "a.tap.", "a.", "a.tAp", "\u{e9}.tap"] {
        let expected = std::path::Path::new(name).extension().map_or(false, |ext| ext == "tap");
        assert_eq!(is_tap_file_name(name), expected, "name {:?}", name);
    }
}

#[test]
fn only_regular_tap_files_are_selected() {
    assert!(selects(&entry("/jobs/a.tap", true, 1)));
    assert!(!selects(&entry("/jobs/a.tap", false, 1)));
    assert!(!selects(&entry("/jobs/a.nc", true, 1)));
    assert!(!selects(&entry("/jobs/dir.tap/readme", true, 1)));
}

#[test]
fn stale_means_a_different_modification_time() {
    let cached = record("/jobs/a.tap", 10);
    assert!(!cached.is_stale(time(10)));
    assert!(cached.is_stale(time(11)));
    assert!(cached.is_stale(Timestamp { seconds: 10, nanoseconds: 1 }));
}

#[test]
fn record_clone_is_equal() {
    let first = record("/jobs/a.tap", 10);
    let copy = first.clone();
    assert_eq!(copy.path, first.path);
    assert_eq!(copy.last_modified, first.last_modified);
}

#[test]
fn new_inventory_is_empty() {
    let inventory = Inventory::new();
    assert_eq!(inventory.len(), 0);
    assert!(inventory.is_empty());
    assert!(inventory.get(0).is_none());
    assert_eq!(inventory.position("/jobs/a.tap"), None);
}

#[test]
fn insert_keeps_each_path_once() {
    let mut inventory = Inventory::new();
    assert!(inventory.insert(record("/jobs/a.tap", 1)).is_none());
    assert!(inventory.insert(record("/jobs/b.tap", 2)).is_none());
    assert!(inventory.insert(record("/jobs/c.tap", 3)).is_none());
    let replaced = inventory.insert(record("/jobs/a.tap", 9)).expect("a.tap was there");
    assert_eq!(replaced.path, "/jobs/a.tap");
    assert_eq!(replaced.last_modified, time(1));
    assert_eq!(inventory.len(), 3);
    assert!(!inventory.is_empty());
    assert_eq!(paths(&inventory), vec!["/jobs/a.tap", "/jobs/b.tap", "/jobs/c.tap"]);
    assert_eq!(inventory.get(0).unwrap().last_modified, time(9));
    assert_eq!(inventory.record(1).last_modified, time(2));
    assert_eq!(inventory.position("/jobs/c.tap"), Some(2));
    assert_eq!(inventory.position("/jobs/d.tap"), None);
    assert!(inventory.get(3).is_none());
}

#[test]
fn clone_is_independent() {
    let mut inventory = Inventory::new();
    inventory.insert(record("/jobs/a.tap", 1));
    let copy = inventory.clone();
    inventory.insert(record("/jobs/b.tap", 2));
    inventory.insert(record("/jobs/a.tap", 5));
    assert_eq!(copy.len(), 1);
    assert_eq!(copy.get(0).unwrap().last_modified, time(1));
    assert_eq!(inventory.len(), 2);
}

#[test]
fn index_takes_regular_tap_files_only() {
    let entries = vec![
        Ok(entry("/jobs", false, 1)),
        Ok(entry("/jobs/a.tap", true, 2)),
        Ok(entry("/jobs/notes.txt", true, 3)),
        Ok(entry("/jobs/old.tap", false, 4)),
        Ok(entry("/jobs/old.tap/b.tap", true, 5)),
        Ok(entry("/jobs/.tap", true, 6)),
    ];
    let inventory = index_entries(entries).unwrap();
    assert_eq!(paths(&inventory), vec!["/jobs/a.tap", "/jobs/old.tap/b.tap"]);
    assert_eq!(inventory.get(1).unwrap().last_modified, time(5));
}

#[test]
fn index_of_nothing_is_empty() {
    let inventory = index_entries(Vec::new()).unwrap();
    assert!(inventory.is_empty());
}

#[test]
fn index_keeps_the_later_of_two_entries_with_one_path() {
    let entries = vec![
        Ok(entry("/jobs/a.tap", true, 2)),
        Ok(entry("/jobs/b.tap", true, 3)),
        Ok(entry("/jobs/a.tap", true, 7)),
    ];
    let inventory = index_entries(entries).unwrap();
    assert_eq!(paths(&inventory), vec!["/jobs/a.tap", "/jobs/b.tap"]);
    assert_eq!(inventory.get(0).unwrap().last_modified, time(7));
}

#[test]
fn one_failure_discards_the_scan() {
    let entries = vec![
        Ok(entry("/jobs/a.tap", true, 2)),
        Err(io::Error::new(io::ErrorKind::PermissionDenied, "first")),
        Ok(entry("/jobs/b.tap", true, 3)),
        Err(io::Error::new(io::ErrorKind::NotFound, "second")),
    ];
    match index_entries(entries) {
        Err(SpindleSpeedUpdaterError::Io(error)) => {
            assert_eq!(error.kind(), io::ErrorKind::PermissionDenied);
            assert_eq!(error.to_string(), "first");
        }
        other => panic!("unexpected {:?}", other),
    }
}

#[test]
fn a_failure_on_an_unselected_entry_discards_the_scan_too() {
    let entries = vec![
        Ok(entry("/jobs/a.tap", true, 2)),
        Err(io::Error::new(io::ErrorKind::Other, "unreadable directory")),
    ];
    assert!(matches!(index_entries(entries), Err(SpindleSpeedUpdaterError::Io(_))));
}
