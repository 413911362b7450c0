use cas_store::content::{Address, AddressableContent};
use cas_store::entry::{test_entry, Entry};
use cas_store::entry_meta::{test_meta_for, EntryMeta};
use cas_store::file_table::{FileTable, Table};
use regex::Regex;
use std::path::MAIN_SEPARATOR;
use tempfile::TempDir;

/// returns a new FileTable for testing and the TempDir created for it;
/// the directory is deleted when the TempDir goes out of scope
fn test_table() -> (FileTable, TempDir) {
    let dir = tempfile::tempdir().unwrap();
    (
        FileTable::new(dir.path().to_str().unwrap()).unwrap(),
        dir,
    )
}

#[test]
/// smoke test
fn mod_new() {
    let (_table, _dir) = test_table();
}

#[test]
/// a missing directory gives an error result
fn new_error_missing_dir() {
    let result = FileTable::new("foo bar missing dir");
    assert!(result.is_err());
}

#[test]
/// dir returns a sensible string for every Table enum variant
fn test_dir() {
    let (table, _dir) = test_table();
    let re = |s| {
        let regex_str = if MAIN_SEPARATOR == '\\' {
            format!(r".*\.tmp.*\{}{}", MAIN_SEPARATOR, s)
        } else {
            format!(r".*\.tmp.*{}{}", MAIN_SEPARATOR, s)
        };
        Regex::new(&regex_str).expect("failed to build regex")
    };

    for (s, t) in vec![("entries", Table::Entries), ("metas", Table::Metas)] {
        assert!(re(s).is_match(
            &table
                .dir(t.clone())
                .expect(&format!("could not get dir for {:?}", t)),
        ));
    }
}

#[test]
/// row_path returns a sensible string for a Table enum and key
fn test_row_path() {
    let (table, _dir) = test_table();

    let re = |s, k| {
        let regex_str = if MAIN_SEPARATOR == '\\' {
            format!(
                r".*\.tmp.*\{}{}\{}{}\.json",
                MAIN_SEPARATOR, s, MAIN_SEPARATOR, k
            )
        } else {
            format!(
                r".*\.tmp.*{}{}{}{}\.json",
                MAIN_SEPARATOR, s, MAIN_SEPARATOR, k
            )
        };
        Regex::new(&regex_str).expect("failed to build regex")
    };

    for (s, t) in vec![("entries", Table::Entries), ("metas", Table::Metas)] {
        for k in vec!["foo", "bar"] {
            assert!(re(s, k).is_match(
                &table
                    .addressable_content_path(t.clone(), &Address::from(k.to_string()))
                    .expect(&format!("could not get row path for {:?} in {:?}", k, t)),
            ));
        }
    }
}

#[test]
/// data can round trip through upsert/lookup
fn test_data_round_trip() {
    let data = Entry::new("foo");
    let s = data.content();

    let (table, _dir) = test_table();

    table
        .upsert(Table::Entries, &data)
        .expect("could not upsert data");

    assert_eq!(
        Some(s),
        table
            .lookup(Table::Entries, &data.address())
            .expect("could not lookup data"),
    );
}

#[test]
/// a table over an existing empty directory is immediately usable
fn construction_over_empty_dir_is_usable() {
    let (mut table, _dir) = test_table();
    let e = test_entry();
    table.put_entry(&e).unwrap();
    assert_eq!(Some(e), table.entry(&test_entry().address()).unwrap());
}

#[test]
/// put then get returns the record; unwritten addresses are absent
fn entry_round_trip_and_absent() {
    let (mut table, _dir) = test_table();
    let e = Entry::new("some record");
    assert_eq!(None, table.entry(&e.address()).unwrap());
    table.put_entry(&e).unwrap();
    assert_eq!(Some(e.clone()), table.entry(&e.address()).unwrap());
    assert_eq!(None, table.entry(&Address::from("never written".to_string())).unwrap());
}

#[test]
/// writing the same record twice reads back identically both times
fn put_entry_idempotent() {
    let (mut table, _dir) = test_table();
    let e = Entry::new("idempotent record");
    table.put_entry(&e).unwrap();
    let first = table.entry(&e.address()).unwrap();
    table.put_entry(&e).unwrap();
    let second = table.entry(&e.address()).unwrap();
    assert_eq!(first, second);
    assert_eq!(Some(e), second);
}

#[test]
/// assert then point lookup by the composite address returns the assertion
fn assert_meta_then_get_meta() {
    let (mut table, _dir) = test_table();
    let e = test_entry();
    let m = test_meta_for(&e, "color", "red");
    assert_eq!(None, table.get_meta(&m.address()).unwrap());
    table.assert_meta(&m).unwrap();
    assert_eq!(Some(m.clone()), table.get_meta(&m.address()).unwrap());
}

#[test]
/// a later assertion with the same entry and attribute wins
fn get_meta_last_write_wins() {
    let (mut table, _dir) = test_table();
    let e = test_entry();
    let m1 = EntryMeta::new("agentA", &e.address(), "color", "red");
    let m2 = EntryMeta::new("agentB", &e.address(), "color", "blue");
    table.assert_meta(&m1).unwrap();
    table.assert_meta(&m2).unwrap();
    assert_eq!(Some(m2), table.get_meta(&m1.address()).unwrap());
}

#[test]
/// the metadata query returns exactly the metas of the entry, sorted
fn metas_from_entry_exact_and_sorted() {
    let (mut table, _dir) = test_table();
    let e = test_entry();
    let other = Entry::new("another record");
    let mb = test_meta_for(&e, "b-attr", "v");
    let ma = test_meta_for(&e, "a-attr", "v");
    let foreign = test_meta_for(&other, "a-attr", "v");
    table.assert_meta(&mb).unwrap();
    table.assert_meta(&ma).unwrap();
    table.assert_meta(&foreign).unwrap();
    assert_eq!(vec![ma, mb], table.metas_from_entry(&e).unwrap());
    assert_eq!(vec![foreign], table.metas_from_entry(&other).unwrap());
}

#[test]
/// scenario: one meta asserted then overwritten on the same attribute
fn scenario_overwrite_color() {
    let (mut table, _dir) = test_table();
    let e1 = Entry::new("E1");
    let red = EntryMeta::new("agentA", &e1.address(), "color", "red");
    table.assert_meta(&red).unwrap();
    assert_eq!(vec![red], table.metas_from_entry(&e1).unwrap());
    let blue = EntryMeta::new("agentB", &e1.address(), "color", "blue");
    table.assert_meta(&blue).unwrap();
    assert_eq!(vec![blue], table.metas_from_entry(&e1).unwrap());
}

#[test]
/// construction failures are I/O errors; bad stored bytes are decode errors
fn store_error_variants() {
    let e = FileTable::new("foo bar missing dir").unwrap_err();
    assert!(matches!(e, cas_store::StoreError::Io(_)));
    assert!(!e.message().is_empty());
    let d = EntryMeta::from_json("not a stored assertion").unwrap_err();
    assert!(matches!(d, cas_store::StoreError::Decode(_)));
    assert!(!d.message().is_empty());
}
