use cas_store::content::{Address, AddressableContent};
use cas_store::entry::Entry;
use cas_store::entry_meta::EntryMeta;
use cas_store::mem_table::MemTable;

#[test]
/// put then get returns the record through the in-memory backend
fn mem_entry_round_trip() {
    let mut table = MemTable::new();
    let e = Entry::new("mem record");
    table.put_entry(&e).unwrap();
    assert_eq!(Some(e.clone()), table.entry(&e.address()).unwrap());
}

#[test]
/// unwritten addresses are absent in the in-memory backend
fn mem_get_unwritten_is_none() {
    let table = MemTable::new();
    assert_eq!(None, table.entry(&Address::from("nothing here".to_string())).unwrap());
}

#[test]
/// writing the same record twice is idempotent in the in-memory backend
fn mem_put_idempotent() {
    let mut table = MemTable::new();
    let e = Entry::new("twice stored");
    table.put_entry(&e).unwrap();
    table.put_entry(&e).unwrap();
    assert_eq!(Some(e.clone()), table.entry(&e.address()).unwrap());
}

#[test]
/// a later assertion on the same entry and attribute wins in memory too
fn mem_last_write_wins() {
    let mut table = MemTable::new();
    let e = Entry::new("E1");
    let m1 = EntryMeta::new("agentA", &e.address(), "color", "red");
    let m2 = EntryMeta::new("agentB", &e.address(), "color", "blue");
    table.assert_meta(&m1).unwrap();
    assert_eq!(Some(m1.clone()), table.get_meta(&m1.address()).unwrap());
    table.assert_meta(&m2).unwrap();
    assert_eq!(Some(m2), table.get_meta(&m1.address()).unwrap());
}

#[test]
/// the in-memory metadata query returns exactly the entry's metas, sorted
fn mem_metas_from_entry_exact_and_sorted() {
    let mut table = MemTable::new();
    let e = Entry::new("E1");
    let other = Entry::new("E2");
    let m_later = EntryMeta::new("a", &e.address(), "weight", "9");
    let m_early = EntryMeta::new("a", &e.address(), "color", "red");
    let foreign = EntryMeta::new("a", &other.address(), "color", "red");
    table.assert_meta(&m_later).unwrap();
    table.assert_meta(&m_early).unwrap();
    table.assert_meta(&foreign).unwrap();
    assert_eq!(
        vec![m_early, m_later],
        table.metas_from_entry(&e).unwrap()
    );
}

#[test]
/// scenario: assert then overwrite one attribute, in memory
fn mem_scenario_overwrite_color() {
    let mut table = MemTable::new();
    let e1 = Entry::new("E1");
    let red = EntryMeta::new("agentA", &e1.address(), "color", "red");
    table.assert_meta(&red).unwrap();
    assert_eq!(vec![red], table.metas_from_entry(&e1).unwrap());
    let blue = EntryMeta::new("agentB", &e1.address(), "color", "blue");
    table.assert_meta(&blue).unwrap();
    assert_eq!(vec![blue], table.metas_from_entry(&e1).unwrap());
}
