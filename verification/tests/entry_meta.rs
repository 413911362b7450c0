use cas_store::content::{Address, AddressableContent, DigestAlgorithm};
use cas_store::entry::test_entry;
use cas_store::entry_meta::{
    test_attribute, test_attribute_b, test_meta, test_node_id, test_value, test_value_b, EntryMeta,
};
use std::cmp::Ordering;

#[test]
/// smoke test EntryMeta::new()
fn entry_meta_new() {
    test_meta();
}

#[test]
// test meta.entry_address()
fn entry_address_test() {
    assert_eq!(test_meta().entry_address(), &test_entry().address());
}

/// test meta.attribute()
#[test]
fn attribute() {
    assert_eq!(test_meta().attribute(), test_attribute());
}

#[test]
/// test meta.value()
fn value() {
    assert_eq!(test_meta().value(), test_value());
}

#[test]
/// test meta.source()
fn source() {
    assert_eq!(test_meta().source(), test_node_id());
}

#[test]
/// test that we can sort metas with cmp
fn cmp() {
    // basic ordering
    let m_1ax = EntryMeta::new(
        test_node_id().as_str(),
        &Address::from("1".to_string()),
        "a",
        "x",
    );
    let m_1ay = EntryMeta::new(
        test_node_id().as_str(),
        &Address::from("1".to_string()),
        "a",
        "y",
    );
    let m_1bx = EntryMeta::new(
        test_node_id().as_str(),
        &Address::from("1".to_string()),
        "b",
        "x",
    );
    let m_2ax = EntryMeta::new(
        test_node_id().as_str(),
        &Address::from("2".to_string()),
        "a",
        "x",
    );

    // sort by entry key
    assert_eq!(Ordering::Less, m_1ax.cmp(&m_2ax));
    assert_eq!(Ordering::Equal, m_1ax.cmp(&m_1ax));
    assert_eq!(Ordering::Greater, m_2ax.cmp(&m_1ax));
    assert_eq!(Ordering::Less, m_1ay.cmp(&m_2ax));

    // entry key with operators
    assert!(m_1ax < m_2ax);
    assert!(m_2ax > m_1ax);
    assert!(m_1ay < m_2ax);

    // sort by attribute key
    assert_eq!(Ordering::Less, m_1ax.cmp(&m_1bx));
    assert_eq!(Ordering::Greater, m_1bx.cmp(&m_1ax));

    // attribute key with operators
    assert!(m_1ax < m_1bx);
    assert!(m_1bx > m_1ax);

    // sort by attribute value
    assert_eq!(Ordering::Less, m_1ax.cmp(&m_1ay));
    assert_eq!(Ordering::Greater, m_1ay.cmp(&m_1ax));

    // attribute value with operators
    assert!(m_1ax < m_1ay);
    assert!(m_1ay > m_1ax);
}

#[test]
/// serialization round trip through the canonical JSON form
fn test_json_round_trip() {
    let meta = test_meta();
    let expected = "{\"entry_address\":\"QmbXSE38SN3SuJDmHKSSw5qWWegvU7oTxrLDRavWjyxMrT\",\"attribute\":\"meta-attribute\",\"value\":\"meta value\",\"source\":\"test node id\"}";

    assert_eq!(expected.to_string(), meta.to_json().unwrap());
    assert_eq!(meta, EntryMeta::from_json(expected).unwrap());
    assert_eq!(
        meta,
        EntryMeta::from_json(meta.to_json().unwrap().as_str()).unwrap()
    );
}

#[test]
/// the canonical form parses as ordinary JSON with the same fields
fn json_form_is_plain_json() {
    let meta = test_meta();
    let parsed: serde_json::Value = serde_json::from_str(&meta.to_json().unwrap()).unwrap();
    assert_eq!(
        parsed["entry_address"].as_str().unwrap(),
        test_entry().address().as_str()
    );
    assert_eq!(parsed["attribute"].as_str().unwrap(), "meta-attribute");
    assert_eq!(parsed["value"].as_str().unwrap(), "meta value");
    assert_eq!(parsed["source"].as_str().unwrap(), "test node id");
}

#[test]
/// fields holding quotes and backslashes survive the round trip
fn json_round_trip_escapes() {
    let meta = EntryMeta::new(
        "agent \"A\"",
        &Address::from("addr\\one".to_string()),
        "attr\"",
        "va\\lue\"x",
    );
    let encoded = meta.to_json().unwrap();
    assert_eq!(meta, EntryMeta::from_json(encoded.as_str()).unwrap());
}

#[test]
/// malformed stored content is a decode error, not a value
fn from_json_decode_error() {
    assert!(EntryMeta::from_json("not json at all").is_err());
    assert!(EntryMeta::from_json("{\"entry_address\":\"x\"}").is_err());
    assert!(EntryMeta::from_json("").is_err());
    let trailing = "{\"entry_address\":\"e\",\"attribute\":\"a\",\"value\":\"v\",\"source\":\"s\"}extra";
    assert!(EntryMeta::from_json(trailing).is_err());
}

#[test]
/// metas with equal entry and attribute collide to one address, whatever
/// their value and source
fn address_collapses_on_entry_and_attribute() {
    let e = test_entry().address();
    let m1 = EntryMeta::new("agentA", &e, "color", "red");
    let m2 = EntryMeta::new("agentB", &e, "color", "blue");
    assert_eq!(m1.address(), m2.address());
    assert_ne!(m1.address(), EntryMeta::new("agentA", &e, "shape", "red").address());
}

#[test]
/// the total order on the four canonical keys is exactly the listed sequence
fn ordering_law_sequence() {
    let m = |e: &str, a: &str, v: &str| {
        EntryMeta::new(
            test_node_id().as_str(),
            &Address::from(e.to_string()),
            a,
            v,
        )
    };
    let m1 = m("1", "a", "x");
    let m2 = m("1", "a", "y");
    let m3 = m("1", "b", "x");
    let m4 = m("2", "a", "x");
    assert!(m1 < m2);
    assert!(m2 < m3);
    assert!(m3 < m4);
    assert_eq!(Ordering::Less, m1.cmp(&m3));
    assert_eq!(Ordering::Less, m1.cmp(&m4));
    assert_eq!(Ordering::Less, m2.cmp(&m4));
}

#[test]
/// addresses are digests, never the payload handed back unchanged
fn address_is_a_digest() {
    let a = Address::encode_from_str("test entry content", DigestAlgorithm::Sha2256);
    assert_eq!(a.as_str(), "QmbXSE38SN3SuJDmHKSSw5qWWegvU7oTxrLDRavWjyxMrT");
    assert_ne!(a.as_str(), "test entry content");
    let b = test_attribute_b();
    let v = test_value_b();
    assert_eq!(b, "another-attribute");
    assert_eq!(v, "another value");
}

#[test]
/// control characters are escaped as ordinary JSON writers escape them,
/// byte for byte, and survive the round trip
fn json_escapes_control_characters() {
    let raw = "x\ty\nz\u{8}\u{c}\r\u{0}\u{1f}q";
    let meta = EntryMeta::new("s", &Address::from("e".to_string()), "a", raw);
    let encoded = meta.to_json().unwrap();
    let expected = "{\"entry_address\":\"e\",\"attribute\":\"a\",\"value\":\"x\\ty\\nz\\b\\f\\r\\u0000\\u001fq\",\"source\":\"s\"}";
    assert_eq!(expected, encoded);
    assert_eq!(meta, EntryMeta::from_json(encoded.as_str()).unwrap());
    let parsed: serde_json::Value = serde_json::from_str(&encoded).unwrap();
    assert_eq!(parsed["value"].as_str().unwrap(), raw);
}
