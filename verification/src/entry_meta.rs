//! Entity-attribute-value metadata assertions.
//!
//! A metadata assertion states a fact about a stored record: the record's
//! address (the entity), an attribute name, an attribute value, and the
//! identifier of the asserting agent. Its storage address is derived from
//! the entity and the attribute alone, so a later assertion about the same
//! entity and attribute overwrites the earlier one. Assertions are totally
//! ordered by entity, then attribute, then value; the source takes no part
//! in ordering or addressing.

use crate::content::{digest58, Address, AddressableContent, Content, DigestAlgorithm};
use crate::entry::{test_entry, Entry};
use crate::json::{
    expect_lit, lemma_decode_encode, parse_str_from, spec_decode_meta, spec_encode_meta,
};
use crate::strorder::{lemma_lex_transitive, lemma_lex_trichotomy, lex_lt, push_char, str_cmp};
use crate::StoreError;
use core::cmp::Ordering;
use vstd::prelude::*;
use vstd::string::StringExecFns;

verus! {

/// The mathematical value of a metadata assertion: its four fields as
/// character sequences.
pub struct EntryMetaView {
    pub entry_address: Seq<char>,
    pub attribute: Seq<char>,
    pub value: Seq<char>,
    pub source: Seq<char>,
}

/// An entity-attribute-value assertion about a stored record.
#[derive(Debug)]
pub struct EntryMeta {
    entry_address: Address,
    attribute: String,
    value: String,
    source: String,
}

impl View for EntryMeta {
    type V = EntryMetaView;

    closed spec fn view(&self) -> EntryMetaView {
        EntryMetaView {
            entry_address: self.entry_address@,
            attribute: self.attribute@,
            value: self.value@,
            source: self.source@,
        }
    }
}

/// `a` strictly precedes `b` in the canonical metadata order: by entity,
/// then attribute, then value.
pub open spec fn meta_lt(a: EntryMetaView, b: EntryMetaView) -> bool {
    ||| lex_lt(a.entry_address, b.entry_address)
    ||| (a.entry_address == b.entry_address && lex_lt(a.attribute, b.attribute))
    ||| (a.entry_address == b.entry_address && a.attribute == b.attribute && lex_lt(
        a.value,
        b.value,
    ))
}

/// `a` and `b` agree on every field the order consults; the source may differ.
pub open spec fn meta_key_eq(a: EntryMetaView, b: EntryMetaView) -> bool {
    a.entry_address == b.entry_address && a.attribute == b.attribute && a.value == b.value
}

/// The non-strict canonical metadata order.
pub open spec fn meta_le(a: EntryMetaView, b: EntryMetaView) -> bool {
    meta_lt(a, b) || meta_key_eq(a, b)
}

/// The storage address of a metadata assertion: the digest of its entity
/// address concatenated with its attribute name.
pub open spec fn spec_meta_address(m: EntryMetaView) -> Seq<char> {
    digest58(m.entry_address + m.attribute)
}

/// Of two assertions, exactly one of "strictly before", "equal on the
/// ordered fields" and "strictly after" holds.
pub proof fn lemma_meta_trichotomy(a: EntryMetaView, b: EntryMetaView)
    ensures
        meta_lt(a, b) || meta_key_eq(a, b) || meta_lt(b, a),
        meta_lt(a, b) ==> !meta_key_eq(a, b) && !meta_lt(b, a),
        meta_key_eq(a, b) ==> !meta_lt(a, b) && !meta_lt(b, a),
{
    lemma_lex_trichotomy(a.entry_address, b.entry_address);
    lemma_lex_trichotomy(a.attribute, b.attribute);
    lemma_lex_trichotomy(a.value, b.value);
}

/// The canonical metadata order is transitive.
pub proof fn lemma_meta_le_transitive(a: EntryMetaView, b: EntryMetaView, c: EntryMetaView)
    requires
        meta_le(a, b),
        meta_le(b, c),
    ensures
        meta_le(a, c),
{
    lemma_meta_trichotomy(a, b);
    lemma_meta_trichotomy(b, c);
    lemma_meta_trichotomy(a, c);
    if lex_lt(a.entry_address, b.entry_address) && lex_lt(b.entry_address, c.entry_address) {
        lemma_lex_transitive(a.entry_address, b.entry_address, c.entry_address);
    }
    if lex_lt(a.attribute, b.attribute) && lex_lt(b.attribute, c.attribute) {
        lemma_lex_transitive(a.attribute, b.attribute, c.attribute);
    }
    if lex_lt(a.value, b.value) && lex_lt(b.value, c.value) {
        lemma_lex_transitive(a.value, b.value, c.value);
    }
}

/// Metadata addressing collapses on entity and attribute: two assertions
/// about the same record and attribute share one storage address, whatever
/// their value and source.
pub proof fn lemma_meta_address_collapses(a: EntryMetaView, b: EntryMetaView)
    requires
        a.entry_address == b.entry_address,
        a.attribute == b.attribute,
    ensures
        spec_meta_address(a) == spec_meta_address(b),
{
}

impl EntryMeta {
    /// Builds a new assertion from the asserting agent, the subject record's
    /// address, an attribute name and an attribute value.
    pub fn new(node_id: &str, address: &Address, attribute: &str, value: &str) -> (m: EntryMeta)
        ensures
            m@ == (EntryMetaView {
                entry_address: address@,
                attribute: attribute@,
                value: value@,
                source: node_id@,
            }),
    {
        EntryMeta {
            entry_address: address.clone(),
            attribute: attribute.to_owned(),
            value: value.to_owned(),
            source: node_id.to_owned(),
        }
    }

    /// The address of the record this assertion is about.
    pub fn entry_address(&self) -> (a: &Address)
        ensures
            a@ == self@.entry_address,
    {
        &self.entry_address
    }

    /// A copy of the attribute name.
    pub fn attribute(&self) -> (s: String)
        ensures
            s@ == self@.attribute,
    {
        self.attribute.clone()
    }

    /// A copy of the attribute value.
    pub fn value(&self) -> (s: String)
        ensures
            s@ == self@.value,
    {
        self.value.clone()
    }

    /// A copy of the asserting agent's identifier.
    pub fn source(&self) -> (s: String)
        ensures
            s@ == self@.source,
    {
        self.source.clone()
    }

    /// The storage address for any assertion about `address` and
    /// `attribute`: the digest of the two concatenated.
    pub fn make_address(address: &Address, attribute: &str) -> (a: Address)
        ensures
            a@ == digest58(address@ + attribute@),
    {
        let pieces = address.as_str().to_owned().concat(attribute);
        Address::encode_from_str(pieces.as_str(), DigestAlgorithm::Sha2256)
    }

    /// Compares two assertions in the canonical metadata order.
    pub fn cmp(&self, other: &EntryMeta) -> (r: Ordering)
        ensures
            r == Ordering::Less <==> meta_lt(self@, other@),
            r == Ordering::Equal <==> meta_key_eq(self@, other@),
            r == Ordering::Greater <==> meta_lt(other@, self@),
    {
        proof {
            lemma_lex_trichotomy(self@.entry_address, other@.entry_address);
            lemma_lex_trichotomy(self@.attribute, other@.attribute);
            lemma_lex_trichotomy(self@.value, other@.value);
        }
        match str_cmp(self.entry_address.as_str(), other.entry_address.as_str()) {
            Ordering::Equal => match str_cmp(self.attribute.as_str(), other.attribute.as_str()) {
                Ordering::Equal => str_cmp(self.value.as_str(), other.value.as_str()),
                o => o,
            },
            o => o,
        }
    }

    /// The canonical serialized form of this assertion.
    fn encode_json(&self) -> (c: String)
        ensures
            c@ == spec_encode_meta(self@.entry_address, self@.attribute, self@.value, self@.source),
    {
        let mut out = String::new();
        out.append("{\"entry_address\":\"");
        crate::json::escape_into(&mut out, self.entry_address.as_str());
        push_char(&mut out, '"');
        out.append(",\"attribute\":\"");
        crate::json::escape_into(&mut out, self.attribute.as_str());
        push_char(&mut out, '"');
        out.append(",\"value\":\"");
        crate::json::escape_into(&mut out, self.value.as_str());
        push_char(&mut out, '"');
        out.append(",\"source\":\"");
        crate::json::escape_into(&mut out, self.source.as_str());
        push_char(&mut out, '"');
        out.append("}");
        proof {
            assert(out@ =~= spec_encode_meta(
                self@.entry_address,
                self@.attribute,
                self@.value,
                self@.source,
            ));
        }
        out
    }

    /// Serializes this assertion to its canonical JSON form; never fails.
    pub fn to_json(&self) -> (r: Result<String, StoreError>)
        ensures
            r matches Ok(c) && c@ == spec_encode_meta(
                self@.entry_address,
                self@.attribute,
                self@.value,
                self@.source,
            ),
    {
        Ok(self.encode_json())
    }

    /// Parses an assertion from its canonical JSON form; anything else is a
    /// decode error.
    pub fn from_json(s: &str) -> (r: Result<EntryMeta, StoreError>)
        ensures
            r matches Ok(m) ==> spec_decode_meta(s@) == Some(
                (m@.entry_address, m@.attribute, m@.value, m@.source),
            ),
            r is Err <==> spec_decode_meta(s@) is None,
    {
        let len = vstd::string::StrSliceExecFns::unicode_len(s);
        let i1 = match expect_lit(s, 0, "{\"entry_address\":\"") {
            Some(i) => i,
            None => {
                return Err(StoreError::Decode(decode_error_message()));
            },
        };
        let (e, i2) = match parse_str_from(s, i1) {
            Some(p) => p,
            None => {
                return Err(StoreError::Decode(decode_error_message()));
            },
        };
        let i3 = match expect_lit(s, i2, ",\"attribute\":\"") {
            Some(i) => i,
            None => {
                return Err(StoreError::Decode(decode_error_message()));
            },
        };
        let (a, i4) = match parse_str_from(s, i3) {
            Some(p) => p,
            None => {
                return Err(StoreError::Decode(decode_error_message()));
            },
        };
        let i5 = match expect_lit(s, i4, ",\"value\":\"") {
            Some(i) => i,
            None => {
                return Err(StoreError::Decode(decode_error_message()));
            },
        };
        let (v, i6) = match parse_str_from(s, i5) {
            Some(p) => p,
            None => {
                return Err(StoreError::Decode(decode_error_message()));
            },
        };
        let i7 = match expect_lit(s, i6, ",\"source\":\"") {
            Some(i) => i,
            None => {
                return Err(StoreError::Decode(decode_error_message()));
            },
        };
        let (src, i8) = match parse_str_from(s, i7) {
            Some(p) => p,
            None => {
                return Err(StoreError::Decode(decode_error_message()));
            },
        };
        let i9 = match expect_lit(s, i8, "}") {
            Some(i) => i,
            None => {
                return Err(StoreError::Decode(decode_error_message()));
            },
        };
        if i9 != len {
            return Err(StoreError::Decode(decode_error_message()));
        }
        Ok(EntryMeta {
            entry_address: Address::from_string(e),
            attribute: a,
            value: v,
            source: src,
        })
    }
}

/// The message carried by every metadata decode error.
fn decode_error_message() -> (s: String)
    ensures
        s@ == "could not parse stored content as a metadata assertion"@,
{
    "could not parse stored content as a metadata assertion".to_owned()
}

impl AddressableContent for EntryMeta {
    open spec fn spec_address(&self) -> Seq<char> {
        spec_meta_address(self@)
    }

    open spec fn spec_content(&self) -> Seq<char> {
        spec_encode_meta(self@.entry_address, self@.attribute, self@.value, self@.source)
    }

    open spec fn spec_decode(c: Seq<char>) -> Option<EntryMetaView> {
        match spec_decode_meta(c) {
            Some((e, a, v, s)) => Some(
                EntryMetaView { entry_address: e, attribute: a, value: v, source: s },
            ),
            None => None,
        }
    }

    fn address(&self) -> (a: Address) {
        EntryMeta::make_address(&self.entry_address, self.attribute.as_str())
    }

    fn content(&self) -> (c: Content) {
        self.encode_json()
    }

    fn from_content(c: &str) -> (r: Result<EntryMeta, StoreError>) {
        EntryMeta::from_json(c)
    }

    proof fn lemma_round_trip(&self) {
        lemma_decode_encode(self@.entry_address, self@.attribute, self@.value, self@.source);
    }
}

impl Clone for EntryMeta {
    /// A clone carries the same four fields.
    fn clone(&self) -> (r: EntryMeta)
        ensures
            r@ == self@,
    {
        EntryMeta {
            entry_address: self.entry_address.clone(),
            attribute: self.attribute.clone(),
            value: self.value.clone(),
            source: self.source.clone(),
        }
    }
}

impl PartialEq for EntryMeta {
    fn eq(&self, other: &EntryMeta) -> (r: bool) {
        self.entry_address.eq(&other.entry_address) && self.attribute.eq(&other.attribute)
            && self.value.eq(&other.value) && self.source.eq(&other.source)
    }
}

impl vstd::std_specs::cmp::PartialEqSpecImpl for EntryMeta {
    open spec fn obeys_eq_spec() -> bool {
        true
    }

    open spec fn eq_spec(&self, other: &EntryMeta) -> bool {
        self@ == other@
    }
}

/// The canonical order as a single value, for `partial_cmp` contracts.
pub open spec fn spec_meta_cmp(a: EntryMetaView, b: EntryMetaView) -> Ordering {
    if meta_lt(a, b) {
        Ordering::Less
    } else if meta_key_eq(a, b) {
        Ordering::Equal
    } else {
        Ordering::Greater
    }
}

impl PartialOrd for EntryMeta {
    fn partial_cmp(&self, other: &EntryMeta) -> (r: Option<Ordering>) {
        proof {
            lemma_meta_trichotomy(self@, other@);
        }
        Some(self.cmp(other))
    }
}

impl vstd::std_specs::cmp::PartialOrdSpecImpl for EntryMeta {
    open spec fn obeys_partial_cmp_spec() -> bool {
        true
    }

    open spec fn partial_cmp_spec(&self, other: &EntryMeta) -> Option<Ordering> {
        Some(spec_meta_cmp(self@, other@))
    }
}

/// A fixed attribute name used by the test suite.
pub fn test_attribute() -> (s: String)
    ensures
        s@ == "meta-attribute"@,
{
    "meta-attribute".to_owned()
}

/// The same attribute name as `test_attribute`.
pub fn test_attribute_a() -> (s: String)
    ensures
        s@ == "meta-attribute"@,
{
    test_attribute()
}

/// An attribute name that differs from `test_attribute`.
pub fn test_attribute_b() -> (s: String)
    ensures
        s@ == "another-attribute"@,
{
    "another-attribute".to_owned()
}

/// A fixed attribute value used by the test suite.
pub fn test_value() -> (s: String)
    ensures
        s@ == "meta value"@,
{
    "meta value".to_owned()
}

/// The same attribute value as `test_value`.
pub fn test_value_a() -> (s: String)
    ensures
        s@ == "meta value"@,
{
    test_value()
}

/// An attribute value that differs from `test_value`.
pub fn test_value_b() -> (s: String)
    ensures
        s@ == "another value"@,
{
    "another value".to_owned()
}

/// The identifier of the fixed test agent.
pub fn test_node_id() -> (s: String)
    ensures
        s@ == "test node id"@,
{
    "test node id".to_owned()
}

/// An assertion by the test agent about the given record.
pub fn test_meta_for(entry: &Entry, attribute: &str, value: &str) -> (m: EntryMeta)
    ensures
        m@.entry_address == digest58(entry@),
        m@.attribute == attribute@,
        m@.value == value@,
        m@.source == "test node id"@,
{
    EntryMeta::new(test_node_id().as_str(), &entry.address(), attribute, value)
}

/// A fixed assertion used by the test suite.
pub fn test_meta() -> (m: EntryMeta)
    ensures
        m@.entry_address == digest58("test entry content"@),
        m@.attribute == "meta-attribute"@,
        m@.value == "meta value"@,
        m@.source == "test node id"@,
{
    EntryMeta::new(
        test_node_id().as_str(),
        &test_entry().address(),
        test_attribute().as_str(),
        test_value().as_str(),
    )
}

/// The same assertion as `test_meta`.
pub fn test_meta_a() -> (m: EntryMeta)
    ensures
        m@.entry_address == digest58("test entry content"@),
        m@.attribute == "meta-attribute"@,
        m@.value == "meta value"@,
        m@.source == "test node id"@,
{
    test_meta()
}

/// A second assertion about the same record as `test_meta_a`, with the
/// other attribute and value.
pub fn test_meta_b() -> (m: EntryMeta)
    ensures
        m@.entry_address == digest58("test entry content"@),
        m@.attribute == "another-attribute"@,
        m@.value == "another value"@,
        m@.source == "test node id"@,
{
    EntryMeta::new(
        test_node_id().as_str(),
        &test_entry().address(),
        test_attribute_b().as_str(),
        test_value_b().as_str(),
    )
}

} // verus!
