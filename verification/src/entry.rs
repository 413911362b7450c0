//! A stored record.
//!
//! An entry is an immutable unit of application data with no identity beyond
//! its address and its content: its canonical serialized form is its content
//! itself, and its address is the content digest.

use crate::content::{digest58, Address, AddressableContent, Content, DigestAlgorithm};
use crate::StoreError;
use vstd::prelude::*;

verus! {

/// An immutable stored record; its address is the digest of its content.
#[derive(Debug)]
pub struct Entry {
    content: String,
}

impl Clone for Entry {
    /// A clone carries the same content.
    fn clone(&self) -> (r: Entry)
        ensures
            r@ == self@,
    {
        Entry { content: self.content.clone() }
    }
}

impl View for Entry {
    type V = Seq<char>;

    closed spec fn view(&self) -> Seq<char> {
        self.content@
    }
}

impl Entry {
    /// Wraps a content payload as a record.
    pub fn new(content: &str) -> (e: Entry)
        ensures
            e@ == content@,
    {
        Entry { content: content.to_owned() }
    }
}

impl AddressableContent for Entry {
    open spec fn spec_address(&self) -> Seq<char> {
        digest58(self@)
    }

    open spec fn spec_content(&self) -> Seq<char> {
        self@
    }

    open spec fn spec_decode(c: Seq<char>) -> Option<Seq<char>> {
        Some(c)
    }

    fn address(&self) -> (a: Address) {
        Address::encode_from_str(self.content.as_str(), DigestAlgorithm::Sha2256)
    }

    fn content(&self) -> (c: Content) {
        self.content.clone()
    }

    fn from_content(c: &str) -> (r: Result<Entry, StoreError>) {
        Ok(Entry { content: c.to_owned() })
    }

    proof fn lemma_round_trip(&self) {
    }
}

impl PartialEq for Entry {
    fn eq(&self, other: &Entry) -> (r: bool) {
        self.content.eq(&other.content)
    }
}

impl vstd::std_specs::cmp::PartialEqSpecImpl for Entry {
    open spec fn obeys_eq_spec() -> bool {
        true
    }

    open spec fn eq_spec(&self, other: &Entry) -> bool {
        self@ == other@
    }
}

/// A fixed record used by the test suite.
pub fn test_entry() -> (e: Entry)
    ensures
        e@ == "test entry content"@,
{
    Entry::new("test entry content")
}

} // verus!
