//! Content-addressing primitives.
//!
//! A [`Content`] is the canonical serialized form of a stored value, and an
//! [`Address`] is the deterministic digest of such a payload, rendered in the
//! system's canonical textual form: a SHA-256 digest wrapped in multihash
//! framing and encoded in base58. The [`AddressableContent`] capability links
//! a storable type to its content and its address.

use crate::StoreError;
use vstd::prelude::*;
use vstd::string::StringExecFns;

verus! {

/// The canonical serialized form of a stored value.
pub type Content = String;

/// The SHA-256 digest of the UTF-8 bytes of a character sequence.
/// The digest algorithm behind [`encode_str_sha256`]; it depends on the
/// characters alone.
pub uninterp spec fn sha2_256_of(s: Seq<char>) -> Seq<u8>;

/// The base58 (Bitcoin alphabet) rendering of a byte sequence; it depends
/// on the bytes alone.
pub uninterp spec fn base58_of(b: Seq<u8>) -> Seq<char>;

/// The canonical textual address derived from a character payload:
/// its SHA-256 digest in multihash framing (code `0x12`, length 32),
/// rendered in base58.
pub open spec fn digest58(s: Seq<char>) -> Seq<char> {
    base58_of(seq![0x12u8, 0x20u8] + sha2_256_of(s))
}

/// Relies on `sha2::Sha256::digest`: a deterministic function of the input
/// bytes alone, always returning a 32-byte digest.
#[verifier::external_body]
fn sha2_256_digest(s: &str) -> (r: Vec<u8>)
    ensures
        r@ == sha2_256_of(s@),
        r@.len() == 32,
{
    <sha2::Sha256 as sha2::Digest>::digest(s.as_bytes()).to_vec()
}

/// Relies on `multihash::Multihash::wrap` and `Multihash::to_bytes`: for a
/// code below 128 and a digest of at most 127 bytes the encoding is the code
/// byte, the length byte, then the digest itself.
#[verifier::external_body]
fn multihash_sha2_256_frame(digest: &Vec<u8>) -> (r: Vec<u8>)
    requires
        digest@.len() == 32,
    ensures
        r@ == seq![0x12u8, 0x20u8] + digest@,
{
    let framed: multihash::Multihash<32> = multihash::Multihash::wrap(0x12, digest.as_slice())
        .expect("a 32-byte digest fits the allocated width");
    framed.to_bytes()
}

/// Relies on `bs58::encode` with the default (Bitcoin) alphabet: a
/// deterministic function of the input bytes alone.
#[verifier::external_body]
fn base58_encode(b: &Vec<u8>) -> (r: String)
    ensures
        r@ == base58_of(b@),
{
    bs58::encode(b.as_slice()).into_string()
}

/// The pluggable family of digest algorithms an address can be derived
/// with. The algorithm is named at every derivation call site, never
/// hardcoded inside an entity type, so it can change without changing the
/// entity model.
#[derive(Debug, Clone, Copy)]
pub enum DigestAlgorithm {
    Sha2256,
}

/// The canonical textual address a payload derives to under the given
/// algorithm.
pub open spec fn spec_digest(alg: DigestAlgorithm, s: Seq<char>) -> Seq<char> {
    match alg {
        DigestAlgorithm::Sha2256 => digest58(s),
    }
}

/// An opaque content identifier: the canonical textual form of a content
/// digest, used as the sole lookup key into storage.
#[derive(Debug)]
pub struct Address {
    key: String,
}

impl Clone for Address {
    /// A clone carries the same textual key.
    fn clone(&self) -> (r: Address)
        ensures
            r@ == self@,
    {
        Address { key: self.key.clone() }
    }
}

impl View for Address {
    type V = Seq<char>;

    closed spec fn view(&self) -> Seq<char> {
        self.key@
    }
}

impl Address {
    /// Wraps an already-derived textual key as an address.
    pub fn from_string(key: String) -> (a: Address)
        ensures
            a@ == key@,
    {
        Address { key }
    }

    /// The textual form of the address.
    pub fn as_str(&self) -> (s: &str)
        ensures
            s@ == self@,
    {
        self.key.as_str()
    }

    /// Derives the address of a content payload with the named algorithm:
    /// digest, frame, render.
    pub fn encode_from_str(s: &str, algorithm: DigestAlgorithm) -> (a: Address)
        ensures
            a@ == spec_digest(algorithm, s@),
    {
        match algorithm {
            DigestAlgorithm::Sha2256 => {
                let digest = sha2_256_digest(s);
                let framed = multihash_sha2_256_frame(&digest);
                Address { key: base58_encode(&framed) }
            },
        }
    }
}

impl PartialEq for Address {
    fn eq(&self, other: &Address) -> (r: bool) {
        self.key.eq(&other.key)
    }
}

impl vstd::std_specs::cmp::PartialEqSpecImpl for Address {
    open spec fn obeys_eq_spec() -> bool {
        true
    }

    open spec fn eq_spec(&self, other: &Address) -> bool {
        self@ == other@
    }
}

impl From<String> for Address {
    fn from(key: String) -> (a: Address) {
        Address { key }
    }
}

impl vstd::std_specs::convert::FromSpecImpl<String> for Address {
    open spec fn obeys_from_spec() -> bool {
        true
    }

    closed spec fn from_spec(key: String) -> Address {
        Address { key }
    }
}

/// The capability every storable type has: derive its own address, serialize
/// itself to canonical content, and rebuild itself from stored content.
pub trait AddressableContent: View + Sized {
    /// The address of this value, as a character sequence.
    spec fn spec_address(&self) -> Seq<char>;

    /// The canonical serialized form of this value, as a character sequence.
    spec fn spec_content(&self) -> Seq<char>;

    /// What stored content decodes to, if anything.
    spec fn spec_decode(c: Seq<char>) -> Option<Self::V>;

    /// Derives this value's address from its content.
    fn address(&self) -> (a: Address)
        ensures
            a@ == self.spec_address(),
    ;

    /// Serializes this value to its canonical content.
    fn content(&self) -> (c: Content)
        ensures
            c@ == self.spec_content(),
    ;

    /// Rebuilds a value from stored content; stored bytes that do not parse
    /// are a decode error, never a silently constructed value.
    fn from_content(c: &str) -> (r: Result<Self, StoreError>)
        ensures
            r matches Ok(x) ==> Self::spec_decode(c@) == Some(x@),
            r is Err <==> Self::spec_decode(c@) is None,
    ;

    /// The round-trip law: decoding a value's own canonical content yields
    /// the value back.
    proof fn lemma_round_trip(&self)
        ensures
            Self::spec_decode(self.spec_content()) == Some(self@),
    ;
}

} // verus!
