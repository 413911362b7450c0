//! The in-memory storage table.
//!
//! A second backend of the same interface as the file-backed table, with its
//! whole behaviour specified: records live in a hash map keyed by address,
//! metadata assertions in a slot list keyed by their entity+attribute
//! address, one slot per address. The storage laws — the put/get round trip,
//! absence for unwritten addresses, idempotent rewrites, last-write-wins on
//! a metadata slot, and the exactness and order of metadata queries — are
//! proved here.

use crate::content::{digest58, Address, AddressableContent};
use crate::entry::Entry;
use crate::entry_meta::{spec_meta_address, EntryMeta, EntryMetaView};
use crate::sort::{matching_metas, meta_le_f, select_metas, views_of};
use crate::StoreError;
use vstd::hash_map::StringHashMap;
use vstd::prelude::*;
use vstd::relations::sorted_by;

verus! {

/// The mathematical value of an in-memory table: records by address, and
/// the sequence of metadata slots, each an address with its assertion.
pub struct MemTableView {
    pub entries: Map<Seq<char>, Seq<char>>,
    pub metas: Seq<(Seq<char>, EntryMetaView)>,
}

/// The record content stored at an address, if any.
pub open spec fn spec_entry_at(entries: Map<Seq<char>, Seq<char>>, address: Seq<char>) -> Option<
    Seq<char>,
> {
    if entries.contains_key(address) {
        Some(entries[address])
    } else {
        None
    }
}

/// Whether some metadata slot carries the given address.
pub open spec fn has_meta_key(s: Seq<(Seq<char>, EntryMetaView)>, k: Seq<char>) -> bool {
    exists|i: int| 0 <= i < s.len() && (#[trigger] s[i]).0 == k
}

/// The index of the metadata slot carrying the given address.
pub open spec fn meta_idx(s: Seq<(Seq<char>, EntryMetaView)>, k: Seq<char>) -> int {
    choose|i: int| 0 <= i < s.len() && (#[trigger] s[i]).0 == k
}

/// Each metadata address owns at most one slot.
pub open spec fn meta_keys_unique(s: Seq<(Seq<char>, EntryMetaView)>) -> bool {
    forall|i: int, j: int|
        0 <= i < j < s.len() ==> (#[trigger] s[i]).0 != (#[trigger] s[j]).0
}

/// Every slot is keyed by its own assertion's address.
pub open spec fn slots_addressed(s: Seq<(Seq<char>, EntryMetaView)>) -> bool {
    forall|i: int|
        0 <= i < s.len() ==> (#[trigger] s[i]).0 == spec_meta_address(s[i].1)
}

/// Asserting a metadata value at its own address keeps the slots uniquely
/// and correctly keyed.
pub proof fn lemma_assert_meta_preserves(
    s: Seq<(Seq<char>, EntryMetaView)>,
    k: Seq<char>,
    m: EntryMetaView,
)
    requires
        meta_keys_unique(s),
        slots_addressed(s),
        spec_meta_address(m) == k,
    ensures
        meta_keys_unique(spec_assert_meta(s, k, m)),
        slots_addressed(spec_assert_meta(s, k, m)),
{
    let s2 = spec_assert_meta(s, k, m);
    if has_meta_key(s, k) {
        let hit = meta_idx(s, k);
        assert(0 <= hit < s.len() && s[hit].0 == k);
        assert forall|p: int| 0 <= p < s2.len() implies (#[trigger] s2[p]).0 == spec_meta_address(
            s2[p].1,
        ) by {
            if p != hit {
                assert(s2[p] == s[p]);
            }
        }
        assert forall|p: int, q: int| 0 <= p < q < s2.len() implies (#[trigger] s2[p]).0 != (
        #[trigger] s2[q]).0 by {
            assert(s[p].0 != s[q].0);
            assert(s2[p].0 == s[p].0);
            assert(s2[q].0 == s[q].0);
        }
    } else {
        assert forall|p: int| 0 <= p < s2.len() implies (#[trigger] s2[p]).0 == spec_meta_address(
            s2[p].1,
        ) by {
            if p < s.len() {
                assert(s2[p] == s[p]);
            }
        }
        assert forall|p: int, q: int| 0 <= p < q < s2.len() implies (#[trigger] s2[p]).0 != (
        #[trigger] s2[q]).0 by {
            if q < s.len() {
                assert(s[p].0 != s[q].0);
            } else {
                assert(s2[p] == s[p]);
                assert(s[p].0 != k);
            }
        }
    }
}

/// The assertion stored at a metadata address, if any.
pub open spec fn spec_meta_at(s: Seq<(Seq<char>, EntryMetaView)>, k: Seq<char>) -> Option<
    EntryMetaView,
> {
    if has_meta_key(s, k) {
        Some(s[meta_idx(s, k)].1)
    } else {
        None
    }
}

/// The slots after asserting `m` at address `k`: the slot already carrying
/// `k` is overwritten, otherwise a new slot is appended.
pub open spec fn spec_assert_meta(
    s: Seq<(Seq<char>, EntryMetaView)>,
    k: Seq<char>,
    m: EntryMetaView,
) -> Seq<(Seq<char>, EntryMetaView)> {
    if has_meta_key(s, k) {
        s.update(meta_idx(s, k), (k, m))
    } else {
        s.push((k, m))
    }
}

/// The assertions of a slot sequence, in stored order.
pub open spec fn slot_metas(s: Seq<(Seq<char>, EntryMetaView)>) -> Seq<EntryMetaView> {
    s.map_values(|p: (Seq<char>, EntryMetaView)| p.1)
}

/// An in-memory table of the same shape as the file-backed one.
pub struct MemTable {
    entries: StringHashMap<Entry>,
    metas: Vec<(Address, EntryMeta)>,
}

impl View for MemTable {
    type V = MemTableView;

    closed spec fn view(&self) -> MemTableView {
        MemTableView {
            entries: Map::new(
                |k: Seq<char>| self.entries@.dom().contains(k),
                |k: Seq<char>| self.entries@[k]@,
            ),
            metas: self.metas@.map_values(|p: (Address, EntryMeta)| (p.0@, p.1@)),
        }
    }
}

impl MemTable {
    /// Every metadata slot is stored under its assertion's own address, and
    /// no two slots share an address.
    pub open spec fn wf(&self) -> bool {
        &&& meta_keys_unique(self@.metas)
        &&& slots_addressed(self@.metas)
    }

    /// An empty table.
    pub fn new() -> (t: MemTable)
        ensures
            t.wf(),
            t@.entries == Map::<Seq<char>, Seq<char>>::empty(),
            t@.metas == Seq::<(Seq<char>, EntryMetaView)>::empty(),
    {
        let t = MemTable { entries: StringHashMap::new(), metas: Vec::new() };
        proof {
            assert(t@.entries =~~= Map::<Seq<char>, Seq<char>>::empty());
            assert(t@.metas =~= Seq::<(Seq<char>, EntryMetaView)>::empty());
        }
        t
    }

    /// Stores a record under its own content-derived address; never fails.
    pub fn put_entry(&mut self, entry: &Entry) -> (r: Result<(), StoreError>)
        requires
            old(self).wf(),
        ensures
            final(self).wf(),
            r is Ok,
            final(self)@.entries == old(self)@.entries.insert(digest58(entry@), entry@),
            final(self)@.metas == old(self)@.metas,
    {
        let address = entry.address();
        let key = address.as_str().to_owned();
        self.entries.insert(key, entry.clone());
        proof {
            assert(self@.entries =~~= old(self)@.entries.insert(digest58(entry@), entry@));
            assert(self@.metas =~= old(self)@.metas);
        }
        Ok(())
    }

    /// The record stored at `address`, or absent; never an error.
    pub fn entry(&self, address: &Address) -> (r: Result<Option<Entry>, StoreError>)
        requires
            self.wf(),
        ensures
            r matches Ok(o),
            r matches Ok(o) ==> match o {
                Some(e) => spec_entry_at(self@.entries, address@) == Some(e@),
                None => spec_entry_at(self@.entries, address@) is None,
            },
    {
        match self.entries.get(address.as_str()) {
            Some(e) => Ok(Some(e.clone())),
            None => Ok(None),
        }
    }

    /// Stores a metadata assertion in the slot of its entity+attribute
    /// address, overwriting whatever the slot held; never fails.
    pub fn assert_meta(&mut self, meta: &EntryMeta) -> (r: Result<(), StoreError>)
        requires
            old(self).wf(),
        ensures
            final(self).wf(),
            r is Ok,
            final(self)@.entries == old(self)@.entries,
            final(self)@.metas == spec_assert_meta(
                old(self)@.metas,
                spec_meta_address(meta@),
                meta@,
            ),
    {
        let address = meta.address();
        let ghost k = spec_meta_address(meta@);
        let ghost s0 = self@.metas;
        let mut i: usize = 0;
        while i < self.metas.len()
            invariant
                old(self).wf(),
                self == old(self),
                i <= self@.metas.len(),
                address@ == k,
                k == spec_meta_address(meta@),
                s0 == self@.metas,
                forall|j: int| 0 <= j < i ==> (#[trigger] s0[j]).0 != k,
            decreases self@.metas.len() - i,
        {
            if self.metas[i].0.eq(&address) {
                let ghost hit = i as int;
                self.metas.set(i, (address, meta.clone()));
                proof {
                    assert(s0[hit] == (old(self).metas@[hit].0@, old(self).metas@[hit].1@));
                    assert(s0[hit].0 == k);
                    assert(has_meta_key(s0, k));
                    let c = meta_idx(s0, k);
                    assert(0 <= c < s0.len() && s0[c].0 == k);
                    if c != hit {
                        assert(s0[c].0 != s0[hit].0);
                    }
                    assert(c == hit);
                    assert(self@.metas =~= s0.update(hit, (k, meta@)));
                    assert(self@.metas == spec_assert_meta(s0, k, meta@));
                    assert(self@.entries =~~= old(self)@.entries);
                    lemma_assert_meta_preserves(s0, k, meta@);
                }
                return Ok(());
            }
            i = i + 1;
        }
        let ghost prev = self@.metas;
        self.metas.push((address, meta.clone()));
        proof {
            assert(self@.metas =~= prev.push((k, meta@)));
            assert(!has_meta_key(prev, k));
            assert(self@.metas == spec_assert_meta(prev, k, meta@));
            assert(self@.entries =~~= old(self)@.entries);
            lemma_assert_meta_preserves(prev, k, meta@);
        }
        Ok(())
    }

    /// The assertion stored in the slot of `address`, or absent; never an
    /// error.
    pub fn get_meta(&mut self, address: &Address) -> (r: Result<Option<EntryMeta>, StoreError>)
        requires
            old(self).wf(),
        ensures
            final(self).wf(),
            final(self)@ == old(self)@,
            r matches Ok(o),
            r matches Ok(o) ==> match o {
                Some(m) => spec_meta_at(old(self)@.metas, address@) == Some(m@),
                None => spec_meta_at(old(self)@.metas, address@) is None,
            },
    {
        let ghost s = self@.metas;
        let mut i: usize = 0;
        while i < self.metas.len()
            invariant
                old(self).wf(),
                self == old(self),
                i <= s.len(),
                s == self@.metas,
                forall|j: int| 0 <= j < i ==> (#[trigger] s[j]).0 != address@,
            decreases s.len() - i,
        {
            if self.metas[i].0.eq(address) {
                let m = self.metas[i].1.clone();
                proof {
                    let hit = i as int;
                    assert(s[hit] == (self.metas@[hit].0@, self.metas@[hit].1@));
                    assert(s[hit].0 == address@);
                    assert(has_meta_key(s, address@));
                    let c = meta_idx(s, address@);
                    assert(0 <= c < s.len() && s[c].0 == address@);
                    if c != hit {
                        assert(s[c].0 != s[hit].0);
                    }
                    assert(c == hit);
                    assert(s[hit].1 == m@);
                }
                return Ok(Some(m));
            }
            i = i + 1;
        }
        proof {
            assert(!has_meta_key(s, address@));
        }
        Ok(None)
    }

    /// Exactly the stored assertions whose entity is the given record's
    /// address, sorted in the canonical metadata order; never an error.
    pub fn metas_from_entry(&mut self, entry: &Entry) -> (r: Result<Vec<EntryMeta>, StoreError>)
        requires
            old(self).wf(),
        ensures
            final(self).wf(),
            final(self)@ == old(self)@,
            r matches Ok(v),
            r matches Ok(v) ==> sorted_by(views_of(v@), meta_le_f()),
            r matches Ok(v) ==> views_of(v@).to_multiset() == matching_metas(
                slot_metas(old(self)@.metas),
                digest58(entry@),
            ).to_multiset(),
    {
        let target = entry.address();
        let ghost s = slot_metas(self@.metas);
        let mut stored: Vec<EntryMeta> = Vec::new();
        let mut i: usize = 0;
        proof {
            assert(views_of(stored@) =~= s.subrange(0, 0));
        }
        while i < self.metas.len()
            invariant
                old(self).wf(),
                self == old(self),
                i <= s.len(),
                s == slot_metas(self@.metas),
                views_of(stored@) == s.subrange(0, i as int),
            decreases s.len() - i,
        {
            let ghost prev = stored@;
            stored.push(self.metas[i].1.clone());
            proof {
                assert(views_of(stored@) =~= views_of(prev).push(s[i as int]));
                assert(views_of(stored@) =~= s.subrange(0, i + 1));
            }
            i = i + 1;
        }
        proof {
            assert(s.subrange(0, s.len() as int) =~= s);
            assert(views_of(stored@) == s);
        }
        Ok(select_metas(&stored, &target))
    }
}

/// Store/retrieve round trip: once a record is put, the table holds exactly
/// that record's content at the record's own address, and a lookup of that
/// address returns it.
pub proof fn lemma_put_then_get(entries: Map<Seq<char>, Seq<char>>, r: Seq<char>)
    ensures
        spec_entry_at(entries.insert(digest58(r), r), digest58(r)) == Some(r),
{
}

/// An address never written holds nothing: looking it up is the defined
/// "absent" outcome.
pub proof fn lemma_get_unwritten(entries: Map<Seq<char>, Seq<char>>, address: Seq<char>)
    requires
        !entries.contains_key(address),
    ensures
        spec_entry_at(entries, address) is None,
{
}

/// Writing the same record twice is idempotent: the table after the second
/// put is exactly the table after the first.
pub proof fn lemma_put_idempotent(entries: Map<Seq<char>, Seq<char>>, r: Seq<char>)
    ensures
        entries.insert(digest58(r), r).insert(digest58(r), r) == entries.insert(digest58(r), r),
{
    assert(entries.insert(digest58(r), r).insert(digest58(r), r) =~~= entries.insert(
        digest58(r),
        r,
    ));
}

/// Last write wins: whatever a metadata slot held before, after an assertion
/// is stored in it, a point lookup of that slot returns the new assertion.
pub proof fn lemma_last_write_wins(
    s: Seq<(Seq<char>, EntryMetaView)>,
    k: Seq<char>,
    m: EntryMetaView,
)
    requires
        meta_keys_unique(s),
    ensures
        spec_meta_at(spec_assert_meta(s, k, m), k) == Some(m),
{
    let s2 = spec_assert_meta(s, k, m);
    if has_meta_key(s, k) {
        let i = meta_idx(s, k);
        assert(s[i].0 == k);
        assert(s2[i] == (k, m));
        assert(has_meta_key(s2, k));
        let j = meta_idx(s2, k);
        assert(s2[j].0 == k);
        if j != i {
            assert(s[j].0 == k);
            assert(s[i].0 != s[j].0);
        }
    } else {
        let i = s.len() as int;
        assert(s2[i] == (k, m));
        assert(has_meta_key(s2, k));
        let j = meta_idx(s2, k);
        assert(s2[j].0 == k);
        if j != i {
            assert(s[j].0 == k);
        }
    }
}

} // verus!
