//! Selecting and ordering metadata assertions.
//!
//! Query results hold exactly the assertions about one entity, sorted by
//! entity, then attribute, then value. The selection keeps exactly the
//! matching assertions, and the sort is an insertion sort proved to return
//! a sequence that is sorted in that order and holds exactly the assertions
//! it was given.

use crate::content::Address;
use crate::entry_meta::{
    lemma_meta_le_transitive, lemma_meta_trichotomy, meta_le, EntryMeta, EntryMetaView,
};
use core::cmp::Ordering;
use vstd::prelude::*;
use vstd::relations::sorted_by;

verus! {

/// The views of a sequence of assertions, in order.
pub open spec fn views_of(s: Seq<EntryMeta>) -> Seq<EntryMetaView> {
    s.map_values(|m: EntryMeta| m@)
}

/// The canonical metadata order, as a relation value.
pub open spec fn meta_le_f() -> spec_fn(EntryMetaView, EntryMetaView) -> bool {
    |a: EntryMetaView, b: EntryMetaView| meta_le(a, b)
}

/// The assertions among `s` whose entity is `target`, in stored order.
pub open spec fn matching_metas(s: Seq<EntryMetaView>, target: Seq<char>) -> Seq<EntryMetaView>
    decreases s.len(),
{
    if s.len() == 0 {
        Seq::empty()
    } else {
        let rest = matching_metas(s.drop_last(), target);
        if s.last().entry_address == target {
            rest.push(s.last())
        } else {
            rest
        }
    }
}

/// Every assertion the selection keeps carries the target entity.
pub proof fn lemma_matching_metas_match(s: Seq<EntryMetaView>, target: Seq<char>)
    ensures
        forall|i: int|
            0 <= i < matching_metas(s, target).len() ==> (#[trigger] matching_metas(
                s,
                target,
            )[i]).entry_address == target,
    decreases s.len(),
{
    if s.len() > 0 {
        lemma_matching_metas_match(s.drop_last(), target);
        let rd = matching_metas(s.drop_last(), target);
        let r = matching_metas(s, target);
        assert forall|i: int| 0 <= i < r.len() implies (#[trigger] r[i]).entry_address
            == target by {
            if i < rd.len() {
                assert(r[i] == rd[i]);
                assert(rd[i].entry_address == target);
            } else {
                assert(r[i] == s.last());
            }
        }
    }
}

/// Reports whether `a` comes at or before `b` in the canonical order.
fn le_exec(a: &EntryMeta, b: &EntryMeta) -> (r: bool)
    ensures
        r == meta_le(a@, b@),
{
    proof {
        lemma_meta_trichotomy(a@, b@);
    }
    match a.cmp(b) {
        Ordering::Greater => false,
        _ => true,
    }
}

/// Sorts assertions into the canonical metadata order, returning exactly
/// the assertions given.
pub fn sort_metas(v: Vec<EntryMeta>) -> (r: Vec<EntryMeta>)
    ensures
        sorted_by(views_of(r@), meta_le_f()),
        views_of(r@).to_multiset() == views_of(v@).to_multiset(),
{
    let mut out: Vec<EntryMeta> = Vec::new();
    let mut idx: usize = 0;
    proof {
        assert(views_of(v@.subrange(0, 0)) =~= Seq::<EntryMetaView>::empty());
        assert(views_of(out@) =~= Seq::<EntryMetaView>::empty());
    }
    while idx < v.len()
        invariant
            idx <= v@.len(),
            sorted_by(views_of(out@), meta_le_f()),
            views_of(out@).to_multiset() == views_of(v@.subrange(0, idx as int)).to_multiset(),
        decreases v@.len() - idx,
    {
        let x = v[idx].clone();
        let ghost s_old = views_of(out@);
        let mut j: usize = out.len();
        while j > 0 && !le_exec(&out[j - 1], &x)
            invariant
                j <= out@.len(),
                x@ == v@[idx as int]@,
                sorted_by(views_of(out@), meta_le_f()),
                forall|k: int| j <= k < out@.len() ==> meta_le(x@, #[trigger] views_of(out@)[k]),
            decreases j,
        {
            proof {
                lemma_meta_trichotomy(out@[j - 1]@, x@);
            }
            j = j - 1;
        }
        out.insert(j, x);
        proof {
            let s_new = views_of(out@);
            assert(s_new =~= s_old.insert(j as int, v@[idx as int]@));
            let xv = v@[idx as int]@;
            assert forall|p: int, q: int| 0 <= p < q < s_new.len() implies #[trigger] meta_le_f()(
                s_new[p],
                s_new[q],
            ) by {
                if q < j {
                    assert(meta_le_f()(s_old[p], s_old[q]));
                } else if p > j {
                    assert(meta_le_f()(s_old[p - 1], s_old[q - 1]));
                } else if p == j && q > j {
                    assert(meta_le(xv, s_old[q - 1]));
                } else if q == j {
                    // p < j: everything at or before j - 1 comes at or before x
                    if p < j - 1 {
                        assert(meta_le_f()(s_old[p], s_old[j - 1]));
                        lemma_meta_le_transitive(s_old[p], s_old[j - 1], xv);
                    }
                } else {
                    // p < j < q: chain through x only when needed
                    assert(meta_le(xv, s_old[q - 1]));
                    if p < j - 1 {
                        assert(meta_le_f()(s_old[p], s_old[j - 1]));
                        lemma_meta_le_transitive(s_old[p], s_old[j - 1], xv);
                        lemma_meta_le_transitive(s_old[p], xv, s_old[q - 1]);
                    } else {
                        lemma_meta_le_transitive(s_old[j - 1], xv, s_old[q - 1]);
                    }
                }
            }
            vstd::seq_lib::to_multiset_insert::<EntryMetaView>(s_old, j as int, xv);
            assert(s_new.to_multiset() == s_old.to_multiset().insert(xv));
            let pfx = views_of(v@.subrange(0, idx as int));
            assert(views_of(v@.subrange(0, idx + 1)) =~= pfx.push(xv));
            vstd::seq_lib::to_multiset_build::<EntryMetaView>(pfx, xv);
            assert(pfx.push(xv).to_multiset() =~= pfx.to_multiset().insert(xv));
        }
        idx = idx + 1;
    }
    proof {
        assert(v@.subrange(0, v@.len() as int) =~= v@);
    }
    out
}

/// Exactly the assertions of `all` whose entity is `target`, sorted in the
/// canonical metadata order: no matching assertion is dropped, none is
/// invented, and no foreign assertion slips in.
pub fn select_metas(all: &Vec<EntryMeta>, target: &Address) -> (r: Vec<EntryMeta>)
    ensures
        sorted_by(views_of(r@), meta_le_f()),
        views_of(r@).to_multiset() == matching_metas(views_of(all@), target@).to_multiset(),
{
    let mut kept: Vec<EntryMeta> = Vec::new();
    let mut i: usize = 0;
    proof {
        assert(views_of(kept@) =~= matching_metas(views_of(all@).subrange(0, 0), target@));
    }
    while i < all.len()
        invariant
            i <= all@.len(),
            views_of(kept@) == matching_metas(views_of(all@).subrange(0, i as int), target@),
        decreases all@.len() - i,
    {
        proof {
            let av = views_of(all@);
            assert(av.subrange(0, i + 1).drop_last() =~= av.subrange(0, i as int));
            assert(av.subrange(0, i + 1).last() == av[i as int]);
            assert(av[i as int] == all@[i as int]@);
        }
        if all[i].entry_address().eq(target) {
            let ghost prev = kept@;
            kept.push(all[i].clone());
            proof {
                assert(views_of(kept@) =~= views_of(prev).push(views_of(all@)[i as int]));
            }
        }
        i = i + 1;
    }
    proof {
        assert(views_of(all@).subrange(0, all@.len() as int) =~= views_of(all@));
    }
    sort_metas(kept)
}

} // verus!
