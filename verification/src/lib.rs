//! Dependency analysis for blocks of an Ethereum-compatible chain.
//!
//! For every ordered pair of transactions in a block the analyzer decides
//! whether the later transaction read state that an earlier one wrote, and
//! along which axis (account balance, account code, contract storage slot).
//! The resulting labeled edge set is persisted per block, together with the
//! block header, the transaction rows and a per-chain cursor that makes the
//! analysis loop resumable after a crash.
//!
//! This crate holds the verified core: the state-set extractor, the pairwise
//! dependency analyzer, an exact model of the relational store, the block
//! pipeline and the supervisor decisions, and the read-API transformations.
//! Fetching blocks and traces over JSON-RPC, the SQL connection and the HTTP
//! server are unverified shells around these functions.

use vstd::prelude::*;

pub mod analyzer;
pub mod api;
pub mod config;
pub mod pipeline;
pub mod state_set;
pub mod store;
pub mod supervisor;

verus! {

/// The element-wise view of a sequence of viewable values.
pub open spec fn seq_view<T: View>(s: Seq<T>) -> Seq<T::V> {
    s.map_values(|x: T| x@)
}

/// Filtering a sequence extended by one element keeps the filtered prefix
/// and appends the element exactly when it satisfies the predicate.
pub proof fn lemma_filter_push<A>(s: Seq<A>, x: A, pred: spec_fn(A) -> bool)
    ensures
        s.push(x).filter(pred) == (if pred(x) {
            s.filter(pred).push(x)
        } else {
            s.filter(pred)
        }),
{
    reveal(Seq::filter);
    assert(s.push(x).drop_last() =~= s);
    assert(s.push(x).last() == x);
}

/// Filtering keeps a sequence whole when every element satisfies the
/// predicate.
pub proof fn lemma_filter_all_pos<A>(s: Seq<A>, pred: spec_fn(A) -> bool)
    requires
        forall|i: int| 0 <= i < s.len() ==> pred(#[trigger] s[i]),
    ensures
        s.filter(pred) == s,
    decreases s.len(),
{
    reveal(Seq::filter);
    if s.len() > 0 {
        assert forall|i: int| 0 <= i < s.drop_last().len() implies pred(
            #[trigger] s.drop_last()[i],
        ) by {
            assert(s.drop_last()[i] == s[i]);
        }
        lemma_filter_all_pos(s.drop_last(), pred);
        assert(pred(s.last()));
        assert(s.drop_last().push(s.last()) =~= s);
    }
}

/// Filtering empties a sequence when no element satisfies the predicate.
pub proof fn lemma_filter_all_neg<A>(s: Seq<A>, pred: spec_fn(A) -> bool)
    requires
        forall|i: int| 0 <= i < s.len() ==> !pred(#[trigger] s[i]),
    ensures
        s.filter(pred) == Seq::<A>::empty(),
    decreases s.len(),
{
    reveal(Seq::filter);
    if s.len() == 0 {
        assert(s =~= Seq::<A>::empty());
    } else {
        assert forall|i: int| 0 <= i < s.drop_last().len() implies !pred(
            #[trigger] s.drop_last()[i],
        ) by {
            assert(s.drop_last()[i] == s[i]);
        }
        lemma_filter_all_neg(s.drop_last(), pred);
        assert(!pred(s.last()));
    }
}

} // verus!
