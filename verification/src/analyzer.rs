//! The pairwise dependency analyzer.
//!
//! Given the ordered read/write sets of a block's transactions, dense from
//! index 0, the analyzer emits a labeled edge `(source, target, mask)` for
//! every ordered pair with `target < source` whose mask is non-zero: the
//! transaction at `source` read state, along the axes of the mask, that the
//! earlier transaction at `target` wrote. Edges point from the later
//! transaction to the earlier one it depends on, so a consumer points at
//! its producer.

use vstd::prelude::*;

use crate::seq_view;
use crate::state_set::{dep_mask, sets_overlap, TransactionStateSet, TransactionStateSetView};
use crate::store::{TransactionDag, TransactionDagView};

verus! {

/// The edges of the source transaction at `i` against the earlier
/// transactions at indices `[0, j_end)`, in ascending target order.
pub open spec fn row_edges(states: Seq<TransactionStateSetView>, i: int, j_end: int) -> Seq<
    (int, int, int),
>
    decreases j_end,
{
    if j_end <= 0 {
        Seq::empty()
    } else {
        let rest = row_edges(states, i, j_end - 1);
        let m = dep_mask(states[j_end - 1], states[i]);
        if m != 0 {
            rest.push((i, j_end - 1, m))
        } else {
            rest
        }
    }
}

/// The edges among the transactions at indices `[0, i_end)`, in ascending
/// source order.
pub open spec fn edges_upto(states: Seq<TransactionStateSetView>, i_end: int) -> Seq<
    (int, int, int),
>
    decreases i_end,
{
    if i_end <= 0 {
        Seq::empty()
    } else {
        edges_upto(states, i_end - 1) + row_edges(states, i_end - 1, i_end - 1)
    }
}

/// All labeled edges of a block's ordered transaction state sets.
pub open spec fn block_edges(states: Seq<TransactionStateSetView>) -> Seq<(int, int, int)> {
    edges_upto(states, states.len() as int)
}

/// Edge triples as dependency edge rows of one block.
pub open spec fn dag_rows(block_number: int, edges: Seq<(int, int, int)>) -> Seq<
    TransactionDagView,
> {
    edges.map_values(
        |e: (int, int, int)|
            TransactionDagView {
                block_number: block_number,
                source_tx: e.0,
                target_tx: e.1,
                dep_type: e.2,
            },
    )
}

/// Computes the dependency edges of one block from its ordered transaction
/// state sets, as rows ready for insertion.
pub fn analyse_dependencies(block_number: i64, tx_states: &Vec<TransactionStateSet>) -> (edges:
    Vec<TransactionDag>)
    requires
        tx_states@.len() <= i64::MAX,
    ensures
        seq_view(edges@) == dag_rows(
            block_number as int,
            block_edges(seq_view(tx_states@)),
        ),
{
    let ghost states = seq_view(tx_states@);
    let n = tx_states.len();
    let mut edges: Vec<TransactionDag> = Vec::new();
    let mut i: usize = 0;
    proof {
        assert(seq_view(edges@) =~= dag_rows(block_number as int, edges_upto(states, 0)));
    }
    while i < n
        invariant
            states == seq_view(tx_states@),
            n == tx_states.len(),
            n <= i64::MAX,
            i <= n,
            seq_view(edges@) == dag_rows(block_number as int, edges_upto(states, i as int)),
        decreases n - i,
    {
        let mut j: usize = 0;
        proof {
            assert(row_edges(states, i as int, 0) =~= Seq::<(int, int, int)>::empty());
            assert(edges_upto(states, i as int) + row_edges(states, i as int, 0) =~= edges_upto(
                states,
                i as int,
            ));
        }
        while j < i
            invariant
                states == seq_view(tx_states@),
                n == tx_states.len(),
                n <= i64::MAX,
                i < n,
                j <= i,
                seq_view(edges@) == dag_rows(
                    block_number as int,
                    edges_upto(states, i as int) + row_edges(states, i as int, j as int),
                ),
            decreases i - j,
        {
            let mask = check_pair(tx_states, j, i);
            let ghost pre = seq_view(edges@);
            if mask != 0 {
                edges.push(
                    TransactionDag {
                        block_number,
                        source_tx: i as i64,
                        target_tx: j as i64,
                        dep_type: mask,
                    },
                );
                proof {
                    assert(seq_view(edges@) =~= pre.push(
                        TransactionDagView {
                            block_number: block_number as int,
                            source_tx: i as int,
                            target_tx: j as int,
                            dep_type: mask as int,
                        },
                    ));
                    assert(row_edges(states, i as int, j + 1) == row_edges(
                        states,
                        i as int,
                        j as int,
                    ).push((i as int, j as int, mask as int)));
                    assert(seq_view(edges@) =~= dag_rows(
                        block_number as int,
                        edges_upto(states, i as int) + row_edges(states, i as int, j + 1),
                    ));
                }
            } else {
                proof {
                    assert(row_edges(states, i as int, j + 1) == row_edges(
                        states,
                        i as int,
                        j as int,
                    ));
                }
            }
            j += 1;
        }
        proof {
            assert(edges_upto(states, i + 1) == edges_upto(states, i as int) + row_edges(
                states,
                i as int,
                i as int,
            ));
        }
        i += 1;
    }
    proof {
        assert(edges_upto(states, n as int) == block_edges(states));
    }
    edges
}

/// Computes the dependency mask of the pair `(target j, source i)` of the
/// ordered state sets.
fn check_pair(tx_states: &Vec<TransactionStateSet>, j: usize, i: usize) -> (mask: i16)
    requires
        j < tx_states@.len(),
        i < tx_states@.len(),
    ensures
        mask as int == dep_mask(
            seq_view(tx_states@)[j as int],
            seq_view(tx_states@)[i as int],
        ),
{
    let mask = crate::state_set::check_tx_dependency(&tx_states[j], &tx_states[i]);
    proof {
        assert(seq_view(tx_states@)[j as int] == tx_states@[j as int]@);
        assert(seq_view(tx_states@)[i as int] == tx_states@[i as int]@);
    }
    mask
}

/// Every edge of a source row points at an earlier index within the row
/// bound and carries that pair's non-zero mask.
proof fn lemma_row_edges_wf(states: Seq<TransactionStateSetView>, i: int, j_end: int, k: int)
    requires
        0 <= j_end,
        0 <= k < row_edges(states, i, j_end).len(),
    ensures
        ({
            let e = row_edges(states, i, j_end)[k];
            &&& e.0 == i
            &&& 0 <= e.1 < j_end
            &&& e.2 == dep_mask(states[e.1], states[i])
            &&& e.2 != 0
        }),
    decreases j_end,
{
    let rest = row_edges(states, i, j_end - 1);
    if k < rest.len() {
        lemma_row_edges_wf(states, i, j_end - 1, k);
    }
}

/// Every edge among the first `i_end` transactions points from a later
/// source to an earlier target, both below `i_end`, and carries that
/// pair's non-zero mask.
proof fn lemma_edges_upto_wf(states: Seq<TransactionStateSetView>, i_end: int, k: int)
    requires
        0 <= i_end,
        0 <= k < edges_upto(states, i_end).len(),
    ensures
        ({
            let e = edges_upto(states, i_end)[k];
            &&& 0 <= e.1 < e.0 < i_end
            &&& e.2 == dep_mask(states[e.1], states[e.0])
            &&& e.2 != 0
        }),
    decreases i_end,
{
    let prev = edges_upto(states, i_end - 1);
    let row = row_edges(states, i_end - 1, i_end - 1);
    if k < prev.len() {
        lemma_edges_upto_wf(states, i_end - 1, k);
    } else {
        assert(edges_upto(states, i_end)[k] == row[k - prev.len()]);
        lemma_row_edges_wf(states, i_end - 1, i_end - 1, k - prev.len());
    }
}

/// Every emitted edge `(source, target, mask)` has `source > target`, a
/// non-zero mask equal to the pair's dependency mask, and the mask is the
/// sum of 0x1, 0x10 and 0x100 contributions, one per axis whose
/// intersection of the target's write set with the source's read set is
/// non-empty; a non-zero mask therefore has at least one such axis.
pub proof fn lemma_block_edges_wellformed(states: Seq<TransactionStateSetView>, k: int)
    requires
        0 <= k < block_edges(states).len(),
    ensures
        ({
            let e = block_edges(states)[k];
            let balance = sets_overlap(
                states[e.1].write_set.balance_set,
                states[e.0].read_set.balance_set,
            );
            let code = sets_overlap(
                states[e.1].write_set.code_set,
                states[e.0].read_set.code_set,
            );
            let storage = sets_overlap(
                states[e.1].write_set.storage_set,
                states[e.0].read_set.storage_set,
            );
            &&& 0 <= e.1 < e.0 < states.len()
            &&& e.2 != 0
            &&& e.2 == (if balance {
                0x1int
            } else {
                0
            }) + (if code {
                0x10int
            } else {
                0
            }) + (if storage {
                0x100int
            } else {
                0
            })
            &&& balance || code || storage
        }),
{
    lemma_edges_upto_wf(states, states.len() as int, k);
}

/// Membership in a source row is exactly: an earlier target below the row
/// bound whose pair mask is the edge's non-zero mask.
proof fn lemma_row_edges_contains(
    states: Seq<TransactionStateSetView>,
    i: int,
    j_end: int,
    j: int,
)
    requires
        0 <= j < j_end,
        dep_mask(states[j], states[i]) != 0,
    ensures
        row_edges(states, i, j_end).contains((i, j, dep_mask(states[j], states[i]))),
    decreases j_end,
{
    let e = (i, j, dep_mask(states[j], states[i]));
    if j == j_end - 1 {
        let rest = row_edges(states, i, j_end - 1);
        assert(row_edges(states, i, j_end)[rest.len() as int] == e);
    } else {
        lemma_row_edges_contains(states, i, j_end - 1, j);
        let rest = row_edges(states, i, j_end - 1);
        let idx = choose|idx: int| 0 <= idx < rest.len() && rest[idx] == e;
        assert(row_edges(states, i, j_end)[idx] == e);
    }
}

/// Membership among the first `i_end` transactions' edges is exactly: an
/// ordered pair below `i_end` whose mask is the edge's non-zero mask.
proof fn lemma_edges_upto_contains(
    states: Seq<TransactionStateSetView>,
    i_end: int,
    i: int,
    j: int,
)
    requires
        0 <= j < i < i_end,
        dep_mask(states[j], states[i]) != 0,
    ensures
        edges_upto(states, i_end).contains((i, j, dep_mask(states[j], states[i]))),
    decreases i_end,
{
    let e = (i, j, dep_mask(states[j], states[i]));
    let prev = edges_upto(states, i_end - 1);
    let row = row_edges(states, i_end - 1, i_end - 1);
    if i == i_end - 1 {
        lemma_row_edges_contains(states, i, i, j);
        let idx = choose|idx: int| 0 <= idx < row.len() && row[idx] == e;
        assert(edges_upto(states, i_end)[prev.len() + idx] == e);
    } else {
        lemma_edges_upto_contains(states, i_end - 1, i, j);
        let idx = choose|idx: int| 0 <= idx < prev.len() && prev[idx] == e;
        assert(edges_upto(states, i_end)[idx] == e);
    }
}

/// An edge is emitted for a block if and only if it pairs a later source
/// with an earlier target, both within the block, and its mask is the
/// pair's non-zero dependency mask: the emitted edge set is exactly the
/// analyzer's output.
pub proof fn lemma_block_edges_contains(
    states: Seq<TransactionStateSetView>,
    i: int,
    j: int,
    m: int,
)
    ensures
        block_edges(states).contains((i, j, m)) <==> (0 <= j < i < states.len() && m == dep_mask(
            states[j],
            states[i],
        ) && m != 0),
{
    if block_edges(states).contains((i, j, m)) {
        let k = choose|k: int|
            0 <= k < block_edges(states).len() && block_edges(states)[k] == (i, j, m);
        lemma_edges_upto_wf(states, states.len() as int, k);
    }
    if 0 <= j < i < states.len() && m == dep_mask(states[j], states[i]) && m != 0 {
        lemma_edges_upto_contains(states, states.len() as int, i, j);
    }
}

} // verus!
