//! The supervisor's decisions: where to resume, when to wait, when to
//! advance, when to halt.
//!
//! The long-running loop itself — querying the chain tip, sleeping one
//! block interval when caught up, fetching and tracing a block — lives in
//! the unverified shell. Every decision it takes is a function here: the
//! working start computed from the persisted cursor, the wait-or-analyse
//! choice against the tip, and the advance-or-halt choice after an
//! iteration.

use vstd::prelude::*;

use crate::pipeline::{analyse_block_spec, cursor_row, FetchedBlockView};
use crate::state_set::TransactionStateSetView;
use crate::store::{
    has_chain_id, insert_state_row, ParallelAnalyzerState, ParallelAnalyzerStateView, Store,
    StoreView,
};

verus! {

/// The nominal block interval, slept when the analyzer has caught up with
/// the chain tip.
pub const POLL_INTERVAL_SECS: u64 = 12;

/// What one loop iteration should do against the observed tip.
#[derive(Debug, Clone, Copy, PartialEq, Eq, Structural)]
pub enum PollDecision {
    /// The cursor is past the tip: sleep one block interval and poll
    /// again.
    Wait,
    /// The block is at or below the tip: run the pipeline for it.
    Analyse,
}

/// The fresh cursor row of a chain that has never been analyzed: the tip
/// is unobserved, and the last analyzed block sits one before the
/// configured start.
pub fn initial_parallel_analyzer_state(chain_id: i64, start_block: i64) -> (r:
    ParallelAnalyzerState)
    requires
        start_block > i64::MIN,
    ensures
        r@.latest_block == 0,
        r@.chain_id == chain_id as int,
        r@.start_block == start_block as int,
        r@.latest_analyzed_block == start_block as int - 1,
{
    ParallelAnalyzerState {
        latest_block: 0,
        chain_id,
        start_block,
        latest_analyzed_block: start_block - 1,
    }
}

/// The block a run resumes from, given the persisted progress and the
/// configured start: one past the last analyzed block, but never before
/// the configured start.
pub open spec fn working_start_spec(latest_analyzed_block: int, configured_start: int) -> int {
    if latest_analyzed_block + 1 >= configured_start {
        latest_analyzed_block + 1
    } else {
        configured_start
    }
}

/// The block a run resumes from, given the persisted progress and the
/// configured start.
pub fn working_start(latest_analyzed_block: i64, configured_start: i64) -> (r: i64)
    requires
        latest_analyzed_block < i64::MAX,
    ensures
        r as int == working_start_spec(latest_analyzed_block as int, configured_start as int),
{
    let next = latest_analyzed_block + 1;
    if next >= configured_start {
        next
    } else {
        configured_start
    }
}

/// Looks the chain's cursor up and returns the block to resume from.
/// When the chain has no cursor yet, a fresh one is inserted and the
/// configured start is returned; otherwise the store is untouched and
/// analysis resumes one past the last analyzed block, bounded below by
/// the configured start.
pub fn resume_start_block(store: &mut Store, chain_id: i64, configured_start: i64) -> (r: i64)
    requires
        old(store)@.wf(),
        configured_start > i64::MIN,
        has_chain_id(old(store)@.analyzer_states, chain_id as int) ==> cursor_row(
            old(store)@.analyzer_states,
            chain_id as int,
        ).latest_analyzed_block < i64::MAX,
    ensures
        final(store)@.wf(),
        has_chain_id(old(store)@.analyzer_states, chain_id as int) ==> {
            &&& final(store)@ == old(store)@
            &&& r as int == working_start_spec(
                cursor_row(old(store)@.analyzer_states, chain_id as int).latest_analyzed_block,
                configured_start as int,
            )
        },
        !has_chain_id(old(store)@.analyzer_states, chain_id as int) ==> {
            &&& r == configured_start
            &&& final(store)@.blocks == old(store)@.blocks
            &&& final(store)@.transactions == old(store)@.transactions
            &&& final(store)@.transaction_dags == old(store)@.transaction_dags
            &&& final(store)@.analyzer_states == old(store)@.analyzer_states.push(
                ParallelAnalyzerStateView {
                    latest_block: 0,
                    chain_id: chain_id as int,
                    start_block: configured_start as int,
                    latest_analyzed_block: configured_start as int - 1,
                },
            )
        },
{
    match store.get_parallel_analyzer_state_by_chainid(chain_id) {
        Some(state) => {
            proof {
                crate::pipeline::lemma_cursor_row_unique(
                    old(store)@.analyzer_states,
                    chain_id as int,
                    state@,
                );
            }
            working_start(state.latest_analyzed_block, configured_start)
        },
        None => {
            let fresh = initial_parallel_analyzer_state(chain_id, configured_start);
            store.insert_parallel_analyzer_state(&fresh);
            proof {
                let states0 = old(store)@.analyzer_states;
                assert(!has_chain_id(states0, chain_id as int));
                assert(insert_state_row(states0, fresh@) == states0.push(fresh@));
                let states1 = store@.analyzer_states;
                assert forall|i: int, j: int|
                    0 <= i < j < states1.len() implies states1[i].chain_id
                    != states1[j].chain_id by {
                    if j == states0.len() {
                        assert(!(0 <= i < states0.len() && states0[i].chain_id
                            == chain_id as int));
                    }
                }
            }
            configured_start
        },
    }
}

/// Decides one loop iteration: wait while the next block is past the
/// observed tip, otherwise analyse it.
pub fn poll_step(block_number: i64, latest_block_number: i64) -> (d: PollDecision)
    ensures
        d == (if block_number > latest_block_number {
            PollDecision::Wait
        } else {
            PollDecision::Analyse
        }),
{
    if block_number > latest_block_number {
        PollDecision::Wait
    } else {
        PollDecision::Analyse
    }
}

/// Decides where the loop goes after an iteration for `block_number`:
/// to the next block on success, nowhere on an error — the loop halts
/// and the process is restarted externally, resuming from the cursor.
pub fn next_block_number(block_number: i64, succeeded: bool) -> (r: Option<i64>)
    requires
        block_number < i64::MAX,
    ensures
        r is Some <==> succeeded,
        succeeded ==> r->0 == block_number + 1,
{
    if succeeded {
        Some(block_number + 1)
    } else {
        None
    }
}

/// A restart right after block `n` was committed resumes at `n + 1`,
/// exactly where an uninterrupted run would continue — so, with the
/// pipeline deterministic in its inputs, the persisted state of a
/// restarted run equals that of a run that never stopped.
pub proof fn lemma_resume_after_success(
    s: StoreView,
    chain_id: int,
    block_number: int,
    latest_block_number: int,
    fetched: FetchedBlockView,
    traces: Seq<TransactionStateSetView>,
    configured_start: int,
)
    requires
        s.wf(),
        has_chain_id(s.analyzer_states, chain_id),
        configured_start <= block_number + 1,
    ensures
        working_start_spec(
            cursor_row(
                analyse_block_spec(
                    s,
                    chain_id,
                    block_number,
                    latest_block_number,
                    fetched,
                    traces,
                ).analyzer_states,
                chain_id,
            ).latest_analyzed_block,
            configured_start,
        ) == block_number + 1,
{
    crate::pipeline::lemma_iteration_cursor(
        s,
        chain_id,
        block_number,
        latest_block_number,
        fetched,
        traces,
    );
}

} // verus!
