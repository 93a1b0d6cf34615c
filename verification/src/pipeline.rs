//! The block pipeline: everything one block number commits to the store.
//!
//! For a block number `n` and an observed chain tip `T`, the pipeline
//! persists the fetched header, persists the transaction rows, replaces
//! the block's dependency edges with the analyzer's output, and finally
//! advances the chain's cursor to `(n, T)`. The steps are ordered so that
//! a crash at any point leaves the cursor pointing before `n`, and every
//! step is idempotent under replay: re-running the block is safe.
//!
//! The unverified shell fetches the block and its traces; the pipeline is
//! a plan of store actions computed and proved here, which the shell
//! executes against the relational store in order. `analyse_block` applies
//! the same plan to the store model and carries the end-to-end contract.

use vstd::prelude::*;

use crate::analyzer::{analyse_dependencies, block_edges, dag_rows};
use crate::api::AppError;
use crate::seq_view;
use crate::state_set::{TransactionStateSet, TransactionStateSetView};
use crate::store::{
    dag_in_block, dag_not_in_block, dags_of_block, delete_dag_rows, has_block_hash, has_chain_id,
    has_tx_hash, insert_block_row, insert_transaction_row, lemma_insert_block_idempotent,
    update_state_row, update_state_rows, Block, BlockView, ParallelAnalyzerState,
    ParallelAnalyzerStateView, Store, StoreView, Transaction, TransactionDag, TransactionDagView,
    TransactionView,
};

verus! {

/// A fetched block header. Optional fields are absent on chains or blocks
/// that predate them and persist as zero.
#[derive(Debug)]
pub struct FetchedHeader {
    pub parent_hash: String,
    pub hash: String,
    pub number: i64,
    pub gas_used: i64,
    pub gas_limit: i64,
    pub timestamp: i64,
    pub base_fee_per_gas: Option<i64>,
    pub blob_gas_used: Option<i64>,
    pub excess_blob_gas: Option<i64>,
}

/// The mathematical value of a fetched header.
pub struct FetchedHeaderView {
    pub parent_hash: Seq<char>,
    pub hash: Seq<char>,
    pub number: int,
    pub gas_used: int,
    pub gas_limit: int,
    pub timestamp: int,
    pub base_fee_per_gas: Option<int>,
    pub blob_gas_used: Option<int>,
    pub excess_blob_gas: Option<int>,
}

/// The view of an optional machine integer.
pub open spec fn opt_int(o: Option<i64>) -> Option<int> {
    match o {
        Some(x) => Some(x as int),
        None => None,
    }
}

/// An optional value, or zero when absent.
pub open spec fn opt_or_zero(o: Option<int>) -> int {
    match o {
        Some(x) => x,
        None => 0,
    }
}

impl View for FetchedHeader {
    type V = FetchedHeaderView;

    open spec fn view(&self) -> FetchedHeaderView {
        FetchedHeaderView {
            parent_hash: self.parent_hash@,
            hash: self.hash@,
            number: self.number as int,
            gas_used: self.gas_used as int,
            gas_limit: self.gas_limit as int,
            timestamp: self.timestamp as int,
            base_fee_per_gas: opt_int(self.base_fee_per_gas),
            blob_gas_used: opt_int(self.blob_gas_used),
            excess_blob_gas: opt_int(self.excess_blob_gas),
        }
    }
}

/// A fetched transaction. The block number and the index within the block
/// are optional on the wire; a block whose transactions lack them, or
/// whose indices are not dense from zero, is malformed.
#[derive(Debug)]
pub struct FetchedTransaction {
    pub block_number: Option<i64>,
    pub tx_index: Option<i64>,
    pub tx_hash: String,
    pub tx_from: String,
    pub tx_to: String,
    pub gas_price: String,
    pub max_fee_per_gas: String,
    pub max_priority_fee_per_gas: String,
    pub max_fee_per_blob_gas: String,
    pub gas: i64,
    pub tx_value: String,
    pub input: String,
    pub nonce: i64,
    pub tx_type: i16,
}

/// The mathematical value of a fetched transaction.
pub struct FetchedTransactionView {
    pub block_number: Option<int>,
    pub tx_index: Option<int>,
    pub tx_hash: Seq<char>,
    pub tx_from: Seq<char>,
    pub tx_to: Seq<char>,
    pub gas_price: Seq<char>,
    pub max_fee_per_gas: Seq<char>,
    pub max_priority_fee_per_gas: Seq<char>,
    pub max_fee_per_blob_gas: Seq<char>,
    pub gas: int,
    pub tx_value: Seq<char>,
    pub input: Seq<char>,
    pub nonce: int,
    pub tx_type: int,
}

impl View for FetchedTransaction {
    type V = FetchedTransactionView;

    open spec fn view(&self) -> FetchedTransactionView {
        FetchedTransactionView {
            block_number: opt_int(self.block_number),
            tx_index: opt_int(self.tx_index),
            tx_hash: self.tx_hash@,
            tx_from: self.tx_from@,
            tx_to: self.tx_to@,
            gas_price: self.gas_price@,
            max_fee_per_gas: self.max_fee_per_gas@,
            max_priority_fee_per_gas: self.max_priority_fee_per_gas@,
            max_fee_per_blob_gas: self.max_fee_per_blob_gas@,
            gas: self.gas as int,
            tx_value: self.tx_value@,
            input: self.input@,
            nonce: self.nonce as int,
            tx_type: self.tx_type as int,
        }
    }
}

/// A fetched block: the header and, when the full variant was requested
/// and served, the ordered transaction list.
#[derive(Debug)]
pub struct FetchedBlock {
    pub header: FetchedHeader,
    pub transactions: Option<Vec<FetchedTransaction>>,
}

/// The mathematical value of a fetched block.
pub struct FetchedBlockView {
    pub header: FetchedHeaderView,
    pub transactions: Option<Seq<FetchedTransactionView>>,
}

impl View for FetchedBlock {
    type V = FetchedBlockView;

    open spec fn view(&self) -> FetchedBlockView {
        FetchedBlockView {
            header: self.header@,
            transactions: match self.transactions {
                Some(ref txs) => Some(seq_view(txs@)),
                None => None,
            },
        }
    }
}

/// The block row a fetched header persists to.
pub open spec fn block_row_of(h: FetchedHeaderView) -> BlockView {
    BlockView {
        parent_hash: h.parent_hash,
        block_hash: h.hash,
        block_number: h.number,
        gas_used: h.gas_used,
        gas_limit: h.gas_limit,
        block_timestamp: h.timestamp,
        base_fee_per_gas: opt_or_zero(h.base_fee_per_gas),
        blob_gas_used: opt_or_zero(h.blob_gas_used),
        excess_blob_gas: opt_or_zero(h.excess_blob_gas),
    }
}

/// The transaction row a fetched transaction persists to.
pub open spec fn transaction_row_of(t: FetchedTransactionView) -> TransactionView {
    TransactionView {
        block_number: opt_or_zero(t.block_number),
        tx_index: opt_or_zero(t.tx_index),
        tx_hash: t.tx_hash,
        tx_from: t.tx_from,
        tx_to: t.tx_to,
        gas_price: t.gas_price,
        max_fee_per_gas: t.max_fee_per_gas,
        max_priority_fee_per_gas: t.max_priority_fee_per_gas,
        max_fee_per_blob_gas: t.max_fee_per_blob_gas,
        gas: t.gas,
        tx_value: t.tx_value,
        input: t.input,
        nonce: t.nonce,
        tx_type: t.tx_type,
    }
}

/// The transaction rows a fetched transaction list persists to.
pub open spec fn transaction_rows_of(txs: Seq<FetchedTransactionView>) -> Seq<TransactionView> {
    txs.map_values(|t: FetchedTransactionView| transaction_row_of(t))
}

/// Whether a fetched transaction list is well-formed: every transaction
/// carries its block number, the indices are dense from zero, and the
/// count is machine-representable.
pub open spec fn well_formed_transactions(txs: Seq<FetchedTransactionView>) -> bool {
    &&& txs.len() <= i64::MAX
    &&& forall|i: int|
        0 <= i < txs.len() ==> (#[trigger] txs[i]).tx_index == Some(i) && txs[i].block_number
            is Some
}

/// Whether a fetched block and its traces can be analyzed: the full
/// transaction list is present and well-formed, with one trace per
/// transaction.
pub open spec fn valid_block_input(
    fetched: FetchedBlockView,
    traces: Seq<TransactionStateSetView>,
) -> bool {
    match fetched.transactions {
        Some(txs) => well_formed_transactions(txs) && traces.len() == txs.len(),
        None => false,
    }
}

/// The transaction table after inserting the given rows in order, each
/// idempotent on its hash.
pub open spec fn insert_transaction_rows(
    table: Seq<TransactionView>,
    rows: Seq<TransactionView>,
) -> Seq<TransactionView>
    decreases rows.len(),
{
    if rows.len() == 0 {
        table
    } else {
        insert_transaction_row(insert_transaction_rows(table, rows.drop_last()), rows.last())
    }
}

/// The cursor row of one chain. Under the store's uniqueness invariant
/// this is the one row carrying the chain id.
pub open spec fn cursor_row(
    states: Seq<ParallelAnalyzerStateView>,
    chain_id: int,
) -> ParallelAnalyzerStateView {
    choose|s: ParallelAnalyzerStateView| #[trigger] states.contains(s) && s.chain_id == chain_id
}

/// A cursor row advanced to a freshly analyzed block and an observed tip.
pub open spec fn updated_cursor(
    s: ParallelAnalyzerStateView,
    block_number: int,
    latest_block_number: int,
) -> ParallelAnalyzerStateView {
    ParallelAnalyzerStateView {
        latest_block: latest_block_number,
        chain_id: s.chain_id,
        start_block: s.start_block,
        latest_analyzed_block: block_number,
    }
}

/// The store after a successful run of the pipeline for one block: the
/// header row inserted, the transaction rows inserted, the block's edges
/// replaced by the analyzer's output, and the chain's cursor advanced.
pub open spec fn analyse_block_spec(
    s: StoreView,
    chain_id: int,
    block_number: int,
    latest_block_number: int,
    fetched: FetchedBlockView,
    traces: Seq<TransactionStateSetView>,
) -> StoreView {
    StoreView {
        blocks: insert_block_row(s.blocks, block_row_of(fetched.header)),
        transactions: insert_transaction_rows(
            s.transactions,
            transaction_rows_of(fetched.transactions->0),
        ),
        transaction_dags: delete_dag_rows(s.transaction_dags, block_number) + dag_rows(
            block_number,
            block_edges(traces),
        ),
        analyzer_states: update_state_rows(
            s.analyzer_states,
            updated_cursor(
                cursor_row(s.analyzer_states, chain_id),
                block_number,
                latest_block_number,
            ),
        ),
    }
}

/// One write of the pipeline's plan against the store.
#[derive(Debug)]
pub enum StoreAction {
    InsertBlock(Block),
    InsertTransaction(Transaction),
    DeleteDagsByBlock(i64),
    InsertDag(TransactionDag),
    UpdateCursor(ParallelAnalyzerState),
}

/// The mathematical value of one store action.
pub enum StoreActionView {
    InsertBlock(BlockView),
    InsertTransaction(TransactionView),
    DeleteDagsByBlock(int),
    InsertDag(TransactionDagView),
    UpdateCursor(ParallelAnalyzerStateView),
}

impl View for StoreAction {
    type V = StoreActionView;

    open spec fn view(&self) -> StoreActionView {
        match self {
            StoreAction::InsertBlock(b) => StoreActionView::InsertBlock(b@),
            StoreAction::InsertTransaction(t) => StoreActionView::InsertTransaction(t@),
            StoreAction::DeleteDagsByBlock(n) => StoreActionView::DeleteDagsByBlock(*n as int),
            StoreAction::InsertDag(d) => StoreActionView::InsertDag(d@),
            StoreAction::UpdateCursor(c) => StoreActionView::UpdateCursor(c@),
        }
    }
}

/// The store after one action.
pub open spec fn apply_action(s: StoreView, a: StoreActionView) -> StoreView {
    match a {
        StoreActionView::InsertBlock(b) => StoreView {
            blocks: insert_block_row(s.blocks, b),
            transactions: s.transactions,
            transaction_dags: s.transaction_dags,
            analyzer_states: s.analyzer_states,
        },
        StoreActionView::InsertTransaction(t) => StoreView {
            blocks: s.blocks,
            transactions: insert_transaction_row(s.transactions, t),
            transaction_dags: s.transaction_dags,
            analyzer_states: s.analyzer_states,
        },
        StoreActionView::DeleteDagsByBlock(n) => StoreView {
            blocks: s.blocks,
            transactions: s.transactions,
            transaction_dags: delete_dag_rows(s.transaction_dags, n),
            analyzer_states: s.analyzer_states,
        },
        StoreActionView::InsertDag(d) => StoreView {
            blocks: s.blocks,
            transactions: s.transactions,
            transaction_dags: s.transaction_dags.push(d),
            analyzer_states: s.analyzer_states,
        },
        StoreActionView::UpdateCursor(c) => StoreView {
            blocks: s.blocks,
            transactions: s.transactions,
            transaction_dags: s.transaction_dags,
            analyzer_states: update_state_rows(s.analyzer_states, c),
        },
    }
}

/// The store after a sequence of actions, applied in order.
pub open spec fn apply_actions(s: StoreView, actions: Seq<StoreActionView>) -> StoreView
    decreases actions.len(),
{
    if actions.len() == 0 {
        s
    } else {
        apply_action(apply_actions(s, actions.drop_last()), actions.last())
    }
}

/// Builds the block row a fetched header persists to.
pub fn block_row(h: &FetchedHeader) -> (r: Block)
    ensures
        r@ == block_row_of(h@),
{
    Block {
        parent_hash: h.parent_hash.clone(),
        block_hash: h.hash.clone(),
        block_number: h.number,
        gas_used: h.gas_used,
        gas_limit: h.gas_limit,
        block_timestamp: h.timestamp,
        base_fee_per_gas: match h.base_fee_per_gas {
            Some(x) => x,
            None => 0,
        },
        blob_gas_used: match h.blob_gas_used {
            Some(x) => x,
            None => 0,
        },
        excess_blob_gas: match h.excess_blob_gas {
            Some(x) => x,
            None => 0,
        },
    }
}

/// Builds the transaction row a fetched transaction persists to.
pub fn transaction_row(t: &FetchedTransaction) -> (r: Transaction)
    ensures
        r@ == transaction_row_of(t@),
{
    Transaction {
        block_number: match t.block_number {
            Some(x) => x,
            None => 0,
        },
        tx_index: match t.tx_index {
            Some(x) => x,
            None => 0,
        },
        tx_hash: t.tx_hash.clone(),
        tx_from: t.tx_from.clone(),
        tx_to: t.tx_to.clone(),
        gas_price: t.gas_price.clone(),
        max_fee_per_gas: t.max_fee_per_gas.clone(),
        max_priority_fee_per_gas: t.max_priority_fee_per_gas.clone(),
        max_fee_per_blob_gas: t.max_fee_per_blob_gas.clone(),
        gas: t.gas,
        tx_value: t.tx_value.clone(),
        input: t.input.clone(),
        nonce: t.nonce,
        tx_type: t.tx_type,
    }
}

/// Executes a plan of store actions against the store model, in order.
pub fn apply_plan(store: &mut Store, plan: &Vec<StoreAction>)
    ensures
        final(store)@ == apply_actions(old(store)@, seq_view(plan@)),
{
    let n = plan.len();
    let mut i: usize = 0;
    proof {
        assert(seq_view(plan@).take(0) =~= Seq::<StoreActionView>::empty());
    }
    while i < n
        invariant
            n == plan.len(),
            i <= n,
            store@ == apply_actions(old(store)@, seq_view(plan@).take(i as int)),
        decreases n - i,
    {
        let ghost done = seq_view(plan@).take(i as int);
        let ghost pre = store@;
        match &plan[i] {
            StoreAction::InsertBlock(b) => {
                store.insert_block(b);
            },
            StoreAction::InsertTransaction(t) => {
                store.insert_transaction(t);
            },
            StoreAction::DeleteDagsByBlock(bn) => {
                store.delete_transaction_dags_by_block_number(*bn);
            },
            StoreAction::InsertDag(d) => {
                store.insert_transaction_dag(d);
            },
            StoreAction::UpdateCursor(c) => {
                store.update_parallel_analyzer_state_by_chainid(c);
            },
        }
        proof {
            assert(seq_view(plan@)[i as int] == plan@[i as int]@);
            assert(store@ == apply_action(pre, seq_view(plan@)[i as int]));
            assert(seq_view(plan@).take(i + 1).drop_last() =~= done);
            assert(seq_view(plan@).take(i + 1).last() == seq_view(plan@)[i as int]);
        }
        i += 1;
    }
    proof {
        assert(seq_view(plan@).take(n as int) =~= seq_view(plan@));
    }
}

/// Insert actions for the rows a fetched transaction list persists to.
pub open spec fn insert_transaction_actions(txs: Seq<FetchedTransactionView>) -> Seq<
    StoreActionView,
> {
    txs.map_values(
        |t: FetchedTransactionView| StoreActionView::InsertTransaction(transaction_row_of(t)),
    )
}

/// Insert actions for the analyzer's edge rows.
pub open spec fn insert_dag_actions(rows: Seq<TransactionDagView>) -> Seq<StoreActionView> {
    rows.map_values(|d: TransactionDagView| StoreActionView::InsertDag(d))
}

/// The pipeline's plan for one block, in commit order: the header row,
/// the transaction rows, deletion of the block's stale edges, the
/// analyzer's edges, and last the cursor update — so that a crash at any
/// earlier point leaves the cursor pointing before the block.
pub open spec fn block_plan(
    block_number: int,
    latest_block_number: int,
    fetched: FetchedBlockView,
    traces: Seq<TransactionStateSetView>,
    cursor: ParallelAnalyzerStateView,
) -> Seq<StoreActionView> {
    seq![StoreActionView::InsertBlock(block_row_of(fetched.header))]
        + insert_transaction_actions(fetched.transactions->0) + seq![
        StoreActionView::DeleteDagsByBlock(block_number),
    ] + insert_dag_actions(dag_rows(block_number, block_edges(traces))) + seq![
        StoreActionView::UpdateCursor(
            updated_cursor(cursor, block_number, latest_block_number),
        ),
    ]
}

/// Computes the pipeline's plan for one block, or reports the block as
/// malformed: the transaction list is absent, an index or block number is
/// missing, the indices are not dense from zero, or the traces do not
/// pair up with the transactions.
pub fn plan_block(
    block_number: i64,
    latest_block_number: i64,
    fetched: &FetchedBlock,
    traces: &Vec<TransactionStateSet>,
    cursor: &ParallelAnalyzerState,
) -> (r: Result<Vec<StoreAction>, AppError>)
    ensures
        match r {
            Ok(plan) => valid_block_input(fetched@, seq_view(traces@)) && seq_view(plan@)
                == block_plan(
                block_number as int,
                latest_block_number as int,
                fetched@,
                seq_view(traces@),
                cursor@,
            ),
            Err(e) => e == AppError::Logic && !valid_block_input(fetched@, seq_view(traces@)),
        },
{
    let txs = match &fetched.transactions {
        Some(txs) => txs,
        None => {
            return Err(AppError::Logic);
        },
    };
    let ghost txs_v = seq_view(txs@);
    assert(fetched@.transactions == Some(txs_v));
    let n = txs.len();
    if n as u64 > (i64::MAX as u64) {
        proof {
            assert(txs_v.len() > i64::MAX);
        }
        return Err(AppError::Logic);
    }
    let mut i: usize = 0;
    while i < n
        invariant
            fetched@.transactions == Some(txs_v),
            txs_v == seq_view(txs@),
            n == txs.len(),
            n <= i64::MAX,
            i <= n,
            forall|k: int|
                0 <= k < i ==> (#[trigger] txs_v[k]).tx_index == Some(k) && txs_v[k].block_number
                    is Some,
        decreases n - i,
    {
        proof {
            assert(txs_v[i as int] == txs@[i as int]@);
        }
        match txs[i].tx_index {
            Some(ix) => {
                if ix != i as i64 {
                    proof {
                        assert(txs_v[i as int].tx_index != Some(i as int));
                    }
                    return Err(AppError::Logic);
                }
            },
            None => {
                proof {
                    assert(txs_v[i as int].tx_index is None);
                }
                return Err(AppError::Logic);
            },
        }
        if txs[i].block_number.is_none() {
            proof {
                assert(txs_v[i as int].block_number is None);
            }
            return Err(AppError::Logic);
        }
        i += 1;
    }
    if traces.len() != n {
        return Err(AppError::Logic);
    }
    assert(well_formed_transactions(txs_v));
    assert(valid_block_input(fetched@, seq_view(traces@)));

    let mut plan: Vec<StoreAction> = Vec::new();
    plan.push(StoreAction::InsertBlock(block_row(&fetched.header)));
    let ghost acc1 = seq![StoreActionView::InsertBlock(block_row_of(fetched@.header))];
    proof {
        assert(seq_view(plan@) =~= acc1);
        assert(insert_transaction_actions(txs_v.take(0)) =~= Seq::<StoreActionView>::empty());
        assert(acc1 + insert_transaction_actions(txs_v.take(0)) =~= acc1);
    }
    let mut i: usize = 0;
    while i < n
        invariant
            txs_v == seq_view(txs@),
            n == txs.len(),
            i <= n,
            seq_view(plan@) == acc1 + insert_transaction_actions(txs_v.take(i as int)),
        decreases n - i,
    {
        let row = transaction_row(&txs[i]);
        let ghost pre = seq_view(plan@);
        plan.push(StoreAction::InsertTransaction(row));
        proof {
            assert(txs_v[i as int] == txs@[i as int]@);
            assert(seq_view(plan@) =~= pre.push(
                StoreActionView::InsertTransaction(transaction_row_of(txs_v[i as int])),
            ));
            assert(seq_view(plan@) =~= acc1 + insert_transaction_actions(txs_v.take(i + 1)));
        }
        i += 1;
    }
    let ghost acc2 = acc1 + insert_transaction_actions(txs_v);
    proof {
        assert(txs_v.take(n as int) =~= txs_v);
    }
    let ghost pre = seq_view(plan@);
    plan.push(StoreAction::DeleteDagsByBlock(block_number));
    let ghost acc3 = acc2 + seq![StoreActionView::DeleteDagsByBlock(block_number as int)];
    proof {
        assert(seq_view(plan@) =~= pre.push(
            StoreActionView::DeleteDagsByBlock(block_number as int),
        ));
        assert(seq_view(plan@) =~= acc3);
    }

    let edges = analyse_dependencies(block_number, traces);
    let ghost edges_v = seq_view(edges@);
    let m = edges.len();
    let mut j: usize = 0;
    proof {
        assert(insert_dag_actions(edges_v.take(0)) =~= Seq::<StoreActionView>::empty());
        assert(acc3 + insert_dag_actions(edges_v.take(0)) =~= acc3);
    }
    while j < m
        invariant
            edges_v == seq_view(edges@),
            m == edges.len(),
            j <= m,
            seq_view(plan@) == acc3 + insert_dag_actions(edges_v.take(j as int)),
        decreases m - j,
    {
        let ghost pre = seq_view(plan@);
        plan.push(StoreAction::InsertDag(edges[j]));
        proof {
            assert(edges_v[j as int] == edges@[j as int]@);
            assert(seq_view(plan@) =~= pre.push(StoreActionView::InsertDag(edges_v[j as int])));
            assert(seq_view(plan@) =~= acc3 + insert_dag_actions(edges_v.take(j + 1)));
        }
        j += 1;
    }
    let ghost acc4 = acc3 + insert_dag_actions(edges_v);
    proof {
        assert(edges_v.take(m as int) =~= edges_v);
    }
    let ghost pre = seq_view(plan@);
    plan.push(
        StoreAction::UpdateCursor(
            ParallelAnalyzerState {
                latest_block: latest_block_number,
                chain_id: cursor.chain_id,
                start_block: cursor.start_block,
                latest_analyzed_block: block_number,
            },
        ),
    );
    proof {
        assert(seq_view(plan@) =~= pre.push(
            StoreActionView::UpdateCursor(
                updated_cursor(cursor@, block_number as int, latest_block_number as int),
            ),
        ));
        assert(seq_view(plan@) =~= block_plan(
            block_number as int,
            latest_block_number as int,
            fetched@,
            seq_view(traces@),
            cursor@,
        ));
    }
    Ok(plan)
}

/// Applying a concatenation of actions applies the two halves in order.
proof fn lemma_apply_actions_concat(s: StoreView, a: Seq<StoreActionView>, b: Seq<StoreActionView>)
    ensures
        apply_actions(s, a + b) == apply_actions(apply_actions(s, a), b),
    decreases b.len(),
{
    if b.len() == 0 {
        assert(a + b =~= a);
    } else {
        assert((a + b).drop_last() =~= a + b.drop_last());
        assert((a + b).last() == b.last());
        lemma_apply_actions_concat(s, a, b.drop_last());
    }
}

/// Applying a single action is one step.
proof fn lemma_apply_action_single(s: StoreView, x: StoreActionView)
    ensures
        apply_actions(s, seq![x]) == apply_action(s, x),
{
    assert(seq![x].drop_last() =~= Seq::<StoreActionView>::empty());
    assert(seq![x].last() == x);
    assert(apply_actions(s, Seq::<StoreActionView>::empty()) == s);
    assert(apply_actions(s, seq![x]) == apply_action(
        apply_actions(s, seq![x].drop_last()),
        seq![x].last(),
    ));
}

/// Applying the transaction insert actions folds the rows into the
/// transaction table and touches nothing else.
proof fn lemma_apply_insert_tx_actions(s: StoreView, txs: Seq<FetchedTransactionView>)
    ensures
        apply_actions(s, insert_transaction_actions(txs)) == (StoreView {
            blocks: s.blocks,
            transactions: insert_transaction_rows(s.transactions, transaction_rows_of(txs)),
            transaction_dags: s.transaction_dags,
            analyzer_states: s.analyzer_states,
        }),
    decreases txs.len(),
{
    if txs.len() == 0 {
        assert(insert_transaction_actions(txs).len() == 0);
        assert(transaction_rows_of(txs).len() == 0);
    } else {
        let acts = insert_transaction_actions(txs);
        assert(acts.drop_last() =~= insert_transaction_actions(txs.drop_last()));
        assert(acts.last() == StoreActionView::InsertTransaction(
            transaction_row_of(txs.last()),
        ));
        lemma_apply_insert_tx_actions(s, txs.drop_last());
        let rows = transaction_rows_of(txs);
        assert(rows.drop_last() =~= transaction_rows_of(txs.drop_last()));
        assert(rows.last() == transaction_row_of(txs.last()));
    }
}

/// Applying the edge insert actions appends the rows to the edge table
/// and touches nothing else.
proof fn lemma_apply_insert_dag_actions(s: StoreView, rows: Seq<TransactionDagView>)
    ensures
        apply_actions(s, insert_dag_actions(rows)) == (StoreView {
            blocks: s.blocks,
            transactions: s.transactions,
            transaction_dags: s.transaction_dags + rows,
            analyzer_states: s.analyzer_states,
        }),
    decreases rows.len(),
{
    if rows.len() == 0 {
        assert(insert_dag_actions(rows).len() == 0);
        assert(s.transaction_dags + rows =~= s.transaction_dags);
    } else {
        let acts = insert_dag_actions(rows);
        assert(acts.drop_last() =~= insert_dag_actions(rows.drop_last()));
        assert(acts.last() == StoreActionView::InsertDag(rows.last()));
        lemma_apply_insert_dag_actions(s, rows.drop_last());
        assert(s.transaction_dags + rows =~= (s.transaction_dags + rows.drop_last()).push(
            rows.last(),
        ));
    }
}

/// Applying a block's plan in order yields exactly the pipeline's effect:
/// header row inserted, transaction rows folded in, the block's edges
/// replaced by the given rows, and the cursor rewritten.
proof fn lemma_apply_block_plan(
    s: StoreView,
    block_number: int,
    latest_block_number: int,
    fetched: FetchedBlockView,
    traces: Seq<TransactionStateSetView>,
    cursor: ParallelAnalyzerStateView,
)
    requires
        valid_block_input(fetched, traces),
    ensures
        apply_actions(
            s,
            block_plan(block_number, latest_block_number, fetched, traces, cursor),
        ) == (StoreView {
            blocks: insert_block_row(s.blocks, block_row_of(fetched.header)),
            transactions: insert_transaction_rows(
                s.transactions,
                transaction_rows_of(fetched.transactions->0),
            ),
            transaction_dags: delete_dag_rows(s.transaction_dags, block_number) + dag_rows(
                block_number,
                block_edges(traces),
            ),
            analyzer_states: update_state_rows(
                s.analyzer_states,
                updated_cursor(cursor, block_number, latest_block_number),
            ),
        }),
{
    let p1 = seq![StoreActionView::InsertBlock(block_row_of(fetched.header))];
    let p2 = insert_transaction_actions(fetched.transactions->0);
    let p3 = seq![StoreActionView::DeleteDagsByBlock(block_number)];
    let p4 = insert_dag_actions(dag_rows(block_number, block_edges(traces)));
    let p5 = seq![
        StoreActionView::UpdateCursor(
            updated_cursor(cursor, block_number, latest_block_number),
        ),
    ];
    let plan = block_plan(block_number, latest_block_number, fetched, traces, cursor);
    assert(plan == p1 + p2 + p3 + p4 + p5);
    lemma_apply_actions_concat(s, p1 + p2 + p3 + p4, p5);
    lemma_apply_actions_concat(s, p1 + p2 + p3, p4);
    lemma_apply_actions_concat(s, p1 + p2, p3);
    lemma_apply_actions_concat(s, p1, p2);
    lemma_apply_action_single(s, p1[0]);
    let s1 = apply_actions(s, p1);
    lemma_apply_insert_tx_actions(s1, fetched.transactions->0);
    let s2 = apply_actions(s1, p2);
    lemma_apply_action_single(s2, p3[0]);
    let s3 = apply_actions(s2, p3);
    lemma_apply_insert_dag_actions(s3, dag_rows(block_number, block_edges(traces)));
    let s4 = apply_actions(s3, p4);
    lemma_apply_action_single(s4, p5[0]);
}

/// The one cursor row of a chain, under the uniqueness invariant.
pub proof fn lemma_cursor_row_unique(
    states: Seq<ParallelAnalyzerStateView>,
    chain_id: int,
    s: ParallelAnalyzerStateView,
)
    requires
        forall|i: int, j: int|
            0 <= i < j < states.len() ==> states[i].chain_id != states[j].chain_id,
        exists|i: int| 0 <= i < states.len() && states[i] == s,
        s.chain_id == chain_id,
    ensures
        cursor_row(states, chain_id) == s,
{
    let wi = choose|i: int| 0 <= i < states.len() && states[i] == s;
    assert(states.contains(s));
    let c = cursor_row(states, chain_id);
    assert(states.contains(c) && c.chain_id == chain_id) by {
        assert(states.contains(s) && s.chain_id == chain_id);
    }
    let i = choose|i: int| 0 <= i < states.len() && states[i] == c;
    let j = choose|j: int| 0 <= j < states.len() && states[j] == s;
    if i != j {
        assert(states[i].chain_id != states[j].chain_id);
    }
}

/// Runs the pipeline for one block against the store model: inserts the
/// header row, validates and inserts the transaction rows, replaces the
/// block's dependency edges with the analyzer's output computed from the
/// traces, and advances the chain's cursor to the block and the observed
/// tip. A malformed block leaves the store untouched and reports a logic
/// error; nothing else fails.
pub fn analyse_block(
    store: &mut Store,
    chain_id: i64,
    block_number: i64,
    latest_block_number: i64,
    fetched: &FetchedBlock,
    traces: &Vec<TransactionStateSet>,
) -> (r: Result<(), AppError>)
    requires
        old(store)@.wf(),
        has_chain_id(old(store)@.analyzer_states, chain_id as int),
    ensures
        final(store)@.wf(),
        has_chain_id(final(store)@.analyzer_states, chain_id as int),
        match r {
            Ok(_) => valid_block_input(fetched@, seq_view(traces@)) && final(store)@
                == analyse_block_spec(
                old(store)@,
                chain_id as int,
                block_number as int,
                latest_block_number as int,
                fetched@,
                seq_view(traces@),
            ),
            Err(e) => e == AppError::Logic && !valid_block_input(fetched@, seq_view(traces@))
                && final(store)@ == old(store)@,
        },
{
    let cursor = match store.get_parallel_analyzer_state_by_chainid(chain_id) {
        Some(c) => c,
        None => vstd::pervasive::unreached(),
    };
    proof {
        lemma_cursor_row_unique(old(store)@.analyzer_states, chain_id as int, cursor@);
    }
    let plan = match plan_block(block_number, latest_block_number, fetched, traces, &cursor) {
        Ok(p) => p,
        Err(e) => {
            return Err(e);
        },
    };
    apply_plan(store, &plan);
    proof {
        lemma_apply_block_plan(
            old(store)@,
            block_number as int,
            latest_block_number as int,
            fetched@,
            seq_view(traces@),
            cursor@,
        );
        lemma_analyse_preserves_wf(
            old(store)@,
            chain_id as int,
            block_number as int,
            latest_block_number as int,
            fetched@,
            seq_view(traces@),
        );
        let i = choose|i: int|
            0 <= i < old(store)@.analyzer_states.len() && old(store)@.analyzer_states[i].chain_id
                == chain_id as int;
        lemma_update_states_unique(
            old(store)@.analyzer_states,
            updated_cursor(
                cursor_row(old(store)@.analyzer_states, chain_id as int),
                block_number as int,
                latest_block_number as int,
            ),
        );
        assert(store@.analyzer_states[i].chain_id == chain_id as int);
    }
    Ok(())
}

/// Deleting a block's edges and then appending rows that all belong to
/// the block leaves the block's edges exactly those rows.
pub proof fn lemma_replaced_dags_exact(
    dags: Seq<TransactionDagView>,
    block_number: int,
    rows: Seq<TransactionDagView>,
)
    requires
        forall|k: int|
            0 <= k < rows.len() ==> (#[trigger] rows[k]).block_number == block_number,
    ensures
        dags_of_block(delete_dag_rows(dags, block_number) + rows, block_number) == rows,
{
    let deleted = delete_dag_rows(dags, block_number);
    Seq::filter_distributes_over_add(deleted, rows, dag_in_block(block_number));
    assert forall|i: int| 0 <= i < deleted.len() implies !dag_in_block(block_number)(
        #[trigger] deleted[i],
    ) by {
        dags.lemma_filter_pred(dag_not_in_block(block_number), i);
    }
    crate::lemma_filter_all_neg(deleted, dag_in_block(block_number));
    crate::lemma_filter_all_pos(rows, dag_in_block(block_number));
    assert(Seq::<TransactionDagView>::empty() + rows =~= rows);
}

/// After the pipeline ran for a block, reading that block's edges yields
/// exactly the analyzer's output rows — no stale edge survives and none
/// is missing.
pub proof fn lemma_edges_after_analyse(
    s: StoreView,
    chain_id: int,
    block_number: int,
    latest_block_number: int,
    fetched: FetchedBlockView,
    traces: Seq<TransactionStateSetView>,
)
    ensures
        dags_of_block(
            analyse_block_spec(
                s,
                chain_id,
                block_number,
                latest_block_number,
                fetched,
                traces,
            ).transaction_dags,
            block_number,
        ) == dag_rows(block_number, block_edges(traces)),
{
    lemma_replaced_dags_exact(
        s.transaction_dags,
        block_number,
        dag_rows(block_number, block_edges(traces)),
    );
}

/// Deleting one block's edges leaves every other block's edges untouched.
proof fn lemma_delete_keeps_other_blocks(dags: Seq<TransactionDagView>, n: int, m: int)
    requires
        m != n,
    ensures
        dags_of_block(delete_dag_rows(dags, n), m) == dags_of_block(dags, m),
    decreases dags.len(),
{
    if dags.len() == 0 {
        reveal(Seq::filter);
    } else {
        let prefix = dags.drop_last();
        let last = dags.last();
        lemma_delete_keeps_other_blocks(prefix, n, m);
        assert(dags =~= prefix.push(last));
        crate::lemma_filter_push(prefix, last, dag_not_in_block(n));
        crate::lemma_filter_push(prefix, last, dag_in_block(m));
        if last.block_number != n {
            crate::lemma_filter_push(delete_dag_rows(prefix, n), last, dag_in_block(m));
        }
    }
}

/// The pipeline touches only its own block's edges: for every other
/// block the stored edge rows are unchanged.
pub proof fn lemma_other_edges_unchanged(
    s: StoreView,
    chain_id: int,
    block_number: int,
    latest_block_number: int,
    fetched: FetchedBlockView,
    traces: Seq<TransactionStateSetView>,
    other: int,
)
    requires
        other != block_number,
    ensures
        dags_of_block(
            analyse_block_spec(
                s,
                chain_id,
                block_number,
                latest_block_number,
                fetched,
                traces,
            ).transaction_dags,
            other,
        ) == dags_of_block(s.transaction_dags, other),
{
    let deleted = delete_dag_rows(s.transaction_dags, block_number);
    let rows = dag_rows(block_number, block_edges(traces));
    Seq::filter_distributes_over_add(deleted, rows, dag_in_block(other));
    assert forall|k: int| 0 <= k < rows.len() implies !dag_in_block(other)(
        #[trigger] rows[k],
    ) by {}
    crate::lemma_filter_all_neg(rows, dag_in_block(other));
    lemma_delete_keeps_other_blocks(s.transaction_dags, block_number, other);
    assert(dags_of_block(deleted, other) + Seq::<TransactionDagView>::empty() =~= dags_of_block(
        deleted,
        other,
    ));
}

/// Inserting a block row preserves block-hash uniqueness.
proof fn lemma_insert_block_row_unique(blocks: Seq<BlockView>, b: BlockView)
    requires
        forall|i: int, j: int|
            0 <= i < j < blocks.len() ==> blocks[i].block_hash != blocks[j].block_hash,
    ensures
        forall|i: int, j: int|
            0 <= i < j < insert_block_row(blocks, b).len() ==> insert_block_row(blocks, b)[i].block_hash
                != insert_block_row(blocks, b)[j].block_hash,
{
    if !has_block_hash(blocks, b.block_hash) {
        let out = blocks.push(b);
        assert forall|i: int, j: int| 0 <= i < j < out.len() implies out[i].block_hash
            != out[j].block_hash by {
            if j == blocks.len() {
                assert(!(0 <= i < blocks.len() && blocks[i].block_hash == b.block_hash));
            }
        }
    }
}

/// Inserting a transaction row preserves transaction-hash uniqueness.
proof fn lemma_insert_tx_row_unique(txs: Seq<TransactionView>, t: TransactionView)
    requires
        forall|i: int, j: int|
            0 <= i < j < txs.len() ==> txs[i].tx_hash != txs[j].tx_hash,
    ensures
        forall|i: int, j: int|
            0 <= i < j < insert_transaction_row(txs, t).len() ==> insert_transaction_row(
                txs,
                t,
            )[i].tx_hash != insert_transaction_row(txs, t)[j].tx_hash,
{
    if !has_tx_hash(txs, t.tx_hash) {
        let out = txs.push(t);
        assert forall|i: int, j: int| 0 <= i < j < out.len() implies out[i].tx_hash
            != out[j].tx_hash by {
            if j == txs.len() {
                assert(!(0 <= i < txs.len() && txs[i].tx_hash == t.tx_hash));
            }
        }
    }
}

/// Folding transaction rows in preserves transaction-hash uniqueness.
proof fn lemma_insert_tx_rows_unique(table: Seq<TransactionView>, rows: Seq<TransactionView>)
    requires
        forall|i: int, j: int|
            0 <= i < j < table.len() ==> table[i].tx_hash != table[j].tx_hash,
    ensures
        forall|i: int, j: int|
            0 <= i < j < insert_transaction_rows(table, rows).len() ==> insert_transaction_rows(
                table,
                rows,
            )[i].tx_hash != insert_transaction_rows(table, rows)[j].tx_hash,
    decreases rows.len(),
{
    if rows.len() > 0 {
        lemma_insert_tx_rows_unique(table, rows.drop_last());
        lemma_insert_tx_row_unique(
            insert_transaction_rows(table, rows.drop_last()),
            rows.last(),
        );
    }
}

/// Rewriting cursor rows preserves chain ids, and with them chain-id
/// uniqueness.
proof fn lemma_update_states_unique(
    states: Seq<ParallelAnalyzerStateView>,
    x: ParallelAnalyzerStateView,
)
    requires
        forall|i: int, j: int|
            0 <= i < j < states.len() ==> states[i].chain_id != states[j].chain_id,
    ensures
        forall|i: int|
            0 <= i < states.len() ==> (#[trigger] update_state_rows(states, x)[i]).chain_id
                == states[i].chain_id,
        forall|i: int, j: int|
            0 <= i < j < update_state_rows(states, x).len() ==> update_state_rows(
                states,
                x,
            )[i].chain_id != update_state_rows(states, x)[j].chain_id,
{
}

/// The pipeline preserves the store's uniqueness invariants.
pub proof fn lemma_analyse_preserves_wf(
    s: StoreView,
    chain_id: int,
    block_number: int,
    latest_block_number: int,
    fetched: FetchedBlockView,
    traces: Seq<TransactionStateSetView>,
)
    requires
        s.wf(),
    ensures
        analyse_block_spec(
            s,
            chain_id,
            block_number,
            latest_block_number,
            fetched,
            traces,
        ).wf(),
{
    lemma_insert_block_row_unique(s.blocks, block_row_of(fetched.header));
    lemma_insert_tx_rows_unique(
        s.transactions,
        transaction_rows_of(fetched.transactions->0),
    );
    lemma_update_states_unique(
        s.analyzer_states,
        updated_cursor(
            cursor_row(s.analyzer_states, chain_id),
            block_number,
            latest_block_number,
        ),
    );
}

/// A hash present in the table is still present after any insert.
proof fn lemma_insert_tx_row_monotone(
    table: Seq<TransactionView>,
    t: TransactionView,
    h: Seq<char>,
)
    requires
        has_tx_hash(table, h),
    ensures
        has_tx_hash(insert_transaction_row(table, t), h),
{
    let i = choose|i: int| 0 <= i < table.len() && table[i].tx_hash == h;
    assert(insert_transaction_row(table, t)[i].tx_hash == h);
}

/// After folding rows in, each row's hash is present in the table.
proof fn lemma_fold_contains(table: Seq<TransactionView>, rows: Seq<TransactionView>, k: int)
    requires
        0 <= k < rows.len(),
    ensures
        has_tx_hash(insert_transaction_rows(table, rows), rows[k].tx_hash),
    decreases rows.len(),
{
    let pre = insert_transaction_rows(table, rows.drop_last());
    let last = rows.last();
    if k == rows.len() - 1 {
        if has_tx_hash(pre, last.tx_hash) {
            lemma_insert_tx_row_monotone(pre, last, last.tx_hash);
        } else {
            assert(insert_transaction_row(pre, last)[pre.len() as int].tx_hash == last.tx_hash);
        }
    } else {
        assert(rows.drop_last()[k] == rows[k]);
        lemma_fold_contains(table, rows.drop_last(), k);
        lemma_insert_tx_row_monotone(pre, last, rows[k].tx_hash);
    }
}

/// Folding rows whose hashes are all present is a no-op.
proof fn lemma_fold_noop(table: Seq<TransactionView>, rows: Seq<TransactionView>)
    requires
        forall|k: int| 0 <= k < rows.len() ==> has_tx_hash(table, (#[trigger] rows[k]).tx_hash),
    ensures
        insert_transaction_rows(table, rows) == table,
    decreases rows.len(),
{
    if rows.len() > 0 {
        assert forall|k: int| 0 <= k < rows.drop_last().len() implies has_tx_hash(
            table,
            (#[trigger] rows.drop_last()[k]).tx_hash,
        ) by {
            assert(rows.drop_last()[k] == rows[k]);
        }
        lemma_fold_noop(table, rows.drop_last());
        assert(has_tx_hash(table, rows.last().tx_hash));
    }
}

/// A fold splits at any point: inserting a prefix and then the rest is
/// the whole fold.
proof fn lemma_fold_split(table: Seq<TransactionView>, rows: Seq<TransactionView>, m: int)
    requires
        0 <= m <= rows.len(),
    ensures
        insert_transaction_rows(table, rows) == insert_transaction_rows(
            insert_transaction_rows(table, rows.take(m)),
            rows.skip(m),
        ),
    decreases rows.len(),
{
    if m == rows.len() {
        assert(rows.take(m) =~= rows);
        assert(rows.skip(m).len() == 0);
    } else {
        lemma_fold_split(table, rows.drop_last(), m);
        assert(rows.drop_last().take(m) =~= rows.take(m));
        assert(rows.drop_last().skip(m) =~= rows.skip(m).drop_last());
        assert(rows.skip(m).last() == rows.last());
        assert(rows.skip(m).len() > 0);
    }
}

/// Re-folding all rows after any prefix of them was already folded in
/// gives the same table as folding them into the untouched table once:
/// replaying the inserts of a block absorbs the partial work of a
/// crashed run.
pub proof fn lemma_fold_absorb(table: Seq<TransactionView>, rows: Seq<TransactionView>, m: int)
    requires
        0 <= m <= rows.len(),
    ensures
        insert_transaction_rows(
            insert_transaction_rows(table, rows.take(m)),
            rows,
        ) == insert_transaction_rows(table, rows),
{
    let t1 = insert_transaction_rows(table, rows.take(m));
    lemma_fold_split(t1, rows, m);
    assert forall|k: int| 0 <= k < rows.take(m).len() implies has_tx_hash(
        t1,
        (#[trigger] rows.take(m)[k]).tx_hash,
    ) by {
        lemma_fold_contains(table, rows.take(m), k);
    }
    lemma_fold_noop(t1, rows.take(m));
    lemma_fold_split(table, rows, m);
}

/// Folding the same rows twice equals folding them once.
pub proof fn lemma_fold_idempotent(table: Seq<TransactionView>, rows: Seq<TransactionView>)
    ensures
        insert_transaction_rows(
            insert_transaction_rows(table, rows),
            rows,
        ) == insert_transaction_rows(table, rows),
{
    assert(rows.take(rows.len() as int) =~= rows);
    lemma_fold_absorb(table, rows, rows.len() as int);
}

/// After the pipeline advanced the cursor, the chain's cursor row is the
/// advanced row, and advancing it again with the same values changes
/// nothing.
proof fn lemma_update_cursor_row(
    states: Seq<ParallelAnalyzerStateView>,
    chain_id: int,
    block_number: int,
    latest_block_number: int,
)
    requires
        forall|i: int, j: int|
            0 <= i < j < states.len() ==> states[i].chain_id != states[j].chain_id,
        has_chain_id(states, chain_id),
    ensures
        ({
            let x = updated_cursor(
                cursor_row(states, chain_id),
                block_number,
                latest_block_number,
            );
            let states1 = update_state_rows(states, x);
            &&& cursor_row(states1, chain_id) == x
            &&& update_state_rows(states1, x) == states1
        }),
{
    let i = choose|i: int| 0 <= i < states.len() && states[i].chain_id == chain_id;
    lemma_cursor_row_unique(states, chain_id, states[i]);
    let c = cursor_row(states, chain_id);
    let x = updated_cursor(c, block_number, latest_block_number);
    let states1 = update_state_rows(states, x);
    assert(states1[i] == update_state_row(states[i], x));
    assert(states1[i] == x);
    lemma_update_states_unique(states, x);
    lemma_cursor_row_unique(states1, chain_id, x);
    assert(update_state_rows(states1, x) =~= states1);
}

/// Re-running the pipeline for a block with identical inputs is
/// idempotent: the block row, the transaction rows, the edge set and the
/// cursor are unchanged by the second run.
pub proof fn lemma_analyse_block_idempotent(
    s: StoreView,
    chain_id: int,
    block_number: int,
    latest_block_number: int,
    fetched: FetchedBlockView,
    traces: Seq<TransactionStateSetView>,
)
    requires
        s.wf(),
        has_chain_id(s.analyzer_states, chain_id),
    ensures
        analyse_block_spec(
            analyse_block_spec(s, chain_id, block_number, latest_block_number, fetched, traces),
            chain_id,
            block_number,
            latest_block_number,
            fetched,
            traces,
        ) == analyse_block_spec(
            s,
            chain_id,
            block_number,
            latest_block_number,
            fetched,
            traces,
        ),
{
    lemma_insert_block_idempotent(s.blocks, block_row_of(fetched.header));
    lemma_fold_idempotent(s.transactions, transaction_rows_of(fetched.transactions->0));
    let deleted = delete_dag_rows(s.transaction_dags, block_number);
    let rows = dag_rows(block_number, block_edges(traces));
    Seq::filter_distributes_over_add(deleted, rows, dag_not_in_block(block_number));
    assert forall|i: int| 0 <= i < deleted.len() implies dag_not_in_block(block_number)(
        #[trigger] deleted[i],
    ) by {
        s.transaction_dags.lemma_filter_pred(dag_not_in_block(block_number), i);
    }
    crate::lemma_filter_all_pos(deleted, dag_not_in_block(block_number));
    crate::lemma_filter_all_neg(rows, dag_not_in_block(block_number));
    assert(delete_dag_rows(deleted + rows, block_number) =~= deleted);
    lemma_update_cursor_row(s.analyzer_states, chain_id, block_number, latest_block_number);
}

/// After a successful iteration for block `n` at tip `T`, the chain's
/// cursor reads `latest_analyzed_block = n` and `latest_block = T`, its
/// configured start block is untouched, and — when the block was at or
/// past the row's start — the cursor invariant
/// `latest_analyzed_block >= start_block - 1` holds.
pub proof fn lemma_iteration_cursor(
    s: StoreView,
    chain_id: int,
    block_number: int,
    latest_block_number: int,
    fetched: FetchedBlockView,
    traces: Seq<TransactionStateSetView>,
)
    requires
        s.wf(),
        has_chain_id(s.analyzer_states, chain_id),
    ensures
        ({
            let c0 = cursor_row(s.analyzer_states, chain_id);
            let c = cursor_row(
                analyse_block_spec(
                    s,
                    chain_id,
                    block_number,
                    latest_block_number,
                    fetched,
                    traces,
                ).analyzer_states,
                chain_id,
            );
            &&& c.latest_analyzed_block == block_number
            &&& c.latest_block == latest_block_number
            &&& c.start_block == c0.start_block
            &&& c.chain_id == chain_id
            &&& block_number + 1 >= c0.start_block ==> c.latest_analyzed_block + 1
                >= c.start_block
            &&& block_number <= latest_block_number ==> c.latest_analyzed_block
                <= c.latest_block
        }),
{
    let i = choose|i: int| 0 <= i < s.analyzer_states.len() && s.analyzer_states[i].chain_id
        == chain_id;
    lemma_cursor_row_unique(s.analyzer_states, chain_id, s.analyzer_states[i]);
    lemma_update_cursor_row(
        s.analyzer_states,
        chain_id,
        block_number,
        latest_block_number,
    );
}

/// Replaying a block over the partial work of a crashed run yields the
/// same store as running it over the untouched store: the header insert
/// may or may not have landed, any prefix of the transaction rows may
/// have landed, the stale edges may be deleted with any prefix of the new
/// edges written — as long as the cursor was not yet advanced, the replay
/// is byte-identical to a run that never crashed.
pub proof fn lemma_crash_replay(
    s: StoreView,
    partial: StoreView,
    chain_id: int,
    block_number: int,
    latest_block_number: int,
    fetched: FetchedBlockView,
    traces: Seq<TransactionStateSetView>,
)
    requires
        partial.blocks == s.blocks || partial.blocks == insert_block_row(
            s.blocks,
            block_row_of(fetched.header),
        ),
        exists|m: int|
            0 <= m <= transaction_rows_of(fetched.transactions->0).len()
                && partial.transactions == insert_transaction_rows(
                s.transactions,
                transaction_rows_of(fetched.transactions->0).take(m),
            ),
        partial.transaction_dags == s.transaction_dags || exists|e: int|
            0 <= e <= dag_rows(block_number, block_edges(traces)).len()
                && partial.transaction_dags == delete_dag_rows(
                s.transaction_dags,
                block_number,
            ) + dag_rows(block_number, block_edges(traces)).take(e),
        partial.analyzer_states == s.analyzer_states,
    ensures
        analyse_block_spec(
            partial,
            chain_id,
            block_number,
            latest_block_number,
            fetched,
            traces,
        ) == analyse_block_spec(
            s,
            chain_id,
            block_number,
            latest_block_number,
            fetched,
            traces,
        ),
{
    if partial.blocks != s.blocks {
        lemma_insert_block_idempotent(s.blocks, block_row_of(fetched.header));
    }
    let rows = transaction_rows_of(fetched.transactions->0);
    let m = choose|m: int|
        0 <= m <= rows.len() && partial.transactions == insert_transaction_rows(
            s.transactions,
            rows.take(m),
        );
    lemma_fold_absorb(s.transactions, rows, m);
    let deleted = delete_dag_rows(s.transaction_dags, block_number);
    let edge_rows = dag_rows(block_number, block_edges(traces));
    if partial.transaction_dags != s.transaction_dags {
        let e = choose|e: int|
            0 <= e <= edge_rows.len() && partial.transaction_dags == deleted + edge_rows.take(e);
        Seq::filter_distributes_over_add(
            deleted,
            edge_rows.take(e),
            dag_not_in_block(block_number),
        );
        assert forall|i: int| 0 <= i < deleted.len() implies dag_not_in_block(block_number)(
            #[trigger] deleted[i],
        ) by {
            s.transaction_dags.lemma_filter_pred(dag_not_in_block(block_number), i);
        }
        crate::lemma_filter_all_pos(deleted, dag_not_in_block(block_number));
        assert forall|k: int| 0 <= k < edge_rows.take(e).len() implies !dag_not_in_block(
            block_number,
        )(#[trigger] edge_rows.take(e)[k]) by {}
        crate::lemma_filter_all_neg(edge_rows.take(e), dag_not_in_block(block_number));
        assert(delete_dag_rows(partial.transaction_dags, block_number) =~= deleted);
    }
}

/// The transaction rows a well-formed block persists carry its indices,
/// dense from zero: the row at position `i` has `tx_index == i` and its
/// block number present as fetched.
pub proof fn lemma_planned_rows_dense(txs: Seq<FetchedTransactionView>, i: int)
    requires
        well_formed_transactions(txs),
        0 <= i < txs.len(),
    ensures
        transaction_rows_of(txs)[i].tx_index == i,
        transaction_rows_of(txs)[i].block_number == txs[i].block_number->0,
{
    assert(txs[i].tx_index == Some(i));
}

/// Stopping the plan's execution anywhere before the cursor update leaves
/// the store in one of the partial shapes that replay absorbs: the header
/// row in or not, a prefix of the transaction rows folded in, the stale
/// edges possibly deleted with a prefix of the new edges written, and the
/// cursor untouched.
pub proof fn lemma_plan_prefix_is_partial(
    s: StoreView,
    block_number: int,
    latest_block_number: int,
    fetched: FetchedBlockView,
    traces: Seq<TransactionStateSetView>,
    cursor: ParallelAnalyzerStateView,
    k: int,
)
    requires
        valid_block_input(fetched, traces),
        0 <= k < block_plan(block_number, latest_block_number, fetched, traces, cursor).len(),
    ensures
        ({
            let partial = apply_actions(
                s,
                block_plan(block_number, latest_block_number, fetched, traces, cursor).take(k),
            );
            let rows = transaction_rows_of(fetched.transactions->0);
            let edge_rows = dag_rows(block_number, block_edges(traces));
            &&& (partial.blocks == s.blocks || partial.blocks == insert_block_row(
                s.blocks,
                block_row_of(fetched.header),
            ))
            &&& exists|m: int|
                0 <= m <= rows.len() && partial.transactions == insert_transaction_rows(
                    s.transactions,
                    rows.take(m),
                )
            &&& (partial.transaction_dags == s.transaction_dags || exists|e: int|
                0 <= e <= edge_rows.len() && partial.transaction_dags == delete_dag_rows(
                    s.transaction_dags,
                    block_number,
                ) + edge_rows.take(e))
            &&& partial.analyzer_states == s.analyzer_states
        }),
{
    let txs = fetched.transactions->0;
    let rows = transaction_rows_of(txs);
    let edge_rows = dag_rows(block_number, block_edges(traces));
    let nt = txs.len() as int;
    let ne = edge_rows.len() as int;
    let p1 = seq![StoreActionView::InsertBlock(block_row_of(fetched.header))];
    let p2 = insert_transaction_actions(txs);
    let p3 = seq![StoreActionView::DeleteDagsByBlock(block_number)];
    let p4 = insert_dag_actions(edge_rows);
    let p5 = seq![
        StoreActionView::UpdateCursor(
            updated_cursor(cursor, block_number, latest_block_number),
        ),
    ];
    let plan = block_plan(block_number, latest_block_number, fetched, traces, cursor);
    assert(plan == p1 + p2 + p3 + p4 + p5);
    assert(plan.len() == 3 + nt + ne);
    if k == 0 {
        assert(plan.take(0).len() == 0);
        let partial = apply_actions(s, plan.take(0));
        assert(partial == s);
        assert(rows.take(0).len() == 0);
        assert(partial.transactions == insert_transaction_rows(s.transactions, rows.take(0)));
    } else if k <= 1 + nt {
        let j = k - 1;
        assert(p2.take(j) =~= insert_transaction_actions(txs.take(j)));
        assert(plan.take(k) =~= p1 + insert_transaction_actions(txs.take(j)));
        lemma_apply_actions_concat(s, p1, insert_transaction_actions(txs.take(j)));
        lemma_apply_action_single(s, p1[0]);
        let s1 = apply_actions(s, p1);
        lemma_apply_insert_tx_actions(s1, txs.take(j));
        let partial = apply_actions(s, plan.take(k));
        assert(transaction_rows_of(txs.take(j)) =~= rows.take(j));
        assert(partial.transactions == insert_transaction_rows(s.transactions, rows.take(j)));
    } else {
        let j = k - 2 - nt;
        assert(0 <= j <= ne);
        assert(p4.take(j) =~= insert_dag_actions(edge_rows.take(j)));
        assert(plan.take(k) =~= p1 + p2 + p3 + insert_dag_actions(edge_rows.take(j)));
        lemma_apply_actions_concat(s, p1 + p2 + p3, insert_dag_actions(edge_rows.take(j)));
        lemma_apply_actions_concat(s, p1 + p2, p3);
        lemma_apply_actions_concat(s, p1, p2);
        lemma_apply_action_single(s, p1[0]);
        let s1 = apply_actions(s, p1);
        lemma_apply_insert_tx_actions(s1, txs);
        let s2 = apply_actions(s1, p2);
        lemma_apply_action_single(s2, p3[0]);
        let s3 = apply_actions(s2, p3);
        lemma_apply_insert_dag_actions(s3, edge_rows.take(j));
        let partial = apply_actions(s, plan.take(k));
        assert(rows.take(rows.len() as int) =~= rows);
        assert(partial.transactions == insert_transaction_rows(s.transactions, rows));
        assert(exists|m: int|
            0 <= m <= rows.len() && partial.transactions == insert_transaction_rows(
                s.transactions,
                rows.take(m),
            )) by {
            assert(rows.take(rows.len() as int) =~= rows);
            assert(partial.transactions == insert_transaction_rows(
                s.transactions,
                rows.take(rows.len() as int),
            ));
        }
    }
}

/// A crash at any point of the plan's execution before the cursor update
/// is absorbed by replay: running the pipeline over the partial store
/// yields the same store as running it over the untouched one.
pub proof fn lemma_crash_replay_at_any_point(
    s: StoreView,
    chain_id: int,
    block_number: int,
    latest_block_number: int,
    fetched: FetchedBlockView,
    traces: Seq<TransactionStateSetView>,
    k: int,
)
    requires
        valid_block_input(fetched, traces),
        0 <= k < block_plan(
            block_number,
            latest_block_number,
            fetched,
            traces,
            cursor_row(s.analyzer_states, chain_id),
        ).len(),
    ensures
        analyse_block_spec(
            apply_actions(
                s,
                block_plan(
                    block_number,
                    latest_block_number,
                    fetched,
                    traces,
                    cursor_row(s.analyzer_states, chain_id),
                ).take(k),
            ),
            chain_id,
            block_number,
            latest_block_number,
            fetched,
            traces,
        ) == analyse_block_spec(
            s,
            chain_id,
            block_number,
            latest_block_number,
            fetched,
            traces,
        ),
{
    let cursor = cursor_row(s.analyzer_states, chain_id);
    lemma_plan_prefix_is_partial(
        s,
        block_number,
        latest_block_number,
        fetched,
        traces,
        cursor,
        k,
    );
    let partial = apply_actions(
        s,
        block_plan(block_number, latest_block_number, fetched, traces, cursor).take(k),
    );
    lemma_crash_replay(
        s,
        partial,
        chain_id,
        block_number,
        latest_block_number,
        fetched,
        traces,
    );
}

} // verus!
