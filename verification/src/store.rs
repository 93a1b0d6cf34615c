//! The relational store, modeled exactly.
//!
//! `Store` is the in-memory model of the four persisted tables: block
//! headers, transactions, dependency edges and the per-chain analyzer
//! cursor. Every operation carries the contract that the SQL statements of
//! the unverified shell implement: inserts that silently succeed on a
//! hash or chain-id conflict, unconditional edge inserts, deletion of all
//! edges of one block, and lookups by key.

use vstd::prelude::*;

use crate::seq_view;

verus! {

/// A persisted block header row.
#[derive(Debug)]
pub struct Block {
    pub parent_hash: String,
    pub block_hash: String,
    pub block_number: i64,
    pub gas_used: i64,
    pub gas_limit: i64,
    pub block_timestamp: i64,
    pub base_fee_per_gas: i64,
    pub blob_gas_used: i64,
    pub excess_blob_gas: i64,
}

/// The mathematical value of a block header row.
pub struct BlockView {
    pub parent_hash: Seq<char>,
    pub block_hash: Seq<char>,
    pub block_number: int,
    pub gas_used: int,
    pub gas_limit: int,
    pub block_timestamp: int,
    pub base_fee_per_gas: int,
    pub blob_gas_used: int,
    pub excess_blob_gas: int,
}

impl View for Block {
    type V = BlockView;

    open spec fn view(&self) -> BlockView {
        BlockView {
            parent_hash: self.parent_hash@,
            block_hash: self.block_hash@,
            block_number: self.block_number as int,
            gas_used: self.gas_used as int,
            gas_limit: self.gas_limit as int,
            block_timestamp: self.block_timestamp as int,
            base_fee_per_gas: self.base_fee_per_gas as int,
            blob_gas_used: self.blob_gas_used as int,
            excess_blob_gas: self.excess_blob_gas as int,
        }
    }
}

impl Clone for Block {
    fn clone(&self) -> (r: Self)
        ensures
            r@ == self@,
    {
        Block {
            parent_hash: self.parent_hash.clone(),
            block_hash: self.block_hash.clone(),
            block_number: self.block_number,
            gas_used: self.gas_used,
            gas_limit: self.gas_limit,
            block_timestamp: self.block_timestamp,
            base_fee_per_gas: self.base_fee_per_gas,
            blob_gas_used: self.blob_gas_used,
            excess_blob_gas: self.excess_blob_gas,
        }
    }
}

/// A persisted transaction row. All 256-bit numeric fields are decimal
/// text; hashes and addresses are `0x…` hex text.
#[derive(Debug)]
pub struct Transaction {
    pub block_number: i64,
    pub tx_index: i64,
    pub tx_hash: String,
    pub tx_from: String,
    pub tx_to: String,
    pub gas_price: String,
    pub max_fee_per_gas: String,
    pub max_priority_fee_per_gas: String,
    pub max_fee_per_blob_gas: String,
    pub gas: i64,
    pub tx_value: String,
    pub input: String,
    pub nonce: i64,
    pub tx_type: i16,
}

/// The mathematical value of a transaction row.
pub struct TransactionView {
    pub block_number: int,
    pub tx_index: int,
    pub tx_hash: Seq<char>,
    pub tx_from: Seq<char>,
    pub tx_to: Seq<char>,
    pub gas_price: Seq<char>,
    pub max_fee_per_gas: Seq<char>,
    pub max_priority_fee_per_gas: Seq<char>,
    pub max_fee_per_blob_gas: Seq<char>,
    pub gas: int,
    pub tx_value: Seq<char>,
    pub input: Seq<char>,
    pub nonce: int,
    pub tx_type: int,
}

impl View for Transaction {
    type V = TransactionView;

    open spec fn view(&self) -> TransactionView {
        TransactionView {
            block_number: self.block_number as int,
            tx_index: self.tx_index as int,
            tx_hash: self.tx_hash@,
            tx_from: self.tx_from@,
            tx_to: self.tx_to@,
            gas_price: self.gas_price@,
            max_fee_per_gas: self.max_fee_per_gas@,
            max_priority_fee_per_gas: self.max_priority_fee_per_gas@,
            max_fee_per_blob_gas: self.max_fee_per_blob_gas@,
            gas: self.gas as int,
            tx_value: self.tx_value@,
            input: self.input@,
            nonce: self.nonce as int,
            tx_type: self.tx_type as int,
        }
    }
}

impl Clone for Transaction {
    fn clone(&self) -> (r: Self)
        ensures
            r@ == self@,
    {
        Transaction {
            block_number: self.block_number,
            tx_index: self.tx_index,
            tx_hash: self.tx_hash.clone(),
            tx_from: self.tx_from.clone(),
            tx_to: self.tx_to.clone(),
            gas_price: self.gas_price.clone(),
            max_fee_per_gas: self.max_fee_per_gas.clone(),
            max_priority_fee_per_gas: self.max_priority_fee_per_gas.clone(),
            max_fee_per_blob_gas: self.max_fee_per_blob_gas.clone(),
            gas: self.gas,
            tx_value: self.tx_value.clone(),
            input: self.input.clone(),
            nonce: self.nonce,
            tx_type: self.tx_type,
        }
    }
}

/// A labeled dependency edge row: the transaction at `source_tx` read, along
/// the axes of `dep_type`, state that the earlier transaction at `target_tx`
/// wrote. `dep_type` is a bitmask over balance (0x1), code (0x10) and
/// storage (0x100).
#[derive(Debug, Clone, Copy, PartialEq, Eq, Structural)]
pub struct TransactionDag {
    pub block_number: i64,
    pub source_tx: i64,
    pub target_tx: i64,
    pub dep_type: i16,
}

/// The mathematical value of a dependency edge row.
pub struct TransactionDagView {
    pub block_number: int,
    pub source_tx: int,
    pub target_tx: int,
    pub dep_type: int,
}

impl View for TransactionDag {
    type V = TransactionDagView;

    open spec fn view(&self) -> TransactionDagView {
        TransactionDagView {
            block_number: self.block_number as int,
            source_tx: self.source_tx as int,
            target_tx: self.target_tx as int,
            dep_type: self.dep_type as int,
        }
    }
}

/// The per-chain analyzer cursor row.
#[derive(Debug, Clone, Copy, PartialEq, Eq, Structural)]
pub struct ParallelAnalyzerState {
    pub latest_block: i64,
    pub chain_id: i64,
    pub start_block: i64,
    pub latest_analyzed_block: i64,
}

/// The mathematical value of a cursor row.
pub struct ParallelAnalyzerStateView {
    pub latest_block: int,
    pub chain_id: int,
    pub start_block: int,
    pub latest_analyzed_block: int,
}

impl View for ParallelAnalyzerState {
    type V = ParallelAnalyzerStateView;

    open spec fn view(&self) -> ParallelAnalyzerStateView {
        ParallelAnalyzerStateView {
            latest_block: self.latest_block as int,
            chain_id: self.chain_id as int,
            start_block: self.start_block as int,
            latest_analyzed_block: self.latest_analyzed_block as int,
        }
    }
}

/// Whether some block row carries the given block hash.
pub open spec fn has_block_hash(blocks: Seq<BlockView>, h: Seq<char>) -> bool {
    exists|i: int| 0 <= i < blocks.len() && blocks[i].block_hash == h
}

/// The block table after an insert: unchanged on a block-hash conflict,
/// otherwise the row is appended.
pub open spec fn insert_block_row(blocks: Seq<BlockView>, b: BlockView) -> Seq<BlockView> {
    if has_block_hash(blocks, b.block_hash) {
        blocks
    } else {
        blocks.push(b)
    }
}

/// Whether some transaction row carries the given transaction hash.
pub open spec fn has_tx_hash(txs: Seq<TransactionView>, h: Seq<char>) -> bool {
    exists|i: int| 0 <= i < txs.len() && txs[i].tx_hash == h
}

/// The transaction table after an insert: unchanged on a hash conflict,
/// otherwise the row is appended.
pub open spec fn insert_transaction_row(txs: Seq<TransactionView>, t: TransactionView) -> Seq<
    TransactionView,
> {
    if has_tx_hash(txs, t.tx_hash) {
        txs
    } else {
        txs.push(t)
    }
}

/// Whether some cursor row carries the given chain id.
pub open spec fn has_chain_id(states: Seq<ParallelAnalyzerStateView>, chain_id: int) -> bool {
    exists|i: int| 0 <= i < states.len() && states[i].chain_id == chain_id
}

/// The cursor table after an insert: unchanged on a chain-id conflict,
/// otherwise the row is appended.
pub open spec fn insert_state_row(
    states: Seq<ParallelAnalyzerStateView>,
    s: ParallelAnalyzerStateView,
) -> Seq<ParallelAnalyzerStateView> {
    if has_chain_id(states, s.chain_id) {
        states
    } else {
        states.push(s)
    }
}

/// One cursor row after an update aimed at the chain id of `s`: rewritten
/// when the chain id matches, untouched otherwise.
pub open spec fn update_state_row(
    r: ParallelAnalyzerStateView,
    s: ParallelAnalyzerStateView,
) -> ParallelAnalyzerStateView {
    if r.chain_id == s.chain_id {
        ParallelAnalyzerStateView {
            latest_block: s.latest_block,
            chain_id: r.chain_id,
            start_block: s.start_block,
            latest_analyzed_block: s.latest_analyzed_block,
        }
    } else {
        r
    }
}

/// The cursor table after an update: every row of the chain id carries the
/// updated fields, all other rows are untouched.
pub open spec fn update_state_rows(
    states: Seq<ParallelAnalyzerStateView>,
    s: ParallelAnalyzerStateView,
) -> Seq<ParallelAnalyzerStateView> {
    states.map_values(|r: ParallelAnalyzerStateView| update_state_row(r, s))
}

/// Whether a transaction row belongs to the given block.
pub open spec fn tx_in_block(block_number: int) -> spec_fn(TransactionView) -> bool {
    |t: TransactionView| t.block_number == block_number
}

/// The transaction rows of one block, in table order.
pub open spec fn txs_of_block(txs: Seq<TransactionView>, block_number: int) -> Seq<
    TransactionView,
> {
    txs.filter(tx_in_block(block_number))
}

/// Whether an edge row belongs to the given block.
pub open spec fn dag_in_block(block_number: int) -> spec_fn(TransactionDagView) -> bool {
    |d: TransactionDagView| d.block_number == block_number
}

/// Whether an edge row belongs to some other block.
pub open spec fn dag_not_in_block(block_number: int) -> spec_fn(TransactionDagView) -> bool {
    |d: TransactionDagView| d.block_number != block_number
}

/// The edge table after deleting the edges of one block.
pub open spec fn delete_dag_rows(dags: Seq<TransactionDagView>, block_number: int) -> Seq<
    TransactionDagView,
> {
    dags.filter(dag_not_in_block(block_number))
}

/// The edges of one block, in table order.
pub open spec fn dags_of_block(dags: Seq<TransactionDagView>, block_number: int) -> Seq<
    TransactionDagView,
> {
    dags.filter(dag_in_block(block_number))
}

/// The in-memory model of the relational store.
pub struct Store {
    blocks: Vec<Block>,
    transactions: Vec<Transaction>,
    transaction_dags: Vec<TransactionDag>,
    analyzer_states: Vec<ParallelAnalyzerState>,
}

/// The mathematical value of the whole store: the four tables in row order.
pub struct StoreView {
    pub blocks: Seq<BlockView>,
    pub transactions: Seq<TransactionView>,
    pub transaction_dags: Seq<TransactionDagView>,
    pub analyzer_states: Seq<ParallelAnalyzerStateView>,
}

impl View for Store {
    type V = StoreView;

    closed spec fn view(&self) -> StoreView {
        StoreView {
            blocks: seq_view(self.blocks@),
            transactions: seq_view(self.transactions@),
            transaction_dags: seq_view(self.transaction_dags@),
            analyzer_states: seq_view(self.analyzer_states@),
        }
    }
}

impl StoreView {
    /// The uniqueness invariants of the schema: block hashes, transaction
    /// hashes and chain ids each identify at most one row.
    pub open spec fn wf(self) -> bool {
        &&& forall|i: int, j: int|
            0 <= i < j < self.blocks.len() ==> self.blocks[i].block_hash
                != self.blocks[j].block_hash
        &&& forall|i: int, j: int|
            0 <= i < j < self.transactions.len() ==> self.transactions[i].tx_hash
                != self.transactions[j].tx_hash
        &&& forall|i: int, j: int|
            0 <= i < j < self.analyzer_states.len() ==> self.analyzer_states[i].chain_id
                != self.analyzer_states[j].chain_id
    }
}

impl Store {
    /// A store with all four tables empty.
    pub fn new() -> (r: Store)
        ensures
            r@.blocks == Seq::<BlockView>::empty(),
            r@.transactions == Seq::<TransactionView>::empty(),
            r@.transaction_dags == Seq::<TransactionDagView>::empty(),
            r@.analyzer_states == Seq::<ParallelAnalyzerStateView>::empty(),
            r@.wf(),
    {
        let r = Store {
            blocks: Vec::new(),
            transactions: Vec::new(),
            transaction_dags: Vec::new(),
            analyzer_states: Vec::new(),
        };
        proof {
            assert(r@.blocks =~= Seq::<BlockView>::empty());
            assert(r@.transactions =~= Seq::<TransactionView>::empty());
            assert(r@.transaction_dags =~= Seq::<TransactionDagView>::empty());
            assert(r@.analyzer_states =~= Seq::<ParallelAnalyzerStateView>::empty());
        }
        r
    }

    /// Inserts a block row; on a block-hash conflict the store is unchanged.
    pub fn insert_block(&mut self, block: &Block)
        ensures
            final(self)@.blocks == insert_block_row(old(self)@.blocks, block@),
            final(self)@.transactions == old(self)@.transactions,
            final(self)@.transaction_dags == old(self)@.transaction_dags,
            final(self)@.analyzer_states == old(self)@.analyzer_states,
    {
        let n = self.blocks.len();
        let mut i: usize = 0;
        while i < n
            invariant
                *self == *old(self),
                n == self.blocks.len(),
                i <= n,
                forall|k: int| 0 <= k < i ==> self@.blocks[k].block_hash != block@.block_hash,
            decreases n - i,
        {
            if self.blocks[i].block_hash == block.block_hash {
                proof {
                    assert(self@.blocks[i as int] == self.blocks@[i as int]@);
                    assert(has_block_hash(self@.blocks, block@.block_hash));
                }
                return ;
            }
            i += 1;
        }
        assert(!has_block_hash(self@.blocks, block@.block_hash));
        self.blocks.push(block.clone());
        proof {
            assert(seq_view(self.blocks@) =~= insert_block_row(old(self)@.blocks, block@));
        }
    }

    /// Looks a block row up by number; returns a matching row when one exists.
    pub fn get_block_by_number(&self, block_number: i64) -> (r: Option<&Block>)
        ensures
            match r {
                Some(b) => exists|i: int|
                    0 <= i < self@.blocks.len() && self@.blocks[i] == b@ && b@.block_number
                        == block_number as int,
                None => forall|i: int|
                    0 <= i < self@.blocks.len() ==> self@.blocks[i].block_number != block_number as int,
            },
    {
        let n = self.blocks.len();
        let mut i: usize = 0;
        while i < n
            invariant
                n == self.blocks.len(),
                i <= n,
                forall|k: int| 0 <= k < i ==> self@.blocks[k].block_number != block_number as int,
            decreases n - i,
        {
            if self.blocks[i].block_number == block_number {
                proof {
                    assert(self@.blocks[i as int] == self.blocks@[i as int]@);
                }
                return Some(&self.blocks[i]);
            }
            i += 1;
        }
        None
    }

    /// Looks a block row up by hash; returns a matching row when one exists.
    pub fn get_block_by_hash(&self, block_hash: &String) -> (r: Option<&Block>)
        ensures
            match r {
                Some(b) => exists|i: int|
                    0 <= i < self@.blocks.len() && self@.blocks[i] == b@ && b@.block_hash
                        == block_hash@,
                None => !has_block_hash(self@.blocks, block_hash@),
            },
    {
        let n = self.blocks.len();
        let mut i: usize = 0;
        while i < n
            invariant
                n == self.blocks.len(),
                i <= n,
                forall|k: int| 0 <= k < i ==> self@.blocks[k].block_hash != block_hash@,
            decreases n - i,
        {
            if self.blocks[i].block_hash == *block_hash {
                proof {
                    assert(self@.blocks[i as int] == self.blocks@[i as int]@);
                }
                return Some(&self.blocks[i]);
            }
            i += 1;
        }
        None
    }

    /// Inserts a transaction row; on a hash conflict the store is unchanged.
    pub fn insert_transaction(&mut self, transaction: &Transaction)
        ensures
            final(self)@.blocks == old(self)@.blocks,
            final(self)@.transactions == insert_transaction_row(
                old(self)@.transactions,
                transaction@,
            ),
            final(self)@.transaction_dags == old(self)@.transaction_dags,
            final(self)@.analyzer_states == old(self)@.analyzer_states,
    {
        let n = self.transactions.len();
        let mut i: usize = 0;
        while i < n
            invariant
                *self == *old(self),
                n == self.transactions.len(),
                i <= n,
                forall|k: int|
                    0 <= k < i ==> self@.transactions[k].tx_hash != transaction@.tx_hash,
            decreases n - i,
        {
            if self.transactions[i].tx_hash == transaction.tx_hash {
                proof {
                    assert(self@.transactions[i as int] == self.transactions@[i as int]@);
                    assert(has_tx_hash(self@.transactions, transaction@.tx_hash));
                }
                return ;
            }
            i += 1;
        }
        assert(!has_tx_hash(self@.transactions, transaction@.tx_hash));
        self.transactions.push(transaction.clone());
        proof {
            assert(seq_view(self.transactions@) =~= insert_transaction_row(
                old(self)@.transactions,
                transaction@,
            ));
        }
    }

    /// Looks a transaction row up by hash; returns a matching row when one
    /// exists.
    pub fn get_transaction_by_hash(&self, hash: &String) -> (r: Option<&Transaction>)
        ensures
            match r {
                Some(t) => exists|i: int|
                    0 <= i < self@.transactions.len() && self@.transactions[i] == t@ && t@.tx_hash
                        == hash@,
                None => !has_tx_hash(self@.transactions, hash@),
            },
    {
        let n = self.transactions.len();
        let mut i: usize = 0;
        while i < n
            invariant
                n == self.transactions.len(),
                i <= n,
                forall|k: int| 0 <= k < i ==> self@.transactions[k].tx_hash != hash@,
            decreases n - i,
        {
            if self.transactions[i].tx_hash == *hash {
                proof {
                    assert(self@.transactions[i as int] == self.transactions@[i as int]@);
                }
                return Some(&self.transactions[i]);
            }
            i += 1;
        }
        None
    }

    /// Returns the transaction rows of one block, in table order. Callers
    /// sort by index when order matters.
    pub fn get_transactions_by_block_number(&self, block_number: i64) -> (r: Vec<Transaction>)
        ensures
            seq_view(r@) == txs_of_block(self@.transactions, block_number as int),
    {
        let n = self.transactions.len();
        let mut out: Vec<Transaction> = Vec::new();
        let mut i: usize = 0;
        proof {
            assert(self@.transactions.take(0) =~= Seq::<TransactionView>::empty());
            assert(seq_view(out@) =~= Seq::<TransactionView>::empty());
            assert(Seq::<TransactionView>::empty().filter(tx_in_block(block_number as int)) =~= Seq::<
                TransactionView,
            >::empty()) by {
                reveal(Seq::filter);
            }
        }
        while i < n
            invariant
                n == self.transactions.len(),
                i <= n,
                seq_view(out@) == txs_of_block(
                    self@.transactions.take(i as int),
                    block_number as int,
                ),
            decreases n - i,
        {
            let ghost prefix = self@.transactions.take(i as int);
            proof {
                assert(self@.transactions.take(i + 1) =~= prefix.push(self@.transactions[i as int]));
                crate::lemma_filter_push(
                    prefix,
                    self@.transactions[i as int],
                    tx_in_block(block_number as int),
                );
                assert(self@.transactions[i as int] == self.transactions@[i as int]@);
            }
            if self.transactions[i].block_number == block_number {
                out.push(self.transactions[i].clone());
                proof {
                    assert(seq_view(out@) =~= txs_of_block(
                        self@.transactions.take(i + 1),
                        block_number as int,
                    ));
                }
            } else {
                proof {
                    assert(seq_view(out@) =~= txs_of_block(
                        self@.transactions.take(i + 1),
                        block_number as int,
                    ));
                }
            }
            i += 1;
        }
        proof {
            assert(self@.transactions.take(n as int) =~= self@.transactions);
        }
        out
    }

    /// Inserts a dependency edge row unconditionally; callers must have
    /// cleared the prior edges of the block.
    pub fn insert_transaction_dag(&mut self, transaction_dag: &TransactionDag)
        ensures
            final(self)@.blocks == old(self)@.blocks,
            final(self)@.transactions == old(self)@.transactions,
            final(self)@.transaction_dags == old(self)@.transaction_dags.push(transaction_dag@),
            final(self)@.analyzer_states == old(self)@.analyzer_states,
    {
        self.transaction_dags.push(*transaction_dag);
        proof {
            assert(seq_view(self.transaction_dags@) =~= old(self)@.transaction_dags.push(
                transaction_dag@,
            ));
        }
    }

    /// Returns the dependency edge rows of one block, in table order.
    pub fn get_transaction_dags_by_block_number(&self, block_number: i64) -> (r: Vec<
        TransactionDag,
    >)
        ensures
            seq_view(r@) == dags_of_block(self@.transaction_dags, block_number as int),
    {
        let n = self.transaction_dags.len();
        let mut out: Vec<TransactionDag> = Vec::new();
        let mut i: usize = 0;
        proof {
            assert(self@.transaction_dags.take(0) =~= Seq::<TransactionDagView>::empty());
            assert(seq_view(out@) =~= Seq::<TransactionDagView>::empty());
            assert(Seq::<TransactionDagView>::empty().filter(dag_in_block(block_number as int))
                =~= Seq::<TransactionDagView>::empty()) by {
                reveal(Seq::filter);
            }
        }
        while i < n
            invariant
                n == self.transaction_dags.len(),
                i <= n,
                seq_view(out@) == dags_of_block(
                    self@.transaction_dags.take(i as int),
                    block_number as int,
                ),
            decreases n - i,
        {
            let ghost prefix = self@.transaction_dags.take(i as int);
            proof {
                assert(self@.transaction_dags.take(i + 1) =~= prefix.push(
                    self@.transaction_dags[i as int],
                ));
                crate::lemma_filter_push(
                    prefix,
                    self@.transaction_dags[i as int],
                    dag_in_block(block_number as int),
                );
                assert(self@.transaction_dags[i as int] == self.transaction_dags@[i as int]@);
            }
            if self.transaction_dags[i].block_number == block_number {
                out.push(self.transaction_dags[i]);
                proof {
                    assert(seq_view(out@) =~= dags_of_block(
                        self@.transaction_dags.take(i + 1),
                        block_number as int,
                    ));
                }
            } else {
                proof {
                    assert(seq_view(out@) =~= dags_of_block(
                        self@.transaction_dags.take(i + 1),
                        block_number as int,
                    ));
                }
            }
            i += 1;
        }
        proof {
            assert(self@.transaction_dags.take(n as int) =~= self@.transaction_dags);
        }
        out
    }

    /// Removes all dependency edge rows of one block; succeeds when none
    /// exist.
    pub fn delete_transaction_dags_by_block_number(&mut self, block_number: i64)
        ensures
            final(self)@.blocks == old(self)@.blocks,
            final(self)@.transactions == old(self)@.transactions,
            final(self)@.transaction_dags == delete_dag_rows(
                old(self)@.transaction_dags,
                block_number as int,
            ),
            final(self)@.analyzer_states == old(self)@.analyzer_states,
    {
        let n = self.transaction_dags.len();
        let mut kept: Vec<TransactionDag> = Vec::new();
        let mut i: usize = 0;
        proof {
            assert(old(self)@.transaction_dags.take(0) =~= Seq::<TransactionDagView>::empty());
            assert(seq_view(kept@) =~= Seq::<TransactionDagView>::empty());
            assert(Seq::<TransactionDagView>::empty().filter(dag_not_in_block(block_number as int))
                =~= Seq::<TransactionDagView>::empty()) by {
                reveal(Seq::filter);
            }
        }
        while i < n
            invariant
                *self == *old(self),
                n == self.transaction_dags.len(),
                i <= n,
                seq_view(kept@) == delete_dag_rows(
                    old(self)@.transaction_dags.take(i as int),
                    block_number as int,
                ),
            decreases n - i,
        {
            let ghost prefix = old(self)@.transaction_dags.take(i as int);
            proof {
                assert(old(self)@.transaction_dags.take(i + 1) =~= prefix.push(
                    old(self)@.transaction_dags[i as int],
                ));
                crate::lemma_filter_push(
                    prefix,
                    old(self)@.transaction_dags[i as int],
                    dag_not_in_block(block_number as int),
                );
                assert(old(self)@.transaction_dags[i as int]
                    == self.transaction_dags@[i as int]@);
            }
            if self.transaction_dags[i].block_number != block_number {
                kept.push(self.transaction_dags[i]);
            }
            proof {
                assert(seq_view(kept@) =~= delete_dag_rows(
                    old(self)@.transaction_dags.take(i + 1),
                    block_number as int,
                ));
            }
            i += 1;
        }
        proof {
            assert(old(self)@.transaction_dags.take(n as int) =~= old(self)@.transaction_dags);
        }
        self.transaction_dags = kept;
    }

    /// Inserts a cursor row; on a chain-id conflict the store is unchanged.
    pub fn insert_parallel_analyzer_state(&mut self, parallel_analyzer_state: &ParallelAnalyzerState)
        ensures
            final(self)@.blocks == old(self)@.blocks,
            final(self)@.transactions == old(self)@.transactions,
            final(self)@.transaction_dags == old(self)@.transaction_dags,
            final(self)@.analyzer_states == insert_state_row(
                old(self)@.analyzer_states,
                parallel_analyzer_state@,
            ),
    {
        let n = self.analyzer_states.len();
        let mut i: usize = 0;
        while i < n
            invariant
                *self == *old(self),
                n == self.analyzer_states.len(),
                i <= n,
                forall|k: int|
                    0 <= k < i ==> self@.analyzer_states[k].chain_id
                        != parallel_analyzer_state@.chain_id,
            decreases n - i,
        {
            if self.analyzer_states[i].chain_id == parallel_analyzer_state.chain_id {
                proof {
                    assert(self@.analyzer_states[i as int] == self.analyzer_states@[i as int]@);
                    assert(has_chain_id(
                        self@.analyzer_states,
                        parallel_analyzer_state@.chain_id,
                    ));
                }
                return ;
            }
            i += 1;
        }
        assert(!has_chain_id(self@.analyzer_states, parallel_analyzer_state@.chain_id));
        self.analyzer_states.push(*parallel_analyzer_state);
        proof {
            assert(seq_view(self.analyzer_states@) =~= insert_state_row(
                old(self)@.analyzer_states,
                parallel_analyzer_state@,
            ));
        }
    }

    /// Looks the cursor row of one chain up.
    pub fn get_parallel_analyzer_state_by_chainid(&self, chain_id: i64) -> (r: Option<
        ParallelAnalyzerState,
    >)
        ensures
            r.is_some() == has_chain_id(self@.analyzer_states, chain_id as int),
            match r {
                Some(s) => exists|i: int|
                    0 <= i < self@.analyzer_states.len() && self@.analyzer_states[i] == s@
                        && s@.chain_id == chain_id as int,
                None => true,
            },
    {
        let n = self.analyzer_states.len();
        let mut i: usize = 0;
        while i < n
            invariant
                n == self.analyzer_states.len(),
                i <= n,
                forall|k: int| 0 <= k < i ==> self@.analyzer_states[k].chain_id != chain_id as int,
            decreases n - i,
        {
            if self.analyzer_states[i].chain_id == chain_id {
                proof {
                    assert(self@.analyzer_states[i as int] == self.analyzer_states@[i as int]@);
                }
                return Some(self.analyzer_states[i]);
            }
            i += 1;
        }
        None
    }

    /// Rewrites every cursor row of the chain id of the given row with its
    /// latest-block, start-block and latest-analyzed-block fields.
    pub fn update_parallel_analyzer_state_by_chainid(
        &mut self,
        parallel_analyzer_state: &ParallelAnalyzerState,
    )
        ensures
            final(self)@.blocks == old(self)@.blocks,
            final(self)@.transactions == old(self)@.transactions,
            final(self)@.transaction_dags == old(self)@.transaction_dags,
            final(self)@.analyzer_states == update_state_rows(
                old(self)@.analyzer_states,
                parallel_analyzer_state@,
            ),
    {
        let n = self.analyzer_states.len();
        let mut out: Vec<ParallelAnalyzerState> = Vec::new();
        let mut i: usize = 0;
        while i < n
            invariant
                *self == *old(self),
                n == self.analyzer_states.len(),
                i <= n,
                out@.len() == i,
                forall|k: int|
                    0 <= k < i ==> #[trigger] out@[k]@ == update_state_row(
                        old(self)@.analyzer_states[k],
                        parallel_analyzer_state@,
                    ),
            decreases n - i,
        {
            proof {
                assert(self@.analyzer_states[i as int] == self.analyzer_states@[i as int]@);
            }
            if self.analyzer_states[i].chain_id == parallel_analyzer_state.chain_id {
                let updated = ParallelAnalyzerState {
                    latest_block: parallel_analyzer_state.latest_block,
                    chain_id: self.analyzer_states[i].chain_id,
                    start_block: parallel_analyzer_state.start_block,
                    latest_analyzed_block: parallel_analyzer_state.latest_analyzed_block,
                };
                out.push(updated);
            } else {
                out.push(self.analyzer_states[i]);
            }
            i += 1;
        }
        self.analyzer_states = out;
        proof {
            assert(seq_view(self.analyzer_states@) =~= update_state_rows(
                old(self)@.analyzer_states,
                parallel_analyzer_state@,
            ));
        }
    }
}

/// Re-inserting a block row with an unchanged hash is a no-op: the insert
/// is idempotent.
pub proof fn lemma_insert_block_idempotent(blocks: Seq<BlockView>, b: BlockView)
    ensures
        insert_block_row(insert_block_row(blocks, b), b) == insert_block_row(blocks, b),
{
    if !has_block_hash(blocks, b.block_hash) {
        assert(blocks.push(b)[blocks.len() as int].block_hash == b.block_hash);
        assert(has_block_hash(blocks.push(b), b.block_hash));
    }
}

/// Re-inserting a transaction row with an unchanged hash is a no-op: the
/// insert is idempotent.
pub proof fn lemma_insert_transaction_idempotent(txs: Seq<TransactionView>, t: TransactionView)
    ensures
        insert_transaction_row(insert_transaction_row(txs, t), t) == insert_transaction_row(
            txs,
            t,
        ),
{
    if !has_tx_hash(txs, t.tx_hash) {
        assert(txs.push(t)[txs.len() as int].tx_hash == t.tx_hash);
        assert(has_tx_hash(txs.push(t), t.tx_hash));
    }
}

/// Re-inserting a cursor row with an unchanged chain id is a no-op: the
/// insert is idempotent.
pub proof fn lemma_insert_state_idempotent(
    states: Seq<ParallelAnalyzerStateView>,
    s: ParallelAnalyzerStateView,
)
    ensures
        insert_state_row(insert_state_row(states, s), s) == insert_state_row(states, s),
{
    if !has_chain_id(states, s.chain_id) {
        assert(states.push(s)[states.len() as int].chain_id == s.chain_id);
        assert(has_chain_id(states.push(s), s.chain_id));
    }
}

} // verus!
