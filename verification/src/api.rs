//! The read API's wire models and the computations behind its handlers.
//!
//! The HTTP layer itself is an unverified shell: it parses the query,
//! reads rows from the store and serializes the response. Everything it
//! decides — which block to serve, how a stored row maps to a wire item —
//! is computed here.

use vstd::prelude::*;

use crate::seq_view;

verus! {

/// The error kinds of the core. Config errors are terminal at startup;
/// storage and RPC errors end the current pipeline iteration; a logic
/// error marks a malformed block and is never silently skipped.
#[derive(Debug, Clone, Copy, PartialEq, Eq, Structural)]
pub enum AppError {
    Config,
    Storage,
    Rpc,
    Logic,
}

impl AppError {
    /// A short description, served as the body of an error response.
    pub fn message(&self) -> &'static str {
        match self {
            AppError::Config => "configuration error",
            AppError::Storage => "storage error",
            AppError::Rpc => "execution api error",
            AppError::Logic => "malformed block data",
        }
    }
}

/// The body of a healthy health-check response.
#[derive(Debug)]
pub struct HealthResp {}

/// A failure body: a status code and a short message.
#[derive(Debug)]
pub struct FailResponse {
    pub code: u16,
    pub message: String,
}

/// The query of the dependency-graph endpoint: a block number, or none to
/// let the server choose one near the chain tip.
#[derive(Debug, Clone, Copy, PartialEq, Eq, Structural)]
pub struct TransactionDagQuery {
    pub block_number: Option<i64>,
}

/// A wire transaction item. `gas_used` is populated from the stored
/// gas-price column; the field name is kept so that existing clients keep
/// working.
#[derive(Debug)]
pub struct Transaction {
    pub index: i64,
    pub tx_hash: String,
    pub tx_type: i16,
    pub gas_used: String,
    pub from: String,
    pub to: String,
}

/// The mathematical value of a wire transaction item.
pub struct TransactionView {
    pub index: int,
    pub tx_hash: Seq<char>,
    pub tx_type: int,
    pub gas_used: Seq<char>,
    pub from: Seq<char>,
    pub to: Seq<char>,
}

impl View for Transaction {
    type V = TransactionView;

    open spec fn view(&self) -> TransactionView {
        TransactionView {
            index: self.index as int,
            tx_hash: self.tx_hash@,
            tx_type: self.tx_type as int,
            gas_used: self.gas_used@,
            from: self.from@,
            to: self.to@,
        }
    }
}

/// A wire dependency edge item.
#[derive(Debug, Clone, Copy, PartialEq, Eq, Structural)]
pub struct TransactionDag {
    pub source: i64,
    pub target: i64,
    pub dep_type: i16,
}

/// The mathematical value of a wire dependency edge item.
pub struct TransactionDagView {
    pub source: int,
    pub target: int,
    pub dep_type: int,
}

impl View for TransactionDag {
    type V = TransactionDagView;

    open spec fn view(&self) -> TransactionDagView {
        TransactionDagView {
            source: self.source as int,
            target: self.target as int,
            dep_type: self.dep_type as int,
        }
    }
}

/// The body of the dependency-graph response.
#[derive(Debug)]
pub struct TransactionDagResponse {
    pub block_number: i64,
    pub transactions: Vec<Transaction>,
    pub dags: Vec<TransactionDag>,
}

/// The mathematical value of the dependency-graph response.
pub struct TransactionDagResponseView {
    pub block_number: int,
    pub transactions: Seq<TransactionView>,
    pub dags: Seq<TransactionDagView>,
}

impl View for TransactionDagResponse {
    type V = TransactionDagResponseView;

    open spec fn view(&self) -> TransactionDagResponseView {
        TransactionDagResponseView {
            block_number: self.block_number as int,
            transactions: seq_view(self.transactions@),
            dags: seq_view(self.dags@),
        }
    }
}

/// A stored transaction row as a wire item: the index, hash, type and
/// addresses carry over, and `gas_used` carries the stored gas price.
pub open spec fn api_transaction_of(t: crate::store::TransactionView) -> TransactionView {
    TransactionView {
        index: t.tx_index,
        tx_hash: t.tx_hash,
        tx_type: t.tx_type,
        gas_used: t.gas_price,
        from: t.tx_from,
        to: t.tx_to,
    }
}

/// A sequence of stored transaction rows as wire items.
pub open spec fn api_transactions_of(ts: Seq<crate::store::TransactionView>) -> Seq<
    TransactionView,
> {
    ts.map_values(|t: crate::store::TransactionView| api_transaction_of(t))
}

/// A stored edge row as a wire item.
pub open spec fn api_dag_of(d: crate::store::TransactionDagView) -> TransactionDagView {
    TransactionDagView { source: d.source_tx, target: d.target_tx, dep_type: d.dep_type }
}

/// A sequence of stored edge rows as wire items.
pub open spec fn api_dags_of(ds: Seq<crate::store::TransactionDagView>) -> Seq<
    TransactionDagView,
> {
    ds.map_values(|d: crate::store::TransactionDagView| api_dag_of(d))
}

/// The block a dependency-graph request is about: the queried block when
/// one was given, else ten blocks behind the observed tip, a margin that
/// keeps the server from racing the analyzer.
pub fn choose_block_number(query: &TransactionDagQuery, latest_block_number: i64) -> (r: i64)
    requires
        query.block_number is None ==> latest_block_number >= i64::MIN + 10,
    ensures
        r as int == (match query.block_number {
            Some(n) => n as int,
            None => latest_block_number - 10,
        }),
{
    match query.block_number {
        Some(n) => n,
        None => latest_block_number - 10,
    }
}

/// Maps a stored transaction row to its wire item.
pub fn transaction_to_api(t: &crate::store::Transaction) -> (r: Transaction)
    ensures
        r@ == api_transaction_of(t@),
{
    Transaction {
        index: t.tx_index,
        tx_hash: t.tx_hash.clone(),
        tx_type: t.tx_type,
        gas_used: t.gas_price.clone(),
        from: t.tx_from.clone(),
        to: t.tx_to.clone(),
    }
}

/// Maps a stored edge row to its wire item.
pub fn dag_to_api(d: &crate::store::TransactionDag) -> (r: TransactionDag)
    ensures
        r@ == api_dag_of(d@),
{
    TransactionDag { source: d.source_tx, target: d.target_tx, dep_type: d.dep_type }
}

/// Builds the dependency-graph response for one block from its stored
/// transaction and edge rows.
pub fn build_transaction_dag_response(
    block_number: i64,
    transactions: &Vec<crate::store::Transaction>,
    transaction_dags: &Vec<crate::store::TransactionDag>,
) -> (r: TransactionDagResponse)
    ensures
        r@.block_number == block_number as int,
        r@.transactions == api_transactions_of(seq_view(transactions@)),
        r@.dags == api_dags_of(seq_view(transaction_dags@)),
{
    let n = transactions.len();
    let mut items: Vec<Transaction> = Vec::new();
    let mut i: usize = 0;
    proof {
        assert(seq_view(items@) =~= api_transactions_of(seq_view(transactions@).take(0)));
    }
    while i < n
        invariant
            n == transactions.len(),
            i <= n,
            seq_view(items@) == api_transactions_of(seq_view(transactions@).take(i as int)),
        decreases n - i,
    {
        let item = transaction_to_api(&transactions[i]);
        let ghost pre = seq_view(items@);
        items.push(item);
        proof {
            assert(seq_view(transactions@)[i as int] == transactions@[i as int]@);
            assert(seq_view(items@) =~= pre.push(
                api_transaction_of(seq_view(transactions@)[i as int]),
            ));
            assert(seq_view(items@) =~= api_transactions_of(
                seq_view(transactions@).take(i + 1),
            ));
        }
        i += 1;
    }
    proof {
        assert(seq_view(transactions@).take(n as int) =~= seq_view(transactions@));
    }
    let m = transaction_dags.len();
    let mut edges: Vec<TransactionDag> = Vec::new();
    let mut j: usize = 0;
    proof {
        assert(seq_view(edges@) =~= api_dags_of(seq_view(transaction_dags@).take(0)));
    }
    while j < m
        invariant
            m == transaction_dags.len(),
            j <= m,
            seq_view(edges@) == api_dags_of(seq_view(transaction_dags@).take(j as int)),
        decreases m - j,
    {
        let edge = dag_to_api(&transaction_dags[j]);
        let ghost pre = seq_view(edges@);
        edges.push(edge);
        proof {
            assert(seq_view(transaction_dags@)[j as int] == transaction_dags@[j as int]@);
            assert(seq_view(edges@) =~= pre.push(
                api_dag_of(seq_view(transaction_dags@)[j as int]),
            ));
            assert(seq_view(edges@) =~= api_dags_of(seq_view(transaction_dags@).take(j + 1)));
        }
        j += 1;
    }
    proof {
        assert(seq_view(transaction_dags@).take(m as int) =~= seq_view(transaction_dags@));
    }
    TransactionDagResponse { block_number, transactions: items, dags: edges }
}

/// The analyzer-state endpoint's result: the latest analyzed block of the
/// chain's cursor, or a storage error when the chain has no cursor row.
pub fn latest_analyzed_of(state: &Option<crate::store::ParallelAnalyzerState>) -> (r: Result<
    i64,
    AppError,
>)
    ensures
        r == (match state {
            Some(s) => Ok::<i64, AppError>(s.latest_analyzed_block),
            None => Err::<i64, AppError>(AppError::Storage),
        }),
{
    match state {
        Some(s) => Ok(s.latest_analyzed_block),
        None => Err(AppError::Storage),
    }
}

} // verus!
