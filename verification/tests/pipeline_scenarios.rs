use pevm_analyzer::analyzer::analyse_dependencies;
use pevm_analyzer::api::AppError;
use pevm_analyzer::pipeline::{analyse_block, FetchedBlock, FetchedHeader, FetchedTransaction};
use pevm_analyzer::state_set::{StateSet, TransactionStateSet};
use pevm_analyzer::store::{ParallelAnalyzerState, Store, TransactionDag};

fn s(x: &str) -> String {
    x.to_string()
}

fn ids(xs: &[&str]) -> Vec<String> {
    xs.iter().map(|x| x.to_string()).collect()
}

fn set(bal: &[&str], code: &[&str], sto: &[&str]) -> StateSet {
    StateSet { balance_set: ids(bal), code_set: ids(code), storage_set: ids(sto) }
}

fn tss(read: StateSet, write: StateSet) -> TransactionStateSet {
    TransactionStateSet { read_set: read, write_set: write }
}

fn header(number: i64) -> FetchedHeader {
    FetchedHeader {
        parent_hash: s("0xparent"),
        hash: format!("0xblock{number}"),
        number,
        gas_used: 42_000,
        gas_limit: 30_000_000,
        timestamp: 1_700_000_000,
        base_fee_per_gas: Some(7),
        blob_gas_used: None,
        excess_blob_gas: None,
    }
}

fn fetched_tx(block_number: i64, index: i64) -> FetchedTransaction {
    FetchedTransaction {
        block_number: Some(block_number),
        tx_index: Some(index),
        tx_hash: format!("0xtx{block_number}x{index}"),
        tx_from: s("0xfrom"),
        tx_to: s("0xto"),
        gas_price: s("1000"),
        max_fee_per_gas: s("2000"),
        max_priority_fee_per_gas: s("100"),
        max_fee_per_blob_gas: s("0"),
        gas: 21_000,
        tx_value: s("0"),
        input: s("0x"),
        nonce: 0,
        tx_type: 2,
    }
}

fn fetched_block(number: i64, tx_count: i64) -> FetchedBlock {
    FetchedBlock {
        header: header(number),
        transactions: Some((0..tx_count).map(|i| fetched_tx(number, i)).collect()),
    }
}

fn store_with_cursor(chain_id: i64, start_block: i64) -> Store {
    let mut store = Store::new();
    store.insert_parallel_analyzer_state(&ParallelAnalyzerState {
        latest_block: 0,
        chain_id,
        start_block,
        latest_analyzed_block: start_block - 1,
    });
    store
}

fn dag(block_number: i64, source: i64, target: i64, mask: i16) -> TransactionDag {
    TransactionDag { block_number, source_tx: source, target_tx: target, dep_type: mask }
}

#[test]
fn empty_block_commits_header_and_cursor_only() {
    let mut store = store_with_cursor(1, 0);
    let fetched = fetched_block(3, 0);
    let traces: Vec<TransactionStateSet> = vec![];
    analyse_block(&mut store, 1, 3, 10, &fetched, &traces).expect("pipeline succeeds");
    assert!(store.get_block_by_number(3).is_some());
    assert!(store.get_transactions_by_block_number(3).is_empty());
    assert!(store.get_transaction_dags_by_block_number(3).is_empty());
    let cursor = store.get_parallel_analyzer_state_by_chainid(1).expect("cursor exists");
    assert_eq!(cursor.latest_analyzed_block, 3);
    assert_eq!(cursor.latest_block, 10);
}

#[test]
fn independent_pair_emits_no_edge() {
    let mut store = store_with_cursor(1, 0);
    let fetched = fetched_block(4, 2);
    let traces = vec![
        tss(set(&[], &[], &[]), set(&["0xa"], &[], &[])),
        tss(set(&["0xb"], &[], &[]), set(&[], &[], &[])),
    ];
    analyse_block(&mut store, 1, 4, 10, &fetched, &traces).expect("pipeline succeeds");
    assert!(store.get_transaction_dags_by_block_number(4).is_empty());
    let cursor = store.get_parallel_analyzer_state_by_chainid(1).expect("cursor exists");
    assert_eq!(cursor.latest_analyzed_block, 4);
}

#[test]
fn balance_raw_emits_single_edge() {
    let mut store = store_with_cursor(1, 0);
    let fetched = fetched_block(5, 2);
    let traces = vec![
        tss(set(&[], &[], &[]), set(&["0xa"], &[], &[])),
        tss(set(&["0xa"], &[], &[]), set(&[], &[], &[])),
    ];
    analyse_block(&mut store, 1, 5, 10, &fetched, &traces).expect("pipeline succeeds");
    assert_eq!(store.get_transaction_dags_by_block_number(5), vec![dag(5, 1, 0, 0x1)]);
}

#[test]
fn multi_axis_edge_folds_mask() {
    let mut store = store_with_cursor(1, 0);
    let fetched = fetched_block(6, 2);
    let traces = vec![
        tss(set(&[], &[], &[]), set(&["0xa"], &[], &["0xs"])),
        tss(set(&["0xa"], &[], &["0xs"]), set(&[], &[], &[])),
    ];
    analyse_block(&mut store, 1, 6, 10, &fetched, &traces).expect("pipeline succeeds");
    assert_eq!(store.get_transaction_dags_by_block_number(6), vec![dag(6, 1, 0, 0x101)]);
}

#[test]
fn transitive_fan_in_emits_three_edges() {
    let mut store = store_with_cursor(1, 0);
    let fetched = fetched_block(7, 3);
    let traces = vec![
        tss(set(&[], &[], &[]), set(&["0xa"], &[], &[])),
        tss(set(&["0xa"], &["0xa"], &[]), set(&["0xa"], &["0xa"], &[])),
        tss(set(&["0xa"], &["0xa"], &[]), set(&[], &[], &[])),
    ];
    analyse_block(&mut store, 1, 7, 10, &fetched, &traces).expect("pipeline succeeds");
    assert_eq!(
        store.get_transaction_dags_by_block_number(7),
        vec![dag(7, 1, 0, 0x1), dag(7, 2, 0, 0x1), dag(7, 2, 1, 0x11)]
    );
}

#[test]
fn analyzer_covers_target_index_zero() {
    // The inner pair loop must range over all earlier indices including 0.
    let traces = vec![
        tss(set(&[], &[], &[]), set(&["0xa"], &[], &[])),
        tss(set(&["0xa"], &[], &[]), set(&[], &[], &[])),
    ];
    let edges = analyse_dependencies(9, &traces);
    assert_eq!(edges, vec![dag(9, 1, 0, 0x1)]);
}

#[test]
fn reanalysis_is_idempotent() {
    let mut store = store_with_cursor(1, 0);
    let fetched = fetched_block(8, 2);
    let traces = vec![
        tss(set(&[], &[], &[]), set(&["0xa"], &[], &[])),
        tss(set(&["0xa"], &[], &[]), set(&[], &[], &[])),
    ];
    analyse_block(&mut store, 1, 8, 10, &fetched, &traces).expect("first run succeeds");
    analyse_block(&mut store, 1, 8, 10, &fetched, &traces).expect("second run succeeds");
    assert_eq!(store.get_transactions_by_block_number(8).len(), 2);
    assert_eq!(store.get_transaction_dags_by_block_number(8), vec![dag(8, 1, 0, 0x1)]);
    let cursor = store.get_parallel_analyzer_state_by_chainid(1).expect("cursor exists");
    assert_eq!(cursor.latest_analyzed_block, 8);
}

#[test]
fn reanalysis_deletes_stale_edges() {
    let mut store = store_with_cursor(1, 0);
    // A stale edge from an earlier, differently-traced run of block 9.
    store.insert_transaction_dag(&dag(9, 1, 0, 0x110));
    let fetched = fetched_block(9, 2);
    let traces = vec![
        tss(set(&[], &[], &[]), set(&["0xa"], &[], &[])),
        tss(set(&["0xa"], &[], &[]), set(&[], &[], &[])),
    ];
    analyse_block(&mut store, 1, 9, 12, &fetched, &traces).expect("pipeline succeeds");
    assert_eq!(store.get_transaction_dags_by_block_number(9), vec![dag(9, 1, 0, 0x1)]);
}

#[test]
fn other_blocks_edges_survive_reanalysis() {
    let mut store = store_with_cursor(1, 0);
    store.insert_transaction_dag(&dag(2, 1, 0, 0x10));
    let fetched = fetched_block(3, 0);
    analyse_block(&mut store, 1, 3, 10, &fetched, &vec![]).expect("pipeline succeeds");
    assert_eq!(store.get_transaction_dags_by_block_number(2), vec![dag(2, 1, 0, 0x10)]);
}

#[test]
fn absent_transaction_list_is_a_logic_error() {
    let mut store = store_with_cursor(1, 0);
    let fetched = FetchedBlock { header: header(3), transactions: None };
    let err = analyse_block(&mut store, 1, 3, 10, &fetched, &vec![]).unwrap_err();
    assert_eq!(err, AppError::Logic);
    assert!(store.get_block_by_number(3).is_none());
}

#[test]
fn non_dense_indices_are_a_logic_error() {
    let mut store = store_with_cursor(1, 0);
    let mut txs = vec![fetched_tx(3, 0), fetched_tx(3, 2)];
    txs[1].tx_hash = s("0xother");
    let fetched = FetchedBlock { header: header(3), transactions: Some(txs) };
    let traces = vec![
        tss(set(&[], &[], &[]), set(&[], &[], &[])),
        tss(set(&[], &[], &[]), set(&[], &[], &[])),
    ];
    let err = analyse_block(&mut store, 1, 3, 10, &fetched, &traces).unwrap_err();
    assert_eq!(err, AppError::Logic);
    assert!(store.get_block_by_number(3).is_none());
    assert!(store.get_transactions_by_block_number(3).is_empty());
}

#[test]
fn missing_index_is_a_logic_error() {
    let mut store = store_with_cursor(1, 0);
    let mut txs = vec![fetched_tx(3, 0)];
    txs[0].tx_index = None;
    let fetched = FetchedBlock { header: header(3), transactions: Some(txs) };
    let traces = vec![tss(set(&[], &[], &[]), set(&[], &[], &[]))];
    let err = analyse_block(&mut store, 1, 3, 10, &fetched, &traces).unwrap_err();
    assert_eq!(err, AppError::Logic);
}

#[test]
fn trace_count_mismatch_is_a_logic_error() {
    let mut store = store_with_cursor(1, 0);
    let fetched = fetched_block(3, 2);
    let traces = vec![tss(set(&[], &[], &[]), set(&[], &[], &[]))];
    let err = analyse_block(&mut store, 1, 3, 10, &fetched, &traces).unwrap_err();
    assert_eq!(err, AppError::Logic);
    assert!(store.get_block_by_number(3).is_none());
}

#[test]
fn replay_absorbs_partial_writes() {
    // A crashed run left the block row and the first transaction row
    // behind but never advanced the cursor. Replaying the block yields
    // the same persisted state as a run that never crashed.
    let fetched = fetched_block(13, 2);
    let traces = vec![
        tss(set(&[], &[], &[]), set(&["0xa"], &[], &[])),
        tss(set(&["0xa"], &[], &[]), set(&[], &[], &[])),
    ];

    let mut crashed = store_with_cursor(1, 0);
    crashed.insert_block(&pevm_analyzer::store::Block {
        parent_hash: s("0xparent"),
        block_hash: s("0xblock13"),
        block_number: 13,
        gas_used: 42_000,
        gas_limit: 30_000_000,
        block_timestamp: 1_700_000_000,
        base_fee_per_gas: 7,
        blob_gas_used: 0,
        excess_blob_gas: 0,
    });
    let partial_tx = {
        let mut row = fetched_tx(13, 0);
        row.tx_hash = s("0xtx13x0");
        row
    };
    crashed.insert_transaction(&pevm_analyzer::store::Transaction {
        block_number: 13,
        tx_index: 0,
        tx_hash: partial_tx.tx_hash.clone(),
        tx_from: s("0xfrom"),
        tx_to: s("0xto"),
        gas_price: s("1000"),
        max_fee_per_gas: s("2000"),
        max_priority_fee_per_gas: s("100"),
        max_fee_per_blob_gas: s("0"),
        gas: 21_000,
        tx_value: s("0"),
        input: s("0x"),
        nonce: 0,
        tx_type: 2,
    });
    analyse_block(&mut crashed, 1, 13, 20, &fetched, &traces).expect("replay succeeds");

    let mut clean = store_with_cursor(1, 0);
    analyse_block(&mut clean, 1, 13, 20, &fetched, &traces).expect("clean run succeeds");

    let crashed_txs = crashed.get_transactions_by_block_number(13);
    let clean_txs = clean.get_transactions_by_block_number(13);
    assert_eq!(crashed_txs.len(), clean_txs.len());
    for (a, b) in crashed_txs.iter().zip(clean_txs.iter()) {
        assert_eq!(a.tx_hash, b.tx_hash);
        assert_eq!(a.tx_index, b.tx_index);
        assert_eq!(a.gas_price, b.gas_price);
    }
    assert_eq!(
        crashed.get_transaction_dags_by_block_number(13),
        clean.get_transaction_dags_by_block_number(13)
    );
    assert_eq!(
        crashed.get_parallel_analyzer_state_by_chainid(1),
        clean.get_parallel_analyzer_state_by_chainid(1)
    );
    assert_eq!(
        crashed.get_block_by_hash(&s("0xblock13")).map(|b| b.block_number),
        clean.get_block_by_hash(&s("0xblock13")).map(|b| b.block_number)
    );
}

#[test]
fn transaction_rows_carry_fetched_fields() {
    let mut store = store_with_cursor(1, 0);
    let fetched = fetched_block(11, 2);
    let traces = vec![
        tss(set(&[], &[], &[]), set(&[], &[], &[])),
        tss(set(&[], &[], &[]), set(&[], &[], &[])),
    ];
    analyse_block(&mut store, 1, 11, 20, &fetched, &traces).expect("pipeline succeeds");
    let rows = store.get_transactions_by_block_number(11);
    assert_eq!(rows.len(), 2);
    assert_eq!(rows[0].tx_hash, s("0xtx11x0"));
    assert_eq!(rows[0].tx_index, 0);
    assert_eq!(rows[1].tx_index, 1);
    assert_eq!(rows[1].gas_price, s("1000"));
    let block = store.get_block_by_number(11).expect("block row exists");
    assert_eq!(block.base_fee_per_gas, 7);
    assert_eq!(block.blob_gas_used, 0);
}
