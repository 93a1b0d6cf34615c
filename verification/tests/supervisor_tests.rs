use pevm_analyzer::pipeline::{analyse_block, FetchedBlock, FetchedHeader};
use pevm_analyzer::state_set::TransactionStateSet;
use pevm_analyzer::store::{ParallelAnalyzerState, Store};
use pevm_analyzer::supervisor::{
    initial_parallel_analyzer_state, next_block_number, poll_step, resume_start_block,
    PollDecision, POLL_INTERVAL_SECS,
};

fn header(number: i64) -> FetchedHeader {
    FetchedHeader {
        parent_hash: "0xparent".to_string(),
        hash: format!("0xblock{number}"),
        number,
        gas_used: 0,
        gas_limit: 30_000_000,
        timestamp: 1_700_000_000,
        base_fee_per_gas: None,
        blob_gas_used: None,
        excess_blob_gas: None,
    }
}

#[test]
fn initial_state_sits_one_before_start() {
    let state = initial_parallel_analyzer_state(5, 100);
    assert_eq!(state.chain_id, 5);
    assert_eq!(state.start_block, 100);
    assert_eq!(state.latest_analyzed_block, 99);
    assert_eq!(state.latest_block, 0);
}

#[test]
fn resume_without_cursor_inserts_fresh_row() {
    let mut store = Store::new();
    let start = resume_start_block(&mut store, 5, 100);
    assert_eq!(start, 100);
    let cursor = store.get_parallel_analyzer_state_by_chainid(5).expect("row inserted");
    assert_eq!(cursor.latest_analyzed_block, 99);
    assert_eq!(cursor.start_block, 100);
    assert_eq!(cursor.latest_block, 0);
}

#[test]
fn resume_after_crash_continues_past_cursor() {
    // Cursor at latest_analyzed_block = 99, configured start 50: the run
    // resumes at 100.
    let mut store = Store::new();
    store.insert_parallel_analyzer_state(&ParallelAnalyzerState {
        latest_block: 120,
        chain_id: 1,
        start_block: 50,
        latest_analyzed_block: 99,
    });
    let start = resume_start_block(&mut store, 1, 50);
    assert_eq!(start, 100);
    // Block 100 is re-processed: stale edges for it are deleted first.
    store.insert_transaction_dag(&pevm_analyzer::store::TransactionDag {
        block_number: 100,
        source_tx: 1,
        target_tx: 0,
        dep_type: 0x1,
    });
    let fetched = FetchedBlock { header: header(100), transactions: Some(vec![]) };
    let traces: Vec<TransactionStateSet> = vec![];
    analyse_block(&mut store, 1, start, 120, &fetched, &traces).expect("pipeline succeeds");
    assert!(store.get_transaction_dags_by_block_number(100).is_empty());
    let cursor = store.get_parallel_analyzer_state_by_chainid(1).expect("cursor exists");
    assert_eq!(cursor.latest_analyzed_block, 100);
}

#[test]
fn resume_respects_later_configured_start() {
    let mut store = Store::new();
    store.insert_parallel_analyzer_state(&ParallelAnalyzerState {
        latest_block: 0,
        chain_id: 1,
        start_block: 50,
        latest_analyzed_block: 99,
    });
    let start = resume_start_block(&mut store, 1, 200);
    assert_eq!(start, 200);
}

#[test]
fn poll_waits_past_tip_and_analyses_at_or_below() {
    assert_eq!(poll_step(101, 100), PollDecision::Wait);
    assert_eq!(poll_step(100, 100), PollDecision::Analyse);
    assert_eq!(poll_step(50, 100), PollDecision::Analyse);
}

#[test]
fn loop_advances_on_success_and_halts_on_error() {
    assert_eq!(next_block_number(7, true), Some(8));
    assert_eq!(next_block_number(7, false), None);
}

#[test]
fn poll_interval_is_one_nominal_block() {
    assert_eq!(POLL_INTERVAL_SECS, 12);
}
