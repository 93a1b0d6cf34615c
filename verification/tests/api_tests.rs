use pevm_analyzer::api::{
    build_transaction_dag_response, choose_block_number, latest_analyzed_of, AppError,
    TransactionDagQuery,
};
use pevm_analyzer::store::{ParallelAnalyzerState, Transaction, TransactionDag};

fn s(x: &str) -> String {
    x.to_string()
}

fn row(index: i64, hash: &str, gas_price: &str) -> Transaction {
    Transaction {
        block_number: 12,
        tx_index: index,
        tx_hash: s(hash),
        tx_from: s("0xfrom"),
        tx_to: s("0xto"),
        gas_price: s(gas_price),
        max_fee_per_gas: s("2000"),
        max_priority_fee_per_gas: s("100"),
        max_fee_per_blob_gas: s("0"),
        gas: 21_000,
        tx_value: s("5"),
        input: s("0x"),
        nonce: 3,
        tx_type: 2,
    }
}

#[test]
fn queried_block_wins() {
    let query = TransactionDagQuery { block_number: Some(44) };
    assert_eq!(choose_block_number(&query, 1000), 44);
}

#[test]
fn default_block_is_ten_behind_tip() {
    let query = TransactionDagQuery { block_number: None };
    assert_eq!(choose_block_number(&query, 1000), 990);
}

#[test]
fn response_maps_rows_and_reuses_gas_price_column() {
    let transactions = vec![row(0, "0xt0", "1000"), row(1, "0xt1", "1500")];
    let dags = vec![TransactionDag { block_number: 12, source_tx: 1, target_tx: 0, dep_type: 0x1 }];
    let resp = build_transaction_dag_response(12, &transactions, &dags);
    assert_eq!(resp.block_number, 12);
    assert_eq!(resp.transactions.len(), 2);
    assert_eq!(resp.transactions[0].index, 0);
    assert_eq!(resp.transactions[0].tx_hash, s("0xt0"));
    assert_eq!(resp.transactions[0].tx_type, 2);
    // The wire field is named gas_used but carries the stored gas price.
    assert_eq!(resp.transactions[0].gas_used, s("1000"));
    assert_eq!(resp.transactions[1].gas_used, s("1500"));
    assert_eq!(resp.transactions[1].from, s("0xfrom"));
    assert_eq!(resp.transactions[1].to, s("0xto"));
    assert_eq!(resp.dags.len(), 1);
    assert_eq!(resp.dags[0].source, 1);
    assert_eq!(resp.dags[0].target, 0);
    assert_eq!(resp.dags[0].dep_type, 0x1);
}

#[test]
fn empty_rows_give_empty_response() {
    let resp = build_transaction_dag_response(3, &vec![], &vec![]);
    assert_eq!(resp.block_number, 3);
    assert!(resp.transactions.is_empty());
    assert!(resp.dags.is_empty());
}

#[test]
fn analyzer_state_endpoint_reads_cursor() {
    let state = ParallelAnalyzerState {
        latest_block: 120,
        chain_id: 1,
        start_block: 50,
        latest_analyzed_block: 99,
    };
    assert_eq!(latest_analyzed_of(&Some(state)), Ok(99));
}

#[test]
fn analyzer_state_endpoint_fails_without_cursor() {
    assert_eq!(latest_analyzed_of(&None), Err(AppError::Storage));
}

#[test]
fn error_messages_are_short_and_stable() {
    assert_eq!(AppError::Config.message(), "configuration error");
    assert_eq!(AppError::Storage.message(), "storage error");
    assert_eq!(AppError::Rpc.message(), "execution api error");
    assert_eq!(AppError::Logic.message(), "malformed block data");
}
