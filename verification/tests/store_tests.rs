use pevm_analyzer::store::{
    Block, ParallelAnalyzerState, Store, Transaction, TransactionDag,
};

fn s(x: &str) -> String {
    x.to_string()
}

fn block(number: i64, hash: &str) -> Block {
    Block {
        parent_hash: s("0xparent"),
        block_hash: s(hash),
        block_number: number,
        gas_used: 21000,
        gas_limit: 30_000_000,
        block_timestamp: 1_700_000_000,
        base_fee_per_gas: 7,
        blob_gas_used: 0,
        excess_blob_gas: 0,
    }
}

fn tx(block_number: i64, index: i64, hash: &str) -> Transaction {
    Transaction {
        block_number,
        tx_index: index,
        tx_hash: s(hash),
        tx_from: s("0xfrom"),
        tx_to: s("0xto"),
        gas_price: s("1000"),
        max_fee_per_gas: s("2000"),
        max_priority_fee_per_gas: s("100"),
        max_fee_per_blob_gas: s("0"),
        gas: 21000,
        tx_value: s("0"),
        input: s("0x"),
        nonce: 0,
        tx_type: 2,
    }
}

fn dag(block_number: i64, source: i64, target: i64, mask: i16) -> TransactionDag {
    TransactionDag { block_number, source_tx: source, target_tx: target, dep_type: mask }
}

#[test]
fn insert_block_idempotent_on_hash() {
    let mut store = Store::new();
    store.insert_block(&block(1, "0xh1"));
    // Same hash, different number: the conflict keeps the first row.
    store.insert_block(&block(2, "0xh1"));
    let by_hash = store.get_block_by_hash(&s("0xh1")).expect("row exists");
    assert_eq!(by_hash.block_number, 1);
    assert!(store.get_block_by_number(2).is_none());
}

#[test]
fn get_block_by_number_finds_row() {
    let mut store = Store::new();
    store.insert_block(&block(5, "0xh5"));
    store.insert_block(&block(6, "0xh6"));
    let found = store.get_block_by_number(6).expect("row exists");
    assert_eq!(found.block_hash, s("0xh6"));
    assert!(store.get_block_by_number(7).is_none());
}

#[test]
fn insert_transaction_idempotent_on_hash() {
    let mut store = Store::new();
    store.insert_transaction(&tx(1, 0, "0xt1"));
    let mut changed = tx(1, 0, "0xt1");
    changed.gas_price = s("9999");
    store.insert_transaction(&changed);
    let rows = store.get_transactions_by_block_number(1);
    assert_eq!(rows.len(), 1);
    assert_eq!(rows[0].gas_price, s("1000"));
}

#[test]
fn get_transaction_by_hash_finds_row() {
    let mut store = Store::new();
    store.insert_transaction(&tx(1, 0, "0xt1"));
    store.insert_transaction(&tx(1, 1, "0xt2"));
    let found = store.get_transaction_by_hash(&s("0xt2")).expect("row exists");
    assert_eq!(found.tx_index, 1);
    assert!(store.get_transaction_by_hash(&s("0xt3")).is_none());
}

#[test]
fn transactions_filtered_by_block() {
    let mut store = Store::new();
    store.insert_transaction(&tx(1, 0, "0xa"));
    store.insert_transaction(&tx(2, 0, "0xb"));
    store.insert_transaction(&tx(1, 1, "0xc"));
    let rows = store.get_transactions_by_block_number(1);
    assert_eq!(rows.len(), 2);
    assert_eq!(rows[0].tx_hash, s("0xa"));
    assert_eq!(rows[1].tx_hash, s("0xc"));
}

#[test]
fn dags_inserted_fetched_and_deleted_by_block() {
    let mut store = Store::new();
    store.insert_transaction_dag(&dag(1, 1, 0, 0x1));
    store.insert_transaction_dag(&dag(2, 1, 0, 0x10));
    store.insert_transaction_dag(&dag(1, 2, 1, 0x100));
    let rows = store.get_transaction_dags_by_block_number(1);
    assert_eq!(rows, vec![dag(1, 1, 0, 0x1), dag(1, 2, 1, 0x100)]);
    store.delete_transaction_dags_by_block_number(1);
    assert!(store.get_transaction_dags_by_block_number(1).is_empty());
    assert_eq!(store.get_transaction_dags_by_block_number(2), vec![dag(2, 1, 0, 0x10)]);
}

#[test]
fn delete_dags_of_absent_block_succeeds() {
    let mut store = Store::new();
    store.delete_transaction_dags_by_block_number(42);
    assert!(store.get_transaction_dags_by_block_number(42).is_empty());
}

#[test]
fn cursor_insert_idempotent_on_chain_id() {
    let mut store = Store::new();
    let first = ParallelAnalyzerState {
        latest_block: 0,
        chain_id: 1,
        start_block: 10,
        latest_analyzed_block: 9,
    };
    store.insert_parallel_analyzer_state(&first);
    let second = ParallelAnalyzerState {
        latest_block: 5,
        chain_id: 1,
        start_block: 20,
        latest_analyzed_block: 19,
    };
    store.insert_parallel_analyzer_state(&second);
    let got = store.get_parallel_analyzer_state_by_chainid(1).expect("row exists");
    assert_eq!(got, first);
}

#[test]
fn cursor_update_rewrites_fields() {
    let mut store = Store::new();
    store.insert_parallel_analyzer_state(&ParallelAnalyzerState {
        latest_block: 0,
        chain_id: 7,
        start_block: 10,
        latest_analyzed_block: 9,
    });
    store.update_parallel_analyzer_state_by_chainid(&ParallelAnalyzerState {
        latest_block: 120,
        chain_id: 7,
        start_block: 10,
        latest_analyzed_block: 100,
    });
    let got = store.get_parallel_analyzer_state_by_chainid(7).expect("row exists");
    assert_eq!(got.latest_block, 120);
    assert_eq!(got.latest_analyzed_block, 100);
    assert_eq!(got.start_block, 10);
    assert!(store.get_parallel_analyzer_state_by_chainid(8).is_none());
}
