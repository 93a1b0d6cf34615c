use pevm_analyzer::state_set::{
    account_state_to_set, check_tx_dependency, AccountState, StateSet, TransactionStateSet,
};

fn s(x: &str) -> String {
    x.to_string()
}

fn ids(xs: &[&str]) -> Vec<String> {
    xs.iter().map(|x| x.to_string()).collect()
}

fn set(bal: &[&str], code: &[&str], sto: &[&str]) -> StateSet {
    StateSet { balance_set: ids(bal), code_set: ids(code), storage_set: ids(sto) }
}

fn tss(read: StateSet, write: StateSet) -> TransactionStateSet {
    TransactionStateSet { read_set: read, write_set: write }
}

#[test]
fn extractor_partitions_by_axis() {
    let entries = vec![
        AccountState {
            address: s("0xaaa"),
            balance: true,
            nonce: true,
            code: false,
            storage: ids(&["0x01", "0x02"]),
        },
        AccountState {
            address: s("0xbbb"),
            balance: false,
            nonce: false,
            code: true,
            storage: vec![],
        },
    ];
    let out = account_state_to_set(entries);
    assert!(out.balance_set.contains(&s("0xaaa")));
    assert!(!out.balance_set.contains(&s("0xbbb")));
    assert!(out.code_set.contains(&s("0xbbb")));
    assert!(!out.code_set.contains(&s("0xaaa")));
    assert!(out.storage_set.contains(&s("0x01")));
    assert!(out.storage_set.contains(&s("0x02")));
    assert_eq!(out.storage_set.len(), 2);
}

#[test]
fn extractor_ignores_pure_nonce_entries() {
    let entries = vec![AccountState {
        address: s("0xccc"),
        balance: false,
        nonce: true,
        code: false,
        storage: vec![],
    }];
    let out = account_state_to_set(entries);
    assert!(out.balance_set.is_empty());
    assert!(out.code_set.is_empty());
    assert!(out.storage_set.is_empty());
}

#[test]
fn extractor_empty_frame() {
    let out = account_state_to_set(vec![]);
    assert!(out.balance_set.is_empty());
    assert!(out.code_set.is_empty());
    assert!(out.storage_set.is_empty());
}

#[test]
fn mask_zero_when_disjoint() {
    let prev = tss(set(&[], &[], &[]), set(&["0xa"], &[], &[]));
    let cur = tss(set(&["0xb"], &[], &[]), set(&[], &[], &[]));
    assert_eq!(check_tx_dependency(&prev, &cur), 0);
}

#[test]
fn mask_balance_only() {
    let prev = tss(set(&[], &[], &[]), set(&["0xa"], &[], &[]));
    let cur = tss(set(&["0xa"], &[], &[]), set(&[], &[], &[]));
    assert_eq!(check_tx_dependency(&prev, &cur), 0x1);
}

#[test]
fn mask_code_only() {
    let prev = tss(set(&[], &[], &[]), set(&[], &["0xa"], &[]));
    let cur = tss(set(&[], &["0xa"], &[]), set(&[], &[], &[]));
    assert_eq!(check_tx_dependency(&prev, &cur), 0x10);
}

#[test]
fn mask_storage_only() {
    let prev = tss(set(&[], &[], &[]), set(&[], &[], &["0x5"]));
    let cur = tss(set(&[], &[], &["0x5"]), set(&[], &[], &[]));
    assert_eq!(check_tx_dependency(&prev, &cur), 0x100);
}

#[test]
fn mask_all_axes() {
    let prev = tss(set(&[], &[], &[]), set(&["0xa"], &["0xa"], &["0x5"]));
    let cur = tss(set(&["0xa"], &["0xa"], &["0x5"]), set(&[], &[], &[]));
    assert_eq!(check_tx_dependency(&prev, &cur), 0x111);
}

#[test]
fn mask_reads_of_earlier_reads_do_not_count() {
    // Both transactions only read the same address: no write, no edge.
    let prev = tss(set(&["0xa"], &[], &[]), set(&[], &[], &[]));
    let cur = tss(set(&["0xa"], &[], &[]), set(&[], &[], &[]));
    assert_eq!(check_tx_dependency(&prev, &cur), 0);
}
