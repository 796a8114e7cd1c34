use zoro::assembler::assemble_deposits;
use zoro::assembler::assemble_transfers;
use zoro::store::LeafIndex;
use zoro::requests::PendingDeposit;
use zoro::requests::PendingTransfer;

const CONTRACT: u64 = 7;

fn deposit(src: u64, nonce: u64) -> PendingDeposit {
    PendingDeposit {
        contract_id: CONTRACT,
        src,
        nonce,
        index: LeafIndex { account: 1, token: 0 },
        key: 5,
        amount: 10,
    }
}

#[test]
fn nonce_gap_defers_entries() {
    let pool = vec![deposit(9, 1), deposit(9, 2), deposit(9, 4), deposit(9, 5)];
    let taken = assemble_deposits(&pool, CONTRACT);
    let nonces: Vec<u64> = taken.iter().map(|d| d.nonce).collect();
    assert_eq!(nonces, vec![1, 2]);
}

#[test]
fn first_entry_of_a_sender_is_baseline() {
    let pool = vec![deposit(9, 3), deposit(9, 4), deposit(9, 6)];
    let taken = assemble_deposits(&pool, CONTRACT);
    let nonces: Vec<u64> = taken.iter().map(|d| d.nonce).collect();
    assert_eq!(nonces, vec![3, 4]);
}

#[test]
fn duplicate_nonce_after_accepted_entry_is_skipped() {
    let pool = vec![deposit(9, 1), deposit(9, 1), deposit(9, 2)];
    let taken = assemble_deposits(&pool, CONTRACT);
    let nonces: Vec<u64> = taken.iter().map(|d| d.nonce).collect();
    assert_eq!(nonces, vec![1, 2]);
}

#[test]
fn requests_for_other_contracts_are_ignored() {
    let mut other = deposit(9, 1);
    other.contract_id = CONTRACT + 1;
    let pool = vec![other, deposit(8, 1)];
    let taken = assemble_deposits(&pool, CONTRACT);
    assert_eq!(taken.len(), 1);
    assert_eq!(taken[0].src, 8);
}

#[test]
fn admission_stops_at_batch_capacity() {
    let pool: Vec<PendingDeposit> = (0..6).map(|s| deposit(100 + s, 1)).collect();
    let taken = assemble_deposits(&pool, CONTRACT);
    assert_eq!(taken.len(), 4);
    let srcs: Vec<u64> = taken.iter().map(|d| d.src).collect();
    assert_eq!(srcs, vec![100, 101, 102, 103]);
}

#[test]
fn sort_is_stable_for_equal_nonces() {
    let pool = vec![deposit(30, 2), deposit(10, 1), deposit(20, 1), deposit(40, 1)];
    let taken = assemble_deposits(&pool, CONTRACT);
    let srcs: Vec<u64> = taken.iter().map(|d| d.src).collect();
    assert_eq!(srcs, vec![10, 20, 40, 30]);
}

#[test]
fn transfers_with_other_fee_tokens_are_deferred() {
    let mk = |fee_token: usize, nonce: u64| PendingTransfer {
        contract_id: CONTRACT,
        nonce,
        src: LeafIndex { account: 2, token: 0 },
        dst: LeafIndex { account: 3, token: 0 },
        dst_key: 1,
        fee_token,
        amount: 1,
        fee: 1,
        tag: 0,
    };
    let pool = vec![mk(0, 1), mk(1, 2), mk(0, 2)];
    let taken = assemble_transfers(&pool, CONTRACT, 0);
    assert_eq!(taken.len(), 2);
    assert_eq!(taken[0].nonce, 1);
    assert_eq!(taken[1].nonce, 2);
    assert!(taken.iter().all(|t| t.fee_token == 0));
}
