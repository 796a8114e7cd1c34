use zoro::prove::verify_proof;
use zoro::prove::ProveStep;
use zoro::prove::ProverParameters;
use zoro::prove::ProvingSession;
use zoro::requests::auth_tag;
use zoro::requests::PendingDeposit;
use zoro::requests::PendingTransfer;
use zoro::requests::PendingWithdraw;
use zoro::round::prepare_round;
use zoro::round::Pools;
use zoro::round::RoundError;
use zoro::round::RoundInFlight;
use zoro::round::RoundStep;
use zoro::store::AccountMeta;
use zoro::store::LeafIndex;
use zoro::store::StateStore;
use zoro::update::UpdateData;
use zoro::witness::BatchKind;
use zoro::witness::Witness;

const CONTRACT: u64 = 7;
const FEE_TOKEN: usize = 0;

fn cell(account: usize, token: usize) -> LeafIndex {
    LeafIndex { account, token }
}

fn params() -> (ProverParameters, ProverParameters, ProverParameters) {
    (
        ProverParameters::generate(BatchKind::Deposit, 11),
        ProverParameters::generate(BatchKind::Withdraw, 22),
        ProverParameters::generate(BatchKind::Transfer, 33),
    )
}

fn empty_pools() -> Pools {
    Pools { deposits: Vec::new(), withdraws: Vec::new(), transfers: Vec::new() }
}

fn run_to_done(mut round: RoundInFlight) -> RoundInFlight {
    loop {
        match round.step(false) {
            RoundStep::Done => return round,
            RoundStep::InProgress => {}
            RoundStep::Cancelled => panic!("round cancelled without a signal"),
        }
    }
}

fn transfer(nonce: u64, key: u64, amount: u64, fee: u64) -> PendingTransfer {
    let mut t = PendingTransfer {
        contract_id: CONTRACT,
        nonce,
        src: cell(1, 0),
        dst: cell(2, 0),
        dst_key: 999,
        fee_token: FEE_TOKEN,
        amount,
        fee,
        tag: 0,
    };
    t.tag = auth_tag(key, nonce, t.commitment());
    t
}

#[test]
fn empty_pool_round_is_pure_padding() {
    let store = StateStore::new();
    let (dp, wp, up) = params();
    let old_root = store.root();
    let round = prepare_round(&store, &empty_pools(), &dp, &wp, &up, CONTRACT, FEE_TOKEN)
        .expect("empty round must prepare");
    assert_eq!(round.old_root, old_root);
    assert_eq!(round.new_root, old_root);
    let (updates, ops, new_root) = run_to_done(round).finish();
    assert_eq!(new_root, old_root);
    assert!(ops.is_empty());
    assert_eq!(updates.len(), 3);
    match &updates[0].data {
        UpdateData::Deposits(v) => assert!(v.is_empty()),
        _ => panic!("first update must be the deposit batch"),
    }
}

#[test]
fn proof_round_trip_and_tampering() {
    let mut store = StateStore::new();
    store.set(&cell(1, 0), 500);
    store.set_account(1, AccountMeta { used: true, key: 42, nonce: 0 });
    let (dp, wp, up) = params();
    let pools = Pools {
        deposits: Vec::new(),
        withdraws: Vec::new(),
        transfers: vec![transfer(1, 42, 50, 5)],
    };
    let round = prepare_round(&store, &pools, &dp, &wp, &up, CONTRACT, FEE_TOKEN).unwrap();
    let old_root = round.old_root;
    let new_root = round.new_root;
    assert_ne!(old_root, new_root);
    let (updates, _ops, _root) = run_to_done(round).finish();
    let transfer_update = &updates[2];
    let vk = up.verifying_key();
    assert!(verify_proof(
        &vk,
        &transfer_update.proof,
        transfer_update.old_root,
        transfer_update.new_root,
    ));
    assert!(!verify_proof(
        &vk,
        &transfer_update.proof,
        transfer_update.old_root.wrapping_add(1),
        transfer_update.new_root,
    ));
    assert!(!verify_proof(
        &vk,
        &transfer_update.proof,
        transfer_update.old_root,
        transfer_update.new_root.wrapping_add(1),
    ));
    let other_vk = wp.verifying_key();
    assert!(!verify_proof(
        &other_vk,
        &transfer_update.proof,
        transfer_update.old_root,
        transfer_update.new_root,
    ));
}

#[test]
fn cancellation_before_first_checkpoint() {
    let (dp, _, _) = params();
    let witness = Witness { kind: BatchKind::Deposit, old_root: 1, new_root: 2, trace: Vec::new() };
    let mut session = ProvingSession::new(witness, &dp);
    match session.step(true) {
        ProveStep::Cancelled => {}
        _ => panic!("a raised signal must cancel the run before any checkpoint"),
    }
}

#[test]
fn cancellation_of_a_round_in_flight() {
    let store = StateStore::new();
    let (dp, wp, up) = params();
    let mut round =
        prepare_round(&store, &empty_pools(), &dp, &wp, &up, CONTRACT, FEE_TOKEN).unwrap();
    match round.step(true) {
        RoundStep::Cancelled => {}
        _ => panic!("a raised signal must cancel the round"),
    }
}

#[test]
fn fee_aggregation_sums_accepted_fees() {
    let mut store = StateStore::new();
    store.set(&cell(1, 0), 1000);
    store.set_account(1, AccountMeta { used: true, key: 42, nonce: 0 });
    let (dp, wp, up) = params();
    let pools = Pools {
        deposits: Vec::new(),
        withdraws: Vec::new(),
        transfers: vec![
            transfer(1, 42, 10, 10),
            transfer(2, 42, 10, 20),
            transfer(3, 42, 10, 30),
        ],
    };
    let round = prepare_round(&store, &pools, &dp, &wp, &up, CONTRACT, FEE_TOKEN).unwrap();
    let (updates, _ops, _root) = run_to_done(round).finish();
    match &updates[2].data {
        UpdateData::Transfers(v) => assert_eq!(v.len(), 3),
        _ => panic!("third update must be the transfer batch"),
    }
    assert_eq!(updates[2].fee, 60);
    assert_eq!(updates[0].fee, 0);
    assert_eq!(updates[1].fee, 0);
}

#[test]
fn fee_overflow_aborts_the_round() {
    let mut store = StateStore::new();
    store.set(&cell(1, 0), u64::MAX);
    store.set_account(1, AccountMeta { used: true, key: 42, nonce: 0 });
    store.set(&cell(3, 0), u64::MAX);
    store.set_account(3, AccountMeta { used: true, key: 43, nonce: 0 });
    let mut big = transfer(1, 42, 0, u64::MAX);
    big.tag = auth_tag(42, 1, big.commitment());
    let mut small = PendingTransfer {
        contract_id: CONTRACT,
        nonce: 1,
        src: cell(3, 0),
        dst: cell(2, 0),
        dst_key: 999,
        fee_token: FEE_TOKEN,
        amount: 0,
        fee: 1,
        tag: 0,
    };
    small.tag = auth_tag(43, 1, small.commitment());
    let (dp, wp, up) = params();
    let pools = Pools {
        deposits: Vec::new(),
        withdraws: Vec::new(),
        transfers: vec![big, small],
    };
    let r = prepare_round(&store, &pools, &dp, &wp, &up, CONTRACT, FEE_TOKEN);
    assert_eq!(r.err(), Some(RoundError::FeeOverflow));
}

#[test]
fn invalid_tag_and_missing_funds_skip_entries() {
    let mut store = StateStore::new();
    store.set(&cell(1, 0), 100);
    store.set_account(1, AccountMeta { used: true, key: 50, nonce: 0 });
    let mut mirror = store.mirror();
    let fingerprint = 777;
    let bad = PendingWithdraw {
        contract_id: CONTRACT,
        index: cell(1, 0),
        fee_token: FEE_TOKEN,
        fingerprint,
        nonce: 1,
        tag: 12345,
        amount: 10,
        fee: 1,
    };
    let good = PendingWithdraw { tag: auth_tag(50, 1, fingerprint), ..bad };
    let poor = PendingWithdraw {
        nonce: 2,
        amount: 1000,
        tag: auth_tag(50, 2, fingerprint),
        ..bad
    };
    let (accepted, _witness) =
        zoro::witness::apply_withdraw_batch(&mut mirror, &vec![bad, good, poor]);
    assert_eq!(accepted.len(), 1);
    assert_eq!(accepted[0].tag, good.tag);
    assert_eq!(mirror.get(&cell(1, 0)), 89);
    assert_eq!(mirror.account(1).nonce, 1);
}

#[test]
fn end_to_end_round() {
    let store = StateStore::new();
    let key = 42u64;
    let deposit = PendingDeposit {
        contract_id: CONTRACT,
        src: 5,
        nonce: 1,
        index: cell(1, 0),
        key,
        amount: 100,
    };
    let pools = Pools {
        deposits: vec![deposit],
        withdraws: Vec::new(),
        transfers: vec![transfer(1, key, 10, 1), transfer(2, key, 10, 1)],
    };
    let (dp, wp, up) = params();
    let old_root = store.root();
    let round = prepare_round(&store, &pools, &dp, &wp, &up, CONTRACT, FEE_TOKEN).unwrap();
    let (updates, ops, new_root) = run_to_done(round).finish();
    assert_ne!(new_root, old_root);
    assert_eq!(updates.len(), 3);
    match &updates[0].data {
        UpdateData::Deposits(v) => assert_eq!(v.len(), 1),
        _ => panic!("first update must be the deposit batch"),
    }
    match &updates[1].data {
        UpdateData::Withdraws(v) => assert_eq!(v.len(), 0),
        _ => panic!("second update must be the withdraw batch"),
    }
    match &updates[2].data {
        UpdateData::Transfers(v) => {
            assert_eq!(v.len(), 2);
            assert_eq!(v[0].nonce, 1);
            assert_eq!(v[1].nonce, 2);
        }
        _ => panic!("third update must be the transfer batch"),
    }
    for (u, vk) in updates.iter().zip([
        dp.verifying_key(),
        wp.verifying_key(),
        up.verifying_key(),
    ]) {
        assert!(verify_proof(&vk, &u.proof, u.old_root, u.new_root));
    }
    assert_eq!(updates[0].old_root, old_root);
    assert_eq!(updates[2].new_root, new_root);
    assert!(!ops.is_empty());
    // Replaying the exported delta on the snapshot reproduces the new root.
    let mut replay = StateStore::new();
    for op in &ops {
        match *op {
            zoro::store::WriteOp::Balance { account, token, value } => {
                replay.set(&cell(account, token), value);
            }
            zoro::store::WriteOp::Meta { account, meta } => {
                replay.set_account(account, meta);
            }
        }
    }
    assert_eq!(replay.root(), new_root);
}

#[test]
fn same_batch_on_equal_states_gives_equal_roots() {
    let mut a = StateStore::new();
    let mut b = StateStore::new();
    for s in [&mut a, &mut b] {
        s.set(&cell(1, 0), 500);
        s.set_account(1, AccountMeta { used: true, key: 42, nonce: 0 });
    }
    let batch = vec![transfer(1, 42, 50, 5), transfer(2, 42, 7, 3)];
    let mut ma = a.mirror();
    let mut mb = b.mirror();
    let (acc_a, wit_a) = zoro::witness::apply_transfer_batch(&mut ma, &batch);
    let (acc_b, wit_b) = zoro::witness::apply_transfer_batch(&mut mb, &batch);
    assert_eq!(acc_a, acc_b);
    assert_eq!(ma.root(), mb.root());
    assert_eq!(wit_a.new_root, wit_b.new_root);
}

#[test]
fn withdraw_with_separate_fee_token() {
    let mut store = StateStore::new();
    store.set(&cell(1, 0), 100);
    store.set(&cell(1, 1), 50);
    store.set_account(1, AccountMeta { used: true, key: 50, nonce: 0 });
    let mut mirror = store.mirror();
    let w = PendingWithdraw {
        contract_id: CONTRACT,
        index: cell(1, 0),
        fee_token: 1,
        fingerprint: 444,
        nonce: 1,
        tag: auth_tag(50, 1, 444),
        amount: 10,
        fee: 5,
    };
    let (accepted, witness) = zoro::witness::apply_withdraw_batch(&mut mirror, &vec![w]);
    assert_eq!(accepted.len(), 1);
    assert_eq!(mirror.get(&cell(1, 0)), 90);
    assert_eq!(mirror.get(&cell(1, 1)), 45);
    assert_eq!(mirror.account(1).nonce, 1);
    assert_eq!(witness.trace.len(), 2);
}

#[test]
fn transfer_between_aliasing_cells() {
    let mut store = StateStore::new();
    store.set(&cell(1, 0), 100);
    store.set(&cell(1, 1), 50);
    store.set_account(1, AccountMeta { used: true, key: 50, nonce: 0 });
    let mut mirror = store.mirror();
    // A self-transfer: the destination is the debited cell itself.
    let mut back = PendingTransfer {
        contract_id: CONTRACT,
        nonce: 1,
        src: cell(1, 0),
        dst: cell(1, 0),
        dst_key: 0,
        fee_token: FEE_TOKEN,
        amount: 10,
        fee: 1,
        tag: 0,
    };
    back.tag = auth_tag(50, 1, back.commitment());
    // A transfer whose destination is the sender's fee cell.
    let mut to_fee = PendingTransfer {
        contract_id: CONTRACT,
        nonce: 2,
        src: cell(1, 0),
        dst: cell(1, 1),
        dst_key: 0,
        fee_token: 1,
        amount: 10,
        fee: 5,
        tag: 0,
    };
    to_fee.tag = auth_tag(50, 2, to_fee.commitment());
    let (accepted, _witness) =
        zoro::witness::apply_transfer_batch(&mut mirror, &vec![back, to_fee]);
    assert_eq!(accepted.len(), 2);
    // 100 - (10 + 1) + 10 = 99, then - 10 for the second transfer.
    assert_eq!(mirror.get(&cell(1, 0)), 89);
    // 50 - 5 + 10 = 55.
    assert_eq!(mirror.get(&cell(1, 1)), 55);
    assert_eq!(mirror.account(1).nonce, 2);
}
