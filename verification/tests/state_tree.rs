use rand::RngCore;
use rand::SeedableRng;
use zoro::digest::combine;
use zoro::prove::vk_to_hex;
use zoro::prove::ProverParameters;
use zoro::requests::PendingDeposit;
use zoro::store::AccountMeta;
use zoro::store::LeafIndex;
use zoro::store::StateStore;
use zoro::store::WriteOp;
use zoro::witness::BatchKind;

fn cell(account: usize, token: usize) -> LeafIndex {
    LeafIndex { account, token }
}

#[test]
fn set_then_get_returns_value() {
    let mut store = StateStore::new();
    for (account, token, value) in [(0, 0, 7u64), (3, 2, 1000), (15, 3, u64::MAX)] {
        let old = store.set(&cell(account, token), value);
        assert_eq!(old, 0);
        assert_eq!(store.get(&cell(account, token)), value);
    }
    let old = store.set(&cell(3, 2), 5);
    assert_eq!(old, 1000);
    assert_eq!(store.get(&cell(3, 2)), 5);
}

#[test]
fn root_changes_when_leaf_changes() {
    let mut store = StateStore::new();
    let r0 = store.root();
    store.set(&cell(4, 1), 42);
    let r1 = store.root();
    assert_ne!(r0, r1);
    store.set(&cell(4, 1), 43);
    let r2 = store.root();
    assert_ne!(r1, r2);
}

#[test]
fn root_unchanged_when_value_rewritten() {
    let mut store = StateStore::new();
    store.set(&cell(9, 3), 17);
    let r1 = store.root();
    store.set(&cell(9, 3), 17);
    assert_eq!(store.root(), r1);
}

#[test]
fn equal_writes_give_equal_roots() {
    let mut a = StateStore::new();
    let mut b = StateStore::new();
    for (account, token, value) in [(1, 0, 10u64), (2, 3, 20), (1, 0, 30)] {
        a.set(&cell(account, token), value);
        b.set(&cell(account, token), value);
    }
    assert_eq!(a.root(), b.root());
}

#[test]
fn digest_matches_chacha_stream() {
    let (a, b, c, d) = (1u64, 2u64, 3u64, u64::MAX);
    let mut seed = [0u8; 32];
    seed[0..8].copy_from_slice(&a.to_le_bytes());
    seed[8..16].copy_from_slice(&b.to_le_bytes());
    seed[16..24].copy_from_slice(&c.to_le_bytes());
    seed[24..32].copy_from_slice(&d.to_le_bytes());
    let mut rng = rand_chacha::ChaCha20Rng::from_seed(seed);
    let expected = rng.next_u64();
    assert_eq!(combine(a, b, c, d), expected);
    assert_ne!(combine(a, b, c, d), combine(b, a, c, d));
}

#[test]
fn vk_fingerprint_matches_hex_encoding() {
    let params = ProverParameters::generate(BatchKind::Withdraw, 0xDEAD_BEEF);
    let vk = params.verifying_key();
    let mut bytes = Vec::new();
    bytes.extend_from_slice(&2u64.to_le_bytes());
    bytes.extend_from_slice(&0xDEAD_BEEFu64.to_le_bytes());
    assert_eq!(vk_to_hex(&vk), hex::encode(&bytes));
}

#[test]
fn mirror_buffers_and_exports_writes() {
    let mut store = StateStore::new();
    store.set(&cell(0, 0), 5);
    let before = store.root();
    let mut mirror = store.mirror();
    assert_eq!(mirror.root(), before);
    mirror.set(&cell(0, 0), 9);
    mirror.set_account(2, AccountMeta { used: true, key: 77, nonce: 0 });
    mirror.set(&cell(2, 1), 4);
    assert_eq!(mirror.get(&cell(0, 0)), 9);
    assert_eq!(store.get(&cell(0, 0)), 5);
    assert_eq!(store.root(), before);
    let ops = mirror.to_ops();
    assert_eq!(ops.len(), 3);
    assert_eq!(ops[0], WriteOp::Balance { account: 0, token: 0, value: 9 });
    assert_eq!(
        ops[1],
        WriteOp::Meta { account: 2, meta: AccountMeta { used: true, key: 77, nonce: 0 } }
    );
    assert_eq!(ops[2], WriteOp::Balance { account: 2, token: 1, value: 4 });
}

#[test]
fn deposit_binds_key_and_credits() {
    let mut store = StateStore::new();
    let mut mirror = store.mirror();
    let deposit = PendingDeposit {
        contract_id: 1,
        src: 900,
        nonce: 1,
        index: cell(5, 2),
        key: 1234,
        amount: 80,
    };
    let (accepted, witness) = zoro::witness::apply_deposit_batch(&mut mirror, &vec![deposit]);
    assert_eq!(accepted.len(), 1);
    assert_eq!(mirror.get(&cell(5, 2)), 80);
    assert_eq!(mirror.account(5).key, 1234);
    assert!(mirror.account(5).used);
    assert_eq!(witness.trace.len(), 1);
    assert_eq!(witness.trace[0].old_value, 0);
    assert_eq!(witness.trace[0].new_value, 80);
    assert_eq!(witness.trace[0].path.len(), 9);
    assert_eq!(witness.old_root, store.root());
    assert_eq!(witness.new_root, mirror.root());
}

#[test]
fn extract_delta_keeps_last_write_per_cell() {
    let ops = vec![
        WriteOp::Balance { account: 1, token: 0, value: 5 },
        WriteOp::Balance { account: 2, token: 2, value: 6 },
        WriteOp::Balance { account: 1, token: 0, value: 9 },
        WriteOp::Meta { account: 1, meta: AccountMeta { used: true, key: 3, nonce: 1 } },
        WriteOp::Meta { account: 1, meta: AccountMeta { used: true, key: 3, nonce: 2 } },
    ];
    let delta = zoro::store::extract_delta(&ops);
    assert_eq!(
        delta,
        vec![
            WriteOp::Balance { account: 2, token: 2, value: 6 },
            WriteOp::Balance { account: 1, token: 0, value: 9 },
            WriteOp::Meta { account: 1, meta: AccountMeta { used: true, key: 3, nonce: 2 } },
        ]
    );
    let mut full = StateStore::new();
    let mut compact = StateStore::new();
    for op in &ops {
        match *op {
            WriteOp::Balance { account, token, value } => {
                full.set(&cell(account, token), value);
            }
            WriteOp::Meta { account, meta } => full.set_account(account, meta),
        }
    }
    for op in &delta {
        match *op {
            WriteOp::Balance { account, token, value } => {
                compact.set(&cell(account, token), value);
            }
            WriteOp::Meta { account, meta } => compact.set_account(account, meta),
        }
    }
    assert_eq!(full.root(), compact.root());
}

#[test]
fn auth_path_verifies_leaf_against_root() {
    let mut store = StateStore::new();
    store.set(&cell(1, 2), 55);
    store.set(&cell(9, 0), 66);
    let root = store.root();
    let path = store.auth_path(&cell(1, 2));
    assert!(zoro::tree::verify_leaf(root, 6, 55, &path));
    assert!(!zoro::tree::verify_leaf(root, 6, 56, &path));
    let mut bad = path.clone();
    bad[0] ^= 1;
    assert!(!zoro::tree::verify_leaf(root, 6, 55, &bad));
}
