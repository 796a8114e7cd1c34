//! Authenticated state store and its per-round buffered mirror.
//!
//! A `StateStore` holds the durable snapshot a round starts from: the balance
//! tree plus the per-account slot metadata (bound key and slot nonce).  A
//! `Mirror` is a round-private copy that buffers every write as an ordered
//! `WriteOp`; its invariant keeps the mirrored state equal to the snapshot
//! with the buffered writes replayed, so the write log can be exported as the
//! round's delta (on success) or simply dropped (on abort or cancellation).

use vstd::prelude::*;
use crate::tree::StateTree;
use crate::tree::path_of;
use crate::tree::root_of;
use crate::ACCOUNT_COUNT;
use crate::TOKEN_COUNT;

verus! {

/// Slot metadata of one account: whether the slot was ever bound, the public
/// key it is bound to, and the last accepted slot nonce.
#[derive(Clone, Copy, PartialEq, Eq, Structural, Debug)]
pub struct AccountMeta {
    pub used: bool,
    pub key: u64,
    pub nonce: u64,
}

/// Address of one balance cell: an account of the account tree and a token
/// slot of that account's token tree.
#[derive(Clone, Copy, PartialEq, Eq, Structural, Debug)]
pub struct LeafIndex {
    pub account: usize,
    pub token: usize,
}

impl LeafIndex {
    /// Both coordinates in range.
    pub open spec fn wf(self) -> bool {
        self.account < 16 && self.token < 4
    }

    /// Position of this cell among the 64 balance leaves.
    pub open spec fn flat(self) -> int {
        self.account * 4 + self.token
    }

    /// Computes `flat`.
    pub fn flat_index(&self) -> (x: usize)
        requires
            self.wf(),
        ensures
            x == self.flat(),
            x < 64,
    {
        self.account * TOKEN_COUNT + self.token
    }
}

/// Mathematical model of the full ledger state.
pub struct StateModel {
    pub bals: Seq<u64>,
    pub accs: Seq<AccountMeta>,
}

impl StateModel {
    /// The model has exactly the configured shape.
    pub open spec fn wf(self) -> bool {
        self.bals.len() == 64 && self.accs.len() == 16
    }

    /// Root digest of the modelled balances.
    pub open spec fn root(self) -> u64 {
        root_of(self.bals)
    }
}

/// One buffered mutation of the mirrored state, in application order.
#[derive(Clone, Copy, PartialEq, Eq, Structural, Debug)]
pub enum WriteOp {
    /// Store `value` at the balance cell `(account, token)`.
    Balance { account: usize, token: usize, value: u64 },
    /// Replace the slot metadata of `account`.
    Meta { account: usize, meta: AccountMeta },
}

impl WriteOp {
    /// The op addresses a cell of the configured shape.
    pub open spec fn wf(self) -> bool {
        match self {
            WriteOp::Balance { account, token, value } => account < 16 && token < 4,
            WriteOp::Meta { account, meta } => account < 16,
        }
    }
}

/// Effect of one buffered write on the model.
pub open spec fn apply_op(m: StateModel, op: WriteOp) -> StateModel {
    match op {
        WriteOp::Balance { account, token, value } => StateModel {
            bals: m.bals.update(account * 4 + token, value),
            accs: m.accs,
        },
        WriteOp::Meta { account, meta } => StateModel {
            bals: m.bals,
            accs: m.accs.update(account as int, meta),
        },
    }
}

/// Effect of the first `i` buffered writes, applied in order.
pub open spec fn apply_ops(m: StateModel, ops: Seq<WriteOp>, i: int) -> StateModel
    decreases i,
{
    if i <= 0 {
        m
    } else {
        apply_op(apply_ops(m, ops, i - 1), ops[i - 1])
    }
}

/// The durable snapshot of the ledger a round starts from.
pub struct StateStore {
    tree: StateTree,
    accounts: Vec<AccountMeta>,
}

impl View for StateStore {
    type V = StateModel;

    closed spec fn view(&self) -> StateModel {
        StateModel { bals: self.tree@, accs: self.accounts@ }
    }
}

impl StateStore {
    /// The balance tree digests are consistent and the shape is as configured.
    pub closed spec fn wf(self) -> bool {
        self.tree.wf() && self.tree@.len() == 64 && self.accounts@.len() == 16
    }

    /// The empty ledger: all balances zero, no slot bound.
    pub fn new() -> (s: StateStore)
        ensures
            s.wf(),
            s@.wf(),
            s@.bals == Seq::new(64, |i: int| 0u64),
            s@.accs == Seq::new(16, |i: int| AccountMeta { used: false, key: 0, nonce: 0 }),
    {
        let tree = StateTree::new();
        let mut accounts: Vec<AccountMeta> = Vec::new();
        let mut k: usize = 0;
        while k < ACCOUNT_COUNT
            invariant
                k <= 16,
                accounts@.len() == k,
                forall|j: int|
                    0 <= j < k ==> accounts@[j] == (AccountMeta {
                        used: false,
                        key: 0,
                        nonce: 0,
                    }),
            decreases 16 - k,
        {
            accounts.push(AccountMeta { used: false, key: 0, nonce: 0 });
            k = k + 1;
        }
        proof {
            assert(accounts@ =~= Seq::new(
                16,
                |i: int| AccountMeta { used: false, key: 0, nonce: 0 },
            ));
        }
        StateStore { tree, accounts }
    }

    /// Balance of one cell; zero when nothing was ever stored there.
    pub fn get(&self, index: &LeafIndex) -> (v: u64)
        requires
            self.wf(),
            index.wf(),
        ensures
            v == self@.bals[index.flat()],
    {
        self.tree.get(index.flat_index())
    }

    /// Stores a balance, returns the old one, and refreshes the root.
    pub fn set(&mut self, index: &LeafIndex, value: u64) -> (old_v: u64)
        requires
            old(self).wf(),
            index.wf(),
        ensures
            final(self).wf(),
            final(self)@.bals == old(self)@.bals.update(index.flat(), value),
            final(self)@.accs == old(self)@.accs,
            old_v == old(self)@.bals[index.flat()],
    {
        self.tree.set(index.flat_index(), value)
    }

    /// Slot metadata of one account.
    pub fn account(&self, account: usize) -> (m: AccountMeta)
        requires
            self.wf(),
            account < 16,
        ensures
            m == self@.accs[account as int],
    {
        self.accounts[account]
    }

    /// Replaces the slot metadata of one account.
    pub fn set_account(&mut self, account: usize, meta: AccountMeta)
        requires
            old(self).wf(),
            account < 16,
        ensures
            final(self).wf(),
            final(self)@.bals == old(self)@.bals,
            final(self)@.accs == old(self)@.accs.update(account as int, meta),
    {
        self.accounts.set(account, meta);
    }

    /// Current root digest.
    pub fn root(&self) -> (r: u64)
        requires
            self.wf(),
        ensures
            r == self@.root(),
    {
        self.tree.root()
    }

    /// Authentication path of one balance cell.
    pub fn auth_path(&self, index: &LeafIndex) -> (path: Vec<u64>)
        requires
            self.wf(),
            index.wf(),
        ensures
            path@ == path_of(self@.bals, index.flat()),
            path@.len() == 9,
    {
        self.tree.auth_path(index.flat_index())
    }

    /// Opens a round-private buffered view of this snapshot.
    pub fn mirror(&self) -> (m: Mirror)
        requires
            self.wf(),
        ensures
            m.wf(),
            m@ == self@,
            m.base() == self@,
            m.ops() == Seq::<WriteOp>::empty(),
    {
        let tree = self.tree.duplicate();
        let mut accounts: Vec<AccountMeta> = Vec::new();
        let mut k: usize = 0;
        while k < ACCOUNT_COUNT
            invariant
                k <= 16,
                self.wf(),
                accounts@ == self.accounts@.take(k as int),
            decreases 16 - k,
        {
            accounts.push(self.accounts[k]);
            k = k + 1;
        }
        proof {
            assert(accounts@ =~= self.accounts@);
        }
        Mirror {
            store: StateStore { tree, accounts },
            log: Vec::new(),
            base: Ghost(self@),
        }
    }
}

/// Round-private buffered view: the mirrored state plus the ordered write log
/// that produced it from the backing snapshot.
pub struct Mirror {
    store: StateStore,
    log: Vec<WriteOp>,
    base: Ghost<StateModel>,
}

impl View for Mirror {
    type V = StateModel;

    closed spec fn view(&self) -> StateModel {
        self.store@
    }
}

impl Mirror {
    /// The snapshot this mirror separates its writes from.
    pub closed spec fn base(self) -> StateModel {
        self.base@
    }

    /// The buffered writes, in application order.
    pub closed spec fn ops(self) -> Seq<WriteOp> {
        self.log@
    }

    /// The mirrored state equals the snapshot with the log replayed.
    pub closed spec fn wf(self) -> bool {
        &&& self.store.wf()
        &&& self.base@.wf()
        &&& self.store@ == apply_ops(self.base@, self.log@, self.log@.len() as int)
        &&& forall|j: int| 0 <= j < self.log@.len() ==> (#[trigger] self.log@[j]).wf()
    }

    /// The mirrored state has the configured shape.
    pub proof fn lemma_wf_model(self)
        requires
            self.wf(),
        ensures
            self@.wf(),
            self@ == apply_ops(self.base(), self.ops(), self.ops().len() as int),
    {
        lemma_apply_ops_wf(self.base@, self.log@, self.log@.len() as int);
    }

    /// Balance of one cell, as buffered.
    pub fn get(&self, index: &LeafIndex) -> (v: u64)
        requires
            self.wf(),
            index.wf(),
        ensures
            v == self@.bals[index.flat()],
    {
        self.store.get(index)
    }

    /// Buffers a balance write and returns the old value.
    pub fn set(&mut self, index: &LeafIndex, value: u64) -> (old_v: u64)
        requires
            old(self).wf(),
            index.wf(),
        ensures
            final(self).wf(),
            final(self)@.bals == old(self)@.bals.update(index.flat(), value),
            final(self)@.accs == old(self)@.accs,
            old_v == old(self)@.bals[index.flat()],
            final(self).base() == old(self).base(),
            final(self).ops() == old(self).ops().push(
                WriteOp::Balance { account: index.account, token: index.token, value },
            ),
    {
        let old_v = self.store.set(index, value);
        let op = WriteOp::Balance { account: index.account, token: index.token, value };
        self.log.push(op);
        proof {
            lemma_apply_ops_push(self.base@, old(self).log@, op, old(self).log@.len() as int);
        }
        old_v
    }

    /// Slot metadata of one account, as buffered.
    pub fn account(&self, account: usize) -> (m: AccountMeta)
        requires
            self.wf(),
            account < 16,
        ensures
            m == self@.accs[account as int],
    {
        self.store.account(account)
    }

    /// Buffers a slot-metadata write.
    pub fn set_account(&mut self, account: usize, meta: AccountMeta)
        requires
            old(self).wf(),
            account < 16,
        ensures
            final(self).wf(),
            final(self)@.bals == old(self)@.bals,
            final(self)@.accs == old(self)@.accs.update(account as int, meta),
            final(self).base() == old(self).base(),
            final(self).ops() == old(self).ops().push(WriteOp::Meta { account, meta }),
    {
        self.store.set_account(account, meta);
        let op = WriteOp::Meta { account, meta };
        self.log.push(op);
        proof {
            lemma_apply_ops_push(self.base@, old(self).log@, op, old(self).log@.len() as int);
        }
    }

    /// Current root digest of the mirrored state.
    pub fn root(&self) -> (r: u64)
        requires
            self.wf(),
        ensures
            r == self@.root(),
    {
        self.store.root()
    }

    /// Authentication path of one cell against the mirrored state.
    pub fn auth_path(&self, index: &LeafIndex) -> (path: Vec<u64>)
        requires
            self.wf(),
            index.wf(),
        ensures
            path@ == path_of(self@.bals, index.flat()),
            path@.len() == 9,
    {
        self.store.auth_path(index)
    }

    /// Exports the accumulated writes, consuming the mirror.
    pub fn to_ops(self) -> (ops: Vec<WriteOp>)
        requires
            self.wf(),
        ensures
            ops@ == self.ops(),
            self@ == apply_ops(self.base(), ops@, ops@.len() as int),
    {
        self.log
    }
}

/// The two writes address the same cell.
pub open spec fn same_target(a: WriteOp, b: WriteOp) -> bool {
    match (a, b) {
        (
            WriteOp::Balance { account: a1, token: t1, value: v1 },
            WriteOp::Balance { account: a2, token: t2, value: v2 },
        ) => a1 == a2 && t1 == t2,
        (WriteOp::Meta { account: a1, meta: m1 }, WriteOp::Meta { account: a2, meta: m2 }) => a1
            == a2,
        _ => false,
    }
}

/// Computes `same_target`.
fn targets_match(a: &WriteOp, b: &WriteOp) -> (r: bool)
    ensures
        r == same_target(*a, *b),
{
    match (a, b) {
        (
            WriteOp::Balance { account: a1, token: t1, value: _ },
            WriteOp::Balance { account: a2, token: t2, value: _ },
        ) => a1 == a2 && t1 == t2,
        (WriteOp::Meta { account: a1, meta: _ }, WriteOp::Meta { account: a2, meta: _ }) => a1
            == a2,
        _ => false,
    }
}

/// The two models agree everywhere except possibly at the cell `t` writes.
pub open spec fn agree_except(s1: StateModel, s2: StateModel, t: WriteOp) -> bool {
    &&& s1.bals.len() == s2.bals.len()
    &&& s1.accs.len() == s2.accs.len()
    &&& match t {
        WriteOp::Balance { account, token, value } => {
            &&& s1.accs == s2.accs
            &&& forall|j: int|
                0 <= j < s1.bals.len() && j != account * 4 + token ==> s1.bals[j] == s2.bals[j]
        },
        WriteOp::Meta { account, meta } => {
            &&& s1.bals == s2.bals
            &&& forall|j: int|
                0 <= j < s1.accs.len() && j != account ==> s1.accs[j] == s2.accs[j]
        },
    }
}

/// One write keeps the agreement, and a write to the differing cell restores
/// full equality.
proof fn lemma_agree_except_step(s1: StateModel, s2: StateModel, t: WriteOp, op: WriteOp)
    requires
        agree_except(s1, s2, t),
        s1.wf(),
        s2.wf(),
        op.wf(),
    ensures
        agree_except(apply_op(s1, op), apply_op(s2, op), t),
        same_target(op, t) ==> apply_op(s1, op) == apply_op(s2, op),
{
    if same_target(op, t) {
        assert(apply_op(s1, op).bals =~= apply_op(s2, op).bals);
        assert(apply_op(s1, op).accs =~= apply_op(s2, op).accs);
    }
}

/// A sequence of writes keeps the agreement.
proof fn lemma_agree_except_seq(s1: StateModel, s2: StateModel, t: WriteOp, b: Seq<WriteOp>, i: int)
    requires
        agree_except(s1, s2, t),
        s1.wf(),
        s2.wf(),
        0 <= i <= b.len(),
        forall|k: int| 0 <= k < b.len() ==> (#[trigger] b[k]).wf(),
    ensures
        agree_except(apply_ops(s1, b, i), apply_ops(s2, b, i), t),
    decreases i,
{
    if i > 0 {
        lemma_agree_except_seq(s1, s2, t, b, i - 1);
        lemma_apply_ops_wf(s1, b, i - 1);
        lemma_apply_ops_wf(s2, b, i - 1);
        lemma_agree_except_step(apply_ops(s1, b, i - 1), apply_ops(s2, b, i - 1), t, b[i - 1]);
    }
}

/// Two op sequences with equal first `i` entries replay equally.
proof fn lemma_apply_ops_prefix(m: StateModel, s1: Seq<WriteOp>, s2: Seq<WriteOp>, i: int)
    requires
        0 <= i <= s1.len(),
        i <= s2.len(),
        forall|k: int| 0 <= k < i ==> s1[k] == s2[k],
    ensures
        apply_ops(m, s1, i) == apply_ops(m, s2, i),
    decreases i,
{
    if i > 0 {
        lemma_apply_ops_prefix(m, s1, s2, i - 1);
    }
}

/// Replaying a concatenation is replaying the parts in turn.
proof fn lemma_apply_ops_concat(m: StateModel, a: Seq<WriteOp>, b: Seq<WriteOp>)
    ensures
        apply_ops(m, a + b, (a.len() + b.len()) as int) == apply_ops(
            apply_ops(m, a, a.len() as int),
            b,
            b.len() as int,
        ),
    decreases b.len(),
{
    if b.len() == 0 {
        assert(a + b =~= a);
        lemma_apply_ops_prefix(m, a + b, a, a.len() as int);
    } else {
        let b0 = b.drop_last();
        lemma_apply_ops_concat(m, a, b0);
        assert(forall|k: int| 0 <= k < a.len() + b.len() - 1 ==> (a + b0)[k] == (a + b)[k]);
        lemma_apply_ops_prefix(m, a + b0, a + b, (a.len() + b.len() - 1) as int);
        lemma_apply_ops_prefix(
            apply_ops(m, a, a.len() as int),
            b0,
            b,
            (b.len() - 1) as int,
        );
        assert((a + b)[(a.len() + b.len() - 1) as int] == b.last());
        assert(apply_ops(m, a + b, (a.len() + b.len()) as int) == apply_op(
            apply_ops(m, a + b, (a.len() + b.len() - 1) as int),
            b.last(),
        ));
    }
}

/// A write overwritten later by a write to the same cell can be elided: the
/// replays end equal once the later write lands.
proof fn lemma_elide_overwritten(
    m: StateModel,
    a: Seq<WriteOp>,
    w: WriteOp,
    b: Seq<WriteOp>,
    op: WriteOp,
)
    requires
        m.wf(),
        w.wf(),
        op.wf(),
        same_target(w, op),
        forall|k: int| 0 <= k < a.len() ==> (#[trigger] a[k]).wf(),
        forall|k: int| 0 <= k < b.len() ==> (#[trigger] b[k]).wf(),
    ensures
        apply_op(apply_ops(m, a + seq![w] + b, (a.len() + 1 + b.len()) as int), op) == apply_op(
            apply_ops(m, a + b, (a.len() + b.len()) as int),
            op,
        ),
{
    let base = apply_ops(m, a, a.len() as int);
    lemma_apply_ops_wf(m, a, a.len() as int);
    assert((a + seq![w]) + b =~= a + seq![w] + b);
    lemma_apply_ops_concat(m, a + seq![w], b);
    lemma_apply_ops_concat(m, a, seq![w]);
    assert(seq![w][0] == w);
    assert(apply_ops(base, seq![w], 1) == apply_op(apply_ops(base, seq![w], 0), w));
    lemma_apply_ops_concat(m, a, b);
    let s1 = apply_op(base, w);
    assert(s1.wf());
    assert(agree_except(s1, base, w));
    lemma_agree_except_seq(s1, base, w, b, b.len() as int);
    lemma_apply_ops_wf(s1, b, b.len() as int);
    lemma_apply_ops_wf(base, b, b.len() as int);
    assert(same_target(op, w));
    lemma_agree_except_step(
        apply_ops(s1, b, b.len() as int),
        apply_ops(base, b, b.len() as int),
        w,
        op,
    );
    assert(apply_ops(m, (a + seq![w]) + b, (a.len() + 1 + b.len()) as int) == apply_ops(
        s1,
        b,
        b.len() as int,
    ));
    lemma_apply_ops_prefix(
        m,
        a + seq![w] + b,
        (a + seq![w]) + b,
        (a.len() + 1 + b.len()) as int,
    );
}

/// Compacts a round's write log to one write per cell, keeping the last
/// value written to each: the delta replays to the same state as the full
/// log, from any snapshot of the configured shape.
pub fn extract_delta(ops: &Vec<WriteOp>) -> (delta: Vec<WriteOp>)
    requires
        forall|k: int| 0 <= k < ops@.len() ==> (#[trigger] ops@[k]).wf(),
    ensures
        forall|m: StateModel| #[trigger]
            m.wf() ==> apply_ops(m, delta@, delta@.len() as int) == apply_ops(
                m,
                ops@,
                ops@.len() as int,
            ),
        forall|p: int, q: int|
            0 <= p < q < delta@.len() ==> !same_target(delta@[p], delta@[q]),
        forall|k: int| 0 <= k < delta@.len() ==> (#[trigger] delta@[k]).wf(),
        delta@.len() <= ops@.len(),
{
    let mut delta: Vec<WriteOp> = Vec::new();
    let mut i: usize = 0;
    while i < ops.len()
        invariant
            i <= ops@.len(),
            forall|k: int| 0 <= k < ops@.len() ==> (#[trigger] ops@[k]).wf(),
            forall|k: int| 0 <= k < delta@.len() ==> (#[trigger] delta@[k]).wf(),
            forall|p: int, q: int|
                0 <= p < q < delta@.len() ==> !same_target(delta@[p], delta@[q]),
            delta@.len() <= i,
            forall|m: StateModel| #[trigger]
                m.wf() ==> apply_ops(m, delta@, delta@.len() as int) == apply_ops(
                    m,
                    ops@,
                    i as int,
                ),
        decreases ops@.len() - i,
    {
        let op = ops[i];
        let ghost delta0 = delta@;
        let mut j: usize = 0;
        while j < delta.len() && !targets_match(&delta[j], &op)
            invariant
                j <= delta@.len(),
                delta@ == delta0,
                forall|k: int| 0 <= k < j ==> !same_target(delta0[k], op),
            decreases delta@.len() - j,
        {
            j = j + 1;
        }
        if j < delta.len() {
            let w = delta.remove(j);
            delta.push(op);
            proof {
                let a = delta0.subrange(0, j as int);
                let b = delta0.subrange(j + 1, delta0.len() as int);
                assert(delta0 =~= a + seq![w] + b);
                assert(delta@ =~= (a + b).push(op));
                assert forall|m: StateModel| #[trigger]
                    m.wf() implies apply_ops(m, delta@, delta@.len() as int) == apply_ops(
                    m,
                    ops@,
                    i as int + 1,
                ) by {
                    lemma_apply_ops_prefix(m, (a + b).push(op), a + b, (a + b).len() as int);
                    lemma_elide_overwritten(m, a, w, b, op);
                    assert(apply_ops(m, delta0, delta0.len() as int) == apply_ops(
                        m,
                        ops@,
                        i as int,
                    ));
                }
                assert forall|p: int, q: int|
                    0 <= p < q < delta@.len() implies !same_target(delta@[p], delta@[q]) by {
                    if q == delta@.len() - 1 {
                        let x = delta@[p];
                        if p < j {
                            assert(x == delta0[p]);
                            assert(!same_target(delta0[p], op));
                        } else {
                            assert(x == delta0[p + 1]);
                            assert(!same_target(delta0[j as int], delta0[p + 1]));
                        }
                    }
                }
            }
        } else {
            delta.push(op);
            proof {
                assert forall|m: StateModel| #[trigger]
                    m.wf() implies apply_ops(m, delta@, delta@.len() as int) == apply_ops(
                    m,
                    ops@,
                    i as int + 1,
                ) by {
                    lemma_apply_ops_prefix(m, delta0.push(op), delta0, delta0.len() as int);
                }
            }
        }
        i = i + 1;
    }
    delta
}

/// Replaying well-formed ops preserves the model's shape.
proof fn lemma_apply_ops_wf(m: StateModel, ops: Seq<WriteOp>, i: int)
    requires
        m.wf(),
        0 <= i <= ops.len(),
        forall|j: int| 0 <= j < ops.len() ==> (#[trigger] ops[j]).wf(),
    ensures
        apply_ops(m, ops, i).wf(),
    decreases i,
{
    if i > 0 {
        lemma_apply_ops_wf(m, ops, i - 1);
    }
}

/// Appending a write does not change the replay of the existing prefix.
proof fn lemma_apply_ops_push(m: StateModel, ops: Seq<WriteOp>, op: WriteOp, i: int)
    requires
        0 <= i <= ops.len(),
    ensures
        apply_ops(m, ops.push(op), i) == apply_ops(m, ops, i),
    decreases i,
{
    if i > 0 {
        lemma_apply_ops_push(m, ops, op, i - 1);
    }
}

} // verus!
