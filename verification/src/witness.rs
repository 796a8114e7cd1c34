//! Circuit-witness construction: applying an assembled batch to the mirrored
//! state while recording the mutation trace the proving circuit consumes.
//!
//! Every leaf write is recorded as a `TraceEntry` carrying the touched cell,
//! its value before and after, and the authentication path before the write.
//! A witness is valid for a pair of balance assignments when replaying its
//! trace from the first assignment checks every recorded old value and path
//! and ends in the second assignment; the builders below return witnesses
//! proved valid for the mirror state they transformed.  Entries that fail
//! their checks (bad key, bad tag, bad nonce, missing funds, overflow) are
//! skipped: they consume no batch slot of the accepted list and leave the
//! state untouched.

use vstd::prelude::*;
use crate::requests::PendingDeposit;
use crate::requests::PendingTransfer;
use crate::requests::PendingWithdraw;
use crate::store::AccountMeta;
use crate::store::LeafIndex;
use crate::store::Mirror;
use crate::store::StateModel;
use crate::tree::path_of;
use crate::tree::root_of;
use crate::checked_balance_add;

verus! {

/// The three request kinds a round batches, in their fixed processing order.
#[derive(Clone, Copy, PartialEq, Eq, Structural, Debug)]
pub enum BatchKind {
    Deposit,
    Withdraw,
    Transfer,
}

/// One recorded leaf mutation.
pub struct TraceEntry {
    pub index: LeafIndex,
    pub old_value: u64,
    pub new_value: u64,
    pub path: Vec<u64>,
}

/// Balances after replaying the first `i` trace entries from `b`.
pub open spec fn replay_state(t: Seq<TraceEntry>, b: Seq<u64>, i: int) -> Seq<u64>
    decreases i,
{
    if i <= 0 {
        b
    } else {
        replay_state(t, b, i - 1).update(t[i - 1].index.flat(), t[i - 1].new_value)
    }
}

/// The first `i` trace entries replay from `b`: every recorded old value and
/// authentication path matches the state the entry was applied to.
pub open spec fn replay_ok(t: Seq<TraceEntry>, b: Seq<u64>, i: int) -> bool
    decreases i,
{
    if i <= 0 {
        true
    } else {
        let s = replay_state(t, b, i - 1);
        &&& replay_ok(t, b, i - 1)
        &&& t[i - 1].index.wf()
        &&& t[i - 1].old_value == s[t[i - 1].index.flat()]
        &&& t[i - 1].path@ == path_of(s, t[i - 1].index.flat())
    }
}

/// Appending an entry does not change the replay of the existing prefix.
proof fn lemma_replay_grow(t: Seq<TraceEntry>, e: TraceEntry, b: Seq<u64>, i: int)
    requires
        0 <= i <= t.len(),
    ensures
        replay_state(t.push(e), b, i) == replay_state(t, b, i),
        replay_ok(t.push(e), b, i) == replay_ok(t, b, i),
    decreases i,
{
    if i > 0 {
        lemma_replay_grow(t, e, b, i - 1);
    }
}

/// The ordered mutation trace of one batch, bound to the roots it connects.
pub struct Witness {
    pub kind: BatchKind,
    pub old_root: u64,
    pub new_root: u64,
    pub trace: Vec<TraceEntry>,
}

impl Witness {
    /// The witness connects balances `b0` to balances `b1`: its roots are
    /// their roots and its trace replays one into the other.
    pub open spec fn valid_for(self, b0: Seq<u64>, b1: Seq<u64>) -> bool {
        &&& self.old_root == root_of(b0)
        &&& self.new_root == root_of(b1)
        &&& replay_ok(self.trace@, b0, self.trace@.len() as int)
        &&& replay_state(self.trace@, b0, self.trace@.len() as int) == b1
    }
}

/// Writes one balance cell of the mirror and records the mutation.
fn write_leaf(m: &mut Mirror, trace: &mut Vec<TraceEntry>, index: &LeafIndex, value: u64)
    requires
        old(m).wf(),
        index.wf(),
    ensures
        final(m).wf(),
        final(m).base() == old(m).base(),
        final(m)@.bals == old(m)@.bals.update(index.flat(), value),
        final(m)@.accs == old(m)@.accs,
        final(trace)@.len() == old(trace)@.len() + 1,
        final(trace)@.drop_last() == old(trace)@,
        final(trace)@.last().index == *index,
        final(trace)@.last().old_value == old(m)@.bals[index.flat()],
        final(trace)@.last().new_value == value,
        final(trace)@.last().path@ == path_of(old(m)@.bals, index.flat()),
{
    let path = m.auth_path(index);
    let old_v = m.set(index, value);
    trace.push(TraceEntry { index: *index, old_value: old_v, new_value: value, path });
    proof {
        assert(trace@.drop_last() =~= old(trace)@);
    }
}

/// A deposit is applied when the slot is unbound or bound to the declared
/// key, and crediting the amount does not overflow the balance.
pub open spec fn deposit_accepted(s: StateModel, d: PendingDeposit) -> bool {
    let meta = s.accs[d.index.account as int];
    (!meta.used || meta.key == d.key) && s.bals[d.index.flat()] + d.amount <= u64::MAX
}

/// Effect of one deposit: credit the cell and, when the slot was never used,
/// bind it to the declared key.  A rejected deposit changes nothing.
pub open spec fn deposit_model(s: StateModel, d: PendingDeposit) -> StateModel {
    if deposit_accepted(s, d) {
        let meta = s.accs[d.index.account as int];
        let bals = s.bals.update(d.index.flat(), (s.bals[d.index.flat()] + d.amount) as u64);
        if !meta.used {
            StateModel {
                bals,
                accs: s.accs.update(
                    d.index.account as int,
                    AccountMeta { used: true, key: d.key, nonce: meta.nonce },
                ),
            }
        } else {
            StateModel { bals, accs: s.accs }
        }
    } else {
        s
    }
}

/// Applies one deposit, recording its mutation when it is accepted.
fn apply_deposit(
    m: &mut Mirror,
    trace: &mut Vec<TraceEntry>,
    d: &PendingDeposit,
    Ghost(b0): Ghost<Seq<u64>>,
) -> (accepted: bool)
    requires
        old(m).wf(),
        d.wf(),
        replay_ok(old(trace)@, b0, old(trace)@.len() as int),
        replay_state(old(trace)@, b0, old(trace)@.len() as int) == old(m)@.bals,
    ensures
        final(m).wf(),
        final(m).base() == old(m).base(),
        accepted == deposit_accepted(old(m)@, *d),
        final(m)@ == deposit_model(old(m)@, *d),
        final(trace)@.len() <= old(trace)@.len() + 1,
        replay_ok(final(trace)@, b0, final(trace)@.len() as int),
        replay_state(final(trace)@, b0, final(trace)@.len() as int) == final(m)@.bals,
{
    proof {
        old(m).lemma_wf_model();
    }
    let meta = m.account(d.index.account);
    let bal = m.get(&d.index);
    if !meta.used || meta.key == d.key {
        match checked_balance_add(bal, d.amount) {
            Some(credited) => {
                let ghost t0 = trace@;
                write_leaf(m, trace, &d.index, credited);
                proof {
                    let e = trace@.last();
                    assert(trace@ =~= t0.push(e));
                    lemma_replay_grow(t0, e, b0, t0.len() as int);
                }
                if !meta.used {
                    m.set_account(
                        d.index.account,
                        AccountMeta { used: true, key: d.key, nonce: meta.nonce },
                    );
                }
                true
            },
            None => false,
        }
    } else {
        false
    }
}

/// Outcome of applying a prefix of a deposit batch: the reached state and the
/// accepted entries, in order.
pub struct DepositOutcome {
    pub state: StateModel,
    pub taken: Seq<PendingDeposit>,
}

/// State and accepted list after applying the first `i` deposits in order.
pub open spec fn deposit_outcome(s: StateModel, ds: Seq<PendingDeposit>, i: int) -> DepositOutcome
    decreases i,
{
    if i <= 0 {
        DepositOutcome { state: s, taken: Seq::empty() }
    } else {
        let o = deposit_outcome(s, ds, i - 1);
        DepositOutcome {
            state: deposit_model(o.state, ds[i - 1]),
            taken: if deposit_accepted(o.state, ds[i - 1]) {
                o.taken.push(ds[i - 1])
            } else {
                o.taken
            },
        }
    }
}

/// Applies an assembled deposit batch to the mirror, returning the accepted
/// entries and the batch's witness.
pub fn apply_deposit_batch(m: &mut Mirror, batch: &Vec<PendingDeposit>) -> (r: (
    Vec<PendingDeposit>,
    Witness,
))
    requires
        old(m).wf(),
        forall|k: int| 0 <= k < batch@.len() ==> (#[trigger] batch@[k]).wf(),
    ensures
        final(m).wf(),
        final(m).base() == old(m).base(),
        final(m)@ == deposit_outcome(old(m)@, batch@, batch@.len() as int).state,
        r.0@ == deposit_outcome(old(m)@, batch@, batch@.len() as int).taken,
        r.1.kind == BatchKind::Deposit,
        r.1.valid_for(old(m)@.bals, final(m)@.bals),
        r.1.trace@.len() <= batch@.len(),
{
    let ghost s0 = m@;
    let old_root = m.root();
    let mut trace: Vec<TraceEntry> = Vec::new();
    let mut accepted: Vec<PendingDeposit> = Vec::new();
    let mut i: usize = 0;
    while i < batch.len()
        invariant
            i <= batch@.len(),
            forall|k: int| 0 <= k < batch@.len() ==> (#[trigger] batch@[k]).wf(),
            m.wf(),
            m.base() == old(m).base(),
            m@ == deposit_outcome(s0, batch@, i as int).state,
            accepted@ == deposit_outcome(s0, batch@, i as int).taken,
            replay_ok(trace@, s0.bals, trace@.len() as int),
            replay_state(trace@, s0.bals, trace@.len() as int) == m@.bals,
            trace@.len() <= i,
        decreases batch@.len() - i,
    {
        let d = batch[i];
        let ok = apply_deposit(m, &mut trace, &d, Ghost(s0.bals));
        if ok {
            accepted.push(d);
        }
        i = i + 1;
    }
    let new_root = m.root();
    let w = Witness { kind: BatchKind::Deposit, old_root, new_root, trace };
    (accepted, w)
}

/// A withdrawal is applied when its source slot is bound, its tag authorizes
/// `(nonce, fingerprint)` under the bound key, its nonce follows the slot
/// nonce exactly, and the debited cells hold the amount plus the fee.
pub open spec fn withdraw_accepted(s: StateModel, w: PendingWithdraw) -> bool {
    let meta = s.accs[w.index.account as int];
    let sf = w.index.flat();
    let ff = w.index.account * 4 + w.fee_token;
    &&& meta.used
    &&& w.authorized(meta.key)
    &&& w.nonce == meta.nonce + 1
    &&& if sf == ff {
        s.bals[sf] >= w.amount + w.fee
    } else {
        s.bals[sf] >= w.amount && s.bals[ff] >= w.fee
    }
}

/// Effect of one withdrawal: debit amount and fee, advance the slot nonce.
/// A rejected withdrawal changes nothing.
pub open spec fn withdraw_model(s: StateModel, w: PendingWithdraw) -> StateModel {
    if withdraw_accepted(s, w) {
        let meta = s.accs[w.index.account as int];
        let sf = w.index.flat();
        let ff = w.index.account * 4 + w.fee_token;
        let bals = if sf == ff {
            s.bals.update(sf, (s.bals[sf] - (w.amount + w.fee)) as u64)
        } else {
            s.bals.update(sf, (s.bals[sf] - w.amount) as u64).update(
                ff,
                (s.bals[ff] - w.fee) as u64,
            )
        };
        StateModel {
            bals,
            accs: s.accs.update(
                w.index.account as int,
                AccountMeta { used: true, key: meta.key, nonce: w.nonce },
            ),
        }
    } else {
        s
    }
}

/// Applies one withdrawal, recording its mutations when it is accepted.
fn apply_withdraw(
    m: &mut Mirror,
    trace: &mut Vec<TraceEntry>,
    w: &PendingWithdraw,
    Ghost(b0): Ghost<Seq<u64>>,
) -> (accepted: bool)
    requires
        old(m).wf(),
        w.wf(),
        replay_ok(old(trace)@, b0, old(trace)@.len() as int),
        replay_state(old(trace)@, b0, old(trace)@.len() as int) == old(m)@.bals,
    ensures
        final(m).wf(),
        final(m).base() == old(m).base(),
        accepted == withdraw_accepted(old(m)@, *w),
        final(m)@ == withdraw_model(old(m)@, *w),
        final(trace)@.len() <= old(trace)@.len() + 2,
        replay_ok(final(trace)@, b0, final(trace)@.len() as int),
        replay_state(final(trace)@, b0, final(trace)@.len() as int) == final(m)@.bals,
{
    proof {
        old(m).lemma_wf_model();
    }
    let meta = m.account(w.index.account);
    if !meta.used {
        return false;
    }
    let tag = crate::requests::auth_tag(meta.key, w.nonce, w.fingerprint);
    if tag != w.tag {
        return false;
    }
    if !(meta.nonce < u64::MAX && w.nonce == meta.nonce + 1) {
        return false;
    }
    let fee_cell = LeafIndex { account: w.index.account, token: w.fee_token };
    if w.index.token == w.fee_token {
        let bal = m.get(&w.index);
        match crate::checked_balance_add(w.amount, w.fee) {
            Some(total) => {
                if bal < total {
                    return false;
                }
                let ghost t0 = trace@;
                write_leaf(m, trace, &w.index, bal - total);
                proof {
                    let e = trace@.last();
                    assert(trace@ =~= t0.push(e));
                    lemma_replay_grow(t0, e, b0, t0.len() as int);
                }
                m.set_account(
                    w.index.account,
                    AccountMeta { used: true, key: meta.key, nonce: w.nonce },
                );
                true
            },
            None => {
                // The two debits together exceed any representable balance.
                false
            },
        }
    } else {
        let bal = m.get(&w.index);
        let fee_bal = m.get(&fee_cell);
        if bal < w.amount || fee_bal < w.fee {
            return false;
        }
        let ghost t0 = trace@;
        write_leaf(m, trace, &w.index, bal - w.amount);
        proof {
            let e = trace@.last();
            assert(trace@ =~= t0.push(e));
            lemma_replay_grow(t0, e, b0, t0.len() as int);
        }
        let ghost t1 = trace@;
        write_leaf(m, trace, &fee_cell, fee_bal - w.fee);
        proof {
            let e = trace@.last();
            assert(trace@ =~= t1.push(e));
            lemma_replay_grow(t1, e, b0, t1.len() as int);
        }
        m.set_account(w.index.account, AccountMeta { used: true, key: meta.key, nonce: w.nonce });
        true
    }
}

/// Outcome of applying a prefix of a withdraw batch.
pub struct WithdrawOutcome {
    pub state: StateModel,
    pub taken: Seq<PendingWithdraw>,
}

/// State and accepted list after applying the first `i` withdrawals in order.
pub open spec fn withdraw_outcome(s: StateModel, ws: Seq<PendingWithdraw>, i: int) -> WithdrawOutcome
    decreases i,
{
    if i <= 0 {
        WithdrawOutcome { state: s, taken: Seq::empty() }
    } else {
        let o = withdraw_outcome(s, ws, i - 1);
        WithdrawOutcome {
            state: withdraw_model(o.state, ws[i - 1]),
            taken: if withdraw_accepted(o.state, ws[i - 1]) {
                o.taken.push(ws[i - 1])
            } else {
                o.taken
            },
        }
    }
}

/// Applies an assembled withdraw batch to the mirror, returning the accepted
/// entries and the batch's witness.
pub fn apply_withdraw_batch(m: &mut Mirror, batch: &Vec<PendingWithdraw>) -> (r: (
    Vec<PendingWithdraw>,
    Witness,
))
    requires
        old(m).wf(),
        forall|k: int| 0 <= k < batch@.len() ==> (#[trigger] batch@[k]).wf(),
    ensures
        final(m).wf(),
        final(m).base() == old(m).base(),
        final(m)@ == withdraw_outcome(old(m)@, batch@, batch@.len() as int).state,
        r.0@ == withdraw_outcome(old(m)@, batch@, batch@.len() as int).taken,
        r.1.kind == BatchKind::Withdraw,
        r.1.valid_for(old(m)@.bals, final(m)@.bals),
        r.1.trace@.len() <= 2 * batch@.len(),
{
    let ghost s0 = m@;
    let old_root = m.root();
    let mut trace: Vec<TraceEntry> = Vec::new();
    let mut accepted: Vec<PendingWithdraw> = Vec::new();
    let mut i: usize = 0;
    while i < batch.len()
        invariant
            i <= batch@.len(),
            forall|k: int| 0 <= k < batch@.len() ==> (#[trigger] batch@[k]).wf(),
            m.wf(),
            m.base() == old(m).base(),
            m@ == withdraw_outcome(s0, batch@, i as int).state,
            accepted@ == withdraw_outcome(s0, batch@, i as int).taken,
            replay_ok(trace@, s0.bals, trace@.len() as int),
            replay_state(trace@, s0.bals, trace@.len() as int) == m@.bals,
            trace@.len() <= 2 * i,
        decreases batch@.len() - i,
    {
        let w = batch[i];
        let ok = apply_withdraw(m, &mut trace, &w, Ghost(s0.bals));
        if ok {
            accepted.push(w);
        }
        i = i + 1;
    }
    let new_root = m.root();
    let w = Witness { kind: BatchKind::Withdraw, old_root, new_root, trace };
    (accepted, w)
}

/// A transfer is applied when its source slot is bound, its tag authorizes
/// `(nonce, fingerprint)` under the bound key, its nonce follows the slot
/// nonce exactly, the debited cells hold the amount plus the fee, and
/// crediting the destination (after the debits, should the cells alias) does
/// not overflow.
pub open spec fn transfer_accepted(s: StateModel, t: PendingTransfer) -> bool {
    let meta = s.accs[t.src.account as int];
    let sf = t.src.flat();
    let ff = t.src.account * 4 + t.fee_token;
    let df = t.dst.flat();
    &&& meta.used
    &&& t.authorized(meta.key)
    &&& t.nonce == meta.nonce + 1
    &&& if sf == ff {
        &&& s.bals[sf] >= t.amount + t.fee
        &&& (if df == sf {
            s.bals[sf] - (t.amount + t.fee)
        } else {
            s.bals[df] as int
        }) + t.amount <= u64::MAX
    } else {
        &&& s.bals[sf] >= t.amount
        &&& s.bals[ff] >= t.fee
        &&& (if df == sf {
            s.bals[sf] - t.amount
        } else if df == ff {
            s.bals[ff] - t.fee
        } else {
            s.bals[df] as int
        }) + t.amount <= u64::MAX
    }
}

/// Effect of one transfer: debit amount and fee from the source account,
/// credit the destination, advance the source slot nonce, and bind the
/// destination slot to the declared key when it was never used.  A rejected
/// transfer changes nothing.
pub open spec fn transfer_model(s: StateModel, t: PendingTransfer) -> StateModel {
    if transfer_accepted(s, t) {
        let meta = s.accs[t.src.account as int];
        let dmeta = s.accs[t.dst.account as int];
        let sf = t.src.flat();
        let ff = t.src.account * 4 + t.fee_token;
        let df = t.dst.flat();
        let bals1 = if sf == ff {
            s.bals.update(sf, (s.bals[sf] - (t.amount + t.fee)) as u64)
        } else {
            s.bals.update(sf, (s.bals[sf] - t.amount) as u64).update(
                ff,
                (s.bals[ff] - t.fee) as u64,
            )
        };
        let bals2 = bals1.update(df, (bals1[df] + t.amount) as u64);
        let accs1 = s.accs.update(
            t.src.account as int,
            AccountMeta { used: true, key: meta.key, nonce: t.nonce },
        );
        let accs2 = if !dmeta.used {
            accs1.update(
                t.dst.account as int,
                AccountMeta { used: true, key: t.dst_key, nonce: dmeta.nonce },
            )
        } else {
            accs1
        };
        StateModel { bals: bals2, accs: accs2 }
    } else {
        s
    }
}

/// Applies one transfer, recording its mutations when it is accepted.
#[verifier::rlimit(100)]
fn apply_transfer(
    m: &mut Mirror,
    trace: &mut Vec<TraceEntry>,
    t: &PendingTransfer,
    Ghost(b0): Ghost<Seq<u64>>,
) -> (accepted: bool)
    requires
        old(m).wf(),
        t.wf(),
        replay_ok(old(trace)@, b0, old(trace)@.len() as int),
        replay_state(old(trace)@, b0, old(trace)@.len() as int) == old(m)@.bals,
    ensures
        final(m).wf(),
        final(m).base() == old(m).base(),
        accepted == transfer_accepted(old(m)@, *t),
        final(m)@ == transfer_model(old(m)@, *t),
        final(trace)@.len() <= old(trace)@.len() + 3,
        replay_ok(final(trace)@, b0, final(trace)@.len() as int),
        replay_state(final(trace)@, b0, final(trace)@.len() as int) == final(m)@.bals,
{
    proof {
        old(m).lemma_wf_model();
    }
    let meta = m.account(t.src.account);
    if !meta.used {
        return false;
    }
    let fingerprint = t.commitment();
    let tag = crate::requests::auth_tag(meta.key, t.nonce, fingerprint);
    if tag != t.tag {
        return false;
    }
    if !(meta.nonce < u64::MAX && t.nonce == meta.nonce + 1) {
        return false;
    }
    let dmeta = m.account(t.dst.account);
    let fee_cell = LeafIndex { account: t.src.account, token: t.fee_token };
    let dst_is_src = t.dst.account == t.src.account && t.dst.token == t.src.token;
    let dst_is_fee = t.dst.account == t.src.account && t.dst.token == t.fee_token;
    proof {
        assert(dst_is_src == (t.dst.flat() == t.src.flat()));
        assert(dst_is_fee == (t.dst.flat() == t.src.account * 4 + t.fee_token));
    }
    if t.src.token == t.fee_token {
        let bal = m.get(&t.src);
        let total = match crate::checked_balance_add(t.amount, t.fee) {
            Some(total) => total,
            None => {
                return false;
            },
        };
        if bal < total {
            return false;
        }
        let debited = bal - total;
        let dval = if dst_is_src {
            debited
        } else {
            m.get(&t.dst)
        };
        let credited = match crate::checked_balance_add(dval, t.amount) {
            Some(credited) => credited,
            None => {
                return false;
            },
        };
        let ghost t0 = trace@;
        write_leaf(m, trace, &t.src, debited);
        proof {
            let e = trace@.last();
            assert(trace@ =~= t0.push(e));
            lemma_replay_grow(t0, e, b0, t0.len() as int);
        }
        let ghost t1 = trace@;
        write_leaf(m, trace, &t.dst, credited);
        proof {
            let e = trace@.last();
            assert(trace@ =~= t1.push(e));
            lemma_replay_grow(t1, e, b0, t1.len() as int);
        }
        m.set_account(t.src.account, AccountMeta { used: true, key: meta.key, nonce: t.nonce });
        if !dmeta.used {
            m.set_account(
                t.dst.account,
                AccountMeta { used: true, key: t.dst_key, nonce: dmeta.nonce },
            );
        }
        proof {
            assert(transfer_accepted(old(m)@, *t));
            assert(m@.bals =~= transfer_model(old(m)@, *t).bals);
            assert(m@.accs =~= transfer_model(old(m)@, *t).accs);
        }
        true
    } else {
        let bal = m.get(&t.src);
        let fee_bal = m.get(&fee_cell);
        if bal < t.amount || fee_bal < t.fee {
            return false;
        }
        let debited = bal - t.amount;
        let fee_debited = fee_bal - t.fee;
        let dval = if dst_is_src {
            debited
        } else if dst_is_fee {
            fee_debited
        } else {
            m.get(&t.dst)
        };
        let credited = match crate::checked_balance_add(dval, t.amount) {
            Some(credited) => credited,
            None => {
                return false;
            },
        };
        let ghost t0 = trace@;
        write_leaf(m, trace, &t.src, debited);
        proof {
            let e = trace@.last();
            assert(trace@ =~= t0.push(e));
            lemma_replay_grow(t0, e, b0, t0.len() as int);
        }
        let ghost t1 = trace@;
        write_leaf(m, trace, &fee_cell, fee_debited);
        proof {
            let e = trace@.last();
            assert(trace@ =~= t1.push(e));
            lemma_replay_grow(t1, e, b0, t1.len() as int);
        }
        let ghost t2 = trace@;
        write_leaf(m, trace, &t.dst, credited);
        proof {
            let e = trace@.last();
            assert(trace@ =~= t2.push(e));
            lemma_replay_grow(t2, e, b0, t2.len() as int);
        }
        m.set_account(t.src.account, AccountMeta { used: true, key: meta.key, nonce: t.nonce });
        if !dmeta.used {
            m.set_account(
                t.dst.account,
                AccountMeta { used: true, key: t.dst_key, nonce: dmeta.nonce },
            );
        }
        proof {
            assert(transfer_accepted(old(m)@, *t));
            assert(m@.bals =~= transfer_model(old(m)@, *t).bals);
            assert(m@.accs =~= transfer_model(old(m)@, *t).accs);
        }
        true
    }
}

/// Outcome of applying a prefix of a transfer batch.
pub struct TransferOutcome {
    pub state: StateModel,
    pub taken: Seq<PendingTransfer>,
}

/// State and accepted list after applying the first `i` transfers in order.
pub open spec fn transfer_outcome(s: StateModel, ts: Seq<PendingTransfer>, i: int) -> TransferOutcome
    decreases i,
{
    if i <= 0 {
        TransferOutcome { state: s, taken: Seq::empty() }
    } else {
        let o = transfer_outcome(s, ts, i - 1);
        TransferOutcome {
            state: transfer_model(o.state, ts[i - 1]),
            taken: if transfer_accepted(o.state, ts[i - 1]) {
                o.taken.push(ts[i - 1])
            } else {
                o.taken
            },
        }
    }
}

/// Applies an assembled transfer batch to the mirror, returning the accepted
/// entries and the batch's witness.
pub fn apply_transfer_batch(m: &mut Mirror, batch: &Vec<PendingTransfer>) -> (r: (
    Vec<PendingTransfer>,
    Witness,
))
    requires
        old(m).wf(),
        forall|k: int| 0 <= k < batch@.len() ==> (#[trigger] batch@[k]).wf(),
    ensures
        final(m).wf(),
        final(m).base() == old(m).base(),
        final(m)@ == transfer_outcome(old(m)@, batch@, batch@.len() as int).state,
        r.0@ == transfer_outcome(old(m)@, batch@, batch@.len() as int).taken,
        r.1.kind == BatchKind::Transfer,
        r.1.valid_for(old(m)@.bals, final(m)@.bals),
        r.1.trace@.len() <= 3 * batch@.len(),
{
    let ghost s0 = m@;
    let old_root = m.root();
    let mut trace: Vec<TraceEntry> = Vec::new();
    let mut accepted: Vec<PendingTransfer> = Vec::new();
    let mut i: usize = 0;
    while i < batch.len()
        invariant
            i <= batch@.len(),
            forall|k: int| 0 <= k < batch@.len() ==> (#[trigger] batch@[k]).wf(),
            m.wf(),
            m.base() == old(m).base(),
            m@ == transfer_outcome(s0, batch@, i as int).state,
            accepted@ == transfer_outcome(s0, batch@, i as int).taken,
            replay_ok(trace@, s0.bals, trace@.len() as int),
            replay_state(trace@, s0.bals, trace@.len() as int) == m@.bals,
            trace@.len() <= 3 * i,
        decreases batch@.len() - i,
    {
        let t = batch[i];
        let ok = apply_transfer(m, &mut trace, &t, Ghost(s0.bals));
        if ok {
            accepted.push(t);
        }
        i = i + 1;
    }
    let new_root = m.root();
    let w = Witness { kind: BatchKind::Transfer, old_root, new_root, trace };
    (accepted, w)
}

} // verus!
