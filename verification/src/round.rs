//! One full round: snapshot, assemble, apply, prove, package.
//!
//! `prepare_round` mirrors the snapshot, assembles and applies the three
//! batches in the fixed kind order (deposit, withdraw, transfer) against the
//! one shared mirror, and returns the round in flight: the three update
//! skeletons, one proving session per batch, and the mirror's exported write
//! log.  The caller then drives `step`, handing in the cancellation signal's
//! current value; on `Cancelled` the round is dropped and nothing of it
//! survives, on `Done` the caller seals the updates with `finish`.

use vstd::prelude::*;
use crate::assembler::assemble_deposits;
use crate::assembler::assemble_transfers;
use crate::assembler::assemble_withdraws;
use crate::assembler::deposit_selection;
use crate::assembler::transfer_selection;
use crate::assembler::withdraw_selection;
use crate::prove::proof_accepted;
use crate::prove::Proof;
use crate::prove::ProveStep;
use crate::prove::ProverParameters;
use crate::prove::ProvingSession;
use crate::prove::VerifyingKey;
use crate::requests::PendingDeposit;
use crate::requests::PendingTransfer;
use crate::requests::PendingWithdraw;
use crate::store::apply_ops;
use crate::store::StateModel;
use crate::store::StateStore;
use crate::store::WriteOp;
use crate::update::fee_sum;
use crate::update::sum_fees;
use crate::update::ContractUpdate;
use crate::update::UpdateData;
use crate::update::UpdateSkeleton;
use crate::witness::apply_deposit_batch;
use crate::witness::apply_transfer_batch;
use crate::witness::apply_withdraw_batch;
use crate::witness::deposit_outcome;
use crate::witness::transfer_outcome;
use crate::witness::withdraw_outcome;
use crate::witness::BatchKind;
use crate::DEPOSIT_BATCH_SIZE;
use crate::UPDATE_BATCH_SIZE;
use crate::WITHDRAW_BATCH_SIZE;

verus! {

/// The pending requests a round starts from, as pulled from the host pool.
pub struct Pools {
    pub deposits: Vec<PendingDeposit>,
    pub withdraws: Vec<PendingWithdraw>,
    pub transfers: Vec<PendingTransfer>,
}

impl Pools {
    /// Every request addresses cells of the configured shape.
    pub open spec fn wf(self) -> bool {
        &&& forall|k: int| 0 <= k < self.deposits@.len() ==> (#[trigger] self.deposits@[k]).wf()
        &&& forall|k: int| 0 <= k < self.withdraws@.len() ==> (#[trigger] self.withdraws@[k]).wf()
        &&& forall|k: int| 0 <= k < self.transfers@.len() ==> (#[trigger] self.transfers@[k]).wf()
    }
}

/// What one round computes from a snapshot: the three accepted lists and the
/// final state, obtained by selecting each kind's batch and applying the
/// batches in the fixed kind order.
pub struct RoundModel {
    pub deposits: Seq<PendingDeposit>,
    pub withdraws: Seq<PendingWithdraw>,
    pub transfers: Seq<PendingTransfer>,
    pub state: StateModel,
}

/// The round's outcome as a function of the snapshot and the pools.
pub open spec fn round_model(
    s0: StateModel,
    deposits: Seq<PendingDeposit>,
    withdraws: Seq<PendingWithdraw>,
    transfers: Seq<PendingTransfer>,
    contract_id: u64,
    fee_token: usize,
) -> RoundModel {
    let ds = deposit_selection(deposits, contract_id, DEPOSIT_BATCH_SIZE as nat);
    let od = deposit_outcome(s0, ds, ds.len() as int);
    let ws = withdraw_selection(withdraws, contract_id, WITHDRAW_BATCH_SIZE as nat);
    let ow = withdraw_outcome(od.state, ws, ws.len() as int);
    let ts = transfer_selection(transfers, contract_id, fee_token, UPDATE_BATCH_SIZE as nat);
    let ot = transfer_outcome(ow.state, ts, ts.len() as int);
    RoundModel { deposits: od.taken, withdraws: ow.taken, transfers: ot.taken, state: ot.state }
}

/// Why a round was aborted before proving.
#[derive(Clone, Copy, PartialEq, Eq, Structural, Debug)]
pub enum RoundError {
    /// The accepted transfers' fees exceed the largest representable amount.
    FeeOverflow,
}

/// Batch kind processed at position `i` of a round.
pub open spec fn kind_at(i: int) -> BatchKind {
    if i == 0 {
        BatchKind::Deposit
    } else if i == 1 {
        BatchKind::Withdraw
    } else {
        BatchKind::Transfer
    }
}

/// A round after batch application, while its proofs are computed: the
/// update skeletons in kind order, one proving session per batch, the proofs
/// collected so far, and the buffered write log awaiting export.
pub struct RoundInFlight {
    pub updates: Vec<UpdateSkeleton>,
    pub sessions: Vec<ProvingSession>,
    pub proofs: Vec<Proof>,
    pub ops: Vec<WriteOp>,
    pub old_root: u64,
    pub new_root: u64,
}

impl RoundInFlight {
    /// Skeletons, sessions and collected proofs agree on kinds and roots,
    /// and the batches chain the old root to the new one.
    pub open spec fn wf(self) -> bool {
        &&& self.updates@.len() == 3
        &&& self.sessions@.len() == 3
        &&& self.proofs@.len() <= 3
        &&& forall|i: int| 0 <= i < 3 ==> (#[trigger] self.updates@[i]).data.kind() == kind_at(i)
        &&& forall|i: int|
            0 <= i < 3 ==> (#[trigger] self.sessions@[i]).kind() == kind_at(i)
                && self.sessions@[i].old_root() == self.updates@[i].old_root
                && self.sessions@[i].new_root() == self.updates@[i].new_root
        &&& forall|i: int|
            0 <= i < self.proofs@.len() ==> (#[trigger] self.proofs@[i]).kind == kind_at(i)
                && self.proofs@[i].vk_tag == self.sessions@[i].vk_tag()
                && self.proofs@[i].old_root == self.updates@[i].old_root
                && self.proofs@[i].new_root == self.updates@[i].new_root
        &&& forall|i: int|
            self.proofs@.len() <= i < 3 ==> (#[trigger] self.sessions@[i]).remaining() > 0
        &&& self.updates@[0].old_root == self.old_root
        &&& self.updates@[1].old_root == self.updates@[0].new_root
        &&& self.updates@[2].old_root == self.updates@[1].new_root
        &&& self.updates@[2].new_root == self.new_root
    }

    /// All three proofs are collected.
    pub open spec fn done(self) -> bool {
        self.proofs@.len() == 3
    }

    /// Checkpoints still to pass over all sessions.
    pub open spec fn work_left(self) -> int {
        self.sessions@[0].remaining() + self.sessions@[1].remaining()
            + self.sessions@[2].remaining() + 3 - self.proofs@.len()
    }
}

/// Assembles, applies and packages the three batches of one round against a
/// mirror of `store`, leaving only the proofs to compute.  Fails only when
/// the accepted transfers' aggregate fee is not representable.
pub fn prepare_round(
    store: &StateStore,
    pools: &Pools,
    deposit_params: &ProverParameters,
    withdraw_params: &ProverParameters,
    update_params: &ProverParameters,
    contract_id: u64,
    fee_token: usize,
) -> (r: Result<RoundInFlight, RoundError>)
    requires
        store.wf(),
        pools.wf(),
        deposit_params.kind == BatchKind::Deposit,
        withdraw_params.kind == BatchKind::Withdraw,
        update_params.kind == BatchKind::Transfer,
    ensures
        ({
            let model = round_model(
                store@,
                pools.deposits@,
                pools.withdraws@,
                pools.transfers@,
                contract_id,
                fee_token,
            );
            match r {
                Ok(rf) => {
                    &&& rf.wf()
                    &&& rf.proofs@.len() == 0
                    &&& rf.old_root == store@.root()
                    &&& rf.new_root == model.state.root()
                    &&& (rf.updates@[0].data matches UpdateData::Deposits(v) && v@
                        == model.deposits)
                    &&& (rf.updates@[1].data matches UpdateData::Withdraws(v) && v@
                        == model.withdraws)
                    &&& (rf.updates@[2].data matches UpdateData::Transfers(v) && v@
                        == model.transfers)
                    &&& rf.updates@[0].fee == 0
                    &&& rf.updates@[1].fee == 0
                    &&& rf.updates@[2].fee == fee_sum(
                        model.transfers,
                        model.transfers.len() as int,
                    )
                    &&& rf.sessions@[0].vk_tag() == deposit_params.tag
                    &&& rf.sessions@[1].vk_tag() == withdraw_params.tag
                    &&& rf.sessions@[2].vk_tag() == update_params.tag
                    &&& apply_ops(store@, rf.ops@, rf.ops@.len() as int) == model.state
                },
                Err(e) => e == RoundError::FeeOverflow && fee_sum(
                    model.transfers,
                    model.transfers.len() as int,
                ) > u64::MAX,
            }
        }),
{
    let mut m = store.mirror();
    let old_root = m.root();
    let ds = assemble_deposits(&pools.deposits, contract_id);
    let (d_acc, d_wit) = apply_deposit_batch(&mut m, &ds);
    let ws = assemble_withdraws(&pools.withdraws, contract_id);
    let (w_acc, w_wit) = apply_withdraw_batch(&mut m, &ws);
    let ts = assemble_transfers(&pools.transfers, contract_id, fee_token);
    let (t_acc, t_wit) = apply_transfer_batch(&mut m, &ts);
    let fee = match sum_fees(&t_acc) {
        Some(fee) => fee,
        None => {
            return Err(RoundError::FeeOverflow);
        },
    };
    let new_root = t_wit.new_root;
    let d_old = d_wit.old_root;
    let d_new = d_wit.new_root;
    let w_old = w_wit.old_root;
    let w_new = w_wit.new_root;
    let t_old = t_wit.old_root;
    let s_d = ProvingSession::new(d_wit, deposit_params);
    let s_w = ProvingSession::new(w_wit, withdraw_params);
    let s_t = ProvingSession::new(t_wit, update_params);
    let mut updates: Vec<UpdateSkeleton> = Vec::new();
    updates.push(
        UpdateSkeleton { data: UpdateData::Deposits(d_acc), old_root: d_old, new_root: d_new, fee: 0 },
    );
    updates.push(
        UpdateSkeleton { data: UpdateData::Withdraws(w_acc), old_root: w_old, new_root: w_new, fee: 0 },
    );
    updates.push(
        UpdateSkeleton { data: UpdateData::Transfers(t_acc), old_root: t_old, new_root, fee },
    );
    let mut sessions: Vec<ProvingSession> = Vec::new();
    sessions.push(s_d);
    sessions.push(s_w);
    sessions.push(s_t);
    let ops = m.to_ops();
    Ok(
        RoundInFlight {
            updates,
            sessions,
            proofs: Vec::new(),
            ops,
            old_root,
            new_root,
        },
    )
}

/// What one round step reported.
#[derive(Clone, Copy, PartialEq, Eq, Structural, Debug)]
pub enum RoundStep {
    /// A checkpoint passed; more proving remains.
    InProgress,
    /// The cancellation signal was raised; the round should be dropped.
    Cancelled,
    /// Every batch's proof is collected; the round can be finished.
    Done,
}

impl RoundInFlight {
    /// Advances the proving stage by one checkpoint of the first unfinished
    /// session, or reports `Cancelled` without doing any work when the
    /// signal is raised.
    pub fn step(&mut self, cancel_requested: bool) -> (r: RoundStep)
        requires
            old(self).wf(),
        ensures
            final(self).wf(),
            cancel_requested ==> r is Cancelled && *final(self) == *old(self),
            !cancel_requested ==> final(self).updates == old(self).updates && final(self).ops
                == old(self).ops && final(self).old_root == old(self).old_root
                && final(self).new_root == old(self).new_root && (r is Done <==> final(
                self).done()),
            !cancel_requested && old(self).done() ==> r is Done && *final(self) == *old(self),
            !cancel_requested && !old(self).done() ==> final(self).work_left() < old(
                self).work_left(),
    {
        if cancel_requested {
            return RoundStep::Cancelled;
        }
        let collected = self.proofs.len();
        if collected >= 3 {
            return RoundStep::Done;
        }
        let mut session = self.sessions.remove(collected);
        let outcome = session.step(false);
        self.sessions.insert(collected, session);
        proof {
            assert(self.sessions@ =~= old(self).sessions@.update(
                collected as int,
                self.sessions@[collected as int],
            ));
        }
        match outcome {
            ProveStep::InProgress => RoundStep::InProgress,
            ProveStep::Cancelled => {
                // A session only cancels when handed a raised signal.
                proof {
                    assert(false);
                }
                RoundStep::InProgress
            },
            ProveStep::Done(p) => {
                self.proofs.push(p);
                if self.proofs.len() >= 3 {
                    RoundStep::Done
                } else {
                    RoundStep::InProgress
                }
            },
        }
    }

    /// Seals the three updates with their collected proofs and exports the
    /// write delta and the new root.
    pub fn finish(self) -> (r: (Vec<ContractUpdate>, Vec<WriteOp>, u64))
        requires
            self.wf(),
            self.done(),
        ensures
            r.0@.len() == 3,
            forall|i: int|
                0 <= i < 3 ==> (#[trigger] r.0@[i]).data == self.updates@[i].data
                    && r.0@[i].old_root == self.updates@[i].old_root && r.0@[i].new_root
                    == self.updates@[i].new_root && r.0@[i].fee == self.updates@[i].fee
                    && r.0@[i].proof == self.proofs@[i],
            forall|i: int|
                0 <= i < 3 ==> proof_accepted(
                    VerifyingKey { kind: kind_at(i), tag: self.sessions@[i].vk_tag() },
                    (#[trigger] r.0@[i]).proof,
                    r.0@[i].old_root,
                    r.0@[i].new_root,
                ),
            r.1@ == self.ops@,
            r.2 == self.new_root,
    {
        let RoundInFlight { updates, sessions: _, proofs, ops, old_root: _, new_root } = self;
        let mut updates = updates;
        let u2 = updates.pop().unwrap();
        let u1 = updates.pop().unwrap();
        let u0 = updates.pop().unwrap();
        let mut sealed: Vec<ContractUpdate> = Vec::new();
        sealed.push(u0.seal(proofs[0]));
        sealed.push(u1.seal(proofs[1]));
        sealed.push(u2.seal(proofs[2]));
        (sealed, ops, new_root)
    }
}

/// The round's outcome is a function of the snapshot and the pools alone:
/// equal states and equal pools give identical accepted lists and an
/// identical resulting root.
pub proof fn lemma_round_deterministic(
    s1: StateModel,
    s2: StateModel,
    deposits: Seq<PendingDeposit>,
    withdraws: Seq<PendingWithdraw>,
    transfers: Seq<PendingTransfer>,
    contract_id: u64,
    fee_token: usize,
)
    requires
        s1 == s2,
    ensures
        round_model(s1, deposits, withdraws, transfers, contract_id, fee_token) == round_model(
            s2,
            deposits,
            withdraws,
            transfers,
            contract_id,
            fee_token,
        ),
{
}

/// All-empty pools leave the state, and so the root, unchanged: the round is
/// pure padding.
pub proof fn lemma_empty_pools_preserve_root(s0: StateModel, contract_id: u64, fee_token: usize)
    ensures
        round_model(s0, Seq::empty(), Seq::empty(), Seq::empty(), contract_id, fee_token).state
            == s0,
        round_model(s0, Seq::empty(), Seq::empty(), Seq::empty(), contract_id, fee_token).state.root()
            == s0.root(),
        round_model(
            s0,
            Seq::empty(),
            Seq::empty(),
            Seq::empty(),
            contract_id,
            fee_token,
        ).deposits.len() == 0,
        round_model(
            s0,
            Seq::empty(),
            Seq::empty(),
            Seq::empty(),
            contract_id,
            fee_token,
        ).withdraws.len() == 0,
        round_model(
            s0,
            Seq::empty(),
            Seq::empty(),
            Seq::empty(),
            contract_id,
            fee_token,
        ).transfers.len() == 0,
{
    let ds = deposit_selection(Seq::empty(), contract_id, DEPOSIT_BATCH_SIZE as nat);
    assert(ds.len() == 0);
    let ws = withdraw_selection(Seq::empty(), contract_id, WITHDRAW_BATCH_SIZE as nat);
    assert(ws.len() == 0);
    let ts = transfer_selection(Seq::empty(), contract_id, fee_token, UPDATE_BATCH_SIZE as nat);
    assert(ts.len() == 0);
}

} // verus!
