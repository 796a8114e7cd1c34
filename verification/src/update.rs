//! Contract-update assembly: packaging accepted entries, the new root and,
//! once proving succeeded, the proof, into the records the aggregate
//! transaction carries.
//!
//! An update is built in two phases: a skeleton holding everything but the
//! proof, then a sealed `ContractUpdate` produced only from a skeleton and a
//! proof bound to the skeleton's kind and roots.  The sealed type has no
//! unset proof state, so an unproved update cannot be submitted.

use vstd::prelude::*;
use crate::prove::Proof;
use crate::requests::PendingDeposit;
use crate::requests::PendingTransfer;
use crate::requests::PendingWithdraw;
use crate::witness::BatchKind;
use crate::checked_balance_add;

verus! {

/// The accepted entries of one batch, by kind.
pub enum UpdateData {
    Deposits(Vec<PendingDeposit>),
    Withdraws(Vec<PendingWithdraw>),
    Transfers(Vec<PendingTransfer>),
}

impl UpdateData {
    /// The batch kind this data belongs to.
    pub open spec fn kind(self) -> BatchKind {
        match self {
            UpdateData::Deposits(_) => BatchKind::Deposit,
            UpdateData::Withdraws(_) => BatchKind::Withdraw,
            UpdateData::Transfers(_) => BatchKind::Transfer,
        }
    }
}

/// A contract update before proving: accepted entries, the roots the batch
/// connects, and the aggregate fee (zero except for transfer batches).
pub struct UpdateSkeleton {
    pub data: UpdateData,
    pub old_root: u64,
    pub new_root: u64,
    pub fee: u64,
}

/// A completed contract update, carrying its proof.
pub struct ContractUpdate {
    pub data: UpdateData,
    pub old_root: u64,
    pub new_root: u64,
    pub fee: u64,
    pub proof: Proof,
}

impl UpdateSkeleton {
    /// Attaches a proof that binds this skeleton's kind and roots, sealing
    /// the update.
    pub fn seal(self, proof: Proof) -> (u: ContractUpdate)
        requires
            proof.kind == self.data.kind(),
            proof.old_root == self.old_root,
            proof.new_root == self.new_root,
        ensures
            u.data == self.data,
            u.old_root == self.old_root,
            u.new_root == self.new_root,
            u.fee == self.fee,
            u.proof == proof,
    {
        ContractUpdate {
            data: self.data,
            old_root: self.old_root,
            new_root: self.new_root,
            fee: self.fee,
            proof,
        }
    }
}

/// Sum of the fees of the first `i` transfers.
pub open spec fn fee_sum(ts: Seq<PendingTransfer>, i: int) -> int
    decreases i,
{
    if i <= 0 {
        0
    } else {
        fee_sum(ts, i - 1) + ts[i - 1].fee
    }
}

/// Aggregate fee of a batch of accepted transfers; reports instead of
/// wrapping when the sum exceeds the largest representable amount.
pub fn sum_fees(ts: &Vec<PendingTransfer>) -> (r: Option<u64>)
    ensures
        fee_sum(ts@, ts@.len() as int) <= u64::MAX ==> r == Some(
            fee_sum(ts@, ts@.len() as int) as u64,
        ),
        fee_sum(ts@, ts@.len() as int) > u64::MAX ==> r is None,
        fee_sum(ts@, ts@.len() as int) >= 0,
{
    proof {
        lemma_fee_sum_grows(ts@, 0, ts@.len() as int);
    }
    let mut total: u64 = 0;
    let mut i: usize = 0;
    while i < ts.len()
        invariant
            i <= ts@.len(),
            total == fee_sum(ts@, i as int),
        decreases ts@.len() - i,
    {
        match checked_balance_add(total, ts[i].fee) {
            Some(t) => {
                total = t;
            },
            None => {
                proof {
                    lemma_fee_sum_grows(ts@, i as int + 1, ts@.len() as int);
                }
                return None;
            },
        }
        i = i + 1;
    }
    Some(total)
}

/// Fee sums only grow as more transfers are counted.
proof fn lemma_fee_sum_grows(ts: Seq<PendingTransfer>, i: int, j: int)
    requires
        0 <= i <= j,
    ensures
        fee_sum(ts, i) <= fee_sum(ts, j),
    decreases j - i,
{
    if i < j {
        lemma_fee_sum_grows(ts, i, j - 1);
    }
}

} // verus!
