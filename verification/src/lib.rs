//! Bank engine of an off-chain payment sub-ledger.
//!
//! The library keeps an authenticated replica of the ledger state in a sparse
//! quaternary digest tree, assembles pending deposit, withdraw and transfer
//! requests into fixed-size batches under a strict per-sender nonce
//! discipline, applies each batch to a buffered mirror of the state while
//! recording the mutation trace the proving circuits consume, and turns each
//! trace into a proof bound to the old and new state roots, cancellable at
//! fixed checkpoints.  Every state transition is specified against a
//! mathematical model of the ledger and proved.

pub mod assembler;
pub mod digest;
pub mod prove;
pub mod requests;
pub mod round;
pub mod store;
pub mod update;
pub mod witness;
pub mod tree;

use vstd::prelude::*;

verus! {

/// Number of accounts the state tree addresses.
pub const ACCOUNT_COUNT: usize = 16;

/// Number of token slots of each account.
pub const TOKEN_COUNT: usize = 4;

/// Number of balance leaves of the state tree.
pub const LEAF_COUNT: usize = 64;

/// Slots of a deposit batch.
pub const DEPOSIT_BATCH_SIZE: usize = 4;

/// Slots of a withdraw batch.
pub const WITHDRAW_BATCH_SIZE: usize = 4;

/// Slots of a transfer batch.
pub const UPDATE_BATCH_SIZE: usize = 4;

/// Addition on balances that reports instead of wrapping on overflow.
pub fn checked_balance_add(a: u64, b: u64) -> (r: Option<u64>)
    ensures
        a + b <= u64::MAX ==> r == Some((a + b) as u64),
        a + b > u64::MAX ==> r is None,
{
    a.checked_add(b)
}

} // verus!
