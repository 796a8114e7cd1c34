//! Externally sourced pending requests, and the authorization tags that bind
//! withdraw and transfer requests to the key bound to their source slot.
//!
//! Authorization is modelled as a keyed tag over the request's binding
//! message: a request is valid exactly when its tag equals the tag derived
//! from the slot's bound key, the request nonce and the request fingerprint.
//! The tag reuses the tree's digest primitive, so it is a deterministic
//! function of those three words and nothing more is claimed of it.

use vstd::prelude::*;
use crate::digest::combine;
use crate::digest::combine4;
use crate::store::LeafIndex;

verus! {

/// Domain separator of authorization tags.
pub const AUTH_DOMAIN: u64 = 0xA0;

/// Domain separator of transfer fingerprints.
pub const TRANSFER_DOMAIN: u64 = 0xF0;

/// Tag that authorizes the message `(nonce, fingerprint)` under `key`.
pub open spec fn tag_of(key: u64, nonce: u64, fingerprint: u64) -> u64 {
    combine4(key, nonce, fingerprint, AUTH_DOMAIN)
}

/// Computes `tag_of`; submitters derive request tags with it.
pub fn auth_tag(key: u64, nonce: u64, fingerprint: u64) -> (t: u64)
    ensures
        t == tag_of(key, nonce, fingerprint),
{
    combine(key, nonce, fingerprint, AUTH_DOMAIN)
}

/// A queued deposit: credits `amount` to `index` and, when the account slot
/// was never used, binds it to `key`.  `src` and `nonce` order the host-chain
/// payments of one sender.
#[derive(Clone, Copy, PartialEq, Eq, Structural, Debug)]
pub struct PendingDeposit {
    pub contract_id: u64,
    pub src: u64,
    pub nonce: u64,
    pub index: LeafIndex,
    pub key: u64,
    pub amount: u64,
}

impl PendingDeposit {
    /// The addressed cell is in range.
    pub open spec fn wf(self) -> bool {
        self.index.wf()
    }
}

/// A queued withdrawal: debits `amount` plus `fee` from the source account,
/// authorized by `tag` over `(nonce, fingerprint)` under the slot's bound
/// key.
#[derive(Clone, Copy, PartialEq, Eq, Structural, Debug)]
pub struct PendingWithdraw {
    pub contract_id: u64,
    pub index: LeafIndex,
    pub fee_token: usize,
    pub fingerprint: u64,
    pub nonce: u64,
    pub tag: u64,
    pub amount: u64,
    pub fee: u64,
}

impl PendingWithdraw {
    /// The addressed cells are in range.
    pub open spec fn wf(self) -> bool {
        self.index.wf() && self.fee_token < 4
    }

    /// The request's tag matches the slot key `key`.
    pub open spec fn authorized(self, key: u64) -> bool {
        self.tag == tag_of(key, self.nonce, self.fingerprint)
    }
}

/// A queued transfer: debits `amount` from `src` and `fee` from the sender's
/// `fee_token` slot, credits `amount` to `dst`, binding `dst` to `dst_key`
/// when that slot was never used.
#[derive(Clone, Copy, PartialEq, Eq, Structural, Debug)]
pub struct PendingTransfer {
    pub contract_id: u64,
    pub nonce: u64,
    pub src: LeafIndex,
    pub dst: LeafIndex,
    pub dst_key: u64,
    pub fee_token: usize,
    pub amount: u64,
    pub fee: u64,
    pub tag: u64,
}

impl PendingTransfer {
    /// The addressed cells are in range.
    pub open spec fn wf(self) -> bool {
        self.src.wf() && self.dst.wf() && self.fee_token < 4
    }

    /// Binding commitment of the transfer's payload, excluding the nonce.
    pub open spec fn fingerprint(self) -> u64 {
        combine4(
            combine4(self.src.account as u64, self.src.token as u64, self.dst.account as u64,
                self.dst.token as u64),
            combine4(self.amount, self.fee, self.fee_token as u64, self.dst_key),
            0,
            TRANSFER_DOMAIN,
        )
    }

    /// The request's tag matches the slot key `key`.
    pub open spec fn authorized(self, key: u64) -> bool {
        self.tag == tag_of(key, self.nonce, self.fingerprint())
    }

    /// Computes `fingerprint`; submitters derive transfer tags over it.
    pub fn commitment(&self) -> (f: u64)
        ensures
            f == self.fingerprint(),
    {
        let a = combine(
            self.src.account as u64,
            self.src.token as u64,
            self.dst.account as u64,
            self.dst.token as u64,
        );
        let b = combine(self.amount, self.fee, self.fee_token as u64, self.dst_key);
        combine(a, b, 0, TRANSFER_DOMAIN)
    }
}

} // verus!
