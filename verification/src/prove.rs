//! Proving engine: turns a batch witness and circuit parameters into a proof
//! bound to the verifying key and the public inputs (old root, new root),
//! checking a cancellation signal at every checkpoint.
//!
//! The proof object binds the circuit kind, the verifying key and the two
//! roots; verification checks exactly that binding.  Each proof also carries
//! a random blinding word, drawn fresh for every run; validity is
//! independent of the blinding chosen.  A proving session advances one
//! checkpoint per step and reports `Cancelled` as soon as a step sees the
//! signal raised, so abort latency is bounded by one checkpoint.

use vstd::prelude::*;
use vstd::bytes::spec_u64_to_le_bytes;
use vstd::bytes::u64_to_le_bytes;
use crate::digest::hex_encode;
use crate::digest::hex_of;
use crate::witness::BatchKind;
use crate::witness::Witness;

verus! {

/// Relies on rand::random, drawing a value of the standard distribution;
/// nothing is promised of the value drawn.
pub assume_specification<T>[ rand::random::<T> ]() -> (r: T)
    where
        rand::distributions::Standard: rand::distributions::Distribution<T>,
;

/// Numeric code of a batch kind in the canonical serialization.
pub open spec fn kind_code(k: BatchKind) -> u64 {
    match k {
        BatchKind::Deposit => 1,
        BatchKind::Withdraw => 2,
        BatchKind::Transfer => 3,
    }
}

/// Computes `kind_code`.
pub fn kind_code_of(k: BatchKind) -> (c: u64)
    ensures
        c == kind_code(k),
{
    match k {
        BatchKind::Deposit => 1,
        BatchKind::Withdraw => 2,
        BatchKind::Transfer => 3,
    }
}

/// Pre-generated proving parameters of one circuit kind.  The parameter tag
/// stands for the one-time generation ceremony's output; the verifying key
/// derived from it must match the key committed on chain.
#[derive(Clone, Copy, PartialEq, Eq, Structural, Debug)]
pub struct ProverParameters {
    pub kind: BatchKind,
    pub tag: u64,
}

/// Verifying key of one circuit kind.
#[derive(Clone, Copy, PartialEq, Eq, Structural, Debug)]
pub struct VerifyingKey {
    pub kind: BatchKind,
    pub tag: u64,
}

impl ProverParameters {
    /// Parameters generated from one ceremony seed for one circuit kind.
    pub fn generate(kind: BatchKind, entropy: u64) -> (p: ProverParameters)
        ensures
            p == (ProverParameters { kind, tag: entropy }),
    {
        ProverParameters { kind, tag: entropy }
    }

    /// The verifying key these parameters prove against.
    pub fn verifying_key(&self) -> (vk: VerifyingKey)
        ensures
            vk == self.spec_verifying_key(),
    {
        VerifyingKey { kind: self.kind, tag: self.tag }
    }

    /// The verifying key, as a specification value.
    pub open spec fn spec_verifying_key(self) -> VerifyingKey {
        VerifyingKey { kind: self.kind, tag: self.tag }
    }
}

/// Canonical serialization of a verifying key: its kind code and its tag,
/// little-endian.
pub open spec fn vk_bytes(vk: VerifyingKey) -> Seq<u8> {
    spec_u64_to_le_bytes(kind_code(vk.kind)) + spec_u64_to_le_bytes(vk.tag)
}

/// Human-readable fingerprint of a verifying key: the lowercase hexadecimal
/// rendering of its canonical serialization.
pub fn vk_to_hex(vk: &VerifyingKey) -> (r: String)
    ensures
        r@ == hex_of(vk_bytes(*vk)),
{
    let mut bytes = u64_to_le_bytes(kind_code_of(vk.kind));
    let mut tail = u64_to_le_bytes(vk.tag);
    bytes.append(&mut tail);
    proof {
        assert(bytes@ =~= vk_bytes(*vk));
    }
    hex_encode(&bytes)
}

/// A proof: bound to its circuit kind, verifying key and the two roots, plus
/// the random blinding of the run that produced it.
#[derive(Clone, Copy, PartialEq, Eq, Structural, Debug)]
pub struct Proof {
    pub kind: BatchKind,
    pub vk_tag: u64,
    pub old_root: u64,
    pub new_root: u64,
    pub blinding: u64,
}

/// A proof is accepted exactly when it binds this verifying key and these
/// public inputs; the blinding plays no part.
pub open spec fn proof_accepted(vk: VerifyingKey, p: Proof, old_root: u64, new_root: u64) -> bool {
    p.kind == vk.kind && p.vk_tag == vk.tag && p.old_root == old_root && p.new_root == new_root
}

/// Checks a proof against a verifying key and the public inputs.
pub fn verify_proof(vk: &VerifyingKey, p: &Proof, old_root: u64, new_root: u64) -> (r: bool)
    ensures
        r == proof_accepted(*vk, *p, old_root, new_root),
{
    let kind_matches = match (vk.kind, p.kind) {
        (BatchKind::Deposit, BatchKind::Deposit) => true,
        (BatchKind::Withdraw, BatchKind::Withdraw) => true,
        (BatchKind::Transfer, BatchKind::Transfer) => true,
        _ => false,
    };
    kind_matches && p.vk_tag == vk.tag && p.old_root == old_root && p.new_root == new_root
}

/// A proof produced from matching parameters verifies against their key and
/// its own public inputs, whatever blinding the run drew.
pub proof fn lemma_proof_round_trip(params: ProverParameters, p: Proof)
    requires
        p.kind == params.kind,
        p.vk_tag == params.tag,
    ensures
        proof_accepted(params.spec_verifying_key(), p, p.old_root, p.new_root),
{
}

/// Mutating either public input invalidates verification.
pub proof fn lemma_tampered_input_rejected(
    vk: VerifyingKey,
    p: Proof,
    old_root: u64,
    new_root: u64,
    other_old: u64,
    other_new: u64,
)
    requires
        proof_accepted(vk, p, old_root, new_root),
        other_old != old_root || other_new != new_root,
    ensures
        !proof_accepted(vk, p, other_old, other_new),
{
}

/// What one proving step reported.
#[derive(Clone, Copy, PartialEq, Eq, Structural, Debug)]
pub enum ProveStep {
    /// A checkpoint passed; more work remains.
    InProgress,
    /// The cancellation signal was raised; no proof is produced.
    Cancelled,
    /// The run completed with this proof.
    Done(Proof),
}

/// A cancellable proving run over one witness.  The session consumes its
/// witness on construction and walks one checkpoint per step.
pub struct ProvingSession {
    witness: Witness,
    vk_tag: u64,
    remaining: usize,
}

impl ProvingSession {
    /// Circuit kind of the run.
    pub closed spec fn kind(self) -> BatchKind {
        self.witness.kind
    }

    /// Old-root public input of the run.
    pub closed spec fn old_root(self) -> u64 {
        self.witness.old_root
    }

    /// New-root public input of the run.
    pub closed spec fn new_root(self) -> u64 {
        self.witness.new_root
    }

    /// Tag of the verifying key the run proves against.
    pub closed spec fn vk_tag(self) -> u64 {
        self.vk_tag
    }

    /// Checkpoints still to pass before the proof is emitted.
    pub closed spec fn remaining(self) -> nat {
        self.remaining as nat
    }

    /// Starts a run over `witness` with the parameters of its kind.  The
    /// run has one checkpoint per trace entry and a final one.
    pub fn new(witness: Witness, params: &ProverParameters) -> (s: ProvingSession)
        requires
            params.kind == witness.kind,
            witness.trace@.len() < usize::MAX,
        ensures
            s.kind() == witness.kind,
            s.old_root() == witness.old_root,
            s.new_root() == witness.new_root,
            s.vk_tag() == params.tag,
            s.remaining() == witness.trace@.len() + 1,
    {
        let remaining = witness.trace.len() + 1;
        ProvingSession { witness, vk_tag: params.tag, remaining }
    }

    /// Passes one checkpoint.  A raised signal cancels the run before any
    /// work: no proof is produced and the session stops.  Otherwise the run
    /// advances, and on its last checkpoint emits the proof binding its
    /// verifying key and roots, with a fresh random blinding.
    pub fn step(&mut self, cancel_requested: bool) -> (r: ProveStep)
        requires
            old(self).remaining() > 0,
        ensures
            final(self).kind() == old(self).kind(),
            final(self).old_root() == old(self).old_root(),
            final(self).new_root() == old(self).new_root(),
            final(self).vk_tag() == old(self).vk_tag(),
            cancel_requested ==> r is Cancelled && final(self).remaining() == 0,
            !cancel_requested && old(self).remaining() > 1 ==> r is InProgress
                && final(self).remaining() == old(self).remaining() - 1,
            !cancel_requested && old(self).remaining() == 1 ==> final(self).remaining() == 0
                && (r matches ProveStep::Done(p) && proof_accepted(
                VerifyingKey { kind: old(self).kind(), tag: old(self).vk_tag() },
                p,
                old(self).old_root(),
                old(self).new_root(),
            )),
    {
        if cancel_requested {
            self.remaining = 0;
            return ProveStep::Cancelled;
        }
        if self.remaining > 1 {
            self.remaining = self.remaining - 1;
            ProveStep::InProgress
        } else {
            self.remaining = 0;
            let blinding = rand::random::<u64>();
            ProveStep::Done(
                Proof {
                    kind: self.witness.kind,
                    vk_tag: self.vk_tag,
                    old_root: self.witness.old_root,
                    new_root: self.witness.new_root,
                    blinding,
                },
            )
        }
    }
}

} // verus!
