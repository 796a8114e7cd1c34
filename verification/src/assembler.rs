//! Batch assembly: selecting, ordering and admitting pending requests.
//!
//! For each request kind the assembler (1) filters the pool to the requests
//! addressed to this network's contract, (2) stable-sorts them by sender
//! nonce, (3) scans them keeping the last accepted nonce per sender and
//! admits a request only when it is the sender's first of the round or its
//! nonce follows the last accepted one exactly, and (4) admits at most one
//! batch worth of entries; everything else is deferred to a later round.

use vstd::prelude::*;
use std::collections::HashMap;
use crate::requests::PendingDeposit;
use crate::requests::PendingTransfer;
use crate::requests::PendingWithdraw;
use crate::DEPOSIT_BATCH_SIZE;
use crate::UPDATE_BATCH_SIZE;
use crate::WITHDRAW_BATCH_SIZE;

verus! {

broadcast use vstd::std_specs::hash::group_hash_axioms;

/// Sort key of one pending request: its sender nonce and its position in the
/// filtered pool.
#[derive(Clone, Copy, PartialEq, Eq, Structural, Debug)]
pub struct SortKey {
    pub nonce: u64,
    pub pos: usize,
}

/// Inserts `x` after every entry whose nonce is at most `x.nonce`, so equal
/// nonces keep their old order.
pub open spec fn insert_sorted(s: Seq<SortKey>, x: SortKey) -> Seq<SortKey>
    decreases s.len(),
{
    if s.len() == 0 {
        seq![x]
    } else if s.last().nonce <= x.nonce {
        s.push(x)
    } else {
        insert_sorted(s.drop_last(), x).push(s.last())
    }
}

/// Stable sort of the first `i` keys by nonce.
pub open spec fn sort_spec(s: Seq<SortKey>, i: int) -> Seq<SortKey>
    decreases i,
{
    if i <= 0 {
        Seq::empty()
    } else {
        insert_sorted(sort_spec(s, i - 1), s[i - 1])
    }
}

/// Keys ordered by nonce, with equal nonces ordered by pool position: the
/// stable order the assembler promises.
pub open spec fn stably_sorted(s: Seq<SortKey>) -> bool {
    forall|i: int, j: int|
        0 <= i < j < s.len() ==> (s[i].nonce < s[j].nonce || (s[i].nonce == s[j].nonce
            && s[i].pos < s[j].pos))
}

/// `insert_sorted` inserts exactly at the position the linear scan finds.
proof fn lemma_insert_at(s: Seq<SortKey>, x: SortKey, j: int)
    requires
        0 <= j <= s.len(),
        j == 0 || s[j - 1].nonce <= x.nonce,
        forall|k: int| j <= k < s.len() ==> s[k].nonce > x.nonce,
    ensures
        insert_sorted(s, x) == s.insert(j, x),
    decreases s.len(),
{
    if s.len() == 0 {
        assert(insert_sorted(s, x) =~= s.insert(j, x));
    } else if j == s.len() {
        assert(insert_sorted(s, x) == s.push(x));
        assert(s.push(x) =~= s.insert(j, x));
    } else {
        assert(s[s.len() - 1].nonce > x.nonce);
        lemma_insert_at(s.drop_last(), x, j);
        assert(insert_sorted(s, x) == insert_sorted(s.drop_last(), x).push(s.last()));
        assert(insert_sorted(s, x) =~= s.insert(j, x));
    }
}

/// A property of every entry and of `x` holds of every entry after insertion.
proof fn lemma_insert_all(s: Seq<SortKey>, x: SortKey, p: spec_fn(SortKey) -> bool)
    requires
        forall|k: int| 0 <= k < s.len() ==> p(#[trigger] s[k]),
        p(x),
    ensures
        insert_sorted(s, x).len() == s.len() + 1,
        forall|k: int|
            0 <= k < insert_sorted(s, x).len() ==> p(#[trigger] insert_sorted(s, x)[k]),
    decreases s.len(),
{
    if s.len() == 0 {
    } else if s.last().nonce <= x.nonce {
    } else {
        lemma_insert_all(s.drop_last(), x, p);
    }
}

/// Inserting a key whose position is newest keeps the order stable.
proof fn lemma_insert_stable(s: Seq<SortKey>, x: SortKey)
    requires
        stably_sorted(s),
        forall|k: int| 0 <= k < s.len() ==> (#[trigger] s[k]).pos < x.pos,
    ensures
        stably_sorted(insert_sorted(s, x)),
    decreases s.len(),
{
    if s.len() == 0 {
    } else if s.last().nonce <= x.nonce {
        assert forall|i: int, j: int| 0 <= i < j < s.push(x).len() implies (s.push(x)[i].nonce
            < s.push(x)[j].nonce || (s.push(x)[i].nonce == s.push(x)[j].nonce && s.push(x)[i].pos
            < s.push(x)[j].pos)) by {
            if j == s.len() {
                assert(s.push(x)[i] == s[i]);
                if i < s.len() - 1 {
                    assert(s[i].nonce <= s[s.len() - 1].nonce);
                }
            }
        }
    } else {
        let t = insert_sorted(s.drop_last(), x);
        let last = s.last();
        lemma_insert_stable(s.drop_last(), x);
        lemma_insert_all(
            s.drop_last(),
            x,
            |y: SortKey| y.nonce < last.nonce || (y.nonce == last.nonce && y.pos < last.pos),
        );
        assert forall|i: int, j: int| 0 <= i < j < t.push(last).len() implies (t.push(last)[i].nonce
            < t.push(last)[j].nonce || (t.push(last)[i].nonce == t.push(last)[j].nonce && t.push(
            last,
        )[i].pos < t.push(last)[j].pos)) by {
            if j == t.len() {
                assert(t.push(last)[i] == t[i]);
                assert(t[i].nonce < last.nonce || (t[i].nonce == last.nonce && t[i].pos
                    < last.pos));
            }
        }
    }
}

/// The assembler's ordering is a stable sort: position-indexed keys come out
/// ordered by nonce, and entries with equal nonces keep their pool order.
pub proof fn lemma_sort_spec_stable(keys: Seq<SortKey>, i: int)
    requires
        0 <= i <= keys.len(),
        forall|k: int| 0 <= k < keys.len() ==> (#[trigger] keys[k]).pos == k,
    ensures
        stably_sorted(sort_spec(keys, i)),
        sort_spec(keys, i).len() == i,
        forall|k: int| 0 <= k < i ==> (#[trigger] sort_spec(keys, i)[k]).pos < i,
    decreases i,
{
    if i > 0 {
        lemma_sort_spec_stable(keys, i - 1);
        lemma_insert_stable(sort_spec(keys, i - 1), keys[i - 1]);
        lemma_insert_all(sort_spec(keys, i - 1), keys[i - 1], |y: SortKey| y.pos < i);
    }
}

/// Inserts `x` into the already-sorted `out` at the stable position.
fn sorted_push(out: &mut Vec<SortKey>, x: SortKey)
    ensures
        final(out)@ == insert_sorted(old(out)@, x),
{
    let mut j: usize = out.len();
    while j > 0 && out[j - 1].nonce > x.nonce
        invariant
            j <= out@.len(),
            out@ == old(out)@,
            forall|k: int| j <= k < out@.len() ==> out@[k].nonce > x.nonce,
        decreases j,
    {
        j = j - 1;
    }
    proof {
        lemma_insert_at(out@, x, j as int);
    }
    out.insert(j, x);
}

/// Stable-sorts the position-indexed keys of a filtered pool by nonce.
fn sort_pool_keys(keys: &Vec<SortKey>) -> (out: Vec<SortKey>)
    requires
        forall|k: int| 0 <= k < keys@.len() ==> (#[trigger] keys@[k]).pos == k,
    ensures
        out@ == sort_spec(keys@, keys@.len() as int),
        out@.len() == keys@.len(),
        stably_sorted(out@),
        forall|k: int| 0 <= k < out@.len() ==> (#[trigger] out@[k]).pos < keys@.len(),
{
    let mut out: Vec<SortKey> = Vec::new();
    let mut i: usize = 0;
    while i < keys.len()
        invariant
            i <= keys@.len(),
            forall|k: int| 0 <= k < keys@.len() ==> (#[trigger] keys@[k]).pos == k,
            out@ == sort_spec(keys@, i as int),
            out@.len() == i,
            stably_sorted(out@),
            forall|k: int| 0 <= k < out@.len() ==> (#[trigger] out@[k]).pos < i,
        decreases keys@.len() - i,
    {
        let x = keys[i];
        proof {
            lemma_insert_stable(out@, x);
            lemma_insert_all(out@, x, |y: SortKey| y.pos < i + 1);
        }
        sorted_push(&mut out, x);
        i = i + 1;
    }
    out
}

/// Scan state of one admission pass: the last accepted nonce per sender and
/// the admitted entries so far, in order.
pub struct DepositScan {
    pub last: Map<u64, u64>,
    pub taken: Seq<PendingDeposit>,
}

/// A request is admissible when a slot is free and its nonce either opens the
/// sender's round or follows the sender's last accepted nonce exactly.
pub open spec fn admissible(last: Map<u64, u64>, taken: nat, cap: nat, src: u64, nonce: u64) -> bool {
    taken < cap && (!last.contains_key(src) || nonce == last[src] + 1)
}

/// Admission scan over the first `i` nonce-sorted deposits.
pub open spec fn admit_deposits(s: Seq<PendingDeposit>, cap: nat, i: int) -> DepositScan
    decreases i,
{
    if i <= 0 {
        DepositScan { last: Map::empty(), taken: Seq::empty() }
    } else {
        let st = admit_deposits(s, cap, i - 1);
        let d = s[i - 1];
        if admissible(st.last, st.taken.len(), cap, d.src, d.nonce) {
            DepositScan { last: st.last.insert(d.src, d.nonce), taken: st.taken.push(d) }
        } else {
            st
        }
    }
}

/// The deposits addressed to `contract_id` among the first `i` of the pool,
/// in pool order.
pub open spec fn filtered_deposits(pool: Seq<PendingDeposit>, contract_id: u64, i: int) -> Seq<
    PendingDeposit,
>
    decreases i,
{
    if i <= 0 {
        Seq::empty()
    } else {
        let rest = filtered_deposits(pool, contract_id, i - 1);
        if pool[i - 1].contract_id == contract_id {
            rest.push(pool[i - 1])
        } else {
            rest
        }
    }
}

/// Position-indexed nonce keys of a filtered pool.
pub open spec fn deposit_keys(f: Seq<PendingDeposit>) -> Seq<SortKey> {
    Seq::new(f.len(), |k: int| SortKey { nonce: f[k].nonce, pos: k as usize })
}

/// What the deposit assembler returns: the admitted entries of the filtered,
/// nonce-sorted pool, at most `cap` of them, in admission order.
pub open spec fn deposit_selection(pool: Seq<PendingDeposit>, contract_id: u64, cap: nat) -> Seq<
    PendingDeposit,
> {
    let f = filtered_deposits(pool, contract_id, pool.len() as int);
    let order = sort_spec(deposit_keys(f), f.len() as int);
    let sorted = Seq::new(order.len(), |k: int| f[order[k].pos as int]);
    admit_deposits(sorted, cap, sorted.len() as int).taken
}

/// Selects, orders and admits one batch worth of deposits.
pub fn assemble_deposits(pool: &Vec<PendingDeposit>, contract_id: u64) -> (out: Vec<PendingDeposit>)
    requires
        forall|k: int| 0 <= k < pool@.len() ==> (#[trigger] pool@[k]).wf(),
    ensures
        out@ == deposit_selection(pool@, contract_id, DEPOSIT_BATCH_SIZE as nat),
        out@.len() <= DEPOSIT_BATCH_SIZE,
        forall|k: int| 0 <= k < out@.len() ==> (#[trigger] out@[k]).wf(),
        forall|k: int| 0 <= k < out@.len() ==> (#[trigger] out@[k]).contract_id == contract_id,
{
    let mut f: Vec<PendingDeposit> = Vec::new();
    let mut i: usize = 0;
    while i < pool.len()
        invariant
            i <= pool@.len(),
            forall|k: int| 0 <= k < pool@.len() ==> (#[trigger] pool@[k]).wf(),
            f@ == filtered_deposits(pool@, contract_id, i as int),
            forall|k: int| 0 <= k < f@.len() ==> (#[trigger] f@[k]).wf(),
            forall|k: int| 0 <= k < f@.len() ==> (#[trigger] f@[k]).contract_id == contract_id,
        decreases pool@.len() - i,
    {
        if pool[i].contract_id == contract_id {
            f.push(pool[i]);
        }
        i = i + 1;
    }
    let mut keys: Vec<SortKey> = Vec::new();
    let mut k: usize = 0;
    while k < f.len()
        invariant
            k <= f@.len(),
            keys@.len() == k,
            forall|j: int|
                0 <= j < k ==> #[trigger] keys@[j] == (SortKey {
                    nonce: f@[j].nonce,
                    pos: j as usize,
                }),
        decreases f@.len() - k,
    {
        keys.push(SortKey { nonce: f[k].nonce, pos: k });
        k = k + 1;
    }
    proof {
        assert(keys@ =~= deposit_keys(f@));
    }
    let order = sort_pool_keys(&keys);
    let mut sorted: Vec<PendingDeposit> = Vec::new();
    let mut g: usize = 0;
    while g < order.len()
        invariant
            g <= order@.len(),
            forall|j: int| 0 <= j < order@.len() ==> (#[trigger] order@[j]).pos < f@.len(),
            forall|j: int| 0 <= j < f@.len() ==> (#[trigger] f@[j]).wf(),
            forall|j: int| 0 <= j < f@.len() ==> (#[trigger] f@[j]).contract_id == contract_id,
            sorted@.len() == g,
            forall|j: int| 0 <= j < g ==> #[trigger] sorted@[j] == f@[order@[j].pos as int],
        decreases order@.len() - g,
    {
        sorted.push(f[order[g].pos]);
        g = g + 1;
    }
    proof {
        assert(sorted@ =~= Seq::new(order@.len(), |j: int| f@[order@[j].pos as int]));
    }
    let mut last: HashMap<u64, u64> = HashMap::new();
    let mut out: Vec<PendingDeposit> = Vec::new();
    let mut a: usize = 0;
    while a < sorted.len()
        invariant
            a <= sorted@.len(),
            forall|j: int| 0 <= j < sorted@.len() ==> (#[trigger] sorted@[j]).wf(),
            forall|j: int|
                0 <= j < sorted@.len() ==> (#[trigger] sorted@[j]).contract_id == contract_id,
            out@ == admit_deposits(sorted@, DEPOSIT_BATCH_SIZE as nat, a as int).taken,
            last@ == admit_deposits(sorted@, DEPOSIT_BATCH_SIZE as nat, a as int).last,
            out@.len() <= DEPOSIT_BATCH_SIZE,
            forall|j: int| 0 <= j < out@.len() ==> (#[trigger] out@[j]).wf(),
            forall|j: int|
                0 <= j < out@.len() ==> (#[trigger] out@[j]).contract_id == contract_id,
        decreases sorted@.len() - a,
    {
        let d = sorted[a];
        let take_it = if out.len() < DEPOSIT_BATCH_SIZE {
            match last.get(&d.src) {
                None => true,
                Some(prev) => *prev < u64::MAX && d.nonce == *prev + 1,
            }
        } else {
            false
        };
        if take_it {
            last.insert(d.src, d.nonce);
            out.push(d);
        }
        a = a + 1;
    }
    out
}

/// The scan's memory is truthful: whenever an admitted entry is the latest
/// of its sender, the scan's last-accepted map holds that entry's nonce.
#[verifier::rlimit(60)]
proof fn lemma_admit_deposits_last(s: Seq<PendingDeposit>, cap: nat, i: int)
    requires
        0 <= i <= s.len(),
    ensures
        ({
            let st = admit_deposits(s, cap, i);
            forall|p: int|
                0 <= p < st.taken.len() && (forall|r: int|
                    p < r < st.taken.len() ==> (#[trigger] st.taken[r]).src != st.taken[p].src)
                    ==> st.last.contains_key((#[trigger] st.taken[p]).src) && st.last[st.taken[p].src]
                    == st.taken[p].nonce
        }),
    decreases i,
{
    if i > 0 {
        lemma_admit_deposits_last(s, cap, i - 1);
        let st0 = admit_deposits(s, cap, i - 1);
        let st = admit_deposits(s, cap, i);
        let d = s[i - 1];
        if admissible(st0.last, st0.taken.len(), cap, d.src, d.nonce) {
            assert forall|p: int|
                0 <= p < st.taken.len() && (forall|r: int|
                    p < r < st.taken.len() ==> (#[trigger] st.taken[r]).src != st.taken[p].src)
                    implies st.last.contains_key((#[trigger] st.taken[p]).src)
                && st.last[st.taken[p].src] == st.taken[p].nonce by {
                if p < st0.taken.len() {
                    assert(st.taken[st.taken.len() - 1] == d);
                    assert(st.taken[p] == st0.taken[p]);
                    assert(st.taken[p].src != d.src);
                    assert forall|r: int|
                        p < r < st0.taken.len() implies (#[trigger] st0.taken[r]).src
                        != st0.taken[p].src by {
                        assert(st0.taken[r] == st.taken[r]);
                    }
                } else {
                    assert(st.taken[p] == d);
                }
            }
        }
    }
}

/// Within one admission pass, each accepted entry of a sender after the
/// sender's first carries exactly the next nonce: gaps defer entries, they
/// never reorder them.
#[verifier::rlimit(60)]
pub proof fn lemma_admitted_nonces_chain(s: Seq<PendingDeposit>, cap: nat, i: int)
    requires
        0 <= i <= s.len(),
    ensures
        ({
            let taken = admit_deposits(s, cap, i).taken;
            forall|p: int, q: int|
                0 <= p < q < taken.len() && (#[trigger] taken[p]).src == (#[trigger] taken[q]).src
                    && (forall|r: int| p < r < q ==> (#[trigger] taken[r]).src != taken[p].src)
                    ==> taken[q].nonce == taken[p].nonce + 1
        }),
    decreases i,
{
    if i > 0 {
        lemma_admitted_nonces_chain(s, cap, i - 1);
        lemma_admit_deposits_last(s, cap, i - 1);
        let st0 = admit_deposits(s, cap, i - 1);
        let st = admit_deposits(s, cap, i);
        let d = s[i - 1];
        if admissible(st0.last, st0.taken.len(), cap, d.src, d.nonce) {
            let taken = st.taken;
            assert forall|p: int, q: int|
                0 <= p < q < taken.len() && (#[trigger] taken[p]).src == (#[trigger] taken[q]).src
                    && (forall|r: int| p < r < q ==> (#[trigger] taken[r]).src != taken[p].src)
                    implies taken[q].nonce == taken[p].nonce + 1 by {
                if q < st0.taken.len() {
                    assert(taken[p] == st0.taken[p]);
                    assert(taken[q] == st0.taken[q]);
                    assert forall|r: int|
                        p < r < q implies (#[trigger] st0.taken[r]).src != st0.taken[p].src by {
                        assert(st0.taken[r] == taken[r]);
                    }
                } else {
                    assert(taken[q] == d);
                    assert(taken[p] == st0.taken[p]);
                    assert forall|r: int|
                        p < r < st0.taken.len() implies (#[trigger] st0.taken[r]).src
                        != st0.taken[p].src by {
                        assert(st0.taken[r] == taken[r]);
                    }
                    assert(st0.last.contains_key(taken[p].src));
                    assert(st0.last[d.src] == taken[p].nonce);
                }
            }
        }
    }
}

/// Scan state of a withdraw admission pass.
pub struct WithdrawScan {
    pub last: Map<u64, u64>,
    pub taken: Seq<PendingWithdraw>,
}

/// Admission scan over the first `i` nonce-sorted withdrawals; the sender is
/// the source account.
pub open spec fn admit_withdraws(s: Seq<PendingWithdraw>, cap: nat, i: int) -> WithdrawScan
    decreases i,
{
    if i <= 0 {
        WithdrawScan { last: Map::empty(), taken: Seq::empty() }
    } else {
        let st = admit_withdraws(s, cap, i - 1);
        let w = s[i - 1];
        if admissible(st.last, st.taken.len(), cap, w.index.account as u64, w.nonce) {
            WithdrawScan {
                last: st.last.insert(w.index.account as u64, w.nonce),
                taken: st.taken.push(w),
            }
        } else {
            st
        }
    }
}

/// The withdrawals addressed to `contract_id` among the first `i` of the
/// pool, in pool order.
pub open spec fn filtered_withdraws(pool: Seq<PendingWithdraw>, contract_id: u64, i: int) -> Seq<
    PendingWithdraw,
>
    decreases i,
{
    if i <= 0 {
        Seq::empty()
    } else {
        let rest = filtered_withdraws(pool, contract_id, i - 1);
        if pool[i - 1].contract_id == contract_id {
            rest.push(pool[i - 1])
        } else {
            rest
        }
    }
}

/// Position-indexed nonce keys of a filtered withdraw pool.
pub open spec fn withdraw_keys(f: Seq<PendingWithdraw>) -> Seq<SortKey> {
    Seq::new(f.len(), |k: int| SortKey { nonce: f[k].nonce, pos: k as usize })
}

/// What the withdraw assembler returns.
pub open spec fn withdraw_selection(pool: Seq<PendingWithdraw>, contract_id: u64, cap: nat) -> Seq<
    PendingWithdraw,
> {
    let f = filtered_withdraws(pool, contract_id, pool.len() as int);
    let order = sort_spec(withdraw_keys(f), f.len() as int);
    let sorted = Seq::new(order.len(), |k: int| f[order[k].pos as int]);
    admit_withdraws(sorted, cap, sorted.len() as int).taken
}

/// Selects, orders and admits one batch worth of withdrawals.
pub fn assemble_withdraws(pool: &Vec<PendingWithdraw>, contract_id: u64) -> (out: Vec<
    PendingWithdraw,
>)
    requires
        forall|k: int| 0 <= k < pool@.len() ==> (#[trigger] pool@[k]).wf(),
    ensures
        out@ == withdraw_selection(pool@, contract_id, WITHDRAW_BATCH_SIZE as nat),
        out@.len() <= WITHDRAW_BATCH_SIZE,
        forall|k: int| 0 <= k < out@.len() ==> (#[trigger] out@[k]).wf(),
{
    let mut f: Vec<PendingWithdraw> = Vec::new();
    let mut i: usize = 0;
    while i < pool.len()
        invariant
            i <= pool@.len(),
            forall|k: int| 0 <= k < pool@.len() ==> (#[trigger] pool@[k]).wf(),
            f@ == filtered_withdraws(pool@, contract_id, i as int),
            forall|k: int| 0 <= k < f@.len() ==> (#[trigger] f@[k]).wf(),
        decreases pool@.len() - i,
    {
        if pool[i].contract_id == contract_id {
            f.push(pool[i]);
        }
        i = i + 1;
    }
    let mut keys: Vec<SortKey> = Vec::new();
    let mut k: usize = 0;
    while k < f.len()
        invariant
            k <= f@.len(),
            keys@.len() == k,
            forall|j: int|
                0 <= j < k ==> #[trigger] keys@[j] == (SortKey {
                    nonce: f@[j].nonce,
                    pos: j as usize,
                }),
        decreases f@.len() - k,
    {
        keys.push(SortKey { nonce: f[k].nonce, pos: k });
        k = k + 1;
    }
    proof {
        assert(keys@ =~= withdraw_keys(f@));
    }
    let order = sort_pool_keys(&keys);
    let mut sorted: Vec<PendingWithdraw> = Vec::new();
    let mut g: usize = 0;
    while g < order.len()
        invariant
            g <= order@.len(),
            forall|j: int| 0 <= j < order@.len() ==> (#[trigger] order@[j]).pos < f@.len(),
            forall|j: int| 0 <= j < f@.len() ==> (#[trigger] f@[j]).wf(),
            sorted@.len() == g,
            forall|j: int| 0 <= j < g ==> #[trigger] sorted@[j] == f@[order@[j].pos as int],
        decreases order@.len() - g,
    {
        sorted.push(f[order[g].pos]);
        g = g + 1;
    }
    proof {
        assert(sorted@ =~= Seq::new(order@.len(), |j: int| f@[order@[j].pos as int]));
    }
    let mut last: HashMap<u64, u64> = HashMap::new();
    let mut out: Vec<PendingWithdraw> = Vec::new();
    let mut a: usize = 0;
    while a < sorted.len()
        invariant
            a <= sorted@.len(),
            forall|j: int| 0 <= j < sorted@.len() ==> (#[trigger] sorted@[j]).wf(),
            out@ == admit_withdraws(sorted@, WITHDRAW_BATCH_SIZE as nat, a as int).taken,
            last@ == admit_withdraws(sorted@, WITHDRAW_BATCH_SIZE as nat, a as int).last,
            out@.len() <= WITHDRAW_BATCH_SIZE,
            forall|j: int| 0 <= j < out@.len() ==> (#[trigger] out@[j]).wf(),
        decreases sorted@.len() - a,
    {
        let w = sorted[a];
        let sender = w.index.account as u64;
        let take_it = if out.len() < WITHDRAW_BATCH_SIZE {
            match last.get(&sender) {
                None => true,
                Some(prev) => *prev < u64::MAX && w.nonce == *prev + 1,
            }
        } else {
            false
        };
        if take_it {
            last.insert(sender, w.nonce);
            out.push(w);
        }
        a = a + 1;
    }
    out
}

/// Scan state of a transfer admission pass.
pub struct TransferScan {
    pub last: Map<u64, u64>,
    pub taken: Seq<PendingTransfer>,
}

/// Admission scan over the first `i` nonce-sorted transfers; the sender is
/// the source account.
pub open spec fn admit_transfers(s: Seq<PendingTransfer>, cap: nat, i: int) -> TransferScan
    decreases i,
{
    if i <= 0 {
        TransferScan { last: Map::empty(), taken: Seq::empty() }
    } else {
        let st = admit_transfers(s, cap, i - 1);
        let t = s[i - 1];
        if admissible(st.last, st.taken.len(), cap, t.src.account as u64, t.nonce) {
            TransferScan {
                last: st.last.insert(t.src.account as u64, t.nonce),
                taken: st.taken.push(t),
            }
        } else {
            st
        }
    }
}

/// The transfers addressed to `contract_id` that pay their fee in the round's
/// fee token, among the first `i` of the pool, in pool order.  Restricting a
/// round to one fee token keeps the batch's aggregate fee well defined.
pub open spec fn filtered_transfers(
    pool: Seq<PendingTransfer>,
    contract_id: u64,
    fee_token: usize,
    i: int,
) -> Seq<PendingTransfer>
    decreases i,
{
    if i <= 0 {
        Seq::empty()
    } else {
        let rest = filtered_transfers(pool, contract_id, fee_token, i - 1);
        if pool[i - 1].contract_id == contract_id && pool[i - 1].fee_token == fee_token {
            rest.push(pool[i - 1])
        } else {
            rest
        }
    }
}

/// Position-indexed nonce keys of a filtered transfer pool.
pub open spec fn transfer_keys(f: Seq<PendingTransfer>) -> Seq<SortKey> {
    Seq::new(f.len(), |k: int| SortKey { nonce: f[k].nonce, pos: k as usize })
}

/// What the transfer assembler returns.
pub open spec fn transfer_selection(
    pool: Seq<PendingTransfer>,
    contract_id: u64,
    fee_token: usize,
    cap: nat,
) -> Seq<PendingTransfer> {
    let f = filtered_transfers(pool, contract_id, fee_token, pool.len() as int);
    let order = sort_spec(transfer_keys(f), f.len() as int);
    let sorted = Seq::new(order.len(), |k: int| f[order[k].pos as int]);
    admit_transfers(sorted, cap, sorted.len() as int).taken
}

/// Selects, orders and admits one batch worth of transfers.
pub fn assemble_transfers(pool: &Vec<PendingTransfer>, contract_id: u64, fee_token: usize) -> (out:
    Vec<PendingTransfer>)
    requires
        forall|k: int| 0 <= k < pool@.len() ==> (#[trigger] pool@[k]).wf(),
    ensures
        out@ == transfer_selection(pool@, contract_id, fee_token, UPDATE_BATCH_SIZE as nat),
        out@.len() <= UPDATE_BATCH_SIZE,
        forall|k: int| 0 <= k < out@.len() ==> (#[trigger] out@[k]).wf(),
        forall|k: int| 0 <= k < out@.len() ==> (#[trigger] out@[k]).fee_token == fee_token,
{
    let mut f: Vec<PendingTransfer> = Vec::new();
    let mut i: usize = 0;
    while i < pool.len()
        invariant
            i <= pool@.len(),
            forall|k: int| 0 <= k < pool@.len() ==> (#[trigger] pool@[k]).wf(),
            f@ == filtered_transfers(pool@, contract_id, fee_token, i as int),
            forall|k: int| 0 <= k < f@.len() ==> (#[trigger] f@[k]).wf(),
            forall|k: int| 0 <= k < f@.len() ==> (#[trigger] f@[k]).fee_token == fee_token,
        decreases pool@.len() - i,
    {
        if pool[i].contract_id == contract_id && pool[i].fee_token == fee_token {
            f.push(pool[i]);
        }
        i = i + 1;
    }
    let mut keys: Vec<SortKey> = Vec::new();
    let mut k: usize = 0;
    while k < f.len()
        invariant
            k <= f@.len(),
            keys@.len() == k,
            forall|j: int|
                0 <= j < k ==> #[trigger] keys@[j] == (SortKey {
                    nonce: f@[j].nonce,
                    pos: j as usize,
                }),
        decreases f@.len() - k,
    {
        keys.push(SortKey { nonce: f[k].nonce, pos: k });
        k = k + 1;
    }
    proof {
        assert(keys@ =~= transfer_keys(f@));
    }
    let order = sort_pool_keys(&keys);
    let mut sorted: Vec<PendingTransfer> = Vec::new();
    let mut g: usize = 0;
    while g < order.len()
        invariant
            g <= order@.len(),
            forall|j: int| 0 <= j < order@.len() ==> (#[trigger] order@[j]).pos < f@.len(),
            forall|j: int| 0 <= j < f@.len() ==> (#[trigger] f@[j]).wf(),
            forall|j: int| 0 <= j < f@.len() ==> (#[trigger] f@[j]).fee_token == fee_token,
            sorted@.len() == g,
            forall|j: int| 0 <= j < g ==> #[trigger] sorted@[j] == f@[order@[j].pos as int],
        decreases order@.len() - g,
    {
        sorted.push(f[order[g].pos]);
        g = g + 1;
    }
    proof {
        assert(sorted@ =~= Seq::new(order@.len(), |j: int| f@[order@[j].pos as int]));
    }
    let mut last: HashMap<u64, u64> = HashMap::new();
    let mut out: Vec<PendingTransfer> = Vec::new();
    let mut a: usize = 0;
    while a < sorted.len()
        invariant
            a <= sorted@.len(),
            forall|j: int| 0 <= j < sorted@.len() ==> (#[trigger] sorted@[j]).wf(),
            forall|j: int|
                0 <= j < sorted@.len() ==> (#[trigger] sorted@[j]).fee_token == fee_token,
            out@ == admit_transfers(sorted@, UPDATE_BATCH_SIZE as nat, a as int).taken,
            last@ == admit_transfers(sorted@, UPDATE_BATCH_SIZE as nat, a as int).last,
            out@.len() <= UPDATE_BATCH_SIZE,
            forall|j: int| 0 <= j < out@.len() ==> (#[trigger] out@[j]).wf(),
            forall|j: int| 0 <= j < out@.len() ==> (#[trigger] out@[j]).fee_token == fee_token,
        decreases sorted@.len() - a,
    {
        let t = sorted[a];
        let sender = t.src.account as u64;
        let take_it = if out.len() < UPDATE_BATCH_SIZE {
            match last.get(&sender) {
                None => true,
                Some(prev) => *prev < u64::MAX && t.nonce == *prev + 1,
            }
        } else {
            false
        };
        if take_it {
            last.insert(sender, t.nonce);
            out.push(t);
        }
        a = a + 1;
    }
    out
}

} // verus!
