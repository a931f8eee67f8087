use vstd::prelude::*;

use crate::cell::{Decision, RateCell};
use crate::policy::Policy;
use crate::store::{check_key_rel, spec_stale, KeyedStore};

verus! {

/// The cell state after a sequence of checks at the given times, earliest
/// first.
pub open spec fn cell_after_checks(c: RateCell, p: Policy, times: Seq<u64>) -> RateCell
    decreases times.len(),
{
    if times.len() == 0 {
        c
    } else {
        cell_after_checks(c.spec_checked(p, times[0]), p, times.skip(1))
    }
}

/// The cell state after `n` checks all at the instant `now`.
pub open spec fn checks_at_instant(c: RateCell, p: Policy, now: u64, n: nat) -> RateCell
    decreases n,
{
    if n == 0 {
        c
    } else {
        checks_at_instant(c, p, now, (n - 1) as nat).spec_checked(p, now)
    }
}

/// How many of `n` checks at the instant `now` admit. Because per-key checks
/// are serialized, any interleaving of `n` simultaneous checks on one key is
/// some sequence counted here.
pub open spec fn admitted_at_instant(c: RateCell, p: Policy, now: u64, n: nat) -> nat
    decreases n,
{
    if n == 0 {
        0
    } else {
        (if c.spec_allowed(p, now) {
            1 as nat
        } else {
            0 as nat
        }) + admitted_at_instant(c.spec_checked(p, now), p, now, (n - 1) as nat)
    }
}

/// One check keeps the cell invariant: the level stays no higher than a full
/// bucket (and, being unsigned, no lower than zero).
pub proof fn lemma_check_preserves_wf(c: RateCell, p: Policy, now: u64)
    requires
        p.wf(),
        c.wf(p),
    ensures
        c.spec_checked(p, now).wf(p),
{
    assert(0 <= c.spec_elapsed(now) * (p.capacity as int)) by (nonlinear_arith)
        requires 0 <= c.spec_elapsed(now), 0 <= p.capacity;
    assert(0 <= p.bucket_max()) by (nonlinear_arith)
        requires 0 <= p.capacity, 0 <= p.period;
}

/// Bucket monotonicity: whatever sequence of checks is run against a cell,
/// the token level never exceeds a full bucket and never drops below zero.
pub proof fn lemma_bucket_bounded(c: RateCell, p: Policy, times: Seq<u64>)
    requires
        p.wf(),
        c.wf(p),
    ensures
        0 <= cell_after_checks(c, p, times).available,
        cell_after_checks(c, p, times).available as int <= p.bucket_max(),
    decreases times.len(),
{
    if times.len() == 0 {
    } else {
        lemma_check_preserves_wf(c, p, times[0]);
        lemma_bucket_bounded(c.spec_checked(p, times[0]), p, times.skip(1));
    }
}

/// Burst admission: starting from a full bucket created at `now`, after
/// `k <= capacity` checks at that same instant the level is exactly
/// `capacity - k` admissions' worth, so each of the first `capacity` checks
/// admits and the check after them is denied.
pub proof fn lemma_burst_admission(p: Policy, now: u64, k: nat)
    requires
        p.wf(),
        k <= p.capacity,
    ensures
        ({
            let c = checks_at_instant(RateCell::spec_full(p, now), p, now, k);
            c.last_refill == now && c.available as int == (p.capacity - k) * (p.period as int)
                && (k < p.capacity ==> c.spec_allowed(p, now)) && (k == p.capacity
                ==> !c.spec_allowed(p, now))
        }),
    decreases k,
{
    let full = RateCell::spec_full(p, now);
    let c = checks_at_instant(full, p, now, k);
    assert(0 <= p.bucket_max() && (p.capacity - k) * (p.period as int) <= p.bucket_max()
        && 0 <= (p.capacity - k) * (p.period as int)
        && (k < p.capacity ==> (p.period as int) <= (p.capacity - k) * (p.period as int)))
        by (nonlinear_arith)
        requires 0 <= k <= p.capacity, 1 <= p.period;
    if k == 0 {
        assert((p.capacity - 0) * (p.period as int) == p.bucket_max()) by (nonlinear_arith);
        assert(c == full);
        assert(c.available as int == p.bucket_max());
    } else {
        lemma_burst_admission(p, now, (k - 1) as nat);
        let prev = checks_at_instant(full, p, now, (k - 1) as nat);
        assert((p.capacity - (k - 1)) * (p.period as int) - (p.period as int)
            == (p.capacity - k) * (p.period as int)) by (nonlinear_arith);
        assert((p.capacity - (k - 1)) * (p.period as int) <= p.bucket_max()
            && (p.period as int) <= (p.capacity - (k - 1)) * (p.period as int))
            by (nonlinear_arith)
            requires 1 <= k <= p.capacity, 1 <= p.period;
        assert(prev.spec_elapsed(now) == 0);
        assert(prev.spec_refilled(p, now) == prev.available);
        assert(prev.spec_allowed(p, now));
        assert(c == prev.spec_checked(p, now));
        assert(c.available as int == (p.capacity - k) * (p.period as int));
    }
    assert(c.last_refill == now);
    assert(c.spec_elapsed(now) == 0);
    assert(c.spec_refilled(p, now) == c.available as int);
    if k < p.capacity {
        assert(c.spec_allowed(p, now));
    }
    if k == p.capacity {
        assert((p.capacity - k) * (p.period as int) == 0) by (nonlinear_arith)
            requires k == p.capacity;
        assert(c.available as int == 0);
        assert(!c.spec_allowed(p, now));
    }
}

/// The rounded-up quotient `q = (d + c - 1) / c` is the least multiple
/// count with `q * c >= d`: one fewer factor already falls short.
pub proof fn lemma_ceil_div_exact(d: int, c: int)
    requires
        1 <= d,
        1 <= c,
    ensures
        ((d + c - 1) / c) * c >= d,
        (((d + c - 1) / c) - 1) * c <= d - 1,
{
    let q = (d + c - 1) / c;
    vstd::arithmetic::div_mod::lemma_fundamental_div_mod(d + c - 1, c);
    vstd::arithmetic::div_mod::lemma_mod_bound(d + c - 1, c);
    assert(c * q == d + c - 1 - ((d + c - 1) % c));
    assert(q * c == c * q) by (nonlinear_arith);
    assert((q - 1) * c == q * c - c) by (nonlinear_arith);
}

/// Refill correctness: after a denial at `t`, a retry at any `t2 >= t` is
/// admitted exactly when the elapsed wait `t2 - t` reaches the `retry_after`
/// the denial returned — waiting exactly that long is admitted, waiting any
/// less is denied again.
pub proof fn lemma_refill_correctness(c: RateCell, p: Policy, t: u64, t2: u64)
    requires
        p.wf(),
        c.wf(p),
        !c.spec_allowed(p, t),
        t <= t2,
    ensures
        c.spec_checked(p, t).spec_allowed(p, t2) <==> c.spec_retry_after(p, t) <= t2 - t,
        1 <= c.spec_retry_after(p, t) <= u64::MAX,
{
    let denied = c.spec_checked(p, t);
    let a = c.spec_refilled(p, t);
    let d = p.period - a;
    let w = t2 - t;
    let cap = p.capacity as int;
    let wait = (d + cap - 1) / cap;
    assert(0 <= c.spec_elapsed(t) * cap && 0 <= p.bucket_max()) by (nonlinear_arith)
        requires 0 <= c.spec_elapsed(t), 0 <= cap, 0 <= p.period;
    assert(0 <= a);
    p.lemma_bucket_max_at_least_period();
    assert(denied.available == a && denied.last_refill == t);
    assert(denied.spec_elapsed(t2) == w);
    assert(denied.spec_refilled(p, t2) == vstd::math::min(p.bucket_max(), a + w * cap));
    lemma_ceil_div_exact(d, cap);
    crate::cell::lemma_ceil_div_le(d, cap);
    if wait <= w {
        vstd::arithmetic::mul::lemma_mul_inequality(wait, w, cap);
        assert(a + w * cap >= p.period);
        assert(denied.spec_allowed(p, t2));
    }
    if denied.spec_allowed(p, t2) {
        assert(a + w * cap >= p.period);
        if w < wait {
            vstd::arithmetic::mul::lemma_mul_inequality(w, wait - 1, cap);
            assert(w * cap <= d - 1);
            assert(false);
        }
    }
}

/// With a refilled level short of one admission, no check at that same
/// instant admits.
pub proof fn lemma_no_admission(c: RateCell, p: Policy, now: u64, n: nat)
    requires
        p.wf(),
        c.wf(p),
        c.spec_refilled(p, now) < p.period,
    ensures
        admitted_at_instant(c, p, now, n) == 0,
    decreases n,
{
    if n > 0 {
        let c2 = c.spec_checked(p, now);
        lemma_check_preserves_wf(c, p, now);
        assert(c2.available == c.spec_refilled(p, now) && c2.last_refill == now);
        assert(c2.spec_refilled(p, now) == vstd::math::min(p.bucket_max(), c2.available as int));
        lemma_no_admission(c2, p, now, (n - 1) as nat);
    }
}

/// Concurrent single-admission: against a cell holding exactly one admission
/// at `now` (a refilled level of at least one but less than two admissions'
/// worth), any number `n >= 1` of checks at that instant admits exactly one.
/// Per-key checks are serialized, so this covers every interleaving of `n`
/// simultaneous requests on one key.
pub proof fn lemma_single_admission(c: RateCell, p: Policy, now: u64, n: nat)
    requires
        p.wf(),
        c.wf(p),
        1 <= n,
        p.period <= c.spec_refilled(p, now) < 2 * (p.period as int),
    ensures
        admitted_at_instant(c, p, now, n) == 1,
{
    let c2 = c.spec_checked(p, now);
    lemma_check_preserves_wf(c, p, now);
    assert(c2.available == c.spec_refilled(p, now) - p.period && c2.last_refill == now);
    assert(c2.spec_refilled(p, now) == vstd::math::min(p.bucket_max(), c2.available as int));
    lemma_no_admission(c2, p, now, (n - 1) as nat);
}

/// A first-seen (or freshly reset) client's check always admits: a full
/// bucket covers at least one admission.
pub proof fn lemma_fresh_check_allowed(p: Policy, now: u64)
    requires
        p.wf(),
    ensures
        RateCell::spec_full(p, now).spec_allowed(p, now),
{
    p.lemma_bucket_max_at_least_period();
    let full = RateCell::spec_full(p, now);
    assert(full.spec_elapsed(now) == 0);
    assert(full.spec_refilled(p, now) == p.bucket_max());
}

/// Per-key isolation: a check on one client's key leaves every other known
/// client's entry untouched, and so leaves unchanged the decision any later
/// check of that other key will produce — exhausting one client's bucket
/// cannot affect another's.
pub proof fn lemma_per_key_isolation(
    pre: KeyedStore,
    post: KeyedStore,
    p: Policy,
    ka: Seq<char>,
    ta: u64,
    da: Decision,
    kb: Seq<char>,
    tb: u64,
)
    requires
        pre.keys_distinct(),
        check_key_rel(pre, post, p, ka, ta, da),
        kb != ka,
        pre.has_key(kb),
    ensures
        post.has_key(kb),
        post.entry_for(kb) == pre.entry_for(kb),
        post.spec_decision(p, kb, tb) == pre.spec_decision(p, kb, tb),
{
    let i = pre.index_of(kb);
    assert(0 <= i < pre.entries@.len() && pre.entries@[i].key@ == kb);
    assert(post.entries@[i] == pre.entries@[i]);
    assert(post.has_key(kb));
    let j = post.index_of(kb);
    assert(0 <= j < post.entries@.len() && post.entries@[j].key@ == kb);
    if pre.has_key(ka) {
        if j < pre.entries@.len() {
            assert(pre.entries@[j].key@ == kb);
            assert(j == i);
        }
    } else if pre.entries@.len() < pre.max_keys {
        if j == post.entries@.len() - 1 {
            assert(post.entries@[j] == post.entries@.last());
            assert(post.entries@[j].key@ == ka);
            assert(false);
        }
        assert(pre.entries@[j].key@ == kb);
        assert(j == i);
    } else {
        assert(pre.entries@[j].key@ == kb);
        assert(j == i);
    }
    assert(post.entry_for(kb) == pre.entry_for(kb));
}

/// Eviction reset: a key whose entry has sat idle past the retention window
/// is, at its next check, indistinguishable from a brand-new key. A store
/// still holding the expired entry and a store that has already dropped it
/// (with room to recreate it) produce the same decision, and record the same
/// cell state and access time for the key.
pub proof fn lemma_eviction_reset(
    s1: KeyedStore,
    post1: KeyedStore,
    d1: Decision,
    s2: KeyedStore,
    post2: KeyedStore,
    d2: Decision,
    p: Policy,
    k: Seq<char>,
    now: u64,
)
    requires
        s1.keys_distinct(),
        s2.keys_distinct(),
        s1.has_key(k),
        spec_stale(s1.entry_for(k), s1.retention, now),
        !s2.has_key(k),
        s2.entries@.len() < s2.max_keys,
        check_key_rel(s1, post1, p, k, now, d1),
        check_key_rel(s2, post2, p, k, now, d2),
    ensures
        d1 == d2,
        post1.has_key(k),
        post2.has_key(k),
        post1.entry_for(k).cell == post2.entry_for(k).cell,
        post1.entry_for(k).last_access == post2.entry_for(k).last_access,
{
    assert(s1.spec_effective_cell(p, k, now) == RateCell::spec_full(p, now));
    assert(d1 == RateCell::spec_full(p, now).spec_decision(p, now));
    assert(d2 == RateCell::spec_full(p, now).spec_decision(p, now));
    let i = s1.index_of(k);
    assert(0 <= i < s1.entries@.len() && s1.entries@[i].key@ == k);
    assert(post1.entries@[i].key@ == k);
    assert(post1.has_key(k));
    let j1 = post1.index_of(k);
    assert(0 <= j1 < post1.entries@.len() && post1.entries@[j1].key@ == k);
    assert(s1.entries@[j1].key@ == k);
    assert(j1 == i);
    assert(post1.entry_for(k).cell == RateCell::spec_full(p, now).spec_checked(p, now));
    assert(post1.entry_for(k).last_access == now);
    assert(post2.entries@.last().key@ == k);
    assert(post2.entries@[post2.entries@.len() - 1].key@ == k);
    assert(post2.has_key(k));
    let j2 = post2.index_of(k);
    assert(0 <= j2 < post2.entries@.len() && post2.entries@[j2].key@ == k);
    if j2 < s2.entries@.len() {
        assert(post2.entries@[j2] == s2.entries@[j2]);
        assert(s2.has_key(k));
        assert(false);
    }
    assert(j2 == post2.entries@.len() - 1);
    assert(post2.entry_for(k).cell == RateCell::spec_full(p, now).spec_checked(p, now));
    assert(post2.entry_for(k).last_access == now);
}

} // verus!

