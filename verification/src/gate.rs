use vstd::prelude::*;

use crate::cell::Decision;
use crate::identity::{extract_client_key, spec_extracted_key, ClientKey};
use crate::policy::Policy;
use crate::store::{check_key_rel, KeyedStore};

verus! {

/// The admission gate: the public entry point of the layer. It owns the
/// policy and the keyed store; the surrounding request pipeline constructs
/// one gate at startup, shares it across workers (behind its own lock), and
/// calls `decide` once per inbound request before any business logic runs.
pub struct AdmissionGate {
    pub policy: Policy,
    pub store: KeyedStore,
}

impl AdmissionGate {
    /// A usable policy, over a store with distinct keys and cells within
    /// that policy's bucket bound.
    pub open spec fn wf(self) -> bool {
        self.policy.wf() && self.store.wf(self.policy)
    }

    /// Builds a gate over an empty store.
    pub fn new(policy: Policy, retention: u64, max_keys: usize) -> (g: AdmissionGate)
        requires
            policy.wf(),
        ensures
            g.wf(),
            g.policy == policy,
            g.store.entries@.len() == 0,
            g.store.retention == retention,
            g.store.max_keys == max_keys,
    {
        AdmissionGate { policy, store: KeyedStore::new(retention, max_keys) }
    }

    /// One admission decision for the client `key` at time `now`. The
    /// returned decision is a pure function of the prior store state
    /// (`spec_decision`); the call creates or updates at most the one entry
    /// for `key` and leaves every other client's entry untouched.
    pub fn decide(&mut self, key: &ClientKey, now: u64) -> (d: Decision)
        requires
            old(self).wf(),
        ensures
            final(self).wf(),
            final(self).policy == old(self).policy,
            d == old(self).store.spec_decision(old(self).policy, key@, now),
            check_key_rel(
                old(self).store,
                final(self).store,
                old(self).policy,
                key@,
                now,
                d,
            ),
    {
        self.store.check_key(&self.policy, key, now)
    }

    /// Identity extraction composed with the decision: derives the client
    /// key from the two address-bearing header values of a request, then
    /// decides for that key.
    pub fn decide_request(&mut self, forwarded: Option<&str>, peer: Option<&str>, now: u64) -> (d:
        Decision)
        requires
            old(self).wf(),
        ensures
            final(self).wf(),
            final(self).policy == old(self).policy,
            d == old(self).store.spec_decision(
                old(self).policy,
                spec_extracted_key(forwarded, peer),
                now,
            ),
            check_key_rel(
                old(self).store,
                final(self).store,
                old(self).policy,
                spec_extracted_key(forwarded, peer),
                now,
                d,
            ),
    {
        let key = extract_client_key(forwarded, peer);
        self.decide(&key, now)
    }

    /// Evicts every entry idle past the retention window at `now`. Surviving
    /// clients keep their state; an evicted client is indistinguishable from
    /// a brand-new one at its next check.
    pub fn sweep(&mut self, now: u64)
        requires
            old(self).wf(),
        ensures
            final(self).wf(),
            final(self).policy == old(self).policy,
            final(self).store.retention == old(self).store.retention,
            final(self).store.max_keys == old(self).store.max_keys,
            final(self).store.entries@.len() <= old(self).store.entries@.len(),
            forall|k: Seq<char>|
                final(self).store.has_key(k) <==> old(self).store.has_key(k)
                    && !crate::store::spec_stale(
                    old(self).store.entry_for(k),
                    old(self).store.retention,
                    now,
                ),
            forall|k: Seq<char>|
                final(self).store.has_key(k) ==> final(self).store.entry_for(k) == old(
                    self,
                ).store.entry_for(k),
    {
        self.store.sweep(now);
        proof {
            assert forall|i: int| 0 <= i < self.store.entries@.len() implies (
            #[trigger] self.store.entries@[i]).cell.wf(self.policy) by {
                assert(old(self).store.entries@.contains(self.store.entries@[i]));
                let i0 = choose|i0: int|
                    0 <= i0 < old(self).store.entries@.len() && old(self).store.entries@[i0]
                        == self.store.entries@[i];
                assert(old(self).store.entries@[i0].cell.wf(self.policy));
            }
        }
    }
}

/// The stock limiter configuration of the service: 1000 admissions per
/// 15 minutes per client, with timestamps in nanoseconds. Idle clients are
/// retained for four periods (one hour); at most 100000 distinct clients are
/// tracked at once, beyond which first-seen clients are denied fail-closed.
pub fn create_rate_limiter() -> (g: AdmissionGate)
    ensures
        g.wf(),
        g.policy == (Policy { capacity: 1000, period: 900_000_000_000 }),
        g.store.entries@.len() == 0,
        g.store.retention == 3_600_000_000_000u64,
        g.store.max_keys == 100_000usize,
{
    let policy = Policy { capacity: 1000, period: 900_000_000_000 };
    AdmissionGate::new(policy, 3_600_000_000_000, 100_000)
}

} // verus!
