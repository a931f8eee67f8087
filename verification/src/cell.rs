use vstd::prelude::*;

use crate::policy::Policy;

verus! {

/// The outcome of one admission check. On a denial, `retry_after` carries the
/// minimum number of ticks the caller must wait before a retry can succeed;
/// it is `None` on an admission, and also on the fail-closed denial issued
/// when the store refuses to create state for a brand-new key.
#[derive(Clone, Copy, Debug, PartialEq, Eq)]
pub struct Decision {
    pub allowed: bool,
    pub retry_after: Option<u64>,
}

/// Per-client token-bucket state. `available` is the token level scaled by
/// the policy period: one admission costs `policy.period` scaled units, and a
/// full bucket holds `policy.capacity * policy.period`. The scaling keeps
/// every refill exact in integer arithmetic.
#[derive(Clone, Copy, Debug, PartialEq, Eq, Structural)]
pub struct RateCell {
    /// Current token level, scaled by the policy period.
    pub available: u64,
    /// Tick of the last refill; every check moves this to its `now`.
    pub last_refill: u64,
}

impl RateCell {
    /// The cell invariant: the level never exceeds a full bucket (and, being
    /// unsigned, never goes below zero).
    pub open spec fn wf(self, p: Policy) -> bool {
        self.available as int <= p.bucket_max()
    }

    /// Ticks elapsed since the last refill; a clock observed running
    /// backwards counts as zero elapsed time, never as a negative refill.
    pub open spec fn spec_elapsed(self, now: u64) -> int {
        if now >= self.last_refill {
            now - self.last_refill
        } else {
            0
        }
    }

    /// Scaled token level after refilling at `now`: the level grows by
    /// `elapsed * capacity` scaled units and is clamped at a full bucket.
    pub open spec fn spec_refilled(self, p: Policy, now: u64) -> int {
        vstd::math::min(
            p.bucket_max(),
            self.available + self.spec_elapsed(now) * (p.capacity as int),
        )
    }

    /// Whether a check at `now` admits: the refilled level covers one
    /// admission's cost.
    pub open spec fn spec_allowed(self, p: Policy, now: u64) -> bool {
        self.spec_refilled(p, now) >= p.period
    }

    /// Minimum wait, in ticks, until the level refills to one admission:
    /// the deficit divided by the refill rate, rounded up.
    pub open spec fn spec_retry_after(self, p: Policy, now: u64) -> int {
        let deficit = p.period - self.spec_refilled(p, now);
        (deficit + p.capacity - 1) / (p.capacity as int)
    }

    /// The cell state after a check at `now`: refilled, then debited by one
    /// admission when the check admits.
    pub open spec fn spec_checked(self, p: Policy, now: u64) -> RateCell {
        if self.spec_allowed(p, now) {
            RateCell {
                available: (self.spec_refilled(p, now) - p.period) as u64,
                last_refill: now,
            }
        } else {
            RateCell { available: self.spec_refilled(p, now) as u64, last_refill: now }
        }
    }

    /// The decision a check at `now` returns.
    pub open spec fn spec_decision(self, p: Policy, now: u64) -> Decision {
        if self.spec_allowed(p, now) {
            Decision { allowed: true, retry_after: None }
        } else {
            Decision { allowed: false, retry_after: Some(self.spec_retry_after(p, now) as u64) }
        }
    }

    /// What a freshly created cell holds: a full bucket, last refilled `now`.
    pub open spec fn spec_full(p: Policy, now: u64) -> RateCell {
        RateCell { available: p.bucket_max() as u64, last_refill: now }
    }

    /// Creates the state for a first-seen client: a full bucket.
    pub fn full(p: &Policy, now: u64) -> (c: RateCell)
        requires
            p.wf(),
        ensures
            c == RateCell::spec_full(*p, now),
            c.wf(*p),
    {
        proof {
            assert((p.capacity as int) * (p.period as int) <= u64::MAX as int);
        }
        let scaled_max: u64 = ((p.capacity as u128) * (p.period as u128)) as u64;
        RateCell { available: scaled_max, last_refill: now }
    }

    /// One admission check at `now`: refill in proportion to elapsed time,
    /// clamped at a full bucket; admit and debit one admission if the level
    /// covers it, else deny with the minimum wait until it would.
    pub fn check(&mut self, p: &Policy, now: u64) -> (d: Decision)
        requires
            p.wf(),
            old(self).wf(*p),
        ensures
            final(self).wf(*p),
            *final(self) == old(self).spec_checked(*p, now),
            d == old(self).spec_decision(*p, now),
    {
        let elapsed: u64 = if now >= self.last_refill {
            now - self.last_refill
        } else {
            0
        };
        proof {
            assert((elapsed as int) * (p.capacity as int) <= (u64::MAX as int) * (u32::MAX as int))
                by (nonlinear_arith)
                requires elapsed <= u64::MAX, p.capacity <= u32::MAX;
        }
        let scaled_max: u128 = (p.capacity as u128) * (p.period as u128);
        let filled: u128 = (self.available as u128) + (elapsed as u128) * (p.capacity as u128);
        let refilled: u64 = if filled >= scaled_max {
            scaled_max as u64
        } else {
            filled as u64
        };
        assert(refilled as int == old(self).spec_refilled(*p, now));
        self.last_refill = now;
        if refilled >= p.period {
            self.available = refilled - p.period;
            Decision { allowed: true, retry_after: None }
        } else {
            self.available = refilled;
            let deficit: u64 = p.period - refilled;
            let wait_wide: u128 = ((deficit as u128) + (p.capacity as u128) - 1)
                / (p.capacity as u128);
            proof {
                lemma_ceil_div_le(deficit as int, p.capacity as int);
            }
            let wait: u64 = wait_wide as u64;
            Decision { allowed: false, retry_after: Some(wait) }
        }
    }
}

/// For a positive deficit `d` and rate `c`, the rounded-up quotient
/// `(d + c - 1) / c` never exceeds `d` itself, so a retry wait always fits
/// the same integer width as the deficit.
pub proof fn lemma_ceil_div_le(d: int, c: int)
    requires
        1 <= d,
        1 <= c,
    ensures
        1 <= (d + c - 1) / c <= d,
{
    vstd::arithmetic::div_mod::lemma_div_plus_one(d - 1, c);
    vstd::arithmetic::div_mod::lemma_div_pos_is_pos(d - 1, c);
    assert((d + c - 1) / c == (d - 1) / c + 1);
    vstd::arithmetic::div_mod::lemma_div_nonincreasing(d - 1, c);
}

} // verus!
