use vstd::prelude::*;

verus! {

/// Immutable quota configuration: a burst capacity of `capacity` admissions
/// that refills continuously over `period` clock ticks, i.e. a sustained rate
/// of `capacity / period` admissions per tick.
#[derive(Clone, Copy, Debug, PartialEq, Eq, Structural)]
pub struct Policy {
    /// Burst size: how many admissions a full, idle bucket grants at once.
    pub capacity: u32,
    /// Length, in clock ticks, over which a full burst is regained.
    pub period: u64,
}

impl Policy {
    /// Token levels are tracked scaled by `period`: one admission costs
    /// `period` scaled units, so a full bucket holds `capacity * period`.
    /// The scaling makes every refill computation exact in integers.
    pub open spec fn bucket_max(self) -> int {
        (self.capacity as int) * (self.period as int)
    }

    /// A usable policy: positive burst, positive period, and a full bucket
    /// that fits the `u64` scaled representation.
    pub open spec fn wf(self) -> bool {
        1 <= self.capacity && 1 <= self.period && self.bucket_max() <= u64::MAX as int
    }

    /// Builds a policy, accepting exactly the well-formed configurations:
    /// positive capacity, positive period, and `capacity * period` within
    /// `u64` range.
    pub fn new(capacity: u32, period: u64) -> (r: Option<Policy>)
        ensures
            match r {
                Some(p) => p == (Policy { capacity, period }) && p.wf(),
                None => !(Policy { capacity, period }).wf(),
            },
    {
        proof {
            assert((capacity as int) * (period as int) <= (u32::MAX as int) * (u64::MAX as int))
                by (nonlinear_arith)
                requires capacity <= u32::MAX, period <= u64::MAX;
        }
        if capacity >= 1 && period >= 1 && (capacity as u128) * (period as u128)
            <= (u64::MAX as u128) {
            Some(Policy { capacity, period })
        } else {
            None
        }
    }

    /// A full bucket never holds less than one admission's worth of tokens.
    pub proof fn lemma_bucket_max_at_least_period(self)
        requires
            self.wf(),
        ensures
            self.period <= self.bucket_max(),
    {
        assert((self.period as int) * 1 <= (self.period as int) * (self.capacity as int))
            by (nonlinear_arith)
            requires 1 <= self.capacity, 1 <= self.period;
        assert((self.period as int) * (self.capacity as int) == self.bucket_max())
            by (nonlinear_arith);
    }
}

} // verus!
