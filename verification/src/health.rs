//! Per-link connection health: success and failure counts and a smoothed quality score.
//!
//! Quality is held in millionths of a whole (see [`crate::units::UNIT`]): a fresh link has
//! quality `UNIT`, every success adds a tenth up to `UNIT`, every failure takes two tenths
//! down to zero. Times are milliseconds of the wall clock.

use crate::clock::now_millis;
use crate::units::UNIT;
use vstd::prelude::*;

verus! {

/// Quality gained by one success, in millionths.
pub const QUALITY_RECOVERY_STEP: u32 = 100_000;

/// Quality lost by one failure, in millionths.
pub const QUALITY_DEGRADATION_STEP: u32 = 200_000;

/// A link is healthy while its quality is strictly above this, in millionths.
pub const MIN_HEALTHY_QUALITY: u32 = 500_000;

/// Quality after one success: a tenth more, capped at one whole.
pub open spec fn quality_after_success(q: int) -> int {
    if q + QUALITY_RECOVERY_STEP >= UNIT {
        UNIT as int
    } else {
        q + QUALITY_RECOVERY_STEP
    }
}

/// Quality after one failure: two tenths less, floored at zero.
pub open spec fn quality_after_failure(q: int) -> int {
    if q <= QUALITY_DEGRADATION_STEP {
        0
    } else {
        q - QUALITY_DEGRADATION_STEP
    }
}

/// Quality after a run of outcomes, `true` for a success and `false` for a failure,
/// applied first to last.
pub open spec fn quality_after_outcomes(q: int, outcomes: Seq<bool>) -> int
    decreases outcomes.len(),
{
    if outcomes.len() == 0 {
        q
    } else {
        let before = quality_after_outcomes(q, outcomes.drop_last());
        if outcomes.last() {
            quality_after_success(before)
        } else {
            quality_after_failure(before)
        }
    }
}

/// Quality after `n` failures in a row.
pub open spec fn quality_after_failures(q: int, n: nat) -> int
    decreases n,
{
    if n == 0 {
        q
    } else {
        quality_after_failure(quality_after_failures(q, (n - 1) as nat))
    }
}

/// The share of failures among all recorded outcomes, in millionths, rounded down;
/// zero when nothing was recorded.
pub open spec fn failure_share(failures: int, successes: int) -> int {
    if failures + successes == 0 {
        0
    } else {
        failures * UNIT / (failures + successes)
    }
}

/// What a health record holds, as plain values.
pub struct HealthView {
    pub failures: u32,
    pub successes: u32,
    /// Quality in millionths.
    pub quality: u32,
    /// The time of the last success, or of the record's creation.
    pub last_success: i64,
    /// The time of the last failure, if there was one.
    pub last_failure: Option<i64>,
}

impl HealthView {
    /// The quality lies between zero and one whole.
    pub open spec fn wf(self) -> bool {
        self.quality <= UNIT
    }

    /// The record of a link made at `now`, on which nothing has happened yet.
    pub open spec fn fresh(now: i64) -> HealthView {
        HealthView {
            failures: 0,
            successes: 0,
            quality: UNIT,
            last_success: now,
            last_failure: None,
        }
    }

    /// The record after one more success at `now`.
    pub open spec fn after_success(self, now: i64) -> HealthView {
        HealthView {
            successes: (self.successes + 1) as u32,
            quality: quality_after_success(self.quality as int) as u32,
            last_success: now,
            ..self
        }
    }

    /// The record after one more failure at `now`.
    pub open spec fn after_failure(self, now: i64) -> HealthView {
        HealthView {
            failures: (self.failures + 1) as u32,
            quality: quality_after_failure(self.quality as int) as u32,
            last_failure: Some(now),
            ..self
        }
    }
}

/// Success and failure counters of one link with its quality score.
#[derive(Debug)]
pub struct ConnectionHealth {
    failures: u32,
    successes: u32,
    last_success: i64,
    last_failure: Option<i64>,
    quality: u32,
}

impl View for ConnectionHealth {
    type V = HealthView;

    closed spec fn view(&self) -> HealthView {
        HealthView {
            failures: self.failures,
            successes: self.successes,
            quality: self.quality,
            last_success: self.last_success,
            last_failure: self.last_failure,
        }
    }
}

impl Clone for ConnectionHealth {
    fn clone(&self) -> (r: Self)
        ensures
            r@ == self@,
    {
        proof {
            use_type_invariant(self);
        }
        ConnectionHealth {
            failures: self.failures,
            successes: self.successes,
            last_success: self.last_success,
            last_failure: self.last_failure,
            quality: self.quality,
        }
    }
}

impl ConnectionHealth {
    #[verifier::type_invariant]
    spec fn inv(self) -> bool {
        self.quality <= UNIT
    }

    /// A record made at `now`: no outcome counted, full quality.
    pub fn new_at(now: i64) -> (h: Self)
        ensures
            h@ == HealthView::fresh(now),
            h@.wf(),
    {
        ConnectionHealth {
            failures: 0,
            successes: 0,
            last_success: now,
            last_failure: None,
            quality: UNIT,
        }
    }

    /// A record made at the present time.
    pub fn new() -> (h: Self)
        ensures
            exists|now: i64| h@ == HealthView::fresh(now),
            h@.wf(),
    {
        let now: i64 = now_millis();
        Self::new_at(now)
    }

    /// Counts one success at `now`: raises the quality by a tenth, at most to one whole,
    /// and refreshes the time of the last success.
    pub fn record_success_at(&mut self, now: i64)
        requires
            old(self)@.successes < u32::MAX,
        ensures
            final(self)@ == old(self)@.after_success(now),
            final(self)@.wf(),
    {
        proof {
            use_type_invariant(&*self);
        }
        self.successes = self.successes + 1;
        self.last_success = now;
        self.quality = if self.quality >= UNIT - QUALITY_RECOVERY_STEP {
            UNIT
        } else {
            self.quality + QUALITY_RECOVERY_STEP
        };
    }

    /// Counts one success at the present time.
    pub fn record_success(&mut self)
        requires
            old(self)@.successes < u32::MAX,
        ensures
            exists|now: i64| final(self)@ == old(self)@.after_success(now),
            final(self)@.wf(),
    {
        let now: i64 = now_millis();
        self.record_success_at(now);
    }

    /// Counts one failure at `now`: lowers the quality by two tenths, at least to zero,
    /// and sets the time of the last failure.
    pub fn record_failure_at(&mut self, now: i64)
        requires
            old(self)@.failures < u32::MAX,
        ensures
            final(self)@ == old(self)@.after_failure(now),
            final(self)@.wf(),
    {
        proof {
            use_type_invariant(&*self);
        }
        self.failures = self.failures + 1;
        self.last_failure = Some(now);
        self.quality = if self.quality <= QUALITY_DEGRADATION_STEP {
            0
        } else {
            self.quality - QUALITY_DEGRADATION_STEP
        };
    }

    /// Counts one failure at the present time.
    pub fn record_failure(&mut self)
        requires
            old(self)@.failures < u32::MAX,
        ensures
            exists|now: i64| final(self)@ == old(self)@.after_failure(now),
            final(self)@.wf(),
    {
        let now: i64 = now_millis();
        self.record_failure_at(now);
    }

    /// Whether the quality is strictly above one half.
    pub fn is_healthy(&self) -> (b: bool)
        ensures
            b == (self@.quality > MIN_HEALTHY_QUALITY),
    {
        self.quality > MIN_HEALTHY_QUALITY
    }

    /// The share of failures among all recorded outcomes, in millionths.
    pub fn failure_rate(&self) -> (r: u32)
        ensures
            r == failure_share(self@.failures as int, self@.successes as int),
            r <= UNIT,
    {
        let total: u64 = self.failures as u64 + self.successes as u64;
        if total == 0 {
            return 0;
        }
        let scaled: u64 = self.failures as u64 * 1_000_000;
        let share: u64 = scaled / total;
        assert(share <= 1_000_000) by (nonlinear_arith)
            requires
                share == scaled / total,
                scaled == self.failures as u64 * 1_000_000,
                total >= self.failures as u64,
                total > 0,
        ;
        share as u32
    }

    /// The quality in millionths, between zero and one whole.
    pub fn quality(&self) -> (q: u32)
        ensures
            q == self@.quality,
            self@.wf(),
    {
        proof {
            use_type_invariant(self);
        }
        self.quality
    }

    /// The number of failures recorded.
    pub fn failures(&self) -> (n: u32)
        ensures
            n == self@.failures,
    {
        self.failures
    }

    /// The number of successes recorded.
    pub fn successes(&self) -> (n: u32)
        ensures
            n == self@.successes,
    {
        self.successes
    }

    /// The time of the last success, or of the record's creation.
    pub fn last_success(&self) -> (t: i64)
        ensures
            t == self@.last_success,
    {
        self.last_success
    }

    /// The time of the last failure, if there was one.
    pub fn last_failure(&self) -> (t: Option<i64>)
        ensures
            t == self@.last_failure,
    {
        self.last_failure
    }
}

/// Whatever successes and failures are recorded, in whatever order, a quality that starts
/// between zero and one whole stays there.
pub proof fn lemma_quality_stays_in_range(q: int, outcomes: Seq<bool>)
    requires
        0 <= q <= UNIT,
    ensures
        0 <= quality_after_outcomes(q, outcomes) <= UNIT,
    decreases outcomes.len(),
{
    if outcomes.len() > 0 {
        lemma_quality_stays_in_range(q, outcomes.drop_last());
    }
}

/// After `n` failures in a row on a fresh link the quality is one whole less `n` times
/// two tenths, and zero from the fifth failure on.
pub proof fn lemma_quality_after_failures(n: nat)
    ensures
        quality_after_failures(UNIT as int, n) == if n >= 5 {
            0
        } else {
            UNIT - QUALITY_DEGRADATION_STEP * n
        },
    decreases n,
{
    if n > 0 {
        lemma_quality_after_failures((n - 1) as nat);
    }
}

} // verus!
