//! Gating of automatic audio-device recovery.

use vstd::prelude::*;

use crate::clock::{elapsed, Instant};

verus! {

/// How long to wait after a rebuild attempt before trying again, in
/// nanoseconds.
///
/// Stream errors can arrive in bursts, and any single attempt is enough to
/// negotiate with the device again. This keeps a noisy device from spinning
/// the player in a rebuild loop.
pub const RECOVERY_COOLDOWN: u128 = 2_000_000_000;

/// After this many *consecutive* failed rebuilds, give up and surface the
/// error to the user instead of retrying forever.
pub const MAX_CONSECUTIVE_FAILURES: u32 = 3;

/// Gating policy for automatic audio-device recovery.
///
/// When a device stream reports an error, the player rebuilds its output
/// stream. This policy limits the rate of those rebuilds, and gives up after
/// repeated failures.
#[derive(Debug, Clone, Copy)]
pub struct RecoveryPolicy {
    pub last_attempt: Option<Instant>,
    pub consecutive_failures: u32,
}

impl Default for RecoveryPolicy {
    fn default() -> (p: Self)
        ensures
            p == RecoveryPolicy::initial(),
    {
        Self::new()
    }
}

impl RecoveryPolicy {
    /// The policy that has never attempted a recovery.
    pub open spec fn initial() -> Self {
        RecoveryPolicy { last_attempt: None, consecutive_failures: 0 }
    }

    /// Whether a rebuild may be attempted at `now`: no attempt was made yet,
    /// or the cooldown since the last one is over.
    pub open spec fn allows(self, now: Instant) -> bool {
        match self.last_attempt {
            Some(last) => elapsed(last, now) >= RECOVERY_COOLDOWN,
            None => true,
        }
    }

    pub open spec fn attempted(self, now: Instant) -> Self {
        RecoveryPolicy { last_attempt: Some(now), ..self }
    }

    pub open spec fn succeeded(self) -> Self {
        RecoveryPolicy { consecutive_failures: 0, ..self }
    }

    pub open spec fn failed(self) -> Self {
        RecoveryPolicy {
            consecutive_failures: if self.consecutive_failures == u32::MAX {
                u32::MAX
            } else {
                (self.consecutive_failures + 1) as u32
            },
            ..self
        }
    }

    pub open spec fn gave_up(self) -> bool {
        self.consecutive_failures >= MAX_CONSECUTIVE_FAILURES
    }

    /// Creates a policy that has never attempted a recovery.
    pub fn new() -> (p: Self)
        ensures
            p == Self::initial(),
    {
        Self { last_attempt: None, consecutive_failures: 0 }
    }

    /// Whether an automatic rebuild may be attempted right now.
    pub fn should_attempt(&self, now: Instant) -> (r: bool)
        ensures
            r == self.allows(now),
    {
        match self.last_attempt {
            Some(last) => now.saturating_duration_since(last).nanos >= RECOVERY_COOLDOWN,
            None => true,
        }
    }

    /// Records that a rebuild was attempted (regardless of outcome) at `now`.
    pub fn record_attempt(&mut self, now: Instant)
        ensures
            *final(self) == old(self).attempted(now),
    {
        self.last_attempt = Some(now);
    }

    /// Records that a rebuild succeeded, resetting the count of consecutive
    /// failures.
    pub fn record_success(&mut self)
        ensures
            *final(self) == old(self).succeeded(),
    {
        self.consecutive_failures = 0;
    }

    /// Records that a rebuild failed.
    pub fn record_failure(&mut self)
        ensures
            *final(self) == old(self).failed(),
    {
        self.consecutive_failures = self.consecutive_failures.saturating_add(1);
    }

    /// Whether too many consecutive failures happened and automatic recovery
    /// should stop (the caller should surface the error to the user instead).
    pub fn exhausted(&self) -> (r: bool)
        ensures
            r == self.gave_up(),
    {
        self.consecutive_failures >= MAX_CONSECUTIVE_FAILURES
    }
}

/// What can be recorded with a policy.
pub ghost enum Recorded {
    Attempt(Instant),
    Success,
    Failure,
}

/// The policy after one record.
pub open spec fn after_record(p: RecoveryPolicy, e: Recorded) -> RecoveryPolicy {
    match e {
        Recorded::Attempt(now) => p.attempted(now),
        Recorded::Success => p.succeeded(),
        Recorded::Failure => p.failed(),
    }
}

/// A new policy after a history of records.
pub open spec fn after_history(h: Seq<Recorded>) -> RecoveryPolicy
    decreases h.len(),
{
    if h.len() == 0 {
        RecoveryPolicy::initial()
    } else {
        after_record(after_history(h.drop_last()), h.last())
    }
}

/// The failures in a history since its last success.
pub open spec fn failures_in_a_row(h: Seq<Recorded>) -> nat
    decreases h.len(),
{
    if h.len() == 0 {
        0
    } else {
        match h.last() {
            Recorded::Attempt(_) => failures_in_a_row(h.drop_last()),
            Recorded::Success => 0,
            Recorded::Failure => failures_in_a_row(h.drop_last()) + 1,
        }
    }
}

/// A policy is exhausted exactly when the last three outcomes were failures.
/// So a success in between resets the count, and failures that are separated
/// by successes never exhaust recovery, however many there are.
pub proof fn law_exhausted_after_failures_in_a_row(h: Seq<Recorded>)
    ensures
        after_history(h).gave_up() <==> failures_in_a_row(h) >= MAX_CONSECUTIVE_FAILURES,
{
    lemma_failure_count(h);
}

proof fn lemma_failure_count(h: Seq<Recorded>)
    ensures
        after_history(h).consecutive_failures == if failures_in_a_row(h) <= u32::MAX {
            failures_in_a_row(h) as u32
        } else {
            u32::MAX
        },
    decreases h.len(),
{
    if h.len() > 0 {
        lemma_failure_count(h.drop_last());
    }
}

/// The time of the last attempt in a history.
pub open spec fn last_attempt(h: Seq<Recorded>) -> Option<Instant>
    decreases h.len(),
{
    if h.len() == 0 {
        None
    } else {
        match h.last() {
            Recorded::Attempt(now) => Some(now),
            _ => last_attempt(h.drop_last()),
        }
    }
}

/// A rebuild is allowed unless the last attempt, whatever its outcome, is less
/// than the cooldown ago. A policy without an attempt allows one at any time.
pub proof fn law_cooldown(h: Seq<Recorded>, now: Instant)
    ensures
        after_history(h).allows(now) <==> (last_attempt(h) matches Some(last) ==> now.nanos
            >= last.nanos + RECOVERY_COOLDOWN),
{
    lemma_last_attempt(h);
}

proof fn lemma_last_attempt(h: Seq<Recorded>)
    ensures
        after_history(h).last_attempt == last_attempt(h),
    decreases h.len(),
{
    if h.len() > 0 {
        lemma_last_attempt(h.drop_last());
    }
}

/// What one record does: an attempt is the last one, a success clears the failures,
/// a failure adds one up to the end of the range; and each does no more.
pub proof fn law_record(p: RecoveryPolicy, now: Instant)
    ensures
        p.attempted(now).last_attempt == Some(now),
        p.attempted(now).consecutive_failures == p.consecutive_failures,
        p.succeeded().last_attempt == p.last_attempt,
        p.succeeded().consecutive_failures == 0,
        p.failed().last_attempt == p.last_attempt,
        p.consecutive_failures < u32::MAX ==> p.failed().consecutive_failures
            == p.consecutive_failures + 1,
        p.consecutive_failures == u32::MAX ==> p.failed().consecutive_failures == u32::MAX,
        RecoveryPolicy::initial().last_attempt is None,
        RecoveryPolicy::initial().consecutive_failures == 0,
{
}

/// Recovery is given up from three failures on, and tried again two seconds after
/// the last attempt, not a nanosecond earlier.
pub proof fn law_limits_of_recovery(p: RecoveryPolicy, now: Instant)
    ensures
        p.gave_up() <==> p.consecutive_failures >= 3,
        p.last_attempt is None ==> p.allows(now),
        p.last_attempt matches Some(last) ==> (p.allows(now) <==> now.nanos >= last.nanos
            + 2_000_000_000),
{
}

} // verus!
