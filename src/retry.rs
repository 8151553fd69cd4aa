//! Bounded, jittered retries for delivering notifications through an
//! unreliable transport.
//!
//! The decisions are made here; performing an attempt and waiting between
//! attempts is left to the caller, which reports each outcome back.
use vstd::prelude::*;
use vstd::arithmetic::power::pow;
use std::time::Duration;
use tokio_retry::strategy::{jitter, ExponentialBackoff};

verus! {

/// Delays up to this many milliseconds come back from jittering no larger
/// than they went in.
pub const JITTER_EXACT_LIMIT_MS: u64 = 1_000_000_000_000;

/// The `k`-th delay (from 0) of an exponential schedule starting at `base`
/// milliseconds: `base` to the power `k + 1`, saturating.
pub open spec fn backoff_delay(base: u64, k: nat) -> u64 {
    if pow(base as int, k + 1) > u64::MAX as int {
        u64::MAX
    } else {
        pow(base as int, k + 1) as u64
    }
}

/// Relies on `tokio_retry::strategy::ExponentialBackoff::from_millis`: its
/// delays are `base`, `base * base`, ... milliseconds, saturating at
/// `u64::MAX`.
#[verifier::external_body]
fn backoff_schedule(base: u64, n: usize) -> (r: Vec<u64>)
    ensures
        r@.len() == n,
        forall|k: int| 0 <= k < n ==> r@[k] == backoff_delay(base, k as nat),
{
    ExponentialBackoff::from_millis(base).take(n).map(|d| d.as_millis() as u64).collect()
}

/// Relies on `tokio_retry::strategy::jitter`: the delay is scaled by a random
/// factor in `[0, 1)`, so it never grows.
#[verifier::external_body]
fn jittered(ms: u64) -> (r: u64)
    ensures
        ms <= JITTER_EXACT_LIMIT_MS ==> r <= ms,
{
    jitter(Duration::from_millis(ms)).as_millis() as u64
}

/// How deliveries are retried.
#[derive(Clone, Copy, Debug, PartialEq, Eq, Structural)]
pub struct RetryPolicy {
    /// Attempts made at most, the first one included.
    pub max_attempts: u32,
    /// First delay of the exponential schedule, in milliseconds.
    pub base_delay_ms: u64,
    /// Time after the first attempt past which no attempt starts, in
    /// milliseconds.
    pub deadline_ms: u64,
}

/// What one attempt of the transport came to.
#[derive(Debug, PartialEq, Eq)]
pub enum Outcome {
    Delivered,
    /// The transport failed; a permanent failure (a malformed address) is
    /// not retried.
    Failed { permanent: bool, detail: String },
}

#[derive(Clone, Copy, Debug, PartialEq, Eq, Structural)]
pub enum FailureKind {
    /// Every allowed attempt failed.
    Exhausted,
    /// The deadline would pass before the next attempt.
    Timeout,
    /// The transport reported a failure that retrying cannot mend.
    Permanent,
}

/// The single failure a caller sees: why delivery stopped, after how many
/// attempts, and the last failure of the transport.
#[derive(Debug, PartialEq, Eq)]
pub struct DeliveryError {
    pub kind: FailureKind,
    pub attempts: u32,
    pub detail: String,
}

/// What to do after an attempt.
#[derive(Debug, PartialEq, Eq)]
pub enum Step {
    Done,
    /// Wait this many milliseconds, then attempt again.
    Wait { delay_ms: u64 },
    GiveUp(DeliveryError),
}

/// The decision after the `attempts`-th attempt ended in `outcome`,
/// `elapsed_ms` after the first attempt began, when the next delay would be
/// `delay_ms`.
pub open spec fn decide(p: RetryPolicy, attempts: u32, outcome: Outcome, elapsed_ms: u64, delay_ms: u64) -> Step {
    match outcome {
        Outcome::Delivered => Step::Done,
        Outcome::Failed { permanent, detail } => if permanent {
            Step::GiveUp(DeliveryError { kind: FailureKind::Permanent, attempts, detail })
        } else if attempts >= p.max_attempts {
            Step::GiveUp(DeliveryError { kind: FailureKind::Exhausted, attempts, detail })
        } else if elapsed_ms as int + delay_ms as int > p.deadline_ms as int {
            Step::GiveUp(DeliveryError { kind: FailureKind::Timeout, attempts, detail })
        } else {
            Step::Wait { delay_ms }
        },
    }
}

impl RetryPolicy {
    /// The policy for account notifications: three attempts, delays from ten
    /// milliseconds, thirty seconds in all.
    pub fn notification() -> (p: RetryPolicy)
        ensures
            p.max_attempts == 3,
            p.base_delay_ms == 10,
            p.deadline_ms == 30_000,
    {
        RetryPolicy { max_attempts: 3, base_delay_ms: 10, deadline_ms: 30_000 }
    }

    /// The decision after an attempt, given the delay that would come next.
    pub fn next_step(&self, attempts: u32, outcome: Outcome, elapsed_ms: u64, delay_ms: u64) -> (r: Step)
        ensures
            r == decide(*self, attempts, outcome, elapsed_ms, delay_ms),
    {
        match outcome {
            Outcome::Delivered => Step::Done,
            Outcome::Failed { permanent, detail } => {
                if permanent {
                    Step::GiveUp(DeliveryError { kind: FailureKind::Permanent, attempts, detail })
                } else if attempts >= self.max_attempts {
                    Step::GiveUp(DeliveryError { kind: FailureKind::Exhausted, attempts, detail })
                } else if elapsed_ms as u128 + delay_ms as u128 > self.deadline_ms as u128 {
                    Step::GiveUp(DeliveryError { kind: FailureKind::Timeout, attempts, detail })
                } else {
                    Step::Wait { delay_ms }
                }
            },
        }
    }

    /// The jittered delay to wait after the `attempts`-th attempt: at most
    /// the matching entry of the exponential schedule.
    pub fn delay_after(&self, attempts: u32) -> (r: u64)
        requires
            attempts >= 1,
        ensures
            backoff_delay(self.base_delay_ms, (attempts - 1) as nat) <= JITTER_EXACT_LIMIT_MS ==> r
                <= backoff_delay(self.base_delay_ms, (attempts - 1) as nat),
    {
        let schedule = backoff_schedule(self.base_delay_ms, attempts as usize);
        jittered(schedule[(attempts - 1) as usize])
    }
}

/// A delivery in progress: how many attempts were made and when the first
/// one began.
#[derive(Clone, Copy, Debug, PartialEq, Eq, Structural)]
pub struct Delivery {
    pub policy: RetryPolicy,
    pub attempts: u32,
}

impl Delivery {
    pub fn new(policy: RetryPolicy) -> (d: Delivery)
        ensures
            d.policy == policy,
            d.attempts == 0,
    {
        Delivery { policy, attempts: 0 }
    }

    /// Records the outcome of one more attempt, `elapsed_ms` after the
    /// first one began, and says what to do next.
    pub fn on_outcome(&mut self, outcome: Outcome, elapsed_ms: u64) -> (r: Step)
        requires
            old(self).attempts < u32::MAX,
        ensures
            final(self).policy == old(self).policy,
            final(self).attempts == old(self).attempts + 1,
            exists|d: u64|
                (backoff_delay(old(self).policy.base_delay_ms, old(self).attempts as nat) <= JITTER_EXACT_LIMIT_MS
                    ==> d <= backoff_delay(old(self).policy.base_delay_ms, old(self).attempts as nat))
                    && r == decide(old(self).policy, final(self).attempts, outcome, elapsed_ms, d),
    {
        self.attempts = self.attempts + 1;
        let delay = self.policy.delay_after(self.attempts);
        self.policy.next_step(self.attempts, outcome, elapsed_ms, delay)
    }
}

/// A delivery makes at most `max_attempts` attempts: once that many have
/// failed it gives up, whatever the delay and the time spent.
pub proof fn lemma_attempts_bounded(p: RetryPolicy, attempts: u32, detail: String, permanent: bool, elapsed_ms: u64, delay_ms: u64)
    requires
        attempts >= p.max_attempts,
    ensures
        decide(p, attempts, Outcome::Failed { permanent, detail }, elapsed_ms, delay_ms) is GiveUp,
{
}

/// Before the last allowed attempt, a retryable failure within the deadline
/// leads to another attempt after the given delay.
pub proof fn lemma_retries_before_limit(p: RetryPolicy, attempts: u32, detail: String, elapsed_ms: u64, delay_ms: u64)
    requires
        attempts < p.max_attempts,
        elapsed_ms as int + delay_ms as int <= p.deadline_ms as int,
    ensures
        decide(p, attempts, Outcome::Failed { permanent: false, detail }, elapsed_ms, delay_ms) == (Step::Wait { delay_ms }),
{
}

/// With a base of at least two the schedule strictly grows until it
/// saturates.
pub proof fn lemma_schedule_grows(base: u64, k: nat)
    requires
        base >= 2,
        pow(base as int, k + 2) <= u64::MAX as int,
    ensures
        backoff_delay(base, k) < backoff_delay(base, k + 1),
{
    vstd::arithmetic::power::lemma_pow_positive(base as int, k + 1);
    vstd::arithmetic::power::lemma_pow_adds(base as int, k + 1, 1);
    vstd::arithmetic::power::lemma_pow1(base as int);
    let a = pow(base as int, k + 1);
    assert(pow(base as int, k + 2) == a * base) by {
        assert(k + 2 == (k + 1) + 1);
    }
    assert(a * base > a) by (nonlinear_arith)
        requires
            a > 0,
            base >= 2,
    ;
}

} // verus!
