//! Delivery decisions of the nodes: retries with exponential backoff, the
//! pause after repeated failures, and when a sensor sends a heartbeat.
//!
//! The nodes perform the sends and the waits; these functions decide, from
//! how an attempt ended, what to do next.
use vstd::prelude::*;

verus! {

/// How one send ended.
#[derive(Clone, Copy, Debug, PartialEq, Eq, Structural)]
pub enum Outcome {
    /// The peer answered with success.
    Delivered,
    /// The peer answered with an error status.
    Rejected,
    /// The peer could not be reached.
    Unreachable,
}

/// What to do after a send.
#[derive(Clone, Copy, Debug, PartialEq, Eq, Structural)]
pub enum Next {
    /// The message is settled; send no more.
    Done,
    /// Wait this many milliseconds, then send again.
    RetryAfter(u64),
    /// The last allowed attempt failed; drop the message.
    GiveUp,
}

/// `base` doubled `k` times, that is `base * 2^k`.
pub open spec fn doubled(base: nat, k: nat) -> nat
    decreases k,
{
    if k == 0 {
        base
    } else {
        2 * doubled(base, (k - 1) as nat)
    }
}

/// The wait after failed attempt number `attempt` (counting from 1).
pub open spec fn backoff_delay(base: nat, attempt: nat) -> nat {
    doubled(base, (attempt - 1) as nat)
}

/// A retry policy: how many attempts, the first wait, and whether an error
/// status from the peer is retried like an unreachable peer.
#[derive(Clone, Copy)]
pub struct RetryPolicy {
    pub max_attempts: u32,
    pub base_delay_ms: u64,
    pub retry_rejected: bool,
}

impl RetryPolicy {
    /// Every wait the policy can ask for fits in a `u64`.
    pub open spec fn wf(&self) -> bool {
        &&& self.max_attempts >= 1
        &&& backoff_delay(self.base_delay_ms as nat, self.max_attempts as nat) <= u64::MAX
    }

    /// A sensor publishing a reading: 3 attempts, waits of 200 and 400 ms,
    /// error statuses retried.
    pub fn sensor_publish() -> (p: Self)
        ensures
            p.wf(),
            p.max_attempts == 3,
            p.base_delay_ms == 200,
            p.retry_rejected,
    {
        proof {
            reveal_with_fuel(doubled, 3);
        }
        RetryPolicy { max_attempts: 3, base_delay_ms: 200, retry_rejected: true }
    }

    /// An edge sending its heartbeat: 3 attempts, waits of 500 and 1000 ms,
    /// an error status ends the round.
    pub fn edge_heartbeat() -> (p: Self)
        ensures
            p.wf(),
            p.max_attempts == 3,
            p.base_delay_ms == 500,
            !p.retry_rejected,
    {
        proof {
            reveal_with_fuel(doubled, 3);
        }
        RetryPolicy { max_attempts: 3, base_delay_ms: 500, retry_rejected: false }
    }

    /// An edge forwarding a report: 5 attempts, waits of 200 ms doubling,
    /// an error status ends the delivery.
    pub fn edge_report() -> (p: Self)
        ensures
            p.wf(),
            p.max_attempts == 5,
            p.base_delay_ms == 200,
            !p.retry_rejected,
    {
        proof {
            reveal_with_fuel(doubled, 5);
        }
        RetryPolicy { max_attempts: 5, base_delay_ms: 200, retry_rejected: false }
    }

    /// The wait after failed attempt number `attempt`.
    pub fn backoff_ms(&self, attempt: u32) -> (d: u64)
        requires
            self.wf(),
            1 <= attempt <= self.max_attempts,
        ensures
            d == backoff_delay(self.base_delay_ms as nat, attempt as nat),
    {
        let mut d: u64 = self.base_delay_ms;
        let mut k: u32 = 1;
        while k < attempt
            invariant
                self.wf(),
                1 <= k <= attempt <= self.max_attempts,
                d == doubled(self.base_delay_ms as nat, (k - 1) as nat),
            decreases attempt - k,
        {
            proof {
                lemma_doubled_monotone(self.base_delay_ms as nat, k as nat, (self.max_attempts - 1) as nat);
            }
            d = d * 2;
            k = k + 1;
        }
        d
    }

    /// What to do after attempt number `attempt` ended with `outcome`.
    pub fn after_attempt(&self, attempt: u32, outcome: Outcome) -> (n: Next)
        requires
            self.wf(),
            1 <= attempt <= self.max_attempts,
        ensures
            outcome == Outcome::Delivered ==> n == Next::Done,
            outcome == Outcome::Rejected && !self.retry_rejected ==> n == Next::Done,
            (outcome == Outcome::Unreachable || (outcome == Outcome::Rejected
                && self.retry_rejected)) ==> n == (if attempt >= self.max_attempts {
                Next::GiveUp
            } else {
                Next::RetryAfter(backoff_delay(self.base_delay_ms as nat, attempt as nat) as u64)
            }),
    {
        match outcome {
            Outcome::Delivered => Next::Done,
            Outcome::Rejected if !self.retry_rejected => Next::Done,
            _ => {
                if attempt >= self.max_attempts {
                    Next::GiveUp
                } else {
                    Next::RetryAfter(self.backoff_ms(attempt))
                }
            },
        }
    }
}

proof fn lemma_doubled_monotone(base: nat, j: nat, k: nat)
    requires
        j <= k,
    ensures
        doubled(base, j) <= doubled(base, k),
    decreases k,
{
    if j < k {
        lemma_doubled_monotone(base, j, (k - 1) as nat);
    }
}

/// Each retry waits twice as long as the one before.
pub proof fn lemma_backoff_doubles(base: nat, attempt: nat)
    requires
        attempt >= 1,
    ensures
        backoff_delay(base, attempt + 1) == 2 * backoff_delay(base, attempt),
{
}

/// The waits after failed attempts `1..=k` add up to `base * (2^k - 1)`:
/// a message is given up after a bounded total wait.
pub proof fn lemma_total_backoff(base: nat, k: nat)
    ensures
        total_backoff(base, k) + base == doubled(base, k),
    decreases k,
{
    if k > 0 {
        lemma_total_backoff(base, (k - 1) as nat);
    }
}

/// The sum of the waits after failed attempts `1..=k`.
pub open spec fn total_backoff(base: nat, k: nat) -> nat
    decreases k,
{
    if k == 0 {
        0
    } else {
        total_backoff(base, (k - 1) as nat) + backoff_delay(base, k)
    }
}

/// Messages a sensor may drop in a row before it pauses.
pub const FAILURE_PAUSE_THRESHOLD: u32 = 10;

/// How long a sensor pauses after that many drops, in milliseconds.
pub const FAILURE_PAUSE_MS: u64 = 10_000;

/// A sensor's count of readings dropped in a row.
pub struct PublishHealth {
    consecutive_failures: u32,
}

impl PublishHealth {
    pub closed spec fn failures(&self) -> nat {
        self.consecutive_failures as nat
    }

    pub open spec fn wf(&self) -> bool {
        self.failures() < FAILURE_PAUSE_THRESHOLD
    }

    pub fn new() -> (h: Self)
        ensures
            h.wf(),
            h.failures() == 0,
    {
        PublishHealth { consecutive_failures: 0 }
    }

    /// A reading was delivered.
    pub fn delivered(&mut self)
        ensures
            final(self).wf(),
            final(self).failures() == 0,
    {
        self.consecutive_failures = 0;
    }

    /// A reading was dropped; returns whether to pause for
    /// `FAILURE_PAUSE_MS` (after `FAILURE_PAUSE_THRESHOLD` drops in a row,
    /// which restarts the count).
    pub fn dropped(&mut self) -> (pause: bool)
        requires
            old(self).wf(),
        ensures
            final(self).wf(),
            pause == (old(self).failures() + 1 >= FAILURE_PAUSE_THRESHOLD),
            final(self).failures() == (if pause {
                0
            } else {
                old(self).failures() + 1
            }),
    {
        self.consecutive_failures = self.consecutive_failures + 1;
        if self.consecutive_failures >= FAILURE_PAUSE_THRESHOLD {
            self.consecutive_failures = 0;
            true
        } else {
            false
        }
    }
}

/// Whether the sensor sends a heartbeat along with reading number `sequence`
/// (every tenth reading).
pub fn heartbeat_due(sequence: u64) -> (due: bool)
    ensures
        due == (sequence % 10 == 0),
{
    sequence % 10 == 0
}

} // verus!
