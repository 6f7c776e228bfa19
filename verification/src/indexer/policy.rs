//! How a run resumes, refreshes and retries.
use vstd::arithmetic::power2::{lemma2_to64, lemma_pow2_strictly_increases, lemma_pow2_unfold, pow2};
use vstd::prelude::*;

verus! {

/// Which earlier run an indexing call continues.
#[derive(Debug, Clone, Copy, PartialEq, Eq, Structural)]
pub enum ResumePolicy {
    Auto,
    New,
    Run(i64),
}

impl Default for ResumePolicy {
    fn default() -> (r: Self)
        ensures
            r == ResumePolicy::Auto,
    {
        ResumePolicy::Auto
    }
}

/// Whether an advisory revision may stand for content that was not read.
#[derive(Debug, Clone, Copy, PartialEq, Eq, Structural)]
pub enum RevisionTrust {
    VerifyContent,
    TrustAdvisory,
}

impl Default for RevisionTrust {
    fn default() -> (r: Self)
        ensures
            r == RevisionTrust::VerifyContent,
    {
        RevisionTrust::VerifyContent
    }
}

/// What a run does when its sources change under it.
#[derive(Debug, Clone, Copy, PartialEq, Eq, Structural)]
pub enum RefreshMode {
    Automatic,
    PauseOnChange,
}

impl Default for RefreshMode {
    fn default() -> (r: Self)
        ensures
            r == RefreshMode::Automatic,
    {
        RefreshMode::Automatic
    }
}

/// Exponential back-off with a ceiling.
#[derive(Debug, Clone, Copy, PartialEq, Eq, Structural)]
pub struct RetryBackoff {
    pub initial_millis: u64,
    pub maximum_millis: u64,
}

impl Default for RetryBackoff {
    fn default() -> (r: Self)
        ensures
            r == (RetryBackoff { initial_millis: 25, maximum_millis: 1_000 }),
    {
        Self { initial_millis: 25, maximum_millis: 1_000 }
    }
}

/// The smaller of two numbers.
pub open spec fn least(a: int, b: int) -> int {
    if a <= b {
        a
    } else {
        b
    }
}

impl RetryBackoff {
    /// The wait before attempt `attempt`: the initial wait, doubled for each
    /// attempt up to the twentieth, and never above the maximum.
    pub open spec fn wait(self, attempt: u32) -> int {
        least(
            self.initial_millis * pow2(least(attempt as int, 20) as nat),
            self.maximum_millis as int,
        )
    }

    /// The wait in milliseconds before attempt `attempt`.
    pub fn delay(self, attempt: u32) -> (r: u64)
        ensures
            r == self.wait(attempt),
    {
        let doublings: u32 = if attempt < 20 {
            attempt
        } else {
            20
        };
        let mut factor: u64 = 1;
        let mut k: u32 = 0;
        proof {
            lemma2_to64();
        }
        while k < doublings
            invariant
                k <= doublings <= 20,
                factor == pow2(k as nat),
                factor <= 1048576,
            decreases doublings - k,
        {
            proof {
                lemma_pow2_unfold((k + 1) as nat);
                lemma2_to64();
                if k + 1 < 20 {
                    lemma_pow2_strictly_increases((k + 1) as nat, 20);
                }
            }
            factor = factor * 2;
            k += 1;
        }
        let grown: u64 = match self.initial_millis.checked_mul(factor) {
            Some(v) => v,
            None => u64::MAX,
        };
        if grown < self.maximum_millis {
            grown
        } else {
            self.maximum_millis
        }
    }
}

/// A back-off never waits longer than its maximum, and never less than it did
/// for an earlier attempt.
pub proof fn backoff_grows_to_its_maximum(backoff: RetryBackoff, earlier: u32, later: u32)
    requires
        earlier <= later,
    ensures
        0 <= backoff.wait(earlier) <= backoff.wait(later) <= backoff.maximum_millis,
{
    let a = least(earlier as int, 20) as nat;
    let b = least(later as int, 20) as nat;
    if a < b {
        lemma_pow2_strictly_increases(a, b);
    }
    let i = backoff.initial_millis as int;
    let (x, y) = (pow2(a) as int, pow2(b) as int);
    assert(0 <= i * x <= i * y) by (nonlinear_arith)
        requires
            0 <= i,
            0 <= x <= y,
    ;
}

/// How a run reacts to changes found while it refreshes.
#[derive(Debug, Clone, Copy, PartialEq, Eq, Structural)]
pub struct RefreshPolicy {
    pub mode: RefreshMode,
    pub settle_delay_millis: u64,
    pub retry_backoff: RetryBackoff,
}

impl Default for RefreshPolicy {
    fn default() -> (r: Self)
        ensures
            r.mode == RefreshMode::Automatic,
            r.settle_delay_millis == 20,
            r.retry_backoff == (RetryBackoff { initial_millis: 25, maximum_millis: 1_000 }),
    {
        Self {
            mode: RefreshMode::Automatic,
            settle_delay_millis: 20,
            retry_backoff: RetryBackoff::default(),
        }
    }
}

/// How often a failing document is tried again.
#[derive(Debug, Clone, Copy, PartialEq, Eq, Structural)]
pub struct RetryPolicy {
    /// Attempts for a failing document in one invocation. Durable attempts are
    /// retained for diagnostics, but a new invocation receives a fresh budget.
    pub document_attempts_per_invocation: u32,
    pub backoff: RetryBackoff,
}

impl Default for RetryPolicy {
    fn default() -> (r: Self)
        ensures
            r.document_attempts_per_invocation == 1,
            r.backoff == (RetryBackoff { initial_millis: 25, maximum_millis: 1_000 }),
    {
        Self { document_attempts_per_invocation: 1, backoff: RetryBackoff::default() }
    }
}

/// The first wait is the initial one, each further one twice as long up to the maximum, and
/// after the twentieth they no longer grow.
pub proof fn backoff_doubles(backoff: RetryBackoff, attempt: u32)
    ensures
        backoff.wait(0) == least(backoff.initial_millis as int, backoff.maximum_millis as int),
        attempt < 20 ==> backoff.wait((attempt + 1) as u32) == least(
            2 * backoff.wait(attempt),
            backoff.maximum_millis as int,
        ),
        attempt >= 20 ==> backoff.wait(attempt) == backoff.wait(20),
{
    vstd::arithmetic::power2::lemma2_to64();
    assert(backoff.initial_millis * pow2(0) == backoff.initial_millis);
    if attempt < 20 {
        let (small, great) = (pow2(attempt as nat), pow2((attempt + 1) as nat));
        vstd::arithmetic::power2::lemma_pow2_unfold((attempt + 1) as nat);
        let first = backoff.initial_millis as int;
        assert(first * great == 2 * (first * small)) by (nonlinear_arith)
            requires
                great == 2 * small,
        ;
    }
}

} // verus!
