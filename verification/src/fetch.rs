//! Fetch policy: how a source's failure is classified and how often a
//! flaky upstream is retried.

use vstd::prelude::*;
use crate::data::Outcome;
use crate::text::{push_str, string_from_chars};

verus! {

/// An integration whose required setting is unset or empty; the field
/// names the setting. Such a source is opted out: its panel stays empty
/// rather than showing made-up data.
#[derive(Copy, Clone, Debug)]
pub struct NotConfigured(pub &'static str);

impl NotConfigured {
    /// `"<SETTING> not configured"`.
    pub fn message(&self) -> (r: String)
        ensures
            r@ == self.0@ + " not configured"@,
    {
        let mut out: Vec<char> = Vec::new();
        push_str(&mut out, self.0);
        push_str(&mut out, " not configured");
        string_from_chars(&out)
    }
}

/// Why a pull produced no data.
#[derive(Copy, Clone, Debug)]
pub enum FetchError {
    /// The integration is opted out.
    NotConfigured(NotConfigured),
    /// The upstream could not be read or understood.
    Failed,
}

/// The failure is the opted-out sentinel rather than a real failure.
pub fn is_not_configured(e: &FetchError) -> (r: bool)
    ensures
        r == (*e is NotConfigured),
{
    match e {
        FetchError::NotConfigured(_) => true,
        FetchError::Failed => false,
    }
}

/// A pull's result as the snapshot folds it: data, opted out, or failed.
pub fn outcome_of<T>(r: Result<T, FetchError>) -> (o: Outcome<T>)
    ensures
        match r {
            Ok(v) => o == Outcome::Fetched(v),
            Err(FetchError::NotConfigured(_)) => o is NotConfigured,
            Err(FetchError::Failed) => o is Failed,
        },
{
    match r {
        Ok(v) => Outcome::Fetched(v),
        Err(e) => if is_not_configured(&e) {
            Outcome::NotConfigured
        } else {
            Outcome::Failed
        },
    }
}

// ── Retries ────────────────────────────────────────────────────────────────

/// What to do after attempt `attempt` (counted from 1) of a retried pull.
#[derive(Copy, Clone, Debug, PartialEq, Eq, Structural)]
pub enum RetryAction {
    /// The attempt succeeded: hand its result over.
    Done,
    /// Wait this many seconds, then try again.
    Retry(u64),
    /// The last attempt failed: report its error.
    GiveUp,
}

/// Attempts made in all: at least one.
pub open spec fn spec_total_attempts(attempts: u32) -> u32 {
    if attempts > 1 { attempts } else { 1 }
}

pub fn total_attempts(attempts: u32) -> (r: u32)
    ensures
        r == spec_total_attempts(attempts),
{
    if attempts > 1 { attempts } else { 1 }
}

/// Backoff before attempt `attempt + 1`: 1 s, 2 s, 4 s, ...
pub open spec fn backoff_secs(attempt: u32) -> u64
    recommends
        1 <= attempt <= 64,
{
    vstd::arithmetic::power2::pow2((attempt - 1) as nat) as u64
}

/// The step after attempt `attempt` of `total` (`1 <= attempt <= total`).
pub open spec fn spec_retry_step(attempt: u32, total: u32, ok: bool) -> RetryAction {
    if ok {
        RetryAction::Done
    } else if attempt < total {
        RetryAction::Retry(backoff_secs(attempt))
    } else {
        RetryAction::GiveUp
    }
}

pub fn retry_step(attempt: u32, total: u32, ok: bool) -> (r: RetryAction)
    requires
        1 <= attempt <= total,
        attempt <= 64,
    ensures
        r == spec_retry_step(attempt, total, ok),
{
    if ok {
        RetryAction::Done
    } else if attempt < total {
        let k = (attempt - 1) as u64;
        proof {
            vstd::bits::lemma_u64_pow2_no_overflow(k as nat);
            vstd::bits::lemma_u64_shl_is_mul(1u64, k);
        }
        RetryAction::Retry(1u64 << k)
    } else {
        RetryAction::GiveUp
    }
}

/// Every failed attempt but the last is retried after twice the previous
/// wait, starting at one second; a success ends the run at once.
pub proof fn law_retry_backoff(attempt: u32, total: u32)
    requires
        2 <= attempt < total,
        attempt <= 64,
    ensures
        spec_retry_step(attempt, total, false) matches RetryAction::Retry(w)
            && spec_retry_step((attempt - 1) as u32, total, false) matches RetryAction::Retry(v)
            && w == 2 * v,
        spec_retry_step(1, total, false) == RetryAction::Retry(1),
        spec_retry_step(attempt, total, true) == RetryAction::Done,
        spec_retry_step(total, total, false) == RetryAction::GiveUp,
{
    vstd::arithmetic::power2::lemma_pow2_unfold((attempt - 1) as nat);
    vstd::arithmetic::power2::lemma2_to64();
    vstd::bits::lemma_u64_pow2_no_overflow((attempt - 1) as nat);
    vstd::bits::lemma_u64_pow2_no_overflow((attempt - 2) as nat);
}

} // verus!
