//! The retry-on-timeout policy.
//!
//! A transient timeout against a distant or lightly loaded server is worth
//! a bounded number of immediate retries; any other failure is
//! non-transient and propagates at once.

use vstd::prelude::*;

use crate::error::{GDError, GDResult};

verus! {

/// What the policy tells the caller to do with a failed attempt.
#[derive(Debug, Clone, Copy, PartialEq, Eq, Structural)]
pub enum RetryDecision {
    RetryAgain,
    GiveUp,
}

/// The one decision of the policy: run the operation again exactly when
/// the failure was a timeout and attempts remain.
pub fn retry_decide(err: &GDError, attempts_left: usize) -> (r: RetryDecision)
    ensures
        r is RetryAgain <==> err.is_timeout_spec() && attempts_left > 0,
{
    if err.is_timeout() && attempts_left > 0 {
        RetryDecision::RetryAgain
    } else {
        RetryDecision::GiveUp
    }
}

/// How many timeout failures stand at the front of `s` before its first
/// other outcome.
pub open spec fn timeout_prefix_len<T>(s: Seq<GDResult<T>>) -> nat
    decreases s.len(),
{
    if s.len() == 0 {
        0
    } else if s.first() matches Err(e) && e is TimeoutElapsedError {
        1 + timeout_prefix_len(s.drop_first())
    } else {
        0
    }
}

/// The front of `s` holds exactly `j` timeouts when its first `j` entries
/// are timeouts and, if one more entry follows, it is something else.
pub proof fn lemma_timeout_prefix<T>(s: Seq<GDResult<T>>, j: nat)
    requires
        j <= s.len(),
        forall|i: int|
            0 <= i < j ==> s[i] is Err && (#[trigger] s[i])->Err_0 is TimeoutElapsedError,
    ensures
        timeout_prefix_len(s) >= j,
        j < s.len() && !(s[j as int] is Err && s[j as int]->Err_0 is TimeoutElapsedError)
            ==> timeout_prefix_len(s) == j,
    decreases j,
{
    if j > 0 {
        assert(s[0] is Err && s[0]->Err_0 is TimeoutElapsedError);
        let d = s.drop_first();
        assert(forall|i: int|
            0 <= i < j - 1 ==> d[i] is Err && (#[trigger] d[i])->Err_0 is TimeoutElapsedError);
        lemma_timeout_prefix(d, (j - 1) as nat);
    }
}

/// Runs the retry policy of a query: the operation's successive outcomes
/// arrive in order, one per attempt it would make. The call returns the
/// outcome the policy settles on together with how many attempts were
/// spent: a timeout is retried immediately while attempts remain, and any
/// other outcome — success or failure — ends the run at once.
///
/// This states the policy whole: with `k` leading timeouts, a run with
/// more than `k` attempts allowed returns outcome `k + 1` after exactly
/// `k + 1` attempts, and a run with at most `k` allowed returns the last
/// timeout it saw after exactly `max_attempts` attempts.
#[verifier::loop_isolation(false)]
pub fn retry_on_timeout<T>(max_attempts: usize, outcomes: Vec<GDResult<T>>) -> (r: (
    GDResult<T>,
    usize,
))
    requires
        1 <= max_attempts,
        max_attempts <= outcomes.len(),
    ensures
        ({
            let p = timeout_prefix_len(outcomes@);
            &&& p < max_attempts ==> r.0 == outcomes@[p as int] && r.1 == p + 1
            &&& p >= max_attempts ==> r.0 == outcomes@[max_attempts - 1] && r.1 == max_attempts
        }),
{
    let ghost orig = outcomes@;
    let mut rest = outcomes;
    let mut attempt: usize = 0;
    loop
        invariant
            attempt < max_attempts <= orig.len(),
            rest@ == orig.subrange(attempt as int, orig.len() as int),
            forall|i: int|
                0 <= i < attempt ==> orig[i] is Err && (#[trigger] orig[i])->Err_0
                    is TimeoutElapsedError,
        decreases max_attempts - attempt,
    {
        let ghost rest0 = rest@;
        let out = rest.remove(0);
        proof {
            assert(rest0[0] == orig[attempt as int]);
            assert(rest@ =~= orig.subrange(attempt + 1, orig.len() as int));
        }
        attempt = attempt + 1;
        match out {
            Ok(v) => {
                proof {
                    lemma_timeout_prefix(orig, (attempt - 1) as nat);
                }
                return (Ok(v), attempt);
            },
            Err(e) => {
                if !e.is_timeout() {
                    proof {
                        lemma_timeout_prefix(orig, (attempt - 1) as nat);
                    }
                    return (Err(e), attempt);
                }
                if attempt == max_attempts {
                    proof {
                        lemma_timeout_prefix(orig, attempt as nat);
                    }
                    return (Err(e), attempt);
                }
            },
        }
    }
}

} // verus!
