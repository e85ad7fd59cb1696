//! When a request to the server, or an upload to storage, is tried again.
//!
//! Each attempt ends with an answer or a transport failure; these functions
//! decide whether to accept it, try again after a back-off, or give up. A
//! run of attempts is numbered from 0 and allows at most `max_retries`
//! retries, so attempt `max_retries` is the last.

use vstd::prelude::*;

verus! {

/// How an attempt ended.
#[derive(Clone, Copy, Debug, PartialEq, Eq, Structural)]
pub enum AttemptOutcome {
    /// The server answered with this HTTP status.
    Status(u16),
    /// No answer arrived; the flags say whether the request timed out,
    /// could not connect, or failed while the request or its body was sent.
    Transport { timeout: bool, connect: bool, request: bool, body: bool },
}

/// What to do after an attempt.
#[derive(Clone, Copy, Debug, PartialEq, Eq, Structural)]
pub enum RetryDecision {
    /// Accept the answer (for a request, read it, whatever its status).
    Accept,
    /// Try again after the back-off delay.
    Retry,
    /// Stop and report the failure.
    GiveUp,
}

/// How a failed part upload failed.
#[derive(Clone, Copy, Debug, PartialEq, Eq, Structural)]
pub enum PartFailure {
    /// An HTTP failure: timed out, could not connect, or was answered with
    /// the status when there was one.
    Http { timeout: bool, connect: bool, status: Option<u16> },
    /// Any other failure (such as reading the file).
    Other,
}

/// Whether an answer with this status is worth trying again: request
/// timeout, too many requests, and the transient server errors.
pub open spec fn transient_status(code: u16) -> bool {
    code == 408 || code == 429 || code == 500 || code == 502 || code == 503 || code == 504
}

/// The statuses on which an upload to storage is tried again: the
/// transient ones, a conflict and a locked object.
pub open spec fn upload_retry_status(code: u16) -> bool {
    transient_status(code) || code == 409 || code == 423
}

/// What a request does after an attempt: a transient status is tried
/// again, any other answer is read; a timeout or a failed connection is
/// tried again, any other transport failure gives up. Nothing is tried
/// again after the last attempt.
pub open spec fn request_decision(attempt: nat, max_retries: nat, outcome: AttemptOutcome) -> RetryDecision {
    match outcome {
        AttemptOutcome::Status(code) => if transient_status(code) && attempt < max_retries {
            RetryDecision::Retry
        } else {
            RetryDecision::Accept
        },
        AttemptOutcome::Transport { timeout, connect, .. } => if (timeout || connect) && attempt
            < max_retries {
            RetryDecision::Retry
        } else {
            RetryDecision::GiveUp
        },
    }
}

/// What an upload to storage does after an attempt: a success status
/// (`2xx`) is accepted; a retry status is tried again; any transport
/// failure that sent nothing harmful (timeout, connection, request or body)
/// is tried again; anything else gives up. Nothing is tried again after
/// the last attempt.
pub open spec fn upload_decision(attempt: nat, max_retries: nat, outcome: AttemptOutcome) -> RetryDecision {
    match outcome {
        AttemptOutcome::Status(code) => if 200 <= code <= 299 {
            RetryDecision::Accept
        } else if upload_retry_status(code) && attempt < max_retries {
            RetryDecision::Retry
        } else {
            RetryDecision::GiveUp
        },
        AttemptOutcome::Transport { timeout, connect, request, body } => if (timeout || connect
            || request || body) && attempt < max_retries {
            RetryDecision::Retry
        } else {
            RetryDecision::GiveUp
        },
    }
}

/// Whether a failed part upload is tried again: an HTTP failure that timed
/// out, could not connect or was answered with a server error (`5xx` or
/// above), before the last attempt.
pub open spec fn part_retried(attempt: nat, max_retries: nat, failure: PartFailure) -> bool {
    attempt < max_retries && match failure {
        PartFailure::Http { timeout, connect, status } => timeout || connect || match status {
            Some(code) => code >= 500,
            None => false,
        },
        PartFailure::Other => false,
    }
}

/// Before the last attempt, a part upload answered with any server error
/// (status 500 or above) is tried again, as is one that timed out or could
/// not connect; one answered with a status below 500, or that failed
/// otherwise, is not; at or after the last attempt nothing is.
pub proof fn lemma_part_server_errors_retried(attempt: nat, max_retries: nat, code: u16, t: bool, c: bool)
    ensures
        attempt < max_retries && 500 <= code ==> part_retried(
            attempt,
            max_retries,
            PartFailure::Http { timeout: false, connect: false, status: Some(code) },
        ),
        attempt < max_retries && (t || c) ==> part_retried(
            attempt,
            max_retries,
            PartFailure::Http { timeout: t, connect: c, status: None },
        ),
        code < 500 ==> !part_retried(
            attempt,
            max_retries,
            PartFailure::Http { timeout: false, connect: false, status: Some(code) },
        ),
        !part_retried(attempt, max_retries, PartFailure::Other),
        attempt >= max_retries ==> !part_retried(
            attempt,
            max_retries,
            PartFailure::Http { timeout: t, connect: c, status: Some(code) },
        ),
{
}

/// Before the last attempt a request answered with a request timeout (408),
/// too many requests (429) or a server error 500, 502, 503 or 504 is tried
/// again, while any status below 400 and `501` are read as they are; a
/// timed-out or unconnected request is tried again and another transport
/// failure gives up. An upload accepts every `2xx` status at any attempt
/// and, before the last, retries those statuses and also 409 and 423.
pub proof fn lemma_request_and_upload_statuses(attempt: nat, max_retries: nat, code: u16)
    ensures
        attempt < max_retries && (code == 408 || code == 429 || code == 500 || code == 502 || code == 503
            || code == 504) ==> request_decision(attempt, max_retries, AttemptOutcome::Status(code))
            == RetryDecision::Retry && upload_decision(attempt, max_retries, AttemptOutcome::Status(code))
            == RetryDecision::Retry,
        (code < 400 || code == 501) ==> request_decision(attempt, max_retries, AttemptOutcome::Status(code))
            == RetryDecision::Accept,
        200 <= code <= 299 ==> upload_decision(attempt, max_retries, AttemptOutcome::Status(code))
            == RetryDecision::Accept,
        attempt < max_retries && (code == 409 || code == 423) ==> upload_decision(
            attempt,
            max_retries,
            AttemptOutcome::Status(code),
        ) == RetryDecision::Retry,
        (code == 404 || code == 400 || code == 501) ==> upload_decision(
            attempt,
            max_retries,
            AttemptOutcome::Status(code),
        ) == RetryDecision::GiveUp,
{
}

/// `2` to the power `n`.
pub open spec fn two_pow(n: nat) -> nat
    decreases n,
{
    if n == 0 {
        1
    } else {
        2 * two_pow((n - 1) as nat)
    }
}

/// The back-off before retry `attempt` (from 1) of a request, in seconds:
/// doubling from one second, at most 30.
pub open spec fn request_backoff(attempt: nat) -> nat {
    let exponent: nat = if attempt - 1 < 5 { (attempt - 1) as nat } else { 5 };
    if two_pow(exponent) < 30 {
        two_pow(exponent)
    } else {
        30
    }
}

/// The back-off before retry `attempt` (from 1) of an upload, in seconds:
/// doubling from one second up to 16.
pub open spec fn upload_backoff(attempt: nat) -> nat {
    let exponent: nat = if attempt - 1 < 4 { (attempt - 1) as nat } else { 4 };
    two_pow(exponent)
}

/// `two_pow` is at least 1 and grows with its exponent.
proof fn lemma_two_pow_monotone(m: nat, n: nat)
    requires
        m <= n,
    ensures
        1 <= two_pow(m) <= two_pow(n),
    decreases n,
{
    if n > m {
        lemma_two_pow_monotone(m, (n - 1) as nat);
    } else if n > 0 {
        lemma_two_pow_monotone(0, (n - 1) as nat);
    }
}

/// Retries stop: from the last attempt on, no outcome of a request, an
/// upload or a part upload is tried again.
pub proof fn lemma_no_retry_after_last_attempt(
    attempt: nat,
    max_retries: nat,
    outcome: AttemptOutcome,
    failure: PartFailure,
)
    requires
        attempt >= max_retries,
    ensures
        request_decision(attempt, max_retries, outcome) != RetryDecision::Retry,
        upload_decision(attempt, max_retries, outcome) != RetryDecision::Retry,
        !part_retried(attempt, max_retries, failure),
{
}

/// Back-off never shrinks from one retry to the next: a request waits at
/// least one and at most 30 seconds, an upload at least one and at most 16.
pub proof fn lemma_backoff_grows_and_is_capped(a: nat, b: nat)
    requires
        1 <= a <= b,
    ensures
        1 <= request_backoff(a) <= request_backoff(b) <= 30,
        1 <= upload_backoff(a) <= upload_backoff(b) <= 16,
{
    let ra: nat = if a - 1 < 5 { (a - 1) as nat } else { 5 };
    let rb: nat = if b - 1 < 5 { (b - 1) as nat } else { 5 };
    let ua: nat = if a - 1 < 4 { (a - 1) as nat } else { 4 };
    let ub: nat = if b - 1 < 4 { (b - 1) as nat } else { 4 };
    lemma_two_pow_monotone(ra, rb);
    lemma_two_pow_monotone(ua, ub);
    lemma_two_pow_monotone(ub, 4);
    reveal_with_fuel(two_pow, 5);
}

/// Whether the server's answer with this status is tried again.
pub fn is_transient_status(code: u16) -> (b: bool)
    ensures
        b == transient_status(code),
{
    code == 408 || code == 429 || code == 500 || code == 502 || code == 503 || code == 504
}

/// Decides what a request does after attempt `attempt`.
pub fn request_attempt_decision(attempt: usize, max_retries: usize, outcome: AttemptOutcome) -> (d:
    RetryDecision)
    ensures
        d == request_decision(attempt as nat, max_retries as nat, outcome),
{
    match outcome {
        AttemptOutcome::Status(code) => {
            if is_transient_status(code) && attempt < max_retries {
                RetryDecision::Retry
            } else {
                RetryDecision::Accept
            }
        },
        AttemptOutcome::Transport { timeout, connect, .. } => {
            if (timeout || connect) && attempt < max_retries {
                RetryDecision::Retry
            } else {
                RetryDecision::GiveUp
            }
        },
    }
}

/// Decides what an upload to storage does after attempt `attempt`.
pub fn upload_attempt_decision(attempt: usize, max_retries: usize, outcome: AttemptOutcome) -> (d:
    RetryDecision)
    ensures
        d == upload_decision(attempt as nat, max_retries as nat, outcome),
{
    match outcome {
        AttemptOutcome::Status(code) => {
            if 200 <= code && code <= 299 {
                RetryDecision::Accept
            } else if (is_transient_status(code) || code == 409 || code == 423) && attempt
                < max_retries {
                RetryDecision::Retry
            } else {
                RetryDecision::GiveUp
            }
        },
        AttemptOutcome::Transport { timeout, connect, request, body } => {
            if (timeout || connect || request || body) && attempt < max_retries {
                RetryDecision::Retry
            } else {
                RetryDecision::GiveUp
            }
        },
    }
}

/// Decides whether a failed part upload is tried again.
pub fn part_attempt_retried(attempt: usize, max_retries: usize, failure: PartFailure) -> (b: bool)
    ensures
        b == part_retried(attempt as nat, max_retries as nat, failure),
        b ==> attempt < max_retries,
        forall|code: u16|
            attempt < max_retries && 500 <= code && failure == (PartFailure::Http {
                timeout: false,
                connect: false,
                status: Some(code),
            }) ==> b,
        forall|t: bool, c: bool, st: Option<u16>|
            attempt < max_retries && (t || c) && failure == (PartFailure::Http { timeout: t, connect: c, status: st })
                ==> b,
        forall|t: bool, c: bool, code: u16|
            !t && !c && code < 500 && failure == (PartFailure::Http { timeout: t, connect: c, status: Some(code) })
                ==> !b,
{
    if attempt >= max_retries {
        return false;
    }
    match failure {
        PartFailure::Http { timeout, connect, status } => {
            timeout || connect || match status {
                Some(code) => code >= 500,
                None => false,
            }
        },
        PartFailure::Other => false,
    }
}

/// `2` to the power `n`, for `n <= 5`.
fn small_power_of_two(n: u64) -> (p: u64)
    requires
        n <= 5,
    ensures
        p == two_pow(n as nat),
        p <= 32,
{
    let mut p: u64 = 1;
    let mut i: u64 = 0;
    while i < n
        invariant
            i <= n <= 5,
            p == two_pow(i as nat),
            p <= 32,
        decreases n - i,
    {
        proof {
            reveal_with_fuel(two_pow, 6);
        }
        p = p * 2;
        i = i + 1;
    }
    p
}

/// The back-off before retry `attempt` of a request, in seconds.
pub fn request_backoff_secs(attempt: usize) -> (s: u64)
    requires
        attempt >= 1,
    ensures
        s == request_backoff(attempt as nat),
{
    let exponent: u64 = if attempt - 1 < 5 { (attempt - 1) as u64 } else { 5 };
    let p = small_power_of_two(exponent);
    if p < 30 {
        p
    } else {
        30
    }
}

/// The back-off before retry `attempt` of an upload, in seconds.
pub fn upload_backoff_secs(attempt: usize) -> (s: u64)
    requires
        attempt >= 1,
    ensures
        s == upload_backoff(attempt as nat),
{
    let exponent: u64 = if attempt - 1 < 4 { (attempt - 1) as u64 } else { 4 };
    small_power_of_two(exponent)
}


/// How a run of request attempts ends when attempt `k` ends with
/// `outcomes[k]`, going on from attempt `i`: the number of attempts made
/// and the decision that stopped them (`Retry` when the outcomes ran out
/// first).
pub open spec fn request_run(max_retries: nat, outcomes: Seq<AttemptOutcome>, i: nat) -> (nat, RetryDecision)
    decreases outcomes.len() - i,
{
    if i >= outcomes.len() {
        (i, RetryDecision::Retry)
    } else {
        let d = request_decision(i, max_retries, outcomes[i as int]);
        if d == RetryDecision::Retry {
            request_run(max_retries, outcomes, i + 1)
        } else {
            ((i + 1) as nat, d)
        }
    }
}

/// The same for an upload to storage.
pub open spec fn upload_run(max_retries: nat, outcomes: Seq<AttemptOutcome>, i: nat) -> (nat, RetryDecision)
    decreases outcomes.len() - i,
{
    if i >= outcomes.len() {
        (i, RetryDecision::Retry)
    } else {
        let d = upload_decision(i, max_retries, outcomes[i as int]);
        if d == RetryDecision::Retry {
            upload_run(max_retries, outcomes, i + 1)
        } else {
            ((i + 1) as nat, d)
        }
    }
}

/// Runs the decisions of a request over the outcomes of its attempts, in
/// order: how many attempts are made, and what stopped them.
pub fn run_request_attempts(max_retries: usize, outcomes: &Vec<AttemptOutcome>) -> (r: (usize, RetryDecision))
    ensures
        (r.0 as nat, r.1) == request_run(max_retries as nat, outcomes@, 0),
{
    let mut i: usize = 0;
    while i < outcomes.len()
        invariant
            i <= outcomes.len(),
            request_run(max_retries as nat, outcomes@, i as nat) == request_run(max_retries as nat, outcomes@, 0),
        decreases outcomes.len() - i,
    {
        let d = request_attempt_decision(i, max_retries, outcomes[i]);
        if d != RetryDecision::Retry {
            return (i + 1, d);
        }
        i = i + 1;
    }
    (i, RetryDecision::Retry)
}

/// Runs the decisions of an upload over the outcomes of its attempts.
pub fn run_upload_attempts(max_retries: usize, outcomes: &Vec<AttemptOutcome>) -> (r: (usize, RetryDecision))
    ensures
        (r.0 as nat, r.1) == upload_run(max_retries as nat, outcomes@, 0),
{
    let mut i: usize = 0;
    while i < outcomes.len()
        invariant
            i <= outcomes.len(),
            upload_run(max_retries as nat, outcomes@, i as nat) == upload_run(max_retries as nat, outcomes@, 0),
        decreases outcomes.len() - i,
    {
        let d = upload_attempt_decision(i, max_retries, outcomes[i]);
        if d != RetryDecision::Retry {
            return (i + 1, d);
        }
        i = i + 1;
    }
    (i, RetryDecision::Retry)
}

/// Retries are bounded: whatever the outcomes, a request or an upload
/// makes at most `max_retries + 1` attempts, and when the outcomes do not
/// run out first, it stops with a decision other than `Retry`.
pub proof fn lemma_attempts_bounded(max_retries: nat, outcomes: Seq<AttemptOutcome>)
    ensures
        request_run(max_retries, outcomes, 0).0 <= max_retries + 1,
        upload_run(max_retries, outcomes, 0).0 <= max_retries + 1,
        outcomes.len() > max_retries ==> request_run(max_retries, outcomes, 0).1 != RetryDecision::Retry,
        outcomes.len() > max_retries ==> upload_run(max_retries, outcomes, 0).1 != RetryDecision::Retry,
{
    lemma_runs_bounded_from(max_retries, outcomes, 0);
}

proof fn lemma_runs_bounded_from(max_retries: nat, outcomes: Seq<AttemptOutcome>, i: nat)
    requires
        i <= max_retries,
    ensures
        request_run(max_retries, outcomes, i).0 <= max_retries + 1,
        upload_run(max_retries, outcomes, i).0 <= max_retries + 1,
        outcomes.len() > max_retries ==> request_run(max_retries, outcomes, i).1 != RetryDecision::Retry,
        outcomes.len() > max_retries ==> upload_run(max_retries, outcomes, i).1 != RetryDecision::Retry,
    decreases max_retries - i,
{
    if i < max_retries {
        lemma_runs_bounded_from(max_retries, outcomes, i + 1);
    }
}
} // verus!
