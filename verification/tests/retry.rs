use edgefirst_client::retry::{
    is_transient_status, part_attempt_retried, run_request_attempts, run_upload_attempts, request_attempt_decision, request_backoff_secs,
    upload_attempt_decision, upload_backoff_secs, AttemptOutcome, PartFailure, RetryDecision,
};

fn transport(timeout: bool, connect: bool, request: bool, body: bool) -> AttemptOutcome {
    AttemptOutcome::Transport { timeout, connect, request, body }
}

#[test]
fn transient_statuses() {
    for code in [408u16, 429, 500, 502, 503, 504] {
        assert!(is_transient_status(code));
    }
    for code in [200u16, 400, 401, 404, 409, 423, 501] {
        assert!(!is_transient_status(code));
    }
}

#[test]
fn request_retries_transient_answers_until_the_last_attempt() {
    assert_eq!(request_attempt_decision(0, 5, AttemptOutcome::Status(503)), RetryDecision::Retry);
    assert_eq!(request_attempt_decision(4, 5, AttemptOutcome::Status(429)), RetryDecision::Retry);
    assert_eq!(request_attempt_decision(5, 5, AttemptOutcome::Status(503)), RetryDecision::Accept);
    assert_eq!(request_attempt_decision(0, 5, AttemptOutcome::Status(200)), RetryDecision::Accept);
    assert_eq!(request_attempt_decision(0, 5, AttemptOutcome::Status(404)), RetryDecision::Accept);
    assert_eq!(request_attempt_decision(0, 0, AttemptOutcome::Status(500)), RetryDecision::Accept);
}

#[test]
fn request_retries_timeouts_and_connection_failures() {
    assert_eq!(request_attempt_decision(1, 5, transport(true, false, false, false)), RetryDecision::Retry);
    assert_eq!(request_attempt_decision(1, 5, transport(false, true, false, false)), RetryDecision::Retry);
    assert_eq!(request_attempt_decision(1, 5, transport(false, false, true, true)), RetryDecision::GiveUp);
    assert_eq!(request_attempt_decision(5, 5, transport(true, true, false, false)), RetryDecision::GiveUp);
}

#[test]
fn upload_decisions() {
    assert_eq!(upload_attempt_decision(0, 5, AttemptOutcome::Status(200)), RetryDecision::Accept);
    assert_eq!(upload_attempt_decision(5, 5, AttemptOutcome::Status(204)), RetryDecision::Accept);
    assert_eq!(upload_attempt_decision(0, 5, AttemptOutcome::Status(409)), RetryDecision::Retry);
    assert_eq!(upload_attempt_decision(0, 5, AttemptOutcome::Status(423)), RetryDecision::Retry);
    assert_eq!(upload_attempt_decision(0, 5, AttemptOutcome::Status(502)), RetryDecision::Retry);
    assert_eq!(upload_attempt_decision(5, 5, AttemptOutcome::Status(502)), RetryDecision::GiveUp);
    assert_eq!(upload_attempt_decision(0, 5, AttemptOutcome::Status(403)), RetryDecision::GiveUp);
    assert_eq!(upload_attempt_decision(0, 5, transport(false, false, false, true)), RetryDecision::Retry);
    assert_eq!(upload_attempt_decision(0, 5, transport(false, false, true, false)), RetryDecision::Retry);
    assert_eq!(upload_attempt_decision(0, 5, transport(false, false, false, false)), RetryDecision::GiveUp);
}

#[test]
fn part_upload_retries() {
    let server_error = PartFailure::Http { timeout: false, connect: false, status: Some(500) };
    let client_error = PartFailure::Http { timeout: false, connect: false, status: Some(403) };
    let timed_out = PartFailure::Http { timeout: true, connect: false, status: None };
    assert!(part_attempt_retried(0, 5, server_error));
    assert!(part_attempt_retried(2, 5, timed_out));
    assert!(!part_attempt_retried(0, 5, client_error));
    assert!(!part_attempt_retried(0, 5, PartFailure::Other));
    assert!(!part_attempt_retried(5, 5, server_error));
}

#[test]
fn backoff_schedules() {
    let request: Vec<u64> = (1..=8).map(request_backoff_secs).collect();
    assert_eq!(request, vec![1, 2, 4, 8, 16, 30, 30, 30]);
    let upload: Vec<u64> = (1..=7).map(upload_backoff_secs).collect();
    assert_eq!(upload, vec![1, 2, 4, 8, 16, 16, 16]);
}

#[test]
fn no_retry_from_the_last_attempt_on() {
    let outcomes = [
        AttemptOutcome::Status(503),
        AttemptOutcome::Status(409),
        transport(true, true, true, true),
    ];
    for o in outcomes {
        for attempt in 3..6 {
            assert_ne!(request_attempt_decision(attempt, 3, o), RetryDecision::Retry);
            assert_ne!(upload_attempt_decision(attempt, 3, o), RetryDecision::Retry);
        }
    }
}

#[test]
fn runs_stop_after_at_most_max_retries_plus_one_attempts() {
    let busy = vec![AttemptOutcome::Status(503); 10];
    assert_eq!(run_request_attempts(3, &busy), (4, RetryDecision::Accept));
    assert_eq!(run_upload_attempts(3, &busy), (4, RetryDecision::GiveUp));
    let mixed = vec![AttemptOutcome::Status(503), AttemptOutcome::Status(200)];
    assert_eq!(run_request_attempts(5, &mixed), (2, RetryDecision::Accept));
    assert_eq!(run_upload_attempts(5, &mixed), (2, RetryDecision::Accept));
    assert_eq!(run_request_attempts(5, &vec![AttemptOutcome::Status(503)]), (1, RetryDecision::Retry));
}
