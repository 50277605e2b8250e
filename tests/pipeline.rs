use powhll::pipeline::{
    failure_message, is_retryable_status, next_step, AttemptOutcome, AttemptStep, FailureReason,
    MAX_SUBMIT_ATTEMPTS, RETRY_BACKOFF_MS,
};

#[test]
fn permanent_rejection_gives_up_at_once() {
    let step = next_step(1, AttemptOutcome::Status { code: 404 });
    assert_eq!(step, AttemptStep::GiveUp { reason: FailureReason::Http { status: 404 } });
    let text = failure_message(FailureReason::Http { status: 404 }, "function_not_found");
    assert!(text.contains("HTTP 404"));
    assert_eq!(text, "submit failed: HTTP 404 function_not_found");
}

#[test]
fn retries_stay_within_envelope() {
    for outcome in [
        AttemptOutcome::Transport,
        AttemptOutcome::Status { code: 503 },
        AttemptOutcome::Status { code: 429 },
        AttemptOutcome::Malformed,
    ] {
        let mut attempt = 1u8;
        loop {
            match next_step(attempt, outcome) {
                AttemptStep::RetryAfter { millis } => {
                    assert_eq!(millis, RETRY_BACKOFF_MS);
                    attempt += 1;
                }
                AttemptStep::GiveUp { .. } => break,
                other => panic!("unexpected {:?}", other),
            }
        }
        assert_eq!(attempt, MAX_SUBMIT_ATTEMPTS);
    }
}

#[test]
fn cancellation_stops() {
    for attempt in 1..=3u8 {
        assert_eq!(next_step(attempt, AttemptOutcome::Cancelled), AttemptStep::Stop);
    }
}

#[test]
fn success_is_acknowledged() {
    assert_eq!(
        next_step(3, AttemptOutcome::Accepted { improved: false }),
        AttemptStep::Acknowledged { improved: false }
    );
}

#[test]
fn give_up_reasons_per_outcome() {
    assert_eq!(
        next_step(3, AttemptOutcome::Transport),
        AttemptStep::GiveUp { reason: FailureReason::Network }
    );
    assert_eq!(
        next_step(3, AttemptOutcome::Malformed),
        AttemptStep::GiveUp { reason: FailureReason::MalformedResponse }
    );
    assert_eq!(
        next_step(3, AttemptOutcome::Status { code: 500 }),
        AttemptStep::GiveUp { reason: FailureReason::Http { status: 500 } }
    );
    assert_eq!(failure_message(FailureReason::Network, ""), "network error while submitting hash");
    assert_eq!(
        failure_message(FailureReason::MalformedResponse, ""),
        "submit succeeded but response JSON parse failed"
    );
}

#[test]
fn retryable_statuses() {
    assert!(is_retryable_status(500));
    assert!(is_retryable_status(599));
    assert!(is_retryable_status(429));
    assert!(!is_retryable_status(404));
    assert!(!is_retryable_status(600));
    assert!(!is_retryable_status(400));
}
