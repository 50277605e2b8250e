//! Decisions of the submission pipeline: after each attempt to send an
//! improvement, whether to stop, retry after a short pause, give up, or apply
//! the server's acknowledgement to the mirror.

use crate::bank::{Submission, SubmissionState};
use crate::decimal::{decimal_string, decimal_text};
use crate::sketch::register_count;
use vstd::prelude::*;

verus! {

/// Most attempts made for one submission.
pub const MAX_SUBMIT_ATTEMPTS: u8 = 3;

/// Pause between two attempts, in milliseconds.
pub const RETRY_BACKOFF_MS: u64 = 100;

/// What one attempt to send a submission came to.
#[derive(Clone, Copy, Debug, PartialEq, Eq, Structural)]
pub enum AttemptOutcome {
    /// Cancellation fired while the attempt was under way.
    Cancelled,
    /// The request could not be sent or its response not read.
    Transport,
    /// The server answered with this non-success status.
    Status { code: u16 },
    /// A success status whose body decoded; `improved` as the server said.
    Accepted { improved: bool },
    /// A success status whose body did not decode.
    Malformed,
}

/// Why a submission was given up.
#[derive(Clone, Copy, Debug, PartialEq, Eq, Structural)]
pub enum FailureReason {
    /// Every attempt failed to reach the server.
    Network,
    /// The server rejected it with this status.
    Http { status: u16 },
    /// The server accepted it but its answer never decoded.
    MalformedResponse,
}

/// What the pipeline does after an attempt.
#[derive(Clone, Copy, Debug, PartialEq, Eq, Structural)]
pub enum AttemptStep {
    /// Success: apply the acknowledgement to the mirror.
    Acknowledged { improved: bool },
    /// Sleep this long (unless cancelled), then make the next attempt.
    RetryAfter { millis: u64 },
    /// Give up: count a failure and record the reason.
    GiveUp { reason: FailureReason },
    /// Cancelled: stop without counting anything.
    Stop,
}

/// A status that is worth another attempt: a server error or 429.
pub open spec fn retryable_status(code: u16) -> bool {
    (500 <= code && code <= 599) || code == 429
}

/// The step after attempt number `attempt` (counting from 1) ended in `outcome`.
pub open spec fn step_after(attempt: u8, outcome: AttemptOutcome) -> AttemptStep {
    let last = attempt >= MAX_SUBMIT_ATTEMPTS;
    match outcome {
        AttemptOutcome::Cancelled => AttemptStep::Stop,
        AttemptOutcome::Transport => if last {
            AttemptStep::GiveUp { reason: FailureReason::Network }
        } else {
            AttemptStep::RetryAfter { millis: RETRY_BACKOFF_MS }
        },
        AttemptOutcome::Status { code } => if last || !retryable_status(code) {
            AttemptStep::GiveUp { reason: FailureReason::Http { status: code } }
        } else {
            AttemptStep::RetryAfter { millis: RETRY_BACKOFF_MS }
        },
        AttemptOutcome::Accepted { improved } => AttemptStep::Acknowledged { improved },
        AttemptOutcome::Malformed => if last {
            AttemptStep::GiveUp { reason: FailureReason::MalformedResponse }
        } else {
            AttemptStep::RetryAfter { millis: RETRY_BACKOFF_MS }
        },
    }
}

/// Whether a status is worth another attempt.
pub fn is_retryable_status(code: u16) -> (r: bool)
    ensures
        r == retryable_status(code),
{
    (500 <= code && code <= 599) || code == 429
}

/// Decides what follows attempt number `attempt` of a submission. A retry is
/// only ever offered before the last attempt and never waits more than
/// `RETRY_BACKOFF_MS`; cancellation always stops at once.
pub fn next_step(attempt: u8, outcome: AttemptOutcome) -> (r: AttemptStep)
    requires
        1 <= attempt <= MAX_SUBMIT_ATTEMPTS,
    ensures
        r == step_after(attempt, outcome),
        r matches AttemptStep::RetryAfter { millis } ==> attempt < MAX_SUBMIT_ATTEMPTS && millis
            == RETRY_BACKOFF_MS,
        outcome == AttemptOutcome::Cancelled ==> r == AttemptStep::Stop,
{
    let last = attempt >= MAX_SUBMIT_ATTEMPTS;
    match outcome {
        AttemptOutcome::Cancelled => AttemptStep::Stop,
        AttemptOutcome::Transport => {
            if last {
                AttemptStep::GiveUp { reason: FailureReason::Network }
            } else {
                AttemptStep::RetryAfter { millis: RETRY_BACKOFF_MS }
            }
        },
        AttemptOutcome::Status { code } => {
            if last || !is_retryable_status(code) {
                AttemptStep::GiveUp { reason: FailureReason::Http { status: code } }
            } else {
                AttemptStep::RetryAfter { millis: RETRY_BACKOFF_MS }
            }
        },
        AttemptOutcome::Accepted { improved } => AttemptStep::Acknowledged { improved },
        AttemptOutcome::Malformed => {
            if last {
                AttemptStep::GiveUp { reason: FailureReason::MalformedResponse }
            } else {
                AttemptStep::RetryAfter { millis: RETRY_BACKOFF_MS }
            }
        },
    }
}

/// The mirrors after the server acknowledged `sub`: the submitted register of
/// its slot becomes the smaller of itself and the submitted hash.
pub open spec fn acked_mirrors(mirrors: Seq<Seq<u64>>, sub: Submission) -> Seq<Seq<u64>> {
    let s = sub.slot_index as int;
    let r = sub.register as int;
    if s < mirrors.len() && sub.hash < mirrors[s][r] {
        mirrors.update(s, mirrors[s].update(r, sub.hash))
    } else {
        mirrors
    }
}

/// Once the submission chosen by `next_submission` is acknowledged, its
/// register's mirror holds the submitted hash, so the same improvement is not
/// offered again.
pub proof fn lemma_ack_suppresses(before: SubmissionState, after: SubmissionState, sub: Submission)
    requires
        before.wf(),
        before.is_next(sub),
        after.infos() == before.infos(),
        after.locals() == before.locals(),
        after.mirrors() == acked_mirrors(before.mirrors(), sub),
    ensures
        after.mirrors()[sub.slot_index as int][sub.register as int] == sub.hash,
        !after.is_candidate(sub.slot_index as int, sub.register as int),
{
}

/// Number of attempts made for one submission when the attempts from number
/// `attempt` on end in `outcomes`, one outcome per attempt.
pub open spec fn attempts_made(attempt: u8, outcomes: Seq<AttemptOutcome>) -> nat
    decreases outcomes.len(),
{
    if outcomes.len() == 0 {
        0
    } else {
        match step_after(attempt, outcomes[0]) {
            AttemptStep::RetryAfter { .. } => 1 + attempts_made(
                (attempt + 1) as u8,
                outcomes.drop_first(),
            ),
            _ => 1,
        }
    }
}

/// Total pause between those attempts, in milliseconds.
pub open spec fn pause_total(attempt: u8, outcomes: Seq<AttemptOutcome>) -> nat
    decreases outcomes.len(),
{
    if outcomes.len() == 0 {
        0
    } else {
        match step_after(attempt, outcomes[0]) {
            AttemptStep::RetryAfter { millis } => millis as nat + pause_total(
                (attempt + 1) as u8,
                outcomes.drop_first(),
            ),
            _ => 0,
        }
    }
}

/// Whatever the attempts come to, a submission is tried at most
/// `MAX_SUBMIT_ATTEMPTS` times counting from attempt 1, and the pauses add up
/// to at most `RETRY_BACKOFF_MS` per retry.
pub proof fn lemma_retry_envelope(attempt: u8, outcomes: Seq<AttemptOutcome>)
    requires
        1 <= attempt <= MAX_SUBMIT_ATTEMPTS,
    ensures
        attempts_made(attempt, outcomes) <= MAX_SUBMIT_ATTEMPTS - attempt + 1,
        pause_total(attempt, outcomes) <= (MAX_SUBMIT_ATTEMPTS - attempt) * RETRY_BACKOFF_MS,
    decreases outcomes.len(),
{
    if outcomes.len() > 0 {
        if step_after(attempt, outcomes[0]) is RetryAfter {
            lemma_retry_envelope((attempt + 1) as u8, outcomes.drop_first());
        }
    }
}

/// Applies the result of a submission to the bank: on acknowledgement the
/// mirror of the submitted register becomes the smaller of itself and the
/// submitted hash; any other step leaves the bank as it was, so the next scan
/// finds the improvement again.
pub fn acknowledge(state: &mut SubmissionState, submission: &Submission, step: AttemptStep)
    requires
        old(state).wf(),
        submission.register < register_count(old(state).spec_bits()),
    ensures
        final(state).wf(),
        final(state).spec_bits() == old(state).spec_bits(),
        final(state).spec_order() == old(state).spec_order(),
        final(state).infos() == old(state).infos(),
        final(state).locals() == old(state).locals(),
        final(state).mirrors() == (if step is Acknowledged {
            acked_mirrors(old(state).mirrors(), *submission)
        } else {
            old(state).mirrors()
        }),
{
    if let AttemptStep::Acknowledged { .. } = step {
        state.mark_server_seen(submission.slot_index, submission.register, submission.hash);
    }
}

/// The text recorded as the last error when a submission is given up.
pub open spec fn failure_text(reason: FailureReason, body: Seq<char>) -> Seq<char> {
    match reason {
        FailureReason::Network => "network error while submitting hash"@,
        FailureReason::Http { status } => "submit failed: HTTP "@ + decimal_text(status as nat) + " "@
            + body,
        FailureReason::MalformedResponse => "submit succeeded but response JSON parse failed"@,
    }
}

/// The last-error text for `reason`; `body` is the trimmed response body of a
/// rejected submission.
pub fn failure_message(reason: FailureReason, body: &str) -> (r: String)
    ensures
        r@ == failure_text(reason, body@),
{
    match reason {
        FailureReason::Network => String::from_str("network error while submitting hash"),
        FailureReason::Http { status } => {
            let mut text = String::from_str("submit failed: HTTP ");
            let code = decimal_string(status as u64);
            text.append(code.as_str());
            text.append(" ");
            text.append(body);
            text
        },
        FailureReason::MalformedResponse => String::from_str(
            "submit succeeded but response JSON parse failed",
        ),
    }
}

} // verus!
