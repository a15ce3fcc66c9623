//! Decisions of the delivery worker: which tasks can be sent, what a send's
//! outcome does to the queue, and how long to wait between polls.

use vstd::prelude::*;
use crate::model::{DeliveryResult, ExecutionOutcome};
use crate::store::DeliveryJob;

verus! {

/// Whether `s` is an address that the mail provider accepts.
pub uninterp spec fn email_is_valid(s: Seq<char>) -> bool;

/// Relies on validator::validate_email: the HTML5 address syntax, which
/// refuses an empty string and one without `@`.
#[verifier::external_body]
fn validate_email(s: &str) -> (r: bool)
    ensures
        r == email_is_valid(s@),
        s@.len() == 0 ==> !r,
        !s@.contains('@') ==> !r,
{
    validator::validate_email(s)
}

/// An address that passed validation.
pub struct SubscriberEmail {
    value: String,
}

impl View for SubscriberEmail {
    type V = Seq<char>;

    closed spec fn view(&self) -> Seq<char> {
        self.value@
    }
}

pub open spec fn invalid_email_message(s: Seq<char>) -> Seq<char> {
    s + " is not a valid subscriber email."@
}

impl SubscriberEmail {
    #[verifier::type_invariant]
    spec fn inv(&self) -> bool {
        email_is_valid(self.value@)
    }

    /// Accepts `s` exactly when it is a valid address.
    pub fn parse(s: String) -> (r: Result<SubscriberEmail, String>)
        ensures
            match r {
                Ok(e) => e@ == s@ && email_is_valid(s@),
                Err(msg) => !email_is_valid(s@) && msg@ == invalid_email_message(s@),
            },
            s@.len() == 0 || !s@.contains('@') ==> r is Err,
    {
        if validate_email(s.as_str()) {
            Ok(SubscriberEmail { value: s })
        } else {
            Err(s.concat(" is not a valid subscriber email."))
        }
    }

    pub fn as_str(&self) -> (r: &str)
        ensures
            r@ == self@,
            email_is_valid(r@),
    {
        proof {
            use_type_invariant(self);
        }
        self.value.as_str()
    }
}

/// What to do with a dequeued task.
pub enum DeliveryAction {
    /// Send the issue to this address.
    Send(SubscriberEmail),
    /// The stored address can never work: drop the task without sending.
    Discard,
}

/// Sends to valid addresses; an invalid one is a permanent failure.
pub fn delivery_action(job: &DeliveryJob) -> (r: DeliveryAction)
    ensures
        match r {
            DeliveryAction::Send(e) => e@ == job.task.recipient@ && email_is_valid(e@),
            DeliveryAction::Discard => !email_is_valid(job.task.recipient@),
        },
        job.task.recipient@.len() == 0 || !job.task.recipient@.contains('@') ==> r is Discard,
{
    match SubscriberEmail::parse(job.task.recipient.clone()) {
        Ok(e) => DeliveryAction::Send(e),
        Err(_) => DeliveryAction::Discard,
    }
}

/// How a task ended: a discarded task is settled without a send; otherwise
/// the send's success decides.
pub fn delivery_result(action: &DeliveryAction, sent: bool) -> (r: DeliveryResult)
    ensures
        r == match action {
            DeliveryAction::Discard => DeliveryResult::Discarded,
            DeliveryAction::Send(_) => if sent {
                DeliveryResult::Sent
            } else {
                DeliveryResult::Failed
            },
        },
{
    match action {
        DeliveryAction::Discard => DeliveryResult::Discarded,
        DeliveryAction::Send(_) => if sent {
            DeliveryResult::Sent
        } else {
            DeliveryResult::Failed
        },
    }
}

/// What becomes of a task's row once its attempt is over.
#[derive(Debug, Clone, Copy, PartialEq, Eq, Structural)]
pub enum RowDisposition {
    /// Remove the row: the task is done with.
    Delete,
    /// Keep the row and release its lock, for a retry.
    Release,
}

/// A failed send keeps its row for a retry; a sent or discarded task's row
/// is deleted.
pub fn settle(result: DeliveryResult) -> (r: (RowDisposition, ExecutionOutcome))
    ensures
        r == match result {
            DeliveryResult::Failed => (RowDisposition::Release, ExecutionOutcome::TaskFailed),
            _ => (RowDisposition::Delete, ExecutionOutcome::TaskCompleted),
        },
{
    match result {
        DeliveryResult::Failed => (RowDisposition::Release, ExecutionOutcome::TaskFailed),
        _ => (RowDisposition::Delete, ExecutionOutcome::TaskCompleted),
    }
}

/// Pause before the next poll, in milliseconds.
pub const EMPTY_QUEUE_PAUSE_MS: u64 = 10_000;

/// Pause after a failed attempt, in milliseconds.
pub const FAILED_TASK_PAUSE_MS: u64 = 1_000;

/// The worker keeps going while there is work, backs off when the queue is
/// empty, and pauses briefly after a failure.
pub fn pause_after(outcome: ExecutionOutcome) -> (r: u64)
    ensures
        r == match outcome {
            ExecutionOutcome::EmptyQueue => EMPTY_QUEUE_PAUSE_MS,
            ExecutionOutcome::TaskFailed => FAILED_TASK_PAUSE_MS,
            ExecutionOutcome::TaskCompleted => 0,
        },
{
    match outcome {
        ExecutionOutcome::EmptyQueue => EMPTY_QUEUE_PAUSE_MS,
        ExecutionOutcome::TaskFailed => FAILED_TASK_PAUSE_MS,
        ExecutionOutcome::TaskCompleted => 0,
    }
}

} // verus!
