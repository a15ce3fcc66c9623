//! Error types of the request handlers, their status codes and reports.

use vstd::prelude::*;
use crate::response::{CachedResponse, HeaderPair, ResponseView};
use vstd::utf8::encode_utf8;

verus! {

/// An error's message followed by one line per cause, outermost first.
pub open spec fn chain_text(message: Seq<char>, causes: Seq<Seq<char>>) -> Seq<char>
    decreases causes.len(),
{
    if causes.len() == 0 {
        message + "\n\n"@
    } else {
        chain_text(message, causes.drop_last()) + "Caused by:\n\t"@ + causes.last() + "\n"@
    }
}

/// Renders an error and the chain of its causes.
pub fn error_chain_fmt(message: &str, causes: &Vec<String>) -> (r: String)
    ensures
        r@ == chain_text(message@, causes@.map_values(|c: String| c@)),
{
    let ghost cs = causes@.map_values(|c: String| c@);
    let mut out = String::from_str(message);
    out.append("\n\n");
    let mut i: usize = 0;
    while i < causes.len()
        invariant
            0 <= i <= causes@.len(),
            cs == causes@.map_values(|c: String| c@),
            out@ == chain_text(message@, cs.subrange(0, i as int)),
        decreases causes@.len() - i,
    {
        assert(cs.subrange(0, i + 1).drop_last() =~= cs.subrange(0, i as int));
        out.append("Caused by:\n\t");
        out.append(causes[i].as_str());
        out.append("\n");
        i = i + 1;
    }
    assert(cs.subrange(0, cs.len() as int) =~= cs);
    out
}

/// How a background task ended.
pub enum TaskExit {
    /// It returned normally.
    Completed,
    /// It returned an error, with that error's causes.
    Failed { message: String, causes: Vec<String> },
    /// It could not run to its end (it panicked or was cancelled).
    Aborted { message: String },
}

#[derive(Debug, Clone, Copy, PartialEq, Eq, Structural)]
pub enum LogLevel {
    Info,
    Error,
}

/// The log record for a task's exit.
pub struct ExitReport {
    pub level: LogLevel,
    pub message: String,
    /// The error and its causes, for an exit on error.
    pub cause_chain: Option<String>,
}

/// Describes how the task named `task_name` ended.
pub fn report_exit(task_name: &str, outcome: &TaskExit) -> (r: ExitReport)
    ensures
        match outcome {
            TaskExit::Completed => r.level == LogLevel::Info && r.message@ == task_name@
                + " has exited"@ && r.cause_chain is None,
            TaskExit::Failed { message, causes } => r.level == LogLevel::Error && r.message@
                == task_name@ + " failed"@ && r.cause_chain is Some && r.cause_chain->0@
                == chain_text(message@, causes@.map_values(|c: String| c@)),
            TaskExit::Aborted { message } => r.level == LogLevel::Error && r.message@
                == task_name@ + " task failed to complete"@ && r.cause_chain is Some
                && r.cause_chain->0@ == chain_text(message@, Seq::empty()),
        },
{
    let name = String::from_str(task_name);
    match outcome {
        TaskExit::Completed => ExitReport {
            level: LogLevel::Info,
            message: name.concat(" has exited"),
            cause_chain: None,
        },
        TaskExit::Failed { message, causes } => ExitReport {
            level: LogLevel::Error,
            message: name.concat(" failed"),
            cause_chain: Some(error_chain_fmt(message.as_str(), causes)),
        },
        TaskExit::Aborted { message } => {
            let none: Vec<String> = Vec::new();
            let chain = error_chain_fmt(message.as_str(), &none);
            assert(none@.map_values(|c: String| c@) =~= Seq::<Seq<char>>::empty());
            ExitReport {
                level: LogLevel::Error,
                message: name.concat(" task failed to complete"),
                cause_chain: Some(chain),
            }
        },
    }
}

/// Failures of publishing an issue.
pub enum PublishError {
    /// The caller could not be authenticated.
    AuthError(String),
    /// Anything else; the message describes it.
    UnexpectedError(String),
}

pub const UNAUTHORIZED: u16 = 401;

pub const INTERNAL_SERVER_ERROR: u16 = 500;

pub const BAD_REQUEST: u16 = 400;

/// The reply for an unauthenticated publish request.
pub open spec fn auth_challenge() -> ResponseView {
    ResponseView {
        status: UNAUTHORIZED,
        headers: seq![("www-authenticate"@, encode_utf8("Basic realm=\"publish\""@))],
        body: Seq::empty(),
    }
}

impl PublishError {
    /// The text shown for this error.
    pub fn message(&self) -> (r: String)
        ensures
            match self {
                PublishError::AuthError(_) => r@ == "Authentication failed"@,
                PublishError::UnexpectedError(m) => r@ == m@,
            },
    {
        match self {
            PublishError::AuthError(_) => String::from_str("Authentication failed"),
            PublishError::UnexpectedError(m) => m.clone(),
        }
    }

    /// The reply sent for this error: a challenge for an authentication
    /// failure, a bare server error otherwise.
    pub fn error_response(&self) -> (r: CachedResponse)
        ensures
            match self {
                PublishError::AuthError(_) => r@ == auth_challenge(),
                PublishError::UnexpectedError(_) => r@ == (ResponseView {
                    status: INTERNAL_SERVER_ERROR,
                    headers: Seq::empty(),
                    body: Seq::empty(),
                }),
            },
    {
        match self {
            PublishError::AuthError(_) => {
                let mut headers: Vec<HeaderPair> = Vec::new();
                headers.push(
                    HeaderPair {
                        name: String::from_str("www-authenticate"),
                        value: "Basic realm=\"publish\"".as_bytes_vec(),
                    },
                );
                let r = CachedResponse { status: UNAUTHORIZED, headers, body: Vec::new() };
                assert(r@.headers =~= auth_challenge().headers);
                assert(r@.body =~= Seq::empty());
                r
            },
            PublishError::UnexpectedError(_) => {
                let r = CachedResponse {
                    status: INTERNAL_SERVER_ERROR,
                    headers: Vec::new(),
                    body: Vec::new(),
                };
                assert(r@.headers =~= Seq::empty());
                assert(r@.body =~= Seq::empty());
                r
            },
        }
    }
}

/// Failures of a subscription request.
pub enum SubscribeError {
    /// The submitted details are malformed; the message says how.
    ValidationError(String),
    UnexpectedError(String),
}

impl SubscribeError {
    pub fn status_code(&self) -> (r: u16)
        ensures
            r == match self {
                SubscribeError::ValidationError(_) => BAD_REQUEST,
                SubscribeError::UnexpectedError(_) => INTERNAL_SERVER_ERROR,
            },
    {
        match self {
            SubscribeError::ValidationError(_) => BAD_REQUEST,
            SubscribeError::UnexpectedError(_) => INTERNAL_SERVER_ERROR,
        }
    }

    pub fn message(&self) -> (r: String)
        ensures
            match self {
                SubscribeError::ValidationError(m) => r@ == m@,
                SubscribeError::UnexpectedError(m) => r@ == m@,
            },
    {
        match self {
            SubscribeError::ValidationError(m) => m.clone(),
            SubscribeError::UnexpectedError(m) => m.clone(),
        }
    }
}

/// Failures of confirming a subscription.
pub enum ConfirmSubscriberError {
    UnexpectedError(String),
    /// No subscriber holds the presented token.
    UnknownToken,
}

impl ConfirmSubscriberError {
    pub fn status_code(&self) -> (r: u16)
        ensures
            r == match self {
                ConfirmSubscriberError::UnknownToken => UNAUTHORIZED,
                ConfirmSubscriberError::UnexpectedError(_) => INTERNAL_SERVER_ERROR,
            },
    {
        match self {
            ConfirmSubscriberError::UnknownToken => UNAUTHORIZED,
            ConfirmSubscriberError::UnexpectedError(_) => INTERNAL_SERVER_ERROR,
        }
    }

    pub fn message(&self) -> (r: String)
        ensures
            match self {
                ConfirmSubscriberError::UnknownToken => r@
                    == "There is no subscriber associated with the provided token."@,
                ConfirmSubscriberError::UnexpectedError(m) => r@ == m@,
            },
    {
        match self {
            ConfirmSubscriberError::UnknownToken => String::from_str(
                "There is no subscriber associated with the provided token.",
            ),
            ConfirmSubscriberError::UnexpectedError(m) => m.clone(),
        }
    }
}

} // verus!
