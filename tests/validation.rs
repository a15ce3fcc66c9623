use newsletter_delivery::errors::{
    error_chain_fmt, report_exit, ConfirmSubscriberError, LogLevel, PublishError,
    SubscribeError, TaskExit,
};
use newsletter_delivery::key::{IdempotencyKey, KeyError};
use newsletter_delivery::model::{DeliveryResult, ExecutionOutcome};
use newsletter_delivery::response::{CachedResponse, HeaderPair, ResponseError, StoredResponse};
use newsletter_delivery::subscriptions::{
    confirmation_email, generate_subscription_token, NewSubscriber, SubscriberName,
    SubscriptionFormData,
};
use newsletter_delivery::worker::{pause_after, settle, RowDisposition, SubscriberEmail};

#[test]
fn key_is_accepted() {
    let k = IdempotencyKey::parse("abc123".to_string()).unwrap();
    assert_eq!(k.as_str(), "abc123");
    assert_eq!(k.into_string(), "abc123".to_string());
    assert!(IdempotencyKey::parse("A-b_9".to_string()).is_ok());
}

#[test]
fn key_of_fifty_characters_is_accepted() {
    assert!(IdempotencyKey::parse("a".repeat(50)).is_ok());
}

#[test]
fn key_too_long_is_rejected() {
    assert_eq!(
        IdempotencyKey::parse("a".repeat(51)).err(),
        Some(KeyError::TooLong)
    );
}

#[test]
fn empty_key_is_rejected() {
    assert_eq!(
        IdempotencyKey::parse(String::new()).err(),
        Some(KeyError::Empty)
    );
}

#[test]
fn key_with_disallowed_characters_is_rejected() {
    for bad in ["abc 123", "a/b", "ключ", "x;drop"] {
        assert_eq!(
            IdempotencyKey::parse(bad.to_string()).err(),
            Some(KeyError::DisallowedCharacter)
        );
    }
}

fn sample_response() -> CachedResponse {
    CachedResponse {
        status: 303,
        headers: vec![
            HeaderPair { name: "location".to_string(), value: b"/admin".to_vec() },
            HeaderPair { name: "x-bytes".to_string(), value: vec![0, 255, 7] },
        ],
        body: vec![1, 2, 3],
    }
}

#[test]
fn stored_response_round_trips() {
    let r = sample_response();
    let stored = r.to_stored().unwrap();
    assert_eq!(stored.status_code, 303);
    let back = stored.into_response().unwrap();
    assert_eq!(back.status, 303);
    assert_eq!(back.body, vec![1, 2, 3]);
    assert_eq!(back.headers.len(), 2);
    assert_eq!(back.headers[1].name, "x-bytes");
    assert_eq!(back.headers[1].value, vec![0, 255, 7]);
}

#[test]
fn stored_status_out_of_range_is_rejected() {
    for code in [-1i16, 0, 99, 1000] {
        let stored = StoredResponse { status_code: code, headers: vec![], body: vec![] };
        assert_eq!(stored.into_response().err(), Some(ResponseError::InvalidStatusCode));
    }
    let r = CachedResponse { status: 40000, headers: vec![], body: vec![] };
    assert_eq!(r.to_stored().err(), Some(ResponseError::InvalidStatusCode));
}

#[test]
fn duplicate_keeps_every_byte() {
    let r = sample_response();
    let d = r.duplicate();
    assert_eq!(d.status, r.status);
    assert_eq!(d.body, r.body);
    assert_eq!(d.headers[0].value, r.headers[0].value);
}

#[test]
fn error_chain_lists_causes() {
    let text = error_chain_fmt("top", &vec!["middle".to_string(), "root".to_string()]);
    assert_eq!(text, "top\n\nCaused by:\n\tmiddle\nCaused by:\n\troot\n");
    assert_eq!(error_chain_fmt("alone", &vec![]), "alone\n\n");
}

#[test]
fn task_exit_reports() {
    let done = report_exit("API", &TaskExit::Completed);
    assert_eq!(done.level, LogLevel::Info);
    assert_eq!(done.message, "API has exited");
    assert!(done.cause_chain.is_none());

    let failed = report_exit(
        "Background worker",
        &TaskExit::Failed { message: "boom".to_string(), causes: vec!["db down".to_string()] },
    );
    assert_eq!(failed.level, LogLevel::Error);
    assert_eq!(failed.message, "Background worker failed");
    assert_eq!(failed.cause_chain.unwrap(), "boom\n\nCaused by:\n\tdb down\n");

    let aborted = report_exit("API", &TaskExit::Aborted { message: "panicked".to_string() });
    assert_eq!(aborted.message, "API task failed to complete");
    assert_eq!(aborted.cause_chain.unwrap(), "panicked\n\n");
}

#[test]
fn publish_error_responses() {
    let auth = PublishError::AuthError("bad password".to_string());
    let r = auth.error_response();
    assert_eq!(r.status, 401);
    assert_eq!(r.headers[0].name, "www-authenticate");
    assert_eq!(r.headers[0].value, b"Basic realm=\"publish\"".to_vec());
    assert_eq!(auth.message(), "Authentication failed");
    let other = PublishError::UnexpectedError("db".to_string());
    assert_eq!(other.error_response().status, 500);
    assert!(other.error_response().headers.is_empty());
    assert_eq!(other.message(), "db");
}

#[test]
fn handler_error_status_codes() {
    assert_eq!(SubscribeError::ValidationError("x".to_string()).status_code(), 400);
    assert_eq!(SubscribeError::UnexpectedError("x".to_string()).status_code(), 500);
    assert_eq!(SubscribeError::ValidationError("bad".to_string()).message(), "bad");
    assert_eq!(ConfirmSubscriberError::UnknownToken.status_code(), 401);
    assert_eq!(
        ConfirmSubscriberError::UnknownToken.message(),
        "There is no subscriber associated with the provided token."
    );
    assert_eq!(ConfirmSubscriberError::UnexpectedError("e".to_string()).status_code(), 500);
}

#[test]
fn email_validation() {
    assert_eq!(
        SubscriberEmail::parse("ursula_le_guin@gmail.com".to_string()).unwrap().as_str(),
        "ursula_le_guin@gmail.com"
    );
    assert_eq!(
        SubscriberEmail::parse("invalid-email".to_string()).err(),
        Some("invalid-email is not a valid subscriber email.".to_string())
    );
    assert!(SubscriberEmail::parse(String::new()).is_err());
    assert!(SubscriberEmail::parse("@domain.com".to_string()).is_err());
}

#[test]
fn name_validation() {
    assert_eq!(SubscriberName::parse("le guin".to_string()).unwrap().as_str(), "le guin");
    assert!(SubscriberName::parse("a".repeat(256)).is_ok());
    assert!(SubscriberName::parse("a".repeat(257)).is_err());
    assert_eq!(
        SubscriberName::parse(" \t ".to_string()).err(),
        Some(" \t  is not a valid subscriber name.".to_string())
    );
    assert!(SubscriberName::parse(String::new()).is_err());
    for bad in ["a/b", "(x)", "\"q\"", "<b>", "a\\b", "{c}"] {
        assert!(SubscriberName::parse(bad.to_string()).is_err());
    }
}

#[test]
fn new_subscriber_from_form() {
    let ok = NewSubscriber::try_from(SubscriptionFormData {
        email: "ursula_le_guin@gmail.com".to_string(),
        name: "le guin".to_string(),
    })
    .unwrap();
    assert_eq!(ok.name.as_str(), "le guin");
    assert_eq!(ok.email.as_str(), "ursula_le_guin@gmail.com");
    let cases = [
        ("", "test@email.com", " is not a valid subscriber name."),
        ("test", "", " is not a valid subscriber email."),
        ("test", "invalid-email", "invalid-email is not a valid subscriber email."),
    ];
    for (name, email, msg) in cases {
        let err = NewSubscriber::try_from(SubscriptionFormData {
            email: email.to_string(),
            name: name.to_string(),
        })
        .err()
        .unwrap();
        assert_eq!(err, msg);
    }
}

#[test]
fn subscription_token_shape() {
    let a = generate_subscription_token();
    assert_eq!(a.chars().count(), 25);
    assert!(a.chars().all(|c| c.is_ascii_alphanumeric()));
    let b = generate_subscription_token();
    assert_ne!(a, b);
}

#[test]
fn confirmation_email_links_to_token() {
    let e = confirmation_email("http://127.0.0.1", "tok");
    assert_eq!(e.subject, "Welcome!");
    assert_eq!(
        e.text_body,
        "Welcome to our newsletter!\nVisit http://127.0.0.1/subscriptions/confirm?subscription_token=tok to confirm your subscription."
    );
    assert_eq!(
        e.html_body,
        "Welcome to our newsletter!<br />Click <a href=\"http://127.0.0.1/subscriptions/confirm?subscription_token=tok\">here</a> to confirm your subscription."
    );
}

#[test]
fn worker_pauses() {
    assert_eq!(pause_after(ExecutionOutcome::EmptyQueue), 10_000);
    assert_eq!(pause_after(ExecutionOutcome::TaskFailed), 1_000);
    assert_eq!(pause_after(ExecutionOutcome::TaskCompleted), 0);
}

#[test]
fn settling_a_task() {
    assert_eq!(
        settle(DeliveryResult::Failed),
        (RowDisposition::Release, ExecutionOutcome::TaskFailed)
    );
    assert_eq!(
        settle(DeliveryResult::Sent),
        (RowDisposition::Delete, ExecutionOutcome::TaskCompleted)
    );
    assert_eq!(
        settle(DeliveryResult::Discarded),
        (RowDisposition::Delete, ExecutionOutcome::TaskCompleted)
    );
}

#[test]
fn unicode_white_space_counts_as_blank() {
    assert!(SubscriberName::parse("\u{3000}\u{a0}".to_string()).is_err());
    assert!(SubscriberName::parse("\u{200b}".to_string()).is_ok());
}
