use newsletter_delivery::key::IdempotencyKey;
use newsletter_delivery::model::{DeliveryResult, ExecutionOutcome, StoreError};
use newsletter_delivery::response::{see_other, CachedResponse};
use newsletter_delivery::store::{DeliveryJob, GatewayError, NextAction, OwnerTransaction, Store};
use newsletter_delivery::worker::{delivery_action, delivery_result, DeliveryAction};

const U1: u128 = 1;

fn store_with(subscribers: &[(&str, bool)]) -> Store {
    let mut store = Store::new();
    for (email, confirmed) in subscribers {
        store.add_subscriber(email.to_string(), *confirmed).unwrap();
    }
    store
}

fn key(s: &str) -> IdempotencyKey {
    IdempotencyKey::parse(s.to_string()).unwrap()
}

fn claim(store: &mut Store, k: &str) -> OwnerTransaction {
    match store.try_processing(&key(k), U1, 100) {
        Ok(NextAction::StartProcessing(t)) => t,
        _ => panic!("expected to own the key"),
    }
}

fn publish_and_commit(store: &mut Store, k: &str, title: &str) -> CachedResponse {
    let mut txn = claim(store, k);
    store
        .publish(
            &mut txn,
            title.to_string(),
            "<p>Body</p>".to_string(),
            "Body".to_string(),
            100,
        )
        .unwrap();
    store
        .save_response(txn, see_other("/admin/newsletters"))
        .unwrap()
}

/// One worker attempt; `send` decides whether a send succeeds and records it.
fn attempt(store: &mut Store, send: &mut dyn FnMut(&DeliveryJob) -> bool) -> ExecutionOutcome {
    match store.dequeue_task() {
        None => ExecutionOutcome::EmptyQueue,
        Some(job) => {
            let action = delivery_action(&job);
            let sent = match &action {
                DeliveryAction::Send(_) => send(&job),
                DeliveryAction::Discard => false,
            };
            let result = delivery_result(&action, sent);
            store.complete_task(&job.task, result).unwrap()
        }
    }
}

fn run_until_empty(store: &mut Store, send: &mut dyn FnMut(&DeliveryJob) -> bool) {
    while attempt(store, send) != ExecutionOutcome::EmptyQueue {}
}

fn same_response(a: &CachedResponse, b: &CachedResponse) -> bool {
    a.status == b.status
        && a.body == b.body
        && a.headers.len() == b.headers.len()
        && a
            .headers
            .iter()
            .zip(b.headers.iter())
            .all(|(x, y)| x.name == y.name && x.value == y.value)
}

#[test]
fn publish_then_replay_sends_each_subscriber_once() {
    let mut store = store_with(&[("a@example.com", true), ("b@example.com", true)]);
    let first = publish_and_commit(&mut store, "abc123", "Hello");
    assert_eq!(store.issue_count(), 1);
    assert_eq!(store.pending_task_count(), 2);

    let mut sent: Vec<String> = Vec::new();
    run_until_empty(&mut store, &mut |job| {
        sent.push(job.task.recipient.clone());
        assert_eq!(job.title, "Hello");
        true
    });
    sent.sort();
    assert_eq!(sent, vec!["a@example.com".to_string(), "b@example.com".to_string()]);
    assert_eq!(store.pending_task_count(), 0);

    match store.try_processing(&key("abc123"), U1, 200) {
        Ok(NextAction::ReturnSavedResponse(r)) => assert!(same_response(&r, &first)),
        _ => panic!("expected the saved response"),
    }
    let mut more = 0;
    run_until_empty(&mut store, &mut |_| {
        more += 1;
        true
    });
    assert_eq!(more, 0);
    assert_eq!(store.issue_count(), 1);
}

#[test]
fn repeated_submissions_have_one_owner() {
    let mut store = store_with(&[("a@example.com", true)]);
    let mut owners = 0;
    let mut conflicts = 0;
    for _ in 0..5 {
        match store.try_processing(&key("same-key"), U1, 1) {
            Ok(NextAction::StartProcessing(_)) => owners += 1,
            Err(GatewayError::ConflictInProgress) => conflicts += 1,
            Ok(NextAction::ReturnSavedResponse(_)) => panic!("nothing was saved yet"),
        }
    }
    assert_eq!(owners, 1);
    assert_eq!(conflicts, 4);
    assert_eq!(store.claim_count(), 1);
}

#[test]
fn replays_are_byte_identical_every_time() {
    let mut store = store_with(&[]);
    let first = publish_and_commit(&mut store, "k1", "T");
    assert_eq!(first.status, 303);
    assert_eq!(first.headers[0].name, "location");
    assert_eq!(first.headers[0].value, b"/admin/newsletters".to_vec());
    for now in 0..3 {
        match store.try_processing(&key("k1"), U1, now) {
            Ok(NextAction::ReturnSavedResponse(r)) => assert!(same_response(&r, &first)),
            _ => panic!("expected a replay"),
        }
    }
}

#[test]
fn same_key_of_another_actor_is_a_new_claim() {
    let mut store = store_with(&[]);
    publish_and_commit(&mut store, "k1", "T");
    assert!(matches!(
        store.try_processing(&key("k1"), 2, 5),
        Ok(NextAction::StartProcessing(_))
    ));
}

#[test]
fn failed_recipient_is_retried_and_delivered_recipient_is_not() {
    let mut store = store_with(&[("a@example.com", true), ("b@example.com", true)]);
    publish_and_commit(&mut store, "k", "Issue");
    // Two workers take one task each; the send to A fails, the send to B succeeds.
    let job_a = store.dequeue_task().unwrap();
    let job_b = store.dequeue_task().unwrap();
    assert_eq!(job_a.task.recipient, "a@example.com");
    assert_eq!(job_b.task.recipient, "b@example.com");
    assert_eq!(
        store.complete_task(&job_b.task, DeliveryResult::Sent),
        Ok(ExecutionOutcome::TaskCompleted)
    );
    assert_eq!(
        store.complete_task(&job_a.task, DeliveryResult::Failed),
        Ok(ExecutionOutcome::TaskFailed)
    );
    assert_eq!(store.pending_task_count(), 1);
    // Running the worker loop again delivers to A once, and never to B.
    let mut deliveries: Vec<String> = Vec::new();
    run_until_empty(&mut store, &mut |job| {
        deliveries.push(job.task.recipient.clone());
        true
    });
    assert_eq!(deliveries, vec!["a@example.com".to_string()]);
    assert_eq!(store.pending_task_count(), 0);
}

#[test]
fn no_confirmed_subscribers_publishes_without_tasks() {
    let mut store = store_with(&[("pending@example.com", false)]);
    let mut txn = claim(&mut store, "k");
    let id = store
        .publish(&mut txn, "T".to_string(), "h".to_string(), "t".to_string(), 9)
        .unwrap();
    assert_eq!((id >> 76) & 0xf, 4);
    store.save_response(txn, see_other("/x")).unwrap();
    assert_eq!(store.issue_count(), 1);
    assert_eq!(store.pending_task_count(), 0);
    assert_eq!(store.dequeue_task().map(|j| j.task.issue_id), None);
}

#[test]
fn unconfirmed_subscribers_get_no_task() {
    let mut store = store_with(&[("a@example.com", true), ("p@example.com", false)]);
    publish_and_commit(&mut store, "k", "T");
    assert_eq!(store.pending_task_count(), 1);
    let job = store.dequeue_task().unwrap();
    assert_eq!(job.task.recipient, "a@example.com");
}

#[test]
fn locked_tasks_are_skipped_by_other_workers() {
    let mut store = store_with(&[("a@example.com", true), ("b@example.com", true)]);
    publish_and_commit(&mut store, "k", "T");
    let first = store.dequeue_task().unwrap();
    let second = store.dequeue_task().unwrap();
    assert_ne!(first.task.recipient, second.task.recipient);
    assert!(store.dequeue_task().is_none());
    assert_eq!(
        store.complete_task(&first.task, DeliveryResult::Failed),
        Ok(ExecutionOutcome::TaskFailed)
    );
    let again = store.dequeue_task().unwrap();
    assert_eq!(again.task.recipient, first.task.recipient);
}

#[test]
fn invalid_address_is_dropped_without_sending() {
    let mut store = store_with(&[("not-an-address", true)]);
    publish_and_commit(&mut store, "k", "T");
    let mut sends = 0;
    assert_eq!(
        attempt(&mut store, &mut |_| {
            sends += 1;
            true
        }),
        ExecutionOutcome::TaskCompleted
    );
    assert_eq!(sends, 0);
    assert_eq!(store.pending_task_count(), 0);
}

#[test]
fn rollback_releases_the_key() {
    let mut store = store_with(&[("a@example.com", true)]);
    let mut txn = claim(&mut store, "k");
    store
        .publish(&mut txn, "T".to_string(), "h".to_string(), "t".to_string(), 1)
        .unwrap();
    store.rollback(txn);
    assert_eq!(store.claim_count(), 0);
    assert_eq!(store.issue_count(), 0);
    assert_eq!(store.pending_task_count(), 0);
    assert!(matches!(
        store.try_processing(&key("k"), U1, 2),
        Ok(NextAction::StartProcessing(_))
    ));
}

#[test]
fn duplicate_issue_id_rolls_back() {
    let mut store = store_with(&[]);
    let mut txn = claim(&mut store, "k1");
    store
        .publish_issue(&mut txn, "T".into(), "h".into(), "t".into(), 7, 1)
        .unwrap();
    store.save_response(txn, see_other("/x")).unwrap();
    let mut txn = claim(&mut store, "k2");
    assert_eq!(
        store.publish_issue(&mut txn, "T".into(), "h".into(), "t".into(), 7, 1),
        Err(StoreError::DuplicateIssueId)
    );
    store
        .publish_issue(&mut txn, "T".into(), "h".into(), "t".into(), 8, 1)
        .unwrap();
    assert_eq!(
        store.publish_issue(&mut txn, "T".into(), "h".into(), "t".into(), 9, 1),
        Err(StoreError::IssueAlreadyPublished)
    );
}

#[test]
fn duplicate_subscriber_is_refused() {
    let mut store = store_with(&[("a@example.com", true)]);
    assert_eq!(
        store.add_subscriber("a@example.com".to_string(), false),
        Err(StoreError::DuplicateEmail)
    );
}

#[test]
fn completing_an_unknown_task_fails() {
    let mut store = store_with(&[]);
    let task = newsletter_delivery::store::DeliveryTask {
        issue_id: 1,
        recipient: "x@example.com".to_string(),
    };
    assert_eq!(
        store.complete_task(&task, DeliveryResult::Sent),
        Err(StoreError::TaskMissing)
    );
    assert!(matches!(
        delivery_result(&DeliveryAction::Discard, true),
        DeliveryResult::Discarded
    ));
}

#[test]
fn confirming_a_subscriber_makes_them_a_recipient() {
    let mut store = store_with(&[("p@example.com", false)]);
    assert_eq!(
        store.confirm_subscriber(&"nobody@example.com".to_string()),
        Err(StoreError::UnknownSubscriber)
    );
    store.confirm_subscriber(&"p@example.com".to_string()).unwrap();
    publish_and_commit(&mut store, "k", "T");
    assert_eq!(store.pending_task_count(), 1);
}
