use newsletter_delivery::gateway::{
    claim_step_after_insert, replay_saved_response, success_message, ClaimStep, ReplayError,
};
use newsletter_delivery::response::{HeaderPair, StoredResponse};

#[test]
fn only_an_effective_insert_owns_the_key() {
    assert_eq!(claim_step_after_insert(1), ClaimStep::StartProcessing);
    assert_eq!(claim_step_after_insert(0), ClaimStep::FetchSavedResponse);
}

#[test]
fn duplicate_without_saved_response_is_in_progress() {
    assert_eq!(replay_saved_response(None).err(), Some(ReplayError::ConflictInProgress));
    let bad = StoredResponse { status_code: 42, headers: vec![], body: vec![] };
    assert_eq!(replay_saved_response(Some(bad)).err(), Some(ReplayError::CorruptResponse));
    let good = StoredResponse {
        status_code: 303,
        headers: vec![HeaderPair { name: "location".to_string(), value: b"/a".to_vec() }],
        body: vec![9],
    };
    let r = replay_saved_response(Some(good)).unwrap();
    assert_eq!(r.status, 303);
    assert_eq!(r.headers[0].value, b"/a".to_vec());
    assert_eq!(r.body, vec![9]);
    assert_eq!(success_message(), "The newsletter issue has been published!");
}
