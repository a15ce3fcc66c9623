//! Decisions of the idempotency gateway over a store that answers with row
//! counts and rows: what an insert-if-absent result means, and what a
//! duplicate submission gets back.

use vstd::prelude::*;
use crate::response::{restored_form, CachedResponse, ResponseError, StoredResponse};

verus! {

/// Where a submission goes after its insert-if-absent of the claim row.
#[derive(Debug, Clone, Copy, PartialEq, Eq, Structural)]
pub enum ClaimStep {
    /// The row was inserted: run the command in the same transaction.
    StartProcessing,
    /// The row existed: look up the saved response.
    FetchSavedResponse,
}

/// Why a duplicate submission gets no replay.
#[derive(Debug, Clone, Copy, PartialEq, Eq, Structural)]
pub enum ReplayError {
    /// The owner has not saved a response yet; retry later.
    ConflictInProgress,
    /// The saved row does not describe a reply.
    CorruptResponse,
}

/// Only the submission whose insert took effect owns the key.
pub fn claim_step_after_insert(rows_inserted: u64) -> (r: ClaimStep)
    ensures
        r == (if rows_inserted > 0 {
            ClaimStep::StartProcessing
        } else {
            ClaimStep::FetchSavedResponse
        }),
{
    if rows_inserted > 0 {
        ClaimStep::StartProcessing
    } else {
        ClaimStep::FetchSavedResponse
    }
}

/// The reply for a duplicate submission, given the saved row if any.
pub fn replay_saved_response(saved: Option<StoredResponse>) -> (r: Result<CachedResponse, ReplayError>)
    ensures
        match saved {
            None => r == Err::<CachedResponse, ReplayError>(ReplayError::ConflictInProgress),
            Some(st) => match restored_form(st@) {
                Some(v) => r is Ok && r->Ok_0@ == v,
                None => r == Err::<CachedResponse, ReplayError>(ReplayError::CorruptResponse),
            },
        },
{
    match saved {
        None => Err(ReplayError::ConflictInProgress),
        Some(st) => match st.into_response() {
            Ok(resp) => Ok(resp),
            Err(ResponseError::InvalidStatusCode) => Err(ReplayError::CorruptResponse),
        },
    }
}

/// The notice shown once an issue is accepted, fresh or replayed.
pub fn success_message() -> (r: String)
    ensures
        r@ == "The newsletter issue has been published!"@,
{
    String::from_str("The newsletter issue has been published!")
}

} // verus!
