//! Idempotent publishing of newsletter issues and a crash-tolerant delivery
//! queue.
//!
//! - `key`: validated idempotency keys.
//! - `response`: the cached reply that a duplicate submission gets back.
//! - `model`: the store's state as data and the effect of each operation.
//! - `store`: an executable store with those operations: claiming a key,
//!   publishing an issue, committing or rolling back, dequeuing and settling
//!   delivery tasks.
//! - `gateway`, `worker`: the decisions that a driver over a SQL database
//!   makes at each step of a claim and of a delivery attempt.
//! - `laws`: properties that span several operations.
//! - `auth`, `subscriptions`, `errors`: credentials, subscriber details and
//!   the handlers' error types.

pub mod auth;
pub mod errors;
pub mod gateway;
pub mod key;
pub mod laws;
pub mod model;
pub mod response;
pub mod store;
pub mod subscriptions;
pub mod worker;
