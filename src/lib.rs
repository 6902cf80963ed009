//! A newsletter backend's core: idempotent request processing over a
//! transactional outbox, and the delivery worker that drains it.
//!
//! `key` validates idempotency keys; `store` holds processing records, issues
//! and the delivery queue, with the coordinator that starts, saves and rolls
//! back requests; `worker` gives the delivery policy and the queue's claim and
//! resolve steps; `publish` composes them into one publish request; `laws`
//! states and proves what holds across calls. `auth` reads and checks
//! credentials, `configuration` names the runtime environment.
pub mod auth;
pub mod configuration;
pub mod key;
pub mod laws;
pub mod publish;
pub mod response;
pub mod store;
pub mod worker;
