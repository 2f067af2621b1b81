//! Model layer of an event-sourced decision runtime with dynamic consistency
//! boundaries.
//!
//! Business rules are expressed as *decisions*: units of work that fold past
//! events into *projections*, validate against the projected state, and append
//! new events to the log under an optimistic-concurrency condition scoped to
//! exactly the events the decision consulted.

pub mod error;
pub mod event;
pub mod codec;
pub mod course;
pub mod decision;
pub mod projection;
pub mod json;
pub mod record;
pub mod selector;
pub mod stream;
