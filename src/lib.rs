//! Long-poll rendezvous broker: a consumer waits on a path until a producer
//! delivers a message to the same path, or until a bounded wait runs out.

pub mod handler;
pub mod request;
pub mod state_tracker;
