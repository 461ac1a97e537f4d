//! Verified core of a ZeroMQ socket library.

pub mod buffer;
pub mod codec;
pub mod endpoint;
pub mod error;
pub mod fair_queue;
pub mod message;
pub mod poll;
pub mod publisher;
pub mod runtime;
