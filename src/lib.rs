//! A verified stream multiplexer core: the wire codec, per-stream state,
//! the stream registry, the session's frame dispatch, the typed-stream tag
//! and the heartbeat decisions.

pub mod error;
pub mod frame;
pub mod stream;
pub mod manager;
pub mod session;
pub mod typed;
pub mod heartbeat;
pub mod config;
pub mod scheduler;
