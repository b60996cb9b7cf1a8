//! Cooperative tasks and the interrupt-fed queues that they wait on.
pub mod event_queue;
pub mod executor;
pub mod keyboard;
pub mod mouse;
