//! Client-side core of a control-socket protocol for a wireless
//! access-point daemon: the textual event grammar, the hardware-address
//! syntax, the reply/notification classification of inbound payloads,
//! and the decision logic of the event loop.
//!
//! All socket I/O, timers and signal plumbing live outside this crate;
//! the library is a collection of pure, verified functions and a
//! protocol state machine that those drivers feed with plain values.

pub mod client;
pub mod event_loop;
pub mod events;
pub mod mac;
