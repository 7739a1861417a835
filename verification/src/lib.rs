//! A debounced directory-change notifier.
//!
//! Given a root directory, a watch session observes raw file-system change
//! events, coalesces bursts of them over a fixed debounce window, and relays
//! one payload-free notification per coalesced batch to a UI sink.
//!
//! The verified core is split in three parts:
//! - [`probe`]: the synchronous directory check offered to the UI layer;
//! - [`debounce`]: the timing model of trailing-edge debouncing, with the
//!   coalescing laws;
//! - [`session`]: the state machine that one background watch session runs,
//!   with the delivery laws.
//!
//! The platform watcher, the background thread and the UI sink live outside
//! the library; they hand events in and carry actions out as plain values.

pub mod debounce;
pub mod probe;
pub mod session;

pub use probe::PathKind;
pub use probe::is_dir;
