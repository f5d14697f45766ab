//! Storage core of an in-memory key/value service: string keys, byte-string
//! values with optional deadlines, an index of pending expirations, a sweep
//! that reclaims expired entries, and a topic registry for publish/subscribe.
//!
//! Time is a `u64` count of ticks on a monotonic clock chosen by the caller.

pub mod channel;
pub mod index;
pub mod laws;
pub mod model;
pub mod store;
pub mod sweeper;

pub use index::ExpirationIndex;
pub use store::{deadline_after, Entry, Store, CHANNEL_CAPACITY};
pub use sweeper::{sweep, SweepPhase};
