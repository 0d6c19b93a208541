//! A bounded, least-recently-used hostname cache with hit/miss accounting,
//! meant to sit in front of a slow, fallible hostname resolver.
//!
//! The cache itself, its eviction policy, its counters and the policy that
//! decides what a finished miss does next are all verified. The blocking
//! resolver call, the lock and the worker pool that runs background
//! insertions live outside the library and drive it with plain values.

pub mod addr;
pub mod cache;
pub mod dns;
pub mod laws;
