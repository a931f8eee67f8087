//! Per-client admission control: a keyed, continuously refilling token-bucket
//! rate limiter.
//!
//! Every inbound request is reduced to a client key and a timestamp; the
//! admission gate then answers with a decision: admit the request, or deny it
//! together with the minimum wait until a retry can succeed. State is kept per
//! client in a keyed store whose memory stays bounded through idle-entry
//! eviction and a hard ceiling on the number of distinct keys.
//!
//! All times are `u64` clock ticks from a monotonic clock chosen by the
//! caller; the library itself never reads a clock.

pub mod cell;
pub mod gate;
pub mod identity;
pub mod laws;
pub mod paging;
pub mod policy;
pub mod store;
