//! The source-agnostic foundation shared by the gateway core and every feeder
//! sidecar.
//!
//! * [`budget`]: a token bucket that gates one upstream's API calls.
//! * [`cache`]: the per-plugin cache, its quota ledger and its search keys.
//! * [`licence`]: licence URL to SPDX-style identifier.
//! * [`text`]: text as sequences of characters, which the others build on.

pub mod budget;
pub mod cache;
pub mod licence;
pub mod text;
