//! A verified data-feed (oracle) engine.
//!
//! Whitelisted provider accounts submit numeric values for registered data
//! keys; the engine keeps a bounded circular history per (key, provider),
//! reduces all histories of a key to one consensus value, and exposes that
//! value through a read-only accessor with a configured default.  A
//! companion offchain scheduler decides, per block, which keys are due for
//! an external fetch; the fetch itself is I/O and lives outside the engine.

pub mod types;
pub mod ring;
pub mod feed;
pub mod aggregate;
pub mod accessor;
pub mod offchain;
pub mod runtime;
pub mod laws;
