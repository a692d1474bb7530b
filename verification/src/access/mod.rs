//! The access log: what a paired device read or wrote, and what this device
//! read or wrote on it.
//!
//! One file for each UTC day, which is only ever appended to. It starts with
//! a version byte; after that come entries, each behind a four byte length.
//! Reading stops at the first entry that is not whole: on a file that is only
//! appended to, that is a write that never finished.

pub mod codec;
pub mod log;
pub mod rollup;
