//! One file for each group of verbs.
//!
//! A verb is a chain of steps. Each step says what is asked of the other
//! device, of the sidecar store or of this device's disk; the value that
//! comes back is handed to the step, which gives the next one. The last step
//! is an answer.

pub mod browse;
pub mod locks;
pub mod options;
pub mod patch;
pub mod read;
pub mod write;
