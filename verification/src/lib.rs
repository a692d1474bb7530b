//! The runtime both Ferry apps link.

pub mod access;
pub mod auto_copy;
pub mod batch;
pub mod calendar;
pub mod core_errors;
pub mod dates;
pub mod dav;
pub mod engine;
pub mod errors;
pub mod folder;
pub mod guard;
pub mod held;
pub mod limits;
pub mod manifest;
pub mod networks;
pub mod notify;
pub mod path;
pub mod peers;
pub mod pool;
pub mod privatefile;
pub mod random;
pub mod seqs;
pub mod text;
pub mod textmap;
pub mod transfers;
pub mod types;
pub mod wire;
