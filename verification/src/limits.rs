//! The bounds both ends of a connection agree on.

use vstd::prelude::*;

verus! {

/// The most bytes one path may take.
pub const MAX_PATH_LEN: usize = 1024;

/// The most bytes one read may ask for: one mebibyte.
pub const MAX_READ_LEN: u32 = 1_048_576;

/// The most bytes one write may carry: one mebibyte.
pub const MAX_WRITE_LEN: u32 = 1_048_576;

/// The most reads one chunk, or one head of a file, may take.
pub const MAX_READS_PER_CHUNK: u32 = 64;

/// The most entries one folder's listing may return over all of its pages.
pub const MAX_LIST_ENTRIES: usize = 100_000;

/// The most pages one folder's listing may take.
pub const MAX_LIST_PAGES: usize = 10_000;

/// The most connections one paired device may be served on at once.
pub const MAX_SERVING_PER_PEER: usize = 8;

/// The most inbound connections this device holds at once.
pub const MAX_INBOUND_CONNECTIONS: u32 = 64;

/// The most addresses one pairing offer carries, and one dial tries.
pub const MAX_DIAL_ADDRESSES: usize = 8;

/// How long a transfer that failed to reach its device waits before its
/// second attempt, in milliseconds.
pub const BACKOFF_MIN_MS: u64 = 1_000;

/// The chunk size of a transfer, where nothing else is set: one mebibyte.
pub const CHUNK_SIZE: u32 = 1_048_576;

/// The smallest chunk, in bytes.
pub const MIN_CHUNK_SIZE: u32 = 1_024;

/// The largest chunk, in bytes: sixteen mebibytes.
pub const MAX_CHUNK_SIZE: u32 = 16_777_216;

/// How many transfers are worked on at once. One beyond waits its turn.
pub const MAX_TRANSFER_WORKERS: u64 = 4;

/// How many addresses discovery keeps to try later.
pub const MAX_DISCOVERED: usize = 16;

/// How long one paired device is left alone after a probe started, in
/// milliseconds, before another discovery may probe it again.
pub const PROBE_MIN_INTERVAL_MS: u64 = 5_000;

/// How many candidates the pairing screen holds at once.
pub const MAX_CANDIDATES: usize = 32;

} // verus!
