//! What a file's content is known by: its length, and a hash for each of its
//! chunks.

use crate::core_errors::ChunkSizeError;
use crate::limits::{MAX_CHUNK_SIZE, MIN_CHUNK_SIZE};
use crate::text::same_bytes;
use vstd::prelude::*;

verus! {

/// A file's length, its chunk size, one hash for each chunk, and the root of
/// those hashes.
#[derive(Debug)]
pub struct Manifest {
    pub length: u64,
    pub chunk_size: u32,
    pub chunks: Vec<[u8; 32]>,
    pub root: [u8; 32],
}

/// What is known of a file's content.
#[verifier::ext_equal]
pub struct ManifestView {
    pub length: u64,
    pub chunk_size: u32,
    pub chunks: Seq<Seq<u8>>,
    pub root: Seq<u8>,
}

impl View for Manifest {
    type V = ManifestView;

    open spec fn view(&self) -> ManifestView {
        ManifestView {
            length: self.length,
            chunk_size: self.chunk_size,
            chunks: self.chunks@.map_values(|c: [u8; 32]| c@),
            root: self.root@,
        }
    }
}

/// Where the chunk `index` begins, and how long it is; nothing past the end
/// of the file.
pub open spec fn range_of_chunk(m: ManifestView, index: int) -> Option<(u64, u32)> {
    let offset = index * m.chunk_size;
    if 0 <= index < m.chunks.len() && offset < m.length {
        Some(
            (
                offset as u64,
                if m.length - offset < m.chunk_size {
                    (m.length - offset) as u32
                } else {
                    m.chunk_size
                },
            ),
        )
    } else {
        None
    }
}

impl Manifest {
    /// How many chunks there are.
    pub fn chunk_count(&self) -> (count: usize)
        ensures
            count == self@.chunks.len(),
    {
        self.chunks.len()
    }

    /// Where the chunk `index` begins, and how long it is.
    pub fn chunk_range(&self, index: usize) -> (range: Option<(u64, u32)>)
        ensures
            range == range_of_chunk(self@, index as int),
    {
        if index >= self.chunks.len() {
            return None;
        }
        match (index as u64).checked_mul(self.chunk_size as u64) {
            None => None,
            Some(offset) => {
                if offset >= self.length {
                    return None;
                }
                let left: u64 = self.length - offset;
                if left < self.chunk_size as u64 {
                    Some((offset, left as u32))
                } else {
                    Some((offset, self.chunk_size))
                }
            },
        }
    }

    /// Whether the chunk `index` is the same here and there.
    pub fn same_chunk(&self, other: &Manifest, index: usize) -> (same: bool)
        ensures
            same == (index < self@.chunks.len() && index < other@.chunks.len()
                && self@.chunks[index as int] == other@.chunks[index as int]),
    {
        if index >= self.chunks.len() || index >= other.chunks.len() {
            return false;
        }
        same_bytes(self.chunks[index].as_slice(), other.chunks[index].as_slice())
    }

    /// Whether two files have the same content.
    pub fn same(&self, other: &Manifest) -> (same: bool)
        ensures
            same == (self@ == other@),
    {
        if self.length != other.length || self.chunk_size != other.chunk_size {
            return false;
        }
        if self.chunks.len() != other.chunks.len() {
            assert(self@.chunks.len() != other@.chunks.len());
            return false;
        }
        if !same_bytes(self.root.as_slice(), other.root.as_slice()) {
            return false;
        }
        let mut i: usize = 0;
        while i < self.chunks.len()
            invariant
                i <= self.chunks.len(),
                self.chunks.len() == other.chunks.len(),
                forall|j: int| 0 <= j < i ==> self@.chunks[j] == other@.chunks[j],
            decreases self.chunks.len() - i,
        {
            if !self.same_chunk(other, i) {
                return false;
            }
            i += 1;
        }
        assert(self@ =~= other@);
        true
    }
}

/// A power of two.
pub open spec fn power_of_two(n: nat) -> bool
    decreases n,
{
    n == 1 || (n > 1 && n % 2 == 0 && power_of_two(n / 2))
}

/// What is wrong with a chunk size.
pub open spec fn chunk_size_problem(bytes: u32) -> Option<ChunkSizeError> {
    if bytes < MIN_CHUNK_SIZE {
        Some(ChunkSizeError::TooSmall)
    } else if bytes > MAX_CHUNK_SIZE {
        Some(ChunkSizeError::TooLarge)
    } else if !power_of_two(bytes as nat) {
        Some(ChunkSizeError::NotPowerOfTwo)
    } else {
        None
    }
}

fn is_power(bytes: u32) -> (power: bool)
    ensures
        power == power_of_two(bytes as nat),
{
    let mut n: u32 = bytes;
    while n > 1 && n % 2 == 0
        invariant
            power_of_two(n as nat) == power_of_two(bytes as nat),
        decreases n,
    {
        n = n / 2;
    }
    n == 1
}

/// Whether a transfer may use chunks of this size.
pub fn check_chunk_size(bytes: u32) -> (checked: Result<(), ChunkSizeError>)
    ensures
        match checked {
            Ok(_) => chunk_size_problem(bytes) is None,
            Err(problem) => chunk_size_problem(bytes) == Some(problem),
        },
{
    if bytes < MIN_CHUNK_SIZE {
        Err(ChunkSizeError::TooSmall)
    } else if bytes > MAX_CHUNK_SIZE {
        Err(ChunkSizeError::TooLarge)
    } else if !is_power(bytes) {
        Err(ChunkSizeError::NotPowerOfTwo)
    } else {
        Ok(())
    }
}

/// The chunks lie one behind the other without a gap, none reaches past the
/// end of the file, and each but the last is a whole chunk.
pub proof fn lemma_chunks_cover_the_file(
    m: &Manifest,
    index: usize,
    next: usize,
    here: Option<(u64, u32)>,
    after: Option<(u64, u32)>,
)
    requires
        m@.chunk_size > 0,
        next == index + 1,
        call_ensures(Manifest::chunk_range, (m, index), here),
        call_ensures(Manifest::chunk_range, (m, next), after),
    ensures
        index == 0 && m@.chunks.len() > 0 && m@.length > 0 ==> here is Some && (here->0).0 == 0,
        here matches Some((offset, len)) ==> 0 < len <= m@.chunk_size && offset + len <= m@.length,
        after is Some ==> here is Some && (here->0).0 + (here->0).1 == (after->0).0 && (here->0).1
            == m@.chunk_size,
        here is Some && after is None && next < m@.chunks.len() ==> (here->0).0 + (here->0).1
            == m@.length,
{
    let size = m@.chunk_size as int;
    assert((index + 1) * size == index * size + size) by (nonlinear_arith);
    assert(index * size >= 0) by (nonlinear_arith)
        requires
            size > 0,
    ;
}

} // verus!
