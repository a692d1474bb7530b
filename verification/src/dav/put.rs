//! Landing a file on the other device: a spool file on this device's disk,
//! its manifest, then chunks written over, held against the other device's
//! own manifest, and put in place.
//!
//! A file that is not there yet is written under a name of its own, held
//! against its manifest, and renamed. A file that is there is changed in
//! place, and only the chunks that differ are written.

use crate::core_errors::{OpError, RpcError};
use crate::limits::{MAX_READ_LEN, MAX_WRITE_LEN};
use crate::manifest::{range_of_chunk, Manifest, ManifestView};
use crate::path::{components, joined, path_problem, RemotePath};
use crate::random::random_hex;
use crate::text::{copy_of, hex_of};
use vstd::prelude::*;
use vstd::slice::slice_subrange;

verus! {

/// The most bytes the spool folder may hold at once: sixty-four gibibytes.
pub const MAX_SPOOL_BYTES: u64 = 68_719_476_736;

/// How many random bytes the name of a spool file holds.
pub const SPOOL_NAME_LEN: usize = 16;

/// Why there is no spool file.
#[derive(Debug, Clone, Copy, PartialEq, Eq, Structural)]
pub enum SpoolError {
    /// The spool folder already holds [`MAX_SPOOL_BYTES`] or more.
    Full,
    /// The folder could not be made, or a name could not be generated.
    Failed,
}

/// How many bytes the spool folder holds, counted rather than walked.
#[derive(Debug)]
pub struct SpoolBytes {
    total: u64,
    walked: bool,
}

/// `a + b`, around the end of the numbers.
pub open spec fn wrapped_sum(a: u64, b: u64) -> u64 {
    if a + b > u64::MAX {
        (a + b - 18_446_744_073_709_551_616) as u64
    } else {
        (a + b) as u64
    }
}

/// `a - b`, and never under zero.
pub open spec fn floored(a: u64, b: u64) -> u64 {
    if a < b {
        0
    } else {
        (a - b) as u64
    }
}

impl SpoolBytes {
    /// How many bytes are counted.
    pub closed spec fn counted(self) -> u64 {
        self.total
    }

    /// The folder has been walked.
    pub closed spec fn has_walked(self) -> bool {
        self.walked
    }

    /// Nothing is counted yet.
    pub fn new() -> (spool: SpoolBytes)
        ensures
            spool.counted() == 0,
            !spool.has_walked(),
    {
        SpoolBytes { total: 0, walked: false }
    }

    /// Whether the folder has to be walked, to begin counting.
    pub fn needs_walk(&self) -> (needs: bool)
        ensures
            needs == !self.has_walked(),
    {
        !self.walked
    }

    /// Begins counting at what a walk of the folder found. Only the first
    /// walk counts.
    pub fn init_from(&mut self, found: u64)
        ensures
            final(self).has_walked(),
            final(self).counted() == (if old(self).has_walked() {
                old(self).counted()
            } else {
                found
            }),
    {
        if !self.walked {
            self.walked = true;
            self.total = found;
        }
    }

    /// How many bytes the spool folder holds.
    pub fn get(&self) -> (total: u64)
        ensures
            total == self.counted(),
    {
        self.total
    }

    /// Counts a file that was made.
    fn count(&mut self, bytes: u64)
        ensures
            final(self).counted() == wrapped_sum(old(self).counted(), bytes),
            final(self).has_walked() == old(self).has_walked(),
    {
        let room: u64 = 18_446_744_073_709_551_615 - self.total;
        if bytes > room {
            self.total = bytes - room - 1;
        } else {
            self.total = self.total + bytes;
        }
    }

    /// A spool file is gone. A mismatch between what was counted and what is
    /// gone never makes the folder look full.
    pub fn release(&mut self, bytes: u64)
        ensures
            final(self).counted() == floored(old(self).counted(), bytes),
            final(self).has_walked() == old(self).has_walked(),
    {
        self.total = self.total.saturating_sub(bytes);
    }

    /// A spool file for `expected_len` bytes, under this name; `None` stands
    /// for no randomness. The bytes are counted at once.
    pub fn reserve_with(&mut self, expected_len: u64, name: Option<String>) -> (made: Result<
        String,
        SpoolError,
    >)
        ensures
            final(self).has_walked() == old(self).has_walked(),
            if old(self).counted() >= MAX_SPOOL_BYTES {
                made == Err::<String, _>(SpoolError::Full) && final(self).counted() == old(self).counted()
            } else {
                match name {
                    Some(n) => made == Ok::<_, SpoolError>(n) && final(self).counted()
                        == wrapped_sum(old(self).counted(), expected_len),
                    None => made == Err::<String, _>(SpoolError::Failed) && final(self).counted()
                        == old(self).counted(),
                }
            },
    {
        if self.total >= MAX_SPOOL_BYTES {
            return Err(SpoolError::Full);
        }
        match name {
            Some(n) => {
                self.count(expected_len);
                Ok(n)
            },
            None => Err(SpoolError::Failed),
        }
    }

    /// The name of a fresh spool file for `expected_len` bytes, which are
    /// counted at once. `folder_made` says whether the device's folder is
    /// there.
    pub fn new_spool_name(&mut self, folder_made: bool, expected_len: u64) -> (made: Result<
        String,
        SpoolError,
    >)
        ensures
            final(self).has_walked() == old(self).has_walked(),
            match made {
                Ok(name) => folder_made && old(self).counted() < MAX_SPOOL_BYTES && (exists|
                    random: Seq<u8>,
                |
                    random.len() == SPOOL_NAME_LEN && name@ == #[trigger] hex_of(random)) && final(self).counted() == wrapped_sum(old(self).counted(), expected_len),
                Err(e) => final(self).counted() == old(self).counted() && (e == SpoolError::Full
                    <==> folder_made && old(self).counted() >= MAX_SPOOL_BYTES),
            },
    {
        if !folder_made {
            return Err(SpoolError::Failed);
        }
        if self.total >= MAX_SPOOL_BYTES {
            return Err(SpoolError::Full);
        }
        let name = match random_hex(SPOOL_NAME_LEN) {
            Ok(name) => Some(name),
            Err(_) => None,
        };
        self.reserve_with(expected_len, name)
    }
}

/// A file that is counted and then goes leaves the count as it was, where the
/// count did not run around the end of the numbers.
pub proof fn lemma_spool_count_returns(before: u64, bytes: u64)
    requires
        before + bytes <= u64::MAX,
    ensures
        floored(wrapped_sum(before, bytes), bytes) == before,
{
}

// ---------------------------------------------------------------------------
// Reading a file of the other device into the spool.
// ---------------------------------------------------------------------------

/// How much of a read is asked for: what is left, and no more than one read
/// may ask for.
pub open spec fn asked(offset: u64, stop_at: u64) -> u32 {
    if stop_at - offset < MAX_READ_LEN {
        (stop_at - offset) as u32
    } else {
        MAX_READ_LEN
    }
}

/// A part of a file that is being read, piece by piece.
#[derive(Debug)]
pub struct Reading {
    /// Where the next piece begins.
    pub offset: u64,
    /// Where the part ends.
    pub stop_at: u64,
}

impl Reading {
    /// The next piece: where it begins, and how long it may be.
    pub fn next(&self) -> (piece: Option<(u64, u32)>)
        ensures
            piece == (if self.offset < self.stop_at {
                Some((self.offset, asked(self.offset, self.stop_at)))
            } else {
                None
            }),
    {
        if self.offset >= self.stop_at {
            return None;
        }
        let left: u64 = self.stop_at - self.offset;
        if left < MAX_READ_LEN as u64 {
            Some((self.offset, left as u32))
        } else {
            Some((self.offset, MAX_READ_LEN))
        }
    }

    /// A piece of `len` bytes has come. An empty one is the end of the file.
    pub fn read(&mut self, len: usize)
        ensures
            final(self).stop_at == old(self).stop_at,
            final(self).offset == (if len == 0 {
                old(self).stop_at
            } else if old(self).offset + len > u64::MAX {
                u64::MAX
            } else {
                (old(self).offset + len) as u64
            }),
    {
        if len == 0 {
            self.offset = self.stop_at;
        } else {
            self.offset = self.offset.saturating_add(len as u64);
        }
    }
}

// ---------------------------------------------------------------------------
// Landing.
// ---------------------------------------------------------------------------

/// A file on its way to the other device.
pub struct Landing {
    /// Where it is to be.
    pub destination: RemotePath,
    /// Where it is written: a name of its own, or the destination itself.
    pub onto: RemotePath,
    /// It was not there before.
    pub is_new: bool,
    pub manifest: Manifest,
    /// For each chunk, whether the other device has it already.
    pub same: Vec<bool>,
    /// The chunk that comes next.
    pub index: usize,
    /// How many bytes were written over.
    pub written: u64,
}

/// What is known of a file on its way.
#[verifier::ext_equal]
pub struct LandView {
    pub destination: Seq<char>,
    pub onto: Seq<char>,
    pub is_new: bool,
    pub manifest: ManifestView,
    pub same: Seq<bool>,
    pub index: nat,
    pub written: u64,
}

impl View for Landing {
    type V = LandView;

    open spec fn view(&self) -> LandView {
        LandView {
            destination: self.destination@,
            onto: self.onto@,
            is_new: self.is_new,
            manifest: self.manifest@,
            same: self.same@,
            index: self.index as nat,
            written: self.written,
        }
    }
}

/// A chunk that is being written.
pub struct ChunkWrite {
    pub landing: Landing,
    /// Where the rest of the chunk begins in the file.
    pub offset: u64,
    /// The chunk.
    pub bytes: Vec<u8>,
    /// How many of its bytes are over.
    pub at: usize,
}

/// What a landing asks for next.
pub enum LandStep {
    /// The manifest of the destination, to see which chunks differ.
    Compare(Landing),
    /// A write of nothing, so that an empty file is there.
    Touch(Landing),
    /// The next chunk, from the spool file.
    Read(Landing),
    /// A write of the next piece of a chunk.
    Write(ChunkWrite),
    /// The file cut to its length.
    Truncate(Landing),
    /// The manifest of what was written.
    Check(Landing),
    /// The file under its own name renamed to the destination.
    Rename(Landing),
    /// The destination's modified time set to now.
    Mtime(Landing),
    /// The file under its own name deleted; whether that works does not
    /// matter.
    Cleanup(Landing, RpcError),
    /// It is over: whether the file landed, and how many bytes were written.
    Done(Result<(), RpcError>, u64),
}

/// Where a landing stands.
pub enum LandState {
    Compare(LandView),
    Touch(LandView),
    Read(LandView),
    /// The landing, the rest of the chunk, and where that begins.
    Write(LandView, Seq<u8>, u64),
    Truncate(LandView),
    Check(LandView),
    Rename(LandView),
    Mtime(LandView),
    Cleanup(LandView, RpcError),
    Done(Result<(), RpcError>, u64),
}

impl ChunkWrite {
    /// There is something left of a chunk of the file.
    pub open spec fn wf(self) -> bool {
        self.at < self.bytes@.len() && self.landing.wf() && self.landing.index
            < self.landing.same@.len()
    }

    /// What is left of the chunk.
    pub open spec fn left(self) -> Seq<u8> {
        self.bytes@.skip(self.at as int)
    }
}

impl View for LandStep {
    type V = LandState;

    open spec fn view(&self) -> LandState {
        match self {
            LandStep::Compare(l) => LandState::Compare(l@),
            LandStep::Touch(l) => LandState::Touch(l@),
            LandStep::Read(l) => LandState::Read(l@),
            LandStep::Write(w) => LandState::Write(w.landing@, w.left(), w.offset),
            LandStep::Truncate(l) => LandState::Truncate(l@),
            LandStep::Check(l) => LandState::Check(l@),
            LandStep::Rename(l) => LandState::Rename(l@),
            LandStep::Mtime(l) => LandState::Mtime(l@),
            LandStep::Cleanup(l, e) => LandState::Cleanup(l@, *e),
            LandStep::Done(r, n) => LandState::Done(*r, *n),
        }
    }
}

impl LandStep {
    /// Every chunk has its mark, and a write has something left to write.
    pub open spec fn wf(self) -> bool {
        match self {
            LandStep::Compare(l) => l.wf(),
            LandStep::Touch(l) => l.wf(),
            LandStep::Read(l) => l.wf(),
            LandStep::Write(w) => w.wf(),
            LandStep::Truncate(l) => l.wf(),
            LandStep::Check(l) => l.wf(),
            LandStep::Rename(l) => l.wf(),
            LandStep::Mtime(l) => l.wf(),
            LandStep::Cleanup(l, e) => l.wf(),
            LandStep::Done(r, n) => true,
        }
    }
}

/// The first chunk from `index` on that the other device does not have.
pub open spec fn next_wanted(same: Seq<bool>, index: nat) -> nat
    decreases same.len() - index,
{
    if index < same.len() && same[index as int] {
        next_wanted(same, index + 1)
    } else {
        index
    }
}

/// A landing goes on with the next chunk that is wanted, or with the end.
pub open spec fn go_on(l: LandView) -> LandState {
    let next = LandView { index: next_wanted(l.same, l.index), ..l };
    if range_of_chunk(l.manifest, next.index as int) is Some {
        LandState::Read(next)
    } else {
        LandState::Truncate(next)
    }
}

/// A landing that failed: a new file's own name is cleaned up first.
pub open spec fn give_up(l: LandView, error: RpcError) -> LandState {
    if l.is_new {
        LandState::Cleanup(l, error)
    } else {
        LandState::Done(Err(error), l.written)
    }
}

/// Which chunks are the same here and there.
pub open spec fn same_chunks(here: ManifestView, there: ManifestView) -> Seq<bool> {
    Seq::new(
        here.chunks.len(),
        |i: int| i < there.chunks.len() && here.chunks[i] == there.chunks[i],
    )
}

/// No chunk is there.
pub open spec fn none_same(here: ManifestView) -> Seq<bool> {
    Seq::new(here.chunks.len(), |i: int| false)
}

/// The name a new file is written under.
pub open spec fn partial_text(destination: Seq<char>) -> Seq<char> {
    destination + ".ferry-part"@
}

/// A new file at its start.
pub open spec fn new_landing(destination: Seq<char>, manifest: ManifestView) -> LandState {
    if path_problem(partial_text(destination)) is Some {
        LandState::Done(Err(RpcError::Remote(OpError::InvalidPath)), 0)
    } else {
        let l = LandView {
            destination,
            onto: joined(components(partial_text(destination))),
            is_new: true,
            manifest,
            same: none_same(manifest),
            index: 0,
            written: 0,
        };
        if manifest.length == 0 {
            LandState::Touch(l)
        } else {
            go_on(l)
        }
    }
}

/// A file in place of another, at its start.
pub open spec fn delta_landing(destination: Seq<char>, manifest: ManifestView) -> LandState {
    LandState::Compare(
        LandView {
            destination,
            onto: destination,
            is_new: false,
            manifest,
            same: none_same(manifest),
            index: 0,
            written: 0,
        },
    )
}

/// How many bytes the next write carries.
pub open spec fn piece_len(left: nat) -> nat {
    if left > MAX_WRITE_LEN {
        MAX_WRITE_LEN as nat
    } else {
        left
    }
}

/// `a + b`, or the largest number.
pub open spec fn capped(a: u64, b: int) -> u64 {
    if a + b > u64::MAX {
        u64::MAX
    } else {
        (a + b) as u64
    }
}

/// What a landing is told: the answer to what it asked for.
pub enum LandEvent {
    /// A manifest came, or did not.
    Manifest(Result<ManifestView, RpcError>),
    /// The chunk was read from the spool file, or could not be.
    Chunk(Result<Seq<u8>, OpError>),
    /// A write took this many bytes, or failed.
    Wrote(Result<u32, RpcError>),
    /// The file was cut, renamed or dated, or was not.
    Done(Result<(), RpcError>),
    /// The new file's own name was cleaned up.
    Cleaned,
}

/// A manifest that came, or did not.
pub open spec fn manifest_result(there: Result<Manifest, RpcError>) -> Result<
    ManifestView,
    RpcError,
> {
    match there {
        Ok(m) => Ok(m@),
        Err(e) => Err(e),
    }
}

/// A chunk that was read, or was not.
pub open spec fn chunk_result(bytes: Result<Vec<u8>, OpError>) -> Result<Seq<u8>, OpError> {
    match bytes {
        Ok(b) => Ok(b@),
        Err(op) => Err(op),
    }
}

/// A chunk was read for a landing.
pub open spec fn after_chunk(l: LandView, bytes: Result<Seq<u8>, OpError>) -> LandState {
    match range_of_chunk(l.manifest, l.index as int) {
        None => LandState::Truncate(l),
        Some((offset, _)) => match bytes {
            Err(op) => give_up(l, RpcError::Remote(op)),
            Ok(b) => if b.len() == 0 {
                go_on(LandView { index: l.index + 1, ..l })
            } else {
                LandState::Write(l, b, offset)
            },
        },
    }
}

/// A write of a landing took this many bytes of what was left of a chunk.
pub open spec fn after_write(l: LandView, left: Seq<u8>, offset: u64, taken: u32) -> LandState {
    let piece = piece_len(left.len()) as int;
    let took = if taken > piece {
        piece
    } else {
        taken as int
    };
    let l = LandView { written: capped(l.written, took), ..l };
    if took == 0 {
        give_up(l, RpcError::Remote(OpError::Internal))
    } else if took == left.len() {
        go_on(LandView { index: l.index + 1, ..l })
    } else {
        LandState::Write(l, left.skip(took), capped(offset, took))
    }
}

/// Where a landing stands once it was told something. An answer to what it
/// did not ask for changes nothing.
pub open spec fn landing_after(state: LandState, event: LandEvent) -> LandState {
    match (state, event) {
        (LandState::Compare(l), LandEvent::Manifest(Err(e))) => give_up(l, e),
        (LandState::Compare(l), LandEvent::Manifest(Ok(m))) => go_on(
            LandView { same: same_chunks(l.manifest, m), index: 0, ..l },
        ),
        (LandState::Touch(l), LandEvent::Wrote(Err(e))) => give_up(l, e),
        (LandState::Touch(l), LandEvent::Wrote(Ok(_))) => go_on(l),
        (LandState::Read(l), LandEvent::Chunk(bytes)) => after_chunk(l, bytes),
        (LandState::Write(l, left, offset), LandEvent::Wrote(Err(e))) => give_up(l, e),
        (LandState::Write(l, left, offset), LandEvent::Wrote(Ok(n))) => after_write(
            l,
            left,
            offset,
            n,
        ),
        (LandState::Truncate(l), LandEvent::Done(Err(e))) => give_up(l, e),
        (LandState::Truncate(l), LandEvent::Done(Ok(_))) => LandState::Check(l),
        (LandState::Check(l), LandEvent::Manifest(Err(e))) => give_up(l, e),
        (LandState::Check(l), LandEvent::Manifest(Ok(m))) => if m != l.manifest {
            give_up(l, RpcError::Remote(OpError::Internal))
        } else if l.is_new {
            LandState::Rename(l)
        } else {
            LandState::Mtime(l)
        },
        (LandState::Rename(l), LandEvent::Done(Err(e))) => give_up(l, e),
        (LandState::Rename(l), LandEvent::Done(Ok(_))) => LandState::Mtime(l),
        (LandState::Mtime(l), LandEvent::Done(Err(e))) => give_up(l, e),
        (LandState::Mtime(l), LandEvent::Done(Ok(_))) => LandState::Done(Ok(()), l.written),
        (LandState::Cleanup(l, e), LandEvent::Cleaned) => LandState::Done(Err(e), l.written),
        (state, _) => state,
    }
}

fn marks(count: usize) -> (same: Vec<bool>)
    ensures
        same@.len() == count,
        forall|i: int| 0 <= i < count ==> !#[trigger] same@[i],
{
    let mut same: Vec<bool> = Vec::new();
    let mut i: usize = 0;
    while i < count
        invariant
            i <= count,
            same@.len() == i,
            forall|j: int| 0 <= j < i ==> !#[trigger] same@[j],
        decreases count - i,
    {
        same.push(false);
        i += 1;
    }
    same
}

/// Lands a file that is not on the other device yet.
pub fn land_new(destination: &RemotePath, manifest: Manifest) -> (step: LandStep)
    ensures
        step.wf(),
        step@ == new_landing(destination@, manifest@),
{
    let mut text = copy_of(destination.as_str());
    text.push_str(".ferry-part");
    let onto = match RemotePath::parse(text.as_str()) {
        Ok(p) => p,
        Err(_) => {
            return LandStep::Done(Err(RpcError::Remote(OpError::InvalidPath)), 0);
        },
    };
    let same = marks(manifest.chunk_count());
    let empty: bool = manifest.length == 0;
    let landing = Landing {
        destination: destination.copy(),
        onto,
        is_new: true,
        manifest,
        same,
        index: 0,
        written: 0,
    };
    assert(landing@.same =~= none_same(manifest@));
    if empty {
        LandStep::Touch(landing)
    } else {
        landing.go_on()
    }
}

/// Lands a file in place of one that is on the other device already: only the
/// chunks that differ are written.
pub fn land_delta(destination: &RemotePath, manifest: Manifest) -> (step: LandStep)
    ensures
        step.wf(),
        step@ == delta_landing(destination@, manifest@),
{
    let same = marks(manifest.chunk_count());
    let landing = Landing {
        destination: destination.copy(),
        onto: destination.copy(),
        is_new: false,
        manifest,
        same,
        index: 0,
        written: 0,
    };
    assert(landing@.same =~= none_same(manifest@));
    LandStep::Compare(landing)
}

impl Landing {
    /// Every chunk has its mark.
    pub open spec fn wf(self) -> bool {
        self.same@.len() == self.manifest@.chunks.len() && self.index <= self.same@.len()
    }

    fn go_on(self) -> (step: LandStep)
        requires
            self.wf(),
        ensures
            step.wf(),
            step@ == go_on(self@),
    {
        let mut landing = self;
        let ghost start = landing@;
        while landing.index < landing.same.len() && landing.same[landing.index]
            invariant
                landing.wf(),
                landing@ == (LandView { index: landing.index as nat, ..start }),
                next_wanted(start.same, start.index) == next_wanted(
                    start.same,
                    landing.index as nat,
                ),
            decreases landing.same@.len() - landing.index,
        {
            landing.index = landing.index + 1;
        }
        match landing.manifest.chunk_range(landing.index) {
            Some(_) => LandStep::Read(landing),
            None => LandStep::Truncate(landing),
        }
    }

    fn give_up(self, error: RpcError) -> (step: LandStep)
        requires
            self.wf(),
        ensures
            step.wf(),
            step@ == give_up(self@, error),
    {
        if self.is_new {
            LandStep::Cleanup(self, error)
        } else {
            LandStep::Done(Err(error), self.written)
        }
    }

    /// The destination's manifest has come, for [`LandStep::Compare`].
    pub fn compared(self, there: Result<Manifest, RpcError>) -> (step: LandStep)
        requires
            self.wf(),
        ensures
            step.wf(),
            step@ == landing_after(
                LandState::Compare(self@),
                LandEvent::Manifest(manifest_result(there)),
            ),
    {
        let there = match there {
            Err(e) => {
                return self.give_up(e);
            },
            Ok(m) => m,
        };
        let mut landing = self;
        let count: usize = landing.manifest.chunk_count();
        let mut same: Vec<bool> = Vec::new();
        let mut i: usize = 0;
        while i < count
            invariant
                i <= count,
                count == landing.manifest@.chunks.len(),
                same@ == same_chunks(landing.manifest@, there@).take(i as int),
            decreases count - i,
        {
            same.push(landing.manifest.same_chunk(&there, i));
            i += 1;
            assert(same@ =~= same_chunks(landing.manifest@, there@).take(i as int));
        }
        assert(same@ =~= same_chunks(landing.manifest@, there@));
        landing.same = same;
        landing.index = 0;
        landing.go_on()
    }

    /// The write of nothing was answered, for [`LandStep::Touch`].
    pub fn touched(self, wrote: Result<u32, RpcError>) -> (step: LandStep)
        requires
            self.wf(),
        ensures
            step.wf(),
            step@ == landing_after(LandState::Touch(self@), LandEvent::Wrote(wrote)),
    {
        match wrote {
            Err(e) => self.give_up(e),
            Ok(_) => self.go_on(),
        }
    }

    /// Where the chunk that [`LandStep::Read`] asks for begins, and how long
    /// it is.
    pub fn wanted(&self) -> (range: Option<(u64, u32)>)
        ensures
            range == range_of_chunk(self@.manifest, self@.index as int),
    {
        self.manifest.chunk_range(self.index)
    }

    /// The chunk was read from the spool file, for [`LandStep::Read`].
    pub fn read(self, bytes: Result<Vec<u8>, OpError>) -> (step: LandStep)
        requires
            self.wf(),
        ensures
            step.wf(),
            step@ == landing_after(LandState::Read(self@), LandEvent::Chunk(chunk_result(bytes))),
    {
        let offset: u64 = match self.manifest.chunk_range(self.index) {
            None => {
                return LandStep::Truncate(self);
            },
            Some((offset, _)) => offset,
        };
        match bytes {
            Err(op) => self.give_up(RpcError::Remote(op)),
            Ok(b) => {
                if b.len() == 0 {
                    let mut landing = self;
                    let count: usize = landing.same.len();
                    assert(landing.index < count);
                    landing.index = landing.index + 1;
                    return landing.go_on();
                }
                assert(b@.skip(0) =~= b@);
                LandStep::Write(ChunkWrite { landing: self, offset, bytes: b, at: 0 })
            },
        }
    }

    /// The file was cut to its length, for [`LandStep::Truncate`].
    pub fn truncated(self, cut: Result<(), RpcError>) -> (step: LandStep)
        requires
            self.wf(),
        ensures
            step.wf(),
            step@ == landing_after(LandState::Truncate(self@), LandEvent::Done(cut)),
    {
        match cut {
            Err(e) => self.give_up(e),
            Ok(_) => LandStep::Check(self),
        }
    }

    /// The manifest of what was written has come, for [`LandStep::Check`].
    /// The modified time is not touched where it is not the right one.
    pub fn checked(self, landed: Result<Manifest, RpcError>) -> (step: LandStep)
        requires
            self.wf(),
        ensures
            step.wf(),
            step@ == landing_after(
                LandState::Check(self@),
                LandEvent::Manifest(manifest_result(landed)),
            ),
    {
        match landed {
            Err(e) => self.give_up(e),
            Ok(m) => {
                if !m.same(&self.manifest) {
                    return self.give_up(RpcError::Remote(OpError::Internal));
                }
                if self.is_new {
                    LandStep::Rename(self)
                } else {
                    LandStep::Mtime(self)
                }
            },
        }
    }

    /// The file was renamed to its destination, for [`LandStep::Rename`].
    pub fn renamed(self, moved: Result<(), RpcError>) -> (step: LandStep)
        requires
            self.wf(),
        ensures
            step.wf(),
            step@ == landing_after(LandState::Rename(self@), LandEvent::Done(moved)),
    {
        match moved {
            Err(e) => self.give_up(e),
            Ok(_) => LandStep::Mtime(self),
        }
    }

    /// The modified time was set, for [`LandStep::Mtime`].
    pub fn dated(self, set: Result<(), RpcError>) -> (step: LandStep)
        requires
            self.wf(),
        ensures
            step.wf(),
            step@ == landing_after(LandState::Mtime(self@), LandEvent::Done(set)),
    {
        match set {
            Err(e) => self.give_up(e),
            Ok(_) => LandStep::Done(Ok(()), self.written),
        }
    }

    /// The new file's own name was cleaned up, for [`LandStep::Cleanup`].
    pub fn cleaned(self, error: RpcError) -> (step: LandStep)
        ensures
            step@ == landing_after(LandState::Cleanup(self@, error), LandEvent::Cleaned),
    {
        LandStep::Done(Err(error), self.written)
    }
}

impl ChunkWrite {
    /// The bytes of the next write.
    pub fn piece(&self) -> (bytes: &[u8])
        requires
            self.wf(),
        ensures
            bytes@ == self.left().take(piece_len(self.left().len()) as int),
    {
        let left: usize = self.bytes.len() - self.at;
        let len: usize = if left > MAX_WRITE_LEN as usize {
            MAX_WRITE_LEN as usize
        } else {
            left
        };
        let part = slice_subrange(self.bytes.as_slice(), self.at, self.at + len);
        assert(part@ =~= self.left().take(piece_len(self.left().len()) as int));
        part
    }

    /// The write was answered with how many bytes it took. A write that takes
    /// nothing is a failure of the other device.
    pub fn wrote(self, taken: Result<u32, RpcError>) -> (step: LandStep)
        requires
            self.wf(),
        ensures
            step.wf(),
            step@ == landing_after(
                LandState::Write(self.landing@, self.left(), self.offset),
                LandEvent::Wrote(taken),
            ),
    {
        let taken: u32 = match taken {
            Err(e) => {
                return self.landing.give_up(e);
            },
            Ok(n) => n,
        };
        let ghost left_before = self.left();
        let left: usize = self.bytes.len() - self.at;
        let most: usize = if left > MAX_WRITE_LEN as usize {
            MAX_WRITE_LEN as usize
        } else {
            left
        };
        let took: usize = if taken as usize > most {
            most
        } else {
            taken as usize
        };
        let ChunkWrite { landing, offset, bytes, at } = self;
        let mut landing = landing;
        landing.written = landing.written.saturating_add(took as u64);
        if took == 0 {
            return landing.give_up(RpcError::Remote(OpError::Internal));
        }
        if took == left {
            let count: usize = landing.same.len();
            assert(landing.index < count);
            landing.index = landing.index + 1;
            return landing.go_on();
        }
        let next = ChunkWrite {
            landing,
            offset: offset.saturating_add(took as u64),
            bytes,
            at: at + took,
        };
        assert(next.left() =~= left_before.skip(took as int));
        LandStep::Write(next)
    }
}

/// The chunk a landing goes on with is one that the other device does not
/// have, and it has every one between.
pub proof fn lemma_next_wanted(same: Seq<bool>, index: nat)
    requires
        index <= same.len(),
    ensures
        index <= next_wanted(same, index) <= same.len(),
        next_wanted(same, index) < same.len() ==> !same[next_wanted(same, index) as int],
        forall|i: int| index <= i < next_wanted(same, index) ==> #[trigger] same[i],
    decreases same.len() - index,
{
    if index < same.len() && same[index as int] {
        lemma_next_wanted(same, index + 1);
    }
}

/// A landing onto a file of the same content writes nothing: it goes straight
/// to the end.
pub proof fn lemma_same_content_writes_nothing(l: LandView)
    requires
        l.index == 0,
    ensures
        go_on(LandView { same: same_chunks(l.manifest, l.manifest), ..l }) matches LandState::Truncate(
            after,
        ) && after.written == l.written,
{
    let same = same_chunks(l.manifest, l.manifest);
    lemma_next_wanted(same, 0);
    let next = next_wanted(same, 0);
    if next < same.len() {
        assert(same[next as int]);
    }
}

/// Where a landing stands once it was told all of this, in order.
pub open spec fn landing_run(start: LandState, events: Seq<LandEvent>) -> LandState
    decreases events.len(),
{
    if events.len() == 0 {
        start
    } else {
        landing_after(landing_run(start, events.drop_last()), events.last())
    }
}

/// A landing of this manifest, which is past its check only where `verified`
/// holds.
spec fn lands(state: LandState, manifest: ManifestView, verified: bool) -> bool {
    match state {
        LandState::Compare(l) => l.manifest == manifest,
        LandState::Touch(l) => l.manifest == manifest,
        LandState::Read(l) => l.manifest == manifest,
        LandState::Write(l, _, _) => l.manifest == manifest,
        LandState::Truncate(l) => l.manifest == manifest,
        LandState::Check(l) => l.manifest == manifest,
        LandState::Rename(l) => l.manifest == manifest && verified,
        LandState::Mtime(l) => l.manifest == manifest && verified,
        LandState::Cleanup(l, _) => l.manifest == manifest,
        LandState::Done(Ok(_), _) => verified,
        LandState::Done(Err(_), _) => true,
    }
}

/// While the landing was checking, the other device showed this manifest of
/// what was written.
pub open spec fn was_verified(
    start: LandState,
    manifest: ManifestView,
    events: Seq<LandEvent>,
) -> bool {
    exists|i: int|
        0 <= i < events.len() && #[trigger] events[i] == LandEvent::Manifest(Ok(manifest))
            && landing_run(start, events.take(i)) is Check
}

proof fn lemma_step_lands(
    state: LandState,
    event: LandEvent,
    manifest: ManifestView,
    before: bool,
    after: bool,
)
    requires
        lands(state, manifest, before),
        before ==> after,
        state is Check && event == LandEvent::Manifest(Ok(manifest)) ==> after,
    ensures
        lands(landing_after(state, event), manifest, after),
{
}

proof fn lemma_run_lands(start: LandState, manifest: ManifestView, events: Seq<LandEvent>)
    requires
        lands(start, manifest, false),
    ensures
        lands(landing_run(start, events), manifest, was_verified(start, manifest, events)),
    decreases events.len(),
{
    if events.len() > 0 {
        let before = events.drop_last();
        lemma_run_lands(start, manifest, before);
        assert(events.take(events.len() - 1) =~= before);
        if was_verified(start, manifest, before) {
            let i = choose|i: int|
                0 <= i < before.len() && #[trigger] before[i] == LandEvent::Manifest(Ok(manifest))
                    && landing_run(start, before.take(i)) is Check;
            assert(events.take(i) =~= before.take(i));
            assert(events[i] == before[i]);
        }
        if landing_run(start, before) is Check && events.last() == LandEvent::Manifest(
            Ok(manifest),
        ) {
            assert(events[events.len() - 1] == events.last());
            assert(was_verified(start, manifest, events));
        }
        lemma_step_lands(
            landing_run(start, before),
            events.last(),
            manifest,
            was_verified(start, manifest, before),
            was_verified(start, manifest, events),
        );
    }
}

/// A file is renamed into place, dated and reported as landed only after the
/// other device, asked for a manifest of what was written, has shown the one
/// of the spool file.
pub proof fn lemma_landed_is_verified(
    destination: Seq<char>,
    manifest: ManifestView,
    is_new: bool,
    events: Seq<LandEvent>,
)
    ensures
        ({
            let start = if is_new {
                new_landing(destination, manifest)
            } else {
                delta_landing(destination, manifest)
            };
            let now = landing_run(start, events);
            now is Rename || now is Mtime || (now matches LandState::Done(Ok(_), _))
                ==> was_verified(start, manifest, events)
        }),
{
    let start = if is_new {
        new_landing(destination, manifest)
    } else {
        delta_landing(destination, manifest)
    };
    lemma_run_lands(start, manifest, events);
}

/// How many bytes one chunk of a file has.
pub open spec fn chunk_len(m: ManifestView, index: int) -> nat {
    match range_of_chunk(m, index) {
        Some((_, len)) => len as nat,
        None => 0,
    }
}

/// How many bytes the first `count` chunks have together, without those that
/// are marked.
pub open spec fn unmarked_bytes(m: ManifestView, marked: Seq<bool>, count: nat) -> nat
    decreases count,
{
    if count == 0 {
        0
    } else {
        let last = count - 1;
        unmarked_bytes(m, marked, last as nat) + if marked[last] {
            0
        } else {
            chunk_len(m, last)
        }
    }
}

/// The first answer about a manifest: it is of the file that is replaced.
pub open spec fn first_manifest(events: Seq<LandEvent>) -> Option<Result<ManifestView, RpcError>>
    decreases events.len(),
{
    if events.len() == 0 {
        None
    } else {
        match (first_manifest(events.drop_last()), events.last()) {
            (Some(answer), _) => Some(answer),
            (None, LandEvent::Manifest(answer)) => Some(answer),
            (None, _) => None,
        }
    }
}

/// Which chunks the other device has already, once that is known: none of a
/// new file, and those that are the same of a file that is replaced.
pub open spec fn chunks_there(
    manifest: ManifestView,
    is_new: bool,
    events: Seq<LandEvent>,
) -> Option<Seq<bool>> {
    if is_new {
        Some(none_same(manifest))
    } else {
        match first_manifest(events) {
            Some(Ok(there)) => Some(same_chunks(manifest, there)),
            _ => None,
        }
    }
}

/// A chunk that the spool file gave has the length that was asked for.
pub open spec fn read_whole(state: LandState, event: LandEvent) -> bool {
    match (state, event) {
        (LandState::Read(l), LandEvent::Chunk(Ok(b))) => b.len() == chunk_len(
            l.manifest,
            l.index as int,
        ),
        _ => true,
    }
}

/// Every chunk that the spool file gave has the length that was asked for.
pub open spec fn reads_whole(start: LandState, events: Seq<LandEvent>) -> bool {
    forall|i: int|
        0 <= i < events.len() ==> read_whole(
            landing_run(start, events.take(i)),
            #[trigger] events[i],
        )
}

/// A landing of this manifest, with these chunks there already, and every
/// chunk before its own counted.
spec fn counts(l: LandView, m: ManifestView, there: Option<Seq<bool>>) -> bool {
    &&& l.manifest == m
    &&& there == Some(l.same)
    &&& l.same.len() == m.chunks.len()
    &&& l.index <= m.chunks.len()
    &&& l.written == unmarked_bytes(m, l.same, l.index)
}

/// The landing's count is right: of the chunks before its own while it reads
/// and writes, and of all of them from there on.
spec fn count_holds(state: LandState, m: ManifestView, there: Option<Seq<bool>>) -> bool {
    let all = m.chunks.len();
    match state {
        LandState::Compare(l) => l.manifest == m && there is None && l.written == 0,
        LandState::Touch(l) => counts(l, m, there) && l.index == 0,
        LandState::Read(l) => counts(l, m, there) && l.index < all && !l.same[l.index as int]
            && range_of_chunk(m, l.index as int) is Some,
        LandState::Write(l, left, _) => l.manifest == m && there == Some(l.same) && l.same.len()
            == all && l.index < all && !l.same[l.index as int] && left.len() > 0 && l.written
            + left.len() == unmarked_bytes(m, l.same, l.index + 1),
        LandState::Truncate(l) => there is Some && l.written == unmarked_bytes(m, there->0, all),
        LandState::Check(l) => there is Some && l.written == unmarked_bytes(m, there->0, all),
        LandState::Rename(l) => there is Some && l.written == unmarked_bytes(m, there->0, all),
        LandState::Mtime(l) => there is Some && l.written == unmarked_bytes(m, there->0, all),
        LandState::Cleanup(_, _) => true,
        LandState::Done(Ok(_), n) => there is Some && n == unmarked_bytes(m, there->0, all),
        LandState::Done(Err(_), _) => true,
    }
}

/// The chunks of a file have no more bytes than the file.
proof fn lemma_unmarked_within(m: ManifestView, marked: Seq<bool>, count: nat)
    requires
        count <= m.chunks.len(),
    ensures
        unmarked_bytes(m, marked, count) <= m.length,
        unmarked_bytes(m, marked, count) <= count * m.chunk_size,
    decreases count,
{
    if count > 0 {
        let last = (count - 1) as nat;
        lemma_unmarked_within(m, marked, last);
        assert(count * m.chunk_size == last * m.chunk_size + m.chunk_size) by (nonlinear_arith)
            requires
                count == last + 1,
        ;
    }
}

/// Chunks that are marked, or past the end of the file, add nothing.
proof fn lemma_unmarked_flat(m: ManifestView, marked: Seq<bool>, from: nat, to: nat)
    requires
        from <= to,
        forall|k: int| from <= k < to ==> #[trigger] marked[k] || range_of_chunk(m, k) is None,
    ensures
        unmarked_bytes(m, marked, to) == unmarked_bytes(m, marked, from),
    decreases to - from,
{
    if from < to {
        lemma_unmarked_flat(m, marked, from, (to - 1) as nat);
        assert(marked[to - 1] || range_of_chunk(m, to - 1) is None);
    }
}

proof fn lemma_go_on_counts(l: LandView, m: ManifestView, there: Option<Seq<bool>>)
    requires
        counts(l, m, there),
    ensures
        count_holds(go_on(l), m, there),
{
    let all = m.chunks.len();
    let next = next_wanted(l.same, l.index);
    lemma_next_wanted(l.same, l.index);
    lemma_unmarked_flat(m, l.same, l.index, next);
    if range_of_chunk(m, next as int) is None {
        assert forall|k: int| next <= k < all implies #[trigger] l.same[k] || range_of_chunk(m, k)
            is None by {
            assert(k * m.chunk_size >= next * m.chunk_size) by (nonlinear_arith)
                requires
                    k >= next,
            ;
        }
        lemma_unmarked_flat(m, l.same, next, all);
    }
}

/// What is written of a chunk is added to the count without a limit.
proof fn lemma_write_counts(
    l: LandView,
    left: Seq<u8>,
    offset: u64,
    taken: u32,
    m: ManifestView,
    there: Option<Seq<bool>>,
)
    requires
        count_holds(LandState::Write(l, left, offset), m, there),
    ensures
        count_holds(after_write(l, left, offset, taken), m, there),
{
    let piece = piece_len(left.len()) as int;
    let took = if taken > piece {
        piece
    } else {
        taken as int
    };
    lemma_unmarked_within(m, l.same, l.index + 1);
    let after = LandView { written: capped(l.written, took), ..l };
    if took == left.len() {
        lemma_go_on_counts(LandView { index: l.index + 1, ..after }, m, there);
    }
}

/// One answer keeps the count right.
proof fn lemma_step_counts(
    state: LandState,
    event: LandEvent,
    m: ManifestView,
    before: Option<Seq<bool>>,
    there: Option<Seq<bool>>,
)
    requires
        count_holds(state, m, before),
        before is Some ==> there == before,
        state is Compare ==> there == (match event {
            LandEvent::Manifest(Ok(shown)) => Some(same_chunks(m, shown)),
            _ => None,
        }),
        read_whole(state, event),
    ensures
        count_holds(landing_after(state, event), m, there),
{
    match (state, event) {
        (LandState::Compare(l), LandEvent::Manifest(Ok(shown))) => {
            lemma_go_on_counts(
                LandView { same: same_chunks(l.manifest, shown), index: 0, ..l },
                m,
                there,
            );
        },
        (LandState::Touch(l), LandEvent::Wrote(Ok(_))) => {
            lemma_go_on_counts(l, m, there);
        },
        (LandState::Read(l), LandEvent::Chunk(Ok(b))) => {
            if b.len() == 0 {
                lemma_go_on_counts(LandView { index: l.index + 1, ..l }, m, there);
            }
        },
        (LandState::Write(l, left, offset), LandEvent::Wrote(Ok(n))) => {
            lemma_write_counts(l, left, offset, n, m, there);
        },
        _ => {},
    }
}

proof fn lemma_reads_whole_before(start: LandState, events: Seq<LandEvent>)
    requires
        events.len() > 0,
        reads_whole(start, events),
    ensures
        reads_whole(start, events.drop_last()),
{
    let before = events.drop_last();
    assert forall|i: int| 0 <= i < before.len() implies read_whole(
        landing_run(start, before.take(i)),
        #[trigger] before[i],
    ) by {
        assert(before.take(i) =~= events.take(i));
        assert(before[i] == events[i]);
    }
}

/// A run keeps the count right, and compares only until a manifest has come.
proof fn lemma_run_counts(
    start: LandState,
    manifest: ManifestView,
    is_new: bool,
    events: Seq<LandEvent>,
)
    requires
        count_holds(start, manifest, chunks_there(manifest, is_new, Seq::empty())),
        reads_whole(start, events),
    ensures
        count_holds(
            landing_run(start, events),
            manifest,
            chunks_there(manifest, is_new, events),
        ),
        landing_run(start, events) is Compare ==> first_manifest(events) is None,
    decreases events.len(),
{
    if events.len() == 0 {
        assert(events =~= Seq::<LandEvent>::empty());
    } else {
        let before = events.drop_last();
        lemma_reads_whole_before(start, events);
        lemma_run_counts(start, manifest, is_new, before);
        let end = events.len() - 1;
        assert(events.take(end) =~= before);
        assert(events[end] == events.last());
        assert(read_whole(landing_run(start, before), events.last()));
        lemma_step_counts(
            landing_run(start, before),
            events.last(),
            manifest,
            chunks_there(manifest, is_new, before),
            chunks_there(manifest, is_new, events),
        );
        lemma_compares_once(landing_run(start, before), events.last());
    }
}

/// A landing compares only at its start.
proof fn lemma_compares_once(state: LandState, event: LandEvent)
    ensures
        landing_after(state, event) is Compare ==> state is Compare && !(event is Manifest),
{
}

/// Only the chunks that the other device does not have are read and written,
/// and the count of a file that landed is what those chunks have together:
/// all of a new file, and what changed of one that is replaced.
pub proof fn lemma_only_what_differs_is_written(
    destination: Seq<char>,
    manifest: ManifestView,
    is_new: bool,
    events: Seq<LandEvent>,
)
    requires
        reads_whole(
            if is_new {
                new_landing(destination, manifest)
            } else {
                delta_landing(destination, manifest)
            },
            events,
        ),
    ensures
        ({
            let start = if is_new {
                new_landing(destination, manifest)
            } else {
                delta_landing(destination, manifest)
            };
            let there = chunks_there(manifest, is_new, events);
            match landing_run(start, events) {
                LandState::Read(l) => there matches Some(same) && l.index < same.len()
                    && !same[l.index as int],
                LandState::Write(l, _, _) => there matches Some(same) && l.index < same.len()
                    && !same[l.index as int],
                LandState::Done(Ok(_), written) => there matches Some(same) && written
                    == unmarked_bytes(manifest, same, manifest.chunks.len()),
                _ => true,
            }
        }),
{
    let start = if is_new {
        new_landing(destination, manifest)
    } else {
        delta_landing(destination, manifest)
    };
    if is_new {
        let l = LandView {
            destination,
            onto: joined(components(partial_text(destination))),
            is_new: true,
            manifest,
            same: none_same(manifest),
            index: 0,
            written: 0,
        };
        lemma_go_on_counts(l, manifest, Some(none_same(manifest)));
    }
    lemma_run_counts(start, manifest, is_new, events);
}

/// A new file that landed was written whole, where its chunks cover it.
pub proof fn lemma_new_file_is_written_whole(
    destination: Seq<char>,
    manifest: ManifestView,
    events: Seq<LandEvent>,
)
    requires
        manifest.chunks.len() * manifest.chunk_size >= manifest.length,
        reads_whole(new_landing(destination, manifest), events),
    ensures
        landing_run(new_landing(destination, manifest), events) matches LandState::Done(
            Ok(_),
            written,
        ) ==> written == manifest.length,
{
    lemma_only_what_differs_is_written(destination, manifest, true, events);
    lemma_unmarked_covers(manifest, manifest.chunks.len());
}

/// The first chunks of a file that has none in common cover it up to where
/// they end.
proof fn lemma_unmarked_covers(m: ManifestView, count: nat)
    requires
        count <= m.chunks.len(),
    ensures
        count * m.chunk_size <= m.length ==> unmarked_bytes(m, none_same(m), count) == count
            * m.chunk_size,
        count * m.chunk_size >= m.length ==> unmarked_bytes(m, none_same(m), count) == m.length,
    decreases count,
{
    if count > 0 {
        let last = (count - 1) as nat;
        lemma_unmarked_covers(m, last);
        assert(count * m.chunk_size == last * m.chunk_size + m.chunk_size) by (nonlinear_arith)
            requires
                count == last + 1,
        ;
    }
}

/// A chunk that was read goes to its own place in the file, whole.
pub proof fn lemma_chunk_goes_to_its_place(
    landing: Landing,
    range: Option<(u64, u32)>,
    bytes: Vec<u8>,
    step: LandStep,
)
    requires
        landing.wf(),
        call_ensures(Landing::wanted, (&landing,), range),
        range is Some,
        bytes@.len() > 0,
        call_ensures(Landing::read, (landing, Ok::<Vec<u8>, OpError>(bytes)), step),
    ensures
        step matches LandStep::Write(w) && w.left() == bytes@ && w.offset == (range->0).0
            && w.landing@ == landing@,
        (range->0).0 == landing.index * landing.manifest.chunk_size,
{
}

/// What is written next are the first bytes not written yet, at the place they
/// have in the file; what was taken is not written again, and when a chunk is
/// through the next one is the first behind it that is not there already.
pub proof fn lemma_pieces_go_where_they_belong(
    file: Seq<u8>,
    writing: ChunkWrite,
    piece: &[u8],
    taken: u32,
    step: LandStep,
)
    requires
        writing.wf(),
        writing.offset + writing.left().len() <= file.len() <= u64::MAX,
        writing.left() == file.subrange(
            writing.offset as int,
            writing.offset + writing.left().len(),
        ),
        call_ensures(ChunkWrite::piece, (&writing,), piece),
        0 < taken <= piece@.len(),
        call_ensures(ChunkWrite::wrote, (writing, Ok::<u32, RpcError>(taken)), step),
    ensures
        0 < piece@.len() <= MAX_WRITE_LEN,
        piece@ == file.subrange(writing.offset as int, writing.offset + piece@.len()),
        taken < writing.left().len() ==> (step matches LandStep::Write(w) && w.offset
            == writing.offset + taken && w.left().len() == writing.left().len() - taken && w.left()
            == file.subrange(w.offset as int, w.offset + w.left().len()) && w.landing@.index
            == writing.landing@.index && w.landing@.same == writing.landing@.same
            && w.landing@.manifest == writing.landing@.manifest),
        taken == writing.left().len() ==> ({
            let l = match step@ {
                LandState::Read(l) => l,
                LandState::Truncate(l) => l,
                _ => arbitrary(),
            };
            let before = writing.landing@;
            &&& step is Read || step is Truncate
            &&& l.index > before.index
            &&& forall|i: int| before.index < i < l.index ==> #[trigger] before.same[i]
            &&& step is Read ==> l.index < before.same.len() && !before.same[l.index as int]
            &&& step is Truncate ==> range_of_chunk(before.manifest, l.index as int) is None
        }),
{
    let left = writing.left();
    let from = writing.offset as int;
    let n = piece@.len() as int;
    assert(left.len() > 0);
    assert(piece@ =~= file.subrange(from, from + n));
    if taken < left.len() {
        assert(left.skip(taken as int) =~= file.subrange(from + taken, from + left.len()));
    } else {
        lemma_next_wanted(writing.landing@.same, (writing.landing@.index + 1) as nat);
    }
}

/// The landing that a state is about.
pub open spec fn landing_of(state: LandState) -> Option<LandView> {
    match state {
        LandState::Compare(l) => Some(l),
        LandState::Touch(l) => Some(l),
        LandState::Read(l) => Some(l),
        LandState::Write(l, _, _) => Some(l),
        LandState::Truncate(l) => Some(l),
        LandState::Check(l) => Some(l),
        LandState::Rename(l) => Some(l),
        LandState::Mtime(l) => Some(l),
        LandState::Cleanup(l, _) => Some(l),
        LandState::Done(_, _) => None,
    }
}

/// One landing goes on as the other: it is about the same file, and counts no
/// fewer bytes.
pub open spec fn same_file(before: LandView, after: LandView) -> bool {
    &&& after.destination == before.destination
    &&& after.onto == before.onto
    &&& after.is_new == before.is_new
    &&& after.manifest == before.manifest
    &&& after.written >= before.written
}

proof fn lemma_steps_stay(l: LandView, error: RpcError)
    ensures
        landing_of(go_on(l)) is Some,
        same_file(l, landing_of(go_on(l))->0),
        go_on(l) is Read || go_on(l) is Truncate,
        landing_of(give_up(l, error)) matches Some(after) ==> same_file(l, after),
        l.is_new ==> give_up(l, error) is Cleanup,
        give_up(l, error) is Cleanup || give_up(l, error) is Done,
        !(give_up(l, error) matches LandState::Done(Ok(_), _)),
{
}

proof fn lemma_write_stays(l: LandView, left: Seq<u8>, offset: u64, taken: u32)
    ensures
        landing_of(after_write(l, left, offset, taken)) matches Some(after) ==> same_file(l, after),
        l.is_new ==> !(after_write(l, left, offset, taken) is Done),
        !(after_write(l, left, offset, taken) is Rename),
        !(after_write(l, left, offset, taken) is Mtime),
{
    let piece = piece_len(left.len()) as int;
    let took = if taken > piece {
        piece
    } else {
        taken as int
    };
    let more = LandView { written: capped(l.written, took), ..l };
    lemma_steps_stay(more, RpcError::Remote(OpError::Internal));
    lemma_steps_stay(LandView { index: l.index + 1, ..more }, RpcError::Remote(OpError::Internal));
}

/// Whatever happens, a landing is about the same file under the same name, and
/// fewer bytes are never counted than before. A new file takes its own name
/// only by a rename that follows a check, and a failure of one leaves nothing.
pub proof fn lemma_landing_stays_with_its_file(state: LandState, event: LandEvent)
    ensures
        landing_of(state) is Some && landing_of(landing_after(state, event)) is Some ==> same_file(
            landing_of(state)->0,
            landing_of(landing_after(state, event))->0,
        ),
        landing_after(state, event) is Rename && !(state is Rename) ==> state is Check,
        landing_after(state, event) is Mtime && !(state is Mtime) && landing_of(
            state,
        )->0.is_new ==> state is Rename,
        landing_of(state) is Some && landing_of(state)->0.is_new && (landing_after(
            state,
            event,
        ) matches LandState::Done(Err(_), _)) ==> state is Cleanup,
        state is Done ==> landing_after(state, event) == state,
{
    if let Some(l) = landing_of(state) {
        let problem = RpcError::Remote(OpError::Internal);
        lemma_steps_stay(l, problem);
        lemma_steps_stay(LandView { index: l.index + 1, ..l }, problem);
        match (state, event) {
            (LandState::Compare(_), LandEvent::Manifest(Ok(m))) => {
                let marked = LandView { same: same_chunks(l.manifest, m), index: 0, ..l };
                lemma_steps_stay(marked, problem);
            },
            (LandState::Write(_, left, offset), LandEvent::Wrote(Ok(n))) => {
                lemma_write_stays(l, left, offset, n);
            },
            (_, LandEvent::Manifest(Err(e))) => lemma_steps_stay(l, e),
            (_, LandEvent::Wrote(Err(e))) => lemma_steps_stay(l, e),
            (_, LandEvent::Done(Err(e))) => lemma_steps_stay(l, e),
            (_, LandEvent::Chunk(Err(op))) => lemma_steps_stay(l, RpcError::Remote(op)),
            _ => {},
        }
    }
}

/// A new file is first written under a name of its own beside where it goes,
/// and a changed one is written where it is.
pub proof fn lemma_where_a_landing_writes(
    destination: &RemotePath,
    manifest: Manifest,
    new: LandStep,
    delta: LandStep,
)
    requires
        call_ensures(land_new, (destination, manifest), new),
        call_ensures(land_delta, (destination, manifest), delta),
    ensures
        landing_of(new@) matches Some(l) ==> l.is_new && l.destination == destination@ && components(
            l.onto,
        ) == components(destination@ + ".ferry-part"@) && l.manifest == manifest@ && l.written
            == 0 && l.index == 0,
        landing_of(delta@) matches Some(l) && !l.is_new && l.destination == destination@ && l.onto
            == destination@ && l.manifest == manifest@ && l.written == 0,
        delta@ is Compare,
{
    crate::path::lemma_components_are_names(destination@ + ".ferry-part"@);
    crate::path::lemma_parts_read_back(components(destination@ + ".ferry-part"@));
    let l = LandView {
        destination: destination@,
        onto: joined(components(partial_text(destination@))),
        is_new: true,
        manifest: manifest@,
        same: none_same(manifest@),
        index: 0,
        written: 0,
    };
    lemma_next_wanted(l.same, 0);
}

/// Bytes that were reserved in the spool are counted until they are released,
/// and a full spool reserves none.
pub proof fn lemma_spool_is_counted(
    spool: &mut SpoolBytes,
    len: u64,
    name: String,
    made: Result<String, SpoolError>,
    then: &mut SpoolBytes,
)
    requires
        old(spool).counted() + len <= u64::MAX,
        call_ensures(SpoolBytes::reserve_with, (spool, len, Some(name)), made),
        *old(then) == *final(spool),
        call_ensures(SpoolBytes::release, (then, len), ()),
    ensures
        old(spool).counted() < MAX_SPOOL_BYTES ==> made == Ok::<String, SpoolError>(name) && final(
            spool).counted() == old(spool).counted() + len && final(then).counted() == old(
            spool).counted(),
        old(spool).counted() >= MAX_SPOOL_BYTES ==> made == Err::<String, SpoolError>(
            SpoolError::Full,
        ) && final(spool).counted() == old(spool).counted(),
{
}

} // verus!
