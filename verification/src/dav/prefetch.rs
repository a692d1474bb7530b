//! Reading the heads of a listing's images ahead of time, so that the
//! thumbnails of a folder that was just listed cost nothing on the wire.

use crate::dav::heads::{
    holds_key, image_name, is_image, HeadCache, HeadKey, HeadView, Job, Target, TargetView,
    HEAD_LEN,
};
use crate::dav::handlers::write::{path_of, target_path};
use crate::dav::reply::{log_of, Logged, LoggedView};
use crate::limits::{MAX_READS_PER_CHUNK, MAX_READ_LEN};
use crate::path::RemotePath;
use crate::types::AccessVerb;
use vstd::prelude::*;

verus! {

/// What the reading of one head asks for next.
#[derive(Debug, Clone, Copy, PartialEq, Eq, Structural)]
pub enum HeadAsk {
    /// The bridge is stopping: there is no head.
    Stopped,
    /// A read at this offset, of at most this many bytes.
    Read(u64, u32),
    /// The head is there, whole or short.
    Done,
}

/// The first bytes of one file, being read.
#[derive(Debug)]
pub struct HeadRead {
    want: u64,
    head: Vec<u8>,
    reads: u32,
    ended: bool,
}

impl HeadRead {
    /// How many bytes are wanted.
    pub closed spec fn wanted(self) -> u64 {
        self.want
    }

    /// The bytes that have come.
    pub closed spec fn so_far(self) -> Seq<u8> {
        self.head@
    }

    /// How many reads were made.
    pub closed spec fn made(self) -> nat {
        self.reads as nat
    }

    /// A read came back empty.
    pub closed spec fn has_ended(self) -> bool {
        self.ended
    }

    /// What is asked for next.
    pub open spec fn asks(self, running: bool) -> HeadAsk {
        if self.has_ended() || self.made() >= MAX_READS_PER_CHUNK {
            HeadAsk::Done
        } else if !running {
            HeadAsk::Stopped
        } else if self.so_far().len() >= self.wanted() {
            HeadAsk::Done
        } else {
            HeadAsk::Read(
                self.so_far().len() as u64,
                if self.wanted() - self.so_far().len() > MAX_READ_LEN {
                    MAX_READ_LEN
                } else {
                    (self.wanted() - self.so_far().len()) as u32
                },
            )
        }
    }

    /// Nothing has been read.
    pub fn new(want: u64) -> (reading: HeadRead)
        ensures
            reading.wanted() == want,
            reading.so_far().len() == 0,
            reading.made() == 0,
            !reading.has_ended(),
    {
        HeadRead { want, head: Vec::new(), reads: 0, ended: false }
    }

    /// What is asked for next: at most [`MAX_READS_PER_CHUNK`] reads are
    /// made, and none once the bridge is stopping.
    pub fn next(&self, running: bool) -> (ask: HeadAsk)
        ensures
            ask == self.asks(running),
    {
        if self.ended || self.reads >= MAX_READS_PER_CHUNK {
            return HeadAsk::Done;
        }
        if !running {
            return HeadAsk::Stopped;
        }
        let have: u64 = self.head.len() as u64;
        if have >= self.want {
            return HeadAsk::Done;
        }
        let left: u64 = self.want - have;
        if left > MAX_READ_LEN as u64 {
            HeadAsk::Read(have, MAX_READ_LEN)
        } else {
            HeadAsk::Read(have, left as u32)
        }
    }

    /// A read was answered.
    pub fn read(&mut self, bytes: Vec<u8>)
        ensures
            final(self).wanted() == old(self).wanted(),
            final(self).so_far() == old(self).so_far() + bytes@,
            final(self).made() == (if old(self).made() < u32::MAX {
                old(self).made() + 1
            } else {
                old(self).made()
            }),
            final(self).has_ended() == (old(self).has_ended() || bytes@.len() == 0),
    {
        let ghost before = self.head@;
        self.reads = self.reads.saturating_add(1);
        if bytes.len() == 0 {
            self.ended = true;
        }
        let mut bytes = bytes;
        let ghost new = bytes@;
        self.head.append(&mut bytes);
        assert(self.head@ =~= before + new);
    }

    /// The bytes that came.
    pub fn into_head(self) -> (head: Vec<u8>)
        ensures
            head@ == self.so_far(),
    {
        self.head
    }
}

/// How many bytes of a file's head are wanted.
pub open spec fn head_len(size: u64) -> u64 {
    if size < HEAD_LEN {
        size
    } else {
        HEAD_LEN
    }
}

/// A file whose head is to be read: an image that is not kept already, that
/// is not empty, and whose target reads as a path.
pub open spec fn to_read(file: TargetView, heads: Seq<HeadView>) -> bool {
    &&& image_name(file.name)
    &&& !holds_key(
        heads,
        HeadKey {
            target: file.path,
            size: file.size,
            modified_unix_secs: file.modified_unix_secs,
        },
    )
    &&& head_len(file.size) > 0
    &&& path_of(file.path) is Some
}

/// The first file from `at` on whose head is to be read.
pub open spec fn next_target(files: Seq<TargetView>, at: nat, heads: Seq<HeadView>) -> nat
    decreases files.len() - at,
{
    if at < files.len() && !to_read(files[at as int], heads) {
        next_target(files, at + 1, heads)
    } else {
        at
    }
}

/// One listing, whose images' heads are read.
pub struct PrefetchRun {
    pub folder: String,
    pub files: Vec<Target>,
    /// The file that comes next.
    pub at: usize,
    /// How many heads were read.
    pub read_files: u32,
    /// How many bytes they take.
    pub read_bytes: u64,
}

/// What the prefetch of one listing comes to next.
pub enum PrefetchStep {
    /// It is over, with this entry for the access log.
    Done(Option<Logged>),
    /// Read the head of one file. Where no connection to the device can be
    /// had, the rest of the listing is dropped.
    Read(PrefetchRead),
}

/// One file whose head is being read.
pub struct PrefetchRead {
    pub run: PrefetchRun,
    pub path: RemotePath,
    pub reading: HeadRead,
}

/// The entry that one listing's prefetch leaves: none where nothing was read.
pub open spec fn prefetch_log(folder: Seq<char>, files: u32, bytes: u64) -> Option<LoggedView> {
    if files > 0 {
        Some(
            LoggedView {
                bytes: Some(bytes),
                files: Some(files),
                ..log_of(AccessVerb::Read, folder)
            },
        )
    } else {
        None
    }
}

/// What an optional entry says.
pub open spec fn opt_logged(logged: Option<Logged>) -> Option<LoggedView> {
    match logged {
        Some(l) => Some(l@),
        None => None,
    }
}

impl PrefetchRun {
    pub open spec fn wf(self) -> bool {
        self.at <= self.files@.len()
    }

    /// What is known of the files.
    pub open spec fn targets(self) -> Seq<TargetView> {
        crate::dav::heads::target_views(self.files@)
    }

    /// A listing at its start.
    pub fn new(job: Job) -> (run: PrefetchRun)
        ensures
            run.wf(),
            run.folder@ == job.folder@,
            run.files == job.files,
            run.at == 0,
            run.read_files == 0,
            run.read_bytes == 0,
    {
        PrefetchRun { folder: job.folder, files: job.files, at: 0, read_files: 0, read_bytes: 0 }
    }

    /// The prefetch ends here.
    pub fn end(self) -> (logged: Option<Logged>)
        ensures
            opt_logged(logged) == prefetch_log(self.folder@, self.read_files, self.read_bytes),
    {
        if self.read_files > 0 {
            Some(
                Logged {
                    verb: AccessVerb::Read,
                    path: self.folder,
                    bytes: Some(self.read_bytes),
                    entries: None,
                    files: Some(self.read_files),
                },
            )
        } else {
            None
        }
    }

    /// What comes next: the next file whose head is to be read, or the end.
    pub fn next(self, running: bool, heads: &HeadCache) -> (step: PrefetchStep)
        requires
            self.wf(),
        ensures
            ({
                let at = next_target(self.targets(), self.at as nat, heads@);
                if running && at < self.files@.len() {
                    step matches PrefetchStep::Read(r) && r.run.wf() && r.run == (PrefetchRun {
                        at: r.run.at,
                        ..self
                    }) && r.run.at == at && Some(r.path@) == path_of(self.targets()[at as int].path)
                        && r.reading.wanted() == head_len(self.targets()[at as int].size)
                        && r.reading.so_far().len() == 0 && r.reading.made() == 0
                        && !r.reading.has_ended()
                } else {
                    step matches PrefetchStep::Done(l) && opt_logged(l) == prefetch_log(
                        self.folder@,
                        self.read_files,
                        self.read_bytes,
                    )
                }
            }),
    {
        let mut run = self;
        let ghost start = self.at as nat;
        if !running {
            return PrefetchStep::Done(run.end());
        }
        while run.at < run.files.len()
            invariant
                run.wf(),
                run == (PrefetchRun { at: run.at, ..self }),
                next_target(self.targets(), start, heads@) == next_target(
                    self.targets(),
                    run.at as nat,
                    heads@,
                ),
                start == self.at,
                running,
            decreases run.files.len() - run.at,
        {
            let file = &run.files[run.at];
            assert(self.targets()[run.at as int] == file@);
            let want: u64 = if file.size < HEAD_LEN {
                file.size
            } else {
                HEAD_LEN
            };
            if is_image(file.name.as_str()) && !heads.holds(
                file.path.as_str(),
                file.size,
                file.modified_unix_secs,
            ) && want > 0 {
                match target_path(file.path.as_str()) {
                    Some(path) => {
                        return PrefetchStep::Read(
                            PrefetchRead { run, path, reading: HeadRead::new(want) },
                        );
                    },
                    None => {},
                }
            }
            run.at = run.at + 1;
        }
        PrefetchStep::Done(run.end())
    }
}

impl PrefetchRead {
    /// There is a file, and its head is being read.
    pub open spec fn wf(self) -> bool {
        self.run.at < self.run.files@.len()
    }

    /// The reading of this head is over; `read` says whether every read was
    /// answered and the bridge kept running. A head that is not as long as
    /// the listing said is not kept: the file changed meanwhile.
    pub fn finished(self, read: bool, heads: &mut HeadCache) -> (run: PrefetchRun)
        requires
            self.wf(),
            old(heads).wf(),
        ensures
            final(heads).wf(),
            final(heads).limit() == old(heads).limit(),
            run.wf(),
            run.at == self.run.at + 1,
            run.folder == self.run.folder,
            run.files == self.run.files,
            ({
                let file = self.run.targets()[self.run.at as int];
                if read && self.reading.so_far().len() == head_len(file.size) {
                    &&& run.read_files == (if self.run.read_files == u32::MAX {
                        u32::MAX
                    } else {
                        (self.run.read_files + 1) as u32
                    })
                    &&& run.read_bytes == (if self.run.read_bytes + head_len(file.size)
                        > u64::MAX {
                        u64::MAX
                    } else {
                        (self.run.read_bytes + head_len(file.size)) as u64
                    })
                    &&& final(heads)@ == crate::dav::heads::after_put(
                        old(heads)@,
                        HeadKey {
                            target: file.path,
                            size: file.size,
                            modified_unix_secs: file.modified_unix_secs,
                        },
                        self.reading.so_far(),
                        old(heads).limit() as nat,
                    )
                } else {
                    run.read_files == self.run.read_files && run.read_bytes
                        == self.run.read_bytes && final(heads)@ == old(heads)@
                }
            }),
    {
        let PrefetchRead { run, path, reading } = self;
        let mut run = run;
        let index: usize = run.at;
        let count: usize = run.files.len();
        assert(index < count);
        assert(run.targets()[index as int] == run.files@[index as int]@);
        let want: u64 = if run.files[index].size < HEAD_LEN {
            run.files[index].size
        } else {
            HEAD_LEN
        };
        run.at = index + 1;
        let head = reading.into_head();
        if read && head.len() as u64 == want {
            run.read_bytes = run.read_bytes.saturating_add(want);
            run.read_files = run.read_files.saturating_add(1);
            let file = &run.files[index];
            heads.put(file.path.as_str(), file.size, file.modified_unix_secs, head);
        }
        run
    }
}

/// A head takes no more than [`MAX_READS_PER_CHUNK`] reads, however short
/// each of them is, and a bridge that is stopping makes none.
pub proof fn lemma_reads_bounded(reading: HeadRead, running: bool)
    requires
        reading.made() >= MAX_READS_PER_CHUNK || !running,
    ensures
        !(reading.asks(running) is Read),
{
}

/// What is read of a head are the first bytes of the file, each once: the next
/// piece begins where the last one ended and does not reach past what is
/// wanted, and with nothing left to read the head is what the file begins with.
pub proof fn lemma_head_is_the_beginning(
    reading: HeadRead,
    file: Seq<u8>,
    running: bool,
    ask: HeadAsk,
    more: &mut HeadRead,
    bytes: Vec<u8>,
)
    requires
        reading.wanted() <= file.len() <= u64::MAX,
        reading.so_far().len() <= reading.wanted(),
        reading.so_far() == file.take(reading.so_far().len() as int),
        call_ensures(HeadRead::next, (&reading, running), ask),
        *old(more) == reading,
        call_ensures(HeadRead::read, (more, bytes), ()),
        ask matches HeadAsk::Read(offset, len) ==> bytes@.len() <= len && bytes@ == file.subrange(
            offset as int,
            offset + bytes@.len(),
        ),
    ensures
        ask matches HeadAsk::Read(offset, len) ==> offset == reading.so_far().len() && len > 0
            && offset + len <= reading.wanted() && final(more).so_far() == file.take(
            final(more).so_far().len() as int,
        ) && final(more).so_far().len() <= final(more).wanted(),
        running && !reading.has_ended() && reading.made() < MAX_READS_PER_CHUNK
            && reading.so_far().len() < reading.wanted() ==> ask is Read,
{
    if let HeadAsk::Read(offset, len) = ask {
        let n = offset + bytes@.len();
        assert(file.take(offset as int) + file.subrange(offset as int, n) =~= file.take(n));
    }
}

/// A head that was read whole is kept for the file it is of, and counted; one
/// that was not is neither.
pub proof fn lemma_read_head_is_kept(
    reading: PrefetchRead,
    read: bool,
    heads: &mut HeadCache,
    run: PrefetchRun,
)
    requires
        reading.wf(),
        old(heads).wf(),
        HEAD_LEN <= old(heads).limit(),
        call_ensures(PrefetchRead::finished, (reading, read, heads), run),
        !holds_key(
            old(heads)@,
            HeadKey {
                target: reading.run.targets()[reading.run.at as int].path,
                size: reading.run.targets()[reading.run.at as int].size,
                modified_unix_secs: reading.run.targets()[reading.run.at as
                int].modified_unix_secs,
            },
        ),
    ensures
        ({
            let file = reading.run.targets()[reading.run.at as int];
            let key = HeadKey {
                target: file.path,
                size: file.size,
                modified_unix_secs: file.modified_unix_secs,
            };
            let whole = read && reading.reading.so_far().len() == head_len(file.size);
            &&& holds_key(final(heads)@, key) <==> whole
            &&& !whole ==> run.read_files == reading.run.read_files && run.read_bytes
                == reading.run.read_bytes
            &&& whole && reading.run.read_files < u32::MAX ==> run.read_files
                == reading.run.read_files + 1
        }),
        run.at == reading.run.at + 1,
{
    let file = reading.run.targets()[reading.run.at as int];
    let key = HeadKey {
        target: file.path,
        size: file.size,
        modified_unix_secs: file.modified_unix_secs,
    };
    if read && reading.reading.so_far().len() == head_len(file.size) {
        crate::dav::heads::lemma_put_then_held(
            old(heads)@,
            key,
            reading.reading.so_far(),
            old(heads).limit() as nat,
        );
    }
}

/// A folder's heads are read for its images, one after the other from the
/// first, and for no file whose head is held.
pub proof fn lemma_images_are_read_in_turn(
    run: PrefetchRun,
    running: bool,
    heads: &HeadCache,
    step: PrefetchStep,
)
    requires
        run.wf(),
        call_ensures(PrefetchRun::next, (run, running, heads), step),
    ensures
        step matches PrefetchStep::Read(r) ==> running && run.at <= r.run.at && to_read(
            run.targets()[r.run.at as int],
            heads@,
        ) && Some(r.path@) == path_of(run.targets()[r.run.at as int].path) && (forall|i: int|
            run.at <= i < r.run.at ==> !to_read(#[trigger] run.targets()[i], heads@)),
        step is Done && running ==> (forall|i: int|
            run.at <= i < run.targets().len() ==> !to_read(#[trigger] run.targets()[i], heads@)),
{
    lemma_next_target(run.targets(), run.at as nat, heads@);
}

proof fn lemma_next_target(files: Seq<TargetView>, at: nat, heads: Seq<HeadView>)
    requires
        at <= files.len(),
    ensures
        at <= next_target(files, at, heads) <= files.len(),
        next_target(files, at, heads) < files.len() ==> to_read(
            files[next_target(files, at, heads) as int],
            heads,
        ),
        forall|i: int|
            at <= i < next_target(files, at, heads) ==> !to_read(#[trigger] files[i], heads),
    decreases files.len() - at,
{
    if at < files.len() && !to_read(files[at as int], heads) {
        lemma_next_target(files, at + 1, heads);
    }
}

} // verus!
