//! The heads of recently listed images, and the listing whose heads are read
//! next.
//!
//! Finder asks for the first bytes of every photo of a folder it opens. A
//! head is filed under the file's target together with the size and the
//! modified time the listing reported, so a saved or replaced file misses on
//! its own. The cache is bounded in bytes, first in first out.

use crate::seqs::at_most;
use crate::text::{
    chars_of, copy_of, last_index, lower_all, lowered, rfind_char, same_text, text_of,
};
use crate::types::{Entry, EntryKind};
use vstd::prelude::*;
use vstd::slice::slice_subrange;

verus! {

/// How many bytes of a file's start are kept.
pub const HEAD_LEN: u64 = 65_536;

/// How many bytes of heads one bridge keeps at once.
pub const HEAD_CACHE_BYTES: usize = 33_554_432;

/// The most files one listing hands to the prefetch.
pub const PREFETCH_MAX_FILES: usize = 512;

/// The extensions of images, in lower case.
pub open spec fn image_extension(extension: Seq<char>) -> bool {
    ||| extension == "jpg"@
    ||| extension == "jpeg"@
    ||| extension == "png"@
    ||| extension == "heic"@
    ||| extension == "heif"@
    ||| extension == "gif"@
    ||| extension == "webp"@
    ||| extension == "tif"@
    ||| extension == "tiff"@
    ||| extension == "bmp"@
    ||| extension == "dng"@
    ||| extension == "cr2"@
    ||| extension == "nef"@
    ||| extension == "arw"@
}

/// A name that ends in the extension of an image, in whatever case. A name
/// with no dot in it is none.
pub open spec fn image_name(name: Seq<char>) -> bool {
    last_index(name, '.') >= 0 && image_extension(lower_all(name.skip(last_index(name, '.') + 1)))
}

/// Whether `name` ends in the extension of an image.
pub fn is_image(name: &str) -> (image: bool)
    ensures
        image == image_name(name@),
{
    let all = chars_of(name);
    let chars = all.as_slice();
    let len: usize = chars.len();
    match rfind_char(chars, '.') {
        None => false,
        Some(i) => {
            let ext = slice_subrange(chars, i + 1, len);
            assert(ext@ =~= name@.skip(i + 1));
            let low = lowered(ext);
            let text = text_of(low.as_slice());
            let e = text.as_str();
            same_text(e, "jpg") || same_text(e, "jpeg") || same_text(e, "png") || same_text(
                e,
                "heic",
            ) || same_text(e, "heif") || same_text(e, "gif") || same_text(e, "webp") || same_text(
                e,
                "tif",
            ) || same_text(e, "tiff") || same_text(e, "bmp") || same_text(e, "dng") || same_text(
                e,
                "cr2",
            ) || same_text(e, "nef") || same_text(e, "arw")
        },
    }
}

/// One kept head, and what it is filed under.
#[derive(Debug)]
struct Head {
    target: String,
    size: u64,
    modified_unix_secs: i64,
    bytes: Vec<u8>,
}

/// What a head is filed under.
pub struct HeadKey {
    pub target: Seq<char>,
    pub size: u64,
    pub modified_unix_secs: i64,
}

/// What is known of one kept head.
pub struct HeadView {
    pub key: HeadKey,
    pub bytes: Seq<u8>,
}

impl View for Head {
    type V = HeadView;

    closed spec fn view(&self) -> HeadView {
        HeadView {
            key: HeadKey {
                target: self.target@,
                size: self.size,
                modified_unix_secs: self.modified_unix_secs,
            },
            bytes: self.bytes@,
        }
    }
}

/// The first bytes of recently listed images. Its view is the heads, in the
/// order they were put in.
#[derive(Debug)]
pub struct HeadCache {
    limit_bytes: usize,
    heads: Vec<Head>,
    bytes: usize,
}

impl View for HeadCache {
    type V = Seq<HeadView>;

    closed spec fn view(&self) -> Seq<HeadView> {
        self.heads@.map_values(|h: Head| h@)
    }
}

/// The bytes that some heads take.
pub open spec fn bytes_of(heads: Seq<HeadView>) -> nat
    decreases heads.len(),
{
    if heads.len() == 0 {
        0
    } else {
        bytes_of(heads.drop_last()) + heads.last().bytes.len()
    }
}

/// Where a head for `key` stands.
pub open spec fn holds_at(heads: Seq<HeadView>, key: HeadKey, at: int) -> bool {
    0 <= at < heads.len() && heads[at].key == key
}

/// A head for `key` is kept.
pub open spec fn holds_key(heads: Seq<HeadView>, key: HeadKey) -> bool {
    exists|at: int| holds_at(heads, key, at)
}

/// `heads` without its oldest ones, as few as leave no more than `limit`
/// bytes.
pub open spec fn within(heads: Seq<HeadView>, limit: nat) -> Seq<HeadView>
    decreases heads.len(),
{
    if heads.len() == 0 || bytes_of(heads) <= limit {
        heads
    } else {
        within(heads.drop_first(), limit)
    }
}

proof fn lemma_bytes_front(heads: Seq<HeadView>)
    requires
        heads.len() > 0,
    ensures
        bytes_of(heads) == heads[0].bytes.len() + bytes_of(heads.drop_first()),
    decreases heads.len(),
{
    if heads.len() > 1 {
        lemma_bytes_front(heads.drop_last());
        assert(heads.drop_last().drop_first() =~= heads.drop_first().drop_last());
        assert(heads.drop_first().last() == heads.last());
    } else {
        assert(heads.drop_first() =~= Seq::<HeadView>::empty());
        assert(heads.drop_last() =~= Seq::<HeadView>::empty());
    }
}

/// What is kept fits the limit, and is the end of what there was.
pub proof fn lemma_within(heads: Seq<HeadView>, limit: nat)
    ensures
        within(heads, limit).len() <= heads.len(),
        bytes_of(within(heads, limit)) <= limit,
        within(heads, limit) == heads.skip(heads.len() - within(heads, limit).len()),
    decreases heads.len(),
{
    if heads.len() == 0 || bytes_of(heads) <= limit {
        assert(heads.skip(0) =~= heads);
    } else {
        lemma_within(heads.drop_first(), limit);
        let kept = within(heads, limit);
        assert(heads.drop_first().skip(heads.len() - 1 - kept.len()) =~= heads.skip(
            heads.len() - kept.len(),
        ));
    }
}

/// The heads after one more is put in: one that is kept already stays, and
/// the oldest go where there are too many.
pub open spec fn after_put(
    heads: Seq<HeadView>,
    key: HeadKey,
    bytes: Seq<u8>,
    limit: nat,
) -> Seq<HeadView> {
    if holds_key(heads, key) {
        heads
    } else {
        within(heads.push(HeadView { key, bytes }), limit)
    }
}

impl HeadCache {
    /// The bytes are counted, fit the limit, and no key is kept twice.
    pub closed spec fn wf(self) -> bool {
        &&& self.bytes == bytes_of(self@)
        &&& self.bytes <= self.limit_bytes
        &&& forall|i: int, j: int|
            0 <= i < j < self@.len() ==> (#[trigger] self@[i]).key != (#[trigger] self@[j]).key
    }

    pub closed spec fn limit(self) -> usize {
        self.limit_bytes
    }

    /// An empty cache of [`HEAD_CACHE_BYTES`].
    pub fn new() -> (cache: HeadCache)
        ensures
            cache.wf(),
            cache@.len() == 0,
            cache.limit() == HEAD_CACHE_BYTES,
    {
        HeadCache::with_limit(HEAD_CACHE_BYTES)
    }

    /// An empty cache with its own limit.
    pub fn with_limit(limit_bytes: usize) -> (cache: HeadCache)
        ensures
            cache.wf(),
            cache@.len() == 0,
            cache.limit() == limit_bytes,
    {
        HeadCache { limit_bytes, heads: Vec::new(), bytes: 0 }
    }

    /// The place of the head for exactly this target, size and time.
    fn find(&self, target: &str, size: u64, modified_unix_secs: i64) -> (at: Option<usize>)
        ensures
            ({
                let key = HeadKey { target: target@, size, modified_unix_secs };
                match at {
                    Some(i) => holds_at(self@, key, i as int),
                    None => !holds_key(self@, key),
                }
            }),
    {
        let ghost key = HeadKey { target: target@, size, modified_unix_secs };
        let mut i: usize = 0;
        while i < self.heads.len()
            invariant
                i <= self.heads.len(),
                key == (HeadKey { target: target@, size, modified_unix_secs }),
                forall|j: int| 0 <= j < i ==> !holds_at(self@, key, j),
            decreases self.heads.len() - i,
        {
            let head = &self.heads[i];
            assert(self@[i as int] == head@);
            if head.size == size && head.modified_unix_secs == modified_unix_secs && same_text(
                head.target.as_str(),
                target,
            ) {
                return Some(i);
            }
            i += 1;
        }
        None
    }

    /// The head of `target`, where one was put in for exactly this size and
    /// modified time.
    pub fn get(&self, target: &str, size: u64, modified_unix_secs: i64) -> (head: Option<&Vec<u8>>)
        ensures
            ({
                let key = HeadKey { target: target@, size, modified_unix_secs };
                match head {
                    Some(b) => exists|at: int| holds_at(self@, key, at) && self@[at].bytes == b@,
                    None => !holds_key(self@, key),
                }
            }),
    {
        match self.find(target, size, modified_unix_secs) {
            Some(i) => {
                assert(self@[i as int].bytes == self.heads@[i as int].bytes@);
                Some(&self.heads[i].bytes)
            },
            None => None,
        }
    }

    /// Whether a head is kept for exactly this size and modified time.
    pub fn holds(&self, target: &str, size: u64, modified_unix_secs: i64) -> (held: bool)
        ensures
            held == holds_key(self@, HeadKey { target: target@, size, modified_unix_secs }),
    {
        self.find(target, size, modified_unix_secs).is_some()
    }

    /// Keeps `head` for `target`, and drops the oldest heads until the cache
    /// is within its limit. A key that is kept already is left as it is.
    pub fn put(&mut self, target: &str, size: u64, modified_unix_secs: i64, head: Vec<u8>)
        requires
            old(self).wf(),
        ensures
            final(self).wf(),
            final(self).limit() == old(self).limit(),
            final(self)@ == after_put(
                old(self)@,
                HeadKey { target: target@, size, modified_unix_secs },
                head@,
                old(self).limit() as nat,
            ),
    {
        let ghost key = HeadKey { target: target@, size, modified_unix_secs };
        let ghost new_head = HeadView { key, bytes: head@ };
        if self.holds(target, size, modified_unix_secs) {
            return ;
        }
        let ghost all = self@.push(new_head);
        let limit: usize = self.limit_bytes;
        if head.len() > limit {
            self.heads.clear();
            self.bytes = 0;
            proof {
                lemma_too_big(all, limit as nat);
                assert(self@ =~= within(all, limit as nat));
            }
            return ;
        }
        let room: usize = limit - head.len();
        assert(all.drop_last() =~= self@);
        while self.bytes > room
            invariant
                self.limit_bytes == limit,
                old(self).limit_bytes == limit,
                room == limit - new_head.bytes.len(),
                self.bytes == bytes_of(self@),
                self.bytes <= limit,
                within(self@.push(new_head), limit as nat) == within(all, limit as nat),
                !holds_key(self@, key),
                new_head.key == key,
                forall|i: int, j: int|
                    0 <= i < j < self@.len() ==> (#[trigger] self@[i]).key != (
                    #[trigger] self@[j]).key,
            decreases self.heads@.len(),
        {
            let ghost before = self@;
            proof {
                assert(self@.push(new_head).drop_last() =~= self@);
                assert(bytes_of(self@.push(new_head)) == bytes_of(self@) + new_head.bytes.len());
                lemma_bytes_front(before);
                assert(before.push(new_head).drop_first() =~= before.drop_first().push(new_head));
            }
            let oldest = self.heads.remove(0);
            self.bytes = self.bytes - oldest.bytes.len();
            proof {
                assert(self@ =~= before.drop_first());
                assert forall|at: int| !holds_at(self@, key, at) by {
                    if holds_at(self@, key, at) {
                        assert(holds_at(before, key, at + 1));
                    }
                }
                assert forall|i: int, j: int| 0 <= i < j < self@.len() implies (
                #[trigger] self@[i]).key != (#[trigger] self@[j]).key by {
                    assert(before[i + 1] == self@[i]);
                    assert(before[j + 1] == self@[j]);
                }
            }
        }
        let ghost before = self@;
        self.bytes = self.bytes + head.len();
        self.heads.push(Head { target: copy_of(target), size, modified_unix_secs, bytes: head });
        proof {
            assert(self@ =~= before.push(new_head));
            assert(self@.drop_last() =~= before);
            assert forall|i: int, j: int| 0 <= i < j < self@.len() implies (
            #[trigger] self@[i]).key != (#[trigger] self@[j]).key by {
                if j == before.len() {
                    assert(!holds_at(before, key, i));
                    assert(before[i] == self@[i]);
                } else {
                    assert(before[i] == self@[i]);
                    assert(before[j] == self@[j]);
                }
            }
        }
    }
}

/// A head over the limit leaves nothing behind.
proof fn lemma_too_big(heads: Seq<HeadView>, limit: nat)
    requires
        heads.len() > 0 ==> heads.last().bytes.len() > limit,
    ensures
        within(heads, limit).len() == 0,
    decreases heads.len(),
{
    if heads.len() > 0 {
        assert(bytes_of(heads) > limit);
        lemma_too_big(heads.drop_first(), limit);
    }
}

/// A head that was just put in is read back, for the key it was put in with,
/// where it fits the limit and no head was kept for the key.
pub proof fn lemma_put_then_held(heads: Seq<HeadView>, key: HeadKey, bytes: Seq<u8>, limit: nat)
    requires
        bytes.len() <= limit,
    ensures
        ({
            let kept = within(heads.push(HeadView { key, bytes }), limit);
            kept.len() > 0 && kept.last() == (HeadView { key, bytes }) && holds_key(kept, key)
        }),
    decreases heads.len(),
{
    let new_head = HeadView { key, bytes };
    let all = heads.push(new_head);
    let kept = within(all, limit);
    lemma_within(all, limit);
    if kept.len() == 0 {
        lemma_not_emptied(heads, new_head, limit);
    }
    assert(kept.last() == all.last());
    assert(holds_at(kept, key, kept.len() - 1));
}

proof fn lemma_not_emptied(heads: Seq<HeadView>, new_head: HeadView, limit: nat)
    requires
        new_head.bytes.len() <= limit,
    ensures
        within(heads.push(new_head), limit).len() > 0,
    decreases heads.len(),
{
    let all = heads.push(new_head);
    if bytes_of(all) > limit {
        if heads.len() == 0 {
            assert(all.drop_last() =~= Seq::<HeadView>::empty());
            assert(bytes_of(all.drop_last()) == 0);
            assert(all.last() == new_head);
            assert(bytes_of(all) == new_head.bytes.len());
        } else {
            lemma_not_emptied(heads.drop_first(), new_head, limit);
            assert(all.drop_first() =~= heads.drop_first().push(new_head));
        }
    }
}

// ---------------------------------------------------------------------------
// The queue.
// ---------------------------------------------------------------------------

/// One file whose head may be read, as the listing described it.
#[derive(Debug)]
pub struct Target {
    /// The file's target, which is also what its head is filed under.
    pub path: String,
    pub name: String,
    pub size: u64,
    pub modified_unix_secs: i64,
}

/// What is known of one target.
pub struct TargetView {
    pub path: Seq<char>,
    pub name: Seq<char>,
    pub size: u64,
    pub modified_unix_secs: i64,
}

impl View for Target {
    type V = TargetView;

    open spec fn view(&self) -> TargetView {
        TargetView {
            path: self.path@,
            name: self.name@,
            size: self.size,
            modified_unix_secs: self.modified_unix_secs,
        }
    }
}

/// The targets of a job.
pub open spec fn target_views(files: Seq<Target>) -> Seq<TargetView> {
    files.map_values(|t: Target| t@)
}

/// One listing's worth of work.
#[derive(Debug)]
pub struct Job {
    /// The folder, which the access log entry names.
    pub folder: String,
    pub files: Vec<Target>,
}

/// A listed child: its target, and what the listing says of it.
pub struct Child {
    pub path: String,
    pub entry: Entry,
}

/// The files among `children`, in order.
pub open spec fn files_among(children: Seq<Child>) -> Seq<TargetView>
    decreases children.len(),
{
    if children.len() == 0 {
        Seq::empty()
    } else {
        let rest = files_among(children.drop_last());
        let c = children.last();
        if c.entry.kind == EntryKind::File {
            rest.push(
                TargetView {
                    path: c.path@,
                    name: c.entry.name@,
                    size: c.entry.size,
                    modified_unix_secs: c.entry.modified_unix_secs,
                },
            )
        } else {
            rest
        }
    }
}

/// The files of a listing, cut to [`PREFETCH_MAX_FILES`].
fn listed_files(children: &[Child]) -> (files: Vec<Target>)
    ensures
        target_views(files@) == at_most(files_among(children@), PREFETCH_MAX_FILES as int),
{
    let mut files: Vec<Target> = Vec::new();
    let mut i: usize = 0;
    assert(children@.take(0) =~= Seq::<Child>::empty());
    assert(target_views(files@) =~= at_most(
        files_among(children@.take(0)),
        PREFETCH_MAX_FILES as int,
    ));
    while i < children.len()
        invariant
            i <= children.len(),
            target_views(files@) == at_most(
                files_among(children@.take(i as int)),
                PREFETCH_MAX_FILES as int,
            ),
        decreases children.len() - i,
    {
        let child = &children[i];
        let ghost before = files_among(children@.take(i as int));
        let ghost files_before = target_views(files@);
        i += 1;
        assert(children@.take(i as int).drop_last() =~= children@.take(i - 1));
        assert(children@.take(i as int).last() == *child);
        let is_file = match child.entry.kind {
            EntryKind::File => true,
            EntryKind::Directory => false,
        };
        if is_file && files.len() < PREFETCH_MAX_FILES {
            let target = Target {
                path: copy_of(child.path.as_str()),
                name: copy_of(child.entry.name.as_str()),
                size: child.entry.size,
                modified_unix_secs: child.entry.modified_unix_secs,
            };
            let ghost t = target@;
            files.push(target);
            assert(target_views(files@) =~= files_before.push(t));
        }
        assert(target_views(files@) =~= at_most(
            files_among(children@.take(i as int)),
            PREFETCH_MAX_FILES as int,
        ));
    }
    assert(children@.take(children@.len() as int) =~= children@);
    files
}

/// What the prefetch should do next.
pub enum Next {
    /// Nothing will come any more.
    Ended,
    /// Nothing has come yet.
    Wait,
    Job(Job),
}

/// The listing whose heads are read next. A new listing replaces one that is
/// still waiting: Finder shows one folder at a time.
#[derive(Debug)]
pub struct Prefetch {
    job: Option<Job>,
    stopped: bool,
}

impl Prefetch {
    pub closed spec fn waiting(self) -> Option<Job> {
        self.job
    }

    pub closed spec fn is_stopped(self) -> bool {
        self.stopped
    }

    /// Nothing is waiting.
    pub fn new() -> (queue: Prefetch)
        ensures
            queue.waiting() is None,
            !queue.is_stopped(),
    {
        Prefetch { job: None, stopped: false }
    }

    /// Hands the files among `children` on as the work for `folder`, in place
    /// of what was waiting. A listing without files leaves the queue as it
    /// is, and so does any listing after the end. Says whether work came in.
    pub fn submit(&mut self, folder: &str, children: &[Child]) -> (accepted: bool)
        ensures
            final(self).is_stopped() == old(self).is_stopped(),
            accepted == (!old(self).is_stopped() && files_among(children@).len() > 0),
            accepted ==> (final(self).waiting() matches Some(job) && job.folder@ == folder@
                && target_views(job.files@) == at_most(
                files_among(children@),
                PREFETCH_MAX_FILES as int,
            )),
            !accepted ==> final(self).waiting() == old(self).waiting(),
    {
        let files = listed_files(children);
        assert(target_views(files@).len() == files@.len());
        if files.len() == 0 || self.stopped {
            return false;
        }
        self.job = Some(Job { folder: copy_of(folder), files });
        true
    }

    /// The work to do next, which leaves the queue.
    pub fn next(&mut self) -> (next: Next)
        ensures
            final(self).is_stopped() == old(self).is_stopped(),
            match next {
                Next::Ended => old(self).is_stopped() && final(self).waiting() == old(self).waiting(),
                Next::Wait => !old(self).is_stopped() && old(self).waiting() is None && final(self).waiting() is None,
                Next::Job(job) => !old(self).is_stopped() && old(self).waiting() == Some(job)
                    && final(self).waiting() is None,
            },
    {
        if self.stopped {
            return Next::Ended;
        }
        match self.job.take() {
            Some(job) => Next::Job(job),
            None => Next::Wait,
        }
    }

    /// Ends the queue. What was waiting is dropped.
    pub fn stop(&mut self)
        ensures
            final(self).is_stopped(),
            final(self).waiting() is None,
    {
        self.stopped = true;
        self.job = None;
    }
}

/// A head that was kept is given back as it was for the same file, and for no
/// other size or time.
pub proof fn lemma_head_is_given_back(
    cache: &mut HeadCache,
    target: &str,
    size: u64,
    modified: i64,
    head: Vec<u8>,
    after: &HeadCache,
    got: Option<&Vec<u8>>,
)
    requires
        old(cache).wf(),
        head@.len() <= old(cache).limit(),
        !holds_key(
            old(cache)@,
            HeadKey { target: target@, size, modified_unix_secs: modified },
        ),
        call_ensures(HeadCache::put, (cache, target, size, modified, head), ()),
        after.wf(),
        after@ == final(cache)@,
        call_ensures(HeadCache::get, (after, target, size, modified), got),
    ensures
        got is Some,
        got->0@ == head@,
{
    let key = HeadKey { target: target@, size, modified_unix_secs: modified };
    let limit = old(cache).limit() as nat;
    lemma_put_then_held(old(cache)@, key, head@, limit);
    let kept = after@;
    assert(holds_at(kept, key, kept.len() - 1));
    let at = choose|at: int| holds_at(kept, key, at) && kept[at].bytes == got->0@;
    assert(kept[at].key == kept[kept.len() - 1].key);
}

/// A name is that of an image by what stands behind its last dot, whatever the
/// case of its letters.
pub proof fn lemma_images_are_told_by_their_ending(
    name: &str,
    image: bool,
    stem: Seq<char>,
    ending: Seq<char>,
)
    requires
        call_ensures(is_image, (name,), image),
        name@ == stem + "."@ + ending,
        !ending.contains('.'),
    ensures
        ({
            let low = lower_all(ending);
            image <==> low == "jpg"@ || low == "jpeg"@ || low == "png"@ || low == "heic"@ || low
                == "heif"@ || low == "gif"@ || low == "webp"@ || low == "tif"@ || low == "tiff"@
                || low == "bmp"@ || low == "dng"@ || low == "cr2"@ || low == "nef"@ || low
                == "arw"@
        }),
{
    reveal_strlit(".");
    let at = stem.len() as int;
    assert(name@[at] == '.');
    assert forall|j: int| at < j < name@.len() implies name@[j] != '.' by {
        assert(name@[j] == ending[j - at - 1]);
        assert(ending.contains(ending[j - at - 1]));
    }
    crate::text::lemma_last_index(name@, '.', at);
    assert(name@.skip(at + 1) =~= ending);
}

proof fn lemma_files_among(children: Seq<Child>, i: int)
    requires
        0 <= i < children.len(),
        children[i].entry.kind == EntryKind::File,
    ensures
        files_among(children).contains(
            TargetView {
                path: children[i].path@,
                name: children[i].entry.name@,
                size: children[i].entry.size,
                modified_unix_secs: children[i].entry.modified_unix_secs,
            },
        ),
    decreases children.len(),
{
    let front = children.drop_last();
    let rest = files_among(front);
    let all = files_among(children);
    if i < front.len() {
        assert(front[i] == children[i]);
        lemma_files_among(front, i);
        let want = TargetView {
            path: children[i].path@,
            name: children[i].entry.name@,
            size: children[i].entry.size,
            modified_unix_secs: children[i].entry.modified_unix_secs,
        };
        let k = choose|k: int| 0 <= k < rest.len() && rest[k] == want;
        assert(all[k] == want);
    } else {
        assert(all[rest.len() as int].path == children[i].path@);
    }
}

/// The files of a folder that is opened are handed to who reads heads, each as
/// it is, unless they are too many; a later folder takes the place of one that
/// still waits, and a reader that stopped is handed nothing.
pub proof fn lemma_opened_folder_is_read(
    prefetch: &mut Prefetch,
    folder: &str,
    children: &[Child],
    accepted: bool,
    then: &mut Prefetch,
    next: Next,
    i: int,
)
    requires
        call_ensures(Prefetch::submit, (prefetch, folder, children), accepted),
        *old(then) == *final(prefetch),
        call_ensures(Prefetch::next, (then,), next),
        0 <= i < children@.len(),
        children@[i].entry.kind == EntryKind::File,
        files_among(children@).len() <= PREFETCH_MAX_FILES,
    ensures
        accepted <==> !old(prefetch).is_stopped(),
        accepted ==> (next matches Next::Job(job) && job.folder@ == folder@ && target_views(
            job.files@,
        ).contains(
            TargetView {
                path: children@[i].path@,
                name: children@[i].entry.name@,
                size: children@[i].entry.size,
                modified_unix_secs: children@[i].entry.modified_unix_secs,
            },
        )),
        !accepted ==> next is Ended,
{
    lemma_files_among(children@, i);
}

/// A head that is put makes room by the oldest alone: what stays are the
/// newest, in their order, and a head that is held already stays as it is.
pub proof fn lemma_oldest_heads_go_first(
    cache: &mut HeadCache,
    target: &str,
    size: u64,
    modified: i64,
    head: Vec<u8>,
)
    requires
        call_ensures(HeadCache::put, (cache, target, size, modified, head), ()),
    ensures
        ({
            let key = HeadKey { target: target@, size, modified_unix_secs: modified };
            let all = old(cache)@.push(HeadView { key, bytes: head@ });
            let kept = final(cache)@;
            &&& holds_key(old(cache)@, key) ==> kept == old(cache)@
            &&& !holds_key(old(cache)@, key) ==> kept.len() <= all.len() && kept == all.skip(
                all.len() - kept.len(),
            ) && bytes_of(kept) <= old(cache).limit()
            &&& !holds_key(old(cache)@, key) && bytes_of(all) <= old(cache).limit() ==> kept == all
        }),
{
    let key = HeadKey { target: target@, size, modified_unix_secs: modified };
    let all = old(cache)@.push(HeadView { key, bytes: head@ });
    lemma_within(all, old(cache).limit() as nat);
}

} // verus!
