//! `GET` and `HEAD`: reading a file, from the kept heads or over the wire.

use crate::core_errors::RpcError;
use crate::calendar::{rfc1123, rfc1123_of};
use crate::dav::cache::Cache;
use crate::dav::handlers::browse::kept_listing;
use crate::dav::handlers::write::{path_of, target_path};
use crate::dav::heads::{holds_at, HeadCache, HeadKey, HeadView};
use crate::dav::http::{etag, etag_of, range_outcome, range_outcome_of, RangeOutcome};
use crate::dav::probes::{last_segment, parent_of, parent_of_path, segment_of};
use crate::dav::put::Reading;
use crate::dav::reply::{
    after_failed_read, answer, just, log_of, only_reply, plain, read_failed, Logged, LoggedView,
    Outcome, Reply, ReplyView,
};
use crate::folder::{copy_entry, entry_views, EntryView};
use crate::path::RemotePath;
use crate::seqs::{first_of, lemma_first_part};
use crate::text::{copy_of, decimal, decimal_text, opt_view, optional, push_decimal, same_text};
use crate::types::{AccessVerb, Entry, EntryKind};
use vstd::prelude::*;
use vstd::slice::{slice_subrange, slice_to_vec};

verus! {

/// What `GET` or `HEAD` comes to next.
pub enum GetStep {
    Answer(Outcome),
    /// Ask what the file is.
    Stat(Get),
    /// Answer with this head, and with a body where there is one.
    Send(Send),
}

/// A file that is asked for.
pub struct Get {
    pub target: String,
    pub path: RemotePath,
    /// Only the head of the answer is asked for.
    pub head_only: bool,
    /// The value of `Range`.
    pub range: Option<String>,
}

/// An answer whose head is known.
pub struct Send {
    pub target: String,
    pub path: RemotePath,
    pub size: u64,
    pub modified_unix_secs: i64,
    pub reply: Reply,
    /// The first byte to send.
    pub start: u64,
    /// The last byte to send.
    pub end: u64,
    /// Whether a body is sent at all.
    pub body: bool,
}

/// What is known of an answer whose head is known.
pub struct SendView {
    pub target: Seq<char>,
    pub path: Seq<char>,
    pub size: u64,
    pub modified_unix_secs: i64,
    pub reply: ReplyView,
    pub start: u64,
    pub end: u64,
    pub body: bool,
}

impl View for Send {
    type V = SendView;

    open spec fn view(&self) -> SendView {
        SendView {
            target: self.target@,
            path: self.path@,
            size: self.size,
            modified_unix_secs: self.modified_unix_secs,
            reply: self.reply@,
            start: self.start,
            end: self.end,
            body: self.body,
        }
    }
}

/// The last byte that an answer promises; none where it has no body.
pub open spec fn last_promised(size: u64, head_only: bool, range: Option<Seq<char>>) -> Option<u64> {
    if head_only || size == 0 {
        None
    } else {
        match range_outcome_of(range, size) {
            RangeOutcome::Unsatisfiable => None,
            RangeOutcome::Absent => Some((size - 1) as u64),
            RangeOutcome::Satisfiable(_, end) => Some(end),
        }
    }
}

/// Whether the answer needs a byte that the kept head of `cached` bytes does
/// not hold.
pub fn needs_the_wire(size: u64, head_only: bool, range: Option<&str>, cached: u64) -> (needs: bool)
    ensures
        needs == (match last_promised(size, head_only, optional(range)) {
            None => false,
            Some(end) => end >= cached,
        }),
{
    if head_only || size == 0 {
        return false;
    }
    match range_outcome(range, size) {
        RangeOutcome::Unsatisfiable => false,
        RangeOutcome::Absent => size - 1 >= cached,
        RangeOutcome::Satisfiable(_, end) => end >= cached,
    }
}

/// The entry of a name in a listing.
pub open spec fn entry_named(children: Seq<EntryView>, name: Seq<char>) -> Option<EntryView> {
    first_of(children, |e: EntryView| e.name == name)
}

/// What the kept and fresh listing of a file's folder says of it.
pub open spec fn listed(
    cache: Map<Seq<char>, crate::dav::cache::ListingView>,
    target: Seq<char>,
    now: u64,
    ttl: u64,
) -> Option<EntryView> {
    match kept_listing(cache, parent_of_path(target), now, ttl) {
        Some(children) => entry_named(children, segment_of(target)),
        None => None,
    }
}

/// What the kept and fresh listing of a file's folder says of it.
pub fn listed_entry(cache: &Cache, target: &str, now: u64, ttl: u64) -> (entry: Option<Entry>)
    requires
        cache.wf(),
    ensures
        match entry {
            Some(e) => listed(cache@, target@, now, ttl) == Some(e@),
            None => listed(cache@, target@, now, ttl) is None,
        },
{
    let parent = parent_of(target);
    let name = last_segment(target);
    match cache.get(parent, now, ttl) {
        None => None,
        Some(children) => {
            let ghost views = entry_views(children@);
            let ghost test = |e: EntryView| e.name == name@;
            let mut i: usize = 0;
            assert(views.take(0) =~= Seq::<EntryView>::empty());
            while i < children.len()
                invariant
                    i <= children.len(),
                    views == entry_views(children@),
                    test == (|e: EntryView| e.name == name@),
                    first_of(views.take(i as int), test) is None,
                    listed(cache@, target@, now, ttl) == first_of(views, test),
                decreases children.len() - i,
            {
                proof {
                    assert(views.take(i + 1).drop_last() =~= views.take(i as int));
                    assert(views.take(i + 1).last() == children@[i as int]@);
                }
                if same_text(children[i].name.as_str(), name) {
                    proof {
                        lemma_first_part(views, test, i + 1);
                    }
                    return Some(copy_entry(&children[i]));
                }
                i += 1;
            }
            assert(views.take(views.len() as int) =~= views);
            None
        },
    }
}

/// The head of an answer to `GET` or `HEAD` of a file: its status, its
/// headers, and the first and the last byte; `None` where no byte of the file
/// is in the range.
pub open spec fn get_head(size: u64, modified: i64, range: Option<Seq<char>>) -> Option<
    (ReplyView, u64, u64),
> {
    let all = (size - 1) as u64;
    match range_outcome_of(range, size) {
        RangeOutcome::Unsatisfiable => None,
        RangeOutcome::Absent => Some(
            (
                ReplyView {
                    status: "200 OK"@,
                    headers: common_headers(size, size, modified),
                    body: Seq::empty(),
                },
                0,
                if size == 0 {
                    0
                } else {
                    all
                },
            ),
        ),
        RangeOutcome::Satisfiable(start, end) => Some(
            (
                ReplyView {
                    status: "206 Partial Content"@,
                    headers: common_headers(range_len(start, end), size, modified).push(
                        ("Content-Range"@, range_text(start, end, size)),
                    ),
                    body: Seq::empty(),
                },
                start,
                end,
            ),
        ),
    }
}

/// How many bytes there are from `start` to `end`, both of them counted.
pub open spec fn range_len(start: u64, end: u64) -> u64 {
    if end < start {
        1
    } else if end - start == u64::MAX {
        u64::MAX
    } else {
        (end - start + 1) as u64
    }
}

/// The headers every answer to `GET` and `HEAD` of a file has.
pub open spec fn common_headers(len: u64, size: u64, modified: i64) -> Seq<(Seq<char>, Seq<char>)> {
    seq![
        ("Content-Length"@, decimal(len as nat)),
        ("Content-Type"@, "application/octet-stream"@),
        ("Accept-Ranges"@, "bytes"@),
        ("ETag"@, etag_of(size, modified)),
        ("Last-Modified"@, rfc1123_of(modified as int)),
    ]
}

/// The value of `Content-Range`.
pub open spec fn range_text(start: u64, end: u64, size: u64) -> Seq<char> {
    "bytes "@ + decimal(start as nat) + "-"@ + decimal(end as nat) + "/"@ + decimal(size as nat)
}

/// The answer to a range with no byte of the file in it.
pub open spec fn unsatisfiable(size: u64) -> ReplyView {
    ReplyView {
        status: "416 Range Not Satisfiable"@,
        headers: seq![
            ("Content-Range"@, "bytes */"@ + decimal(size as nat)),
            ("Content-Length"@, "0"@),
        ],
        body: Seq::empty(),
    }
}

fn unsatisfiable_reply(size: u64) -> (reply: Reply)
    ensures
        reply@ == unsatisfiable(size),
{
    let mut value = copy_of("bytes */");
    push_decimal(&mut value, size);
    let reply = Reply { status: "416 Range Not Satisfiable", headers: Vec::new(), body: Vec::new() };
    let reply = reply.and_header("Content-Range", value.as_str()).and_header(
        "Content-Length",
        "0",
    );
    assert(reply@ =~= unsatisfiable(size));
    reply
}

fn file_reply(status: &'static str, len: u64, size: u64, modified: i64) -> (reply: Reply)
    ensures
        reply@ == (ReplyView {
            status: status@,
            headers: common_headers(len, size, modified),
            body: Seq::empty(),
        }),
{
    let length = decimal_text(len);
    let tag = etag(size, modified);
    let date = rfc1123(modified);
    let reply = Reply { status, headers: Vec::new(), body: Vec::new() };
    let reply = reply.and_header("Content-Length", length.as_str()).and_header(
        "Content-Type",
        "application/octet-stream",
    ).and_header("Accept-Ranges", "bytes").and_header("ETag", tag.as_str()).and_header(
        "Last-Modified",
        date.as_str(),
    );
    assert(reply@.headers =~= common_headers(len, size, modified));
    assert(reply@.body =~= Seq::<u8>::empty());
    reply
}

impl Get {
    /// What the answer comes to once the file is known.
    pub open spec fn becomes(self, entry: EntryView, step: GetStep) -> bool {
        if entry.kind == EntryKind::Directory {
            step matches GetStep::Answer(o) && o@ == plain("404 Not Found"@)
        } else {
            match get_head(entry.size, entry.modified_unix_secs, opt_view(self.range)) {
                None => step matches GetStep::Answer(o) && o@ == only_reply(
                    unsatisfiable(entry.size),
                ),
                Some((reply, start, end)) => step matches GetStep::Send(s) && s@ == (SendView {
                    target: self.target@,
                    path: self.path@,
                    size: entry.size,
                    modified_unix_secs: entry.modified_unix_secs,
                    reply,
                    start,
                    end,
                    body: !self.head_only && entry.size > 0,
                }),
            }
        }
    }

    fn known(self, entry: Entry) -> (step: GetStep)
        ensures
            self.becomes(entry@, step),
            step matches GetStep::Send(s) ==> match opt_view(self.range) {
                Some(value) => match crate::dav::http::range_of(value, entry.size) {
                    Some((first, last)) if entry.size > 0 => s.start == first && s.end == last,
                    _ => s.start == 0 && (entry.size > 0 ==> s.end == entry.size - 1),
                },
                None => s.start == 0 && (entry.size > 0 ==> s.end == entry.size - 1),
            },
    {
        if let EntryKind::Directory = entry.kind {
            return GetStep::Answer(answer("404 Not Found"));
        }
        let size: u64 = entry.size;
        let modified: i64 = entry.modified_unix_secs;
        let Get { target, path, head_only, range } = self;
        let outcome = match &range {
            Some(value) => range_outcome(Some(value.as_str()), size),
            None => range_outcome(None, size),
        };
        let body: bool = !head_only && size > 0;
        match outcome {
            RangeOutcome::Unsatisfiable => GetStep::Answer(just(unsatisfiable_reply(size))),
            RangeOutcome::Absent => {
                let reply = file_reply("200 OK", size, size, modified);
                let end: u64 = if size == 0 {
                    0
                } else {
                    size - 1
                };
                GetStep::Send(
                    Send {
                        target,
                        path,
                        size,
                        modified_unix_secs: modified,
                        reply,
                        start: 0,
                        end,
                        body,
                    },
                )
            },
            RangeOutcome::Satisfiable(start, end) => {
                let len: u64 = if end < start {
                    1
                } else {
                    (end - start).saturating_add(1)
                };
                let mut value = copy_of("bytes ");
                push_decimal(&mut value, start);
                value.push_str("-");
                push_decimal(&mut value, end);
                value.push_str("/");
                push_decimal(&mut value, size);
                let reply = file_reply("206 Partial Content", len, size, modified).and_header(
                    "Content-Range",
                    value.as_str(),
                );
                GetStep::Send(
                    Send { target, path, size, modified_unix_secs: modified, reply, start, end, body },
                )
            },
        }
    }

    /// The other device said what the file is.
    pub fn described(self, entry: Result<Entry, RpcError>) -> (step: GetStep)
        ensures
            match entry {
                Err(e) => step matches GetStep::Answer(o) && o@ == read_failed(e),
                Ok(e) => self.becomes(e@, step),
            },
    {
        match entry {
            Err(e) => GetStep::Answer(after_failed_read(&e)),
            Ok(e) => self.known(e),
        }
    }
}

/// How many bytes of a head are kept for a file of this size and time.
pub open spec fn is_kept_len(heads: Seq<HeadView>, key: HeadKey, n: nat) -> bool {
    if crate::dav::heads::holds_key(heads, key) {
        exists|at: int| holds_at(heads, key, at) && (#[trigger] heads[at]).bytes.len() == n
    } else {
        n == 0
    }
}

/// How many bytes of a file's head are kept.
pub fn kept_len(heads: &HeadCache, target: &str, size: u64, modified: i64) -> (n: u64)
    ensures
        is_kept_len(
            heads@,
            HeadKey { target: target@, size, modified_unix_secs: modified },
            n as nat,
        ),
{
    match heads.get(target, size, modified) {
        Some(head) => head.len() as u64,
        None => 0,
    }
}

/// `GET` or `HEAD` of a real file. An answer that the kept heads can give
/// whole takes the file's size and time from its folder's kept listing, and
/// asks the other device for nothing.
pub fn get_file(
    target: &str,
    head_only: bool,
    range: Option<&str>,
    cache: &Cache,
    heads: &HeadCache,
    now: u64,
    ttl: u64,
) -> (step: GetStep)
    requires
        cache.wf(),
    ensures
        match path_of(target@) {
            None => step matches GetStep::Answer(o) && o@ == plain("404 Not Found"@),
            Some(path) => if path.len() == 0 {
                step matches GetStep::Answer(o) && o@ == plain("404 Not Found"@)
            } else {
                exists|get: Get, kept: nat|
                    #![trigger get.path@, is_kept_len(heads@, head_key(target@, listed(cache@, target@, now, ttl)), kept)]
                    get.target@ == target@ && get.path@ == path && get.head_only == head_only
                        && opt_view(get.range) == optional(range) && is_kept_len(
                        heads@,
                        head_key(target@, listed(cache@, target@, now, ttl)),
                        kept,
                    ) && (match listed(cache@, target@, now, ttl) {
                        Some(entry) => match last_promised(
                            entry.size,
                            head_only,
                            optional(range),
                        ) {
                            Some(end) if end >= kept => step == GetStep::Stat(get),
                            _ => get.becomes(entry, step),
                        },
                        None => step == GetStep::Stat(get),
                    })
            },
        },
{
    let path = match target_path(target) {
        None => {
            return GetStep::Answer(answer("404 Not Found"));
        },
        Some(p) => p,
    };
    if path.is_root() {
        return GetStep::Answer(answer("404 Not Found"));
    }
    let range_copy: Option<String> = match range {
        Some(value) => Some(copy_of(value)),
        None => None,
    };
    let get = Get { target: copy_of(target), path, head_only, range: range_copy };
    let ghost key = head_key(target@, listed(cache@, target@, now, ttl));
    match listed_entry(cache, target, now, ttl) {
        None => {
            let kept = kept_len(heads, target, 0, 0);
            assert(is_kept_len(heads@, key, kept as nat));
            assert(get.path@ == get.path@);
            GetStep::Stat(get)
        },
        Some(entry) => {
            let kept = kept_len(heads, target, entry.size, entry.modified_unix_secs);
            assert(is_kept_len(heads@, key, kept as nat));
            assert(get.path@ == get.path@);
            if needs_the_wire(entry.size, head_only, range, kept) {
                GetStep::Stat(get)
            } else {
                get.known(entry)
            }
        },
    }
}

/// What the head of a listed file is filed under.
pub open spec fn head_key(target: Seq<char>, entry: Option<EntryView>) -> HeadKey {
    match entry {
        Some(e) => HeadKey {
            target,
            size: e.size,
            modified_unix_secs: e.modified_unix_secs,
        },
        None => HeadKey { target, size: 0, modified_unix_secs: 0 },
    }
}

/// The part of a kept head that an answer of the bytes from `start` to `end`
/// can use: none where it starts past the head.
pub open spec fn head_part(head: Option<Seq<u8>>, start: u64, end: u64) -> Seq<u8> {
    match head {
        None => Seq::empty(),
        Some(h) => if start >= h.len() {
            Seq::empty()
        } else if end >= h.len() {
            h.skip(start as int)
        } else if end < start {
            Seq::empty()
        } else {
            h.subrange(start as int, end + 1)
        },
    }
}

impl Send {
    /// As much of the body as the kept head holds.
    pub fn from_head(&self, head: Option<&Vec<u8>>) -> (bytes: Vec<u8>)
        ensures
            bytes@ == (if self.body {
                head_part(
                    match head {
                        Some(h) => Some(h@),
                        None => None,
                    },
                    self.start,
                    self.end,
                )
            } else {
                Seq::empty()
            }),
    {
        if !self.body {
            return Vec::new();
        }
        match head {
            None => Vec::new(),
            Some(h) => {
                let cached: u64 = h.len() as u64;
                if self.start >= cached {
                    return Vec::new();
                }
                if self.end < self.start && self.end < cached {
                    return Vec::new();
                }
                let from: usize = self.start as usize;
                let to: usize = if self.end >= cached {
                    h.len()
                } else {
                    self.end as usize + 1
                };
                let part = slice_subrange(h.as_slice(), from, to);
                let bytes = slice_to_vec(part);
                proof {
                    if self.end >= cached {
                        assert(bytes@ =~= h@.skip(self.start as int));
                    } else {
                        assert(bytes@ =~= h@.subrange(self.start as int, self.end + 1));
                    }
                }
                bytes
            },
        }
    }

    /// What is left to read over the wire, once `from_head` bytes went out
    /// from the kept head; `None` where nothing is.
    pub fn rest(&self, from_head: u64) -> (reading: Option<Reading>)
        ensures
            match reading {
                Some(r) => left_over(self@, from_head as nat) == Some((r.offset, r.stop_at)),
                None => left_over(self@, from_head as nat) is None,
            },
            reading == (if !self.body || self.start + from_head > self.end {
                None
            } else {
                Some(
                    Reading {
                        offset: (self.start + from_head) as u64,
                        stop_at: if self.end == u64::MAX {
                            u64::MAX
                        } else {
                            (self.end + 1) as u64
                        },
                    },
                )
            }),
    {
        if !self.body {
            return None;
        }
        let next: u64 = self.start.saturating_add(from_head);
        if next > self.end || from_head > 18_446_744_073_709_551_615 - self.start {
            return None;
        }
        Some(Reading { offset: next, stop_at: self.end.saturating_add(1) })
    }

    /// The entry in the access log, once `sent` bytes went out.
    pub fn sent(&self, sent: u64) -> (logged: Logged)
        ensures
            logged@ == (LoggedView {
                bytes: Some(sent),
                ..log_of(AccessVerb::Read, self.path@)
            }),
    {
        Logged {
            verb: AccessVerb::Read,
            path: copy_of(self.path.as_str()),
            bytes: Some(sent),
            entries: None,
            files: None,
        }
    }
}

/// The kept head and the wire together give exactly the bytes that were
/// promised: the wire begins where the head ends.
pub proof fn lemma_body_is_whole(head: Seq<u8>, file: Seq<u8>, start: u64, end: u64)
    requires
        start <= end,
        end < file.len(),
        head.len() <= file.len(),
        head == file.take(head.len() as int),
    ensures
        ({
            let part = head_part(Some(head), start, end);
            part + file.subrange(start + part.len(), end + 1) == file.subrange(
                start as int,
                end + 1,
            )
        }),
{
    let part = head_part(Some(head), start, end);
    assert(part =~= file.subrange(start as int, start + part.len()));
    assert(part + file.subrange(start + part.len(), end + 1) =~= file.subrange(
        start as int,
        end + 1,
    ));
}

/// What a sidecar is answered with.
pub open spec fn sidecar_reply(bytes: Seq<u8>, modified: i64, with_body: bool) -> ReplyView {
    ReplyView {
        status: "200 OK"@,
        headers: seq![
            ("Content-Length"@, decimal(bytes.len())),
            ("Content-Type"@, "application/octet-stream"@),
            ("ETag"@, etag_of(bytes.len() as u64, modified)),
            ("Last-Modified"@, rfc1123_of(modified as int)),
        ],
        body: if with_body {
            bytes
        } else {
            Seq::empty()
        },
    }
}

/// `GET` or `HEAD` of a name of the sidecar store: `None` where the store
/// does not have it, else its bytes and its modified time.
pub fn get_probe(stored: Option<(Vec<u8>, i64)>, head_only: bool) -> (outcome: Outcome)
    ensures
        outcome@ == (match stored {
            None => plain("404 Not Found"@),
            Some((bytes, modified)) => only_reply(sidecar_reply(bytes@, modified, !head_only)),
        }),
{
    match stored {
        None => answer("404 Not Found"),
        Some((bytes, modified)) => {
            let len: u64 = bytes.len() as u64;
            let length = decimal_text(len);
            let tag = etag(len, modified);
            let date = rfc1123(modified);
            let ghost all = bytes@;
            let body: Vec<u8> = if head_only {
                Vec::new()
            } else {
                bytes
            };
            let reply = Reply { status: "200 OK", headers: Vec::new(), body };
            let reply = reply.and_header("Content-Length", length.as_str()).and_header(
                "Content-Type",
                "application/octet-stream",
            ).and_header("ETag", tag.as_str()).and_header("Last-Modified", date.as_str());
            assert(reply@ =~= sidecar_reply(all, modified, !head_only));
            just(reply)
        },
    }
}

/// Where the wire takes over from the kept head, once `from_head` bytes went
/// out, and where it ends; `None` where nothing is left.
pub open spec fn left_over(send: SendView, from_head: nat) -> Option<(u64, u64)> {
    if !send.body || send.start + from_head > send.end {
        None
    } else {
        Some(
            (
                (send.start + from_head) as u64,
                if send.end == u64::MAX {
                    u64::MAX
                } else {
                    (send.end + 1) as u64
                },
            ),
        )
    }
}

/// Everything an answer sends of a file: what the kept head gives of it, and
/// the rest over the wire.
pub open spec fn bytes_sent(send: SendView, head: Option<Seq<u8>>, file: Seq<u8>) -> Seq<u8> {
    let kept = if send.body {
        head_part(head, send.start, send.end)
    } else {
        Seq::empty()
    };
    match left_over(send, kept.len()) {
        None => kept,
        Some((offset, stop_at)) => kept + file.subrange(offset as int, stop_at as int),
    }
}

/// A kept head is the beginning of the file.
pub open spec fn is_head_of(head: Option<Seq<u8>>, file: Seq<u8>) -> bool {
    head matches Some(h) ==> h.len() <= file.len() && h == file.take(h.len() as int)
}

/// What goes out for the bytes from `start` to `end`, whatever is kept of the
/// file's head.
proof fn lemma_sent_span(send: SendView, head: Option<Seq<u8>>, file: Seq<u8>)
    requires
        send.body,
        send.start <= send.end < file.len(),
        file.len() <= u64::MAX,
        is_head_of(head, file),
    ensures
        bytes_sent(send, head, file) == file.subrange(send.start as int, send.end + 1),
{
    let kept = head_part(head, send.start, send.end);
    let from = send.start as int;
    assert(kept =~= file.subrange(from, from + kept.len()));
    match left_over(send, kept.len()) {
        None => {
            assert(kept =~= file.subrange(from, send.end + 1));
        },
        Some((offset, stop_at)) => {
            assert(kept + file.subrange(offset as int, stop_at as int) =~= file.subrange(
                from,
                send.end + 1,
            ));
        },
    }
}

/// A range that is asked for is what is sent: the bytes of the file from the
/// first to the last that the header names, with their number and their place
/// in the head of the answer. `HEAD` has the same head, and no bytes.
pub proof fn lemma_range_is_answered(
    get: Get,
    entry: EntryView,
    step: GetStep,
    first: u64,
    last: u64,
    file: Seq<u8>,
    head: Option<Seq<u8>>,
)
    requires
        get.becomes(entry, step),
        entry.kind == EntryKind::File,
        opt_view(get.range) is Some,
        crate::dav::http::range_of(opt_view(get.range)->0, entry.size) == Some((first, last)),
        file.len() == entry.size,
        file.len() > 0,
        is_head_of(head, file),
    ensures
        step is Send,
        step->Send_0@.reply.status == "206 Partial Content"@,
        step->Send_0@.path == get.path@,
        step->Send_0@.reply.headers.contains(
            ("Content-Length"@, decimal((last - first + 1) as nat)),
        ),
        step->Send_0@.reply.headers.contains(
            (
                "Content-Range"@,
                "bytes "@ + decimal(first as nat) + "-"@ + decimal(last as nat) + "/"@ + decimal(
                    file.len(),
                ),
            ),
        ),
        bytes_sent(step->Send_0@, head, file) == (if get.head_only {
            Seq::<u8>::empty()
        } else {
            file.subrange(first as int, last + 1)
        }),
{
    let s = step->Send_0@;
    let headers = s.reply.headers;
    assert(headers[0] == ("Content-Length"@, decimal((last - first + 1) as nat)));
    assert(headers[5] == ("Content-Range"@, range_text(first, last, entry.size)));
    if !get.head_only {
        lemma_sent_span(s, head, file);
    } else {
        assert(bytes_sent(s, head, file) =~= Seq::<u8>::empty());
    }
}

/// Where no range is asked for, or none that can be read, the whole file is
/// sent.
pub proof fn lemma_whole_file_is_answered(
    get: Get,
    entry: EntryView,
    step: GetStep,
    file: Seq<u8>,
    head: Option<Seq<u8>>,
)
    requires
        get.becomes(entry, step),
        entry.kind == EntryKind::File,
        opt_view(get.range) matches Some(value) ==> crate::dav::http::asked_of(value) is None,
        file.len() == entry.size,
        is_head_of(head, file),
    ensures
        step is Send,
        step->Send_0@.reply.status == "200 OK"@,
        step->Send_0@.path == get.path@,
        step->Send_0@.reply.headers.contains(("Content-Length"@, decimal(file.len()))),
        bytes_sent(step->Send_0@, head, file) == (if get.head_only {
            Seq::<u8>::empty()
        } else {
            file
        }),
{
    let s = step->Send_0@;
    assert(s.reply.headers[0] == ("Content-Length"@, decimal(file.len())));
    if get.head_only || file.len() == 0 {
        assert(bytes_sent(s, head, file) =~= Seq::<u8>::empty());
        assert(file.len() == 0 ==> file =~= Seq::<u8>::empty());
    } else {
        lemma_sent_span(s, head, file);
        assert(file.subrange(0, file.len() as int) =~= file);
    }
}

/// A range with no byte of the file in it is refused, with the size that would
/// have had to be known; and a folder has no bytes at all.
pub proof fn lemma_no_bytes_to_send(get: Get, entry: EntryView, step: GetStep)
    requires
        get.becomes(entry, step),
    ensures
        entry.kind == EntryKind::Directory ==> (step matches GetStep::Answer(o)
            && o@.reply.status == "404 Not Found"@),
        entry.kind == EntryKind::File && (opt_view(get.range) matches Some(value)
            && crate::dav::http::asked_of(value) is Some && crate::dav::http::range_of(
            value,
            entry.size,
        ) is None) ==> (step matches GetStep::Answer(o) && o@.reply.status
            == "416 Range Not Satisfiable"@ && o@.reply.headers.contains(
            ("Content-Range"@, "bytes */"@ + decimal(entry.size as nat)),
        ) && o@.reply.body.len() == 0),
        step is Answer || step is Send,
{
    if step is Answer {
        let headers = unsatisfiable(entry.size).headers;
        assert(headers[0] == ("Content-Range"@, "bytes */"@ + decimal(entry.size as nat)));
    }
}

/// An answer that is given from the kept head alone asks the other device for
/// nothing.
pub proof fn lemma_kept_head_is_enough(
    get: Get,
    entry: EntryView,
    step: GetStep,
    head: Seq<u8>,
)
    requires
        get.becomes(entry, step),
        head.len() <= entry.size,
        last_promised(entry.size, get.head_only, opt_view(get.range)) matches Some(end) ==> end
            < head.len(),
    ensures
        step matches GetStep::Send(s) ==> left_over(
            s@,
            if s.body {
                head_part(Some(head), s.start, s.end).len()
            } else {
                0
            },
        ) is None,
{
    crate::dav::http::lemma_range_inside(opt_view(get.range), entry.size);
}

/// What a fresh listing of a folder says of a file is what is known of it
/// without asking, and of a file that no fresh listing names nothing is.
pub proof fn lemma_listing_tells_of_its_files(
    cache: &Cache,
    target: &str,
    now: u64,
    ttl: u64,
    entry: Option<Entry>,
)
    requires
        call_ensures(listed_entry, (cache, target, now, ttl), entry),
    ensures
        entry matches Some(e) ==> e.name@ == segment_of(target@) && (kept_listing(
            cache@,
            parent_of_path(target@),
            now,
            ttl,
        ) matches Some(children) && children.contains(e@)),
        kept_listing(cache@, parent_of_path(target@), now, ttl) is None ==> entry is None,
        kept_listing(cache@, parent_of_path(target@), now, ttl) matches Some(children) ==> (forall|
            i: int,
        |
            0 <= i < children.len() && (#[trigger] children[i]).name == segment_of(target@)
                ==> entry is Some),
{
    if let Some(children) = kept_listing(cache@, parent_of_path(target@), now, ttl) {
        let test = |e: EntryView| e.name == segment_of(target@);
        crate::seqs::lemma_first_of(children, test);
        if let Some(e) = entry {
            let i = choose|i: int|
                0 <= i < children.len() && #[trigger] children[i] == e@ && test(e@) && (forall|
                    j: int,
                |
                    0 <= j < i ==> !test(#[trigger] children[j]));
            assert(children.contains(e@));
        }
        assert forall|i: int|
            0 <= i < children.len() && (#[trigger] children[i]).name == segment_of(
                target@,
            ) implies entry is Some by {
            assert(test(children[i]));
        }
    }
}

/// What was stored under a name kept aside is what is read there, with its
/// length; asked for its head alone, the answer is the same without the bytes.
pub proof fn lemma_kept_aside_is_read_back(
    bytes: Vec<u8>,
    modified: i64,
    whole: Outcome,
    head: Outcome,
    none: Outcome,
)
    requires
        call_ensures(get_probe, (Some((bytes, modified)), false), whole),
        call_ensures(get_probe, (Some((bytes, modified)), true), head),
        call_ensures(get_probe, (None::<(Vec<u8>, i64)>, false), none),
    ensures
        whole@.reply.body == bytes@,
        head@.reply.body.len() == 0,
        head@.reply.headers == whole@.reply.headers,
        whole@.reply.headers.contains(("Content-Length"@, decimal(bytes@.len()))),
        whole@.reply.status == "200 OK"@,
        none@.reply.status == "404 Not Found"@,
{
    assert(whole@.reply.headers[0] == ("Content-Length"@, decimal(bytes@.len())));
}

/// What was sent is logged as read, from where it was read and with its bytes.
pub proof fn lemma_sent_bytes_are_logged(send: &Send, sent: u64, logged: Logged)
    requires
        call_ensures(Send::sent, (send, sent), logged),
    ensures
        logged@.verb == AccessVerb::Read,
        logged@.path == send.path@,
        logged@.bytes == Some(sent),
{
}

/// What cannot be answered from what is kept is asked of the other device, for
/// the very file that was named.
pub proof fn lemma_unknown_file_is_asked_for(
    target: &str,
    head_only: bool,
    range: Option<&str>,
    cache: &Cache,
    heads: &HeadCache,
    now: u64,
    ttl: u64,
    step: GetStep,
    path: Seq<char>,
)
    requires
        call_ensures(get_file, (target, head_only, range, cache, heads, now, ttl), step),
        path_of(target@) == Some(path),
        path.len() > 0,
        kept_listing(cache@, parent_of_path(target@), now, ttl) is None,
    ensures
        step matches GetStep::Stat(get) && get.path@ == path && get.target@ == target@
            && get.head_only == head_only && opt_view(get.range) == optional(range),
{
}

} // verus!
