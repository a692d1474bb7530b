//! Walking a folder on the other device, page by page.
//!
//! [`Walk`] holds where a walk has come to. [`Walk::request`] says which page
//! of which folder it needs next, and [`Walk::feed`] takes that page. A
//! subfolder is walked as soon as it is seen, before the folder that holds it
//! finishes paging. A folder is counted as finished after everything in it
//! is, which is what puts the deepest folders first in [`Walk::dirs`] and the
//! folder the walk began with last.

use crate::core_errors::{OpError, PathError};
use crate::limits::{MAX_LIST_ENTRIES, MAX_LIST_PAGES};
use crate::path::{components, joined, path_problem, RemotePath};
use crate::text::copy_of;
use crate::types::{Entry, EntryKind};
use vstd::prelude::*;

verus! {

/// The most files one walk may find. Exactly this many is within bounds; one
/// more is not.
pub const MAX_FOLDER_FILES: usize = 10_000;

/// The deepest a folder may nest. The folder a walk begins with is itself
/// depth 1, so nesting exactly this many folders is within bounds and one
/// more is not.
pub const MAX_FOLDER_DEPTH: u32 = 32;

/// One folder's listing ran past its bounds.
#[derive(Debug, Clone, Copy, PartialEq, Eq, Structural)]
pub struct ListTooLarge;

/// What follows a page: another page, the end, or a listing that is over its
/// bounds or does not advance.
pub open spec fn page_after(cursor: u64, next: Option<u64>, pages: nat, seen: nat) -> Result<
    Option<u64>,
    ListTooLarge,
> {
    match next {
        None => Ok(None),
        Some(n) => if n <= cursor || pages >= MAX_LIST_PAGES || seen > MAX_LIST_ENTRIES {
            Err(ListTooLarge)
        } else {
            Ok(Some(n))
        },
    }
}

/// Where a listing goes on after one page: at the cursor that came with it,
/// or nowhere when none did. A cursor that does not advance, too many pages,
/// or too many entries end it as too large.
pub fn after_page(cursor: u64, next: Option<u64>, pages: usize, entries_seen: usize) -> (after:
    Result<Option<u64>, ListTooLarge>)
    ensures
        after == page_after(cursor, next, pages as nat, entries_seen as nat),
{
    match next {
        None => Ok(None),
        Some(n) => {
            if n <= cursor || pages >= MAX_LIST_PAGES || entries_seen > MAX_LIST_ENTRIES {
                Err(ListTooLarge)
            } else {
                Ok(Some(n))
            }
        },
    }
}

/// Why a walk stopped before it finished.
#[derive(Debug, Clone, Copy, PartialEq, Eq, Structural)]
pub enum ListRecursiveError {
    /// More than [`MAX_FOLDER_FILES`] files, nesting past
    /// [`MAX_FOLDER_DEPTH`] levels, or a listing past its own bounds.
    TooLarge,
    /// The other device refused a page, or named something that is not a
    /// path.
    Op(OpError),
}

/// The text that one more name makes of a folder's path.
pub open spec fn child_text(dir: Seq<char>, name: Seq<char>) -> Seq<char> {
    if dir.len() == 0 {
        name
    } else {
        dir + "/"@ + name
    }
}

/// The path of `name` inside `dir`, where that is a path.
pub open spec fn child_path(dir: Seq<char>, name: Seq<char>) -> Option<Seq<char>> {
    if path_problem(child_text(dir, name)) is None {
        Some(joined(components(child_text(dir, name))))
    } else {
        None
    }
}

/// `dir` joined with one more name.
pub fn join(dir: &RemotePath, name: &str) -> (child: Result<RemotePath, PathError>)
    ensures
        match child {
            Ok(p) => child_path(dir@, name@) == Some(p@),
            Err(e) => path_problem(child_text(dir@, name@)) == Some(e),
        },
{
    if dir.is_root() {
        RemotePath::parse(name)
    } else {
        let mut text = copy_of(dir.as_str());
        text.push_str("/");
        text.push_str(name);
        RemotePath::parse(text.as_str())
    }
}

/// One file a walk found.
#[derive(Debug)]
pub struct FoundFile {
    pub path: RemotePath,
    pub size: u64,
    pub modified_unix_secs: i64,
}

/// What is known of one file a walk found.
pub struct FoundView {
    pub path: Seq<char>,
    pub size: u64,
    pub modified_unix_secs: i64,
}

impl View for FoundFile {
    type V = FoundView;

    open spec fn view(&self) -> FoundView {
        FoundView {
            path: self.path@,
            size: self.size,
            modified_unix_secs: self.modified_unix_secs,
        }
    }
}

/// What one entry of a listing says.
pub struct EntryView {
    pub name: Seq<char>,
    pub kind: EntryKind,
    pub size: u64,
    pub modified_unix_secs: i64,
}

impl View for Entry {
    type V = EntryView;

    open spec fn view(&self) -> EntryView {
        EntryView {
            name: self.name@,
            kind: self.kind,
            size: self.size,
            modified_unix_secs: self.modified_unix_secs,
        }
    }
}

/// The entries of a listing.
pub open spec fn entry_views(entries: Seq<Entry>) -> Seq<EntryView> {
    entries.map_values(|e: Entry| e@)
}

/// The same entry once more.
pub fn copy_entry(entry: &Entry) -> (copy: Entry)
    ensures
        copy@ == entry@,
{
    Entry {
        name: copy_of(entry.name.as_str()),
        kind: entry.kind,
        size: entry.size,
        modified_unix_secs: entry.modified_unix_secs,
    }
}

/// The same entries once more.
pub fn copy_entries(entries: &Vec<Entry>) -> (copies: Vec<Entry>)
    ensures
        entry_views(copies@) == entry_views(entries@),
{
    let mut copies: Vec<Entry> = Vec::new();
    let mut i: usize = 0;
    while i < entries.len()
        invariant
            i <= entries.len(),
            entry_views(copies@) == entry_views(entries@).take(i as int),
        decreases entries.len() - i,
    {
        let ghost so_far = entry_views(copies@);
        let copy = copy_entry(&entries[i]);
        let ghost v = copy@;
        copies.push(copy);
        assert(entry_views(copies@) =~= so_far.push(v));
        assert(entry_views(entries@).take(i + 1) =~= so_far.push(v));
        i += 1;
    }
    assert(entry_views(entries@).take(entries@.len() as int) =~= entry_views(entries@));
    copies
}

/// One folder's listing, page by page.
#[derive(Debug)]
pub struct Paging {
    cursor: u64,
    pages: usize,
    seen: usize,
    entries: Vec<Entry>,
}

/// How far a listing has come.
pub struct PagingView {
    /// Where the page that is wanted next begins.
    pub cursor: u64,
    pub pages: nat,
    pub seen: nat,
    pub entries: Seq<EntryView>,
}

impl View for Paging {
    type V = PagingView;

    closed spec fn view(&self) -> PagingView {
        PagingView {
            cursor: self.cursor,
            pages: self.pages as nat,
            seen: self.seen as nat,
            entries: entry_views(self.entries@),
        }
    }
}

/// What one page leads to.
#[derive(Debug, Clone, Copy, PartialEq, Eq, Structural)]
pub enum Paged {
    /// Another page is wanted.
    More,
    /// The listing is whole.
    Whole,
    /// The listing is over its bounds, or does not advance.
    TooLarge,
}

/// How many entries were seen, with those of one page more.
pub open spec fn seen_after(seen: nat, more: nat) -> nat {
    if seen + more > usize::MAX {
        usize::MAX as nat
    } else {
        seen + more
    }
}

/// What one page leads to.
pub open spec fn paged_to(p: PagingView, page: Seq<EntryView>, next: Option<u64>) -> Paged {
    match page_after(p.cursor, next, p.pages + 1, seen_after(p.seen, page.len())) {
        Ok(Some(_)) => Paged::More,
        Ok(None) => Paged::Whole,
        Err(_) => Paged::TooLarge,
    }
}

/// A listing with one page more.
pub open spec fn with_one_page(p: PagingView, page: Seq<EntryView>, next: Option<u64>) -> PagingView {
    PagingView {
        cursor: if paged_to(p, page, next) == Paged::More {
            next->0
        } else {
            p.cursor
        },
        pages: p.pages + 1,
        seen: seen_after(p.seen, page.len()),
        entries: p.entries + page,
    }
}

/// A listing that has asked for nothing yet.
pub open spec fn fresh_paging() -> PagingView {
    PagingView { cursor: 0, pages: 0, seen: 0, entries: Seq::empty() }
}

impl Paging {
    /// Another page may be taken.
    pub closed spec fn wf(self) -> bool {
        self.pages < MAX_LIST_PAGES
    }

    /// Nothing has been asked for.
    pub fn new() -> (paging: Paging)
        ensures
            paging.wf(),
            paging@ == fresh_paging(),
    {
        let paging = Paging { cursor: 0, pages: 0, seen: 0, entries: Vec::new() };
        assert(paging@.entries =~= Seq::<EntryView>::empty());
        paging
    }

    /// Where the page that is wanted next begins.
    pub fn cursor(&self) -> (cursor: u64)
        ensures
            cursor == self@.cursor,
    {
        self.cursor
    }

    /// Takes the page that was wanted.
    pub fn take(&mut self, page: Vec<Entry>, next: Option<u64>) -> (paged: Paged)
        requires
            old(self).wf(),
        ensures
            paged == paged_to(old(self)@, entry_views(page@), next),
            final(self)@ == with_one_page(old(self)@, entry_views(page@), next),
            paged == Paged::More ==> final(self).wf(),
    {
        let ghost before = self@;
        let ghost added = entry_views(page@);
        self.pages = self.pages + 1;
        self.seen = self.seen.saturating_add(page.len());
        let mut page = page;
        let ghost raw = self.entries@;
        let ghost new = page@;
        self.entries.append(&mut page);
        assert(self.entries@ =~= raw + new);
        assert(entry_views(self.entries@) =~= before.entries + added);
        match after_page(self.cursor, next, self.pages, self.seen) {
            Ok(Some(c)) => {
                self.cursor = c;
                Paged::More
            },
            Ok(None) => Paged::Whole,
            Err(_) => Paged::TooLarge,
        }
    }

    /// The entries that have come.
    pub fn into_entries(self) -> (entries: Vec<Entry>)
        ensures
            entry_views(entries@) == self@.entries,
    {
        self.entries
    }
}

/// One folder that a walk is inside of.
struct Frame {
    dir: RemotePath,
    /// Where the page that is being read, or is wanted next, begins.
    cursor: u64,
    pages: usize,
    seen: usize,
    entries: Vec<Entry>,
    /// How many of `entries` have been looked at.
    at: usize,
    /// The cursor that came with the page.
    next: Option<u64>,
}

/// What is known of one folder that a walk is inside of.
pub struct FrameView {
    pub dir: Seq<char>,
    pub cursor: u64,
    pub pages: nat,
    pub seen: nat,
    pub rest: Seq<EntryView>,
    pub next: Option<u64>,
}

impl Frame {
    spec fn wf(self) -> bool {
        self.at <= self.entries@.len() && self.pages <= MAX_LIST_PAGES
    }
}

impl View for Frame {
    type V = FrameView;

    closed spec fn view(&self) -> FrameView {
        FrameView {
            dir: self.dir@,
            cursor: self.cursor,
            pages: self.pages as nat,
            seen: self.seen as nat,
            rest: entry_views(self.entries@).skip(self.at as int),
            next: self.next,
        }
    }
}

/// A folder at the start of its listing.
pub open spec fn fresh_frame(dir: Seq<char>) -> FrameView {
    FrameView { dir, cursor: 0, pages: 0, seen: 0, rest: Seq::empty(), next: None }
}

/// Where a walk has come to.
#[verifier::ext_equal]
pub struct WalkView {
    /// The folders the walk is inside of, outermost first.
    pub stack: Seq<FrameView>,
    /// The files found, in the order they were found.
    pub files: Seq<FoundView>,
    /// The folders finished, in the order they were finished.
    pub dirs: Seq<Seq<char>>,
}

/// A walk that has asked for nothing yet.
pub open spec fn fresh_walk(root: Seq<char>) -> WalkView {
    WalkView { stack: seq![fresh_frame(root)], files: Seq::empty(), dirs: Seq::empty() }
}

/// A walk over one folder and everything under it.
pub struct Walk {
    stack: Vec<Frame>,
    files: Vec<FoundFile>,
    dirs: Vec<RemotePath>,
}

impl View for Walk {
    type V = WalkView;

    closed spec fn view(&self) -> WalkView {
        WalkView {
            stack: self.stack@.map_values(|f: Frame| f@),
            files: self.files@.map_values(|f: FoundFile| f@),
            dirs: self.dirs@.map_values(|d: RemotePath| d@),
        }
    }
}

/// How far a walk gets with the pages it has.
pub enum Settled {
    /// It stands here, and either wants a page of the innermost folder or is
    /// finished.
    At(WalkView),
    TooLarge,
    InvalidPath,
}

/// The innermost folder replaced.
pub open spec fn with_top(w: WalkView, top: FrameView) -> WalkView {
    WalkView { stack: w.stack.drop_last().push(top), ..w }
}

/// Everything a walk can do before it needs another page: entries are taken
/// in order, a file is counted, a folder is entered, and a folder whose last
/// page is used up is finished.
pub open spec fn settle(w: WalkView) -> Settled
    decreases
            w.stack.len(),
            if w.stack.len() > 0 {
                w.stack.last().rest.len()
            } else {
                0
            },
{
    if w.stack.len() == 0 {
        Settled::At(w)
    } else {
        let top = w.stack.last();
        if top.rest.len() == 0 {
            match page_after(top.cursor, top.next, top.pages, top.seen) {
                Err(_) => Settled::TooLarge,
                Ok(Some(c)) => Settled::At(with_top(w, FrameView { cursor: c, ..top })),
                Ok(None) => settle(
                    WalkView { stack: w.stack.drop_last(), files: w.files, dirs: w.dirs.push(top.dir) },
                ),
            }
        } else {
            let entry = top.rest[0];
            let left = with_top(w, FrameView { rest: top.rest.drop_first(), ..top });
            match child_path(top.dir, entry.name) {
                None => Settled::InvalidPath,
                Some(child) => if child == top.dir {
                    settle(left)
                } else {
                    match entry.kind {
                        EntryKind::File => if w.files.len() + 1 > MAX_FOLDER_FILES {
                            Settled::TooLarge
                        } else {
                            settle(
                                WalkView {
                                    files: w.files.push(
                                        FoundView {
                                            path: child,
                                            size: entry.size,
                                            modified_unix_secs: entry.modified_unix_secs,
                                        },
                                    ),
                                    ..left
                                },
                            )
                        },
                        EntryKind::Directory => if w.stack.len() + 1 > MAX_FOLDER_DEPTH {
                            Settled::TooLarge
                        } else {
                            Settled::At(
                                WalkView { stack: left.stack.push(fresh_frame(child)), ..left },
                            )
                        },
                    }
                },
            }
        }
    }
}

/// A folder that a page has come for.
pub open spec fn paged(f: FrameView, entries: Seq<EntryView>, next: Option<u64>) -> FrameView {
    FrameView {
        pages: f.pages + 1,
        seen: if f.seen + entries.len() > usize::MAX {
            usize::MAX as nat
        } else {
            f.seen + entries.len()
        },
        rest: entries,
        next,
        ..f
    }
}

/// A page has come for the innermost folder.
pub open spec fn with_page(w: WalkView, entries: Seq<EntryView>, next: Option<u64>) -> WalkView {
    with_top(w, paged(w.stack.last(), entries, next))
}

/// `child` is the path of an entry of `dir`.
pub open spec fn lies_in(dir: Seq<char>, child: Seq<char>) -> bool {
    exists|name: Seq<char>| #[trigger] child_path(dir, name) == Some(child)
}

/// Each folder the walk is inside of lies in the one before it, and each
/// folder it has finished lies in one it finishes later.
pub open spec fn nested(w: WalkView, root: Seq<char>) -> bool {
    &&& w.stack.len() > 0 ==> w.stack[0].dir == root
    &&& w.stack.len() == 0 ==> w.dirs.len() > 0 && w.dirs.last() == root
    &&& forall|k: int|
        0 < k < w.stack.len() ==> lies_in(w.stack[k - 1].dir, (#[trigger] w.stack[k]).dir)
    &&& forall|i: int|
        0 <= i < w.dirs.len() && (w.stack.len() > 0 || i < w.dirs.len() - 1) ==> finished_before(
            w,
            #[trigger] w.dirs[i],
            i,
        )
}

/// The folder that `dir` lies in is finished after the place `i`.
pub open spec fn finished_before(w: WalkView, dir: Seq<char>, i: int) -> bool {
    ||| exists|j: int| i < j < w.dirs.len() && lies_in(#[trigger] w.dirs[j], dir)
    ||| exists|k: int| 0 <= k < w.stack.len() && lies_in((#[trigger] w.stack[k]).dir, dir)
}

/// What was finished before is finished before still.
proof fn lemma_still_before(w: WalkView, v: WalkView, dir: Seq<char>, i: int)
    requires
        finished_before(w, dir, i),
        v.dirs == w.dirs,
        v.stack.len() >= w.stack.len(),
        forall|k: int| 0 <= k < w.stack.len() ==> (#[trigger] v.stack[k]).dir == w.stack[k].dir,
    ensures
        finished_before(v, dir, i),
{
    if exists|j: int| i < j < w.dirs.len() && lies_in(#[trigger] w.dirs[j], dir) {
        let j = choose|j: int| i < j < w.dirs.len() && lies_in(#[trigger] w.dirs[j], dir);
        assert(lies_in(v.dirs[j], dir));
    } else {
        let k = choose|k: int|
            0 <= k < w.stack.len() && lies_in((#[trigger] w.stack[k]).dir, dir);
        assert(lies_in(v.stack[k].dir, dir));
    }
}

/// The same folders, with another one entered perhaps, are nested.
proof fn lemma_nested_grown(w: WalkView, v: WalkView, root: Seq<char>)
    requires
        nested(w, root),
        w.stack.len() > 0,
        v.dirs == w.dirs,
        v.stack.len() >= w.stack.len(),
        forall|k: int| 0 <= k < w.stack.len() ==> (#[trigger] v.stack[k]).dir == w.stack[k].dir,
        forall|k: int|
            w.stack.len() <= k < v.stack.len() ==> lies_in(
                v.stack[k - 1].dir,
                (#[trigger] v.stack[k]).dir,
            ),
    ensures
        nested(v, root),
{
    assert forall|i: int| 0 <= i < v.dirs.len() implies finished_before(
        v,
        #[trigger] v.dirs[i],
        i,
    ) by {
        assert(finished_before(w, w.dirs[i], i));
        lemma_still_before(w, v, w.dirs[i], i);
    }
    assert forall|k: int| 0 < k < v.stack.len() implies lies_in(
        v.stack[k - 1].dir,
        (#[trigger] v.stack[k]).dir,
    ) by {
        if k < w.stack.len() {
            assert(lies_in(w.stack[k - 1].dir, w.stack[k].dir));
        }
    }
}

/// The innermost folder finished, what is left is nested.
proof fn lemma_nested_finished(w: WalkView, v: WalkView, root: Seq<char>)
    requires
        nested(w, root),
        w.stack.len() > 0,
        v.stack == w.stack.drop_last(),
        v.dirs == w.dirs.push(w.stack.last().dir),
    ensures
        nested(v, root),
{
    let n = w.stack.len() as int;
    let last = w.dirs.len() as int;
    assert(v.dirs[last] == w.stack[n - 1].dir);
    assert forall|i: int|
        0 <= i < v.dirs.len() && (v.stack.len() > 0 || i < v.dirs.len()
            - 1) implies finished_before(v, #[trigger] v.dirs[i], i) by {
        if i < last {
            assert(finished_before(w, w.dirs[i], i));
            let dir = w.dirs[i];
            if exists|j: int| i < j < w.dirs.len() && lies_in(#[trigger] w.dirs[j], dir) {
                let j = choose|j: int| i < j < w.dirs.len() && lies_in(#[trigger] w.dirs[j], dir);
                assert(lies_in(v.dirs[j], dir));
            } else {
                let k = choose|k: int|
                    0 <= k < w.stack.len() && lies_in((#[trigger] w.stack[k]).dir, dir);
                if k == n - 1 {
                    assert(lies_in(v.dirs[last], dir));
                } else {
                    assert(lies_in(v.stack[k].dir, dir));
                }
            }
        } else {
            assert(lies_in(w.stack[n - 2].dir, w.stack[n - 1].dir));
            assert(v.stack[n - 2] == w.stack[n - 2]);
        }
    }
    assert forall|k: int| 0 < k < v.stack.len() implies lies_in(
        v.stack[k - 1].dir,
        (#[trigger] v.stack[k]).dir,
    ) by {
        assert(lies_in(w.stack[k - 1].dir, w.stack[k].dir));
    }
}

/// However far a walk gets, its folders are nested: a folder is finished only
/// after every folder in it, and the folder the walk began at is finished
/// last.
pub proof fn lemma_deepest_first(w: WalkView, root: Seq<char>)
    requires
        nested(w, root),
    ensures
        settle(w) matches Settled::At(v) ==> nested(v, root),
    decreases
            w.stack.len(),
            if w.stack.len() > 0 {
                w.stack.last().rest.len()
            } else {
                0
            },
{
    if w.stack.len() > 0 {
        let top = w.stack.last();
        if top.rest.len() == 0 {
            match page_after(top.cursor, top.next, top.pages, top.seen) {
                Err(_) => {},
                Ok(Some(c)) => {
                    lemma_nested_grown(w, with_top(w, FrameView { cursor: c, ..top }), root);
                },
                Ok(None) => {
                    let v = WalkView {
                        stack: w.stack.drop_last(),
                        files: w.files,
                        dirs: w.dirs.push(top.dir),
                    };
                    lemma_nested_finished(w, v, root);
                    lemma_deepest_first(v, root);
                },
            }
        } else {
            let entry = top.rest[0];
            let left = with_top(w, FrameView { rest: top.rest.drop_first(), ..top });
            lemma_nested_grown(w, left, root);
            match child_path(top.dir, entry.name) {
                None => {},
                Some(child) => if child == top.dir {
                    lemma_deepest_first(left, root);
                } else {
                    match entry.kind {
                        EntryKind::File => {
                            let v = WalkView {
                                files: w.files.push(
                                    FoundView {
                                        path: child,
                                        size: entry.size,
                                        modified_unix_secs: entry.modified_unix_secs,
                                    },
                                ),
                                ..left
                            };
                            lemma_nested_grown(w, v, root);
                            lemma_deepest_first(v, root);
                        },
                        EntryKind::Directory => {
                            let v = WalkView { stack: left.stack.push(fresh_frame(child)), ..left };
                            let n = w.stack.len() as int;
                            assert(lies_in(top.dir, child));
                            assert(v.stack[n - 1].dir == top.dir);
                            assert(v.stack[n].dir == child);
                            lemma_nested_grown(w, v, root);
                        },
                    }
                },
            }
        }
    }
}

/// A walk begins nested, and a page that comes keeps it so.
pub proof fn lemma_nested_start(root: Seq<char>)
    ensures
        nested(fresh_walk(root), root),
{
}

/// A page that comes changes no folder.
pub proof fn lemma_nested_page(
    w: WalkView,
    root: Seq<char>,
    entries: Seq<EntryView>,
    next: Option<u64>,
)
    requires
        nested(w, root),
        w.stack.len() > 0,
    ensures
        nested(with_page(w, entries, next), root),
{
    lemma_nested_grown(w, with_page(w, entries, next), root);
}

/// A walk finds no more than [`MAX_FOLDER_FILES`] files, and is never inside
/// of more than [`MAX_FOLDER_DEPTH`] folders.
pub proof fn lemma_walk_bounded(w: WalkView)
    requires
        w.files.len() <= MAX_FOLDER_FILES,
        w.stack.len() <= MAX_FOLDER_DEPTH,
    ensures
        settle(w) matches Settled::At(v) ==> v.files.len() <= MAX_FOLDER_FILES && v.stack.len()
            <= MAX_FOLDER_DEPTH,
    decreases
            w.stack.len(),
            if w.stack.len() > 0 {
                w.stack.last().rest.len()
            } else {
                0
            },
{
    if w.stack.len() > 0 {
        let top = w.stack.last();
        if top.rest.len() == 0 {
            if page_after(top.cursor, top.next, top.pages, top.seen) == Ok::<Option<u64>, ListTooLarge>(
                None,
            ) {
                lemma_walk_bounded(
                    WalkView {
                        stack: w.stack.drop_last(),
                        files: w.files,
                        dirs: w.dirs.push(top.dir),
                    },
                );
            }
        } else {
            let entry = top.rest[0];
            let left = with_top(w, FrameView { rest: top.rest.drop_first(), ..top });
            match child_path(top.dir, entry.name) {
                None => {},
                Some(child) => if child == top.dir {
                    lemma_walk_bounded(left);
                } else if entry.kind == EntryKind::File && w.files.len() + 1 <= MAX_FOLDER_FILES {
                    lemma_walk_bounded(
                        WalkView {
                            files: w.files.push(
                                FoundView {
                                    path: child,
                                    size: entry.size,
                                    modified_unix_secs: entry.modified_unix_secs,
                                },
                            ),
                            ..left
                        },
                    );
                },
            }
        }
    }
}

/// How a device answers for its folders: the page of a folder that begins at
/// a cursor, and the cursor that comes with it.
pub type Pages = spec_fn(Seq<char>, u64) -> (Seq<EntryView>, Option<u64>);

/// What a folder holds: every file below it, and every folder from the deepest
/// up to itself.
#[verifier::ext_equal]
pub struct Held {
    pub files: Seq<FoundView>,
    pub dirs: Seq<Seq<char>>,
}

/// Two holdings, one after the other.
pub open spec fn both(a: Option<Held>, b: Option<Held>) -> Option<Held> {
    match (a, b) {
        (Some(x), Some(y)) => Some(Held { files: x.files + y.files, dirs: x.dirs + y.dirs }),
        _ => None,
    }
}

/// A folder with the page that begins at its cursor.
pub open spec fn opened(pages: Pages, f: FrameView) -> FrameView {
    paged(f, pages(f.dir, f.cursor).0, pages(f.dir, f.cursor).1)
}

/// What a folder at this depth holds from where its listing stands: the files
/// and folders of the entries that are left, one by one in their order, with
/// what a folder holds at that folder's place; and then those of the pages
/// that follow. `None` where an entry has no path, or a listing or the depth
/// is over its bounds.
pub open spec fn holds(pages: Pages, f: FrameView, depth: nat) -> Option<Held>
    decreases
            (if depth <= MAX_FOLDER_DEPTH {
                MAX_FOLDER_DEPTH - depth
            } else {
                0
            }),
            (if f.pages <= MAX_LIST_PAGES {
                MAX_LIST_PAGES + 1 - f.pages
            } else {
                0
            }),
            f.rest.len(),
{
    if f.rest.len() == 0 {
        match page_after(f.cursor, f.next, f.pages, f.seen) {
            Err(_) => None,
            Ok(None) => Some(Held { files: Seq::empty(), dirs: seq![f.dir] }),
            Ok(Some(cursor)) => holds(pages, opened(pages, FrameView { cursor, ..f }), depth),
        }
    } else {
        let entry = f.rest[0];
        let left = FrameView { rest: f.rest.drop_first(), ..f };
        match child_path(f.dir, entry.name) {
            None => None,
            Some(child) => if child == f.dir {
                holds(pages, left, depth)
            } else {
                match entry.kind {
                    EntryKind::File => both(
                        Some(
                            Held {
                                files: seq![
                                    FoundView {
                                        path: child,
                                        size: entry.size,
                                        modified_unix_secs: entry.modified_unix_secs,
                                    },
                                ],
                                dirs: Seq::empty(),
                            },
                        ),
                        holds(pages, left, depth),
                    ),
                    EntryKind::Directory => if depth + 1 > MAX_FOLDER_DEPTH {
                        None
                    } else {
                        both(
                            holds(pages, opened(pages, fresh_frame(child)), depth + 1),
                            holds(pages, left, depth),
                        )
                    },
                }
            },
        }
    }
}

/// What a walk has found, and what it has still to find.
pub open spec fn in_all(pages: Pages, w: WalkView) -> Option<Held> {
    both(Some(Held { files: w.files, dirs: w.dirs }), to_come(pages, w.stack))
}

/// What the folders that a walk is inside of still hold, the innermost first.
pub open spec fn to_come(pages: Pages, stack: Seq<FrameView>) -> Option<Held>
    decreases stack.len(),
{
    if stack.len() == 0 {
        Some(Held { files: Seq::empty(), dirs: Seq::empty() })
    } else {
        both(holds(pages, stack.last(), stack.len()), to_come(pages, stack.drop_last()))
    }
}

/// A walk whose innermost folder has the page it wants.
pub open spec fn answered(pages: Pages, w: WalkView) -> WalkView {
    with_top(w, opened(pages, w.stack.last()))
}

/// A walk that is answered page by page, `n` times, or until it stops.
pub open spec fn walked(pages: Pages, w: WalkView, n: nat) -> Settled
    decreases n,
{
    if n == 0 {
        Settled::At(w)
    } else {
        match walked(pages, w, (n - 1) as nat) {
            Settled::At(v) => if v.stack.len() == 0 {
                Settled::At(v)
            } else {
                settle(answered(pages, v))
            },
            stopped => stopped,
        }
    }
}

proof fn lemma_both(a: Option<Held>, b: Option<Held>, c: Option<Held>)
    ensures
        both(both(a, b), c) == both(a, both(b, c)),
{
    if let (Some(x), Some(y), Some(z)) = (a, b, c) {
        assert((x.files + y.files) + z.files =~= x.files + (y.files + z.files));
        assert((x.dirs + y.dirs) + z.dirs =~= x.dirs + (y.dirs + z.dirs));
    }
}

/// Nothing is lost and nothing is found twice on the way to the next page.
proof fn lemma_settle_keeps(pages: Pages, w: WalkView)
    ensures
        settle(w) matches Settled::At(v) ==> {
            &&& v.stack.len() == 0 ==> in_all(pages, w) == Some(
                Held { files: v.files, dirs: v.dirs },
            )
            &&& v.stack.len() > 0 ==> in_all(pages, w) == in_all(pages, answered(pages, v))
        },
    decreases
            w.stack.len(),
            if w.stack.len() > 0 {
                w.stack.last().rest.len()
            } else {
                0
            },
{
    let found = Some(Held { files: w.files, dirs: w.dirs });
    if w.stack.len() == 0 {
        assert(w.files + Seq::<FoundView>::empty() =~= w.files);
        assert(w.dirs + Seq::<Seq<char>>::empty() =~= w.dirs);
    } else {
        let top = w.stack.last();
        let below = w.stack.drop_last();
        let depth = w.stack.len();
        if top.rest.len() == 0 {
            match page_after(top.cursor, top.next, top.pages, top.seen) {
                Err(_) => {},
                Ok(Some(cursor)) => {
                    let v = with_top(w, FrameView { cursor, ..top });
                    let a = answered(pages, v);
                    assert(v.stack.drop_last() =~= below);
                    assert(a.stack.drop_last() =~= below);
                    assert(a.stack.last() == opened(pages, FrameView { cursor, ..top }));
                },
                Ok(None) => {
                    let v = WalkView { stack: below, files: w.files, dirs: w.dirs.push(top.dir) };
                    let one = Some(Held { files: Seq::empty(), dirs: seq![top.dir] });
                    assert(holds(pages, top, depth) == one);
                    lemma_both(found, one, to_come(pages, below));
                    assert(w.files + Seq::<FoundView>::empty() =~= w.files);
                    assert(w.dirs + seq![top.dir] =~= w.dirs.push(top.dir));
                    lemma_settle_keeps(pages, v);
                },
            }
        } else {
            let entry = top.rest[0];
            let rest = FrameView { rest: top.rest.drop_first(), ..top };
            let left = with_top(w, rest);
            assert(left.stack.drop_last() =~= below);
            assert(left.stack.last() == rest);
            match child_path(top.dir, entry.name) {
                None => {},
                Some(child) => if child == top.dir {
                    lemma_settle_keeps(pages, left);
                } else {
                    match entry.kind {
                        EntryKind::File => {
                            let file = FoundView {
                                path: child,
                                size: entry.size,
                                modified_unix_secs: entry.modified_unix_secs,
                            };
                            if w.files.len() + 1 <= MAX_FOLDER_FILES {
                                let v = WalkView { files: w.files.push(file), ..left };
                                let one = Some(Held { files: seq![file], dirs: Seq::empty() });
                                let more = holds(pages, rest, depth);
                                lemma_both(one, more, to_come(pages, below));
                                lemma_both(found, one, both(more, to_come(pages, below)));
                                assert(w.files + seq![file] =~= w.files.push(file));
                                assert(w.dirs + Seq::<Seq<char>>::empty() =~= w.dirs);
                                lemma_settle_keeps(pages, v);
                            }
                        },
                        EntryKind::Directory => {
                            if depth + 1 <= MAX_FOLDER_DEPTH {
                                let inner = fresh_frame(child);
                                let v = WalkView { stack: left.stack.push(inner), ..left };
                                let a = answered(pages, v);
                                assert(v.stack.drop_last() =~= left.stack);
                                assert(a.stack.drop_last() =~= left.stack);
                                assert(a.stack.last() == opened(pages, inner));
                                assert(a.stack.len() == depth + 1);
                                lemma_both(
                                    holds(pages, opened(pages, inner), depth + 1),
                                    holds(pages, rest, depth),
                                    to_come(pages, below),
                                );
                            }
                        },
                    }
                },
            }
        }
    }
}

proof fn lemma_walked_keeps(pages: Pages, root: Seq<char>, n: nat)
    ensures
        walked(pages, fresh_walk(root), n) matches Settled::At(v) ==> {
            let all = in_all(pages, answered(pages, fresh_walk(root)));
            &&& v.stack.len() == 0 ==> all == Some(Held { files: v.files, dirs: v.dirs })
            &&& v.stack.len() > 0 ==> all == in_all(pages, answered(pages, v))
        },
    decreases n,
{
    if n > 0 {
        lemma_walked_keeps(pages, root, (n - 1) as nat);
        match walked(pages, fresh_walk(root), (n - 1) as nat) {
            Settled::At(v) => {
                if v.stack.len() > 0 {
                    lemma_settle_keeps(pages, answered(pages, v));
                }
            },
            _ => {},
        }
    }
}

/// A walk that comes to its end has found what the folder holds: every file
/// below it once for each time it is listed, in the order of the listings,
/// and every folder, each after all that is in it.
pub proof fn lemma_walk_finds_all(pages: Pages, root: Seq<char>, n: nat)
    ensures
        walked(pages, fresh_walk(root), n) matches Settled::At(v) ==> v.stack.len() == 0 ==> holds(
            pages,
            opened(pages, fresh_frame(root)),
            1,
        ) == Some(Held { files: v.files, dirs: v.dirs }),
{
    lemma_walked_keeps(pages, root, n);
    let start = answered(pages, fresh_walk(root));
    let first = holds(pages, opened(pages, fresh_frame(root)), 1);
    assert(start.stack =~= seq![opened(pages, fresh_frame(root))]);
    assert(start.stack.drop_last() =~= Seq::<FrameView>::empty());
    assert(to_come(pages, start.stack.drop_last()) == Some(
        Held { files: Seq::empty(), dirs: Seq::empty() },
    ));
    if let Some(h) = first {
        assert(h.files + Seq::<FoundView>::empty() =~= h.files);
        assert(h.dirs + Seq::<Seq<char>>::empty() =~= h.dirs);
        assert(Seq::<FoundView>::empty() + h.files =~= h.files);
        assert(Seq::<Seq<char>>::empty() + h.dirs =~= h.dirs);
    }
}

impl Walk {
    /// Between two pages: the bounds hold, and no page is half read.
    pub closed spec fn wf(self) -> bool {
        &&& self.stack@.len() <= MAX_FOLDER_DEPTH
        &&& self.files@.len() <= MAX_FOLDER_FILES
        &&& forall|i: int| 0 <= i < self.stack@.len() ==> (#[trigger] self.stack@[i]).wf()
        &&& self.stack@.len() > 0 ==> self.stack@.last().pages < MAX_LIST_PAGES
    }

    /// A walk over `root`, which has asked for nothing yet.
    pub fn start(root: &RemotePath) -> (walk: Walk)
        ensures
            walk.wf(),
            walk@.stack == seq![fresh_frame(root@)],
            walk@.files.len() == 0,
            walk@.dirs.len() == 0,
    {
        let frame = Frame {
            dir: root.copy(),
            cursor: 0,
            pages: 0,
            seen: 0,
            entries: Vec::new(),
            at: 0,
            next: None,
        };
        let mut stack: Vec<Frame> = Vec::new();
        assert(frame@.rest =~= Seq::<EntryView>::empty());
        stack.push(frame);
        let walk = Walk { stack, files: Vec::new(), dirs: Vec::new() };
        assert(walk@.stack =~= seq![fresh_frame(root@)]);
        walk
    }

    /// The folder and the cursor of the page this walk needs next, or `None`
    /// once it is finished.
    pub fn request(&self) -> (wanted: Option<(&RemotePath, u64)>)
        ensures
            match wanted {
                None => self@.stack.len() == 0,
                Some((dir, cursor)) => self@.stack.len() > 0 && dir@ == self@.stack.last().dir
                    && cursor == self@.stack.last().cursor,
            },
    {
        if self.stack.len() == 0 {
            None
        } else {
            let top = &self.stack[self.stack.len() - 1];
            Some((&top.dir, top.cursor))
        }
    }

    /// The files found so far, in the order they were found.
    pub fn files(&self) -> (files: &Vec<FoundFile>)
        ensures
            files@.map_values(|f: FoundFile| f@) == self@.files,
    {
        &self.files
    }

    /// The folders finished so far, in the order they were finished.
    pub fn dirs(&self) -> (dirs: &Vec<RemotePath>)
        ensures
            dirs@.map_values(|d: RemotePath| d@) == self@.dirs,
    {
        &self.dirs
    }

    /// Everything the walk found.
    pub fn into_found(self) -> (found: (Vec<FoundFile>, Vec<RemotePath>))
        ensures
            found.0@.map_values(|f: FoundFile| f@) == self@.files,
            found.1@.map_values(|d: RemotePath| d@) == self@.dirs,
    {
        (self.files, self.dirs)
    }

    /// Takes the page that [`Walk::request`] asked for, and goes as far as it
    /// leads.
    pub fn feed(&mut self, entries: Vec<Entry>, next: Option<u64>) -> (fed: Result<
        (),
        ListRecursiveError,
    >)
        requires
            old(self).wf(),
            old(self)@.stack.len() > 0,
        ensures
            match settle(with_page(old(self)@, entry_views(entries@), next)) {
                Settled::At(w) => fed is Ok && final(self)@ == w && final(self).wf(),
                Settled::TooLarge => fed == Err::<(), _>(ListRecursiveError::TooLarge),
                Settled::InvalidPath => fed == Err::<(), _>(
                    ListRecursiveError::Op(OpError::InvalidPath),
                ),
            },
    {
        let ghost target = with_page(self@, entry_views(entries@), next);
        let mut top = self.stack.pop().unwrap();
        let ghost top_before = top@;
        top.pages = top.pages + 1;
        top.seen = top.seen.saturating_add(entries.len());
        top.entries = entries;
        top.at = 0;
        top.next = next;
        assert(entry_views(top.entries@).skip(0) =~= entry_views(top.entries@));
        self.stack.push(top);
        assert(self@.stack =~= target.stack);
        assert(self@ == target);
        loop
            invariant
                settle(self@) == settle(target),
                self.stack@.len() <= MAX_FOLDER_DEPTH,
                self.files@.len() <= MAX_FOLDER_FILES,
                forall|i: int| 0 <= i < self.stack@.len() ==> (#[trigger] self.stack@[i]).wf(),
                settle(target) == settle(with_page(old(self)@, entry_views(entries@), next)),
            decreases
                    self@.stack.len(),
                    (if self@.stack.len() > 0 {
                        self@.stack.last().rest.len()
                    } else {
                        0
                    }),
        {
            let ghost before = self@;
            let depth: usize = self.stack.len();
            if depth == 0 {
                return Ok(());
            }
            let mut frame = self.stack.pop().unwrap();
            let ghost frame_before = frame@;
            assert(before.stack.last() == frame@);
            assert(before.stack.drop_last() =~= self@.stack);
            if frame.at >= frame.entries.len() {
                assert(frame@.rest.len() == 0);
                match after_page(frame.cursor, frame.next, frame.pages, frame.seen) {
                    Err(_) => {
                        return Err(ListRecursiveError::TooLarge);
                    },
                    Ok(Some(cursor)) => {
                        frame.cursor = cursor;
                        self.stack.push(frame);
                        assert(self@.stack =~= with_top(
                            before,
                            FrameView { cursor, ..frame_before },
                        ).stack);
                        return Ok(());
                    },
                    Ok(None) => {
                        self.dirs.push(frame.dir);
                        assert(self@.dirs =~= before.dirs.push(frame_before.dir));
                        assert(self@ == WalkView {
                            stack: before.stack.drop_last(),
                            files: before.files,
                            dirs: before.dirs.push(frame_before.dir),
                        });
                    },
                }
            } else {
                assert(frame@.rest[0] == frame.entries@[frame.at as int]@);
                let kind = frame.entries[frame.at].kind;
                let size = frame.entries[frame.at].size;
                let modified_unix_secs = frame.entries[frame.at].modified_unix_secs;
                let child = match join(&frame.dir, frame.entries[frame.at].name.as_str()) {
                    Ok(child) => child,
                    Err(_) => {
                        return Err(ListRecursiveError::Op(OpError::InvalidPath));
                    },
                };
                let same = child.same(&frame.dir);
                frame.at = frame.at + 1;
                assert(frame@.rest =~= frame_before.rest.drop_first());
                let ghost left = with_top(
                    before,
                    FrameView { rest: frame_before.rest.drop_first(), ..frame_before },
                );
                self.stack.push(frame);
                assert(self@.stack =~= left.stack);
                assert(self@ == left);
                if !same {
                    match kind {
                        EntryKind::File => {
                            if self.files.len() >= MAX_FOLDER_FILES {
                                return Err(ListRecursiveError::TooLarge);
                            }
                            let ghost found = FoundView {
                                path: child@,
                                size,
                                modified_unix_secs,
                            };
                            self.files.push(FoundFile { path: child, size, modified_unix_secs });
                            assert(self@.files =~= before.files.push(found));
                            assert(self@ == WalkView { files: before.files.push(found), ..left });
                        },
                        EntryKind::Directory => {
                            if depth >= MAX_FOLDER_DEPTH as usize {
                                return Err(ListRecursiveError::TooLarge);
                            }
                            let ghost dir = child@;
                            let inner = Frame {
                                dir: child,
                                cursor: 0,
                                pages: 0,
                                seen: 0,
                                entries: Vec::new(),
                                at: 0,
                                next: None,
                            };
                            assert(inner@.rest =~= Seq::<EntryView>::empty());
                            self.stack.push(inner);
                            assert(self@.stack =~= left.stack.push(fresh_frame(dir)));
                            return Ok(());
                        },
                    }
                }
            }
        }
    }
}

/// What was found stays found while a walk goes on.
pub proof fn lemma_found_stays_found(w: WalkView, found: FoundView)
    requires
        w.files.contains(found),
    ensures
        settle(w) matches Settled::At(v) ==> v.files.contains(found),
    decreases
            w.stack.len(),
            if w.stack.len() > 0 {
                w.stack.last().rest.len()
            } else {
                0
            },
{
    if w.stack.len() > 0 {
        let top = w.stack.last();
        if top.rest.len() == 0 {
            if page_after(top.cursor, top.next, top.pages, top.seen) matches Ok(None) {
                let popped = WalkView {
                    stack: w.stack.drop_last(),
                    files: w.files,
                    dirs: w.dirs.push(top.dir),
                };
                lemma_found_stays_found(popped, found);
            }
        } else {
            let entry = top.rest[0];
            let left = with_top(w, FrameView { rest: top.rest.drop_first(), ..top });
            if let Some(child) = child_path(top.dir, entry.name) {
                if child == top.dir {
                    lemma_found_stays_found(left, found);
                } else if entry.kind is File && w.files.len() + 1 <= MAX_FOLDER_FILES {
                    let here = FoundView {
                        path: child,
                        size: entry.size,
                        modified_unix_secs: entry.modified_unix_secs,
                    };
                    crate::seqs::lemma_push_contains(w.files, here);
                    let more = WalkView { files: w.files.push(here), ..left };
                    lemma_found_stays_found(more, found);
                }
            }
        }
    }
}

proof fn lemma_files_of_a_page(w: WalkView, i: int)
    requires
        w.stack.len() > 0,
        0 <= i < w.stack.last().rest.len(),
        forall|j: int| 0 <= j <= i ==> (#[trigger] w.stack.last().rest[j]).kind is File,
        child_path(w.stack.last().dir, w.stack.last().rest[i].name) is Some,
        child_path(w.stack.last().dir, w.stack.last().rest[i].name) != Some(w.stack.last().dir),
    ensures
        settle(w) matches Settled::At(v) ==> v.files.contains(
            FoundView {
                path: child_path(w.stack.last().dir, w.stack.last().rest[i].name)->0,
                size: w.stack.last().rest[i].size,
                modified_unix_secs: w.stack.last().rest[i].modified_unix_secs,
            },
        ),
    decreases w.stack.last().rest.len(),
{
    let top = w.stack.last();
    let entry = top.rest[0];
    let smaller = FrameView { rest: top.rest.drop_first(), ..top };
    let left = with_top(w, smaller);
    assert(left.stack.last() == smaller);
    assert(top.rest[0].kind is File);
    if let Some(child) = child_path(top.dir, entry.name) {
        let here = FoundView {
            path: child,
            size: entry.size,
            modified_unix_secs: entry.modified_unix_secs,
        };
        let more = if child == top.dir {
            left
        } else {
            WalkView { files: w.files.push(here), ..left }
        };
        assert(more.stack.last() == smaller);
        if i == 0 {
            crate::seqs::lemma_push_contains(w.files, here);
            lemma_found_stays_found(more, here);
        } else {
            assert(smaller.rest[i - 1] == top.rest[i]);
            assert forall|j: int| 0 <= j <= i - 1 implies (#[trigger] smaller.rest[j]).kind is File by {
                assert(smaller.rest[j] == top.rest[j + 1]);
            }
            lemma_files_of_a_page(more, i - 1);
        }
    }
}

/// Each file that a page names is found, at its path in the folder that was
/// asked for, with its own size and time, up to the first folder on the page.
pub proof fn lemma_files_of_a_page_are_found(
    walk: &mut Walk,
    entries: Vec<Entry>,
    next: Option<u64>,
    fed: Result<(), ListRecursiveError>,
    i: int,
    parts: Seq<Seq<char>>,
)
    requires
        old(walk).wf(),
        old(walk)@.stack.len() > 0,
        call_ensures(Walk::feed, (walk, entries, next), fed),
        fed is Ok,
        0 <= i < entries@.len(),
        forall|j: int| 0 <= j <= i ==> (#[trigger] entries@[j]).kind is File,
        old(walk)@.stack.last().dir == joined(parts),
        crate::path::all_names(parts),
        crate::path::is_name(entries@[i].name@),
        path_problem(child_text(joined(parts), entries@[i].name@)) is None,
    ensures
        final(walk)@.files.contains(
            FoundView {
                path: joined(parts.push(entries@[i].name@)),
                size: entries@[i].size,
                modified_unix_secs: entries@[i].modified_unix_secs,
            },
        ),
        forall|found: FoundView| old(walk)@.files.contains(found) ==> #[trigger] final(
            walk)@.files.contains(found),
{
    let views = entry_views(entries@);
    let w = with_page(old(walk)@, views, next);
    let top = w.stack.last();
    let name = entries@[i].name@;
    assert(top.rest == views);
    assert(views[i] == entries@[i]@);
    assert forall|j: int| 0 <= j <= i implies (#[trigger] top.rest[j]).kind is File by {
        assert(views[j] == entries@[j]@);
        assert(entries@[j].kind is File);
    }
    crate::path::lemma_child_of_folder(parts, name);
    lemma_files_of_a_page(w, i);
    assert forall|found: FoundView| old(walk)@.files.contains(found) implies #[trigger] final(
        walk)@.files.contains(found) by {
        lemma_found_stays_found(w, found);
    }
}

} // verus!
