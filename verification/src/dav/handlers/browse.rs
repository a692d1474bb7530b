//! `PROPFIND`: what is at a target, and what is in a folder.

use crate::core_errors::RpcError;
use crate::dav::cache::{fresh, Cache, ListingView};
use crate::dav::handlers::write::{path_of, target_path};
use crate::dav::heads::Child;
use crate::dav::probes::{is_partial_name, is_probe_name, last_segment, partial_name, probe_name, segment_of};
use crate::dav::reply::{
    after_failed_read, answer, just, log_entry, log_of, plain, only_reply, read_failed, xml_reply,
    xml_view, Logged, LoggedView, Outcome, OutcomeView,
};
use crate::dav::xml::{
    item_views, multistatus, multistatus_text, props_of, requested_props, Item, ItemView,
};
use crate::folder::{
    child_text, copy_entries, copy_entry, entry_views, fresh_paging, paged_to, with_one_page,
    EntryView, Paged, Paging,
};
use crate::path::RemotePath;
use crate::seqs::{len_u32, lemma_only_step, only, sat32};
use crate::text::{copy_of, optional, same_text};
use crate::types::{AccessVerb, Entry, EntryKind};
use vstd::prelude::*;

verus! {

/// What `PROPFIND` comes to next.
pub enum PropfindStep {
    Answer(Outcome),
    /// Ask what the target is.
    Stat(Propfind),
    /// List one page more of the folder.
    List(PropfindList),
    /// Everything is known.
    Found(Found),
}

/// A target that is asked for.
pub struct Propfind {
    pub target: String,
    pub path: RemotePath,
    /// What is in it is asked for too, where it is a folder.
    pub with_children: bool,
}

/// A folder that is being listed.
pub struct PropfindList {
    pub target: String,
    pub path: RemotePath,
    pub entry: Entry,
    pub paging: Paging,
}

/// A target that is known, with what is in it where that was asked for.
pub struct Found {
    pub target: String,
    pub path: RemotePath,
    pub entry: Entry,
    pub children: Option<Vec<Entry>>,
    /// The children came over the wire, and are to be kept.
    pub keep: bool,
}

/// The body of a `PROPFIND` over the whole tree, which is not answered.
pub open spec fn finite_depth_text() -> Seq<char> {
    "<?xml version=\"1.0\" encoding=\"utf-8\"?>\n<D:error xmlns:D=\"DAV:\"><D:propfind-finite-depth/></D:error>\n"@
}

/// The answer to a `PROPFIND` over the whole tree.
pub fn depth_not_finite() -> (outcome: Outcome)
    ensures
        outcome@ == only_reply(xml_view("403 Forbidden"@, finite_depth_text())),
{
    just(
        xml_reply(
            "403 Forbidden",
            "<?xml version=\"1.0\" encoding=\"utf-8\"?>\n<D:error xmlns:D=\"DAV:\"><D:propfind-finite-depth/></D:error>\n",
        ),
    )
}

/// `PROPFIND` of a real target. A missing depth means the whole tree, as
/// `infinity` does.
pub fn propfind(target: &str, depth: Option<&str>) -> (step: PropfindStep)
    ensures
        match path_of(target@) {
            None => step matches PropfindStep::Answer(o) && o@ == plain("404 Not Found"@),
            Some(path) => if depth is None || optional(depth) == Some("infinity"@) {
                step matches PropfindStep::Answer(o) && o@ == only_reply(
                    xml_view("403 Forbidden"@, finite_depth_text()),
                )
            } else {
                step matches PropfindStep::Stat(p) && p.target@ == target@ && p.path@ == path
                    && p.with_children == (optional(depth) != Some("0"@))
            },
        },
{
    let path = match target_path(target) {
        None => {
            return PropfindStep::Answer(answer("404 Not Found"));
        },
        Some(p) => p,
    };
    match depth {
        None => PropfindStep::Answer(depth_not_finite()),
        Some(d) => {
            if same_text(d, "infinity") {
                return PropfindStep::Answer(depth_not_finite());
            }
            PropfindStep::Stat(
                Propfind { target: copy_of(target), path, with_children: !same_text(d, "0") },
            )
        },
    }
}

/// The listing that is kept of a folder, and fresh.
pub open spec fn kept_listing(
    kept: Map<Seq<char>, ListingView>,
    folder: Seq<char>,
    now: u64,
    ttl: u64,
) -> Option<Seq<EntryView>> {
    if kept.contains_key(folder) && fresh(kept[folder].at, now, ttl) {
        Some(kept[folder].children)
    } else {
        None
    }
}

/// The step holds what is known of a target.
pub open spec fn knows(
    found: Found,
    target: Seq<char>,
    path: Seq<char>,
    entry: EntryView,
    children: Option<Seq<EntryView>>,
) -> bool {
    &&& found.target@ == target
    &&& found.path@ == path
    &&& found.entry@ == entry
    &&& match (found.children, children) {
        (Some(c), Some(v)) => entry_views(c@) == v,
        (None, None) => true,
        _ => false,
    }
}

impl Propfind {
    /// The other device said what the target is. A listing that is kept and
    /// fresh serves in place of another.
    pub fn described(self, entry: Result<Entry, RpcError>, cache: &Cache, now: u64, ttl: u64) -> (
    step: PropfindStep)
        requires
            cache.wf(),
        ensures
            match entry {
                Err(e) => step matches PropfindStep::Answer(o) && o@ == read_failed(e),
                Ok(e) => if !(self.with_children && e.kind == EntryKind::Directory) {
                    step matches PropfindStep::Found(f) && knows(
                        f,
                        self.target@,
                        self.path@,
                        e@,
                        None,
                    ) && !f.keep
                } else {
                    match kept_listing(cache@, self.target@, now, ttl) {
                        Some(children) => step matches PropfindStep::Found(f) && knows(
                            f,
                            self.target@,
                            self.path@,
                            e@,
                            Some(children),
                        ) && !f.keep,
                        None => step matches PropfindStep::List(l) && l.paging.wf() && l.target@
                            == self.target@ && l.path@ == self.path@ && l.entry@ == e@
                            && l.paging@ == fresh_paging(),
                    }
                },
            },
    {
        let Propfind { target, path, with_children } = self;
        match entry {
            Err(e) => PropfindStep::Answer(after_failed_read(&e)),
            Ok(entry) => {
                let is_dir: bool = match entry.kind {
                    EntryKind::Directory => true,
                    EntryKind::File => false,
                };
                if !(with_children && is_dir) {
                    return PropfindStep::Found(
                        Found { target, path, entry, children: None, keep: false },
                    );
                }
                let kept: Option<Vec<Entry>> = match cache.get(target.as_str(), now, ttl) {
                    Some(children) => Some(copy_entries(children)),
                    None => None,
                };
                match kept {
                    Some(children) => PropfindStep::Found(
                        Found { target, path, entry, children: Some(children), keep: false },
                    ),
                    None => PropfindStep::List(
                        PropfindList { target, path, entry, paging: Paging::new() },
                    ),
                }
            },
        }
    }
}

impl PropfindList {
    /// One page of the folder has come. A folder past the bounds is answered
    /// with what came.
    pub fn listed(self, page: Result<(Vec<Entry>, Option<u64>), RpcError>) -> (step: PropfindStep)
        requires
            self.paging.wf(),
        ensures
            match page {
                Err(e) => step matches PropfindStep::Answer(o) && o@ == read_failed(e),
                Ok((entries, next)) => {
                    let after = with_one_page(self.paging@, entry_views(entries@), next);
                    if paged_to(self.paging@, entry_views(entries@), next) == Paged::More {
                        step matches PropfindStep::List(l) && l.paging.wf() && l.target@
                            == self.target@ && l.path@ == self.path@ && l.entry@ == self.entry@
                            && l.paging@ == after
                    } else {
                        step matches PropfindStep::Found(f) && knows(
                            f,
                            self.target@,
                            self.path@,
                            self.entry@,
                            Some(after.entries),
                        ) && f.keep
                    }
                },
            },
    {
        let PropfindList { target, path, entry, paging } = self;
        match page {
            Err(e) => PropfindStep::Answer(after_failed_read(&e)),
            Ok((entries, next)) => {
                let mut paging = paging;
                match paging.take(entries, next) {
                    Paged::More => PropfindStep::List(PropfindList { target, path, entry, paging }),
                    _ => PropfindStep::Found(
                        Found {
                            target,
                            path,
                            entry,
                            children: Some(paging.into_entries()),
                            keep: true,
                        },
                    ),
                }
            },
        }
    }
}

/// An entry that a listing shows: not a name of the sidecar store, and not
/// that of a landing in progress.
pub open spec fn is_shown(entry: EntryView) -> bool {
    !probe_name(entry.name) && !partial_name(entry.name)
}

/// The entries that a listing shows.
pub open spec fn shown(children: Seq<EntryView>) -> Seq<EntryView> {
    only(children, |e: EntryView| is_shown(e))
}

/// How a target is answered for. The mount root has no name of its own, and
/// takes the device's.
pub open spec fn item_of(target: Seq<char>, entry: EntryView, device_name: Seq<char>) -> ItemView {
    ItemView {
        path: target,
        name: if target.len() == 0 {
            device_name
        } else {
            segment_of(target)
        },
        is_dir: entry.kind == EntryKind::Directory,
        size: entry.size,
        modified_unix_secs: entry.modified_unix_secs,
    }
}

/// What a `PROPFIND` answers for: the target, then what is shown of it.
pub open spec fn items_of(
    target: Seq<char>,
    entry: EntryView,
    children: Seq<EntryView>,
    device_name: Seq<char>,
) -> Seq<ItemView> {
    seq![item_of(target, entry, device_name)] + shown(children).map_values(
        |e: EntryView| item_of(child_text(target, e.name), e, device_name),
    )
}

/// The path of one shown child, and its entry.
pub open spec fn child_of(target: Seq<char>, entry: EntryView) -> (Seq<char>, EntryView) {
    (child_text(target, entry.name), entry)
}

/// What is known of some children.
pub open spec fn child_views(children: Seq<Child>) -> Seq<(Seq<char>, EntryView)> {
    children.map_values(|c: Child| (c.path@, c.entry@))
}

/// The path of a child of a target.
fn child_target(target: &str, name: &str) -> (path: String)
    ensures
        path@ == child_text(target@, name@),
{
    if target.is_empty() {
        copy_of(name)
    } else {
        let mut path = copy_of(target);
        path.push_str("/");
        path.push_str(name);
        path
    }
}

/// The children that a listing shows, with their paths.
fn shown_children(target: &str, children: &Vec<Entry>) -> (out: Vec<Child>)
    ensures
        child_views(out@) == shown(entry_views(children@)).map_values(
            |e: EntryView| child_of(target@, e),
        ),
{
    let ghost views = entry_views(children@);
    let ghost test = |e: EntryView| is_shown(e);
    let ghost name = |e: EntryView| child_of(target@, e);
    let mut out: Vec<Child> = Vec::new();
    let mut i: usize = 0;
    assert(child_views(out@) =~= only(views.take(0), test).map_values(name));
    while i < children.len()
        invariant
            i <= children.len(),
            views == entry_views(children@),
            test == (|e: EntryView| is_shown(e)),
            name == (|e: EntryView| child_of(target@, e)),
            child_views(out@) == only(views.take(i as int), test).map_values(name),
        decreases children.len() - i,
    {
        let entry = &children[i];
        proof {
            assert(views[i as int] == entry@);
            lemma_only_step(views, test, i as int);
        }
        if !is_probe_name(entry.name.as_str()) && !is_partial_name(entry.name.as_str()) {
            let ghost so_far = child_views(out@);
            let ghost kept = only(views.take(i as int), test);
            let child = Child {
                path: child_target(target, entry.name.as_str()),
                entry: copy_entry(entry),
            };
            let ghost v = (child.path@, child.entry@);
            out.push(child);
            proof {
                assert(child_views(out@) =~= so_far.push(v));
                assert(kept.push(entry@).map_values(name) =~= so_far.push(v));
            }
        }
        i += 1;
    }
    assert(views.take(views.len() as int) =~= views);
    out
}

fn named<'a>(target: &'a str, device_name: &'a str) -> (name: &'a str)
    ensures
        name@ == (if target@.len() == 0 {
            device_name@
        } else {
            segment_of(target@)
        }),
{
    if target.is_empty() {
        device_name
    } else {
        last_segment(target)
    }
}

/// What a finished `PROPFIND` comes to.
pub struct Answered {
    pub outcome: Outcome,
    /// The children shown, for the prefetch; none where no folder was listed.
    pub children: Option<Vec<Child>>,
    /// The listing to keep for the target.
    pub keep: Option<Vec<Entry>>,
}

/// What a finished `PROPFIND` is answered with.
pub open spec fn propfind_view(
    target: Seq<char>,
    path: Seq<char>,
    entry: EntryView,
    children: Option<Seq<EntryView>>,
    device_name: Seq<char>,
    body: Seq<u8>,
) -> OutcomeView {
    let listed = match children {
        Some(c) => c,
        None => Seq::empty(),
    };
    OutcomeView {
        logged: seq![
            match children {
                Some(c) => LoggedView {
                    entries: Some(sat32(shown(c).len())),
                    ..log_of(AccessVerb::List, path)
                },
                None => log_of(AccessVerb::Stat, path),
            },
        ],
        ..only_reply(
            xml_view(
                "207 Multi-Status"@,
                multistatus_text(items_of(target, entry, listed, device_name), props_of(body)),
            ),
        )
    }
}

impl Found {
    /// What is known of the children.
    pub open spec fn child_entries(self) -> Option<Seq<EntryView>> {
        match self.children {
            Some(c) => Some(entry_views(c@)),
            None => None,
        }
    }

    /// The answer, once everything is known.
    pub fn answered(self, device_name: &str, body: &[u8]) -> (answered: Answered)
        ensures
            answered.outcome@ == propfind_view(
                self.target@,
                self.path@,
                self.entry@,
                self.child_entries(),
                device_name@,
                body@,
            ),
            match (answered.children, self.child_entries()) {
                (Some(c), Some(v)) => child_views(c@) == shown(v).map_values(
                    |e: EntryView| child_of(self.target@, e),
                ),
                (None, None) => true,
                _ => false,
            },
            match answered.keep {
                Some(k) => self.keep && self.child_entries() == Some(entry_views(k@)),
                None => !self.keep || self.child_entries() is None,
            },
    {
        let ghost all = match self.child_entries() {
            Some(c) => c,
            None => Seq::empty(),
        };
        let children: Option<Vec<Child>> = match &self.children {
            Some(c) => Some(shown_children(self.target.as_str(), c)),
            None => None,
        };
        let mut items: Vec<Item<'_>> = Vec::new();
        items.push(
            Item {
                path: self.target.as_str(),
                name: named(self.target.as_str(), device_name),
                is_dir: match self.entry.kind {
                    EntryKind::Directory => true,
                    EntryKind::File => false,
                },
                size: self.entry.size,
                modified_unix_secs: self.entry.modified_unix_secs,
            },
        );
        let ghost head = item_of(self.target@, self.entry@, device_name@);
        let ghost tail = shown(all).map_values(
            |e: EntryView| item_of(child_text(self.target@, e.name), e, device_name@),
        );
        assert(item_views(items@) =~= seq![head]);
        let mut count: usize = 0;
        match &children {
            Some(c) => {
                count = c.len();
                let mut i: usize = 0;
                assert(child_views(c@) == shown(all).map_values(
                    |e: EntryView| child_of(self.target@, e),
                ));
                assert(c@.len() == shown(all).len()) by {
                    assert(child_views(c@).len() == c@.len());
                }
                assert(item_views(items@) =~= seq![head] + tail.take(0));
                while i < c.len()
                    invariant
                        i <= c.len(),
                        c@.len() == shown(all).len(),
                        child_views(c@) == shown(all).map_values(
                            |e: EntryView| child_of(self.target@, e),
                        ),
                        tail == shown(all).map_values(
                            |e: EntryView|
                                item_of(child_text(self.target@, e.name), e, device_name@),
                        ),
                        item_views(items@) == seq![head] + tail.take(i as int),
                    decreases c.len() - i,
                {
                    let child = &c[i];
                    let ghost so_far = item_views(items@);
                    proof {
                        assert(child_views(c@)[i as int] == (child.path@, child.entry@));
                        assert(child_views(c@)[i as int] == child_of(
                            self.target@,
                            shown(all)[i as int],
                        ));
                    }
                    let item = Item {
                        path: child.path.as_str(),
                        name: named(child.path.as_str(), device_name),
                        is_dir: match child.entry.kind {
                            EntryKind::Directory => true,
                            EntryKind::File => false,
                        },
                        size: child.entry.size,
                        modified_unix_secs: child.entry.modified_unix_secs,
                    };
                    let ghost v = item@;
                    items.push(item);
                    proof {
                        assert(v == tail[i as int]);
                        assert(item_views(items@) =~= so_far.push(v));
                        assert(tail.take(i + 1) =~= tail.take(i as int).push(v));
                        assert(item_views(items@) =~= seq![head] + tail.take(i + 1));
                    }
                    i += 1;
                }
                assert(tail.take(tail.len() as int) =~= tail);
            },
            None => {
                assert(shown(all) =~= Seq::<EntryView>::empty());
                assert(item_views(items@) =~= seq![head] + tail);
            },
        }
        let props = requested_props(body);
        let text = multistatus(items.as_slice(), &props);
        let logged = match &children {
            Some(_) => Logged {
                verb: AccessVerb::List,
                path: copy_of(self.path.as_str()),
                bytes: None,
                entries: Some(len_u32(count)),
                files: None,
            },
            None => log_entry(AccessVerb::Stat, self.path.as_str()),
        };
        let outcome = just(xml_reply("207 Multi-Status", text.as_str())).and_log(logged);
        assert(outcome@.logged =~= seq![logged@]);
        let keep: Option<Vec<Entry>> = if self.keep {
            match &self.children {
                Some(c) => Some(copy_entries(c)),
                None => None,
            }
        } else {
            None
        };
        Answered { outcome, children, keep }
    }
}

/// `PROPFIND` of a name of the sidecar store: `None` where the store does not
/// have it, else its size and modified time.
pub fn propfind_probe(target: &str, stored: Option<(u64, i64)>, body: &[u8]) -> (outcome: Outcome)
    ensures
        outcome@ == (match stored {
            None => plain("404 Not Found"@),
            Some((size, modified)) => only_reply(
                xml_view(
                    "207 Multi-Status"@,
                    multistatus_text(
                        seq![
                            ItemView {
                                path: target@,
                                name: segment_of(target@),
                                is_dir: false,
                                size,
                                modified_unix_secs: modified,
                            },
                        ],
                        props_of(body@),
                    ),
                ),
            ),
        }),
{
    match stored {
        None => answer("404 Not Found"),
        Some((size, modified_unix_secs)) => {
            let props = requested_props(body);
            let mut items: Vec<Item<'_>> = Vec::new();
            let item = Item {
                path: target,
                name: last_segment(target),
                is_dir: false,
                size,
                modified_unix_secs,
            };
            let ghost v = item@;
            items.push(item);
            assert(item_views(items@) =~= seq![v]);
            let text = multistatus(items.as_slice(), &props);
            just(xml_reply("207 Multi-Status", text.as_str()))
        },
    }
}

/// No listing ever shows a name of the sidecar store, or that of a landing in
/// progress.
pub proof fn lemma_hidden_names(children: Seq<EntryView>, i: int)
    requires
        0 <= i < shown(children).len(),
    ensures
        !probe_name(shown(children)[i].name),
        !partial_name(shown(children)[i].name),
{
    crate::seqs::lemma_only(children, |e: EntryView| is_shown(e));
    assert(is_shown(shown(children)[i]));
}

/// A folder's own path, and that of a name in it.
proof fn lemma_child_item(target: Seq<char>, e: EntryView, device_name: Seq<char>)
    requires
        e.name.len() > 0,
        !e.name.contains('/'),
    ensures
        item_of(child_text(target, e.name), e, device_name) == (ItemView {
            path: if target.len() == 0 {
                e.name
            } else {
                target + "/"@ + e.name
            },
            name: e.name,
            is_dir: e.kind == EntryKind::Directory,
            size: e.size,
            modified_unix_secs: e.modified_unix_secs,
        }),
{
    crate::dav::probes::lemma_name_in_folder(target, e.name);
    reveal_strlit("/");
}

/// A listing shows the folder and everything in it that is not hidden: each
/// under its own path and name, as the kind of thing it is, with its own size
/// and time, and with the properties that were asked for.
pub proof fn lemma_listing_shows_everything(
    found: Found,
    device_name: &str,
    body: &[u8],
    answered: Answered,
    children: Seq<EntryView>,
    i: int,
)
    requires
        call_ensures(Found::answered, (found, device_name, body), answered),
        found.child_entries() == Some(children),
        0 <= i < children.len(),
        !probe_name(children[i].name),
        !partial_name(children[i].name),
        children[i].name.len() > 0,
        !children[i].name.contains('/'),
    ensures
        answered.outcome@.reply.status == "207 Multi-Status"@,
        exists|text: Seq<char>|
            answered.outcome@.reply.body == #[trigger] vstd::utf8::encode_utf8(text)
                && crate::text::has_part(
                text,
                crate::dav::xml::response_text(
                    ItemView {
                        path: if found.target@.len() == 0 {
                            children[i].name
                        } else {
                            found.target@ + "/"@ + children[i].name
                        },
                        name: children[i].name,
                        is_dir: children[i].kind == EntryKind::Directory,
                        size: children[i].size,
                        modified_unix_secs: children[i].modified_unix_secs,
                    },
                    props_of(body@),
                ),
            ),
{
    let e = children[i];
    let target = found.target@;
    let kept = shown(children);
    let test = |e: EntryView| is_shown(e);
    crate::seqs::lemma_only(children, test);
    assert(test(children[i]));
    let k = choose|k: int| 0 <= k < kept.len() && kept[k] == e;
    let items = items_of(target, found.entry@, children, device_name@);
    assert(items[k + 1] == item_of(child_text(target, e.name), e, device_name@));
    lemma_child_item(target, e, device_name@);
    crate::dav::xml::lemma_every_item_is_answered(items, props_of(body@), k + 1);
    let text = multistatus_text(items, props_of(body@));
    assert(answered.outcome@.reply.body == vstd::utf8::encode_utf8(text));
}

/// What was asked for is in the answer itself, whether or not its content is
/// asked for too; and where its content is not, the answer is for it alone.
pub proof fn lemma_answer_is_for_the_target(
    found: Found,
    device_name: &str,
    body: &[u8],
    answered: Answered,
)
    requires
        call_ensures(Found::answered, (found, device_name, body), answered),
    ensures
        answered.outcome@.reply.status == "207 Multi-Status"@,
        !answered.outcome@.unhealthy,
        ({
            let item = ItemView {
                path: found.target@,
                name: if found.target@.len() == 0 {
                    device_name@
                } else {
                    segment_of(found.target@)
                },
                is_dir: found.entry.kind == EntryKind::Directory,
                size: found.entry.size,
                modified_unix_secs: found.entry.modified_unix_secs,
            };
            exists|text: Seq<char>|
                answered.outcome@.reply.body == #[trigger] vstd::utf8::encode_utf8(text)
                    && crate::text::has_part(
                    text,
                    crate::dav::xml::response_text(item, props_of(body@)),
                ) && (found.children is None ==> text == multistatus_text(
                    seq![item],
                    props_of(body@),
                ))
        }),
{
    let listed = match found.child_entries() {
        Some(c) => c,
        None => Seq::empty(),
    };
    let items = items_of(found.target@, found.entry@, listed, device_name@);
    let text = multistatus_text(items, props_of(body@));
    crate::dav::xml::lemma_every_item_is_answered(items, props_of(body@), 0);
    if found.children is None {
        assert(shown(listed).len() == 0);
        assert(items =~= seq![item_of(found.target@, found.entry@, device_name@)]);
    }
    assert(answered.outcome@.reply.body == vstd::utf8::encode_utf8(text));
}

/// A depth has to be told and to be finite; with none the target alone is
/// asked for, and else what is in it too.
pub proof fn lemma_depth_is_followed(target: &str, depth: Option<&str>, step: PropfindStep)
    requires
        call_ensures(propfind, (target, depth), step),
        path_of(target@) is Some,
    ensures
        step matches PropfindStep::Stat(asked) ==> depth is Some && depth->0@ != "infinity"@
            && asked.target@ == target@ && (asked.with_children <==> depth->0@ != "0"@),
        depth is Some && depth->0@ != "infinity"@ ==> step is Stat,
        !(step is Stat) ==> (step matches PropfindStep::Answer(o) && o@.reply.status
            == "403 Forbidden"@),
{
}

} // verus!
