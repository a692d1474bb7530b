//! The write verbs: `MKCOL`, `DELETE`, `MOVE`, `COPY`, and `PUT`.

use crate::core_errors::{OpError, RpcError};
use crate::dav::http::{
    destination_of, destination_path, etag, etag_of, header_value, RequestHead, MAX_PUT_BODY_LEN,
};
use crate::dav::lock::{write_allowed, HeldView, LockTable};
use crate::dav::probes::{
    is_partial_name, is_probe_name, last_segment, parent_of, parent_of_path, partial_name,
    probe_name, segment_of, SidecarWriteError,
};
use crate::dav::put::{
    delta_landing, land_delta, land_new, new_landing, LandStep, Reading, SpoolError,
};
use crate::dav::reply::{
    after_failed_write, answer, just, log_entry, log_of, no_body, no_body_view, plain,
    write_failed, Logged, LoggedView, Outcome, OutcomeView, ReplyView,
};
use crate::folder::{
    entry_views, lemma_deepest_first, lemma_nested_page, nested, settle, with_page, FoundFile,
    FoundView, ListRecursiveError, Settled, Walk,
};
use crate::path::{components, joined, path_problem, RemotePath};
use crate::seqs::{len_u32, sat32};
use crate::manifest::Manifest;
use crate::text::{
    copy_of, decimal, opt_view, optional, push_decimal, same_text, strip_both, stripped,
};
use crate::types::{AccessVerb, Entry, EntryKind};
use vstd::prelude::*;

verus! {

/// The path a target reads as, where it does.
pub open spec fn path_of(target: Seq<char>) -> Option<Seq<char>> {
    if path_problem(target) is None {
        Some(joined(components(target)))
    } else {
        None
    }
}

/// The path a target reads as, where it does.
pub fn target_path(target: &str) -> (path: Option<RemotePath>)
    ensures
        match path {
            Some(p) => path_of(target@) == Some(p@),
            None => path_of(target@) is None,
        },
{
    match RemotePath::parse(target) {
        Ok(p) => Some(p),
        Err(_) => None,
    }
}

// ---------------------------------------------------------------------------
// MKCOL.
// ---------------------------------------------------------------------------

/// What `MKCOL` comes to next.
pub enum MkcolStep {
    Answer(Outcome),
    /// Make this folder on the other device.
    Mkdir(Mkcol),
}

/// A folder that is to be made.
pub struct Mkcol {
    pub target: String,
    pub path: RemotePath,
}

/// `MKCOL`: one folder.
pub fn mkcol_verb(target: &str, if_header: Option<&str>, locks: &LockTable, now: u64) -> (step:
    MkcolStep)
    requires
        locks.wf(),
    ensures
        match path_of(target@) {
            None => step matches MkcolStep::Answer(o) && o@ == plain("404 Not Found"@),
            Some(path) => if path.len() == 0 {
                step matches MkcolStep::Answer(o) && o@ == plain("404 Not Found"@)
            } else if !write_allowed(locks@, target@, optional(if_header), now) {
                step matches MkcolStep::Answer(o) && o@ == plain("423 Locked"@)
            } else {
                step matches MkcolStep::Mkdir(m) && m.target@ == target@ && m.path@ == path
            },
        },
{
    let path = match target_path(target) {
        None => {
            return MkcolStep::Answer(answer("404 Not Found"));
        },
        Some(path) => path,
    };
    if path.is_root() {
        return MkcolStep::Answer(answer("404 Not Found"));
    }
    if !locks.allows(target, if_header, now) {
        return MkcolStep::Answer(answer("423 Locked"));
    }
    MkcolStep::Mkdir(Mkcol { target: copy_of(target), path })
}

impl Mkcol {
    /// The other device made the folder, or did not. A folder whose parent is
    /// missing is a conflict.
    pub fn answered(self, made: Result<(), RpcError>) -> (outcome: Outcome)
        ensures
            outcome@ == (match made {
                Ok(_) => OutcomeView {
                    invalidate: seq![parent_of_path(self.target@)],
                    logged: seq![log_of(AccessVerb::Mkdir, self.path@)],
                    ..plain("201 Created"@)
                },
                Err(RpcError::Remote(OpError::NotFound)) => plain("409 Conflict"@),
                Err(e) => write_failed(e),
            }),
    {
        match made {
            Ok(_) => {
                let outcome = answer("201 Created").and_invalidate(
                    parent_of(self.target.as_str()),
                ).and_log(log_entry(AccessVerb::Mkdir, self.path.as_str()));
                assert(outcome@.invalidate =~= seq![parent_of_path(self.target@)]);
                assert(outcome@.logged =~= seq![log_of(AccessVerb::Mkdir, self.path@)]);
                outcome
            },
            Err(RpcError::Remote(OpError::NotFound)) => answer("409 Conflict"),
            Err(e) => after_failed_write(&e),
        }
    }
}

// ---------------------------------------------------------------------------
// DELETE.
// ---------------------------------------------------------------------------

/// What `DELETE` comes to next.
pub enum DeleteStep {
    Answer(Outcome),
    /// Take this name out of the sidecar store.
    Sidecar(String),
    /// Ask what the target is.
    Stat(DeleteTarget),
    /// Delete this one file.
    File(DeleteTarget),
    /// List one page more of the folder.
    List(DeleteWalk),
    /// Delete the next of what was found in the folder.
    Remove(DeleteAll),
}

/// What is to be deleted.
pub struct DeleteTarget {
    pub target: String,
    pub path: RemotePath,
}

/// A folder that is being walked.
pub struct DeleteWalk {
    pub target: String,
    pub path: RemotePath,
    pub walk: Walk,
}

/// Everything a `DELETE` of a folder removes, in the order it is removed:
/// every file, then every folder, the folder itself last.
pub struct Plan {
    pub files: Vec<FoundFile>,
    pub dirs: Vec<RemotePath>,
}

/// A folder whose content is being deleted.
pub struct DeleteAll {
    pub target: String,
    pub path: RemotePath,
    pub plan: Plan,
    /// How many of the planned files are gone.
    pub files_gone: usize,
    /// How many of the planned folders are gone.
    pub dirs_gone: usize,
}

/// The paths of a plan, in the order they are removed.
pub open spec fn planned(files: Seq<FoundView>, dirs: Seq<Seq<char>>) -> Seq<Seq<char>> {
    files.map_values(|f: FoundView| f.path) + dirs
}

impl Plan {
    /// The paths, in the order they are removed.
    pub open spec fn paths(self) -> Seq<Seq<char>> {
        planned(
            self.files@.map_values(|f: FoundFile| f@),
            self.dirs@.map_values(|d: RemotePath| d@),
        )
    }

    /// How many files this plan removes, for the access log.
    pub fn file_count(&self) -> (count: u32)
        ensures
            count == sat32(self.files@.len()),
    {
        len_u32(self.files.len())
    }
}

/// One of the paths may not be written to.
pub open spec fn some_locked(
    paths: Seq<Seq<char>>,
    held: Map<Seq<char>, HeldView>,
    if_header: Option<Seq<char>>,
    now: u64,
) -> bool {
    exists|i: int|
        0 <= i < paths.len() && !write_allowed(held, #[trigger] paths[i], if_header, now)
}

fn any_locked(plan: &Plan, locks: &LockTable, if_header: Option<&str>, now: u64) -> (any: bool)
    requires
        locks.wf(),
    ensures
        any == some_locked(plan.paths(), locks@, optional(if_header), now),
{
    let mut i: usize = 0;
    while i < plan.files.len()
        invariant
            i <= plan.files.len(),
            locks.wf(),
            forall|j: int|
                0 <= j < i ==> write_allowed(
                    locks@,
                    #[trigger] plan.paths()[j],
                    optional(if_header),
                    now,
                ),
        decreases plan.files.len() - i,
    {
        let path = &plan.files[i].path;
        assert(plan.paths()[i as int] == path@);
        if !locks.allows(path.as_str(), if_header, now) {
            return true;
        }
        i += 1;
    }
    let mut k: usize = 0;
    while k < plan.dirs.len()
        invariant
            k <= plan.dirs.len(),
            locks.wf(),
            forall|j: int|
                0 <= j < plan.files.len() + k ==> write_allowed(
                    locks@,
                    #[trigger] plan.paths()[j],
                    optional(if_header),
                    now,
                ),
        decreases plan.dirs.len() - k,
    {
        let path = &plan.dirs[k];
        assert(plan.paths()[plan.files.len() + k] == path@);
        if !locks.allows(path.as_str(), if_header, now) {
            return true;
        }
        k += 1;
    }
    false
}

/// `DELETE`: a file, or a folder with everything in it. A name of the sidecar
/// store never reaches the other device.
pub fn delete_verb(target: &str, if_header: Option<&str>, locks: &LockTable, now: u64) -> (step:
    DeleteStep)
    requires
        locks.wf(),
    ensures
        if !write_allowed(locks@, target@, optional(if_header), now) {
            step matches DeleteStep::Answer(o) && o@ == plain("423 Locked"@)
        } else if probe_name(segment_of(target@)) {
            step matches DeleteStep::Sidecar(name) && name@ == target@
        } else {
            match path_of(target@) {
                None => step matches DeleteStep::Answer(o) && o@ == plain("404 Not Found"@),
                Some(path) => if path.len() == 0 {
                    step matches DeleteStep::Answer(o) && o@ == plain("403 Forbidden"@)
                } else {
                    step matches DeleteStep::Stat(d) && d.target@ == target@ && d.path@ == path
                },
            }
        },
{
    if !locks.allows(target, if_header, now) {
        return DeleteStep::Answer(answer("423 Locked"));
    }
    if is_probe_name(last_segment(target)) {
        return DeleteStep::Sidecar(copy_of(target));
    }
    let path = match target_path(target) {
        None => {
            return DeleteStep::Answer(answer("404 Not Found"));
        },
        Some(path) => path,
    };
    if path.is_root() {
        return DeleteStep::Answer(answer("403 Forbidden"));
    }
    DeleteStep::Stat(DeleteTarget { target: copy_of(target), path })
}

/// The sidecar store had the name that was taken out or renamed, or had not.
pub fn sidecar_moved(found: bool) -> (outcome: Outcome)
    ensures
        outcome@ == plain(
            if found {
                "204 No Content"@
            } else {
                "404 Not Found"@
            },
        ),
{
    if found {
        answer("204 No Content")
    } else {
        answer("404 Not Found")
    }
}

impl DeleteTarget {
    /// The other device said what the target is.
    pub fn described(self, entry: Result<Entry, RpcError>) -> (step: DeleteStep)
        ensures
            match entry {
                Ok(e) => match e.kind {
                    EntryKind::File => step == DeleteStep::File(self),
                    EntryKind::Directory => step matches DeleteStep::List(d) && d.wf()
                        && d.target@ == self.target@ && d.path@ == self.path@ && d.walk@
                        == crate::folder::fresh_walk(self.path@),
                },
                Err(e) => step matches DeleteStep::Answer(o) && o@ == write_failed(e),
            },
    {
        match entry {
            Ok(e) => match e.kind {
                EntryKind::File => DeleteStep::File(self),
                EntryKind::Directory => {
                    let walk = Walk::start(&self.path);
                    proof {
                        crate::folder::lemma_nested_start(self.path@);
                    }
                    assert(walk@ =~= crate::folder::fresh_walk(self.path@));
                    DeleteStep::List(DeleteWalk { target: self.target, path: self.path, walk })
                },
            },
            Err(e) => DeleteStep::Answer(after_failed_write(&e)),
        }
    }

    /// The other device deleted the one file, or did not.
    pub fn deleted(self, gone: Result<(), RpcError>) -> (outcome: Outcome)
        ensures
            outcome@ == (match gone {
                Ok(_) => OutcomeView {
                    invalidate: seq![parent_of_path(self.target@)],
                    logged: seq![log_of(AccessVerb::Delete, self.path@)],
                    ..plain("204 No Content"@)
                },
                Err(e) => write_failed(e),
            }),
    {
        match gone {
            Ok(_) => {
                let outcome = answer("204 No Content").and_invalidate(
                    parent_of(self.target.as_str()),
                ).and_log(log_entry(AccessVerb::Delete, self.path.as_str()));
                assert(outcome@.invalidate =~= seq![parent_of_path(self.target@)]);
                assert(outcome@.logged =~= seq![log_of(AccessVerb::Delete, self.path@)]);
                outcome
            },
            Err(e) => after_failed_write(&e),
        }
    }
}

impl DeleteWalk {
    /// The walk wants a page, and began at the folder that is to go.
    pub open spec fn wf(self) -> bool {
        self.walk.wf() && self.walk@.stack.len() > 0 && nested(self.walk@, self.path@)
    }

    /// One page of the folder has come. Once the last one has, every path
    /// that is to be removed is held against the locks before the first one
    /// is: one that is locked refuses the whole request.
    pub fn listed(
        self,
        page: Result<(Vec<Entry>, Option<u64>), RpcError>,
        if_header: Option<&str>,
        locks: &LockTable,
        now: u64,
    ) -> (step: DeleteStep)
        requires
            self.wf(),
            locks.wf(),
        ensures
            match page {
                Err(e) => step matches DeleteStep::Answer(o) && o@ == write_failed(e),
                Ok((entries, next)) => match settle(
                    with_page(self.walk@, entry_views(entries@), next),
                ) {
                    Settled::TooLarge => step matches DeleteStep::Answer(o) && o@ == plain(
                        "507 Insufficient Storage"@,
                    ),
                    Settled::InvalidPath => step matches DeleteStep::Answer(o) && o@
                        == write_failed(RpcError::Remote(OpError::InvalidPath)),
                    Settled::At(w) => if w.stack.len() > 0 {
                        step matches DeleteStep::List(d) && d.wf() && d.target@ == self.target@
                            && d.path@ == self.path@ && d.walk@ == w
                    } else if some_locked(
                        planned(w.files, w.dirs),
                        locks@,
                        optional(if_header),
                        now,
                    ) {
                        step matches DeleteStep::Answer(o) && o@ == plain("423 Locked"@)
                    } else {
                        step matches DeleteStep::Remove(d) && d.wf() && d.target@ == self.target@
                            && d.path@ == self.path@ && d.gone() == 0 && d.plan.paths() == planned(
                            w.files,
                            w.dirs,
                        ) && d.plan.files@.len() == w.files.len() && d.plan.dirs@.map_values(
                            |p: RemotePath| p@,
                        ) == w.dirs
                    },
                },
            },
    {
        match page {
            Err(e) => DeleteStep::Answer(after_failed_write(&e)),
            Ok((entries, next)) => {
                let DeleteWalk { target, path, walk } = self;
                let mut walk = walk;
                proof {
                    lemma_nested_page(walk@, path@, entry_views(entries@), next);
                    lemma_deepest_first(
                        with_page(walk@, entry_views(entries@), next),
                        path@,
                    );
                }
                match walk.feed(entries, next) {
                    Err(ListRecursiveError::TooLarge) => DeleteStep::Answer(
                        answer("507 Insufficient Storage"),
                    ),
                    Err(ListRecursiveError::Op(op)) => DeleteStep::Answer(
                        after_failed_write(&RpcError::Remote(op)),
                    ),
                    Ok(()) => {
                        if walk.request().is_some() {
                            return DeleteStep::List(DeleteWalk { target, path, walk });
                        }
                        let ghost w = walk@;
                        let (files, dirs) = walk.into_found();
                        let plan = Plan { files, dirs };
                        assert(plan.paths() == planned(w.files, w.dirs));
                        if any_locked(&plan, locks, if_header, now) {
                            return DeleteStep::Answer(answer("423 Locked"));
                        }
                        DeleteStep::Remove(
                            DeleteAll { target, path, plan, files_gone: 0, dirs_gone: 0 },
                        )
                    },
                }
            },
        }
    }
}

impl DeleteAll {
    /// How many of the planned paths are gone.
    pub open spec fn gone(self) -> nat {
        (self.files_gone + self.dirs_gone) as nat
    }

    /// There is something left to remove, and no folder is gone while a file
    /// is left.
    pub open spec fn wf(self) -> bool {
        &&& self.files_gone <= self.plan.files@.len()
        &&& self.dirs_gone < self.plan.dirs@.len()
        &&& self.dirs_gone > 0 ==> self.files_gone == self.plan.files@.len()
    }

    /// What is removed next.
    pub fn next(&self) -> (path: &RemotePath)
        requires
            self.wf(),
        ensures
            self.gone() < self.plan.paths().len(),
            path@ == self.plan.paths()[self.gone() as int],
    {
        if self.files_gone < self.plan.files.len() {
            &self.plan.files[self.files_gone].path
        } else {
            &self.plan.dirs[self.dirs_gone]
        }
    }

    /// What the finished request is answered with.
    pub open spec fn finished(self) -> OutcomeView {
        OutcomeView {
            invalidate: seq![parent_of_path(self.target@)] + self.plan.dirs@.map_values(
                |d: RemotePath| d@,
            ),
            logged: seq![
                LoggedView {
                    files: Some(sat32(self.plan.files@.len())),
                    ..log_of(AccessVerb::Delete, self.path@)
                },
            ],
            ..plain("204 No Content"@)
        }
    }

    /// The other device removed the next path, or did not.
    pub fn removed(self, gone: Result<(), RpcError>) -> (step: DeleteStep)
        requires
            self.wf(),
        ensures
            match gone {
                Err(e) => step matches DeleteStep::Answer(o) && o@ == write_failed(e),
                Ok(_) => if self.gone() + 1 < self.plan.paths().len() {
                    step matches DeleteStep::Remove(d) && d.wf() && d == (DeleteAll {
                        files_gone: d.files_gone,
                        dirs_gone: d.dirs_gone,
                        ..self
                    }) && d.gone() == self.gone() + 1
                } else {
                    step matches DeleteStep::Answer(o) && o@ == self.finished()
                },
            },
    {
        if let Err(e) = gone {
            return DeleteStep::Answer(after_failed_write(&e));
        }
        if self.files_gone < self.plan.files.len() {
            let DeleteAll { target, path, plan, files_gone, dirs_gone } = self;
            return DeleteStep::Remove(
                DeleteAll { target, path, plan, files_gone: files_gone + 1, dirs_gone },
            );
        }
        if self.plan.dirs.len() - self.dirs_gone > 1 {
            let DeleteAll { target, path, plan, files_gone, dirs_gone } = self;
            return DeleteStep::Remove(
                DeleteAll { target, path, plan, files_gone, dirs_gone: dirs_gone + 1 },
            );
        }
        let count = self.plan.file_count();
        let mut outcome = answer("204 No Content").and_invalidate(parent_of(self.target.as_str()));
        let ghost dirs = self.plan.dirs@.map_values(|d: RemotePath| d@);
        let ghost first = seq![parent_of_path(self.target@)];
        let mut i: usize = 0;
        assert(outcome@.invalidate =~= first + dirs.take(0));
        while i < self.plan.dirs.len()
            invariant
                i <= self.plan.dirs.len(),
                dirs == self.plan.dirs@.map_values(|d: RemotePath| d@),
                outcome@ == (OutcomeView {
                    invalidate: first + dirs.take(i as int),
                    ..plain("204 No Content"@)
                }),
            decreases self.plan.dirs.len() - i,
        {
            outcome = outcome.and_invalidate(self.plan.dirs[i].as_str());
            assert(first + dirs.take(i + 1) =~= (first + dirs.take(i as int)).push(
                self.plan.dirs@[i as int]@,
            ));
            i += 1;
        }
        assert(dirs.take(dirs.len() as int) =~= dirs);
        let outcome = outcome.and_log(
            Logged {
                verb: AccessVerb::Delete,
                path: copy_of(self.path.as_str()),
                bytes: None,
                entries: None,
                files: Some(count),
            },
        );
        assert(outcome@ =~= self.finished());
        DeleteStep::Answer(outcome)
    }
}

// ---------------------------------------------------------------------------
// MOVE.
// ---------------------------------------------------------------------------

/// The host a request has to name.
pub open spec fn host_of(port: u16) -> Seq<char> {
    "127.0.0.1:"@ + decimal(port as nat)
}

/// The host a request has to name.
pub fn expected_host(port: u16) -> (host: String)
    ensures
        host@ == host_of(port),
{
    let mut host = copy_of("127.0.0.1:");
    push_decimal(&mut host, port as u64);
    host
}

/// Where a request wants something to go, without slashes at its ends.
pub open spec fn destination_target(value: Option<Seq<char>>, port: u16) -> Option<Seq<char>> {
    match destination_of(value, host_of(port)) {
        Some(d) => Some(strip_both(d, '/')),
        None => None,
    }
}

fn read_destination(value: Option<&str>, port: u16) -> (destination: Option<String>)
    ensures
        opt_view(destination) == destination_target(optional(value), port),
{
    let host = expected_host(port);
    match destination_path(value, host.as_str()) {
        Some(d) => Some(stripped(d.as_str(), '/')),
        None => None,
    }
}

/// What a verb that names two paths has read of its headers.
pub struct TwoPaths<'a> {
    /// The value of `If`.
    pub if_header: Option<&'a str>,
    /// The value of `Destination`.
    pub destination: Option<&'a str>,
    /// The value of `Overwrite`.
    pub overwrite: Option<&'a str>,
}

/// What is there already must not be replaced.
pub open spec fn keeps_existing(overwrite: Option<Seq<char>>) -> bool {
    overwrite == Some("F"@)
}

fn must_keep(overwrite: Option<&str>) -> (keep: bool)
    ensures
        keep == keeps_existing(optional(overwrite)),
{
    match overwrite {
        Some(value) => same_text(value, "F"),
        None => false,
    }
}

/// What `MOVE` comes to next.
pub enum MoveStep {
    Answer(Outcome),
    /// Rename in the sidecar store, from the first name to the second.
    Sidecar(String, String),
    /// Ask whether the destination is there already.
    Check(Move),
    /// Rename on the other device.
    Rename(Move),
}

/// Something that is to be renamed.
pub struct Move {
    pub target: String,
    pub destination: String,
    pub from: RemotePath,
    pub to: RemotePath,
}

/// The step holds this move.
pub open spec fn moves(
    m: Move,
    target: Seq<char>,
    destination: Seq<char>,
    from: Seq<char>,
    to: Seq<char>,
) -> bool {
    m.target@ == target && m.destination@ == destination && m.from@ == from && m.to@ == to
}

/// A name that only a landing in progress has.
pub open spec fn is_partial_target(target: Seq<char>) -> bool {
    partial_name(segment_of(target))
}

/// A name of the sidecar store.
pub open spec fn is_probe_target(target: Seq<char>) -> bool {
    probe_name(segment_of(target))
}

/// `MOVE`: a rename within one root. Neither end may have the name of a
/// landing in progress, and a real file cannot take a name of the sidecar
/// store.
pub fn move_verb(target: &str, headers: &TwoPaths<'_>, port: u16, locks: &LockTable, now: u64) -> (
step: MoveStep)
    requires
        locks.wf(),
    ensures
        ({
            let if_header = optional(headers.if_header);
            if !write_allowed(locks@, target@, if_header, now) {
                step matches MoveStep::Answer(o) && o@ == plain("423 Locked"@)
            } else {
                match destination_target(optional(headers.destination), port) {
                    None => step matches MoveStep::Answer(o) && o@ == plain("400 Bad Request"@),
                    Some(dest) => if !write_allowed(locks@, dest, if_header, now) {
                        step matches MoveStep::Answer(o) && o@ == plain("423 Locked"@)
                    } else if is_partial_target(target@) || is_partial_target(dest) {
                        step matches MoveStep::Answer(o) && o@ == plain("403 Forbidden"@)
                    } else if is_probe_target(dest) && !is_probe_target(target@) {
                        step matches MoveStep::Answer(o) && o@ == plain("403 Forbidden"@)
                    } else if is_probe_target(target@) {
                        step matches MoveStep::Sidecar(from, to) && from@ == target@ && to@ == dest
                    } else {
                        match (path_of(target@), path_of(dest)) {
                            (None, _) => step matches MoveStep::Answer(o) && o@ == plain(
                                "404 Not Found"@,
                            ),
                            (Some(_), None) => step matches MoveStep::Answer(o) && o@ == plain(
                                "400 Bad Request"@,
                            ),
                            (Some(from), Some(to)) => if keeps_existing(
                                optional(headers.overwrite),
                            ) {
                                step matches MoveStep::Check(m) && moves(
                                    m,
                                    target@,
                                    dest,
                                    from,
                                    to,
                                )
                            } else {
                                step matches MoveStep::Rename(m) && moves(
                                    m,
                                    target@,
                                    dest,
                                    from,
                                    to,
                                )
                            },
                        }
                    },
                }
            }
        }),
{
    if !locks.allows(target, headers.if_header, now) {
        return MoveStep::Answer(answer("423 Locked"));
    }
    let destination = match read_destination(headers.destination, port) {
        None => {
            return MoveStep::Answer(answer("400 Bad Request"));
        },
        Some(d) => d,
    };
    if !locks.allows(destination.as_str(), headers.if_header, now) {
        return MoveStep::Answer(answer("423 Locked"));
    }
    if is_partial_name(last_segment(target)) || is_partial_name(
        last_segment(destination.as_str()),
    ) {
        return MoveStep::Answer(answer("403 Forbidden"));
    }
    let from_probe = is_probe_name(last_segment(target));
    let to_probe = is_probe_name(last_segment(destination.as_str()));
    if to_probe && !from_probe {
        return MoveStep::Answer(answer("403 Forbidden"));
    }
    if from_probe {
        return MoveStep::Sidecar(copy_of(target), destination);
    }
    let from = match target_path(target) {
        None => {
            return MoveStep::Answer(answer("404 Not Found"));
        },
        Some(p) => p,
    };
    let to = match target_path(destination.as_str()) {
        None => {
            return MoveStep::Answer(answer("400 Bad Request"));
        },
        Some(p) => p,
    };
    let next = Move { target: copy_of(target), destination, from, to };
    if must_keep(headers.overwrite) {
        MoveStep::Check(next)
    } else {
        MoveStep::Rename(next)
    }
}

/// What asking for the destination comes to, where it must not be replaced:
/// the answer, or `None` where it is not there and the verb goes on.
pub open spec fn conflict_of(entry: Result<Entry, RpcError>) -> Option<OutcomeView> {
    match entry {
        Ok(_) => Some(plain("412 Precondition Failed"@)),
        Err(RpcError::Remote(OpError::NotFound)) => None,
        Err(e) => Some(write_failed(e)),
    }
}

/// What asking for the destination comes to, where it must not be replaced.
pub fn overwrite_conflict(entry: Result<Entry, RpcError>) -> (conflict: Option<Outcome>)
    ensures
        match conflict {
            Some(o) => conflict_of(entry) == Some(o@),
            None => conflict_of(entry) is None,
        },
        conflict is None <==> (entry matches Err(RpcError::Remote(OpError::NotFound))),
        entry is Ok ==> conflict is Some && conflict->0.reply.status@
            == "412 Precondition Failed"@,
{
    match entry {
        Ok(_) => Some(answer("412 Precondition Failed")),
        Err(RpcError::Remote(OpError::NotFound)) => None,
        Err(e) => Some(after_failed_write(&e)),
    }
}

impl Move {
    /// The other device said whether the destination is there.
    pub fn checked(self, entry: Result<Entry, RpcError>) -> (step: MoveStep)
        ensures
            match conflict_of(entry) {
                Some(o) => step matches MoveStep::Answer(a) && a@ == o,
                None => step == MoveStep::Rename(self),
            },
            (entry matches Err(RpcError::Remote(OpError::NotFound))) ==> step == MoveStep::Rename(
                self,
            ),
            entry is Ok ==> step is Answer,
    {
        match overwrite_conflict(entry) {
            Some(o) => MoveStep::Answer(o),
            None => MoveStep::Rename(self),
        }
    }

    /// The other device renamed it, or did not.
    pub fn renamed(self, moved: Result<(), RpcError>) -> (outcome: Outcome)
        ensures
            outcome@ == (match moved {
                Ok(_) => OutcomeView {
                    invalidate: seq![
                        parent_of_path(self.target@),
                        parent_of_path(self.destination@),
                    ],
                    logged: seq![log_of(AccessVerb::Rename, self.to@)],
                    ..plain("204 No Content"@)
                },
                Err(e) => write_failed(e),
            }),
    {
        match moved {
            Ok(_) => {
                let outcome = answer("204 No Content").and_invalidate(
                    parent_of(self.target.as_str()),
                ).and_invalidate(parent_of(self.destination.as_str())).and_log(
                    log_entry(AccessVerb::Rename, self.to.as_str()),
                );
                assert(outcome@.invalidate =~= seq![
                    parent_of_path(self.target@),
                    parent_of_path(self.destination@),
                ]);
                assert(outcome@.logged =~= seq![log_of(AccessVerb::Rename, self.to@)]);
                outcome
            },
            Err(e) => after_failed_write(&e),
        }
    }
}

// ---------------------------------------------------------------------------
// Sidecars.
// ---------------------------------------------------------------------------

/// The status for a write to the sidecar store.
pub open spec fn sidecar_status(written: Result<(), SidecarWriteError>) -> Seq<char> {
    match written {
        Ok(_) => "201 Created"@,
        Err(SidecarWriteError::TooLarge) => "413 Payload Too Large"@,
        Err(SidecarWriteError::Full) => "507 Insufficient Storage"@,
        Err(SidecarWriteError::Io) => "500 Internal Server Error"@,
    }
}

/// The answer to a write to the sidecar store.
pub fn sidecar_written(written: Result<(), SidecarWriteError>) -> (outcome: Outcome)
    ensures
        outcome@ == plain(sidecar_status(written)),
{
    match written {
        Ok(_) => answer("201 Created"),
        Err(SidecarWriteError::TooLarge) => answer("413 Payload Too Large"),
        Err(SidecarWriteError::Full) => answer("507 Insufficient Storage"),
        Err(SidecarWriteError::Io) => answer("500 Internal Server Error"),
    }
}

/// `PUT` of a name of the sidecar store, before the store is touched: the
/// answer where it is locked.
pub fn put_sidecar(target: &str, if_header: Option<&str>, locks: &LockTable, now: u64) -> (refused:
    Option<Outcome>)
    requires
        locks.wf(),
    ensures
        match refused {
            Some(o) => !write_allowed(locks@, target@, optional(if_header), now) && o@ == plain(
                "423 Locked"@,
            ),
            None => write_allowed(locks@, target@, optional(if_header), now),
        },
{
    if !locks.allows(target, if_header, now) {
        Some(answer("423 Locked"))
    } else {
        None
    }
}

/// `PUT` of a name of the sidecar store, once the store has answered. A
/// stored name drops its folder's cached listing, though none is ever shown
/// in one: the folder is listed again right after.
pub fn sidecar_put(target: &str, written: Result<(), SidecarWriteError>) -> (outcome: Outcome)
    ensures
        outcome@ == (match written {
            Ok(_) => OutcomeView {
                invalidate: seq![parent_of_path(target@)],
                ..plain("201 Created"@)
            },
            Err(_) => plain(sidecar_status(written)),
        }),
{
    match written {
        Ok(_) => {
            let outcome = answer("201 Created").and_invalidate(parent_of(target));
            assert(outcome@.invalidate =~= seq![parent_of_path(target@)]);
            outcome
        },
        Err(_) => sidecar_written(written),
    }
}

// ---------------------------------------------------------------------------
// COPY.
// ---------------------------------------------------------------------------

/// What `COPY` comes to next.
pub enum CopyStep {
    Answer(Outcome),
    /// Read the first name from the sidecar store, and write it under the
    /// second.
    Sidecar(String, String),
    /// Ask whether the destination is there already.
    Check(Copying),
    /// Ask what the source is.
    Stat(Copying),
    /// Get a spool file for the source.
    Spool(CopyFile),
    /// Read the source into the spool file.
    Fetch(CopyFile),
    /// Land the spool file at the destination.
    Land(CopyFile),
}

/// Something that is to be copied.
pub struct Copying {
    pub destination: String,
    pub from: RemotePath,
    pub to: RemotePath,
}

/// A file that is being copied.
pub struct CopyFile {
    pub copying: Copying,
    pub size: u64,
}

/// The step holds this copy.
pub open spec fn copies(c: Copying, destination: Seq<char>, from: Seq<char>, to: Seq<char>) -> bool {
    c.destination@ == destination && c.from@ == from && c.to@ == to
}

/// `COPY`: one file, read from the other device and landed again under the
/// new name.
pub fn copy_verb(target: &str, headers: &TwoPaths<'_>, port: u16, locks: &LockTable, now: u64) -> (
step: CopyStep)
    requires
        locks.wf(),
    ensures
        match destination_target(optional(headers.destination), port) {
            None => step matches CopyStep::Answer(o) && o@ == plain("400 Bad Request"@),
            Some(dest) => if !write_allowed(locks@, dest, optional(headers.if_header), now) {
                step matches CopyStep::Answer(o) && o@ == plain("423 Locked"@)
            } else if is_probe_target(target@) {
                step matches CopyStep::Sidecar(from, to) && from@ == target@ && to@ == dest
            } else {
                match (path_of(target@), path_of(dest)) {
                    (None, _) => step matches CopyStep::Answer(o) && o@ == plain("404 Not Found"@),
                    (Some(_), None) => step matches CopyStep::Answer(o) && o@ == plain(
                        "400 Bad Request"@,
                    ),
                    (Some(from), Some(to)) => if keeps_existing(optional(headers.overwrite)) {
                        step matches CopyStep::Check(c) && copies(c, dest, from, to)
                    } else {
                        step matches CopyStep::Stat(c) && copies(c, dest, from, to)
                    },
                }
            },
        },
{
    let destination = match read_destination(headers.destination, port) {
        None => {
            return CopyStep::Answer(answer("400 Bad Request"));
        },
        Some(d) => d,
    };
    if !locks.allows(destination.as_str(), headers.if_header, now) {
        return CopyStep::Answer(answer("423 Locked"));
    }
    if is_probe_name(last_segment(target)) {
        return CopyStep::Sidecar(copy_of(target), destination);
    }
    let from = match target_path(target) {
        None => {
            return CopyStep::Answer(answer("404 Not Found"));
        },
        Some(p) => p,
    };
    let to = match target_path(destination.as_str()) {
        None => {
            return CopyStep::Answer(answer("400 Bad Request"));
        },
        Some(p) => p,
    };
    let next = Copying { destination, from, to };
    if must_keep(headers.overwrite) {
        CopyStep::Check(next)
    } else {
        CopyStep::Stat(next)
    }
}

/// A sidecar was copied: `None` where the store has no such name.
pub fn sidecar_copied(written: Option<Result<(), SidecarWriteError>>) -> (outcome: Outcome)
    ensures
        outcome@ == (match written {
            None => plain("404 Not Found"@),
            Some(w) => plain(sidecar_status(w)),
        }),
{
    match written {
        None => answer("404 Not Found"),
        Some(w) => sidecar_written(w),
    }
}

impl Copying {
    /// The other device said whether the destination is there.
    pub fn checked(self, entry: Result<Entry, RpcError>) -> (step: CopyStep)
        ensures
            match conflict_of(entry) {
                Some(o) => step matches CopyStep::Answer(a) && a@ == o,
                None => step == CopyStep::Stat(self),
            },
            (entry matches Err(RpcError::Remote(OpError::NotFound))) ==> step == CopyStep::Stat(
                self,
            ),
            entry is Ok ==> step is Answer,
    {
        match overwrite_conflict(entry) {
            Some(o) => CopyStep::Answer(o),
            None => CopyStep::Stat(self),
        }
    }

    /// The other device said what the source is. A folder is not copied.
    pub fn described(self, entry: Result<Entry, RpcError>) -> (step: CopyStep)
        ensures
            match entry {
                Ok(e) => match e.kind {
                    EntryKind::Directory => step matches CopyStep::Answer(o) && o@ == plain(
                        "403 Forbidden"@,
                    ),
                    EntryKind::File => step == CopyStep::Spool(
                        CopyFile { copying: self, size: e.size },
                    ),
                },
                Err(e) => step matches CopyStep::Answer(o) && o@ == write_failed(e),
            },
    {
        match entry {
            Ok(e) => match e.kind {
                EntryKind::Directory => CopyStep::Answer(answer("403 Forbidden")),
                EntryKind::File => CopyStep::Spool(CopyFile { copying: self, size: e.size }),
            },
            Err(e) => CopyStep::Answer(after_failed_write(&e)),
        }
    }
}

/// The status where there is no spool file.
pub open spec fn spool_status(error: SpoolError) -> Seq<char> {
    match error {
        SpoolError::Full => "507 Insufficient Storage"@,
        SpoolError::Failed => "500 Internal Server Error"@,
    }
}

/// The answer where there is no spool file.
pub fn no_spool(error: SpoolError) -> (outcome: Outcome)
    ensures
        outcome@ == plain(spool_status(error)),
{
    match error {
        SpoolError::Full => answer("507 Insufficient Storage"),
        SpoolError::Failed => answer("500 Internal Server Error"),
    }
}

impl CopyFile {
    /// There is a spool file, or there is none.
    pub fn spooled(self, spool: Result<(), SpoolError>) -> (step: CopyStep)
        ensures
            match spool {
                Ok(_) => step == CopyStep::Fetch(self),
                Err(e) => step matches CopyStep::Answer(o) && o@ == plain(spool_status(e)),
            },
    {
        match spool {
            Ok(_) => CopyStep::Fetch(self),
            Err(e) => CopyStep::Answer(no_spool(e)),
        }
    }

    /// What has to be read of the source.
    pub fn reading(&self) -> (reading: Reading)
        ensures
            reading == (Reading { offset: 0, stop_at: self.size }),
    {
        Reading { offset: 0, stop_at: self.size }
    }

    /// The source is in the spool file and its manifest was built, or one of
    /// the two failed.
    pub fn fetched(self, fetched: Result<Option<Manifest>, RpcError>) -> (next: (
        CopyStep,
        Option<LandStep>,
    ))
        ensures
            match fetched {
                Err(e) => next.1 is None && (next.0 matches CopyStep::Answer(o) && o@
                    == write_failed(e)),
                Ok(None) => next.1 is None && (next.0 matches CopyStep::Answer(o) && o@
                    == write_failed(RpcError::Remote(OpError::Internal))),
                Ok(Some(m)) => next.0 == CopyStep::Land(self) && (next.1 matches Some(land)
                    && land.wf() && land@ == new_landing(self.copying.to@, m@)),
            },
    {
        match fetched {
            Err(e) => (CopyStep::Answer(after_failed_write(&e)), None),
            Ok(None) => (
                CopyStep::Answer(after_failed_write(&RpcError::Remote(OpError::Internal))),
                None,
            ),
            Ok(Some(manifest)) => {
                let land = land_new(&self.copying.to, manifest);
                (CopyStep::Land(self), Some(land))
            },
        }
    }

    /// The landing is over.
    pub fn landed(self, landed: Result<(), RpcError>) -> (outcome: Outcome)
        ensures
            outcome@ == (match landed {
                Ok(_) => OutcomeView {
                    invalidate: seq![parent_of_path(self.copying.destination@)],
                    logged: seq![
                        LoggedView {
                            bytes: Some(self.size),
                            ..log_of(AccessVerb::Read, self.copying.from@)
                        },
                        LoggedView {
                            bytes: Some(self.size),
                            ..log_of(AccessVerb::Write, self.copying.to@)
                        },
                    ],
                    ..plain("201 Created"@)
                },
                Err(e) => write_failed(e),
            }),
    {
        match landed {
            Err(e) => after_failed_write(&e),
            Ok(_) => {
                let read = log_bytes(AccessVerb::Read, self.copying.from.as_str(), self.size);
                let write = log_bytes(AccessVerb::Write, self.copying.to.as_str(), self.size);
                let outcome = answer("201 Created").and_invalidate(
                    parent_of(self.copying.destination.as_str()),
                ).and_log(read).and_log(write);
                assert(outcome@.invalidate =~= seq![parent_of_path(self.copying.destination@)]);
                assert(outcome@.logged =~= seq![read@, write@]);
                outcome
            },
        }
    }
}

/// One entry for the access log, with bytes.
fn log_bytes(verb: AccessVerb, path: &str, bytes: u64) -> (logged: Logged)
    ensures
        logged@ == (LoggedView { bytes: Some(bytes), ..log_of(verb, path@) }),
{
    Logged { verb, path: copy_of(path), bytes: Some(bytes), entries: None, files: None }
}

// ---------------------------------------------------------------------------
// PUT.
// ---------------------------------------------------------------------------

/// What `PUT` of a real file comes to next.
pub enum PutStep {
    /// Answer, and keep the connection.
    Answer(Outcome),
    /// Answer, and close the connection: there is no telling where the next
    /// request begins.
    Close(Outcome),
    /// Pass over the declared body, which has this length, then answer, and
    /// keep the connection.
    Drain(u64, Outcome),
    /// Close the connection without an answer.
    Drop,
    /// Get a spool file for the body.
    Spool(PutFile),
    /// Receive the body into the spool file.
    Receive(PutFile),
    /// Build the manifest of the spool file.
    Open(PutFile),
    /// Ask what is at the target now.
    Stat(PutOpened),
    /// Land the spool file.
    Land(PutLanding),
    /// Ask for the target once more, for its entity tag.
    Restat(PutLanded),
}

/// A file whose body is to be received.
pub struct PutFile {
    pub target: String,
    pub path: RemotePath,
    /// The declared length of the body.
    pub length: u64,
}

/// A file whose body is in the spool.
pub struct PutOpened {
    pub target: String,
    pub path: RemotePath,
    pub manifest: Manifest,
}

/// A file that is landing.
pub struct PutLanding {
    pub target: String,
    pub path: RemotePath,
    pub is_new: bool,
}

/// A file that has landed.
pub struct PutLanded {
    pub target: String,
    pub path: RemotePath,
    pub is_new: bool,
    pub written: u64,
}

/// `PUT` of a real file: the body is spooled to disk in pieces as it comes,
/// and never held whole. A refusal with a known length passes over the body,
/// so that the connection can be used again.
pub fn put_file(target: &str, head: &RequestHead, locks: &LockTable, now: u64) -> (step: PutStep)
    requires
        locks.wf(),
    ensures
        match head.declared_length() {
            None => step matches PutStep::Close(o) && o@ == plain("411 Length Required"@),
            Some(length) => if length > MAX_PUT_BODY_LEN {
                step matches PutStep::Close(o) && o@ == plain("413 Payload Too Large"@)
            } else {
                match path_of(target@) {
                    None => step matches PutStep::Drain(n, o) && n == length && o@ == plain(
                        "404 Not Found"@,
                    ),
                    Some(path) => if path.len() == 0 {
                        step matches PutStep::Drain(n, o) && n == length && o@ == plain(
                            "404 Not Found"@,
                        )
                    } else if !write_allowed(
                        locks@,
                        target@,
                        header_value(head.headers@, "if"@),
                        now,
                    ) {
                        step matches PutStep::Drain(n, o) && n == length && o@ == plain(
                            "423 Locked"@,
                        )
                    } else {
                        step matches PutStep::Spool(f) && f.target@ == target@ && f.path@ == path
                            && f.length == length
                    },
                }
            },
        },
{
    let length: u64 = match head.content_length() {
        None => {
            return PutStep::Close(answer("411 Length Required"));
        },
        Some(n) => n,
    };
    if length > MAX_PUT_BODY_LEN {
        return PutStep::Close(answer("413 Payload Too Large"));
    }
    let path = match target_path(target) {
        None => {
            return PutStep::Drain(length, answer("404 Not Found"));
        },
        Some(p) => p,
    };
    if path.is_root() {
        return PutStep::Drain(length, answer("404 Not Found"));
    }
    if !locks.allows(target, head.header("if"), now) {
        return PutStep::Drain(length, answer("423 Locked"));
    }
    PutStep::Spool(PutFile { target: copy_of(target), path, length })
}

impl PutFile {
    /// There is a spool file, or there is none.
    pub fn spooled(self, spool: Result<(), SpoolError>) -> (step: PutStep)
        ensures
            match spool {
                Ok(_) => step == PutStep::Receive(self),
                Err(e) => step matches PutStep::Drain(n, o) && n == self.length && o@ == plain(
                    spool_status(e),
                ),
            },
    {
        match spool {
            Ok(_) => PutStep::Receive(self),
            Err(e) => PutStep::Drain(self.length, no_spool(e)),
        }
    }

    /// The body came, `received` bytes of it; `None` where the connection or
    /// the disk failed. One that is short leaves nothing to answer on.
    pub fn received(self, received: Option<u64>) -> (step: PutStep)
        ensures
            if received == Some(self.length) {
                step == PutStep::Open(self)
            } else {
                step == PutStep::Drop
            },
    {
        match received {
            Some(n) => {
                if n == self.length {
                    PutStep::Open(self)
                } else {
                    PutStep::Drop
                }
            },
            None => PutStep::Drop,
        }
    }

    /// The spool file's manifest was built, or could not be.
    pub fn opened(self, manifest: Option<Manifest>) -> (step: PutStep)
        ensures
            match manifest {
                Some(m) => step matches PutStep::Stat(p) && p.target@ == self.target@ && p.path@
                    == self.path@ && p.manifest == m,
                None => step matches PutStep::Answer(o) && o@ == plain(
                    "500 Internal Server Error"@,
                ),
            },
    {
        match manifest {
            Some(manifest) => {
                let PutFile { target, path, length } = self;
                PutStep::Stat(PutOpened { target, path, manifest })
            },
            None => PutStep::Answer(answer("500 Internal Server Error")),
        }
    }
}

/// The answer to a landing that failed. What was written is still logged,
/// but for a folder that is in the way.
pub open spec fn landing_failed(path: Seq<char>, written: u64, error: RpcError) -> OutcomeView {
    if error == RpcError::Remote(OpError::IsADirectory) {
        plain("409 Conflict"@)
    } else {
        OutcomeView {
            logged: seq![
                LoggedView { bytes: Some(written), ..log_of(AccessVerb::Write, path) },
            ],
            ..write_failed(error)
        }
    }
}

fn after_failed_landing(path: &RemotePath, written: u64, error: RpcError) -> (outcome: Outcome)
    ensures
        outcome@ == landing_failed(path@, written, error),
{
    if let RpcError::Remote(OpError::IsADirectory) = error {
        return answer("409 Conflict");
    }
    let logged = log_bytes(AccessVerb::Write, path.as_str(), written);
    let outcome = after_failed_write(&error).and_log(logged);
    assert(outcome@.logged =~= seq![logged@]);
    outcome
}

impl PutOpened {
    /// The other device said what is at the target: nothing, and a new file
    /// lands; a file, and its chunks that differ do; a folder, and nothing
    /// does.
    pub fn described(self, entry: Result<Entry, RpcError>) -> (next: (PutStep, Option<LandStep>))
        ensures
            match entry {
                Ok(e) => match e.kind {
                    EntryKind::Directory => next.1 is None && (next.0 matches PutStep::Answer(o)
                        && o@ == plain("409 Conflict"@)),
                    EntryKind::File => (next.0 matches PutStep::Land(l) && l.target@
                        == self.target@ && l.path@ == self.path@ && !l.is_new) && (
                    next.1 matches Some(land) && land.wf() && land@ == delta_landing(
                        self.path@,
                        self.manifest@,
                    )),
                },
                Err(RpcError::Remote(OpError::NotFound)) => (next.0 matches PutStep::Land(l)
                    && l.target@ == self.target@ && l.path@ == self.path@ && l.is_new) && (
                next.1 matches Some(land) && land.wf() && land@ == new_landing(
                    self.path@,
                    self.manifest@,
                )),
                Err(e) => next.1 is None && (next.0 matches PutStep::Answer(o) && o@
                    == landing_failed(self.path@, 0, e)),
            },
    {
        let PutOpened { target, path, manifest } = self;
        match entry {
            Ok(e) => match e.kind {
                EntryKind::Directory => (PutStep::Answer(answer("409 Conflict")), None),
                EntryKind::File => {
                    let land = land_delta(&path, manifest);
                    (PutStep::Land(PutLanding { target, path, is_new: false }), Some(land))
                },
            },
            Err(RpcError::Remote(OpError::NotFound)) => {
                let land = land_new(&path, manifest);
                (PutStep::Land(PutLanding { target, path, is_new: true }), Some(land))
            },
            Err(e) => (PutStep::Answer(after_failed_landing(&path, 0, e)), None),
        }
    }
}

impl PutLanding {
    /// The landing is over, and wrote this many bytes.
    pub fn landed(self, landed: Result<(), RpcError>, written: u64) -> (step: PutStep)
        ensures
            match landed {
                Ok(_) => step matches PutStep::Restat(p) && p.target@ == self.target@ && p.path@
                    == self.path@ && p.is_new == self.is_new && p.written == written,
                Err(e) => step matches PutStep::Answer(o) && o@ == landing_failed(
                    self.path@,
                    written,
                    e,
                ),
            },
    {
        let PutLanding { target, path, is_new } = self;
        match landed {
            Ok(_) => PutStep::Restat(PutLanded { target, path, is_new, written }),
            Err(e) => PutStep::Answer(after_failed_landing(&path, written, e)),
        }
    }
}

impl PutLanded {
    /// What the landed file is answered with.
    pub open spec fn finished(self, entry: Option<Entry>) -> OutcomeView {
        let status = if self.is_new {
            "201 Created"@
        } else {
            "204 No Content"@
        };
        let reply = ReplyView {
            headers: match entry {
                Some(e) => seq![
                    ("Content-Length"@, "0"@),
                    ("ETag"@, etag_of(e.size, e.modified_unix_secs)),
                ],
                None => seq![("Content-Length"@, "0"@)],
            },
            ..no_body_view(status)
        };
        OutcomeView {
            reply,
            invalidate: seq![parent_of_path(self.target@)],
            logged: seq![
                LoggedView { bytes: Some(self.written), ..log_of(AccessVerb::Write, self.path@) },
            ],
            ..plain(status)
        }
    }

    /// The other device said what landed, or could not be asked: then the
    /// answer has no entity tag.
    pub fn described(self, entry: Option<Entry>) -> (outcome: Outcome)
        ensures
            outcome@ == self.finished(entry),
    {
        let plain_reply = if self.is_new {
            no_body("201 Created")
        } else {
            no_body("204 No Content")
        };
        let reply = match &entry {
            Some(e) => {
                let tag = etag(e.size, e.modified_unix_secs);
                plain_reply.and_header("ETag", tag.as_str())
            },
            None => plain_reply,
        };
        let logged = log_bytes(AccessVerb::Write, self.path.as_str(), self.written);
        let outcome = just(reply).and_invalidate(parent_of(self.target.as_str())).and_log(logged);
        assert(outcome@.invalidate =~= seq![parent_of_path(self.target@)]);
        assert(outcome@.logged =~= seq![logged@]);
        assert(outcome@.reply =~= self.finished(entry).reply);
        outcome
    }
}

/// A destination that is not there never stops a verb that must not replace
/// one, and nothing else lets it go on: a name that is taken is a failed
/// precondition, and an answer that tells neither is the error that came.
pub proof fn lemma_only_a_free_name_goes_on(entry: Result<Entry, RpcError>)
    ensures
        conflict_of(entry) is None <==> entry == Err::<Entry, RpcError>(
            RpcError::Remote(OpError::NotFound),
        ),
        entry is Ok ==> (conflict_of(entry) matches Some(o) && o.reply.status
            == "412 Precondition Failed"@ && !o.unhealthy),
        entry is Err && conflict_of(entry) is Some ==> conflict_of(entry)->0.reply.status
            == crate::dav::errors::write_status(entry->Err_0),
{
}

/// A rename goes from the path of the request to the path of its destination,
/// and asks first exactly where what is there must be kept.
pub proof fn lemma_move_goes_where_it_was_told(
    target: &str,
    headers: &TwoPaths<'_>,
    port: u16,
    locks: &LockTable,
    now: u64,
    step: MoveStep,
    destination: Seq<char>,
)
    requires
        call_ensures(move_verb, (target, headers, port, locks, now), step),
        destination_target(optional(headers.destination), port) == Some(destination),
    ensures
        step matches MoveStep::Rename(m) ==> m.target@ == target@ && m.destination@ == destination
            && path_of(target@) == Some(m.from@) && path_of(destination) == Some(m.to@) && !(
        headers.overwrite matches Some(o) && o@ == "F"@),
        step matches MoveStep::Check(m) ==> m.target@ == target@ && m.destination@ == destination
            && path_of(target@) == Some(m.from@) && path_of(destination) == Some(m.to@) && (
        headers.overwrite matches Some(o) && o@ == "F"@),
        step matches MoveStep::Sidecar(from, to) ==> from@ == target@ && to@ == destination,
        step is Rename || step is Check ==> write_allowed(
            locks@,
            target@,
            optional(headers.if_header),
            now,
        ) && write_allowed(locks@, destination, optional(headers.if_header), now),
{
}

/// A rename that was done is answered as one with nothing to say; both folders
/// are listed anew, and the log names what it is called now.
pub proof fn lemma_rename_is_answered(m: Move, moved: Result<(), RpcError>, outcome: Outcome)
    requires
        call_ensures(Move::renamed, (m, moved), outcome),
    ensures
        moved is Ok ==> outcome@.reply.status == "204 No Content"@ && outcome@.reply.body.len() == 0
            && !outcome@.unhealthy && outcome@.invalidate.contains(parent_of_path(m.target@))
            && outcome@.invalidate.contains(parent_of_path(m.destination@))
            && outcome@.logged.len() == 1 && outcome@.logged[0].verb == AccessVerb::Rename
            && outcome@.logged[0].path == m.to@,
        moved matches Err(e) ==> outcome@ == write_failed(e),
{
    if moved is Ok {
        assert(outcome@.invalidate[0] == parent_of_path(m.target@));
        assert(outcome@.invalidate[1] == parent_of_path(m.destination@));
    }
}

/// A copy reads the path of the request and lands at the path of its
/// destination, and asks first exactly where what is there must be kept.
pub proof fn lemma_copy_goes_where_it_was_told(
    target: &str,
    headers: &TwoPaths<'_>,
    port: u16,
    locks: &LockTable,
    now: u64,
    step: CopyStep,
    destination: Seq<char>,
)
    requires
        call_ensures(copy_verb, (target, headers, port, locks, now), step),
        destination_target(optional(headers.destination), port) == Some(destination),
    ensures
        step matches CopyStep::Stat(c) ==> c.destination@ == destination && path_of(target@)
            == Some(c.from@) && path_of(destination) == Some(c.to@) && !(
        headers.overwrite matches Some(o) && o@ == "F"@),
        step matches CopyStep::Check(c) ==> c.destination@ == destination && path_of(target@)
            == Some(c.from@) && path_of(destination) == Some(c.to@) && (
        headers.overwrite matches Some(o) && o@ == "F"@),
        step matches CopyStep::Sidecar(from, to) ==> from@ == target@ && to@ == destination,
{
}

/// A copy fetches the whole of the source, lands it as a new file under the
/// new name, and logs both ends with the bytes that went.
pub proof fn lemma_copy_is_whole(
    file: CopyFile,
    reading: Reading,
    manifest: Manifest,
    next: (CopyStep, Option<LandStep>),
    landed: Result<(), RpcError>,
    outcome: Outcome,
)
    requires
        call_ensures(CopyFile::reading, (&file,), reading),
        call_ensures(
            CopyFile::fetched,
            (file, Ok::<Option<Manifest>, RpcError>(Some(manifest))),
            next,
        ),
        call_ensures(CopyFile::landed, (file, landed), outcome),
    ensures
        reading.offset == 0,
        reading.stop_at == file.size,
        next.1 is Some,
        next.1->0@ == new_landing(file.copying.to@, manifest@),
        landed is Ok ==> outcome@.reply.status == "201 Created"@ && outcome@.invalidate.contains(
            parent_of_path(file.copying.destination@),
        ) && outcome@.logged.len() == 2 && outcome@.logged[0].path == file.copying.from@
            && outcome@.logged[0].verb == AccessVerb::Read && outcome@.logged[1].path
            == file.copying.to@ && outcome@.logged[1].verb == AccessVerb::Write
            && outcome@.logged[1].bytes == Some(file.size),
        landed matches Err(e) ==> outcome@ == write_failed(e),
{
    if landed is Ok {
        assert(outcome@.invalidate[0] == parent_of_path(file.copying.destination@));
    }
}

/// A file that is put is received in the length it declares, and lands at the
/// path of the request or not at all.
pub proof fn lemma_put_is_received_whole(
    target: &str,
    head: &RequestHead,
    locks: &LockTable,
    now: u64,
    step: PutStep,
    received: Option<u64>,
    next: PutStep,
)
    requires
        call_ensures(put_file, (target, head, locks, now), step),
        step is Spool,
        call_ensures(PutFile::received, (step->Spool_0, received), next),
    ensures
        head.declared_length() == Some(step->Spool_0.length),
        step->Spool_0.length <= MAX_PUT_BODY_LEN,
        path_of(target@) == Some(step->Spool_0.path@),
        step->Spool_0.path@.len() > 0,
        step->Spool_0.target@ == target@,
        write_allowed(locks@, target@, header_value(head.headers@, "if"@), now),
        next == PutStep::Open(step->Spool_0) <==> received == Some(step->Spool_0.length),
        received != Some(step->Spool_0.length) ==> next == PutStep::Drop,
{
}

/// What is put lands as a new file exactly where there is nothing yet, and as
/// a change of the file that is there; a folder is never written over. The
/// answer tells the two apart.
pub proof fn lemma_put_lands_in_place(
    opened: PutOpened,
    entry: Result<Entry, RpcError>,
    next: (PutStep, Option<LandStep>),
    written: u64,
    then: PutStep,
    shown: Option<Entry>,
    outcome: Outcome,
)
    requires
        call_ensures(PutOpened::described, (opened, entry), next),
        next.0 is Land,
        call_ensures(
            PutLanding::landed,
            (next.0->Land_0, Ok::<(), RpcError>(()), written),
            then,
        ),
        then is Restat,
        call_ensures(PutLanded::described, (then->Restat_0, shown), outcome),
    ensures
        entry matches Ok(e) ==> e.kind == EntryKind::File,
        entry is Err ==> entry == Err::<Entry, RpcError>(RpcError::Remote(OpError::NotFound)),
        next.1 is Some,
        entry is Err ==> next.1->0@ == new_landing(opened.path@, opened.manifest@),
        entry is Ok ==> next.1->0@ == delta_landing(opened.path@, opened.manifest@),
        outcome@.reply.status == (if entry is Err {
            "201 Created"@
        } else {
            "204 No Content"@
        }),
        outcome@.invalidate.contains(parent_of_path(opened.target@)),
        outcome@.logged.len() == 1,
        outcome@.logged[0].verb == AccessVerb::Write,
        outcome@.logged[0].path == opened.path@,
        outcome@.logged[0].bytes == Some(written),
        shown matches Some(e) ==> outcome@.reply.headers.contains(
            ("ETag"@, etag_of(e.size, e.modified_unix_secs)),
        ),
{
    assert(outcome@.invalidate[0] == parent_of_path(opened.target@));
    if shown is Some {
        let e = shown->0;
        assert(outcome@.reply.headers[1] == ("ETag"@, etag_of(e.size, e.modified_unix_secs)));
    }
}

/// A folder is made where it was asked for, once; a name that is taken and a
/// folder that is missing above it are told apart.
pub proof fn lemma_folder_is_made(
    target: &str,
    if_header: Option<&str>,
    locks: &LockTable,
    now: u64,
    step: MkcolStep,
    made: Result<(), RpcError>,
    outcome: Outcome,
)
    requires
        call_ensures(mkcol_verb, (target, if_header, locks, now), step),
        step is Mkdir,
        call_ensures(Mkcol::answered, (step->Mkdir_0, made), outcome),
    ensures
        path_of(target@) == Some(step->Mkdir_0.path@),
        step->Mkdir_0.path@.len() > 0,
        write_allowed(locks@, target@, optional(if_header), now),
        made is Ok ==> outcome@.reply.status == "201 Created"@ && outcome@.invalidate.contains(
            parent_of_path(target@),
        ) && outcome@.logged.len() == 1 && outcome@.logged[0].verb == AccessVerb::Mkdir
            && outcome@.logged[0].path == step->Mkdir_0.path@,
        made == Err::<(), RpcError>(RpcError::Remote(OpError::NotFound))
            ==> outcome@.reply.status == "409 Conflict"@,
        made == Err::<(), RpcError>(RpcError::Remote(OpError::AlreadyExists))
            ==> outcome@.reply.status == "405 Method Not Allowed"@,
        made is Err ==> outcome@.logged.len() == 0,
{
    if made is Ok {
        assert(outcome@.invalidate[0] == parent_of_path(target@));
    }
}

/// A file is deleted at the path of the request, and a folder is walked from
/// there; the root is never deleted.
pub proof fn lemma_delete_is_of_the_target(
    target: &str,
    if_header: Option<&str>,
    locks: &LockTable,
    now: u64,
    step: DeleteStep,
    entry: Entry,
    next: DeleteStep,
)
    requires
        call_ensures(delete_verb, (target, if_header, locks, now), step),
        step is Stat,
        call_ensures(
            DeleteTarget::described,
            (step->Stat_0, Ok::<Entry, RpcError>(entry)),
            next,
        ),
    ensures
        path_of(target@) == Some(step->Stat_0.path@),
        step->Stat_0.path@.len() > 0,
        write_allowed(locks@, target@, optional(if_header), now),
        entry.kind == EntryKind::File ==> (next matches DeleteStep::File(f) && path_of(target@)
            == Some(f.path@)),
        entry.kind == EntryKind::Directory ==> (next matches DeleteStep::List(d) && path_of(
            target@,
        ) == Some(d.path@) && d.walk@ == crate::folder::fresh_walk(d.path@)),
{
}

/// What a folder held is removed one after another, from the first of the plan
/// to the last, and only then is it told to be gone.
pub proof fn lemma_plan_is_followed(
    all: DeleteAll,
    path: &RemotePath,
    gone: Result<(), RpcError>,
    step: DeleteStep,
)
    requires
        all.wf(),
        call_ensures(DeleteAll::next, (&all,), path),
        call_ensures(DeleteAll::removed, (all, gone), step),
    ensures
        path@ == planned(
            all.plan.files@.map_values(|f: FoundFile| f@),
            all.plan.dirs@.map_values(|d: RemotePath| d@),
        )[all.files_gone + all.dirs_gone],
        step matches DeleteStep::Remove(d) ==> d.plan == all.plan && d.files_gone + d.dirs_gone
            == all.files_gone + all.dirs_gone + 1,
        gone is Ok && all.files_gone + all.dirs_gone + 1 < all.plan.files@.len()
            + all.plan.dirs@.len() ==> step is Remove,
        step matches DeleteStep::Answer(o) ==> (if gone is Ok {
            &&& all.files_gone + all.dirs_gone + 1 == all.plan.files@.len() + all.plan.dirs@.len()
            &&& o@.reply.status == "204 No Content"@
            &&& o@.invalidate.contains(parent_of_path(all.target@))
        } else {
            o@ == write_failed(gone->Err_0)
        }),
{
    assert(all.plan.paths().len() == all.plan.files@.len() + all.plan.dirs@.len());
    if gone is Ok && step is Answer {
        let o = step->Answer_0@;
        assert(o.invalidate[0] == parent_of_path(all.target@));
    }
}

/// A folder in which anything is locked against this request is not deleted.
pub proof fn lemma_locked_files_are_not_deleted(
    listing: DeleteWalk,
    entries: Vec<Entry>,
    next: Option<u64>,
    if_header: Option<&str>,
    locks: &LockTable,
    now: u64,
    step: DeleteStep,
    i: int,
)
    requires
        call_ensures(
            DeleteWalk::listed,
            (
                listing,
                Ok::<(Vec<Entry>, Option<u64>), RpcError>((entries, next)),
                if_header,
                locks,
                now,
            ),
            step,
        ),
        step is Remove,
        0 <= i < step->Remove_0.plan.paths().len(),
    ensures
        write_allowed(
            locks@,
            step->Remove_0.plan.paths()[i],
            optional(if_header),
            now,
        ),
        step->Remove_0.path@ == listing.path@,
        step->Remove_0.target@ == listing.target@,
{
}

} // verus!
