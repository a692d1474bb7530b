//! Queuing transfers, and the batches they belong to.

use crate::batch::{record_bytes, BatchRecord, RecordView};
use crate::core_errors::{PathError, RpcError};
use crate::dav::probes::{last_segment, segment_of};
use crate::dav::reply::{log_of, Logged, LoggedView};
use crate::engine::state::{marked, Engine};
use crate::errors::{
    failed, from_op, from_path, from_rpc, is_failed, is_failed_with, path_code, rpc_code,
};
use crate::folder::{
    entry_views, fresh_walk, settle, with_page, FoundFile, FoundView, ListRecursiveError, Settled,
    Walk,
};
use crate::limits::BACKOFF_MIN_MS;
use crate::notify::Change;
use crate::path::{components, joined, path_problem, RemotePath};
use crate::peers::{is_key_hex, is_paired, key_from_hex, PeerView};
use crate::seqs::{first_of, len_u32, only, sat32, sat64, sum_by};
use crate::text::{copy_of, opt_view, text_views};
use crate::transfers::{
    after_retries, after_retry, among, batch_of, draw_batch_ids, failed_in, first_lands,
    found_views, is_id_of, is_queued, new_id, no_landing, pulls_file, put_in_batch, queued_row,
    retry_outcome, row_ids, rows_with_ids, tells_no_landing, total_listed_bytes, with_rows,
    NewBatch, NewTransfer, Retried, Retry, TransferRow,
};
use crate::types::{
    AccessVerb, BatchInfo, Direction, Entry, EngineListener, FerryError, Origin, TransferInfo,
};
use vstd::prelude::*;

verus! {

/// What is wrong with a path that has to name something below the root.
pub open spec fn below_root_problem(path: Seq<char>) -> Option<Seq<char>> {
    match path_problem(path) {
        Some(problem) => Some(path_code(problem)),
        None => if joined(components(path)).len() == 0 {
            Some(path_code(PathError::Empty))
        } else {
            None
        },
    }
}

/// Why a device cannot be pulled from: its key first, then whether the engine
/// runs, then whether it is paired.
pub open spec fn device_problem(key: Seq<char>, started: bool, peers: Seq<PeerView>) -> Option<
    Seq<char>,
> {
    if !is_key_hex(key) {
        Some("Runtime::NotPaired"@)
    } else if !started {
        Some("Runtime::NotStarted"@)
    } else if !is_paired(peers, key) {
        Some("Runtime::NotPaired"@)
    } else {
        None
    }
}

/// Why a file cannot be pulled.
pub open spec fn pull_problem(
    source: Seq<char>,
    destination: Seq<char>,
    key: Seq<char>,
    started: bool,
    peers: Seq<PeerView>,
) -> Option<Seq<char>> {
    match below_root_problem(source) {
        Some(code) => Some(code),
        None => match below_root_problem(destination) {
            Some(code) => Some(code),
            None => device_problem(key, started, peers),
        },
    }
}

/// Why a folder cannot be pulled.
pub open spec fn pull_folder_problem(
    source: Seq<char>,
    key: Seq<char>,
    started: bool,
    peers: Seq<PeerView>,
) -> Option<Seq<char>> {
    match below_root_problem(source) {
        Some(code) => Some(code),
        None => device_problem(key, started, peers),
    }
}

fn below_root(text: &str) -> (path: Result<RemotePath, FerryError>)
    ensures
        match path {
            Ok(p) => below_root_problem(text@) is None && p@ == joined(components(text@)),
            Err(e) => below_root_problem(text@) matches Some(code) && is_failed(e, code),
        },
{
    match RemotePath::parse(text) {
        Err(e) => Err(from_path(e)),
        Ok(path) => {
            if path.is_root() {
                Err(from_path(PathError::Empty))
            } else {
                Ok(path)
            }
        },
    }
}

/// A transfer that pulls one file.
pub open spec fn pulls_one(
    row: TransferRow,
    id: Seq<char>,
    device: Seq<char>,
    source: Seq<char>,
    destination: Seq<char>,
    started: i64,
    chunk_size: u32,
) -> bool {
    &&& is_queued(row)
    &&& row.id@ == id
    &&& row.device_key_hex@ == device
    &&& row.source@ == joined(components(source))
    &&& row.destination@ == joined(components(destination))
    &&& row.direction == Direction::Pull
    &&& row.started_unix_secs == started
    &&& row.chunk_size == chunk_size
    &&& row.backoff == BACKOFF_MIN_MS
    &&& row.batch_id is None
}

/// A folder that is being listed, so that it can be pulled.
pub struct FolderCall {
    pub device_key_hex: String,
    /// The folder's path, as it was given.
    pub label: String,
    pub source: RemotePath,
    pub walk: Walk,
}

/// What a page of a folder leads to.
pub enum FolderStep {
    /// Ask for the page the walk wants.
    More(FolderCall),
    /// Every file below the folder is known.
    Listed(FolderListed),
    Failed(FerryError),
}

/// A folder that was listed.
pub struct FolderListed {
    pub device_key_hex: String,
    pub label: String,
    pub source: RemotePath,
    pub files: Vec<FoundFile>,
}

impl FolderCall {
    /// A page came, or did not.
    pub fn page(self, page: Result<(Vec<Entry>, Option<u64>), RpcError>) -> (step: FolderStep)
        requires
            self.walk.wf(),
            self.walk@.stack.len() > 0,
        ensures
            match page {
                Err(e) => step matches FolderStep::Failed(f) && is_failed(f, rpc_code(e)),
                Ok((entries, next)) => match settle(
                    with_page(self.walk@, entry_views(entries@), next),
                ) {
                    Settled::TooLarge => step matches FolderStep::Failed(f) && is_failed(
                        f,
                        "Runtime::FolderTooLarge"@,
                    ),
                    Settled::InvalidPath => step matches FolderStep::Failed(f) && is_failed(
                        f,
                        "OpError::InvalidPath"@,
                    ),
                    Settled::At(w) => if w.stack.len() > 0 {
                        step matches FolderStep::More(c) && c.walk.wf() && c.walk@ == w
                            && c.device_key_hex@ == self.device_key_hex@ && c.label@ == self.label@
                            && c.source@ == self.source@
                    } else {
                        step matches FolderStep::Listed(l) && found_views(l.files@) == w.files
                            && l.device_key_hex@ == self.device_key_hex@ && l.label@ == self.label@
                            && l.source@ == self.source@
                    },
                },
            },
    {
        let (entries, next) = match page {
            Err(e) => {
                return FolderStep::Failed(from_rpc(&e));
            },
            Ok(p) => p,
        };
        let mut walk = self.walk;
        match walk.feed(entries, next) {
            Err(ListRecursiveError::TooLarge) => FolderStep::Failed(
                failed("Runtime::FolderTooLarge"),
            ),
            Err(ListRecursiveError::Op(op)) => FolderStep::Failed(from_op(op)),
            Ok(_) => {
                if walk.request().is_some() {
                    FolderStep::More(
                        FolderCall {
                            device_key_hex: self.device_key_hex,
                            label: self.label,
                            source: self.source,
                            walk,
                        },
                    )
                } else {
                    let (files, dirs) = walk.into_found();
                    FolderStep::Listed(
                        FolderListed {
                            device_key_hex: self.device_key_hex,
                            label: self.label,
                            source: self.source,
                            files,
                        },
                    )
                }
            },
        }
    }
}

/// The entry that a listing leaves in the access log: every file, and every
/// byte the listing reported.
pub open spec fn listing_log(source: Seq<char>, files: Seq<FoundView>) -> LoggedView {
    LoggedView {
        bytes: Some(sat64(sum_by(files, |f: FoundView| f.size as nat))),
        files: Some(sat32(files.len())),
        ..log_of(AccessVerb::Read, source)
    }
}

/// A batch that has to be written before it counts.
pub struct BatchToWrite {
    pub made: NewBatch,
    /// Its record.
    pub record: Vec<u8>,
}

/// The record of a batch.
pub open spec fn record_of(made: NewBatch) -> RecordView {
    RecordView {
        label: made.batch.label@,
        origin: made.batch.origin,
        direction: made.batch.direction,
        started: made.batch.started_unix_secs,
        ids: text_views(made.batch.transfer_ids@),
    }
}

/// The batch `batch_id` pulls every file, below a folder of its own, each
/// under its id of `ids`.
pub open spec fn pulls_all_as(
    batch: BatchToWrite,
    ids: Seq<Seq<char>>,
    batch_id: Seq<char>,
    files: Seq<FoundView>,
    device: Seq<char>,
    label: Seq<char>,
    leaf: Seq<char>,
    prefix: Seq<char>,
    origin: Origin,
    started: i64,
    chunk_size: u32,
) -> bool {
    &&& batch.record@ == record_bytes(record_of(batch.made))
    &&& batch.made.batch.id@ == batch_id
    &&& batch.made.batch.device_key_hex@ == device
    &&& batch.made.batch.label@ == label
    &&& batch.made.batch.direction == Direction::Pull
    &&& batch.made.batch.origin == origin
    &&& batch.made.batch.started_unix_secs == started
    &&& text_views(batch.made.batch.transfer_ids@) == ids
    &&& row_ids(batch.made.rows@) == ids
    &&& batch.made.rows@.len() == files.len()
    &&& forall|i: int|
        0 <= i < files.len() ==> pulls_file(
            #[trigger] batch.made.rows@[i],
            files[i],
            device,
            leaf,
            prefix,
            started,
            chunk_size,
            BACKOFF_MIN_MS,
            Some(batch_id),
        )
}

/// The batch pulls every file, below a folder of its own, and every file has
/// somewhere to land. The batch and each of its transfers have ids of the
/// device.
pub open spec fn pulls_all(
    batch: BatchToWrite,
    files: Seq<FoundView>,
    device: Seq<char>,
    label: Seq<char>,
    leaf: Seq<char>,
    prefix: Seq<char>,
    origin: Origin,
    started: i64,
    chunk_size: u32,
) -> bool {
    &&& first_of(files, no_landing(leaf, prefix)) is None
    &&& is_id_of(batch.made.batch.id@, device)
    &&& forall|i: int|
        0 <= i < batch.made.rows@.len() ==> is_id_of((#[trigger] batch.made.rows@[i]).id@, device)
    &&& pulls_all_as(
        batch,
        row_ids(batch.made.rows@),
        batch.made.batch.id@,
        files,
        device,
        label,
        leaf,
        prefix,
        origin,
        started,
        chunk_size,
    )
}

/// Why there is no batch: a file has nowhere to land, or, where the first one
/// does not say so at once, there is no randomness.
pub open spec fn tells_no_batch(
    e: FerryError,
    files: Seq<FoundView>,
    leaf: Seq<char>,
    prefix: Seq<char>,
) -> bool {
    (first_lands(files, leaf, prefix) && is_failed(e, "TransferError::NoRandomness"@))
        || tells_no_landing(e, files, leaf, prefix)
}

/// Builds the batch that pulls every file that was found, with these ids:
/// each lands below `leaf`, at its path without `prefix`. It fails exactly
/// where a file has nowhere to land.
pub fn batch_with_ids(
    files: &Vec<FoundFile>,
    device_key_hex: &str,
    label: &str,
    leaf: &str,
    prefix: &str,
    origin: Origin,
    started_unix_secs: i64,
    chunk_size: u32,
    row_ids: Vec<String>,
    batch_id: String,
) -> (batch: Result<BatchToWrite, FerryError>)
    requires
        row_ids@.len() == files@.len(),
        chunk_size > 0,
    ensures
        batch is Ok <==> first_of(found_views(files@), no_landing(leaf@, prefix@)) is None,
        match batch {
            Ok(b) => pulls_all_as(
                b,
                text_views(row_ids@),
                batch_id@,
                found_views(files@),
                device_key_hex@,
                label@,
                leaf@,
                prefix@,
                origin,
                started_unix_secs,
                chunk_size,
            ) && (forall|i: int|
                0 <= i < b.made.rows@.len() ==> (#[trigger] b.made.rows@[i]).chunk_size > 0),
            Err(e) => tells_no_landing(e, found_views(files@), leaf@, prefix@),
        },
{
    let rows = match rows_with_ids(
        files,
        device_key_hex,
        leaf,
        prefix,
        started_unix_secs,
        chunk_size,
        BACKOFF_MIN_MS,
        &row_ids,
    ) {
        Err(e) => {
            return Err(e);
        },
        Ok(rows) => rows,
    };
    let ghost built = rows@;
    let made = batch_of(
        rows,
        batch_id,
        device_key_hex,
        label,
        Direction::Pull,
        origin,
        started_unix_secs,
    );
    let record = BatchRecord::of(&made.batch).encode();
    let batch = BatchToWrite { made, record };
    proof {
        let views = found_views(files@);
        let ids = text_views(row_ids@);
        assert(crate::transfers::row_ids(built).len() == ids.len());
        assert forall|i: int| 0 <= i < views.len() implies pulls_file(
            #[trigger] batch.made.rows@[i],
            views[i],
            device_key_hex@,
            leaf@,
            prefix@,
            started_unix_secs,
            chunk_size,
            BACKOFF_MIN_MS,
            Some(batch_id@),
        ) && batch.made.rows@[i].id@ == ids[i] by {
            assert(views[i] == files@[i]@);
            assert(put_in_batch(batch.made.rows@[i], built[i], batch_id@));
            assert(pulls_file(
                built[i],
                files@[i]@,
                device_key_hex@,
                leaf@,
                prefix@,
                started_unix_secs,
                chunk_size,
                BACKOFF_MIN_MS,
                None,
            ));
            assert(crate::transfers::row_ids(built)[i] == ids[i]);
        }
        assert(crate::transfers::row_ids(batch.made.rows@) =~= ids);
    }
    Ok(batch)
}

/// Builds the batch that pulls every file that was found: each lands below
/// `leaf`, at its path without `prefix`.
fn batch_for(
    files: &Vec<FoundFile>,
    device_key_hex: &str,
    label: &str,
    leaf: &str,
    prefix: &str,
    origin: Origin,
    started_unix_secs: i64,
    chunk_size: u32,
) -> (batch: Result<BatchToWrite, FerryError>)
    requires
        chunk_size > 0,
    ensures
        match batch {
            Ok(b) => pulls_all(
                b,
                found_views(files@),
                device_key_hex@,
                label@,
                leaf@,
                prefix@,
                origin,
                started_unix_secs,
                chunk_size,
            ) && (forall|i: int|
                0 <= i < b.made.rows@.len() ==> (#[trigger] b.made.rows@[i]).chunk_size > 0),
            Err(e) => tells_no_batch(e, found_views(files@), leaf@, prefix@),
        },
{
    let (drawn, batch_id) = match draw_batch_ids(files, device_key_hex, leaf, prefix) {
        Err(e) => {
            return Err(e);
        },
        Ok(ids) => ids,
    };
    let ghost ids = text_views(drawn@);
    let ghost own = drawn@;
    let batch = batch_with_ids(
        files,
        device_key_hex,
        label,
        leaf,
        prefix,
        origin,
        started_unix_secs,
        chunk_size,
        drawn,
        batch_id,
    );
    proof {
        if batch is Ok {
            let b = batch->Ok_0;
            assert forall|i: int| 0 <= i < b.made.rows@.len() implies is_id_of(
                (#[trigger] b.made.rows@[i]).id@,
                device_key_hex@,
            ) by {
                assert(row_ids(b.made.rows@)[i] == ids[i]);
                assert(is_id_of(own[i]@, device_key_hex@));
            }
        }
    }
    batch
}

/// What became of a transfer that was retried.
pub struct RetryDone {
    pub result: Result<Retry, FerryError>,
    /// The transfer's record has to go: its device is not paired any more.
    pub drop_record: bool,
}

/// Something changed for one of the transfers: it was queued, or dropped.
pub open spec fn any_changed(done: Seq<Retried>) -> bool {
    exists|i: int|
        0 <= i < done.len() && ((#[trigger] done[i]).outcome == Retry::Queued || done[i].outcome
            == Retry::Unpaired)
}

fn some_changed(done: &Vec<Retried>) -> (changed: bool)
    ensures
        changed == any_changed(done@),
{
    let mut i: usize = 0;
    while i < done.len()
        invariant
            i <= done@.len(),
            forall|j: int|
                0 <= j < i ==> (#[trigger] done@[j]).outcome != Retry::Queued && done@[j].outcome
                    != Retry::Unpaired,
        decreases done@.len() - i,
    {
        if done[i].outcome == Retry::Queued || done[i].outcome == Retry::Unpaired {
            return true;
        }
        i += 1;
    }
    false
}

impl<L: EngineListener> Engine<L> {
    /// Every transfer, as the app shows them.
    pub fn transfers(&self) -> (infos: Vec<TransferInfo>)
        requires
            self.wf(),
        ensures
            infos@.len() == self.transfers.rows.spec_keys().len(),
            forall|i: int|
                0 <= i < infos@.len() ==> crate::transfers::shows_transfer(
                    #[trigger] infos@[i],
                    self.transfers.rows@[self.transfers.rows.spec_keys()[i]],
                ),
    {
        self.transfers.transfers()
    }

    /// Every batch, as the app shows them.
    pub fn batches(&self) -> (infos: Vec<BatchInfo>)
        requires
            self.wf(),
        ensures
            infos@.len() == self.transfers.batches.spec_keys().len(),
            forall|i: int|
                0 <= i < infos@.len() ==> ({
                    let batch = self.transfers.batches@[self.transfers.batches.spec_keys()[i]];
                    crate::transfers::shows_batch(
                        #[trigger] infos@[i],
                        batch,
                        crate::transfers::members(
                            text_views(batch.transfer_ids@),
                            self.transfers.rows@,
                        ),
                    )
                }),
    {
        self.transfers.batches()
    }

    fn check_device(&self, device_key_hex: &str) -> (checked: Result<(), FerryError>)
        requires
            self.wf(),
        ensures
            match checked {
                Ok(_) => device_problem(
                    device_key_hex@,
                    self.running.started,
                    self.peers@,
                ) is None,
                Err(e) => device_problem(
                    device_key_hex@,
                    self.running.started,
                    self.peers@,
                ) matches Some(code) && is_failed(e, code),
            },
    {
        let reads = key_from_hex(device_key_hex);
        if reads.is_none() {
            return Err(failed("Runtime::NotPaired"));
        }
        assert(is_key_hex(device_key_hex@));
        if !self.running.started {
            return Err(failed("Runtime::NotStarted"));
        }
        if !self.peers.contains(device_key_hex) {
            return Err(failed("Runtime::NotPaired"));
        }
        Ok(())
    }

    /// Queues the pull of one file. Returns the transfer's id. The key is part
    /// of it, so that a later run can tell which device a record belongs to.
    pub fn pull(
        &mut self,
        device_key_hex: &str,
        remote_path: &str,
        local_name: &str,
        now_unix_secs: i64,
    ) -> (id: Result<String, FerryError>)
        requires
            old(self).wf(),
        ensures
            final(self).wf(),
            ({
                let problem = pull_problem(
                    remote_path@,
                    local_name@,
                    device_key_hex@,
                    old(self).running.started,
                    old(self).peers@,
                );
                match id {
                    Ok(id) => {
                        &&& problem is None
                        &&& is_id_of(id@, device_key_hex@)
                        &&& final(self).transfers.rows@ == old(self).transfers.rows@.insert(
                            id@,
                            final(self).transfers.rows@[id@],
                        )
                        &&& pulls_one(
                            final(self).transfers.rows@[id@],
                            id@,
                            device_key_hex@,
                            remote_path@,
                            local_name@,
                            now_unix_secs,
                            old(self).settings.chunk_size,
                        )
                        &&& final(self).transfers.batches == old(self).transfers.batches
                        &&& *final(self) == (Engine {
                            transfers: final(self).transfers,
                            notify: final(self).notify,
                            ..*old(self)
                        })
                        &&& final(self).notify.waiting() == marked(
                            old(self).notify.waiting(),
                            Change::Transfers,
                        )
                        &&& final(self).notify.tells_as(old(self).notify)
                    },
                    Err(e) => *final(self) == *old(self) && (match problem {
                        Some(code) => is_failed(e, code),
                        None => is_failed(e, "TransferError::NoRandomness"@),
                    }),
                }
            }),
    {
        let source = match below_root(remote_path) {
            Err(e) => {
                return Err(e);
            },
            Ok(path) => path,
        };
        let destination = match below_root(local_name) {
            Err(e) => {
                return Err(e);
            },
            Ok(path) => path,
        };
        match self.check_device(device_key_hex) {
            Err(e) => {
                return Err(e);
            },
            Ok(_) => {},
        }
        let id = match new_id(device_key_hex) {
            Err(e) => {
                return Err(e);
            },
            Ok(id) => id,
        };
        let new = NewTransfer {
            device_key_hex: copy_of(device_key_hex),
            source,
            destination,
            direction: Direction::Pull,
            started_unix_secs: now_unix_secs,
            chunk_size: self.settings.chunk_size,
            backoff: BACKOFF_MIN_MS,
        };
        let row = queued_row(copy_of(id.as_str()), new, None);
        self.transfers.add(row);
        self.notify.mark(Change::Transfers);
        Ok(id)
    }

    /// Begins to pull a whole folder, which has to be listed first.
    pub fn pull_folder(&self, device_key_hex: &str, remote_path: &str) -> (call: Result<
        FolderCall,
        FerryError,
    >)
        requires
            self.wf(),
        ensures
            match call {
                Ok(c) => {
                    &&& pull_folder_problem(
                        remote_path@,
                        device_key_hex@,
                        self.running.started,
                        self.peers@,
                    ) is None
                    &&& c.device_key_hex@ == device_key_hex@
                    &&& c.label@ == remote_path@
                    &&& c.source@ == joined(components(remote_path@))
                    &&& c.walk.wf()
                    &&& c.walk@ == fresh_walk(c.source@)
                },
                Err(e) => pull_folder_problem(
                    remote_path@,
                    device_key_hex@,
                    self.running.started,
                    self.peers@,
                ) matches Some(code) && is_failed(e, code),
            },
    {
        let source = match below_root(remote_path) {
            Err(e) => {
                return Err(e);
            },
            Ok(path) => path,
        };
        match self.check_device(device_key_hex) {
            Err(e) => {
                return Err(e);
            },
            Ok(_) => {},
        }
        let walk = Walk::start(&source);
        assert(walk@ =~= fresh_walk(source@));
        Ok(
            FolderCall {
                device_key_hex: copy_of(device_key_hex),
                label: copy_of(remote_path),
                source,
                walk,
            },
        )
    }

    /// A folder was listed. Returns the entry for the access log, and the
    /// batch that pulls every file, which has to be written first. Nothing is
    /// queued where the batch cannot be made.
    pub fn folder_listed(&self, listed: FolderListed, now_unix_secs: i64) -> (made: (
        Logged,
        Result<BatchToWrite, FerryError>,
    ))
        requires
            self.wf(),
        ensures
            made.0@ == listing_log(listed.source@, found_views(listed.files@)),
            ({
                let leaf = segment_of(listed.source@);
                let prefix = listed.source@ + "/"@;
                match made.1 {
                    Ok(b) => pulls_all(
                        b,
                        found_views(listed.files@),
                        listed.device_key_hex@,
                        listed.label@,
                        leaf,
                        prefix,
                        Origin::Manual,
                        now_unix_secs,
                        self.settings.chunk_size,
                    ) && (forall|i: int|
                        0 <= i < b.made.rows@.len() ==> (
                        #[trigger] b.made.rows@[i]).chunk_size > 0),
                    Err(e) => tells_no_batch(e, found_views(listed.files@), leaf, prefix),
                }
            }),
    {
        let logged = Logged {
            verb: AccessVerb::Read,
            path: copy_of(listed.source.as_str()),
            bytes: Some(total_listed_bytes(&listed.files)),
            entries: None,
            files: Some(len_u32(listed.files.len())),
        };
        assert(found_views(listed.files@).len() == listed.files@.len());
        let mut prefix = copy_of(listed.source.as_str());
        prefix.push_str("/");
        let batch = batch_for(
            &listed.files,
            listed.device_key_hex.as_str(),
            listed.label.as_str(),
            last_segment(listed.source.as_str()),
            prefix.as_str(),
            Origin::Manual,
            now_unix_secs,
            self.settings.chunk_size,
        );
        (logged, batch)
    }

    /// Builds the batch of an automatic copy: every file that is new, below
    /// the camera folder.
    pub fn copy_batch(
        &self,
        device_key_hex: &str,
        source: &RemotePath,
        files: &Vec<FoundFile>,
        now_unix_secs: i64,
    ) -> (batch: Result<BatchToWrite, FerryError>)
        requires
            self.wf(),
        ensures
            match batch {
                Ok(b) => pulls_all(
                    b,
                    found_views(files@),
                    device_key_hex@,
                    source@,
                    "DCIM"@,
                    source@ + "/"@,
                    Origin::Automatic,
                    now_unix_secs,
                    self.settings.chunk_size,
                ) && (forall|i: int|
                    0 <= i < b.made.rows@.len() ==> (#[trigger] b.made.rows@[i]).chunk_size > 0),
                Err(e) => tells_no_batch(e, found_views(files@), "DCIM"@, source@ + "/"@),
            },
    {
        let mut prefix = copy_of(source.as_str());
        prefix.push_str("/");
        batch_for(
            files,
            device_key_hex,
            source.as_str(),
            "DCIM",
            prefix.as_str(),
            Origin::Automatic,
            now_unix_secs,
            self.settings.chunk_size,
        )
    }

    /// The record of a batch was written, or was not. Only then are its
    /// transfers queued. Returns their ids, in order.
    pub fn batch_written(&mut self, batch: BatchToWrite, written: bool) -> (queued: Result<
        Vec<String>,
        FerryError,
    >)
        requires
            old(self).wf(),
            forall|i: int|
                0 <= i < batch.made.rows@.len() ==> (
                #[trigger] batch.made.rows@[i]).chunk_size > 0,
        ensures
            final(self).wf(),
            match queued {
                Ok(ids) => {
                    &&& written
                    &&& text_views(ids@) == row_ids(batch.made.rows@)
                    &&& final(self).transfers.rows@ == with_rows(
                        old(self).transfers.rows@,
                        batch.made.rows@,
                    )
                    &&& final(self).transfers.batches@ == old(self).transfers.batches@.insert(
                        batch.made.batch.id@,
                        batch.made.batch,
                    )
                    &&& *final(self) == (Engine {
                        transfers: final(self).transfers,
                        notify: final(self).notify,
                        ..*old(self)
                    })
                    &&& final(self).notify.waiting() == marked(
                        old(self).notify.waiting(),
                        Change::Transfers,
                    )
                    &&& final(self).notify.tells_as(old(self).notify)
                },
                Err(e) => !written && *final(self) == *old(self) && is_failed(
                    e,
                    "TransferError::Local"@,
                ),
            },
    {
        if !written {
            return Err(failed("TransferError::Local"));
        }
        let ids = self.transfers.add_batch(batch.made);
        self.notify.mark(Change::Transfers);
        Ok(ids)
    }

    /// Restarts a failed transfer from its resume point.
    pub fn retry(&mut self, transfer_id: &str) -> (done: RetryDone)
        requires
            old(self).wf(),
        ensures
            final(self).wf(),
            ({
                let outcome = retry_outcome(
                    old(self).transfers.rows@,
                    transfer_id@,
                    among(old(self).peers@),
                );
                &&& final(self).transfers.rows@ == after_retry(
                    old(self).transfers.rows@,
                    transfer_id@,
                    among(old(self).peers@),
                )
                &&& final(self).transfers.batches == old(self).transfers.batches
                &&& *final(self) == (Engine {
                    transfers: final(self).transfers,
                    notify: final(self).notify,
                    ..*old(self)
                })
                &&& final(self).notify.tells_as(old(self).notify)
                &&& final(self).notify.waiting() == (if outcome == Retry::Unpaired || outcome
                    == Retry::Queued {
                    marked(old(self).notify.waiting(), Change::Transfers)
                } else {
                    old(self).notify.waiting()
                })
                &&& done.drop_record == (outcome == Retry::Unpaired)
                &&& match outcome {
                    Retry::Unknown => done.result matches Err(e) && is_failed(
                        e,
                        "Runtime::TransferNotFound"@,
                    ),
                    Retry::Unpaired => done.result matches Err(e) && is_failed(
                        e,
                        "Runtime::NotPaired"@,
                    ),
                    other => done.result == Ok::<Retry, FerryError>(other),
                }
            }),
    {
        match self.transfers.retry(transfer_id, &self.peers) {
            Retry::Unknown => RetryDone {
                result: Err(failed("Runtime::TransferNotFound")),
                drop_record: false,
            },
            Retry::Unpaired => {
                self.notify.mark(Change::Transfers);
                RetryDone { result: Err(failed("Runtime::NotPaired")), drop_record: true }
            },
            Retry::Unchanged => RetryDone { result: Ok(Retry::Unchanged), drop_record: false },
            Retry::Queued => {
                self.notify.mark(Change::Transfers);
                RetryDone { result: Ok(Retry::Queued), drop_record: false }
            },
        }
    }

    /// Retries every failed transfer of a batch, in turn. One whose device is
    /// not paired any more is dropped, and that is no failure.
    pub fn retry_batch(&mut self, batch_id: &str) -> (retried: (
        Vec<Retried>,
        Result<(), FerryError>,
    ))
        requires
            old(self).wf(),
        ensures
            final(self).wf(),
            *final(self) == (Engine {
                transfers: final(self).transfers,
                notify: final(self).notify,
                ..*old(self)
            }),
            final(self).transfers.batches == old(self).transfers.batches,
            final(self).notify.tells_as(old(self).notify),
            final(self).notify.waiting() == (if any_changed(retried.0@) {
                marked(old(self).notify.waiting(), Change::Transfers)
            } else {
                old(self).notify.waiting()
            }),
            !old(self).transfers.batches@.contains_key(batch_id@) ==> {
                &&& final(self).transfers == old(self).transfers
                &&& retried.0@.len() == 0
                &&& retried.1 matches Err(e)
                &&& is_failed_with(e, "Runtime::TransferNotFound"@, batch_id@)
            },
            old(self).transfers.batches@.contains_key(batch_id@) ==> ({
                let rows = old(self).transfers.rows@;
                let paired = among(old(self).peers@);
                let ids = only(
                    text_views(old(self).transfers.batches@[batch_id@].transfer_ids@),
                    failed_in(rows),
                );
                &&& after_retries(rows, ids, paired) == (
                    final(self).transfers.rows@,
                    retried.1 is Ok,
                )
                &&& retried.1 is Ok ==> retried.0@.len() == ids.len()
                &&& retried.1 matches Err(e) ==> is_failed(e, "Runtime::TransferNotFound"@)
                &&& retried.0@.len() <= ids.len()
                &&& forall|i: int|
                    0 <= i < retried.0@.len() ==> (#[trigger] retried.0@[i]).id@ == ids[i]
                        && retried.0@[i].outcome == retry_outcome(
                        after_retries(rows, ids.take(i), paired).0,
                        ids[i],
                        paired,
                    )
            }),
    {
        let (done, result) = self.transfers.retry_batch(batch_id, &self.peers);
        if some_changed(&done) {
            self.notify.mark(Change::Transfers);
        }
        (done, result)
    }
}

/// A pull that was queued reads the path that was asked for on the device that
/// was named, and lands under the name that was given; it begins from nothing.
/// Only its own row is new.
pub proof fn lemma_pull_reads_what_was_asked<L: EngineListener>(
    engine: &mut Engine<L>,
    device_key_hex: &str,
    remote_path: &str,
    local_name: &str,
    now_unix_secs: i64,
    id: String,
)
    requires
        call_ensures(
            Engine::<L>::pull,
            (engine, device_key_hex, remote_path, local_name, now_unix_secs),
            Ok::<String, FerryError>(id),
        ),
    ensures
        is_paired(old(engine).peers@, device_key_hex@),
        old(engine).running.started,
        final(engine).transfers.rows@.contains_key(id@),
        ({
            let row = final(engine).transfers.rows@[id@];
            &&& row.id@ == id@
            &&& row.device_key_hex@ == device_key_hex@
            &&& components(row.source@) == components(remote_path@)
            &&& components(row.destination@) == components(local_name@)
            &&& joined(components(remote_path@)) == remote_path@ ==> row.source@ == remote_path@
            &&& joined(components(local_name@)) == local_name@ ==> row.destination@ == local_name@
            &&& row.source@.len() > 0
            &&& row.destination@.len() > 0
            &&& row.direction == Direction::Pull
            &&& row.state == crate::types::TransferState::Queued
            &&& row.bytes_done == 0
            &&& row.started_unix_secs == now_unix_secs
            &&& row.error is None
            &&& row.batch_id is None
        }),
        forall|other: Seq<char>|
            other != id@ ==> (#[trigger] final(engine).transfers.rows@.contains_key(other) <==> old(engine).transfers.rows@.contains_key(other)),
        forall|other: Seq<char>|
            other != id@ && #[trigger] old(engine).transfers.rows@.contains_key(other) ==> final(engine).transfers.rows@[other] == old(engine).transfers.rows@[other],
{
    crate::path::lemma_components_are_names(remote_path@);
    crate::path::lemma_parts_read_back(components(remote_path@));
    crate::path::lemma_components_are_names(local_name@);
    crate::path::lemma_parts_read_back(components(local_name@));
}

/// A folder that was listed is pulled file by file: each is asked for where it
/// lies, under an id of its own device, and lands in a folder of the folder's
/// name. The batch names exactly these transfers, and its record reads back.
pub proof fn lemma_folder_is_pulled_whole<L: EngineListener>(
    engine: &Engine<L>,
    listed: FolderListed,
    now_unix_secs: i64,
    logged: Logged,
    batch: BatchToWrite,
    i: int,
    rest: Seq<char>,
)
    requires
        call_ensures(
            Engine::<L>::folder_listed,
            (engine, listed, now_unix_secs),
            (logged, Ok::<BatchToWrite, FerryError>(batch)),
        ),
        0 <= i < listed.files@.len(),
        listed.files@[i].path@ == listed.source@ + "/"@ + rest,
    ensures
        batch.made.rows@.len() == listed.files@.len(),
        batch.made.rows@[i].source@ == listed.files@[i].path@,
        components(batch.made.rows@[i].destination@) == components(
            segment_of(listed.source@) + "/"@ + rest,
        ),
        batch.made.rows@[i].device_key_hex@ == listed.device_key_hex@,
        batch.made.rows@[i].direction == Direction::Pull,
        opt_view(batch.made.rows@[i].batch_id) == Some(batch.made.batch.id@),
        batch.made.batch.transfer_ids@.len() == listed.files@.len(),
        batch.made.batch.transfer_ids@[i]@ == batch.made.rows@[i].id@,
        batch.made.batch.device_key_hex@ == listed.device_key_hex@,
        batch.made.batch.origin == Origin::Manual,
        batch.made.batch.label@ == listed.label@,
        batch.made.batch.started_unix_secs == now_unix_secs,
        logged@.verb == AccessVerb::Read,
        logged@.path == listed.source@,
{
    let files = found_views(listed.files@);
    let prefix = listed.source@ + "/"@;
    let leaf = segment_of(listed.source@);
    assert(files[i].path == prefix + rest);
    assert(files[i].path.take(prefix.len() as int) =~= prefix);
    assert(files[i].path.skip(prefix.len() as int) =~= rest);
    assert(crate::transfers::landing_text(leaf, files[i].path, prefix) == leaf + "/"@ + rest);
    crate::path::lemma_components_are_names(leaf + "/"@ + rest);
    crate::path::lemma_parts_read_back(components(leaf + "/"@ + rest));
    let row = batch.made.rows@[i];
    assert(row_ids(batch.made.rows@)[i] == row.id@);
    assert(text_views(batch.made.batch.transfer_ids@)[i] == batch.made.batch.transfer_ids@[i]@);
    assert(text_views(batch.made.batch.transfer_ids@).len()
        == batch.made.batch.transfer_ids@.len());
    assert(row_ids(batch.made.rows@).len() == batch.made.rows@.len());
}

} // verus!
