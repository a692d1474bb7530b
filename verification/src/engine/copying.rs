//! One run of the automatic copy, step by step.

use crate::auto_copy::{AutoCopyRow, RootStep};
use crate::engine::live::{live_of, LiveView};
use crate::engine::queue::{pulls_all, BatchToWrite};
use crate::engine::state::{marked, Engine};
use crate::folder::FoundFile;
use crate::notify::Change;
use crate::path::{components, joined, path_problem, RemotePath};
use crate::text::copy_of;
use crate::transfers::found_views;
use crate::types::{EngineListener, FerryError, Origin};
use vstd::prelude::*;

verus! {

/// What the look for a device's first root leads to.
pub enum CopyStep {
    /// Ask for the page at this cursor.
    Page(u64),
    /// Walk this folder.
    Walk(RemotePath),
    /// There is nothing to copy. The settings have to be written.
    Nothing(Vec<u8>),
    /// The run is over, and is tried again some other time.
    GaveUp,
}

/// What the check of every file leads to.
pub enum CopyEnd {
    /// Nothing is new. The settings have to be written.
    Nothing(Vec<u8>),
    /// Files are new. The batch has to be written.
    Batch(BatchToWrite),
    /// The run is over, and is tried again some other time.
    GaveUp,
}

/// The camera folder below a device's root.
pub open spec fn camera_folder(root: Seq<char>) -> Seq<char> {
    root + "/DCIM"@
}

/// The settings once a run of a device ended with nothing copied.
pub open spec fn nothing_copied<L: EngineListener>(
    before: Engine<L>,
    after: Engine<L>,
    key: Seq<char>,
    now: i64,
    bytes: Seq<u8>,
) -> bool {
    &&& after == (Engine { auto_copy: after.auto_copy, notify: after.notify, ..before })
    &&& after.auto_copy@ == before.auto_copy@.insert(
        key,
        (AutoCopyRow {
            last_run_unix_secs: Some(now),
            last_run_files: Some(0),
            ..before.auto_copy.row(key)
        }),
    )
    &&& bytes == crate::auto_copy::list_bytes(after.auto_copy.listed())
    &&& after.notify.waiting() == marked(before.notify.waiting(), Change::Devices)
    &&& after.notify.tells_as(before.notify)
}

/// What a run that found new files ends with: the batch that copies them, or,
/// where none could be made, nothing until the next run.
pub fn copy_end(batch: Result<BatchToWrite, FerryError>) -> (end: CopyEnd)
    ensures
        end == (match batch {
            Ok(b) => CopyEnd::Batch(b),
            Err(_) => CopyEnd::GaveUp,
        }),
{
    match batch {
        Ok(batch) => CopyEnd::Batch(batch),
        Err(_) => CopyEnd::GaveUp,
    }
}

impl<L: EngineListener> Engine<L> {
    /// A page of the device's roots was looked at. A device with no root has
    /// nothing to copy.
    pub fn copy_root(&mut self, key_hex: &str, step: RootStep, now_unix_secs: i64) -> (next: CopyStep)
        requires
            old(self).wf(),
        ensures
            final(self).wf(),
            match step {
                RootStep::More(cursor) => next == CopyStep::Page(cursor) && *final(self) == *old(
                    self,
                ),
                RootStep::TooLarge => next == CopyStep::GaveUp && *final(self) == *old(self),
                RootStep::NoRoots => next matches CopyStep::Nothing(bytes) && nothing_copied(
                    *old(self),
                    *final(self),
                    key_hex@,
                    now_unix_secs,
                    bytes@,
                ),
                RootStep::Found(root) => {
                    &&& *final(self) == (Engine { live: final(self).live, ..*old(self) })
                    &&& final(self).live@ == old(self).live@.insert(
                        key_hex@,
                        (LiveView {
                            source_root: Some(root@),
                            ..live_of(old(self).live@, key_hex@)
                        }),
                    )
                    &&& if old(self).running.stopped || path_problem(camera_folder(root@))
                        is Some {
                        next == CopyStep::GaveUp
                    } else {
                        next matches CopyStep::Walk(path) && path@ == joined(
                            components(camera_folder(root@)),
                        )
                    }
                },
            },
    {
        match step {
            RootStep::More(cursor) => CopyStep::Page(cursor),
            RootStep::TooLarge => CopyStep::GaveUp,
            RootStep::NoRoots => CopyStep::Nothing(self.record_run(key_hex, now_unix_secs, 0)),
            RootStep::Found(root) => {
                let mut folder = copy_of(root.as_str());
                folder.push_str("/DCIM");
                self.live.set_source_root(key_hex, root);
                if self.running.stopped {
                    return CopyStep::GaveUp;
                }
                match RemotePath::parse(folder.as_str()) {
                    Ok(path) => CopyStep::Walk(path),
                    Err(_) => CopyStep::GaveUp,
                }
            },
        }
    }

    /// Every file was checked, and these are new. A run that finds none is
    /// recorded; one that finds some is recorded once they are copied.
    pub fn copy_checked(
        &mut self,
        key_hex: &str,
        source: &RemotePath,
        files: &Vec<FoundFile>,
        now_unix_secs: i64,
    ) -> (end: CopyEnd)
        requires
            old(self).wf(),
        ensures
            final(self).wf(),
            if files@.len() == 0 {
                end matches CopyEnd::Nothing(bytes) && nothing_copied(
                    *old(self),
                    *final(self),
                    key_hex@,
                    now_unix_secs,
                    bytes@,
                )
            } else {
                &&& *final(self) == *old(self)
                &&& !(end is Nothing)
                &&& end matches CopyEnd::Batch(b) ==> pulls_all(
                    b,
                    found_views(files@),
                    key_hex@,
                    source@,
                    "DCIM"@,
                    source@ + "/"@,
                    Origin::Automatic,
                    now_unix_secs,
                    old(self).settings.chunk_size,
                ) && (forall|i: int|
                    0 <= i < b.made.rows@.len() ==> (#[trigger] b.made.rows@[i]).chunk_size > 0)
            },
    {
        if files.len() == 0 {
            return CopyEnd::Nothing(self.record_run(key_hex, now_unix_secs, 0));
        }
        copy_end(self.copy_batch(key_hex, source, files, now_unix_secs))
    }
}

/// An automatic copy takes the camera's folder of the first root.
pub proof fn lemma_copies_come_from_the_camera<L: EngineListener>(
    engine: &mut Engine<L>,
    key_hex: &str,
    root: String,
    now_unix_secs: i64,
    path: RemotePath,
)
    requires
        call_ensures(
            Engine::<L>::copy_root,
            (engine, key_hex, RootStep::Found(root), now_unix_secs),
            CopyStep::Walk(path),
        ),
    ensures
        components(path@) == components(root@ + "/DCIM"@),
        live_of(final(engine).live@, key_hex@).source_root == Some(root@),
        !old(engine).running.stopped,
{
    crate::path::lemma_components_are_names(root@ + "/DCIM"@);
    crate::path::lemma_parts_read_back(components(root@ + "/DCIM"@));
}

/// Each new file is pulled from where it lies into the folder for photos, in
/// one batch that is marked as automatic; with nothing new the run is noted.
pub proof fn lemma_new_files_are_pulled<L: EngineListener>(
    engine: &mut Engine<L>,
    key_hex: &str,
    source: &RemotePath,
    files: &Vec<FoundFile>,
    now_unix_secs: i64,
    end: CopyEnd,
    i: int,
    rest: Seq<char>,
)
    requires
        call_ensures(
            Engine::<L>::copy_checked,
            (engine, key_hex, source, files, now_unix_secs),
            end,
        ),
    ensures
        files@.len() == 0 ==> end is Nothing && final(engine).auto_copy@.contains_key(key_hex@)
            && final(engine).auto_copy@[key_hex@].last_run_unix_secs == Some(now_unix_secs) && final(
            engine).auto_copy@[key_hex@].last_run_files == Some(0u32),
        files@.len() > 0 ==> !(end is Nothing),
        end is Batch ==> end->Batch_0.made.rows@.len() == files@.len()
            && end->Batch_0.made.batch.origin == Origin::Automatic
            && end->Batch_0.made.batch.device_key_hex@ == key_hex@,
        end is Batch && 0 <= i < files@.len() && files@[i].path@ == source@ + "/"@ + rest ==> ({
            let row = end->Batch_0.made.rows@[i];
            &&& row.source@ == files@[i].path@
            &&& components(row.destination@) == components("DCIM"@ + "/"@ + rest)
            &&& row.device_key_hex@ == key_hex@
        }),
{
    if end is Batch && 0 <= i < files@.len() && files@[i].path@ == source@ + "/"@ + rest {
        let views = found_views(files@);
        let prefix = source@ + "/"@;
        assert(views[i].path == prefix + rest);
        assert(views[i].path.take(prefix.len() as int) =~= prefix);
        assert(views[i].path.skip(prefix.len() as int) =~= rest);
        crate::path::lemma_components_are_names("DCIM"@ + "/"@ + rest);
        crate::path::lemma_parts_read_back(components("DCIM"@ + "/"@ + rest));
        assert(crate::transfers::landing_text("DCIM"@, views[i].path, prefix) == "DCIM"@ + "/"@
            + rest);
        let row = end->Batch_0.made.rows@[i];
        assert(row.source@ == views[i].path);
    }
}

} // verus!
