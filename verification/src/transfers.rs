//! The transfers and the batches they belong to: making them, showing them,
//! retrying them, forgetting them, and bringing them back after a restart.

use crate::batch::{read_batch, read_record, BatchRecord, RecordView};
use crate::dav::probes::{last_segment, segment_of};
use crate::errors::{copy_opt_error, failed, failed_with, from_path, is_failed, is_failed_with,
    opt_error_view, path_code};
use crate::folder::{FoundFile, FoundView};
use crate::manifest::{check_chunk_size, chunk_size_problem};
use crate::path::{components, joined, path_problem, RemotePath};
use crate::peers::{is_paired, Peers};
use crate::random::random_bytes;
use crate::seqs::{first_of, lemma_first_part, len_u32, only, sat32, sat64, sum_by};
use crate::text::{
    begins_with, chars_of, copy_of, copy_opt, ends_with, find_char, finishes_with, first_index,
    hex_of, hex_text, lemma_first_index_meaning, opt_view, starts_with, text_of, text_views,
};
use crate::textmap::TextMap;
use crate::types::{
    BatchInfo, Direction, FerryError, Origin, TransferInfo, TransferState, Transport,
};
use vstd::prelude::*;
use vstd::slice::slice_subrange;

verus! {

/// How many random bytes an id holds.
pub const SESSION_LEN: usize = 16;

/// One transfer.
#[derive(Debug)]
pub struct TransferRow {
    /// `<device key>-<random>`. The key is part of it, so that a record on
    /// disk tells which device it belongs to.
    pub id: String,
    pub device_key_hex: String,
    /// The file's name, for display.
    pub file_name: String,
    pub source: RemotePath,
    pub destination: RemotePath,
    pub bytes_total: u64,
    /// Bytes verified in place.
    pub bytes_done: u64,
    pub state: TransferState,
    pub transport: Option<Transport>,
    pub error: Option<FerryError>,
    /// The size the source had when its first pass began.
    pub source_size: Option<u64>,
    /// The modified time the source had when its first pass began.
    pub source_mtime: Option<i64>,
    /// A worker has it.
    pub running: bool,
    /// No attempt is made before this moment, in milliseconds.
    pub attempt_after: Option<u64>,
    /// How long the next failed attempt waits, in milliseconds.
    pub backoff: u64,
    pub started_unix_secs: i64,
    pub ended_unix_secs: Option<i64>,
    pub direction: Direction,
    pub speed_bytes_per_sec: Option<u64>,
    pub batch_id: Option<String>,
    pub chunk_size: u32,
}

/// One batch.
#[derive(Debug)]
pub struct BatchRow {
    /// `<device key>-<random>`.
    pub id: String,
    pub device_key_hex: String,
    /// The remote path the batch was made for, as it was given.
    pub label: String,
    pub direction: Direction,
    pub origin: Origin,
    pub started_unix_secs: i64,
    /// The transfers this batch covers, in the order they were queued.
    pub transfer_ids: Vec<String>,
}

// ---------------------------------------------------------------------------
// How a transfer is shown.
// ---------------------------------------------------------------------------

/// How many chunks `bytes` take.
pub open spec fn chunks_in(bytes: u64, chunk_size: u32) -> u32 {
    sat32(((bytes + chunk_size - 1) / chunk_size as int) as nat)
}

/// How many chunks are verified once `done` of `total` bytes are: the whole
/// ones, and all of them at the end.
pub open spec fn chunks_done(done: u64, total: u64, chunk_size: u32) -> u32 {
    if done >= total {
        chunks_in(total, chunk_size)
    } else {
        sat32((done as int / chunk_size as int) as nat)
    }
}

/// `info` shows `row`.
pub open spec fn shows_transfer(info: TransferInfo, row: TransferRow) -> bool {
    &&& info.id@ == row.id@
    &&& info.device_key_hex@ == row.device_key_hex@
    &&& info.file_name@ == row.file_name@
    &&& info.bytes_total == row.bytes_total
    &&& info.bytes_done == row.bytes_done
    &&& info.state == row.state
    &&& info.transport == row.transport
    &&& opt_error_view(info.error) == opt_error_view(row.error)
    &&& info.started_unix_secs == row.started_unix_secs
    &&& info.ended_unix_secs == row.ended_unix_secs
    &&& info.direction == row.direction
    &&& info.speed_bytes_per_sec == (if row.state == TransferState::Active {
        row.speed_bytes_per_sec
    } else {
        None
    })
    &&& info.chunks_total == chunks_in(row.bytes_total, row.chunk_size)
    &&& info.chunks_verified == chunks_done(row.bytes_done, row.bytes_total, row.chunk_size)
    &&& opt_view(info.batch_id) == opt_view(row.batch_id)
}

fn count_chunks(bytes: u64, chunk_size: u32) -> (count: u32)
    requires
        chunk_size > 0,
    ensures
        count == chunks_in(bytes, chunk_size),
{
    if bytes == 0 {
        assert((chunk_size as int - 1) / chunk_size as int == 0) by (nonlinear_arith)
            requires
                chunk_size > 0,
        ;
        0
    } else {
        let whole: u64 = (bytes - 1) / chunk_size as u64;
        assert((bytes + chunk_size - 1) / chunk_size as int == whole + 1) by (nonlinear_arith)
            requires
                bytes > 0,
                chunk_size > 0,
                whole == (bytes - 1) / chunk_size as int,
        ;
        if whole >= 4_294_967_295 {
            4_294_967_295
        } else {
            whole as u32 + 1
        }
    }
}

impl TransferRow {
    /// The transfer as the app shows it.
    pub fn info(&self) -> (info: TransferInfo)
        requires
            self.chunk_size > 0,
        ensures
            shows_transfer(info, *self),
    {
        let chunks_total: u32 = count_chunks(self.bytes_total, self.chunk_size);
        let chunks_verified: u32 = if self.bytes_done >= self.bytes_total {
            chunks_total
        } else {
            let whole: u64 = self.bytes_done / self.chunk_size as u64;
            if whole > 4_294_967_295 {
                4_294_967_295
            } else {
                whole as u32
            }
        };
        TransferInfo {
            id: copy_of(self.id.as_str()),
            device_key_hex: copy_of(self.device_key_hex.as_str()),
            file_name: copy_of(self.file_name.as_str()),
            bytes_total: self.bytes_total,
            bytes_done: self.bytes_done,
            state: self.state,
            transport: self.transport,
            error: copy_opt_error(&self.error),
            started_unix_secs: self.started_unix_secs,
            ended_unix_secs: self.ended_unix_secs,
            direction: self.direction,
            speed_bytes_per_sec: if self.state == TransferState::Active {
                self.speed_bytes_per_sec
            } else {
                None
            },
            chunks_total,
            chunks_verified,
            batch_id: copy_opt(&self.batch_id),
        }
    }
}

// ---------------------------------------------------------------------------
// How a batch is shown.
// ---------------------------------------------------------------------------

/// The transfers of `ids` that there are, in the order of the ids.
pub open spec fn members(ids: Seq<Seq<char>>, rows: Map<Seq<char>, TransferRow>) -> Seq<
    TransferRow,
>
    decreases ids.len(),
{
    if ids.len() == 0 {
        Seq::empty()
    } else if rows.contains_key(ids.last()) {
        members(ids.drop_last(), rows).push(rows[ids.last()])
    } else {
        members(ids.drop_last(), rows)
    }
}

/// One of the transfers is in this state.
pub open spec fn has_state(rows: Seq<TransferRow>, state: TransferState) -> bool {
    exists|i: int| 0 <= i < rows.len() && (#[trigger] rows[i]).state == state
}

/// The worst state among the transfers; `Done` where there are none.
pub open spec fn worst_state(rows: Seq<TransferRow>) -> TransferState {
    if has_state(rows, TransferState::Failed) {
        TransferState::Failed
    } else if has_state(rows, TransferState::Paused) {
        TransferState::Paused
    } else if has_state(rows, TransferState::Active) {
        TransferState::Active
    } else if has_state(rows, TransferState::Queued) {
        TransferState::Queued
    } else {
        TransferState::Done
    }
}

/// The later of two moments.
pub open spec fn later(a: Option<i64>, b: Option<i64>) -> Option<i64> {
    match (a, b) {
        (Some(x), Some(y)) => Some(
            if x >= y {
                x
            } else {
                y
            },
        ),
        (Some(x), None) => Some(x),
        (None, b) => b,
    }
}

/// The latest end among the transfers.
pub open spec fn latest_end(rows: Seq<TransferRow>) -> Option<i64>
    decreases rows.len(),
{
    if rows.len() == 0 {
        None
    } else {
        later(latest_end(rows.drop_last()), rows.last().ended_unix_secs)
    }
}

/// Some transfer has not come to an end.
pub open spec fn unfinished(rows: Seq<TransferRow>) -> bool {
    has_state(rows, TransferState::Queued) || has_state(rows, TransferState::Active) || has_state(
        rows,
        TransferState::Paused,
    )
}

/// When a batch ended: the latest end among its transfers, once all have
/// come to one; its own start where there are none.
pub open spec fn batch_end(rows: Seq<TransferRow>, started: i64) -> Option<i64> {
    if unfinished(rows) {
        None
    } else if rows.len() == 0 {
        Some(started)
    } else {
        latest_end(rows)
    }
}

/// How many bytes per second a transfer adds to its batch.
pub open spec fn active_speed(row: TransferRow) -> nat {
    match (row.state, row.speed_bytes_per_sec) {
        (TransferState::Active, Some(n)) => n as nat,
        _ => 0,
    }
}

/// A transfer that is active, over a transport that is known.
pub open spec fn carried(row: TransferRow) -> bool {
    row.state == TransferState::Active && row.transport is Some
}

/// A transfer that failed.
pub open spec fn is_failed_row(row: TransferRow) -> bool {
    row.state == TransferState::Failed
}

/// A transfer that is done.
pub open spec fn done_count(row: TransferRow) -> nat {
    if row.state == TransferState::Done {
        1
    } else {
        0
    }
}

/// The error of the first failed transfer.
pub open spec fn first_error(rows: Seq<TransferRow>) -> Option<(Seq<char>, Option<Seq<char>>)> {
    match first_of(rows, |r: TransferRow| is_failed_row(r)) {
        Some(r) => opt_error_view(r.error),
        None => None,
    }
}

/// The transport of the first active transfer that has one.
pub open spec fn first_transport(rows: Seq<TransferRow>) -> Option<Transport> {
    match first_of(rows, |r: TransferRow| carried(r)) {
        Some(r) => r.transport,
        None => None,
    }
}

/// `info` shows `batch`, whose transfers are `rows`.
pub open spec fn shows_batch(info: BatchInfo, batch: BatchRow, rows: Seq<TransferRow>) -> bool {
    &&& info.id@ == batch.id@
    &&& info.device_key_hex@ == batch.device_key_hex@
    &&& info.label@ == batch.label@
    &&& info.files_total == sat32(batch.transfer_ids@.len())
    &&& info.files_done == sat32(sum_by(rows, |r: TransferRow| done_count(r)))
    &&& info.bytes_total == sat64(sum_by(rows, |r: TransferRow| r.bytes_total as nat))
    &&& info.bytes_done == sat64(sum_by(rows, |r: TransferRow| r.bytes_done as nat))
    &&& info.state == worst_state(rows)
    &&& info.direction == batch.direction
    &&& info.origin == batch.origin
    &&& info.speed_bytes_per_sec == (if has_state(rows, TransferState::Active) {
        Some(sat64(sum_by(rows, |r: TransferRow| active_speed(r))))
    } else {
        None
    })
    &&& info.started_unix_secs == batch.started_unix_secs
    &&& info.ended_unix_secs == batch_end(rows, batch.started_unix_secs)
    &&& info.transport == first_transport(rows)
    &&& opt_error_view(info.error) == first_error(rows)
}

/// What has been seen of a batch's transfers.
struct Tally {
    failed: bool,
    paused: bool,
    active: bool,
    queued: bool,
    any: bool,
    done: u32,
    total: u64,
    moved: u64,
    speed: u64,
    end: Option<i64>,
    transport: Option<Transport>,
    error: Option<FerryError>,
}

impl Tally {
    spec fn of(self, rows: Seq<TransferRow>) -> bool {
        &&& self.failed == has_state(rows, TransferState::Failed)
        &&& self.paused == has_state(rows, TransferState::Paused)
        &&& self.active == has_state(rows, TransferState::Active)
        &&& self.queued == has_state(rows, TransferState::Queued)
        &&& self.any == (rows.len() > 0)
        &&& self.done == sat32(sum_by(rows, |r: TransferRow| done_count(r)))
        &&& self.total == sat64(sum_by(rows, |r: TransferRow| r.bytes_total as nat))
        &&& self.moved == sat64(sum_by(rows, |r: TransferRow| r.bytes_done as nat))
        &&& self.speed == sat64(sum_by(rows, |r: TransferRow| active_speed(r)))
        &&& self.end == latest_end(rows)
        &&& self.transport == first_transport(rows)
        &&& opt_error_view(self.error) == first_error(rows)
    }

    fn new() -> (tally: Tally)
        ensures
            tally.of(Seq::empty()),
    {
        Tally {
            failed: false,
            paused: false,
            active: false,
            queued: false,
            any: false,
            done: 0,
            total: 0,
            moved: 0,
            speed: 0,
            end: None,
            transport: None,
            error: None,
        }
    }

    fn count(self, row: &TransferRow, Ghost(rows): Ghost<Seq<TransferRow>>) -> (tally: Tally)
        requires
            self.of(rows),
        ensures
            tally.of(rows.push(*row)),
    {
        let ghost grown = rows.push(*row);
        let failed_before = self.failed;
        proof {
            assert(grown.drop_last() =~= rows);
            assert(grown.last() == *row);
            lemma_has_state_push(rows, *row, TransferState::Failed);
            lemma_has_state_push(rows, *row, TransferState::Paused);
            lemma_has_state_push(rows, *row, TransferState::Active);
            lemma_has_state_push(rows, *row, TransferState::Queued);
            crate::seqs::lemma_first_of(rows, |r: TransferRow| is_failed_row(r));
            crate::seqs::lemma_first_of(rows, |r: TransferRow| carried(r));
        }
        let speed: u64 = if row.state == TransferState::Active {
            match row.speed_bytes_per_sec {
                Some(n) => n,
                None => 0,
            }
        } else {
            0
        };
        let transport = match self.transport {
            Some(t) => Some(t),
            None => {
                if row.state == TransferState::Active {
                    row.transport
                } else {
                    None
                }
            },
        };
        let end = match (self.end, row.ended_unix_secs) {
            (Some(a), Some(b)) => Some(
                if a >= b {
                    a
                } else {
                    b
                },
            ),
            (Some(a), None) => Some(a),
            (None, b) => b,
        };
        let is_failed = row.state == TransferState::Failed;
        let error = if is_failed && !failed_before {
            copy_opt_error(&row.error)
        } else {
            self.error
        };
        Tally {
            failed: self.failed || is_failed,
            paused: self.paused || row.state == TransferState::Paused,
            active: self.active || row.state == TransferState::Active,
            queued: self.queued || row.state == TransferState::Queued,
            any: true,
            done: if row.state == TransferState::Done {
                self.done.saturating_add(1)
            } else {
                self.done
            },
            total: self.total.saturating_add(row.bytes_total),
            moved: self.moved.saturating_add(row.bytes_done),
            speed: self.speed.saturating_add(speed),
            end,
            transport,
            error,
        }
    }
}

proof fn lemma_has_state_push(rows: Seq<TransferRow>, row: TransferRow, state: TransferState)
    ensures
        has_state(rows.push(row), state) == (has_state(rows, state) || row.state == state),
{
    let grown = rows.push(row);
    if has_state(rows, state) {
        let i = choose|i: int| 0 <= i < rows.len() && (#[trigger] rows[i]).state == state;
        assert(grown[i].state == state);
    }
    if row.state == state {
        assert(grown[rows.len() as int].state == state);
    }
    if has_state(grown, state) {
        let i = choose|i: int| 0 <= i < grown.len() && (#[trigger] grown[i]).state == state;
        if i < rows.len() {
            assert(rows[i].state == state);
        }
    }
}

impl BatchRow {
    /// The batch as the app shows it: what is stored of it, and what its
    /// transfers come to.
    pub fn info(&self, rows: &TextMap<TransferRow>) -> (info: BatchInfo)
        requires
            rows.wf(),
        ensures
            shows_batch(info, *self, members(text_views(self.transfer_ids@), rows@)),
    {
        let mut tally = Tally::new();
        let ghost ids = text_views(self.transfer_ids@);
        let mut i: usize = 0;
        assert(members(ids.take(0), rows@) =~= Seq::<TransferRow>::empty());
        while i < self.transfer_ids.len()
            invariant
                i <= self.transfer_ids.len(),
                rows.wf(),
                ids == text_views(self.transfer_ids@),
                tally.of(members(ids.take(i as int), rows@)),
            decreases self.transfer_ids.len() - i,
        {
            let ghost so_far = members(ids.take(i as int), rows@);
            proof {
                assert(ids.take(i + 1).drop_last() =~= ids.take(i as int));
                assert(ids.take(i + 1).last() == self.transfer_ids@[i as int]@);
            }
            match rows.get(self.transfer_ids[i].as_str()) {
                Some(row) => {
                    tally = tally.count(row, Ghost(so_far));
                },
                None => {},
            }
            i += 1;
        }
        assert(ids.take(ids.len() as int) =~= ids);
        let Tally {
            failed,
            paused,
            active,
            queued,
            any,
            done,
            total,
            moved,
            speed,
            end,
            transport,
            error,
        } = tally;
        let state = if failed {
            TransferState::Failed
        } else if paused {
            TransferState::Paused
        } else if active {
            TransferState::Active
        } else if queued {
            TransferState::Queued
        } else {
            TransferState::Done
        };
        let ended_unix_secs = if queued || active || paused {
            None
        } else if !any {
            Some(self.started_unix_secs)
        } else {
            end
        };
        BatchInfo {
            id: copy_of(self.id.as_str()),
            device_key_hex: copy_of(self.device_key_hex.as_str()),
            label: copy_of(self.label.as_str()),
            files_total: len_u32(self.transfer_ids.len()),
            files_done: done,
            bytes_total: total,
            bytes_done: moved,
            state,
            direction: self.direction,
            origin: self.origin,
            speed_bytes_per_sec: if active {
                Some(speed)
            } else {
                None
            },
            started_unix_secs: self.started_unix_secs,
            ended_unix_secs,
            transport,
            error,
        }
    }
}

/// A batch is `Done` exactly when each of its transfers is; it has an error
/// only where it is `Failed`; it has an end only where it is `Done` or
/// `Failed`; and a batch without transfers is `Done` and ended when it
/// started.
pub proof fn lemma_batch_state(info: BatchInfo, batch: BatchRow, rows: Seq<TransferRow>)
    requires
        shows_batch(info, batch, rows),
    ensures
        info.state == TransferState::Done <==> (forall|i: int|
            0 <= i < rows.len() ==> (#[trigger] rows[i]).state == TransferState::Done),
        info.error is Some ==> info.state == TransferState::Failed,
        info.ended_unix_secs is Some ==> info.state == TransferState::Done || info.state
            == TransferState::Failed,
        rows.len() == 0 ==> info.state == TransferState::Done && info.ended_unix_secs == Some(
            batch.started_unix_secs,
        ),
        info.transport is Some ==> has_state(rows, TransferState::Active),
{
    crate::seqs::lemma_first_of(rows, |r: TransferRow| is_failed_row(r));
    crate::seqs::lemma_first_of(rows, |r: TransferRow| carried(r));
    if info.state == TransferState::Done {
        assert forall|i: int| 0 <= i < rows.len() implies (#[trigger] rows[i]).state
            == TransferState::Done by {
            match rows[i].state {
                TransferState::Failed => {
                    assert(has_state(rows, TransferState::Failed));
                },
                TransferState::Paused => {
                    assert(has_state(rows, TransferState::Paused));
                },
                TransferState::Active => {
                    assert(has_state(rows, TransferState::Active));
                },
                TransferState::Queued => {
                    assert(has_state(rows, TransferState::Queued));
                },
                TransferState::Done => {},
            }
        }
    }
}

// ---------------------------------------------------------------------------
// Making transfers.
// ---------------------------------------------------------------------------

/// `id` is one of this device's: its key, a dash, and a random part.
pub open spec fn is_id_of(id: Seq<char>, device: Seq<char>) -> bool {
    exists|random: Seq<u8>|
        random.len() == SESSION_LEN && id == device + "-"@ + #[trigger] hex_of(random)
}

/// The id that a random part makes.
pub fn id_from(device_key_hex: &str, random: &[u8]) -> (id: String)
    ensures
        id@ == device_key_hex@ + "-"@ + hex_of(random@),
{
    let mut id = copy_of(device_key_hex);
    id.push_str("-");
    let part = hex_text(random);
    id.push_str(part.as_str());
    id
}

/// A new id for a transfer or a batch with this device. It fails where there
/// is no randomness.
pub fn new_id(device_key_hex: &str) -> (id: Result<String, FerryError>)
    ensures
        match id {
            Ok(t) => is_id_of(t@, device_key_hex@),
            Err(e) => is_failed(e, "TransferError::NoRandomness"@),
        },
{
    match random_bytes(SESSION_LEN) {
        Some(random) => Ok(id_from(device_key_hex, random.as_slice())),
        None => Err(failed("TransferError::NoRandomness")),
    }
}

/// What a new transfer is made of.
pub struct NewTransfer {
    pub device_key_hex: String,
    pub source: RemotePath,
    pub destination: RemotePath,
    pub direction: Direction,
    pub started_unix_secs: i64,
    pub chunk_size: u32,
    pub backoff: u64,
}

/// `row` is a queued transfer of which nothing has moved.
pub open spec fn is_queued(row: TransferRow) -> bool {
    &&& row.file_name@ == segment_of(row.destination@)
    &&& row.bytes_total == 0
    &&& row.bytes_done == 0
    &&& row.state == TransferState::Queued
    &&& row.transport is None
    &&& row.error is None
    &&& row.source_size is None
    &&& row.source_mtime is None
    &&& !row.running
    &&& row.attempt_after is None
    &&& row.ended_unix_secs is None
    &&& row.speed_bytes_per_sec is None
}

/// A queued transfer with this id.
pub fn queued_row(id: String, new: NewTransfer, batch_id: Option<String>) -> (row: TransferRow)
    ensures
        is_queued(row),
        row.id@ == id@,
        row.device_key_hex@ == new.device_key_hex@,
        row.source@ == new.source@,
        row.destination@ == new.destination@,
        row.direction == new.direction,
        row.started_unix_secs == new.started_unix_secs,
        row.chunk_size == new.chunk_size,
        row.backoff == new.backoff,
        opt_view(row.batch_id) == opt_view(batch_id),
{
    let file_name = copy_of(last_segment(new.destination.as_str()));
    TransferRow {
        id,
        device_key_hex: new.device_key_hex,
        file_name,
        source: new.source,
        destination: new.destination,
        bytes_total: 0,
        bytes_done: 0,
        state: TransferState::Queued,
        transport: None,
        error: None,
        source_size: None,
        source_mtime: None,
        running: false,
        attempt_after: None,
        backoff: new.backoff,
        started_unix_secs: new.started_unix_secs,
        ended_unix_secs: None,
        direction: new.direction,
        speed_bytes_per_sec: None,
        batch_id,
        chunk_size: new.chunk_size,
    }
}

/// The part of a path that follows `prefix`; all of it where it does not
/// begin with that.
pub open spec fn relative_to(path: Seq<char>, prefix: Seq<char>) -> Seq<char> {
    if begins_with(path, prefix) {
        path.skip(prefix.len() as int)
    } else {
        path
    }
}

/// Where a file of a copied folder lands, before it is read as a path.
pub open spec fn landing_text(leaf: Seq<char>, path: Seq<char>, prefix: Seq<char>) -> Seq<char> {
    leaf + "/"@ + relative_to(path, prefix)
}

/// Where a file of a copied folder lands.
pub fn landing_path(leaf: &str, path: &str, prefix: &str) -> (landing: Result<
    RemotePath,
    FerryError,
>)
    ensures
        match landing {
            Ok(p) => path_problem(landing_text(leaf@, path@, prefix@)) is None && p@ == joined(
                components(landing_text(leaf@, path@, prefix@)),
            ),
            Err(e) => path_problem(landing_text(leaf@, path@, prefix@)) matches Some(problem)
                && is_failed(e, path_code(problem)),
        },
{
    let chars = chars_of(path);
    let start = chars_of(prefix);
    let relative = if starts_with(chars.as_slice(), prefix) {
        let part = slice_subrange(chars.as_slice(), start.len(), chars.len());
        assert(part@ =~= path@.skip(prefix@.len() as int));
        text_of(part)
    } else {
        copy_of(path)
    };
    let mut text = copy_of(leaf);
    text.push_str("/");
    text.push_str(relative.as_str());
    match RemotePath::parse(text.as_str()) {
        Ok(p) => Ok(p),
        Err(e) => Err(from_path(e)),
    }
}

/// `row` is the queued pull of one file of a copied folder, in the batch
/// `batch_id` where there is one.
pub open spec fn pulls_file(
    row: TransferRow,
    file: FoundView,
    device: Seq<char>,
    leaf: Seq<char>,
    prefix: Seq<char>,
    started: i64,
    chunk_size: u32,
    backoff: u64,
    batch_id: Option<Seq<char>>,
) -> bool {
    &&& is_queued(row)
    &&& row.device_key_hex@ == device
    &&& row.source@ == file.path
    &&& row.destination@ == joined(components(landing_text(leaf, file.path, prefix)))
    &&& row.direction == Direction::Pull
    &&& row.started_unix_secs == started
    &&& row.chunk_size == chunk_size
    &&& row.backoff == backoff
    &&& opt_view(row.batch_id) == batch_id
}

/// The first file that has nowhere to land.
pub open spec fn no_landing(leaf: Seq<char>, prefix: Seq<char>) -> spec_fn(FoundView) -> bool {
    |file: FoundView| path_problem(landing_text(leaf, file.path, prefix)) is Some
}

/// What is known of some found files.
pub open spec fn found_views(files: Seq<FoundFile>) -> Seq<FoundView> {
    files.map_values(|f: FoundFile| f@)
}

/// The first file, where there is one, has somewhere to land.
pub open spec fn first_lands(files: Seq<FoundView>, leaf: Seq<char>, prefix: Seq<char>) -> bool {
    files.len() == 0 || !no_landing(leaf, prefix)(files[0])
}

/// The error says why the first file that has nowhere to land has none.
pub open spec fn tells_no_landing(
    e: FerryError,
    files: Seq<FoundView>,
    leaf: Seq<char>,
    prefix: Seq<char>,
) -> bool {
    first_of(files, no_landing(leaf, prefix)) matches Some(file) && is_failed(
        e,
        path_code(path_problem(landing_text(leaf, file.path, prefix))->0),
    )
}

/// A new id for each file that was found. It fails at the first file that has
/// nowhere to land, or before it where there is no randomness.
fn draw_ids(found: &Vec<FoundFile>, device_key_hex: &str, leaf: &str, prefix: &str) -> (ids: Result<
    Vec<String>,
    FerryError,
>)
    ensures
        match ids {
            Ok(drawn) => {
                &&& drawn@.len() == found@.len()
                &&& first_of(found_views(found@), no_landing(leaf@, prefix@)) is None
                &&& forall|i: int|
                    0 <= i < drawn@.len() ==> is_id_of((#[trigger] drawn@[i])@, device_key_hex@)
            },
            Err(e) => (found@.len() > 0 && first_lands(found_views(found@), leaf@, prefix@)
                && is_failed(e, "TransferError::NoRandomness"@)) || tells_no_landing(
                e,
                found_views(found@),
                leaf@,
                prefix@,
            ),
        },
{
    let ghost views = found_views(found@);
    let ghost test = no_landing(leaf@, prefix@);
    let mut ids: Vec<String> = Vec::new();
    let mut i: usize = 0;
    assert(views.take(0) =~= Seq::<FoundView>::empty());
    while i < found.len()
        invariant
            i <= found.len(),
            ids@.len() == i,
            views == found_views(found@),
            test == no_landing(leaf@, prefix@),
            first_of(views.take(i as int), test) is None,
            i > 0 ==> first_lands(views, leaf@, prefix@),
            forall|j: int| 0 <= j < i ==> is_id_of((#[trigger] ids@[j])@, device_key_hex@),
        decreases found.len() - i,
    {
        proof {
            assert(views.take(i + 1).drop_last() =~= views.take(i as int));
            assert(views.take(i + 1).last() == found@[i as int]@);
            assert(views[0] == found@[0]@);
        }
        match landing_path(leaf, found[i].path.as_str(), prefix) {
            Err(error) => {
                proof {
                    lemma_first_part(views, test, i + 1);
                }
                return Err(error);
            },
            Ok(_) => {},
        }
        match new_id(device_key_hex) {
            Err(error) => {
                return Err(error);
            },
            Ok(id) => {
                ids.push(id);
            },
        }
        i += 1;
    }
    assert(views.take(views.len() as int) =~= views);
    Ok(ids)
}

/// One queued pull for each file that was found, still without a batch, in
/// the order they were found, and with these ids. It fails, and makes
/// nothing, exactly where a file has nowhere to land.
pub fn rows_with_ids(
    found: &Vec<FoundFile>,
    device_key_hex: &str,
    leaf: &str,
    prefix: &str,
    started_unix_secs: i64,
    chunk_size: u32,
    backoff: u64,
    ids: &Vec<String>,
) -> (rows: Result<Vec<TransferRow>, FerryError>)
    requires
        ids@.len() == found@.len(),
    ensures
        rows is Ok <==> first_of(found_views(found@), no_landing(leaf@, prefix@)) is None,
        match rows {
            Ok(r) => {
                &&& row_ids(r@) == text_views(ids@)
                &&& forall|i: int|
                    0 <= i < r@.len() ==> pulls_file(
                        #[trigger] r@[i],
                        found@[i]@,
                        device_key_hex@,
                        leaf@,
                        prefix@,
                        started_unix_secs,
                        chunk_size,
                        backoff,
                        None,
                    )
            },
            Err(e) => tells_no_landing(e, found_views(found@), leaf@, prefix@),
        },
{
    let ghost views = found_views(found@);
    let ghost test = no_landing(leaf@, prefix@);
    let mut rows: Vec<TransferRow> = Vec::new();
    let mut i: usize = 0;
    assert(views.take(0) =~= Seq::<FoundView>::empty());
    while i < found.len()
        invariant
            i <= found.len(),
            rows@.len() == i,
            ids@.len() == found@.len(),
            views == found_views(found@),
            test == no_landing(leaf@, prefix@),
            first_of(views.take(i as int), test) is None,
            forall|j: int|
                0 <= j < i ==> (#[trigger] rows@[j]).id@ == ids@[j]@ && pulls_file(
                    rows@[j],
                    found@[j]@,
                    device_key_hex@,
                    leaf@,
                    prefix@,
                    started_unix_secs,
                    chunk_size,
                    backoff,
                    None,
                ),
        decreases found.len() - i,
    {
        let file = &found[i];
        proof {
            assert(views.take(i + 1).drop_last() =~= views.take(i as int));
            assert(views.take(i + 1).last() == file@);
        }
        match landing_path(leaf, file.path.as_str(), prefix) {
            Err(error) => {
                proof {
                    lemma_first_part(views, test, i + 1);
                }
                return Err(error);
            },
            Ok(destination) => {
                let new = NewTransfer {
                    device_key_hex: copy_of(device_key_hex),
                    source: file.path.copy(),
                    destination,
                    direction: Direction::Pull,
                    started_unix_secs,
                    chunk_size,
                    backoff,
                };
                rows.push(queued_row(copy_of(ids[i].as_str()), new, None));
            },
        }
        i += 1;
    }
    assert(views.take(views.len() as int) =~= views);
    assert(row_ids(rows@) =~= text_views(ids@));
    Ok(rows)
}

/// One queued pull for each file that was found, still without a batch, in
/// the order they were found. It fails, and makes nothing, where a file has
/// nowhere to land, or where there is no randomness.
pub fn rows_for_folder(
    found: &Vec<FoundFile>,
    device_key_hex: &str,
    leaf: &str,
    prefix: &str,
    started_unix_secs: i64,
    chunk_size: u32,
    backoff: u64,
) -> (rows: Result<Vec<TransferRow>, FerryError>)
    ensures
        match rows {
            Ok(r) => {
                &&& r@.len() == found@.len()
                &&& first_of(found_views(found@), no_landing(leaf@, prefix@)) is None
                &&& forall|i: int|
                    0 <= i < found@.len() ==> is_id_of(
                        (#[trigger] r@[i]).id@,
                        device_key_hex@,
                    ) && pulls_file(
                        r@[i],
                        found@[i]@,
                        device_key_hex@,
                        leaf@,
                        prefix@,
                        started_unix_secs,
                        chunk_size,
                        backoff,
                        None,
                    )
            },
            Err(e) => (found@.len() > 0 && first_lands(found_views(found@), leaf@, prefix@)
                && is_failed(e, "TransferError::NoRandomness"@)) || tells_no_landing(
                e,
                found_views(found@),
                leaf@,
                prefix@,
            ),
        },
{
    let ids = match draw_ids(found, device_key_hex, leaf, prefix) {
        Ok(ids) => ids,
        Err(error) => {
            return Err(error);
        },
    };
    let rows = rows_with_ids(
        found,
        device_key_hex,
        leaf,
        prefix,
        started_unix_secs,
        chunk_size,
        backoff,
        &ids,
    );
    proof {
        if rows is Ok {
            let r = rows->Ok_0;
            assert(row_ids(r@).len() == text_views(ids@).len());
            assert forall|i: int| 0 <= i < r@.len() implies is_id_of(
                (#[trigger] r@[i]).id@,
                device_key_hex@,
            ) by {
                assert(row_ids(r@)[i] == text_views(ids@)[i]);
                assert(is_id_of(ids@[i]@, device_key_hex@));
            }
        }
    }
    rows
}

/// New ids for a batch that pulls every file that was found: one for each
/// file, and one for the batch. It fails at the first file that has nowhere to
/// land, or before it where there is no randomness.
pub fn draw_batch_ids(
    found: &Vec<FoundFile>,
    device_key_hex: &str,
    leaf: &str,
    prefix: &str,
) -> (ids: Result<(Vec<String>, String), FerryError>)
    ensures
        match ids {
            Ok((drawn, batch_id)) => {
                &&& drawn@.len() == found@.len()
                &&& first_of(found_views(found@), no_landing(leaf@, prefix@)) is None
                &&& is_id_of(batch_id@, device_key_hex@)
                &&& forall|i: int|
                    0 <= i < drawn@.len() ==> is_id_of((#[trigger] drawn@[i])@, device_key_hex@)
            },
            Err(e) => (first_lands(found_views(found@), leaf@, prefix@) && is_failed(
                e,
                "TransferError::NoRandomness"@,
            )) || tells_no_landing(e, found_views(found@), leaf@, prefix@),
        },
{
    let ids = match draw_ids(found, device_key_hex, leaf, prefix) {
        Ok(ids) => ids,
        Err(error) => {
            return Err(error);
        },
    };
    match new_id(device_key_hex) {
        Ok(batch_id) => Ok((ids, batch_id)),
        Err(error) => {
            proof {
                lemma_none_lands_first(found_views(found@), leaf@, prefix@);
            }
            Err(error)
        },
    }
}

/// Where every file lands, the first does.
proof fn lemma_none_lands_first(files: Seq<FoundView>, leaf: Seq<char>, prefix: Seq<char>)
    requires
        first_of(files, no_landing(leaf, prefix)) is None,
    ensures
        first_lands(files, leaf, prefix),
{
    if files.len() > 0 && no_landing(leaf, prefix)(files[0]) {
        assert(files.take(1).drop_last() =~= Seq::<FoundView>::empty());
        assert(files.take(1).last() == files[0]);
        assert(first_of(files.take(1).drop_last(), no_landing(leaf, prefix)) is None);
        lemma_first_part(files, no_landing(leaf, prefix), 1);
    }
}

/// The sum of the sizes of the files that were found, or the largest number.
pub fn total_listed_bytes(found: &Vec<FoundFile>) -> (total: u64)
    ensures
        total == sat64(sum_by(found_views(found@), |f: FoundView| f.size as nat)),
{
    let ghost views = found_views(found@);
    let ghost size = |f: FoundView| f.size as nat;
    let mut total: u64 = 0;
    let mut i: usize = 0;
    assert(views.take(0) =~= Seq::<FoundView>::empty());
    while i < found.len()
        invariant
            i <= found.len(),
            views == found_views(found@),
            size == (|f: FoundView| f.size as nat),
            total == sat64(sum_by(views.take(i as int), size)),
        decreases found.len() - i,
    {
        proof {
            assert(views.take(i + 1).drop_last() =~= views.take(i as int));
            assert(views.take(i + 1).last() == found@[i as int]@);
        }
        total = total.saturating_add(found[i].size);
        i += 1;
    }
    assert(views.take(views.len() as int) =~= views);
    total
}

// ---------------------------------------------------------------------------
// All of them.
// ---------------------------------------------------------------------------

/// Every transfer stands under its own id, and so does every batch; and no
/// transfer is without a chunk size.
pub open spec fn filed(rows: Map<Seq<char>, TransferRow>) -> bool {
    forall|id: Seq<char>| #[trigger]
        rows.contains_key(id) ==> rows[id].id@ == id && rows[id].chunk_size > 0
}

/// Every batch stands under its own id.
pub open spec fn batches_filed(batches: Map<Seq<char>, BatchRow>) -> bool {
    forall|id: Seq<char>| #[trigger] batches.contains_key(id) ==> batches[id].id@ == id
}

/// The transfers and the batches, each in the order of their ids.
#[derive(Debug)]
pub struct Transfers {
    pub rows: TextMap<TransferRow>,
    pub batches: TextMap<BatchRow>,
}

/// What became of a retry.
#[derive(Debug, Clone, Copy, PartialEq, Eq, Structural)]
pub enum Retry {
    /// There is no such transfer.
    Unknown,
    /// Its device is not paired any more. The transfer is dropped, and its
    /// record has to go too.
    Unpaired,
    /// It is running, or done, and stays as it is.
    Unchanged,
    /// It is queued again.
    Queued,
}

/// What a retry of `id` comes to.
pub open spec fn retry_outcome(
    rows: Map<Seq<char>, TransferRow>,
    id: Seq<char>,
    paired: spec_fn(Seq<char>) -> bool,
) -> Retry {
    if !rows.contains_key(id) {
        Retry::Unknown
    } else if !paired(rows[id].device_key_hex@) {
        Retry::Unpaired
    } else if rows[id].running || rows[id].state == TransferState::Done {
        Retry::Unchanged
    } else {
        Retry::Queued
    }
}

/// The transfer queued again, with nothing of its last attempt left.
pub open spec fn requeued(row: TransferRow) -> TransferRow {
    TransferRow { state: TransferState::Queued, error: None, ended_unix_secs: None, ..row }
}

/// The transfers after a retry of `id`.
pub open spec fn after_retry(
    rows: Map<Seq<char>, TransferRow>,
    id: Seq<char>,
    paired: spec_fn(Seq<char>) -> bool,
) -> Map<Seq<char>, TransferRow> {
    match retry_outcome(rows, id, paired) {
        Retry::Unknown => rows,
        Retry::Unpaired => rows.remove(id),
        Retry::Unchanged => rows,
        Retry::Queued => rows.insert(id, requeued(rows[id])),
    }
}

/// The transfers after a retry of each of `ids` in turn, up to one that is
/// not there; and whether all of them were.
pub open spec fn after_retries(
    rows: Map<Seq<char>, TransferRow>,
    ids: Seq<Seq<char>>,
    paired: spec_fn(Seq<char>) -> bool,
) -> (Map<Seq<char>, TransferRow>, bool)
    decreases ids.len(),
{
    if ids.len() == 0 {
        (rows, true)
    } else {
        let (before, all) = after_retries(rows, ids.drop_last(), paired);
        if !all || retry_outcome(before, ids.last(), paired) == Retry::Unknown {
            (before, false)
        } else {
            (after_retry(before, ids.last(), paired), true)
        }
    }
}

/// A device is among the paired ones.
pub open spec fn among(peers: Seq<crate::peers::PeerView>) -> spec_fn(Seq<char>) -> bool {
    |key_hex: Seq<char>| is_paired(peers, key_hex)
}

/// A transfer of a batch that failed.
pub open spec fn failed_in(rows: Map<Seq<char>, TransferRow>) -> spec_fn(Seq<char>) -> bool {
    |id: Seq<char>| rows.contains_key(id) && rows[id].state == TransferState::Failed
}

/// A transfer that was retried, and what became of it.
#[derive(Debug)]
pub struct Retried {
    pub id: String,
    pub outcome: Retry,
}

/// A transfer with this device.
pub open spec fn with_device(rows: Map<Seq<char>, TransferRow>, device: Seq<char>) -> spec_fn(
    Seq<char>,
) -> bool {
    |id: Seq<char>| rows[id].device_key_hex@ == device
}

/// A batch with this device.
pub open spec fn batch_with_device(
    batches: Map<Seq<char>, BatchRow>,
    device: Seq<char>,
) -> spec_fn(Seq<char>) -> bool {
    |id: Seq<char>| batches[id].device_key_hex@ == device
}

impl Transfers {
    pub open spec fn wf(self) -> bool {
        self.rows.wf() && self.batches.wf() && filed(self.rows@) && batches_filed(self.batches@)
    }

    /// There are none.
    pub fn new() -> (transfers: Transfers)
        ensures
            transfers.wf(),
            transfers.rows@ == Map::<Seq<char>, TransferRow>::empty(),
            transfers.batches@ == Map::<Seq<char>, BatchRow>::empty(),
    {
        Transfers { rows: TextMap::new(), batches: TextMap::new() }
    }

    /// Every transfer, as the app shows them, in the order of their ids.
    pub fn transfers(&self) -> (infos: Vec<TransferInfo>)
        requires
            self.wf(),
        ensures
            infos@.len() == self.rows.spec_keys().len(),
            forall|i: int|
                0 <= i < infos@.len() ==> shows_transfer(
                    #[trigger] infos@[i],
                    self.rows@[self.rows.spec_keys()[i]],
                ),
    {
        let mut infos: Vec<TransferInfo> = Vec::new();
        let mut i: usize = 0;
        while i < self.rows.len()
            invariant
                self.wf(),
                i <= self.rows.spec_keys().len(),
                infos@.len() == i,
                forall|j: int|
                    0 <= j < i ==> shows_transfer(
                        #[trigger] infos@[j],
                        self.rows@[self.rows.spec_keys()[j]],
                    ),
            decreases self.rows.spec_keys().len() - i,
        {
            let row = self.rows.value_at(i);
            infos.push(row.info());
            i += 1;
        }
        infos
    }

    /// Every batch, as the app shows them, in the order of their ids.
    pub fn batches(&self) -> (infos: Vec<BatchInfo>)
        requires
            self.wf(),
        ensures
            infos@.len() == self.batches.spec_keys().len(),
            forall|i: int|
                0 <= i < infos@.len() ==> ({
                    let batch = self.batches@[self.batches.spec_keys()[i]];
                    shows_batch(
                        #[trigger] infos@[i],
                        batch,
                        members(text_views(batch.transfer_ids@), self.rows@),
                    )
                }),
    {
        let mut infos: Vec<BatchInfo> = Vec::new();
        let mut i: usize = 0;
        while i < self.batches.len()
            invariant
                self.wf(),
                i <= self.batches.spec_keys().len(),
                infos@.len() == i,
                forall|j: int|
                    0 <= j < i ==> ({
                        let batch = self.batches@[self.batches.spec_keys()[j]];
                        shows_batch(
                            #[trigger] infos@[j],
                            batch,
                            members(text_views(batch.transfer_ids@), self.rows@),
                        )
                    }),
            decreases self.batches.spec_keys().len() - i,
        {
            let batch = self.batches.value_at(i);
            infos.push(batch.info(&self.rows));
            i += 1;
        }
        infos
    }

    /// Files a transfer under its id.
    pub fn add(&mut self, row: TransferRow)
        requires
            old(self).wf(),
            row.chunk_size > 0,
        ensures
            final(self).wf(),
            final(self).rows@ == old(self).rows@.insert(row.id@, row),
            final(self).batches == old(self).batches,
    {
        let id = copy_of(row.id.as_str());
        self.rows.insert(id.as_str(), row);
    }

    /// Restarts a transfer that failed, from its resume point.
    pub fn retry(&mut self, id: &str, peers: &Peers) -> (outcome: Retry)
        requires
            old(self).wf(),
            peers.wf(),
        ensures
            final(self).wf(),
            outcome == retry_outcome(old(self).rows@, id@, among(peers@)),
            final(self).rows@ == after_retry(old(self).rows@, id@, among(peers@)),
            final(self).batches == old(self).batches,
    {
        let ghost before = self.rows@;
        match self.rows.remove(id) {
            None => {
                assert(self.rows@ =~= before);
                Retry::Unknown
            },
            Some(row) => {
                if !peers.contains(row.device_key_hex.as_str()) {
                    return Retry::Unpaired;
                }
                if row.running || row.state == TransferState::Done {
                    self.rows.insert(id, row);
                    assert(self.rows@ =~= before);
                    return Retry::Unchanged;
                }
                let again = TransferRow {
                    state: TransferState::Queued,
                    error: None,
                    ended_unix_secs: None,
                    ..row
                };
                self.rows.insert(id, again);
                assert(self.rows@ =~= before.insert(id@, requeued(before[id@])));
                Retry::Queued
            },
        }
    }

    /// The failed transfers of a batch.
    fn failed_of(&self, ids: &Vec<String>) -> (failed: Vec<String>)
        requires
            self.wf(),
        ensures
            text_views(failed@) == only(text_views(ids@), failed_in(self.rows@)),
    {
        let ghost views = text_views(ids@);
        let ghost test = failed_in(self.rows@);
        let mut failed: Vec<String> = Vec::new();
        let mut i: usize = 0;
        assert(text_views(failed@) =~= only(views.take(0), test));
        while i < ids.len()
            invariant
                i <= ids.len(),
                self.wf(),
                views == text_views(ids@),
                test == failed_in(self.rows@),
                text_views(failed@) == only(views.take(i as int), test),
            decreases ids.len() - i,
        {
            let id = &ids[i];
            proof {
                assert(views[i as int] == id@);
                crate::seqs::lemma_only_step(views, test, i as int);
            }
            let is_failed = match self.rows.get(id.as_str()) {
                Some(row) => row.state == TransferState::Failed,
                None => false,
            };
            if is_failed {
                let ghost so_far = text_views(failed@);
                failed.push(copy_of(id.as_str()));
                assert(text_views(failed@) =~= so_far.push(id@));
            }
            i += 1;
        }
        assert(views.take(views.len() as int) =~= views);
        failed
    }

    /// Retries every failed transfer of a batch. One whose device is not
    /// paired any more is dropped, and that is no failure.
    pub fn retry_batch(&mut self, batch_id: &str, peers: &Peers) -> (retried: (
        Vec<Retried>,
        Result<(), FerryError>,
    ))
        requires
            old(self).wf(),
            peers.wf(),
        ensures
            final(self).wf(),
            final(self).batches == old(self).batches,
            !old(self).batches@.contains_key(batch_id@) ==> {
                &&& final(self).rows == old(self).rows
                &&& retried.0@.len() == 0
                &&& retried.1 matches Err(e)
                &&& is_failed_with(e, "Runtime::TransferNotFound"@, batch_id@)
            },
            old(self).batches@.contains_key(batch_id@) ==> ({
                let ids = only(
                    text_views(old(self).batches@[batch_id@].transfer_ids@),
                    failed_in(old(self).rows@),
                );
                let done = retried.0@;
                &&& after_retries(old(self).rows@, ids, among(peers@)) == (
                    final(self).rows@,
                    retried.1 is Ok,
                )
                &&& done.len() <= ids.len()
                &&& retried.1 is Ok ==> done.len() == ids.len()
                &&& retried.1 matches Err(e) ==> is_failed(e, "Runtime::TransferNotFound"@)
                    && done.len() < ids.len() && retry_outcome(
                    after_retries(old(self).rows@, ids.take(done.len() as int), among(peers@)).0,
                    ids[done.len() as int],
                    among(peers@),
                ) == Retry::Unknown
                &&& forall|i: int|
                    0 <= i < done.len() ==> (#[trigger] done[i]).id@ == ids[i] && done[i].outcome
                        == retry_outcome(
                        after_retries(old(self).rows@, ids.take(i), among(peers@)).0,
                        ids[i],
                        among(peers@),
                    )
            }),
    {
        let ghost start = self.rows@;
        let ghost paired = among(peers@);
        let ids: Vec<String> = match self.batches.get(batch_id) {
            None => {
                return (Vec::new(), Err(failed_with("Runtime::TransferNotFound", batch_id)));
            },
            Some(batch) => self.failed_of(&batch.transfer_ids),
        };
        let ghost views = text_views(ids@);
        let mut done: Vec<Retried> = Vec::new();
        let mut i: usize = 0;
        assert(views.take(0) =~= Seq::<Seq<char>>::empty());
        while i < ids.len()
            invariant
                i <= ids.len(),
                self.wf(),
                peers.wf(),
                self.batches == old(self).batches,
                start == old(self).rows@,
                old(self).batches@.contains_key(batch_id@),
                views == text_views(ids@),
                views == only(
                    text_views(old(self).batches@[batch_id@].transfer_ids@),
                    failed_in(old(self).rows@),
                ),
                paired == among(peers@),
                after_retries(start, views.take(i as int), paired) == (self.rows@, true),
                done@.len() == i,
                forall|j: int|
                    0 <= j < i ==> (#[trigger] done@[j]).id@ == views[j] && done@[j].outcome
                        == retry_outcome(
                        after_retries(start, views.take(j), paired).0,
                        views[j],
                        paired,
                    ),
            decreases ids.len() - i,
        {
            proof {
                assert(views.take(i + 1).drop_last() =~= views.take(i as int));
                assert(views.take(i + 1).last() == ids@[i as int]@);
            }
            let outcome = self.retry(ids[i].as_str(), peers);
            if outcome == Retry::Unknown {
                proof {
                    lemma_retries_stop(start, views, paired, i + 1);
                }
                return (done, Err(failed("Runtime::TransferNotFound")));
            }
            done.push(Retried { id: copy_of(ids[i].as_str()), outcome });
            i += 1;
        }
        assert(views.take(views.len() as int) =~= views);
        (done, Ok(()))
    }

    /// Drops every transfer and every batch with a device, and names them:
    /// their records have to go too.
    pub fn forget(&mut self, device_key_hex: &str) -> (gone: (Vec<String>, Vec<String>))
        requires
            old(self).wf(),
        ensures
            final(self).wf(),
            text_views(gone.0@) == only(
                old(self).rows.spec_keys(),
                with_device(old(self).rows@, device_key_hex@),
            ),
            text_views(gone.1@) == only(
                old(self).batches.spec_keys(),
                batch_with_device(old(self).batches@, device_key_hex@),
            ),
            final(self).rows@ == old(self).rows@.remove_keys(text_views(gone.0@).to_set()),
            final(self).batches@ == old(self).batches@.remove_keys(text_views(gone.1@).to_set()),
    {
        let ghost keys = self.rows.spec_keys();
        let ghost test = with_device(self.rows@, device_key_hex@);
        let mut gone: Vec<String> = Vec::new();
        let mut i: usize = 0;
        assert(text_views(gone@) =~= only(keys.take(0), test));
        while i < self.rows.len()
            invariant
                *self == *old(self),
                self.wf(),
                i <= keys.len(),
                keys == self.rows.spec_keys(),
                test == with_device(self.rows@, device_key_hex@),
                text_views(gone@) == only(keys.take(i as int), test),
            decreases keys.len() - i,
        {
            proof {
                crate::seqs::lemma_only_step(keys, test, i as int);
            }
            let row = self.rows.value_at(i);
            if crate::text::same_text(row.device_key_hex.as_str(), device_key_hex) {
                let ghost so_far = text_views(gone@);
                gone.push(copy_of(self.rows.key_at(i)));
                assert(text_views(gone@) =~= so_far.push(keys[i as int]));
            }
            i += 1;
        }
        assert(keys.take(keys.len() as int) =~= keys);
        let ghost batch_keys = self.batches.spec_keys();
        let ghost batch_test = batch_with_device(self.batches@, device_key_hex@);
        let mut gone_batches: Vec<String> = Vec::new();
        i = 0;
        assert(text_views(gone_batches@) =~= only(batch_keys.take(0), batch_test));
        while i < self.batches.len()
            invariant
                *self == *old(self),
                self.wf(),
                i <= batch_keys.len(),
                batch_keys == self.batches.spec_keys(),
                batch_test == batch_with_device(self.batches@, device_key_hex@),
                text_views(gone_batches@) == only(batch_keys.take(i as int), batch_test),
            decreases batch_keys.len() - i,
        {
            proof {
                crate::seqs::lemma_only_step(batch_keys, batch_test, i as int);
            }
            let batch = self.batches.value_at(i);
            if crate::text::same_text(batch.device_key_hex.as_str(), device_key_hex) {
                let ghost so_far = text_views(gone_batches@);
                gone_batches.push(copy_of(self.batches.key_at(i)));
                assert(text_views(gone_batches@) =~= so_far.push(batch_keys[i as int]));
            }
            i += 1;
        }
        assert(batch_keys.take(batch_keys.len() as int) =~= batch_keys);
        remove_all(&mut self.rows, &gone);
        remove_all(&mut self.batches, &gone_batches);
        (gone, gone_batches)
    }
}

/// Takes every one of `keys` out of `map`.
fn remove_all<V>(map: &mut TextMap<V>, keys: &Vec<String>)
    requires
        old(map).wf(),
    ensures
        final(map).wf(),
        final(map)@ == old(map)@.remove_keys(text_views(keys@).to_set()),
{
    let ghost views = text_views(keys@);
    let mut i: usize = 0;
    assert(map@ =~= old(map)@.remove_keys(views.take(0).to_set()));
    while i < keys.len()
        invariant
            i <= keys.len(),
            map.wf(),
            views == text_views(keys@),
            map@ == old(map)@.remove_keys(views.take(i as int).to_set()),
        decreases keys.len() - i,
    {
        let gone = map.remove(keys[i].as_str());
        proof {
            let next = views.take(i + 1);
            assert(next[i as int] == keys@[i as int]@);
            assert forall|k: Seq<char>|
                next.contains(k) <==> views.take(i as int).contains(k) || k == keys@[i as int]@ by {
                if views.take(i as int).contains(k) {
                    let j = choose|j: int| 0 <= j < i && views.take(i as int)[j] == k;
                    assert(next[j] == k);
                }
                if next.contains(k) {
                    let j = choose|j: int| 0 <= j < next.len() && next[j] == k;
                    if j < i {
                        assert(views.take(i as int)[j] == k);
                    }
                }
            }
            assert(map@ =~= old(map)@.remove_keys(next.to_set()));
        }
        i += 1;
    }
    assert(views.take(views.len() as int) =~= views);
}

/// Once a transfer is not there, the rest is not retried.
proof fn lemma_retries_stop(
    rows: Map<Seq<char>, TransferRow>,
    ids: Seq<Seq<char>>,
    paired: spec_fn(Seq<char>) -> bool,
    n: int,
)
    requires
        0 <= n <= ids.len(),
        !after_retries(rows, ids.take(n), paired).1,
    ensures
        after_retries(rows, ids, paired) == after_retries(rows, ids.take(n), paired),
    decreases ids.len() - n,
{
    if n < ids.len() {
        assert(ids.take(n + 1).drop_last() =~= ids.take(n));
        lemma_retries_stop(rows, ids, paired, n + 1);
    } else {
        assert(ids.take(n) =~= ids);
    }
}

/// After a device is forgotten nothing of it is left, and nothing of any
/// other device is gone.
pub proof fn lemma_forgotten_is_gone(before: Transfers, after: Transfers, device: Seq<char>)
    requires
        before.wf(),
        after.rows@ == before.rows@.remove_keys(
            only(before.rows.spec_keys(), with_device(before.rows@, device)).to_set(),
        ),
        after.batches@ == before.batches@.remove_keys(
            only(before.batches.spec_keys(), batch_with_device(before.batches@, device)).to_set(),
        ),
    ensures
        forall|id: Seq<char>| #[trigger]
            after.rows@.contains_key(id) <==> before.rows@.contains_key(id)
                && before.rows@[id].device_key_hex@ != device,
        forall|id: Seq<char>| #[trigger]
            after.rows@.contains_key(id) ==> after.rows@[id] == before.rows@[id],
        forall|id: Seq<char>| #[trigger]
            after.batches@.contains_key(id) <==> before.batches@.contains_key(id)
                && before.batches@[id].device_key_hex@ != device,
        forall|id: Seq<char>| #[trigger]
            after.batches@.contains_key(id) ==> after.batches@[id] == before.batches@[id],
{
    before.rows.lemma_view();
    before.batches.lemma_view();
    let test = with_device(before.rows@, device);
    let batch_test = batch_with_device(before.batches@, device);
    crate::seqs::lemma_only(before.rows.spec_keys(), test);
    crate::seqs::lemma_only(before.batches.spec_keys(), batch_test);
    assert forall|id: Seq<char>| #[trigger]
        after.rows@.contains_key(id) <==> before.rows@.contains_key(id)
            && before.rows@[id].device_key_hex@ != device by {
        let keys = before.rows.spec_keys();
        let kept = only(keys, test);
        if before.rows@.contains_key(id) {
            let i = choose|i: int| 0 <= i < keys.len() && keys[i] == id;
            assert(test(keys[i]) ==> kept.contains(keys[i]));
            if kept.contains(id) {
                let j = choose|j: int| 0 <= j < kept.len() && kept[j] == id;
                assert(test(kept[j]));
            }
        }
    }
    assert forall|id: Seq<char>| #[trigger]
        after.batches@.contains_key(id) <==> before.batches@.contains_key(id)
            && before.batches@[id].device_key_hex@ != device by {
        let keys = before.batches.spec_keys();
        let kept = only(keys, batch_test);
        if before.batches@.contains_key(id) {
            let i = choose|i: int| 0 <= i < keys.len() && keys[i] == id;
            assert(batch_test(keys[i]) ==> kept.contains(keys[i]));
            if kept.contains(id) {
                let j = choose|j: int| 0 <= j < kept.len() && kept[j] == id;
                assert(batch_test(kept[j]));
            }
        }
    }
}

// ---------------------------------------------------------------------------
// Batches.
// ---------------------------------------------------------------------------

/// A batch that is made and not filed yet: its record has to be stored first.
#[derive(Debug)]
pub struct NewBatch {
    pub batch: BatchRow,
    pub rows: Vec<TransferRow>,
}

/// The ids of some transfers.
pub open spec fn row_ids(rows: Seq<TransferRow>) -> Seq<Seq<char>> {
    rows.map_values(|r: TransferRow| r.id@)
}

/// `row` is `before`, put into the batch `batch_id`.
pub open spec fn put_in_batch(row: TransferRow, before: TransferRow, batch_id: Seq<char>) -> bool {
    opt_view(row.batch_id) == Some(batch_id) && row == (TransferRow {
        batch_id: row.batch_id,
        ..before
    })
}

/// `made` groups `rows` into the batch `batch_id`.
pub open spec fn groups(
    made: NewBatch,
    rows: Seq<TransferRow>,
    batch_id: Seq<char>,
    device: Seq<char>,
    label: Seq<char>,
    direction: Direction,
    origin: Origin,
    started: i64,
) -> bool {
    &&& made.batch.id@ == batch_id
    &&& made.batch.device_key_hex@ == device
    &&& made.batch.label@ == label
    &&& made.batch.direction == direction
    &&& made.batch.origin == origin
    &&& made.batch.started_unix_secs == started
    &&& text_views(made.batch.transfer_ids@) == row_ids(rows)
    &&& made.rows@.len() == rows.len()
    &&& forall|i: int|
        0 <= i < rows.len() ==> put_in_batch(#[trigger] made.rows@[i], rows[i], batch_id)
}

/// Groups some transfers into one batch.
pub fn batch_of(
    rows: Vec<TransferRow>,
    batch_id: String,
    device_key_hex: &str,
    label: &str,
    direction: Direction,
    origin: Origin,
    started_unix_secs: i64,
) -> (made: NewBatch)
    ensures
        groups(
            made,
            rows@,
            batch_id@,
            device_key_hex@,
            label@,
            direction,
            origin,
            started_unix_secs,
        ),
{
    let id = batch_id;
    let ghost before = rows@;
    let mut rows = rows;
    let mut transfer_ids: Vec<String> = Vec::new();
    let mut i: usize = 0;
    while i < rows.len()
        invariant
            i <= rows.len(),
            rows@.len() == before.len(),
            text_views(transfer_ids@) == row_ids(before).take(i as int),
            forall|j: int| 0 <= j < i ==> put_in_batch(#[trigger] rows@[j], before[j], id@),
            forall|j: int| i <= j < rows@.len() ==> #[trigger] rows@[j] == before[j],
        decreases rows.len() - i,
    {
        let ghost so_far = text_views(transfer_ids@);
        let ghost this = rows@[i as int];
        let row_id = copy_of(rows[i].id.as_str());
        let ghost v = row_id@;
        transfer_ids.push(row_id);
        rows[i].batch_id = Some(copy_of(id.as_str()));
        proof {
            assert(put_in_batch(rows@[i as int], this, id@));
            assert(text_views(transfer_ids@) =~= so_far.push(v));
            assert(row_ids(before).take(i + 1) =~= so_far.push(v));
        }
        i += 1;
    }
    assert(row_ids(before).take(before.len() as int) =~= row_ids(before));
    let batch = BatchRow {
        id,
        device_key_hex: copy_of(device_key_hex),
        label: copy_of(label),
        direction,
        origin,
        started_unix_secs,
        transfer_ids,
    };
    NewBatch { batch, rows }
}

/// `map` with each of `rows` filed under its id, in turn.
pub open spec fn with_rows(
    map: Map<Seq<char>, TransferRow>,
    rows: Seq<TransferRow>,
) -> Map<Seq<char>, TransferRow>
    decreases rows.len(),
{
    if rows.len() == 0 {
        map
    } else {
        with_rows(map, rows.drop_last()).insert(rows.last().id@, rows.last())
    }
}

/// `map` with each of `rows` filed under its id, the last one first.
proof fn lemma_with_rows_front(map: Map<Seq<char>, TransferRow>, rows: Seq<TransferRow>)
    requires
        rows.len() > 0,
    ensures
        with_rows(map, rows) == with_rows(map.insert(rows[0].id@, rows[0]), rows.drop_first()),
    decreases rows.len(),
{
    if rows.len() > 1 {
        lemma_with_rows_front(map, rows.drop_last());
        assert(rows.drop_last().drop_first() =~= rows.drop_first().drop_last());
        assert(rows.drop_first().last() == rows.last());
        assert(rows.drop_last()[0] == rows[0]);
    } else {
        assert(rows.drop_last() =~= Seq::<TransferRow>::empty());
        assert(rows.drop_first() =~= Seq::<TransferRow>::empty());
        assert(with_rows(map, rows.drop_last()) == map);
        let one = map.insert(rows[0].id@, rows[0]);
        assert(with_rows(one, rows.drop_first()) == one);
    }
}

impl Transfers {
    /// Files a batch and its transfers.
    pub fn add_batch(&mut self, made: NewBatch) -> (ids: Vec<String>)
        requires
            old(self).wf(),
            forall|i: int|
                0 <= i < made.rows@.len() ==> (#[trigger] made.rows@[i]).chunk_size > 0,
        ensures
            final(self).wf(),
            final(self).rows@ == with_rows(old(self).rows@, made.rows@),
            final(self).batches@ == old(self).batches@.insert(made.batch.id@, made.batch),
            text_views(ids@) == row_ids(made.rows@),
    {
        let NewBatch { batch, rows } = made;
        let id = copy_of(batch.id.as_str());
        self.batches.insert(id.as_str(), batch);
        let ghost all = rows@;
        let mut left = rows;
        let mut ids: Vec<String> = Vec::new();
        let mut backwards: Vec<TransferRow> = Vec::new();
        let n: usize = left.len();
        let mut i: usize = 0;
        while i < n
            invariant
                i <= n,
                n == all.len(),
                left@ == all.take(n - i),
                backwards@.len() == i,
                forall|j: int| 0 <= j < i ==> #[trigger] backwards@[j] == all[n - 1 - j],
            decreases n - i,
        {
            let row = left.pop().unwrap();
            backwards.push(row);
            i += 1;
            assert(left@ =~= all.take(n - i));
        }
        i = 0;
        assert(all.skip(0) =~= all);
        while i < n
            invariant
                i <= n,
                n == all.len(),
                self.wf(),
                forall|j: int| 0 <= j < all.len() ==> (#[trigger] all[j]).chunk_size > 0,
                self.batches@ == old(self).batches@.insert(made.batch.id@, made.batch),
                with_rows(self.rows@, all.skip(i as int)) == with_rows(old(self).rows@, all),
                backwards@.len() == n - i,
                forall|j: int| 0 <= j < n - i ==> #[trigger] backwards@[j] == all[n - 1 - j],
                text_views(ids@) == row_ids(all).take(i as int),
            decreases n - i,
        {
            let row = backwards.pop().unwrap();
            assert(row == all[i as int]);
            let ghost so_far = text_views(ids@);
            ids.push(copy_of(row.id.as_str()));
            proof {
                assert(text_views(ids@) =~= so_far.push(row.id@));
                assert(row_ids(all).take(i + 1) =~= so_far.push(row.id@));
                lemma_with_rows_front(self.rows@, all.skip(i as int));
                assert(all.skip(i as int).drop_first() =~= all.skip(i + 1));
            }
            self.add(row);
            i += 1;
        }
        assert(all.skip(n as int) =~= Seq::<TransferRow>::empty());
        assert(row_ids(all).take(n as int) =~= row_ids(all));
        ids
    }
}

// ---------------------------------------------------------------------------
// After a restart.
// ---------------------------------------------------------------------------

/// How far a stored transfer had come.
#[derive(Debug)]
pub enum Progress {
    /// Its first pass is not over.
    FirstPass {
        /// The size the source had when the pass began.
        source_size: u64,
        /// The modified time the source had when the pass began.
        source_mtime: i64,
        /// The bytes the pass has verified.
        bytes_done: u64,
    },
    /// Its manifest is known.
    Ready {
        /// The length of the file.
        length: u64,
    },
}

/// What the record of one transfer holds.
#[derive(Debug)]
pub struct SavedTransfer {
    pub source: RemotePath,
    pub destination: RemotePath,
    pub started_unix_secs: i64,
    pub direction: Direction,
    pub batch_id: Option<String>,
    /// The chunk size the transfer was begun with, whatever is set since.
    pub chunk_size: u32,
    pub progress: Progress,
}

/// The id a file in the folder of transfer records stands for: its name
/// without the ending `.bin`.
pub open spec fn record_id(name: Seq<char>) -> Option<Seq<char>> {
    if name.len() > 4 && finishes_with(name, ".bin"@) {
        Some(name.take(name.len() - 4))
    } else {
        None
    }
}

/// The device key an id begins with: what stands before its first dash.
pub open spec fn key_in_id(id: Seq<char>) -> Option<Seq<char>> {
    if id.contains('-') {
        Some(id.take(first_index(id, '-')))
    } else {
        None
    }
}

/// The id a file in the folder of transfer records stands for.
pub fn record_id_of(name: &str) -> (id: Option<String>)
    ensures
        opt_view(id) == record_id(name@),
{
    let chars = chars_of(name);
    let len: usize = chars.len();
    if len > 4 && ends_with(chars.as_slice(), ".bin") {
        let stem = slice_subrange(chars.as_slice(), 0, len - 4);
        assert(stem@ =~= name@.take(name@.len() - 4));
        Some(text_of(stem))
    } else {
        None
    }
}

/// The device key an id begins with.
pub fn key_of_id(id: &str) -> (key: Option<String>)
    ensures
        opt_view(key) == key_in_id(id@),
{
    let chars = chars_of(id);
    match find_char(chars.as_slice(), '-') {
        Some(i) => {
            proof {
                lemma_first_index_meaning(id@, '-');
            }
            let head = slice_subrange(chars.as_slice(), 0, i);
            assert(head@ =~= id@.take(first_index(id@, '-')));
            Some(text_of(head))
        },
        None => None,
    }
}

/// An id names its device, where that has no dash in its key.
pub proof fn lemma_id_names_device(id: Seq<char>, device: Seq<char>)
    requires
        is_id_of(id, device),
        !device.contains('-'),
    ensures
        key_in_id(id) == Some(device),
{
    reveal_strlit("-");
    let random = choose|random: Seq<u8>|
        random.len() == SESSION_LEN && id == device + "-"@ + #[trigger] hex_of(random);
    let at = device.len() as int;
    assert(id[at] == '-');
    assert forall|j: int| 0 <= j < at implies id[j] != '-' by {
        assert(id[j] == device[j]);
    }
    crate::text::lemma_first_index(id, '-', at);
    assert(id.take(at) =~= device);
}

/// `row` is what a stored transfer comes back as: paused, with the bytes its
/// first pass had verified. A chunk size that is none falls back to the usual
/// one.
pub open spec fn comes_back(row: TransferRow, id: Seq<char>, key: Seq<char>, saved: SavedTransfer)
    -> bool {
    &&& row.id@ == id
    &&& row.device_key_hex@ == key
    &&& row.file_name@ == segment_of(saved.destination@)
    &&& row.source@ == saved.source@
    &&& row.destination@ == saved.destination@
    &&& row.state == TransferState::Paused
    &&& row.transport is None
    &&& row.error is None
    &&& !row.running
    &&& row.attempt_after is None
    &&& row.started_unix_secs == saved.started_unix_secs
    &&& row.ended_unix_secs is None
    &&& row.direction == saved.direction
    &&& row.speed_bytes_per_sec is None
    &&& opt_view(row.batch_id) == opt_view(saved.batch_id)
    &&& row.chunk_size == (if chunk_size_problem(saved.chunk_size) is None {
        saved.chunk_size
    } else {
        crate::limits::CHUNK_SIZE
    })
    &&& row.backoff == crate::limits::BACKOFF_MIN_MS
    &&& match saved.progress {
        Progress::FirstPass { source_size, source_mtime, bytes_done } => row.bytes_total
            == source_size && row.bytes_done == bytes_done && row.source_size == Some(source_size)
            && row.source_mtime == Some(source_mtime),
        Progress::Ready { length } => row.bytes_total == length && row.bytes_done == 0
            && row.source_size is None && row.source_mtime is None,
    }
}

/// The row one stored transfer becomes.
pub fn row_from_record(id: String, key_hex: String, saved: SavedTransfer) -> (row: TransferRow)
    ensures
        comes_back(row, id@, key_hex@, saved),
        row.chunk_size > 0,
{
    let file_name = copy_of(last_segment(saved.destination.as_str()));
    let (bytes_total, bytes_done, source_size, source_mtime) = match saved.progress {
        Progress::FirstPass { source_size, source_mtime, bytes_done } => (
            source_size,
            bytes_done,
            Some(source_size),
            Some(source_mtime),
        ),
        Progress::Ready { length } => (length, 0u64, None, None),
    };
    TransferRow {
        id,
        device_key_hex: key_hex,
        file_name,
        source: saved.source,
        destination: saved.destination,
        bytes_total,
        bytes_done,
        state: TransferState::Paused,
        transport: None,
        error: None,
        source_size,
        source_mtime,
        running: false,
        attempt_after: None,
        backoff: crate::limits::BACKOFF_MIN_MS,
        started_unix_secs: saved.started_unix_secs,
        ended_unix_secs: None,
        direction: saved.direction,
        speed_bytes_per_sec: None,
        batch_id: saved.batch_id,
        chunk_size: match check_chunk_size(saved.chunk_size) {
            Ok(()) => saved.chunk_size,
            Err(_) => crate::limits::CHUNK_SIZE,
        },
    }
}

/// What to do with a file in the folder of batch records.
#[derive(Debug, Clone, Copy, PartialEq, Eq, Structural)]
pub enum BatchFile {
    /// Its name is not a batch's. It stays, and nothing is read.
    NotABatch,
    /// It does not read, or none of its transfers is left. It goes.
    Remove,
    /// It was brought back.
    Kept,
}

/// What becomes of a file in the folder of batch records.
pub open spec fn batch_file_outcome(
    name: Seq<char>,
    record: Option<RecordView>,
    rows: Map<Seq<char>, TransferRow>,
) -> BatchFile {
    if key_in_id(name) is None {
        BatchFile::NotABatch
    } else {
        match record {
            None => BatchFile::Remove,
            Some(r) => if members(r.ids, rows).len() > 0 {
                BatchFile::Kept
            } else {
                BatchFile::Remove
            },
        }
    }
}

/// `batch` is what a stored batch comes back as.
pub open spec fn batch_comes_back(batch: BatchRow, name: Seq<char>, record: RecordView) -> bool {
    &&& batch.id@ == name
    &&& Some(batch.device_key_hex@) == key_in_id(name)
    &&& batch.label@ == record.label
    &&& batch.direction == record.direction
    &&& batch.origin == record.origin
    &&& batch.started_unix_secs == record.started
    &&& text_views(batch.transfer_ids@) == record.ids
}

impl Transfers {
    /// Whether one of these transfers is there.
    fn any_left(&self, ids: &Vec<String>) -> (any: bool)
        requires
            self.wf(),
        ensures
            any == (members(text_views(ids@), self.rows@).len() > 0),
    {
        let ghost views = text_views(ids@);
        let mut i: usize = 0;
        assert(views.take(0) =~= Seq::<Seq<char>>::empty());
        while i < ids.len()
            invariant
                i <= ids.len(),
                self.wf(),
                views == text_views(ids@),
                members(views.take(i as int), self.rows@).len() == 0,
            decreases ids.len() - i,
        {
            proof {
                assert(views.take(i + 1).drop_last() =~= views.take(i as int));
                assert(views.take(i + 1).last() == ids@[i as int]@);
            }
            if self.rows.contains(ids[i].as_str()) {
                proof {
                    lemma_members_grow(views, self.rows@, i + 1);
                }
                return true;
            }
            i += 1;
        }
        assert(views.take(views.len() as int) =~= views);
        false
    }

    /// Brings back the transfer that a file in the folder of transfer records
    /// holds, under the id its name says. A name that is no id brings
    /// nothing.
    pub fn load_saved_transfer(&mut self, name: &str, saved: SavedTransfer) -> (loaded: bool)
        requires
            old(self).wf(),
        ensures
            final(self).wf(),
            final(self).batches == old(self).batches,
            match record_id(name@) {
                Some(id) => match key_in_id(id) {
                    Some(key) => loaded && final(self).rows@ == old(self).rows@.insert(
                        id,
                        final(self).rows@[id],
                    ) && comes_back(final(self).rows@[id], id, key, saved),
                    None => !loaded && final(self).rows == old(self).rows,
                },
                None => !loaded && final(self).rows == old(self).rows,
            },
    {
        match record_id_of(name) {
            None => false,
            Some(id) => match key_of_id(id.as_str()) {
                None => false,
                Some(key) => {
                    self.add(row_from_record(id, key, saved));
                    true
                },
            },
        }
    }

    /// Brings back the batch that a file in the folder of batch records
    /// holds, once the transfers have been brought back.
    pub fn load_saved_batch(&mut self, name: &str, file: Option<&[u8]>) -> (outcome: BatchFile)
        requires
            old(self).wf(),
        ensures
            final(self).wf(),
            final(self).rows == old(self).rows,
            ({
                let record = match file {
                    Some(bytes) => read_record(bytes@),
                    None => None,
                };
                &&& outcome == batch_file_outcome(name@, record, old(self).rows@)
                &&& if outcome == BatchFile::Kept {
                    final(self).batches@ == old(self).batches@.insert(
                        name@,
                        final(self).batches@[name@],
                    ) && batch_comes_back(final(self).batches@[name@], name@, record->0)
                } else {
                    final(self).batches == old(self).batches
                }
            }),
    {
        let key = match key_of_id(name) {
            None => {
                return BatchFile::NotABatch;
            },
            Some(key) => key,
        };
        match read_batch(file) {
            None => BatchFile::Remove,
            Some(record) => {
                if !self.any_left(&record.transfer_ids) {
                    return BatchFile::Remove;
                }
                let BatchRecord { label, origin, direction, started_unix_secs, transfer_ids } =
                    record;
                let batch = BatchRow {
                    id: copy_of(name),
                    device_key_hex: key,
                    label,
                    direction,
                    origin,
                    started_unix_secs,
                    transfer_ids,
                };
                self.batches.insert(name, batch);
                BatchFile::Kept
            },
        }
    }
}

/// Of more ids no fewer transfers are there.
proof fn lemma_members_grow(ids: Seq<Seq<char>>, rows: Map<Seq<char>, TransferRow>, n: int)
    requires
        0 <= n <= ids.len(),
    ensures
        members(ids.take(n), rows).len() <= members(ids, rows).len(),
    decreases ids.len() - n,
{
    if n < ids.len() {
        assert(ids.take(n + 1).drop_last() =~= ids.take(n));
        lemma_members_grow(ids, rows, n + 1);
    } else {
        assert(ids.take(n) =~= ids);
    }
}

/// A restart keeps a transfer what it was: a row whose fields a record was
/// written from comes back with the same ends, in the same direction, in the
/// same batch, begun at the same moment. It waits, with what the first pass
/// had verified.
pub proof fn lemma_restart_keeps_the_transfer(
    row: TransferRow,
    id: String,
    key_hex: String,
    saved: SavedTransfer,
    loaded: TransferRow,
)
    requires
        id@ == row.id@,
        key_hex@ == row.device_key_hex@,
        saved.source@ == row.source@,
        saved.destination@ == row.destination@,
        saved.direction == row.direction,
        opt_view(saved.batch_id) == opt_view(row.batch_id),
        saved.started_unix_secs == row.started_unix_secs,
        saved.chunk_size == row.chunk_size,
        call_ensures(row_from_record, (id, key_hex, saved), loaded),
    ensures
        loaded.id@ == row.id@,
        loaded.device_key_hex@ == row.device_key_hex@,
        loaded.source@ == row.source@,
        loaded.destination@ == row.destination@,
        loaded.direction == row.direction,
        opt_view(loaded.batch_id) == opt_view(row.batch_id),
        loaded.started_unix_secs == row.started_unix_secs,
        is_queued(row) ==> loaded.file_name@ == row.file_name@,
        chunk_size_problem(row.chunk_size) is None ==> loaded.chunk_size == row.chunk_size,
        loaded.chunk_size > 0,
        loaded.state == TransferState::Paused,
        !loaded.running,
        loaded.error is None,
        loaded.ended_unix_secs is None,
        loaded.attempt_after is None,
        saved.progress matches Progress::FirstPass { source_size, source_mtime, bytes_done }
            ==> loaded.bytes_total == source_size && loaded.bytes_done == bytes_done
            && loaded.source_size == Some(source_size) && loaded.source_mtime == Some(
            source_mtime,
        ),
        saved.progress matches Progress::Ready { length } ==> loaded.bytes_total == length
            && loaded.bytes_done == 0 && loaded.source_size is None,
{
}

/// A record in the folder of transfers comes back under its own name, for the
/// device whose key the name begins with, and with the ends it was stored
/// with. Every other transfer stays as it is.
pub proof fn lemma_stored_transfer_comes_back(
    transfers: &mut Transfers,
    name: &str,
    saved: SavedTransfer,
    loaded: bool,
    id: Seq<char>,
    device: Seq<char>,
)
    requires
        call_ensures(Transfers::load_saved_transfer, (transfers, name, saved), loaded),
        is_id_of(id, device),
        !device.contains('-'),
        name@ == id + ".bin"@,
    ensures
        loaded,
        final(transfers).rows@.contains_key(id),
        final(transfers).rows@[id].id@ == id,
        final(transfers).rows@[id].device_key_hex@ == device,
        final(transfers).rows@[id].source@ == saved.source@,
        final(transfers).rows@[id].destination@ == saved.destination@,
        final(transfers).rows@[id].direction == saved.direction,
        opt_view(final(transfers).rows@[id].batch_id) == opt_view(saved.batch_id),
        final(transfers).rows@[id].started_unix_secs == saved.started_unix_secs,
        final(transfers).rows@[id].state == TransferState::Paused,
        forall|other: Seq<char>|
            other != id ==> (#[trigger] final(transfers).rows@.contains_key(other) <==> old(transfers).rows@.contains_key(other)),
        forall|other: Seq<char>|
            other != id && #[trigger] old(transfers).rows@.contains_key(other) ==> final(transfers).rows@[other] == old(transfers).rows@[other],
{
    reveal_strlit(".bin");
    reveal_strlit("-");
    lemma_id_names_device(id, device);
    assert(id.len() > 0);
    assert(name@.skip(name@.len() - 4) =~= ".bin"@);
    assert(name@.take(name@.len() - 4) =~= id);
    assert(record_id(name@) == Some(id));
}

/// Trying a transfer again keeps what it is about and how far it got: it is
/// queued, and nothing is held against it any more. One that runs or is done
/// stays as it is, one of a device that is not paired goes, and no other
/// transfer is touched.
pub proof fn lemma_retry_keeps_the_transfer(
    transfers: &mut Transfers,
    id: &str,
    peers: &Peers,
    outcome: Retry,
)
    requires
        call_ensures(Transfers::retry, (transfers, id, peers), outcome),
    ensures
        !old(transfers).rows@.contains_key(id@) ==> outcome == Retry::Unknown && final(transfers).rows@ == old(transfers).rows@,
        old(transfers).rows@.contains_key(id@) ==> ({
            let row = old(transfers).rows@[id@];
            if !is_paired(peers@, row.device_key_hex@) {
                outcome == Retry::Unpaired && !final(transfers).rows@.contains_key(id@)
            } else if row.running || row.state == TransferState::Done {
                outcome == Retry::Unchanged && final(transfers).rows@ == old(transfers).rows@
            } else {
                let now = final(transfers).rows@[id@];
                &&& outcome == Retry::Queued
                &&& final(transfers).rows@.contains_key(id@)
                &&& now.state == TransferState::Queued
                &&& now.error is None
                &&& now.ended_unix_secs is None
                &&& now.id@ == row.id@
                &&& now.device_key_hex@ == row.device_key_hex@
                &&& now.source@ == row.source@
                &&& now.destination@ == row.destination@
                &&& now.direction == row.direction
                &&& now.bytes_done == row.bytes_done
                &&& now.bytes_total == row.bytes_total
                &&& now.started_unix_secs == row.started_unix_secs
                &&& opt_view(now.batch_id) == opt_view(row.batch_id)
                &&& now.chunk_size == row.chunk_size
            }
        }),
        forall|other: Seq<char>|
            other != id@ ==> (#[trigger] final(transfers).rows@.contains_key(other) <==> old(transfers).rows@.contains_key(other)),
        forall|other: Seq<char>|
            other != id@ && #[trigger] old(transfers).rows@.contains_key(other) ==> final(transfers).rows@[other] == old(transfers).rows@[other],
{
}

/// A transfer is shown as it is, and its chunks are counted so that they cover
/// its bytes and no more: the last one holds at least one byte. What is
/// verified is never more than there is, and is all of it at the end.
pub proof fn lemma_transfer_is_shown(row: &TransferRow, info: TransferInfo)
    requires
        row.chunk_size > 0,
        call_ensures(TransferRow::info, (row,), info),
    ensures
        info.id@ == row.id@,
        info.device_key_hex@ == row.device_key_hex@,
        info.file_name@ == row.file_name@,
        info.bytes_total == row.bytes_total,
        info.bytes_done == row.bytes_done,
        info.state == row.state,
        info.direction == row.direction,
        info.transport == row.transport,
        info.started_unix_secs == row.started_unix_secs,
        info.ended_unix_secs == row.ended_unix_secs,
        opt_view(info.batch_id) == opt_view(row.batch_id),
        row.state != TransferState::Active ==> info.speed_bytes_per_sec is None,
        row.state == TransferState::Active ==> info.speed_bytes_per_sec
            == row.speed_bytes_per_sec,
        info.chunks_verified <= info.chunks_total,
        row.bytes_done >= row.bytes_total ==> info.chunks_verified == info.chunks_total,
        row.bytes_total == 0 ==> info.chunks_total == 0,
        info.chunks_total < u32::MAX ==> info.chunks_total * row.chunk_size >= row.bytes_total
            && (row.bytes_total > 0 ==> (info.chunks_total - 1) * row.chunk_size
            < row.bytes_total),
        row.bytes_done < row.bytes_total ==> info.chunks_verified * row.chunk_size
            <= row.bytes_done,
{
    let size = row.chunk_size as int;
    let total = row.bytes_total as int;
    let done = row.bytes_done as int;
    let count = (total + size - 1) / size;
    let whole = done / size;
    assert(count >= 0 && count * size >= total && (count - 1) * size < total && (total == 0
        ==> count == 0)) by (nonlinear_arith)
        requires
            size > 0,
            total >= 0,
            count == (total + size - 1) / size,
    ;
    assert(0 <= whole && whole * size <= done && (done < total ==> whole <= count)) by (nonlinear_arith)
        requires
            size > 0,
            done >= 0,
            whole == done / size,
            count == (total + size - 1) / size,
    ;
    if done < total {
        let shown = sat32(whole as nat) as int;
        assert(shown * size <= whole * size) by (nonlinear_arith)
            requires
                0 <= shown <= whole,
                size > 0,
        ;
    }
}

/// A file of a folder is asked for where it lies, and lands in a folder of the
/// folder's name, under the rest of its path.
pub proof fn lemma_file_lands_in_its_place(
    leaf: &str,
    path: &str,
    prefix: &str,
    landing: RemotePath,
    rest: Seq<char>,
)
    requires
        call_ensures(
            landing_path,
            (leaf, path, prefix),
            Ok::<RemotePath, FerryError>(landing),
        ),
        path@ == prefix@ + rest,
    ensures
        components(landing@) == components(leaf@ + "/"@ + rest),
        joined(components(leaf@ + "/"@ + rest)) == leaf@ + "/"@ + rest ==> landing@ == leaf@ + "/"@
            + rest,
{
    assert(path@.take(prefix@.len() as int) =~= prefix@);
    assert(path@.skip(prefix@.len() as int) =~= rest);
    crate::path::lemma_components_are_names(leaf@ + "/"@ + rest);
    crate::path::lemma_parts_read_back(components(leaf@ + "/"@ + rest));
}

/// A count is that of the rows it is about.
proof fn lemma_done_rows_counted(rows: Seq<TransferRow>)
    ensures
        sum_by(rows, |r: TransferRow| done_count(r)) == only(
            rows,
            |r: TransferRow| r.state == TransferState::Done,
        ).len(),
        sum_by(rows, |r: TransferRow| done_count(r)) <= rows.len(),
    decreases rows.len(),
{
    if rows.len() > 0 {
        lemma_done_rows_counted(rows.drop_last());
    }
}

/// A sum is not under what any of its parts is.
proof fn lemma_sum_holds<T>(s: Seq<T>, value: spec_fn(T) -> nat, i: int)
    requires
        0 <= i < s.len(),
    ensures
        sum_by(s, value) >= value(s[i]),
    decreases s.len(),
{
    if i < s.len() - 1 {
        lemma_sum_holds(s.drop_last(), value, i);
    }
}

/// A sum of smaller parts is not larger.
proof fn lemma_sum_below<T>(s: Seq<T>, small: spec_fn(T) -> nat, large: spec_fn(T) -> nat)
    requires
        forall|i: int| 0 <= i < s.len() ==> small(#[trigger] s[i]) <= large(s[i]),
    ensures
        sum_by(s, small) <= sum_by(s, large),
    decreases s.len(),
{
    if s.len() > 0 {
        assert forall|i: int| 0 <= i < s.drop_last().len() implies small(
            #[trigger] s.drop_last()[i],
        ) <= large(s.drop_last()[i]) by {
            assert(s.drop_last()[i] == s[i]);
        }
        lemma_sum_below(s.drop_last(), small, large);
        assert(small(s[s.len() - 1]) <= large(s[s.len() - 1]));
    }
}

/// What a batch shows adds up: the files that are done are those whose
/// transfer is, no file has more bytes than the batch, and where no file is
/// over its size the batch is not.
pub proof fn lemma_batch_adds_up(info: BatchInfo, batch: BatchRow, rows: Seq<TransferRow>)
    requires
        shows_batch(info, batch, rows),
    ensures
        info.id@ == batch.id@,
        info.label@ == batch.label@,
        info.device_key_hex@ == batch.device_key_hex@,
        info.direction == batch.direction,
        info.origin == batch.origin,
        info.started_unix_secs == batch.started_unix_secs,
        info.files_total as int == batch.transfer_ids@.len() || info.files_total == u32::MAX,
        rows.len() < u32::MAX ==> info.files_done as int == only(
            rows,
            |r: TransferRow| r.state == TransferState::Done,
        ).len(),
        forall|i: int| 0 <= i < rows.len() ==> info.bytes_total >= (#[trigger] rows[i]).bytes_total,
        forall|i: int| 0 <= i < rows.len() ==> info.bytes_done >= (#[trigger] rows[i]).bytes_done,
        (forall|i: int|
            0 <= i < rows.len() ==> (#[trigger] rows[i]).bytes_done <= rows[i].bytes_total)
            ==> info.bytes_done <= info.bytes_total,
        rows.len() == 1 ==> info.bytes_total == rows[0].bytes_total && info.bytes_done
            == rows[0].bytes_done,
        has_state(rows, TransferState::Failed) ==> info.state == TransferState::Failed,
        (exists|i: int| 0 <= i < rows.len() && (#[trigger] rows[i]).state == info.state)
            || rows.len() == 0,
{
    lemma_done_rows_counted(rows);
    let total = |r: TransferRow| r.bytes_total as nat;
    let done = |r: TransferRow| r.bytes_done as nat;
    assert forall|i: int| 0 <= i < rows.len() implies info.bytes_total >= (
    #[trigger] rows[i]).bytes_total by {
        lemma_sum_holds(rows, total, i);
    }
    assert forall|i: int| 0 <= i < rows.len() implies info.bytes_done >= (
    #[trigger] rows[i]).bytes_done by {
        lemma_sum_holds(rows, done, i);
    }
    if forall|i: int|
        0 <= i < rows.len() ==> (#[trigger] rows[i]).bytes_done <= rows[i].bytes_total {
        lemma_sum_below(rows, done, total);
    }
    if rows.len() == 1 {
        assert(rows.drop_last().len() == 0);
        assert(sum_by(rows.drop_last(), total) == 0);
        assert(sum_by(rows.drop_last(), done) == 0);
    }
    if rows.len() > 0 {
        let first = rows[0].state;
        assert(has_state(rows, first));
    }
}

proof fn lemma_sum_of_parts<T>(a: Seq<T>, b: Seq<T>, value: spec_fn(T) -> nat)
    ensures
        sum_by(a + b, value) == sum_by(a, value) + sum_by(b, value),
    decreases b.len(),
{
    if b.len() == 0 {
        assert(a + b =~= a);
    } else {
        assert((a + b).drop_last() =~= a + b.drop_last());
        assert((a + b).last() == b.last());
        lemma_sum_of_parts(a, b.drop_last(), value);
    }
}

/// What is shown of a batch is the sum of what is shown of its parts.
pub proof fn lemma_parts_of_a_batch_add_up(
    whole: BatchInfo,
    first: BatchInfo,
    second: BatchInfo,
    batch: BatchRow,
    of_first: BatchRow,
    of_second: BatchRow,
    a: Seq<TransferRow>,
    b: Seq<TransferRow>,
)
    requires
        shows_batch(whole, batch, a + b),
        shows_batch(first, of_first, a),
        shows_batch(second, of_second, b),
    ensures
        first.bytes_total + second.bytes_total <= u64::MAX && first.bytes_total < u64::MAX
            && second.bytes_total < u64::MAX ==> whole.bytes_total == first.bytes_total
            + second.bytes_total,
        first.bytes_done + second.bytes_done <= u64::MAX && first.bytes_done < u64::MAX
            && second.bytes_done < u64::MAX ==> whole.bytes_done == first.bytes_done
            + second.bytes_done,
        first.files_done + second.files_done <= u32::MAX && first.files_done < u32::MAX
            && second.files_done < u32::MAX ==> whole.files_done == first.files_done
            + second.files_done,
        first.state == TransferState::Failed || second.state == TransferState::Failed
            <==> whole.state == TransferState::Failed,
        first.state == TransferState::Done && second.state == TransferState::Done <==> whole.state
            == TransferState::Done,
{
    lemma_sum_of_parts(a, b, |r: TransferRow| r.bytes_total as nat);
    lemma_sum_of_parts(a, b, |r: TransferRow| r.bytes_done as nat);
    lemma_sum_of_parts(a, b, |r: TransferRow| done_count(r));
    lemma_state_of_parts(a, b, TransferState::Failed);
    lemma_state_of_parts(a, b, TransferState::Paused);
    lemma_state_of_parts(a, b, TransferState::Active);
    lemma_state_of_parts(a, b, TransferState::Queued);
}

proof fn lemma_state_of_parts(a: Seq<TransferRow>, b: Seq<TransferRow>, state: TransferState)
    ensures
        has_state(a + b, state) <==> has_state(a, state) || has_state(b, state),
{
    let all = a + b;
    if has_state(a, state) {
        let i = choose|i: int| 0 <= i < a.len() && (#[trigger] a[i]).state == state;
        assert(all[i].state == state);
    }
    if has_state(b, state) {
        let i = choose|i: int| 0 <= i < b.len() && (#[trigger] b[i]).state == state;
        assert(all[a.len() + i].state == state);
    }
    if has_state(all, state) {
        let i = choose|i: int| 0 <= i < all.len() && (#[trigger] all[i]).state == state;
        if i < a.len() {
            assert(a[i].state == state);
        } else {
            assert(b[i - a.len()].state == state);
        }
    }
}

proof fn lemma_latest_end(rows: Seq<TransferRow>)
    ensures
        latest_end(rows) matches Some(end) ==> (exists|i: int|
            0 <= i < rows.len() && (#[trigger] rows[i]).ended_unix_secs == Some(end)) && (forall|
            i: int,
        |
            0 <= i < rows.len() && (#[trigger] rows[i]).ended_unix_secs is Some
                ==> rows[i].ended_unix_secs->0 <= end),
        latest_end(rows) is None ==> forall|i: int|
            0 <= i < rows.len() ==> (#[trigger] rows[i]).ended_unix_secs is None,
    decreases rows.len(),
{
    if rows.len() > 0 {
        let front = rows.drop_last();
        let last = rows.last();
        lemma_latest_end(front);
        assert(rows[rows.len() - 1] == last);
        if let Some(end) = latest_end(rows) {
            if last.ended_unix_secs != Some(end) {
                let i = choose|i: int|
                    0 <= i < front.len() && (#[trigger] front[i]).ended_unix_secs == Some(end);
                assert(rows[i].ended_unix_secs == Some(end));
            }
            assert forall|i: int|
                0 <= i < rows.len() && (
                #[trigger] rows[i]).ended_unix_secs is Some implies rows[i].ended_unix_secs->0
                <= end by {
                if i < front.len() {
                    assert(front[i] == rows[i]);
                }
            }
        } else {
            assert forall|i: int| 0 <= i < rows.len() implies (
            #[trigger] rows[i]).ended_unix_secs is None by {
                if i < front.len() {
                    assert(front[i] == rows[i]);
                }
            }
        }
    }
}

/// A batch ended when the last of its files ended, is carried by what carries
/// one of its files that moves, and tells the first error among its files.
pub proof fn lemma_batch_tells_of_its_files(
    info: BatchInfo,
    batch: BatchRow,
    rows: Seq<TransferRow>,
)
    requires
        shows_batch(info, batch, rows),
        rows.len() > 0,
    ensures
        info.ended_unix_secs matches Some(end) ==> (exists|i: int|
            0 <= i < rows.len() && (#[trigger] rows[i]).ended_unix_secs == Some(end)) && (forall|
            i: int,
        |
            0 <= i < rows.len() && (#[trigger] rows[i]).ended_unix_secs is Some
                ==> rows[i].ended_unix_secs->0 <= end),
        info.transport is Some ==> exists|i: int|
            0 <= i < rows.len() && (#[trigger] rows[i]).state == TransferState::Active
                && rows[i].transport == info.transport,
        has_state(rows, TransferState::Failed) ==> exists|i: int|
            0 <= i < rows.len() && (#[trigger] rows[i]).state == TransferState::Failed
                && opt_error_view(rows[i].error) == opt_error_view(info.error) && (forall|j: int|
                0 <= j < i ==> (#[trigger] rows[j]).state != TransferState::Failed),
        !has_state(rows, TransferState::Failed) ==> opt_error_view(info.error) is None,
        !has_state(rows, TransferState::Active) ==> info.speed_bytes_per_sec is None,
{
    lemma_latest_end(rows);
    let moving = |r: TransferRow| carried(r);
    let failing = |r: TransferRow| is_failed_row(r);
    crate::seqs::lemma_first_of(rows, moving);
    crate::seqs::lemma_first_of(rows, failing);
    if info.transport is Some {
        let x = first_of(rows, moving)->0;
        let i = choose|i: int|
            0 <= i < rows.len() && #[trigger] rows[i] == x && moving(x) && (forall|j: int|
                0 <= j < i ==> !moving(#[trigger] rows[j]));
        assert(rows[i].state == TransferState::Active);
    }
    if has_state(rows, TransferState::Failed) {
        let k = choose|k: int|
            0 <= k < rows.len() && (#[trigger] rows[k]).state == TransferState::Failed;
        assert(failing(rows[k]));
        let x = first_of(rows, failing)->0;
        let i = choose|i: int|
            0 <= i < rows.len() && #[trigger] rows[i] == x && failing(x) && (forall|j: int|
                0 <= j < i ==> !failing(#[trigger] rows[j]));
        assert(rows[i].state == TransferState::Failed);
        assert forall|j: int| 0 <= j < i implies (#[trigger] rows[j]).state
            != TransferState::Failed by {
            assert(!failing(rows[j]));
        }
    } else if first_of(rows, failing) is Some {
        let i = choose|i: int| 0 <= i < rows.len() && failing(#[trigger] rows[i]);
        assert(rows[i].state == TransferState::Failed);
    }
}

proof fn lemma_with_rows(map: Map<Seq<char>, TransferRow>, rows: Seq<TransferRow>)
    ensures
        forall|id: Seq<char>| #[trigger]
            with_rows(map, rows).contains_key(id) <==> map.contains_key(id) || row_ids(
                rows,
            ).contains(id),
        forall|id: Seq<char>|
            map.contains_key(id) && !row_ids(rows).contains(id) ==> #[trigger] with_rows(
                map,
                rows,
            )[id] == map[id],
        row_ids(rows).no_duplicates() ==> forall|i: int|
            0 <= i < rows.len() ==> with_rows(map, rows)[(#[trigger] rows[i]).id@] == rows[i],
    decreases rows.len(),
{
    let ids = row_ids(rows);
    if rows.len() == 0 {
        assert(ids.len() == 0);
    } else {
        let front = rows.drop_last();
        lemma_with_rows(map, front);
        let before = row_ids(front);
        let last = rows.last();
        assert(with_rows(map, rows) == with_rows(map, front).insert(last.id@, last));
        assert(ids =~= before.push(last.id@));
        crate::seqs::lemma_push_contains(before, last.id@);
        if ids.no_duplicates() {
            assert forall|i: int, j: int| 0 <= i < before.len() && 0 <= j < before.len() && i
                != j implies before[i] != before[j] by {
                assert(ids[i] == before[i] && ids[j] == before[j]);
            }
            assert forall|i: int| 0 <= i < rows.len() implies with_rows(map, rows)[(
            #[trigger] rows[i]).id@] == rows[i] by {
                if i < front.len() {
                    assert(front[i] == rows[i]);
                    assert(ids[i] == rows[i].id@ && ids[rows.len() - 1] == last.id@);
                }
            }
        }
    }
}

/// A batch that was added is there, with each of its files as it was made, and
/// nothing else was touched.
pub proof fn lemma_batch_is_queued_whole(
    transfers: &mut Transfers,
    made: NewBatch,
    ids: Vec<String>,
    i: int,
    other: Seq<char>,
)
    requires
        row_ids(made.rows@).no_duplicates(),
        call_ensures(Transfers::add_batch, (transfers, made), ids),
    ensures
        ids@.len() == made.rows@.len(),
        0 <= i < made.rows@.len() ==> ids@[i]@ == made.rows@[i].id@ && final(
            transfers).rows@.contains_key(made.rows@[i].id@) && final(
            transfers).rows@[made.rows@[i].id@] == made.rows@[i],
        final(transfers).batches@.contains_key(made.batch.id@),
        final(transfers).batches@[made.batch.id@] == made.batch,
        old(transfers).rows@.contains_key(other) && !row_ids(made.rows@).contains(other) ==> final(
            transfers).rows@.contains_key(other) && final(transfers).rows@[other] == old(
            transfers).rows@[other],
        !old(transfers).rows@.contains_key(other) && !row_ids(made.rows@).contains(other)
            ==> !final(transfers).rows@.contains_key(other),
        other != made.batch.id@ && old(transfers).batches@.contains_key(other) ==> final(
            transfers).batches@.contains_key(other) && final(transfers).batches@[other] == old(
            transfers).batches@[other],
{
    lemma_with_rows(old(transfers).rows@, made.rows@);
    assert(text_views(ids@).len() == ids@.len());
    assert(row_ids(made.rows@).len() == made.rows@.len());
    if 0 <= i < made.rows@.len() {
        assert(text_views(ids@)[i] == ids@[i]@);
        assert(row_ids(made.rows@)[i] == made.rows@[i].id@);
        assert(row_ids(made.rows@).contains(made.rows@[i].id@));
    }
}

/// Every transfer there is is listed, as it is, and nothing else is.
pub proof fn lemma_every_transfer_is_listed(
    transfers: &Transfers,
    infos: Vec<TransferInfo>,
    id: Seq<char>,
)
    requires
        transfers.wf(),
        call_ensures(Transfers::transfers, (transfers,), infos),
    ensures
        transfers.rows@.contains_key(id) <==> exists|i: int|
            0 <= i < infos@.len() && (#[trigger] infos@[i]).id@ == id,
        forall|i: int|
            0 <= i < infos@.len() && (#[trigger] infos@[i]).id@ == id ==> infos@[i].state
                == transfers.rows@[id].state && infos@[i].bytes_total
                == transfers.rows@[id].bytes_total && infos@[i].file_name@
                == transfers.rows@[id].file_name@,
{
    transfers.rows.lemma_view();
    let keys = transfers.rows.spec_keys();
    assert forall|i: int| 0 <= i < infos@.len() implies (#[trigger] infos@[i]).id@ == keys[i]
        && transfers.rows@.contains_key(keys[i]) by {
        assert(shows_transfer(infos@[i], transfers.rows@[keys[i]]));
        assert(transfers.rows@.contains_key(keys[i]));
    }
    if transfers.rows@.contains_key(id) {
        let i = choose|i: int| 0 <= i < keys.len() && keys[i] == id;
        assert(infos@[i].id@ == id);
    }
}

proof fn lemma_retries(
    rows: Map<Seq<char>, TransferRow>,
    ids: Seq<Seq<char>>,
    paired: spec_fn(Seq<char>) -> bool,
    id: Seq<char>,
)
    requires
        rows.contains_key(id),
    ensures
        !ids.contains(id) ==> after_retries(rows, ids, paired).0.contains_key(id) && after_retries(
            rows,
            ids,
            paired,
        ).0[id] == rows[id],
        paired(rows[id].device_key_hex@) && !rows[id].running && rows[id].state
            != TransferState::Done ==> after_retries(rows, ids, paired).0.contains_key(id) && (
        after_retries(rows, ids, paired).0[id] == requeued(rows[id]) || after_retries(
            rows,
            ids,
            paired,
        ).0[id] == rows[id]) && (ids.contains(id) && after_retries(rows, ids, paired).1
            ==> after_retries(rows, ids, paired).0[id] == requeued(rows[id])),
    decreases ids.len(),
{
    if ids.len() > 0 {
        let front = ids.drop_last();
        let last = ids.last();
        lemma_retries(rows, front, paired, id);
        assert(ids =~= front.push(last));
        crate::seqs::lemma_push_contains(front, last);
    }
}

/// A batch that is tried again has each of its failed files queued once more,
/// as it was but for the failure, and leaves every other file alone.
pub proof fn lemma_failed_files_are_queued_again(
    transfers: &mut Transfers,
    batch_id: &str,
    peers: &Peers,
    retried: (Vec<Retried>, Result<(), FerryError>),
    id: Seq<char>,
)
    requires
        old(transfers).batches@.contains_key(batch_id@),
        call_ensures(Transfers::retry_batch, (transfers, batch_id, peers), retried),
        old(transfers).rows@.contains_key(id),
    ensures
        ({
            let row = old(transfers).rows@[id];
            let ids = text_views(old(transfers).batches@[batch_id@].transfer_ids@);
            let now = final(transfers).rows@;
            &&& row.state != TransferState::Failed || !ids.contains(id) ==> now.contains_key(id)
                && now[id] == row
            &&& retried.1 is Ok && row.state == TransferState::Failed && !row.running
                && ids.contains(id) && is_paired(peers@, row.device_key_hex@)
                ==> now.contains_key(id) && now[id].state == TransferState::Queued && now[id].error
                is None && now[id].ended_unix_secs is None && now[id].source == row.source
                && now[id].destination == row.destination && now[id].device_key_hex
                == row.device_key_hex && now[id].bytes_done == row.bytes_done && now[id].batch_id
                == row.batch_id && now[id].started_unix_secs == row.started_unix_secs
        }),
{
    let rows = old(transfers).rows@;
    let all = text_views(old(transfers).batches@[batch_id@].transfer_ids@);
    let test = failed_in(rows);
    let ids = only(all, test);
    crate::seqs::lemma_only(all, test);
    lemma_retries(rows, ids, among(peers@), id);
    if ids.contains(id) {
        let i = choose|i: int| 0 <= i < ids.len() && ids[i] == id;
        assert(test(ids[i]));
    }
    if all.contains(id) && rows[id].state == TransferState::Failed {
        let i = choose|i: int| 0 <= i < all.len() && all[i] == id;
        assert(test(all[i]));
    }
}

/// The transfers of a device that was forgotten are gone, and those of every
/// other device stay as they were.
pub proof fn lemma_forgotten_transfers_are_gone(
    transfers: &mut Transfers,
    device: &str,
    gone: (Vec<String>, Vec<String>),
    id: Seq<char>,
)
    requires
        old(transfers).wf(),
        call_ensures(Transfers::forget, (transfers, device), gone),
    ensures
        final(transfers).rows@.contains_key(id) <==> old(transfers).rows@.contains_key(id) && old(
            transfers).rows@[id].device_key_hex@ != device@,
        final(transfers).rows@.contains_key(id) ==> final(transfers).rows@[id] == old(
            transfers).rows@[id],
        final(transfers).batches@.contains_key(id) <==> old(transfers).batches@.contains_key(id)
            && old(transfers).batches@[id].device_key_hex@ != device@,
        text_views(gone.0@).contains(id) <==> old(transfers).rows@.contains_key(id) && old(
            transfers).rows@[id].device_key_hex@ == device@,
{
    lemma_forgotten_is_gone(*old(transfers), *final(transfers), device@);
    let rows = old(transfers).rows;
    rows.lemma_view();
    let test = with_device(rows@, device@);
    let keys = rows.spec_keys();
    let left = text_views(gone.0@);
    crate::seqs::lemma_only(keys, test);
    if left.contains(id) {
        let i = choose|i: int| 0 <= i < left.len() && left[i] == id;
        assert(test(left[i]));
        assert(keys.contains(left[i]));
    }
    if rows@.contains_key(id) && rows@[id].device_key_hex@ == device@ {
        let i = choose|i: int| 0 <= i < keys.len() && keys[i] == id;
        assert(test(keys[i]));
    }
}

/// A batch whose record was stored comes back after a restart as it was, once
/// one of its transfers did.
pub proof fn lemma_stored_batch_comes_back(
    transfers: &mut Transfers,
    name: &str,
    file: &[u8],
    record: RecordView,
    outcome: BatchFile,
    device: Seq<char>,
    k: int,
)
    requires
        crate::batch::storable(record),
        file@ == crate::batch::record_bytes(record),
        is_id_of(name@, device),
        !device.contains('-'),
        0 <= k < record.ids.len(),
        old(transfers).rows@.contains_key(record.ids[k]),
        call_ensures(Transfers::load_saved_batch, (transfers, name, Some(file)), outcome),
    ensures
        outcome == BatchFile::Kept,
        final(transfers).batches@.contains_key(name@),
        ({
            let batch = final(transfers).batches@[name@];
            &&& batch.id@ == name@
            &&& batch.device_key_hex@ == device
            &&& batch.label@ == record.label
            &&& batch.direction == record.direction
            &&& batch.origin == record.origin
            &&& batch.started_unix_secs == record.started
            &&& text_views(batch.transfer_ids@) == record.ids
        }),
        final(transfers).rows@ == old(transfers).rows@,
{
    crate::batch::lemma_record_round_trip(record);
    lemma_id_names_device(name@, device);
    lemma_has_member(record.ids, old(transfers).rows@, k);
}

proof fn lemma_has_member(ids: Seq<Seq<char>>, rows: Map<Seq<char>, TransferRow>, k: int)
    requires
        0 <= k < ids.len(),
        rows.contains_key(ids[k]),
    ensures
        members(ids, rows).contains(rows[ids[k]]),
        members(ids, rows).len() > 0,
    decreases ids.len(),
{
    let front = ids.drop_last();
    if k < front.len() {
        lemma_has_member(front, rows, k);
        if rows.contains_key(ids.last()) {
            crate::seqs::lemma_push_contains(members(front, rows), rows[ids.last()]);
        }
    } else {
        crate::seqs::lemma_push_contains(members(front, rows), rows[ids.last()]);
    }
}

} // verus!
