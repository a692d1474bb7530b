//! The record of one batch: what does not change once the batch is made.
//!
//! How many files are done, the bytes, the state, the speed and the end are
//! read from the transfers and never stored. The device key is not stored
//! either: like a transfer's id, a batch's id holds it before its first `-`.

use crate::limits::MAX_PATH_LEN;
use crate::text::{copy_of, copy_texts, text_views};
use crate::transfers::BatchRow;
use crate::types::{Direction, Origin};
use crate::wire::{
    be32, be64, bits_of, decode_i64, encode_i64, lemma_more_rows, lemma_more_text, lemma_more_u32,
    lemma_more_u64, lemma_more_u8, lemma_read_rows, lemma_read_text, lemma_read_u32,
    lemma_read_u64, lemma_read_u8, lemma_rows_step, lemma_signed, len32, put_text, put_u32,
    put_u64, read_rows, read_text, read_u32, read_u64, read_u8, rows_bytes, signed_of, text_bytes,
    written_len, Decoder,
};
use vstd::prelude::*;
use vstd::utf8::encode_utf8;

verus! {

/// The version byte every batch record starts with.
pub const FORMAT_VERSION: u8 = 1;

/// What one batch record holds.
#[derive(Debug, PartialEq, Eq)]
pub struct BatchRecord {
    /// The remote path the batch was made for, as it was given.
    pub label: String,
    /// Why this batch exists.
    pub origin: Origin,
    /// Which way every transfer in this batch moves its file.
    pub direction: Direction,
    /// When the batch was made.
    pub started_unix_secs: i64,
    /// The transfers this batch covers, in the order they were queued.
    pub transfer_ids: Vec<String>,
}

/// What is known of one batch record.
pub struct RecordView {
    pub label: Seq<char>,
    pub origin: Origin,
    pub direction: Direction,
    pub started: i64,
    pub ids: Seq<Seq<char>>,
}

impl View for BatchRecord {
    type V = RecordView;

    open spec fn view(&self) -> RecordView {
        RecordView {
            label: self.label@,
            origin: self.origin,
            direction: self.direction,
            started: self.started_unix_secs,
            ids: text_views(self.transfer_ids@),
        }
    }
}

/// The byte that stands for an origin.
pub open spec fn origin_byte(origin: Origin) -> u8 {
    match origin {
        Origin::Manual => 0,
        Origin::Automatic => 1,
    }
}

/// The origin that a byte stands for.
pub open spec fn origin_of(byte: u8) -> Option<Origin> {
    if byte == 0 {
        Some(Origin::Manual)
    } else if byte == 1 {
        Some(Origin::Automatic)
    } else {
        None
    }
}

/// The byte that stands for a direction.
pub open spec fn direction_byte(direction: Direction) -> u8 {
    match direction {
        Direction::Pull => 0,
        Direction::Push => 1,
    }
}

/// The direction that a byte stands for.
pub open spec fn direction_of(byte: u8) -> Option<Direction> {
    if byte == 0 {
        Some(Direction::Pull)
    } else if byte == 1 {
        Some(Direction::Push)
    } else {
        None
    }
}

/// The bytes of the ids.
pub open spec fn ids_bytes(ids: Seq<Seq<char>>) -> Seq<u8> {
    be32(len32(ids.len())) + rows_bytes(ids, |id: Seq<char>| text_bytes(id))
}

/// The bytes of a batch record.
pub open spec fn record_bytes(record: RecordView) -> Seq<u8> {
    seq![FORMAT_VERSION] + (text_bytes(record.label) + (seq![origin_byte(record.origin)] + (seq![
        direction_byte(record.direction),
    ] + (be64(bits_of(record.started)) + ids_bytes(record.ids)))))
}

/// The ids that fill some bytes to their end.
pub open spec fn read_ids(b: Seq<u8>) -> Option<Seq<Seq<char>>> {
    match read_u32(b) {
        None => None,
        Some((count, b)) => match read_rows(
            b,
            count as nat,
            |b: Seq<u8>| read_text(b, MAX_PATH_LEN as nat),
        ) {
            None => None,
            Some((ids, b)) => if b.len() > 0 {
                None
            } else {
                Some(ids)
            },
        },
    }
}

/// The batch record that some bytes spell.
pub open spec fn read_record(b: Seq<u8>) -> Option<RecordView> {
    match read_u8(b) {
        None => None,
        Some((version, b)) => if version != FORMAT_VERSION {
            None
        } else {
            match read_text(b, MAX_PATH_LEN as nat) {
                None => None,
                Some((label, b)) => match read_u8(b) {
                    None => None,
                    Some((origin, b)) => match read_u8(b) {
                        None => None,
                        Some((direction, b)) => match read_u64(b) {
                            None => None,
                            Some((started, b)) => match (
                                origin_of(origin),
                                direction_of(direction),
                                read_ids(b),
                            ) {
                                (Some(origin), Some(direction), Some(ids)) => Some(
                                    RecordView {
                                        label,
                                        origin,
                                        direction,
                                        started: signed_of(started),
                                        ids,
                                    },
                                ),
                                _ => None,
                            },
                        },
                    },
                },
            }
        },
    }
}

/// A record whose texts are within their bounds.
pub open spec fn storable(record: RecordView) -> bool {
    &&& encode_utf8(record.label).len() <= MAX_PATH_LEN
    &&& record.ids.len() <= u32::MAX
    &&& forall|i: int|
        0 <= i < record.ids.len() ==> encode_utf8(#[trigger] record.ids[i]).len() <= MAX_PATH_LEN
}

proof fn lemma_ids_round_trip(ids: Seq<Seq<char>>)
    requires
        ids.len() <= u32::MAX,
        forall|i: int| 0 <= i < ids.len() ==> encode_utf8(#[trigger] ids[i]).len() <= MAX_PATH_LEN,
    ensures
        read_ids(ids_bytes(ids)) == Some(ids),
{
    let write = |id: Seq<char>| text_bytes(id);
    let read = |b: Seq<u8>| read_text(b, MAX_PATH_LEN as nat);
    let body = rows_bytes(ids, write);
    lemma_read_u32(len32(ids.len()), body);
    assert forall|i: int, more: Seq<u8>| 0 <= i < ids.len() implies #[trigger] read(
        write(ids[i]) + more,
    ) == Some((ids[i], more)) by {
        lemma_read_text(ids[i], more, MAX_PATH_LEN as nat);
    }
    lemma_read_rows(ids, write, read, Seq::empty());
    assert(body + Seq::<u8>::empty() =~= body);
}

/// A batch record reads back as it was written.
pub proof fn lemma_record_round_trip(record: RecordView)
    requires
        storable(record),
    ensures
        read_record(record_bytes(record)) == Some(record),
{
    let b5 = ids_bytes(record.ids);
    let b4 = be64(bits_of(record.started)) + b5;
    let b3 = seq![direction_byte(record.direction)] + b4;
    let b2 = seq![origin_byte(record.origin)] + b3;
    let b1 = text_bytes(record.label) + b2;
    lemma_read_u8(FORMAT_VERSION, b1);
    lemma_read_text(record.label, b2, MAX_PATH_LEN as nat);
    lemma_read_u8(origin_byte(record.origin), b3);
    lemma_read_u8(direction_byte(record.direction), b4);
    lemma_read_u64(bits_of(record.started), b5);
    lemma_signed(record.started);
    lemma_ids_round_trip(record.ids);
}

/// Nothing may follow a batch record.
proof fn lemma_nothing_follows(b: Seq<u8>, more: Seq<u8>)
    requires
        read_record(b) is Some,
        more.len() > 0,
    ensures
        read_record(b + more) is None,
{
    lemma_more_u8(b, more);
    let (_, b1) = read_u8(b)->0;
    lemma_more_text(b1, more, MAX_PATH_LEN as nat);
    let (_, b2) = read_text(b1, MAX_PATH_LEN as nat)->0;
    lemma_more_u8(b2, more);
    let (_, b3) = read_u8(b2)->0;
    lemma_more_u8(b3, more);
    let (_, b4) = read_u8(b3)->0;
    lemma_more_u64(b4, more);
    let (_, b5) = read_u64(b4)->0;
    lemma_more_u32(b5, more);
    let (count, b6) = read_u32(b5)->0;
    let read = |b: Seq<u8>| read_text(b, MAX_PATH_LEN as nat);
    assert forall|b: Seq<u8>|
        (#[trigger] read(b)) matches Some((text, rest)) ==> read(b + more) == Some(
            (text, rest + more),
        ) by {
        lemma_more_text(b, more, MAX_PATH_LEN as nat);
    }
    lemma_more_rows(b6, count as nat, read, more);
}

/// A batch record reads whole or not at all: of what was written, a part that
/// stops short does not read, nor does the whole with anything behind it, nor
/// with another version in front.
pub proof fn lemma_record_whole_or_nothing(
    record: RecordView,
    cut: int,
    more: Seq<u8>,
    version: u8,
)
    requires
        storable(record),
        0 <= cut < record_bytes(record).len(),
        more.len() > 0,
        version != FORMAT_VERSION,
    ensures
        read_record(record_bytes(record).take(cut)) is None,
        read_record(record_bytes(record) + more) is None,
        read_record(record_bytes(record).update(0, version)) is None,
{
    let bytes = record_bytes(record);
    lemma_record_round_trip(record);
    lemma_nothing_follows(bytes, more);
    if read_record(bytes.take(cut)) is Some {
        lemma_nothing_follows(bytes.take(cut), bytes.skip(cut));
        assert(bytes.take(cut) + bytes.skip(cut) =~= bytes);
    }
}

/// The ids that fill what is left to read, to its end.
fn take_ids(decoder: &mut Decoder<'_>) -> (ids: Option<Vec<String>>)
    requires
        old(decoder).wf(),
    ensures
        match ids {
            Some(v) => read_ids(old(decoder).rest()) == Some(text_views(v@)),
            None => read_ids(old(decoder).rest()) is None,
        },
{
    let ghost all = decoder.rest();
    let count = decoder.u32()?;
    let ghost read = |b: Seq<u8>| read_text(b, MAX_PATH_LEN as nat);
    let ghost start = decoder.rest();
    let mut ids: Vec<String> = Vec::new();
    let mut i: u32 = 0;
    proof {
        let found = read_rows(start, count as nat, read);
        assert(found matches Some((more, r)) ==> text_views(ids@) + more =~= more);
    }
    while i < count
        invariant
            i <= count,
            decoder.wf(),
            all == old(decoder).rest(),
            read == (|b: Seq<u8>| read_text(b, MAX_PATH_LEN as nat)),
            read_ids(all) == (match read_rows(start, count as nat, read) {
                None => None,
                Some((ids, b)) => if b.len() > 0 {
                    None
                } else {
                    Some(ids)
                },
            }),
            match read_rows(decoder.rest(), (count - i) as nat, read) {
                Some((more, r)) => read_rows(start, count as nat, read) == Some(
                    (text_views(ids@) + more, r),
                ),
                None => read_rows(start, count as nat, read) is None,
            },
        decreases count - i,
    {
        let ghost before = text_views(ids@);
        let id = decoder.text(MAX_PATH_LEN)?;
        let ghost v = id@;
        ids.push(id);
        i += 1;
        proof {
            assert(text_views(ids@) =~= before.push(v));
            match read_rows(decoder.rest(), (count - i) as nat, read) {
                Some((more, r)) => {
                    assert(before + (seq![v] + more) =~= text_views(ids@) + more);
                },
                None => {},
            }
        }
    }
    if decoder.remaining() > 0 {
        return None;
    }
    assert(text_views(ids@) + Seq::<Seq<char>>::empty() =~= text_views(ids@));
    Some(ids)
}

impl BatchRecord {
    /// The record a batch is stored as.
    pub fn of(row: &BatchRow) -> (record: BatchRecord)
        ensures
            record@ == (RecordView {
                label: row.label@,
                origin: row.origin,
                direction: row.direction,
                started: row.started_unix_secs,
                ids: text_views(row.transfer_ids@),
            }),
    {
        BatchRecord {
            label: copy_of(row.label.as_str()),
            origin: row.origin,
            direction: row.direction,
            started_unix_secs: row.started_unix_secs,
            transfer_ids: copy_texts(&row.transfer_ids),
        }
    }

    /// The bytes to store.
    pub fn encode(&self) -> (bytes: Vec<u8>)
        ensures
            bytes@ == record_bytes(self@),
    {
        let mut out: Vec<u8> = Vec::new();
        out.push(FORMAT_VERSION);
        put_text(&mut out, self.label.as_str());
        out.push(
            match self.origin {
                Origin::Manual => 0u8,
                Origin::Automatic => 1u8,
            },
        );
        out.push(
            match self.direction {
                Direction::Pull => 0u8,
                Direction::Push => 1u8,
            },
        );
        put_u64(&mut out, encode_i64(self.started_unix_secs));
        put_u32(&mut out, written_len(self.transfer_ids.len()));
        let ghost views = text_views(self.transfer_ids@);
        let ghost write = |id: Seq<char>| text_bytes(id);
        let ghost head = out@;
        let mut i: usize = 0;
        assert(views.take(0) =~= Seq::<Seq<char>>::empty());
        assert(out@ =~= head + rows_bytes(views.take(0), write));
        while i < self.transfer_ids.len()
            invariant
                i <= self.transfer_ids.len(),
                views == text_views(self.transfer_ids@),
                write == (|id: Seq<char>| text_bytes(id)),
                out@ == head + rows_bytes(views.take(i as int), write),
            decreases self.transfer_ids.len() - i,
        {
            put_text(&mut out, self.transfer_ids[i].as_str());
            proof {
                assert(views[i as int] == self.transfer_ids@[i as int]@);
                lemma_rows_step(views, write, i as int);
                assert(out@ =~= head + rows_bytes(views.take(i + 1), write));
            }
            i += 1;
        }
        assert(views.take(views.len() as int) =~= views);
        assert(out@ =~= record_bytes(self@));
        out
    }

    /// Reads a stored record. One that does not read, whole and with nothing
    /// after it, is `None`.
    pub fn decode(bytes: &[u8]) -> (record: Option<BatchRecord>)
        ensures
            match record {
                Some(r) => read_record(bytes@) == Some(r@),
                None => read_record(bytes@) is None,
            },
    {
        let mut decoder = Decoder::new(bytes);
        let version = decoder.u8()?;
        if version != FORMAT_VERSION {
            return None;
        }
        let label = decoder.text(MAX_PATH_LEN)?;
        let origin = match decoder.u8()? {
            0 => Origin::Manual,
            1 => Origin::Automatic,
            _ => return None,
        };
        let direction = match decoder.u8()? {
            0 => Direction::Pull,
            1 => Direction::Push,
            _ => return None,
        };
        let started_unix_secs = decode_i64(decoder.u64()?);
        let transfer_ids = take_ids(&mut decoder)?;
        Some(BatchRecord { label, origin, direction, started_unix_secs, transfer_ids })
    }
}

/// What the file at a batch's place holds: a missing file, or one that
/// does not read, is `None`.
pub fn read_batch(file: Option<&[u8]>) -> (record: Option<BatchRecord>)
    ensures
        match record {
            Some(r) => file matches Some(bytes) && read_record(bytes@) == Some(r@),
            None => file matches Some(bytes) ==> read_record(bytes@) is None,
        },
{
    match file {
        Some(bytes) => BatchRecord::decode(bytes),
        None => None,
    }
}

} // verus!
