//! Automatic copying: every new file under a paired device's camera folder
//! comes to this device without anyone asking. It only ever adds: it deletes
//! nothing and writes nothing back.
//!
//! One row for each device is stored: whether the switch is on, when the last
//! run ended, and how many files it copied. Where the files come from is
//! learned from the device each time a run starts, and where they land is
//! always the download folder.

use crate::folder::{after_page, page_after, FoundFile, FoundView};
use crate::held::{names_file, HeldRowView, HeldStore};
use crate::text::copy_of;
use crate::textmap::TextMap;
use crate::transfers::found_views;
use crate::types::{AutoCopy, Entry};
use crate::wire::{
    be32, be64, bits_of, decode_i64, encode_i64, lemma_read_rows, lemma_read_text, lemma_read_u32,
    lemma_read_u64, lemma_read_u8, lemma_rows_step, lemma_signed, len32, put_text, put_u32,
    put_u64, read_rows, read_text, read_u32, read_u64, read_u8, rows_bytes, signed_of, text_bytes,
    written_len, Decoder,
};
use vstd::prelude::*;
use vstd::utf8::encode_utf8;

verus! {

/// The version byte.
pub const FORMAT_VERSION: u8 = 1;

/// The most devices a stored list may hold a row for.
pub const MAX_DEVICES: usize = 64;

/// The most bytes a device key in hexadecimal takes.
pub const MAX_DEVICE_KEY_LEN: usize = 64;

/// One device's setting, and what its last run did.
#[derive(Debug, Clone, Copy, PartialEq, Eq)]
pub struct AutoCopyRow {
    pub enabled: bool,
    pub last_run_unix_secs: Option<i64>,
    pub last_run_files: Option<u32>,
}

/// A device nobody has touched the switch for.
pub open spec fn untouched() -> AutoCopyRow {
    AutoCopyRow { enabled: false, last_run_unix_secs: None, last_run_files: None }
}

/// The bytes of a moment that may be missing.
#[verifier::opaque]
pub open spec fn moment_bytes(value: Option<i64>) -> Seq<u8> {
    match value {
        Some(n) => seq![1u8] + be64(bits_of(n)),
        None => seq![0u8],
    }
}

/// The bytes of a count that may be missing.
#[verifier::opaque]
pub open spec fn count_bytes(value: Option<u32>) -> Seq<u8> {
    match value {
        Some(n) => seq![1u8] + be32(n),
        None => seq![0u8],
    }
}

/// A moment that may be missing, and what follows it.
#[verifier::opaque]
pub open spec fn read_moment(b: Seq<u8>) -> Option<(Option<i64>, Seq<u8>)> {
    match read_u8(b) {
        None => None,
        Some((there, b)) => if there == 0 {
            Some((None, b))
        } else {
            match read_u64(b) {
                None => None,
                Some((n, b)) => Some((Some(signed_of(n)), b)),
            }
        },
    }
}

/// A count that may be missing, and what follows it.
#[verifier::opaque]
pub open spec fn read_count(b: Seq<u8>) -> Option<(Option<u32>, Seq<u8>)> {
    match read_u8(b) {
        None => None,
        Some((there, b)) => if there == 0 {
            Some((None, b))
        } else {
            match read_u32(b) {
                None => None,
                Some((n, b)) => Some((Some(n), b)),
            }
        },
    }
}

/// The bytes of one row.
#[verifier::opaque]
pub open spec fn row_bytes(row: (Seq<char>, AutoCopyRow)) -> Seq<u8> {
    text_bytes(row.0) + (seq![
        if row.1.enabled {
            1u8
        } else {
            0u8
        },
    ] + (moment_bytes(row.1.last_run_unix_secs) + count_bytes(row.1.last_run_files)))
}

/// One row, and what follows it.
#[verifier::opaque]
pub open spec fn read_row(b: Seq<u8>) -> Option<((Seq<char>, AutoCopyRow), Seq<u8>)> {
    match read_text(b, MAX_DEVICE_KEY_LEN as nat) {
        None => None,
        Some((device, b)) => match read_u8(b) {
            None => None,
            Some((enabled, b)) => match read_moment(b) {
                None => None,
                Some((last_run_unix_secs, b)) => match read_count(b) {
                    None => None,
                    Some((last_run_files, b)) => Some(
                        (
                            (
                                device,
                                AutoCopyRow {
                                    enabled: enabled != 0,
                                    last_run_unix_secs,
                                    last_run_files,
                                },
                            ),
                            b,
                        ),
                    ),
                },
            },
        },
    }
}

/// The bytes of the stored list.
pub open spec fn list_bytes(rows: Seq<(Seq<char>, AutoCopyRow)>) -> Seq<u8> {
    seq![FORMAT_VERSION] + (be32(len32(rows.len())) + rows_bytes(
        rows,
        |r: (Seq<char>, AutoCopyRow)| row_bytes(r),
    ))
}

/// The rows of a stored list, where it reads.
pub open spec fn read_list(b: Seq<u8>) -> Option<Seq<(Seq<char>, AutoCopyRow)>> {
    match read_u8(b) {
        None => None,
        Some((version, b)) => if version != FORMAT_VERSION {
            None
        } else {
            match read_u32(b) {
                None => None,
                Some((count, b)) => if count > MAX_DEVICES {
                    None
                } else {
                    match read_rows(b, count as nat, |b: Seq<u8>| read_row(b)) {
                        None => None,
                        Some((rows, b)) => if b.len() > 0 {
                            None
                        } else {
                            Some(rows)
                        },
                    }
                },
            }
        },
    }
}

/// Rows as a map: of two for one device the later counts.
pub open spec fn as_map(rows: Seq<(Seq<char>, AutoCopyRow)>) -> Map<Seq<char>, AutoCopyRow>
    decreases rows.len(),
{
    if rows.len() == 0 {
        Map::empty()
    } else {
        as_map(rows.drop_last()).insert(rows.last().0, rows.last().1)
    }
}

proof fn lemma_moment(value: Option<i64>, rest: Seq<u8>)
    ensures
        read_moment(moment_bytes(value) + rest) == Some((value, rest)),
{
    reveal(moment_bytes);
    reveal(read_moment);
    match value {
        Some(n) => {
            let b = be64(bits_of(n)) + rest;
            assert(moment_bytes(value) + rest =~= seq![1u8] + b);
            lemma_read_u8(1, b);
            lemma_read_u64(bits_of(n), rest);
            lemma_signed(n);
        },
        None => {
            lemma_read_u8(0, rest);
        },
    }
}

proof fn lemma_count(value: Option<u32>, rest: Seq<u8>)
    ensures
        read_count(count_bytes(value) + rest) == Some((value, rest)),
{
    reveal(count_bytes);
    reveal(read_count);
    match value {
        Some(n) => {
            let b = be32(n) + rest;
            assert(count_bytes(value) + rest =~= seq![1u8] + b);
            lemma_read_u8(1, b);
            lemma_read_u32(n, rest);
        },
        None => {
            lemma_read_u8(0, rest);
        },
    }
}

/// A row reads back as it was written.
pub proof fn lemma_row_round_trip(row: (Seq<char>, AutoCopyRow), rest: Seq<u8>)
    requires
        encode_utf8(row.0).len() <= MAX_DEVICE_KEY_LEN,
    ensures
        read_row(row_bytes(row) + rest) == Some((row, rest)),
{
    reveal(row_bytes);
    reveal(read_row);
    let on: u8 = if row.1.enabled {
        1u8
    } else {
        0u8
    };
    let b3 = count_bytes(row.1.last_run_files) + rest;
    let b2 = moment_bytes(row.1.last_run_unix_secs) + b3;
    let b1 = seq![on] + b2;
    assert(row_bytes(row) + rest =~= text_bytes(row.0) + b1);
    lemma_read_text(row.0, b1, MAX_DEVICE_KEY_LEN as nat);
    lemma_read_u8(on, b2);
    lemma_moment(row.1.last_run_unix_secs, b3);
    lemma_count(row.1.last_run_files, rest);
}

/// A list reads back as it was stored.
pub proof fn lemma_list_round_trip(rows: Seq<(Seq<char>, AutoCopyRow)>)
    requires
        rows.len() <= MAX_DEVICES,
        forall|i: int|
            0 <= i < rows.len() ==> encode_utf8((#[trigger] rows[i]).0).len() <= MAX_DEVICE_KEY_LEN,
    ensures
        read_list(list_bytes(rows)) == Some(rows),
{
    let write = |r: (Seq<char>, AutoCopyRow)| row_bytes(r);
    let read = |b: Seq<u8>| read_row(b);
    let body = rows_bytes(rows, write);
    let n = len32(rows.len());
    lemma_read_u8(FORMAT_VERSION, be32(n) + body);
    lemma_read_u32(n, body);
    assert forall|i: int, more: Seq<u8>| 0 <= i < rows.len() implies #[trigger] read(
        write(rows[i]) + more,
    ) == Some((rows[i], more)) by {
        lemma_row_round_trip(rows[i], more);
    }
    lemma_read_rows(rows, write, read, Seq::empty());
    assert(body + Seq::<u8>::empty() =~= body);
}

/// Every device's setting. The view is a map from the device keys.
#[derive(Debug)]
pub struct AutoCopyStore {
    rows: TextMap<AutoCopyRow>,
}

impl View for AutoCopyStore {
    type V = Map<Seq<char>, AutoCopyRow>;

    closed spec fn view(&self) -> Map<Seq<char>, AutoCopyRow> {
        self.rows@
    }
}

fn take_moment(decoder: &mut Decoder<'_>) -> (value: Option<Option<i64>>)
    requires
        old(decoder).wf(),
    ensures
        final(decoder).wf(),
        match value {
            Some(v) => read_moment(old(decoder).rest()) == Some((v, final(decoder).rest())),
            None => read_moment(old(decoder).rest()) is None,
        },
{
    reveal(read_moment);
    let there = decoder.u8()?;
    if there == 0 {
        return Some(None);
    }
    let n = decoder.u64()?;
    Some(Some(decode_i64(n)))
}

fn take_count(decoder: &mut Decoder<'_>) -> (value: Option<Option<u32>>)
    requires
        old(decoder).wf(),
    ensures
        final(decoder).wf(),
        match value {
            Some(v) => read_count(old(decoder).rest()) == Some((v, final(decoder).rest())),
            None => read_count(old(decoder).rest()) is None,
        },
{
    reveal(read_count);
    let there = decoder.u8()?;
    if there == 0 {
        return Some(None);
    }
    let n = decoder.u32()?;
    Some(Some(n))
}

fn take_row(decoder: &mut Decoder<'_>) -> (row: Option<(String, AutoCopyRow)>)
    requires
        old(decoder).wf(),
    ensures
        final(decoder).wf(),
        match row {
            Some(r) => read_row(old(decoder).rest()) == Some(
                ((r.0@, r.1), final(decoder).rest()),
            ),
            None => read_row(old(decoder).rest()) is None,
        },
{
    reveal(read_row);
    let device = decoder.text(MAX_DEVICE_KEY_LEN)?;
    let enabled = decoder.u8()?;
    let last_run_unix_secs = take_moment(decoder)?;
    let last_run_files = take_count(decoder)?;
    Some((device, AutoCopyRow { enabled: enabled != 0, last_run_unix_secs, last_run_files }))
}

/// The rows of a stored list, where it reads. A count over the bound is
/// caught before a row is read.
fn decode_rows(bytes: &[u8]) -> (rows: Option<TextMap<AutoCopyRow>>)
    ensures
        match rows {
            Some(r) => r.wf() && (read_list(bytes@) matches Some(list) && r@ == as_map(list)),
            None => read_list(bytes@) is None,
        },
{
    let mut decoder = Decoder::new(bytes);
    let version = decoder.u8()?;
    if version != FORMAT_VERSION {
        return None;
    }
    let count = decoder.u32()?;
    if count as usize > MAX_DEVICES {
        return None;
    }
    let ghost read = |b: Seq<u8>| read_row(b);
    let ghost start = decoder.rest();
    let ghost mut list: Seq<(Seq<char>, AutoCopyRow)> = Seq::empty();
    let mut rows: TextMap<AutoCopyRow> = TextMap::new();
    let mut i: u32 = 0;
    proof {
        let all = read_rows(start, count as nat, read);
        assert(all matches Some((more, r)) ==> list + more =~= more);
    }
    while i < count
        invariant
            i <= count,
            decoder.wf(),
            rows.wf(),
            rows@ == as_map(list),
            read == (|b: Seq<u8>| read_row(b)),
            read_list(bytes@) == (match read_rows(start, count as nat, read) {
                None => None,
                Some((rows, b)) => if b.len() > 0 {
                    None
                } else {
                    Some(rows)
                },
            }),
            match read_rows(decoder.rest(), (count - i) as nat, read) {
                Some((more, r)) => read_rows(start, count as nat, read) == Some((list + more, r)),
                None => read_rows(start, count as nat, read) is None,
            },
        decreases count - i,
    {
        let (device, row) = take_row(&mut decoder)?;
        rows.insert(device.as_str(), row);
        i += 1;
        proof {
            let before = list;
            let v = (device@, row);
            list = list.push(v);
            assert(list.drop_last() =~= before);
            match read_rows(decoder.rest(), (count - i) as nat, read) {
                Some((more, r)) => {
                    assert(before + (seq![v] + more) =~= list + more);
                },
                None => {},
            }
        }
    }
    if decoder.remaining() > 0 {
        return None;
    }
    assert(list + Seq::<(Seq<char>, AutoCopyRow)>::empty() =~= list);
    Some(rows)
}

impl AutoCopyStore {
    /// The rows, in the order of their keys.
    pub closed spec fn listed(self) -> Seq<(Seq<char>, AutoCopyRow)> {
        Seq::new(
            self.rows.spec_keys().len(),
            |i: int| (self.rows.spec_keys()[i], self.rows.spec_values()[i]),
        )
    }

    pub closed spec fn wf(self) -> bool {
        self.rows.wf()
    }

    /// The rows in order are the map.
    pub proof fn lemma_listed(self)
        requires
            self.wf(),
        ensures
            as_map(self.listed()) == self@,
            forall|i: int|
                0 <= i < self.listed().len() ==> self@.contains_key(
                    (#[trigger] self.listed()[i]).0,
                ) && self@[self.listed()[i].0] == self.listed()[i].1,
            self.listed().len() == self@.dom().len(),
    {
        self.rows.lemma_view();
        self.rows.lemma_len();
        let rows = self.listed();
        let keys = self.rows.spec_keys();
        lemma_as_map(rows);
        assert forall|i: int, j: int| 0 <= i < j < rows.len() implies rows[i].0 != rows[j].0 by {
            crate::textmap::lemma_less_one_way(keys[i], keys[j]);
        }
        assert(as_map(rows) =~= self@) by {
            assert forall|k: Seq<char>| #[trigger] as_map(rows).contains_key(k) implies as_map(
                rows,
            )[k] == self@[k] by {
                let i = choose|i: int|
                    0 <= i < rows.len() && (#[trigger] rows[i]).0 == k && as_map(rows)[k]
                        == rows[i].1;
                assert(keys[i] == k);
            }
            assert forall|k: Seq<char>| self@.contains_key(k) implies #[trigger] as_map(
                rows,
            ).contains_key(k) by {
                let i = choose|i: int| 0 <= i < keys.len() && keys[i] == k;
                assert(rows[i].0 == k);
            }
        }
    }

    /// Reads the stored list. A file that is missing or does not read is an
    /// empty one: every device answers as off and never run.
    pub fn load(file: Option<&[u8]>) -> (store: AutoCopyStore)
        ensures
            store.wf(),
            store@ == (match file {
                Some(bytes) => match read_list(bytes@) {
                    Some(rows) => as_map(rows),
                    None => Map::empty(),
                },
                None => Map::empty(),
            }),
    {
        let rows: Option<TextMap<AutoCopyRow>> = match file {
            Some(bytes) => decode_rows(bytes),
            None => None,
        };
        match rows {
            Some(rows) => AutoCopyStore { rows },
            None => AutoCopyStore { rows: TextMap::new() },
        }
    }

    /// The bytes to store.
    pub fn save(&self) -> (bytes: Vec<u8>)
        requires
            self.wf(),
        ensures
            bytes@ == list_bytes(self.listed()),
    {
        let mut out: Vec<u8> = Vec::new();
        out.push(FORMAT_VERSION);
        put_u32(&mut out, written_len(self.rows.len()));
        let ghost all = self.listed();
        let ghost write = |r: (Seq<char>, AutoCopyRow)| row_bytes(r);
        let ghost head = out@;
        let mut i: usize = 0;
        assert(all.take(0) =~= Seq::<(Seq<char>, AutoCopyRow)>::empty());
        assert(out@ =~= head + rows_bytes(all.take(0), write));
        while i < self.rows.len()
            invariant
                i <= all.len(),
                self.wf(),
                all == self.listed(),
                write == (|r: (Seq<char>, AutoCopyRow)| row_bytes(r)),
                out@ == head + rows_bytes(all.take(i as int), write),
            decreases all.len() - i,
        {
            let ghost before = out@;
            let row: AutoCopyRow = *self.rows.value_at(i);
            put_text(&mut out, self.rows.key_at(i));
            out.push(
                if row.enabled {
                    1u8
                } else {
                    0u8
                },
            );
            match row.last_run_unix_secs {
                Some(n) => {
                    out.push(1u8);
                    put_u64(&mut out, encode_i64(n));
                },
                None => {
                    out.push(0u8);
                },
            }
            match row.last_run_files {
                Some(n) => {
                    out.push(1u8);
                    put_u32(&mut out, n);
                },
                None => {
                    out.push(0u8);
                },
            }
            proof {
                reveal(row_bytes);
                reveal(moment_bytes);
                reveal(count_bytes);
                assert(out@ =~= before + row_bytes(all[i as int]));
                lemma_rows_step(all, write, i as int);
                assert(out@ =~= head + rows_bytes(all.take(i + 1), write));
            }
            i += 1;
        }
        assert(all.take(all.len() as int) =~= all);
        assert(out@ =~= list_bytes(all));
        out
    }

    /// A device's row.
    pub fn get(&self, device_key_hex: &str) -> (row: Option<AutoCopyRow>)
        requires
            self.wf(),
        ensures
            row == (if self@.contains_key(device_key_hex@) {
                Some(self@[device_key_hex@])
            } else {
                None
            }),
    {
        match self.rows.get(device_key_hex) {
            Some(row) => Some(*row),
            None => None,
        }
    }

    /// A device's row, or that of one nobody has touched.
    pub open spec fn row(self, device: Seq<char>) -> AutoCopyRow {
        if self@.contains_key(device) {
            self@[device]
        } else {
            untouched()
        }
    }

    fn row_or_untouched(&self, device_key_hex: &str) -> (row: AutoCopyRow)
        requires
            self.wf(),
        ensures
            row == self.row(device_key_hex@),
    {
        match self.get(device_key_hex) {
            Some(row) => row,
            None => AutoCopyRow { enabled: false, last_run_unix_secs: None, last_run_files: None },
        }
    }

    /// Turns the switch on or off, and keeps what the last run did.
    pub fn set_enabled(&mut self, device_key_hex: &str, enabled: bool)
        requires
            old(self).wf(),
        ensures
            final(self).wf(),
            final(self)@ == old(self)@.insert(
                device_key_hex@,
                (AutoCopyRow { enabled, ..old(self).row(device_key_hex@) }),
            ),
    {
        let row = self.row_or_untouched(device_key_hex);
        self.rows.insert(device_key_hex, AutoCopyRow { enabled, ..row });
    }

    /// Records that a run ended, and how many files it copied. The switch
    /// stays as it is.
    pub fn record_run(&mut self, device_key_hex: &str, ended_unix_secs: i64, files: u32)
        requires
            old(self).wf(),
        ensures
            final(self).wf(),
            final(self)@ == old(self)@.insert(
                device_key_hex@,
                (AutoCopyRow {
                    last_run_unix_secs: Some(ended_unix_secs),
                    last_run_files: Some(files),
                    ..old(self).row(device_key_hex@)
                }),
            ),
    {
        let row = self.row_or_untouched(device_key_hex);
        self.rows.insert(
            device_key_hex,
            AutoCopyRow {
                last_run_unix_secs: Some(ended_unix_secs),
                last_run_files: Some(files),
                ..row
            },
        );
    }

    /// What the app is shown. It always answers: a device that is not known
    /// reads as one nobody has touched.
    pub fn shown(
        &self,
        device_key_hex: &str,
        source_root: Option<&str>,
        download_dir: &str,
        running: bool,
    ) -> (shown: AutoCopy)
        requires
            self.wf(),
        ensures
            shown.device_key_hex@ == device_key_hex@,
            shown.enabled == self.row(device_key_hex@).enabled,
            shown.source@ == (match source_root {
                Some(root) => root@ + "/DCIM"@,
                None => "DCIM"@,
            }),
            shown.destination@ == download_dir@ + "/DCIM"@,
            shown.last_run_unix_secs == self.row(device_key_hex@).last_run_unix_secs,
            shown.last_run_files == self.row(device_key_hex@).last_run_files,
            shown.running == running,
    {
        let row = self.row_or_untouched(device_key_hex);
        let source = match source_root {
            Some(root) => {
                let mut text = copy_of(root);
                text.push_str("/DCIM");
                text
            },
            None => copy_of("DCIM"),
        };
        let mut destination = copy_of(download_dir);
        destination.push_str("/DCIM");
        AutoCopy {
            device_key_hex: copy_of(device_key_hex),
            enabled: row.enabled,
            source,
            destination,
            last_run_unix_secs: row.last_run_unix_secs,
            last_run_files: row.last_run_files,
            running,
        }
    }
}

/// What rows in turn make of a map.
proof fn lemma_as_map(rows: Seq<(Seq<char>, AutoCopyRow)>)
    ensures
        forall|k: Seq<char>| #[trigger]
            as_map(rows).contains_key(k) ==> exists|i: int|
                0 <= i < rows.len() && (#[trigger] rows[i]).0 == k && as_map(rows)[k] == rows[i].1,
        forall|i: int| 0 <= i < rows.len() ==> as_map(rows).contains_key((#[trigger] rows[i]).0),
    decreases rows.len(),
{
    if rows.len() > 0 {
        let rest = rows.drop_last();
        lemma_as_map(rest);
        assert forall|k: Seq<char>| #[trigger] as_map(rows).contains_key(k) implies exists|i: int|
            0 <= i < rows.len() && (#[trigger] rows[i]).0 == k && as_map(rows)[k] == rows[i].1 by {
            if k == rows.last().0 {
                assert(rows[rows.len() - 1].0 == k);
            } else {
                assert(as_map(rest).contains_key(k));
                let i = choose|i: int|
                    0 <= i < rest.len() && (#[trigger] rest[i]).0 == k && as_map(rest)[k]
                        == rest[i].1;
                assert(rows[i].0 == k);
            }
        }
        assert forall|i: int| 0 <= i < rows.len() implies as_map(rows).contains_key(
            (#[trigger] rows[i]).0,
        ) by {
            if i < rest.len() {
                assert(rest[i] == rows[i]);
                assert(as_map(rest).contains_key(rest[i].0));
            }
        }
    }
}

/// A store reads back as it was saved.
pub proof fn lemma_store_round_trip(store: AutoCopyStore)
    requires
        store.wf(),
        store@.dom().len() <= MAX_DEVICES,
        forall|k: Seq<char>| #[trigger]
            store@.contains_key(k) ==> encode_utf8(k).len() <= MAX_DEVICE_KEY_LEN,
    ensures
        read_list(list_bytes(store.listed())) matches Some(rows) && as_map(rows) == store@,
{
    store.lemma_listed();
    lemma_list_round_trip(store.listed());
}

// ---------------------------------------------------------------------------
// The run.
// ---------------------------------------------------------------------------

/// Whether a run starts: the engine is not stopping, the switch is on, and no
/// run for the device is in flight.
pub fn may_run(stopping: bool, row: Option<AutoCopyRow>, in_flight: bool) -> (run: bool)
    ensures
        run == (!stopping && (row matches Some(r) && r.enabled) && !in_flight),
{
    match row {
        Some(r) => !stopping && r.enabled && !in_flight,
        None => false,
    }
}

/// What one page of the device's list of roots leads to.
#[derive(Debug)]
pub enum RootStep {
    /// The first root's name.
    Found(String),
    /// The next page begins here.
    More(u64),
    /// There are no roots, so the run finds nothing.
    NoRoots,
    /// The list is too large to trust.
    TooLarge,
}

/// What one page of the device's list of roots leads to. `pages` and `seen`
/// count this page too.
pub fn first_root(
    entries: &Vec<Entry>,
    cursor: u64,
    next: Option<u64>,
    pages: usize,
    seen: usize,
) -> (step: RootStep)
    ensures
        if entries@.len() > 0 {
            step matches RootStep::Found(name) && name@ == entries@[0].name@
        } else {
            match page_after(cursor, next, pages as nat, seen as nat) {
                Ok(Some(c)) => step == RootStep::More(c),
                Ok(None) => step == RootStep::NoRoots,
                Err(_) => step == RootStep::TooLarge,
            }
        },
{
    if entries.len() > 0 {
        return RootStep::Found(copy_of(entries[0].name.as_str()));
    }
    match after_page(cursor, next, pages, seen) {
        Ok(Some(c)) => RootStep::More(c),
        Ok(None) => RootStep::NoRoots,
        Err(_) => RootStep::TooLarge,
    }
}

/// The index names this file.
pub open spec fn held_by_path(held: Seq<HeldRowView>, device: Seq<char>, file: FoundView) -> bool {
    exists|i: int|
        0 <= i < held.len() && names_file(
            #[trigger] held[i],
            device,
            file.path,
            file.size,
            file.modified_unix_secs,
        )
}

/// The index holds a file of these bytes, wherever it came from.
pub open spec fn held_by_root(held: Seq<HeldRowView>, root: Seq<u8>) -> bool {
    exists|i: int| 0 <= i < held.len() && (#[trigger] held[i]).root == root
}

/// The files a run found, gone through one by one for those that are new.
#[derive(Debug)]
pub struct NewFiles {
    /// The files not looked at yet, the next one last.
    rest: Vec<FoundFile>,
    new: Vec<FoundFile>,
}

impl NewFiles {
    /// The files not looked at yet, the next one first.
    pub closed spec fn left(self) -> Seq<FoundView> {
        found_views(self.rest@).reverse()
    }

    /// The files that are new, in the order they were found.
    pub closed spec fn found(self) -> Seq<FoundView> {
        found_views(self.new@)
    }

    /// None of the files has been looked at.
    pub fn new(files: Vec<FoundFile>) -> (run: NewFiles)
        ensures
            run.left() == found_views(files@),
            run.found().len() == 0,
    {
        let ghost all = files@;
        let mut files = files;
        let mut rest: Vec<FoundFile> = Vec::new();
        let n: usize = files.len();
        let mut i: usize = 0;
        while i < n
            invariant
                i <= n,
                n == all.len(),
                files@ == all.take(n - i),
                rest@.len() == i,
                forall|j: int| 0 <= j < i ==> #[trigger] rest@[j] == all[n - 1 - j],
            decreases n - i,
        {
            let file = files.pop().unwrap();
            rest.push(file);
            i += 1;
            assert(files@ =~= all.take(n - i));
        }
        let run = NewFiles { rest, new: Vec::new() };
        assert(run.left() =~= found_views(all));
        run
    }

    /// The next file whose manifest has to be asked for. The files that the
    /// index names, before it, are passed over.
    pub fn next(&mut self, held: &HeldStore, device_key_hex: &str) -> (file: Option<&FoundFile>)
        ensures
            final(self).found() == old(self).found(),
            exists|n: int|
                #![trigger old(self).left().skip(n)]
                0 <= n <= old(self).left().len() && final(self).left() == old(self).left().skip(n)
                    && (forall|i: int|
                    0 <= i < n ==> held_by_path(
                        held@,
                        device_key_hex@,
                        #[trigger] old(self).left()[i],
                    )),
            match file {
                Some(f) => final(self).left().len() > 0 && f@ == final(self).left()[0]
                    && !held_by_path(held@, device_key_hex@, f@),
                None => final(self).left().len() == 0,
            },
    {
        let ghost start = self.left();
        let ghost mut n: int = 0;
        assert(start.skip(0) =~= start);
        while self.rest.len() > 0
            invariant
                start == old(self).left(),
                self.found() == old(self).found(),
                0 <= n <= start.len(),
                self.left() == start.skip(n),
                forall|i: int|
                    0 <= i < n ==> held_by_path(held@, device_key_hex@, #[trigger] start[i]),
            decreases self.rest@.len(),
        {
            let last: usize = self.rest.len() - 1;
            let ghost here = self.left();
            assert(here.len() == self.rest@.len());
            assert(here[0] == self.rest@[last as int]@);
            assert(here[0] == start[n]);
            let held_already = {
                let file = &self.rest[last];
                held.contains_path(
                    device_key_hex,
                    file.path.as_str(),
                    file.size,
                    file.modified_unix_secs,
                )
            };
            if !held_already {
                return Some(&self.rest[last]);
            }
            let passed = self.rest.pop();
            proof {
                assert(self.left() =~= here.skip(1));
                assert(start.skip(n).skip(1) =~= start.skip(n + 1));
                n = n + 1;
            }
        }
        None
    }

    /// The manifest of the next file has come, with this root hash; or it
    /// could not be had, and the file is left for the next run.
    pub fn answer(&mut self, held: &HeldStore, root: Option<[u8; 32]>)
        requires
            old(self).left().len() > 0,
        ensures
            final(self).left() == old(self).left().drop_first(),
            final(self).found() == (match root {
                Some(r) => if held_by_root(held@, r@) {
                    old(self).found()
                } else {
                    old(self).found().push(old(self).left()[0])
                },
                None => old(self).found(),
            }),
    {
        let ghost here = self.left();
        let ghost before = self.found();
        assert(here[0] == self.rest@[self.rest@.len() - 1]@);
        let file = self.rest.pop().unwrap();
        assert(self.left() =~= here.drop_first());
        match root {
            Some(r) => {
                if !held.contains_root(&r) {
                    let ghost v = file@;
                    self.new.push(file);
                    assert(self.found() =~= before.push(v));
                }
            },
            None => {},
        }
    }

    /// The files that are new.
    pub fn into_new(self) -> (files: Vec<FoundFile>)
        ensures
            found_views(files@) == self.found(),
    {
        self.new
    }
}

/// A file is copied exactly where neither its place nor its content is known:
/// one that is held at its path is passed over without a question, and one
/// whose content is held elsewhere, or could not be told, is left alone.
pub proof fn lemma_only_new_files_are_copied(
    run: &mut NewFiles,
    held: &HeldStore,
    device_key_hex: &str,
    file: Option<&FoundFile>,
    then: &mut NewFiles,
    root: Option<[u8; 32]>,
)
    requires
        call_ensures(NewFiles::next, (run, held, device_key_hex), file),
        file is Some,
        old(then).left() == final(run).left(),
        old(then).found() == final(run).found(),
        call_ensures(NewFiles::answer, (then, held, root), ()),
    ensures
        !held_by_path(held@, device_key_hex@, file->0@),
        final(then).found() == old(run).found() || final(then).found() == old(run).found().push(
            file->0@,
        ),
        final(then).found() == old(run).found().push(file->0@) <==> (root matches Some(r)
            && !held_by_root(held@, r@)),
        final(then).left().len() < final(run).left().len(),
{
    let before = old(run).found();
    assert(before.push(file->0@).len() == before.len() + 1);
}

/// An automatic copy runs where it is turned on, and not twice at a time.
pub proof fn lemma_copies_run_once(stopping: bool, row: Option<AutoCopyRow>, in_flight: bool, run: bool)
    requires
        call_ensures(may_run, (stopping, row, in_flight), run),
    ensures
        run ==> row is Some && row->0.enabled && !in_flight && !stopping,
        row is Some && row->0.enabled && !in_flight && !stopping ==> run,
{
}

} // verus!
