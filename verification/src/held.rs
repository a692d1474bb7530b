//! The index of files this device has pulled to completion, which automatic
//! copy skips by.
//!
//! It is stored as a version byte, a count, and the rows, oldest first. A
//! file that does not read is an empty index.

use crate::limits::MAX_PATH_LEN;
use crate::text::{same_bytes, same_text};
use crate::wire::{
    be32, be64, bits_of, decode_i64, encode_i64, lemma_read_fixed, lemma_read_rows,
    lemma_read_text, lemma_read_u32, lemma_read_u64, lemma_read_u8, lemma_rows_step, lemma_signed,
    len32, put_fixed, put_text, put_u32, put_u64, read_fixed, read_rows, read_text, read_u32,
    read_u64, read_u8, rows_bytes, signed_of, text_bytes, written_len, Decoder,
};
use vstd::prelude::*;
use vstd::utf8::encode_utf8;

verus! {

/// The version byte.
pub const FORMAT_VERSION: u8 = 1;

/// The most rows the index keeps. Past this, the oldest goes.
pub const MAX_ROWS: usize = 100_000;

/// The most bytes a device key in hexadecimal takes.
pub const MAX_DEVICE_KEY_LEN: usize = 64;

/// The length of a root hash.
pub const ROOT_LEN: usize = 32;

/// One file this device has pulled to completion.
#[derive(Debug)]
pub struct HeldRow {
    /// The device the file came from.
    pub device_key_hex: String,
    /// Where the file lived on that device.
    pub source_path: String,
    /// The file's size when the pull finished.
    pub size: u64,
    /// The file's modified time at that moment.
    pub mtime: i64,
    /// The root hash of the whole file.
    pub root: [u8; 32],
}

/// What is known of one row.
pub struct HeldRowView {
    pub device: Seq<char>,
    pub path: Seq<char>,
    pub size: u64,
    pub mtime: i64,
    pub root: Seq<u8>,
}

impl View for HeldRow {
    type V = HeldRowView;

    open spec fn view(&self) -> HeldRowView {
        HeldRowView {
            device: self.device_key_hex@,
            path: self.source_path@,
            size: self.size,
            mtime: self.mtime,
            root: self.root@,
        }
    }
}

/// What some rows say.
pub open spec fn row_views(rows: Seq<HeldRow>) -> Seq<HeldRowView> {
    rows.map_values(|r: HeldRow| r@)
}

/// The bytes of one row.
#[verifier::opaque]
pub open spec fn row_bytes(row: HeldRowView) -> Seq<u8> {
    text_bytes(row.device) + (text_bytes(row.path) + (be64(row.size) + (be64(bits_of(row.mtime))
        + row.root)))
}

/// One row, and what follows it.
#[verifier::opaque]
pub open spec fn read_row(b: Seq<u8>) -> Option<(HeldRowView, Seq<u8>)> {
    match read_text(b, MAX_DEVICE_KEY_LEN as nat) {
        None => None,
        Some((device, b)) => match read_text(b, MAX_PATH_LEN as nat) {
            None => None,
            Some((path, b)) => match read_u64(b) {
                None => None,
                Some((size, b)) => match read_u64(b) {
                    None => None,
                    Some((mtime, b)) => match read_fixed(b, ROOT_LEN as nat) {
                        None => None,
                        Some((root, b)) => Some(
                            (HeldRowView { device, path, size, mtime: signed_of(mtime), root }, b),
                        ),
                    },
                },
            },
        },
    }
}

/// A row whose texts are within their bounds.
pub open spec fn storable(row: HeldRowView) -> bool {
    encode_utf8(row.device).len() <= MAX_DEVICE_KEY_LEN && encode_utf8(row.path).len()
        <= MAX_PATH_LEN && row.root.len() == ROOT_LEN
}

/// The bytes of the stored index.
pub open spec fn index_bytes(rows: Seq<HeldRowView>) -> Seq<u8> {
    seq![FORMAT_VERSION] + (be32(len32(rows.len())) + rows_bytes(
        rows,
        |r: HeldRowView| row_bytes(r),
    ))
}

/// The rows of a stored index, where it reads.
pub open spec fn read_index(b: Seq<u8>) -> Option<Seq<HeldRowView>> {
    match read_u8(b) {
        None => None,
        Some((version, b)) => if version != FORMAT_VERSION {
            None
        } else {
            match read_u32(b) {
                None => None,
                Some((count, b)) => if count > MAX_ROWS {
                    None
                } else {
                    match read_rows(b, count as nat, |b: Seq<u8>| read_row(b)) {
                        None => None,
                        Some((rows, b)) => if b.len() > 0 {
                            None
                        } else {
                            Some(rows)
                        },
                    }
                },
            }
        },
    }
}

/// A row reads back as it was written.
pub proof fn lemma_row_round_trip(row: HeldRowView, rest: Seq<u8>)
    requires
        storable(row),
    ensures
        read_row(row_bytes(row) + rest) == Some((row, rest)),
{
    reveal(row_bytes);
    reveal(read_row);
    let b4 = row.root + rest;
    let b3 = be64(bits_of(row.mtime)) + b4;
    let b2 = be64(row.size) + b3;
    let b1 = text_bytes(row.path) + b2;
    assert(row_bytes(row) + rest =~= text_bytes(row.device) + b1);
    lemma_read_text(row.device, b1, MAX_DEVICE_KEY_LEN as nat);
    lemma_read_text(row.path, b2, MAX_PATH_LEN as nat);
    lemma_read_u64(row.size, b3);
    lemma_read_u64(bits_of(row.mtime), b4);
    lemma_read_fixed(row.root, rest);
    lemma_signed(row.mtime);
}

/// An index reads back as it was stored.
pub proof fn lemma_index_round_trip(rows: Seq<HeldRowView>)
    requires
        rows.len() <= MAX_ROWS,
        forall|i: int| 0 <= i < rows.len() ==> storable(#[trigger] rows[i]),
    ensures
        read_index(index_bytes(rows)) == Some(rows),
{
    let write = |r: HeldRowView| row_bytes(r);
    let read = |b: Seq<u8>| read_row(b);
    let body = rows_bytes(rows, write);
    let n = len32(rows.len());
    lemma_read_u8(FORMAT_VERSION, be32(n) + body);
    lemma_read_u32(n, body);
    assert forall|i: int, more: Seq<u8>| 0 <= i < rows.len() implies #[trigger] read(
        write(rows[i]) + more,
    ) == Some((rows[i], more)) by {
        lemma_row_round_trip(rows[i], more);
    }
    lemma_read_rows(rows, write, read, Seq::empty());
    assert(body + Seq::<u8>::empty() =~= body);
}

/// Every file this device has pulled to completion. Its view is the rows,
/// oldest first.
#[derive(Debug)]
pub struct HeldStore {
    rows: Vec<HeldRow>,
}

impl View for HeldStore {
    type V = Seq<HeldRowView>;

    closed spec fn view(&self) -> Seq<HeldRowView> {
        row_views(self.rows@)
    }
}

/// The row names this device, path, size and modified time.
pub open spec fn names_file(
    row: HeldRowView,
    device: Seq<char>,
    path: Seq<char>,
    size: u64,
    mtime: i64,
) -> bool {
    row.device == device && row.path == path && row.size == size && row.mtime == mtime
}

/// Whether a file of this device is held at this path, with this size and time.
pub open spec fn has_file(
    rows: Seq<HeldRowView>,
    device: Seq<char>,
    path: Seq<char>,
    size: u64,
    mtime: i64,
) -> bool {
    exists|i: int| 0 <= i < rows.len() && names_file(#[trigger] rows[i], device, path, size, mtime)
}

/// Whether a file with this content is held.
pub open spec fn has_root(rows: Seq<HeldRowView>, root: Seq<u8>) -> bool {
    exists|i: int| 0 <= i < rows.len() && (#[trigger] rows[i]).root == root
}

/// `rows` without its oldest ones, so that no more than [`MAX_ROWS`] are
/// left.
pub open spec fn newest(rows: Seq<HeldRowView>) -> Seq<HeldRowView> {
    if rows.len() > MAX_ROWS {
        rows.skip(rows.len() - MAX_ROWS)
    } else {
        rows
    }
}

fn take_row(decoder: &mut Decoder<'_>) -> (row: Option<HeldRow>)
    requires
        old(decoder).wf(),
    ensures
        final(decoder).wf(),
        match row {
            Some(r) => read_row(old(decoder).rest()) == Some((r@, final(decoder).rest())),
            None => read_row(old(decoder).rest()) is None,
        },
{
    reveal(read_row);
    let device_key_hex = decoder.text(MAX_DEVICE_KEY_LEN)?;
    let source_path = decoder.text(MAX_PATH_LEN)?;
    let size = decoder.u64()?;
    let mtime = decode_i64(decoder.u64()?);
    let bytes = decoder.fixed(ROOT_LEN)?;
    let mut root: [u8; 32] = [0u8;32];
    let mut i: usize = 0;
    while i < 32
        invariant
            i <= 32,
            bytes@.len() == 32,
            forall|j: int| 0 <= j < i ==> root@[j] == bytes@[j],
        decreases 32 - i,
    {
        root[i] = bytes[i];
        i += 1;
    }
    assert(root@ =~= bytes@);
    Some(HeldRow { device_key_hex, source_path, size, mtime, root })
}

/// The rows of a stored index, where it reads. A count over the bound is
/// caught before a row is read.
pub fn decode_rows(bytes: &[u8]) -> (rows: Option<Vec<HeldRow>>)
    ensures
        match rows {
            Some(r) => read_index(bytes@) == Some(row_views(r@)),
            None => read_index(bytes@) is None,
        },
{
    let mut decoder = Decoder::new(bytes);
    let version = decoder.u8()?;
    if version != FORMAT_VERSION {
        return None;
    }
    let count = decoder.u32()?;
    if count as usize > MAX_ROWS {
        return None;
    }
    let ghost read = |b: Seq<u8>| read_row(b);
    let ghost start = decoder.rest();
    let mut rows: Vec<HeldRow> = Vec::new();
    let mut i: u32 = 0;
    proof {
        let all = read_rows(start, count as nat, read);
        assert(all matches Some((more, r)) ==> row_views(rows@) + more =~= more);
    }
    while i < count
        invariant
            i <= count,
            decoder.wf(),
            read == (|b: Seq<u8>| read_row(b)),
            read_index(bytes@) == (if count > MAX_ROWS {
                None
            } else {
                match read_rows(start, count as nat, read) {
                    None => None,
                    Some((rows, b)) => if b.len() > 0 {
                        None
                    } else {
                        Some(rows)
                    },
                }
            }),
            count <= MAX_ROWS,
            match read_rows(decoder.rest(), (count - i) as nat, read) {
                Some((more, r)) => read_rows(start, count as nat, read) == Some(
                    (row_views(rows@) + more, r),
                ),
                None => read_rows(start, count as nat, read) is None,
            },
        decreases count - i,
    {
        let ghost b = decoder.rest();
        let ghost before = row_views(rows@);
        let row = take_row(&mut decoder)?;
        let ghost v = row@;
        rows.push(row);
        i += 1;
        proof {
            assert(row_views(rows@) =~= before.push(v));
            match read_rows(decoder.rest(), (count - i) as nat, read) {
                Some((more, r)) => {
                    assert(before + (seq![v] + more) =~= row_views(rows@) + more);
                },
                None => {},
            }
        }
    }
    if decoder.remaining() > 0 {
        return None;
    }
    assert(row_views(rows@) + Seq::<HeldRowView>::empty() =~= row_views(rows@));
    Some(rows)
}

/// The bytes of the stored index.
pub fn encode_rows(rows: &Vec<HeldRow>) -> (bytes: Vec<u8>)
    ensures
        bytes@ == index_bytes(row_views(rows@)),
{
    let mut out: Vec<u8> = Vec::new();
    out.push(FORMAT_VERSION);
    put_u32(&mut out, written_len(rows.len()));
    let ghost views = row_views(rows@);
    let ghost write = |r: HeldRowView| row_bytes(r);
    let ghost head = out@;
    let mut i: usize = 0;
    assert(views.take(0) =~= Seq::<HeldRowView>::empty());
    assert(out@ =~= head + rows_bytes(views.take(0), write));
    while i < rows.len()
        invariant
            i <= rows.len(),
            views == row_views(rows@),
            write == (|r: HeldRowView| row_bytes(r)),
            out@ == head + rows_bytes(views.take(i as int), write),
        decreases rows.len() - i,
    {
        let ghost before = out@;
        let row = &rows[i];
        put_text(&mut out, row.device_key_hex.as_str());
        put_text(&mut out, row.source_path.as_str());
        put_u64(&mut out, row.size);
        put_u64(&mut out, encode_i64(row.mtime));
        put_fixed(&mut out, row.root.as_slice());
        proof {
            reveal(row_bytes);
            assert(views[i as int] == row@);
            assert(out@ =~= before + row_bytes(row@));
            lemma_rows_step(views, write, i as int);
            assert(out@ =~= head + rows_bytes(views.take(i + 1), write));
        }
        i += 1;
    }
    assert(views.take(views.len() as int) =~= views);
    assert(out@ =~= index_bytes(views));
    out
}

impl HeldStore {
    /// No more than [`MAX_ROWS`] rows.
    pub open spec fn wf(self) -> bool {
        self@.len() <= MAX_ROWS
    }

    /// Reads the stored index. A file that is missing or does not read is an
    /// empty one.
    pub fn load(file: Option<&[u8]>) -> (store: HeldStore)
        ensures
            store.wf(),
            store@ == (match file {
                Some(bytes) => match read_index(bytes@) {
                    Some(rows) => rows,
                    None => Seq::empty(),
                },
                None => Seq::empty(),
            }),
    {
        let rows: Option<Vec<HeldRow>> = match file {
            Some(bytes) => decode_rows(bytes),
            None => None,
        };
        match rows {
            Some(rows) => {
                proof {
                    lemma_rows_len(file.unwrap()@);
                }
                HeldStore { rows }
            },
            None => {
                let store = HeldStore { rows: Vec::new() };
                assert(store@ =~= Seq::<HeldRowView>::empty());
                store
            },
        }
    }

    /// The bytes to store.
    pub fn save(&self) -> (bytes: Vec<u8>)
        ensures
            bytes@ == index_bytes(self@),
    {
        encode_rows(&self.rows)
    }

    /// Adds a row. The oldest goes where there are too many.
    pub fn record(&mut self, row: HeldRow)
        requires
            old(self).wf(),
        ensures
            final(self).wf(),
            final(self)@ == newest(old(self)@.push(row@)),
    {
        let ghost v = row@;
        self.rows.push(row);
        let ghost grown = self@;
        assert(grown =~= old(self)@.push(v));
        if self.rows.len() > MAX_ROWS {
            let gone = self.rows.remove(0);
            assert(self@ =~= grown.skip(1));
        }
    }

    /// Whether a row names this device, path, size and modified time.
    pub fn contains_path(&self, device_key_hex: &str, path: &str, size: u64, mtime: i64) -> (held:
        bool)
        ensures
            held == exists|i: int|
                0 <= i < self@.len() && names_file(
                    #[trigger] self@[i],
                    device_key_hex@,
                    path@,
                    size,
                    mtime,
                ),
            held == has_file(self@, device_key_hex@, path@, size, mtime),
    {
        let mut i: usize = 0;
        while i < self.rows.len()
            invariant
                i <= self.rows.len(),
                forall|j: int|
                    0 <= j < i ==> !names_file(
                        #[trigger] self@[j],
                        device_key_hex@,
                        path@,
                        size,
                        mtime,
                    ),
            decreases self.rows.len() - i,
        {
            let row = &self.rows[i];
            assert(self@[i as int] == row@);
            if row.size == size && row.mtime == mtime && same_text(
                row.device_key_hex.as_str(),
                device_key_hex,
            ) && same_text(row.source_path.as_str(), path) {
                return true;
            }
            i += 1;
        }
        false
    }

    /// Whether a row, from any device or path, carries this root hash.
    pub fn contains_root(&self, root: &[u8; 32]) -> (held: bool)
        ensures
            held == exists|i: int| 0 <= i < self@.len() && (#[trigger] self@[i]).root == root@,
            held == has_root(self@, root@),
    {
        let mut i: usize = 0;
        while i < self.rows.len()
            invariant
                i <= self.rows.len(),
                forall|j: int| 0 <= j < i ==> (#[trigger] self@[j]).root != root@,
            decreases self.rows.len() - i,
        {
            assert(self@[i as int] == self.rows@[i as int]@);
            if same_bytes(self.rows[i].root.as_slice(), root.as_slice()) {
                return true;
            }
            i += 1;
        }
        false
    }

    /// How many rows there are.
    pub fn len(&self) -> (len: usize)
        ensures
            len == self@.len(),
    {
        self.rows.len()
    }
}

/// A stored index that reads holds no more than [`MAX_ROWS`] rows.
proof fn lemma_rows_len(b: Seq<u8>)
    ensures
        read_index(b) matches Some(rows) ==> rows.len() <= MAX_ROWS,
{
    if read_index(b) is Some {
        let b1 = (read_u8(b)->0).1;
        let (count, b2) = read_u32(b1)->0;
        crate::wire::lemma_rows_count(b2, count as nat, |b: Seq<u8>| read_row(b));
    }
}

/// A row that was recorded is found by its path and by its root, for as long
/// as no more than [`MAX_ROWS`] were recorded after it.
pub proof fn lemma_recorded_is_held(rows: Seq<HeldRowView>, row: HeldRowView)
    requires
        rows.len() <= MAX_ROWS,
    ensures
        newest(rows.push(row)).len() > 0,
        newest(rows.push(row)).last() == row,
        newest(rows.push(row)).len() <= MAX_ROWS,
        forall|i: int|
            1 <= i < rows.len() ==> newest(rows.push(row)).contains(#[trigger] rows[i]),
{
    let after = newest(rows.push(row));
    assert forall|i: int| 1 <= i < rows.len() implies after.contains(#[trigger] rows[i]) by {
        if rows.len() + 1 > MAX_ROWS {
            assert(after[i - 1] == rows[i]);
        } else {
            assert(after[i] == rows[i]);
        }
    }
}

/// A file that was recorded is held: at its device and path with its size and
/// time, and by its content wherever it lies. What differs in any of these is
/// not the same file.
pub proof fn lemma_recorded_file_is_found(
    store: &mut HeldStore,
    row: HeldRow,
    after: &HeldStore,
    device: &str,
    path: &str,
    size: u64,
    mtime: i64,
    held: bool,
    root: &[u8; 32],
    known: bool,
)
    requires
        old(store).wf(),
        call_ensures(HeldStore::record, (store, row), ()),
        after@ == final(store)@,
        call_ensures(HeldStore::contains_path, (after, device, path, size, mtime), held),
        call_ensures(HeldStore::contains_root, (after, root), known),
    ensures
        row.device_key_hex@ == device@ && row.source_path@ == path@ && row.size == size && row.mtime
            == mtime ==> held,
        row.root@ == root@ ==> known,
        held ==> exists|i: int|
            0 <= i < after@.len() && (#[trigger] after@[i]).device == device@ && after@[i].path
                == path@ && after@[i].size == size && after@[i].mtime == mtime,
{
    let rows = old(store)@;
    lemma_recorded_is_held(rows, row@);
    let last = after@.len() - 1;
    assert(after@[last] == row@);
    if row.device_key_hex@ == device@ && row.source_path@ == path@ && row.size == size && row.mtime
        == mtime {
        assert(names_file(after@[last], device@, path@, size, mtime));
    }
    if row.root@ == root@ {
        assert(after@[last].root == root@);
    }
    if held {
        let i = choose|i: int|
            0 <= i < after@.len() && names_file(#[trigger] after@[i], device@, path@, size, mtime);
        assert(after@[i].device == device@);
    }
}

/// What is stored is what was held, once it is read again.
pub proof fn lemma_held_files_are_remembered(
    store: &HeldStore,
    bytes: Vec<u8>,
    file: &[u8],
    again: HeldStore,
)
    requires
        store.wf(),
        forall|i: int| 0 <= i < store@.len() ==> storable(#[trigger] store@[i]),
        call_ensures(HeldStore::save, (store,), bytes),
        file@ == bytes@,
        call_ensures(HeldStore::load, (Some(file),), again),
    ensures
        again@ == store@,
{
    lemma_index_round_trip(store@);
}

} // verus!
