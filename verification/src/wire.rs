//! The encoding the stored records share: big endian integers, and texts and
//! byte strings behind a four byte length.

use crate::text::utf8_text;
use vstd::prelude::*;
use vstd::slice::{slice_subrange, slice_to_vec};
use vstd::string::StringSliceAdditionalSpecFns;
use vstd::utf8::{
    decode_utf8, encode_utf8, encode_utf8_decode_utf8, encode_utf8_valid_utf8, valid_utf8,
};

verus! {

/// The four bytes of `n`, highest first.
#[verifier::opaque]
pub open spec fn be32(n: u32) -> Seq<u8> {
    seq![
        (n / 16_777_216) as u8,
        (n / 65_536 % 256) as u8,
        (n / 256 % 256) as u8,
        (n % 256) as u8,
    ]
}

/// The eight bytes of `n`, highest first.
#[verifier::opaque]
pub open spec fn be64(n: u64) -> Seq<u8> {
    be32((n / 4_294_967_296) as u32) + be32((n % 4_294_967_296) as u32)
}

/// The number that four bytes spell, highest first.
#[verifier::opaque]
pub open spec fn value32(b: Seq<u8>) -> u32 {
    (b[0] * 16_777_216 + b[1] * 65_536 + b[2] * 256 + b[3]) as u32
}

/// The number that eight bytes spell, highest first.
#[verifier::opaque]
pub open spec fn value64(b: Seq<u8>) -> u64 {
    (value32(b.take(4)) * 4_294_967_296 + value32(b.skip(4))) as u64
}

/// A length as it is written.
pub open spec fn len32(n: nat) -> u32 {
    if n > u32::MAX {
        u32::MAX
    } else {
        n as u32
    }
}

/// A byte string behind its length.
pub open spec fn framed(bytes: Seq<u8>) -> Seq<u8> {
    be32(len32(bytes.len())) + bytes
}

/// A text behind its length.
pub open spec fn text_bytes(text: Seq<char>) -> Seq<u8> {
    framed(encode_utf8(text))
}

/// A signed number as the bit pattern that is written for it.
pub open spec fn bits_of(n: i64) -> u64 {
    if n < 0 {
        (n + 18_446_744_073_709_551_616) as u64
    } else {
        n as u64
    }
}

/// The signed number that a bit pattern stands for.
pub open spec fn signed_of(n: u64) -> i64 {
    if n > i64::MAX {
        (n - 18_446_744_073_709_551_616) as i64
    } else {
        n as i64
    }
}

/// A byte, and what follows it.
pub open spec fn read_u8(b: Seq<u8>) -> Option<(u8, Seq<u8>)> {
    if b.len() < 1 {
        None
    } else {
        Some((b[0], b.skip(1)))
    }
}

/// A four byte number, and what follows it.
pub open spec fn read_u32(b: Seq<u8>) -> Option<(u32, Seq<u8>)> {
    if b.len() < 4 {
        None
    } else {
        Some((value32(b.take(4)), b.skip(4)))
    }
}

/// An eight byte number, and what follows it.
pub open spec fn read_u64(b: Seq<u8>) -> Option<(u64, Seq<u8>)> {
    if b.len() < 8 {
        None
    } else {
        Some((value64(b.take(8)), b.skip(8)))
    }
}

/// `n` bytes, and what follows them.
pub open spec fn read_fixed(b: Seq<u8>, n: nat) -> Option<(Seq<u8>, Seq<u8>)> {
    if b.len() < n {
        None
    } else {
        Some((b.take(n as int), b.skip(n as int)))
    }
}

/// A byte string of at most `max` bytes behind its length, and what follows
/// it.
pub open spec fn read_bytes(b: Seq<u8>, max: nat) -> Option<(Seq<u8>, Seq<u8>)> {
    match read_u32(b) {
        None => None,
        Some((n, rest)) => if n > max {
            None
        } else {
            read_fixed(rest, n as nat)
        },
    }
}

/// A text of at most `max` bytes behind its length, and what follows it.
pub open spec fn read_text(b: Seq<u8>, max: nat) -> Option<(Seq<char>, Seq<u8>)> {
    match read_bytes(b, max) {
        None => None,
        Some((bytes, rest)) => if valid_utf8(bytes) {
            Some((decode_utf8(bytes), rest))
        } else {
            None
        },
    }
}

// ---------------------------------------------------------------------------
// What was written is read back.
// ---------------------------------------------------------------------------

/// Four bytes spell the number they were made from.
proof fn lemma_value32(n: u32)
    ensures
        value32(be32(n)) == n,
        be32(n).len() == 4,
{
    reveal(be32);
    reveal(value32);
}

/// A four byte number reads back.
pub proof fn lemma_read_u32(n: u32, rest: Seq<u8>)
    ensures
        read_u32(be32(n) + rest) == Some((n, rest)),
        be32(n).len() == 4,
{
    let b = be32(n) + rest;
    lemma_value32(n);
    assert(b.take(4) =~= be32(n));
    assert(b.skip(4) =~= rest);
}

/// An eight byte number reads back.
pub proof fn lemma_read_u64(n: u64, rest: Seq<u8>)
    ensures
        read_u64(be64(n) + rest) == Some((n, rest)),
        be64(n).len() == 8,
{
    let b = be64(n) + rest;
    let high = (n / 4_294_967_296) as u32;
    let low = (n % 4_294_967_296) as u32;
    reveal(be64);
    reveal(value64);
    lemma_value32(high);
    lemma_value32(low);
    assert(b.take(8) =~= be64(n));
    assert(b.skip(8) =~= rest);
    assert(be64(n).take(4) =~= be32(high));
    assert(be64(n).skip(4) =~= be32(low));
    assert(high * 4_294_967_296 + low == n);
}

/// A byte reads back.
pub proof fn lemma_read_u8(n: u8, rest: Seq<u8>)
    ensures
        read_u8(seq![n] + rest) == Some((n, rest)),
{
    assert((seq![n] + rest).skip(1) =~= rest);
}

/// Bytes of a known number read back.
pub proof fn lemma_read_fixed(bytes: Seq<u8>, rest: Seq<u8>)
    ensures
        read_fixed(bytes + rest, bytes.len()) == Some((bytes, rest)),
{
    assert((bytes + rest).take(bytes.len() as int) =~= bytes);
    assert((bytes + rest).skip(bytes.len() as int) =~= rest);
}

/// A byte string within the bound reads back.
pub proof fn lemma_read_bytes(bytes: Seq<u8>, rest: Seq<u8>, max: nat)
    requires
        bytes.len() <= max,
        bytes.len() <= u32::MAX,
    ensures
        read_bytes(framed(bytes) + rest, max) == Some((bytes, rest)),
{
    assert(framed(bytes) + rest =~= be32(len32(bytes.len())) + (bytes + rest));
    lemma_read_u32(len32(bytes.len()), bytes + rest);
    lemma_read_fixed(bytes, rest);
}

/// A text within the bound reads back.
pub proof fn lemma_read_text(text: Seq<char>, rest: Seq<u8>, max: nat)
    requires
        encode_utf8(text).len() <= max,
        encode_utf8(text).len() <= u32::MAX,
    ensures
        read_text(text_bytes(text) + rest, max) == Some((text, rest)),
{
    lemma_read_bytes(encode_utf8(text), rest, max);
    encode_utf8_valid_utf8(text);
    encode_utf8_decode_utf8(text);
}

/// A signed number is its bit pattern's.
pub proof fn lemma_signed(n: i64)
    ensures
        signed_of(bits_of(n)) == n,
{
}

// ---------------------------------------------------------------------------
// Rows, one after another.
// ---------------------------------------------------------------------------

/// The bytes of some rows, one after another.
pub open spec fn rows_bytes<T>(rows: Seq<T>, write: spec_fn(T) -> Seq<u8>) -> Seq<u8>
    decreases rows.len(),
{
    if rows.len() == 0 {
        Seq::empty()
    } else {
        rows_bytes(rows.drop_last(), write) + write(rows.last())
    }
}

/// `n` rows, and what follows them.
pub open spec fn read_rows<T>(
    b: Seq<u8>,
    n: nat,
    read: spec_fn(Seq<u8>) -> Option<(T, Seq<u8>)>,
) -> Option<(Seq<T>, Seq<u8>)>
    decreases n,
{
    if n == 0 {
        Some((Seq::empty(), b))
    } else {
        match read(b) {
            None => None,
            Some((row, rest)) => match read_rows(rest, (n - 1) as nat, read) {
                None => None,
                Some((rows, rest)) => Some((seq![row] + rows, rest)),
            },
        }
    }
}

/// As many rows are read as were asked for.
pub proof fn lemma_rows_count<T>(
    b: Seq<u8>,
    n: nat,
    read: spec_fn(Seq<u8>) -> Option<(T, Seq<u8>)>,
)
    ensures
        read_rows(b, n, read) matches Some((rows, _)) ==> rows.len() == n,
    decreases n,
{
    if n > 0 && read(b) is Some {
        lemma_rows_count((read(b)->0).1, (n - 1) as nat, read);
    }
}

/// One row more.
pub proof fn lemma_rows_step<T>(rows: Seq<T>, write: spec_fn(T) -> Seq<u8>, n: int)
    requires
        0 <= n < rows.len(),
    ensures
        rows_bytes(rows.take(n + 1), write) == rows_bytes(rows.take(n), write) + write(rows[n]),
{
    assert(rows.take(n + 1).drop_last() =~= rows.take(n));
    assert(rows.take(n + 1).last() == rows[n]);
}

/// What reads a byte reads it whatever follows.
pub proof fn lemma_more_u8(b: Seq<u8>, more: Seq<u8>)
    ensures
        read_u8(b) matches Some((n, rest)) ==> read_u8(b + more) == Some((n, rest + more)),
{
    if b.len() >= 1 {
        assert((b + more).skip(1) =~= b.skip(1) + more);
    }
}

/// What reads a four byte number reads it whatever follows.
pub proof fn lemma_more_u32(b: Seq<u8>, more: Seq<u8>)
    ensures
        read_u32(b) matches Some((n, rest)) ==> read_u32(b + more) == Some((n, rest + more)),
{
    if b.len() >= 4 {
        assert((b + more).take(4) =~= b.take(4));
        assert((b + more).skip(4) =~= b.skip(4) + more);
    }
}

/// What reads an eight byte number reads it whatever follows.
pub proof fn lemma_more_u64(b: Seq<u8>, more: Seq<u8>)
    ensures
        read_u64(b) matches Some((n, rest)) ==> read_u64(b + more) == Some((n, rest + more)),
{
    if b.len() >= 8 {
        assert((b + more).take(8) =~= b.take(8));
        assert((b + more).skip(8) =~= b.skip(8) + more);
    }
}

/// What reads a text reads it whatever follows.
pub proof fn lemma_more_text(b: Seq<u8>, more: Seq<u8>, max: nat)
    ensures
        read_text(b, max) matches Some((text, rest)) ==> read_text(b + more, max) == Some(
            (text, rest + more),
        ),
{
    if read_text(b, max) is Some {
        lemma_more_u32(b, more);
        let (n, rest) = read_u32(b)->0;
        assert((rest + more).take(n as int) =~= rest.take(n as int));
        assert((rest + more).skip(n as int) =~= rest.skip(n as int) + more);
    }
}

/// What reads some rows reads them whatever follows, where that holds of one.
pub proof fn lemma_more_rows<T>(
    b: Seq<u8>,
    n: nat,
    read: spec_fn(Seq<u8>) -> Option<(T, Seq<u8>)>,
    more: Seq<u8>,
)
    requires
        forall|b: Seq<u8>|
            (#[trigger] read(b)) matches Some((row, rest)) ==> read(b + more) == Some(
                (row, rest + more),
            ),
    ensures
        read_rows(b, n, read) matches Some((rows, rest)) ==> read_rows(b + more, n, read) == Some(
            (rows, rest + more),
        ),
    decreases n,
{
    if n > 0 && read_rows(b, n, read) is Some {
        let (row, rest) = read(b)->0;
        lemma_more_rows(rest, (n - 1) as nat, read, more);
    }
}

/// The first row comes first.
proof fn lemma_rows_front<T>(rows: Seq<T>, write: spec_fn(T) -> Seq<u8>)
    requires
        rows.len() > 0,
    ensures
        rows_bytes(rows, write) == write(rows[0]) + rows_bytes(rows.drop_first(), write),
    decreases rows.len(),
{
    if rows.len() == 1 {
        assert(rows.drop_last() =~= Seq::<T>::empty());
        assert(rows.drop_first() =~= Seq::<T>::empty());
        assert(rows_bytes(rows, write) =~= write(rows[0]) + rows_bytes(rows.drop_first(), write));
    } else {
        lemma_rows_front(rows.drop_last(), write);
        assert(rows.drop_last().drop_first() =~= rows.drop_first().drop_last());
        assert(rows.drop_first().last() == rows.last());
        assert(rows_bytes(rows, write) =~= write(rows[0]) + (rows_bytes(
            rows.drop_first().drop_last(),
            write,
        ) + write(rows.last())));
    }
}

/// Rows that read back one by one read back together.
pub proof fn lemma_read_rows<T>(
    rows: Seq<T>,
    write: spec_fn(T) -> Seq<u8>,
    read: spec_fn(Seq<u8>) -> Option<(T, Seq<u8>)>,
    rest: Seq<u8>,
)
    requires
        forall|i: int, more: Seq<u8>|
            0 <= i < rows.len() ==> #[trigger] read(write(rows[i]) + more) == Some((rows[i], more)),
    ensures
        read_rows(rows_bytes(rows, write) + rest, rows.len(), read) == Some((rows, rest)),
    decreases rows.len(),
{
    if rows.len() == 0 {
        assert(rows_bytes(rows, write) + rest =~= rest);
        assert(rows =~= Seq::<T>::empty());
    } else {
        let left = rows.drop_first();
        lemma_rows_front(rows, write);
        assert forall|i: int, more: Seq<u8>| 0 <= i < left.len() implies #[trigger] read(
            write(left[i]) + more,
        ) == Some((left[i], more)) by {
            assert(left[i] == rows[i + 1]);
            assert(read(write(rows[i + 1]) + more) == Some((rows[i + 1], more)));
        }
        lemma_read_rows(left, write, read, rest);
        let after = rows_bytes(left, write) + rest;
        assert(rows_bytes(rows, write) + rest =~= write(rows[0]) + after);
        assert(read(write(rows[0]) + after) == Some((rows[0], after)));
        assert(seq![rows[0]] + left =~= rows);
    }
}

// ---------------------------------------------------------------------------
// Writing.
// ---------------------------------------------------------------------------

/// The bit pattern that is written for a signed number.
pub fn encode_i64(value: i64) -> (bits: u64)
    ensures
        bits == bits_of(value),
{
    if value < 0 {
        18_446_744_073_709_551_615 - ((-(value + 1)) as u64)
    } else {
        value as u64
    }
}

/// The signed number that a bit pattern stands for.
pub fn decode_i64(bits: u64) -> (value: i64)
    ensures
        value == signed_of(bits),
{
    if bits > 9_223_372_036_854_775_807 {
        -((18_446_744_073_709_551_615 - bits) as i64) - 1
    } else {
        bits as i64
    }
}

/// A length as it is written.
pub fn written_len(n: usize) -> (len: u32)
    ensures
        len == len32(n as nat),
{
    if n > 4_294_967_295 {
        4_294_967_295
    } else {
        n as u32
    }
}

/// Appends the four bytes of `n`.
pub fn put_u32(out: &mut Vec<u8>, n: u32)
    ensures
        final(out)@ == old(out)@ + be32(n),
{
    out.push((n / 16_777_216) as u8);
    out.push((n / 65_536 % 256) as u8);
    out.push((n / 256 % 256) as u8);
    out.push((n % 256) as u8);
    reveal(be32);
    assert(out@ =~= old(out)@ + be32(n));
}

/// Appends the eight bytes of `n`.
pub fn put_u64(out: &mut Vec<u8>, n: u64)
    ensures
        final(out)@ == old(out)@ + be64(n),
{
    put_u32(out, (n / 4_294_967_296) as u32);
    put_u32(out, (n % 4_294_967_296) as u32);
    reveal(be64);
    assert(out@ =~= old(out)@ + be64(n));
}

/// Appends bytes as they are.
pub fn put_fixed(out: &mut Vec<u8>, bytes: &[u8])
    ensures
        final(out)@ == old(out)@ + bytes@,
{
    let mut i: usize = 0;
    assert(out@ =~= old(out)@ + bytes@.take(0));
    while i < bytes.len()
        invariant
            i <= bytes.len(),
            out@ == old(out)@ + bytes@.take(i as int),
        decreases bytes.len() - i,
    {
        out.push(bytes[i]);
        i += 1;
        assert(out@ =~= old(out)@ + bytes@.take(i as int));
    }
    assert(bytes@.take(bytes@.len() as int) =~= bytes@);
}

/// Appends a byte string behind its length.
pub fn put_bytes(out: &mut Vec<u8>, bytes: &[u8])
    ensures
        final(out)@ == old(out)@ + framed(bytes@),
{
    put_u32(out, written_len(bytes.len()));
    put_fixed(out, bytes);
    assert(out@ =~= old(out)@ + framed(bytes@));
}

/// Appends a text behind its length.
pub fn put_text(out: &mut Vec<u8>, text: &str)
    ensures
        final(out)@ == old(out)@ + text_bytes(text@),
{
    put_bytes(out, text.as_bytes());
}

// ---------------------------------------------------------------------------
// Reading.
// ---------------------------------------------------------------------------

/// A place in some bytes that are being read.
pub struct Decoder<'a> {
    bytes: &'a [u8],
    at: usize,
}

impl<'a> Decoder<'a> {
    pub closed spec fn wf(self) -> bool {
        self.at <= self.bytes@.len()
    }

    /// What has not been read yet.
    pub closed spec fn rest(self) -> Seq<u8> {
        self.bytes@.skip(self.at as int)
    }

    /// At the start of `bytes`.
    pub fn new(bytes: &'a [u8]) -> (decoder: Decoder<'a>)
        ensures
            decoder.wf(),
            decoder.rest() == bytes@,
    {
        let decoder = Decoder { bytes, at: 0 };
        assert(decoder.rest() =~= bytes@);
        decoder
    }

    /// How many bytes have not been read yet.
    pub fn remaining(&self) -> (left: usize)
        requires
            self.wf(),
        ensures
            left == self.rest().len(),
    {
        self.bytes.len() - self.at
    }

    /// The next byte.
    pub fn u8(&mut self) -> (value: Option<u8>)
        requires
            old(self).wf(),
        ensures
            final(self).wf(),
            match value {
                Some(v) => read_u8(old(self).rest()) == Some((v, final(self).rest())),
                None => read_u8(old(self).rest()) is None,
            },
    {
        if self.at >= self.bytes.len() {
            return None;
        }
        let value: u8 = self.bytes[self.at];
        self.at = self.at + 1;
        assert(self.rest() =~= old(self).rest().skip(1));
        Some(value)
    }

    /// The next four byte number.
    pub fn u32(&mut self) -> (value: Option<u32>)
        requires
            old(self).wf(),
        ensures
            final(self).wf(),
            match value {
                Some(v) => read_u32(old(self).rest()) == Some((v, final(self).rest())),
                None => read_u32(old(self).rest()) is None,
            },
    {
        if self.bytes.len() - self.at < 4 {
            return None;
        }
        let a: u32 = self.bytes[self.at] as u32;
        let b: u32 = self.bytes[self.at + 1] as u32;
        let c: u32 = self.bytes[self.at + 2] as u32;
        let d: u32 = self.bytes[self.at + 3] as u32;
        self.at = self.at + 4;
        reveal(value32);
        assert(self.rest() =~= old(self).rest().skip(4));
        Some(a * 16_777_216 + b * 65_536 + c * 256 + d)
    }

    /// The next eight byte number.
    pub fn u64(&mut self) -> (value: Option<u64>)
        requires
            old(self).wf(),
        ensures
            final(self).wf(),
            match value {
                Some(v) => read_u64(old(self).rest()) == Some((v, final(self).rest())),
                None => read_u64(old(self).rest()) is None,
            },
    {
        if self.bytes.len() - self.at < 8 {
            return None;
        }
        let ghost b = self.rest();
        reveal(value64);
        assert(b.take(8).take(4) =~= b.take(4));
        assert(b.take(8).skip(4) =~= b.skip(4).take(4));
        assert(b.skip(4).skip(4) =~= b.skip(8));
        let high: u32 = self.u32().unwrap();
        let low: u32 = self.u32().unwrap();
        Some((high as u64) * 4_294_967_296 + (low as u64))
    }

    /// The next `n` bytes.
    pub fn fixed(&mut self, n: usize) -> (value: Option<Vec<u8>>)
        requires
            old(self).wf(),
        ensures
            final(self).wf(),
            match value {
                Some(v) => read_fixed(old(self).rest(), n as nat) == Some((v@, final(self).rest())),
                None => read_fixed(old(self).rest(), n as nat) is None,
            },
    {
        if self.bytes.len() - self.at < n {
            return None;
        }
        let part = slice_subrange(self.bytes, self.at, self.at + n);
        let value = slice_to_vec(part);
        self.at = self.at + n;
        assert(self.rest() =~= old(self).rest().skip(n as int));
        assert(value@ =~= old(self).rest().take(n as int));
        Some(value)
    }

    /// The next byte string of at most `max` bytes.
    pub fn bytes(&mut self, max: usize) -> (value: Option<Vec<u8>>)
        requires
            old(self).wf(),
        ensures
            final(self).wf(),
            match value {
                Some(v) => read_bytes(old(self).rest(), max as nat) == Some(
                    (v@, final(self).rest()),
                ),
                None => read_bytes(old(self).rest(), max as nat) is None,
            },
    {
        match self.u32() {
            None => None,
            Some(n) => {
                if n as usize > max {
                    None
                } else {
                    self.fixed(n as usize)
                }
            },
        }
    }

    /// The next text of at most `max` bytes.
    pub fn text(&mut self, max: usize) -> (value: Option<String>)
        requires
            old(self).wf(),
        ensures
            final(self).wf(),
            match value {
                Some(v) => read_text(old(self).rest(), max as nat) == Some((v@, final(self).rest())),
                None => read_text(old(self).rest(), max as nat) is None,
            },
    {
        match self.bytes(max) {
            None => None,
            Some(bytes) => utf8_text(bytes),
        }
    }
}

} // verus!
