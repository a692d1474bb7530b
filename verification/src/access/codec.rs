//! The bytes of a day file.

use crate::limits::MAX_PATH_LEN;
use crate::types::{AccessVerb, Actor};
use crate::wire::{
    be32, be64, bits_of, decode_i64, encode_i64, framed, lemma_read_bytes, lemma_read_text,
    lemma_read_u32, lemma_read_u64, lemma_read_u8, lemma_signed, len32, put_text, put_u32, put_u64,
    read_bytes, read_text, read_u32, read_u64, read_u8, signed_of, text_bytes, Decoder,
};
use vstd::prelude::*;
use vstd::slice::slice_subrange;
use vstd::utf8::encode_utf8;

verus! {

/// The version byte every day file starts with.
pub const FORMAT_VERSION: u8 = 1;

/// The length of a device key in hexadecimal.
pub const MAX_DEVICE_KEY_HEX_LEN: usize = 64;

/// The most bytes one entry may take, well over the largest there is.
pub const MAX_ENTRY_FRAME_BYTES: usize = 2048;

/// Why a day file could not be read.
#[derive(Debug, Clone, Copy, PartialEq, Eq, Structural)]
pub enum AccessLogError {
    /// Its version byte names no format this build knows.
    UnknownFormat(u8),
}

/// The byte a verb is stored as.
pub open spec fn verb_byte(verb: AccessVerb) -> u8 {
    match verb {
        AccessVerb::List => 0,
        AccessVerb::Stat => 1,
        AccessVerb::Read => 2,
        AccessVerb::Write => 3,
        AccessVerb::Truncate => 4,
        AccessVerb::Rename => 5,
        AccessVerb::Mkdir => 6,
        AccessVerb::Delete => 7,
    }
}

/// The byte an actor is stored as.
pub open spec fn actor_byte(actor: Actor) -> u8 {
    match actor {
        Actor::Peer => 0,
        Actor::This => 1,
    }
}

impl AccessVerb {
    /// The byte this verb is stored as.
    pub fn to_byte(self) -> (byte: u8)
        ensures
            byte == verb_byte(self),
    {
        match self {
            AccessVerb::List => 0,
            AccessVerb::Stat => 1,
            AccessVerb::Read => 2,
            AccessVerb::Write => 3,
            AccessVerb::Truncate => 4,
            AccessVerb::Rename => 5,
            AccessVerb::Mkdir => 6,
            AccessVerb::Delete => 7,
        }
    }

    /// The verb a stored byte names.
    pub fn from_byte(byte: u8) -> (verb: Option<AccessVerb>)
        ensures
            verb == verb_of(byte),
    {
        match byte {
            0 => Some(AccessVerb::List),
            1 => Some(AccessVerb::Stat),
            2 => Some(AccessVerb::Read),
            3 => Some(AccessVerb::Write),
            4 => Some(AccessVerb::Truncate),
            5 => Some(AccessVerb::Rename),
            6 => Some(AccessVerb::Mkdir),
            7 => Some(AccessVerb::Delete),
            _ => None,
        }
    }
}

impl Actor {
    /// The byte this actor is stored as.
    pub fn to_byte(self) -> (byte: u8)
        ensures
            byte == actor_byte(self),
    {
        match self {
            Actor::Peer => 0,
            Actor::This => 1,
        }
    }

    /// The actor a stored byte names.
    pub fn from_byte(byte: u8) -> (actor: Option<Actor>)
        ensures
            actor == actor_of(byte),
    {
        match byte {
            0 => Some(Actor::Peer),
            1 => Some(Actor::This),
            _ => None,
        }
    }
}

/// The verb a stored byte names.
pub open spec fn verb_of(byte: u8) -> Option<AccessVerb> {
    if byte == 0 {
        Some(AccessVerb::List)
    } else if byte == 1 {
        Some(AccessVerb::Stat)
    } else if byte == 2 {
        Some(AccessVerb::Read)
    } else if byte == 3 {
        Some(AccessVerb::Write)
    } else if byte == 4 {
        Some(AccessVerb::Truncate)
    } else if byte == 5 {
        Some(AccessVerb::Rename)
    } else if byte == 6 {
        Some(AccessVerb::Mkdir)
    } else if byte == 7 {
        Some(AccessVerb::Delete)
    } else {
        None
    }
}

/// The actor a stored byte names.
pub open spec fn actor_of(byte: u8) -> Option<Actor> {
    if byte == 0 {
        Some(Actor::Peer)
    } else if byte == 1 {
        Some(Actor::This)
    } else {
        None
    }
}

/// What one access log entry says happened, other than when and where in its
/// day file it landed.
#[derive(Debug)]
pub struct EntryFields {
    /// The paired device, as 64 lowercase hex characters.
    pub device_key_hex: String,
    pub actor: Actor,
    pub verb: AccessVerb,
    /// Root-relative, beginning with the root name.
    pub path: String,
    /// Bytes moved, for a read or a write.
    pub bytes: Option<u64>,
    /// How many entries a listing returned.
    pub entries: Option<u32>,
    /// How many files a folder copy covered.
    pub files: Option<u32>,
}

/// What is known of one entry's fields.
pub struct FieldsView {
    pub device: Seq<char>,
    pub actor: Actor,
    pub verb: AccessVerb,
    pub path: Seq<char>,
    pub bytes: Option<u64>,
    pub entries: Option<u32>,
    pub files: Option<u32>,
}

impl View for EntryFields {
    type V = FieldsView;

    open spec fn view(&self) -> FieldsView {
        FieldsView {
            device: self.device_key_hex@,
            actor: self.actor,
            verb: self.verb,
            path: self.path@,
            bytes: self.bytes,
            entries: self.entries,
            files: self.files,
        }
    }
}

/// One entry as it is read back from a day file.
#[derive(Debug)]
pub struct StoredEntry {
    pub fields: EntryFields,
    pub at_unix_secs: i64,
}

/// What is known of one entry of a day file.
pub struct StoredView {
    pub fields: FieldsView,
    pub at: i64,
}

impl View for StoredEntry {
    type V = StoredView;

    open spec fn view(&self) -> StoredView {
        StoredView { fields: self.fields@, at: self.at_unix_secs }
    }
}

/// The entries of a day file.
pub open spec fn stored_views(entries: Seq<StoredEntry>) -> Seq<StoredView> {
    entries.map_values(|e: StoredEntry| e@)
}

// ---------------------------------------------------------------------------
// One entry.
// ---------------------------------------------------------------------------

/// An optional eight byte count: a presence byte and the count, or zero.
#[verifier::opaque]
pub open spec fn option64_bytes(value: Option<u64>) -> Seq<u8> {
    match value {
        Some(v) => seq![1u8] + be64(v),
        None => seq![0u8] + be64(0),
    }
}

/// An optional four byte count: a presence byte and the count, or zero.
#[verifier::opaque]
pub open spec fn option32_bytes(value: Option<u32>) -> Seq<u8> {
    match value {
        Some(v) => seq![1u8] + be32(v),
        None => seq![0u8] + be32(0),
    }
}

/// An optional eight byte count, and what follows it.
#[verifier::opaque]
pub open spec fn read_option64(b: Seq<u8>) -> Option<(Option<u64>, Seq<u8>)> {
    match read_u8(b) {
        None => None,
        Some((present, rest)) => match read_u64(rest) {
            None => None,
            Some((v, rest)) => Some(
                (
                    if present == 0 {
                        None
                    } else {
                        Some(v)
                    },
                    rest,
                ),
            ),
        },
    }
}

/// An optional four byte count, and what follows it.
#[verifier::opaque]
pub open spec fn read_option32(b: Seq<u8>) -> Option<(Option<u32>, Seq<u8>)> {
    match read_u8(b) {
        None => None,
        Some((present, rest)) => match read_u32(rest) {
            None => None,
            Some((v, rest)) => Some(
                (
                    if present == 0 {
                        None
                    } else {
                        Some(v)
                    },
                    rest,
                ),
            ),
        },
    }
}

/// The counts and the time that end an entry.
#[verifier::opaque]
pub open spec fn tail_bytes(entry: StoredView) -> Seq<u8> {
    option64_bytes(entry.fields.bytes) + (option32_bytes(entry.fields.entries) + (option32_bytes(
        entry.fields.files,
    ) + be64(bits_of(entry.at))))
}

/// The bytes of one entry.
#[verifier::opaque]
pub open spec fn entry_bytes(entry: StoredView) -> Seq<u8> {
    text_bytes(entry.fields.device) + (seq![actor_byte(entry.fields.actor)] + (seq![
        verb_byte(entry.fields.verb),
    ] + (text_bytes(entry.fields.path) + tail_bytes(entry))))
}

/// The counts and the time that end an entry.
#[verifier::opaque]
pub open spec fn read_tail(b: Seq<u8>) -> Option<(Option<u64>, Option<u32>, Option<u32>, i64)> {
    match read_option64(b) {
        None => None,
        Some((bytes, b)) => match read_option32(b) {
            None => None,
            Some((entries, b)) => match read_option32(b) {
                None => None,
                Some((files, b)) => match read_u64(b) {
                    None => None,
                    Some((at, b)) => if b.len() > 0 {
                        None
                    } else {
                        Some((bytes, entries, files, signed_of(at)))
                    },
                },
            },
        },
    }
}

/// The entry that some bytes are, with none left over.
#[verifier::opaque]
pub open spec fn read_entry(b: Seq<u8>) -> Option<StoredView> {
    match read_text(b, MAX_DEVICE_KEY_HEX_LEN as nat) {
        None => None,
        Some((device, b)) => match read_u8(b) {
            None => None,
            Some((actor, b)) => match actor_of(actor) {
                None => None,
                Some(actor) => match read_u8(b) {
                    None => None,
                    Some((verb, b)) => match verb_of(verb) {
                        None => None,
                        Some(verb) => match read_text(b, MAX_PATH_LEN as nat) {
                            None => None,
                            Some((path, b)) => match read_tail(b) {
                                None => None,
                                Some((bytes, entries, files, at)) => Some(
                                    StoredView {
                                        fields: FieldsView {
                                            device,
                                            actor,
                                            verb,
                                            path,
                                            bytes,
                                            entries,
                                            files,
                                        },
                                        at,
                                    },
                                ),
                            },
                        },
                    },
                },
            },
        },
    }
}

/// An entry whose texts are within their bounds.
pub open spec fn storable(fields: FieldsView) -> bool {
    encode_utf8(fields.device).len() <= MAX_DEVICE_KEY_HEX_LEN && encode_utf8(fields.path).len()
        <= MAX_PATH_LEN
}

proof fn lemma_option64(value: Option<u64>, rest: Seq<u8>)
    ensures
        read_option64(option64_bytes(value) + rest) == Some((value, rest)),
        option64_bytes(value).len() == 9,
{
    reveal(option64_bytes);
    reveal(read_option64);
    let v = match value {
        Some(v) => v,
        None => 0,
    };
    let flag: u8 = if value is Some {
        1
    } else {
        0
    };
    assert(option64_bytes(value) + rest =~= seq![flag] + (be64(v) + rest));
    lemma_read_u8(flag, be64(v) + rest);
    lemma_read_u64(v, rest);
}

proof fn lemma_option32(value: Option<u32>, rest: Seq<u8>)
    ensures
        read_option32(option32_bytes(value) + rest) == Some((value, rest)),
        option32_bytes(value).len() == 5,
{
    reveal(option32_bytes);
    reveal(read_option32);
    let v = match value {
        Some(v) => v,
        None => 0,
    };
    let flag: u8 = if value is Some {
        1
    } else {
        0
    };
    assert(option32_bytes(value) + rest =~= seq![flag] + (be32(v) + rest));
    lemma_read_u8(flag, be32(v) + rest);
    lemma_read_u32(v, rest);
}

proof fn lemma_tail(entry: StoredView)
    ensures
        read_tail(tail_bytes(entry)) == Some(
            (entry.fields.bytes, entry.fields.entries, entry.fields.files, entry.at),
        ),
        tail_bytes(entry).len() == 27,
{
    reveal(tail_bytes);
    reveal(read_tail);
    let t3 = be64(bits_of(entry.at));
    let t2 = option32_bytes(entry.fields.files) + t3;
    let t1 = option32_bytes(entry.fields.entries) + t2;
    lemma_option64(entry.fields.bytes, t1);
    lemma_option32(entry.fields.entries, t2);
    lemma_option32(entry.fields.files, t3);
    lemma_read_u64(bits_of(entry.at), Seq::empty());
    assert(t3 + Seq::<u8>::empty() =~= t3);
    lemma_signed(entry.at);
}

/// Every verb and every actor is the one its stored byte names, and no other
/// byte names one.
pub proof fn lemma_stored_bytes(verb: AccessVerb, actor: Actor, byte: u8)
    ensures
        verb_of(verb_byte(verb)) == Some(verb),
        actor_of(actor_byte(actor)) == Some(actor),
        verb_of(byte) matches Some(v) ==> verb_byte(v) == byte,
        actor_of(byte) matches Some(a) ==> actor_byte(a) == byte,
{
}

/// An entry reads back as it was written.
pub proof fn lemma_entry_round_trip(entry: StoredView)
    requires
        storable(entry.fields),
    ensures
        read_entry(entry_bytes(entry)) == Some(entry),
        entry_bytes(entry).len() <= MAX_ENTRY_FRAME_BYTES,
{
    reveal(entry_bytes);
    reveal(read_entry);
    let f = entry.fields;
    let b4 = tail_bytes(entry);
    let b3 = text_bytes(f.path) + b4;
    let b2 = seq![verb_byte(f.verb)] + b3;
    let b1 = seq![actor_byte(f.actor)] + b2;
    lemma_read_text(f.device, b1, MAX_DEVICE_KEY_HEX_LEN as nat);
    lemma_read_u8(actor_byte(f.actor), b2);
    lemma_read_u8(verb_byte(f.verb), b3);
    lemma_read_text(f.path, b4, MAX_PATH_LEN as nat);
    lemma_tail(entry);
}

fn put_option64(out: &mut Vec<u8>, value: Option<u64>)
    ensures
        final(out)@ == old(out)@ + option64_bytes(value),
{
    reveal(option64_bytes);
    match value {
        Some(v) => {
            out.push(1);
            put_u64(out, v);
        },
        None => {
            out.push(0);
            put_u64(out, 0);
        },
    }
    assert(out@ =~= old(out)@ + option64_bytes(value));
}

fn put_option32(out: &mut Vec<u8>, value: Option<u32>)
    ensures
        final(out)@ == old(out)@ + option32_bytes(value),
{
    reveal(option32_bytes);
    match value {
        Some(v) => {
            out.push(1);
            put_u32(out, v);
        },
        None => {
            out.push(0);
            put_u32(out, 0);
        },
    }
    assert(out@ =~= old(out)@ + option32_bytes(value));
}

/// The bytes of one entry. Its place in the day file is no part of them.
pub fn encode_entry(fields: &EntryFields, at_unix_secs: i64) -> (bytes: Vec<u8>)
    ensures
        bytes@ == entry_bytes(StoredView { fields: fields@, at: at_unix_secs }),
{
    reveal(entry_bytes);
    reveal(tail_bytes);
    let mut out: Vec<u8> = Vec::new();
    put_text(&mut out, fields.device_key_hex.as_str());
    out.push(fields.actor.to_byte());
    out.push(fields.verb.to_byte());
    put_text(&mut out, fields.path.as_str());
    put_option64(&mut out, fields.bytes);
    put_option32(&mut out, fields.entries);
    put_option32(&mut out, fields.files);
    put_u64(&mut out, encode_i64(at_unix_secs));
    assert(out@ =~= entry_bytes(StoredView { fields: fields@, at: at_unix_secs }));
    out
}

fn take_option64(decoder: &mut Decoder<'_>) -> (value: Option<Option<u64>>)
    requires
        old(decoder).wf(),
    ensures
        final(decoder).wf(),
        match value {
            Some(v) => read_option64(old(decoder).rest()) == Some((v, final(decoder).rest())),
            None => read_option64(old(decoder).rest()) is None,
        },
{
    reveal(read_option64);
    let present: u8 = decoder.u8()?;
    let value: u64 = decoder.u64()?;
    Some(
        if present == 0 {
            None
        } else {
            Some(value)
        },
    )
}

fn take_option32(decoder: &mut Decoder<'_>) -> (value: Option<Option<u32>>)
    requires
        old(decoder).wf(),
    ensures
        final(decoder).wf(),
        match value {
            Some(v) => read_option32(old(decoder).rest()) == Some((v, final(decoder).rest())),
            None => read_option32(old(decoder).rest()) is None,
        },
{
    reveal(read_option32);
    let present: u8 = decoder.u8()?;
    let value: u32 = decoder.u32()?;
    Some(
        if present == 0 {
            None
        } else {
            Some(value)
        },
    )
}

fn take_tail(decoder: &mut Decoder<'_>) -> (tail: Option<(Option<u64>, Option<u32>, Option<u32>, i64)>)
    requires
        old(decoder).wf(),
    ensures
        tail == read_tail(old(decoder).rest()),
{
    reveal(read_tail);
    let bytes = take_option64(decoder)?;
    let entries = take_option32(decoder)?;
    let files = take_option32(decoder)?;
    let at = decode_i64(decoder.u64()?);
    if decoder.remaining() > 0 {
        return None;
    }
    Some((bytes, entries, files, at))
}

/// The entry that `bytes` are. `None` where they are not one whole entry,
/// which is what a write that never finished looks like.
pub fn decode_entry(bytes: &[u8]) -> (entry: Option<StoredEntry>)
    ensures
        match entry {
            Some(e) => read_entry(bytes@) == Some(e@),
            None => read_entry(bytes@) is None,
        },
{
    reveal(read_entry);
    let mut decoder = Decoder::new(bytes);
    let device_key_hex = decoder.text(MAX_DEVICE_KEY_HEX_LEN)?;
    let actor = Actor::from_byte(decoder.u8()?)?;
    let verb = AccessVerb::from_byte(decoder.u8()?)?;
    let path = decoder.text(MAX_PATH_LEN)?;
    let (bytes, entries, files, at_unix_secs) = take_tail(&mut decoder)?;
    Some(
        StoredEntry {
            fields: EntryFields { device_key_hex, actor, verb, path, bytes, entries, files },
            at_unix_secs,
        },
    )
}

// ---------------------------------------------------------------------------
// A day file.
// ---------------------------------------------------------------------------

/// The whole entries at the start of some frames, and how many bytes they
/// take.
pub open spec fn read_frames(b: Seq<u8>) -> (Seq<StoredView>, nat)
    decreases b.len(),
{
    match read_bytes(b, MAX_ENTRY_FRAME_BYTES as nat) {
        None => (Seq::empty(), 0),
        Some((frame, rest)) => match read_entry(frame) {
            None => (Seq::empty(), 0),
            Some(entry) => if rest.len() < b.len() {
                let (entries, len) = read_frames(rest);
                (seq![entry] + entries, (b.len() - rest.len() + len) as nat)
            } else {
                (Seq::empty(), 0)
            },
        },
    }
}

/// The whole entries of a day file and how many of its bytes they take with
/// the version byte, or the version byte where it is unknown.
pub open spec fn read_day(b: Seq<u8>) -> Result<(Seq<StoredView>, nat), u8> {
    if b.len() == 0 {
        Ok((Seq::empty(), 0))
    } else if b[0] != FORMAT_VERSION {
        Err(b[0])
    } else {
        let (entries, len) = read_frames(b.skip(1));
        Ok((entries, 1 + len))
    }
}

/// What [`read_frames`] reads is never more than there is.
pub proof fn lemma_frames_len(b: Seq<u8>)
    ensures
        read_frames(b).1 <= b.len(),
        read_frames(b).0.len() <= read_frames(b).1,
    decreases b.len(),
{
    match read_bytes(b, MAX_ENTRY_FRAME_BYTES as nat) {
        None => {},
        Some((frame, rest)) => {
            if rest.len() < b.len() {
                lemma_frames_len(rest);
            }
        },
    }
}

/// Every whole entry of a day file, in the order they were written, and how
/// many leading bytes of the file they take with the version byte. Reading
/// stops at the first entry that is not whole.
pub fn decode_day_file(bytes: &[u8]) -> (day: Result<(Vec<StoredEntry>, usize), AccessLogError>)
    ensures
        match day {
            Ok((entries, good_len)) => read_day(bytes@) == Ok::<_, u8>(
                (stored_views(entries@), good_len as nat),
            ) && good_len <= bytes@.len(),
            Err(AccessLogError::UnknownFormat(v)) => read_day(bytes@) == Err::<
                (Seq<StoredView>, nat),
                u8,
            >(v),
        },
{
    if bytes.len() == 0 {
        let entries: Vec<StoredEntry> = Vec::new();
        assert(stored_views(entries@) =~= Seq::<StoredView>::empty());
        return Ok((entries, 0));
    }
    if bytes[0] != FORMAT_VERSION {
        return Err(AccessLogError::UnknownFormat(bytes[0]));
    }
    let body = slice_subrange(bytes, 1, bytes.len());
    assert(body@ =~= bytes@.skip(1));
    let mut decoder = Decoder::new(body);
    let mut out: Vec<StoredEntry> = Vec::new();
    let mut good: usize = 0;
    proof {
        lemma_frames_len(body@);
        assert(stored_views(out@) + read_frames(body@).0 =~= read_frames(body@).0);
    }
    loop
        invariant_except_break
            stored_views(out@) + read_frames(decoder.rest()).0 == read_frames(body@).0,
            good + read_frames(decoder.rest()).1 == read_frames(body@).1,
        invariant
            decoder.wf(),
            body@ == bytes@.skip(1),
            bytes@.len() > 0,
            read_frames(body@).1 <= body@.len(),
        ensures
            stored_views(out@) == read_frames(body@).0,
            good == read_frames(body@).1,
        decreases decoder.rest().len(),
    {
        let before: usize = decoder.remaining();
        let ghost b = decoder.rest();
        let total: usize = bytes.len();
        let ghost out_before = stored_views(out@);
        proof {
            lemma_frames_len(b);
        }
        let frame = match decoder.bytes(MAX_ENTRY_FRAME_BYTES) {
            Some(frame) => frame,
            None => {
                assert(stored_views(out@) =~= read_frames(body@).0);
                break;
            },
        };
        let entry = match decode_entry(frame.as_slice()) {
            Some(entry) => entry,
            None => {
                assert(stored_views(out@) =~= read_frames(body@).0);
                break;
            },
        };
        let ghost e = entry@;
        out.push(entry);
        proof {
            lemma_read_bytes_longer(b, Seq::empty(), MAX_ENTRY_FRAME_BYTES as nat);
            lemma_frames_len(decoder.rest());
        }
        good = good + (before - decoder.remaining());
        proof {
            assert(stored_views(out@) =~= out_before.push(e));
            assert(stored_views(out@) + read_frames(decoder.rest()).0 =~= out_before + (seq![e]
                + read_frames(decoder.rest()).0));
        }
    }
    Ok((out, 1 + good))
}

// ---------------------------------------------------------------------------
// What appending does to a day file.
// ---------------------------------------------------------------------------

/// More bytes after a byte string leave it as it is.
proof fn lemma_read_bytes_longer(b: Seq<u8>, more: Seq<u8>, max: nat)
    ensures
        read_bytes(b, max) matches Some((frame, rest)) ==> read_bytes(b + more, max) == Some(
            (frame, rest + more),
        ) && rest.len() < b.len(),
{
    if read_bytes(b, max) is Some {
        let (n, r) = read_u32(b)->0;
        assert((b + more).take(4) =~= b.take(4));
        assert((b + more).skip(4) =~= b.skip(4) + more);
        assert((r + more).take(n as int) =~= r.take(n as int));
        assert((r + more).skip(n as int) =~= r.skip(n as int) + more);
    }
}

/// Frames after whole frames are read as if they stood alone.
pub proof fn lemma_frames_concat(b: Seq<u8>, more: Seq<u8>)
    requires
        read_frames(b).1 == b.len(),
    ensures
        read_frames(b + more).0 == read_frames(b).0 + read_frames(more).0,
        read_frames(b + more).1 == b.len() + read_frames(more).1,
    decreases b.len(),
{
    if b.len() == 0 {
        assert(b + more =~= more);
        assert(read_frames(b).0 + read_frames(more).0 =~= read_frames(more).0);
    } else {
        lemma_read_bytes_longer(b, more, MAX_ENTRY_FRAME_BYTES as nat);
        let (frame, rest) = read_bytes(b, MAX_ENTRY_FRAME_BYTES as nat)->0;
        lemma_frames_concat(rest, more);
        let entry = read_entry(frame)->0;
        assert(read_frames(b + more).0 =~= seq![entry] + (read_frames(rest).0 + read_frames(
            more,
        ).0));
        assert(read_frames(b).0 + read_frames(more).0 =~= seq![entry] + (read_frames(rest).0
            + read_frames(more).0));
    }
}

/// An entry appended to a whole day file is read back, after all that was
/// there.
pub proof fn lemma_append_reads_back(file: Seq<u8>, entry: StoredView)
    requires
        storable(entry.fields),
        read_day(file) matches Ok((entries, len)) && len == file.len() && len > 0,
    ensures
        read_day(file + framed(entry_bytes(entry))) == Ok::<(Seq<StoredView>, nat), u8>(
            (
                (read_day(file)->Ok_0).0.push(entry),
                (file + framed(entry_bytes(entry))).len(),
            ),
        ),
{
    let frame = framed(entry_bytes(entry));
    lemma_entry_round_trip(entry);
    lemma_read_bytes(entry_bytes(entry), Seq::empty(), MAX_ENTRY_FRAME_BYTES as nat);
    assert(frame + Seq::<u8>::empty() =~= frame);
    assert(read_frames(Seq::<u8>::empty()).1 == 0);
    assert(read_frames(Seq::<u8>::empty()).0 =~= Seq::<StoredView>::empty());
    assert(read_frames(frame).0 =~= seq![entry]);
    assert(read_frames(frame).1 == frame.len());
    lemma_frames_concat(file.skip(1), frame);
    assert((file + frame).skip(1) =~= file.skip(1) + frame);
    assert(read_frames(file.skip(1)).0 + seq![entry] =~= read_frames(file.skip(1)).0.push(entry));
}

/// The first entry of a day whose file is new is read back.
pub proof fn lemma_first_entry_reads_back(entry: StoredView)
    requires
        storable(entry.fields),
    ensures
        read_day(seq![FORMAT_VERSION] + framed(entry_bytes(entry))) == Ok::<
            (Seq<StoredView>, nat),
            u8,
        >((seq![entry], (1 + framed(entry_bytes(entry)).len()) as nat)),
{
    let header = seq![FORMAT_VERSION];
    assert(header.skip(1) =~= Seq::<u8>::empty());
    assert(read_frames(Seq::<u8>::empty()).1 == 0);
    assert(read_frames(Seq::<u8>::empty()).0 =~= Seq::<StoredView>::empty());
    assert(read_day(header) == Ok::<(Seq<StoredView>, nat), u8>((Seq::empty(), 1)));
    lemma_append_reads_back(header, entry);
    assert(Seq::<StoredView>::empty().push(entry) =~= seq![entry]);
}

/// A write that never finished loses nothing that was there before it: the
/// entries before it are still read, and where to cut the file is known.
pub proof fn lemma_torn_tail(file: Seq<u8>, entry: StoredView, cut: int)
    requires
        storable(entry.fields),
        read_day(file) matches Ok((entries, len)) && len == file.len() && len > 0,
        0 <= cut < framed(entry_bytes(entry)).len(),
    ensures
        read_day(file + framed(entry_bytes(entry)).take(cut)) == read_day(file),
{
    let frame = framed(entry_bytes(entry));
    let torn = frame.take(cut);
    lemma_entry_round_trip(entry);
    let n = len32(entry_bytes(entry).len());
    assert(read_bytes(torn, MAX_ENTRY_FRAME_BYTES as nat) is None) by {
        if cut >= 4 {
            lemma_read_u32(n, entry_bytes(entry));
            assert(torn.take(4) =~= frame.take(4));
            assert(torn.skip(4).len() < n);
        }
    }
    lemma_frames_concat(file.skip(1), torn);
    assert((file + torn).skip(1) =~= file.skip(1) + torn);
    assert(read_frames(torn).0 =~= Seq::<StoredView>::empty());
    assert(read_frames(file.skip(1)).0 + read_frames(torn).0 =~= read_frames(file.skip(1)).0);
}

/// The leading bytes that hold the whole entries are a whole day file of the
/// same entries.
pub proof fn lemma_cut_is_whole(b: Seq<u8>)
    ensures
        read_frames(b.take(read_frames(b).1 as int)) == read_frames(b),
    decreases b.len(),
{
    lemma_frames_len(b);
    let good = read_frames(b).1;
    match read_bytes(b, MAX_ENTRY_FRAME_BYTES as nat) {
        None => {
            assert(b.take(0) =~= Seq::<u8>::empty());
        },
        Some((frame, rest)) => {
            if read_entry(frame) is Some && rest.len() < b.len() {
                lemma_cut_is_whole(rest);
                let used = b.len() - rest.len();
                let head = b.take(used as int);
                lemma_read_bytes_prefix(b, MAX_ENTRY_FRAME_BYTES as nat);
                let more = rest.take(read_frames(rest).1 as int);
                lemma_read_bytes_longer(head, more, MAX_ENTRY_FRAME_BYTES as nat);
                assert(b.take(good as int) =~= head + more);
                assert(Seq::<u8>::empty() + more =~= more);
            } else {
                assert(b.take(0) =~= Seq::<u8>::empty());
            }
        },
    }
}

/// A byte string is read from just the bytes it takes.
proof fn lemma_read_bytes_prefix(b: Seq<u8>, max: nat)
    ensures
        read_bytes(b, max) matches Some((frame, rest)) ==> read_bytes(
            b.take(b.len() - rest.len()),
            max,
        ) == Some((frame, Seq::<u8>::empty())),
{
    if read_bytes(b, max) is Some {
        let (n, r) = read_u32(b)->0;
        let (frame, rest) = read_bytes(b, max)->0;
        let used = b.len() - rest.len();
        let head = b.take(used);
        assert(head.take(4) =~= b.take(4));
        assert(head.skip(4) =~= r.take(n as int));
        assert(r.take(n as int).take(n as int) =~= frame);
        assert(r.take(n as int).skip(n as int) =~= Seq::<u8>::empty());
    }
}

} // verus!
