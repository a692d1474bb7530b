//! What a request's lines and headers say, and how an answer's head is
//! spelled.

use crate::calendar::{rfc1123, rfc1123_of};
use crate::text::{
    begins_with, chars_of, copy_of, decimal, decimal_signed, find_char, first_index, is_space,
    is_space_char, lemma_decimal_value, lemma_one_number, lower_all, lowered, lossy_utf8, opt_view,
    optional, parse_u64, parsed_u64, push_decimal, push_signed, same_text, starts_with, text_of, trim, trim_end, trim_start, trimmed,
    trimmed_end, trimmed_start, utf8_text_lossy,
};
use vstd::prelude::*;
use vstd::slice::slice_subrange;
use vstd::string::StringSliceAdditionalSpecFns;
use vstd::utf8::encode_utf8;

verus! {

/// The largest head of a request, in bytes.
pub const MAX_HEAD_BYTES: u64 = 16_384;

/// The most headers a request may have.
pub const MAX_HEADERS: usize = 100;

/// The largest body of a `PUT` of a real file: thirty-two gibibytes.
pub const MAX_PUT_BODY_LEN: u64 = 34_359_738_368;

/// The largest body of any other request: one mebibyte.
pub const MAX_BODY_LEN: u64 = 1_048_576;

// ---------------------------------------------------------------------------
// The request head.
// ---------------------------------------------------------------------------

/// One header: its name in lower case, and its value.
pub struct Header {
    pub name: String,
    pub value: String,
}

/// The last value that `headers` give `name`, since a header that comes twice
/// replaces itself.
pub open spec fn header_value(headers: Seq<Header>, name: Seq<char>) -> Option<Seq<char>>
    decreases headers.len(),
{
    if headers.len() == 0 {
        None
    } else if headers.last().name@ == name {
        Some(headers.last().value@)
    } else {
        header_value(headers.drop_last(), name)
    }
}

/// The value of `name`, which is in lower case.
pub fn find_header<'a>(headers: &'a Vec<Header>, name: &str) -> (value: Option<&'a str>)
    ensures
        match value {
            Some(v) => header_value(headers@, name@) == Some(v@),
            None => header_value(headers@, name@) is None,
        },
{
    let mut i: usize = headers.len();
    assert(headers@.take(i as int) =~= headers@);
    while i > 0
        invariant
            i <= headers.len(),
            header_value(headers@, name@) == header_value(headers@.take(i as int), name@),
        decreases i,
    {
        assert(headers@.take(i as int).last() == headers@[i - 1]);
        assert(headers@.take(i as int).drop_last() =~= headers@.take(i - 1));
        if same_text(headers[i - 1].name.as_str(), name) {
            return Some(headers[i - 1].value.as_str());
        }
        i -= 1;
    }
    None
}

/// A request line and its headers.
pub struct RequestHead {
    pub method: String,
    /// The request target exactly as sent, still percent-encoded.
    pub target: String,
    pub headers: Vec<Header>,
}

impl RequestHead {
    /// The value of the header `name`, which is in lower case.
    pub fn header(&self, name: &str) -> (value: Option<&str>)
        ensures
            match value {
                Some(v) => header_value(self.headers@, name@) == Some(v@),
                None => header_value(self.headers@, name@) is None,
            },
    {
        find_header(&self.headers, name)
    }

    /// The declared length of the body, where there is one that reads as a
    /// number.
    pub open spec fn declared_length(&self) -> Option<u64> {
        match header_value(self.headers@, "content-length"@) {
            Some(v) => parsed_u64(v),
            None => None,
        }
    }

    /// The declared length of the body.
    pub fn content_length(&self) -> (length: Option<u64>)
        ensures
            length == self.declared_length(),
    {
        match self.header("content-length") {
            Some(v) => {
                let chars = chars_of(v);
                parse_u64(chars.as_slice())
            },
            None => None,
        }
    }
}

/// One whole request.
pub struct Request {
    pub method: String,
    pub headers: Vec<Header>,
    pub body: Vec<u8>,
}

impl Request {
    /// The value of the header `name`, which is in lower case.
    pub fn header(&self, name: &str) -> (value: Option<&str>)
        ensures
            match value {
                Some(v) => header_value(self.headers@, name@) == Some(v@),
                None => header_value(self.headers@, name@) is None,
            },
    {
        find_header(&self.headers, name)
    }
}

/// How many characters at the start of `s` are not white space.
pub open spec fn word_len(s: Seq<char>) -> int
    decreases s.len(),
{
    if s.len() == 0 || is_space(s[0]) {
        0
    } else {
        1 + word_len(s.drop_first())
    }
}

/// The first word of `s`, past any white space; empty where there is none.
pub open spec fn first_word(s: Seq<char>) -> Seq<char> {
    trim_start(s).take(word_len(trim_start(s)))
}

/// What follows the first word of `s`.
pub open spec fn after_word(s: Seq<char>) -> Seq<char> {
    trim_start(s).skip(word_len(trim_start(s)))
}

fn word_length(chars: &[char]) -> (len: usize)
    ensures
        len == word_len(chars@),
        len <= chars@.len(),
{
    let mut i: usize = 0;
    assert(chars@.skip(0) =~= chars@);
    while i < chars.len() && !is_space_char(chars[i])
        invariant
            i <= chars.len(),
            word_len(chars@) == i + word_len(chars@.skip(i as int)),
        decreases chars.len() - i,
    {
        assert(chars@.skip(i as int).drop_first() =~= chars@.skip(i + 1));
        i += 1;
    }
    i
}

/// The method of a request line: its first word.
pub open spec fn line_method(line: Seq<char>) -> Seq<char> {
    first_word(line)
}

/// The target of a request line: its second word, or a slash where it has
/// only one.
pub open spec fn line_target(line: Seq<char>) -> Seq<char> {
    let word = first_word(after_word(line));
    if word.len() == 0 {
        "/"@
    } else {
        word
    }
}

/// The method and the target that a request line names.
pub fn parse_request_line(line: &str) -> (parts: (String, String))
    ensures
        parts.0@ == line_method(line@),
        parts.1@ == line_target(line@),
{
    let all = chars_of(line);
    let start = trimmed_start(all.as_slice());
    let n = word_length(start);
    assert(start@.subrange(0, n as int) =~= start@.take(n as int));
    let method = text_of(slice_subrange(start, 0, n));
    let rest = slice_subrange(start, n, start.len());
    assert(rest@ =~= after_word(line@));
    let second = trimmed_start(rest);
    let m = word_length(second);
    assert(second@.subrange(0, m as int) =~= second@.take(m as int));
    let target = if m == 0 {
        copy_of("/")
    } else {
        text_of(slice_subrange(second, 0, m))
    };
    (method, target)
}

/// The name and the value of a header line: what stands before its first
/// colon, without white space and in lower case, and what stands after it,
/// without white space. A line without a colon is no header.
pub open spec fn line_header(line: Seq<char>) -> Option<(Seq<char>, Seq<char>)> {
    let i = first_index(line, ':');
    if 0 <= i < line.len() {
        Some((lower_all(trim(line.take(i))), trim(line.skip(i + 1))))
    } else {
        None
    }
}

/// The header that a line holds.
pub fn parse_header_line(line: &str) -> (header: Option<Header>)
    ensures
        match header {
            Some(h) => line_header(line@) == Some((h.name@, h.value@)),
            None => line_header(line@) is None,
        },
{
    let all = chars_of(line);
    let chars = all.as_slice();
    match find_char(chars, ':') {
        None => None,
        Some(i) => {
            let key = slice_subrange(chars, 0, i);
            assert(key@ =~= chars@.take(i as int));
            let count: usize = chars.len();
            assert(i < count);
            let value = slice_subrange(chars, i + 1, count);
            assert(value@ =~= chars@.skip(i + 1));
            let name = lowered(trimmed(key));
            Some(Header { name: text_of(name.as_slice()), value: text_of(trimmed(value)) })
        },
    }
}

/// What came of one more line of a request head.
pub enum HeadStep {
    /// More lines belong to the head.
    More,
    /// The head is whole.
    Head(RequestHead),
    /// The connection ended where no request had begun, or began with an
    /// empty line: there is no request.
    Closed,
    /// The head is over its budget.
    TooLarge,
}

/// A request head while its lines come in.
pub struct HeadReader {
    started: bool,
    method: String,
    target: String,
    headers: Vec<Header>,
    /// The bytes the lines have taken so far.
    taken: u64,
    max_bytes: u64,
    max_headers: usize,
}

impl HeadReader {
    /// The request line has been read.
    pub closed spec fn has_started(self) -> bool {
        self.started
    }

    pub closed spec fn method_so_far(self) -> Seq<char> {
        self.method@
    }

    pub closed spec fn target_so_far(self) -> Seq<char> {
        self.target@
    }

    pub closed spec fn headers_so_far(self) -> Seq<Header> {
        self.headers@
    }

    /// The bytes read so far.
    pub closed spec fn bytes_so_far(self) -> u64 {
        self.taken
    }

    pub closed spec fn byte_budget(self) -> u64 {
        self.max_bytes
    }

    pub closed spec fn header_budget(self) -> usize {
        self.max_headers
    }

    /// A head of at most `max_bytes` bytes and `max_headers` headers, of
    /// which nothing has come yet.
    pub fn new(max_bytes: u64, max_headers: usize) -> (reader: HeadReader)
        ensures
            !reader.has_started(),
            reader.headers_so_far().len() == 0,
            reader.bytes_so_far() == 0,
            reader.byte_budget() == max_bytes,
            reader.header_budget() == max_headers,
    {
        HeadReader {
            started: false,
            method: String::new(),
            target: String::new(),
            headers: Vec::new(),
            taken: 0,
            max_bytes,
            max_headers,
        }
    }

    /// Takes one line, as it was read, with its line end; an empty text where
    /// the connection ended.
    pub fn push_line(&mut self, line: &str) -> (step: HeadStep)
        ensures
            final(self).byte_budget() == old(self).byte_budget(),
            final(self).header_budget() == old(self).header_budget(),
            ({
                let bytes = encode_utf8(line@).len();
                let text = trim_end(line@);
                let over = old(self).bytes_so_far() + bytes > old(self).byte_budget();
                // The connection ended, or a request began with an empty line.
                let none = line@.len() == 0 || (!old(self).has_started() && text.len() == 0);
                let full = old(self).headers_so_far().len() >= old(self).header_budget();
                match step {
                    HeadStep::TooLarge => over || (!none && old(self).has_started() && text.len()
                        > 0 && line_header(text) is Some && full),
                    HeadStep::Closed => !over && none,
                    HeadStep::Head(head) => {
                        &&& !over && !none && old(self).has_started() && text.len() == 0
                        &&& head.method@ == old(self).method_so_far()
                        &&& head.target@ == old(self).target_so_far()
                        &&& head.headers@ == old(self).headers_so_far()
                    },
                    HeadStep::More => {
                        &&& !over && !none
                        &&& final(self).has_started()
                        &&& final(self).bytes_so_far() == old(self).bytes_so_far() + bytes
                        &&& if !old(self).has_started() {
                            &&& final(self).method_so_far() == line_method(text)
                            &&& final(self).target_so_far() == line_target(text)
                            &&& final(self).headers_so_far() == old(self).headers_so_far()
                        } else {
                            &&& text.len() > 0
                            &&& final(self).method_so_far() == old(self).method_so_far()
                            &&& final(self).target_so_far() == old(self).target_so_far()
                            &&& match line_header(text) {
                                Some((name, value)) => {
                                    &&& !full
                                    &&& final(self).headers_so_far().len() == old(
                                        self,
                                    ).headers_so_far().len() + 1
                                    &&& final(self).headers_so_far().drop_last() == old(
                                        self,
                                    ).headers_so_far()
                                    &&& final(self).headers_so_far().last().name@ == name
                                    &&& final(self).headers_so_far().last().value@ == value
                                },
                                None => final(self).headers_so_far() == old(
                                    self,
                                ).headers_so_far(),
                            }
                        }
                    },
                }
            }),
    {
        let bytes: u64 = line.as_bytes().len() as u64;
        if bytes > self.max_bytes || self.taken > self.max_bytes - bytes {
            return HeadStep::TooLarge;
        }
        if line.is_empty() {
            return HeadStep::Closed;
        }
        let all = chars_of(line);
        let kept = trimmed_end(all.as_slice());
        if !self.started && kept.len() == 0 {
            return HeadStep::Closed;
        }
        let text = text_of(kept);
        if !self.started {
            let (method, target) = parse_request_line(text.as_str());
            self.started = true;
            self.method = method;
            self.target = target;
            self.taken = self.taken + bytes;
            return HeadStep::More;
        }
        if kept.len() == 0 {
            let mut headers: Vec<Header> = Vec::new();
            headers.append(&mut self.headers);
            assert(headers@ =~= old(self).headers@);
            return HeadStep::Head(
                RequestHead {
                    method: copy_of(self.method.as_str()),
                    target: copy_of(self.target.as_str()),
                    headers,
                },
            );
        }
        match parse_header_line(text.as_str()) {
            Some(header) => {
                if self.headers.len() >= self.max_headers {
                    return HeadStep::TooLarge;
                }
                self.headers.push(header);
                assert(self.headers@.drop_last() =~= old(self).headers@);
            },
            None => {},
        }
        self.taken = self.taken + bytes;
        HeadStep::More
    }
}

// ---------------------------------------------------------------------------
// The answer's head.
// ---------------------------------------------------------------------------

/// How an answer's own headers are spelled.
pub open spec fn headers_text(headers: Seq<Header>) -> Seq<char>
    decreases headers.len(),
{
    if headers.len() == 0 {
        Seq::empty()
    } else {
        headers_text(headers.drop_last()) + headers.last().name@ + ": "@ + headers.last().value@
            + "\r\n"@
    }
}

/// The head of an answer: the status line, the date, the server, the DAV
/// classes, the answer's own headers, and the empty line.
pub open spec fn head_text(status: Seq<char>, headers: Seq<Header>, now: int) -> Seq<char> {
    "HTTP/1.1 "@ + status + "\r\n"@ + "Date: "@ + rfc1123_of(now)
        + "\r\nServer: ferry\r\nDAV: 1, 2\r\n"@ + headers_text(headers) + "\r\n"@
}

/// The status line and the headers of an answer, sent at the Unix time `now`.
pub fn write_head(status: &str, headers: &Vec<Header>, now: i64) -> (head: String)
    ensures
        head@ == head_text(status@, headers@, now as int),
{
    let mut head = String::new();
    head.push_str("HTTP/1.1 ");
    head.push_str(status);
    head.push_str("\r\n");
    head.push_str("Date: ");
    head.push_str(rfc1123(now).as_str());
    head.push_str("\r\nServer: ferry\r\nDAV: 1, 2\r\n");
    let ghost start = head@;
    assert(start =~= "HTTP/1.1 "@ + status@ + "\r\n"@ + "Date: "@ + rfc1123_of(now as int)
        + "\r\nServer: ferry\r\nDAV: 1, 2\r\n"@);
    let mut i: usize = 0;
    assert(headers@.take(0) =~= Seq::<Header>::empty());
    assert(head@ =~= start + headers_text(headers@.take(0)));
    while i < headers.len()
        invariant
            i <= headers.len(),
            head@ == start + headers_text(headers@.take(i as int)),
        decreases headers.len() - i,
    {
        head.push_str(headers[i].name.as_str());
        head.push_str(": ");
        head.push_str(headers[i].value.as_str());
        head.push_str("\r\n");
        i += 1;
        assert(headers@.take(i as int).drop_last() =~= headers@.take(i - 1));
        assert(headers@.take(i as int).last() == headers@[i - 1]);
        assert(head@ =~= start + headers_text(headers@.take(i as int)));
    }
    assert(headers@.take(headers@.len() as int) =~= headers@);
    head.push_str("\r\n");
    assert(head@ =~= head_text(status@, headers@, now as int));
    head
}

// ---------------------------------------------------------------------------
// Percent escapes.
// ---------------------------------------------------------------------------

/// The value of a hexadecimal digit, in either case.
pub open spec fn hex_value(byte: u8) -> Option<u8> {
    if 48 <= byte <= 57 {
        Some((byte - 48) as u8)
    } else if 97 <= byte <= 102 {
        Some((byte - 87) as u8)
    } else if 65 <= byte <= 70 {
        Some((byte - 55) as u8)
    } else {
        None
    }
}

/// The byte that two hexadecimal digits of an escape spell.
pub open spec fn escaped_byte(first: u8, second: u8) -> Option<u8> {
    match (hex_value(first), hex_value(second)) {
        (Some(a), Some(b)) => Some((a * 16 + b) as u8),
        _ => None,
    }
}

/// `bytes` with every escape replaced, once, by the byte it spells. What is
/// not an escape stands for itself.
pub open spec fn unescaped(bytes: Seq<u8>) -> Seq<u8>
    decreases bytes.len(),
{
    if bytes.len() == 0 {
        Seq::empty()
    } else if bytes[0] == 37 && bytes.len() > 2 && escaped_byte(bytes[1], bytes[2]) is Some {
        seq![escaped_byte(bytes[1], bytes[2])->0] + unescaped(bytes.skip(3))
    } else {
        seq![bytes[0]] + unescaped(bytes.skip(1))
    }
}

fn hex_digit_value(byte: u8) -> (value: Option<u8>)
    ensures
        value == hex_value(byte),
        value matches Some(v) ==> v < 16,
{
    if 48 <= byte && byte <= 57 {
        Some(byte - 48)
    } else if 97 <= byte && byte <= 102 {
        Some(byte - 87)
    } else if 65 <= byte && byte <= 70 {
        Some(byte - 55)
    } else {
        None
    }
}

fn escape_value(first: u8, second: u8) -> (value: Option<u8>)
    ensures
        value == escaped_byte(first, second),
{
    match (hex_digit_value(first), hex_digit_value(second)) {
        (Some(a), Some(b)) => Some(a * 16 + b),
        _ => None,
    }
}

/// `bytes` with every escape replaced, once, by the byte it spells.
pub fn percent_decode_bytes(bytes: &[u8]) -> (out: Vec<u8>)
    ensures
        out@ == unescaped(bytes@),
{
    let mut out: Vec<u8> = Vec::new();
    let mut i: usize = 0;
    let len: usize = bytes.len();
    assert(bytes@.skip(0) =~= bytes@);
    assert(out@ + unescaped(bytes@.skip(0)) =~= unescaped(bytes@));
    while i < len
        invariant
            len == bytes@.len(),
            i <= len,
            out@ + unescaped(bytes@.skip(i as int)) == unescaped(bytes@),
        decreases len - i,
    {
        let ghost rest = bytes@.skip(i as int);
        let ghost before = out@;
        if bytes[i] == 37 && len - i > 2 {
            match escape_value(bytes[i + 1], bytes[i + 2]) {
                Some(value) => {
                    out.push(value);
                    i += 3;
                    proof {
                        assert(rest.skip(3) =~= bytes@.skip(i as int));
                        assert(out@ + unescaped(rest.skip(3)) =~= before + (seq![value]
                            + unescaped(rest.skip(3))));
                    }
                    continue ;
                },
                None => {},
            }
        }
        out.push(bytes[i]);
        i += 1;
        proof {
            assert(rest.skip(1) =~= bytes@.skip(i as int));
            assert(out@ + unescaped(rest.skip(1)) =~= before + (seq![rest[0]] + unescaped(
                rest.skip(1),
            )));
        }
    }
    assert(bytes@.skip(len as int) =~= Seq::<u8>::empty());
    assert(out@ =~= unescaped(bytes@));
    out
}

/// A percent encoded text, decoded.
pub open spec fn decoded_text(text: Seq<char>) -> Seq<char> {
    lossy_utf8(unescaped(encode_utf8(text)))
}

/// Decodes the escapes of a URL path, once. An invalid escape stands for
/// itself; bytes that are then not UTF-8 are replaced.
pub fn percent_decode(input: &str) -> (text: String)
    ensures
        text@ == decoded_text(input@),
        vstd::utf8::valid_utf8(unescaped(encode_utf8(input@))) ==> text@
            == vstd::utf8::decode_utf8(unescaped(encode_utf8(input@))),
{
    let bytes = percent_decode_bytes(input.as_bytes());
    utf8_text_lossy(bytes.as_slice())
}

// ---------------------------------------------------------------------------
// Ranges.
// ---------------------------------------------------------------------------

/// `a - b`, and no less than zero.
pub open spec fn minus(a: u64, b: u64) -> u64 {
    if a < b {
        0
    } else {
        (a - b) as u64
    }
}

/// What a `Range` value asks for.
#[derive(Debug, Clone, Copy, PartialEq, Eq, Structural)]
pub enum Asked {
    /// `bytes=first-last`, which does not run backwards.
    Span(u64, u64),
    /// `bytes=first-`: up to the end.
    From(u64),
    /// `bytes=-count`: that many at the end.
    Last(u64),
}

/// What a `Range` value asks for. `None` where it is of no form that is
/// understood, or runs backwards.
pub open spec fn asked_of(value: Seq<char>) -> Option<Asked> {
    if !begins_with(value, "bytes="@) {
        None
    } else {
        let spec = value.skip("bytes="@.len() as int);
        let dash = first_index(spec, '-');
        if !(0 <= dash < spec.len()) {
            None
        } else {
            let first = trim(spec.take(dash));
            let last = trim(spec.skip(dash + 1));
            if first.len() == 0 {
                match parsed_u64(last) {
                    Some(count) => Some(Asked::Last(count)),
                    None => None,
                }
            } else if last.len() == 0 {
                match parsed_u64(first) {
                    Some(start) => Some(Asked::From(start)),
                    None => None,
                }
            } else {
                match (parsed_u64(first), parsed_u64(last)) {
                    (Some(start), Some(end)) => if start <= end {
                        Some(Asked::Span(start, end))
                    } else {
                        None
                    },
                    _ => None,
                }
            }
        }
    }
}

/// The first and the last byte of a file of `total` bytes that are asked for.
/// The last is no further than the file's. `None` where the first is past it.
pub open spec fn within_file(asked: Asked, total: u64) -> Option<(u64, u64)> {
    let bound = minus(total, 1);
    let (start, end) = match asked {
        Asked::Span(start, end) => (
            start,
            if end < bound {
                end
            } else {
                bound
            },
        ),
        Asked::From(start) => (start, bound),
        Asked::Last(count) => (minus(total, count), bound),
    };
    if start > end {
        None
    } else {
        Some((start, end))
    }
}

/// The first and the last byte that a `Range` value asks for of a file of
/// `total` bytes. `None` where it asks for nothing that is understood, or for
/// nothing of the file.
pub open spec fn range_of(value: Seq<char>, total: u64) -> Option<(u64, u64)> {
    match asked_of(value) {
        None => None,
        Some(asked) => within_file(asked, total),
    }
}

fn parse_asked(value: &str) -> (asked: Option<Asked>)
    ensures
        asked == asked_of(value@),
{
    let all = chars_of(value);
    let chars = all.as_slice();
    if !starts_with(chars, "bytes=") {
        return None;
    }
    let prefix = chars_of("bytes=");
    let spec_chars = slice_subrange(chars, prefix.len(), chars.len());
    assert(spec_chars@ =~= value@.skip("bytes="@.len() as int));
    let dash = match find_char(spec_chars, '-') {
        Some(i) => i,
        None => {
            return None;
        },
    };
    let head = slice_subrange(spec_chars, 0, dash);
    assert(head@ =~= spec_chars@.take(dash as int));
    let tail = slice_subrange(spec_chars, dash + 1, spec_chars.len());
    assert(tail@ =~= spec_chars@.skip(dash + 1));
    let first = trimmed(head);
    let last = trimmed(tail);
    if first.len() == 0 {
        return match parse_u64(last) {
            Some(count) => Some(Asked::Last(count)),
            None => None,
        };
    }
    if last.len() == 0 {
        return match parse_u64(first) {
            Some(start) => Some(Asked::From(start)),
            None => None,
        };
    }
    match (parse_u64(first), parse_u64(last)) {
        (Some(start), Some(end)) => {
            if start <= end {
                Some(Asked::Span(start, end))
            } else {
                None
            }
        },
        _ => None,
    }
}

fn bytes_within(asked: Asked, total: u64) -> (range: Option<(u64, u64)>)
    ensures
        range == within_file(asked, total),
{
    let bound: u64 = total.saturating_sub(1);
    let (start, end): (u64, u64) = match asked {
        Asked::Span(start, end) => {
            if end < bound {
                (start, end)
            } else {
                (start, bound)
            }
        },
        Asked::From(start) => (start, bound),
        Asked::Last(count) => (total.saturating_sub(count), bound),
    };
    if start > end {
        None
    } else {
        Some((start, end))
    }
}

/// Splits a `Range` value into its first and last byte, against a file of
/// `total` bytes. What it gives is never backwards, and lies inside the file
/// where that has any bytes.
pub fn parse_range(value: &str, total: u64) -> (range: Option<(u64, u64)>)
    ensures
        range == range_of(value@, total),
        range matches Some((start, end)) ==> start <= end && (total > 0 ==> end < total),
{
    match parse_asked(value) {
        None => None,
        Some(asked) => bytes_within(asked, total),
    }
}

/// What a request's `Range` header comes to.
#[derive(Debug, Clone, Copy, PartialEq, Eq, Structural)]
pub enum RangeOutcome {
    /// There is none, or none that is understood: the whole file is meant.
    Absent,
    /// It asks for nothing of the file.
    Unsatisfiable,
    /// The first and the last byte to send.
    Satisfiable(u64, u64),
}

/// What the value of a `Range` header comes to, for a file of `total` bytes.
/// One that is understood and names no byte of the file cannot be met.
pub open spec fn range_outcome_of(value: Option<Seq<char>>, total: u64) -> RangeOutcome {
    match value {
        None => RangeOutcome::Absent,
        Some(v) => match asked_of(v) {
            None => RangeOutcome::Absent,
            Some(asked) => match within_file(asked, total) {
                Some((start, end)) => if total > 0 {
                    RangeOutcome::Satisfiable(start, end)
                } else {
                    RangeOutcome::Unsatisfiable
                },
                None => RangeOutcome::Unsatisfiable,
            },
        },
    }
}

/// What the value of a `Range` header comes to, for a file of `total` bytes.
pub fn range_outcome(value: Option<&str>, total: u64) -> (outcome: RangeOutcome)
    ensures
        outcome == range_outcome_of(optional(value), total),
{
    let asked = match value {
        None => {
            return RangeOutcome::Absent;
        },
        Some(v) => parse_asked(v),
    };
    match asked {
        None => RangeOutcome::Absent,
        Some(asked) => match bytes_within(asked, total) {
            Some((start, end)) => {
                if total > 0 {
                    RangeOutcome::Satisfiable(start, end)
                } else {
                    RangeOutcome::Unsatisfiable
                }
            },
            None => RangeOutcome::Unsatisfiable,
        },
    }
}

/// A range that is sent lies inside the file.
pub proof fn lemma_range_inside(value: Option<Seq<char>>, total: u64)
    ensures
        range_outcome_of(value, total) matches RangeOutcome::Satisfiable(start, end) ==> start
            <= end < total,
{
}

/// A value that reads against a file with bytes in it is the range that is
/// sent; one that is understood and does not is refused.
pub proof fn lemma_read_range_is_sent(value: Seq<char>, total: u64)
    requires
        total > 0,
    ensures
        range_of(value, total) matches Some((start, end)) ==> range_outcome_of(Some(value), total)
            == RangeOutcome::Satisfiable(start, end),
        range_of(value, total) is None ==> range_outcome_of(Some(value), total)
            == (if asked_of(value) is Some {
            RangeOutcome::Unsatisfiable
        } else {
            RangeOutcome::Absent
        }),
{
}

/// The path that a `Destination` header names: it is a whole URL on this
/// host, and what follows the host is percent decoded.
pub open spec fn destination_of(value: Option<Seq<char>>, host: Seq<char>) -> Option<Seq<char>> {
    match value {
        None => None,
        Some(v) => {
            let start = "http://"@ + host;
            if begins_with(v, start) && (v.len() == start.len() || v[start.len() as int] == '/') {
                Some(decoded_text(v.skip(start.len() as int)))
            } else {
                None
            }
        },
    }
}

/// The path that a `Destination` header names.
pub fn destination_path(value: Option<&str>, expected_host: &str) -> (path: Option<String>)
    ensures
        opt_view(path) == destination_of(optional(value), expected_host@),
{
    let text = match value {
        None => {
            return None;
        },
        Some(text) => text,
    };
    let mut start = copy_of("http://");
    start.push_str(expected_host);
    let chars = chars_of(text);
    if !starts_with(chars.as_slice(), start.as_str()) {
        return None;
    }
    let from: usize = chars_of(start.as_str()).len();
    let len: usize = chars.len();
    if from < len && chars[from] != '/' {
        return None;
    }
    let rest = slice_subrange(chars.as_slice(), from, len);
    assert(rest@ =~= text@.skip(start@.len() as int));
    let rest_text = text_of(rest);
    Some(percent_decode(rest_text.as_str()))
}

/// `"<size>-<modified>"`, quoted.
pub open spec fn etag_of(size: u64, modified_unix_secs: i64) -> Seq<char> {
    "\""@ + decimal(size as nat) + "-"@ + decimal_signed(modified_unix_secs as int) + "\""@
}

/// The entity tag of a file: its size and its modified time, quoted.
pub fn etag(size: u64, modified_unix_secs: i64) -> (text: String)
    ensures
        text@ == etag_of(size, modified_unix_secs),
{
    let mut text = String::new();
    text.push_str("\"");
    push_decimal(&mut text, size);
    text.push_str("-");
    push_signed(&mut text, modified_unix_secs);
    text.push_str("\"");
    assert(text@ =~= etag_of(size, modified_unix_secs));
    text
}

/// Another size or another modified time is another entity tag.
pub proof fn lemma_etag_tells_apart(size: u64, modified: i64, other: u64, later: i64)
    requires
        etag_of(size, modified) == etag_of(other, later),
    ensures
        size == other,
        modified == later,
{
    let (a, b) = (etag_of(size, modified), etag_of(other, later));
    let (x, y) = (decimal(size as nat), decimal(other as nat));
    let (m, n) = (decimal_signed(modified as int), decimal_signed(later as int));
    let (p, q) = (x.len() as int, y.len() as int);
    reveal_strlit("\"");
    reveal_strlit("-");
    lemma_decimal_value(size as nat);
    lemma_decimal_value(other as nat);
    assert(a[1 + p] == '-');
    assert(b[1 + q] == '-');
    if p < q {
        assert(b[1 + p] == y[p]);
    }
    if q < p {
        assert(a[1 + q] == x[q]);
    }
    assert(a.subrange(1, 1 + p) =~= x);
    assert(b.subrange(1, 1 + q) =~= y);
    assert(a.subrange(2 + p, a.len() - 1) =~= m);
    assert(b.subrange(2 + q, b.len() - 1) =~= n);
    lemma_one_number(modified as int, later as int);
}

// ---------------------------------------------------------------------------
// Basic authentication.
// ---------------------------------------------------------------------------

/// The value of a character of the base64 alphabet.
pub open spec fn base64_value(c: char) -> Option<u8> {
    if 'A' <= c <= 'Z' {
        Some((c as int - 65) as u8)
    } else if 'a' <= c <= 'z' {
        Some((c as int - 71) as u8)
    } else if '0' <= c <= '9' {
        Some((c as int + 4) as u8)
    } else if c == '+' {
        Some(62)
    } else if c == '/' {
        Some(63)
    } else {
        None
    }
}

/// A character that base64 decoding passes over: padding.
pub open spec fn base64_skipped(c: char) -> bool {
    c == '='
}

/// The values of the characters of `s` that count, or `None` where one is
/// outside the alphabet.
pub open spec fn base64_digits(s: Seq<char>) -> Option<Seq<u8>>
    decreases s.len(),
{
    if s.len() == 0 {
        Some(Seq::empty())
    } else {
        match base64_digits(s.drop_last()) {
            None => None,
            Some(digits) => if base64_skipped(s.last()) {
                Some(digits)
            } else {
                match base64_value(s.last()) {
                    Some(v) => Some(digits.push(v)),
                    None => None,
                }
            },
        }
    }
}

/// The bytes that base64 digits spell: three for each four digits, two for
/// three left over, one for two, and none for one.
pub open spec fn base64_bytes(digits: Seq<u8>) -> Seq<u8>
    decreases digits.len(),
{
    if digits.len() < 2 {
        Seq::empty()
    } else {
        let one = (digits[0] * 4 + digits[1] / 16) as u8;
        if digits.len() == 2 {
            seq![one]
        } else {
            let two = ((digits[1] % 16) * 16 + digits[2] / 4) as u8;
            if digits.len() == 3 {
                seq![one, two]
            } else {
                let three = ((digits[2] % 4) * 64 + digits[3]) as u8;
                seq![one, two, three] + base64_bytes(digits.skip(4))
            }
        }
    }
}

fn base64_digit(c: char) -> (value: Option<u8>)
    ensures
        value == base64_value(c),
        value matches Some(v) ==> v < 64,
{
    if 'A' <= c && c <= 'Z' {
        Some(c as u8 - 65)
    } else if 'a' <= c && c <= 'z' {
        Some(c as u8 - 71)
    } else if '0' <= c && c <= '9' {
        Some(c as u8 + 4)
    } else if c == '+' {
        Some(62)
    } else if c == '/' {
        Some(63)
    } else {
        None
    }
}

/// A character outside the alphabet spoils everything after it.
proof fn lemma_base64_bad(s: Seq<char>, n: int)
    requires
        0 <= n <= s.len(),
        base64_digits(s.take(n)) is None,
    ensures
        base64_digits(s) is None,
    decreases s.len() - n,
{
    if n < s.len() {
        assert(s.take(n + 1).drop_last() =~= s.take(n));
        lemma_base64_bad(s, n + 1);
    } else {
        assert(s.take(n) =~= s);
    }
}

/// Decodes standard base64, passing over padding. `None` on any other
/// character outside the alphabet.
pub fn base64_decode(input: &str) -> (bytes: Option<Vec<u8>>)
    ensures
        match bytes {
            Some(b) => base64_digits(input@) matches Some(d) && b@ == base64_bytes(d),
            None => base64_digits(input@) is None,
        },
{
    let chars = chars_of(input);
    let mut digits: Vec<u8> = Vec::new();
    let mut i: usize = 0;
    assert(chars@.take(0) =~= Seq::<char>::empty());
    assert(base64_digits(chars@.take(0)) == Some(digits@));
    while i < chars.len()
        invariant
            i <= chars.len(),
            chars@ == input@,
            base64_digits(chars@.take(i as int)) == Some(digits@),
            forall|k: int| 0 <= k < digits@.len() ==> digits@[k] < 64,
        decreases chars.len() - i,
    {
        let c = chars[i];
        assert(chars@.take(i + 1).drop_last() =~= chars@.take(i as int));
        assert(chars@.take(i + 1).last() == c);
        if c != '=' {
            match base64_digit(c) {
                Some(v) => digits.push(v),
                None => {
                    proof {
                        lemma_base64_bad(chars@, i + 1);
                    }
                    return None;
                },
            }
        }
        i += 1;
    }
    assert(chars@.take(chars@.len() as int) =~= chars@);
    let mut out: Vec<u8> = Vec::new();
    let mut at: usize = 0;
    assert(digits@.skip(0) =~= digits@);
    assert(out@ + base64_bytes(digits@.skip(0)) =~= base64_bytes(digits@));
    while digits.len() - at >= 4
        invariant
            at <= digits.len(),
            forall|k: int| 0 <= k < digits@.len() ==> digits@[k] < 64,
            out@ + base64_bytes(digits@.skip(at as int)) == base64_bytes(digits@),
        decreases digits.len() - at,
    {
        let ghost rest = digits@.skip(at as int);
        let ghost before = out@;
        out.push(digits[at] * 4 + digits[at + 1] / 16);
        out.push((digits[at + 1] % 16) * 16 + digits[at + 2] / 4);
        out.push((digits[at + 2] % 4) * 64 + digits[at + 3]);
        at += 4;
        proof {
            assert(rest.skip(4) =~= digits@.skip(at as int));
            assert(out@ + base64_bytes(rest.skip(4)) =~= before + base64_bytes(rest));
        }
    }
    let left: usize = digits.len() - at;
    let ghost rest = digits@.skip(at as int);
    let ghost before = out@;
    if left >= 2 {
        out.push(digits[at] * 4 + digits[at + 1] / 16);
    }
    if left >= 3 {
        out.push((digits[at + 1] % 16) * 16 + digits[at + 2] / 4);
    }
    assert(out@ =~= before + base64_bytes(rest));
    Some(out)
}

/// Compares two byte strings without branching on where they first differ,
/// so the time taken says nothing of how much of a guess was right.
pub fn constant_time_eq(a: &[u8], b: &[u8]) -> (same: bool)
    ensures
        same == (a@ == b@),
{
    if a.len() != b.len() {
        return false;
    }
    let mut differs: u8 = 0;
    let mut i: usize = 0;
    while i < a.len()
        invariant
            a@.len() == b@.len(),
            i <= a.len(),
            differs == 0 <==> (forall|j: int| 0 <= j < i ==> a@[j] == b@[j]),
        decreases a.len() - i,
    {
        let x: u8 = a[i];
        let y: u8 = b[i];
        assert((differs | (x ^ y)) == 0 <==> (differs == 0 && x == y)) by (bit_vector);
        differs = differs | (x ^ y);
        i += 1;
    }
    if differs == 0 {
        assert(a@ =~= b@);
    }
    differs == 0
}

/// Digits are what they are without the space around them.
proof fn lemma_digits_trimmed(s: Seq<char>)
    requires
        crate::text::all_digits(s),
    ensures
        trim(s) == s,
{
    if s.len() > 0 {
        assert(crate::text::is_digit(s[0]));
        assert(crate::text::is_digit(s[s.len() - 1]));
    }
}

/// A number reads back from its digits.
proof fn lemma_number_reads_back(n: u64)
    ensures
        parsed_u64(decimal(n as nat)) == Some(n),
        trim(decimal(n as nat)) == decimal(n as nat),
        decimal(n as nat).len() > 0,
        !decimal(n as nat).contains('-'),
{
    let s = decimal(n as nat);
    lemma_decimal_value(n as nat);
    lemma_digits_trimmed(s);
    assert(crate::text::is_digit(s[0]));
    assert forall|i: int| 0 <= i < s.len() implies s[i] != '-' by {
        assert(crate::text::is_digit(s[i]));
    }
}

proof fn lemma_dash_splits(value: Seq<char>, first: Seq<char>, last: Seq<char>)
    requires
        value == "bytes="@ + first + "-"@ + last,
        !first.contains('-'),
    ensures
        begins_with(value, "bytes="@),
        ({
            let spec = value.skip("bytes="@.len() as int);
            let dash = first_index(spec, '-');
            0 <= dash < spec.len() && spec.take(dash) == first && spec.skip(dash + 1) == last
        }),
{
    reveal_strlit("-");
    let n = "bytes="@.len() as int;
    assert(value.take(n) =~= "bytes="@);
    let spec = value.skip(n);
    assert(spec =~= first + "-"@ + last);
    let at = first.len() as int;
    assert forall|j: int| 0 <= j < at implies spec[j] != '-' by {
        assert(spec[j] == first[j]);
        assert(first.contains(first[j]));
    }
    assert(spec[at] == '-');
    crate::text::lemma_first_index(spec, '-', at);
    assert(spec.take(at) =~= first);
    assert(spec.skip(at + 1) =~= last);
}

/// A range that is written down is the range that is read: from one byte to
/// another, from one byte to the end, or so many bytes before the end. A file
/// that ends sooner ends it.
pub proof fn lemma_range_reads_back(
    value: &str,
    total: u64,
    range: Option<(u64, u64)>,
    first: u64,
    last: u64,
)
    requires
        call_ensures(parse_range, (value, total), range),
        total > 0,
    ensures
        value@ == "bytes="@ + decimal(first as nat) + "-"@ + decimal(last as nat) && first <= last
            && first < total ==> range == Some(
            (
                first,
                if last < total {
                    last
                } else {
                    (total - 1) as u64
                },
            ),
        ),
        value@ == "bytes="@ + decimal(first as nat) + "-"@ && first < total ==> range == Some(
            (first, (total - 1) as u64),
        ),
        value@ == "bytes="@ + "-"@ + decimal(last as nat) && 0 < last <= total ==> range == Some(
            ((total - last) as u64, (total - 1) as u64),
        ),
        !begins_with(value@, "bytes="@) ==> range is None,
{
    let a = decimal(first as nat);
    let b = decimal(last as nat);
    lemma_number_reads_back(first);
    lemma_number_reads_back(last);
    let none = Seq::<char>::empty();
    lemma_digits_trimmed(none);
    if value@ == "bytes="@ + a + "-"@ + b {
        lemma_dash_splits(value@, a, b);
    }
    if value@ == "bytes="@ + a + "-"@ {
        assert(value@ =~= "bytes="@ + a + "-"@ + none);
        lemma_dash_splits(value@, a, none);
    }
    if value@ == "bytes="@ + "-"@ + b {
        assert(value@ =~= "bytes="@ + none + "-"@ + b);
        lemma_dash_splits(value@, none, b);
    }
}

/// A header is found where there is one of its name, and it is the last of
/// that name which counts.
pub proof fn lemma_last_header_counts(headers: Seq<Header>, name: Seq<char>)
    ensures
        header_value(headers, name) is Some <==> exists|i: int|
            0 <= i < headers.len() && (#[trigger] headers[i]).name@ == name,
        forall|i: int|
            #![trigger headers[i]]
            0 <= i < headers.len() && headers[i].name@ == name && (forall|j: int|
                i < j < headers.len() ==> (#[trigger] headers[j]).name@ != name) ==> header_value(
                headers,
                name,
            ) == Some(headers[i].value@),
    decreases headers.len(),
{
    if headers.len() > 0 {
        let front = headers.drop_last();
        lemma_last_header_counts(front, name);
        assert(headers[headers.len() - 1] == headers.last());
        assert forall|i: int|
            #![trigger headers[i]]
            0 <= i < headers.len() && headers[i].name@ == name && (forall|j: int|
                i < j < headers.len() ==> (#[trigger] headers[j]).name@
                    != name) implies header_value(headers, name) == Some(headers[i].value@) by {
            if i < front.len() {
                assert(front[i] == headers[i]);
                assert forall|j: int| i < j < front.len() implies (#[trigger] front[j]).name@
                    != name by {
                    assert(front[j] == headers[j]);
                }
                assert(headers[headers.len() - 1].name@ != name);
            }
        }
        if exists|i: int| 0 <= i < headers.len() && (#[trigger] headers[i]).name@ == name {
            let i = choose|i: int| 0 <= i < headers.len() && (#[trigger] headers[i]).name@ == name;
            if i < front.len() {
                assert(front[i].name@ == name);
            }
        }
        if exists|i: int| 0 <= i < front.len() && (#[trigger] front[i]).name@ == name {
            let i = choose|i: int| 0 <= i < front.len() && (#[trigger] front[i]).name@ == name;
            assert(headers[i].name@ == name);
        }
    }
}

/// A header line is read as its name, whatever its case, and its value.
pub proof fn lemma_header_line_reads(line: &str, header: Option<Header>, name: Seq<char>, value: Seq<char>)
    requires
        call_ensures(parse_header_line, (line,), header),
        line@ == name + ": "@ + value,
        !name.contains(':'),
        trim(name) == name,
        trim_start(value) == value,
        trim_end(value) == value,
    ensures
        header is Some,
        header->0.name@ == lower_all(name),
        header->0.value@ == value,
{
    reveal_strlit(": ");
    let at = name.len() as int;
    assert forall|j: int| 0 <= j < at implies line@[j] != ':' by {
        assert(line@[j] == name[j]);
        assert(name.contains(name[j]));
    }
    assert(line@[at] == ':');
    crate::text::lemma_first_index(line@, ':', at);
    assert(line@.take(at) =~= name);
    let rest = line@.skip(at + 1);
    assert(rest[0] == ' ');
    assert(rest.drop_first() =~= value);
}

proof fn lemma_word_len(word: Seq<char>, rest: Seq<char>)
    requires
        forall|i: int| 0 <= i < word.len() ==> !is_space(#[trigger] word[i]),
        rest.len() == 0 || is_space(rest[0]),
    ensures
        word_len(word + rest) == word.len(),
    decreases word.len(),
{
    let s = word + rest;
    if word.len() == 0 {
        assert(s =~= rest);
    } else {
        assert(s[0] == word[0]);
        let tail = word.drop_first();
        assert forall|i: int| 0 <= i < tail.len() implies !is_space(#[trigger] tail[i]) by {
            assert(tail[i] == word[i + 1]);
        }
        lemma_word_len(tail, rest);
        assert(s.drop_first() =~= tail + rest);
    }
}

/// The first line of a request is its method, and then its target.
pub proof fn lemma_request_line_reads(
    line: &str,
    parts: (String, String),
    method: Seq<char>,
    target: Seq<char>,
    rest: Seq<char>,
)
    requires
        call_ensures(parse_request_line, (line,), parts),
        line@ == method + " "@ + target + " "@ + rest,
        method.len() > 0,
        target.len() > 0,
        forall|i: int| 0 <= i < method.len() ==> !is_space(#[trigger] method[i]),
        forall|i: int| 0 <= i < target.len() ==> !is_space(#[trigger] target[i]),
    ensures
        parts.0@ == method,
        parts.1@ == target,
{
    reveal_strlit(" ");
    let tail = " "@ + target + " "@ + rest;
    assert(line@ =~= method + tail);
    assert(!is_space(method[0]) && line@[0] == method[0]);
    assert(tail[0] == ' ');
    lemma_word_len(method, tail);
    assert(line@.take(method.len() as int) =~= method);
    let after = line@.skip(method.len() as int);
    assert(after =~= tail);
    let end = " "@ + rest;
    assert(after.drop_first() =~= target + end);
    assert(after.drop_first()[0] == target[0]);
    assert(!is_space(target[0]));
    assert(trim_start(after) == after.drop_first()) by {
        reveal_with_fuel(trim_start, 2);
    }
    assert(end[0] == ' ');
    lemma_word_len(target, end);
    assert((target + end).take(target.len() as int) =~= target);
}

/// The head of an answer begins with its status, and holds every header line.
pub proof fn lemma_head_tells_everything(status: &str, headers: &Vec<Header>, now: i64, head: String)
    requires
        call_ensures(write_head, (status, headers, now), head),
    ensures
        begins_with(head@, "HTTP/1.1 "@ + status@ + "\r\n"@),
        forall|i: int|
            #![trigger headers@[i]]
            0 <= i < headers@.len() ==> crate::text::has_part(
                head@,
                headers@[i].name@ + ": "@ + headers@[i].value@ + "\r\n"@,
            ),
{
    let first = "HTTP/1.1 "@ + status@ + "\r\n"@;
    let second = "Date: "@ + rfc1123_of(now as int) + "\r\nServer: ferry\r\nDAV: 1, 2\r\n"@;
    let lines = headers_text(headers@);
    assert(head@ =~= first + second + lines + "\r\n"@);
    assert(head@.take(first.len() as int) =~= first);
    assert forall|i: int|
        #![trigger headers@[i]]
        0 <= i < headers@.len() implies crate::text::has_part(
        head@,
        headers@[i].name@ + ": "@ + headers@[i].value@ + "\r\n"@,
    ) by {
        let line = headers@[i].name@ + ": "@ + headers@[i].value@ + "\r\n"@;
        let at = lemma_header_in_text(headers@, i);
        let k = (first.len() + second.len()) as int + at;
        assert(head@.subrange(k, (k + line.len()) as int) =~= lines.subrange(
            at,
            (at + line.len()) as int,
        ));
        assert(crate::text::occurs_at(head@, line, k));
    }
}

/// Where a header line stands among all of them.
proof fn lemma_header_in_text(headers: Seq<Header>, i: int) -> (at: int)
    requires
        0 <= i < headers.len(),
    ensures
        crate::text::occurs_at(
            headers_text(headers),
            headers[i].name@ + ": "@ + headers[i].value@ + "\r\n"@,
            at,
        ),
    decreases headers.len(),
{
    let line = headers[i].name@ + ": "@ + headers[i].value@ + "\r\n"@;
    let all = headers_text(headers);
    let before = headers_text(headers.drop_last());
    if i < headers.len() - 1 {
        let at = lemma_header_in_text(headers.drop_last(), i);
        assert(headers.drop_last()[i] == headers[i]);
        assert(all.subrange(at, (at + line.len()) as int) =~= before.subrange(
            at,
            (at + line.len()) as int,
        ));
        at
    } else {
        let at = before.len() as int;
        assert(all.subrange(at, (at + line.len()) as int) =~= line);
        at
    }
}

/// Text that was spelled for a URL is itself again once it is decoded.
pub proof fn lemma_url_reads_back(input: &str, text: String, path: Seq<char>)
    requires
        call_ensures(percent_decode, (input,), text),
        input@ == crate::dav::xml::percent_encoded(encode_utf8(path)),
    ensures
        text@ == path,
{
    crate::dav::xml::lemma_spelling_reads_back(encode_utf8(path));
    vstd::utf8::encode_utf8_valid_utf8(path);
    vstd::utf8::encode_utf8_decode_utf8(path);
}

} // verus!
