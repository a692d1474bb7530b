//! `OPTIONS`, and the check every other verb goes through.

use crate::dav::http::{
    base64_bytes, base64_decode, base64_digits, base64_skipped, base64_value, constant_time_eq,
};
use crate::dav::reply::{just, only_reply, Outcome, Reply, ReplyView};
use crate::text::{
    begins_with, chars_of, find_char, first_index, lemma_first_index_meaning, optional, same_text,
    starts_with, text_of, utf8_text,
};
use vstd::prelude::*;
use vstd::slice::slice_subrange;
use vstd::string::StringSliceAdditionalSpecFns;
use vstd::utf8::{decode_utf8, encode_utf8, valid_utf8};

verus! {

/// The methods the bridge answers.
pub open spec fn allowed_methods() -> Seq<char> {
    "OPTIONS, GET, HEAD, PUT, PROPFIND, PROPPATCH, MKCOL, DELETE, MOVE, COPY, LOCK, UNLOCK"@
}

/// What `OPTIONS` is answered with.
pub open spec fn options_view() -> ReplyView {
    ReplyView {
        status: "200 OK"@,
        headers: seq![
            ("Allow"@, allowed_methods()),
            ("MS-Author-Via"@, "DAV"@),
            ("Content-Length"@, "0"@),
        ],
        body: Seq::empty(),
    }
}

/// What a method the bridge does not answer is answered with.
pub open spec fn method_not_allowed_view() -> ReplyView {
    ReplyView {
        status: "405 Method Not Allowed"@,
        headers: seq![("Allow"@, allowed_methods()), ("Content-Length"@, "0"@)],
        body: Seq::empty(),
    }
}

/// `OPTIONS`.
pub fn options() -> (outcome: Outcome)
    ensures
        outcome@ == only_reply(options_view()),
{
    let reply = Reply { status: "200 OK", headers: Vec::new(), body: Vec::new() };
    let reply = reply.and_header(
        "Allow",
        "OPTIONS, GET, HEAD, PUT, PROPFIND, PROPPATCH, MKCOL, DELETE, MOVE, COPY, LOCK, UNLOCK",
    ).and_header("MS-Author-Via", "DAV").and_header("Content-Length", "0");
    assert(reply@ =~= options_view());
    just(reply)
}

/// A method the bridge does not answer.
pub fn method_not_allowed() -> (outcome: Outcome)
    ensures
        outcome@ == only_reply(method_not_allowed_view()),
{
    let reply = Reply { status: "405 Method Not Allowed", headers: Vec::new(), body: Vec::new() };
    let reply = reply.and_header(
        "Allow",
        "OPTIONS, GET, HEAD, PUT, PROPFIND, PROPPATCH, MKCOL, DELETE, MOVE, COPY, LOCK, UNLOCK",
    ).and_header("Content-Length", "0");
    assert(reply@ =~= method_not_allowed_view());
    just(reply)
}

/// The bytes that a Basic credential holds, where it is one.
pub open spec fn basic_bytes(header: Seq<char>) -> Option<Seq<u8>> {
    if begins_with(header, "Basic "@) {
        match base64_digits(header.skip("Basic "@.len() as int)) {
            Some(digits) => Some(base64_bytes(digits)),
            None => None,
        }
    } else {
        None
    }
}

/// The user and the password that a Basic credential names.
pub open spec fn credentials(header: Option<Seq<char>>) -> Option<(Seq<char>, Seq<char>)> {
    match header {
        None => None,
        Some(h) => match basic_bytes(h) {
            None => None,
            Some(bytes) => if !valid_utf8(bytes) {
                None
            } else {
                let text = decode_utf8(bytes);
                if text.contains(':') {
                    let at = first_index(text, ':');
                    Some((text.take(at), text.skip(at + 1)))
                } else {
                    None
                }
            },
        },
    }
}

/// Whether the value of `Authorization` names this user and this password.
/// The password is compared in a time that does not depend on where it
/// differs.
pub fn authorized(user: &str, password: &str, header: Option<&str>) -> (yes: bool)
    ensures
        yes == (credentials(optional(header)) == Some((user@, password@))),
{
    let header = match header {
        None => {
            return false;
        },
        Some(h) => h,
    };
    let chars = chars_of(header);
    if !starts_with(chars.as_slice(), "Basic ") {
        return false;
    }
    let from: usize = chars_of("Basic ").len();
    let part = slice_subrange(chars.as_slice(), from, chars.len());
    assert(part@ =~= header@.skip("Basic "@.len() as int));
    let encoded = text_of(part);
    let bytes = match base64_decode(encoded.as_str()) {
        None => {
            return false;
        },
        Some(b) => b,
    };
    let text = match utf8_text(bytes) {
        None => {
            return false;
        },
        Some(t) => t,
    };
    let letters = chars_of(text.as_str());
    match find_char(letters.as_slice(), ':') {
        None => false,
        Some(at) => {
            proof {
                lemma_first_index_meaning(text@, ':');
            }
            let name = text_of(slice_subrange(letters.as_slice(), 0, at));
            let secret = text_of(slice_subrange(letters.as_slice(), at + 1, letters.len()));
            proof {
                assert(name@ =~= text@.take(first_index(text@, ':')));
                assert(secret@ =~= text@.skip(first_index(text@, ':') + 1));
            }
            let same_user = same_text(name.as_str(), user);
            let same_password = constant_time_eq(
                secret.as_str().as_bytes(),
                password.as_bytes(),
            );
            proof {
                if encode_utf8(secret@) == encode_utf8(password@) {
                    crate::text::lemma_encode_utf8_injective(secret@, password@);
                }
            }
            same_user && same_password
        },
    }
}

/// The letter of six bits.
pub open spec fn base64_letter(n: int) -> char {
    if n < 26 {
        (65 + n) as char
    } else if n < 52 {
        (71 + n) as char
    } else if n < 62 {
        (n - 4) as char
    } else if n == 62 {
        '+'
    } else {
        '/'
    }
}

/// Bytes as a client spells them: three of them in four letters, with signs
/// at the end for what is missing.
pub open spec fn base64_text(bytes: Seq<u8>) -> Seq<char>
    decreases bytes.len(),
{
    if bytes.len() == 0 {
        Seq::empty()
    } else if bytes.len() == 1 {
        seq![
            base64_letter(bytes[0] as int / 4),
            base64_letter((bytes[0] as int % 4) * 16),
            '=',
            '=',
        ]
    } else if bytes.len() == 2 {
        seq![
            base64_letter(bytes[0] as int / 4),
            base64_letter((bytes[0] as int % 4) * 16 + bytes[1] as int / 16),
            base64_letter((bytes[1] as int % 16) * 4),
            '=',
        ]
    } else {
        seq![
            base64_letter(bytes[0] as int / 4),
            base64_letter((bytes[0] as int % 4) * 16 + bytes[1] as int / 16),
            base64_letter((bytes[1] as int % 16) * 4 + bytes[2] as int / 64),
            base64_letter(bytes[2] as int % 64),
        ] + base64_text(bytes.skip(3))
    }
}

proof fn lemma_letter_reads_back(n: int)
    requires
        0 <= n < 64,
    ensures
        base64_value(base64_letter(n)) == Some(n as u8),
        !base64_skipped(base64_letter(n)),
{
}

/// Letters in two parts read as the two parts do.
proof fn lemma_digits_join(a: Seq<char>, b: Seq<char>)
    requires
        base64_digits(a) is Some,
        base64_digits(b) is Some,
    ensures
        base64_digits(a + b) == Some(base64_digits(a)->0 + base64_digits(b)->0),
    decreases b.len(),
{
    if b.len() == 0 {
        assert(a + b =~= a);
        assert(base64_digits(a)->0 + base64_digits(b)->0 =~= base64_digits(a)->0);
    } else {
        let front = b.drop_last();
        assert((a + b).drop_last() =~= a + front);
        assert((a + b).last() == b.last());
        lemma_digits_join(a, front);
        assert(base64_digits(a + b)->0 =~= base64_digits(a)->0 + base64_digits(b)->0);
    }
}

proof fn lemma_one_letter(c: char, n: int)
    requires
        0 <= n < 64,
        c == base64_letter(n),
    ensures
        base64_digits(seq![c]) == Some(seq![n as u8]),
{
    lemma_letter_reads_back(n);
    let s = seq![c];
    assert(s.drop_last() =~= Seq::<char>::empty());
    assert(base64_digits(s.drop_last()) == Some(Seq::<u8>::empty()));
    assert(Seq::<u8>::empty().push(n as u8) =~= seq![n as u8]);
}

proof fn lemma_no_letter()
    ensures
        base64_digits(seq!['=']) == Some(Seq::<u8>::empty()),
{
    let s = seq!['='];
    assert(s.drop_last() =~= Seq::<char>::empty());
    assert(base64_digits(s.drop_last()) == Some(Seq::<u8>::empty()));
}

proof fn lemma_two_letters(a: int, b: int)
    requires
        0 <= a < 64,
        0 <= b < 64,
    ensures
        base64_digits(seq![base64_letter(a), base64_letter(b)]) == Some(seq![a as u8, b as u8]),
{
    lemma_one_letter(base64_letter(a), a);
    lemma_one_letter(base64_letter(b), b);
    lemma_digits_join(seq![base64_letter(a)], seq![base64_letter(b)]);
    assert(seq![base64_letter(a)] + seq![base64_letter(b)] =~= seq![
        base64_letter(a),
        base64_letter(b),
    ]);
    assert(seq![a as u8] + seq![b as u8] =~= seq![a as u8, b as u8]);
}

proof fn lemma_one_byte_text(a: int, b: int)
    requires
        0 <= a < 64,
        0 <= b < 64,
    ensures
        base64_digits(seq![base64_letter(a), base64_letter(b), '=', '=']) == Some(
            seq![a as u8, b as u8],
        ),
{
    let two = seq![base64_letter(a), base64_letter(b)];
    let none = Seq::<u8>::empty();
    lemma_two_letters(a, b);
    lemma_no_letter();
    lemma_digits_join(two, seq!['=']);
    lemma_digits_join(two + seq!['='], seq!['=']);
    assert(two + seq!['='] + seq!['='] =~= seq![base64_letter(a), base64_letter(b), '=', '=']);
    assert(seq![a as u8, b as u8] + none + none =~= seq![a as u8, b as u8]);
}

proof fn lemma_two_byte_text(a: int, b: int, c: int)
    requires
        0 <= a < 64,
        0 <= b < 64,
        0 <= c < 64,
    ensures
        base64_digits(
            seq![base64_letter(a), base64_letter(b), base64_letter(c), '='],
        ) == Some(seq![a as u8, b as u8, c as u8]),
{
    let two = seq![base64_letter(a), base64_letter(b)];
    let third = seq![base64_letter(c)];
    let none = Seq::<u8>::empty();
    lemma_two_letters(a, b);
    lemma_one_letter(base64_letter(c), c);
    lemma_no_letter();
    lemma_digits_join(two, third);
    lemma_digits_join(two + third, seq!['=']);
    assert(two + third + seq!['='] =~= seq![
        base64_letter(a),
        base64_letter(b),
        base64_letter(c),
        '=',
    ]);
    assert(seq![a as u8, b as u8] + seq![c as u8] + none =~= seq![a as u8, b as u8, c as u8]);
}

proof fn lemma_four_letters(a: int, b: int, c: int, d: int)
    requires
        0 <= a < 64,
        0 <= b < 64,
        0 <= c < 64,
        0 <= d < 64,
    ensures
        base64_digits(
            seq![base64_letter(a), base64_letter(b), base64_letter(c), base64_letter(d)],
        ) == Some(seq![a as u8, b as u8, c as u8, d as u8]),
{
    let two = seq![base64_letter(a), base64_letter(b)];
    let more = seq![base64_letter(c), base64_letter(d)];
    lemma_two_letters(a, b);
    lemma_two_letters(c, d);
    lemma_digits_join(two, more);
    assert(two + more =~= seq![
        base64_letter(a),
        base64_letter(b),
        base64_letter(c),
        base64_letter(d),
    ]);
    assert(seq![a as u8, b as u8] + seq![c as u8, d as u8] =~= seq![
        a as u8,
        b as u8,
        c as u8,
        d as u8,
    ]);
}

/// What a client spells reads back as the bytes that it meant.
pub proof fn lemma_base64_reads_back(bytes: Seq<u8>)
    ensures
        base64_digits(base64_text(bytes)) is Some,
        base64_bytes(base64_digits(base64_text(bytes))->0) == bytes,
    decreases bytes.len(),
{
    if bytes.len() == 0 {
        assert(base64_bytes(Seq::<u8>::empty()) =~= bytes);
    } else if bytes.len() == 1 {
        let a = bytes[0] as int / 4;
        let b = (bytes[0] as int % 4) * 16;
        lemma_one_byte_text(a, b);
        assert(base64_bytes(seq![a as u8, b as u8]) =~= bytes);
    } else if bytes.len() == 2 {
        let a = bytes[0] as int / 4;
        let b = (bytes[0] as int % 4) * 16 + bytes[1] as int / 16;
        let c = (bytes[1] as int % 16) * 4;
        lemma_two_byte_text(a, b, c);
        assert(base64_bytes(seq![a as u8, b as u8, c as u8]) =~= bytes);
    } else {
        let a = bytes[0] as int / 4;
        let b = (bytes[0] as int % 4) * 16 + bytes[1] as int / 16;
        let c = (bytes[1] as int % 16) * 4 + bytes[2] as int / 64;
        let d = bytes[2] as int % 64;
        let four = seq![base64_letter(a), base64_letter(b), base64_letter(c), base64_letter(d)];
        let rest = base64_text(bytes.skip(3));
        lemma_four_letters(a, b, c, d);
        lemma_base64_reads_back(bytes.skip(3));
        lemma_digits_join(four, rest);
        lemma_group_reads_back(bytes, base64_digits(rest)->0);
    }
}

/// Four digits are three bytes, whatever follows them.
proof fn lemma_group_reads_back(bytes: Seq<u8>, more: Seq<u8>)
    requires
        bytes.len() >= 3,
        base64_bytes(more) == bytes.skip(3),
    ensures
        base64_bytes(
            seq![
                (bytes[0] as int / 4) as u8,
                ((bytes[0] as int % 4) * 16 + bytes[1] as int / 16) as u8,
                ((bytes[1] as int % 16) * 4 + bytes[2] as int / 64) as u8,
                (bytes[2] as int % 64) as u8,
            ] + more,
        ) == bytes,
{
    let four = seq![
        (bytes[0] as int / 4) as u8,
        ((bytes[0] as int % 4) * 16 + bytes[1] as int / 16) as u8,
        ((bytes[1] as int % 16) * 4 + bytes[2] as int / 64) as u8,
        (bytes[2] as int % 64) as u8,
    ];
    let digits = four + more;
    assert(digits.skip(4) =~= more);
    assert(digits[0] == four[0] && digits[1] == four[1] && digits[2] == four[2] && digits[3]
        == four[3]);
    let one = (digits[0] * 4 + digits[1] / 16) as u8;
    let two = ((digits[1] % 16) * 16 + digits[2] / 4) as u8;
    let three = ((digits[2] % 4) * 64 + digits[3]) as u8;
    assert(one == bytes[0]);
    assert(two == bytes[1]);
    assert(three == bytes[2]);
    assert(base64_bytes(digits) == seq![one, two, three] + base64_bytes(more));
    assert(bytes =~= seq![bytes[0], bytes[1], bytes[2]] + bytes.skip(3));
}

/// A client that sends the name and the password it was told is let in, and
/// one that sends another password is not.
pub proof fn lemma_right_password_is_let_in(
    user: &str,
    password: &str,
    header: &str,
    yes: bool,
    sent: Seq<char>,
)
    requires
        call_ensures(authorized, (user, password, Some(header)), yes),
        header@ == "Basic "@ + base64_text(encode_utf8(user@ + ":"@ + sent)),
        !user@.contains(':'),
    ensures
        yes <==> sent == password@,
{
    reveal_strlit(":");
    let text = user@ + ":"@ + sent;
    let bytes = encode_utf8(text);
    lemma_base64_reads_back(bytes);
    vstd::utf8::encode_utf8_valid_utf8(text);
    vstd::utf8::encode_utf8_decode_utf8(text);
    let n = "Basic "@.len() as int;
    assert(header@.take(n) =~= "Basic "@);
    assert(header@.skip(n) =~= base64_text(bytes));
    let at = user@.len() as int;
    assert forall|j: int| 0 <= j < at implies text[j] != ':' by {
        assert(text[j] == user@[j]);
        assert(user@.contains(user@[j]));
    }
    assert(text[at] == ':');
    crate::text::lemma_first_index(text, ':', at);
    assert(text.take(at) =~= user@);
    assert(text.skip(at + 1) =~= sent);
}

/// Without a header nobody is let in.
pub proof fn lemma_no_password_no_entry(user: &str, password: &str, yes: bool)
    requires
        call_ensures(authorized, (user, password, None::<&str>), yes),
    ensures
        !yes,
{
}

} // verus!
