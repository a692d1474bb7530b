//! Text as sequences of characters: searching, trimming, comparing, and the
//! decimal and hexadecimal numbers that the file formats and the protocols of
//! this crate spell out.
//!
//! A `str` is viewed as the sequence of its characters. The executable
//! functions here work on slices of characters, which [`chars_of`] and
//! [`text_of`] convert from and to text.

use vstd::prelude::*;
use vstd::slice::slice_subrange;
use vstd::string::StringSliceAdditionalSpecFns;
use vstd::utf8::{decode_utf8, encode_utf8, encode_utf8_decode_utf8, valid_utf8};

verus! {

// ---------------------------------------------------------------------------
// What std does.
// ---------------------------------------------------------------------------

/// `String::push`: the documentation says it appends the character to the
/// end of the string, and that is the whole claim.
pub assume_specification[ String::push ](s: &mut String, c: char)
    ensures
        final(s)@ == old(s)@.push(c),
;

/// `String::push_str`: the documentation says it appends the string slice
/// to the end of the string, and that is the whole claim.
pub assume_specification[ String::push_str ](s: &mut String, other: &str)
    ensures
        final(s)@ == old(s)@ + other@,
;

/// `String::from_utf8`: the documentation says it converts a vector of bytes
/// to a string when the bytes are valid UTF-8, and fails otherwise. The claim
/// is that, with the text being what the bytes decode to.
#[verifier::external_body]
fn string_from_utf8(bytes: Vec<u8>) -> (text: Option<String>)
    ensures
        text is Some <==> valid_utf8(bytes@),
        text matches Some(t) ==> t@ == decode_utf8(bytes@),
{
    String::from_utf8(bytes).ok()
}

/// What `String::from_utf8_lossy` makes of a sequence of bytes.
pub uninterp spec fn lossy_utf8(bytes: Seq<u8>) -> Seq<char>;

/// `String::from_utf8_lossy`: the text depends on the bytes alone, so it is
/// named; and the documentation says that valid UTF-8 comes out unchanged.
/// Where in invalid bytes the replacement characters fall is left unsaid.
#[verifier::external_body]
fn string_from_utf8_lossy(bytes: &[u8]) -> (text: String)
    ensures
        text@ == lossy_utf8(bytes@),
        valid_utf8(bytes@) ==> text@ == decode_utf8(bytes@),
{
    String::from_utf8_lossy(bytes).into_owned()
}

/// The text that `bytes` encode, or `None` when they are not UTF-8.
pub fn utf8_text(bytes: Vec<u8>) -> (text: Option<String>)
    ensures
        text is Some <==> valid_utf8(bytes@),
        text matches Some(t) ==> t@ == decode_utf8(bytes@),
{
    string_from_utf8(bytes)
}

/// The text that `bytes` encode, with whatever is not UTF-8 replaced.
pub fn utf8_text_lossy(bytes: &[u8]) -> (text: String)
    ensures
        text@ == lossy_utf8(bytes@),
        valid_utf8(bytes@) ==> text@ == decode_utf8(bytes@),
{
    string_from_utf8_lossy(bytes)
}

// ---------------------------------------------------------------------------
// Comparing and converting.
// ---------------------------------------------------------------------------

/// Whether two byte strings are the same.
pub fn same_bytes(a: &[u8], b: &[u8]) -> (same: bool)
    ensures
        same == (a@ == b@),
{
    if a.len() != b.len() {
        return false;
    }
    let mut i: usize = 0;
    while i < a.len()
        invariant
            a.len() == b.len(),
            i <= a.len(),
            forall|j: int| 0 <= j < i ==> a@[j] == b@[j],
        decreases a.len() - i,
    {
        if a[i] != b[i] {
            return false;
        }
        i += 1;
    }
    assert(a@ =~= b@);
    true
}

/// Two texts with the same UTF-8 bytes are the same text.
pub proof fn lemma_encode_utf8_injective(a: Seq<char>, b: Seq<char>)
    ensures
        encode_utf8(a) == encode_utf8(b) ==> a == b,
{
    encode_utf8_decode_utf8(a);
    encode_utf8_decode_utf8(b);
}

/// Whether two texts are the same.
pub fn same_text(a: &str, b: &str) -> (same: bool)
    ensures
        same == (a@ == b@),
{
    proof {
        lemma_encode_utf8_injective(a@, b@);
    }
    same_bytes(a.as_bytes(), b.as_bytes())
}

/// The characters of `text`, in order.
pub fn chars_of(text: &str) -> (chars: Vec<char>)
    ensures
        chars@ == text@,
{
    let mut chars: Vec<char> = Vec::new();
    for c in it: text.chars()
        invariant
            chars@ == it.seq().take(it.index() as int),
    {
        chars.push(c);
    }
    chars
}

/// The text made of `chars`, in order.
pub fn text_of(chars: &[char]) -> (text: String)
    ensures
        text@ == chars@,
{
    let mut text = String::new();
    let mut i: usize = 0;
    while i < chars.len()
        invariant
            i <= chars.len(),
            text@ == chars@.take(i as int),
        decreases chars.len() - i,
    {
        text.push(chars[i]);
        i += 1;
        assert(chars@.take(i as int) =~= chars@.take(i - 1).push(chars@[i - 1]));
    }
    assert(chars@.take(chars@.len() as int) =~= chars@);
    text
}

/// A copy of `text` with the same characters.
pub fn copy_of(text: &str) -> (copy: String)
    ensures
        copy@ == text@,
{
    let mut copy = String::new();
    copy.push_str(text);
    assert(copy@ =~= text@);
    copy
}

/// The view of an optional text.
pub open spec fn optional(value: Option<&str>) -> Option<Seq<char>> {
    match value {
        Some(v) => Some(v@),
        None => None,
    }
}

/// The view of an optional text of one's own.
pub open spec fn opt_view(value: Option<String>) -> Option<Seq<char>> {
    match value {
        Some(v) => Some(v@),
        None => None,
    }
}

/// The same optional text once more.
pub fn copy_opt(value: &Option<String>) -> (copy: Option<String>)
    ensures
        opt_view(copy) == opt_view(*value),
{
    match value {
        Some(v) => Some(copy_of(v.as_str())),
        None => None,
    }
}

/// What some texts say.
pub open spec fn text_views(texts: Seq<String>) -> Seq<Seq<char>> {
    texts.map_values(|t: String| t@)
}

/// The same texts once more.
pub fn copy_texts(texts: &Vec<String>) -> (copies: Vec<String>)
    ensures
        text_views(copies@) == text_views(texts@),
{
    let mut copies: Vec<String> = Vec::new();
    let mut i: usize = 0;
    while i < texts.len()
        invariant
            i <= texts.len(),
            text_views(copies@) == text_views(texts@).take(i as int),
        decreases texts.len() - i,
    {
        let ghost so_far = text_views(copies@);
        let copy = copy_of(texts[i].as_str());
        let ghost v = copy@;
        copies.push(copy);
        assert(text_views(copies@) =~= so_far.push(v));
        assert(text_views(texts@).take(i + 1) =~= so_far.push(v));
        i += 1;
    }
    assert(text_views(texts@).take(texts@.len() as int) =~= text_views(texts@));
    copies
}

/// Whether two character slices are the same.
pub fn same_chars(a: &[char], b: &[char]) -> (same: bool)
    ensures
        same == (a@ == b@),
{
    if a.len() != b.len() {
        return false;
    }
    let mut i: usize = 0;
    while i < a.len()
        invariant
            a.len() == b.len(),
            i <= a.len(),
            forall|j: int| 0 <= j < i ==> a@[j] == b@[j],
        decreases a.len() - i,
    {
        if a[i] != b[i] {
            return false;
        }
        i += 1;
    }
    assert(a@ =~= b@);
    true
}

// ---------------------------------------------------------------------------
// Searching.
// ---------------------------------------------------------------------------

/// `needle` stands in `hay` at position `at`.
pub open spec fn occurs_at<T>(hay: Seq<T>, needle: Seq<T>, at: int) -> bool {
    &&& 0 <= at
    &&& at + needle.len() <= hay.len()
    &&& hay.subrange(at, at + needle.len()) == needle
}

/// `needle` stands somewhere in `hay`.
pub open spec fn has_part<T>(hay: Seq<T>, needle: Seq<T>) -> bool {
    exists|at: int| occurs_at(hay, needle, at)
}

/// `s` begins with `prefix`.
pub open spec fn begins_with<T>(s: Seq<T>, prefix: Seq<T>) -> bool {
    prefix.len() <= s.len() && s.take(prefix.len() as int) == prefix
}

/// `s` ends with `suffix`.
pub open spec fn finishes_with<T>(s: Seq<T>, suffix: Seq<T>) -> bool {
    suffix.len() <= s.len() && s.skip(s.len() - suffix.len()) == suffix
}

/// The position of the first `x` in `s`, or the length of `s` where there is
/// none.
pub open spec fn first_index<T>(s: Seq<T>, x: T) -> int
    decreases s.len(),
{
    if s.len() == 0 || s[0] == x {
        0
    } else {
        1 + first_index(s.drop_first(), x)
    }
}

/// The position of the last `x` in `s`, or -1 where there is none.
pub open spec fn last_index<T>(s: Seq<T>, x: T) -> int
    decreases s.len(),
{
    if s.len() == 0 {
        -1
    } else if s.last() == x {
        s.len() - 1
    } else {
        last_index(s.drop_last(), x)
    }
}

/// What [`first_index`] is, said position by position.
pub proof fn lemma_first_index<T>(s: Seq<T>, x: T, at: int)
    requires
        0 <= at <= s.len(),
        forall|j: int| 0 <= j < at ==> s[j] != x,
        at == s.len() || s[at] == x,
    ensures
        first_index(s, x) == at,
    decreases s.len(),
{
    if s.len() > 0 && s[0] != x {
        assert forall|j: int| 0 <= j < at - 1 implies s.drop_first()[j] != x by {
            assert(s.drop_first()[j] == s[j + 1]);
        }
        lemma_first_index(s.drop_first(), x, at - 1);
    }
}

/// [`first_index`] is a position of `x` with no `x` before it, or the length.
pub proof fn lemma_first_index_meaning<T>(s: Seq<T>, x: T)
    ensures
        0 <= first_index(s, x) <= s.len(),
        forall|j: int| 0 <= j < first_index(s, x) ==> s[j] != x,
        first_index(s, x) < s.len() ==> s[first_index(s, x)] == x,
        s.contains(x) <==> first_index(s, x) < s.len(),
    decreases s.len(),
{
    if s.len() > 0 && s[0] != x {
        let rest = s.drop_first();
        lemma_first_index_meaning(rest, x);
        assert forall|j: int| 0 <= j < first_index(s, x) implies s[j] != x by {
            if j > 0 {
                assert(rest[j - 1] == s[j]);
            }
        }
        if s.contains(x) {
            let k = choose|k: int| 0 <= k < s.len() && s[k] == x;
            assert(rest[k - 1] == x);
        }
    } else if s.len() > 0 {
        assert(s[0] == x);
    }
}

/// What [`last_index`] is, said position by position.
pub proof fn lemma_last_index<T>(s: Seq<T>, x: T, at: int)
    requires
        -1 <= at < s.len(),
        forall|j: int| at < j < s.len() ==> s[j] != x,
        at == -1 || s[at] == x,
    ensures
        last_index(s, x) == at,
    decreases s.len(),
{
    if s.len() > 0 && s.last() != x {
        lemma_last_index(s.drop_last(), x, at);
    }
}

/// [`last_index`] is a position of `x` with no `x` after it, or -1.
pub proof fn lemma_last_index_meaning<T>(s: Seq<T>, x: T)
    ensures
        -1 <= last_index(s, x) < s.len(),
        forall|j: int| last_index(s, x) < j < s.len() ==> s[j] != x,
        last_index(s, x) >= 0 ==> s[last_index(s, x)] == x,
        s.contains(x) <==> last_index(s, x) >= 0,
    decreases s.len(),
{
    if s.len() > 0 && s.last() != x {
        lemma_last_index_meaning(s.drop_last(), x);
        assert forall|j: int| last_index(s, x) < j < s.len() implies s[j] != x by {
            if j < s.len() - 1 {
                assert(s.drop_last()[j] == s[j]);
            }
        }
        if s.contains(x) {
            let k = choose|k: int| 0 <= k < s.len() && s[k] == x;
            assert(s.drop_last()[k] == x);
        }
    }
}

/// The position of the first `c` in `chars`.
pub fn find_char(chars: &[char], c: char) -> (at: Option<usize>)
    ensures
        at matches Some(i) ==> i < chars@.len() && first_index(chars@, c) == i && chars@[i as int]
            == c && chars@.contains(c),
        at is None ==> first_index(chars@, c) == chars@.len() && !chars@.contains(c),
{
    proof {
        lemma_first_index_meaning(chars@, c);
    }
    let mut i: usize = 0;
    while i < chars.len()
        invariant
            i <= chars.len(),
            forall|j: int| 0 <= j < i ==> chars@[j] != c,
        decreases chars.len() - i,
    {
        if chars[i] == c {
            proof {
                lemma_first_index(chars@, c, i as int);
            }
            return Some(i);
        }
        i += 1;
    }
    proof {
        lemma_first_index(chars@, c, i as int);
    }
    None
}

/// The position of the last `c` in `chars`.
pub fn rfind_char(chars: &[char], c: char) -> (at: Option<usize>)
    ensures
        at matches Some(i) ==> i < chars@.len() && last_index(chars@, c) == i && chars@[i as int]
            == c && chars@.contains(c),
        at is None ==> last_index(chars@, c) == -1 && !chars@.contains(c),
{
    proof {
        lemma_last_index_meaning(chars@, c);
    }
    let mut i: usize = chars.len();
    while i > 0
        invariant
            i <= chars.len(),
            forall|j: int| i <= j < chars@.len() ==> chars@[j] != c,
        decreases i,
    {
        i -= 1;
        if chars[i] == c {
            proof {
                lemma_last_index(chars@, c, i as int);
            }
            return Some(i);
        }
    }
    proof {
        lemma_last_index(chars@, c, -1);
    }
    None
}

/// Whether `needle` stands in `hay` at `at`.
fn chars_at(hay: &[char], needle: &[char], at: usize) -> (found: bool)
    requires
        at + needle@.len() <= hay@.len(),
    ensures
        found == occurs_at(hay@, needle@, at as int),
{
    let len: usize = hay.len();
    let mut j: usize = 0;
    while j < needle.len()
        invariant
            len == hay@.len(),
            at + needle@.len() <= hay@.len(),
            j <= needle.len(),
            forall|k: int| 0 <= k < j ==> hay@[at + k] == needle@[k],
        decreases needle.len() - j,
    {
        if hay[at + j] != needle[j] {
            assert(hay@.subrange(at as int, at + needle@.len())[j as int] != needle@[j as int]);
            return false;
        }
        j += 1;
    }
    assert(hay@.subrange(at as int, at + needle@.len()) =~= needle@);
    true
}

/// Whether `needle` stands somewhere in `hay`.
pub fn contains_chars(hay: &[char], needle: &[char]) -> (found: bool)
    ensures
        found == has_part(hay@, needle@),
{
    if needle.len() > hay.len() {
        return false;
    }
    let last: usize = hay.len() - needle.len();
    let mut i: usize = 0;
    while i <= last
        invariant
            i <= last + 1,
            last == hay@.len() - needle@.len(),
            hay@.len() <= usize::MAX,
            forall|k: int| 0 <= k < i ==> !occurs_at(hay@, needle@, k),
        decreases last + 1 - i,
    {
        if chars_at(hay, needle, i) {
            return true;
        }
        if i == last {
            assert(!has_part(hay@, needle@));
            return false;
        }
        i += 1;
    }
    false
}

/// Whether `needle` stands somewhere in `hay`, byte for byte.
pub fn contains_bytes(hay: &[u8], needle: &[u8]) -> (found: bool)
    ensures
        found == has_part(hay@, needle@),
{
    if needle.len() > hay.len() {
        return false;
    }
    let last: usize = hay.len() - needle.len();
    let mut i: usize = 0;
    while i <= last
        invariant
            i <= last + 1,
            last == hay@.len() - needle@.len(),
            hay@.len() <= usize::MAX,
            forall|k: int| 0 <= k < i ==> !occurs_at(hay@, needle@, k),
        decreases last + 1 - i,
    {
        if same_bytes(slice_subrange(hay, i, i + needle.len()), needle) {
            assert(occurs_at(hay@, needle@, i as int));
            return true;
        }
        if i == last {
            assert(!has_part(hay@, needle@));
            return false;
        }
        i += 1;
    }
    false
}

/// Whether `text` holds `part`.
pub fn contains_text(text: &str, part: &str) -> (found: bool)
    ensures
        found == has_part(text@, part@),
{
    let hay = chars_of(text);
    let needle = chars_of(part);
    contains_chars(hay.as_slice(), needle.as_slice())
}

/// Whether `chars` begin with `prefix`.
pub fn starts_with(chars: &[char], prefix: &str) -> (found: bool)
    ensures
        found == begins_with(chars@, prefix@),
{
    let p = chars_of(prefix);
    if p.len() > chars.len() {
        return false;
    }
    assert(chars@.subrange(0, p@.len() as int) =~= chars@.take(p@.len() as int));
    same_chars(slice_subrange(chars, 0, p.len()), p.as_slice())
}

/// Whether `chars` end with `suffix`.
pub fn ends_with(chars: &[char], suffix: &str) -> (found: bool)
    ensures
        found == finishes_with(chars@, suffix@),
{
    let p = chars_of(suffix);
    if p.len() > chars.len() {
        return false;
    }
    assert(chars@.subrange(chars@.len() - p@.len(), chars@.len() as int) =~= chars@.skip(
        chars@.len() - p@.len(),
    ));
    same_chars(slice_subrange(chars, chars.len() - p.len(), chars.len()), p.as_slice())
}

// ---------------------------------------------------------------------------
// White space and case.
// ---------------------------------------------------------------------------

/// The characters with the Unicode `White_Space` property.
pub open spec fn is_space(c: char) -> bool {
    ||| '\u{9}' <= c <= '\u{d}'
    ||| c == ' '
    ||| c == '\u{85}'
    ||| c == '\u{a0}'
    ||| c == '\u{1680}'
    ||| '\u{2000}' <= c <= '\u{200a}'
    ||| c == '\u{2028}'
    ||| c == '\u{2029}'
    ||| c == '\u{202f}'
    ||| c == '\u{205f}'
    ||| c == '\u{3000}'
}

/// `s` without the white space at its start.
pub open spec fn trim_start(s: Seq<char>) -> Seq<char>
    decreases s.len(),
{
    if s.len() > 0 && is_space(s[0]) {
        trim_start(s.drop_first())
    } else {
        s
    }
}

/// `s` without the white space at its end.
pub open spec fn trim_end(s: Seq<char>) -> Seq<char>
    decreases s.len(),
{
    if s.len() > 0 && is_space(s.last()) {
        trim_end(s.drop_last())
    } else {
        s
    }
}

/// `s` without the white space at both of its ends.
pub open spec fn trim(s: Seq<char>) -> Seq<char> {
    trim_end(trim_start(s))
}

/// Whether `c` is white space.
pub fn is_space_char(c: char) -> (space: bool)
    ensures
        space == is_space(c),
{
    ('\u{9}' <= c && c <= '\u{d}') || c == ' ' || c == '\u{85}' || c == '\u{a0}' || c == '\u{1680}'
        || ('\u{2000}' <= c && c <= '\u{200a}') || c == '\u{2028}' || c == '\u{2029}' || c
        == '\u{202f}' || c == '\u{205f}' || c == '\u{3000}'
}

/// The slice of `chars` without the white space at its start.
pub fn trimmed_start(chars: &[char]) -> (part: &[char])
    ensures
        part@ == trim_start(chars@),
{
    let mut i: usize = 0;
    assert(chars@.skip(0) =~= chars@);
    while i < chars.len() && is_space_char(chars[i])
        invariant
            i <= chars.len(),
            trim_start(chars@) == trim_start(chars@.skip(i as int)),
        decreases chars.len() - i,
    {
        assert(chars@.skip(i as int).drop_first() =~= chars@.skip(i + 1));
        i += 1;
    }
    assert(chars@.subrange(i as int, chars@.len() as int) =~= chars@.skip(i as int));
    slice_subrange(chars, i, chars.len())
}

/// The slice of `chars` without the white space at its end.
pub fn trimmed_end(chars: &[char]) -> (part: &[char])
    ensures
        part@ == trim_end(chars@),
{
    let mut i: usize = chars.len();
    assert(chars@.take(i as int) =~= chars@);
    while i > 0 && is_space_char(chars[i - 1])
        invariant
            i <= chars.len(),
            trim_end(chars@) == trim_end(chars@.take(i as int)),
        decreases i,
    {
        assert(chars@.take(i as int).drop_last() =~= chars@.take(i - 1));
        i -= 1;
    }
    assert(chars@.subrange(0, i as int) =~= chars@.take(i as int));
    slice_subrange(chars, 0, i)
}

/// The slice of `chars` without the white space at both ends.
pub fn trimmed(chars: &[char]) -> (part: &[char])
    ensures
        part@ == trim(chars@),
{
    trimmed_end(trimmed_start(chars))
}

/// `s` without every `c` at its start.
pub open spec fn strip_start(s: Seq<char>, c: char) -> Seq<char>
    decreases s.len(),
{
    if s.len() > 0 && s[0] == c {
        strip_start(s.drop_first(), c)
    } else {
        s
    }
}

/// `s` without every `c` at its end.
pub open spec fn strip_end(s: Seq<char>, c: char) -> Seq<char>
    decreases s.len(),
{
    if s.len() > 0 && s.last() == c {
        strip_end(s.drop_last(), c)
    } else {
        s
    }
}

/// `chars` without every `c` at its start.
pub fn stripped_start(chars: &[char], c: char) -> (part: &[char])
    ensures
        part@ == strip_start(chars@, c),
{
    let mut i: usize = 0;
    assert(chars@.skip(0) =~= chars@);
    while i < chars.len() && chars[i] == c
        invariant
            i <= chars.len(),
            strip_start(chars@, c) == strip_start(chars@.skip(i as int), c),
        decreases chars.len() - i,
    {
        assert(chars@.skip(i as int).drop_first() =~= chars@.skip(i + 1));
        i += 1;
    }
    assert(chars@.subrange(i as int, chars@.len() as int) =~= chars@.skip(i as int));
    slice_subrange(chars, i, chars.len())
}

/// `chars` without every `c` at its end.
pub fn stripped_end(chars: &[char], c: char) -> (part: &[char])
    ensures
        part@ == strip_end(chars@, c),
{
    let mut i: usize = chars.len();
    assert(chars@.take(i as int) =~= chars@);
    while i > 0 && chars[i - 1] == c
        invariant
            i <= chars.len(),
            strip_end(chars@, c) == strip_end(chars@.take(i as int), c),
        decreases i,
    {
        assert(chars@.take(i as int).drop_last() =~= chars@.take(i - 1));
        i -= 1;
    }
    assert(chars@.subrange(0, i as int) =~= chars@.take(i as int));
    slice_subrange(chars, 0, i)
}

/// `s` without every `c` at its start and at its end.
pub open spec fn strip_both(s: Seq<char>, c: char) -> Seq<char> {
    strip_end(strip_start(s, c), c)
}

/// `text` without every `c` at its start and at its end.
pub fn stripped(text: &str, c: char) -> (out: String)
    ensures
        out@ == strip_both(text@, c),
{
    let chars = chars_of(text);
    text_of(stripped_end(stripped_start(chars.as_slice(), c), c))
}

/// The lower case of an ASCII capital; every other character as it is.
pub open spec fn lower(c: char) -> char {
    if 'A' <= c <= 'Z' {
        ((c as int) + 32) as char
    } else {
        c
    }
}

/// `s` with every ASCII capital in lower case.
pub open spec fn lower_all(s: Seq<char>) -> Seq<char> {
    s.map_values(|c: char| lower(c))
}

/// The lower case of an ASCII capital; every other character as it is.
pub fn lower_char(c: char) -> (l: char)
    ensures
        l == lower(c),
{
    if 'A' <= c && c <= 'Z' {
        let byte: u8 = c as u8;
        (byte + 32) as char
    } else {
        c
    }
}

/// `chars` with every ASCII capital in lower case.
pub fn lowered(chars: &[char]) -> (out: Vec<char>)
    ensures
        out@ == lower_all(chars@),
{
    let mut out: Vec<char> = Vec::new();
    let mut i: usize = 0;
    while i < chars.len()
        invariant
            i <= chars.len(),
            out@ == lower_all(chars@.take(i as int)),
        decreases chars.len() - i,
    {
        out.push(lower_char(chars[i]));
        i += 1;
        assert(lower_all(chars@.take(i as int)) =~= lower_all(chars@.take(i - 1)).push(
            lower(chars@[i - 1]),
        ));
    }
    assert(chars@.take(chars@.len() as int) =~= chars@);
    out
}

// ---------------------------------------------------------------------------
// Numbers.
// ---------------------------------------------------------------------------

/// The decimal digit `d`.
pub open spec fn digit(d: int) -> char {
    (48 + d) as char
}

/// `n` in decimal, with no leading zero.
pub open spec fn decimal(n: nat) -> Seq<char>
    decreases n,
{
    if n < 10 {
        seq![digit(n as int)]
    } else {
        decimal(n / 10).push(digit((n % 10) as int))
    }
}

/// `n` in decimal, with a minus sign in front of a negative number.
pub open spec fn decimal_signed(n: int) -> Seq<char> {
    if n < 0 {
        seq!['-'] + decimal((-n) as nat)
    } else {
        decimal(n as nat)
    }
}

/// The digits of a number stand for that number.
pub proof fn lemma_decimal_value(n: nat)
    ensures
        decimal(n).len() > 0,
        all_digits(decimal(n)),
        digits_value(decimal(n)) == n,
    decreases n,
{
    if n >= 10 {
        lemma_decimal_value(n / 10);
        assert(decimal(n).drop_last() =~= decimal(n / 10));
        assert(decimal(n).last() as int - 48 == n % 10);
    } else {
        assert(decimal(n).drop_last() =~= Seq::<char>::empty());
        assert(digits_value(decimal(n).drop_last()) == 0);
        assert(decimal(n).last() as int - 48 == n);
    }
}

/// Two numbers that are written alike are one number.
pub proof fn lemma_one_number(a: int, b: int)
    requires
        decimal_signed(a) == decimal_signed(b),
    ensures
        a == b,
{
    let (x, y) = (decimal_signed(a), decimal_signed(b));
    if a < 0 {
        lemma_decimal_value((-a) as nat);
        assert(x[0] == '-');
        assert(x.skip(1) =~= decimal((-a) as nat));
    } else {
        lemma_decimal_value(a as nat);
        assert(is_digit(x[0]));
    }
    if b < 0 {
        lemma_decimal_value((-b) as nat);
        assert(y[0] == '-');
        assert(y.skip(1) =~= decimal((-b) as nat));
    } else {
        lemma_decimal_value(b as nat);
        assert(is_digit(y[0]));
    }
}

/// `n` zeros.
pub open spec fn zeros(n: int) -> Seq<char> {
    Seq::new(if n < 0 { 0nat } else { n as nat }, |i: int| '0')
}

/// `n` in decimal, filled with zeros after the sign to at least `width`
/// characters.
pub open spec fn padded(n: int, width: int) -> Seq<char> {
    if n < 0 {
        seq!['-'] + zeros(width - 1 - decimal((-n) as nat).len()) + decimal((-n) as nat)
    } else {
        zeros(width - decimal(n as nat).len()) + decimal(n as nat)
    }
}

/// The digits of `n`, lowest first.
fn digits_reversed(n: u64) -> (digits: Vec<char>)
    ensures
        digits@.reverse() == decimal(n as nat),
        1 <= digits@.len() <= 20,
{
    let mut digits: Vec<char> = Vec::new();
    let mut left: u64 = n;
    let ghost mut scale: nat = 1;
    assert(decimal(n as nat) + digits@.reverse() =~= decimal(n as nat));
    while left >= 10
        invariant
            decimal(left as nat) + digits@.reverse() == decimal(n as nat),
            left as nat * scale <= n as nat,
            digits@.len() <= 19,
            digits@.len() == 0 ==> scale == 1,
            digits@.len() == 1 ==> scale == 10,
            scale >= 1,
            scale == pow10(digits@.len()),
        decreases left,
    {
        let d: u8 = (left % 10) as u8;
        let ghost before = digits@;
        let ghost left_before = left;
        digits.push((48 + d) as char);
        left = left / 10;
        proof {
            assert(digits@.reverse() =~= seq![digit(d as int)] + before.reverse());
            assert(decimal(left_before as nat) == decimal(left as nat).push(digit(d as int)));
            assert(decimal(left as nat) + digits@.reverse() =~= decimal(left_before as nat)
                + before.reverse());
            let old_scale = scale;
            scale = scale * 10;
            assert(left as nat * (old_scale * 10) <= left_before as nat * old_scale)
                by (nonlinear_arith)
                requires
                    left == left_before / 10,
            ;
            assert(pow10(digits@.len()) == 10 * pow10(before.len()));
            if digits@.len() > 19 {
                lemma_pow10_20();
                assert(left as nat * scale >= scale) by (nonlinear_arith)
                    requires
                        left >= 1,
                ;
                assert(false);
            }
        }
    }
    let d: u8 = left as u8;
    let ghost before = digits@;
    digits.push((48 + d) as char);
    assert(digits@.reverse() =~= seq![digit(d as int)] + before.reverse());
    assert(decimal(left as nat) + before.reverse() =~= digits@.reverse());
    digits
}

spec fn pow10(n: nat) -> nat
    decreases n,
{
    if n == 0 {
        1
    } else {
        10 * pow10((n - 1) as nat)
    }
}

proof fn lemma_pow10_20()
    ensures
        pow10(20) == 100_000_000_000_000_000_000,
{
    reveal_with_fuel(pow10, 21);
}

/// Appends `n` in decimal to `out`.
pub fn push_decimal(out: &mut String, n: u64)
    ensures
        final(out)@ == old(out)@ + decimal(n as nat),
{
    let digits = digits_reversed(n);
    push_reversed(out, &digits);
}

/// Appends `chars` to `out`, last first.
fn push_reversed(out: &mut String, chars: &Vec<char>)
    ensures
        final(out)@ == old(out)@ + chars@.reverse(),
{
    let mut i: usize = chars.len();
    assert(out@ =~= old(out)@ + chars@.reverse().take(0));
    while i > 0
        invariant
            i <= chars.len(),
            out@ == old(out)@ + chars@.reverse().take(chars@.len() - i),
        decreases i,
    {
        i -= 1;
        out.push(chars[i]);
        assert(chars@.reverse().take(chars@.len() - i) =~= chars@.reverse().take(
            chars@.len() - i - 1,
        ).push(chars@[i as int]));
        assert(out@ =~= old(out)@ + chars@.reverse().take(chars@.len() - i));
    }
    assert(chars@.reverse().take(chars@.len() as int) =~= chars@.reverse());
}

/// `n` in decimal.
pub fn decimal_text(n: u64) -> (text: String)
    ensures
        text@ == decimal(n as nat),
{
    let mut text = String::new();
    push_decimal(&mut text, n);
    assert(text@ =~= decimal(n as nat));
    text
}

/// The size of `n`, whatever its sign.
fn magnitude(n: i64) -> (m: u64)
    ensures
        m == (if n < 0 { -n } else { n as int }),
{
    if n < 0 {
        (-(n + 1)) as u64 + 1
    } else {
        n as u64
    }
}

/// Appends `n` in decimal to `out`, with a minus sign where it is negative.
pub fn push_signed(out: &mut String, n: i64)
    ensures
        final(out)@ == old(out)@ + decimal_signed(n as int),
{
    if n < 0 {
        out.push('-');
    }
    push_decimal(out, magnitude(n));
    assert(out@ =~= old(out)@ + decimal_signed(n as int));
}

/// Appends `n` in decimal to `out`, filled with zeros to at least `width`
/// characters.
pub fn push_padded(out: &mut String, n: i64, width: usize)
    requires
        1 <= width <= 100,
    ensures
        final(out)@ == old(out)@ + padded(n as int, width as int),
{
    let digits = digits_reversed(magnitude(n));
    let mut taken: usize = digits.len();
    if n < 0 {
        out.push('-');
        taken += 1;
    }
    let ghost before = out@;
    let mut fill: usize = 0;
    assert(out@ =~= before + zeros(0));
    while taken + fill < width
        invariant
            taken <= 21,
            fill <= 100,
            width <= 100,
            fill <= width - taken || fill == 0,
            out@ == before + zeros(fill as int),
        decreases width - fill,
    {
        out.push('0');
        fill += 1;
        assert(zeros(fill as int) =~= zeros(fill - 1).push('0'));
        assert(out@ =~= before + zeros(fill as int));
    }
    let ghost mid = out@;
    push_reversed(out, &digits);
    proof {
        assert(zeros(fill as int) =~= zeros(width - taken));
        assert(out@ =~= old(out)@ + padded(n as int, width as int));
    }
}

/// The value of the lower case hexadecimal digit for `d`.
pub open spec fn hex_digit(d: int) -> char {
    if d < 10 {
        (48 + d) as char
    } else {
        (87 + d) as char
    }
}

/// The lower case hexadecimal spelling of `bytes`, two digits for each.
pub open spec fn hex_of(bytes: Seq<u8>) -> Seq<char>
    decreases bytes.len(),
{
    if bytes.len() == 0 {
        Seq::empty()
    } else {
        hex_of(bytes.drop_last()).push(hex_digit(bytes.last() as int / 16)).push(
            hex_digit(bytes.last() as int % 16),
        )
    }
}

/// The lower case hexadecimal digit for `d`.
pub fn hex_digit_char(d: u8) -> (c: char)
    requires
        d < 16,
    ensures
        c == hex_digit(d as int),
{
    if d < 10 {
        (48 + d) as char
    } else {
        (87 + d) as char
    }
}

/// The lower case hexadecimal spelling of `bytes`.
pub fn hex_text(bytes: &[u8]) -> (text: String)
    ensures
        text@ == hex_of(bytes@),
{
    let mut text = String::new();
    let mut i: usize = 0;
    while i < bytes.len()
        invariant
            i <= bytes.len(),
            text@ == hex_of(bytes@.take(i as int)),
        decreases bytes.len() - i,
    {
        text.push(hex_digit_char(bytes[i] / 16));
        text.push(hex_digit_char(bytes[i] % 16));
        i += 1;
        assert(bytes@.take(i as int).drop_last() =~= bytes@.take(i - 1));
    }
    assert(bytes@.take(bytes@.len() as int) =~= bytes@);
    text
}

/// The hexadecimal spelling of `n` bytes has twice as many characters.
pub proof fn lemma_hex_len(bytes: Seq<u8>)
    ensures
        hex_of(bytes).len() == 2 * bytes.len(),
    decreases bytes.len(),
{
    if bytes.len() > 0 {
        lemma_hex_len(bytes.drop_last());
    }
}

/// `c` is a decimal digit.
pub open spec fn is_digit(c: char) -> bool {
    '0' <= c <= '9'
}

/// The number that the decimal digits `s` spell.
pub open spec fn digits_value(s: Seq<char>) -> nat
    decreases s.len(),
{
    if s.len() == 0 {
        0
    } else {
        digits_value(s.drop_last()) * 10 + (s.last() as int - 48) as nat
    }
}

/// `s` is all decimal digits.
pub open spec fn all_digits(s: Seq<char>) -> bool {
    forall|i: int| 0 <= i < s.len() ==> is_digit(#[trigger] s[i])
}

/// The digits of `s` after one leading plus sign, where it has one.
pub open spec fn unsigned_part(s: Seq<char>) -> Seq<char> {
    if s.len() > 0 && s[0] == '+' {
        s.drop_first()
    } else {
        s
    }
}

/// The number that `s` spells: an optional plus sign and one or more decimal
/// digits, no larger than a `u64` holds.
pub open spec fn parsed_u64(s: Seq<char>) -> Option<u64> {
    let d = unsigned_part(s);
    if d.len() > 0 && all_digits(d) && digits_value(d) <= u64::MAX {
        Some(digits_value(d) as u64)
    } else {
        None
    }
}

/// The number that `chars` spell, as [`parsed_u64`] says.
pub fn parse_u64(chars: &[char]) -> (value: Option<u64>)
    ensures
        value == parsed_u64(chars@),
{
    let start: usize = if chars.len() > 0 && chars[0] == '+' {
        1
    } else {
        0
    };
    let d = slice_subrange(chars, start, chars.len());
    assert(d@ =~= unsigned_part(chars@));
    if d.len() == 0 {
        return None;
    }
    let mut value: u64 = 0;
    let mut i: usize = 0;
    let mut fits: bool = true;
    while i < d.len()
        invariant
            i <= d.len(),
            d@ == unsigned_part(chars@),
            forall|j: int| 0 <= j < i ==> is_digit(#[trigger] d@[j]),
            fits ==> value == digits_value(d@.take(i as int)),
            !fits ==> digits_value(d@.take(i as int)) > u64::MAX,
        decreases d.len() - i,
    {
        let c = d[i];
        if !('0' <= c && c <= '9') {
            assert(!is_digit(d@[i as int]));
            return None;
        }
        let add: u64 = (c as u32 - 48) as u64;
        assert(d@.take(i + 1).drop_last() =~= d@.take(i as int));
        if fits {
            if value > 1_844_674_407_370_955_161 || value * 10 > 18_446_744_073_709_551_615 - add {
                fits = false;
            } else {
                value = value * 10 + add;
            }
        }
        i += 1;
    }
    assert(d@.take(d@.len() as int) =~= d@);
    if fits {
        Some(value)
    } else {
        None
    }
}

} // verus!
