//! What a `PROPFIND` asks for, and the `multistatus` answer.
//!
//! The reader is tolerant: it looks for the names of the six known properties
//! anywhere in the body, and answers with every property where the body asks
//! for all of them or for their names, or holds nothing it can read. The writer knows six properties and one namespace.

use crate::calendar::{iso8601, iso8601_of, rfc1123, rfc1123_of};
use crate::dav::http::{escaped_byte, etag, etag_of, hex_value, unescaped};
use crate::text::{chars_of, contains_bytes, decimal, decimal_text, has_part, occurs_at};
use vstd::prelude::*;
use vstd::string::StringSliceAdditionalSpecFns;
use vstd::utf8::{encode_utf8, is_ascii_chars, is_ascii_chars_encode_utf8};

verus! {

/// Which of the six properties a `PROPFIND` asked for.
#[derive(Debug, Clone, Copy, PartialEq, Eq, Structural)]
pub struct PropSet {
    pub resourcetype: bool,
    pub getcontentlength: bool,
    pub getlastmodified: bool,
    pub getetag: bool,
    pub creationdate: bool,
    pub displayname: bool,
}

/// Every property.
pub open spec fn all_props() -> PropSet {
    PropSet {
        resourcetype: true,
        getcontentlength: true,
        getlastmodified: true,
        getetag: true,
        creationdate: true,
        displayname: true,
    }
}

/// `body` holds `word` somewhere.
pub open spec fn names(body: Seq<u8>, word: Seq<char>) -> bool {
    has_part(body, encode_utf8(word))
}

/// A byte that ends the name of an element.
pub open spec fn ends_name(byte: u8) -> bool {
    byte == 62 || byte == 47 || byte == 32 || byte == 9 || byte == 10 || byte == 13
}

/// The name `prop` of an element stands here, with or without the prefix of a
/// namespace: a bracket or a colon before it, and its end behind it.
pub open spec fn prop_at(body: Seq<u8>, i: int) -> bool {
    &&& 0 < i
    &&& i + 4 < body.len()
    &&& body[i - 1] == 60 || body[i - 1] == 58
    &&& body[i] == 112
    &&& body[i + 1] == 114
    &&& body[i + 2] == 111
    &&& body[i + 3] == 112
    &&& ends_name(body[i + 4])
}

/// The body is a request for named properties: it holds a `prop` element.
pub open spec fn asks_by_name(body: Seq<u8>) -> bool {
    exists|i: int| #[trigger] prop_at(body, i)
}

/// The properties a body asks for: those it names, or all of them where it is
/// empty, holds no `prop` element, or asks for all or for their names.
pub open spec fn props_of(body: Seq<u8>) -> PropSet {
    if !asks_by_name(body) || names(body, "allprop"@) || names(body, "propname"@) {
        all_props()
    } else {
        PropSet {
            resourcetype: names(body, "resourcetype"@),
            getcontentlength: names(body, "getcontentlength"@),
            getlastmodified: names(body, "getlastmodified"@),
            getetag: names(body, "getetag"@),
            creationdate: names(body, "creationdate"@),
            displayname: names(body, "displayname"@),
        }
    }
}

impl PropSet {
    /// Every property.
    pub fn all() -> (props: PropSet)
        ensures
            props == all_props(),
    {
        PropSet {
            resourcetype: true,
            getcontentlength: true,
            getlastmodified: true,
            getetag: true,
            creationdate: true,
            displayname: true,
        }
    }
}

fn body_names(body: &[u8], word: &str) -> (found: bool)
    ensures
        found == names(body@, word@),
{
    contains_bytes(body, word.as_bytes())
}

fn has_prop_element(body: &[u8]) -> (found: bool)
    ensures
        found == asks_by_name(body@),
{
    let mut i: usize = 1;
    while i < body.len()
        invariant
            1 <= i,
            body@.len() > 0 ==> i <= body@.len(),
            forall|j: int| j < i ==> !#[trigger] prop_at(body@, j),
        ensures
            forall|j: int| !#[trigger] prop_at(body@, j),
        decreases body@.len() - i,
    {
        if body.len() - i <= 4 {
            break ;
        }
        let end: u8 = body[i + 4];
        if (body[i - 1] == 60 || body[i - 1] == 58) && body[i] == 112 && body[i + 1] == 114
            && body[i + 2] == 111 && body[i + 3] == 112 && (end == 62 || end == 47 || end == 32
            || end == 9 || end == 10 || end == 13) {
            assert(prop_at(body@, i as int));
            return true;
        }
        i += 1;
    }
    false
}

/// Reads a `PROPFIND` body for the properties it names.
pub fn requested_props(body: &[u8]) -> (props: PropSet)
    ensures
        props == props_of(body@),
{
    if !has_prop_element(body) || body_names(body, "allprop") || body_names(body, "propname") {
        return PropSet::all();
    }
    PropSet {
        resourcetype: body_names(body, "resourcetype"),
        getcontentlength: body_names(body, "getcontentlength"),
        getlastmodified: body_names(body, "getlastmodified"),
        getetag: body_names(body, "getetag"),
        creationdate: body_names(body, "creationdate"),
        displayname: body_names(body, "displayname"),
    }
}

/// One file or directory to answer for.
pub struct Item<'a> {
    /// Relative to the root, with no leading slash. Empty for the mount root.
    pub path: &'a str,
    /// The name shown. The last path segment, but for the mount root.
    pub name: &'a str,
    pub is_dir: bool,
    pub size: u64,
    pub modified_unix_secs: i64,
}

/// What is known of one file or directory to answer for.
pub struct ItemView {
    pub path: Seq<char>,
    pub name: Seq<char>,
    pub is_dir: bool,
    pub size: u64,
    pub modified_unix_secs: i64,
}

impl<'a> View for Item<'a> {
    type V = ItemView;

    open spec fn view(&self) -> ItemView {
        ItemView {
            path: self.path@,
            name: self.name@,
            is_dir: self.is_dir,
            size: self.size,
            modified_unix_secs: self.modified_unix_secs,
        }
    }
}

/// What is known of some items.
pub open spec fn item_views(items: Seq<Item<'_>>) -> Seq<ItemView> {
    items.map_values(|i: Item<'_>| i@)
}

/// A byte that a path may hold as it is in a URL.
pub open spec fn is_plain(byte: u8) -> bool {
    48 <= byte <= 57 || 65 <= byte <= 90 || 97 <= byte <= 122 || byte == 45 || byte == 95 || byte
        == 46 || byte == 126 || byte == 47
}

/// The upper case hexadecimal digit for `d`.
pub open spec fn upper_hex(d: int) -> char {
    if d < 10 {
        (48 + d) as char
    } else {
        (55 + d) as char
    }
}

/// How one byte of a path is spelled in a URL.
pub open spec fn encoded_byte(byte: u8) -> Seq<char> {
    if is_plain(byte) {
        seq![byte as char]
    } else {
        seq!['%', upper_hex(byte as int / 16), upper_hex(byte as int % 16)]
    }
}

/// How the bytes of a path are spelled in a URL.
pub open spec fn percent_encoded(bytes: Seq<u8>) -> Seq<char>
    decreases bytes.len(),
{
    if bytes.len() == 0 {
        Seq::empty()
    } else {
        percent_encoded(bytes.drop_last()) + encoded_byte(bytes.last())
    }
}

fn upper_hex_char(d: u8) -> (c: char)
    requires
        d < 16,
    ensures
        c == upper_hex(d as int),
{
    if d < 10 {
        (48 + d) as char
    } else {
        (55 + d) as char
    }
}

/// `input` as it is spelled in a URL.
pub fn percent_encode(input: &str) -> (out: String)
    ensures
        out@ == percent_encoded(encode_utf8(input@)),
{
    let bytes = input.as_bytes();
    let mut out = String::new();
    let mut i: usize = 0;
    assert(bytes@.take(0) =~= Seq::<u8>::empty());
    while i < bytes.len()
        invariant
            i <= bytes.len(),
            out@ == percent_encoded(bytes@.take(i as int)),
        decreases bytes.len() - i,
    {
        let byte: u8 = bytes[i];
        let ghost before = out@;
        if (48 <= byte && byte <= 57) || (65 <= byte && byte <= 90) || (97 <= byte && byte <= 122)
            || byte == 45 || byte == 95 || byte == 46 || byte == 126 || byte == 47 {
            out.push(byte as char);
        } else {
            out.push('%');
            out.push(upper_hex_char(byte / 16));
            out.push(upper_hex_char(byte % 16));
        }
        i += 1;
        assert(bytes@.take(i as int).drop_last() =~= bytes@.take(i - 1));
        assert(bytes@.take(i as int).last() == byte);
        assert(out@ =~= before + encoded_byte(byte));
    }
    assert(bytes@.take(bytes@.len() as int) =~= bytes@);
    out
}

/// The address of one item: a leading slash, the path as a URL spells it, and
/// a trailing slash for a directory. The root is a single slash.
pub open spec fn href_of(path: Seq<char>, is_dir: bool) -> Seq<char> {
    if path.len() == 0 {
        "/"@
    } else if is_dir {
        "/"@ + percent_encoded(encode_utf8(path)) + "/"@
    } else {
        "/"@ + percent_encoded(encode_utf8(path))
    }
}

/// The address of one item.
pub fn href_for(path: &str, is_dir: bool) -> (href: String)
    ensures
        href@ == href_of(path@, is_dir),
{
    let mut href = String::new();
    href.push_str("/");
    if path.is_empty() {
        assert(href@ =~= href_of(path@, is_dir));
        return href;
    }
    href.push_str(percent_encode(path).as_str());
    if is_dir {
        href.push_str("/");
    }
    assert(href@ =~= href_of(path@, is_dir));
    href
}

/// A spelling begins with that of the first byte.
proof fn lemma_encoded_first(bytes: Seq<u8>)
    requires
        bytes.len() > 0,
    ensures
        percent_encoded(bytes) == encoded_byte(bytes[0]) + percent_encoded(bytes.skip(1)),
    decreases bytes.len(),
{
    let front = bytes.drop_last();
    if bytes.len() == 1 {
        assert(front =~= Seq::<u8>::empty());
        assert(bytes.skip(1) =~= Seq::<u8>::empty());
        assert(percent_encoded(front) =~= Seq::<char>::empty());
        assert(percent_encoded(bytes) =~= encoded_byte(bytes[0]));
    } else {
        lemma_encoded_first(front);
        assert(bytes.skip(1).drop_last() =~= front.skip(1));
        assert(percent_encoded(bytes) =~= encoded_byte(bytes[0]) + percent_encoded(
            bytes.skip(1),
        ));
    }
}

/// A spelling holds only characters of one byte.
proof fn lemma_encoded_is_ascii(bytes: Seq<u8>)
    ensures
        is_ascii_chars(percent_encoded(bytes)),
    decreases bytes.len(),
{
    if bytes.len() > 0 {
        lemma_encoded_is_ascii(bytes.drop_last());
        assert(is_ascii_chars(encoded_byte(bytes.last())));
    }
}

/// A path that was spelled in a URL reads back: taking the escapes out gives
/// the bytes that were put in.
pub proof fn lemma_spelling_reads_back(bytes: Seq<u8>)
    ensures
        unescaped(encode_utf8(percent_encoded(bytes))) == bytes,
    decreases bytes.len(),
{
    let text = percent_encoded(bytes);
    let out = encode_utf8(text);
    if bytes.len() == 0 {
        assert(out =~= Seq::<u8>::empty());
    } else {
        let rest = percent_encoded(bytes.skip(1));
        let first = encoded_byte(bytes[0]);
        lemma_encoded_first(bytes);
        lemma_spelling_reads_back(bytes.skip(1));
        lemma_encoded_is_ascii(bytes);
        lemma_encoded_is_ascii(bytes.skip(1));
        is_ascii_chars_encode_utf8(text);
        is_ascii_chars_encode_utf8(rest);
        assert(out.skip(first.len() as int) =~= encode_utf8(rest)) by {
            assert forall|i: int| 0 <= i < rest.len() implies out.skip(first.len() as int)[i]
                == encode_utf8(rest)[i] by {
                assert(text[first.len() + i] == rest[i]);
            }
        }
        assert(text[0] == first[0]);
        if is_plain(bytes[0]) {
            assert(out[0] == bytes[0]);
        } else {
            assert(text[1] == first[1] && text[2] == first[2]);
            assert(out[0] == 37);
            assert(hex_value(out[1]) == Some((bytes[0] / 16) as u8));
            assert(hex_value(out[2]) == Some((bytes[0] % 16) as u8));
            assert(escaped_byte(out[1], out[2]) == Some(bytes[0]));
        }
        assert(seq![bytes[0]] + bytes.skip(1) =~= bytes);
    }
}

/// How one character is spelled in the text of an XML element.
pub open spec fn escaped_char(c: char) -> Seq<char> {
    if c == '&' {
        "&amp;"@
    } else if c == '<' {
        "&lt;"@
    } else if c == '>' {
        "&gt;"@
    } else if c == '"' {
        "&quot;"@
    } else if c == '\'' {
        "&apos;"@
    } else {
        seq![c]
    }
}

/// How a text is spelled in an XML element.
pub open spec fn escaped(text: Seq<char>) -> Seq<char>
    decreases text.len(),
{
    if text.len() == 0 {
        Seq::empty()
    } else {
        escaped(text.drop_last()) + escaped_char(text.last())
    }
}

/// `text` as it is spelled in an XML element.
pub fn escape(text: &str) -> (out: String)
    ensures
        out@ == escaped(text@),
{
    let chars = chars_of(text);
    let mut out = String::new();
    let mut i: usize = 0;
    assert(chars@.take(0) =~= Seq::<char>::empty());
    while i < chars.len()
        invariant
            i <= chars.len(),
            out@ == escaped(chars@.take(i as int)),
        decreases chars.len() - i,
    {
        let ghost before = out@;
        let c = chars[i];
        if c == '&' {
            out.push_str("&amp;");
        } else if c == '<' {
            out.push_str("&lt;");
        } else if c == '>' {
            out.push_str("&gt;");
        } else if c == '"' {
            out.push_str("&quot;");
        } else if c == '\'' {
            out.push_str("&apos;");
        } else {
            out.push(c);
        }
        i += 1;
        assert(chars@.take(i as int).drop_last() =~= chars@.take(i - 1));
        assert(chars@.take(i as int).last() == c);
        assert(out@ =~= before + escaped_char(c));
    }
    assert(chars@.take(chars@.len() as int) =~= chars@);
    out
}

/// A text written in an element holds no character that XML would read as
/// markup.
pub proof fn lemma_escaped_is_text(text: Seq<char>)
    ensures
        !escaped(text).contains('<'),
        !escaped(text).contains('>'),
        !escaped(text).contains('"'),
        !escaped(text).contains('\''),
    decreases text.len(),
{
    if text.len() > 0 {
        lemma_escaped_is_text(text.drop_last());
        let c = text.last();
        reveal_strlit("&amp;");
        reveal_strlit("&lt;");
        reveal_strlit("&gt;");
        reveal_strlit("&quot;");
        reveal_strlit("&apos;");
        let before = escaped(text.drop_last());
        let piece = escaped_char(c);
        assert forall|x: char| x == '<' || x == '>' || x == '"' || x == '\'' implies !(#[trigger]
        escaped(text).contains(x)) by {
            assert(!before.contains(x));
            assert forall|k: int| 0 <= k < (before + piece).len() implies (before + piece)[k]
                != x by {
                if k < before.len() {
                    assert(before[k] == (before + piece)[k]);
                } else {
                    assert(piece[k - before.len()] == (before + piece)[k]);
                }
            }
        }
    }
}

/// Appends an element with a text in it.
fn push_element(out: &mut String, open: &str, value: &str, close: &str)
    ensures
        final(out)@ == old(out)@ + (open@ + value@ + close@),
{
    out.push_str(open);
    out.push_str(value);
    out.push_str(close);
    assert(out@ =~= old(out)@ + (open@ + value@ + close@));
}

/// The name of an item, where it is asked for.
pub open spec fn displayname_text(item: ItemView, props: PropSet) -> Seq<char> {
    if props.displayname {
        "<D:displayname>"@ + escaped(item.name) + "</D:displayname>"@
    } else {
        Seq::empty()
    }
}

fn push_displayname(out: &mut String, item: &Item<'_>, props: &PropSet)
    ensures
        final(out)@ == old(out)@ + displayname_text(item@, *props),
{
    if props.displayname {
        push_element(out, "<D:displayname>", escape(item.name).as_str(), "</D:displayname>");
    }
    assert(out@ =~= old(out)@ + displayname_text(item@, *props));
}

/// The kind of an item, where it is asked for.
pub open spec fn resourcetype_text(item: ItemView, props: PropSet) -> Seq<char> {
    if props.resourcetype {
        if item.is_dir {
            "<D:resourcetype><D:collection/></D:resourcetype>"@
        } else {
            "<D:resourcetype/>"@
        }
    } else {
        Seq::empty()
    }
}

fn push_resourcetype(out: &mut String, item: &Item<'_>, props: &PropSet)
    ensures
        final(out)@ == old(out)@ + resourcetype_text(item@, *props),
{
    if props.resourcetype {
        if item.is_dir {
            out.push_str("<D:resourcetype><D:collection/></D:resourcetype>");
        } else {
            out.push_str("<D:resourcetype/>");
        }
    }
    assert(out@ =~= old(out)@ + resourcetype_text(item@, *props));
}

/// The size of an item, where it is asked for.
pub open spec fn getcontentlength_text(item: ItemView, props: PropSet) -> Seq<char> {
    if props.getcontentlength {
        "<D:getcontentlength>"@ + decimal(item.size as nat) + "</D:getcontentlength>"@
    } else {
        Seq::empty()
    }
}

fn push_getcontentlength(out: &mut String, item: &Item<'_>, props: &PropSet)
    ensures
        final(out)@ == old(out)@ + getcontentlength_text(item@, *props),
{
    if props.getcontentlength {
        push_element(
            out,
            "<D:getcontentlength>",
            decimal_text(item.size).as_str(),
            "</D:getcontentlength>",
        );
    }
    assert(out@ =~= old(out)@ + getcontentlength_text(item@, *props));
}

/// The modified time of an item, where it is asked for.
pub open spec fn getlastmodified_text(item: ItemView, props: PropSet) -> Seq<char> {
    if props.getlastmodified {
        "<D:getlastmodified>"@ + rfc1123_of(item.modified_unix_secs as int)
            + "</D:getlastmodified>"@
    } else {
        Seq::empty()
    }
}

fn push_getlastmodified(out: &mut String, item: &Item<'_>, props: &PropSet)
    ensures
        final(out)@ == old(out)@ + getlastmodified_text(item@, *props),
{
    if props.getlastmodified {
        push_element(
            out,
            "<D:getlastmodified>",
            rfc1123(item.modified_unix_secs).as_str(),
            "</D:getlastmodified>",
        );
    }
    assert(out@ =~= old(out)@ + getlastmodified_text(item@, *props));
}

/// The entity tag of an item, where it is asked for.
pub open spec fn getetag_text(item: ItemView, props: PropSet) -> Seq<char> {
    if props.getetag {
        "<D:getetag>"@ + escaped(etag_of(item.size, item.modified_unix_secs)) + "</D:getetag>"@
    } else {
        Seq::empty()
    }
}

fn push_getetag(out: &mut String, item: &Item<'_>, props: &PropSet)
    ensures
        final(out)@ == old(out)@ + getetag_text(item@, *props),
{
    if props.getetag {
        push_element(
            out,
            "<D:getetag>",
            escape(etag(item.size, item.modified_unix_secs).as_str()).as_str(),
            "</D:getetag>",
        );
    }
    assert(out@ =~= old(out)@ + getetag_text(item@, *props));
}

/// The creation date of an item, which is its modified time, where it is asked for.
pub open spec fn creationdate_text(item: ItemView, props: PropSet) -> Seq<char> {
    if props.creationdate {
        "<D:creationdate>"@ + iso8601_of(item.modified_unix_secs as int) + "</D:creationdate>"@
    } else {
        Seq::empty()
    }
}

fn push_creationdate(out: &mut String, item: &Item<'_>, props: &PropSet)
    ensures
        final(out)@ == old(out)@ + creationdate_text(item@, *props),
{
    if props.creationdate {
        push_element(
            out,
            "<D:creationdate>",
            iso8601(item.modified_unix_secs).as_str(),
            "</D:creationdate>",
        );
    }
    assert(out@ =~= old(out)@ + creationdate_text(item@, *props));
}

/// What the requested properties of an item say.
pub open spec fn props_text(item: ItemView, props: PropSet) -> Seq<char> {
    displayname_text(item, props) + resourcetype_text(item, props) + getcontentlength_text(
        item,
        props,
    ) + getlastmodified_text(item, props) + getetag_text(item, props) + creationdate_text(
        item,
        props,
    )
}

/// How one item is answered for. The creation date is the modified time: the
/// other device keeps no separate one.
pub open spec fn response_text(item: ItemView, props: PropSet) -> Seq<char> {
    "<D:response><D:href>"@ + href_of(item.path, item.is_dir) + "</D:href><D:propstat><D:prop>"@
        + props_text(item, props)
        + "</D:prop><D:status>HTTP/1.1 200 OK</D:status></D:propstat></D:response>\n"@
}

/// The requested properties of an item.
fn prop_xml(item: &Item<'_>, props: &PropSet) -> (out: String)
    ensures
        out@ == props_text(item@, *props),
{
    let mut out = String::new();
    push_displayname(&mut out, item, props);
    assert(out@ =~= displayname_text(item@, *props));
    push_resourcetype(&mut out, item, props);
    push_getcontentlength(&mut out, item, props);
    push_getlastmodified(&mut out, item, props);
    push_getetag(&mut out, item, props);
    push_creationdate(&mut out, item, props);
    out
}

/// How one item is answered for.
pub fn response(item: &Item<'_>, props: &PropSet) -> (out: String)
    ensures
        out@ == response_text(item@, *props),
{
    let mut out = String::new();
    out.push_str("<D:response><D:href>");
    out.push_str(href_for(item.path, item.is_dir).as_str());
    out.push_str("</D:href><D:propstat><D:prop>");
    out.push_str(prop_xml(item, props).as_str());
    out.push_str("</D:prop><D:status>HTTP/1.1 200 OK</D:status></D:propstat></D:response>\n");
    assert(out@ =~= response_text(item@, *props));
    out
}

/// The answers for some items, one after another.
pub open spec fn responses_text(items: Seq<ItemView>, props: PropSet) -> Seq<char>
    decreases items.len(),
{
    if items.len() == 0 {
        Seq::empty()
    } else {
        responses_text(items.drop_last(), props) + response_text(items.last(), props)
    }
}

/// The whole `multistatus` body.
pub open spec fn multistatus_text(items: Seq<ItemView>, props: PropSet) -> Seq<char> {
    "<?xml version=\"1.0\" encoding=\"utf-8\"?>\n<D:multistatus xmlns:D=\"DAV:\">\n"@
        + responses_text(items, props) + "</D:multistatus>\n"@
}

/// The whole `multistatus` body for one `PROPFIND` answer.
pub fn multistatus(items: &[Item<'_>], props: &PropSet) -> (xml: String)
    ensures
        xml@ == multistatus_text(item_views(items@), *props),
{
    let ghost views = item_views(items@);
    let mut xml = String::new();
    xml.push_str(
        "<?xml version=\"1.0\" encoding=\"utf-8\"?>\n<D:multistatus xmlns:D=\"DAV:\">\n",
    );
    let ghost start = xml@;
    assert(start =~= "<?xml version=\"1.0\" encoding=\"utf-8\"?>\n<D:multistatus xmlns:D=\"DAV:\">\n"@);
    let mut i: usize = 0;
    assert(views.take(0) =~= Seq::<ItemView>::empty());
    assert(xml@ =~= start + responses_text(views.take(0), *props));
    while i < items.len()
        invariant
            i <= items.len(),
            views == item_views(items@),
            xml@ == start + responses_text(views.take(i as int), *props),
        decreases items.len() - i,
    {
        xml.push_str(response(&items[i], props).as_str());
        i += 1;
        assert(views.take(i as int).drop_last() =~= views.take(i - 1));
        assert(views.take(i as int).last() == items@[i - 1]@);
        assert(xml@ =~= start + responses_text(views.take(i as int), *props));
    }
    assert(views.take(views.len() as int) =~= views);
    xml.push_str("</D:multistatus>\n");
    assert(xml@ =~= multistatus_text(views, *props));
    xml
}

/// No character here opens a tag.
spec fn no_tag(text: Seq<char>) -> bool {
    forall|i: int| 0 <= i < text.len() ==> #[trigger] text[i] != '<'
}

/// Every tag here is another than the one of a folder, and as much of it
/// stands here as it takes to see that.
spec fn other_tags(text: Seq<char>) -> bool {
    forall|i: int|
        0 <= i < text.len() && #[trigger] text[i] == '<' ==> i + 4 < text.len() && !(text[i + 1]
            == 'D' && text[i + 2] == ':' && text[i + 3] == 'c' && text[i + 4] == 'o')
}

proof fn lemma_other_tags_join(a: Seq<char>, b: Seq<char>)
    requires
        other_tags(a),
        other_tags(b),
    ensures
        other_tags(a + b),
{
    let text = a + b;
    assert forall|i: int| 0 <= i < text.len() && #[trigger] text[i] == '<' implies i + 4
        < text.len() && !(text[i + 1] == 'D' && text[i + 2] == ':' && text[i + 3] == 'c' && text[i
        + 4] == 'o') by {
        if i < a.len() {
            assert(a[i] == '<');
        } else {
            assert(b[i - a.len()] == '<');
            let k = i - a.len();
            assert(b[k + 1] == text[i + 1] && b[k + 2] == text[i + 2] && b[k + 3] == text[i + 3]
                && b[k + 4] == text[i + 4]);
        }
    }
}

proof fn lemma_no_tag_join(a: Seq<char>, b: Seq<char>)
    requires
        no_tag(a),
        no_tag(b),
    ensures
        no_tag(a + b),
{
    assert forall|i: int| 0 <= i < (a + b).len() implies #[trigger] (a + b)[i] != '<' by {
        if i < a.len() {
            assert(a[i] != '<');
        } else {
            assert(b[i - a.len()] != '<');
        }
    }
}

/// The text of an element between two tags.
proof fn lemma_element_other(open: Seq<char>, text: Seq<char>, close: Seq<char>)
    requires
        other_tags(open),
        no_tag(text),
        other_tags(close),
    ensures
        other_tags(open + text + close),
{
    assert(other_tags(text));
    lemma_other_tags_join(open, text);
    lemma_other_tags_join(open + text, close);
}

proof fn lemma_escaped_no_tag(text: Seq<char>)
    ensures
        no_tag(escaped(text)),
{
    lemma_escaped_is_text(text);
    let out = escaped(text);
    assert forall|i: int| 0 <= i < out.len() implies #[trigger] out[i] != '<' by {
        if out[i] == '<' {
            assert(out.contains('<'));
        }
    }
}

proof fn lemma_decimal_no_tag(n: nat)
    ensures
        no_tag(decimal(n)),
{
    crate::text::lemma_decimal_value(n);
    assert forall|i: int| 0 <= i < decimal(n).len() implies #[trigger] decimal(n)[i] != '<' by {
        assert(crate::text::is_digit(decimal(n)[i]));
    }
}

proof fn lemma_padded_no_tag(n: int, width: int)
    ensures
        no_tag(crate::text::padded(n, width)),
{
    if n < 0 {
        let d = decimal((-n) as nat);
        lemma_decimal_no_tag((-n) as nat);
        lemma_no_tag_join(seq!['-'], crate::text::zeros(width - 1 - d.len()));
        lemma_no_tag_join(seq!['-'] + crate::text::zeros(width - 1 - d.len()), d);
    } else {
        let d = decimal(n as nat);
        lemma_decimal_no_tag(n as nat);
        lemma_no_tag_join(crate::text::zeros(width - d.len()), d);
    }
}

proof fn lemma_clock_no_tag(secs: int)
    ensures
        no_tag(crate::calendar::clock_of(secs)),
{
    reveal_strlit(":");
    let h = crate::text::padded(secs % 86_400 / 3600, 2);
    let m = crate::text::padded(secs % 3600 / 60, 2);
    let s = crate::text::padded(secs % 60, 2);
    lemma_padded_no_tag(secs % 86_400 / 3600, 2);
    lemma_padded_no_tag(secs % 3600 / 60, 2);
    lemma_padded_no_tag(secs % 60, 2);
    lemma_no_tag_join(h, ":"@);
    lemma_no_tag_join(h + ":"@, m);
    lemma_no_tag_join(h + ":"@ + m, ":"@);
    lemma_no_tag_join(h + ":"@ + m + ":"@, s);
}

proof fn lemma_names_no_tag(n: int)
    ensures
        no_tag(crate::calendar::weekday_name(n)),
        no_tag(crate::calendar::month_name(n)),
{
    reveal_strlit("Sun");
    reveal_strlit("Mon");
    reveal_strlit("Tue");
    reveal_strlit("Wed");
    reveal_strlit("Thu");
    reveal_strlit("Fri");
    reveal_strlit("Sat");
    reveal_strlit("Jan");
    reveal_strlit("Feb");
    reveal_strlit("Mar");
    reveal_strlit("Apr");
    reveal_strlit("May");
    reveal_strlit("Jun");
    reveal_strlit("Jul");
    reveal_strlit("Aug");
    reveal_strlit("Sep");
    reveal_strlit("Oct");
    reveal_strlit("Nov");
    reveal_strlit("Dec");
}

proof fn lemma_dates_no_tag(secs: int)
    ensures
        no_tag(rfc1123_of(secs)),
        no_tag(iso8601_of(secs)),
{
    reveal_strlit(", ");
    reveal_strlit(" ");
    reveal_strlit(" GMT");
    reveal_strlit("-");
    reveal_strlit("T");
    reveal_strlit("Z");
    let date = crate::calendar::date_of(secs / 86_400);
    let week = crate::calendar::weekday_name((secs / 86_400 + 4) % 7);
    let month = crate::calendar::month_name(date.1);
    let d = crate::text::padded(date.2, 2);
    let y = crate::text::padded(date.0, 4);
    let m = crate::text::padded(date.1, 2);
    let clock = crate::calendar::clock_of(secs);
    lemma_names_no_tag((secs / 86_400 + 4) % 7);
    lemma_names_no_tag(date.1);
    lemma_padded_no_tag(date.2, 2);
    lemma_padded_no_tag(date.1, 2);
    lemma_padded_no_tag(date.0, 4);
    lemma_clock_no_tag(secs);
    lemma_no_tag_join(week, ", "@);
    lemma_no_tag_join(week + ", "@, d);
    lemma_no_tag_join(week + ", "@ + d, " "@);
    lemma_no_tag_join(week + ", "@ + d + " "@, month);
    lemma_no_tag_join(week + ", "@ + d + " "@ + month, " "@);
    lemma_no_tag_join(week + ", "@ + d + " "@ + month + " "@, y);
    lemma_no_tag_join(week + ", "@ + d + " "@ + month + " "@ + y, " "@);
    lemma_no_tag_join(week + ", "@ + d + " "@ + month + " "@ + y + " "@, clock);
    lemma_no_tag_join(week + ", "@ + d + " "@ + month + " "@ + y + " "@ + clock, " GMT"@);
    lemma_no_tag_join(y, "-"@);
    lemma_no_tag_join(y + "-"@, m);
    lemma_no_tag_join(y + "-"@ + m, "-"@);
    lemma_no_tag_join(y + "-"@ + m + "-"@, d);
    lemma_no_tag_join(y + "-"@ + m + "-"@ + d, "T"@);
    lemma_no_tag_join(y + "-"@ + m + "-"@ + d + "T"@, clock);
    lemma_no_tag_join(y + "-"@ + m + "-"@ + d + "T"@ + clock, "Z"@);
}

proof fn lemma_encoded_no_tag(bytes: Seq<u8>)
    ensures
        no_tag(percent_encoded(bytes)),
    decreases bytes.len(),
{
    if bytes.len() > 0 {
        lemma_encoded_no_tag(bytes.drop_last());
        assert(no_tag(encoded_byte(bytes.last())));
        lemma_no_tag_join(percent_encoded(bytes.drop_last()), encoded_byte(bytes.last()));
    }
}

proof fn lemma_href_no_tag(path: Seq<char>, is_dir: bool)
    ensures
        no_tag(href_of(path, is_dir)),
{
    reveal_strlit("/");
    let spelled = percent_encoded(encode_utf8(path));
    lemma_encoded_no_tag(encode_utf8(path));
    lemma_no_tag_join("/"@, spelled);
    lemma_no_tag_join("/"@ + spelled, "/"@);
}

proof fn lemma_frame_tags_other()
    ensures
        other_tags("<D:response><D:href>"@),
        other_tags("</D:href><D:propstat><D:prop>"@),
        other_tags(
            "</D:prop><D:status>HTTP/1.1 200 OK</D:status></D:propstat></D:response>\n"@,
        ),
{
    reveal_strlit("<D:response><D:href>");
    reveal_strlit("</D:href><D:propstat><D:prop>");
    reveal_strlit("</D:prop><D:status>HTTP/1.1 200 OK</D:status></D:propstat></D:response>\n");
}

proof fn lemma_property_tags_other()
    ensures
        other_tags("<D:displayname>"@),
        other_tags("</D:displayname>"@),
        other_tags("<D:resourcetype/>"@),
        other_tags("<D:getcontentlength>"@),
        other_tags("</D:getcontentlength>"@),
        other_tags("<D:getlastmodified>"@),
        other_tags("</D:getlastmodified>"@),
        other_tags("<D:getetag>"@),
        other_tags("</D:getetag>"@),
        other_tags("<D:creationdate>"@),
        other_tags("</D:creationdate>"@),
{
    reveal_strlit("<D:displayname>");
    reveal_strlit("</D:displayname>");
    reveal_strlit("<D:resourcetype/>");
    reveal_strlit("<D:getcontentlength>");
    reveal_strlit("</D:getcontentlength>");
    reveal_strlit("<D:getlastmodified>");
    reveal_strlit("</D:getlastmodified>");
    reveal_strlit("<D:getetag>");
    reveal_strlit("</D:getetag>");
    reveal_strlit("<D:creationdate>");
    reveal_strlit("</D:creationdate>");
}

/// The properties of an item but for the kind it is of.
proof fn lemma_properties_other(item: ItemView, props: PropSet)
    ensures
        other_tags(displayname_text(item, props)),
        other_tags(getcontentlength_text(item, props)),
        other_tags(getlastmodified_text(item, props)),
        other_tags(getetag_text(item, props)),
        other_tags(creationdate_text(item, props)),
{
    lemma_property_tags_other();
    let tag = escaped(etag_of(item.size, item.modified_unix_secs));
    let secs = item.modified_unix_secs as int;
    lemma_escaped_no_tag(item.name);
    lemma_escaped_no_tag(etag_of(item.size, item.modified_unix_secs));
    lemma_decimal_no_tag(item.size as nat);
    lemma_dates_no_tag(secs);
    lemma_element_other("<D:displayname>"@, escaped(item.name), "</D:displayname>"@);
    lemma_element_other(
        "<D:getcontentlength>"@,
        decimal(item.size as nat),
        "</D:getcontentlength>"@,
    );
    lemma_element_other("<D:getlastmodified>"@, rfc1123_of(secs), "</D:getlastmodified>"@);
    lemma_element_other("<D:getetag>"@, tag, "</D:getetag>"@);
    lemma_element_other("<D:creationdate>"@, iso8601_of(secs), "</D:creationdate>"@);
}

/// What stands in the middle of a text is a part of it.
proof fn lemma_middle_is_part(before: Seq<char>, part: Seq<char>, after: Seq<char>)
    ensures
        has_part(before + part + after, part),
{
    let all = before + part + after;
    assert(all.subrange(before.len() as int, (before.len() + part.len()) as int) =~= part);
    assert(occurs_at(all, part, before.len() as int));
}

/// A part of a part is a part of the whole.
proof fn lemma_part_within(whole: Seq<char>, part: Seq<char>, inner: Seq<char>)
    requires
        has_part(whole, part),
        has_part(part, inner),
    ensures
        has_part(whole, inner),
{
    let a = choose|a: int| occurs_at(whole, part, a);
    let b = choose|b: int| occurs_at(part, inner, b);
    assert(whole.subrange(a + b, a + b + inner.len()) =~= part.subrange(b, b + inner.len()));
    assert(occurs_at(whole, inner, a + b));
}

/// Two texts in a row are both parts of the whole.
proof fn lemma_both_are_parts(a: Seq<char>, b: Seq<char>)
    ensures
        has_part(a + b, a),
        has_part(a + b, b),
{
    assert((a + b).subrange(0, a.len() as int) =~= a);
    assert(occurs_at(a + b, a, 0));
    assert((a + b).subrange(a.len() as int, (a.len() + b.len()) as int) =~= b);
    assert(occurs_at(a + b, b, a.len() as int));
}

/// Six texts in a row are all parts of the whole.
proof fn lemma_six_are_parts(
    a: Seq<char>,
    b: Seq<char>,
    c: Seq<char>,
    d: Seq<char>,
    e: Seq<char>,
    f: Seq<char>,
)
    ensures
        has_part(a + b + c + d + e + f, a),
        has_part(a + b + c + d + e + f, b),
        has_part(a + b + c + d + e + f, c),
        has_part(a + b + c + d + e + f, d),
        has_part(a + b + c + d + e + f, e),
        has_part(a + b + c + d + e + f, f),
{
    let two = a + b;
    let three = two + c;
    let four = three + d;
    let five = four + e;
    let six = five + f;
    lemma_both_are_parts(a, b);
    lemma_both_are_parts(two, c);
    lemma_both_are_parts(three, d);
    lemma_both_are_parts(four, e);
    lemma_both_are_parts(five, f);
    lemma_part_within(six, five, four);
    lemma_part_within(six, five, e);
    lemma_part_within(six, four, three);
    lemma_part_within(six, four, d);
    lemma_part_within(six, three, two);
    lemma_part_within(six, three, c);
    lemma_part_within(six, two, a);
    lemma_part_within(six, two, b);
}

/// The answer for an item holds every property of it.
proof fn lemma_response_holds(item: ItemView, props: PropSet)
    ensures
        has_part(response_text(item, props), displayname_text(item, props)),
        has_part(response_text(item, props), resourcetype_text(item, props)),
        has_part(response_text(item, props), getcontentlength_text(item, props)),
        has_part(response_text(item, props), getlastmodified_text(item, props)),
        has_part(response_text(item, props), getetag_text(item, props)),
        has_part(response_text(item, props), creationdate_text(item, props)),
{
    let response = response_text(item, props);
    let name = displayname_text(item, props);
    let kind = resourcetype_text(item, props);
    let length = getcontentlength_text(item, props);
    let modified = getlastmodified_text(item, props);
    let tag = getetag_text(item, props);
    let created = creationdate_text(item, props);
    let inner = props_text(item, props);
    lemma_middle_is_part(
        "<D:response><D:href>"@ + href_of(item.path, item.is_dir)
            + "</D:href><D:propstat><D:prop>"@,
        inner,
        "</D:prop><D:status>HTTP/1.1 200 OK</D:status></D:propstat></D:response>\n"@,
    );
    lemma_six_are_parts(name, kind, length, modified, tag, created);
    lemma_part_within(response, inner, name);
    lemma_part_within(response, inner, kind);
    lemma_part_within(response, inner, length);
    lemma_part_within(response, inner, modified);
    lemma_part_within(response, inner, tag);
    lemma_part_within(response, inner, created);
}

/// The answer for a file, or one where the kind was not asked for.
proof fn lemma_response_other(item: ItemView, props: PropSet)
    requires
        !(props.resourcetype && item.is_dir),
    ensures
        other_tags(response_text(item, props)),
{
    let name = displayname_text(item, props);
    let kind = resourcetype_text(item, props);
    let length = getcontentlength_text(item, props);
    let modified = getlastmodified_text(item, props);
    let tag = getetag_text(item, props);
    let created = creationdate_text(item, props);
    let open = "<D:response><D:href>"@ + href_of(item.path, item.is_dir)
        + "</D:href><D:propstat><D:prop>"@;
    let close = "</D:prop><D:status>HTTP/1.1 200 OK</D:status></D:propstat></D:response>\n"@;
    lemma_frame_tags_other();
    lemma_properties_other(item, props);
    lemma_href_no_tag(item.path, item.is_dir);
    lemma_element_other(
        "<D:response><D:href>"@,
        href_of(item.path, item.is_dir),
        "</D:href><D:propstat><D:prop>"@,
    );
    assert(other_tags(kind)) by {
        lemma_property_tags_other();
    }
    lemma_other_tags_join(name, kind);
    lemma_other_tags_join(name + kind, length);
    lemma_other_tags_join(name + kind + length, modified);
    lemma_other_tags_join(name + kind + length + modified, tag);
    lemma_other_tags_join(name + kind + length + modified + tag, created);
    lemma_other_tags_join(open, props_text(item, props));
    lemma_other_tags_join(open + props_text(item, props), close);
}

/// A text with other tags alone has no folder's.
proof fn lemma_no_collection(text: Seq<char>)
    requires
        other_tags(text),
    ensures
        !has_part(text, "<D:collection/>"@),
{
    if has_part(text, "<D:collection/>"@) {
        reveal_strlit("<D:collection/>");
        let at = choose|at: int| occurs_at(text, "<D:collection/>"@, at);
        let part = text.subrange(at, at + 15);
        assert(part[0] == '<' && part[1] == 'D' && part[2] == ':' && part[3] == 'c' && part[4]
            == 'o');
        assert(text[at] == '<');
    }
}

/// An answer calls an item a folder exactly where it is one, and where its
/// kind was asked for: whatever the item's path, name, size and time are.
pub proof fn lemma_folder_is_told_apart(item: ItemView, props: PropSet)
    ensures
        has_part(response_text(item, props), "<D:collection/>"@) <==> props.resourcetype
            && item.is_dir,
{
    if props.resourcetype && item.is_dir {
        let kind = resourcetype_text(item, props);
        lemma_response_holds(item, props);
        assert(has_part(kind, "<D:collection/>"@)) by {
            reveal_strlit("<D:resourcetype><D:collection/></D:resourcetype>");
            reveal_strlit("<D:collection/>");
            assert(kind.subrange(16, 31) =~= "<D:collection/>"@);
            assert(occurs_at(kind, "<D:collection/>"@, 16));
        }
        lemma_part_within(response_text(item, props), kind, "<D:collection/>"@);
    } else {
        lemma_response_other(item, props);
        lemma_no_collection(response_text(item, props));
    }
}

/// The address stands at the head of the answer.
proof fn lemma_address_is_told(item: ItemView, props: PropSet)
    ensures
        has_part(
            response_text(item, props),
            "<D:href>"@ + href_of(item.path, item.is_dir) + "</D:href>"@,
        ),
{
    let href = href_of(item.path, item.is_dir);
    let inner = props_text(item, props);
    let close = "</D:prop><D:status>HTTP/1.1 200 OK</D:status></D:propstat></D:response>\n"@;
    let a = "<D:response>"@;
    let b = "<D:href>"@;
    let c = "</D:href>"@;
    let d = "<D:propstat><D:prop>"@;
    assert("<D:response><D:href>"@ =~= a + b) by {
        reveal_strlit("<D:response><D:href>");
        reveal_strlit("<D:response>");
        reveal_strlit("<D:href>");
    }
    assert("</D:href><D:propstat><D:prop>"@ =~= c + d) by {
        reveal_strlit("</D:href><D:propstat><D:prop>");
        reveal_strlit("</D:href>");
        reveal_strlit("<D:propstat><D:prop>");
    }
    let open = (a + b) + href + (c + d);
    assert(open =~= a + (b + href + c) + d);
    lemma_middle_is_part(a, b + href + c, d);
    lemma_both_are_parts(open, inner);
    lemma_both_are_parts(open + inner, close);
    lemma_part_within(open + inner, open, b + href + c);
    lemma_part_within(open + inner + close, open + inner, b + href + c);
}

/// Every property that was asked for stands in the answer with the item's own
/// value: its name, its size, its time and what tells its content apart. The
/// answer is for the item's own address.
pub proof fn lemma_properties_are_told(item: ItemView, props: PropSet)
    ensures
        has_part(
            response_text(item, props),
            "<D:href>"@ + href_of(item.path, item.is_dir) + "</D:href>"@,
        ),
        props.displayname ==> has_part(
            response_text(item, props),
            "<D:displayname>"@ + escaped(item.name) + "</D:displayname>"@,
        ),
        props.getcontentlength ==> has_part(
            response_text(item, props),
            "<D:getcontentlength>"@ + decimal(item.size as nat) + "</D:getcontentlength>"@,
        ),
        props.getlastmodified ==> has_part(
            response_text(item, props),
            "<D:getlastmodified>"@ + rfc1123_of(item.modified_unix_secs as int)
                + "</D:getlastmodified>"@,
        ),
        props.getetag ==> has_part(
            response_text(item, props),
            "<D:getetag>"@ + escaped(etag_of(item.size, item.modified_unix_secs))
                + "</D:getetag>"@,
        ),
        props.creationdate ==> has_part(
            response_text(item, props),
            "<D:creationdate>"@ + iso8601_of(item.modified_unix_secs as int)
                + "</D:creationdate>"@,
        ),
{
    lemma_address_is_told(item, props);
    lemma_response_holds(item, props);
}

/// Every item is answered for, in its turn: the answer is one response after
/// another, with nothing between.
pub proof fn lemma_every_item_is_answered(items: Seq<ItemView>, props: PropSet, i: int)
    requires
        0 <= i < items.len(),
    ensures
        has_part(multistatus_text(items, props), response_text(items[i], props)),
        responses_text(items, props) == responses_text(items.take(i), props) + response_text(
            items[i],
            props,
        ) + responses_text(items.skip(i + 1), props),
    decreases items.len(),
{
    let front = items.drop_last();
    let all = responses_text(items, props);
    let one = response_text(items[i], props);
    let before = responses_text(items.take(i), props);
    let after = responses_text(items.skip(i + 1), props);
    if i < front.len() {
        lemma_every_item_is_answered(front, props, i);
        assert(front.take(i) =~= items.take(i));
        assert(items.skip(i + 1).drop_last() =~= front.skip(i + 1));
        assert(all =~= before + one + after);
    } else {
        assert(items.take(i) =~= front);
        assert(items.skip(i + 1) =~= Seq::<ItemView>::empty());
        assert(all =~= before + one + after);
    }
    let open = "<?xml version=\"1.0\" encoding=\"utf-8\"?>\n<D:multistatus xmlns:D=\"DAV:\">\n"@;
    let close = "</D:multistatus>\n"@;
    lemma_middle_is_part(open + before, one, after + close);
    assert(multistatus_text(items, props) =~= open + before + one + (after + close));
}

/// The spelling of two parts of a path is the two spellings.
proof fn lemma_encoded_join(a: Seq<u8>, b: Seq<u8>)
    ensures
        percent_encoded(a + b) == percent_encoded(a) + percent_encoded(b),
    decreases b.len(),
{
    if b.len() == 0 {
        assert(a + b =~= a);
        assert(percent_encoded(a) + percent_encoded(b) =~= percent_encoded(a));
    } else {
        lemma_encoded_join(a, b.drop_last());
        assert((a + b).drop_last() =~= a + b.drop_last());
        assert(percent_encoded(a + b) =~= percent_encoded(a) + percent_encoded(b));
    }
}

/// The address of an item leads back to it: with its escapes taken out it is
/// the item's path between slashes, where the last one is a folder's.
pub proof fn lemma_address_leads_back(path: Seq<char>, is_dir: bool)
    requires
        path.len() > 0,
    ensures
        unescaped(encode_utf8(href_of(path, is_dir))) == seq![47u8] + encode_utf8(path) + (if is_dir {
            seq![47u8]
        } else {
            Seq::<u8>::empty()
        }),
{
    reveal_strlit("/");
    let slash = seq![47u8];
    assert(slash.drop_last() =~= Seq::<u8>::empty());
    assert(percent_encoded(slash.drop_last()) =~= Seq::<char>::empty());
    assert(percent_encoded(slash) =~= "/"@);
    let bytes = encode_utf8(path);
    lemma_encoded_join(slash, bytes);
    lemma_encoded_join(slash + bytes, slash);
    if is_dir {
        lemma_spelling_reads_back(slash + bytes + slash);
        assert(href_of(path, is_dir) =~= percent_encoded(slash + bytes + slash));
    } else {
        lemma_spelling_reads_back(slash + bytes);
        assert(href_of(path, is_dir) =~= percent_encoded(slash + bytes));
        assert(slash + bytes + Seq::<u8>::empty() =~= slash + bytes);
    }
}

} // verus!
