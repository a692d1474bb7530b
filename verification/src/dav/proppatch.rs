//! What a `PROPPATCH` sets, and the answer to it.
//!
//! The reader is tolerant, as the one for `PROPFIND` is: every opening tag
//! but those that hold the properties names a property, whatever its
//! namespace.

use crate::dav::xml::{escape, escaped, href_for, href_of};
use crate::text::{
    chars_of, copy_of, find_char, first_index, is_space, is_space_char, last_index, lower_all,
    lowered, lossy_utf8, rfind_char, same_text, text_of, text_views, trim, trimmed,
    utf8_text_lossy,
};
use vstd::prelude::*;
use vstd::slice::slice_subrange;

verus! {

/// One opening tag, with the text right behind it.
pub struct Tag {
    pub name: String,
    pub text: String,
}

/// What one opening tag says.
#[verifier::ext_equal]
pub struct TagView {
    pub name: Seq<char>,
    pub text: Seq<char>,
}

impl View for Tag {
    type V = TagView;

    open spec fn view(&self) -> TagView {
        TagView { name: self.name@, text: self.text@ }
    }
}

/// What some opening tags say.
pub open spec fn tag_views(tags: Seq<Tag>) -> Seq<TagView> {
    tags.map_values(|t: Tag| t@)
}

/// How long the name at the start of a tag is.
pub open spec fn name_len(tag: Seq<char>) -> int
    decreases tag.len(),
{
    if tag.len() == 0 || is_space(tag[0]) || tag[0] == '/' {
        0
    } else {
        1 + name_len(tag.drop_first())
    }
}

/// The name of a tag, without its namespace.
pub open spec fn local_name(tag: Seq<char>) -> Seq<char> {
    let whole = tag.take(name_len(tag));
    whole.skip(last_index(whole, ':') + 1)
}

/// A tag that closes an element, or is no element.
pub open spec fn opens_nothing(tag: Seq<char>) -> bool {
    tag.len() == 0 || tag[0] == '/' || tag[0] == '?' || tag[0] == '!'
}

/// A tag that only holds properties.
pub open spec fn holds_properties(name: Seq<char>) -> bool {
    ||| name == "propertyupdate"@
    ||| name == "set"@
    ||| name == "remove"@
    ||| name == "prop"@
}

/// A tag that names a property.
pub open spec fn names_property(tag: Seq<char>) -> bool {
    !opens_nothing(tag) && !holds_properties(local_name(tag))
}

/// The properties that a body names, in order, with their values.
pub open spec fn properties(body: Seq<char>) -> Seq<TagView>
    decreases body.len(),
{
    let open = first_index(body, '<');
    let inside = body.skip(open + 1);
    let close = first_index(inside, '>');
    let after = inside.skip(close + 1);
    if !body.contains('<') || !inside.contains('>') || open < 0 || close < 0 || open >= body.len()
        || close >= inside.len() {
        Seq::empty()
    } else {
        let tag = inside.take(close);
        let here = TagView {
            name: local_name(tag),
            text: trim(after.take(first_index(after, '<'))),
        };
        if names_property(tag) {
            seq![here] + properties(after)
        } else {
            properties(after)
        }
    }
}

/// A property that holds the modified time.
pub open spec fn is_time_property(name: Seq<char>) -> bool {
    lower_all(name) == "getlastmodified"@ || lower_all(name) == "win32lastmodifiedtime"@
}

/// The value of the first property that holds the modified time.
pub open spec fn time_value(found: Seq<TagView>) -> Option<Seq<char>>
    decreases found.len(),
{
    if found.len() == 0 {
        None
    } else if is_time_property(found[0].name) {
        Some(found[0].text)
    } else {
        time_value(found.drop_first())
    }
}

fn length_of_name(tag: &[char]) -> (len: usize)
    ensures
        len == name_len(tag@),
        len <= tag@.len(),
{
    let mut i: usize = 0;
    assert(tag@.skip(0) =~= tag@);
    while i < tag.len() && !is_space_char(tag[i]) && tag[i] != '/'
        invariant
            i <= tag@.len(),
            name_len(tag@) == i + name_len(tag@.skip(i as int)),
        decreases tag@.len() - i,
    {
        assert(tag@.skip(i as int).drop_first() =~= tag@.skip(i + 1));
        i += 1;
    }
    i
}

fn name_of(tag: &[char]) -> (name: String)
    ensures
        name@ == local_name(tag@),
{
    let len = length_of_name(tag);
    let whole = slice_subrange(tag, 0, len);
    assert(whole@ =~= tag@.take(len as int));
    let start: usize = match rfind_char(whole, ':') {
        None => 0,
        Some(at) => at + 1,
    };
    let part = slice_subrange(whole, start, whole.len());
    assert(part@ =~= whole@.skip(start as int));
    text_of(part)
}

fn is_holder(name: &str) -> (holder: bool)
    ensures
        holder == holds_properties(name@),
{
    same_text(name, "propertyupdate") || same_text(name, "set") || same_text(name, "remove")
        || same_text(name, "prop")
}

/// The text up to the next tag.
fn text_before_tag(after: &[char]) -> (text: String)
    ensures
        text@ == trim(after@.take(first_index(after@, '<'))),
{
    let end: usize = match find_char(after, '<') {
        None => after.len(),
        Some(at) => at,
    };
    let part = slice_subrange(after, 0, end);
    assert(part@ =~= after@.take(end as int));
    text_of(trimmed(part))
}

/// Reads the properties that a body names.
fn read_properties(body: &[char]) -> (found: Vec<Tag>)
    ensures
        tag_views(found@) == properties(body@),
{
    let mut found: Vec<Tag> = Vec::new();
    let mut at: usize = 0;
    let total: usize = body.len();
    assert(body@.skip(0) =~= body@);
    assert(tag_views(found@) + properties(body@.skip(0)) =~= properties(body@));
    while at < total
        invariant
            total == body@.len(),
            at <= total,
            tag_views(found@) + properties(body@.skip(at as int)) == properties(body@),
        decreases total - at,
    {
        let rest = slice_subrange(body, at, total);
        assert(rest@ =~= body@.skip(at as int));
        let open: usize = match find_char(rest, '<') {
            None => {
                assert(tag_views(found@) =~= properties(body@));
                return found;
            },
            Some(o) => o,
        };
        let inside = slice_subrange(rest, open + 1, rest.len());
        assert(inside@ =~= rest@.skip(open + 1));
        let close: usize = match find_char(inside, '>') {
            None => {
                assert(tag_views(found@) =~= properties(body@));
                return found;
            },
            Some(c) => c,
        };
        let tag = slice_subrange(inside, 0, close);
        assert(tag@ =~= inside@.take(close as int));
        let after = slice_subrange(inside, close + 1, inside.len());
        assert(after@ =~= inside@.skip(close + 1));
        let name = name_of(tag);
        let nothing = tag.len() == 0 || tag[0] == '/' || tag[0] == '?' || tag[0] == '!';
        let ghost so_far = tag_views(found@);
        let next: usize = at + open + 1 + close + 1;
        assert(after@ =~= body@.skip(next as int));
        if !nothing && !is_holder(name.as_str()) {
            let text = text_before_tag(after);
            let here = Tag { name, text };
            let ghost view = here@;
            found.push(here);
            assert(tag_views(found@) =~= so_far.push(view));
            assert(so_far.push(view) + properties(after@) =~= so_far + (seq![view] + properties(
                after@,
            )));
        }
        at = next;
    }
    assert(body@.skip(at as int).len() == 0);
    assert(tag_views(found@) =~= properties(body@));
    found
}

/// What a `PROPPATCH` body asks for.
pub struct Patch {
    /// The properties it names, in order.
    pub names: Vec<String>,
    /// The value of the first that holds the modified time.
    pub mtime_text: Option<String>,
}

/// The names of some properties.
pub open spec fn names_of(found: Seq<TagView>) -> Seq<Seq<char>> {
    found.map_values(|t: TagView| t.name)
}

fn is_time(name: &str) -> (time: bool)
    ensures
        time == is_time_property(name@),
{
    let chars = chars_of(name);
    let low = text_of(lowered(chars.as_slice()).as_slice());
    same_text(low.as_str(), "getlastmodified") || same_text(low.as_str(), "win32lastmodifiedtime")
}

/// Reads a `PROPPATCH` body.
pub fn read_proppatch(body: &[u8]) -> (patch: Patch)
    ensures
        ({
            let found = properties(lossy_utf8(body@));
            &&& text_views(patch.names@) == names_of(found)
            &&& crate::text::opt_view(patch.mtime_text) == time_value(found)
        }),
{
    read_patch_text(utf8_text_lossy(body).as_str())
}

/// Reads the text of a `PROPPATCH` body.
pub fn read_patch_text(text: &str) -> (patch: Patch)
    ensures
        text_views(patch.names@) == names_of(properties(text@)),
        crate::text::opt_view(patch.mtime_text) == time_value(properties(text@)),
{
    let chars = chars_of(text);
    let found = read_properties(chars.as_slice());
    let ghost views = tag_views(found@);
    let mut names: Vec<String> = Vec::new();
    let mut mtime_text: Option<String> = None;
    let mut i: usize = 0;
    assert(views.skip(0) =~= views);
    assert(text_views(names@) =~= names_of(views.take(0)));
    while i < found.len()
        invariant
            i <= found@.len(),
            views == tag_views(found@),
            text_views(names@) == names_of(views.take(i as int)),
            mtime_text is None ==> time_value(views) == time_value(views.skip(i as int)),
            mtime_text matches Some(t) ==> time_value(views) == Some(t@),
        decreases found@.len() - i,
    {
        let name = copy_of(found[i].name.as_str());
        let ghost so_far = text_views(names@);
        let ghost here = name@;
        assert(views.skip(i as int).drop_first() =~= views.skip(i + 1));
        assert(views.skip(i as int)[0] == found@[i as int]@);
        if mtime_text.is_none() && is_time(name.as_str()) {
            mtime_text = Some(copy_of(found[i].text.as_str()));
        }
        names.push(name);
        assert(text_views(names@) =~= so_far.push(here));
        assert(names_of(views.take(i + 1)) =~= names_of(views.take(i as int)).push(here));
        i += 1;
    }
    assert(views.take(i as int) =~= views);
    Patch { names, mtime_text }
}

/// The names that are accepted: those that hold the modified time, where it
/// was read.
pub open spec fn accepted_names(names: Seq<Seq<char>>, dated: bool) -> Seq<Seq<char>> {
    crate::seqs::only(names, |n: Seq<char>| dated && is_time_property(n))
}

/// The names that are refused.
pub open spec fn refused_names(names: Seq<Seq<char>>, dated: bool) -> Seq<Seq<char>> {
    crate::seqs::only(names, |n: Seq<char>| !(dated && is_time_property(n)))
}

/// Parts the names that are accepted from those that are refused.
pub fn parted(names: &Vec<String>, dated: bool) -> (parts: (Vec<String>, Vec<String>))
    ensures
        text_views(parts.0@) == accepted_names(text_views(names@), dated),
        text_views(parts.1@) == refused_names(text_views(names@), dated),
{
    let ghost views = text_views(names@);
    let ghost yes = |n: Seq<char>| dated && is_time_property(n);
    let ghost no = |n: Seq<char>| !(dated && is_time_property(n));
    let mut accepted: Vec<String> = Vec::new();
    let mut refused: Vec<String> = Vec::new();
    let mut i: usize = 0;
    assert(text_views(accepted@) =~= crate::seqs::only(views.take(0), yes));
    assert(text_views(refused@) =~= crate::seqs::only(views.take(0), no));
    while i < names.len()
        invariant
            i <= names@.len(),
            views == text_views(names@),
            yes == (|n: Seq<char>| dated && is_time_property(n)),
            no == (|n: Seq<char>| !(dated && is_time_property(n))),
            text_views(accepted@) == crate::seqs::only(views.take(i as int), yes),
            text_views(refused@) == crate::seqs::only(views.take(i as int), no),
        decreases names@.len() - i,
    {
        proof {
            crate::seqs::lemma_only_step(views, yes, i as int);
            crate::seqs::lemma_only_step(views, no, i as int);
        }
        let name = copy_of(names[i].as_str());
        let ghost here = name@;
        assert(views[i as int] == here);
        let ghost before_yes = text_views(accepted@);
        let ghost before_no = text_views(refused@);
        if dated && is_time(name.as_str()) {
            accepted.push(name);
            assert(text_views(accepted@) =~= before_yes.push(here));
        } else {
            refused.push(name);
            assert(text_views(refused@) =~= before_no.push(here));
        }
        i += 1;
    }
    assert(views.take(i as int) =~= views);
    (accepted, refused)
}

/// An empty element for each name.
pub open spec fn empty_elements(names: Seq<Seq<char>>) -> Seq<char>
    decreases names.len(),
{
    if names.len() == 0 {
        Seq::empty()
    } else {
        empty_elements(names.drop_last()) + ("<D:"@ + escaped(names.last()) + "/>"@)
    }
}

/// What became of some properties. Nothing is said of none.
pub open spec fn propstat_text(names: Seq<Seq<char>>, status: Seq<char>) -> Seq<char> {
    if names.len() == 0 {
        Seq::empty()
    } else {
        "<D:propstat><D:prop>"@ + empty_elements(names) + "</D:prop><D:status>"@ + status
            + "</D:status></D:propstat>"@
    }
}

/// The whole answer to a `PROPPATCH`.
pub open spec fn patched_text(
    path: Seq<char>,
    is_dir: bool,
    accepted: Seq<Seq<char>>,
    refused: Seq<Seq<char>>,
) -> Seq<char> {
    "<?xml version=\"1.0\" encoding=\"utf-8\"?>\n<D:multistatus xmlns:D=\"DAV:\">\n<D:response><D:href>"@
        + href_of(path, is_dir) + "</D:href>"@ + propstat_text(accepted, "HTTP/1.1 200 OK"@)
        + propstat_text(refused, "HTTP/1.1 403 Forbidden"@)
        + "</D:response>\n</D:multistatus>\n"@
}

fn push_propstat(out: &mut String, names: &Vec<String>, status: &str)
    ensures
        final(out)@ == old(out)@ + propstat_text(text_views(names@), status@),
{
    let ghost views = text_views(names@);
    if names.len() == 0 {
        assert(out@ =~= old(out)@ + propstat_text(views, status@));
        return;
    }
    out.push_str("<D:propstat><D:prop>");
    let ghost start = out@;
    let mut i: usize = 0;
    assert(views.take(0) =~= Seq::<Seq<char>>::empty());
    assert(out@ =~= start + empty_elements(views.take(0)));
    while i < names.len()
        invariant
            i <= names@.len(),
            views == text_views(names@),
            out@ == start + empty_elements(views.take(i as int)),
        decreases names@.len() - i,
    {
        let ghost before = out@;
        out.push_str("<D:");
        out.push_str(escape(names[i].as_str()).as_str());
        out.push_str("/>");
        assert(out@ =~= before + ("<D:"@ + escaped(names@[i as int]@) + "/>"@));
        i += 1;
        assert(views.take(i as int).drop_last() =~= views.take(i - 1));
        assert(views.take(i as int).last() == names@[i - 1]@);
        assert(out@ =~= start + empty_elements(views.take(i as int)));
    }
    assert(views.take(i as int) =~= views);
    out.push_str("</D:prop><D:status>");
    out.push_str(status);
    out.push_str("</D:status></D:propstat>");
    assert(out@ =~= old(out)@ + propstat_text(views, status@));
}

/// The whole answer to a `PROPPATCH`: what was accepted, and what was not.
pub fn proppatch_multistatus(
    path: &str,
    is_dir: bool,
    accepted: &Vec<String>,
    refused: &Vec<String>,
) -> (xml: String)
    ensures
        xml@ == patched_text(path@, is_dir, text_views(accepted@), text_views(refused@)),
{
    let mut xml = String::new();
    xml.push_str(
        "<?xml version=\"1.0\" encoding=\"utf-8\"?>\n<D:multistatus xmlns:D=\"DAV:\">\n<D:response><D:href>",
    );
    xml.push_str(href_for(path, is_dir).as_str());
    xml.push_str("</D:href>");
    push_propstat(&mut xml, accepted, "HTTP/1.1 200 OK");
    push_propstat(&mut xml, refused, "HTTP/1.1 403 Forbidden");
    xml.push_str("</D:response>\n</D:multistatus>\n");
    assert(xml@ =~= patched_text(path@, is_dir, text_views(accepted@), text_views(refused@)));
    xml
}

/// Each property that was named is answered once, in one of the two parts: a
/// time in the accepted one where a date was given, everything else in the
/// other.
pub proof fn lemma_every_property_is_answered(
    names: &Vec<String>,
    dated: bool,
    parts: (Vec<String>, Vec<String>),
    name: Seq<char>,
)
    requires
        call_ensures(parted, (names, dated), parts),
    ensures
        parts.0@.len() + parts.1@.len() == names@.len(),
        text_views(parts.0@).contains(name) <==> text_views(names@).contains(name) && dated && (
        lower_all(name) == "getlastmodified"@ || lower_all(name) == "win32lastmodifiedtime"@),
        text_views(parts.1@).contains(name) <==> text_views(names@).contains(name) && !(dated && (
        lower_all(name) == "getlastmodified"@ || lower_all(name) == "win32lastmodifiedtime"@)),
{
    let all = text_views(names@);
    let yes = |n: Seq<char>| dated && is_time_property(n);
    let no = |n: Seq<char>| !(dated && is_time_property(n));
    crate::seqs::lemma_only(all, yes);
    crate::seqs::lemma_only(all, no);
    lemma_parts_add_up(all, yes, no);
    assert(text_views(parts.0@).len() == parts.0@.len());
    assert(text_views(parts.1@).len() == parts.1@.len());
    assert(all.len() == names@.len());
    let a = text_views(parts.0@);
    let b = text_views(parts.1@);
    if a.contains(name) {
        let i = choose|i: int| 0 <= i < a.len() && a[i] == name;
        assert(yes(a[i]));
    }
    if b.contains(name) {
        let i = choose|i: int| 0 <= i < b.len() && b[i] == name;
        assert(no(b[i]));
    }
    if all.contains(name) {
        let i = choose|i: int| 0 <= i < all.len() && all[i] == name;
        if yes(name) {
            assert(yes(all[i]));
        } else {
            assert(no(all[i]));
        }
    }
}

proof fn lemma_parts_add_up(
    s: Seq<Seq<char>>,
    yes: spec_fn(Seq<char>) -> bool,
    no: spec_fn(Seq<char>) -> bool,
)
    requires
        forall|x: Seq<char>| #[trigger] no(x) == !yes(x),
    ensures
        crate::seqs::only(s, yes).len() + crate::seqs::only(s, no).len() == s.len(),
    decreases s.len(),
{
    if s.len() > 0 {
        lemma_parts_add_up(s.drop_last(), yes, no);
        assert(no(s.last()) == !yes(s.last()));
    }
}

/// An element of a body that sets a property is read by its local name with
/// the text behind it, and what follows is read as before.
pub proof fn lemma_property_is_read(
    prefix: Seq<char>,
    local: Seq<char>,
    value: Seq<char>,
    rest: Seq<char>,
)
    requires
        local.len() > 0,
        !holds_properties(local),
        plain_name(prefix + local),
        !prefix.contains(':'),
        !local.contains(':'),
        !value.contains('<'),
    ensures
        ({
            let body = "<"@ + (prefix + ":"@ + local) + ">"@ + value + "</"@ + rest;
            &&& properties(body).len() > 0
            &&& properties(body)[0] == (TagView { name: local, text: trim(value) })
        }),
{
    let tag = prefix + ":"@ + local;
    let behind = value + "</"@ + rest;
    let body = "<"@ + tag + ">"@ + value + "</"@ + rest;
    lemma_tag_stands_out(tag, prefix, local, behind);
    assert(body =~= "<"@ + tag + ">"@ + behind);
    lemma_local_name(tag, prefix, local);
    lemma_text_ends(value, rest);
    lemma_tag_char(prefix, local, 0);
    let after = behind;
    let here = TagView { name: local, text: trim(value) };
    assert(properties(body) == seq![here] + properties(after));
}

proof fn lemma_tag_stands_out(
    tag: Seq<char>,
    prefix: Seq<char>,
    local: Seq<char>,
    behind: Seq<char>,
)
    requires
        tag == prefix + ":"@ + local,
        plain_name(prefix + local),
    ensures
        ({
            let body = "<"@ + tag + ">"@ + behind;
            let inside = body.skip(1);
            let n = tag.len() as int;
            &&& body.contains('<')
            &&& first_index(body, '<') == 0
            &&& body.len() > 0
            &&& inside.contains('>')
            &&& first_index(inside, '>') == n
            &&& n < inside.len()
            &&& inside.take(n) == tag
            &&& inside.skip(n + 1) == behind
        }),
{
    reveal_strlit("<");
    reveal_strlit(">");
    let body = "<"@ + tag + ">"@ + behind;
    assert(body[0] == '<');
    crate::text::lemma_first_index(body, '<', 0);
    let inside = body.skip(1);
    let n = tag.len() as int;
    assert(inside =~= tag + (">"@ + behind));
    assert forall|j: int| 0 <= j < n implies #[trigger] inside[j] != '>' by {
        lemma_tag_char(prefix, local, j);
        assert(inside[j] == tag[j]);
    }
    assert(inside[n] == '>');
    crate::text::lemma_first_index(inside, '>', n);
    assert(inside.take(n) =~= tag);
    assert(inside.skip(n + 1) =~= behind);
    assert(body.contains(body[0]));
    assert(inside.contains(inside[n]));
}

proof fn lemma_local_name(tag: Seq<char>, prefix: Seq<char>, local: Seq<char>)
    requires
        tag == prefix + ":"@ + local,
        plain_name(prefix + local),
        !local.contains(':'),
    ensures
        local_name(tag) == local,
{
    reveal_strlit(":");
    lemma_whole_name(tag, prefix, local);
    assert(tag.take(tag.len() as int) =~= tag);
    let p = prefix.len() as int;
    assert(tag[p] == ':');
    assert forall|j: int| p < j < tag.len() implies #[trigger] tag[j] != ':' by {
        assert(tag[j] == local[j - p - 1]);
        assert(local.contains(local[j - p - 1]));
    }
    crate::text::lemma_last_index(tag, ':', p);
    assert(tag.skip(p + 1) =~= local);
}

proof fn lemma_text_ends(value: Seq<char>, rest: Seq<char>)
    requires
        !value.contains('<'),
    ensures
        ({
            let after = value + "</"@ + rest;
            after.take(first_index(after, '<')) == value
        }),
{
    reveal_strlit("</");
    let after = value + "</"@ + rest;
    let v = value.len() as int;
    assert(after[v] == '<');
    assert forall|j: int| 0 <= j < v implies #[trigger] after[j] != '<' by {
        assert(after[j] == value[j]);
        assert(value.contains(value[j]));
    }
    crate::text::lemma_first_index(after, '<', v);
    assert(after.take(v) =~= value);
}

/// Characters of an element's name only.
pub open spec fn plain_name(name: Seq<char>) -> bool {
    forall|i: int|
        0 <= i < name.len() ==> !is_space(#[trigger] name[i]) && name[i] != '/' && name[i] != '>'
            && name[i] != '<' && name[i] != '?' && name[i] != '!'
}

proof fn lemma_tag_char(prefix: Seq<char>, local: Seq<char>, j: int)
    requires
        plain_name(prefix + local),
        0 <= j < (prefix + ":"@ + local).len(),
    ensures
        ({
            let c = (prefix + ":"@ + local)[j];
            !is_space(c) && c != '/' && c != '>' && c != '<' && c != '?' && c != '!'
        }),
{
    reveal_strlit(":");
    let tag = prefix + ":"@ + local;
    let p = prefix.len() as int;
    if j < p {
        assert(tag[j] == (prefix + local)[j]);
    } else if j > p {
        assert(tag[j] == (prefix + local)[j - 1]);
    }
}

proof fn lemma_whole_name(tag: Seq<char>, prefix: Seq<char>, local: Seq<char>)
    requires
        tag == prefix + ":"@ + local,
        plain_name(prefix + local),
    ensures
        name_len(tag) == tag.len(),
{
    assert forall|j: int| 0 <= j < tag.len() implies !is_space(#[trigger] tag[j]) && tag[j] != '/' by {
        lemma_tag_char(prefix, local, j);
    }
    lemma_name_runs(tag);
}

proof fn lemma_name_runs(tag: Seq<char>)
    requires
        forall|j: int| 0 <= j < tag.len() ==> !is_space(#[trigger] tag[j]) && tag[j] != '/',
    ensures
        name_len(tag) == tag.len(),
    decreases tag.len(),
{
    if tag.len() > 0 {
        let rest = tag.drop_first();
        assert forall|j: int| 0 <= j < rest.len() implies !is_space(#[trigger] rest[j]) && rest[j]
            != '/' by {
            assert(rest[j] == tag[j + 1]);
        }
        lemma_name_runs(rest);
    }
}

} // verus!
