//! The trusted Wi-Fi networks, and the two rules that decide what this device
//! does over Wi-Fi.
//!
//! A device that paired at home stays silent in a café. The app reads the
//! name of the network, because only the app can; what follows from it is
//! decided here. The list is stored one name per line. An empty list trusts
//! every network.

use crate::text::optional;
use crate::errors::{failed, is_failed};
use crate::text::{chars_of, copy_of, find_char, first_index, lemma_first_index, same_text, text_of};
use crate::types::FerryError;
use vstd::prelude::*;
use vstd::slice::slice_subrange;
use vstd::string::StringSliceAdditionalSpecFns;
use vstd::utf8::encode_utf8;

verus! {

/// The list holds at most this many names, and each name at most this many
/// bytes.
pub const NETWORK_LIMIT: usize = 32;

/// What some names say.
pub open spec fn name_views(names: Seq<String>) -> Seq<Seq<char>> {
    names.map_values(|n: String| n@)
}

/// The place of `name` among `names`.
fn position(names: &[String], name: &str) -> (at: Option<usize>)
    ensures
        match at {
            Some(i) => i < names@.len() && names@[i as int]@ == name@ && name_views(
                names@,
            ).contains(name@) && forall|j: int| 0 <= j < i ==> names@[j]@ != name@,
            None => !name_views(names@).contains(name@),
        },
{
    let mut i: usize = 0;
    while i < names.len()
        invariant
            i <= names.len(),
            forall|j: int| 0 <= j < i ==> (#[trigger] names@[j])@ != name@,
        decreases names.len() - i,
    {
        if same_text(names[i].as_str(), name) {
            assert(name_views(names@)[i as int] == name@);
            return Some(i);
        }
        i += 1;
    }
    assert(!name_views(names@).contains(name@)) by {
        if name_views(names@).contains(name@) {
            let k = choose|k: int| 0 <= k < name_views(names@).len() && name_views(names@)[k] == name@;
            assert(names@[k]@ == name@);
        }
    }
    None
}

/// This device browses for others over Wi-Fi: the list is empty, the current
/// network is in it, or pairing is in progress.
pub open spec fn may_browse(trusted: Seq<Seq<char>>, network: Option<Seq<char>>, pairing: bool) -> bool {
    ||| trusted.len() == 0
    ||| (network matches Some(name) && trusted.contains(name))
    ||| pairing
}

/// Whether this device browses for other devices over Wi-Fi. The switch that
/// makes it reachable plays no part: a Mac with that switch off still finds a
/// phone.
pub fn browse_allowed_rule(
    trusted: &[String],
    network: Option<&str>,
    pairing_in_progress: bool,
) -> (allowed: bool)
    ensures
        allowed == may_browse(name_views(trusted@), optional(network), pairing_in_progress),
{
    if trusted.len() == 0 || pairing_in_progress {
        return true;
    }
    match network {
        Some(name) => position(trusted, name).is_some(),
        None => false,
    }
}

/// Whether this device advertises and accepts over Wi-Fi: it is reachable,
/// and may browse.
pub fn wifi_presence_rule(
    reachable: bool,
    trusted: &[String],
    network: Option<&str>,
    pairing_in_progress: bool,
) -> (present: bool)
    ensures
        present == (reachable && may_browse(
            name_views(trusted@),
            optional(network),
            pairing_in_progress,
        )),
{
    reachable && browse_allowed_rule(trusted, network, pairing_in_progress)
}

// ---------------------------------------------------------------------------
// The list.
// ---------------------------------------------------------------------------

/// A control character.
pub open spec fn is_control(c: char) -> bool {
    c <= '\u{1f}' || '\u{7f}' <= c <= '\u{9f}'
}

/// A name the list may hold: not empty, within the limit, and without
/// control characters.
pub open spec fn good_name(name: Seq<char>) -> bool {
    &&& name.len() > 0
    &&& encode_utf8(name).len() <= NETWORK_LIMIT
    &&& forall|i: int| 0 <= i < name.len() ==> !is_control(#[trigger] name[i])
}

/// No name twice, no more names than the limit, and every name good.
pub open spec fn good_list(names: Seq<Seq<char>>) -> bool {
    &&& names.len() <= NETWORK_LIMIT
    &&& names.no_duplicates()
    &&& forall|i: int| 0 <= i < names.len() ==> good_name(#[trigger] names[i])
}

fn is_good_name(name: &str) -> (good: bool)
    ensures
        good == good_name(name@),
{
    if name.is_empty() || name.as_bytes().len() > NETWORK_LIMIT {
        return false;
    }
    let chars = chars_of(name);
    let mut i: usize = 0;
    while i < chars.len()
        invariant
            i <= chars.len(),
            chars@ == name@,
            forall|j: int| 0 <= j < i ==> !is_control(#[trigger] name@[j]),
        decreases chars.len() - i,
    {
        let c = chars[i];
        if c <= '\u{1f}' || ('\u{7f}' <= c && c <= '\u{9f}') {
            assert(is_control(name@[i as int]));
            return false;
        }
        i += 1;
    }
    true
}

/// How the list is stored: one name per line.
pub open spec fn list_text(names: Seq<Seq<char>>) -> Seq<char>
    decreases names.len(),
{
    if names.len() == 0 {
        Seq::empty()
    } else {
        list_text(names.drop_last()) + names.last().push('\n')
    }
}

/// A line without the carriage return that ends it.
pub open spec fn without_cr(line: Seq<char>) -> Seq<char> {
    if line.len() > 0 && line.last() == '\r' {
        line.drop_last()
    } else {
        line
    }
}

/// The lines of a text.
pub open spec fn lines_of(text: Seq<char>) -> Seq<Seq<char>>
    decreases text.len(),
{
    if text.len() == 0 {
        Seq::empty()
    } else {
        let i = first_index(text, '\n');
        if 0 <= i < text.len() {
            seq![without_cr(text.take(i))] + lines_of(text.skip(i + 1))
        } else {
            seq![text]
        }
    }
}

/// The names that lines give: each that could have been added, in order.
pub open spec fn names_of_lines(lines: Seq<Seq<char>>) -> Seq<Seq<char>>
    decreases lines.len(),
{
    if lines.len() == 0 {
        Seq::empty()
    } else {
        let before = names_of_lines(lines.drop_last());
        let line = lines.last();
        if good_name(line) && before.len() < NETWORK_LIMIT && !before.contains(line) {
            before.push(line)
        } else {
            before
        }
    }
}

/// The trusted names. Its view is the names, oldest first.
#[derive(Debug)]
pub struct TrustedNetworks {
    names: Vec<String>,
}

impl View for TrustedNetworks {
    type V = Seq<Seq<char>>;

    closed spec fn view(&self) -> Seq<Seq<char>> {
        name_views(self.names@)
    }
}

proof fn lemma_push_good(names: Seq<Seq<char>>, name: Seq<char>)
    requires
        good_list(names),
        names.len() < NETWORK_LIMIT,
        good_name(name),
        !names.contains(name),
    ensures
        good_list(names.push(name)),
{
    let grown = names.push(name);
    assert forall|i: int, j: int|
        0 <= i < grown.len() && 0 <= j < grown.len() && i != j implies grown[i] != grown[j] by {
        if i == names.len() {
            assert(names.contains(names[j]));
        } else if j == names.len() {
            assert(names.contains(names[i]));
        }
    }
}

impl TrustedNetworks {
    /// The list holds what it may hold.
    pub open spec fn wf(self) -> bool {
        good_list(self@)
    }

    /// No network is listed, so every one is trusted.
    pub fn empty() -> (list: TrustedNetworks)
        ensures
            list.wf(),
            list@.len() == 0,
    {
        TrustedNetworks { names: Vec::new() }
    }

    /// Reads the stored list. A line that could not have been added is passed
    /// over.
    pub fn load(text: &str) -> (list: TrustedNetworks)
        ensures
            list.wf(),
            list@ == names_of_lines(lines_of(text@)),
    {
        let all = chars_of(text);
        let chars = all.as_slice();
        let len: usize = chars.len();
        let mut names: Vec<String> = Vec::new();
        let mut start: usize = 0;
        let ghost mut done: Seq<Seq<char>> = Seq::empty();
        let ghost lines = lines_of(text@);
        assert(chars@.skip(0) =~= chars@);
        assert(done + lines_of(chars@.skip(0)) =~= lines);
        assert(name_views(names@) =~= names_of_lines(done));
        while start < len
            invariant
                len == chars@.len(),
                chars@ == text@,
                start <= len,
                lines == lines_of(text@),
                done + lines_of(chars@.skip(start as int)) == lines,
                name_views(names@) == names_of_lines(done),
                good_list(name_views(names@)),
            decreases len - start,
        {
            let rest = slice_subrange(chars, start, len);
            assert(rest@ =~= chars@.skip(start as int));
            let found = find_char(rest, '\n');
            let (line_chars, next) = match found {
                Some(i) => {
                    let end: usize = if i > 0 && rest[i - 1] == '\r' {
                        i - 1
                    } else {
                        i
                    };
                    let line = slice_subrange(rest, 0, end);
                    assert(line@ =~= without_cr(rest@.take(i as int)));
                    assert(rest@.skip(i + 1) =~= chars@.skip(start + i + 1));
                    (line, start + i + 1)
                },
                None => {
                    assert(chars@.skip(len as int) =~= Seq::<char>::empty());
                    (rest, len)
                },
            };
            let ghost l = line_chars@;
            proof {
                let tail = lines_of(chars@.skip(next as int));
                assert(lines_of(rest@) =~= seq![l] + tail);
                assert(done + (seq![l] + tail) =~= done.push(l) + tail);
                let before = done;
                done = done.push(l);
                assert(done.drop_last() =~= before);
            }
            let line = text_of(line_chars);
            let ghost names_before = name_views(names@);
            if is_good_name(line.as_str()) && names.len() < NETWORK_LIMIT && position(
                names.as_slice(),
                line.as_str(),
            ).is_none() {
                proof {
                    lemma_push_good(names_before, l);
                }
                names.push(line);
                assert(name_views(names@) =~= names_before.push(l));
            }
            start = next;
        }
        assert(chars@.skip(len as int) =~= Seq::<char>::empty());
        assert(done =~= lines);
        TrustedNetworks { names }
    }

    /// The names, oldest first.
    pub fn names(&self) -> (names: &[String])
        ensures
            name_views(names@) == self@,
    {
        self.names.as_slice()
    }

    /// Adds `name`. Says whether the list changed: a name already in it
    /// changes nothing.
    pub fn add(&mut self, name: &str) -> (changed: Result<bool, FerryError>)
        requires
            old(self).wf(),
        ensures
            final(self).wf(),
            match changed {
                Ok(true) => good_name(name@) && !old(self)@.contains(name@) && old(self)@.len()
                    < NETWORK_LIMIT && final(self)@ == old(self)@.push(name@),
                Ok(false) => good_name(name@) && old(self)@.contains(name@) && final(self)@
                    == old(self)@,
                Err(e) => is_failed(e, "Runtime::NetworkName"@) && final(self)@ == old(self)@ && (
                !good_name(name@) || (!old(self)@.contains(name@) && old(self)@.len()
                    >= NETWORK_LIMIT)),
            },
    {
        if !is_good_name(name) {
            return Err(failed("Runtime::NetworkName"));
        }
        if position(self.names.as_slice(), name).is_some() {
            return Ok(false);
        }
        if self.names.len() >= NETWORK_LIMIT {
            return Err(failed("Runtime::NetworkName"));
        }
        proof {
            lemma_push_good(self@, name@);
        }
        self.names.push(copy_of(name));
        assert(self@ =~= old(self)@.push(name@));
        Ok(true)
    }

    /// Removes `name`. Says whether the list changed.
    pub fn remove(&mut self, name: &str) -> (changed: bool)
        requires
            old(self).wf(),
        ensures
            final(self).wf(),
            changed == old(self)@.contains(name@),
            changed ==> exists|at: int|
                0 <= at < old(self)@.len() && old(self)@[at] == name@ && final(self)@ == #[trigger] old(
                    self)@.remove(at),
            !changed ==> final(self)@ == old(self)@,
            !final(self)@.contains(name@),
    {
        match position(self.names.as_slice(), name) {
            None => false,
            Some(at) => {
                let gone = self.names.remove(at);
                proof {
                    let before = old(self)@;
                    let after = self@;
                    assert(before[at as int] == name@);
                    assert(after =~= before.remove(at as int));
                    assert forall|i: int, j: int|
                        0 <= i < after.len() && 0 <= j < after.len() && i != j implies after[i]
                        != after[j] by {
                        assert(after[i] == before[if i < at { i } else { i + 1 }]);
                        assert(after[j] == before[if j < at { j } else { j + 1 }]);
                    }
                    assert forall|i: int| 0 <= i < after.len() implies good_name(
                        #[trigger] after[i],
                    ) && after[i] != name@ by {
                        assert(after[i] == before[if i < at { i } else { i + 1 }]);
                    }
                }
                true
            },
        }
    }

    /// How the list is stored.
    pub fn text(&self) -> (text: String)
        ensures
            text@ == list_text(self@),
    {
        let mut text = String::new();
        let mut i: usize = 0;
        assert(self@.take(0) =~= Seq::<Seq<char>>::empty());
        while i < self.names.len()
            invariant
                i <= self.names.len(),
                text@ == list_text(self@.take(i as int)),
            decreases self.names.len() - i,
        {
            text.push_str(self.names[i].as_str());
            text.push('\n');
            i += 1;
            assert(self@.take(i as int).drop_last() =~= self@.take(i - 1));
            assert(self@.take(i as int).last() == self.names@[i - 1]@);
            assert(text@ =~= list_text(self@.take(i as int)));
        }
        assert(self@.take(self@.len() as int) =~= self@);
        text
    }

    /// Another copy of the list.
    pub fn copy(&self) -> (list: TrustedNetworks)
        ensures
            list@ == self@,
    {
        let mut names: Vec<String> = Vec::new();
        let mut i: usize = 0;
        while i < self.names.len()
            invariant
                i <= self.names.len(),
                name_views(names@) == self@.take(i as int),
            decreases self.names.len() - i,
        {
            let ghost before = name_views(names@);
            names.push(copy_of(self.names[i].as_str()));
            i += 1;
            assert(name_views(names@) =~= before.push(self@[i - 1]));
            assert(self@.take(i as int) =~= self@.take(i - 1).push(self@[i - 1]));
        }
        assert(self@.take(self@.len() as int) =~= self@);
        TrustedNetworks { names }
    }
}

// ---------------------------------------------------------------------------
// What was stored is read back.
// ---------------------------------------------------------------------------

/// Stored lines are read as the names they hold, with more after them.
proof fn lemma_lines_of_list(names: Seq<Seq<char>>, more: Seq<char>)
    requires
        forall|i: int| 0 <= i < names.len() ==> good_name(#[trigger] names[i]),
    ensures
        lines_of(list_text(names) + more) == names + lines_of(more),
    decreases names.len(),
{
    if names.len() == 0 {
        assert(list_text(names) + more =~= more);
        assert(names + lines_of(more) =~= lines_of(more));
    } else {
        let last = names.last();
        let rest = names.drop_last();
        let tail = last.push('\n') + more;
        assert(list_text(names) + more =~= list_text(rest) + tail);
        lemma_lines_of_list(rest, tail);
        assert(good_name(last));
        assert forall|j: int| 0 <= j < last.len() implies tail[j] != '\n' by {
            assert(!is_control(last[j]));
        }
        lemma_first_index(tail, '\n', last.len() as int);
        assert(tail.take(last.len() as int) =~= last);
        assert(tail.skip(last.len() as int + 1) =~= more);
        assert(without_cr(last) == last) by {
            assert(!is_control(last[last.len() - 1]));
        }
        assert(lines_of(tail) =~= seq![last] + lines_of(more));
        assert(rest + (seq![last] + lines_of(more)) =~= names + lines_of(more));
    }
}

/// A good list is what its own names give.
proof fn lemma_names_of_good(names: Seq<Seq<char>>)
    requires
        good_list(names),
    ensures
        names_of_lines(names) == names,
    decreases names.len(),
{
    if names.len() > 0 {
        let rest = names.drop_last();
        assert(good_list(rest));
        lemma_names_of_good(rest);
        assert(!rest.contains(names.last())) by {
            if rest.contains(names.last()) {
                let k = choose|k: int| 0 <= k < rest.len() && rest[k] == names.last();
                assert(names[k] == names[names.len() - 1]);
            }
        }
        assert(rest.push(names.last()) =~= names);
    } else {
        assert(names_of_lines(names) =~= names);
    }
}

/// A list that was stored is read back as it was.
pub proof fn lemma_stored_list_reads_back(names: Seq<Seq<char>>)
    requires
        good_list(names),
    ensures
        names_of_lines(lines_of(list_text(names))) == names,
{
    lemma_lines_of_list(names, Seq::empty());
    assert(list_text(names) + Seq::<char>::empty() =~= list_text(names));
    assert(names + lines_of(Seq::<char>::empty()) =~= names);
    lemma_names_of_good(names);
}

/// Whatever the network, a device that is present may also browse.
pub proof fn lemma_presence_implies_browsing(
    reachable: bool,
    trusted: Seq<Seq<char>>,
    network: Option<Seq<char>>,
    pairing: bool,
)
    ensures
        (reachable && may_browse(trusted, network, pairing)) ==> may_browse(
            trusted,
            network,
            pairing,
        ),
        trusted.len() == 0 ==> may_browse(trusted, network, pairing),
        trusted.len() > 0 && !pairing && network is None ==> !may_browse(trusted, network, pairing),
{
}

/// With networks that are trusted, this device is silent on every other; with
/// none it speaks everywhere. Someone who pairs is heard anywhere.
pub proof fn lemma_where_this_device_speaks(
    reachable: bool,
    trusted: &[String],
    network: Option<&str>,
    pairing: bool,
    present: bool,
    browses: bool,
)
    requires
        call_ensures(wifi_presence_rule, (reachable, trusted, network, pairing), present),
        call_ensures(browse_allowed_rule, (trusted, network, pairing), browses),
    ensures
        present ==> reachable && browses,
        reachable && browses ==> present,
        trusted@.len() == 0 || pairing ==> browses,
        trusted@.len() > 0 && !pairing ==> (browses <==> network is Some && exists|i: int|
            0 <= i < trusted@.len() && (#[trigger] trusted@[i])@ == network->0@),
{
    let names = name_views(trusted@);
    if trusted@.len() > 0 && !pairing && network is Some {
        let name = network->0@;
        if names.contains(name) {
            let i = choose|i: int| 0 <= i < names.len() && names[i] == name;
            assert(trusted@[i]@ == name);
        }
        if exists|i: int| 0 <= i < trusted@.len() && (#[trigger] trusted@[i])@ == name {
            let i = choose|i: int| 0 <= i < trusted@.len() && (#[trigger] trusted@[i])@ == name;
            assert(names[i] == name);
        }
    }
}

} // verus!
