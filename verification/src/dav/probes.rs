//! The names of Apple's metadata files, which the bridge answers for itself,
//! and the rules of the store that keeps them.
//!
//! A listing never shows one of these names, and none of them ever reaches
//! the other device.

use crate::text::{
    begins_with, chars_of, ends_with, find_char, finishes_with, first_index, last_index,
    rfind_char, same_text, starts_with, text_of,
};
use vstd::prelude::*;
use vstd::slice::slice_subrange;
use vstd::string::StrSliceExecFns;

verus! {

/// The largest sidecar body the store accepts: sixty-four kibibytes.
pub const MAX_SIDECAR_LEN: usize = 65_536;

/// How many sidecar files one device's store may hold at once. Overwriting a
/// stored name is always allowed.
pub const MAX_SIDECARS: usize = 4_096;

/// Why the store refused a sidecar.
#[derive(Debug, Clone, Copy, PartialEq, Eq, Structural)]
pub enum SidecarWriteError {
    /// The body was over [`MAX_SIDECAR_LEN`].
    TooLarge,
    /// The store already holds [`MAX_SIDECARS`] files, and this is not one of
    /// them.
    Full,
    /// The write itself failed: an unsafe path, or a real I/O error.
    Io,
}

/// The names of Apple's metadata files.
pub open spec fn probe_name(name: Seq<char>) -> bool {
    ||| begins_with(name, "._"@)
    ||| begins_with(name, ".ql_"@)
    ||| name == ".DS_Store"@
    ||| name == ".hidden"@
    ||| name == ".Spotlight-V100"@
    ||| name == ".metadata_never_index"@
    ||| name == ".Trashes"@
    ||| name == ".fseventsd"@
    ||| name == ".TemporaryItems"@
}

/// Whether `name`, a path's last segment, is one of Apple's metadata files.
pub fn is_probe_name(name: &str) -> (probe: bool)
    ensures
        probe == probe_name(name@),
{
    let chars = chars_of(name);
    starts_with(chars.as_slice(), "._") || starts_with(chars.as_slice(), ".ql_") || same_text(
        name,
        ".DS_Store",
    ) || same_text(name, ".hidden") || same_text(name, ".Spotlight-V100") || same_text(
        name,
        ".metadata_never_index",
    ) || same_text(name, ".Trashes") || same_text(name, ".fseventsd") || same_text(
        name,
        ".TemporaryItems",
    )
}

/// The last segment of a path: what follows its last slash, or all of it.
pub open spec fn segment_of(path: Seq<char>) -> Seq<char> {
    path.skip(last_index(path, '/') + 1)
}

/// What stands before the last slash of a path; nothing where there is none.
pub open spec fn parent_of_path(path: Seq<char>) -> Seq<char> {
    if last_index(path, '/') < 0 {
        Seq::empty()
    } else {
        path.take(last_index(path, '/'))
    }
}

/// The last segment of a decoded path. Empty for the root.
pub fn last_segment(path: &str) -> (segment: &str)
    ensures
        segment@ == segment_of(path@),
{
    let chars = chars_of(path);
    let len: usize = chars.len();
    let from: usize = match rfind_char(chars.as_slice(), '/') {
        Some(i) => i + 1,
        None => 0,
    };
    assert(path@.subrange(from as int, path@.len() as int) =~= segment_of(path@));
    path.substring_char(from, len)
}

/// The folder a path lies in. Empty for a path with no slash.
pub fn parent_of(path: &str) -> (parent: &str)
    ensures
        parent@ == parent_of_path(path@),
{
    let chars = chars_of(path);
    let to: usize = match rfind_char(chars.as_slice(), '/') {
        Some(i) => i,
        None => 0,
    };
    assert(path@.subrange(0, to as int) =~= parent_of_path(path@));
    path.substring_char(0, to)
}

/// A name that a landing in progress has, and nothing else may have.
pub open spec fn partial_name(name: Seq<char>) -> bool {
    finishes_with(name, ".ferry-part"@)
}

/// Whether `name`, a path's last segment, marks a file that is still landing.
pub fn is_partial_name(name: &str) -> (partial: bool)
    ensures
        partial == partial_name(name@),
{
    let chars = chars_of(name);
    ends_with(chars.as_slice(), ".ferry-part")
}

/// What stands between the slashes of `path`, empty parts kept.
pub open spec fn parts_of(path: Seq<char>) -> Seq<Seq<char>>
    decreases path.len(),
{
    let i = first_index(path, '/');
    if 0 <= i < path.len() {
        seq![path.take(i)] + parts_of(path.skip(i + 1))
    } else {
        seq![path]
    }
}

/// A part of a path that names nothing below the folder it stands in.
pub open spec fn unsafe_part(part: Seq<char>) -> bool {
    part.len() == 0 || part == "."@ || part == ".."@
}

/// A path that stays inside the store: not empty, no NUL, and no part that is
/// empty, `.` or `..`.
pub open spec fn store_path_ok(path: Seq<char>) -> bool {
    &&& path.len() > 0
    &&& !path.contains('\0')
    &&& forall|i: int| 0 <= i < parts_of(path).len() ==> !unsafe_part(#[trigger] parts_of(path)[i])
}

/// Whether `path` may be kept in the store.
pub fn is_store_path(path: &str) -> (ok: bool)
    ensures
        ok == store_path_ok(path@),
{
    let all = chars_of(path);
    let chars = all.as_slice();
    if chars.len() == 0 || find_char(chars, '\0').is_some() {
        return false;
    }
    let mut start: usize = 0;
    let ghost mut done: Seq<Seq<char>> = Seq::empty();
    assert(path@.skip(0) =~= path@);
    assert(done + parts_of(path@.skip(0)) =~= parts_of(path@));
    loop
        invariant
            chars@ == path@,
            path@.len() > 0,
            !path@.contains('\0'),
            start <= chars@.len(),
            done + parts_of(path@.skip(start as int)) == parts_of(path@),
            forall|i: int| 0 <= i < done.len() ==> !unsafe_part(#[trigger] done[i]),
        decreases chars@.len() - start,
    {
        let rest = slice_subrange(chars, start, chars.len());
        assert(rest@ =~= path@.skip(start as int));
        let found = find_char(rest, '/');
        let at: usize = match found {
            Some(i) => i,
            None => rest.len(),
        };
        let head = slice_subrange(rest, 0, at);
        assert(head@ =~= rest@.take(at as int));
        let part = text_of(head);
        let ghost tail = if found is Some {
            parts_of(path@.skip(start + at + 1))
        } else {
            Seq::empty()
        };
        proof {
            if found is Some {
                assert(rest@.skip(at + 1) =~= path@.skip(start + at + 1));
            } else {
                assert(rest@.take(at as int) =~= rest@);
            }
            assert(parts_of(rest@) =~= seq![head@] + tail);
            assert(parts_of(path@)[done.len() as int] == head@);
        }
        if head.len() == 0 || same_text(part.as_str(), ".") || same_text(part.as_str(), "..") {
            assert(unsafe_part(parts_of(path@)[done.len() as int]));
            return false;
        }
        proof {
            let before = done;
            done = done.push(head@);
            assert(done + tail =~= before + (seq![head@] + tail));
        }
        if found.is_none() {
            assert(done =~= parts_of(path@));
            return true;
        }
        start = start + at + 1;
    }
}

/// What the store answers a write with, before it touches a file: `len` is
/// the length of the body, `stored` says whether the path is stored already,
/// and `count` how many files the store holds.
pub fn check_sidecar_write(path: &str, len: usize, stored: bool, count: usize) -> (checked: Result<
    (),
    SidecarWriteError,
>)
    ensures
        checked == (if len > MAX_SIDECAR_LEN {
            Err::<(), _>(SidecarWriteError::TooLarge)
        } else if !store_path_ok(path@) {
            Err(SidecarWriteError::Io)
        } else if !stored && count >= MAX_SIDECARS {
            Err(SidecarWriteError::Full)
        } else {
            Ok(())
        }),
{
    if len > MAX_SIDECAR_LEN {
        return Err(SidecarWriteError::TooLarge);
    }
    if !is_store_path(path) {
        return Err(SidecarWriteError::Io);
    }
    if !stored && count >= MAX_SIDECARS {
        return Err(SidecarWriteError::Full);
    }
    Ok(())
}

/// A path is its folder and its last name: put together with a slash they are
/// the path again, and the name holds no slash.
pub proof fn lemma_folder_and_name(path: Seq<char>)
    ensures
        !segment_of(path).contains('/'),
        path.contains('/') ==> parent_of_path(path) + "/"@ + segment_of(path) == path,
        !path.contains('/') ==> segment_of(path) == path && parent_of_path(path).len() == 0,
{
    reveal_strlit("/");
    crate::text::lemma_last_index_meaning(path, '/');
    let at = last_index(path, '/');
    let name = segment_of(path);
    assert forall|i: int| 0 <= i < name.len() implies #[trigger] name[i] != '/' by {
        assert(name[i] == path[at + 1 + i]);
    }
    if path.contains('/') {
        assert(parent_of_path(path) + "/"@ + name =~= path);
    } else {
        assert(name =~= path);
    }
}

/// A name in a folder is the last name of its path, and the folder is what it
/// lies in.
pub proof fn lemma_name_in_folder(folder: Seq<char>, name: Seq<char>)
    requires
        !name.contains('/'),
    ensures
        segment_of(folder + "/"@ + name) == name,
        parent_of_path(folder + "/"@ + name) == folder,
        segment_of(name) == name,
{
    reveal_strlit("/");
    let path = folder + "/"@ + name;
    let at = folder.len() as int;
    assert(path[at] == '/');
    assert forall|j: int| at < j < path.len() implies path[j] != '/' by {
        assert(path[j] == name[j - at - 1]);
        assert(name.contains(name[j - at - 1]));
    }
    crate::text::lemma_last_index(path, '/', at);
    assert(path.skip(at + 1) =~= name);
    assert(path.take(at) =~= folder);
    lemma_folder_and_name(name);
}

proof fn lemma_parts_of_both(a: Seq<char>, b: Seq<char>)
    ensures
        parts_of(a + "/"@ + b) == parts_of(a) + parts_of(b),
    decreases a.len(),
{
    reveal_strlit("/");
    let all = a + "/"@ + b;
    let i = first_index(a, '/');
    crate::text::lemma_first_index_meaning(a, '/');
    if 0 <= i < a.len() {
        assert forall|j: int| 0 <= j < i implies all[j] != '/' by {
            assert(all[j] == a[j]);
        }
        assert(all[i] == '/');
        crate::text::lemma_first_index(all, '/', i);
        assert(all.take(i) =~= a.take(i));
        assert(all.skip(i + 1) =~= a.skip(i + 1) + "/"@ + b);
        lemma_parts_of_both(a.skip(i + 1), b);
        assert(seq![a.take(i)] + (parts_of(a.skip(i + 1)) + parts_of(b)) =~= (seq![a.take(i)]
            + parts_of(a.skip(i + 1))) + parts_of(b));
    } else {
        let n = a.len() as int;
        assert forall|j: int| 0 <= j < n implies all[j] != '/' by {
            assert(all[j] == a[j]);
        }
        assert(all[n] == '/');
        crate::text::lemma_first_index(all, '/', n);
        assert(all.take(n) =~= a);
        assert(all.skip(n + 1) =~= b);
    }
}

/// A path of the store is one whose every name could stand in it alone, and a
/// name could unless it is empty, one of the two names that lead elsewhere, or
/// holds a zero.
pub proof fn lemma_store_path_by_its_names(a: Seq<char>, b: Seq<char>, name: Seq<char>)
    requires
        !name.contains('/'),
    ensures
        store_path_ok(a + "/"@ + b) <==> store_path_ok(a) && store_path_ok(b),
        store_path_ok(name) <==> name.len() > 0 && !name.contains('\0') && name != "."@ && name
            != ".."@,
{
    reveal_strlit("/");
    let all = a + "/"@ + b;
    lemma_parts_of_both(a, b);
    let x = parts_of(a);
    let y = parts_of(b);
    let both = parts_of(all);
    assert(all.contains('\0') <==> a.contains('\0') || b.contains('\0')) by {
        if a.contains('\0') {
            let i = choose|i: int| 0 <= i < a.len() && a[i] == '\0';
            assert(all[i] == '\0');
        }
        if b.contains('\0') {
            let i = choose|i: int| 0 <= i < b.len() && b[i] == '\0';
            assert(all[a.len() + 1 + i] == '\0');
        }
        if all.contains('\0') {
            let i = choose|i: int| 0 <= i < all.len() && all[i] == '\0';
            if i < a.len() {
                assert(a[i] == '\0');
            } else {
                assert(i != a.len());
                assert(b[i - a.len() - 1] == '\0');
            }
        }
    }
    lemma_empty_part(a);
    lemma_empty_part(b);
    if store_path_ok(all) {
        assert forall|i: int| 0 <= i < x.len() implies !unsafe_part(#[trigger] x[i]) by {
            assert(both[i] == x[i]);
        }
        assert forall|i: int| 0 <= i < y.len() implies !unsafe_part(#[trigger] y[i]) by {
            assert(both[x.len() + i] == y[i]);
        }
    }
    if store_path_ok(a) && store_path_ok(b) {
        assert forall|i: int| 0 <= i < both.len() implies !unsafe_part(#[trigger] both[i]) by {
            if i < x.len() {
                assert(both[i] == x[i]);
            } else {
                assert(both[i] == y[i - x.len()]);
            }
        }
    }
    crate::text::lemma_first_index_meaning(name, '/');
    let i = first_index(name, '/');
    if 0 <= i < name.len() {
        assert(name.contains(name[i]));
    }
    assert(parts_of(name) =~= seq![name]);
    assert(parts_of(name)[0] == name);
}

proof fn lemma_empty_part(a: Seq<char>)
    ensures
        a.len() == 0 ==> parts_of(a).len() == 1 && unsafe_part(parts_of(a)[0]),
{
    crate::text::lemma_first_index_meaning(a, '/');
}

/// Only names that begin with a dot are kept aside, and each name that begins
/// with a dot and an underscore is.
pub proof fn lemma_names_kept_aside(name: &str, probe: bool, rest: Seq<char>)
    requires
        call_ensures(is_probe_name, (name,), probe),
    ensures
        probe ==> name@.len() > 0 && name@[0] == '.',
        name@ == "._"@ + rest ==> probe,
{
    reveal_strlit("._");
    reveal_strlit(".ql_");
    reveal_strlit(".DS_Store");
    reveal_strlit(".hidden");
    reveal_strlit(".Spotlight-V100");
    reveal_strlit(".metadata_never_index");
    reveal_strlit(".Trashes");
    reveal_strlit(".fseventsd");
    reveal_strlit(".TemporaryItems");
    if begins_with(name@, "._"@) {
        assert(name@.take(2)[0] == name@[0]);
        assert("._"@[0] == '.');
    }
    if begins_with(name@, ".ql_"@) {
        assert(name@.take(4)[0] == name@[0]);
        assert(".ql_"@[0] == '.');
    }
    if name@ == "._"@ + rest {
        assert(name@.take(2) =~= "._"@);
    }
}

/// What is kept aside already may be written again, however full the store is;
/// what is too long is never taken, and neither is a path of no store.
pub proof fn lemma_kept_aside_may_be_written_again(
    path: &str,
    len: usize,
    stored: bool,
    count: usize,
    checked: Result<(), SidecarWriteError>,
)
    requires
        call_ensures(check_sidecar_write, (path, len, stored, count), checked),
    ensures
        checked == Err::<(), SidecarWriteError>(SidecarWriteError::TooLarge) <==> len
            > MAX_SIDECAR_LEN,
        checked is Ok ==> len <= MAX_SIDECAR_LEN && store_path_ok(path@) && (stored || count
            < MAX_SIDECARS),
        stored && len <= MAX_SIDECAR_LEN && store_path_ok(path@) ==> checked is Ok,
        count < MAX_SIDECARS && len <= MAX_SIDECAR_LEN && store_path_ok(path@) ==> checked is Ok,
{
}

} // verus!
