//! Paths on the other device: relative to its shared root, with a slash
//! between components.

use crate::core_errors::PathError;
use crate::limits::MAX_PATH_LEN;
use crate::text::{
    chars_of, copy_of, find_char, first_index, lemma_first_index, lemma_first_index_meaning,
    same_chars, same_text, text_of,
};
use vstd::prelude::*;
use vstd::slice::slice_subrange;
use vstd::string::StringSliceAdditionalSpecFns;
use vstd::utf8::encode_utf8;

verus! {

/// The components of a path: what stands between its slashes, without the
/// empty ones.
pub open spec fn components(text: Seq<char>) -> Seq<Seq<char>>
    decreases text.len(),
{
    if text.len() == 0 {
        Seq::empty()
    } else {
        let i = first_index(text, '/');
        let head = text.take(i);
        let rest = if 0 <= i < text.len() {
            components(text.skip(i + 1))
        } else {
            Seq::empty()
        };
        if head.len() == 0 {
            rest
        } else {
            seq![head] + rest
        }
    }
}

/// Components with one slash between each two.
pub open spec fn joined(parts: Seq<Seq<char>>) -> Seq<char>
    decreases parts.len(),
{
    if parts.len() == 0 {
        Seq::empty()
    } else if parts.len() == 1 {
        parts[0]
    } else {
        joined(parts.drop_last()) + "/"@ + parts.last()
    }
}

/// What is wrong with one component.
pub open spec fn component_problem(part: Seq<char>) -> Option<PathError> {
    if part == seq!['.', '.'] {
        Some(PathError::ParentComponent)
    } else if part == seq!['.'] {
        Some(PathError::CurrentComponent)
    } else {
        None
    }
}

/// What is wrong with the first component that is not accepted.
pub open spec fn components_problem(parts: Seq<Seq<char>>) -> Option<PathError>
    decreases parts.len(),
{
    if parts.len() == 0 {
        None
    } else if components_problem(parts.drop_last()) is Some {
        components_problem(parts.drop_last())
    } else {
        component_problem(parts.last())
    }
}

/// Why `text` is not a path, or `None` where it is one.
pub open spec fn path_problem(text: Seq<char>) -> Option<PathError> {
    if encode_utf8(text).len() > MAX_PATH_LEN {
        Some(PathError::TooLong)
    } else if text.len() > 0 && text[0] == '/' {
        Some(PathError::Absolute)
    } else if text.contains('\0') {
        Some(PathError::NulByte)
    } else if text.contains('\\') {
        Some(PathError::Backslash)
    } else {
        components_problem(components(text))
    }
}

/// A path on the other device, in its one canonical spelling. Its view is
/// that spelling; the empty one is the shared root.
#[derive(Debug)]
pub struct RemotePath {
    text: String,
}

impl View for RemotePath {
    type V = Seq<char>;

    closed spec fn view(&self) -> Seq<char> {
        self.text@
    }
}

/// The components of a text, cut at its first slash.
proof fn lemma_components_step(text: Seq<char>, parts: Seq<Seq<char>>, start: int, at: int)
    requires
        0 <= start <= at <= text.len(),
        first_index(text.skip(start), '/') == at - start,
        components(text) == parts + components(text.skip(start)),
    ensures
        ({
            let head = text.subrange(start, at);
            let grown = if head.len() == 0 {
                parts
            } else {
                parts.push(head)
            };
            if at < text.len() {
                components(text) == grown + components(text.skip(at + 1))
            } else {
                components(text) == grown
            }
        }),
{
    let rest = text.skip(start);
    let head = text.subrange(start, at);
    assert(rest.take(at - start) =~= head);
    if rest.len() > 0 {
        if at < text.len() {
            assert(rest.skip(at - start + 1) =~= text.skip(at + 1));
            let tail = components(text.skip(at + 1));
            if head.len() == 0 {
                assert(components(rest) =~= tail);
            } else {
                assert(components(rest) =~= seq![head] + tail);
                assert(parts + (seq![head] + tail) =~= parts.push(head) + tail);
            }
        } else {
            if head.len() == 0 {
                assert(components(rest) =~= Seq::<Seq<char>>::empty());
                assert(components(text) =~= parts);
            } else {
                assert(components(rest) =~= seq![head]);
                assert(components(text) =~= parts.push(head));
            }
        }
    } else {
        assert(components(text) =~= parts);
    }
}

impl RemotePath {
    /// Reads a path. Empty components fall away; a path with a component
    /// `.` or `..`, with a NUL byte or a backslash, over the bound on its
    /// length, or with a slash at its start is refused.
    pub fn parse(text: &str) -> (path: Result<RemotePath, PathError>)
        ensures
            match path {
                Ok(p) => path_problem(text@) is None && p@ == joined(components(text@)),
                Err(e) => path_problem(text@) == Some(e),
            },
    {
        if text.as_bytes().len() > MAX_PATH_LEN {
            return Err(PathError::TooLong);
        }
        let all = chars_of(text);
        let chars = all.as_slice();
        if chars.len() > 0 && chars[0] == '/' {
            return Err(PathError::Absolute);
        }
        if find_char(chars, '\0').is_some() {
            return Err(PathError::NulByte);
        }
        if find_char(chars, '\\').is_some() {
            return Err(PathError::Backslash);
        }
        let parent: Vec<char> = vec!['.', '.'];
        let current: Vec<char> = vec!['.'];
        assert(parent@ =~= seq!['.', '.']);
        assert(current@ =~= seq!['.']);
        let mut problem: Option<PathError> = None;
        let mut out = String::new();
        let mut first: bool = true;
        let mut start: usize = 0;
        let ghost mut parts: Seq<Seq<char>> = Seq::empty();
        assert(chars@.skip(0) =~= chars@);
        assert(components(chars@) =~= parts + components(chars@.skip(0)));
        loop
            invariant_except_break
                start <= chars@.len(),
                components(chars@) == parts + components(chars@.skip(start as int)),
            invariant
                parent@ == seq!['.', '.'],
                current@ == seq!['.'],
                out@ == joined(parts),
                first == (parts.len() == 0),
                problem == components_problem(parts),
            ensures
                parts == components(chars@),
            decreases chars@.len() - start + 1,
        {
            let rest = slice_subrange(chars, start, chars.len());
            assert(rest@ =~= chars@.skip(start as int));
            let at: usize = match find_char(rest, '/') {
                Some(i) => start + i,
                None => chars.len(),
            };
            proof {
                lemma_first_index_meaning(rest@, '/');
                lemma_components_step(chars@, parts, start as int, at as int);
            }
            let head = slice_subrange(chars, start, at);
            if head.len() > 0 {
                if problem.is_none() {
                    if same_chars(head, parent.as_slice()) {
                        problem = Some(PathError::ParentComponent);
                    } else if same_chars(head, current.as_slice()) {
                        problem = Some(PathError::CurrentComponent);
                    }
                }
                if !first {
                    out.push_str("/");
                }
                first = false;
                let piece = text_of(head);
                out.push_str(piece.as_str());
                proof {
                    let before = parts;
                    parts = parts.push(head@);
                    assert(parts.drop_last() =~= before);
                    assert(out@ =~= joined(parts));
                }
            }
            if at >= chars.len() {
                break;
            }
            start = at + 1;
        }
        match problem {
            Some(e) => Err(e),
            None => Ok(RemotePath { text: out }),
        }
    }

    /// Whether this is the shared root itself.
    pub fn is_root(&self) -> (root: bool)
        ensures
            root == (self@.len() == 0),
    {
        self.text.as_str().is_empty()
    }

    /// The path in its canonical spelling.
    pub fn as_str(&self) -> (text: &str)
        ensures
            text@ == self@,
    {
        self.text.as_str()
    }

    /// Another copy of this path.
    pub fn copy(&self) -> (path: RemotePath)
        ensures
            path@ == self@,
    {
        RemotePath { text: copy_of(self.text.as_str()) }
    }

    /// Whether two paths are the same.
    pub fn same(&self, other: &RemotePath) -> (same: bool)
        ensures
            same == (self@ == other@),
    {
        same_text(self.text.as_str(), other.text.as_str())
    }
}

/// A name that can stand in a path.
pub open spec fn is_name(part: Seq<char>) -> bool {
    part.len() > 0 && !part.contains('/')
}

/// Every part is a name.
pub open spec fn all_names(parts: Seq<Seq<char>>) -> bool {
    forall|i: int| 0 <= i < parts.len() ==> is_name(#[trigger] parts[i])
}

/// A path that begins with a name begins with that component.
proof fn lemma_name_then_rest(name: Seq<char>, rest: Seq<char>)
    requires
        is_name(name),
    ensures
        components(name + "/"@ + rest) == seq![name] + components(rest),
{
    reveal_strlit("/");
    let text = name + "/"@ + rest;
    assert forall|j: int| 0 <= j < name.len() implies text[j] != '/' by {
        assert(text[j] == name[j]);
        assert(name.contains(name[j]));
    }
    assert(text[name.len() as int] == '/');
    lemma_first_index(text, '/', name.len() as int);
    assert(text.take(name.len() as int) =~= name);
    assert(text.skip(name.len() as int + 1) =~= rest);
}

/// A name alone is one component.
proof fn lemma_one_component(name: Seq<char>)
    requires
        is_name(name),
    ensures
        components(name) == seq![name],
{
    assert forall|j: int| 0 <= j < name.len() implies name[j] != '/' by {
        assert(name.contains(name[j]));
    }
    lemma_first_index(name, '/', name.len() as int);
    assert(name.take(name.len() as int) =~= name);
    assert(seq![name] + Seq::<Seq<char>>::empty() =~= seq![name]);
}

/// A path begins with its first part.
proof fn lemma_joined_front(parts: Seq<Seq<char>>)
    requires
        parts.len() > 1,
    ensures
        joined(parts) == parts[0] + "/"@ + joined(parts.skip(1)),
    decreases parts.len(),
{
    let front = parts.drop_last();
    if parts.len() == 2 {
        assert(front.len() == 1 && front[0] == parts[0]);
        assert(parts.skip(1).len() == 1 && parts.skip(1)[0] == parts.last());
        assert(joined(front) == parts[0]);
        assert(joined(parts.skip(1)) == parts.last());
    } else {
        lemma_joined_front(front);
        assert(parts.skip(1).drop_last() =~= front.skip(1));
        assert(joined(parts) =~= parts[0] + "/"@ + joined(parts.skip(1)));
    }
}

/// A path reads back: the parts that were put between slashes are its
/// components, in order.
pub proof fn lemma_parts_read_back(parts: Seq<Seq<char>>)
    requires
        all_names(parts),
    ensures
        components(joined(parts)) == parts,
    decreases parts.len(),
{
    if parts.len() == 0 {
        assert(parts =~= Seq::<Seq<char>>::empty());
    } else if parts.len() == 1 {
        lemma_one_component(parts[0]);
        assert(parts =~= seq![parts[0]]);
    } else {
        let rest = parts.skip(1);
        assert forall|i: int| 0 <= i < rest.len() implies is_name(#[trigger] rest[i]) by {
            assert(rest[i] == parts[i + 1]);
        }
        lemma_parts_read_back(rest);
        lemma_joined_front(parts);
        lemma_name_then_rest(parts[0], joined(rest));
        assert(parts =~= seq![parts[0]] + rest);
    }
}

/// The components of a text are names: none is empty, and none holds a slash.
pub proof fn lemma_components_are_names(text: Seq<char>)
    ensures
        all_names(components(text)),
    decreases text.len(),
{
    if text.len() > 0 {
        let at = first_index(text, '/');
        lemma_first_index_meaning(text, '/');
        let head = text.take(at);
        assert(!head.contains('/'));
        if at < text.len() {
            lemma_components_are_names(text.skip(at + 1));
            let rest = components(text.skip(at + 1));
            let both = seq![head] + rest;
            assert forall|i: int| 0 <= i < both.len() && head.len() > 0 implies is_name(
                #[trigger] both[i],
            ) by {
                if i > 0 {
                    assert(both[i] == rest[i - 1]);
                }
            }
        }
    }
}

/// A path that was read names the same components as the text, holds nothing
/// that leads out of its folder, and stays as it is when it is read again. A
/// text that is names between slashes stays as it is at once.
pub proof fn lemma_path_is_settled(text: &str, path: RemotePath)
    requires
        call_ensures(RemotePath::parse, (text,), Ok::<RemotePath, PathError>(path)),
    ensures
        components(path@) == components(text@),
        joined(components(path@)) == path@,
        forall|i: int|
            0 <= i < components(path@).len() ==> #[trigger] components(path@)[i] != ".."@
                && components(path@)[i] != "."@,
        joined(components(text@)) == text@ ==> path@ == text@,
        forall|parts: Seq<Seq<char>>|
            all_names(parts) && text@ == #[trigger] joined(parts) ==> path@ == text@
                && components(path@) == parts,
{
    reveal_strlit("..");
    reveal_strlit(".");
    let parts = components(text@);
    lemma_components_are_names(text@);
    lemma_parts_read_back(parts);
    assert forall|i: int| 0 <= i < parts.len() implies #[trigger] parts[i] != ".."@ && parts[i]
        != "."@ by {
        lemma_no_problem_anywhere(parts, i);
        assert(".."@ =~= seq!['.', '.']);
        assert("."@ =~= seq!['.']);
    }
    assert forall|other: Seq<Seq<char>>|
        all_names(other) && text@ == #[trigger] joined(other) implies path@ == text@ && components(
        path@,
    ) == other by {
        lemma_parts_read_back(other);
    }
}

proof fn lemma_no_problem_anywhere(parts: Seq<Seq<char>>, i: int)
    requires
        components_problem(parts) is None,
        0 <= i < parts.len(),
    ensures
        component_problem(parts[i]) is None,
    decreases parts.len(),
{
    if i < parts.len() - 1 {
        lemma_no_problem_anywhere(parts.drop_last(), i);
    }
}

/// A name in a folder is the folder's components and that name behind them.
pub proof fn lemma_child_of_folder(parts: Seq<Seq<char>>, name: Seq<char>)
    requires
        all_names(parts),
        is_name(name),
    ensures
        components(crate::folder::child_text(joined(parts), name)) == parts.push(name),
        joined(components(crate::folder::child_text(joined(parts), name))) == joined(
            parts.push(name),
        ),
        joined(parts.push(name)) != joined(parts),
{
    let all = parts.push(name);
    assert forall|i: int| 0 <= i < all.len() implies is_name(#[trigger] all[i]) by {
        if i < parts.len() {
            assert(all[i] == parts[i]);
        }
    }
    lemma_parts_read_back(all);
    lemma_parts_read_back(parts);
    assert(all.drop_last() =~= parts);
    assert(all.len() == parts.len() + 1);
    if parts.len() == 0 {
        assert(joined(parts).len() == 0);
        assert(all =~= seq![name]);
        lemma_one_component(name);
    } else {
        if joined(parts).len() == 0 {
            assert(components(joined(parts)).len() == 0);
        }
        assert(joined(all) == joined(parts) + "/"@ + name);
    }
}

} // verus!
