//! Where a file is written before it takes the place of another.
//!
//! A file that is written in place is short for a moment, and stays short
//! where the process dies in that moment. So the bytes go to a name of their
//! own next to the real one, and the rename is one step.

use crate::errors::{failed, is_failed};
use crate::peers::lemma_one_key;
use crate::random::random_bytes;
use crate::text::{copy_of, hex_of, hex_text, lemma_hex_len};
use crate::types::FerryError;
use vstd::prelude::*;

verus! {

/// How many random bytes a temporary name holds.
pub const TEMPORARY_LEN: usize = 16;

/// The name next to `path` with this random part.
pub open spec fn temporary_text(path: Seq<char>, random: Seq<u8>) -> Seq<char> {
    path + "."@ + hex_of(random) + ".tmp"@
}

/// The name next to `path` with this random part.
pub fn temporary_name_from(path: &str, random: &[u8]) -> (name: String)
    ensures
        name@ == temporary_text(path@, random@),
{
    let mut name = copy_of(path);
    name.push_str(".");
    let part = hex_text(random);
    name.push_str(part.as_str());
    name.push_str(".tmp");
    name
}

/// A name next to `path` that nothing can be waiting at.
pub fn temporary_name(path: &str) -> (name: Result<String, FerryError>)
    ensures
        match name {
            Ok(n) => exists|random: Seq<u8>|
                random.len() == TEMPORARY_LEN && n@ == #[trigger] temporary_text(path@, random),
            Err(e) => is_failed(e, "TransferError::NoRandomness"@),
        },
{
    match random_bytes(TEMPORARY_LEN) {
        Some(random) => Ok(temporary_name_from(path, random.as_slice())),
        None => Err(failed("TransferError::NoRandomness")),
    }
}

/// Two random parts of one length give two names.
pub proof fn lemma_temporary_names_differ(path: Seq<char>, a: Seq<u8>, b: Seq<u8>)
    requires
        a.len() == b.len(),
        a != b,
    ensures
        temporary_text(path, a) != temporary_text(path, b),
{
    if temporary_text(path, a) == temporary_text(path, b) {
        lemma_hex_len(a);
        lemma_hex_len(b);
        let from = path.len() + "."@.len();
        let to = from + 2 * a.len();
        assert(temporary_text(path, a).subrange(from as int, to as int) =~= hex_of(a));
        assert(temporary_text(path, b).subrange(from as int, to as int) =~= hex_of(b));
        lemma_one_key(a, b);
    }
}

} // verus!
