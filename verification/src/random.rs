//! Random tokens.

use crate::errors::{failed_with, is_failed_with};
use crate::text::{hex_of, hex_text, lemma_hex_len};
use crate::types::FerryError;
use vstd::prelude::*;

verus! {

/// The error of the platform's source of randomness.
#[verifier::external_type_specification]
#[verifier::external_body]
pub struct ExRandomnessError(getrandom::Error);

/// `getrandom::fill`: fills the whole of a byte slice with random bytes, or
/// fails; an empty slice is filled at once. The claim is the length, and that
/// the empty slice never fails. What the bytes are is chance, and after a
/// failure nothing is said of them.
pub assume_specification[ getrandom::fill ](dest: &mut [u8]) -> (filled: Result<
    (),
    getrandom::Error,
>)
    ensures
        final(dest)@.len() == old(dest)@.len(),
        old(dest)@.len() == 0 ==> filled is Ok,
;

/// `n` random bytes, or `None` where the platform has no randomness to give.
pub fn random_bytes(n: usize) -> (bytes: Option<Vec<u8>>)
    ensures
        bytes matches Some(b) ==> b@.len() == n,
        n == 0 ==> bytes is Some,
{
    let mut bytes: Vec<u8> = Vec::new();
    bytes.resize(n, 0u8);
    let filled = getrandom::fill(bytes.as_mut_slice());
    match filled {
        Ok(()) => Some(bytes),
        Err(_) => None,
    }
}

/// `n_bytes` random bytes in lower case hexadecimal: the password of a mount,
/// and the token of a lock.
pub fn random_hex(n_bytes: usize) -> (text: Result<String, FerryError>)
    requires
        2 * n_bytes <= usize::MAX,
    ensures
        match text {
            Ok(t) => exists|bytes: Seq<u8>| bytes.len() == n_bytes && t@ == #[trigger] hex_of(bytes)
                && t@.len() == 2 * n_bytes,
            Err(e) => n_bytes > 0 && is_failed_with(
                e,
                "Runtime::MountFailed"@,
                "no randomness was available"@,
            ),
        },
{
    match random_bytes(n_bytes) {
        Some(bytes) => {
            proof {
                lemma_hex_len(bytes@);
            }
            Ok(hex_text(bytes.as_slice()))
        },
        None => Err(failed_with("Runtime::MountFailed", "no randomness was available")),
    }
}

} // verus!
