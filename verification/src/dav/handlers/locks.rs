//! `LOCK` and `UNLOCK`. Neither ever reaches the other device.

use crate::dav::lock::{
    has_room, live, locked, unlock_of, LockError, LockTable, UnlockOutcome,
};
use crate::dav::reply::{answer, just, only_reply, plain, xml_type, Outcome, Reply, ReplyView};
use crate::text::{copy_of, decimal, decimal_text, hex_of};
use vstd::prelude::*;
use vstd::slice::slice_to_vec;
use vstd::string::StringSliceAdditionalSpecFns;
use vstd::utf8::encode_utf8;

verus! {

/// The body of the answer to a `LOCK`.
pub open spec fn lock_text(token: Seq<char>) -> Seq<char> {
    "<?xml version=\"1.0\" encoding=\"utf-8\"?>\n<D:prop xmlns:D=\"DAV:\"><D:lockdiscovery><D:activelock><D:locktype><D:write/></D:locktype><D:lockscope><D:exclusive/></D:lockscope><D:depth>infinity</D:depth><D:timeout>Second-3600</D:timeout><D:locktoken><D:href>"@
        + token + "</D:href></D:locktoken></D:activelock></D:lockdiscovery></D:prop>\n"@
}

/// What a lock that was taken is answered with.
pub open spec fn lock_reply_view(token: Seq<char>) -> ReplyView {
    ReplyView {
        status: "200 OK"@,
        headers: seq![
            ("Content-Type"@, xml_type()),
            ("Lock-Token"@, "<"@ + token + ">"@),
            ("Content-Length"@, decimal(encode_utf8(lock_text(token)).len())),
        ],
        body: encode_utf8(lock_text(token)),
    }
}

/// What a `LOCK` is answered with, once the table has answered.
pub fn lock_reply(locked_as: &Result<String, LockError>) -> (outcome: Outcome)
    ensures
        outcome@ == (match locked_as {
            Ok(token) => only_reply(lock_reply_view(token@)),
            Err(LockError::Full) => plain("507 Insufficient Storage"@),
            Err(LockError::NoRandomness) => plain("500 Internal Server Error"@),
        }),
{
    let token = match locked_as {
        Ok(token) => token,
        Err(LockError::Full) => {
            return answer("507 Insufficient Storage");
        },
        Err(LockError::NoRandomness) => {
            return answer("500 Internal Server Error");
        },
    };
    let mut text = copy_of(
        "<?xml version=\"1.0\" encoding=\"utf-8\"?>\n<D:prop xmlns:D=\"DAV:\"><D:lockdiscovery><D:activelock><D:locktype><D:write/></D:locktype><D:lockscope><D:exclusive/></D:lockscope><D:depth>infinity</D:depth><D:timeout>Second-3600</D:timeout><D:locktoken><D:href>",
    );
    text.push_str(token.as_str());
    text.push_str("</D:href></D:locktoken></D:activelock></D:lockdiscovery></D:prop>\n");
    assert(text@ == lock_text(token@));
    let body = slice_to_vec(text.as_str().as_bytes());
    let length = decimal_text(body.len() as u64);
    let mut bracketed = copy_of("<");
    bracketed.push_str(token.as_str());
    bracketed.push_str(">");
    let reply = Reply { status: "200 OK", headers: Vec::new(), body };
    let reply = reply.and_header("Content-Type", "application/xml; charset=\"utf-8\"").and_header(
        "Lock-Token",
        bracketed.as_str(),
    ).and_header("Content-Length", length.as_str());
    assert(reply@ =~= lock_reply_view(token@));
    just(reply)
}

/// `LOCK`: a lock on the target, in place of one that is on it.
pub fn lock_verb(locks: &mut LockTable, target: &str, now: u64) -> (outcome: Outcome)
    requires
        old(locks).wf(),
    ensures
        final(locks).wf(),
        final(locks).spec_timeout() == old(locks).spec_timeout(),
        if !has_room(old(locks)@, target@, now) {
            outcome@ == plain("507 Insufficient Storage"@) && final(locks)@ == live(
                old(locks)@,
                now,
            )
        } else {
            (outcome@ == plain("500 Internal Server Error"@) && final(locks)@ == live(
                old(locks)@,
                now,
            )) || exists|bytes: Seq<u8>|
                bytes.len() == 16 && outcome@ == only_reply(
                    lock_reply_view("opaquelocktoken:"@ + #[trigger] hex_of(bytes)),
                ) && final(locks)@ == locked(
                    old(locks)@,
                    target@,
                    now,
                    old(locks).spec_timeout(),
                    hex_of(bytes),
                )
        },
{
    let locked_as = locks.lock_path(target, now);
    lock_reply(&locked_as)
}

/// `UNLOCK`: takes the lock off the target, where the token names it.
pub fn unlock_verb(locks: &mut LockTable, target: &str, lock_token: Option<&str>, now: u64) -> (
outcome: Outcome)
    requires
        old(locks).wf(),
    ensures
        final(locks).wf(),
        ({
            let token = match lock_token {
                Some(t) => t@,
                None => ""@,
            };
            let came = unlock_of(old(locks)@, target@, token, now);
            &&& outcome@ == plain(
                match came {
                    UnlockOutcome::Unlocked => "204 No Content"@,
                    UnlockOutcome::WrongToken => "403 Forbidden"@,
                    UnlockOutcome::NotLocked => "409 Conflict"@,
                },
            )
            &&& final(locks)@ == (if came is Unlocked {
                old(locks)@.remove(target@)
            } else {
                old(locks)@
            })
        }),
{
    let token: &str = match lock_token {
        Some(t) => t,
        None => "",
    };
    match locks.unlock(target, token, now) {
        UnlockOutcome::Unlocked => answer("204 No Content"),
        UnlockOutcome::WrongToken => answer("403 Forbidden"),
        UnlockOutcome::NotLocked => answer("409 Conflict"),
    }
}

/// Who locked a file is told the token that gives it back: sent with an
/// `UNLOCK` in time it frees the file, and without a token the file stays
/// locked.
pub proof fn lemma_told_token_unlocks(
    locks: &mut LockTable,
    target: &str,
    now: u64,
    outcome: Outcome,
    none: &mut LockTable,
    at: u64,
    kept: Outcome,
    then: &mut LockTable,
    token: &str,
    freed: Outcome,
)
    requires
        call_ensures(lock_verb, (locks, target, now), outcome),
        outcome@.reply.status == "200 OK"@,
        now <= at < crate::dav::lock::plus(now, old(locks).spec_timeout()),
        *old(none) == *final(locks),
        call_ensures(unlock_verb, (none, target, None::<&str>, at), kept),
        *old(then) == *final(none),
        outcome@.reply.headers.contains(("Lock-Token"@, token@)),
        call_ensures(unlock_verb, (then, target, Some(token), at), freed),
    ensures
        kept@ == plain("403 Forbidden"@),
        freed@ == plain("204 No Content"@),
        !final(then)@.contains_key(target@),
        final(none)@.contains_key(target@),
{
    reveal_strlit("200 OK");
    reveal_strlit("507 Insufficient Storage");
    reveal_strlit("500 Internal Server Error");
    assert("200 OK"@[0] != "507 Insufficient Storage"@[0]);
    assert("200 OK"@[0] != "500 Internal Server Error"@[0]);
    let timeout = old(locks).spec_timeout();
    let bytes = choose|bytes: Seq<u8>|
        bytes.len() == 16 && outcome@ == only_reply(
            lock_reply_view("opaquelocktoken:"@ + #[trigger] hex_of(bytes)),
        ) && final(locks)@ == locked(old(locks)@, target@, now, timeout, hex_of(bytes));
    let uri = "opaquelocktoken:"@ + hex_of(bytes);
    let headers = outcome@.reply.headers;
    let i = choose|i: int| 0 <= i < headers.len() && headers[i] == ("Lock-Token"@, token@);
    reveal_strlit("Lock-Token");
    reveal_strlit("Content-Type");
    reveal_strlit("Content-Length");
    assert("Lock-Token"@[0] == 'L' && "Content-Type"@[0] == 'C' && "Content-Length"@[0] == 'C');
    assert(i == 1);
    assert(token@ == "<"@ + uri + ">"@);
    crate::text::lemma_hex_len(bytes);
    crate::dav::lock::lemma_bare_of_nothing();
    crate::dav::lock::lemma_unlocks_with_its_token(
        old(locks)@,
        target@,
        now,
        timeout,
        bytes,
        ""@,
        at,
    );
}

} // verus!
