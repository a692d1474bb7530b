//! The lock table that `LOCK` and `UNLOCK` share, and that every write is
//! checked against.
//!
//! Times are milliseconds on a clock that only goes forward.

use crate::peers::lemma_hex_at;
use crate::random::random_hex;
use crate::text::{
    begins_with, chars_of, contains_text, copy_of, has_part, hex_of, optional, same_text,
    starts_with,
    strip_end, strip_start, stripped_end, stripped_start, text_of, trim, trim_end, trim_start,
    trimmed,
};
use crate::textmap::TextMap;
use vstd::prelude::*;
use vstd::slice::slice_subrange;

verus! {

/// How long a lock lasts without an `UNLOCK`: one hour.
pub const LOCK_TIMEOUT_MS: u64 = 3_600_000;

/// How many paths may be locked at once. Expired locks do not count.
pub const MAX_LOCKS: usize = 4_096;

/// Why a lock was refused.
#[derive(Debug, Clone, Copy, PartialEq, Eq, Structural)]
pub enum LockError {
    /// No token could be generated.
    NoRandomness,
    /// [`MAX_LOCKS`] paths are locked, and this is not one of them.
    Full,
}

/// What came of an `UNLOCK`.
#[derive(Debug, Clone, Copy, PartialEq, Eq, Structural)]
pub enum UnlockOutcome {
    Unlocked,
    /// A lock is held, and the token given does not name it.
    WrongToken,
    /// No lock is held.
    NotLocked,
}

/// One lock.
#[derive(Debug)]
pub struct Held {
    token: String,
    expires: u64,
}

/// What is known of one lock.
pub struct HeldView {
    pub token: Seq<char>,
    pub expires: u64,
}

impl View for Held {
    type V = HeldView;

    closed spec fn view(&self) -> HeldView {
        HeldView { token: self.token@, expires: self.expires }
    }
}

/// The locks held, by path.
#[derive(Debug)]
pub struct LockTable {
    held: TextMap<Held>,
    timeout: u64,
}

impl View for LockTable {
    type V = Map<Seq<char>, HeldView>;

    closed spec fn view(&self) -> Map<Seq<char>, HeldView> {
        self.held@.map_values(|h: Held| h@)
    }
}

/// The locks that have not expired at `now`.
pub open spec fn live(held: Map<Seq<char>, HeldView>, now: u64) -> Map<Seq<char>, HeldView> {
    held.restrict(held.dom().filter(|p: Seq<char>| held[p].expires > now))
}

/// There is room for a lock on `path` at `now`.
pub open spec fn has_room(held: Map<Seq<char>, HeldView>, path: Seq<char>, now: u64) -> bool {
    live(held, now).contains_key(path) || live(held, now).dom().len() < MAX_LOCKS
}

/// `a + b`, and no more than a `u64` holds.
pub open spec fn plus(a: u64, b: u64) -> u64 {
    if a + b > u64::MAX {
        u64::MAX
    } else {
        (a + b) as u64
    }
}

/// The locks after `path` is locked at `now` with `token`.
pub open spec fn locked(
    held: Map<Seq<char>, HeldView>,
    path: Seq<char>,
    now: u64,
    timeout: u64,
    token: Seq<char>,
) -> Map<Seq<char>, HeldView> {
    live(held, now).insert(path, HeldView { token, expires: plus(now, timeout) })
}

/// `s` without every `opaquelocktoken:` at its start.
pub open spec fn strip_scheme(s: Seq<char>) -> Seq<char>
    decreases s.len(),
{
    if begins_with(s, "opaquelocktoken:"@) && "opaquelocktoken:"@.len() > 0 {
        strip_scheme(s.skip("opaquelocktoken:"@.len() as int))
    } else {
        s
    }
}

/// The bare token that a header value names: without white space, angle
/// brackets and scheme.
pub open spec fn bare_token(value: Seq<char>) -> Seq<char> {
    strip_scheme(strip_end(strip_start(trim(value), '<'), '>'))
}

/// The bare token that a header value names.
pub fn token_of(value: &str) -> (token: String)
    ensures
        token@ == bare_token(value@),
{
    let all = chars_of(value);
    let inner = stripped_end(stripped_start(trimmed(all.as_slice()), '<'), '>');
    let scheme = chars_of("opaquelocktoken:");
    let mut at: usize = 0;
    let len: usize = inner.len();
    assert(inner@.skip(0) =~= inner@);
    proof {
        reveal_strlit("opaquelocktoken:");
    }
    loop
        invariant
            at <= len,
            len == inner@.len(),
            scheme@ == "opaquelocktoken:"@,
            scheme@.len() == 16,
            strip_scheme(inner@) == strip_scheme(inner@.skip(at as int)),
            strip_scheme(inner@) == bare_token(value@),
        decreases len - at,
    {
        let rest = slice_subrange(inner, at, len);
        assert(rest@ =~= inner@.skip(at as int));
        if !starts_with(rest, "opaquelocktoken:") {
            return text_of(rest);
        }
        assert(rest@.skip(16) =~= inner@.skip(at + 16));
        at = at + scheme.len();
    }
}

impl LockTable {
    pub closed spec fn wf(self) -> bool {
        self.held.wf()
    }

    /// How long a lock lasts.
    pub closed spec fn spec_timeout(self) -> u64 {
        self.timeout
    }

    /// A table with no locks, whose locks last [`LOCK_TIMEOUT_MS`].
    pub fn new() -> (table: LockTable)
        ensures
            table.wf(),
            table@ == Map::<Seq<char>, HeldView>::empty(),
            table.spec_timeout() == LOCK_TIMEOUT_MS,
    {
        LockTable::with_timeout(LOCK_TIMEOUT_MS)
    }

    /// A table with no locks, whose locks last `timeout` milliseconds.
    pub fn with_timeout(timeout: u64) -> (table: LockTable)
        ensures
            table.wf(),
            table@ == Map::<Seq<char>, HeldView>::empty(),
            table.spec_timeout() == timeout,
    {
        let table = LockTable { held: TextMap::new(), timeout };
        assert(table@ =~= Map::<Seq<char>, HeldView>::empty());
        table
    }

    /// Drops every lock that has expired at `now`.
    fn expire(&mut self, now: u64)
        requires
            old(self).wf(),
        ensures
            final(self).wf(),
            final(self)@ == live(old(self)@, now),
            final(self).spec_timeout() == old(self).spec_timeout(),
            final(self).held.spec_keys().len() == final(self)@.dom().len(),
            final(self)@.dom().finite(),
    {
        let mut left: usize = self.held.len();
        proof {
            self.held.lemma_view();
        }
        let ghost keys0 = self.held.spec_keys();
        let ghost held0 = self.held@;
        // Keys are looked at from the last to the first, so taking one out
        // leaves the places of those still to come as they are.
        while left > 0
            invariant
                self.held.wf(),
                left <= self.held.spec_keys().len(),
                self.timeout == old(self).timeout,
                held0 == old(self).held@,
                forall|k: Seq<char>| #[trigger]
                    self.held@.contains_key(k) ==> held0.contains_key(k) && held0[k]
                        == self.held@[k],
                forall|k: Seq<char>| #[trigger]
                    held0.contains_key(k) && !self.held@.contains_key(k) ==> held0[k].expires
                        <= now,
                forall|i: int|
                    left <= i < self.held.spec_keys().len() ==> self.held@[#[trigger] self.held.spec_keys()[i]].expires
                        > now,
            decreases left,
        {
            left -= 1;
            let ghost before = self.held;
            proof {
                before.lemma_view();
            }
            let expires: u64 = self.held.value_at(left).expires;
            if expires <= now {
                let gone = self.held.remove_at(left);
                proof {
                    self.held.lemma_view();
                    assert forall|i: int| left <= i < self.held.spec_keys().len() implies self.held@[#[trigger] self.held.spec_keys()[i]].expires
                        > now by {
                        assert(self.held.spec_keys()[i] == before.spec_keys()[i + 1]);
                    }
                }
            }
        }
        proof {
            self.held.lemma_view();
            assert forall|k: Seq<char>| self.held@.contains_key(k) implies self.held@[k].expires
                > now by {
                let i = self.held.spec_keys().index_of(k);
                assert(self.held.spec_keys()[i] == k);
            }
            assert(self@ =~= live(old(self)@, now));
            self.held.lemma_len();
            assert(self@.dom() =~= self.held@.dom());
        }
    }

    /// Whether a lock on `path` would find room at `now`. Expired locks are
    /// dropped first.
    pub fn room_for(&mut self, path: &str, now: u64) -> (room: bool)
        requires
            old(self).wf(),
        ensures
            final(self).wf(),
            final(self)@ == live(old(self)@, now),
            final(self).spec_timeout() == old(self).spec_timeout(),
            room == has_room(old(self)@, path@, now),
    {
        self.expire(now);
        self.held.contains(path) || self.held.len() < MAX_LOCKS
    }

    /// Locks `path` with `token`, or with none where none could be generated,
    /// and returns the token as an `opaquelocktoken:` URI. A lock already on
    /// the path is replaced.
    pub fn lock_path_with(&mut self, path: &str, now: u64, token: Option<String>) -> (locked_as:
        Result<String, LockError>)
        requires
            old(self).wf(),
        ensures
            final(self).wf(),
            final(self).spec_timeout() == old(self).spec_timeout(),
            if !has_room(old(self)@, path@, now) {
                locked_as == Err::<String, _>(LockError::Full) && final(self)@ == live(
                    old(self)@,
                    now,
                )
            } else {
                match token {
                    None => locked_as == Err::<String, _>(LockError::NoRandomness) && final(self)@
                        == live(old(self)@, now),
                    Some(t) => {
                        &&& locked_as matches Ok(uri)
                        &&& uri@ == "opaquelocktoken:"@ + t@
                        &&& final(self)@ == locked(
                            old(self)@,
                            path@,
                            now,
                            old(self).spec_timeout(),
                            t@,
                        )
                    },
                }
            },
    {
        if !self.room_for(path, now) {
            return Err(LockError::Full);
        }
        match token {
            None => Err(LockError::NoRandomness),
            Some(token) => {
                let mut uri = copy_of("opaquelocktoken:");
                uri.push_str(token.as_str());
                let ghost t = token@;
                let entry = Held { token, expires: now.saturating_add(self.timeout) };
                self.held.insert(path, entry);
                assert(self@ =~= locked(old(self)@, path@, now, old(self).spec_timeout(), t));
                Ok(uri)
            },
        }
    }

    /// Locks `path` with a fresh random token. Whatever the randomness, a
    /// full table refuses, and a lock that was made has a token of
    /// thirty-two hexadecimal characters.
    pub fn lock_path(&mut self, path: &str, now: u64) -> (locked_as: Result<String, LockError>)
        requires
            old(self).wf(),
        ensures
            final(self).wf(),
            final(self).spec_timeout() == old(self).spec_timeout(),
            match locked_as {
                Ok(uri) => has_room(old(self)@, path@, now) && exists|bytes: Seq<u8>|
                    bytes.len() == 16 && uri@ == "opaquelocktoken:"@ + #[trigger] hex_of(bytes)
                        && final(self)@ == locked(
                        old(self)@,
                        path@,
                        now,
                        old(self).spec_timeout(),
                        hex_of(bytes),
                    ),
                Err(LockError::Full) => !has_room(old(self)@, path@, now) && final(self)@ == live(
                    old(self)@,
                    now,
                ),
                Err(LockError::NoRandomness) => has_room(old(self)@, path@, now) && final(self)@
                    == live(old(self)@, now),
            },
    {
        let room = self.room_for(path, now);
        assert(live(live(old(self)@, now), now) =~= live(old(self)@, now));
        let token: Option<String> = if room {
            random_hex(16).ok()
        } else {
            None
        };
        self.lock_path_with(path, now, token)
    }

    /// Whether a write to `path` may go ahead, given the `If` header: it holds
    /// no lock, or the header holds that lock's token.
    pub fn allows(&self, path: &str, if_header: Option<&str>, now: u64) -> (allowed: bool)
        requires
            self.wf(),
        ensures
            allowed == write_allowed(self@, path@, optional(if_header), now),
    {
        proof {
            assert(self@.contains_key(path@) <==> self.held@.contains_key(path@));
            assert(self.held@.contains_key(path@) ==> self@[path@] == self.held@[path@]@);
        }
        match self.held.get(path) {
            None => true,
            Some(entry) => {
                if entry.expires <= now {
                    return true;
                }
                match if_header {
                    Some(header) => contains_text(header, entry.token.as_str()),
                    None => false,
                }
            },
        }
    }

    /// Removes the lock on `path` where `token` names it and it has not
    /// expired.
    pub fn unlock(&mut self, path: &str, token: &str, now: u64) -> (outcome: UnlockOutcome)
        requires
            old(self).wf(),
        ensures
            final(self).wf(),
            final(self).spec_timeout() == old(self).spec_timeout(),
            outcome == unlock_of(old(self)@, path@, token@, now),
            final(self)@ == (if outcome is Unlocked {
                old(self)@.remove(path@)
            } else {
                old(self)@
            }),
    {
        let given = token_of(token);
        match self.held.get(path) {
            None => {
                return UnlockOutcome::NotLocked;
            },
            Some(entry) => {
                if entry.expires <= now {
                    return UnlockOutcome::NotLocked;
                }
                if !same_text(entry.token.as_str(), given.as_str()) {
                    return UnlockOutcome::WrongToken;
                }
            },
        }
        let gone = self.held.remove(path);
        assert(self@ =~= old(self)@.remove(path@));
        UnlockOutcome::Unlocked
    }

    /// Removes the lock on `path` where `token` names it and it has not
    /// expired. Says whether it did.
    pub fn unlock_path(&mut self, path: &str, token: &str, now: u64) -> (unlocked: bool)
        requires
            old(self).wf(),
        ensures
            final(self).wf(),
            final(self).spec_timeout() == old(self).spec_timeout(),
            unlocked == (unlock_of(old(self)@, path@, token@, now) is Unlocked),
            final(self)@ == (if unlocked {
                old(self)@.remove(path@)
            } else {
                old(self)@
            }),
    {
        match self.unlock(path, token, now) {
            UnlockOutcome::Unlocked => true,
            _ => false,
        }
    }
}

/// What an `UNLOCK` of `path` with `token` at `now` comes to.
pub open spec fn unlock_of(
    held: Map<Seq<char>, HeldView>,
    path: Seq<char>,
    token: Seq<char>,
    now: u64,
) -> UnlockOutcome {
    if !held.contains_key(path) || held[path].expires <= now {
        UnlockOutcome::NotLocked
    } else if held[path].token == bare_token(token) {
        UnlockOutcome::Unlocked
    } else {
        UnlockOutcome::WrongToken
    }
}

/// A write to `path` at `now` may go ahead with this `If` header.
pub open spec fn write_allowed(
    held: Map<Seq<char>, HeldView>,
    path: Seq<char>,
    if_header: Option<Seq<char>>,
    now: u64,
) -> bool {
    ||| !held.contains_key(path)
    ||| held[path].expires <= now
    ||| (if_header matches Some(h) && has_part(h, held[path].token))
}

/// The two forms a client gives a token in both read as the token: as a lock
/// was answered with it, and in the angle brackets of a header.
pub proof fn lemma_token_reads_back(random: Seq<u8>)
    requires
        random.len() > 0,
    ensures
        bare_token("opaquelocktoken:"@ + hex_of(random)) == hex_of(random),
        bare_token("<"@ + ("opaquelocktoken:"@ + hex_of(random)) + ">"@) == hex_of(random),
{
    let hex = hex_of(random);
    let uri = "opaquelocktoken:"@ + hex;
    let tag = "<"@ + uri + ">"@;
    reveal_strlit("opaquelocktoken:");
    reveal_strlit("<");
    reveal_strlit(">");
    lemma_hex_at(random, 0);
    lemma_hex_at(random, random.len() - 1);
    assert(uri[0] == 'o');
    assert(uri.last() == hex.last());
    assert(uri.take(16) =~= "opaquelocktoken:"@);
    assert(uri.skip(16) =~= hex);
    assert(!begins_with(hex, "opaquelocktoken:"@)) by {
        if begins_with(hex, "opaquelocktoken:"@) {
            assert(hex.take(16)[0] == 'o');
        }
    }
    assert(strip_scheme(uri) == hex) by {
        reveal_with_fuel(strip_scheme, 2);
    }
    assert(trim_start(uri) == uri && trim_end(uri) == uri);
    assert(strip_start(uri, '<') == uri && strip_end(uri, '>') == uri);
    assert(tag[0] == '<' && tag.last() == '>');
    assert(trim_start(tag) == tag && trim_end(tag) == tag);
    assert(strip_start(tag, '<') == uri + ">"@) by {
        reveal_with_fuel(strip_start, 2);
        assert(tag.drop_first() =~= uri + ">"@);
        assert((uri + ">"@)[0] == 'o');
    }
    assert(strip_end(uri + ">"@, '>') == uri) by {
        reveal_with_fuel(strip_end, 2);
        assert((uri + ">"@).last() == '>');
        assert((uri + ">"@).drop_last() =~= uri);
    }
}

/// A path that was locked can be written to only with its token, until the
/// lock is given back or runs out; every other path stays as it was.
pub proof fn lemma_locked_until_timeout(
    held: Map<Seq<char>, HeldView>,
    path: Seq<char>,
    now: u64,
    timeout: u64,
    token: Seq<char>,
    if_header: Option<Seq<char>>,
    at: u64,
)
    requires
        now <= at,
    ensures
        ({
            let after = locked(held, path, now, timeout, token);
            &&& write_allowed(after, path, if_header, at) == (plus(now, timeout) <= at || (
            if_header matches Some(h) && has_part(h, token)))
            &&& write_allowed(after.remove(path), path, if_header, at)
            &&& forall|other: Seq<char>|
                other != path ==> #[trigger] write_allowed(after, other, if_header, at)
                    == write_allowed(held, other, if_header, at)
        }),
{
    let after = locked(held, path, now, timeout, token);
    assert forall|other: Seq<char>| other != path implies #[trigger] write_allowed(
        after,
        other,
        if_header,
        at,
    ) == write_allowed(held, other, if_header, at) by {
        if held.contains_key(other) && held[other].expires > now {
            assert(live(held, now).contains_key(other));
        }
    }
}

/// A lock is given back with the token it was answered with, in either form,
/// and with no other.
pub proof fn lemma_unlocks_with_its_token(
    held: Map<Seq<char>, HeldView>,
    path: Seq<char>,
    now: u64,
    timeout: u64,
    random: Seq<u8>,
    given: Seq<char>,
    at: u64,
)
    requires
        random.len() > 0,
        at < plus(now, timeout),
    ensures
        ({
            let after = locked(held, path, now, timeout, hex_of(random));
            let uri = "opaquelocktoken:"@ + hex_of(random);
            &&& unlock_of(after, path, uri, at) is Unlocked
            &&& unlock_of(after, path, "<"@ + uri + ">"@, at) is Unlocked
            &&& bare_token(given) != hex_of(random) ==> unlock_of(after, path, given, at)
                is WrongToken
        }),
{
    lemma_token_reads_back(random);
}

/// A path that was locked is written only by who names its token, until the
/// lock is given back with that token or its time is over; another token does
/// not open it, and other paths are not touched.
pub proof fn lemma_lock_is_kept_for_its_holder(
    table: &mut LockTable,
    path: &str,
    random: Seq<u8>,
    token: String,
    now: u64,
    locked_as: Result<String, LockError>,
    after: &LockTable,
    header: Option<&str>,
    at: u64,
    allowed: bool,
    wrong: &mut LockTable,
    given: &str,
    refused: UnlockOutcome,
    freeing: &mut LockTable,
    back: &str,
    outcome: UnlockOutcome,
    last: &LockTable,
    free: bool,
)
    requires
        random.len() > 0,
        token@ == hex_of(random),
        call_ensures(LockTable::lock_path_with, (table, path, now, Some(token)), locked_as),
        locked_as is Ok,
        *after == *final(table),
        now <= at < plus(now, old(table).spec_timeout()),
        call_ensures(LockTable::allows, (after, path, header, at), allowed),
        *old(wrong) == *after,
        bare_token(given@) != token@,
        call_ensures(LockTable::unlock, (wrong, path, given, at), refused),
        *old(freeing) == *final(wrong),
        back@ == locked_as->Ok_0@ || back@ == "<"@ + locked_as->Ok_0@ + ">"@,
        call_ensures(LockTable::unlock, (freeing, path, back, at), outcome),
        *last == *final(freeing),
        call_ensures(LockTable::allows, (last, path, None::<&str>, at), free),
    ensures
        header is None ==> !allowed,
        header matches Some(h) ==> (allowed <==> has_part(h@, token@)),
        refused == UnlockOutcome::WrongToken,
        outcome == UnlockOutcome::Unlocked,
        free,
{
    lemma_locked_until_timeout(
        old(table)@,
        path@,
        now,
        old(table).spec_timeout(),
        token@,
        optional(header),
        at,
    );
    lemma_unlocks_with_its_token(
        old(table)@,
        path@,
        now,
        old(table).spec_timeout(),
        random,
        given@,
        at,
    );
}

/// No token is the token of nothing.
pub proof fn lemma_bare_of_nothing()
    ensures
        bare_token(""@).len() == 0,
{
    reveal_strlit("");
    reveal_strlit("opaquelocktoken:");
}

} // verus!
