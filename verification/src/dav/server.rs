//! One device's bridge: which connections it holds, what it makes of a
//! request's head, and which verb answers it.

use crate::dav::cache::{Cache, ListingView};
use crate::dav::handlers::options::{authorized, credentials};
use crate::dav::handlers::write::{expected_host, host_of, is_partial_target, is_probe_target};
use crate::dav::heads::{HeadCache, Prefetch};
use crate::dav::http::{
    decoded_text, header_value, percent_decode, RequestHead, MAX_BODY_LEN,
};
use crate::dav::lock::LockTable;
use crate::dav::probes::{is_partial_name, is_probe_name, last_segment};
use crate::dav::reply::{answer, just, only_reply, plain, Outcome, Reply, ReplyView};
use crate::text::{same_text, strip_both, stripped, text_views};
use vstd::prelude::*;

verus! {

/// How many connections one bridge serves at once.
pub const MAX_LIVE_CONNECTIONS: u32 = 32;

/// How many connections may be open at once without having sent one request
/// with the right password.
pub const MAX_UNAUTHENTICATED_CONNECTIONS: u32 = 4;

/// How long a connection may sit with nothing read, or a write may block, in
/// milliseconds.
pub const CONNECTION_TIMEOUT_MS: u64 = 30_000;

/// How long a connection may take for its first request head, in
/// milliseconds.
pub const FIRST_HEAD_TIMEOUT_MS: u64 = 5_000;

/// How long the next head of a connection may take: the first one less than
/// those that follow, since a connection that has spoken is held open between
/// requests on purpose.
pub fn head_timeout(first: bool) -> (ms: u64)
    ensures
        ms == (if first {
            FIRST_HEAD_TIMEOUT_MS
        } else {
            CONNECTION_TIMEOUT_MS
        }),
{
    if first {
        FIRST_HEAD_TIMEOUT_MS
    } else {
        CONNECTION_TIMEOUT_MS
    }
}

/// The connections one bridge holds.
#[derive(Debug)]
pub struct Slots {
    live: u32,
    unauthenticated: u32,
}

impl Slots {
    /// How many connections are served.
    pub closed spec fn served(self) -> nat {
        self.live as nat
    }

    /// How many of them have not sent the right password yet.
    pub closed spec fn unproven(self) -> nat {
        self.unauthenticated as nat
    }

    /// The bounds hold.
    pub open spec fn wf(self) -> bool {
        &&& self.served() <= MAX_LIVE_CONNECTIONS
        &&& self.unproven() <= MAX_UNAUTHENTICATED_CONNECTIONS
        &&& self.unproven() <= self.served()
    }

    /// No connection is served.
    pub fn new() -> (slots: Slots)
        ensures
            slots.wf(),
            slots.served() == 0,
            slots.unproven() == 0,
    {
        Slots { live: 0, unauthenticated: 0 }
    }

    /// A connection has come. It is taken only where there is room for it
    /// among both kinds; one that is not costs nothing.
    pub fn accept(&mut self) -> (taken: bool)
        requires
            old(self).wf(),
        ensures
            final(self).wf(),
            taken == (old(self).served() < MAX_LIVE_CONNECTIONS && old(self).unproven()
                < MAX_UNAUTHENTICATED_CONNECTIONS),
            final(self).served() == old(self).served() + (if taken {
                1int
            } else {
                0
            }),
            final(self).unproven() == old(self).unproven() + (if taken {
                1int
            } else {
                0
            }),
    {
        if self.live >= MAX_LIVE_CONNECTIONS || self.unauthenticated
            >= MAX_UNAUTHENTICATED_CONNECTIONS {
            return false;
        }
        self.live = self.live + 1;
        self.unauthenticated = self.unauthenticated + 1;
        true
    }

    /// A connection has sent the right password for the first time.
    pub fn proven(&mut self)
        requires
            old(self).wf(),
        ensures
            final(self).wf(),
            final(self).served() == old(self).served(),
            final(self).unproven() == (if old(self).unproven() > 0 {
                old(self).unproven() - 1
            } else {
                0
            }),
    {
        if self.unauthenticated > 0 {
            self.unauthenticated = self.unauthenticated - 1;
        }
    }

    /// A connection is closed; `was_proven` says whether it had sent the
    /// right password.
    pub fn closed(&mut self, was_proven: bool)
        requires
            old(self).wf(),
            was_proven ==> old(self).served() > old(self).unproven(),
            !was_proven ==> old(self).unproven() > 0,
        ensures
            final(self).wf(),
            final(self).served() == old(self).served() - 1,
            final(self).unproven() == old(self).unproven() - (if was_proven {
                0int
            } else {
                1
            }),
    {
        self.live = self.live - 1;
        if !was_proven {
            self.unauthenticated = self.unauthenticated - 1;
        }
    }
}

/// One device's bridge.
pub struct Bridge {
    pub device_key_hex: String,
    /// The device's name, as it is stored. It names the mount root.
    pub device_name: String,
    pub user: String,
    pub password: String,
    pub port: u16,
    pub cache: Cache,
    pub heads: HeadCache,
    pub prefetch: Prefetch,
    pub locks: LockTable,
    pub slots: Slots,
}

impl Bridge {
    pub open spec fn wf(self) -> bool {
        self.cache.wf() && self.heads.wf() && self.locks.wf() && self.slots.wf()
    }

    /// A bridge that has answered nothing yet.
    pub fn new(
        device_key_hex: String,
        device_name: String,
        user: String,
        password: String,
        port: u16,
    ) -> (bridge: Bridge)
        ensures
            bridge.wf(),
            bridge.device_key_hex@ == device_key_hex@,
            bridge.device_name@ == device_name@,
            bridge.user@ == user@,
            bridge.password@ == password@,
            bridge.port == port,
            bridge.cache@ == Map::<Seq<char>, ListingView>::empty(),
            bridge.heads@.len() == 0,
            bridge.locks@.dom() == Set::<Seq<char>>::empty(),
            bridge.slots.served() == 0,
            bridge.prefetch.waiting() is None,
            !bridge.prefetch.is_stopped(),
    {
        Bridge {
            device_key_hex,
            device_name,
            user,
            password,
            port,
            cache: Cache::new(),
            heads: HeadCache::new(),
            prefetch: Prefetch::new(),
            locks: LockTable::new(),
            slots: Slots::new(),
        }
    }

    /// Drops the listings that an answer makes untrue.
    pub fn settle(&mut self, outcome: &Outcome)
        requires
            old(self).wf(),
        ensures
            final(self).wf(),
            final(self).cache@ == old(self).cache@.remove_keys(outcome@.invalidate.to_set()),
            *final(self) == (Bridge { cache: final(self).cache, ..*old(self) }),
    {
        let ghost folders = outcome@.invalidate;
        let ghost before = self.cache@;
        let mut i: usize = 0;
        assert(self.cache@ =~= before.remove_keys(folders.take(0).to_set()));
        while i < outcome.invalidate.len()
            invariant
                i <= outcome.invalidate.len(),
                self.wf(),
                *self == (Bridge { cache: self.cache, ..*old(self) }),
                before == old(self).cache@,
                folders == text_views(outcome.invalidate@),
                self.cache@ == before.remove_keys(folders.take(i as int).to_set()),
            decreases outcome.invalidate.len() - i,
        {
            self.cache.invalidate(outcome.invalidate[i].as_str());
            proof {
                let next = folders.take(i + 1);
                let this = outcome.invalidate@[i as int]@;
                assert(next[i as int] == this);
                assert forall|k: Seq<char>|
                    next.contains(k) <==> folders.take(i as int).contains(k) || k == this by {
                    if folders.take(i as int).contains(k) {
                        let j = choose|j: int| 0 <= j < i && folders.take(i as int)[j] == k;
                        assert(next[j] == k);
                    }
                    if next.contains(k) {
                        let j = choose|j: int| 0 <= j < next.len() && next[j] == k;
                        if j < i {
                            assert(folders.take(i as int)[j] == k);
                        }
                    }
                }
                assert(self.cache@ =~= before.remove_keys(next.to_set()));
            }
            i += 1;
        }
        assert(folders.take(folders.len() as int) =~= folders);
    }
}

/// What becomes of a request, by its head alone.
pub enum HeadCheck {
    /// Answer, and close the connection: how long the body is cannot be
    /// trusted.
    Close(Outcome),
    /// A `PUT` of a real file, which takes its body itself.
    PutFile(String),
    /// Read this many bytes of body, then answer by this route.
    Body(u64, String),
}

/// The answer to a request without the right password.
pub open spec fn unauthorized_view() -> ReplyView {
    ReplyView {
        status: "401 Unauthorized"@,
        headers: seq![
            ("WWW-Authenticate"@, "Basic realm=\"Ferry\""@),
            ("Content-Length"@, "0"@),
        ],
        body: Seq::empty(),
    }
}

fn unauthorized() -> (outcome: Outcome)
    ensures
        outcome@ == only_reply(unauthorized_view()),
{
    let reply = Reply { status: "401 Unauthorized", headers: Vec::new(), body: Vec::new() };
    let reply = reply.and_header("WWW-Authenticate", "Basic realm=\"Ferry\"").and_header(
        "Content-Length",
        "0",
    );
    assert(reply@ =~= unauthorized_view());
    just(reply)
}

/// A request whose head ran past its bounds: there is no telling where the
/// next one begins, so the connection is closed after this answer.
pub fn head_too_large() -> (outcome: Outcome)
    ensures
        outcome@ == plain("431 Request Header Fields Too Large"@),
{
    answer("431 Request Header Fields Too Large")
}

/// The target of a request: decoded, without slashes at its ends.
pub open spec fn target_of(raw: Seq<char>) -> Seq<char> {
    strip_both(decoded_text(raw), '/')
}

/// The length of a request's body; none declared is none.
pub open spec fn body_len(head: RequestHead) -> u64 {
    match head.declared_length() {
        Some(n) => n,
        None => 0,
    }
}

/// The credentials of a request are the bridge's.
pub open spec fn is_authorized(head: RequestHead, user: Seq<char>, password: Seq<char>) -> bool {
    credentials(header_value(head.headers@, "authorization"@)) == Some((user, password))
}

/// What becomes of a request, by its head alone: its host first, then its
/// password, then the length of its body. The second value says whether it
/// had the right password, whatever becomes of it.
pub fn respond(head: &RequestHead, port: u16, user: &str, password: &str) -> (check: (
    HeadCheck,
    bool,
))
    ensures
        if header_value(head.headers@, "host"@) != Some(host_of(port)) {
            !check.1 && (check.0 matches HeadCheck::Close(o) && o@ == plain("400 Bad Request"@))
        } else if !is_authorized(*head, user@, password@) {
            !check.1 && (check.0 matches HeadCheck::Close(o) && o@ == only_reply(
                unauthorized_view(),
            ))
        } else {
            check.1 && (if header_value(head.headers@, "transfer-encoding"@) is Some {
                check.0 matches HeadCheck::Close(o) && o@ == plain("411 Length Required"@)
            } else if head.method@ == "PUT"@ && !is_probe_target(target_of(head.target@)) {
                check.0 matches HeadCheck::PutFile(t) && t@ == target_of(head.target@)
            } else if body_len(*head) > MAX_BODY_LEN {
                check.0 matches HeadCheck::Close(o) && o@ == plain("413 Payload Too Large"@)
            } else {
                check.0 matches HeadCheck::Body(n, t) && n == body_len(*head) && t@ == target_of(
                    head.target@,
                )
            })
        },
{
    let host = expected_host(port);
    let right_host: bool = match head.header("host") {
        Some(h) => same_text(h, host.as_str()),
        None => false,
    };
    if !right_host {
        return (HeadCheck::Close(answer("400 Bad Request")), false);
    }
    if !authorized(user, password, head.header("authorization")) {
        return (HeadCheck::Close(unauthorized()), false);
    }
    if head.header("transfer-encoding").is_some() {
        return (HeadCheck::Close(answer("411 Length Required")), true);
    }
    let decoded = percent_decode(head.target.as_str());
    let target = stripped(decoded.as_str(), '/');
    if same_text(head.method.as_str(), "PUT") && !is_probe_name(last_segment(target.as_str())) {
        return (HeadCheck::PutFile(target), true);
    }
    let length: u64 = match head.content_length() {
        Some(n) => n,
        None => 0,
    };
    if length > MAX_BODY_LEN {
        return (HeadCheck::Close(answer("413 Payload Too Large")), true);
    }
    (HeadCheck::Body(length, target), true)
}

/// Which verb answers a request.
#[derive(Debug, Clone, Copy, PartialEq, Eq, Structural)]
pub enum Route {
    Options,
    Lock,
    Unlock,
    /// `PUT` of a name of the sidecar store.
    PutSidecar,
    /// The name of a landing in progress, which is never shown: 404.
    Hidden,
    /// `PROPFIND` of a name of the sidecar store.
    PropfindProbe,
    /// `GET` of a name of the sidecar store; `true` for `HEAD`.
    GetProbe(bool),
    Propfind,
    /// `GET` of a real file; `true` for `HEAD`.
    Get(bool),
    Mkcol,
    Delete,
    Move,
    Copy,
    Proppatch,
    /// No verb: 405.
    NotAllowed,
}

/// Which verb answers a request.
pub open spec fn route_of(method: Seq<char>, target: Seq<char>) -> Route {
    let partial = is_partial_target(target);
    let probe = is_probe_target(target);
    if method == "OPTIONS"@ {
        Route::Options
    } else if method == "LOCK"@ {
        Route::Lock
    } else if method == "UNLOCK"@ {
        Route::Unlock
    } else if method == "PUT"@ {
        Route::PutSidecar
    } else if method == "PROPFIND"@ {
        if partial {
            Route::Hidden
        } else if probe {
            Route::PropfindProbe
        } else {
            Route::Propfind
        }
    } else if method == "GET"@ || method == "HEAD"@ {
        if partial {
            Route::Hidden
        } else if probe {
            Route::GetProbe(method != "GET"@)
        } else {
            Route::Get(method != "GET"@)
        }
    } else if method == "MKCOL"@ {
        Route::Mkcol
    } else if method == "DELETE"@ {
        Route::Delete
    } else if method == "MOVE"@ {
        Route::Move
    } else if method == "COPY"@ {
        Route::Copy
    } else if method == "PROPPATCH"@ {
        Route::Proppatch
    } else {
        Route::NotAllowed
    }
}

/// Which verb answers a request whose body has been read.
pub fn route(method: &str, target: &str) -> (route: Route)
    ensures
        route == route_of(method@, target@),
{
    if same_text(method, "OPTIONS") {
        return Route::Options;
    }
    if same_text(method, "LOCK") {
        return Route::Lock;
    }
    if same_text(method, "UNLOCK") {
        return Route::Unlock;
    }
    if same_text(method, "PUT") {
        return Route::PutSidecar;
    }
    let name = last_segment(target);
    let partial = is_partial_name(name);
    let probe = is_probe_name(name);
    if same_text(method, "PROPFIND") {
        return if partial {
            Route::Hidden
        } else if probe {
            Route::PropfindProbe
        } else {
            Route::Propfind
        };
    }
    let get = same_text(method, "GET");
    if get || same_text(method, "HEAD") {
        return if partial {
            Route::Hidden
        } else if probe {
            Route::GetProbe(!get)
        } else {
            Route::Get(!get)
        };
    }
    if same_text(method, "MKCOL") {
        return Route::Mkcol;
    }
    if same_text(method, "DELETE") {
        return Route::Delete;
    }
    if same_text(method, "MOVE") {
        return Route::Move;
    }
    if same_text(method, "COPY") {
        return Route::Copy;
    }
    if same_text(method, "PROPPATCH") {
        return Route::Proppatch;
    }
    Route::NotAllowed
}

/// Nothing of a request is looked at until it names this host and its sender
/// has proven the password: then its body is read, or its file received,
/// for the target it names.
pub proof fn lemma_only_the_owner_is_answered(
    head: &RequestHead,
    port: u16,
    user: &str,
    password: &str,
    check: (HeadCheck, bool),
)
    requires
        call_ensures(respond, (head, port, user, password), check),
    ensures
        check.1 <==> header_value(head.headers@, "host"@) == Some(
            "127.0.0.1:"@ + crate::text::decimal(port as nat),
        ) && credentials(header_value(head.headers@, "authorization"@)) == Some(
            (user@, password@),
        ),
        !check.1 ==> (check.0 matches HeadCheck::Close(o) && (o@.reply.status
            == "400 Bad Request"@ || o@.reply.status == "401 Unauthorized"@)),
        check.0 is PutFile || check.0 is Body ==> check.1,
        check.0 matches HeadCheck::PutFile(t) ==> head.method@ == "PUT"@ && t@ == target_of(
            head.target@,
        ),
        check.0 matches HeadCheck::Body(n, t) ==> n <= MAX_BODY_LEN && t@ == target_of(
            head.target@,
        ) && (head.declared_length() matches Some(len) ==> n == len),
{
}

/// Each method has its own answer, and a method without one is refused. What
/// only a landing in progress has for a name is hidden from a reader, and what
/// the sidecar store keeps is read from there.
pub proof fn lemma_methods_have_their_answers(method: &str, target: &str, route: Route)
    requires
        call_ensures(self::route, (method, target), route),
    ensures
        route == Route::Options <==> method@ == "OPTIONS"@,
        route == Route::Lock <==> method@ == "LOCK"@,
        route == Route::Unlock <==> method@ == "UNLOCK"@,
        route == Route::Mkcol <==> method@ == "MKCOL"@,
        route == Route::Delete <==> method@ == "DELETE"@,
        route == Route::Move <==> method@ == "MOVE"@,
        route == Route::Copy <==> method@ == "COPY"@,
        route == Route::Proppatch <==> method@ == "PROPPATCH"@,
        route == Route::Propfind <==> method@ == "PROPFIND"@ && !is_partial_target(target@)
            && !is_probe_target(target@),
        route == Route::Get(false) <==> method@ == "GET"@ && !is_partial_target(target@)
            && !is_probe_target(target@),
        route == Route::Get(true) <==> method@ == "HEAD"@ && !is_partial_target(target@)
            && !is_probe_target(target@),
        route == Route::Hidden <==> (method@ == "GET"@ || method@ == "HEAD"@ || method@
            == "PROPFIND"@) && is_partial_target(target@),
{
    reveal_strlit("OPTIONS");
    reveal_strlit("LOCK");
    reveal_strlit("UNLOCK");
    reveal_strlit("PUT");
    reveal_strlit("PROPFIND");
    reveal_strlit("GET");
    reveal_strlit("HEAD");
    reveal_strlit("MKCOL");
    reveal_strlit("DELETE");
    reveal_strlit("MOVE");
    reveal_strlit("COPY");
    reveal_strlit("PROPPATCH");
    assert("OPTIONS"@[0] == 'O' && "LOCK"@[0] == 'L' && "UNLOCK"@[0] == 'U');
    assert("PUT"@[1] == 'U' && "PROPFIND"@[1] == 'R' && "PROPPATCH"@[1] == 'R');
    assert("PUT"@[0] == 'P' && "PROPFIND"@[0] == 'P' && "PROPPATCH"@[0] == 'P');
    assert("GET"@[0] == 'G' && "HEAD"@[0] == 'H' && "MKCOL"@[0] == 'M' && "MOVE"@[0] == 'M');
    assert("DELETE"@[0] == 'D' && "COPY"@[0] == 'C');
    assert("MKCOL"@.len() == 5 && "MOVE"@.len() == 4);
    assert("PROPFIND"@.len() == 8 && "PROPPATCH"@.len() == 9);
}

/// A change is seen at once: the listing of a folder that an answer touched is
/// not kept, and that of any other folder is.
pub proof fn lemma_touched_folders_are_read_again(
    bridge: &mut Bridge,
    outcome: &Outcome,
    folder: Seq<char>,
)
    requires
        call_ensures(Bridge::settle, (bridge, outcome), ()),
    ensures
        outcome@.invalidate.contains(folder) ==> !final(bridge).cache@.contains_key(folder),
        !outcome@.invalidate.contains(folder) ==> (final(bridge).cache@.contains_key(folder)
            <==> old(bridge).cache@.contains_key(folder)),
        final(bridge).cache@.contains_key(folder) ==> final(bridge).cache@[folder] == old(
            bridge).cache@[folder],
{
}

/// A connection that proved who it is makes room for another that did not yet,
/// and one that ends makes room altogether; no more are served than may be.
pub proof fn lemma_connections_make_room(
    slots: &mut Slots,
    taken: bool,
    second: &mut Slots,
    third: &mut Slots,
)
    requires
        old(slots).wf(),
        call_ensures(Slots::accept, (slots,), taken),
        taken,
        *old(second) == *final(slots),
        call_ensures(Slots::proven, (second,), ()),
        *old(third) == *final(second),
        old(third).served() > old(third).unproven(),
        call_ensures(Slots::closed, (third, true), ()),
    ensures
        final(slots).served() == old(slots).served() + 1,
        final(slots).unproven() == old(slots).unproven() + 1,
        final(slots).served() <= MAX_LIVE_CONNECTIONS,
        final(slots).unproven() <= MAX_UNAUTHENTICATED_CONNECTIONS,
        final(second).unproven() == old(slots).unproven(),
        final(third).served() == old(slots).served(),
        final(third).unproven() == old(slots).unproven(),
{
}

} // verus!
