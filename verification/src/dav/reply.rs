//! What the bridge answers a request with, and what else an answer comes
//! with: listings that are no longer true, and entries for the access log.

use crate::core_errors::RpcError;
use crate::dav::errors::{
    map_rpc_error, map_write_error, read_breaks, read_status, write_breaks, write_status,
};
use crate::dav::http::Header;
use crate::text::{copy_of, decimal, decimal_text, text_views};
use crate::types::AccessVerb;
use vstd::prelude::*;
use vstd::slice::slice_to_vec;
use vstd::string::StringSliceAdditionalSpecFns;
use vstd::utf8::encode_utf8;

verus! {

/// The type of an XML body.
pub open spec fn xml_type() -> Seq<char> {
    "application/xml; charset=\"utf-8\""@
}

/// One answer: a status line, headers, and a body.
pub struct Reply {
    pub status: &'static str,
    pub headers: Vec<Header>,
    pub body: Vec<u8>,
}

/// What an answer says.
#[verifier::ext_equal]
pub struct ReplyView {
    pub status: Seq<char>,
    pub headers: Seq<(Seq<char>, Seq<char>)>,
    pub body: Seq<u8>,
}

/// The names and the values of some headers.
pub open spec fn header_views(headers: Seq<Header>) -> Seq<(Seq<char>, Seq<char>)> {
    headers.map_values(|h: Header| (h.name@, h.value@))
}

impl View for Reply {
    type V = ReplyView;

    open spec fn view(&self) -> ReplyView {
        ReplyView {
            status: self.status@,
            headers: header_views(self.headers@),
            body: self.body@,
        }
    }
}

/// One entry for the access log.
#[derive(Debug)]
pub struct Logged {
    pub verb: AccessVerb,
    pub path: String,
    pub bytes: Option<u64>,
    pub entries: Option<u32>,
    pub files: Option<u32>,
}

/// What an entry for the access log says.
pub struct LoggedView {
    pub verb: AccessVerb,
    pub path: Seq<char>,
    pub bytes: Option<u64>,
    pub entries: Option<u32>,
    pub files: Option<u32>,
}

impl View for Logged {
    type V = LoggedView;

    open spec fn view(&self) -> LoggedView {
        LoggedView {
            verb: self.verb,
            path: self.path@,
            bytes: self.bytes,
            entries: self.entries,
            files: self.files,
        }
    }
}

/// An answer, and what comes with it.
pub struct Outcome {
    pub reply: Reply,
    /// The connection that was used must not be used again.
    pub unhealthy: bool,
    /// The folders whose cached listing is dropped.
    pub invalidate: Vec<String>,
    /// The entries for the access log, in order.
    pub logged: Vec<Logged>,
}

/// What an answer comes to.
#[verifier::ext_equal]
pub struct OutcomeView {
    pub reply: ReplyView,
    pub unhealthy: bool,
    pub invalidate: Seq<Seq<char>>,
    pub logged: Seq<LoggedView>,
}

impl View for Outcome {
    type V = OutcomeView;

    open spec fn view(&self) -> OutcomeView {
        OutcomeView {
            reply: self.reply@,
            unhealthy: self.unhealthy,
            invalidate: text_views(self.invalidate@),
            logged: self.logged@.map_values(|l: Logged| l@),
        }
    }
}

/// An answer without a body.
pub open spec fn no_body_view(status: Seq<char>) -> ReplyView {
    ReplyView { status, headers: seq![("Content-Length"@, "0"@)], body: Seq::empty() }
}

/// An answer that changes nothing.
pub open spec fn only_reply(reply: ReplyView) -> OutcomeView {
    OutcomeView { reply, unhealthy: false, invalidate: Seq::empty(), logged: Seq::empty() }
}

/// A plain answer that changes nothing.
pub open spec fn plain(status: Seq<char>) -> OutcomeView {
    only_reply(no_body_view(status))
}

/// The answer to a failed write.
pub open spec fn write_failed(error: RpcError) -> OutcomeView {
    OutcomeView { unhealthy: write_breaks(error), ..plain(write_status(error)) }
}

/// The answer to a failed read.
pub open spec fn read_failed(error: RpcError) -> OutcomeView {
    OutcomeView { unhealthy: read_breaks(error), ..plain(read_status(error)) }
}

/// An answer with an XML body.
pub open spec fn xml_view(status: Seq<char>, body: Seq<char>) -> ReplyView {
    ReplyView {
        status,
        headers: seq![
            ("Content-Type"@, xml_type()),
            ("Content-Length"@, decimal(encode_utf8(body).len())),
        ],
        body: encode_utf8(body),
    }
}

/// One header.
pub fn header(name: &str, value: &str) -> (h: Header)
    ensures
        h.name@ == name@,
        h.value@ == value@,
{
    Header { name: copy_of(name), value: copy_of(value) }
}

/// An answer without a body.
pub fn no_body(status: &'static str) -> (reply: Reply)
    ensures
        reply@ == no_body_view(status@),
{
    let mut headers: Vec<Header> = Vec::new();
    headers.push(header("Content-Length", "0"));
    let reply = Reply { status, headers, body: Vec::new() };
    assert(reply@ =~= no_body_view(status@));
    reply
}

/// The length of a body, as a number.
pub fn body_len(body: &Vec<u8>) -> (len: u64)
    ensures
        len == body@.len(),
{
    body.len() as u64
}

/// An answer with an XML body.
pub fn xml_reply(status: &'static str, body: &str) -> (reply: Reply)
    ensures
        reply@ == xml_view(status@, body@),
{
    let bytes = slice_to_vec(body.as_bytes());
    let mut headers: Vec<Header> = Vec::new();
    headers.push(header("Content-Type", "application/xml; charset=\"utf-8\""));
    let len = decimal_text(body_len(&bytes));
    headers.push(header("Content-Length", len.as_str()));
    let reply = Reply { status, headers, body: bytes };
    assert(reply@ =~= xml_view(status@, body@));
    reply
}

impl Reply {
    /// The same answer with one header more.
    pub fn and_header(self, name: &str, value: &str) -> (reply: Reply)
        ensures
            reply@ == (ReplyView { headers: self@.headers.push((name@, value@)), ..self@ }),
    {
        let mut reply = self;
        reply.headers.push(header(name, value));
        assert(reply@.headers =~= self@.headers.push((name@, value@)));
        reply
    }
}

/// An answer that changes nothing.
pub fn just(reply: Reply) -> (outcome: Outcome)
    ensures
        outcome@ == only_reply(reply@),
{
    let outcome = Outcome { reply, unhealthy: false, invalidate: Vec::new(), logged: Vec::new() };
    assert(outcome@ =~= only_reply(reply@));
    outcome
}

/// A plain answer that changes nothing.
pub fn answer(status: &'static str) -> (outcome: Outcome)
    ensures
        outcome@ == plain(status@),
{
    just(no_body(status))
}

/// No connection to the device could be had.
pub fn unavailable() -> (outcome: Outcome)
    ensures
        outcome@ == plain("503 Service Unavailable"@),
{
    answer("503 Service Unavailable")
}

/// The answer to a failed write.
pub fn after_failed_write(error: &RpcError) -> (outcome: Outcome)
    ensures
        outcome@ == write_failed(*error),
{
    let (status, unhealthy) = map_write_error(error);
    let mut outcome = answer(status);
    outcome.unhealthy = unhealthy;
    outcome
}

/// The answer to a failed read.
pub fn after_failed_read(error: &RpcError) -> (outcome: Outcome)
    ensures
        outcome@ == read_failed(*error),
{
    let (status, unhealthy) = map_rpc_error(error);
    let mut outcome = answer(status);
    outcome.unhealthy = unhealthy;
    outcome
}

/// One entry for the access log with neither bytes nor counts.
pub open spec fn log_of(verb: AccessVerb, path: Seq<char>) -> LoggedView {
    LoggedView { verb, path, bytes: None, entries: None, files: None }
}

/// One entry for the access log with neither bytes nor counts.
pub fn log_entry(verb: AccessVerb, path: &str) -> (logged: Logged)
    ensures
        logged@ == log_of(verb, path@),
{
    Logged { verb, path: copy_of(path), bytes: None, entries: None, files: None }
}

impl Outcome {
    /// Drops the cached listing of a folder too.
    pub fn and_invalidate(self, folder: &str) -> (outcome: Outcome)
        ensures
            outcome@ == (OutcomeView {
                invalidate: self@.invalidate.push(folder@),
                ..self@
            }),
    {
        let mut outcome = self;
        outcome.invalidate.push(copy_of(folder));
        assert(outcome@.invalidate =~= self@.invalidate.push(folder@));
        outcome
    }

    /// Leaves an entry in the access log too.
    pub fn and_log(self, logged: Logged) -> (outcome: Outcome)
        ensures
            outcome@ == (OutcomeView { logged: self@.logged.push(logged@), ..self@ }),
    {
        let mut outcome = self;
        outcome.logged.push(logged);
        assert(outcome@.logged =~= self@.logged.push(logged@));
        outcome
    }
}

} // verus!
