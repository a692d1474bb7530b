//! `PROPPATCH`: the modified time, and nothing else.

use crate::core_errors::RpcError;
use crate::dates::{parse_rfc1123, spelled_moment};
use crate::dav::handlers::write::{path_of, target_path};
use crate::dav::lock::{write_allowed, LockTable};
use crate::dav::probes::{is_probe_name, last_segment, probe_name, segment_of};
use crate::dav::proppatch::{
    accepted_names, names_of, parted, patched_text, properties, proppatch_multistatus,
    read_proppatch, refused_names, time_value,
};
use crate::dav::reply::{
    after_failed_write, answer, just, only_reply, plain, write_failed, xml_reply, xml_view, Outcome,
    OutcomeView,
};
use crate::path::RemotePath;
use crate::text::{lossy_utf8, optional};
use vstd::prelude::*;

verus! {

/// What `PROPPATCH` comes to next.
pub enum PatchStep {
    Answer(Outcome),
    /// Set the modified time of a sidecar, where one was given, then answer.
    Sidecar(Option<i64>, Outcome),
    /// Set the modified time on the other device.
    SetMtime(SetMtime),
}

/// A modified time that is to be set.
pub struct SetMtime {
    pub path: RemotePath,
    pub when: i64,
    /// The answer once it is set.
    pub done: Outcome,
}

/// The moment that a body gives as the modified time.
pub open spec fn patched_time(body: Seq<u8>) -> Option<int> {
    match time_value(properties(lossy_utf8(body))) {
        None => None,
        Some(text) => spelled_moment(text),
    }
}

/// The answer once a body's modified time is set: one that was read is
/// accepted, everything else is refused.
pub open spec fn patched_answer(target: Seq<char>, body: Seq<u8>) -> OutcomeView {
    let names = names_of(properties(lossy_utf8(body)));
    let dated = patched_time(body) is Some;
    only_reply(
        xml_view(
            "207 Multi-Status"@,
            patched_text(target, false, accepted_names(names, dated), refused_names(names, dated)),
        ),
    )
}

/// A number that was read, as the moment it stands for.
pub open spec fn as_moment(when: Option<i64>) -> Option<int> {
    match when {
        None => None,
        Some(w) => Some(w as int),
    }
}

/// `PROPPATCH`: sets the modified time where the body gives one that can be
/// read. A modified time that cannot be read is refused, as every other
/// property is.
pub fn proppatch_verb(
    target: &str,
    if_header: Option<&str>,
    body: &[u8],
    locks: &LockTable,
    now: u64,
) -> (step: PatchStep)
    requires
        locks.wf(),
    ensures
        if !write_allowed(locks@, target@, optional(if_header), now) {
            step matches PatchStep::Answer(o) && o@ == plain("423 Locked"@)
        } else if probe_name(segment_of(target@)) {
            step matches PatchStep::Sidecar(when, o) && as_moment(when) == patched_time(body@)
                && o@ == patched_answer(target@, body@)
        } else {
            match path_of(target@) {
                None => step matches PatchStep::Answer(o) && o@ == plain("404 Not Found"@),
                Some(path) => match patched_time(body@) {
                    None => step matches PatchStep::Answer(o) && o@ == patched_answer(
                        target@,
                        body@,
                    ),
                    Some(when) => step matches PatchStep::SetMtime(s) && s.path@ == path && s.when
                        == when && s.done@ == patched_answer(target@, body@),
                },
            }
        },
{
    if !locks.allows(target, if_header, now) {
        return PatchStep::Answer(answer("423 Locked"));
    }
    let patch = read_proppatch(body);
    let mtime: Option<i64> = match &patch.mtime_text {
        None => None,
        Some(text) => parse_rfc1123(text.as_str()),
    };
    let (accepted, refused) = parted(&patch.names, mtime.is_some());
    let xml = proppatch_multistatus(target, false, &accepted, &refused);
    let done = just(xml_reply("207 Multi-Status", xml.as_str()));
    if is_probe_name(last_segment(target)) {
        return PatchStep::Sidecar(mtime, done);
    }
    let path = match target_path(target) {
        None => {
            return PatchStep::Answer(answer("404 Not Found"));
        },
        Some(path) => path,
    };
    match mtime {
        None => PatchStep::Answer(done),
        Some(when) => PatchStep::SetMtime(SetMtime { path, when, done }),
    }
}

impl SetMtime {
    /// The other device set the time, or did not.
    pub fn answered(self, set: Result<(), RpcError>) -> (outcome: Outcome)
        ensures
            outcome@ == (match set {
                Ok(_) => self.done@,
                Err(e) => write_failed(e),
            }),
    {
        match set {
            Ok(_) => self.done,
            Err(e) => after_failed_write(&e),
        }
    }
}

/// A time that reads as a date is set on the very file that was named, to that
/// moment; without one nothing is set, and a locked file is left alone.
pub proof fn lemma_time_is_set_as_asked(
    target: &str,
    if_header: Option<&str>,
    body: &[u8],
    locks: &LockTable,
    now: u64,
    step: PatchStep,
    moment: int,
    path: Seq<char>,
)
    requires
        call_ensures(proppatch_verb, (target, if_header, body, locks, now), step),
        1 <= crate::dates::year_of(moment) <= 9999,
        path_of(target@) == Some(path),
        !probe_name(segment_of(target@)),
    ensures
        !write_allowed(locks@, target@, optional(if_header), now) ==> step is Answer,
        write_allowed(locks@, target@, optional(if_header), now) && time_value(
            properties(lossy_utf8(body@)),
        ) == Some(crate::calendar::rfc1123_of(moment)) ==> (step matches PatchStep::SetMtime(s)
            && s.path@ == path && s.when == moment),
        time_value(properties(lossy_utf8(body@))) is None ==> !(step is SetMtime),
{
    let text = crate::calendar::rfc1123_of(moment);
    assert(crate::dates::spells(text, moment));
    let read = choose|secs: int| crate::dates::spells(text, secs);
    crate::dates::lemma_date_reads_back(read, moment);
}

/// What the file system answered is what the client is told: the properties as
/// they were accepted where the time was set, and the failure where it was not.
pub proof fn lemma_set_time_is_answered(
    patch: SetMtime,
    set: Result<(), RpcError>,
    outcome: Outcome,
)
    requires
        call_ensures(SetMtime::answered, (patch, set), outcome),
    ensures
        set is Ok ==> outcome@ == patch.done@,
        set matches Err(e) ==> outcome@.reply.status == crate::dav::errors::write_status(e),
{
}

} // verus!
