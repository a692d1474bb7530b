//! The file operations a paired device answers.
//!
//! Each opens with the same checks, in the same order, and only then borrows
//! a connection. What comes back is handed to the call, which says what is
//! returned and what is left in the access log.

use crate::core_errors::RpcError;
use crate::dav::reply::{log_of, Logged, LoggedView};
use crate::engine::state::Engine;
use crate::errors::{failed, from_path, is_failed, path_code, rpc_code};
use crate::folder::{entry_views, fresh_paging, paged_to, with_one_page, Paged, Paging};
use crate::limits::{MAX_READ_LEN, MAX_WRITE_LEN};
use crate::path::{components, joined, path_problem, RemotePath};
use crate::peers::{is_key_hex, is_paired, key_from_hex, PeerView};
use crate::pool::{after_failed_call, keeps_connection, Pool};
use crate::seqs::{len_u32, sat32};
use crate::text::copy_of;
use crate::types::{AccessVerb, Entry, EngineListener, FerryError};
use vstd::prelude::*;

verus! {

/// Why a call is refused before anything reaches the wire: the path first,
/// then the key, then whether the engine runs, then whether the device is
/// paired.
pub open spec fn call_problem(
    path: Seq<char>,
    key: Seq<char>,
    started: bool,
    peers: Seq<PeerView>,
) -> Option<Seq<char>> {
    match path_problem(path) {
        Some(problem) => Some(path_code(problem)),
        None => if !is_key_hex(key) {
            Some("Runtime::NotPaired"@)
        } else if !started {
            Some("Runtime::NotStarted"@)
        } else if !is_paired(peers, key) {
            Some("Runtime::NotPaired"@)
        } else {
            None
        },
    }
}

/// What is asked of the other device.
pub enum Ask {
    Stat,
    Read { offset: u64, want: u32 },
    Write { offset: u64, bytes: Vec<u8> },
    Truncate { len: u64 },
    Mkdir,
    Delete,
    Rename { to: RemotePath },
}

/// A call that may go to the wire.
pub struct Call {
    pub device_key_hex: String,
    pub path: RemotePath,
    pub ask: Ask,
}

/// The call is about this path on this device.
pub open spec fn is_call(call: Call, device: Seq<char>, path: Seq<char>) -> bool {
    call.device_key_hex@ == device && call.path@ == joined(components(path))
}

/// A call that failed on the wire.
pub struct CallFailed {
    pub error: FerryError,
    /// The connection must not be used again.
    pub unhealthy: bool,
}

/// What a failed call comes to.
pub open spec fn failed_call(f: CallFailed, error: RpcError) -> bool {
    is_failed(f.error, rpc_code(error)) && f.unhealthy == !keeps_connection(error)
}

fn call_failed(error: &RpcError) -> (f: CallFailed)
    ensures
        failed_call(f, *error),
{
    let (error, unhealthy) = after_failed_call(error);
    CallFailed { error, unhealthy }
}

/// A listing that is on its way.
pub struct ListCall {
    pub device_key_hex: String,
    pub path: RemotePath,
    pub paging: Paging,
}

/// What a page of a listing leads to.
pub enum ListStep {
    /// Ask for the next page.
    More(ListCall),
    /// The listing is whole. The entry goes to the access log.
    Done(Vec<Entry>, Logged),
    Failed(CallFailed),
    /// The folder is over its bounds.
    TooLarge(FerryError),
}

impl ListCall {
    /// Where the page that is wanted next begins.
    pub fn cursor(&self) -> (cursor: u64)
        ensures
            cursor == self.paging@.cursor,
    {
        self.paging.cursor()
    }

    /// A page came, or did not.
    pub fn page(self, page: Result<(Vec<Entry>, Option<u64>), RpcError>) -> (step: ListStep)
        requires
            self.paging.wf(),
        ensures
            match page {
                Err(e) => step matches ListStep::Failed(f) && failed_call(f, e),
                Ok((entries, next)) => {
                    let view = entry_views(entries@);
                    match paged_to(self.paging@, view, next) {
                        Paged::TooLarge => step matches ListStep::TooLarge(e) && is_failed(
                            e,
                            "Runtime::FolderTooLarge"@,
                        ),
                        Paged::More => step matches ListStep::More(call) && call.paging.wf()
                            && call.paging@ == with_one_page(self.paging@, view, next)
                            && call.device_key_hex@ == self.device_key_hex@ && call.path@
                            == self.path@,
                        Paged::Whole => step matches ListStep::Done(all, logged) && entry_views(
                            all@,
                        ) == self.paging@.entries + view && logged@ == (LoggedView {
                            entries: Some(sat32(all@.len())),
                            ..log_of(AccessVerb::List, self.path@)
                        }),
                    }
                },
            },
    {
        let (entries, next) = match page {
            Err(e) => {
                return ListStep::Failed(call_failed(&e));
            },
            Ok(p) => p,
        };
        let mut paging = self.paging;
        match paging.take(entries, next) {
            Paged::TooLarge => ListStep::TooLarge(failed("Runtime::FolderTooLarge")),
            Paged::More => ListStep::More(
                ListCall { device_key_hex: self.device_key_hex, path: self.path, paging },
            ),
            Paged::Whole => {
                let all = paging.into_entries();
                let logged = Logged {
                    verb: AccessVerb::List,
                    path: copy_of(self.path.as_str()),
                    bytes: None,
                    entries: Some(len_u32(all.len())),
                    files: None,
                };
                ListStep::Done(all, logged)
            },
        }
    }
}

/// The entry that a call leaves in the access log. A rename is filed under
/// where the file ended up.
pub open spec fn call_log(call: Call, moved: Option<u64>) -> LoggedView {
    match call.ask {
        Ask::Stat => log_of(AccessVerb::Stat, call.path@),
        Ask::Read { .. } => LoggedView { bytes: moved, ..log_of(AccessVerb::Read, call.path@) },
        Ask::Write { .. } => LoggedView { bytes: moved, ..log_of(AccessVerb::Write, call.path@) },
        Ask::Truncate { .. } => log_of(AccessVerb::Truncate, call.path@),
        Ask::Mkdir => log_of(AccessVerb::Mkdir, call.path@),
        Ask::Delete => log_of(AccessVerb::Delete, call.path@),
        Ask::Rename { to } => log_of(AccessVerb::Rename, to@),
    }
}

impl Call {
    /// The other device answered. `moved` is how many bytes it gave or took.
    pub fn answered(self, answer: Result<Option<u64>, RpcError>) -> (done: Result<
        Logged,
        CallFailed,
    >)
        ensures
            match answer {
                Ok(moved) => done matches Ok(logged) && logged@ == call_log(self, moved),
                Err(e) => done matches Err(f) && failed_call(f, e),
            },
    {
        let moved: Option<u64> = match answer {
            Err(e) => {
                return Err(call_failed(&e));
            },
            Ok(moved) => moved,
        };
        let mut path = copy_of(self.path.as_str());
        let mut bytes: Option<u64> = None;
        let verb = match self.ask {
            Ask::Stat => AccessVerb::Stat,
            Ask::Read { .. } => {
                bytes = moved;
                AccessVerb::Read
            },
            Ask::Write { .. } => {
                bytes = moved;
                AccessVerb::Write
            },
            Ask::Truncate { .. } => AccessVerb::Truncate,
            Ask::Mkdir => AccessVerb::Mkdir,
            Ask::Delete => AccessVerb::Delete,
            Ask::Rename { to } => {
                path = copy_of(to.as_str());
                AccessVerb::Rename
            },
        };
        Ok(Logged { verb, path, bytes, entries: None, files: None })
    }
}

impl<L: EngineListener> Engine<L> {
    /// The checks that every call makes before it touches the wire.
    pub fn remote_call(&self, device_key_hex: &str, remote_path: &str) -> (checked: Result<
        RemotePath,
        FerryError,
    >)
        requires
            self.wf(),
        ensures
            match checked {
                Ok(path) => call_problem(
                    remote_path@,
                    device_key_hex@,
                    self.running.started,
                    self.peers@,
                ) is None && path@ == joined(components(remote_path@)),
                Err(e) => call_problem(
                    remote_path@,
                    device_key_hex@,
                    self.running.started,
                    self.peers@,
                ) matches Some(code) && is_failed(e, code),
            },
    {
        let path = match RemotePath::parse(remote_path) {
            Err(e) => {
                return Err(from_path(e));
            },
            Ok(path) => path,
        };
        let reads = key_from_hex(device_key_hex);
        if reads.is_none() {
            return Err(failed("Runtime::NotPaired"));
        }
        assert(is_key_hex(device_key_hex@));
        if !self.running.started {
            return Err(failed("Runtime::NotStarted"));
        }
        if !self.peers.contains(device_key_hex) {
            return Err(failed("Runtime::NotPaired"));
        }
        Ok(path)
    }

    /// Makes the device's pool of connections, where it has none. Only a
    /// paired device has one.
    pub fn pool_for(&mut self, device_key_hex: &str) -> (pooled: Result<(), FerryError>)
        requires
            old(self).wf(),
        ensures
            final(self).wf(),
            *final(self) == (Engine { pools: final(self).pools, ..*old(self) }),
            match pooled {
                Ok(_) => is_paired(old(self).peers@, device_key_hex@) && (if old(
                    self,
                ).pools@.contains_key(device_key_hex@) {
                    final(self).pools == old(self).pools
                } else {
                    &&& final(self).pools@ == old(self).pools@.insert(
                        device_key_hex@,
                        final(self).pools@[device_key_hex@],
                    )
                    &&& final(self).pools@[device_key_hex@].is_new()
                }),
                Err(e) => !is_paired(old(self).peers@, device_key_hex@) && final(self).pools == old(
                    self,
                ).pools && is_failed(e, "Runtime::NotPaired"@),
            },
    {
        if !self.peers.contains(device_key_hex) {
            return Err(failed("Runtime::NotPaired"));
        }
        if !self.pools.contains(device_key_hex) {
            self.pools.insert(device_key_hex, Pool::new());
        }
        Ok(())
    }

    fn call(&self, device_key_hex: &str, remote_path: &str, ask: Ask) -> (call: Result<
        Call,
        FerryError,
    >)
        requires
            self.wf(),
        ensures
            match call {
                Ok(c) => call_problem(
                    remote_path@,
                    device_key_hex@,
                    self.running.started,
                    self.peers@,
                ) is None && is_call(c, device_key_hex@, remote_path@) && c.ask == ask,
                Err(e) => call_problem(
                    remote_path@,
                    device_key_hex@,
                    self.running.started,
                    self.peers@,
                ) matches Some(code) && is_failed(e, code),
            },
    {
        match self.remote_call(device_key_hex, remote_path) {
            Err(e) => Err(e),
            Ok(path) => Ok(Call { device_key_hex: copy_of(device_key_hex), path, ask }),
        }
    }

    /// Lists every entry in one folder, page by page.
    pub fn list(&self, device_key_hex: &str, remote_path: &str) -> (call: Result<
        ListCall,
        FerryError,
    >)
        requires
            self.wf(),
        ensures
            match call {
                Ok(c) => call_problem(
                    remote_path@,
                    device_key_hex@,
                    self.running.started,
                    self.peers@,
                ) is None && c.device_key_hex@ == device_key_hex@ && c.path@ == joined(
                    components(remote_path@),
                ) && c.paging.wf() && c.paging@ == fresh_paging(),
                Err(e) => call_problem(
                    remote_path@,
                    device_key_hex@,
                    self.running.started,
                    self.peers@,
                ) matches Some(code) && is_failed(e, code),
            },
    {
        match self.remote_call(device_key_hex, remote_path) {
            Err(e) => Err(e),
            Ok(path) => Ok(
                ListCall {
                    device_key_hex: copy_of(device_key_hex),
                    path,
                    paging: Paging::new(),
                },
            ),
        }
    }

    /// Describes one file or folder.
    pub fn stat(&self, device_key_hex: &str, remote_path: &str) -> (call: Result<Call, FerryError>)
        requires
            self.wf(),
        ensures
            match call {
                Ok(c) => call_problem(
                    remote_path@,
                    device_key_hex@,
                    self.running.started,
                    self.peers@,
                ) is None && is_call(c, device_key_hex@, remote_path@) && c.ask == Ask::Stat,
                Err(e) => call_problem(
                    remote_path@,
                    device_key_hex@,
                    self.running.started,
                    self.peers@,
                ) matches Some(code) && is_failed(e, code),
            },
    {
        self.call(device_key_hex, remote_path, Ask::Stat)
    }

    /// Reads a range of bytes. A longer range than one read may carry is cut
    /// short, not refused.
    pub fn read_at(&self, device_key_hex: &str, remote_path: &str, offset: u64, len: u32) -> (call:
        Result<Call, FerryError>)
        requires
            self.wf(),
        ensures
            match call {
                Ok(c) => call_problem(
                    remote_path@,
                    device_key_hex@,
                    self.running.started,
                    self.peers@,
                ) is None && is_call(c, device_key_hex@, remote_path@) && c.ask == (Ask::Read {
                    offset,
                    want: if len > MAX_READ_LEN {
                        MAX_READ_LEN
                    } else {
                        len
                    },
                }),
                Err(e) => call_problem(
                    remote_path@,
                    device_key_hex@,
                    self.running.started,
                    self.peers@,
                ) matches Some(code) && is_failed(e, code),
            },
    {
        let want: u32 = if len > MAX_READ_LEN {
            MAX_READ_LEN
        } else {
            len
        };
        self.call(device_key_hex, remote_path, Ask::Read { offset, want })
    }

    /// Writes a range of bytes. More than one write may carry is refused
    /// before anything reaches the wire.
    pub fn write_at(
        &self,
        device_key_hex: &str,
        remote_path: &str,
        offset: u64,
        bytes: Vec<u8>,
    ) -> (call: Result<Call, FerryError>)
        requires
            self.wf(),
        ensures
            match call {
                Ok(c) => call_problem(
                    remote_path@,
                    device_key_hex@,
                    self.running.started,
                    self.peers@,
                ) is None && bytes@.len() <= MAX_WRITE_LEN && is_call(
                    c,
                    device_key_hex@,
                    remote_path@,
                ) && c.ask == (Ask::Write { offset, bytes }),
                Err(e) => match call_problem(
                    remote_path@,
                    device_key_hex@,
                    self.running.started,
                    self.peers@,
                ) {
                    Some(code) => is_failed(e, code),
                    None => bytes@.len() > MAX_WRITE_LEN && is_failed(
                        e,
                        "Runtime::WriteTooLarge"@,
                    ),
                },
            },
    {
        let path = match self.remote_call(device_key_hex, remote_path) {
            Err(e) => {
                return Err(e);
            },
            Ok(path) => path,
        };
        if bytes.len() > MAX_WRITE_LEN as usize {
            return Err(failed("Runtime::WriteTooLarge"));
        }
        Ok(
            Call {
                device_key_hex: copy_of(device_key_hex),
                path,
                ask: Ask::Write { offset, bytes },
            },
        )
    }

    /// Sets a file's length.
    pub fn truncate(&self, device_key_hex: &str, remote_path: &str, len: u64) -> (call: Result<
        Call,
        FerryError,
    >)
        requires
            self.wf(),
        ensures
            match call {
                Ok(c) => call_problem(
                    remote_path@,
                    device_key_hex@,
                    self.running.started,
                    self.peers@,
                ) is None && is_call(c, device_key_hex@, remote_path@) && c.ask == (
                Ask::Truncate { len }),
                Err(e) => call_problem(
                    remote_path@,
                    device_key_hex@,
                    self.running.started,
                    self.peers@,
                ) matches Some(code) && is_failed(e, code),
            },
    {
        self.call(device_key_hex, remote_path, Ask::Truncate { len })
    }

    /// Makes one folder. Its parent must be there already.
    pub fn mkdir(&self, device_key_hex: &str, remote_path: &str) -> (call: Result<Call, FerryError>)
        requires
            self.wf(),
        ensures
            match call {
                Ok(c) => call_problem(
                    remote_path@,
                    device_key_hex@,
                    self.running.started,
                    self.peers@,
                ) is None && is_call(c, device_key_hex@, remote_path@) && c.ask == Ask::Mkdir,
                Err(e) => call_problem(
                    remote_path@,
                    device_key_hex@,
                    self.running.started,
                    self.peers@,
                ) matches Some(code) && is_failed(e, code),
            },
    {
        self.call(device_key_hex, remote_path, Ask::Mkdir)
    }

    /// Deletes one file, or one empty folder.
    pub fn delete(&self, device_key_hex: &str, remote_path: &str) -> (call: Result<
        Call,
        FerryError,
    >)
        requires
            self.wf(),
        ensures
            match call {
                Ok(c) => call_problem(
                    remote_path@,
                    device_key_hex@,
                    self.running.started,
                    self.peers@,
                ) is None && is_call(c, device_key_hex@, remote_path@) && c.ask == Ask::Delete,
                Err(e) => call_problem(
                    remote_path@,
                    device_key_hex@,
                    self.running.started,
                    self.peers@,
                ) matches Some(code) && is_failed(e, code),
            },
    {
        self.call(device_key_hex, remote_path, Ask::Delete)
    }

    /// Moves or renames a file or folder.
    pub fn rename(&self, device_key_hex: &str, from: &str, to: &str) -> (call: Result<
        Call,
        FerryError,
    >)
        requires
            self.wf(),
        ensures
            match call {
                Ok(c) => call_problem(
                    from@,
                    device_key_hex@,
                    self.running.started,
                    self.peers@,
                ) is None && path_problem(to@) is None && is_call(c, device_key_hex@, from@) && (
                c.ask matches Ask::Rename { to: t } && t@ == joined(components(to@))),
                Err(e) => match call_problem(
                    from@,
                    device_key_hex@,
                    self.running.started,
                    self.peers@,
                ) {
                    Some(code) => is_failed(e, code),
                    None => path_problem(to@) matches Some(problem) && is_failed(
                        e,
                        path_code(problem),
                    ),
                },
            },
    {
        let path = match self.remote_call(device_key_hex, from) {
            Err(e) => {
                return Err(e);
            },
            Ok(path) => path,
        };
        let destination = match RemotePath::parse(to) {
            Err(e) => {
                return Err(from_path(e));
            },
            Ok(d) => d,
        };
        Ok(
            Call {
                device_key_hex: copy_of(device_key_hex),
                path,
                ask: Ask::Rename { to: destination },
            },
        )
    }
}

/// Whatever a caller asks, a device that is not paired is never dialed.
pub proof fn lemma_only_paired_devices_are_dialed(
    path: Seq<char>,
    key: Seq<char>,
    started: bool,
    peers: Seq<PeerView>,
)
    requires
        !is_paired(peers, key) || !started,
    ensures
        call_problem(path, key, started, peers) is Some,
{
}

/// A call goes to the device that was named, for the path that was named, and
/// asks for what the app asked for. A read asks for no more than the app did,
/// and a write carries all of its bytes.
pub proof fn lemma_calls_ask_for_what_was_asked<L: EngineListener>(
    engine: &Engine<L>,
    key: &str,
    path: &str,
    offset: u64,
    len: u32,
    bytes: Vec<u8>,
    size: u64,
    stat: Call,
    read: Call,
    write: Call,
    cut: Call,
    made: Call,
    gone: Call,
)
    requires
        call_ensures(Engine::<L>::stat, (engine, key, path), Ok::<Call, FerryError>(stat)),
        call_ensures(
            Engine::<L>::read_at,
            (engine, key, path, offset, len),
            Ok::<Call, FerryError>(read),
        ),
        call_ensures(
            Engine::<L>::write_at,
            (engine, key, path, offset, bytes),
            Ok::<Call, FerryError>(write),
        ),
        call_ensures(
            Engine::<L>::truncate,
            (engine, key, path, size),
            Ok::<Call, FerryError>(cut),
        ),
        call_ensures(Engine::<L>::mkdir, (engine, key, path), Ok::<Call, FerryError>(made)),
        call_ensures(Engine::<L>::delete, (engine, key, path), Ok::<Call, FerryError>(gone)),
    ensures
        is_paired(engine.peers@, key@),
        engine.running.started,
        forall|call: Call|
            #![trigger call.path@]
            call == stat || call == read || call == write || call == cut || call == made || call
                == gone ==> call.device_key_hex@ == key@ && components(call.path@) == components(
                path@,
            ) && (joined(components(path@)) == path@ ==> call.path@ == path@),
        stat.ask is Stat,
        read.ask matches Ask::Read { offset: o, want } && o == offset && want <= len && want
            <= MAX_READ_LEN && (len <= MAX_READ_LEN ==> want == len),
        write.ask matches Ask::Write { offset: o, bytes: b } && o == offset && b@ == bytes@,
        cut.ask matches Ask::Truncate { len: n } && n == size,
        made.ask is Mkdir,
        gone.ask is Delete,
{
    crate::path::lemma_components_are_names(path@);
    crate::path::lemma_parts_read_back(components(path@));
}

/// A rename goes from the first path to the second, on the device that was
/// named.
pub proof fn lemma_rename_goes_from_to<L: EngineListener>(
    engine: &Engine<L>,
    key: &str,
    from: &str,
    to: &str,
    call: Call,
)
    requires
        call_ensures(Engine::<L>::rename, (engine, key, from, to), Ok::<Call, FerryError>(call)),
    ensures
        is_paired(engine.peers@, key@),
        call.device_key_hex@ == key@,
        components(call.path@) == components(from@),
        call.ask matches Ask::Rename { to: t } && components(t@) == components(to@),
        joined(components(from@)) == from@ ==> call.path@ == from@,
        joined(components(to@)) == to@ ==> (call.ask matches Ask::Rename { to: t } && t@ == to@),
{
    crate::path::lemma_components_are_names(from@);
    crate::path::lemma_parts_read_back(components(from@));
    crate::path::lemma_components_are_names(to@);
    crate::path::lemma_parts_read_back(components(to@));
}

/// A call that worked is logged as what it was, where it was; one that failed
/// is told to the app, and its connection is kept only where the other device
/// itself refused.
pub proof fn lemma_calls_are_logged(
    call: Call,
    answer: Result<Option<u64>, RpcError>,
    done: Result<Logged, CallFailed>,
)
    requires
        call_ensures(Call::answered, (call, answer), done),
    ensures
        done is Ok <==> answer is Ok,
        done matches Ok(logged) ==> match call.ask {
            Ask::Stat => logged@.verb == AccessVerb::Stat && logged@.path == call.path@,
            Ask::Read { .. } => logged@.verb == AccessVerb::Read && logged@.path == call.path@
                && Ok::<Option<u64>, RpcError>(logged@.bytes) == answer,
            Ask::Write { .. } => logged@.verb == AccessVerb::Write && logged@.path == call.path@
                && Ok::<Option<u64>, RpcError>(logged@.bytes) == answer,
            Ask::Truncate { .. } => logged@.verb == AccessVerb::Truncate && logged@.path
                == call.path@,
            Ask::Mkdir => logged@.verb == AccessVerb::Mkdir && logged@.path == call.path@,
            Ask::Delete => logged@.verb == AccessVerb::Delete && logged@.path == call.path@,
            Ask::Rename { to } => logged@.verb == AccessVerb::Rename && logged@.path == to@,
        },
        done matches Err(f) ==> is_failed(f.error, rpc_code(answer->Err_0)),
        done matches Err(f) ==> (!(answer->Err_0 is Remote) ==> f.unhealthy),
{
}

/// A listing is all of its pages, one after another.
pub proof fn lemma_listing_is_whole(
    call: ListCall,
    entries: Vec<Entry>,
    all: Vec<Entry>,
    logged: Logged,
)
    requires
        call_ensures(
            ListCall::page,
            (call, Ok::<(Vec<Entry>, Option<u64>), RpcError>((entries, None))),
            ListStep::Done(all, logged),
        ),
    ensures
        entry_views(all@) == call.paging@.entries + entry_views(entries@),
        logged@.verb == AccessVerb::List,
        logged@.path == call.path@,
{
}

} // verus!
