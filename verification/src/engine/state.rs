//! The engine's state, and what it is told at construction.

use crate::access::codec::{EntryFields, FieldsView};
use crate::access::rollup::{is_fresh, pending_views, Pending, PendingView, RollUp};
use crate::auto_copy::AutoCopyStore;
use crate::core_errors::NoiseError;
use crate::dav::mounts::{Mount, MountRegistry};
use crate::dav::reply::{Logged, LoggedView};
use crate::engine::addr::Addr;
use crate::engine::discovery::{last_four, last_four_of, Discovery, UsbForward};
use crate::engine::inbound::InboundSlots;
use crate::engine::live::LiveTable;
use crate::engine::pairing::{open_to_pairing, Pairing, PairingView};
use crate::engine::shown::{copy_state, runs};
use crate::errors::{
    bad_config, chunk_size_code, failed, from_chunk_size, from_noise, is_failed, is_failed_with,
    noise_code,
};
use crate::held::HeldStore;
use crate::limits::{BACKOFF_MIN_MS, CHUNK_SIZE};
use crate::manifest::{check_chunk_size, chunk_size_problem};
use crate::networks::{
    browse_allowed_rule, may_browse, wifi_presence_rule, TrustedNetworks,
};
use crate::notify::{
    due_reports, report_if, Change, Due, Notify, Outbox, ReportView, Slot, HOLD_FOUND_MS, HOLD_MS,
};
use crate::peers::{Peers, MAX_NAME_LEN};
use crate::pool::Pool;
use crate::text::{copy_of, copy_opt, opt_view};
use crate::textmap::TextMap;
use crate::transfers::Transfers;
use crate::types::{
    Actor, Config, DeviceKind, EngineListener, FerryError, KeyPair, Root, Status,
};
use vstd::prelude::*;
use vstd::string::StringSliceAdditionalSpecFns;
use vstd::utf8::encode_utf8;
use zeroize::Zeroize;

verus! {

/// How long pairing runs before it gives up, in milliseconds.
pub const PAIRING_TIMEOUT_MS: u64 = 120_000;

/// How often the engine asks `adb` which devices are plugged in, in
/// milliseconds.
pub const ADB_POLL_MS: u64 = 3_000;

/// How often the access log is pruned, in milliseconds.
pub const ACCESS_LOG_PRUNE_MS: u64 = 3_600_000;

/// How long discovery waits for one event before it looks whether it has to
/// stop, in milliseconds.
pub const BROWSE_TICK_MS: u64 = 400;

/// How long the exchange of names after a confirm may take, in milliseconds.
pub const FINISH_PAIRING_DEADLINE_MS: u64 = 10_000;

/// How often the wait for the exchange of names looks whether it has to stop,
/// in milliseconds.
pub const FINISH_PAIRING_TICK_MS: u64 = 50;

/// What can be set while the engine runs.
#[derive(Debug)]
pub struct Settings {
    /// The name sent in `hello`.
    pub display_name: String,
    pub kind: DeviceKind,
    /// The port to bind, or zero for any free one.
    pub listen_port: u16,
    pub adb_present: bool,
    /// The roots as they were given, not opened.
    pub initial_roots: Vec<Root>,
    /// Where a pulled file lands.
    pub download_dir: String,
    pub pairing_timeout: u64,
    pub backoff_min: u64,
    pub list_cache_ttl: u64,
    pub chunk_size: u32,
    /// The byte count the next dial fails at.
    pub cut: Option<u64>,
}

/// What runs.
#[derive(Debug)]
pub struct Running {
    pub started: bool,
    pub stopped: bool,
    /// The person's own switch.
    pub reachable: bool,
    pub listen_addr: Option<Addr>,
    /// The name this device is announced under, while it is.
    pub advertised: Option<String>,
    /// The name of the Wi-Fi network, where the app knows it.
    pub network: Option<String>,
    /// The roots that are open.
    pub roots: Option<Vec<Root>>,
    /// The download folder is open.
    pub download_open: bool,
    pub workers: u64,
    pub wire_bytes: u64,
    pub next_connection: u64,
}

/// The engine.
pub struct Engine<L: EngineListener> {
    pub notify: Notify<L>,
    pub settings: Settings,
    pub running: Running,
    pub peers: Peers,
    pub live: LiveTable,
    pub transfers: Transfers,
    pub pairing: Pairing,
    pub trusted: TrustedNetworks,
    pub discovery: Discovery,
    pub auto_copy: AutoCopyStore,
    /// The devices with an automatic copy on its way.
    pub copying: TextMap<()>,
    pub held: HeldStore,
    /// The access log's open entries, once the log is open.
    pub access: Option<RollUp>,
    pub mounts: MountRegistry,
    pub pools: TextMap<Pool>,
    pub inbound: InboundSlots,
}

/// What an earlier run left behind.
pub struct Stored {
    pub peers: Peers,
    pub trusted: TrustedNetworks,
    pub auto_copy: AutoCopyStore,
    pub held: HeldStore,
}

/// Every open entry of the access log belongs to a connection that was
/// handed out.
pub open spec fn connections_below(pending: Seq<PendingView>, next: u64) -> bool {
    forall|i: int| 0 <= i < pending.len() ==> (#[trigger] pending[i]).connection < next
}

/// Something waits to be reported.
pub open spec fn marked(outbox: Outbox, change: Change) -> Outbox {
    outbox.with(change, Slot { waiting: true, ..outbox.slot(change) })
}

/// What the device does over Wi-Fi.
#[derive(Debug, Clone, Copy, PartialEq, Eq, Structural)]
pub struct Presence {
    /// It announces itself, and lets others connect.
    pub advertise: bool,
    /// It looks for others.
    pub browse: bool,
}

/// Why storage, or the network, could not be opened.
#[derive(Debug, Clone, Copy, PartialEq, Eq, Structural)]
pub enum OpenFailure {
    DataDir,
    TransfersDir,
    BatchesDir,
    Peers,
    LockFile,
    LockHeld,
    LockRefused,
    DownloadMade,
    DownloadOpened,
    AccessLog,
    Port,
}

/// What is said of a failure to open something.
pub open spec fn open_failure_text(failure: OpenFailure) -> Seq<char> {
    match failure {
        OpenFailure::DataDir => "The engine's own folder could not be made."@,
        OpenFailure::TransfersDir => "The transfers folder could not be made."@,
        OpenFailure::BatchesDir => "The batches folder could not be made."@,
        OpenFailure::Peers => "The paired device list could not be read."@,
        OpenFailure::LockFile => "The lock file could not be opened."@,
        OpenFailure::LockHeld => "Another copy of Ferry is running. Quit it and try again."@,
        OpenFailure::LockRefused => "The lock file could not be locked."@,
        OpenFailure::DownloadMade => "The download folder could not be made."@,
        OpenFailure::DownloadOpened => "The download folder could not be opened."@,
        OpenFailure::AccessLog => "The access log folder could not be opened."@,
        OpenFailure::Port => "The network port could not be opened."@,
    }
}

/// The error for a failure to open something.
pub fn open_error(failure: OpenFailure) -> (error: FerryError)
    ensures
        is_failed_with(error, "Runtime::BadConfig"@, open_failure_text(failure)),
{
    match failure {
        OpenFailure::DataDir => bad_config("The engine's own folder could not be made."),
        OpenFailure::TransfersDir => bad_config("The transfers folder could not be made."),
        OpenFailure::BatchesDir => bad_config("The batches folder could not be made."),
        OpenFailure::Peers => bad_config("The paired device list could not be read."),
        OpenFailure::LockFile => bad_config("The lock file could not be opened."),
        OpenFailure::LockHeld => bad_config(
            "Another copy of Ferry is running. Quit it and try again.",
        ),
        OpenFailure::LockRefused => bad_config("The lock file could not be locked."),
        OpenFailure::DownloadMade => bad_config("The download folder could not be made."),
        OpenFailure::DownloadOpened => bad_config("The download folder could not be opened."),
        OpenFailure::AccessLog => bad_config("The access log folder could not be opened."),
        OpenFailure::Port => bad_config("The network port could not be opened."),
    }
}

/// Wipes a secret: `zeroize::Zeroize::zeroize` on a `Vec` overwrites its
/// bytes and its spare capacity with zeros, and leaves it empty. What is
/// claimed here is that it is empty afterwards.
#[verifier::external_body]
fn wipe(secret: &mut Vec<u8>)
    ensures
        final(secret)@.len() == 0,
{
    secret.zeroize();
}

/// Checks what can be checked of a configuration without touching the disk.
/// `key` says whether the key pair was usable. The private key is wiped
/// either way.
pub fn checked_config(config: Config, key: Result<(), NoiseError>) -> (checked: Result<
    Config,
    FerryError,
>)
    ensures
        match checked {
            Ok(c) => {
                &&& key is Ok
                &&& 0 < encode_utf8(config.display_name@).len() <= MAX_NAME_LEN
                &&& config.shared_roots@.len() > 0
                &&& c.key.private@.len() == 0
                &&& c == (Config {
                    key: KeyPair { private: c.key.private, ..config.key },
                    ..config
                })
            },
            Err(e) => match key {
                Err(noise) => is_failed(e, noise_code(noise)),
                Ok(_) => if encode_utf8(config.display_name@).len() == 0 || encode_utf8(
                    config.display_name@,
                ).len() > MAX_NAME_LEN {
                    is_failed(e, "Runtime::NameTooLong"@)
                } else {
                    config.shared_roots@.len() == 0 && is_failed_with(
                        e,
                        "Runtime::BadConfig"@,
                        "There must be at least one shared root."@,
                    )
                },
            },
        },
{
    let mut config = config;
    wipe(&mut config.key.private);
    match key {
        Err(noise) => {
            return Err(from_noise(&noise));
        },
        Ok(_) => {},
    }
    let len: usize = config.display_name.as_str().as_bytes().len();
    if len == 0 || len > MAX_NAME_LEN {
        return Err(failed("Runtime::NameTooLong"));
    }
    if config.shared_roots.len() == 0 {
        return Err(bad_config("There must be at least one shared root."));
    }
    Ok(config)
}

/// The other kind of device.
pub open spec fn other_kind(kind: DeviceKind) -> DeviceKind {
    match kind {
        DeviceKind::Mac => DeviceKind::Phone,
        DeviceKind::Phone => DeviceKind::Mac,
    }
}

/// What kind of device a peer is that was stored before the kind was: with
/// one Mac and one phone, always the other one.
pub fn assumed_peer_kind(kind: DeviceKind) -> (other: DeviceKind)
    ensures
        other == other_kind(kind),
{
    match kind {
        DeviceKind::Mac => DeviceKind::Phone,
        DeviceKind::Phone => DeviceKind::Mac,
    }
}

/// The same roots once more.
pub fn copy_roots(roots: &Vec<Root>) -> (copies: Vec<Root>)
    ensures
        root_views(copies@) == root_views(roots@),
{
    let ghost views = root_views(roots@);
    let mut copies: Vec<Root> = Vec::new();
    let mut i: usize = 0;
    assert(root_views(copies@) =~= views.take(0));
    while i < roots.len()
        invariant
            i <= roots@.len(),
            views == root_views(roots@),
            root_views(copies@) == views.take(i as int),
        decreases roots@.len() - i,
    {
        let copy = Root {
            name: copy_of(roots[i].name.as_str()),
            path: copy_of(roots[i].path.as_str()),
            writable: roots[i].writable,
        };
        let ghost so_far = root_views(copies@);
        let ghost here = root_view(copy);
        copies.push(copy);
        assert(root_views(copies@) =~= so_far.push(here));
        assert(views.take(i + 1) =~= so_far.push(here));
        i += 1;
    }
    assert(views.take(i as int) =~= views);
    copies
}

/// What a root says.
pub open spec fn root_view(root: Root) -> (Seq<char>, Seq<char>, bool) {
    (root.name@, root.path@, root.writable)
}

/// What some roots say.
pub open spec fn root_views(roots: Seq<Root>) -> Seq<(Seq<char>, Seq<char>, bool)> {
    roots.map_values(|r: Root| root_view(r))
}

/// The fields of an entry for something this device did.
pub open spec fn this_device(device: Seq<char>, logged: LoggedView) -> FieldsView {
    FieldsView {
        device,
        actor: Actor::This,
        verb: logged.verb,
        path: logged.path,
        bytes: logged.bytes,
        entries: logged.entries,
        files: logged.files,
    }
}

impl<L: EngineListener> Engine<L> {
    pub open spec fn wf(self) -> bool {
        &&& self.peers.wf()
        &&& self.live.wf()
        &&& self.transfers.wf()
        &&& self.pairing.wf()
        &&& self.trusted.wf()
        &&& self.discovery.wf()
        &&& self.auto_copy.wf()
        &&& self.copying.wf()
        &&& self.held.wf()
        &&& self.mounts.wf()
        &&& self.pools.wf()
        &&& self.inbound.wf()
        &&& self.settings.chunk_size > 0
        &&& (self.access matches Some(rollup) ==> rollup.wf() && connections_below(
            rollup@,
            self.running.next_connection,
        ))
    }

    /// There is a connection id that was not handed out.
    pub open spec fn has_ids(self) -> bool {
        self.running.next_connection < u64::MAX
    }

    /// Builds an engine over a configuration that was checked, and what an
    /// earlier run left behind.
    pub fn new(config: Config, stored: Stored, adb_present: bool, listener: L) -> (engine: Engine<L>)
        requires
            stored.peers.wf(),
            stored.trusted.wf(),
            stored.auto_copy.wf(),
            stored.held.wf(),
        ensures
            engine.wf(),
            engine.has_ids(),
            engine.peers == stored.peers,
            engine.trusted == stored.trusted,
            engine.auto_copy == stored.auto_copy,
            engine.held == stored.held,
            engine.settings.display_name == config.display_name,
            engine.settings.kind == config.kind,
            engine.settings.listen_port == config.listen_port,
            engine.settings.initial_roots == config.shared_roots,
            engine.settings.download_dir == config.download_dir,
            engine.settings.adb_present == adb_present,
            engine.settings.pairing_timeout == PAIRING_TIMEOUT_MS,
            engine.settings.backoff_min == BACKOFF_MIN_MS,
            engine.settings.list_cache_ttl == crate::dav::cache::TTL_MS,
            engine.settings.chunk_size == CHUNK_SIZE,
            engine.settings.cut is None,
            engine.running == (Running {
                started: false,
                stopped: false,
                reachable: false,
                listen_addr: None,
                advertised: None,
                network: None,
                roots: None,
                download_open: false,
                workers: 0,
                wire_bytes: 0,
                next_connection: 0,
            }),
            engine.live@ == Map::<Seq<char>, crate::engine::live::LiveView>::empty(),
            engine.pairing@ == crate::engine::pairing::idle_view(),
            engine.transfers.rows@.dom() =~= Set::<Seq<char>>::empty(),
            engine.transfers.batches@.dom() =~= Set::<Seq<char>>::empty(),
            engine.access is None,
            engine.notify.told_to() == Some(listener),
            engine.notify.reports() == Seq::<ReportView>::empty(),
            engine.notify.waiting() == (Outbox {
                devices: Slot { waiting: false, last: None, hold: HOLD_MS },
                transfers: Slot { waiting: false, last: None, hold: HOLD_MS },
                found: Slot { waiting: false, last: None, hold: HOLD_FOUND_MS },
                access_log: Slot { waiting: false, last: None, hold: HOLD_MS },
                timer: false,
            }),
            engine.inbound == (InboundSlots { alive: 0, accepted: 0 }),
            engine.copying@ == Map::<Seq<char>, ()>::empty(),
            engine.pools@ == Map::<Seq<char>, Pool>::empty(),
            engine.discovery.found@ == Seq::<Addr>::empty(),
            engine.discovery.forwards@ == Seq::<UsbForward>::empty(),
            engine.discovery.last_probe@ == Map::<Seq<char>, u64>::empty(),
            engine.discovery.probes == 0,
            engine.mounts.running() == Map::<Seq<char>, Mount>::empty(),
            engine.mounts.in_flight() == Set::<Seq<char>>::empty(),
            engine.mounts.spool_bytes.counted() == 0,
            !engine.mounts.spool_bytes.has_walked(),
    {
        Engine {
            notify: Notify::new(listener),
            settings: Settings {
                display_name: config.display_name,
                kind: config.kind,
                listen_port: config.listen_port,
                adb_present,
                initial_roots: config.shared_roots,
                download_dir: config.download_dir,
                pairing_timeout: PAIRING_TIMEOUT_MS,
                backoff_min: BACKOFF_MIN_MS,
                list_cache_ttl: crate::dav::cache::TTL_MS,
                chunk_size: CHUNK_SIZE,
                cut: None,
            },
            running: Running {
                started: false,
                stopped: false,
                reachable: false,
                listen_addr: None,
                advertised: None,
                network: None,
                roots: None,
                download_open: false,
                workers: 0,
                wire_bytes: 0,
                next_connection: 0,
            },
            peers: stored.peers,
            live: LiveTable::new(),
            transfers: Transfers::new(),
            pairing: Pairing::idle(),
            trusted: stored.trusted,
            discovery: Discovery::new(),
            auto_copy: stored.auto_copy,
            copying: TextMap::new(),
            held: stored.held,
            access: None,
            mounts: MountRegistry::new(),
            pools: TextMap::new(),
            inbound: InboundSlots::new(),
        }
    }

    /// What the device does over Wi-Fi, as the rules have it.
    pub open spec fn presence_rule(self) -> Presence {
        let browse = may_browse(
            self.trusted@,
            opt_view(self.running.network),
            runs(self.pairing@.shown),
        );
        if self.running.stopped {
            Presence { advertise: false, browse: false }
        } else {
            Presence { advertise: self.running.reachable && browse, browse }
        }
    }

    /// What the device does over Wi-Fi right now. Nothing once the engine has
    /// stopped.
    pub fn presence(&self) -> (presence: Presence)
        requires
            self.wf(),
        ensures
            presence == self.presence_rule(),
    {
        if self.running.stopped {
            return Presence { advertise: false, browse: false };
        }
        let network: Option<&str> = match &self.running.network {
            None => None,
            Some(name) => Some(name.as_str()),
        };
        let pairing = self.pairing.is_running();
        let names = self.trusted.names();
        Presence {
            advertise: wifi_presence_rule(self.running.reachable, names, network, pairing),
            browse: browse_allowed_rule(names, network, pairing),
        }
    }

    /// Everything this engine currently is.
    pub fn status(&self) -> (status: Status)
        ensures
            status.reachable == self.running.reachable,
            status.listen_port == (match self.running.listen_addr {
                Some(addr) => addr.port,
                None => 0,
            }),
            status.adb_present == self.settings.adb_present,
            opt_view(status.network) == opt_view(self.running.network),
            status.wifi_presence == (self.running.advertised is Some),
    {
        Status {
            reachable: self.running.reachable,
            listen_port: match self.running.listen_addr {
                Some(addr) => addr.port,
                None => 0,
            },
            adb_present: self.settings.adb_present,
            network: copy_opt(&self.running.network),
            wifi_presence: self.running.advertised.is_some(),
        }
    }

    /// The last four characters of the name this device is announced under,
    /// while it is.
    pub fn short_code(&self) -> (code: Option<String>)
        ensures
            opt_view(code) == (match self.running.advertised {
                Some(name) => Some(last_four_of(name@)),
                None => None,
            }),
    {
        match &self.running.advertised {
            None => None,
            Some(name) => Some(last_four(name.as_str())),
        }
    }

    /// The roots that are served, or that are going to be.
    pub fn roots(&self) -> (roots: Vec<Root>)
        ensures
            root_views(roots@) == (match self.running.roots {
                Some(open) => root_views(open@),
                None => root_views(self.settings.initial_roots@),
            }),
    {
        match &self.running.roots {
            Some(open) => copy_roots(open),
            None => copy_roots(&self.settings.initial_roots),
        }
    }

    /// Replaces the served roots, once they could be opened.
    pub fn set_roots(&mut self, roots: Vec<Root>)
        requires
            old(self).wf(),
        ensures
            final(self).wf(),
            *final(self) == (Engine {
                running: Running { roots: Some(roots), ..old(self).running },
                ..*old(self)
            }),
    {
        self.running.roots = Some(roots);
    }

    /// Changes where a pulled file lands, once the folder could be opened.
    pub fn set_download_dir(&mut self, path: String)
        requires
            old(self).wf(),
        ensures
            final(self).wf(),
            *final(self) == (Engine {
                settings: Settings { download_dir: path, ..old(self).settings },
                running: Running { download_open: true, ..old(self).running },
                ..*old(self)
            }),
    {
        self.settings.download_dir = path;
        self.running.download_open = true;
    }

    /// Announces this device and lets others connect, or stops doing both.
    pub fn set_reachable(&mut self, on: bool)
        requires
            old(self).wf(),
        ensures
            final(self).wf(),
            *final(self) == (Engine {
                running: Running { reachable: on, ..old(self).running },
                notify: final(self).notify,
                ..*old(self)
            }),
            final(self).notify.waiting() == marked(old(self).notify.waiting(), Change::Devices),
            final(self).notify.tells_as(old(self).notify),
    {
        self.running.reachable = on;
        self.notify.mark(Change::Devices);
    }

    /// A connection id that no other open connection has.
    pub fn next_connection_id(&mut self) -> (id: u64)
        requires
            old(self).wf(),
            old(self).has_ids(),
        ensures
            final(self).wf(),
            id == old(self).running.next_connection,
            *final(self) == (Engine {
                running: Running {
                    next_connection: (old(self).running.next_connection + 1) as u64,
                    ..old(self).running
                },
                ..*old(self)
            }),
    {
        let id = self.running.next_connection;
        self.running.next_connection = id + 1;
        id
    }

    /// Leaves one entry in the access log for something this device did. The
    /// entry is final at once. Returns what has to be written; nothing while
    /// the log is not open.
    pub fn record_this(&mut self, device_key_hex: &str, logged: Logged, now_unix_secs: i64) -> (finished:
        Vec<Pending>)
        requires
            old(self).wf(),
            old(self).has_ids(),
        ensures
            final(self).wf(),
            pending_views(finished@) == (match old(self).access {
                None => Seq::empty(),
                Some(_) => seq![
                    PendingView {
                        connection: old(self).running.next_connection,
                        fields: this_device(device_key_hex@, logged@),
                        first_touch: now_unix_secs,
                        last_touch: now_unix_secs,
                    },
                ],
            }),
            final(self).access is Some == old(self).access is Some,
            final(self).access matches Some(rollup) ==> rollup@ == old(self).access->0@
                && rollup.has_changed() == old(self).access->0.has_changed(),
            *final(self) == (Engine {
                access: final(self).access,
                running: Running {
                    next_connection: (old(self).running.next_connection + 1) as u64,
                    ..old(self).running
                },
                ..*old(self)
            }),
    {
        let connection = self.next_connection_id();
        let fields = EntryFields {
            device_key_hex: copy_of(device_key_hex),
            actor: Actor::This,
            verb: logged.verb,
            path: logged.path,
            bytes: logged.bytes,
            entries: logged.entries,
            files: logged.files,
        };
        assert(fields@ == this_device(device_key_hex@, logged@));
        match self.access.take() {
            None => {
                let none: Vec<Pending> = Vec::new();
                assert(pending_views(none@) =~= Seq::<PendingView>::empty());
                none
            },
            Some(rollup) => {
                let mut rollup = rollup;
                assert(is_fresh(rollup@, connection));
                let finished = rollup.record(now_unix_secs, connection, fields);
                self.access = Some(rollup);
                finished
            },
        }
    }

    /// What waits once everything whose turn has come is reported.
    pub open spec fn waiting_after(self, now: u64, force: bool) -> Outbox {
        let before = self.notify.waiting();
        Outbox {
            devices: before.devices.after(now, force),
            transfers: before.transfers.after(now, force),
            found: before.found.after(now, force),
            access_log: before.access_log.after(now, force),
            timer: before.timer,
        }
    }

    /// The kinds whose turn has come.
    pub open spec fn due_at(self, now: u64, force: bool) -> Due {
        let before = self.notify.waiting();
        Due {
            devices: before.devices.is_due(now, force),
            transfers: before.transfers.is_due(now, force),
            found: before.found.is_due(now, force),
            access_log: before.access_log.is_due(now, force),
        }
    }

    /// Where pairing is once the candidates were shown, if their turn has
    /// come.
    pub open spec fn pairing_after(self, now: u64, now_unix_secs: i64, force: bool) -> PairingView {
        if self.due_at(now, force).found {
            self.pairing.with_candidates_shown(now_unix_secs)
        } else {
            self.pairing@
        }
    }

    /// The calls that report everything whose turn has come: the candidates
    /// first, where someone could pick one.
    pub open spec fn reports_at(self, now: u64, now_unix_secs: i64, force: bool) -> Seq<ReportView> {
        report_if(
            self.due_at(now, force).found && open_to_pairing(self.pairing@),
            ReportView::Pairing(self.pairing_after(now, now_unix_secs, force).shown),
        ) + due_reports(self.due_at(now, force))
    }

    /// Reports every kind of change whose turn has come, and the candidates
    /// where someone could pick one. Returns what the app is told.
    pub fn report_due(&mut self, now: u64, now_unix_secs: i64, force: bool) -> (told: Due)
        requires
            old(self).wf(),
        ensures
            final(self).wf(),
            *final(self) == (Engine {
                notify: final(self).notify,
                pairing: final(self).pairing,
                ..*old(self)
            }),
            final(self).notify.waiting() == old(self).waiting_after(now, force),
            final(self).notify.tells_more(
                old(self).notify,
                old(self).reports_at(now, now_unix_secs, force),
            ),
            final(self).pairing@ == old(self).pairing_after(now, now_unix_secs, force),
            ({
                let due = old(self).due_at(now, force);
                let heard = !old(self).notify.is_closed();
                told == (Due {
                    devices: due.devices && heard,
                    transfers: due.transfers && heard,
                    found: due.found && open_to_pairing(old(self).pairing@) && heard,
                    access_log: due.access_log && heard,
                })
            }),
    {
        let due = self.notify.take_due(now, force);
        let ghost before = self.notify.reports();
        let mut found: bool = false;
        if due.found {
            if self.pairing.show_candidates(now_unix_secs) {
                found = self.notify.pairing(copy_state(&self.pairing.shown));
            }
        }
        let told = self.notify.send(due);
        assert(old(self).notify.is_closed() || self.notify.reports() =~= before + old(
            self,
        ).reports_at(now, now_unix_secs, force));
        Due {
            devices: told.devices,
            transfers: told.transfers,
            found,
            access_log: told.access_log,
        }
    }

    /// Whether the caller has to wait, and report what is held back: only one
    /// does at a time, and none once the engine is stopping.
    pub fn claim_timer(&mut self) -> (claimed: bool)
        requires
            old(self).wf(),
        ensures
            final(self).wf(),
            *final(self) == (Engine { notify: final(self).notify, ..*old(self) }),
            final(self).notify.tells_as(old(self).notify),
            claimed == (old(self).notify.waiting().any_waiting() && !old(
                self,
            ).notify.waiting().timer && !old(self).running.stopped),
            final(self).notify.waiting() == (Outbox {
                timer: old(self).notify.waiting().timer || old(
                    self,
                ).notify.waiting().any_waiting(),
                ..old(self).notify.waiting()
            }),
    {
        self.notify.claim_timer() && !self.running.stopped
    }

    /// How many transfers are being worked on.
    pub fn transfer_workers(&self) -> (workers: u32)
        ensures
            workers == (if self.running.workers > u32::MAX {
                u32::MAX
            } else {
                self.running.workers as u32
            }),
    {
        if self.running.workers > u32::MAX as u64 {
            u32::MAX
        } else {
            self.running.workers as u32
        }
    }

    /// How many bytes wait on this device's disk to be sent on.
    pub fn spool_bytes(&self) -> (bytes: u64)
        ensures
            bytes == self.mounts.spool_bytes.counted(),
    {
        self.mounts.spool_bytes_total()
    }

    /// How many connections were accepted.
    pub fn accepted_connections(&self) -> (count: u64)
        ensures
            count == self.inbound.accepted,
    {
        self.inbound.accepted
    }

    /// How many probes were started.
    pub fn probes(&self) -> (count: u64)
        ensures
            count == self.discovery.probes,
    {
        self.discovery.probes
    }

    /// Where this engine listens, once it has started.
    pub fn listen_addr(&self) -> (addr: Option<Addr>)
        ensures
            addr == self.running.listen_addr,
    {
        self.running.listen_addr
    }

    /// How many bytes moved on the wire.
    pub fn wire_bytes(&self) -> (bytes: u64)
        ensures
            bytes == self.running.wire_bytes,
    {
        self.running.wire_bytes
    }

    /// Uses another time until pairing gives up, in milliseconds.
    pub fn set_pairing_timeout(&mut self, timeout: u64)
        requires
            old(self).wf(),
        ensures
            final(self).wf(),
            *final(self) == (Engine {
                settings: Settings { pairing_timeout: timeout, ..old(self).settings },
                ..*old(self)
            }),
    {
        self.settings.pairing_timeout = timeout;
    }

    /// Uses another shortest wait before a transfer tries again, in
    /// milliseconds.
    pub fn set_backoff(&mut self, min: u64)
        requires
            old(self).wf(),
        ensures
            final(self).wf(),
            *final(self) == (Engine {
                settings: Settings { backoff_min: min, ..old(self).settings },
                ..*old(self)
            }),
    {
        self.settings.backoff_min = min;
    }

    /// Uses another lifetime for the bridge's listings, in milliseconds.
    pub fn set_list_cache_ttl(&mut self, ttl: u64)
        requires
            old(self).wf(),
        ensures
            final(self).wf(),
            *final(self) == (Engine {
                settings: Settings { list_cache_ttl: ttl, ..old(self).settings },
                ..*old(self)
            }),
    {
        self.settings.list_cache_ttl = ttl;
    }

    /// Uses another chunk size for the next first pass, where it is one.
    pub fn set_chunk_size(&mut self, bytes: u32) -> (set: Result<(), FerryError>)
        requires
            old(self).wf(),
        ensures
            final(self).wf(),
            match set {
                Ok(_) => chunk_size_problem(bytes) is None && *final(self) == (Engine {
                    settings: Settings { chunk_size: bytes, ..old(self).settings },
                    ..*old(self)
                }),
                Err(e) => *final(self) == *old(self) && (chunk_size_problem(bytes) matches Some(
                    problem,
                ) && is_failed(e, chunk_size_code(problem))),
            },
    {
        match check_chunk_size(bytes) {
            Ok(()) => {
                self.settings.chunk_size = bytes;
                Ok(())
            },
            Err(problem) => Err(from_chunk_size(problem)),
        }
    }

    /// Breaks the next dial after this many bytes.
    pub fn set_cut(&mut self, after_bytes: u64)
        requires
            old(self).wf(),
        ensures
            final(self).wf(),
            *final(self) == (Engine {
                settings: Settings { cut: Some(after_bytes), ..old(self).settings },
                ..*old(self)
            }),
    {
        self.settings.cut = Some(after_bytes);
    }

    /// Takes the byte count that the next dial is broken at: only one dial
    /// is.
    pub fn take_cut(&mut self) -> (cut: Option<u64>)
        requires
            old(self).wf(),
        ensures
            final(self).wf(),
            cut == old(self).settings.cut,
            *final(self) == (Engine {
                settings: Settings { cut: None, ..old(self).settings },
                ..*old(self)
            }),
    {
        let cut = self.settings.cut;
        self.settings.cut = None;
        cut
    }
}

/// Nothing is announced that is not looked for, nor by a device that may not
/// be reached or that stopped; on a trusted network and while pairing the
/// network is looked at.
pub proof fn lemma_presence_is_where_it_may_be<L: EngineListener>(
    engine: &Engine<L>,
    presence: Presence,
    set: &mut Engine<L>,
    on: bool,
    then: &Engine<L>,
    after: Presence,
    status: Status,
)
    requires
        call_ensures(Engine::<L>::presence, (engine,), presence),
        *old(set) == *engine,
        call_ensures(Engine::<L>::set_reachable, (set, on), ()),
        *then == *final(set),
        call_ensures(Engine::<L>::presence, (then,), after),
        call_ensures(Engine::<L>::status, (then,), status),
    ensures
        presence.advertise ==> presence.browse && engine.running.reachable
            && !engine.running.stopped,
        engine.running.stopped ==> !presence.advertise && !presence.browse,
        runs(engine.pairing@.shown) && !engine.running.stopped ==> presence.browse,
        after.browse == presence.browse,
        after.advertise <==> presence.browse && on,
        status.reachable == on,
        final(set).notify.waiting().devices.waiting,
{
}

/// What is shared is what was set last, and what is shown as such.
pub proof fn lemma_roots_are_what_was_set<L: EngineListener>(
    engine: &mut Engine<L>,
    roots: Vec<Root>,
    then: &Engine<L>,
    shown: Vec<Root>,
    i: int,
)
    requires
        call_ensures(Engine::<L>::set_roots, (engine, roots), ()),
        *then == *final(engine),
        call_ensures(Engine::<L>::roots, (then,), shown),
        0 <= i < roots@.len(),
    ensures
        shown@.len() == roots@.len(),
        shown@[i].name@ == roots@[i].name@,
        shown@[i].path@ == roots@[i].path@,
        shown@[i].writable == roots@[i].writable,
{
    assert(root_views(shown@).len() == shown@.len());
    assert(root_views(roots@).len() == roots@.len());
    assert(root_views(shown@)[i] == root_view(shown@[i]));
    assert(root_views(roots@)[i] == root_view(roots@[i]));
}

/// No two connections have one number.
pub proof fn lemma_connections_have_their_own_numbers<L: EngineListener>(
    engine: &mut Engine<L>,
    first: u64,
    then: &mut Engine<L>,
    second: u64,
)
    requires
        old(engine).has_ids(),
        call_ensures(Engine::<L>::next_connection_id, (engine,), first),
        old(then).running.next_connection >= final(engine).running.next_connection,
        call_ensures(Engine::<L>::next_connection_id, (then,), second),
    ensures
        first < second,
{
}

/// What this device did itself is logged at once, as it was done, under the
/// device it was done to, where a log is kept.
pub proof fn lemma_own_access_is_logged<L: EngineListener>(
    engine: &mut Engine<L>,
    device: &str,
    logged: Logged,
    now: i64,
    finished: Vec<Pending>,
)
    requires
        call_ensures(Engine::<L>::record_this, (engine, device, logged, now), finished),
    ensures
        old(engine).access is Some ==> finished@.len() == 1 && ({
            let entry = finished@[0]@;
            &&& entry.fields.device == device@
            &&& entry.fields.actor == Actor::This
            &&& entry.fields.verb == logged@.verb
            &&& entry.fields.path == logged@.path
            &&& entry.fields.bytes == logged@.bytes
            &&& entry.fields.entries == logged@.entries
            &&& entry.fields.files == logged@.files
            &&& entry.first_touch == now
        }),
        old(engine).access is None ==> finished@.len() == 0,
{
    assert(pending_views(finished@).len() == finished@.len());
    if old(engine).access is Some {
        assert(pending_views(finished@)[0] == finished@[0]@);
    }
}

/// A cut that was set is taken once.
pub proof fn lemma_cut_is_taken_once<L: EngineListener>(
    engine: &mut Engine<L>,
    bytes: u64,
    then: &mut Engine<L>,
    first: Option<u64>,
    last: &mut Engine<L>,
    second: Option<u64>,
)
    requires
        call_ensures(Engine::<L>::set_cut, (engine, bytes), ()),
        *old(then) == *final(engine),
        call_ensures(Engine::<L>::take_cut, (then,), first),
        *old(last) == *final(then),
        call_ensures(Engine::<L>::take_cut, (last,), second),
    ensures
        first == Some(bytes),
        second is None,
{
}

/// A size for chunks is taken or the one before stays.
pub proof fn lemma_chunk_size_is_set<L: EngineListener>(
    engine: &mut Engine<L>,
    bytes: u32,
    set: Result<(), FerryError>,
)
    requires
        call_ensures(Engine::<L>::set_chunk_size, (engine, bytes), set),
    ensures
        set is Ok ==> final(engine).settings.chunk_size == bytes,
        set is Err ==> final(engine).settings.chunk_size == old(engine).settings.chunk_size,
        set is Ok ==> crate::limits::MIN_CHUNK_SIZE <= bytes <= crate::limits::MAX_CHUNK_SIZE
            && bytes % 2 == 0,
{
}

} // verus!
