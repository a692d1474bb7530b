//! What is known of each device right now.
//!
//! None of it outlives a run. A device has a place here from the first time
//! something is known of it, whether it is paired or not.

use crate::engine::addr::Addr;
use crate::engine::shown::DeviceView;
use crate::limits::MAX_SERVING_PER_PEER;
use crate::peers::{Peer, PeerView};
use crate::seqs::{lemma_only_step, lemma_push_contains, only};
use crate::text::{copy_of, copy_opt, hex_of, hex_text, opt_view, text_views};
use crate::textmap::TextMap;
use crate::types::{DeviceInfo, Transport};
use vstd::prelude::*;

verus! {

/// How long after the last success over Wi-Fi a device still counts as
/// available over Wi-Fi, in seconds.
pub const WIFI_FRESH_SECS: i64 = 60;

/// One connection a device is served on. It answers while `on` holds.
#[derive(Debug, Clone, Copy, PartialEq, Eq, Structural)]
pub struct Switch {
    pub connection: u64,
    pub on: bool,
}

/// What is known of one device.
#[derive(Debug)]
pub struct DeviceLive {
    /// How it is reachable, where it is.
    pub reachable_via: Option<Transport>,
    /// Where it was last reached.
    pub last_addr: Option<Addr>,
    pub last_seen_unix_secs: Option<i64>,
    /// The forward it was last reached through over the cable.
    pub usb_port: Option<u16>,
    pub last_wifi_success_unix_secs: Option<i64>,
    pub speed_bytes_per_sec: Option<u64>,
    /// Where the app mounted its bridge.
    pub mount_path: Option<String>,
    /// The folder its own roots begin with, once an automatic copy asked.
    pub source_root: Option<String>,
    /// The connections it is served on.
    pub serving: Vec<Switch>,
}

/// What is known of one device.
#[verifier::ext_equal]
pub struct LiveView {
    pub reachable_via: Option<Transport>,
    pub last_addr: Option<Addr>,
    pub last_seen: Option<i64>,
    pub usb_port: Option<u16>,
    pub last_wifi: Option<i64>,
    pub speed: Option<u64>,
    pub mount_path: Option<Seq<char>>,
    pub source_root: Option<Seq<char>>,
    pub serving: Seq<Switch>,
}

impl View for DeviceLive {
    type V = LiveView;

    open spec fn view(&self) -> LiveView {
        LiveView {
            reachable_via: self.reachable_via,
            last_addr: self.last_addr,
            last_seen: self.last_seen_unix_secs,
            usb_port: self.usb_port,
            last_wifi: self.last_wifi_success_unix_secs,
            speed: self.speed_bytes_per_sec,
            mount_path: opt_view(self.mount_path),
            source_root: opt_view(self.source_root),
            serving: self.serving@,
        }
    }
}

/// Nothing is known.
pub open spec fn unknown_live() -> LiveView {
    LiveView {
        reachable_via: None,
        last_addr: None,
        last_seen: None,
        usb_port: None,
        last_wifi: None,
        speed: None,
        mount_path: None,
        source_root: None,
        serving: Seq::empty(),
    }
}

/// A device that was reached.
pub open spec fn reached(live: LiveView, addr: Addr, via: Transport, now: i64) -> LiveView {
    let seen = LiveView {
        reachable_via: Some(via),
        last_addr: Some(addr),
        last_seen: Some(now),
        ..live
    };
    if via == Transport::Usb {
        LiveView { usb_port: Some(addr.port), ..seen }
    } else {
        LiveView { last_wifi: Some(now), ..seen }
    }
}

/// A device that was just paired.
pub open spec fn newly_paired(live: LiveView, addr: Addr, now: i64) -> LiveView {
    LiveView { last_addr: Some(addr), last_seen: Some(now), ..live }
}

/// A device that is served on one connection more.
pub open spec fn serving_on(live: LiveView, addr: Addr, switch: Switch) -> LiveView {
    LiveView { last_addr: Some(addr), serving: live.serving.push(switch), ..live }
}

/// A device that one connection no longer serves.
pub open spec fn served_no_more(live: LiveView, connection: u64, now: i64) -> LiveView {
    LiveView {
        reachable_via: None,
        last_seen: Some(now),
        serving: only(live.serving, |s: Switch| s.connection != connection),
        ..live
    }
}

/// The device is available over the cable.
pub open spec fn over_usb(live: LiveView) -> bool {
    live.usb_port is Some || live.reachable_via == Some(Transport::Usb)
}

/// The device is available over Wi-Fi.
pub open spec fn over_wifi(live: LiveView, now: i64) -> bool {
    live.reachable_via == Some(Transport::Wifi) || (live.last_wifi matches Some(at) && now - at
        <= WIFI_FRESH_SECS)
}

/// How the device can be reached, the cable first.
pub open spec fn transports(live: LiveView, now: i64) -> Seq<Transport> {
    (if over_usb(live) {
        seq![Transport::Usb]
    } else {
        Seq::empty()
    }) + (if over_wifi(live, now) {
        seq![Transport::Wifi]
    } else {
        Seq::empty()
    })
}

/// `info` shows a device.
pub open spec fn shows_device(info: DeviceInfo, peer: PeerView, live: LiveView, now: i64) -> bool {
    info@ == device_view(peer, live, now)
}

/// What is shown of a paired device.
pub open spec fn device_view(peer: PeerView, live: LiveView, now: i64) -> DeviceView {
    DeviceView {
        key_hex: hex_of(peer.key),
        name: peer.name,
        paired: peer.paired,
        reachable_via: live.reachable_via,
        speed: live.speed,
        last_seen: live.last_seen,
        available: transports(live, now),
        kind: peer.kind,
        mount_path: live.mount_path,
    }
}

/// The way a device is reachable right now is always one of the ways it can
/// be reached.
pub proof fn lemma_reachable_is_available(live: LiveView, now: i64)
    ensures
        live.reachable_via matches Some(via) ==> transports(live, now).contains(via),
{
    match live.reachable_via {
        None => {},
        Some(Transport::Usb) => {
            assert(transports(live, now)[0] == Transport::Usb);
        },
        Some(Transport::Wifi) => {
            let list = transports(live, now);
            assert(list[list.len() - 1] == Transport::Wifi);
        },
    }
}

impl DeviceLive {
    /// Nothing is known.
    pub fn unknown() -> (live: DeviceLive)
        ensures
            live@ == unknown_live(),
    {
        let live = DeviceLive {
            reachable_via: None,
            last_addr: None,
            last_seen_unix_secs: None,
            usb_port: None,
            last_wifi_success_unix_secs: None,
            speed_bytes_per_sec: None,
            mount_path: None,
            source_root: None,
            serving: Vec::new(),
        };
        assert(live@ =~= unknown_live());
        live
    }

    fn available(&self, now: i64) -> (list: Vec<Transport>)
        ensures
            list@ == transports(self@, now),
    {
        let mut list: Vec<Transport> = Vec::new();
        if self.usb_port.is_some() || self.reachable_via == Some(Transport::Usb) {
            list.push(Transport::Usb);
        }
        let fresh = match self.last_wifi_success_unix_secs {
            None => false,
            Some(at) => now as i128 - at as i128 <= WIFI_FRESH_SECS as i128,
        };
        if fresh || self.reachable_via == Some(Transport::Wifi) {
            list.push(Transport::Wifi);
        }
        assert(list@ =~= transports(self@, now));
        list
    }

    /// The device as the app shows it.
    pub fn info(&self, peer: &Peer, now: i64) -> (info: DeviceInfo)
        ensures
            shows_device(info, peer@, self@, now),
    {
        DeviceInfo {
            key_hex: hex_text(peer.key.as_slice()),
            name: copy_of(peer.name.as_str()),
            paired_unix_secs: peer.paired_unix_secs,
            reachable_via: self.reachable_via,
            speed_bytes_per_sec: self.speed_bytes_per_sec,
            last_seen_unix_secs: self.last_seen_unix_secs,
            available_transports: self.available(now),
            kind: peer.kind,
            mount_path: copy_opt(&self.mount_path),
        }
    }
}

/// What is known of every device, by its key.
#[derive(Debug)]
pub struct LiveTable {
    devices: TextMap<DeviceLive>,
}

impl View for LiveTable {
    type V = Map<Seq<char>, LiveView>;

    closed spec fn view(&self) -> Map<Seq<char>, LiveView> {
        self.devices@.map_values(|l: DeviceLive| l@)
    }
}

/// What is known of one device.
pub open spec fn live_of(lives: Map<Seq<char>, LiveView>, key: Seq<char>) -> LiveView {
    if lives.contains_key(key) {
        lives[key]
    } else {
        unknown_live()
    }
}

/// The device may open one connection more to be served on.
pub open spec fn has_serving_room(lives: Map<Seq<char>, LiveView>, key: Seq<char>) -> bool {
    live_of(lives, key).serving.len() < MAX_SERVING_PER_PEER
}

/// The connection's switch is on.
pub open spec fn answers(live: LiveView, connection: u64) -> bool {
    exists|i: int|
        0 <= i < live.serving.len() && #[trigger] live.serving[i] == (Switch {
            connection,
            on: true,
        })
}

/// A device whose forward is gone is no longer plugged in.
pub open spec fn unplugged(live: LiveView, gone: Seq<u16>) -> LiveView {
    match live.usb_port {
        Some(port) => if gone.contains(port) {
            LiveView { usb_port: None, ..live }
        } else {
            live
        },
        None => live,
    }
}

impl LiveTable {
    pub closed spec fn wf(self) -> bool {
        self.devices.wf()
    }

    /// Nothing is known of any device.
    pub fn new() -> (table: LiveTable)
        ensures
            table.wf(),
            table@ == Map::<Seq<char>, LiveView>::empty(),
    {
        let table = LiveTable { devices: TextMap::new() };
        assert(table@ =~= Map::<Seq<char>, LiveView>::empty());
        table
    }

    /// What is known of one device, where anything is.
    pub fn get(&self, key: &str) -> (live: Option<&DeviceLive>)
        requires
            self.wf(),
        ensures
            match live {
                Some(l) => self@.contains_key(key@) && self@[key@] == l@,
                None => !self@.contains_key(key@),
            },
    {
        self.devices.get(key)
    }

    /// Takes what is known of one device out.
    fn take(&mut self, key: &str) -> (live: DeviceLive)
        requires
            old(self).wf(),
        ensures
            final(self).wf(),
            final(self)@ == old(self)@.remove(key@),
            live@ == live_of(old(self)@, key@),
    {
        let found = self.devices.remove(key);
        assert(self@ =~= old(self)@.remove(key@));
        match found {
            Some(live) => live,
            None => DeviceLive::unknown(),
        }
    }

    fn put(&mut self, key: &str, live: DeviceLive)
        requires
            old(self).wf(),
        ensures
            final(self).wf(),
            final(self)@ == old(self)@.insert(key@, live@),
    {
        self.devices.insert(key, live);
        assert(self@ =~= old(self)@.insert(key@, live@));
    }

    /// Writes down that a device was reached, and how. Says whether it was
    /// not reachable before.
    pub fn mark_reachable(&mut self, key: &str, addr: Addr, via: Transport, now: i64) -> (became:
        bool)
        requires
            old(self).wf(),
        ensures
            final(self).wf(),
            became == (live_of(old(self)@, key@).reachable_via is None),
            final(self)@ == old(self)@.insert(
                key@,
                reached(live_of(old(self)@, key@), addr, via, now),
            ),
    {
        let mut live = self.take(key);
        let ghost before = live@;
        let became = live.reachable_via.is_none();
        live.reachable_via = Some(via);
        live.last_addr = Some(addr);
        live.last_seen_unix_secs = Some(now);
        if via == Transport::Usb {
            live.usb_port = Some(addr.port);
        } else {
            live.last_wifi_success_unix_secs = Some(now);
        }
        assert(live@ =~= reached(before, addr, via, now));
        self.put(key, live);
        assert(self@ =~= old(self)@.insert(key@, reached(before, addr, via, now)));
        became
    }

    /// Writes down where a device that was just paired is.
    pub fn mark_paired(&mut self, key: &str, addr: Addr, now: i64)
        requires
            old(self).wf(),
        ensures
            final(self).wf(),
            final(self)@ == old(self)@.insert(
                key@,
                newly_paired(live_of(old(self)@, key@), addr, now),
            ),
    {
        let mut live = self.take(key);
        let ghost before = live@;
        live.last_addr = Some(addr);
        live.last_seen_unix_secs = Some(now);
        assert(live@ =~= newly_paired(before, addr, now));
        self.put(key, live);
        assert(self@ =~= old(self)@.insert(key@, newly_paired(before, addr, now)));
    }

    /// Files one connection's switch. `capped` refuses one more than a device
    /// may hold. The switch starts off where the engine is stopping.
    pub fn register_serving(
        &mut self,
        key: &str,
        addr: Addr,
        connection: u64,
        capped: bool,
        stopping: bool,
    ) -> (registered: bool)
        requires
            old(self).wf(),
        ensures
            final(self).wf(),
            registered == (!capped || has_serving_room(old(self)@, key@)),
            final(self)@ == (if registered {
                old(self)@.insert(
                    key@,
                    serving_on(
                        live_of(old(self)@, key@),
                        addr,
                        Switch { connection, on: !stopping },
                    ),
                )
            } else {
                old(self)@
            }),
    {
        if capped {
            let held: usize = match self.get(key) {
                Some(live) => live.serving.len(),
                None => 0,
            };
            if held >= MAX_SERVING_PER_PEER {
                return false;
            }
        }
        let mut live = self.take(key);
        let ghost before = live@;
        let switch = Switch { connection, on: !stopping };
        live.last_addr = Some(addr);
        live.serving.push(switch);
        assert(live@ =~= serving_on(before, addr, switch));
        self.put(key, live);
        assert(self@ =~= old(self)@.insert(key@, serving_on(before, addr, switch)));
        true
    }

    /// Takes one connection's switch back once it has ended.
    pub fn release_serving(&mut self, key: &str, connection: u64, now: i64)
        requires
            old(self).wf(),
        ensures
            final(self).wf(),
            final(self)@ == old(self)@.insert(
                key@,
                served_no_more(live_of(old(self)@, key@), connection, now),
            ),
    {
        let mut live = self.take(key);
        let ghost before = live@;
        let mut kept: Vec<Switch> = Vec::new();
        let ghost test = |s: Switch| s.connection != connection;
        let mut i: usize = 0;
        assert(kept@ =~= only(live.serving@.take(0), test));
        while i < live.serving.len()
            invariant
                i <= live.serving@.len(),
                test == (|s: Switch| s.connection != connection),
                kept@ == only(live.serving@.take(i as int), test),
            decreases live.serving@.len() - i,
        {
            proof {
                lemma_only_step(live.serving@, test, i as int);
            }
            let switch = live.serving[i];
            if switch.connection != connection {
                kept.push(switch);
            }
            i += 1;
        }
        assert(live.serving@.take(i as int) =~= live.serving@);
        live.serving = kept;
        live.reachable_via = None;
        live.last_seen_unix_secs = Some(now);
        assert(live@ =~= served_no_more(before, connection, now));
        self.put(key, live);
        assert(self@ =~= old(self)@.insert(key@, served_no_more(before, connection, now)));
    }

    /// Whether a device may still be answered on one connection.
    pub fn may_serve(&self, key: &str, connection: u64) -> (may: bool)
        requires
            self.wf(),
        ensures
            may == answers(live_of(self@, key@), connection),
    {
        match self.get(key) {
            None => false,
            Some(live) => {
                let mut i: usize = 0;
                while i < live.serving.len()
                    invariant
                        i <= live.serving@.len(),
                        self@.contains_key(key@),
                        self@[key@] == live@,
                        forall|j: int|
                            0 <= j < i ==> #[trigger] live.serving@[j] != (Switch {
                                connection,
                                on: true,
                            }),
                    decreases live.serving@.len() - i,
                {
                    let switch = live.serving[i];
                    if switch.connection == connection && switch.on {
                        assert(live@.serving[i as int] == (Switch { connection, on: true }));
                        return true;
                    }
                    i += 1;
                }
                false
            },
        }
    }

    /// Switches every connection off.
    pub fn switch_off(&mut self)
        requires
            old(self).wf(),
        ensures
            final(self).wf(),
            final(self)@ == old(self)@.map_values(
                |l: LiveView| LiveView { serving: Seq::empty(), ..l },
            ),
    {
        let ghost start = self@;
        let ghost off = |l: LiveView| LiveView { serving: Seq::empty(), ..l };
        self.each(None);
        assert(self@ =~= start.map_values(off));
    }

    /// Takes back the forwards that are gone.
    pub fn clear_gone_usb_forwards(&mut self, gone: &Vec<u16>)
        requires
            old(self).wf(),
        ensures
            final(self).wf(),
            final(self)@ == old(self)@.map_values(|l: LiveView| unplugged(l, gone@)),
    {
        let ghost start = self@;
        self.each(Some(gone));
        assert(self@ =~= start.map_values(|l: LiveView| unplugged(l, gone@)));
    }

    /// Changes what is known of every device: the forwards that are gone, or,
    /// where none are given, every switch.
    fn each(&mut self, gone: Option<&Vec<u16>>)
        requires
            old(self).wf(),
        ensures
            final(self).wf(),
            final(self)@ == old(self)@.map_values(|l: LiveView| changed(l, gone)),
    {
        let ghost start = self@;
        let mut done = LiveTable::new();
        proof {
            self.devices.lemma_view();
        }
        while self.devices.len() > 0
            invariant
                self.wf(),
                done.wf(),
                forall|k: Seq<char>| #[trigger]
                    start.contains_key(k) <==> self@.contains_key(k) || done@.contains_key(k),
                forall|k: Seq<char>| #[trigger]
                    self@.contains_key(k) ==> self@[k] == start[k] && !done@.contains_key(k),
                forall|k: Seq<char>| #[trigger]
                    done@.contains_key(k) ==> done@[k] == changed(start[k], gone),
            decreases self.devices.spec_keys().len(),
        {
            let key = copy_of(self.devices.key_at(0));
            proof {
                self.devices.lemma_view();
            }
            let ghost was = self@;
            let ghost made = done@;
            let mut live = self.devices.remove_at(0);
            assert(self@ =~= was.remove(key@));
            assert(was.contains_key(key@) && live@ == was[key@]);
            let ghost before = live@;
            match gone {
                None => {
                    live.serving = Vec::new();
                },
                Some(ports) => {
                    let port = live.usb_port;
                    if let Some(p) = port {
                        if has_port(ports, p) {
                            live.usb_port = None;
                        }
                    }
                },
            }
            assert(live@ =~= changed(before, gone));
            done.put(key.as_str(), live);
            assert(done@ == made.insert(key@, changed(before, gone)));
        }
        proof {
            self.devices.lemma_view();
            assert forall|k: Seq<char>| !self@.contains_key(k) by {
                assert(self@.contains_key(k) == self.devices@.contains_key(k));
            }
        }
        assert(done@ =~= start.map_values(|l: LiveView| changed(l, gone)));
        *self = done;
    }

    /// Writes down where the app mounted a device's bridge.
    pub fn set_mount_path(&mut self, key: &str, path: Option<String>)
        requires
            old(self).wf(),
        ensures
            final(self).wf(),
            final(self)@ == old(self)@.insert(
                key@,
                (LiveView { mount_path: opt_view(path), ..live_of(old(self)@, key@) }),
            ),
    {
        let mut live = self.take(key);
        let ghost before = live@;
        live.mount_path = path;
        assert(live@ =~= (LiveView { mount_path: opt_view(path), ..before }));
        self.put(key, live);
        assert(self@ =~= old(self)@.insert(
            key@,
            (LiveView { mount_path: opt_view(path), ..before }),
        ));
    }

    /// Writes down the folder a device's own roots begin with.
    pub fn set_source_root(&mut self, key: &str, root: String)
        requires
            old(self).wf(),
        ensures
            final(self).wf(),
            final(self)@ == old(self)@.insert(
                key@,
                (LiveView { source_root: Some(root@), ..live_of(old(self)@, key@) }),
            ),
    {
        let mut live = self.take(key);
        let ghost before = live@;
        live.source_root = Some(root);
        assert(live@ =~= (LiveView { source_root: Some(root@), ..before }));
        self.put(key, live);
        assert(self@ =~= old(self)@.insert(
            key@,
            (LiveView { source_root: Some(root@), ..before }),
        ));
    }

    /// The devices that are reachable right now, in the order of their keys.
    pub fn reachable(&self) -> (keys: Vec<String>)
        requires
            self.wf(),
        ensures
            forall|k: Seq<char>| #[trigger]
                text_views(keys@).contains(k) <==> self@.contains_key(k)
                    && self@[k].reachable_via is Some,
    {
        proof {
            self.devices.lemma_view();
        }
        let ghost all = self.devices.spec_keys();
        let mut keys: Vec<String> = Vec::new();
        let mut i: usize = 0;
        while i < self.devices.len()
            invariant
                self.wf(),
                all == self.devices.spec_keys(),
                i <= all.len(),
                forall|k: Seq<char>| #[trigger]
                    self.devices@.contains_key(k) <==> all.contains(k),
                forall|k: Seq<char>| #[trigger]
                    text_views(keys@).contains(k) <==> all.take(i as int).contains(k)
                        && self@[k].reachable_via is Some,
            decreases all.len() - i,
        {
            let ghost before = text_views(keys@);
            let ghost here = all[i as int];
            let live = self.devices.value_at(i);
            assert(self@[here] == live@);
            assert(all.take(i + 1) =~= all.take(i as int).push(here));
            if live.reachable_via.is_some() {
                keys.push(copy_of(self.devices.key_at(i)));
                assert(text_views(keys@) =~= before.push(here));
            }
            proof {
                lemma_push_contains(all.take(i as int), here);
                lemma_push_contains(before, here);
            }
            i += 1;
        }
        assert(all.take(i as int) =~= all);
        assert forall|k: Seq<char>| #[trigger] text_views(keys@).contains(k) <==> self@.contains_key(
            k,
        ) && self@[k].reachable_via is Some by {
            assert(self@.contains_key(k) == self.devices@.contains_key(k));
        }
        keys
    }

    /// Drops what is known of a device, and every switch with it.
    pub fn forget(&mut self, key: &str)
        requires
            old(self).wf(),
        ensures
            final(self).wf(),
            final(self)@ == old(self)@.remove(key@),
    {
        let live = self.take(key);
    }
}

/// What is known of a device after every switch went off, or after some
/// forwards went.
spec fn changed(live: LiveView, gone: Option<&Vec<u16>>) -> LiveView {
    match gone {
        None => LiveView { serving: Seq::empty(), ..live },
        Some(ports) => unplugged(live, ports@),
    }
}

fn has_port(ports: &Vec<u16>, port: u16) -> (found: bool)
    ensures
        found == ports@.contains(port),
{
    let mut i: usize = 0;
    while i < ports.len()
        invariant
            i <= ports@.len(),
            forall|j: int| 0 <= j < i ==> ports@[j] != port,
        decreases ports@.len() - i,
    {
        if ports[i] == port {
            return true;
        }
        i += 1;
    }
    false
}

/// Once a device is forgotten, or every switch is off, no connection answers
/// it.
pub proof fn lemma_switched_off(lives: Map<Seq<char>, LiveView>, key: Seq<char>, connection: u64)
    ensures
        !answers(live_of(lives.remove(key), key), connection),
        !answers(
            live_of(
                lives.map_values(|l: LiveView| LiveView { serving: Seq::empty(), ..l }),
                key,
            ),
            connection,
        ),
{
}

/// A connection registered under the cap leaves the device within it.
pub proof fn lemma_serving_cap(
    lives: Map<Seq<char>, LiveView>,
    key: Seq<char>,
    addr: Addr,
    switch: Switch,
)
    requires
        has_serving_room(lives, key),
    ensures
        serving_on(live_of(lives, key), addr, switch).serving.len() <= MAX_SERVING_PER_PEER,
        answers(serving_on(live_of(lives, key), addr, switch), switch.connection) || !switch.on,
{
    let after = serving_on(live_of(lives, key), addr, switch);
    assert(after.serving[after.serving.len() - 1] == switch);
}

/// A connection that is served answers from the moment it is registered until
/// it is released; another one is not touched by that.
pub proof fn lemma_served_until_released(
    table: &mut LiveTable,
    key: &str,
    addr: Addr,
    connection: u64,
    now: i64,
    then: &mut LiveTable,
    after: &LiveTable,
    last: &LiveTable,
    may: bool,
    still: bool,
)
    requires
        call_ensures(LiveTable::register_serving, (table, key, addr, connection, false, false), true),
        after@ == final(table)@,
        call_ensures(LiveTable::may_serve, (after, key, connection), may),
        old(then)@ == final(table)@,
        call_ensures(LiveTable::release_serving, (then, key, connection, now), ()),
        last@ == final(then)@,
        call_ensures(LiveTable::may_serve, (last, key, connection), still),
    ensures
        may,
        !still,
        live_of(after@, key@).last_addr == Some(addr),
        forall|other: u64|
            other != connection && #[trigger] answers(live_of(after@, key@), other) ==> answers(
                live_of(last@, key@),
                other,
            ),
{
    let live = live_of(old(table)@, key@);
    let switch = Switch { connection, on: true };
    let on = live_of(after@, key@);
    assert(on.serving[live.serving.len() as int] == switch);
    assert(answers(on, connection));
    let test = |s: Switch| s.connection != connection;
    let left = only(on.serving, test);
    crate::seqs::lemma_only(on.serving, test);
    assert(live_of(last@, key@).serving == left);
    if answers(live_of(last@, key@), connection) {
        let i = choose|i: int|
            0 <= i < left.len() && #[trigger] left[i] == (Switch { connection, on: true });
        assert(test(left[i]));
    }
    assert forall|other: u64|
        other != connection && #[trigger] answers(on, other) implies answers(
        live_of(last@, key@),
        other,
    ) by {
        let i = choose|i: int|
            0 <= i < on.serving.len() && #[trigger] on.serving[i] == (Switch {
                connection: other,
                on: true,
            });
        assert(test(on.serving[i]));
        assert(left.contains(on.serving[i]));
        let k = choose|k: int| 0 <= k < left.len() && left[k] == on.serving[i];
        assert(left[k] == (Switch { connection: other, on: true }));
    }
}

/// A phone whose cable was pulled is not said to be on the cable any more
/// unless it is reached that way, and every other device stays as it was.
pub proof fn lemma_pulled_cable_is_noticed(
    table: &mut LiveTable,
    gone: &Vec<u16>,
    key: Seq<char>,
)
    requires
        old(table)@.contains_key(key),
        call_ensures(LiveTable::clear_gone_usb_forwards, (table, gone), ()),
    ensures
        final(table)@.contains_key(key),
        old(table)@[key].usb_port matches Some(port) && gone@.contains(port) ==> final(
            table)@[key].usb_port is None,
        old(table)@[key].usb_port matches Some(port) && !gone@.contains(port) ==> final(
            table)@[key] == old(table)@[key],
        old(table)@[key].usb_port is None ==> final(table)@[key] == old(table)@[key],
        final(table)@[key].last_addr == old(table)@[key].last_addr,
        final(table)@[key].reachable_via == old(table)@[key].reachable_via,
        final(table)@[key].serving == old(table)@[key].serving,
{
}

/// A device is said to be on the cable or on the network exactly where it is
/// reached that way, or was a short while ago.
pub proof fn lemma_ways_are_told(live: LiveView, now: i64)
    ensures
        transports(live, now).contains(Transport::Usb) <==> live.usb_port is Some
            || live.reachable_via == Some(Transport::Usb),
        transports(live, now).contains(Transport::Wifi) <==> live.reachable_via == Some(
            Transport::Wifi,
        ) || (live.last_wifi is Some && now - live.last_wifi->0 <= WIFI_FRESH_SECS),
        transports(live, now).len() <= 2,
{
    let all = transports(live, now);
    let cable = live.usb_port is Some || live.reachable_via == Some(Transport::Usb);
    if cable {
        assert(all[0] == Transport::Usb);
    }
    if over_wifi(live, now) {
        assert(all[all.len() - 1] == Transport::Wifi);
    }
}

} // verus!
