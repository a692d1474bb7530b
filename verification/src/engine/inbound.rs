//! Who may connect, and who may be calling.

use crate::engine::addr::{loopback, Addr, Host};
use crate::engine::live::{live_of, LiveTable, LiveView};
use crate::engine::pairing::{offering, open_to_pairing, Pairing, PairingView};
use crate::limits::MAX_INBOUND_CONNECTIONS;
use crate::peers::{PeerView, Peers};
use crate::seqs::{lemma_only_step, only};
use crate::text::{hex_of, hex_text};
use crate::types::Transport;
use vstd::prelude::*;

verus! {

/// The port a phone listens on, so that the Mac can name it in a forward
/// before any connection exists.
pub const FERRY_PHONE_PORT: u16 = 52_931;

/// The port a phone listens on.
pub fn phone_port() -> (port: u16)
    ensures
        port == FERRY_PHONE_PORT,
{
    FERRY_PHONE_PORT
}

/// A connection from `remote` is welcome: this device is present over Wi-Fi,
/// a pairing expects a connection, or the connection came through the cable
/// and the device is reachable.
pub open spec fn welcome(
    reachable: bool,
    wifi_presence: bool,
    pairing_accepts_inbound: bool,
    remote: Addr,
) -> bool {
    wifi_presence || pairing_accepts_inbound || (reachable && loopback(remote.host))
}

/// Whether an inbound connection from `remote` is welcome. Off means off:
/// with `reachable` off nothing but a pairing lets a connection in over the
/// cable.
pub fn welcomes_inbound(
    reachable: bool,
    wifi_presence: bool,
    pairing_accepts_inbound: bool,
    remote: Addr,
) -> (yes: bool)
    ensures
        yes == welcome(reachable, wifi_presence, pairing_accepts_inbound, remote),
{
    wifi_presence || pairing_accepts_inbound || (reachable && remote.is_loopback())
}

/// A device that is neither reachable nor pairing lets nobody in.
pub proof fn lemma_off_means_off(trusted_here: bool, remote: Addr)
    ensures
        !welcome(false, false && trusted_here, false, remote),
{
}

/// The way an inbound connection came: over the cable where it is this
/// device's own address, and this device is not the one that runs `adb`.
pub open spec fn inbound_transport(remote: Addr, adb_present: bool) -> Transport {
    if loopback(remote.host) && !adb_present {
        Transport::Usb
    } else {
        Transport::Wifi
    }
}

/// The way an inbound connection came.
pub fn transport_for_inbound(remote: Addr, adb_present: bool) -> (transport: Transport)
    ensures
        transport == inbound_transport(remote, adb_present),
{
    if remote.is_loopback() && !adb_present {
        Transport::Usb
    } else {
        Transport::Wifi
    }
}

/// What a caller asks for before the handshake.
#[derive(Debug, Clone, Copy, PartialEq, Eq, Structural)]
pub enum Mode {
    PairByCode,
    PairByQr,
    Connect,
}

/// What becomes of an accepted connection.
#[derive(Debug, Clone, Copy, PartialEq, Eq, Structural)]
pub enum Inbound {
    /// It is dropped, and nothing is said.
    Drop,
    /// The handshake of the code method runs.
    PairByCode,
    /// The handshake of a scan runs, against the nonce of the offer.
    PairByQr,
    /// The handshake of a paired device runs.
    Connect,
}

/// What becomes of an accepted connection.
pub open spec fn inbound_of(mode: Mode, p: PairingView) -> Inbound {
    match mode {
        Mode::PairByCode => if open_to_pairing(p) {
            Inbound::PairByCode
        } else {
            Inbound::Drop
        },
        Mode::PairByQr => if offering(p) {
            Inbound::PairByQr
        } else {
            Inbound::Drop
        },
        Mode::Connect => Inbound::Connect,
    }
}

/// Decides what becomes of an accepted connection. A way to pair is honoured
/// only while this device is open to that way.
pub fn handle_inbound(mode: Mode, pairing: &Pairing) -> (inbound: Inbound)
    ensures
        inbound == inbound_of(mode, pairing@),
{
    match mode {
        Mode::PairByCode => {
            if pairing.is_open_to_pairing() {
                Inbound::PairByCode
            } else {
                Inbound::Drop
            }
        },
        Mode::PairByQr => {
            if pairing.is_offering() {
                Inbound::PairByQr
            } else {
                Inbound::Drop
            }
        },
        Mode::Connect => Inbound::Connect,
    }
}

/// How many inbound connections there are, and were.
#[derive(Debug, Clone, Copy, PartialEq, Eq, Structural)]
pub struct InboundSlots {
    /// Alive right now.
    pub alive: u32,
    /// Ever accepted.
    pub accepted: u64,
}

impl InboundSlots {
    pub open spec fn wf(self) -> bool {
        self.alive <= MAX_INBOUND_CONNECTIONS
    }

    /// None yet.
    pub fn new() -> (slots: InboundSlots)
        ensures
            slots == (InboundSlots { alive: 0, accepted: 0 }),
            slots.wf(),
    {
        InboundSlots { alive: 0, accepted: 0 }
    }

    /// Takes one place for a connection that is welcome. Nothing is taken for
    /// one that is not, while the engine is stopping, or once every place is
    /// taken.
    pub fn reserve(&mut self, stopping: bool, welcome: bool) -> (reserved: bool)
        requires
            old(self).wf(),
        ensures
            final(self).wf(),
            reserved == (!stopping && welcome && old(self).alive < MAX_INBOUND_CONNECTIONS),
            *final(self) == (if reserved {
                InboundSlots {
                    alive: (old(self).alive + 1) as u32,
                    accepted: ((old(self).accepted + 1) % 0x1_0000_0000_0000_0000) as u64,
                }
            } else {
                *old(self)
            }),
    {
        if stopping || !welcome || self.alive >= MAX_INBOUND_CONNECTIONS {
            return false;
        }
        self.alive = self.alive + 1;
        self.accepted = self.accepted.wrapping_add(1);
        true
    }

    /// Gives one place back.
    pub fn ended(&mut self)
        requires
            old(self).wf(),
            old(self).alive > 0,
        ensures
            final(self).wf(),
            *final(self) == (InboundSlots {
                alive: (old(self).alive - 1) as u32,
                accepted: old(self).accepted,
            }),
    {
        self.alive = self.alive - 1;
    }
}

/// A device was last reached at this host.
pub open spec fn last_at(lives: Map<Seq<char>, LiveView>, host: Host) -> spec_fn(PeerView) -> bool {
    |p: PeerView|
        live_of(lives, hex_of(p.key)).last_addr matches Some(addr) && addr.host == host
}

/// A device was last reached elsewhere, or never.
pub open spec fn last_elsewhere(lives: Map<Seq<char>, LiveView>, host: Host) -> spec_fn(
    PeerView,
) -> bool {
    |p: PeerView| !last_at(lives, host)(p)
}

/// The devices a caller may be, in the order to try them: those last reached
/// at its host first.
pub open spec fn callers(
    peers: Seq<PeerView>,
    lives: Map<Seq<char>, LiveView>,
    host: Host,
) -> Seq<PeerView> {
    only(peers, last_at(lives, host)) + only(peers, last_elsewhere(lives, host))
}

/// The keys of some devices.
pub open spec fn keys_of(peers: Seq<PeerView>) -> Seq<Seq<u8>> {
    peers.map_values(|p: PeerView| p.key)
}

/// Some keys, as bytes.
pub open spec fn key_views(keys: Seq<[u8; 32]>) -> Seq<Seq<u8>> {
    keys.map_values(|k: [u8; 32]| k@)
}

/// The keys a caller may hold, in the order to try them. Where no device is
/// paired the one key is `nobody`, which no caller holds: from outside, a
/// device that is paired and one that is not look the same.
pub fn candidate_peers(
    peers: &Peers,
    live: &LiveTable,
    remote: Addr,
    nobody: [u8; 32],
) -> (keys: Vec<[u8; 32]>)
    requires
        peers.wf(),
        live.wf(),
    ensures
        key_views(keys@) == (if peers@.len() == 0 {
            seq![nobody@]
        } else {
            keys_of(callers(peers@, live@, remote.host))
        }),
{
    let ghost here = last_at(live@, remote.host);
    let ghost away = last_elsewhere(live@, remote.host);
    if peers.len() == 0 {
        let mut keys: Vec<[u8; 32]> = Vec::new();
        keys.push(nobody);
        assert(key_views(keys@) =~= seq![nobody@]);
        return keys;
    }
    let mut first: Vec<[u8; 32]> = Vec::new();
    let mut rest: Vec<[u8; 32]> = Vec::new();
    let mut i: usize = 0;
    assert(key_views(first@) =~= keys_of(only(peers@.take(0), here)));
    assert(key_views(rest@) =~= keys_of(only(peers@.take(0), away)));
    while i < peers.len()
        invariant
            peers.wf(),
            live.wf(),
            i <= peers@.len(),
            here == last_at(live@, remote.host),
            away == last_elsewhere(live@, remote.host),
            key_views(first@) == keys_of(only(peers@.take(i as int), here)),
            key_views(rest@) == keys_of(only(peers@.take(i as int), away)),
        decreases peers@.len() - i,
    {
        proof {
            lemma_only_step(peers@, here, i as int);
            lemma_only_step(peers@, away, i as int);
        }
        let peer = peers.at(i);
        let key_hex = hex_text(peer.key.as_slice());
        let at_host = match live.get(key_hex.as_str()) {
            None => false,
            Some(known) => match known.last_addr {
                None => false,
                Some(addr) => addr.host == remote.host,
            },
        };
        let ghost p = peers@[i as int];
        let ghost before_first = only(peers@.take(i as int), here);
        let ghost before_rest = only(peers@.take(i as int), away);
        let key = peer.key;
        assert(at_host == here(p));
        if at_host {
            let ghost so_far = key_views(first@);
            first.push(key);
            assert(key_views(first@) =~= so_far.push(key@));
            assert(keys_of(before_first.push(p)) =~= keys_of(before_first).push(p.key));
        } else {
            let ghost so_far = key_views(rest@);
            rest.push(key);
            assert(key_views(rest@) =~= so_far.push(key@));
            assert(keys_of(before_rest.push(p)) =~= keys_of(before_rest).push(p.key));
        }
        i += 1;
    }
    assert(peers@.take(i as int) =~= peers@);
    let ghost whole = key_views(first@) + key_views(rest@);
    first.append(&mut rest);
    assert(key_views(first@) =~= whole);
    assert(whole =~= keys_of(callers(peers@, live@, remote.host)));
    first
}

/// Every paired device may be the caller, and nobody else.
pub proof fn lemma_callers_are_the_peers(
    peers: Seq<PeerView>,
    lives: Map<Seq<char>, LiveView>,
    host: Host,
    p: PeerView,
)
    ensures
        peers.contains(p) <==> callers(peers, lives, host).contains(p),
{
    let here = last_at(lives, host);
    let away = last_elsewhere(lives, host);
    crate::seqs::lemma_only(peers, here);
    crate::seqs::lemma_only(peers, away);
    let a = only(peers, here);
    let b = only(peers, away);
    let all = callers(peers, lives, host);
    if peers.contains(p) {
        let i = choose|i: int| 0 <= i < peers.len() && peers[i] == p;
        if here(peers[i]) {
            let k = choose|k: int| 0 <= k < a.len() && a[k] == p;
            assert(all[k] == p);
        } else {
            assert(away(peers[i]));
            let k = choose|k: int| 0 <= k < b.len() && b[k] == p;
            assert(all[a.len() + k] == p);
        }
    }
    if all.contains(p) {
        let i = choose|i: int| 0 <= i < all.len() && all[i] == p;
        if i < a.len() {
            assert(a[i] == p);
        } else {
            assert(b[i - a.len()] == p);
        }
    }
}

/// A caller is heard as what it asks to be, and only while this device waits
/// for that; a paired one is heard always.
pub proof fn lemma_callers_are_heard(mode: Mode, pairing: &Pairing, inbound: Inbound)
    requires
        call_ensures(handle_inbound, (mode, pairing), inbound),
    ensures
        inbound == Inbound::PairByCode ==> mode == Mode::PairByCode && (pairing@.shown is Waiting
            || pairing@.shown is Found) && pairing@.held is None,
        inbound == Inbound::PairByQr ==> mode == Mode::PairByQr && pairing@.shown is Offering
            && pairing@.requested is None,
        inbound == Inbound::Connect <==> mode == Mode::Connect,
        pairing@ == crate::engine::pairing::idle_view() && mode != Mode::Connect ==> inbound
            == Inbound::Drop,
        mode == Mode::PairByCode && open_to_pairing(pairing@) ==> inbound == Inbound::PairByCode,
        mode == Mode::PairByQr && offering(pairing@) ==> inbound == Inbound::PairByQr,
{
}

/// A connection from this machine itself comes over the cable, but for a
/// machine that makes such connections itself; every other comes over Wi-Fi.
pub proof fn lemma_way_of_a_caller(remote: Addr, adb_present: bool, transport: Transport)
    requires
        call_ensures(transport_for_inbound, (remote, adb_present), transport),
    ensures
        !loopback(remote.host) ==> transport == Transport::Wifi,
        loopback(remote.host) ==> (transport == Transport::Usb <==> !adb_present),
{
}

/// Whoever calls from where a paired device was last reached is taken for that
/// device first, and every paired device is a candidate; with none paired, only
/// a key that nobody holds is.
pub proof fn lemma_candidates_are_the_paired(
    peers: &Peers,
    live: &LiveTable,
    remote: Addr,
    nobody: [u8; 32],
    keys: Vec<[u8; 32]>,
    p: PeerView,
)
    requires
        call_ensures(candidate_peers, (peers, live, remote, nobody), keys),
    ensures
        peers@.len() == 0 ==> key_views(keys@) == seq![nobody@],
        peers@.contains(p) ==> key_views(keys@).contains(p.key),
        peers@.len() > 0 ==> forall|i: int|
            0 <= i < keys@.len() ==> exists|k: int|
                0 <= k < peers@.len() && (#[trigger] peers@[k]).key == (#[trigger] keys@[i])@,
        peers@.len() > 0 && (exists|k: int|
            0 <= k < peers@.len() && last_at(live@, remote.host)(#[trigger] peers@[k]))
            ==> keys@.len() > 0 && exists|k: int|
            0 <= k < peers@.len() && (#[trigger] peers@[k]).key == keys@[0]@ && last_at(
                live@,
                remote.host,
            )(peers@[k]),
{
    if peers@.len() > 0 {
        let called = callers(peers@, live@, remote.host);
        let first = only(peers@, last_at(live@, remote.host));
        let views = key_views(keys@);
        assert(views.len() == called.len());
        if peers@.contains(p) {
            lemma_callers_are_the_peers(peers@, live@, remote.host, p);
            let k = choose|k: int| 0 <= k < called.len() && called[k] == p;
            assert(views[k] == p.key);
        }
        assert forall|i: int| 0 <= i < keys@.len() implies exists|k: int|
            0 <= k < peers@.len() && (#[trigger] peers@[k]).key == (#[trigger] keys@[i])@ by {
            assert(views[i] == keys@[i]@);
            assert(views[i] == called[i].key);
            lemma_callers_are_the_peers(peers@, live@, remote.host, called[i]);
            assert(called.contains(called[i]));
            let k = choose|k: int| 0 <= k < peers@.len() && peers@[k] == called[i];
            assert(peers@[k].key == keys@[i]@);
        }
        crate::seqs::lemma_only(peers@, last_at(live@, remote.host));
        if exists|k: int|
            0 <= k < peers@.len() && last_at(live@, remote.host)(#[trigger] peers@[k]) {
            let k = choose|k: int|
                0 <= k < peers@.len() && last_at(live@, remote.host)(#[trigger] peers@[k]);
            assert(first.contains(peers@[k]));
            assert(first.len() > 0);
            assert(called[0] == first[0]);
            assert(views[0] == keys@[0]@);
            assert(last_at(live@, remote.host)(first[0]));
            assert(peers@.contains(first[0]));
            let n = choose|n: int| 0 <= n < peers@.len() && peers@[n] == first[0];
            assert(peers@[n].key == keys@[0]@ && last_at(live@, remote.host)(peers@[n]));
        }
    }
}

} // verus!
