use ferry_runtime::auto_copy::AutoCopyStore;
use ferry_runtime::core_errors::{NoiseError, PairingError, RpcError, TcpError};
use ferry_runtime::engine::addr::{addresses_to_dial, dialable_addresses, Addr, Host};
use ferry_runtime::engine::discovery::{last_four, usb_candidate, wifi_candidate, Discovery};
use ferry_runtime::engine::inbound::{
    candidate_peers, handle_inbound, phone_port, transport_for_inbound, welcomes_inbound, Inbound,
    InboundSlots, Mode, FERRY_PHONE_PORT,
};
use ferry_runtime::engine::live::LiveTable;
use ferry_runtime::engine::pair::{
    checked_name, hello_wait, Confirmed, DialStep, HelloEvent, HelloStep, ScannedOffer,
    StartPairing,
};
use ferry_runtime::engine::pairing::{HeldPairing, Pairing, RequestedPairing, Watch};
use ferry_runtime::engine::state::{checked_config, Engine, Stored, PAIRING_TIMEOUT_MS};
use ferry_runtime::held::HeldStore;
use ferry_runtime::limits::{MAX_DIAL_ADDRESSES, MAX_INBOUND_CONNECTIONS, PROBE_MIN_INTERVAL_MS};
use ferry_runtime::networks::TrustedNetworks;
use ferry_runtime::notify::Report;
use ferry_runtime::peers::{Peer, Peers};
use ferry_runtime::types::{
    Config, DeviceKind, EngineListener, FerryError, KeyPair, PairingMethod, PairingOffer,
    PairingState, Root, Transport,
};

struct Quiet;

impl EngineListener for Quiet {
    fn devices_changed(&self) {}

    fn transfers_changed(&self) {}

    fn pairing_changed(&self, _state: PairingState) {}

    fn access_log_changed(&self) {}
}

const NOW: i64 = 1_700_000_000;

fn peer(byte: u8) -> Peer {
    Peer {
        key: [byte; 32],
        name: "Pixel".to_owned(),
        paired_unix_secs: NOW,
        kind: DeviceKind::Phone,
    }
}

fn hex(byte: u8) -> String {
    format!("{byte:02x}").repeat(32)
}

fn engine(peers: &[u8]) -> Engine<Quiet> {
    let mut list = Peers::new();
    for byte in peers {
        list.add(peer(*byte)).unwrap();
    }
    let config = Config {
        data_dir: "/data".to_owned(),
        shared_roots: vec![Root {
            name: "Desktop".to_owned(),
            path: "/home/me/Desktop".to_owned(),
            writable: true,
        }],
        download_dir: "/home/me/Downloads".to_owned(),
        display_name: "This Mac".to_owned(),
        listen_port: 0,
        key: KeyPair { private: vec![7; 32], public: vec![8; 32] },
        kind: DeviceKind::Mac,
    };
    let stored = Stored {
        peers: list,
        trusted: TrustedNetworks::empty(),
        auto_copy: AutoCopyStore::load(None),
        held: HeldStore::load(None),
    };
    let mut engine =
        Engine::new(checked_config(config, Ok(())).ok().unwrap(), stored, true, Quiet);
    engine.bound(Addr::local(4_000));
    engine
}

fn v4(a: u32, b: u32, c: u32, d: u32, port: u16) -> Addr {
    Addr { host: Host::V4((a << 24) | (b << 16) | (c << 8) | d), port }
}

fn code_of(error: &FerryError) -> String {
    let FerryError::Failed { code, .. } = error;
    code.clone()
}

fn held(byte: u8) -> HeldPairing {
    HeldPairing { connection: 3, peer: [byte; 32], addr: Addr::local(9), accepted: true }
}

fn requested(byte: u8, hello_done: bool) -> RequestedPairing {
    RequestedPairing {
        connection: 4,
        peer: [byte; 32],
        addr: Addr::local(9),
        name: "Pixel".to_owned(),
        kind: DeviceKind::Phone,
        hello_done,
    }
}

#[test]
fn one_pairing_goes_on_at_a_time() {
    let mut engine = engine(&[]);
    let first = engine.start_pairing_with(PairingMethod::Code, 1_000, NOW);
    assert!(matches!(first, StartPairing::Waiting));
    let second = engine.start_pairing_with(PairingMethod::Qr, 1_000, NOW);
    assert!(matches!(second, StartPairing::AlreadyRunning));
    engine.cancel_pairing();
    assert!(matches!(engine.pairing.shown, PairingState::Idle));
    let third = engine.start_pairing_with(PairingMethod::Qr, 1_000, NOW);
    let StartPairing::Offer(nonce, expires) = third else { panic!("an offer is drawn") };
    assert_eq!(nonce.len(), 16);
    assert_eq!(expires, NOW + 120);
}

#[test]
fn a_pairing_by_code_ends_with_the_device_stored() {
    let mut engine = engine(&[]);
    engine.start_pairing_with(PairingMethod::Code, 1_000, NOW);
    assert!(engine.hold_pairing(held(5), "123456".to_owned(), NOW));
    assert!(matches!(&engine.pairing.shown, PairingState::Code { code, .. } if code == "123456"));
    let Confirmed::Exchange(taken, None) = engine.confirm_pairing(true) else {
        panic!("the names are exchanged next")
    };
    assert_eq!(taken.peer, [5; 32]);
    let list = engine.store_paired_peer(peer(5)).expect("there is room");
    assert!(engine.paired_peer_stored(list, Ok(()), &hex(5), Addr::local(9), NOW));
    assert!(matches!(&engine.pairing.shown, PairingState::Confirmed { device } if device.key_hex == hex(5)));
    assert_eq!(engine.devices(NOW).len(), 1);
}

#[test]
fn a_second_device_does_not_replace_the_code_that_is_shown() {
    let mut engine = engine(&[]);
    engine.start_pairing_with(PairingMethod::Code, 1_000, NOW);
    assert!(engine.hold_pairing(held(5), "123456".to_owned(), NOW));
    assert!(!engine.hold_pairing(held(6), "654321".to_owned(), NOW));
    assert!(matches!(&engine.pairing.shown, PairingState::Failed { error }
        if code_of(error) == "Runtime::PairingBusy"));
}

#[test]
fn a_pairing_that_is_refused_stores_nothing() {
    let mut engine = engine(&[]);
    engine.start_pairing_with(PairingMethod::Code, 1_000, NOW);
    assert!(engine.hold_pairing(held(5), "123456".to_owned(), NOW));
    assert!(matches!(engine.confirm_pairing(false), Confirmed::Dropped));
    assert!(matches!(engine.pairing.shown, PairingState::Idle));
    assert!(matches!(engine.confirm_pairing(false), Confirmed::Nothing));
    assert!(engine.store_paired_peer(peer(5)).is_none(), "no pairing goes on");
    assert!(engine.devices(NOW).is_empty());
}

#[test]
fn a_pairing_ends_at_its_deadline() {
    let mut engine = engine(&[]);
    engine.start_pairing_with(PairingMethod::Code, 1_000, NOW);
    engine.hold_pairing(held(5), "123456".to_owned(), NOW);
    assert_eq!(engine.pairing_watchdog(1_000), Watch::Wait(PAIRING_TIMEOUT_MS));
    assert_eq!(engine.pairing_watchdog(1_000 + PAIRING_TIMEOUT_MS), Watch::Expired(true));
    assert!(matches!(&engine.pairing.shown, PairingState::Failed { error }
        if code_of(error) == "Runtime::PairingTimeout"));
    assert!(engine.pairing.held.is_none());
}

#[test]
fn an_offer_that_is_scanned_is_dialed() {
    let mut engine = engine(&[1]);
    let offer = |byte: u8, expires: i64| ScannedOffer {
        key: [byte; 32],
        expires_unix_secs: expires,
        addresses: vec![v4(192, 168, 1, 7, 4_000)],
    };
    let expired = engine.offer_scanned(Ok(offer(2, NOW)), 1_000, NOW).err().unwrap();
    assert_eq!(code_of(&expired), "PairingError::OfferExpired");
    let known = engine.offer_scanned(Ok(offer(1, NOW + 1)), 1_000, NOW).err().unwrap();
    assert_eq!(code_of(&known), "PairingError::AlreadyPaired");
    let other = engine.offer_scanned(Err(PairingError::OfferNotFerry), 1_000, NOW).err().unwrap();
    assert_eq!(code_of(&other), "PairingError::OfferNotFerry");

    let mut dial = engine.offer_scanned(Ok(offer(2, NOW + 1)), 1_000, NOW).ok().unwrap();
    assert!(matches!(dial.next(true), DialStep::Stop));
    let DialStep::Dial(addr) = dial.next(false) else { panic!("there is an address") };
    assert_eq!(addr, v4(192, 168, 1, 7, 4_000));
    dial.failed(TcpError::Timeout);
    let DialStep::Failed(error) = dial.next(false) else { panic!("there is no other address") };
    assert_eq!(code_of(&error), "TcpError::Timeout");

    let busy = engine.offer_scanned(Ok(offer(3, NOW + 1)), 1_000, NOW).err().unwrap();
    assert_eq!(code_of(&busy), "Runtime::PairingBusy");
    assert!(engine.hold_scanned_pairing(requested(2, true)));
    let Confirmed::Store(stored) = engine.confirm_pairing(true) else {
        panic!("the names were exchanged already")
    };
    assert_eq!(stored.peer, [2; 32]);
}

#[test]
fn an_offer_is_taken_by_one_device() {
    let mut engine = engine(&[]);
    let StartPairing::Offer(nonce, expires) =
        engine.start_pairing_with(PairingMethod::Qr, 1_000, NOW)
    else {
        panic!("an offer is drawn")
    };
    engine.start_offering(nonce, vec![1, 2, 3], expires);
    assert!(engine.pairing.is_offering());
    assert!(engine.pairing.accepts_inbound());
    assert!(engine.hold_qr_pairing(requested(2, false)));
    assert!(!engine.hold_qr_pairing(requested(3, false)));
    let Confirmed::Exchange(held, Some((name, kind))) = engine.confirm_pairing(true) else {
        panic!("the names are exchanged next")
    };
    assert_eq!(held.peer, [2; 32]);
    assert_eq!(name, "Pixel");
    assert_eq!(kind, DeviceKind::Phone);
}

#[test]
fn the_name_of_an_offer_has_to_be_the_one_that_was_shown() {
    let expected = Some(("Pixel".to_owned(), DeviceKind::Phone));
    assert!(checked_name(&expected, "Pixel", DeviceKind::Phone).is_ok());
    assert!(checked_name(&expected, "Pixel", DeviceKind::Mac).is_err());
    assert!(checked_name(&expected, "Other", DeviceKind::Phone).is_err());
    assert!(checked_name(&None, "Other", DeviceKind::Phone).is_ok());
}

#[test]
fn names_are_waited_for_until_a_deadline() {
    assert!(matches!(hello_wait(HelloEvent::Tick, false, 1, 10), HelloStep::Wait));
    assert!(matches!(hello_wait(HelloEvent::Tick, true, 1, 10), HelloStep::Failed(_)));
    let HelloStep::Failed(late) = hello_wait(HelloEvent::Tick, false, 10, 10) else {
        panic!("it is over")
    };
    assert_eq!(code_of(&late), "TcpError::Timeout");
    let HelloStep::Failed(gone) = hello_wait(HelloEvent::Gone, false, 1, 10) else {
        panic!("it is over")
    };
    assert_eq!(code_of(&gone), "FrameError::Io");
    let said = HelloEvent::Answer(Ok(("Pixel".to_owned(), DeviceKind::Phone)));
    assert!(matches!(hello_wait(said, false, 1, 10), HelloStep::Named(_, DeviceKind::Phone)));
    let refused = HelloEvent::Answer(Err(RpcError::BadName));
    assert!(matches!(hello_wait(refused, false, 1, 10), HelloStep::Failed(_)));
}

#[test]
fn a_device_nearby_can_be_picked() {
    let mut engine = engine(&[]);
    let nobody = engine.pick_candidate("ferry-00ab12").err().unwrap();
    assert_eq!(code_of(&nobody), "Runtime::NoCandidate");
    engine.start_pairing_with(PairingMethod::Code, 1_000, NOW);
    assert!(engine.on_discovered("ferry-00ab12", v4(192, 168, 1, 7, 4_000)));
    let shown = engine.pairing.candidate_list();
    assert_eq!(shown.len(), 1);
    assert_eq!(shown[0].short_code, "ab12");
    assert_eq!(shown[0].transport, Transport::Wifi);
    let id = shown[0].id.clone();
    assert_eq!(engine.pick_candidate(&id).ok().unwrap(), v4(192, 168, 1, 7, 4_000));
    let busy = engine.pick_candidate(&id).err().unwrap();
    assert_eq!(code_of(&busy), "Runtime::PairingBusy");
    engine.pairing_failed(&TcpError::Timeout, true);
    engine.on_lost("ferry-00ab12");
    assert!(engine.pairing.candidate_list().is_empty());
}

#[test]
fn a_plugged_phone_is_a_candidate_and_a_target() {
    let mut engine = engine(&[1]);
    engine.start_pairing_with(PairingMethod::Code, 1_000, NOW);
    let gone = engine.poll_adb_once(&vec!["SERIAL42".to_owned()], &vec![Some(6_000)]);
    assert!(gone.is_empty());
    assert_eq!(engine.pairing.candidate_list()[0].transport, Transport::Usb);
    let targets = engine.dial_targets(&hex(1));
    assert_eq!(targets[0].addr, Addr::local(6_000));
    assert_eq!(targets[0].via, Transport::Usb);
    let gone = engine.poll_adb_once(&Vec::new(), &Vec::new());
    assert_eq!(gone.len(), 1);
    assert_eq!(gone[0].serial, "SERIAL42");
}

#[test]
fn candidates_are_named_by_their_ends() {
    assert_eq!(last_four("abcdef"), "cdef");
    assert_eq!(last_four("ab"), "ab");
    assert_eq!(wifi_candidate("ferry-1234").short_code, "1234");
    assert_eq!(usb_candidate("SERIAL42").transport, Transport::Usb);
    assert_ne!(usb_candidate("x").id, wifi_candidate("x").id);
}

#[test]
fn a_peer_is_probed_once_in_a_while() {
    let mut discovery = Discovery::new();
    let mut peers = Peers::new();
    peers.add(peer(1)).unwrap();
    assert_eq!(discovery.start_probes(&peers, 10_000), vec![hex(1)]);
    assert!(discovery.start_probes(&peers, 10_001).is_empty());
    assert_eq!(discovery.start_probes(&peers, 10_000 + PROBE_MIN_INTERVAL_MS), vec![hex(1)]);
    assert_eq!(discovery.probes, 2);
}

#[test]
fn an_address_found_again_is_no_news() {
    let mut discovery = Discovery::new();
    let addr = v4(192, 168, 1, 7, 4_000);
    assert!(discovery.remember_address(addr));
    assert!(!discovery.remember_address(addr));
    let targets = discovery.dial_targets(Some(addr));
    assert_eq!(targets.len(), 1, "each address once");
}

#[test]
fn only_addresses_of_a_local_network_are_dialed() {
    assert!(Addr::local(1).is_loopback());
    assert!(v4(169, 254, 1, 1, 1).is_link_local());
    assert!(v4(10, 0, 0, 1, 1).is_private());
    assert!(v4(172, 16, 0, 1, 1).is_private());
    assert!(v4(172, 31, 255, 255, 1).is_private());
    assert!(v4(192, 168, 0, 1, 1).is_private());
    assert!(!v4(172, 32, 0, 1, 1).is_private());
    assert!(!v4(8, 8, 8, 8, 1).is_private());
    let kept = dialable_addresses(&vec![Addr::local(1), v4(192, 168, 0, 1, 1)]);
    assert_eq!(kept, vec![v4(192, 168, 0, 1, 1)]);
    let mut many = Vec::new();
    for i in 0..20 {
        many.push(v4(192, 168, 0, i, 1));
    }
    assert_eq!(addresses_to_dial(&many).len(), MAX_DIAL_ADDRESSES);
}

#[test]
fn a_caller_is_welcome_where_the_engine_may_be_seen() {
    let near = v4(192, 168, 1, 7, 4_000);
    assert!(welcomes_inbound(true, true, false, near));
    assert!(!welcomes_inbound(true, false, false, near));
    assert!(welcomes_inbound(false, false, true, near), "a pairing is expected");
    assert_eq!(transport_for_inbound(Addr::local(1), false), Transport::Usb);
    assert_eq!(transport_for_inbound(Addr::local(1), true), Transport::Wifi);
    assert_eq!(transport_for_inbound(near, true), Transport::Wifi);
    assert_eq!(phone_port(), FERRY_PHONE_PORT);
}

#[test]
fn so_many_callers_are_served_at_once() {
    let mut slots = InboundSlots::new();
    assert!(!slots.reserve(true, true));
    assert!(!slots.reserve(false, false));
    for _ in 0..MAX_INBOUND_CONNECTIONS {
        assert!(slots.reserve(false, true));
    }
    assert!(!slots.reserve(false, true));
    slots.ended();
    assert!(slots.reserve(false, true));
}

#[test]
fn a_caller_that_pairs_is_heard_only_while_a_pairing_goes_on() {
    let mut pairing = Pairing::idle();
    assert!(matches!(handle_inbound(Mode::PairByCode, &pairing), Inbound::Drop));
    assert!(matches!(handle_inbound(Mode::Connect, &pairing), Inbound::Connect));
    pairing.begin(1_000, NOW, 1_000);
    pairing.set(PairingState::Waiting { expires_unix_secs: NOW });
    assert!(matches!(handle_inbound(Mode::PairByCode, &pairing), Inbound::PairByCode));
    assert!(matches!(handle_inbound(Mode::PairByQr, &pairing), Inbound::Drop));
    pairing.offer(vec![1; 16], PairingOffer { payload: vec![1], expires_unix_secs: NOW });
    assert!(matches!(handle_inbound(Mode::PairByQr, &pairing), Inbound::PairByQr));
}

#[test]
fn the_peer_last_seen_at_an_address_is_tried_first() {
    let mut peers = Peers::new();
    peers.add(peer(1)).unwrap();
    peers.add(peer(2)).unwrap();
    let mut live = LiveTable::new();
    let addr = v4(192, 168, 1, 7, 4_000);
    live.mark_reachable(&hex(2), addr, Transport::Wifi, NOW);
    let keys = candidate_peers(&peers, &live, addr, [0; 32]);
    assert_eq!(keys[0], [2; 32]);
    assert_eq!(keys.len(), 2);
    assert_eq!(candidate_peers(&Peers::new(), &live, addr, [9; 32]), vec![[9; 32]]);
}

fn told(engine: &mut Engine<Quiet>) -> Vec<Report> {
    engine.notify.take_reports().map_or(Vec::new(), |(_, reports)| reports)
}

#[test]
fn every_step_of_a_pairing_is_told() {
    let mut engine = engine(&[]);
    engine.start_pairing_with(PairingMethod::Code, 1_000, NOW);
    let reports = told(&mut engine);
    assert_eq!(reports.len(), 1);
    assert!(matches!(reports[0], Report::Pairing(PairingState::Waiting { .. })));
    assert!(engine.hold_pairing(held(2), "123456".to_owned(), NOW));
    let reports = told(&mut engine);
    assert!(matches!(reports[0], Report::Pairing(PairingState::Code { .. })));
    engine.cancel_pairing();
    let reports = told(&mut engine);
    assert_eq!(reports.len(), 1);
    assert!(matches!(reports[0], Report::Pairing(PairingState::Idle)));
    engine.fail_pairing(FerryError::Failed { code: "x".to_owned(), detail: None });
    assert!(told(&mut engine).is_empty(), "a pairing that is over has no failure to show");
}

#[test]
fn the_last_state_is_told_before_the_engine_stops() {
    let mut engine = engine(&[]);
    engine.set_reachable(true);
    assert!(engine.claim_timer());
    assert!(!engine.claim_timer(), "one waits at a time");
    engine.report_due(1_000, NOW, false);
    assert!(matches!(told(&mut engine)[..], [Report::Devices]));
    engine.set_reachable(false);
    engine.report_due(1_001, NOW, false);
    assert!(told(&mut engine).is_empty(), "it is too soon");
    assert!(engine.begin_stop());
    assert!(engine.notify_timer(1_002, NOW));
    assert!(matches!(told(&mut engine)[..], [Report::Devices]));
    engine.stop();
    engine.set_reachable(true);
    engine.report_due(9_000, NOW, true);
    engine.cancel_pairing();
    assert!(engine.notify.take_reports().is_none());
}

#[test]
fn an_offer_carries_the_nonce_that_was_drawn() {
    let mut one = engine(&[]);
    let start = one.start_pairing_drawn(PairingMethod::Qr, Some(vec![9; 16]), 1_000, NOW);
    let StartPairing::Offer(nonce, expires) = start else { panic!("an offer is drawn") };
    assert_eq!(nonce, vec![9; 16]);
    assert_eq!(expires, NOW + 120);
    let mut two = engine(&[]);
    let start = two.start_pairing_drawn(PairingMethod::Qr, None, 1_000, NOW);
    assert!(matches!(start, StartPairing::NoRandomness));
    assert!(matches!(&two.pairing.shown, PairingState::Failed { error }
        if code_of(error) == "Runtime::NoRandomness"));
}

#[test]
fn only_a_pairing_hears_of_a_handshake_that_failed() {
    let unknown = TcpError::Noise(NoiseError::UnknownOffer);
    for heard in [None, Some(Inbound::Connect), Some(Inbound::Drop)] {
        let mut engine = engine(&[1]);
        engine.start_pairing_with(PairingMethod::Code, 1_000, NOW);
        engine.inbound_failed(heard, &TcpError::Timeout);
        assert!(matches!(engine.pairing.shown, PairingState::Waiting { .. }));
    }
    for heard in [Inbound::PairByCode, Inbound::PairByQr] {
        let mut engine = engine(&[1]);
        engine.start_pairing_with(PairingMethod::Code, 1_000, NOW);
        engine.inbound_failed(Some(heard), &TcpError::Timeout);
        assert!(matches!(&engine.pairing.shown, PairingState::Failed { error }
            if code_of(error) == "TcpError::Timeout"));
    }
    let mut scanned = engine(&[1]);
    scanned.start_pairing_with(PairingMethod::Code, 1_000, NOW);
    scanned.inbound_failed(Some(Inbound::PairByQr), &unknown);
    assert!(matches!(scanned.pairing.shown, PairingState::Waiting { .. }));
    scanned.inbound_failed(Some(Inbound::PairByCode), &unknown);
    assert!(matches!(scanned.pairing.shown, PairingState::Failed { .. }));
}
