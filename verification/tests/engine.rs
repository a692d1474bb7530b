use ferry_runtime::auto_copy::{AutoCopyStore, RootStep};
use ferry_runtime::access::codec::EntryFields;
use ferry_runtime::core_errors::{NoiseError, OpError, PeerError, RpcError};
use ferry_runtime::engine::addr::Addr;
use ferry_runtime::engine::copying::{CopyEnd, CopyStep};
use ferry_runtime::engine::devices::{record_removed, Removal, Serve};
use ferry_runtime::engine::lifecycle::StartStep;
use ferry_runtime::engine::queue::FolderStep;
use ferry_runtime::engine::remote::ListStep;
use ferry_runtime::engine::state::{
    assumed_peer_kind, checked_config, open_error, Engine, OpenFailure, Stored,
};
use ferry_runtime::dav::mounts::Start;
use ferry_runtime::folder::FoundFile;
use ferry_runtime::held::{HeldRow, HeldStore};
use ferry_runtime::limits::{CHUNK_SIZE, MAX_SERVING_PER_PEER};
use ferry_runtime::networks::TrustedNetworks;
use ferry_runtime::path::RemotePath;
use ferry_runtime::peers::{Peer, Peers};
use ferry_runtime::transfers::Retry;
use ferry_runtime::types::{
    AccessVerb, Actor, Config, DeviceKind, EngineListener, Entry, EntryKind, FerryError, KeyPair,
    PairingState, Root, TransferState, Transport,
};

struct Quiet;

impl EngineListener for Quiet {
    fn devices_changed(&self) {}

    fn transfers_changed(&self) {}

    fn pairing_changed(&self, _state: PairingState) {}

    fn access_log_changed(&self) {}
}

const NOW: i64 = 1_700_000_000;

fn config() -> Config {
    Config {
        data_dir: "/data".to_owned(),
        shared_roots: vec![Root {
            name: "Desktop".to_owned(),
            path: "/home/me/Desktop".to_owned(),
            writable: true,
        }],
        download_dir: "/home/me/Downloads".to_owned(),
        display_name: "This Mac".to_owned(),
        listen_port: 0,
        key: KeyPair { private: vec![7; 32], public: vec![8; 32] },
        kind: DeviceKind::Mac,
    }
}

fn peer(byte: u8) -> Peer {
    Peer {
        key: [byte; 32],
        name: "Pixel".to_owned(),
        paired_unix_secs: 5,
        kind: DeviceKind::Phone,
    }
}

fn hex(byte: u8) -> String {
    format!("{byte:02x}").repeat(32)
}

fn stored(peers: &[u8]) -> Stored {
    let mut list = Peers::new();
    for byte in peers {
        list.add(peer(*byte)).unwrap();
    }
    Stored {
        peers: list,
        trusted: TrustedNetworks::empty(),
        auto_copy: AutoCopyStore::load(None),
        held: HeldStore::load(None),
    }
}

/// An engine that listens, with these devices paired.
fn started(peers: &[u8]) -> Engine<Quiet> {
    let config = checked_config(config(), Ok(())).ok().expect("the configuration is good");
    let mut engine = Engine::new(config, stored(peers), true, Quiet);
    assert!(matches!(engine.start(), StartStep::OpenRoots));
    let roots = engine.roots();
    engine.set_roots(roots);
    assert!(matches!(engine.start(), StartStep::OpenDownload));
    engine.download_opened();
    assert!(matches!(engine.start(), StartStep::OpenLog));
    engine.log_opened();
    assert!(matches!(engine.start(), StartStep::Bind));
    engine.bound(Addr::local(4_000));
    assert!(matches!(engine.start(), StartStep::Started));
    engine
}

fn code_of(error: &FerryError) -> String {
    let FerryError::Failed { code, .. } = error;
    code.clone()
}

#[test]
fn a_private_key_does_not_stay_in_the_configuration() {
    let checked = checked_config(config(), Ok(())).ok().expect("the configuration is good");
    assert!(checked.key.private.is_empty());
    assert_eq!(checked.key.public, vec![8; 32]);
}

#[test]
fn a_bad_configuration_is_refused() {
    let refused = checked_config(config(), Err(NoiseError::BadKeyLength)).err().unwrap();
    assert_eq!(code_of(&refused), "NoiseError::BadKeyLength");

    let long = Config { display_name: "x".repeat(65), ..config() };
    assert_eq!(code_of(&checked_config(long, Ok(())).err().unwrap()), "Runtime::NameTooLong");
    let empty = Config { display_name: String::new(), ..config() };
    assert_eq!(code_of(&checked_config(empty, Ok(())).err().unwrap()), "Runtime::NameTooLong");

    let rootless = Config { shared_roots: Vec::new(), ..config() };
    assert_eq!(code_of(&checked_config(rootless, Ok(())).err().unwrap()), "Runtime::BadConfig");
}

#[test]
fn what_could_not_be_opened_is_said() {
    let FerryError::Failed { code, detail } = open_error(OpenFailure::LockHeld);
    assert_eq!(code, "Runtime::BadConfig");
    assert_eq!(
        detail,
        Some("Another copy of Ferry is running. Quit it and try again.".to_owned())
    );
    assert_eq!(assumed_peer_kind(DeviceKind::Mac), DeviceKind::Phone);
    assert_eq!(assumed_peer_kind(DeviceKind::Phone), DeviceKind::Mac);
}

#[test]
fn a_new_engine_is_not_reachable_elsewhere() {
    let mut engine = started(&[]);
    assert_eq!(engine.listen_addr(), Some(Addr::local(4_000)));
    engine.set_reachable(true);
    engine.set_network(Some("cafe".to_owned()));
    assert!(engine.presence().advertise, "with no network trusted, every one is");
    let change = engine.trust_network("home").unwrap().expect("it was not trusted");
    engine.networks_saved(change, true).unwrap();
    assert!(!engine.presence().advertise, "a network that is not trusted stays silent");
    assert!(!engine.status().wifi_presence);

    let change = engine.trust_network("cafe").unwrap().expect("it was not trusted");
    engine.networks_saved(change, true).unwrap();
    assert_eq!(engine.trusted_networks(), vec!["home".to_owned(), "cafe".to_owned()]);
    assert!(engine.presence().advertise);
    assert!(engine.presence().browse);

    engine.set_reachable(false);
    assert!(!engine.presence().advertise);

    let change = engine.forget_network("cafe").expect("it was trusted");
    engine.networks_saved(change, true).unwrap();
    engine.set_reachable(true);
    assert!(!engine.presence().advertise);
}

#[test]
fn a_list_of_networks_that_was_not_written_stays_as_it_was() {
    let mut engine = started(&[]);
    let change = engine.trust_network("home").unwrap().unwrap();
    assert!(engine.networks_saved(change, false).is_err());
    assert!(engine.trusted_networks().is_empty());
}

#[test]
fn a_call_names_a_paired_device_and_a_path() {
    let engine = started(&[1]);
    assert_eq!(engine.remote_call(&hex(1), "DCIM/a").unwrap().as_str(), "DCIM/a");
    assert_eq!(code_of(&engine.remote_call(&hex(2), "DCIM").err().unwrap()), "Runtime::NotPaired");
    assert_eq!(code_of(&engine.remote_call("nothex", "a").err().unwrap()), "Runtime::NotPaired");
    assert_eq!(
        code_of(&engine.remote_call(&hex(1), "../a").err().unwrap()),
        "PathError::ParentComponent"
    );
    let config = checked_config(config(), Ok(())).ok().unwrap();
    let resting = Engine::new(config, stored(&[1]), false, Quiet);
    assert_eq!(
        code_of(&resting.remote_call(&hex(1), "DCIM").err().unwrap()),
        "Runtime::NotStarted"
    );
}

#[test]
fn a_call_that_worked_is_logged_and_one_that_failed_is_told() {
    let engine = started(&[1]);
    let call = engine.read_at(&hex(1), "DCIM/a.jpg", 0, 10).unwrap();
    let logged = call.answered(Ok(Some(10))).ok().unwrap();
    assert_eq!(logged.verb, AccessVerb::Read);
    assert_eq!(logged.path, "DCIM/a.jpg");
    assert_eq!(logged.bytes, Some(10));

    let call = engine.mkdir(&hex(1), "DCIM/New").unwrap();
    let failed = call.answered(Err(RpcError::Remote(OpError::AlreadyExists))).err().unwrap();
    assert_eq!(code_of(&failed.error), "OpError::AlreadyExists");
    assert!(!failed.unhealthy, "the device answered");

    let call = engine.delete(&hex(1), "DCIM/New").unwrap();
    let failed = call.answered(Err(RpcError::MismatchedRequestId)).err().unwrap();
    assert!(failed.unhealthy);
}

fn entry(name: &str, kind: EntryKind, size: u64) -> Entry {
    Entry { name: name.to_owned(), kind, size, modified_unix_secs: 9 }
}

#[test]
fn a_listing_goes_on_until_its_last_page() {
    let engine = started(&[1]);
    let call = engine.list(&hex(1), "DCIM").unwrap();
    assert_eq!(call.cursor(), 0);
    let ListStep::More(call) = call.page(Ok((vec![entry("a", EntryKind::File, 1)], Some(1)))) else {
        panic!("there is another page")
    };
    assert_eq!(call.cursor(), 1);
    let ListStep::Done(entries, logged) = call.page(Ok((vec![entry("b", EntryKind::File, 1)], None)))
    else {
        panic!("that was the last page")
    };
    assert_eq!(entries.len(), 2);
    assert_eq!(logged.entries, Some(2));
    assert_eq!(logged.verb, AccessVerb::List);
}

#[test]
fn a_device_that_is_forgotten_is_gone_with_all_it_left() {
    let mut engine = started(&[1, 2]);
    engine.mark_reachable(&hex(1), Addr::local(9), Transport::Wifi, NOW);
    let id = engine.pull(&hex(1), "DCIM/a.jpg", "a.jpg", NOW).unwrap();
    assert_eq!(engine.transfers().len(), 1);
    assert_eq!(engine.devices(NOW).len(), 2);

    let forgetting = engine.forget(&hex(1)).ok().unwrap();
    assert_eq!(forgetting.peers.len(), 1);
    let gone = engine.forgotten(&hex(1), Ok(())).ok().unwrap();
    assert_eq!(gone.transfers, vec![id]);
    assert!(engine.device(&hex(1), NOW).is_none());
    assert!(engine.device(&hex(2), NOW).is_some());
    assert!(engine.transfers().is_empty());
    assert_eq!(code_of(&engine.forget(&hex(1)).err().unwrap()), "Runtime::NotPaired");
}

#[test]
fn a_device_whose_removal_was_not_written_stays() {
    let mut engine = started(&[1]);
    assert!(engine.forget(&hex(1)).is_ok());
    let refused = engine.forgotten(&hex(1), Err(PeerError::Io)).err().unwrap();
    assert_eq!(code_of(&refused), "PeerError::Io");
    assert!(engine.device(&hex(1), NOW).is_some());
    assert!(record_removed(Removal::Removed).is_ok());
    assert!(record_removed(Removal::Missing).is_ok());
    assert!(record_removed(Removal::Refused).is_err());
}

#[test]
fn a_device_that_was_reached_is_shown_so() {
    let mut engine = started(&[1]);
    let shown = engine.device(&hex(1), NOW).unwrap();
    assert_eq!(shown.reachable_via, None);
    assert!(!engine.mark_reachable(&hex(1), Addr::local(9), Transport::Usb, NOW));
    let shown = engine.device(&hex(1), NOW).unwrap();
    assert_eq!(shown.reachable_via, Some(Transport::Usb));
    assert_eq!(shown.last_seen_unix_secs, Some(NOW));
    assert_eq!(shown.name, "Pixel");
}

#[test]
fn a_peer_is_served_on_so_many_connections_at_once() {
    let mut engine = started(&[1]);
    for _ in 0..MAX_SERVING_PER_PEER {
        assert!(engine.register_serving(&hex(1), Addr::local(9), true).is_some());
    }
    assert!(engine.register_serving(&hex(1), Addr::local(9), true).is_none());
    let over = engine.register_serving(&hex(1), Addr::local(9), false);
    assert!(over.is_some(), "only what is capped counts");
    engine.serving_ended(&hex(1), over.unwrap(), NOW);
}

#[test]
fn a_device_that_says_another_name_is_renamed() {
    let mut engine = started(&[1]);
    let connection = engine.register_serving(&hex(1), Addr::local(9), true).unwrap();
    let serve = engine.serve_named(
        &hex(1),
        connection,
        "Pixel 9".to_owned(),
        Addr::local(9),
        Transport::Wifi,
        NOW,
    );
    let Serve::Serve(named) = serve else { panic!("a paired device is served") };
    let renamed = named.renamed.expect("the name is another");
    assert_eq!(renamed.get(&hex(1)).unwrap().name, "Pixel 9");
    engine.peers_saved(renamed, Ok(())).unwrap();
    assert_eq!(engine.device(&hex(1), NOW).unwrap().name, "Pixel 9");

    let connection = engine.register_serving(&hex(3), Addr::local(9), true).unwrap();
    let stranger = engine.serve_named(
        &hex(3),
        connection,
        "Other".to_owned(),
        Addr::local(9),
        Transport::Wifi,
        NOW,
    );
    assert!(matches!(stranger, Serve::Forgotten));
}

#[test]
fn a_mount_is_made_once() {
    let mut engine = started(&[1]);
    let (start, name) = engine.mount_start(&hex(1)).ok().unwrap();
    assert!(matches!(start, Start::Begin));
    assert_eq!(name, "Pixel");
    assert!(matches!(engine.mount_start(&hex(1)).ok().unwrap().0, Start::Wait));
    let endpoint = engine.mount_bound(&hex(1), Ok(8_080)).ok().unwrap();
    assert_eq!(endpoint.url, "http://127.0.0.1:8080/");
    assert_eq!(endpoint.password.len(), 32);
    let (start, _) = engine.mount_start(&hex(1)).ok().unwrap();
    let Start::Running(again) = start else { panic!("the mount runs") };
    assert_eq!(again.password, endpoint.password);
    assert!(engine.mount_stop(&hex(1)).is_some());
    assert!(engine.mount_stop(&hex(1)).is_none());
    assert_eq!(code_of(&engine.mount_start(&hex(2)).err().unwrap()), "Runtime::NotPaired");
}

#[test]
fn a_mount_that_did_not_bind_says_why() {
    let mut engine = started(&[1]);
    assert!(engine.mount_start(&hex(1)).is_ok());
    let FerryError::Failed { code, detail } =
        engine.mount_bound(&hex(1), Err("the port is taken".to_owned())).err().unwrap();
    assert_eq!(code, "Runtime::MountFailed");
    assert_eq!(detail, Some("the port is taken".to_owned()));
}

#[test]
fn a_pull_is_queued_under_an_id_of_its_own() {
    let mut engine = started(&[1]);
    let one = engine.pull(&hex(1), "DCIM/a.jpg", "a.jpg", NOW).unwrap();
    let two = engine.pull(&hex(1), "DCIM/a.jpg", "a.jpg", NOW).unwrap();
    assert_ne!(one, two);
    assert!(one.starts_with(&hex(1)));
    let rows = engine.transfers();
    assert_eq!(rows.len(), 2);
    assert_eq!(rows[0].state, TransferState::Queued);
    assert_eq!(rows[0].file_name, "a.jpg");
    assert_eq!(code_of(&engine.pull(&hex(2), "a", "a", NOW).err().unwrap()), "Runtime::NotPaired");
    assert_eq!(code_of(&engine.pull(&hex(1), "", "a", NOW).err().unwrap()), "PathError::Empty");
}

#[test]
fn a_transfer_that_waits_is_not_queued_twice() {
    let mut engine = started(&[1]);
    let id = engine.pull(&hex(1), "DCIM/a.jpg", "a.jpg", NOW).unwrap();
    let done = engine.retry(&id);
    assert_eq!(done.result.ok().unwrap(), Retry::Queued);
    assert_eq!(engine.transfers().len(), 1);
    let unknown = engine.retry("nothing");
    assert_eq!(code_of(&unknown.result.err().unwrap()), "Runtime::TransferNotFound");
}

#[test]
fn a_folder_comes_as_one_batch() {
    let mut engine = started(&[1]);
    let call = engine.pull_folder(&hex(1), "Phone/DCIM").ok().unwrap();
    let page = vec![entry("a.jpg", EntryKind::File, 3), entry("b.jpg", EntryKind::File, 4)];
    let FolderStep::Listed(listed) = call.page(Ok((page, None))) else {
        panic!("the folder is listed")
    };
    assert_eq!(listed.files.len(), 2);
    let (logged, made) = engine.folder_listed(listed, NOW);
    assert_eq!(logged.verb, AccessVerb::Read);
    assert_eq!(logged.bytes, Some(7));
    assert_eq!(logged.files, Some(2));
    let batch = made.ok().unwrap();
    let ids = engine.batch_written(batch, true).ok().unwrap();
    assert_eq!(ids.len(), 2);
    let shown = engine.batches();
    assert_eq!(shown.len(), 1);
    assert_eq!(shown[0].files_total, 2);
    assert_eq!(shown[0].files_done, 0);
    assert_eq!(shown[0].state, TransferState::Queued);
    assert_eq!(engine.transfers().len(), 2);
}

#[test]
fn a_batch_that_was_not_written_is_not_queued() {
    let mut engine = started(&[1]);
    let source = RemotePath::parse("Phone/DCIM").unwrap();
    let files = vec![FoundFile {
        path: RemotePath::parse("Phone/DCIM/a.jpg").unwrap(),
        size: 3,
        modified_unix_secs: 1,
    }];
    let batch = engine.copy_batch(&hex(1), &source, &files, NOW).ok().unwrap();
    assert!(engine.batch_written(batch, false).is_err());
    assert!(engine.transfers().is_empty());
    assert!(engine.batches().is_empty());
}

#[test]
fn a_switch_that_is_on_starts_one_run() {
    let mut engine = started(&[1]);
    engine.mark_reachable(&hex(1), Addr::local(9), Transport::Wifi, NOW);
    assert!(!engine.auto_copy(&hex(1)).enabled);
    assert!(engine.set_auto_copy(&hex(1), true).is_ok());
    assert_eq!(engine.auto_copy_saved(&hex(1), true, true).ok().unwrap(), true);
    assert!(!engine.is_copying(&hex(1)), "no file moves yet");
    assert!(!engine.maybe_start_copy(&hex(1)), "one run at a time");

    let CopyStep::Walk(dir) = engine.copy_root(&hex(1), RootStep::Found("Phone".to_owned()), NOW)
    else {
        panic!("the camera folder is walked")
    };
    assert_eq!(dir.as_str(), "Phone/DCIM");
    let files = vec![FoundFile {
        path: RemotePath::parse("Phone/DCIM/a.jpg").unwrap(),
        size: 3,
        modified_unix_secs: 1,
    }];
    let CopyEnd::Batch(batch) = engine.copy_checked(&hex(1), &dir, &files, NOW) else {
        panic!("one file is new")
    };
    assert_eq!(engine.batch_written(batch, true).ok().unwrap().len(), 1);
    engine.copy_ended(&hex(1));
    assert!(engine.is_copying(&hex(1)), "a file of the run is queued");
    assert!(engine.maybe_start_copy(&hex(1)), "the run is over");
    assert_eq!(engine.auto_copy(&hex(1)).source, "Phone/DCIM");
}

#[test]
fn a_run_that_finds_nothing_is_recorded() {
    let mut engine = started(&[1]);
    engine.set_auto_copy(&hex(1), true).unwrap();
    assert!(matches!(engine.copy_root(&hex(1), RootStep::NoRoots, NOW), CopyStep::Nothing(_)));
    assert_eq!(engine.auto_copy(&hex(1)).last_run_unix_secs, Some(NOW));
    assert_eq!(engine.auto_copy(&hex(1)).last_run_files, Some(0));
    let row = HeldRow {
        device_key_hex: hex(1),
        source_path: "Phone/DCIM/a.jpg".to_owned(),
        size: 3,
        mtime: 1,
        root: [1; 32],
    };
    engine.held.record(row);
    assert!(engine.held.contains_root(&[1; 32]));
}

#[test]
fn a_stopped_engine_serves_nobody() {
    let mut engine = started(&[1]);
    engine.mark_reachable(&hex(1), Addr::local(9), Transport::Wifi, NOW);
    engine.set_reachable(true);
    assert!(engine.accept(Addr::local(1)), "this machine may always call");
    assert_eq!(engine.accepted_connections(), 1);
    assert!(engine.begin_stop());
    assert!(!engine.begin_stop(), "once only");
    engine.stop();
    assert!(!engine.accept(Addr::local(1)));
    assert!(!engine.presence().advertise);
    assert!(!engine.presence().browse);
    assert!(!engine.status().reachable || !engine.status().wifi_presence);
}

#[test]
fn what_is_served_is_logged_once_it_is_idle() {
    let mut engine = started(&[1]);
    let fields = EntryFields {
        device_key_hex: hex(1),
        actor: Actor::Peer,
        verb: AccessVerb::Read,
        path: "Desktop/a".to_owned(),
        bytes: Some(4),
        entries: None,
        files: None,
    };
    assert!(engine.served(1, fields, NOW).is_empty());
    assert!(engine.access_tick(NOW + 4).is_empty());
    let finished = engine.access_tick(NOW + 5);
    assert_eq!(finished.len(), 1);
    assert_eq!(finished[0].fields.bytes, Some(4));
    assert!(engine.access_log(None, 10).is_some());
}

#[test]
fn four_workers_move_bytes_at_most() {
    let mut engine = started(&[1]);
    for _ in 0..4 {
        assert!(engine.claim_worker());
    }
    assert!(!engine.claim_worker());
    assert_eq!(engine.transfer_workers(), 4);
    engine.worker_ended();
    assert!(engine.claim_worker());
    engine.count_wire_bytes(100);
    assert_eq!(engine.wire_bytes(), 100);
}

#[test]
fn a_chunk_size_is_a_power_of_two_within_bounds() {
    let mut engine = started(&[]);
    assert!(engine.set_chunk_size(65_536).is_ok());
    assert_eq!(
        code_of(&engine.set_chunk_size(65_537).err().unwrap()),
        "ChunkSizeError::NotPowerOfTwo"
    );
    assert_eq!(code_of(&engine.set_chunk_size(16).err().unwrap()), "ChunkSizeError::TooSmall");
    assert_eq!(
        code_of(&engine.set_chunk_size(u32::MAX).err().unwrap()),
        "ChunkSizeError::TooLarge"
    );
    assert!(engine.set_chunk_size(CHUNK_SIZE).is_ok());
    assert_eq!(engine.take_cut(), None);
    engine.set_cut(7);
    assert_eq!(engine.take_cut(), Some(7));
    assert_eq!(engine.take_cut(), None);
}

#[test]
fn the_short_code_is_the_end_of_the_advertised_name() {
    let mut engine = started(&[]);
    assert_eq!(engine.short_code(), None);
    engine.set_advertised(Some("ferry-00ab12".to_owned()));
    assert_eq!(engine.short_code(), Some("ab12".to_owned()));
}

#[test]
fn a_new_engine_has_nothing_under_way() {
    let config = checked_config(config(), Ok(())).ok().unwrap();
    let mut engine = Engine::new(config, stored(&[1]), false, Quiet);
    assert_eq!(engine.copying.len(), 0);
    assert_eq!(engine.pools.len(), 0);
    assert_eq!(engine.mounts.mounts.len(), 0);
    assert_eq!(engine.mounts.starting.len(), 0);
    assert!(engine.mounts.spool_bytes.needs_walk());
    assert_eq!(engine.mounts.spool_bytes.get(), 0);
    assert!(engine.discovery.found.is_empty());
    assert!(engine.discovery.forwards.is_empty());
    assert_eq!(engine.discovery.last_probe.len(), 0);
    assert_eq!(engine.discovery.probes, 0);
    assert_eq!(engine.notify.next_turn(0), None);
    let (_, reports) = engine.notify.take_reports().unwrap();
    assert!(reports.is_empty());
}
