use ferry_runtime::batch::BatchRecord;
use ferry_runtime::core_errors::ChunkSizeError;
use ferry_runtime::engine::queue::batch_with_ids;
use ferry_runtime::folder::FoundFile;
use ferry_runtime::limits::{BACKOFF_MIN_MS, CHUNK_SIZE};
use ferry_runtime::manifest::check_chunk_size;
use ferry_runtime::networks::{
    browse_allowed_rule, wifi_presence_rule, TrustedNetworks, NETWORK_LIMIT,
};
use ferry_runtime::path::RemotePath;
use ferry_runtime::peers::{Peer, Peers};
use ferry_runtime::textmap::TextMap;
use ferry_runtime::transfers::{
    batch_of, id_from, key_of_id, landing_path, new_id, queued_row, record_id_of,
    row_from_record, rows_for_folder, total_listed_bytes, BatchFile, NewTransfer, Progress, Retry, SavedTransfer,
    TransferRow, Transfers,
};
use ferry_runtime::types::{DeviceKind, Direction, FerryError, Origin, TransferState};
use ferry_runtime::wire::{decode_i64, encode_i64, put_text, put_u32, put_u64, Decoder};

fn path(text: &str) -> RemotePath {
    RemotePath::parse(text).unwrap()
}

fn device() -> String {
    "01".repeat(32)
}

fn peers() -> Peers {
    let mut peers = Peers::new();
    peers
        .add(Peer {
            key: [1; 32],
            name: "Pixel".to_owned(),
            paired_unix_secs: 1,
            kind: DeviceKind::Phone,
        })
        .unwrap();
    peers
}

fn found(text: &str, size: u64) -> FoundFile {
    FoundFile { path: path(text), size, modified_unix_secs: 1 }
}

fn row(id: &str) -> TransferRow {
    queued_row(
        id.to_owned(),
        NewTransfer {
            device_key_hex: device(),
            source: path("Phone/DCIM/a.jpg"),
            destination: path("a.jpg"),
            direction: Direction::Pull,
            started_unix_secs: 5,
            chunk_size: CHUNK_SIZE,
            backoff: BACKOFF_MIN_MS,
        },
        None,
    )
}

fn code_of(error: &FerryError) -> String {
    let FerryError::Failed { code, .. } = error;
    code.clone()
}

#[test]
fn an_id_names_its_device() {
    let id = id_from(&device(), &[0xab; 16]);
    assert_eq!(id, format!("{}-{}", device(), "ab".repeat(16)));
    assert_eq!(key_of_id(&id), Some(device()));
    assert_ne!(new_id(&device()).ok().unwrap(), new_id(&device()).ok().unwrap());
    assert_eq!(key_of_id("short"), None);
}

#[test]
fn a_folder_lands_under_its_own_name() {
    let landed = landing_path("Camera", "Phone/DCIM/Camera/sub/a.jpg", "Phone/DCIM/Camera/");
    assert_eq!(landed.ok().unwrap().as_str(), "Camera/sub/a.jpg");
    let files = vec![found("Phone/DCIM/Camera/a.jpg", 3), found("Phone/DCIM/Camera/sub/b.jpg", 4)];
    let rows = rows_for_folder(
        &files,
        &device(),
        "Camera",
        "Phone/DCIM/Camera/",
        5,
        CHUNK_SIZE,
        BACKOFF_MIN_MS,
    )
    .ok()
    .unwrap();
    assert_eq!(rows.len(), 2);
    assert_eq!(rows[1].destination.as_str(), "Camera/sub/b.jpg");
    assert_eq!(rows[1].source.as_str(), "Phone/DCIM/Camera/sub/b.jpg");
    assert_eq!(total_listed_bytes(&files), 7);
    assert_eq!(total_listed_bytes(&vec![found("a", u64::MAX), found("b", 1)]), u64::MAX);
}

#[test]
fn a_transfer_that_failed_is_tried_again() {
    let mut transfers = Transfers::new();
    let mut failed = row("t-1");
    failed.state = TransferState::Failed;
    failed.ended_unix_secs = Some(9);
    transfers.add(failed);
    assert_eq!(transfers.retry("t-1", &peers()), Retry::Queued);
    let shown = transfers.transfers();
    assert_eq!(shown[0].state, TransferState::Queued);
    assert_eq!(shown[0].ended_unix_secs, None);
    let mut done = row("t-2");
    done.state = TransferState::Done;
    transfers.add(done);
    assert_eq!(transfers.retry("t-2", &peers()), Retry::Unchanged);
    assert_eq!(transfers.retry("t-3", &peers()), Retry::Unknown);
    assert_eq!(transfers.retry("t-1", &Peers::new()), Retry::Unpaired);
    assert_eq!(transfers.transfers().len(), 1, "nothing is left of a device that is gone");
}

#[test]
fn a_batch_is_told_by_its_transfers() {
    let mut transfers = Transfers::new();
    let mut one = row("t-1");
    one.state = TransferState::Failed;
    let batch = id_from(&device(), &[7; 16]);
    let made = batch_of(
        vec![one, row("t-2")],
        batch.clone(),
        &device(),
        "Camera",
        Direction::Pull,
        Origin::Manual,
        5,
    );
    assert_eq!(made.batch.id, batch);
    assert_eq!(made.rows[1].batch_id.as_deref(), Some(batch.as_str()));
    let ids = transfers.add_batch(made);
    assert_eq!(ids, vec!["t-1".to_owned(), "t-2".to_owned()]);
    let shown = transfers.batches();
    assert_eq!(shown[0].files_total, 2);
    assert_eq!(shown[0].label, "Camera");
    let (retried, result) = transfers.retry_batch(&batch, &peers());
    assert!(result.is_ok());
    assert_eq!(retried.len(), 1, "only what failed is tried again");
    assert_eq!(retried[0].id, "t-1");
    let (_, unknown) = transfers.retry_batch("nothing", &peers());
    assert_eq!(code_of(&unknown.err().unwrap()), "Runtime::TransferNotFound");
    let (rows, batches) = transfers.forget(&device());
    assert_eq!(rows.len(), 2);
    assert_eq!(batches, vec![batch]);
    assert!(transfers.transfers().is_empty());
}

#[test]
fn a_saved_transfer_waits_where_it_was() {
    let mut transfers = Transfers::new();
    let id = id_from(&device(), &[1; 16]);
    let saved = || SavedTransfer {
        source: path("Phone/DCIM/a.jpg"),
        destination: path("a.jpg"),
        started_unix_secs: 5,
        direction: Direction::Pull,
        batch_id: None,
        chunk_size: CHUNK_SIZE,
        progress: Progress::FirstPass { source_size: 10, source_mtime: 1, bytes_done: 4 },
    };
    assert!(transfers.load_saved_transfer(&format!("{id}.bin"), saved()));
    assert!(!transfers.load_saved_transfer("junk", saved()));
    let shown = transfers.transfers();
    assert_eq!(shown.len(), 1);
    assert_eq!(shown[0].bytes_total, 10);
    assert_eq!(shown[0].bytes_done, 4);
    assert_eq!(shown[0].state, TransferState::Paused);
    assert_eq!(record_id_of(&format!("{id}.bin")), Some(id.clone()));
    assert_eq!(record_id_of(&id), None);
    assert!(matches!(transfers.load_saved_batch("junk", None), BatchFile::NotABatch));
    assert!(matches!(transfers.load_saved_batch(&id, None), BatchFile::Remove));
}

#[test]
fn a_network_that_is_trusted_is_remembered() {
    let mut list = TrustedNetworks::empty();
    assert!(list.add("home").ok().unwrap());
    assert!(!list.add("home").ok().unwrap(), "it is there already");
    let again = TrustedNetworks::load(&list.text());
    assert_eq!(again.names(), ["home".to_owned()]);
    assert!(list.remove("home"));
    assert!(!list.remove("home"));
    for i in 0..NETWORK_LIMIT {
        assert!(list.add(&format!("net-{i}")).is_ok());
    }
    assert!(list.add("one-more").is_err());
}

#[test]
fn a_device_is_silent_on_networks_it_does_not_know() {
    let trusted = ["home".to_owned()];
    assert!(wifi_presence_rule(true, &trusted, Some("home"), false));
    assert!(!wifi_presence_rule(true, &trusted, Some("cafe"), false));
    assert!(!wifi_presence_rule(true, &trusted, None, false));
    assert!(wifi_presence_rule(true, &trusted, Some("cafe"), true));
    assert!(!wifi_presence_rule(false, &trusted, Some("home"), true));
    assert!(browse_allowed_rule(&[], None, false));
}

#[test]
fn numbers_and_texts_read_back() {
    let mut bytes = Vec::new();
    put_u32(&mut bytes, 7);
    put_u64(&mut bytes, encode_i64(-5));
    put_text(&mut bytes, "é");
    assert_eq!(&bytes[..4], &[0, 0, 0, 7]);
    let mut decoder = Decoder::new(&bytes);
    assert_eq!(decoder.u32(), Some(7));
    assert_eq!(decode_i64(decoder.u64().unwrap()), -5);
    assert_eq!(decoder.text(10), Some("é".to_owned()));
    assert_eq!(decoder.remaining(), 0);
    assert_eq!(decoder.u8(), None);
    let mut long = Decoder::new(&[0, 0, 0, 9, 1]);
    assert_eq!(long.bytes(4), None);
    let mut bad = Decoder::new(&[0, 0, 0, 1, 0xff]);
    assert_eq!(bad.text(4), None, "not text");
}

#[test]
fn a_path_is_parted_at_its_slashes() {
    assert_eq!(path("a//b/").as_str(), "a/b");
    assert!(path("").is_root());
    assert!(RemotePath::parse("/a").is_err());
    assert!(RemotePath::parse("a/../b").is_err());
    assert!(RemotePath::parse("a/./b").is_err());
    assert!(RemotePath::parse("a\\b").is_err());
    assert!(RemotePath::parse("a\0").is_err());
    assert!(RemotePath::parse(&"a".repeat(1_025)).is_err());
}

#[test]
fn a_map_keeps_one_value_for_each_text() {
    let mut map: TextMap<u32> = TextMap::new();
    assert_eq!(map.len(), 0);
    map.insert("a", 1);
    map.insert("b", 2);
    map.insert("a", 3);
    assert_eq!(map.len(), 2);
    assert_eq!(map.get("a"), Some(&3));
    assert_eq!(map.remove("a"), Some(3));
    assert_eq!(map.get("a"), None);
}

#[test]
fn a_batch_is_made_of_the_ids_that_were_drawn() {
    let files = vec![found("Phone/DCIM/a.jpg", 3), found("Phone/DCIM/sub/b.jpg", 4)];
    let ids = vec![id_from(&device(), &[1; 16]), id_from(&device(), &[2; 16])];
    let batch_id = id_from(&device(), &[3; 16]);
    let batch = batch_with_ids(
        &files,
        &device(),
        "Phone/DCIM",
        "DCIM",
        "Phone/DCIM/",
        Origin::Automatic,
        9,
        CHUNK_SIZE,
        ids.clone(),
        batch_id.clone(),
    )
    .ok()
    .unwrap();
    assert_eq!(batch.made.batch.id, batch_id);
    assert_eq!(batch.made.batch.transfer_ids, ids);
    assert_eq!(batch.made.batch.origin, Origin::Automatic);
    assert_eq!(batch.made.batch.started_unix_secs, 9);
    assert_eq!(batch.made.rows[0].id, ids[0]);
    assert_eq!(batch.made.rows[1].destination.as_str(), "DCIM/sub/b.jpg");
    assert_eq!(batch.made.rows[1].batch_id.as_deref(), Some(batch_id.as_str()));
    assert_eq!(BatchRecord::decode(&batch.record).unwrap().transfer_ids, ids);
}

#[test]
fn a_file_with_nowhere_to_land_makes_no_batch() {
    let files = vec![found("Phone/DCIM/a.jpg", 3)];
    let long = "x".repeat(5_000);
    let made = batch_with_ids(
        &files,
        &device(),
        "Phone/DCIM",
        &long,
        "Phone/DCIM/",
        Origin::Manual,
        9,
        CHUNK_SIZE,
        vec![id_from(&device(), &[1; 16])],
        id_from(&device(), &[3; 16]),
    );
    let refused = rows_for_folder(&files, &device(), &long, "Phone/DCIM/", 9, CHUNK_SIZE, 1);
    let code = code_of(&made.err().unwrap());
    assert!(code.starts_with("PathError::"));
    assert_eq!(code_of(&refused.err().unwrap()), code);
}

#[test]
fn a_stored_chunk_size_that_is_none_falls_back() {
    let back = |chunk_size: u32| {
        let saved = SavedTransfer {
            source: path("Phone/DCIM/a.jpg"),
            destination: path("a.jpg"),
            started_unix_secs: 5,
            direction: Direction::Pull,
            batch_id: None,
            chunk_size,
            progress: Progress::Ready { length: 10 },
        };
        row_from_record(id_from(&device(), &[1; 16]), device(), saved).chunk_size
    };
    assert_eq!(back(65_536), 65_536);
    assert_eq!(back(1_024), 1_024);
    assert_eq!(back(16_777_216), 16_777_216);
    for none in [0, 1, 512, 1_000, 3_072, 33_554_432, u32::MAX] {
        assert_eq!(back(none), CHUNK_SIZE);
    }
    assert_eq!(check_chunk_size(512), Err(ChunkSizeError::TooSmall));
    assert_eq!(check_chunk_size(3_072), Err(ChunkSizeError::NotPowerOfTwo));
    assert_eq!(check_chunk_size(33_554_432), Err(ChunkSizeError::TooLarge));
    assert_eq!(check_chunk_size(CHUNK_SIZE), Ok(()));
}
