use ferry_runtime::held::{HeldRow, HeldStore, MAX_ROWS};

fn row(device: &str, path: &str, size: u64, mtime: i64, root_byte: u8) -> HeldRow {
    HeldRow {
        device_key_hex: device.to_owned(),
        source_path: path.to_owned(),
        size,
        mtime,
        root: [root_byte; 32],
    }
}

#[test]
fn a_missing_file_loads_as_an_empty_index() {
    let store = HeldStore::load(None);
    assert_eq!(store.len(), 0);
    assert!(!store.contains_path("device", "a.bin", 1, 0));
}

#[test]
fn record_then_save_then_load_round_trips() {
    let mut store = HeldStore::load(None);
    store.record(row("device-1", "DCIM/a.jpg", 1024, -5, 1));
    store.record(row("device-2", "DCIM/b.jpg", 2048, 500, 2));
    let file = store.save();

    let loaded = HeldStore::load(Some(&file));
    assert_eq!(loaded.len(), 2);
    assert!(loaded.contains_path("device-1", "DCIM/a.jpg", 1024, -5));
    assert!(loaded.contains_root(&[2; 32]));
    assert!(!loaded.contains_root(&[9; 32]));
}

#[test]
fn contains_path_needs_every_field_to_match() {
    let mut store = HeldStore::load(None);
    store.record(row("device", "DCIM/a.jpg", 1024, 500, 1));
    assert!(store.contains_path("device", "DCIM/a.jpg", 1024, 500));
    assert!(!store.contains_path("other", "DCIM/a.jpg", 1024, 500));
    assert!(!store.contains_path("device", "DCIM/b.jpg", 1024, 500));
    assert!(!store.contains_path("device", "DCIM/a.jpg", 2048, 500));
    assert!(!store.contains_path("device", "DCIM/a.jpg", 1024, 501));
}

#[test]
fn contains_root_matches_across_devices_and_paths() {
    let mut store = HeldStore::load(None);
    store.record(row("device-1", "DCIM/a.jpg", 1024, 0, 7));
    assert!(
        store.contains_root(&[7; 32]),
        "the same content pulled under a different device or path still counts as held"
    );
}

#[test]
fn past_the_bound_the_oldest_row_is_dropped() {
    let mut store = HeldStore::load(None);
    for i in 0..MAX_ROWS {
        let byte = u8::try_from(i % 256).unwrap_or(0);
        store.record(row("device", &format!("DCIM/{i}.jpg"), 1, 0, byte));
    }
    assert_eq!(store.len(), MAX_ROWS);
    assert!(store.contains_path("device", "DCIM/0.jpg", 1, 0));

    store.record(row("device", "DCIM/new.jpg", 1, 0, 255));
    assert_eq!(store.len(), MAX_ROWS, "the bound is never crossed");
    assert!(
        !store.contains_path("device", "DCIM/0.jpg", 1, 0),
        "the oldest row is the one dropped"
    );
    assert!(store.contains_path("device", "DCIM/new.jpg", 1, 0));
}

#[test]
fn held_a_tampered_format_version_is_refused_and_loads_empty() {
    let mut store = HeldStore::load(None);
    store.record(row("device", "DCIM/a.jpg", 1, 0, 1));
    let mut file = store.save();
    file[0] = 99;

    let loaded = HeldStore::load(Some(&file));
    assert_eq!(
        loaded.len(),
        0,
        "a file this build cannot read loads as empty, not a startup failure"
    );
}
