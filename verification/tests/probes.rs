use ferry_runtime::dav::probes::{
    check_sidecar_write, is_partial_name, is_probe_name, is_store_path, last_segment, parent_of,
    SidecarWriteError, MAX_SIDECARS, MAX_SIDECAR_LEN,
};
use std::collections::BTreeMap;

#[test]
fn matches_every_name_item_6_lists() {
    for name in [
        ".DS_Store",
        ".hidden",
        ".Spotlight-V100",
        ".metadata_never_index",
        ".Trashes",
        ".fseventsd",
        ".TemporaryItems",
        "._IMG_0001.jpg",
        ".ql_disablethumbnails",
        ".ql_disablecache",
    ] {
        assert!(is_probe_name(name), "{name} should match");
    }
}

#[test]
fn an_ordinary_name_does_not_match() {
    assert!(!is_probe_name("IMG_0001.jpg"));
    assert!(!is_probe_name("Q3 notes.md"));
}

#[test]
fn last_segment_reads_the_final_component() {
    assert_eq!(last_segment("DCIM/Camera/.DS_Store"), ".DS_Store");
    assert_eq!(last_segment(".DS_Store"), ".DS_Store");
    assert_eq!(last_segment(""), "");
}

/// A store of sidecars in memory.
struct SidecarStore {
    files: BTreeMap<String, Vec<u8>>,
}

impl SidecarStore {
    fn new() -> SidecarStore {
        SidecarStore { files: BTreeMap::new() }
    }

    fn write(&mut self, path: &str, bytes: &[u8]) -> Result<(), SidecarWriteError> {
        let stored = self.files.contains_key(path);
        check_sidecar_write(path, bytes.len(), stored, self.files.len())?;
        self.files.insert(path.to_owned(), bytes.to_vec());
        Ok(())
    }

    fn read(&self, path: &str) -> Option<&Vec<u8>> {
        if is_store_path(path) {
            self.files.get(path)
        } else {
            None
        }
    }
}

#[test]
fn a_sidecar_reads_back_what_was_written() {
    let mut store = SidecarStore::new();
    store.write("DCIM/.DS_Store", b"hello").unwrap();
    let sidecar = store.read("DCIM/.DS_Store").expect("just written");
    assert_eq!(sidecar, b"hello");
    assert!(store.read("DCIM/.other").is_none());
}

#[test]
fn a_traversal_attempt_is_refused() {
    let mut store = SidecarStore::new();
    assert!(store.write("../escape", b"x").is_err());
    assert!(store.read("../escape").is_none());
    assert!(!is_store_path("../escape"));
    assert!(is_store_path("DCIM/.DS_Store"));
    assert_eq!(
        check_sidecar_write("../escape", 1, false, 0),
        Err(SidecarWriteError::Io)
    );
}

#[test]
fn a_body_over_the_size_bound_is_refused() {
    let mut store = SidecarStore::new();
    let big = vec![0u8; MAX_SIDECAR_LEN + 1];
    assert!(matches!(
        store.write("DCIM/.DS_Store", &big),
        Err(SidecarWriteError::TooLarge)
    ));
    assert!(
        store.read("DCIM/.DS_Store").is_none(),
        "a refused body must not land on disk"
    );
}

#[test]
fn a_sidecar_has_bounds() {
    assert_eq!(check_sidecar_write("DCIM/.DS_Store", 5, false, 0), Ok(()));
    assert_eq!(
        check_sidecar_write("DCIM/.DS_Store", MAX_SIDECAR_LEN + 1, false, 0),
        Err(SidecarWriteError::TooLarge)
    );
    assert_eq!(
        check_sidecar_write("DCIM/.DS_Store", 5, false, MAX_SIDECARS),
        Err(SidecarWriteError::Full)
    );
    assert_eq!(
        check_sidecar_write("DCIM/.DS_Store", 5, true, MAX_SIDECARS),
        Ok(())
    );
}

#[test]
fn a_parent_is_what_stands_before_the_last_segment() {
    assert_eq!(parent_of("DCIM/Camera/a.jpg"), "DCIM/Camera");
    assert_eq!(parent_of("a.jpg"), "");
    assert!(!is_partial_name("a.jpg"));
}
