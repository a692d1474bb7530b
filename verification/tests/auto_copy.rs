use ferry_runtime::auto_copy::{
    first_root, may_run, AutoCopyRow, AutoCopyStore, NewFiles, RootStep, MAX_DEVICES,
};
use ferry_runtime::folder::FoundFile;
use ferry_runtime::held::{HeldRow, HeldStore};
use ferry_runtime::limits::MAX_LIST_PAGES;
use ferry_runtime::path::RemotePath;
use ferry_runtime::types::{Entry, EntryKind};
use ferry_runtime::wire::put_u32;

#[test]
fn a_missing_file_loads_as_an_empty_store() {
    let store = AutoCopyStore::load(None);
    assert!(store.get("device").is_none());
}

#[test]
fn set_enabled_then_save_then_load_round_trips() {
    let mut store = AutoCopyStore::load(None);
    store.set_enabled("device-1", true);
    store.record_run("device-1", 1_700_000_000, 7);
    let file = store.save();

    let loaded = AutoCopyStore::load(Some(&file));
    let row = loaded.get("device-1").expect("the row should be there");
    assert!(row.enabled);
    assert_eq!(row.last_run_unix_secs, Some(1_700_000_000));
    assert_eq!(row.last_run_files, Some(7));
}

#[test]
fn record_run_keeps_the_enabled_flag() {
    let mut store = AutoCopyStore::load(None);
    store.set_enabled("device", true);
    store.record_run("device", 1, 0);
    assert!(store.get("device").expect("the row should be there").enabled);
}

#[test]
fn turning_the_switch_off_keeps_the_last_run() {
    let mut store = AutoCopyStore::load(None);
    store.set_enabled("device", true);
    store.record_run("device", 100, 3);
    store.set_enabled("device", false);
    let row = store.get("device").expect("the row should be there");
    assert!(!row.enabled);
    assert_eq!(row.last_run_unix_secs, Some(100), "turning it off is not a new run");
    assert_eq!(row.last_run_files, Some(3));
}

#[test]
fn auto_copy_a_tampered_format_version_is_refused_and_loads_empty() {
    let mut store = AutoCopyStore::load(None);
    store.set_enabled("device", true);
    let mut file = store.save();
    file[0] = 99;

    let loaded = AutoCopyStore::load(Some(&file));
    assert!(loaded.get("device").is_none());
}

#[test]
fn an_over_large_stored_count_is_refused_before_it_is_reserved() {
    let mut file = vec![1u8];
    put_u32(&mut file, u32::MAX);

    let loaded = AutoCopyStore::load(Some(&file));
    assert!(loaded.get("anything").is_none());
    assert!(MAX_DEVICES < usize::try_from(u32::MAX).unwrap_or(usize::MAX));
}

#[test]
fn the_stored_bytes_of_one_switch_are_fixed() {
    let mut store = AutoCopyStore::load(None);
    store.set_enabled("ab", true);
    let file = store.save();
    assert_eq!(&file[..11], &[1, 0, 0, 0, 1, 0, 0, 0, 2, b'a', b'b']);
    assert_eq!(file[11], 1);
    let loaded = AutoCopyStore::load(Some(&file));
    assert_eq!(loaded.save(), file, "a store that was loaded saves as it was");
}

#[test]
fn what_is_shown_of_a_device_without_a_row_is_off() {
    let store = AutoCopyStore::load(None);
    let shown = store.shown("device", Some("Phone"), "/home/me/Downloads", false);
    assert!(!shown.enabled);
    assert!(!shown.running);
    assert_eq!(shown.last_run_unix_secs, None);
    assert_eq!(shown.device_key_hex, "device");
}

#[test]
fn a_run_starts_only_where_it_is_on_and_none_runs() {
    let on = AutoCopyRow { enabled: true, last_run_unix_secs: None, last_run_files: None };
    let off = AutoCopyRow { enabled: false, ..on };
    assert!(may_run(false, Some(on), false));
    assert!(!may_run(true, Some(on), false), "not while stopping");
    assert!(!may_run(false, Some(on), true), "not twice at once");
    assert!(!may_run(false, Some(off), false));
    assert!(!may_run(false, None, false));
}

fn entry(name: &str, kind: EntryKind) -> Entry {
    Entry { name: name.to_owned(), kind, size: 0, modified_unix_secs: 0 }
}

#[test]
fn the_first_name_listed_is_the_root_that_is_copied() {
    let page = vec![entry("Phone", EntryKind::Directory), entry("Card", EntryKind::Directory)];
    match first_root(&page, 0, None, 0, 0) {
        RootStep::Found(name) => assert_eq!(name, "Phone"),
        other => panic!("{other:?}"),
    }
    let none = Vec::new();
    assert!(matches!(first_root(&none, 0, None, 0, 0), RootStep::NoRoots));
    assert!(matches!(first_root(&none, 0, Some(7), 0, 0), RootStep::More(7)));
    assert!(matches!(first_root(&none, 0, Some(7), MAX_LIST_PAGES, 0), RootStep::TooLarge));
}

fn found(path: &str, size: u64) -> FoundFile {
    FoundFile { path: RemotePath::parse(path).unwrap(), size, modified_unix_secs: 10 }
}

#[test]
fn only_files_that_are_not_held_are_new() {
    let mut held = HeldStore::load(None);
    held.record(HeldRow {
        device_key_hex: "device".to_owned(),
        source_path: "Phone/a.jpg".to_owned(),
        size: 1,
        mtime: 10,
        root: [1; 32],
    });
    let mut run = NewFiles::new(vec![
        found("Phone/a.jpg", 1),
        found("Phone/b.jpg", 2),
        found("Phone/c.jpg", 3),
        found("Phone/d.jpg", 4),
    ]);
    assert_eq!(run.next(&held, "device").unwrap().path.as_str(), "Phone/b.jpg");
    run.answer(&held, Some([1; 32]));
    assert_eq!(run.next(&held, "device").unwrap().path.as_str(), "Phone/c.jpg");
    run.answer(&held, Some([2; 32]));
    assert_eq!(run.next(&held, "device").unwrap().path.as_str(), "Phone/d.jpg");
    run.answer(&held, None);
    assert!(run.next(&held, "device").is_none());
    let new: Vec<String> = run.into_new().iter().map(|f| f.path.as_str().to_owned()).collect();
    assert_eq!(new.contains(&"Phone/b.jpg".to_owned()), false, "the same content is held");
    assert!(new.contains(&"Phone/c.jpg".to_owned()));
    assert!(!new.contains(&"Phone/a.jpg".to_owned()));
}
