use ferry_runtime::dav::cache::{Cache, TTL_MS};
use ferry_runtime::types::{Entry, EntryKind};

fn entry(name: &str) -> Entry {
    Entry {
        name: name.to_owned(),
        kind: EntryKind::File,
        size: 0,
        modified_unix_secs: 0,
    }
}

#[test]
fn a_fresh_put_is_read_back() {
    let mut cache = Cache::new();
    cache.put("DCIM", vec![entry("a.jpg")], 0, TTL_MS);
    assert_eq!(cache.get("DCIM", 0, TTL_MS).map(|e| e.len()), Some(1));
}

#[test]
fn a_miss_on_another_path_returns_none() {
    let mut cache = Cache::new();
    cache.put("DCIM", vec![entry("a.jpg")], 0, TTL_MS);
    assert!(cache.get("Download", 0, TTL_MS).is_none());
}

#[test]
fn invalidate_clears_the_entry() {
    let mut cache = Cache::new();
    cache.put("DCIM", vec![entry("a.jpg")], 0, TTL_MS);
    cache.invalidate("DCIM");
    assert!(cache.get("DCIM", 0, TTL_MS).is_none());
}

#[test]
fn a_listing_grows_old() {
    let mut cache = Cache::new();
    cache.put("DCIM", vec![entry("a.jpg")], 100, TTL_MS);
    assert!(cache.get("DCIM", 100 + TTL_MS - 1, TTL_MS).is_some());
    assert!(cache.get("DCIM", 100 + TTL_MS, TTL_MS).is_none());
}
