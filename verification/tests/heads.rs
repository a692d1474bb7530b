use ferry_runtime::dav::heads::{
    is_image, Child, HeadCache, Next, Prefetch, HEAD_CACHE_BYTES, HEAD_LEN, PREFETCH_MAX_FILES,
};
use ferry_runtime::types::{Entry, EntryKind};

#[test]
fn every_named_extension_is_an_image_whatever_its_case() {
    for name in [
        "a.jpg", "a.jpeg", "a.png", "a.heic", "a.heif", "a.gif", "a.webp", "a.tif", "a.tiff",
        "a.bmp", "a.dng", "a.cr2", "a.nef", "a.arw",
    ] {
        assert!(is_image(name), "{name} should be an image");
        assert!(
            is_image(&name.to_uppercase()),
            "{name} should be an image in upper case too"
        );
    }
}

#[test]
fn anything_else_is_not_an_image() {
    for name in ["Notes.txt", "Big.bin", "IMG_0001", "archive.jpg.zip", "jpg"] {
        assert!(!is_image(name), "{name} should not be an image");
    }
}

#[test]
fn a_head_is_read_back_only_for_the_size_and_time_it_was_stored_with() {
    let mut cache = HeadCache::new();
    cache.put("Root/a.jpg", 100, 7, vec![1, 2, 3]);
    assert_eq!(
        cache.get("Root/a.jpg", 100, 7).map(|head| head.as_slice()),
        Some(&[1, 2, 3][..])
    );
    assert!(cache.get("Root/a.jpg", 101, 7).is_none(), "a new size misses");
    assert!(cache.get("Root/a.jpg", 100, 8).is_none(), "a new time misses");
    assert!(cache.get("Root/b.jpg", 100, 7).is_none(), "another file misses");
}

#[test]
fn the_oldest_head_goes_first_once_the_cache_is_full() {
    let mut cache = HeadCache::with_limit(400);
    for i in 0..5u64 {
        cache.put(&format!("Root/{i}.jpg"), i, 0, vec![0u8; 100]);
    }
    assert!(
        cache.get("Root/0.jpg", 0, 0).is_none(),
        "the first head stored should have gone first"
    );
    for i in 1..5u64 {
        assert!(
            cache.get(&format!("Root/{i}.jpg"), i, 0).is_some(),
            "head {i} should still be held"
        );
    }
}

#[test]
fn storing_the_same_head_twice_counts_it_once() {
    let mut cache = HeadCache::with_limit(200);
    cache.put("Root/a.jpg", 1, 0, vec![0u8; 100]);
    cache.put("Root/a.jpg", 1, 0, vec![0u8; 100]);
    cache.put("Root/b.jpg", 2, 0, vec![0u8; 100]);
    assert!(
        cache.get("Root/a.jpg", 1, 0).is_some(),
        "a repeated put must not push the cache over its limit"
    );
    assert!(cache.get("Root/b.jpg", 2, 0).is_some());
}

#[test]
fn the_shipped_cache_holds_five_hundred_and_twelve_full_heads() {
    assert_eq!(
        HEAD_CACHE_BYTES as u64 / HEAD_LEN,
        u64::try_from(PREFETCH_MAX_FILES).expect("a small count")
    );
}

#[test]
fn a_head_over_the_limit_is_not_kept() {
    let mut cache = HeadCache::with_limit(10);
    cache.put("a.jpg", 1, 0, vec![0u8; 11]);
    assert!(!cache.holds("a.jpg", 1, 0));
    cache.put("b.jpg", 1, 0, vec![0u8; 10]);
    assert!(cache.holds("b.jpg", 1, 0));
}

fn child(name: &str, is_file: bool) -> Child {
    Child {
        path: format!("DCIM/{name}"),
        entry: Entry {
            name: name.to_owned(),
            kind: if is_file {
                EntryKind::File
            } else {
                EntryKind::Directory
            },
            size: 5,
            modified_unix_secs: 9,
        },
    }
}

#[test]
fn a_newer_listing_takes_the_place_of_one_that_waits() {
    let mut queue = Prefetch::new();
    assert!(matches!(queue.next(), Next::Wait));
    assert!(queue.submit("DCIM", &[child("a.jpg", true)]));
    assert!(queue.submit("Download", &[child("b.jpg", true), child("c", false)]));
    match queue.next() {
        Next::Job(job) => {
            assert_eq!(job.folder, "Download");
            assert_eq!(job.files.len(), 1);
        }
        _ => panic!("the newer listing waits"),
    }
    assert!(matches!(queue.next(), Next::Wait));
    assert!(!queue.submit("DCIM", &[child("c", false)]), "no files, no work");
    queue.stop();
    assert!(matches!(queue.next(), Next::Ended));
    assert!(!queue.submit("DCIM", &[child("a.jpg", true)]));
}
