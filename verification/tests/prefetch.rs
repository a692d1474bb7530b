use ferry_runtime::dav::heads::{Child, HeadCache, Next, Prefetch};
use ferry_runtime::dav::prefetch::{HeadAsk, HeadRead, PrefetchRun, PrefetchStep};
use ferry_runtime::limits::MAX_READS_PER_CHUNK;
use ferry_runtime::types::{AccessVerb, Entry, EntryKind};

#[test]
fn a_peer_that_answers_one_byte_at_a_time_is_bounded() {
    let mut reading = HeadRead::new(64 * 1024);
    let mut calls = 0u32;
    loop {
        match reading.next(true) {
            HeadAsk::Read(_offset, _ask) => {
                calls += 1;
                reading.read(vec![0u8; 1]);
            }
            HeadAsk::Done => break,
            HeadAsk::Stopped => panic!("a peer that answers every read is not the failure path"),
        }
    }
    assert_eq!(
        calls, MAX_READS_PER_CHUNK,
        "the loop must stop after MAX_READS_PER_CHUNK reads"
    );
    assert_eq!(
        reading.into_head().len(),
        MAX_READS_PER_CHUNK as usize,
        "one byte per read, so the short head holds one byte per read made"
    );
}

#[test]
fn a_cleared_running_flag_ends_the_read_loop() {
    let mut reading = HeadRead::new(64 * 1024);
    let mut running = true;
    let mut calls = 0u32;
    let head = loop {
        match reading.next(running) {
            HeadAsk::Read(_offset, _ask) => {
                calls += 1;
                running = false;
                reading.read(vec![0u8; 1]);
            }
            HeadAsk::Stopped => break None,
            HeadAsk::Done => break Some(reading.into_head()),
        }
    };
    assert!(head.is_none(), "a head the bridge stopped collecting is not a head to cache");
    assert_eq!(calls, 1, "the flag is read before every read, not once");
}

fn image(folder: &str, name: &str, size: u64) -> Child {
    Child {
        path: format!("{folder}/{name}"),
        entry: Entry {
            name: name.to_owned(),
            kind: EntryKind::File,
            size,
            modified_unix_secs: 5,
        },
    }
}

#[test]
fn a_listing_of_images_leaves_their_heads_and_one_log_entry() {
    let mut queue = Prefetch::new();
    assert!(queue.submit("Phone/DCIM", &[
        image("Phone/DCIM", "a.jpg", 3),
        image("Phone/DCIM", "b.jpg", 4),
    ]));
    let Next::Job(job) = queue.next() else { panic!("a job was submitted") };
    let mut heads = HeadCache::new();
    let mut step = PrefetchRun::new(job).next(true, &heads);
    let mut files = 0;
    let logged = loop {
        match step {
            PrefetchStep::Done(logged) => break logged,
            PrefetchStep::Read(mut read) => {
                files += 1;
                while let HeadAsk::Read(_, len) = read.reading.next(true) {
                    read.reading.read(vec![7u8; len as usize]);
                }
                step = read.finished(true, &mut heads).next(true, &heads);
            }
        }
    };
    assert_eq!(files, 2);
    let logged = logged.expect("two heads were read");
    assert_eq!(logged.verb, AccessVerb::Read);
    assert_eq!(logged.bytes, Some(7));
    assert_eq!(heads.get("Phone/DCIM/a.jpg", 3, 5), Some(&vec![7u8; 3]));
    assert!(heads.holds("Phone/DCIM/b.jpg", 4, 5));
}
