use ferry_runtime::access::codec::{
    decode_day_file, encode_entry, AccessLogError, EntryFields, FORMAT_VERSION,
};
use ferry_runtime::access::log::{
    damaged_file_name, day_files_newest_first, device_counts, is_damaged_file_name,
    is_day_file_name, AccessLog, Query, Repair,
};
use ferry_runtime::access::rollup::{add_option_u32, add_option_u64, Pending, RollUp};
use ferry_runtime::calendar::day_key;
use ferry_runtime::types::{AccessEntry, AccessVerb, Actor};
use std::collections::BTreeMap;

/// The folder of the log, in memory, with the log beside it.
struct Folder {
    files: BTreeMap<String, Vec<u8>>,
    log: AccessLog,
}

impl Folder {
    fn new() -> Folder {
        Folder { files: BTreeMap::new(), log: AccessLog::new() }
    }

    fn reopen(&mut self) {
        self.log = AccessLog::new();
    }

    fn append(&mut self, at: i64, fields: &EntryFields) -> Result<bool, AccessLogError> {
        let day = day_key(at);
        if self.log.next_sequence(&day).is_none() {
            let found = self.log.learn(&day, self.files.get(&day).map(|f| f.as_slice()))?;
            match found {
                Repair::Keep => {}
                Repair::Truncate(len) => self.files.get_mut(&day).unwrap().truncate(len),
                Repair::SetAside => {
                    let bytes = self.files.remove(&day).unwrap();
                    self.files.insert(damaged_file_name(&day), bytes);
                }
            }
        }
        let empty = self.files.get(&day).map_or(true, |f| f.is_empty());
        match self.log.append(at, fields, empty) {
            None => Ok(false),
            Some(frame) => {
                self.files.entry(day).or_default().extend_from_slice(&frame);
                self.log.appended(at);
                Ok(true)
            }
        }
    }

    fn query(&self, device: Option<&str>, limit: u32) -> Vec<AccessEntry> {
        let names: Vec<String> = self.files.keys().cloned().collect();
        let mut query = Query::new(device, limit);
        for day in day_files_newest_first(&names) {
            if !query.wants_more() {
                break;
            }
            query.add_day(&day, &self.files[&day]);
        }
        query.into_found()
    }

    fn prune(&mut self, now: i64) {
        let names: Vec<String> = self.files.keys().cloned().collect();
        for name in self.log.prune(&names, now) {
            self.files.remove(&name);
        }
    }
}

/// 2026-03-01T00:00:00Z.
const BASE_TIME: i64 = 1_772_323_200;

fn fields(device: &str, verb: AccessVerb, path: &str, bytes: Option<u64>) -> EntryFields {
    EntryFields {
        device_key_hex: device.to_owned(),
        actor: Actor::This,
        verb,
        path: path.to_owned(),
        bytes,
        entries: None,
        files: None,
    }
}

fn frame_bytes(fields: &EntryFields, at_unix_secs: i64) -> Vec<u8> {
    let content = encode_entry(fields, at_unix_secs);
    let mut frame = u32::try_from(content.len())
        .expect("a test entry's content fits in a u32")
        .to_be_bytes()
        .to_vec();
    frame.extend_from_slice(&content);
    frame
}

#[test]
fn a_flipped_byte_in_the_middle_sets_the_day_file_aside_and_a_later_append_still_works() {
    let mut folder = Folder::new();
    let day = day_key(BASE_TIME);

    let big_path = "x".repeat(1024);
    let one = fields("device", AccessVerb::Read, "one", Some(1));
    let two = fields("device", AccessVerb::Read, &big_path, Some(2));
    let three = fields("device", AccessVerb::Read, &big_path, Some(3));

    let frame_one = frame_bytes(&one, BASE_TIME);
    let mut frame_two = frame_bytes(&two, BASE_TIME + 1);
    let actor_offset = 4 + "device".len() + 4;
    frame_two[actor_offset] = 0xFF;
    let frame_three = frame_bytes(&three, BASE_TIME + 2);

    let mut bytes = vec![FORMAT_VERSION];
    bytes.extend_from_slice(&frame_one);
    bytes.extend_from_slice(&frame_two);
    bytes.extend_from_slice(&frame_three);
    folder.files.insert(day.clone(), bytes.clone());

    let wrote = folder
        .append(BASE_TIME + 3, &fields("device", AccessVerb::Read, "four", Some(4)))
        .expect("appending after a damaged day file should still work");
    assert!(wrote);

    let damaged = folder.files.get(&format!("{day}.damaged"));
    assert!(damaged.is_some(), "the damaged file should be set aside rather than truncated");
    assert_eq!(
        damaged.unwrap(),
        &bytes,
        "the damaged file keeps exactly the bytes that were there, good entries included"
    );

    let found = folder.query(None, 10);
    assert_eq!(
        found.len(),
        1,
        "only the entry appended after the file was set aside is readable"
    );
    assert_eq!(found[0].path, "four");
}

#[test]
fn append_then_query_round_trips_one_entry() {
    let mut folder = Folder::new();
    let entry = fields("a".repeat(64).as_str(), AccessVerb::Read, "Desktop/a.txt", Some(10));

    let wrote = folder.append(BASE_TIME, &entry).expect("the append should succeed");
    assert!(wrote, "the entry should have been written");

    let found = folder.query(None, 10);
    assert_eq!(found.len(), 1);
    assert_eq!(found[0].device_key_hex, "a".repeat(64));
    assert_eq!(found[0].verb, AccessVerb::Read);
    assert_eq!(found[0].path, "Desktop/a.txt");
    assert_eq!(found[0].bytes, Some(10));
    assert_eq!(found[0].at_unix_secs, BASE_TIME);
    assert!(found[0].id.starts_with(&day_key(BASE_TIME)));
}

#[test]
fn newest_entries_come_first_across_two_days() {
    let mut folder = Folder::new();
    let one_day = 86_400;

    folder
        .append(BASE_TIME, &fields("device", AccessVerb::List, "Desktop", None))
        .expect("the first append should succeed");
    folder
        .append(BASE_TIME + one_day, &fields("device", AccessVerb::List, "Downloads", None))
        .expect("the second append should succeed");

    let found = folder.query(None, 10);
    assert_eq!(found.len(), 2);
    assert_eq!(found[0].path, "Downloads", "the later day comes first");
    assert_eq!(found[1].path, "Desktop");
}

#[test]
fn a_device_filter_returns_only_that_devices_entries() {
    let mut folder = Folder::new();

    folder
        .append(BASE_TIME, &fields("11".repeat(32).as_str(), AccessVerb::Read, "a", Some(1)))
        .expect("the append should succeed");
    folder
        .append(BASE_TIME + 1, &fields("22".repeat(32).as_str(), AccessVerb::Read, "b", Some(2)))
        .expect("the append should succeed");

    let found = folder.query(Some("11".repeat(32).as_str()), 10);
    assert_eq!(found.len(), 1);
    assert_eq!(found[0].path, "a");
}

#[test]
fn query_never_returns_more_than_the_1000_cap() {
    let mut folder = Folder::new();
    for i in 0..1100i64 {
        folder
            .append(BASE_TIME + i, &fields("device", AccessVerb::Stat, "f", None))
            .expect("the append should succeed");
    }

    let found = folder.query(None, u32::MAX);
    assert_eq!(found.len(), 1000);
}

#[test]
fn a_full_day_refuses_a_further_append() {
    let mut folder = Folder::new();
    for _ in 0..10_000 {
        let wrote = folder
            .append(BASE_TIME, &fields("device", AccessVerb::Read, "f", Some(1)))
            .expect("append should not error while the day fills");
        assert!(wrote);
    }
    let full = folder.files.clone();

    let wrote = folder
        .append(BASE_TIME, &fields("device", AccessVerb::Read, "f", Some(1)))
        .expect("append should not error even when the day is full");
    assert!(!wrote, "the day already holds 10,000 entries");
    assert!(folder.files == full, "nothing should have been written");
}

#[test]
fn prune_removes_a_31_day_old_file_and_keeps_a_29_day_old_one() {
    let mut folder = Folder::new();
    let one_day = 86_400;

    folder
        .append(BASE_TIME - 31 * one_day, &fields("device", AccessVerb::Read, "old", Some(1)))
        .expect("the append should succeed");
    folder
        .append(BASE_TIME - 29 * one_day, &fields("device", AccessVerb::Read, "recent", Some(1)))
        .expect("the append should succeed");

    folder.prune(BASE_TIME);

    let found = folder.query(None, 10);
    assert_eq!(found.len(), 1);
    assert_eq!(found[0].path, "recent");
}

#[test]
fn a_truncated_last_entry_is_skipped_and_a_later_append_still_works() {
    let mut folder = Folder::new();
    folder
        .append(BASE_TIME, &fields("device", AccessVerb::Read, "one", Some(1)))
        .expect("the first append should succeed");
    folder
        .append(BASE_TIME + 1, &fields("device", AccessVerb::Read, "two", Some(1)))
        .expect("the second append should succeed");

    let day = day_key(BASE_TIME);
    let bytes = folder.files.get_mut(&day).unwrap();
    bytes.truncate(bytes.len() - 2);

    folder.reopen();
    let found = folder.query(None, 10);
    assert_eq!(found.len(), 1, "only the whole first entry survives");
    assert_eq!(found[0].path, "one");

    let wrote = folder
        .append(BASE_TIME + 2, &fields("device", AccessVerb::Read, "three", Some(1)))
        .expect("appending after a truncated tail should still work");
    assert!(wrote);

    let found = folder.query(None, 10);
    assert_eq!(found.len(), 2, "both the old and the new entry are there");
    assert_eq!(found[0].path, "three", "the new entry is newest");
    assert_eq!(found[0].id, format!("{day}-2"), "sequence continues at 2");
}

#[test]
fn sequence_continues_after_reopen() {
    let mut folder = Folder::new();
    folder
        .append(BASE_TIME, &fields("device", AccessVerb::Read, "one", Some(1)))
        .expect("the append should succeed");
    folder
        .append(BASE_TIME + 1, &fields("device", AccessVerb::Read, "two", Some(1)))
        .expect("the append should succeed");

    folder.reopen();
    folder
        .append(BASE_TIME + 2, &fields("device", AccessVerb::Read, "three", Some(1)))
        .expect("the append should succeed");

    let day = day_key(BASE_TIME);
    let found = folder.query(None, 10);
    assert_eq!(found[0].id, format!("{day}-3"));
}

#[test]
fn a_bad_version_byte_is_reported_as_unknown_format() {
    let mut folder = Folder::new();
    folder
        .append(BASE_TIME, &fields("device", AccessVerb::Read, "one", Some(1)))
        .expect("the append should succeed");

    let day = day_key(BASE_TIME);
    folder.files.get_mut(&day).unwrap()[0] = 99;

    folder.reopen();
    let result = folder.append(BASE_TIME + 1, &fields("device", AccessVerb::Read, "two", Some(1)));
    assert!(matches!(result, Err(AccessLogError::UnknownFormat(99))));
    assert!(
        folder.query(None, 10).is_empty(),
        "query treats the same file as unreadable and skips it"
    );
}

/// The open entries, with the folder that takes what becomes final.
struct Rolled {
    rollup: RollUp,
    folder: Folder,
}

impl Rolled {
    fn new() -> Rolled {
        Rolled { rollup: RollUp::new(), folder: Folder::new() }
    }

    fn write(&mut self, finished: Vec<Pending>) {
        for entry in finished {
            if self.folder.append(entry.first_touch, &entry.fields) == Ok(true) {
                self.rollup.note_written();
            }
        }
    }

    fn touch(&mut self, now: i64, connection: u64, verb: AccessVerb, path: &str, bytes: Option<u64>) {
        let finished = self.rollup.touch(now, connection, fields("device", verb, path, bytes));
        self.write(finished);
    }

    fn tick(&mut self, now: i64) {
        let finished = self.rollup.tick(now);
        self.write(finished);
    }

    fn connection_ended(&mut self, connection: u64) {
        let finished = self.rollup.connection_ended(connection);
        self.write(finished);
    }

    fn one_entry(&self) -> AccessEntry {
        let found = self.folder.query(None, 10);
        assert_eq!(found.len(), 1, "exactly one entry should be final");
        found.into_iter().next().expect("checked above")
    }
}

#[test]
fn two_reads_of_one_path_merge_into_one_entry_with_summed_bytes() {
    let mut rolled = Rolled::new();
    rolled.touch(BASE_TIME, 1, AccessVerb::Read, "a", Some(10));
    rolled.touch(BASE_TIME + 1, 1, AccessVerb::Read, "a", Some(5));

    assert!(rolled.folder.query(None, 10).is_empty(), "nothing is final yet");

    rolled.connection_ended(1);

    let entry = rolled.one_entry();
    assert_eq!(entry.bytes, Some(15));
    assert_eq!(entry.at_unix_secs, BASE_TIME, "filed under the first touch");
    assert!(rolled.rollup.take_changed());
}

#[test]
fn touching_a_different_path_finalises_the_old_one() {
    let mut rolled = Rolled::new();
    rolled.touch(BASE_TIME, 1, AccessVerb::Read, "a", Some(10));
    rolled.touch(BASE_TIME + 1, 1, AccessVerb::Read, "b", Some(20));

    let found = rolled.folder.query(None, 10);
    assert_eq!(found.len(), 1, "only the entry on the old path is final");
    assert_eq!(found[0].path, "a");
}

#[test]
fn an_idle_entry_is_finalised_by_tick() {
    let mut rolled = Rolled::new();
    rolled.touch(BASE_TIME, 1, AccessVerb::Read, "a", Some(10));

    rolled.tick(BASE_TIME + 4);
    assert!(
        rolled.folder.query(None, 10).is_empty(),
        "four seconds have not passed the five second idle mark"
    );

    rolled.tick(BASE_TIME + 5);
    assert_eq!(rolled.folder.query(None, 10).len(), 1);
}

#[test]
fn connection_ended_finalises_every_pending_entry_on_it() {
    let mut rolled = Rolled::new();
    rolled.touch(BASE_TIME, 1, AccessVerb::Stat, "a", None);
    rolled.touch(BASE_TIME, 1, AccessVerb::Read, "a", Some(1));

    rolled.connection_ended(1);

    assert_eq!(
        rolled.folder.query(None, 10).len(),
        2,
        "both the stat and the read on the same path are separate entries"
    );
}

#[test]
fn take_changed_clears_after_being_read() {
    let mut rolled = Rolled::new();
    rolled.touch(BASE_TIME, 1, AccessVerb::Read, "a", Some(1));
    rolled.connection_ended(1);

    assert!(rolled.rollup.take_changed());
    assert!(!rolled.rollup.take_changed(), "the flag was already taken");
}

#[test]
fn everything_open_becomes_final_at_the_end() {
    let mut rolled = Rolled::new();
    rolled.touch(BASE_TIME, 1, AccessVerb::Read, "a", Some(1));
    rolled.touch(BASE_TIME, 2, AccessVerb::Read, "b", Some(2));
    let finished = rolled.rollup.finalize_all();
    assert_eq!(finished.len(), 2);
    assert!(rolled.rollup.finalize_all().is_empty());
}

#[test]
fn counts_add_up_and_stop_at_the_largest_number() {
    assert_eq!(add_option_u64(None, None), None);
    assert_eq!(add_option_u64(Some(1), None), Some(1));
    assert_eq!(add_option_u64(Some(u64::MAX), Some(1)), Some(u64::MAX));
    assert_eq!(add_option_u32(Some(2), Some(3)), Some(5));
}

#[test]
fn names_of_day_files_are_told_from_others() {
    assert_eq!(day_key(BASE_TIME), "20260301");
    assert!(is_day_file_name("20260301"));
    assert!(!is_day_file_name("2026031"));
    assert!(is_damaged_file_name("20260301.damaged"));
    assert!(!is_damaged_file_name("20260301"));
    let names = vec!["20260301".to_owned(), "other".to_owned(), "20260302".to_owned()];
    assert_eq!(day_files_newest_first(&names), vec!["20260302".to_owned(), "20260301".to_owned()]);
}

#[test]
fn the_entries_of_each_device_are_counted() {
    let mut folder = Folder::new();
    for device in ["a", "b", "a"] {
        folder.append(BASE_TIME, &fields(device, AccessVerb::Read, "f", None)).unwrap();
    }
    let (entries, good) = decode_day_file(&folder.files[&day_key(BASE_TIME)]).unwrap();
    assert_eq!(entries.len(), 3);
    assert_eq!(good, folder.files[&day_key(BASE_TIME)].len());
    let counts = device_counts(&entries);
    assert_eq!(counts.get("a"), Some(&2));
    assert_eq!(counts.get("b"), Some(&1));
    assert_eq!(counts.get("c"), None);
}
