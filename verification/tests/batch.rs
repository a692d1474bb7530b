use ferry_runtime::batch::{read_batch, BatchRecord};
use ferry_runtime::types::{Direction, Origin};

fn sample() -> BatchRecord {
    BatchRecord {
        label: "Internal storage/DCIM/Camera".to_owned(),
        origin: Origin::Manual,
        direction: Direction::Pull,
        started_unix_secs: 1_700_000_000,
        transfer_ids: vec!["a-1".to_owned(), "a-2".to_owned()],
    }
}

#[test]
fn a_batch_record_survives_a_round_trip() {
    let record = sample();
    let file = record.encode();
    let read = read_batch(Some(&file)).expect("the record should be readable");
    assert_eq!(read, record, "what was written comes back");
}

#[test]
fn an_empty_transfer_list_round_trips() {
    let record = BatchRecord { transfer_ids: Vec::new(), ..sample() };
    let file = record.encode();
    let read = read_batch(Some(&file)).expect("the record should be readable");
    assert_eq!(read.transfer_ids, Vec::<String>::new());
}

#[test]
fn a_missing_file_reads_as_none() {
    assert!(read_batch(None).is_none());
}

#[test]
fn a_short_file_reads_as_none_rather_than_half_read() {
    let bytes = sample().encode();
    assert!(read_batch(Some(&bytes[..bytes.len() / 2])).is_none());
}

#[test]
fn a_record_of_another_version_is_not_read() {
    let mut bytes = sample().encode();
    assert_eq!(bytes[0], 1);
    bytes[0] = 99;
    assert!(read_batch(Some(&bytes)).is_none());
}

#[test]
fn bytes_after_the_record_are_not_read_over() {
    let mut bytes = sample().encode();
    bytes.push(0);
    assert!(read_batch(Some(&bytes)).is_none());
}

#[test]
fn an_automatic_push_round_trips() {
    let record = BatchRecord {
        origin: Origin::Automatic,
        direction: Direction::Push,
        started_unix_secs: -1,
        ..sample()
    };
    assert_eq!(BatchRecord::decode(&record.encode()), Some(record));
}

#[test]
fn no_part_of_a_record_reads() {
    let bytes = sample().encode();
    for cut in 0..bytes.len() {
        assert!(read_batch(Some(&bytes[..cut])).is_none(), "{cut} bytes are not a record");
    }
}
