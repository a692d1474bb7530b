use ferry_runtime::core_errors::{OpError, RpcError};
use ferry_runtime::dav::http::{
    Header, HeadReader, HeadStep, RequestHead, MAX_BODY_LEN, MAX_HEADERS, MAX_HEAD_BYTES,
};
use ferry_runtime::dav::mounts::{endpoint_for, MountRegistry, Start};
use ferry_runtime::dav::reply::log_entry;
use ferry_runtime::dav::reply::answer;
use ferry_runtime::dav::server::{
    head_timeout, head_too_large, respond, route, Bridge, HeadCheck, Route, Slots,
    FIRST_HEAD_TIMEOUT_MS, MAX_UNAUTHENTICATED_CONNECTIONS,
};
use ferry_runtime::guard::GuardedFs;
use ferry_runtime::peers::{key_from_hex, Peer, Peers, MAX_PEERS};
use ferry_runtime::pool::{after_failed_call, dial_check, wait_over, Pool, Take, MAX_CONNECTIONS};
use ferry_runtime::privatefile::{temporary_name, temporary_name_from};
use ferry_runtime::random::{random_bytes, random_hex};
use ferry_runtime::types::{AccessVerb, DeviceKind, Entry, EntryKind, FerryError};

fn head(method: &str, target: &str, headers: &[(&str, &str)]) -> RequestHead {
    RequestHead {
        method: method.to_owned(),
        target: target.to_owned(),
        headers: headers
            .iter()
            .map(|(n, v)| Header { name: (*n).to_owned(), value: (*v).to_owned() })
            .collect(),
    }
}

const HOST: (&str, &str) = ("host", "127.0.0.1:8080");
const AUTH: (&str, &str) = ("authorization", "Basic ZmVycnk6c2VjcmV0");

fn code_of(error: &FerryError) -> String {
    let FerryError::Failed { code, .. } = error;
    code.clone()
}

#[test]
fn a_head_is_read_line_by_line() {
    let mut reader = HeadReader::new(1_000, 10);
    assert!(matches!(reader.push_line("GET /DCIM HTTP/1.1\r\n"), HeadStep::More));
    assert!(matches!(reader.push_line("Host: here\r\n"), HeadStep::More));
    let HeadStep::Head(head) = reader.push_line("\r\n") else { panic!("the head is whole") };
    assert_eq!(head.method, "GET");
    assert_eq!(head.header("host"), Some("here"));
    assert_eq!(head.content_length(), None);

    let mut closed = HeadReader::new(1_000, 10);
    assert!(matches!(closed.push_line(""), HeadStep::Closed));
    let mut small = HeadReader::new(10, 10);
    assert!(matches!(small.push_line("GET /DCIM HTTP/1.1\r\n"), HeadStep::TooLarge));
    let mut few = HeadReader::new(1_000, 1);
    assert!(matches!(few.push_line("GET / HTTP/1.1\r\n"), HeadStep::More));
    assert!(matches!(few.push_line("A: 1\r\n"), HeadStep::More));
    assert!(matches!(few.push_line("B: 2\r\n"), HeadStep::TooLarge));
}

#[test]
fn a_request_has_to_name_the_host_and_the_password() {
    let check = |headers: &[(&str, &str)]| {
        respond(&head("GET", "/DCIM", headers), 8_080, "ferry", "secret")
    };
    let (HeadCheck::Close(outcome), false) = check(&[AUTH]) else { panic!("no host") };
    assert_eq!(outcome.reply.status, "400 Bad Request");
    let (HeadCheck::Close(outcome), false) = check(&[HOST]) else { panic!("no password") };
    assert_eq!(outcome.reply.status, "401 Unauthorized");
    let (HeadCheck::Body(0, target), true) = check(&[HOST, AUTH]) else { panic!("let in") };
    assert_eq!(target, "DCIM");
    let (HeadCheck::Close(outcome), true) = check(&[HOST, AUTH, ("transfer-encoding", "chunked")])
    else {
        panic!("no length")
    };
    assert_eq!(outcome.reply.status, "411 Length Required");
    let long = format!("{}", MAX_BODY_LEN + 1);
    let (HeadCheck::Close(outcome), true) = check(&[HOST, AUTH, ("content-length", &long)]) else {
        panic!("too long")
    };
    assert_eq!(outcome.reply.status, "413 Payload Too Large");
    let put = respond(&head("PUT", "/DCIM/a%20b.jpg", &[HOST, AUTH]), 8_080, "ferry", "secret");
    let (HeadCheck::PutFile(target), true) = put else { panic!("a file is put") };
    assert_eq!(target, "DCIM/a b.jpg");
}

#[test]
fn every_method_has_its_way() {
    assert_eq!(route("OPTIONS", "x"), Route::Options);
    assert_eq!(route("PROPFIND", "DCIM"), Route::Propfind);
    assert_eq!(route("PROPFIND", "DCIM/.DS_Store"), Route::PropfindProbe);
    assert_eq!(route("GET", "DCIM/a.jpg"), Route::Get(false));
    assert_eq!(route("HEAD", "DCIM/a.jpg"), Route::Get(true));
    assert_eq!(route("GET", "DCIM/.DS_Store"), Route::GetProbe(false));
    assert_eq!(route("GET", "DCIM/a.jpg.ferry-part"), Route::Hidden);
    assert_eq!(route("PATCH", "DCIM"), Route::NotAllowed);
    assert_eq!(head_too_large().reply.status, "431 Request Header Fields Too Large");
    assert_eq!(head_timeout(true), FIRST_HEAD_TIMEOUT_MS);
}

#[test]
fn strangers_take_few_of_the_places() {
    let mut slots = Slots::new();
    for _ in 0..MAX_UNAUTHENTICATED_CONNECTIONS {
        assert!(slots.accept());
    }
    assert!(!slots.accept());
    slots.proven();
    assert!(slots.accept(), "one of them has given the password");
    slots.closed(true);
}

#[test]
fn what_an_answer_changes_is_dropped_from_the_cache() {
    let mut bridge = Bridge::new(
        "key".to_owned(),
        "Pixel".to_owned(),
        "ferry".to_owned(),
        "secret".to_owned(),
        8_080,
    );
    let entry = Entry {
        name: "a".to_owned(),
        kind: EntryKind::File,
        size: 1,
        modified_unix_secs: 1,
    };
    bridge.cache.put("DCIM", vec![entry], 0, 100);
    assert!(bridge.cache.get("DCIM", 1, 100).is_some());
    let outcome = answer("201 Created")
        .and_invalidate("DCIM")
        .and_log(log_entry(AccessVerb::Write, "DCIM/a"));
    bridge.settle(&outcome);
    assert!(bridge.cache.get("DCIM", 1, 100).is_none());
}

#[test]
fn a_mount_names_its_own_address() {
    let endpoint = endpoint_for(8_080, "secret");
    assert_eq!(endpoint.url, "http://127.0.0.1:8080/");
    assert_eq!(endpoint.user, "ferry");
    assert_eq!(endpoint.password, "secret");
    let mut registry = MountRegistry::new();
    assert!(matches!(registry.start("key"), Start::Begin));
    assert!(matches!(registry.start("key"), Start::Wait));
    let mut peers = Peers::new();
    peers.add(peer(1)).unwrap();
    let made = MountRegistry::make_mount(Ok(8_080), &peers, &"01".repeat(32));
    assert!(registry.finish_start("key", made, false).is_ok());
    assert_eq!(registry.stop_all(), vec!["key".to_owned()]);
    assert!(MountRegistry::may_begin(true).is_err());
    let made = MountRegistry::make_mount(Ok(8_080), &peers, "other");
    assert_eq!(code_of(&made.err().unwrap()), "Runtime::NotPaired");
}

fn peer(byte: u8) -> Peer {
    Peer {
        key: [byte; 32],
        name: "Pixel".to_owned(),
        paired_unix_secs: 1,
        kind: DeviceKind::Phone,
    }
}

#[test]
fn a_peer_is_kept_until_it_is_removed() {
    let mut peers = Peers::new();
    for byte in 0..MAX_PEERS {
        peers.add(peer(byte as u8)).unwrap();
    }
    assert!(peers.add(peer(200)).is_err(), "the list is full");
    assert!(peers.add(peer(1)).is_ok(), "a known device is stored again");
    assert_eq!(peers.len(), MAX_PEERS);
    assert!(peers.remove(&"01".repeat(32)));
    assert!(!peers.contains(&"01".repeat(32)));
    assert!(!peers.remove(&"01".repeat(32)));
    assert_eq!(key_from_hex(&"0a".repeat(32)), Some([10; 32]));
    assert_eq!(key_from_hex("0a"), None);
    assert_eq!(key_from_hex(&"zz".repeat(32)), None);
}

#[test]
fn a_pool_lends_so_many_connections() {
    let mut pool = Pool::new();
    for _ in 0..MAX_CONNECTIONS {
        assert_eq!(pool.take(), Take::Dial);
    }
    assert_eq!(pool.take(), Take::Wait);
    pool.give_back(Some(7));
    assert_eq!(pool.take(), Take::Idle(7));
    pool.give_back(None);
    assert_eq!(pool.take(), Take::Dial, "a connection that broke is not lent again");
    pool.pause();
    assert_eq!(pool.take(), Take::Paused);
    pool.unpause();
    assert_eq!(pool.take(), Take::Wait);
}

#[test]
fn a_device_that_cannot_be_dialed_is_told() {
    assert!(dial_check(true, false, false).is_ok());
    assert_eq!(code_of(&dial_check(false, false, true).err().unwrap()), "Runtime::NotPaired");
    assert_eq!(code_of(&dial_check(true, true, false).err().unwrap()), "Runtime::NotReachable");
    assert_eq!(code_of(&wait_over()), "Runtime::NotReachable");
    let (error, broken) = after_failed_call(&RpcError::Remote(OpError::NotFound));
    assert_eq!(code_of(&error), "OpError::NotFound");
    assert!(!broken);
}

#[test]
fn a_folder_that_was_switched_off_answers_nothing() {
    assert!(GuardedFs::new(true).check().is_ok());
    assert_eq!(GuardedFs::new(false).check(), Err(OpError::PermissionDenied));
}

#[test]
fn random_bytes_differ_from_call_to_call() {
    let one = random_bytes(32).unwrap();
    let two = random_bytes(32).unwrap();
    assert_eq!(one.len(), 32);
    assert_ne!(one, two);
    assert_ne!(one, vec![0u8; 32]);
    assert_eq!(random_bytes(0), Some(Vec::new()));
    assert_eq!(random_hex(16).ok().unwrap().len(), 32);
}

#[test]
fn a_temporary_name_is_next_to_the_real_one() {
    let name = temporary_name_from("data/held", &[0xab; 2]);
    assert_eq!(name, "data/held.abab.tmp");
    let one = temporary_name("data/held").ok().unwrap();
    let two = temporary_name("data/held").ok().unwrap();
    assert_ne!(one, two);
    assert_eq!(one.len(), "data/held".len() + 37);
}

#[test]
fn the_head_of_a_request_has_limits() {
    assert_eq!(MAX_HEAD_BYTES, 16_384);
    let mut reader = HeadReader::new(MAX_HEAD_BYTES, MAX_HEADERS);
    assert!(matches!(reader.push_line("GET / HTTP/1.1\r\n"), HeadStep::More));
    for i in 0..MAX_HEADERS {
        assert!(matches!(reader.push_line(&format!("A{i}: 1\r\n")), HeadStep::More));
    }
    assert!(matches!(reader.push_line("One: more\r\n"), HeadStep::TooLarge));
}
