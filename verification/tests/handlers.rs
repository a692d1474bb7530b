use ferry_runtime::core_errors::{FrameError, OpError, RpcError};
use ferry_runtime::dav::cache::{Cache, TTL_MS};
use ferry_runtime::dav::errors::{map_rpc_error, map_write_error};
use ferry_runtime::dav::handlers::browse::{propfind, propfind_probe, PropfindStep};
use ferry_runtime::dav::handlers::locks::{lock_verb, unlock_verb};
use ferry_runtime::dav::handlers::options::{authorized, method_not_allowed, options};
use ferry_runtime::dav::handlers::patch::{proppatch_verb, PatchStep};
use ferry_runtime::dav::handlers::read::{get_file, get_probe, GetStep};
use ferry_runtime::dav::handlers::write::{
    copy_verb, delete_verb, mkcol_verb, move_verb, put_file, put_sidecar, sidecar_copied,
    sidecar_moved, sidecar_put, CopyStep, DeleteStep, MkcolStep, MoveStep, PutStep, TwoPaths,
};
use ferry_runtime::dav::heads::HeadCache;
use ferry_runtime::dav::http::{find_header, Header, RequestHead, MAX_PUT_BODY_LEN};
use ferry_runtime::dav::lock::LockTable;
use ferry_runtime::dav::probes::SidecarWriteError;
use ferry_runtime::dav::put::SpoolError;
use ferry_runtime::dav::reply::{unavailable, Outcome};
use ferry_runtime::manifest::Manifest;
use ferry_runtime::types::{AccessVerb, Entry, EntryKind};

const PORT: u16 = 8_080;

fn file(name: &str, size: u64) -> Entry {
    Entry { name: name.to_owned(), kind: EntryKind::File, size, modified_unix_secs: 1 }
}

fn folder(name: &str) -> Entry {
    Entry { name: name.to_owned(), kind: EntryKind::Directory, size: 0, modified_unix_secs: 1 }
}

fn text(outcome: &Outcome) -> String {
    String::from_utf8(outcome.reply.body.clone()).unwrap()
}

fn gone() -> RpcError {
    RpcError::Remote(OpError::NotFound)
}

#[test]
fn a_listing_shows_the_folder_and_what_is_in_it() {
    let cache = Cache::new();
    let PropfindStep::Stat(asked) = propfind("DCIM", Some("1")) else { panic!("a target") };
    let PropfindStep::List(list) = asked.described(Ok(folder("DCIM")), &cache, 0, TTL_MS) else {
        panic!("a folder is listed")
    };
    let page = vec![file("a.jpg", 3), file(".DS_Store", 1), file("b.jpg.ferry-part", 1)];
    let PropfindStep::Found(found) = list.listed(Ok((page, None))) else { panic!("one page") };
    let answered = found.answered("Pixel", b"");
    assert_eq!(answered.outcome.reply.status, "207 Multi-Status");
    let xml = text(&answered.outcome);
    assert!(xml.contains("/DCIM/a.jpg"));
    assert!(!xml.contains(".DS_Store"), "a sidecar is never listed");
    assert!(!xml.contains("ferry-part"), "nor a landing in progress");
    assert_eq!(answered.outcome.logged[0].verb, AccessVerb::List);
    assert_eq!(answered.outcome.logged[0].entries, Some(1));
    let children = answered.children.unwrap();
    assert_eq!(children.len(), 1);
    assert_eq!(children[0].path, "DCIM/a.jpg");
    assert_eq!(answered.keep.unwrap().len(), 3);
}

#[test]
fn a_listing_that_is_kept_is_not_asked_for_again() {
    let mut cache = Cache::new();
    cache.put("DCIM", vec![file("a.jpg", 3)], 0, TTL_MS);
    let PropfindStep::Stat(asked) = propfind("DCIM", Some("1")) else { panic!("a target") };
    let step = asked.described(Ok(folder("DCIM")), &cache, 1, TTL_MS);
    assert!(matches!(step, PropfindStep::Found(_)));
}

#[test]
fn the_whole_tree_is_not_listed() {
    for depth in [None, Some("infinity")] {
        let PropfindStep::Answer(outcome) = propfind("DCIM", depth) else { panic!("refused") };
        assert_eq!(outcome.reply.status, "403 Forbidden");
        assert!(text(&outcome).contains("propfind-finite-depth"));
    }
    let PropfindStep::Answer(outcome) = propfind("../x", Some("0")) else { panic!("no path") };
    assert_eq!(outcome.reply.status, "404 Not Found");
}

#[test]
fn the_root_takes_the_name_of_the_device() {
    let cache = Cache::new();
    let PropfindStep::Stat(asked) = propfind("", Some("0")) else { panic!("a target") };
    let PropfindStep::Found(found) = asked.described(Ok(folder("")), &cache, 0, TTL_MS) else {
        panic!("nothing more is asked")
    };
    let answered = found.answered("Pixel", b"");
    assert!(text(&answered.outcome).contains("<D:displayname>Pixel</D:displayname>"));
    assert_eq!(answered.outcome.logged[0].verb, AccessVerb::Stat);
}

#[test]
fn a_target_the_device_does_not_have_is_not_found() {
    let cache = Cache::new();
    let PropfindStep::Stat(asked) = propfind("DCIM", Some("0")) else { panic!("a target") };
    let PropfindStep::Answer(outcome) = asked.described(Err(gone()), &cache, 0, TTL_MS) else {
        panic!("it is not there")
    };
    assert_eq!(outcome.reply.status, "404 Not Found");
    assert!(!outcome.unhealthy);
}

#[test]
fn a_sidecar_is_shown_on_its_own() {
    let found = propfind_probe("DCIM/.DS_Store", Some((5, 1)), b"");
    assert_eq!(found.reply.status, "207 Multi-Status");
    assert!(text(&found).contains("DCIM/.DS_Store"));
    assert_eq!(propfind_probe("DCIM/.DS_Store", None, b"").reply.status, "404 Not Found");
    let bytes = get_probe(Some((b"hello".to_vec(), 1)), false);
    assert_eq!(bytes.reply.status, "200 OK");
    assert_eq!(bytes.reply.body, b"hello");
    assert!(get_probe(Some((b"hello".to_vec(), 1)), true).reply.body.is_empty());
    assert_eq!(get_probe(None, false).reply.status, "404 Not Found");
}

#[test]
fn a_file_is_sent_whole_or_in_part() {
    let cache = Cache::new();
    let heads = HeadCache::new();
    let GetStep::Stat(get) = get_file("DCIM/a.jpg", false, None, &cache, &heads, 0, TTL_MS) else {
        panic!("the device is asked")
    };
    let GetStep::Send(send) = get.described(Ok(file("a.jpg", 10))) else { panic!("it is sent") };
    assert_eq!(send.reply.status, "200 OK");
    assert_eq!((send.start, send.end), (0, 9));
    assert_eq!(find_header(&send.reply.headers, "Content-Length"), Some("10"));
    let reading = send.rest(0).unwrap();
    assert_eq!((reading.offset, reading.stop_at), (0, 10));
    let logged = send.sent(10);
    assert_eq!(logged.verb, AccessVerb::Read);
    assert_eq!(logged.bytes, Some(10));

    let range = Some("bytes=2-3");
    let GetStep::Stat(get) = get_file("DCIM/a.jpg", false, range, &cache, &heads, 0, TTL_MS) else {
        panic!("the device is asked")
    };
    let GetStep::Send(send) = get.described(Ok(file("a.jpg", 10))) else { panic!("it is sent") };
    assert_eq!(send.reply.status, "206 Partial Content");
    assert_eq!(find_header(&send.reply.headers, "Content-Range"), Some("bytes 2-3/10"));

    let range = Some("bytes=20-30");
    let GetStep::Stat(get) = get_file("DCIM/a.jpg", false, range, &cache, &heads, 0, TTL_MS) else {
        panic!("the device is asked")
    };
    let GetStep::Answer(outcome) = get.described(Ok(file("a.jpg", 10))) else { panic!("refused") };
    assert_eq!(outcome.reply.status, "416 Range Not Satisfiable");
}

#[test]
fn a_file_whose_head_is_kept_needs_no_wire() {
    let mut cache = Cache::new();
    let mut heads = HeadCache::new();
    cache.put("DCIM", vec![file("a.jpg", 4)], 0, TTL_MS);
    heads.put("DCIM/a.jpg", 4, 1, b"abcd".to_vec());
    let GetStep::Send(send) = get_file("DCIM/a.jpg", false, None, &cache, &heads, 1, TTL_MS) else {
        panic!("everything is known")
    };
    let head = heads.get("DCIM/a.jpg", 4, 1);
    assert_eq!(send.from_head(head), b"abcd");
    assert!(send.rest(4).is_none());
}

#[test]
fn a_folder_is_made_unless_it_is_locked() {
    let mut locks = LockTable::new();
    let MkcolStep::Mkdir(made) = mkcol_verb("DCIM/New", None, &locks, 0) else { panic!("made") };
    let outcome = made.answered(Ok(()));
    assert_eq!(outcome.reply.status, "201 Created");
    assert_eq!(outcome.invalidate, vec!["DCIM".to_owned()]);
    assert_eq!(outcome.logged[0].verb, AccessVerb::Mkdir);

    let MkcolStep::Mkdir(made) = mkcol_verb("DCIM/New", None, &locks, 0) else { panic!("made") };
    assert_eq!(made.answered(Err(gone())).reply.status, "409 Conflict", "no parent");

    locks.lock_path("DCIM/New", 0).unwrap();
    let MkcolStep::Answer(outcome) = mkcol_verb("DCIM/New", None, &locks, 0) else {
        panic!("it is locked")
    };
    assert_eq!(outcome.reply.status, "423 Locked");
    let MkcolStep::Answer(outcome) = mkcol_verb("", None, &locks, 0) else { panic!("the root") };
    assert_eq!(outcome.reply.status, "404 Not Found");
}

#[test]
fn a_file_is_deleted_with_one_call() {
    let locks = LockTable::new();
    let DeleteStep::Stat(target) = delete_verb("DCIM/a.jpg", None, &locks, 0) else { panic!() };
    let DeleteStep::File(target) = target.described(Ok(file("a.jpg", 1))) else { panic!() };
    assert_eq!(target.deleted(Ok(())).reply.status, "204 No Content");
    let DeleteStep::Sidecar(name) = delete_verb("DCIM/.DS_Store", None, &locks, 0) else {
        panic!("a sidecar never reaches the device")
    };
    assert_eq!(name, "DCIM/.DS_Store");
    assert_eq!(sidecar_moved(true).reply.status, "204 No Content");
    assert_eq!(sidecar_moved(false).reply.status, "404 Not Found");
    let DeleteStep::Answer(outcome) = delete_verb("", None, &locks, 0) else { panic!("the root") };
    assert_eq!(outcome.reply.status, "403 Forbidden");
}

fn two<'a>(destination: Option<&'a str>, overwrite: Option<&'a str>) -> TwoPaths<'a> {
    TwoPaths { if_header: None, destination, overwrite }
}

#[test]
fn a_move_names_where_it_goes() {
    let locks = LockTable::new();
    let there = Some("http://127.0.0.1:8080/DCIM/b.jpg");
    let MoveStep::Rename(moved) = move_verb("DCIM/a.jpg", &two(there, None), PORT, &locks, 0)
    else {
        panic!("it is renamed")
    };
    assert_eq!(moved.to.as_str(), "DCIM/b.jpg");
    let outcome = moved.renamed(Ok(()));
    assert_eq!(outcome.reply.status, "204 No Content");
    assert_eq!(outcome.logged[0].verb, AccessVerb::Rename);

    let MoveStep::Check(moved) = move_verb("DCIM/a.jpg", &two(there, Some("F")), PORT, &locks, 0)
    else {
        panic!("the destination is looked at")
    };
    let MoveStep::Answer(outcome) = moved.checked(Ok(file("b.jpg", 1))) else { panic!("taken") };
    assert_eq!(outcome.reply.status, "412 Precondition Failed");

    let away = Some("http://elsewhere/DCIM/b.jpg");
    let MoveStep::Answer(outcome) = move_verb("DCIM/a.jpg", &two(away, None), PORT, &locks, 0)
    else {
        panic!("another host")
    };
    assert_eq!(outcome.reply.status, "400 Bad Request");

    let hidden = Some("http://127.0.0.1:8080/DCIM/.DS_Store");
    let MoveStep::Answer(outcome) = move_verb("DCIM/a.jpg", &two(hidden, None), PORT, &locks, 0)
    else {
        panic!("a file does not become a sidecar")
    };
    assert_eq!(outcome.reply.status, "403 Forbidden");
    let step = move_verb("DCIM/.DS_Store", &two(hidden, None), PORT, &locks, 0);
    assert!(matches!(step, MoveStep::Sidecar(_, _)));
}

#[test]
fn a_copy_goes_through_the_spool() {
    let locks = LockTable::new();
    let there = Some("http://127.0.0.1:8080/DCIM/b.jpg");
    let CopyStep::Stat(copying) = copy_verb("DCIM/a.jpg", &two(there, None), PORT, &locks, 0)
    else {
        panic!("the source is looked at")
    };
    let CopyStep::Spool(copy) = copying.described(Ok(file("a.jpg", 7))) else { panic!("a file") };
    let CopyStep::Fetch(copy) = copy.spooled(Ok(())) else { panic!("it is fetched") };
    assert_eq!(copy.reading().stop_at, 7);
    let manifest = Manifest { length: 7, chunk_size: 1_024, chunks: vec![[1; 32]], root: [1; 32] };
    let (step, land) = copy.fetched(Ok(Some(manifest)));
    assert!(land.is_some());
    let CopyStep::Land(copy) = step else { panic!("it lands") };
    let outcome = copy.landed(Ok(()));
    assert_eq!(outcome.reply.status, "201 Created");

    let CopyStep::Stat(copying) = copy_verb("DCIM/a.jpg", &two(there, None), PORT, &locks, 0)
    else {
        panic!("the source is looked at")
    };
    let CopyStep::Answer(outcome) = copying.described(Ok(folder("a"))) else { panic!("a folder") };
    assert_eq!(outcome.reply.status, "403 Forbidden");
    assert_eq!(sidecar_copied(None).reply.status, "404 Not Found");
    assert_eq!(sidecar_copied(Some(Ok(()))).reply.status, "201 Created");
}

fn put_head(length: Option<&str>) -> RequestHead {
    let mut headers = Vec::new();
    if let Some(n) = length {
        headers.push(Header { name: "content-length".to_owned(), value: n.to_owned() });
    }
    RequestHead { method: "PUT".to_owned(), target: "/DCIM/a.jpg".to_owned(), headers }
}

#[test]
fn a_file_that_is_put_lands_and_is_answered_with_its_tag() {
    let locks = LockTable::new();
    let PutStep::Spool(put) = put_file("DCIM/a.jpg", &put_head(Some("5")), &locks, 0) else {
        panic!("it is spooled")
    };
    let PutStep::Receive(put) = put.spooled(Ok(())) else { panic!("the body is received") };
    let PutStep::Open(put) = put.received(Some(5)) else { panic!("all of it came") };
    let manifest = Manifest { length: 5, chunk_size: 1_024, chunks: vec![[1; 32]], root: [1; 32] };
    let PutStep::Stat(put) = put.opened(Some(manifest)) else { panic!("the target is looked at") };
    let (step, land) = put.described(Err(gone()));
    assert!(land.is_some());
    let PutStep::Land(landing) = step else { panic!("a new file lands") };
    let PutStep::Restat(landed) = landing.landed(Ok(()), 5) else { panic!("it landed") };
    let outcome = landed.described(Some(file("a.jpg", 5)));
    assert_eq!(outcome.reply.status, "201 Created");
    assert_eq!(find_header(&outcome.reply.headers, "ETag"), Some("\"5-1\""));
    assert_eq!(outcome.logged[0].verb, AccessVerb::Write);
    assert_eq!(outcome.logged[0].bytes, Some(5));
}

#[test]
fn a_put_that_cannot_be_taken_is_refused() {
    let mut locks = LockTable::new();
    let PutStep::Close(outcome) = put_file("DCIM/a.jpg", &put_head(None), &locks, 0) else {
        panic!("no length")
    };
    assert_eq!(outcome.reply.status, "411 Length Required");
    let over = format!("{}", MAX_PUT_BODY_LEN + 1);
    let PutStep::Close(outcome) = put_file("DCIM/a.jpg", &put_head(Some(&over)), &locks, 0) else {
        panic!("too long")
    };
    assert_eq!(outcome.reply.status, "413 Payload Too Large");
    let PutStep::Spool(put) = put_file("DCIM/a.jpg", &put_head(Some("5")), &locks, 0) else {
        panic!("it is spooled")
    };
    let PutStep::Drain(5, outcome) = put.spooled(Err(SpoolError::Full)) else { panic!("full") };
    assert_eq!(outcome.reply.status, "507 Insufficient Storage");
    let PutStep::Spool(put) = put_file("DCIM/a.jpg", &put_head(Some("5")), &locks, 0) else {
        panic!("it is spooled")
    };
    assert!(matches!(put.received(Some(4)), PutStep::Drop), "a short body is not answered");
    locks.lock_path("DCIM/a.jpg", 0).unwrap();
    let PutStep::Drain(5, outcome) = put_file("DCIM/a.jpg", &put_head(Some("5")), &locks, 0) else {
        panic!("locked")
    };
    assert_eq!(outcome.reply.status, "423 Locked");
}

#[test]
fn a_sidecar_is_put_in_the_store() {
    let mut locks = LockTable::new();
    assert!(put_sidecar("DCIM/.DS_Store", None, &locks, 0).is_none());
    let outcome = sidecar_put("DCIM/.DS_Store", Ok(()));
    assert_eq!(outcome.reply.status, "201 Created");
    assert_eq!(outcome.invalidate, vec!["DCIM".to_owned()]);
    let refused = |error| sidecar_put("DCIM/.DS_Store", Err(error)).reply.status;
    assert_eq!(refused(SidecarWriteError::TooLarge), "413 Payload Too Large");
    assert_eq!(refused(SidecarWriteError::Full), "507 Insufficient Storage");
    assert_eq!(refused(SidecarWriteError::Io), "500 Internal Server Error");
    locks.lock_path("DCIM/.DS_Store", 0).unwrap();
    let locked = put_sidecar("DCIM/.DS_Store", None, &locks, 0).unwrap();
    assert_eq!(locked.reply.status, "423 Locked");
}

#[test]
fn a_modified_time_is_set_and_everything_else_is_refused() {
    let locks = LockTable::new();
    let body = b"<D:propertyupdate><D:set><D:prop><D:getlastmodified>Thu, 01 Jan 1970 00:00:10 GMT</D:getlastmodified><D:owner>me</D:owner></D:prop></D:set></D:propertyupdate>";
    let PatchStep::SetMtime(set) = proppatch_verb("DCIM/a.jpg", None, body, &locks, 0) else {
        panic!("the time is set")
    };
    assert_eq!(set.when, 10);
    assert_eq!(set.path.as_str(), "DCIM/a.jpg");
    let outcome = set.answered(Ok(()));
    assert_eq!(outcome.reply.status, "207 Multi-Status");
    assert!(text(&outcome).contains("200 OK"));
    assert!(text(&outcome).contains("403 Forbidden"));

    let bad = b"<D:getlastmodified>yesterday</D:getlastmodified>";
    let step = proppatch_verb("DCIM/a.jpg", None, bad, &locks, 0);
    let PatchStep::Answer(outcome) = step else { panic!("nothing is set") };
    assert!(!text(&outcome).contains("200 OK"));
    let step = proppatch_verb("DCIM/.DS_Store", None, body, &locks, 0);
    assert!(matches!(step, PatchStep::Sidecar(Some(10), _)));
}

#[test]
fn a_lock_is_taken_and_given_back() {
    let mut locks = LockTable::new();
    let taken = lock_verb(&mut locks, "DCIM/a.jpg", 0);
    assert_eq!(taken.reply.status, "200 OK");
    let token = find_header(&taken.reply.headers, "Lock-Token").unwrap().to_owned();
    assert!(text(&taken).contains("opaquelocktoken:"));
    let wrong = unlock_verb(&mut locks, "DCIM/a.jpg", Some("<opaquelocktoken:other>"), 0);
    assert_eq!(wrong.reply.status, "403 Forbidden");
    assert_eq!(unlock_verb(&mut locks, "DCIM/a.jpg", Some(&token), 0).reply.status, "204 No Content");
    assert_eq!(unlock_verb(&mut locks, "DCIM/a.jpg", Some(&token), 0).reply.status, "409 Conflict");
}

#[test]
fn only_the_right_password_is_let_in() {
    assert!(authorized("ferry", "secret", Some("Basic ZmVycnk6c2VjcmV0")));
    assert!(!authorized("ferry", "other", Some("Basic ZmVycnk6c2VjcmV0")));
    assert!(!authorized("ferry", "secret", Some("Bearer ZmVycnk6c2VjcmV0")));
    assert!(!authorized("ferry", "secret", None));
    assert_eq!(options().reply.status, "200 OK");
    assert_eq!(find_header(&options().reply.headers, "MS-Author-Via"), Some("DAV"));
    assert_eq!(method_not_allowed().reply.status, "405 Method Not Allowed");
    assert_eq!(unavailable().reply.status, "503 Service Unavailable");
}

#[test]
fn a_broken_connection_is_dropped() {
    let broken = RpcError::Frame(FrameError::Io);
    assert_eq!(map_rpc_error(&broken), ("503 Service Unavailable", true));
    assert_eq!(map_write_error(&broken), ("503 Service Unavailable", true));
    assert_eq!(map_write_error(&RpcError::Remote(OpError::PermissionDenied)), ("403 Forbidden", false));
    assert_eq!(map_write_error(&RpcError::Remote(OpError::NotEmpty)), ("409 Conflict", false));
    assert_eq!(map_write_error(&RpcError::Remote(OpError::Unsupported)), ("502 Bad Gateway", false));
    assert_eq!(map_rpc_error(&gone()), ("404 Not Found", false));
}
