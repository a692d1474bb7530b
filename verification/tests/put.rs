use ferry_runtime::core_errors::{OpError, RpcError};
use ferry_runtime::dav::put::{
    land_delta, land_new, LandStep, Reading, SpoolBytes, SpoolError, MAX_SPOOL_BYTES,
};
use ferry_runtime::limits::CHUNK_SIZE;
use ferry_runtime::manifest::Manifest;
use ferry_runtime::path::RemotePath;
use std::collections::BTreeMap;

fn path(text: &str) -> RemotePath {
    RemotePath::parse(text).unwrap()
}

/// A mark of 32 bytes that tells two texts of these tests apart.
fn mark(bytes: &[u8]) -> [u8; 32] {
    let mut out = [0u8; 32];
    let mut sum: u64 = 1_469_598_103_934_665_603;
    for b in bytes {
        sum = (sum ^ u64::from(*b)).wrapping_mul(1_099_511_628_211);
    }
    out[..8].copy_from_slice(&sum.to_be_bytes());
    out[8..16].copy_from_slice(&(bytes.len() as u64).to_be_bytes());
    out
}

fn manifest_from_bytes(bytes: &[u8]) -> Manifest {
    Manifest {
        length: bytes.len() as u64,
        chunk_size: CHUNK_SIZE,
        chunks: bytes.chunks(CHUNK_SIZE as usize).map(mark).collect(),
        root: mark(bytes),
    }
}

/// The other device: its files, their modified times, and whether a byte is
/// added to a file before its second manifest.
struct Peer {
    files: BTreeMap<String, Vec<u8>>,
    times: BTreeMap<String, i64>,
    manifests: usize,
    changes_after_first_manifest: bool,
}

impl Peer {
    fn new() -> Peer {
        Peer {
            files: BTreeMap::new(),
            times: BTreeMap::new(),
            manifests: 0,
            changes_after_first_manifest: false,
        }
    }

    fn with_file(path: &str, bytes: Vec<u8>) -> Peer {
        let mut peer = Peer::new();
        peer.files.insert(path.to_owned(), bytes);
        peer.times.insert(path.to_owned(), 0);
        peer
    }

    fn manifest(&mut self, path: &str) -> Result<Manifest, RpcError> {
        self.manifests += 1;
        if self.changes_after_first_manifest && self.manifests == 2 {
            if let Some(bytes) = self.files.get_mut(path) {
                bytes.push(b'!');
                self.times.insert(path.to_owned(), 0);
            }
        }
        match self.files.get(path) {
            Some(bytes) => Ok(manifest_from_bytes(bytes)),
            None => Err(RpcError::Remote(OpError::NotFound)),
        }
    }

    fn write(&mut self, path: &str, offset: u64, bytes: &[u8]) -> Result<u32, RpcError> {
        let file = self.files.entry(path.to_owned()).or_default();
        let end = offset as usize + bytes.len();
        if file.len() < end {
            file.resize(end, 0);
        }
        file[offset as usize..end].copy_from_slice(bytes);
        Ok(bytes.len() as u32)
    }
}

/// Performs every step of a landing on the peer, with the bytes of the spool.
fn land(peer: &mut Peer, spool: &[u8], first: LandStep) -> (Result<(), RpcError>, u64) {
    let mut step = first;
    loop {
        step = match step {
            LandStep::Compare(landing) => {
                let there = peer.manifest(landing.destination.as_str());
                landing.compared(there)
            }
            LandStep::Touch(landing) => {
                let wrote = peer.write(landing.onto.as_str(), 0, &[]);
                landing.touched(wrote)
            }
            LandStep::Read(landing) => {
                let bytes = match landing.wanted() {
                    Some((offset, len)) => {
                        spool[offset as usize..offset as usize + len as usize].to_vec()
                    }
                    None => Vec::new(),
                };
                landing.read(Ok(bytes))
            }
            LandStep::Write(write) => {
                let taken = peer.write(write.landing.onto.as_str(), write.offset, write.piece());
                write.wrote(taken)
            }
            LandStep::Truncate(landing) => {
                let length = landing.manifest.length as usize;
                peer.files.get_mut(landing.onto.as_str()).unwrap().truncate(length);
                landing.truncated(Ok(()))
            }
            LandStep::Check(landing) => {
                let landed = peer.manifest(landing.onto.as_str());
                landing.checked(landed)
            }
            LandStep::Rename(landing) => {
                let bytes = peer.files.remove(landing.onto.as_str()).unwrap();
                peer.files.insert(landing.destination.as_str().to_owned(), bytes);
                landing.renamed(Ok(()))
            }
            LandStep::Mtime(landing) => {
                peer.times.insert(landing.destination.as_str().to_owned(), 1_700_000_000);
                landing.dated(Ok(()))
            }
            LandStep::Cleanup(landing, error) => {
                peer.files.remove(landing.onto.as_str());
                landing.cleaned(error)
            }
            LandStep::Done(done, written) => return (done, written),
        };
    }
}

#[test]
fn land_new_lands_a_file_the_peer_never_had() {
    let spool = b"hello from the spool";
    let mut peer = Peer::new();
    let first = land_new(&path("Root/a.txt"), manifest_from_bytes(spool));
    let (done, bytes_written) = land(&mut peer, spool, first);
    assert_eq!(done, Ok(()));
    assert_eq!(bytes_written, 20, "every byte of the file was sent");

    assert_eq!(peer.files.get("Root/a.txt").unwrap(), b"hello from the spool");
    assert!(peer.files.get("Root/a.txt.ferry-part").is_none());
}

#[test]
fn land_delta_writes_only_the_chunk_that_changed() {
    let chunk_size = CHUNK_SIZE as usize;
    let mut original = vec![0u8; chunk_size * 2];
    original[0] = 1;
    original[chunk_size] = 2;
    let mut changed = original.clone();
    changed[chunk_size] = 99;

    let mut peer = Peer::with_file("Root/a.txt", original);
    let first = land_delta(&path("Root/a.txt"), manifest_from_bytes(&changed));
    let (done, bytes_written) = land(&mut peer, &changed, first);
    assert_eq!(done, Ok(()));
    assert_eq!(
        bytes_written,
        u64::from(CHUNK_SIZE),
        "only the one changed chunk should be sent, not the whole file"
    );
    assert!(peer.files.get("Root/a.txt") == Some(&changed));
}

#[test]
fn land_delta_shrinks_a_file_that_got_shorter() {
    let mut peer = Peer::with_file("Root/a.txt", b"a long original file".to_vec());
    let first = land_delta(&path("Root/a.txt"), manifest_from_bytes(b"short"));
    let (done, _bytes_written) = land(&mut peer, b"short", first);
    assert_eq!(done, Ok(()));
    let landed = peer.files.get("Root/a.txt").unwrap();
    assert_eq!(landed.len(), 5);
    assert_eq!(landed, b"short");
}

#[test]
fn land_delta_keeps_the_old_modified_time_when_the_peer_changes_first() {
    let mut peer = Peer::with_file("Root/a.txt", b"a long original file".to_vec());
    peer.changes_after_first_manifest = true;
    let first = land_delta(&path("Root/a.txt"), manifest_from_bytes(b"short"));
    let (done, bytes_written) = land(&mut peer, b"short", first);
    let error = done.expect_err("the peer's file changed underneath the landing");
    assert!(matches!(error, RpcError::Remote(OpError::Internal)));
    assert_eq!(bytes_written, 5, "a failed landing still reports what it actually wrote");
    assert_eq!(
        peer.times.get("Root/a.txt"),
        Some(&0),
        "a failed landing must never touch the modified time"
    );
}

#[test]
fn an_empty_file_lands_and_is_there() {
    let mut peer = Peer::new();
    let first = land_new(&path("Root/empty.txt"), manifest_from_bytes(b""));
    let (done, bytes_written) = land(&mut peer, b"", first);
    assert_eq!(done, Ok(()));
    assert_eq!(bytes_written, 0);
    assert_eq!(peer.files.get("Root/empty.txt"), Some(&Vec::new()));
}

#[test]
fn a_destination_that_is_gone_fails_the_delta() {
    let mut peer = Peer::new();
    let first = land_delta(&path("Root/a.txt"), manifest_from_bytes(b"short"));
    let (done, bytes_written) = land(&mut peer, b"short", first);
    assert_eq!(done, Err(RpcError::Remote(OpError::NotFound)));
    assert_eq!(bytes_written, 0);
}

#[test]
fn a_spool_name_is_new_each_time_and_counted() {
    let mut spool = SpoolBytes::new();
    assert!(spool.needs_walk());
    spool.init_from(10);
    spool.init_from(99);
    assert_eq!(spool.get(), 10, "only the first walk counts");
    let one = spool.new_spool_name(true, 5).unwrap();
    let two = spool.new_spool_name(true, 5).unwrap();
    assert_ne!(one, two);
    assert_eq!(one.len(), 32);
    assert_eq!(spool.get(), 20);
    spool.release(15);
    assert_eq!(spool.get(), 5);
    assert_eq!(spool.new_spool_name(false, 5), Err(SpoolError::Failed));
}

#[test]
fn a_full_spool_takes_no_further_file() {
    let mut spool = SpoolBytes::new();
    spool.init_from(MAX_SPOOL_BYTES);
    assert_eq!(spool.reserve_with(1, Some("name".to_owned())), Err(SpoolError::Full));
    spool.release(1);
    assert_eq!(spool.reserve_with(1, None), Err(SpoolError::Failed));
    assert_eq!(spool.reserve_with(1, Some("name".to_owned())), Ok("name".to_owned()));
}

#[test]
fn a_part_is_read_piece_by_piece() {
    let mut reading = Reading { offset: 10, stop_at: 20 };
    assert_eq!(reading.next(), Some((10, 10)));
    reading.read(4);
    assert_eq!(reading.next(), Some((14, 6)));
    reading.read(0);
    assert_eq!(reading.next(), None, "nothing read means the file ended");
}

#[test]
fn the_count_of_a_landing_is_what_its_changed_chunks_have() {
    let chunk_size = CHUNK_SIZE as usize;
    let before = vec![7u8; chunk_size * 3 + 100];
    let mut after = before.clone();
    after[0] = 1;
    after[chunk_size * 3] = 2;

    let mut peer = Peer::with_file("Root/a.bin", before);
    let first = land_delta(&path("Root/a.bin"), manifest_from_bytes(&after));
    let (done, written) = land(&mut peer, &after, first);
    assert_eq!(done, Ok(()));
    assert_eq!(written, u64::from(CHUNK_SIZE) + 100, "the first chunk and the short last one");
    assert!(peer.files.get("Root/a.bin") == Some(&after));

    let first = land_new(&path("Root/b.bin"), manifest_from_bytes(&after));
    let (done, written) = land(&mut peer, &after, first);
    assert_eq!(done, Ok(()));
    assert_eq!(written, after.len() as u64, "a new file is written whole");
}
