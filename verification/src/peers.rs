//! The paired devices, and the keys they are known by.

use crate::core_errors::PeerError;
use crate::text::{
    chars_of, copy_of, hex_digit, hex_of, hex_text, lemma_hex_len, same_bytes, same_text,
};
use crate::types::DeviceKind;
use vstd::prelude::*;
use vstd::string::StringSliceAdditionalSpecFns;
use vstd::utf8::encode_utf8;

verus! {

/// The length of a public key.
pub const KEY_LEN: usize = 32;

/// The most paired devices.
pub const MAX_PEERS: usize = 64;

/// The most bytes a device's name may take.
pub const MAX_NAME_LEN: usize = 64;

/// `text` spells a key in hexadecimal.
pub open spec fn is_key_hex(text: Seq<char>) -> bool {
    exists|key: Seq<u8>| key.len() == KEY_LEN && #[trigger] hex_of(key) == text
}

/// The number a lower case hexadecimal digit stands for.
fn hex_value(c: char) -> (value: Option<u8>)
    ensures
        match value {
            Some(v) => v < 16 && hex_digit(v as int) == c,
            None => forall|v: int| 0 <= v < 16 ==> #[trigger] hex_digit(v) != c,
        },
{
    if '0' <= c && c <= '9' {
        Some(c as u8 - 48)
    } else if 'a' <= c && c <= 'f' {
        Some(c as u8 - 87)
    } else {
        None
    }
}

/// Two digits of a spelling are those of one byte.
pub proof fn lemma_hex_at(key: Seq<u8>, i: int)
    requires
        0 <= i < key.len(),
    ensures
        hex_of(key).len() == 2 * key.len(),
        hex_of(key)[2 * i] == hex_digit(key[i] as int / 16),
        hex_of(key)[2 * i + 1] == hex_digit(key[i] as int % 16),
    decreases key.len(),
{
    lemma_hex_len(key);
    lemma_hex_len(key.drop_last());
    if i < key.len() - 1 {
        lemma_hex_at(key.drop_last(), i);
    }
}

/// Two digits that are equal stand for the same number.
proof fn lemma_hex_digit_injective(a: int, b: int)
    requires
        0 <= a < 16,
        0 <= b < 16,
        hex_digit(a) == hex_digit(b),
    ensures
        a == b,
{
}

/// Two keys of one spelling are one key.
pub proof fn lemma_one_key(a: Seq<u8>, b: Seq<u8>)
    requires
        hex_of(a) == hex_of(b),
    ensures
        a == b,
{
    lemma_hex_len(a);
    lemma_hex_len(b);
    assert forall|i: int| 0 <= i < a.len() implies a[i] == b[i] by {
        lemma_hex_at(a, i);
        lemma_hex_at(b, i);
        lemma_hex_digit_injective(a[i] as int / 16, b[i] as int / 16);
        lemma_hex_digit_injective(a[i] as int % 16, b[i] as int % 16);
    }
    assert(a =~= b);
}

/// The key that a text of 64 lower case hexadecimal digits spells.
pub fn key_from_hex(text: &str) -> (key: Option<[u8; 32]>)
    ensures
        match key {
            Some(k) => hex_of(k@) == text@,
            None => !is_key_hex(text@),
        },
{
    let chars = chars_of(text);
    if chars.len() != 64 {
        proof {
            if is_key_hex(text@) {
                let k = choose|k: Seq<u8>| k.len() == KEY_LEN && #[trigger] hex_of(k) == text@;
                lemma_hex_len(k);
            }
        }
        return None;
    }
    let mut key: [u8; 32] = [0u8;32];
    let mut i: usize = 0;
    assert(key@.take(0) =~= Seq::<u8>::empty());
    assert(text@.take(0) =~= Seq::<char>::empty());
    while i < 32
        invariant
            i <= 32,
            chars@ == text@,
            chars@.len() == 64,
            hex_of(key@.take(i as int)) == text@.take(2 * i as int),
        decreases 32 - i,
    {
        let high = hex_value(chars[2 * i]);
        let low = hex_value(chars[2 * i + 1]);
        match (high, low) {
            (Some(h), Some(l)) => {
                let ghost before = key@;
                key[i] = h * 16 + l;
                proof {
                    let grown = key@.take(i + 1);
                    assert(grown.drop_last() =~= before.take(i as int));
                    assert(grown.last() == h * 16 + l);
                    assert((h * 16 + l) as int / 16 == h);
                    assert((h * 16 + l) as int % 16 == l);
                    assert(text@.take(2 * (i + 1)) =~= text@.take(2 * i as int).push(
                        hex_digit(h as int),
                    ).push(hex_digit(l as int)));
                }
                i += 1;
            },
            _ => {
                proof {
                    if is_key_hex(text@) {
                        let k = choose|k: Seq<u8>|
                            k.len() == KEY_LEN && #[trigger] hex_of(k) == text@;
                        lemma_hex_at(k, i as int);
                        assert(hex_digit(k[i as int] as int / 16) == chars@[2 * i as int]);
                        assert(hex_digit(k[i as int] as int % 16) == chars@[2 * i + 1]);
                    }
                }
                return None;
            },
        }
    }
    assert(key@.take(32) =~= key@);
    assert(text@.take(64) =~= text@);
    Some(key)
}

/// One paired device, as it is stored.
#[derive(Debug)]
pub struct Peer {
    /// Its public key.
    pub key: [u8; 32],
    /// The name it sent in `hello`.
    pub name: String,
    /// When it was paired.
    pub paired_unix_secs: i64,
    /// What kind of device it said it was.
    pub kind: DeviceKind,
}

/// What is known of one paired device.
pub struct PeerView {
    pub key: Seq<u8>,
    pub name: Seq<char>,
    pub paired: i64,
    pub kind: DeviceKind,
}

impl View for Peer {
    type V = PeerView;

    open spec fn view(&self) -> PeerView {
        PeerView {
            key: self.key@,
            name: self.name@,
            paired: self.paired_unix_secs,
            kind: self.kind,
        }
    }
}

impl Peer {
    /// The same device once more.
    pub fn copy(&self) -> (peer: Peer)
        ensures
            peer@ == self@,
    {
        Peer {
            key: self.key,
            name: copy_of(self.name.as_str()),
            paired_unix_secs: self.paired_unix_secs,
            kind: self.kind,
        }
    }
}

/// A device with this key, in hexadecimal, is paired.
pub open spec fn is_paired(peers: Seq<PeerView>, key_hex: Seq<char>) -> bool {
    exists|i: int| 0 <= i < peers.len() && hex_of((#[trigger] peers[i]).key) == key_hex
}

/// The device with this key, in hexadecimal.
pub open spec fn peer_of(peers: Seq<PeerView>, key_hex: Seq<char>) -> PeerView {
    let i = choose|i: int| 0 <= i < peers.len() && hex_of((#[trigger] peers[i]).key) == key_hex;
    peers[i]
}

/// `peers` with `peer` in the place of the one that has its key, or at the
/// end where none has.
pub open spec fn with_peer(peers: Seq<PeerView>, peer: PeerView) -> Seq<PeerView> {
    if is_paired(peers, hex_of(peer.key)) {
        Seq::new(
            peers.len(),
            |i: int|
                if peers[i].key == peer.key {
                    peer
                } else {
                    peers[i]
                },
        )
    } else {
        peers.push(peer)
    }
}

/// Why `peer` cannot be added.
pub open spec fn add_problem(peers: Seq<PeerView>, peer: PeerView) -> Option<PeerError> {
    if encode_utf8(peer.name).len() > MAX_NAME_LEN {
        Some(PeerError::NameTooLong)
    } else if !is_paired(peers, hex_of(peer.key)) && peers.len() >= MAX_PEERS {
        Some(PeerError::TooMany)
    } else {
        None
    }
}

/// No two devices have one key.
pub open spec fn keys_differ(peers: Seq<PeerView>) -> bool {
    forall|i: int, j: int|
        0 <= i < j < peers.len() ==> (#[trigger] peers[i]).key != (#[trigger] peers[j]).key
}

/// The paired devices, oldest first. The view is the list of them.
#[derive(Debug)]
pub struct Peers {
    peers: Vec<Peer>,
}

impl View for Peers {
    type V = Seq<PeerView>;

    closed spec fn view(&self) -> Seq<PeerView> {
        self.peers@.map_values(|p: Peer| p@)
    }
}

impl Peers {
    /// No more than [`MAX_PEERS`], and no two of one key.
    pub open spec fn wf(self) -> bool {
        self@.len() <= MAX_PEERS && keys_differ(self@)
    }

    /// No device is paired.
    pub fn new() -> (peers: Peers)
        ensures
            peers.wf(),
            peers@.len() == 0,
    {
        Peers { peers: Vec::new() }
    }

    /// How many devices are paired.
    pub fn len(&self) -> (len: usize)
        ensures
            len == self@.len(),
    {
        self.peers.len()
    }

    /// The device at a place in the list.
    pub fn at(&self, i: usize) -> (peer: &Peer)
        requires
            i < self@.len(),
        ensures
            peer@ == self@[i as int],
    {
        &self.peers[i]
    }

    /// The place of the device with this key.
    fn place(&self, key: &[u8; 32]) -> (at: Option<usize>)
        ensures
            match at {
                Some(i) => i < self@.len() && self@[i as int].key == key@,
                None => forall|i: int| 0 <= i < self@.len() ==> (#[trigger] self@[i]).key != key@,
            },
    {
        let mut i: usize = 0;
        while i < self.peers.len()
            invariant
                i <= self.peers.len(),
                forall|j: int| 0 <= j < i ==> (#[trigger] self@[j]).key != key@,
            decreases self.peers.len() - i,
        {
            assert(self@[i as int] == self.peers@[i as int]@);
            if same_bytes(self.peers[i].key.as_slice(), key.as_slice()) {
                return Some(i);
            }
            i += 1;
        }
        None
    }

    /// The device whose key, in hexadecimal, is `key_hex`.
    pub fn get(&self, key_hex: &str) -> (peer: Option<&Peer>)
        requires
            self.wf(),
        ensures
            peer is Some <==> is_paired(self@, key_hex@),
            peer matches Some(p) ==> p@ == peer_of(self@, key_hex@) && self@.contains(p@)
                && hex_of(p@.key) == key_hex@,
    {
        let mut i: usize = 0;
        while i < self.peers.len()
            invariant
                i <= self.peers.len(),
                self.wf(),
                forall|j: int| 0 <= j < i ==> hex_of((#[trigger] self@[j]).key) != key_hex@,
            decreases self.peers.len() - i,
        {
            let peer = &self.peers[i];
            assert(self@[i as int] == peer@);
            let spelled = hex_text(peer.key.as_slice());
            if same_text(spelled.as_str(), key_hex) {
                proof {
                    let k = choose|k: int|
                        0 <= k < self@.len() && hex_of((#[trigger] self@[k]).key) == key_hex@;
                    assert(hex_of(self@[i as int].key) == key_hex@);
                    lemma_one_key(self@[k].key, self@[i as int].key);
                    assert(k == i);
                }
                return Some(peer);
            }
            i += 1;
        }
        None
    }

    /// Whether a device with this key is paired.
    pub fn contains(&self, key_hex: &str) -> (found: bool)
        requires
            self.wf(),
        ensures
            found == is_paired(self@, key_hex@),
    {
        self.get(key_hex).is_some()
    }

    /// Adds a device, in place of the one that has its key.
    pub fn add(&mut self, peer: Peer) -> (added: Result<(), PeerError>)
        requires
            old(self).wf(),
        ensures
            final(self).wf(),
            match added {
                Ok(_) => add_problem(old(self)@, peer@) is None && final(self)@ == with_peer(
                    old(self)@,
                    peer@,
                ),
                Err(e) => add_problem(old(self)@, peer@) == Some(e) && final(self)@ == old(self)@,
            },
    {
        let ghost before = self@;
        let ghost new = peer@;
        if peer.name.as_str().as_bytes().len() > MAX_NAME_LEN {
            return Err(PeerError::NameTooLong);
        }
        match self.place(&peer.key) {
            Some(i) => {
                self.peers.set(i, peer);
                proof {
                    assert(hex_of(before[i as int].key) == hex_of(new.key));
                    assert(self@ =~= with_peer(before, new));
                }
            },
            None => {
                proof {
                    if is_paired(before, hex_of(new.key)) {
                        let k = choose|k: int|
                            0 <= k < before.len() && hex_of((#[trigger] before[k]).key) == hex_of(
                                new.key,
                            );
                        lemma_one_key(before[k].key, new.key);
                    }
                }
                if self.peers.len() >= MAX_PEERS {
                    return Err(PeerError::TooMany);
                }
                self.peers.push(peer);
                assert(self@ =~= before.push(new));
            },
        }
        Ok(())
    }

    /// Takes out the device whose key, in hexadecimal, is `key_hex`.
    pub fn remove(&mut self, key_hex: &str) -> (removed: bool)
        requires
            old(self).wf(),
        ensures
            final(self).wf(),
            removed == is_paired(old(self)@, key_hex@),
            final(self)@ == crate::seqs::only(
                old(self)@,
                |p: PeerView| hex_of(p.key) != key_hex@,
            ),
    {
        let ghost before = self@;
        let ghost test = |p: PeerView| hex_of(p.key) != key_hex@;
        let mut kept: Vec<Peer> = Vec::new();
        let mut removed: bool = false;
        let mut i: usize = 0;
        let n: usize = self.peers.len();
        assert(kept@.map_values(|p: Peer| p@) =~= crate::seqs::only(before.take(0), test));
        while i < n
            invariant
                i <= n,
                n == before.len(),
                self.peers@.len() == n - i,
                self@ == before.skip(i as int),
                test == (|p: PeerView| hex_of(p.key) != key_hex@),
                kept@.map_values(|p: Peer| p@) == crate::seqs::only(before.take(i as int), test),
                removed == exists|j: int|
                    0 <= j < i && hex_of((#[trigger] before[j]).key) == key_hex@,
            decreases n - i,
        {
            let ghost left = self@;
            let ghost raw = self.peers@;
            let ghost kept_before = kept@.map_values(|p: Peer| p@);
            let peer = self.peers.remove(0);
            assert(peer@ == left[0]);
            assert(left[0] == before[i as int]);
            proof {
                assert forall|k: int| 0 <= k < self@.len() implies self@[k] == before.skip(i + 1)[k] by {
                    assert(self.peers@[k] == raw[k + 1]);
                    assert(left[k + 1] == raw[k + 1]@);
                }
                assert(self@ =~= before.skip(i + 1));
                crate::seqs::lemma_only_step(before, test, i as int);
            }
            let spelled = hex_text(peer.key.as_slice());
            if same_text(spelled.as_str(), key_hex) {
                removed = true;
            } else {
                let ghost v = peer@;
                kept.push(peer);
                assert(kept@.map_values(|p: Peer| p@) =~= kept_before.push(v));
            }
            i += 1;
        }
        assert(before.take(n as int) =~= before);
        self.peers = kept;
        proof {
            lemma_only_keys_differ(before, test);
            crate::seqs::lemma_only(before, test);
        }
        removed
    }

    /// The same list once more.
    pub fn copy(&self) -> (copy: Peers)
        ensures
            copy@ == self@,
    {
        let mut peers: Vec<Peer> = Vec::new();
        let mut i: usize = 0;
        while i < self.peers.len()
            invariant
                i <= self.peers.len(),
                peers@.map_values(|p: Peer| p@) == self@.take(i as int),
            decreases self.peers.len() - i,
        {
            let ghost before = peers@.map_values(|p: Peer| p@);
            let peer = self.peers[i].copy();
            let ghost v = peer@;
            peers.push(peer);
            assert(self@[i as int] == self.peers@[i as int]@);
            assert(peers@.map_values(|p: Peer| p@) =~= before.push(v));
            assert(before.push(v) =~= self@.take(i + 1));
            i += 1;
        }
        assert(self@.take(self@.len() as int) =~= self@);
        Peers { peers }
    }
}

/// Some of the devices are still of different keys.
proof fn lemma_only_keys_differ(peers: Seq<PeerView>, test: spec_fn(PeerView) -> bool)
    requires
        keys_differ(peers),
    ensures
        keys_differ(crate::seqs::only(peers, test)),
    decreases peers.len(),
{
    if peers.len() > 0 {
        let rest = peers.drop_last();
        lemma_only_keys_differ(rest, test);
        crate::seqs::lemma_only(rest, test);
        let kept = crate::seqs::only(peers, test);
        assert forall|i: int, j: int| 0 <= i < j < kept.len() implies (#[trigger] kept[i]).key != (
        #[trigger] kept[j]).key by {
            let before = crate::seqs::only(rest, test);
            if j == before.len() {
                assert(kept[i] == before[i]);
                assert(rest.contains(before[i]));
                let k = choose|k: int| 0 <= k < rest.len() && rest[k] == before[i];
                assert(peers[k].key != peers[peers.len() - 1].key);
            } else {
                assert(kept[i] == before[i] && kept[j] == before[j]);
            }
        }
    }
}

/// A device that was added is found by its key, and every other device that
/// was paired still is.
pub proof fn lemma_added_is_paired(peers: Seq<PeerView>, peer: PeerView, other: Seq<char>)
    requires
        keys_differ(peers),
    ensures
        is_paired(with_peer(peers, peer), hex_of(peer.key)),
        is_paired(peers, other) ==> is_paired(with_peer(peers, peer), other),
{
    let after = with_peer(peers, peer);
    if is_paired(peers, hex_of(peer.key)) {
        let k = choose|k: int|
            0 <= k < peers.len() && hex_of((#[trigger] peers[k]).key) == hex_of(peer.key);
        lemma_one_key(peers[k].key, peer.key);
        assert(after[k] == peer);
    } else {
        assert(after[peers.len() as int] == peer);
    }
    if is_paired(peers, other) {
        let k = choose|k: int| 0 <= k < peers.len() && hex_of((#[trigger] peers[k]).key) == other;
        assert(after[k].key == peers[k].key);
    }
}

/// A device that was removed is not paired any more, and every other one
/// still is.
pub proof fn lemma_removed_is_not_paired(peers: Seq<PeerView>, gone: Seq<char>, other: Seq<char>)
    ensures
        !is_paired(crate::seqs::only(peers, |p: PeerView| hex_of(p.key) != gone), gone),
        other != gone && is_paired(peers, other) ==> is_paired(
            crate::seqs::only(peers, |p: PeerView| hex_of(p.key) != gone),
            other,
        ),
{
    let test = |p: PeerView| hex_of(p.key) != gone;
    let left = crate::seqs::only(peers, test);
    crate::seqs::lemma_only(peers, test);
    if other != gone && is_paired(peers, other) {
        let k = choose|k: int| 0 <= k < peers.len() && hex_of((#[trigger] peers[k]).key) == other;
        assert(test(peers[k]));
        assert(left.contains(peers[k]));
        let j = choose|j: int| 0 <= j < left.len() && left[j] == peers[k];
        assert(hex_of(left[j].key) == other);
    }
    if is_paired(left, gone) {
        let j = choose|j: int| 0 <= j < left.len() && hex_of((#[trigger] left[j]).key) == gone;
        assert(test(left[j]));
    }
}

/// A device that is added is in the list as it is, and every other device
/// stays in it.
pub proof fn lemma_added_is_itself(peers: Seq<PeerView>, peer: PeerView, other: PeerView)
    requires
        keys_differ(peers),
    ensures
        with_peer(peers, peer).contains(peer),
        is_paired(with_peer(peers, peer), hex_of(peer.key)),
        peer_of(with_peer(peers, peer), hex_of(peer.key)) == peer,
        peers.contains(other) && hex_of(other.key) != hex_of(peer.key) ==> with_peer(
            peers,
            peer,
        ).contains(other),
{
    let after = with_peer(peers, peer);
    let key = hex_of(peer.key);
    if is_paired(peers, key) {
        let k = choose|k: int| 0 <= k < peers.len() && hex_of((#[trigger] peers[k]).key) == key;
        lemma_one_key(peers[k].key, peer.key);
        assert(after[k] == peer);
    } else {
        assert(after[peers.len() as int] == peer);
    }
    let found = choose|i: int| 0 <= i < after.len() && hex_of((#[trigger] after[i]).key) == key;
    lemma_one_key(after[found].key, peer.key);
    if found < peers.len() && !is_paired(peers, key) {
        assert(hex_of(peers[found].key) == key);
    }
    if peers.contains(other) && hex_of(other.key) != key {
        let k = choose|k: int| 0 <= k < peers.len() && peers[k] == other;
        assert(after[k] == other);
    }
}

} // verus!
