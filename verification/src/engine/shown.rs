//! What a pairing state says, and the same state once more.

use crate::engine::discovery::ShownView;
use crate::errors::{copy_error, error_view};
use crate::text::{copy_of, copy_opt, opt_view};
use crate::types::{DeviceInfo, DeviceKind, PairingCandidate, PairingOffer, PairingState, Transport};
use vstd::prelude::*;
use vstd::slice::slice_to_vec;

verus! {

/// What is said of a device.
#[verifier::ext_equal]
pub struct DeviceView {
    pub key_hex: Seq<char>,
    pub name: Seq<char>,
    pub paired: i64,
    pub reachable_via: Option<Transport>,
    pub speed: Option<u64>,
    pub last_seen: Option<i64>,
    pub available: Seq<Transport>,
    pub kind: DeviceKind,
    pub mount_path: Option<Seq<char>>,
}

impl View for DeviceInfo {
    type V = DeviceView;

    open spec fn view(&self) -> DeviceView {
        DeviceView {
            key_hex: self.key_hex@,
            name: self.name@,
            paired: self.paired_unix_secs,
            reachable_via: self.reachable_via,
            speed: self.speed_bytes_per_sec,
            last_seen: self.last_seen_unix_secs,
            available: self.available_transports@,
            kind: self.kind,
            mount_path: opt_view(self.mount_path),
        }
    }
}

/// What a pairing state says.
pub enum PairView {
    Idle,
    Waiting { expires: i64 },
    Found { candidates: Seq<ShownView>, expires: i64 },
    Code { code: Seq<char>, expires: i64 },
    Offering { payload: Seq<u8>, expires: i64 },
    Requested { name: Seq<char>, kind: DeviceKind, transport: Transport },
    Confirmed { device: DeviceView },
    Failed { error: (Seq<char>, Option<Seq<char>>) },
}

/// What some candidates show.
pub open spec fn shown_views(candidates: Seq<PairingCandidate>) -> Seq<ShownView> {
    candidates.map_values(|c: PairingCandidate| c@)
}

impl View for PairingState {
    type V = PairView;

    open spec fn view(&self) -> PairView {
        match *self {
            PairingState::Idle => PairView::Idle,
            PairingState::Waiting { expires_unix_secs } => PairView::Waiting {
                expires: expires_unix_secs,
            },
            PairingState::Found { candidates, expires_unix_secs } => PairView::Found {
                candidates: shown_views(candidates@),
                expires: expires_unix_secs,
            },
            PairingState::Code { code, expires_unix_secs } => PairView::Code {
                code: code@,
                expires: expires_unix_secs,
            },
            PairingState::Offering { offer } => PairView::Offering {
                payload: offer.payload@,
                expires: offer.expires_unix_secs,
            },
            PairingState::Requested { name, kind, transport } => PairView::Requested {
                name: name@,
                kind,
                transport,
            },
            PairingState::Confirmed { device } => PairView::Confirmed { device: device@ },
            PairingState::Failed { error } => PairView::Failed { error: error_view(error) },
        }
    }
}

/// A pairing is going on in this state.
pub open spec fn runs(shown: PairView) -> bool {
    !(shown is Idle || shown is Confirmed || shown is Failed)
}

/// The same candidate once more.
pub fn copy_candidate(candidate: &PairingCandidate) -> (copy: PairingCandidate)
    ensures
        copy@ == candidate@,
{
    PairingCandidate {
        id: copy_of(candidate.id.as_str()),
        transport: candidate.transport,
        short_code: copy_of(candidate.short_code.as_str()),
    }
}

fn copy_candidates(candidates: &Vec<PairingCandidate>) -> (copies: Vec<PairingCandidate>)
    ensures
        shown_views(copies@) == shown_views(candidates@),
{
    let ghost views = shown_views(candidates@);
    let mut copies: Vec<PairingCandidate> = Vec::new();
    let mut i: usize = 0;
    assert(shown_views(copies@) =~= views.take(0));
    while i < candidates.len()
        invariant
            i <= candidates@.len(),
            views == shown_views(candidates@),
            shown_views(copies@) == views.take(i as int),
        decreases candidates@.len() - i,
    {
        let copy = copy_candidate(&candidates[i]);
        let ghost so_far = shown_views(copies@);
        let ghost here = copy@;
        copies.push(copy);
        assert(shown_views(copies@) =~= so_far.push(here));
        assert(views.take(i + 1) =~= so_far.push(here));
        i += 1;
    }
    assert(views.take(i as int) =~= views);
    copies
}

fn copy_transports(transports: &Vec<Transport>) -> (copies: Vec<Transport>)
    ensures
        copies@ == transports@,
{
    slice_to_vec(transports.as_slice())
}

/// The same device once more.
pub fn copy_device(device: &DeviceInfo) -> (copy: DeviceInfo)
    ensures
        copy@ == device@,
{
    DeviceInfo {
        key_hex: copy_of(device.key_hex.as_str()),
        name: copy_of(device.name.as_str()),
        paired_unix_secs: device.paired_unix_secs,
        reachable_via: device.reachable_via,
        speed_bytes_per_sec: device.speed_bytes_per_sec,
        last_seen_unix_secs: device.last_seen_unix_secs,
        available_transports: copy_transports(&device.available_transports),
        kind: device.kind,
        mount_path: copy_opt(&device.mount_path),
    }
}

/// The same state once more.
pub fn copy_state(state: &PairingState) -> (copy: PairingState)
    ensures
        copy@ == state@,
{
    match state {
        PairingState::Idle => PairingState::Idle,
        PairingState::Waiting { expires_unix_secs } => PairingState::Waiting {
            expires_unix_secs: *expires_unix_secs,
        },
        PairingState::Found { candidates, expires_unix_secs } => PairingState::Found {
            candidates: copy_candidates(candidates),
            expires_unix_secs: *expires_unix_secs,
        },
        PairingState::Code { code, expires_unix_secs } => PairingState::Code {
            code: copy_of(code.as_str()),
            expires_unix_secs: *expires_unix_secs,
        },
        PairingState::Offering { offer } => PairingState::Offering {
            offer: PairingOffer {
                payload: slice_to_vec(offer.payload.as_slice()),
                expires_unix_secs: offer.expires_unix_secs,
            },
        },
        PairingState::Requested { name, kind, transport } => PairingState::Requested {
            name: copy_of(name.as_str()),
            kind: *kind,
            transport: *transport,
        },
        PairingState::Confirmed { device } => PairingState::Confirmed {
            device: copy_device(device),
        },
        PairingState::Failed { error } => PairingState::Failed { error: copy_error(error) },
    }
}

} // verus!
