//! Pairing, both ways round.
//!
//! The code method shows one code on both screens. The other method draws an
//! offer that the other device scans. Either way a connection is held while
//! someone looks at a screen, and either way it is given up at a deadline.

use crate::engine::addr::Addr;
use crate::engine::discovery::ShownView;
use crate::engine::shown::{copy_candidate, runs, shown_views, PairView};
use crate::errors::{error_view, failed, is_failed};
use crate::limits::MAX_CANDIDATES;
use crate::text::copy_of;
use crate::textmap::TextMap;
use crate::types::{
    DeviceKind, FerryError, PairingCandidate, PairingOffer, PairingState, Transport,
};
use vstd::prelude::*;

verus! {

/// A device that could be picked, and where it is.
#[derive(Debug)]
pub struct Candidate {
    pub shown: PairingCandidate,
    pub addr: Addr,
}

/// A connection of the code method that waits for someone to compare the
/// codes.
#[derive(Debug, Clone, Copy, PartialEq, Eq)]
pub struct HeldPairing {
    /// Which open connection this is.
    pub connection: u64,
    /// The key the other device proved it holds.
    pub peer: [u8; 32],
    pub addr: Addr,
    /// The other device dialed.
    pub accepted: bool,
}

/// A connection of a scan that waits for someone to confirm the name.
#[derive(Debug)]
pub struct RequestedPairing {
    /// Which open connection this is.
    pub connection: u64,
    /// The key the other device proved it holds.
    pub peer: [u8; 32],
    pub addr: Addr,
    pub name: String,
    pub kind: DeviceKind,
    /// The names have crossed already, as they have where this device
    /// scanned.
    pub hello_done: bool,
}

/// What a confirm took out of the pairing.
pub enum Confirming {
    Code(HeldPairing),
    Scan(RequestedPairing),
}

/// Where pairing is.
#[derive(Debug)]
pub struct Pairing {
    /// What the app was last told.
    pub shown: PairingState,
    /// When it is given up, on the clock of this device's own run.
    pub deadline: Option<u64>,
    /// When it is given up, as the app shows it.
    pub deadline_unix_secs: Option<i64>,
    pub held: Option<HeldPairing>,
    /// A candidate that was picked is being dialed.
    pub dialing: bool,
    pub candidates: TextMap<Candidate>,
    /// The number an offer carries, until one scan has spent it.
    pub offer_nonce: Option<Vec<u8>>,
    pub requested: Option<RequestedPairing>,
}

/// Where pairing is.
#[verifier::ext_equal]
pub struct PairingView {
    pub shown: PairView,
    pub deadline: Option<u64>,
    pub deadline_unix: Option<i64>,
    pub held: Option<HeldPairing>,
    pub dialing: bool,
    pub candidates: Map<Seq<char>, (ShownView, Addr)>,
    pub nonce: Option<Seq<u8>>,
    pub requested: Option<RequestedPairing>,
}

/// A nonce, as a number of bytes.
pub open spec fn nonce_view(nonce: Option<Vec<u8>>) -> Option<Seq<u8>> {
    match nonce {
        Some(n) => Some(n@),
        None => None,
    }
}

impl View for Pairing {
    type V = PairingView;

    open spec fn view(&self) -> PairingView {
        PairingView {
            shown: self.shown@,
            deadline: self.deadline,
            deadline_unix: self.deadline_unix_secs,
            held: self.held,
            dialing: self.dialing,
            candidates: self.candidates@.map_values(|c: Candidate| (c.shown@, c.addr)),
            nonce: nonce_view(self.offer_nonce),
            requested: self.requested,
        }
    }
}

/// Nothing goes on, and nothing is held.
pub open spec fn idle_view() -> PairingView {
    PairingView {
        shown: PairView::Idle,
        deadline: None,
        deadline_unix: None,
        held: None,
        dialing: false,
        candidates: Map::empty(),
        nonce: None,
        requested: None,
    }
}

/// The pairing once a state is shown. A state in which no pairing goes on
/// lets go of everything.
pub open spec fn shown_as(p: PairingView, next: PairView) -> PairingView {
    if runs(next) {
        PairingView { shown: next, ..p }
    } else {
        PairingView { shown: next, ..idle_view() }
    }
}

/// A connection of the code method may still be taken.
pub open spec fn open_to_pairing(p: PairingView) -> bool {
    (p.shown is Waiting || p.shown is Found) && p.held is None && !p.dialing
}

/// An offer is drawn that nobody has scanned yet.
pub open spec fn offering(p: PairingView) -> bool {
    p.shown is Offering && p.requested is None
}

/// A connection that pairs is expected.
pub open spec fn pairs_inbound(p: PairingView) -> bool {
    open_to_pairing(p) || offering(p)
}

/// Nothing is held while no pairing goes on.
pub open spec fn settled(p: PairingView) -> bool {
    runs(p.shown) || (p.held is None && !p.dialing && p.nonce is None && p.requested is None
        && p.candidates == Map::<Seq<char>, (ShownView, Addr)>::empty())
}

/// The failure of a pairing.
pub open spec fn failed_view(code: Seq<char>) -> PairView {
    PairView::Failed { error: (code, None) }
}

/// The pairing once it failed. A pairing that moved on is left alone.
pub open spec fn after_failure(p: PairingView, error: (Seq<char>, Option<Seq<char>>)) -> PairingView {
    if runs(p.shown) {
        shown_as(p, PairView::Failed { error })
    } else {
        p
    }
}

/// The moment the app is told a pairing gives up.
pub open spec fn expires_at(p: PairingView, now: i64) -> i64 {
    match p.deadline_unix {
        Some(at) => at,
        None => now,
    }
}

/// The pairing once a connection of the code method is held.
pub open spec fn holding(p: PairingView, held: HeldPairing, code: Seq<char>, now: i64) -> PairingView {
    PairingView {
        held: Some(held),
        shown: PairView::Code { code, expires: expires_at(p, now) },
        ..p
    }
}

/// The pairing once the dial of a picked candidate has ended.
pub open spec fn dialed(p: PairingView) -> PairingView {
    PairingView { dialing: false, ..p }
}

/// What is shown of a scan.
pub open spec fn request_view(requested: RequestedPairing) -> PairView {
    PairView::Requested {
        name: requested.name@,
        kind: requested.kind,
        transport: Transport::Wifi,
    }
}

/// The pairing once a scan is held. The nonce is spent.
pub open spec fn scanned(p: PairingView, requested: RequestedPairing, nonce: Option<Seq<u8>>) -> PairingView {
    PairingView { nonce, requested: Some(requested), shown: request_view(requested), ..p }
}

/// What the watch over the deadline comes to.
#[derive(Debug, Clone, Copy, PartialEq, Eq, Structural)]
pub enum Watch {
    /// There is nothing to watch.
    Ended,
    /// Look again after this long.
    Wait(u64),
    /// The deadline has passed. `true` where a pairing went on until then.
    Expired(bool),
}

/// What is left of a pairing whose deadline has passed.
pub open spec fn expired(p: PairingView) -> PairingView {
    let dropped = PairingView {
        held: None,
        dialing: false,
        nonce: None,
        requested: None,
        ..p
    };
    if runs(p.shown) {
        shown_as(dropped, failed_view("Runtime::PairingTimeout"@))
    } else {
        dropped
    }
}

/// What a candidate list holds once one was found.
pub open spec fn with_candidate(
    candidates: Map<Seq<char>, (ShownView, Addr)>,
    shown: ShownView,
    addr: Addr,
) -> Map<Seq<char>, (ShownView, Addr)> {
    candidates.insert(shown.id, (shown, addr))
}

/// A candidate finds a place: pairing is open, and it is known already or the
/// list is not full.
pub open spec fn takes_candidate(p: PairingView, id: Seq<char>) -> bool {
    open_to_pairing(p) && (p.candidates.contains_key(id) || p.candidates.dom().len()
        < MAX_CANDIDATES)
}

impl Pairing {
    pub open spec fn wf(self) -> bool {
        &&& self.candidates.wf()
        &&& self@.candidates.dom().finite()
        &&& self@.candidates.dom().len() <= MAX_CANDIDATES
        &&& self@.candidates.dom().len() == self.candidates.spec_keys().len()
        &&& settled(self@)
    }

    /// Nothing goes on.
    pub fn idle() -> (pairing: Pairing)
        ensures
            pairing.wf(),
            pairing@ == idle_view(),
    {
        let pairing = Pairing {
            shown: PairingState::Idle,
            deadline: None,
            deadline_unix_secs: None,
            held: None,
            dialing: false,
            candidates: TextMap::new(),
            offer_nonce: None,
            requested: None,
        };
        assert(pairing@.candidates =~= Map::<Seq<char>, (ShownView, Addr)>::empty());
        assert(pairing@ =~= idle_view());
        pairing
    }

    /// Whether a pairing goes on.
    pub fn is_running(&self) -> (running: bool)
        ensures
            running == runs(self@.shown),
    {
        match self.shown {
            PairingState::Idle => false,
            PairingState::Confirmed { .. } => false,
            PairingState::Failed { .. } => false,
            _ => true,
        }
    }

    /// Whether a connection of the code method may still be taken.
    pub fn is_open_to_pairing(&self) -> (open: bool)
        ensures
            open == open_to_pairing(self@),
    {
        let looking = match self.shown {
            PairingState::Waiting { .. } => true,
            PairingState::Found { .. } => true,
            _ => false,
        };
        looking && self.held.is_none() && !self.dialing
    }

    /// Whether an offer is drawn that nobody has scanned yet.
    pub fn is_offering(&self) -> (yes: bool)
        ensures
            yes == offering(self@),
    {
        let drawn = match self.shown {
            PairingState::Offering { .. } => true,
            _ => false,
        };
        drawn && self.requested.is_none()
    }

    /// Whether a connection that pairs is expected.
    pub fn accepts_inbound(&self) -> (yes: bool)
        ensures
            yes == pairs_inbound(self@),
    {
        self.is_open_to_pairing() || self.is_offering()
    }

    /// Shows a state. One in which no pairing goes on lets go of everything.
    pub fn set(&mut self, next: PairingState)
        requires
            old(self).wf(),
        ensures
            final(self).wf(),
            final(self)@ == shown_as(old(self)@, next@),
    {
        let ghost before = self@;
        self.shown = next;
        if !self.is_running() {
            self.deadline = None;
            self.deadline_unix_secs = None;
            self.held = None;
            self.dialing = false;
            self.candidates.clear();
            self.offer_nonce = None;
            self.requested = None;
            assert(self@.candidates =~= Map::<Seq<char>, (ShownView, Addr)>::empty());
            assert(self@ =~= shown_as(before, next@));
        } else {
            assert(self@ =~= shown_as(before, next@));
        }
    }

    /// Claims the one pairing there may be, and arms its deadline: `timeout`
    /// milliseconds from `now`. `None`, with nothing changed, while a pairing
    /// goes on.
    pub fn begin(&mut self, now: u64, now_unix_secs: i64, timeout: u64) -> (expires: Option<i64>)
        requires
            old(self).wf(),
            now + timeout <= u64::MAX,
            now_unix_secs + timeout / 1000 <= i64::MAX,
        ensures
            final(self).wf(),
            match expires {
                None => runs(old(self)@.shown) && final(self)@ == old(self)@,
                Some(at) => !runs(old(self)@.shown) && at == now_unix_secs + timeout / 1000
                    && final(self)@ == (PairingView {
                    deadline: Some((now + timeout) as u64),
                    deadline_unix: Some(at),
                    ..idle_view()
                }),
            },
    {
        if self.is_running() {
            return None;
        }
        let secs: u64 = timeout / 1000;
        let at: i64 = (now_unix_secs as i128 + secs as i128) as i64;
        *self = Pairing::idle();
        self.deadline = Some(now + timeout);
        self.deadline_unix_secs = Some(at);
        assert(self@ =~= (PairingView {
            deadline: Some((now + timeout) as u64),
            deadline_unix: Some(at),
            ..idle_view()
        }));
        Some(at)
    }

    /// Draws an offer. Its nonce may be spent once.
    pub fn offer(&mut self, nonce: Vec<u8>, offer: PairingOffer)
        requires
            old(self).wf(),
        ensures
            final(self).wf(),
            final(self)@ == (PairingView {
                nonce: Some(nonce@),
                shown: PairView::Offering { payload: offer.payload@, expires: offer.expires_unix_secs },
                ..old(self)@
            }),
    {
        let ghost before = self@;
        self.offer_nonce = Some(nonce);
        self.shown = PairingState::Offering { offer };
        assert(self@ =~= (PairingView {
            nonce: Some(nonce@),
            shown: PairView::Offering { payload: offer.payload@, expires: offer.expires_unix_secs },
            ..before
        }));
    }

    /// Picks a candidate to dial. Only one is dialed at a time.
    pub fn pick(&mut self, id: &str) -> (picked: Result<Addr, FerryError>)
        requires
            old(self).wf(),
        ensures
            final(self).wf(),
            match picked {
                Ok(addr) => open_to_pairing(old(self)@) && old(self)@.candidates.contains_key(id@)
                    && addr == old(self)@.candidates[id@].1 && final(self)@ == (PairingView {
                    dialing: true,
                    ..old(self)@
                }),
                Err(e) => final(self)@ == old(self)@ && (if !runs(old(self)@.shown) {
                    is_failed(e, "Runtime::NoCandidate"@)
                } else if !open_to_pairing(old(self)@) {
                    is_failed(e, "Runtime::PairingBusy"@)
                } else {
                    !old(self)@.candidates.contains_key(id@) && is_failed(
                        e,
                        "Runtime::NoCandidate"@,
                    )
                }),
            },
    {
        if !self.is_running() {
            return Err(failed("Runtime::NoCandidate"));
        }
        if !self.is_open_to_pairing() {
            return Err(failed("Runtime::PairingBusy"));
        }
        let ghost before = self@;
        assert(self@.candidates.contains_key(id@) == self.candidates@.contains_key(id@));
        let addr = match self.candidates.get(id) {
            None => {
                return Err(failed("Runtime::NoCandidate"));
            },
            Some(candidate) => candidate.addr,
        };
        self.dialing = true;
        assert(self@ =~= (PairingView { dialing: true, ..before }));
        Ok(addr)
    }

    /// The dial of a picked candidate failed.
    pub fn dial_failed(&mut self, error: FerryError) -> (told: bool)
        requires
            old(self).wf(),
        ensures
            final(self).wf(),
            told == runs(old(self)@.shown),
            final(self)@ == after_failure(dialed(old(self)@), error_view(error)),
    {
        let ghost before = self@;
        self.dialing = false;
        assert(self@ =~= dialed(before));
        self.fail(error)
    }

    /// Shows the failure of a pairing that still goes on. Says whether it
    /// did.
    pub fn fail(&mut self, error: FerryError) -> (told: bool)
        requires
            old(self).wf(),
        ensures
            final(self).wf(),
            told == runs(old(self)@.shown),
            final(self)@ == after_failure(old(self)@, error_view(error)),
    {
        if !self.is_running() {
            return false;
        }
        self.set(PairingState::Failed { error });
        true
    }

    /// Shows the code, and holds the connection until someone confirms. A
    /// connection that comes while one is held is refused, and the code that
    /// is being compared stays.
    pub fn hold(&mut self, held: HeldPairing, code: String, now_unix_secs: i64) -> (taken: Result<
        (),
        FerryError,
    >)
        requires
            old(self).wf(),
        ensures
            final(self).wf(),
            ({
                let before = if held.accepted {
                    old(self)@
                } else {
                    dialed(old(self)@)
                };
                match taken {
                    Ok(_) => open_to_pairing(before) && final(self)@ == holding(
                        before,
                        held,
                        code@,
                        now_unix_secs,
                    ),
                    Err(e) => !open_to_pairing(before) && final(self)@ == before && is_failed(
                        e,
                        "Runtime::PairingBusy"@,
                    ),
                }
            }),
    {
        let ghost start = self@;
        if !held.accepted {
            self.dialing = false;
            assert(self@ =~= dialed(start));
        }
        let ghost before = self@;
        if !self.is_open_to_pairing() {
            return Err(failed("Runtime::PairingBusy"));
        }
        let expires_unix_secs: i64 = match self.deadline_unix_secs {
            Some(at) => at,
            None => now_unix_secs,
        };
        self.held = Some(held);
        self.shown = PairingState::Code { code, expires_unix_secs };
        assert(self@ =~= holding(before, held, code@, now_unix_secs));
        Ok(())
    }

    /// Shows who scanned the offer, and holds the connection until someone
    /// confirms. The nonce is spent by the first.
    pub fn hold_qr(&mut self, requested: RequestedPairing) -> (taken: Result<(), FerryError>)
        requires
            old(self).wf(),
        ensures
            final(self).wf(),
            match taken {
                Ok(_) => offering(old(self)@) && final(self)@ == scanned(
                    old(self)@,
                    requested,
                    None,
                ),
                Err(e) => !offering(old(self)@) && final(self)@ == old(self)@ && is_failed(
                    e,
                    "Runtime::PairingBusy"@,
                ),
            },
    {
        let ghost before = self@;
        if !self.is_offering() {
            return Err(failed("Runtime::PairingBusy"));
        }
        self.offer_nonce = None;
        self.shown = PairingState::Requested {
            name: copy_of(requested.name.as_str()),
            kind: requested.kind,
            transport: Transport::Wifi,
        };
        self.requested = Some(requested);
        assert(self@ =~= scanned(before, requested, None));
        Ok(())
    }

    /// Shows whose offer this device scanned, and holds the connection until
    /// someone confirms. Nothing happens where pairing has moved on.
    pub fn hold_scanned(&mut self, requested: RequestedPairing) -> (taken: bool)
        requires
            old(self).wf(),
        ensures
            final(self).wf(),
            taken == (old(self)@.requested is None && runs(old(self)@.shown)),
            final(self)@ == (if taken {
                scanned(old(self)@, requested, old(self)@.nonce)
            } else {
                old(self)@
            }),
    {
        let ghost before = self@;
        if self.requested.is_some() || !self.is_running() {
            return false;
        }
        self.shown = PairingState::Requested {
            name: copy_of(requested.name.as_str()),
            kind: requested.kind,
            transport: Transport::Wifi,
        };
        self.requested = Some(requested);
        assert(self@ =~= scanned(before, requested, before.nonce));
        true
    }

    /// Takes what waits for a confirm: a code, or else a scan.
    pub fn take_confirming(&mut self) -> (taken: Option<Confirming>)
        requires
            old(self).wf(),
        ensures
            final(self).wf(),
            match taken {
                Some(Confirming::Code(held)) => old(self)@.held == Some(held) && final(self)@ == (
                PairingView { held: None, ..old(self)@ }),
                Some(Confirming::Scan(requested)) => old(self)@.held is None
                    && old(self)@.requested == Some(requested) && final(self)@ == (PairingView {
                    requested: None,
                    ..old(self)@
                }),
                None => old(self)@.held is None && old(self)@.requested is None && final(self)@
                    == old(self)@,
            },
    {
        let ghost before = self@;
        let held = self.held;
        if let Some(held) = held {
            self.held = None;
            assert(self@ =~= (PairingView { held: None, ..before }));
            return Some(Confirming::Code(held));
        }
        match self.requested.take() {
            None => {
                assert(self@ =~= before);
                None
            },
            Some(requested) => {
                assert(self@ =~= (PairingView { requested: None, ..before }));
                Some(Confirming::Scan(requested))
            },
        }
    }

    /// Drops whatever is held, and stops.
    pub fn cancel(&mut self)
        requires
            old(self).wf(),
        ensures
            final(self).wf(),
            final(self)@ == idle_view(),
    {
        self.set(PairingState::Idle);
    }

    /// Looks at the deadline. Once it has passed, whatever is held is let go,
    /// so that a confirm that comes a moment later finds nothing.
    pub fn watch(&mut self, now: u64) -> (watch: Watch)
        requires
            old(self).wf(),
        ensures
            final(self).wf(),
            match old(self)@.deadline {
                None => watch == Watch::Ended && final(self)@ == old(self)@,
                Some(at) => if now < at {
                    watch == Watch::Wait((at - now) as u64) && final(self)@ == old(self)@
                } else {
                    watch == Watch::Expired(runs(old(self)@.shown)) && final(self)@ == expired(
                        old(self)@,
                    )
                },
            },
    {
        let ghost before = self@;
        let at: u64 = match self.deadline {
            None => {
                return Watch::Ended;
            },
            Some(at) => at,
        };
        if now < at {
            return Watch::Wait(at - now);
        }
        let running = self.is_running();
        self.held = None;
        self.dialing = false;
        self.offer_nonce = None;
        self.requested = None;
        let ghost dropped = PairingView {
            held: None,
            dialing: false,
            nonce: None,
            requested: None,
            ..before
        };
        assert(self@ =~= dropped);
        if running {
            self.set(PairingState::Failed { error: failed("Runtime::PairingTimeout") });
        }
        Watch::Expired(running)
    }

    /// Puts one candidate in front of the person, where pairing is open and
    /// there is a place for it. Says whether the list changed.
    pub fn add_candidate(&mut self, shown: &PairingCandidate, addr: Addr) -> (added: bool)
        requires
            old(self).wf(),
        ensures
            final(self).wf(),
            added == takes_candidate(old(self)@, shown@.id),
            final(self)@ == (if added {
                PairingView {
                    candidates: with_candidate(old(self)@.candidates, shown@, addr),
                    ..old(self)@
                }
            } else {
                old(self)@
            }),
    {
        let ghost before = self@;
        if !self.is_open_to_pairing() {
            return false;
        }
        let id = copy_of(shown.id.as_str());
        assert(self@.candidates.contains_key(id@) == self.candidates@.contains_key(id@));
        if !self.candidates.contains(id.as_str()) && self.candidates.len() >= MAX_CANDIDATES {
            return false;
        }
        let candidate = Candidate { shown: copy_candidate(shown), addr };
        self.candidates.insert(id.as_str(), candidate);
        proof {
            let after = PairingView {
                candidates: with_candidate(before.candidates, shown@, addr),
                ..before
            };
            assert(self@.candidates =~= after.candidates);
            assert(self@ =~= after);
            assert(after.candidates.dom() =~= before.candidates.dom().insert(id@));
            self.candidates.lemma_len();
            assert(self.candidates@.dom() =~= self@.candidates.dom());
        }
        true
    }

    /// A candidate went away.
    pub fn lose_candidate(&mut self, id: &str)
        requires
            old(self).wf(),
        ensures
            final(self).wf(),
            final(self)@ == (PairingView {
                candidates: old(self)@.candidates.remove(id@),
                ..old(self)@
            }),
    {
        let ghost before = self@;
        let gone = self.candidates.remove(id);
        proof {
            assert(self@.candidates =~= before.candidates.remove(id@));
            assert(self@ =~= (PairingView { candidates: before.candidates.remove(id@), ..before }));
            self.candidates.lemma_len();
            assert(self.candidates@.dom() =~= self@.candidates.dom());
            assert(self@.candidates.dom().subset_of(before.candidates.dom()));
            vstd::set_lib::lemma_len_subset(self@.candidates.dom(), before.candidates.dom());
            if !runs(before.shown) {
                assert(self@.candidates =~= Map::<Seq<char>, (ShownView, Addr)>::empty());
            }
        }
    }

    /// What is shown of the candidates, in the order of their identifiers.
    pub open spec fn listed(self) -> Seq<ShownView> {
        Seq::new(
            self.candidates.spec_keys().len(),
            |i: int| self@.candidates[self.candidates.spec_keys()[i]].0,
        )
    }

    /// The pairing with its candidates shown, where it still looks for one.
    pub open spec fn with_candidates_shown(self, now: i64) -> PairingView {
        if open_to_pairing(self@) {
            PairingView {
                shown: PairView::Found {
                    candidates: self.listed(),
                    expires: expires_at(self@, now),
                },
                ..self@
            }
        } else {
            self@
        }
    }

    /// Every candidate, in the order of their ids.
    pub fn candidate_list(&self) -> (list: Vec<PairingCandidate>)
        requires
            self.wf(),
        ensures
            shown_views(list@) == self.listed(),
            list@.len() <= MAX_CANDIDATES,
    {
        let mut list: Vec<PairingCandidate> = Vec::new();
        let mut i: usize = 0;
        while i < self.candidates.len()
            invariant
                self.wf(),
                i <= self.candidates.spec_keys().len(),
                list@.len() == i,
                forall|j: int|
                    0 <= j < i ==> (#[trigger] list@[j])@
                        == self@.candidates[self.candidates.spec_keys()[j]].0,
            decreases self.candidates.spec_keys().len() - i,
        {
            let candidate = self.candidates.value_at(i);
            list.push(copy_candidate(&candidate.shown));
            i += 1;
        }
        assert(shown_views(list@) =~= self.listed());
        list
    }

    /// Shows the candidates, where someone could pick one. Says whether it
    /// did.
    pub fn show_candidates(&mut self, now_unix_secs: i64) -> (shown: bool)
        requires
            old(self).wf(),
        ensures
            final(self).wf(),
            shown == open_to_pairing(old(self)@),
            final(self)@ == old(self).with_candidates_shown(now_unix_secs),
    {
        if !self.is_open_to_pairing() {
            return false;
        }
        let list = self.candidate_list();
        let expires_unix_secs: i64 = match self.deadline_unix_secs {
            Some(at) => at,
            None => now_unix_secs,
        };
        self.set(PairingState::Found { candidates: list, expires_unix_secs });
        true
    }
}

/// Whatever a pairing shows next, nothing stays held once it no longer goes
/// on: no connection, no nonce, no candidate.
pub proof fn lemma_nothing_stays_held(p: PairingView, next: PairView)
    ensures
        settled(shown_as(p, next)),
        !runs(next) ==> shown_as(p, next).held is None && shown_as(p, next).requested is None
            && shown_as(p, next).nonce is None,
{
}

/// One scan spends an offer: a second one is refused, and so is a second
/// connection while a code is compared.
pub proof fn lemma_one_at_a_time(
    p: PairingView,
    requested: RequestedPairing,
    held: HeldPairing,
    code: Seq<char>,
    now: i64,
)
    ensures
        !offering(scanned(p, requested, None)),
        scanned(p, requested, None).nonce is None,
        !open_to_pairing(holding(p, held, code, now)),
{
}

} // verus!
