//! Running a pairing: what the app asks for, what the handshakes bring, and
//! how a device becomes paired.

use crate::core_errors::{NoiseError, PairingError, PeerError, RpcError, TcpError};
use crate::engine::addr::{addresses_to_dial, offer_targets, Addr};
use crate::engine::discovery::{
    forward_views, forwards_after, gone_forwards, remembered, usb_candidate, usb_shown,
    wifi_candidate, wifi_shown, ShownView, UsbForward,
};
use crate::engine::inbound::Inbound;
use crate::engine::live::{device_view, live_of, newly_paired, unplugged, LiveView};
use crate::engine::pairing::{
    after_failure, dialed, expired, failed_view, holding, idle_view, offering, open_to_pairing,
    scanned, shown_as, takes_candidate, with_candidate, Confirming, HeldPairing, PairingView,
    RequestedPairing, Watch,
};
use crate::engine::shown::{copy_state, runs, PairView};
use crate::engine::state::{marked, Engine};
use crate::errors::{
    error_view, failed, from_offer, from_peer, from_rpc, from_tcp, is_failed, offer_code, peer_code,
    rpc_code, tcp_code,
};
use crate::notify::{report_if, Change, ReportView};
use crate::peers::{add_problem, is_paired, peer_of, with_peer, Peer, Peers};
use crate::random::random_bytes;
use crate::text::{copy_of, hex_of, hex_text, same_text, text_views};
use crate::types::{
    DeviceKind, EngineListener, FerryError, PairingMethod, PairingOffer, PairingState,
};
use vstd::prelude::*;

verus! {

/// How many bytes an offer's nonce has.
pub const QR_NONCE_LEN: usize = 16;

/// What the start of a pairing leads to.
pub enum StartPairing {
    /// One was on its way. The app was told where it is.
    AlreadyRunning,
    /// Candidates are looked for.
    Waiting,
    /// An offer has to be drawn, with this nonce and this deadline.
    Offer(Vec<u8>, i64),
    /// There was no randomness for a nonce.
    NoRandomness,
}

/// An offer that was scanned.
pub struct ScannedOffer {
    /// The key of the device that drew it.
    pub key: [u8; 32],
    pub expires_unix_secs: i64,
    pub addresses: Vec<Addr>,
}

/// What a confirm leads to.
pub enum Confirmed {
    /// Nothing waited for one.
    Nothing,
    /// What waited was dropped.
    Dropped,
    /// The names have to cross on this connection first.
    Exchange(HeldPairing, Option<(String, DeviceKind)>),
    /// The names have crossed. The device has to be stored.
    Store(RequestedPairing),
}

/// What came of the wait for the other device's name.
pub enum HelloEvent {
    Answer(Result<(String, DeviceKind), RpcError>),
    /// Nobody is left to answer.
    Gone,
    /// Nothing yet.
    Tick,
}

/// What the wait for the other device's name comes to.
pub enum HelloStep {
    Named(String, DeviceKind),
    Wait,
    Failed(FerryError),
}

/// Decides how the wait for the other device's name goes on. It ends at the
/// deadline, and at once when the engine stops.
pub fn hello_wait(event: HelloEvent, stopping: bool, now: u64, deadline: u64) -> (step: HelloStep)
    ensures
        match event {
            HelloEvent::Answer(Ok((name, kind))) => step == HelloStep::Named(name, kind),
            HelloEvent::Answer(Err(e)) => step matches HelloStep::Failed(f) && is_failed(
                f,
                rpc_code(e),
            ),
            HelloEvent::Gone => step matches HelloStep::Failed(f) && is_failed(
                f,
                "FrameError::Io"@,
            ),
            HelloEvent::Tick => if stopping || now >= deadline {
                step matches HelloStep::Failed(f) && is_failed(f, "TcpError::Timeout"@)
            } else {
                step == HelloStep::Wait
            },
        },
{
    match event {
        HelloEvent::Answer(Ok((name, kind))) => HelloStep::Named(name, kind),
        HelloEvent::Answer(Err(e)) => HelloStep::Failed(from_rpc(&e)),
        HelloEvent::Gone => HelloStep::Failed(failed("FrameError::Io")),
        HelloEvent::Tick => {
            if stopping || now >= deadline {
                HelloStep::Failed(failed("TcpError::Timeout"))
            } else {
                HelloStep::Wait
            }
        },
    }
}

/// The name and the kind agree with those that were expected.
pub open spec fn agrees(
    expected: Option<(String, DeviceKind)>,
    name: Seq<char>,
    kind: DeviceKind,
) -> bool {
    expected matches Some((n, k)) ==> n@ == name && k == kind
}

/// Whether the device that gave its name is the one that was confirmed: the
/// name and the kind a person saw must be those it gives now.
pub fn checked_name(expected: &Option<(String, DeviceKind)>, name: &str, kind: DeviceKind) -> (checked:
    Result<(), FerryError>)
    ensures
        match checked {
            Ok(_) => agrees(*expected, name@, kind),
            Err(e) => !agrees(*expected, name@, kind) && is_failed(
                e,
                "RpcError::UnexpectedFrameKind"@,
            ),
        },
{
    match expected {
        None => Ok(()),
        Some((n, k)) => {
            if same_text(n.as_str(), name) && *k == kind {
                Ok(())
            } else {
                Err(failed("RpcError::UnexpectedFrameKind"))
            }
        },
    }
}

/// The dial of an offer's addresses, in order.
pub struct OfferDial {
    pub targets: Vec<Addr>,
    pub at: usize,
    pub last_error: Option<TcpError>,
}

/// What the dial of an offer comes to next.
pub enum DialStep {
    /// The engine is stopping. Nothing more is done, or said.
    Stop,
    Dial(Addr),
    /// Every address failed.
    Failed(FerryError),
}

impl OfferDial {
    pub open spec fn wf(self) -> bool {
        self.at <= self.targets@.len()
    }

    /// No address was dialed yet.
    pub fn new(targets: Vec<Addr>) -> (dial: OfferDial)
        ensures
            dial.wf(),
            dial == (OfferDial { targets, at: 0, last_error: None }),
    {
        OfferDial { targets, at: 0, last_error: None }
    }

    /// The address to dial, or what to report once there is none: the last
    /// failure, or that there was nothing to dial.
    pub fn next(&self, stopping: bool) -> (step: DialStep)
        requires
            self.wf(),
        ensures
            if stopping {
                step == DialStep::Stop
            } else if self.at < self.targets@.len() {
                step == DialStep::Dial(self.targets@[self.at as int])
            } else {
                step matches DialStep::Failed(e) && is_failed(
                    e,
                    (match self.last_error {
                        Some(error) => tcp_code(error),
                        None => "Runtime::NotReachable"@,
                    }),
                )
            },
    {
        if stopping {
            return DialStep::Stop;
        }
        if self.at < self.targets.len() {
            return DialStep::Dial(self.targets[self.at]);
        }
        match &self.last_error {
            Some(error) => DialStep::Failed(from_tcp(error)),
            None => DialStep::Failed(failed("Runtime::NotReachable")),
        }
    }

    /// The address could not be dialed.
    pub fn failed(&mut self, error: TcpError)
        requires
            old(self).wf(),
            old(self).at < old(self).targets@.len(),
        ensures
            final(self).wf(),
            *final(self) == (OfferDial {
                at: (old(self).at + 1) as usize,
                last_error: Some(error),
                ..*old(self)
            }),
    {
        let count: usize = self.targets.len();
        assert(self.at < count);
        self.at = self.at + 1;
        self.last_error = Some(error);
    }
}

/// A pairing with the candidates that the plugged in devices are.
pub open spec fn with_forwards(p: PairingView, forwards: Seq<(Seq<char>, u16)>) -> PairingView
    decreases forwards.len(),
{
    if forwards.len() == 0 {
        p
    } else {
        let before = with_forwards(p, forwards.drop_last());
        offered(before, usb_shown(forwards.last().0), Addr::local_of(forwards.last().1))
    }
}

/// One of the plugged in devices finds a place among the candidates.
pub open spec fn any_offered(p: PairingView, forwards: Seq<(Seq<char>, u16)>) -> bool
    decreases forwards.len(),
{
    forwards.len() > 0 && (any_offered(p, forwards.drop_last()) || takes_candidate(
        with_forwards(p, forwards.drop_last()),
        usb_shown(forwards.last().0).id,
    ))
}

/// A pairing once a candidate was found.
pub open spec fn offered(p: PairingView, shown: ShownView, addr: Addr) -> PairingView {
    if takes_candidate(p, shown.id) {
        PairingView { candidates: with_candidate(p.candidates, shown, addr), ..p }
    } else {
        p
    }
}

impl<L: EngineListener> Engine<L> {
    /// A pairing may begin: its deadline can be told.
    pub open spec fn can_begin(self, now: u64, now_unix_secs: i64) -> bool {
        now + self.settings.pairing_timeout <= u64::MAX && now_unix_secs
            + self.settings.pairing_timeout / 1000 <= i64::MAX
    }

    /// When a pairing that begins gives up, as the app shows it.
    pub open spec fn expiry(self, now_unix_secs: i64) -> i64 {
        (now_unix_secs + self.settings.pairing_timeout / 1000) as i64
    }

    /// A pairing that has just begun.
    pub open spec fn begun(self, now: u64, now_unix_secs: i64) -> PairingView {
        PairingView {
            deadline: Some((now + self.settings.pairing_timeout) as u64),
            deadline_unix: Some(self.expiry(now_unix_secs)),
            ..idle_view()
        }
    }

    /// Only the pairing changed, and what the app is told: where pairing is,
    /// if `told` holds, and nothing otherwise.
    pub open spec fn only_pairing(self, before: Engine<L>, told: bool) -> bool {
        &&& self == (Engine { pairing: self.pairing, notify: self.notify, ..before })
        &&& self.notify.waiting() == before.notify.waiting()
        &&& self.notify.tells_more(
            before.notify,
            report_if(told, ReportView::Pairing(self.pairing@.shown)),
        )
    }

    /// Tells the app where pairing is.
    fn tell(&mut self)
        ensures
            final(self).only_pairing(*old(self), true),
            final(self).pairing == old(self).pairing,
    {
        let told = self.notify.pairing(copy_state(&self.pairing.shown));
    }

    /// Begins to pair, with the nonce that was drawn for an offer, or none
    /// where none could be drawn. Where a pairing goes on, the app is only told
    /// again where it is.
    pub fn start_pairing_drawn(
        &mut self,
        method: PairingMethod,
        nonce: Option<Vec<u8>>,
        now: u64,
        now_unix_secs: i64,
    ) -> (start: StartPairing)
        requires
            old(self).wf(),
            old(self).can_begin(now, now_unix_secs),
        ensures
            final(self).wf(),
            final(self).only_pairing(*old(self), !(start is Offer)),
            if runs(old(self).pairing@.shown) {
                start == StartPairing::AlreadyRunning && final(self).pairing@ == old(self).pairing@
            } else if method == PairingMethod::Code {
                start == StartPairing::Waiting && final(self).pairing@ == shown_as(
                    old(self).begun(now, now_unix_secs),
                    PairView::Waiting { expires: old(self).expiry(now_unix_secs) },
                )
            } else {
                match nonce {
                    Some(drawn) => start == StartPairing::Offer(
                        drawn,
                        old(self).expiry(now_unix_secs),
                    ) && final(self).pairing@ == old(self).begun(now, now_unix_secs),
                    None => start == StartPairing::NoRandomness && final(self).pairing@
                        == shown_as(
                        old(self).begun(now, now_unix_secs),
                        failed_view("Runtime::NoRandomness"@),
                    ),
                }
            },
    {
        let expires: i64 = match self.pairing.begin(
            now,
            now_unix_secs,
            self.settings.pairing_timeout,
        ) {
            None => {
                self.tell();
                return StartPairing::AlreadyRunning;
            },
            Some(at) => at,
        };
        match method {
            PairingMethod::Code => {
                self.pairing.set(PairingState::Waiting { expires_unix_secs: expires });
                self.tell();
                StartPairing::Waiting
            },
            PairingMethod::Qr => match nonce {
                Some(nonce) => StartPairing::Offer(nonce, expires),
                None => {
                    self.pairing.set(
                        PairingState::Failed { error: failed("Runtime::NoRandomness") },
                    );
                    self.tell();
                    StartPairing::NoRandomness
                },
            },
        }
    }

    /// Begins to pair. Where a pairing goes on, the app is only told again
    /// where it is.
    pub fn start_pairing_with(&mut self, method: PairingMethod, now: u64, now_unix_secs: i64) -> (start:
        StartPairing)
        requires
            old(self).wf(),
            old(self).can_begin(now, now_unix_secs),
        ensures
            final(self).wf(),
            final(self).only_pairing(*old(self), !(start is Offer)),
            match start {
                StartPairing::AlreadyRunning => runs(old(self).pairing@.shown)
                    && final(self).pairing@ == old(self).pairing@,
                StartPairing::Waiting => !runs(old(self).pairing@.shown) && method
                    == PairingMethod::Code && final(self).pairing@ == shown_as(
                    old(self).begun(now, now_unix_secs),
                    PairView::Waiting { expires: old(self).expiry(now_unix_secs) },
                ),
                StartPairing::Offer(nonce, expires) => !runs(old(self).pairing@.shown) && method
                    == PairingMethod::Qr && nonce@.len() == QR_NONCE_LEN && expires == old(
                    self,
                ).expiry(now_unix_secs) && final(self).pairing@ == old(self).begun(
                    now,
                    now_unix_secs,
                ),
                StartPairing::NoRandomness => !runs(old(self).pairing@.shown) && method
                    == PairingMethod::Qr && final(self).pairing@ == shown_as(
                    old(self).begun(now, now_unix_secs),
                    failed_view("Runtime::NoRandomness"@),
                ),
            },
    {
        let nonce: Option<Vec<u8>> = match method {
            PairingMethod::Code => None,
            PairingMethod::Qr => if self.pairing.is_running() {
                None
            } else {
                random_bytes(QR_NONCE_LEN)
            },
        };
        self.start_pairing_drawn(method, nonce, now, now_unix_secs)
    }

    /// Draws an offer that was made.
    pub fn start_offering(&mut self, nonce: Vec<u8>, payload: Vec<u8>, expires_unix_secs: i64)
        requires
            old(self).wf(),
        ensures
            final(self).wf(),
            final(self).only_pairing(*old(self), true),
            final(self).pairing@ == (PairingView {
                nonce: Some(nonce@),
                shown: PairView::Offering { payload: payload@, expires: expires_unix_secs },
                ..old(self).pairing@
            }),
    {
        self.pairing.offer(nonce, PairingOffer { payload, expires_unix_secs });
        self.tell();
    }

    /// What a camera read from another device's screen. It is checked here,
    /// before a byte reaches the network: that it is an offer, that it has
    /// not expired, and that its device is not paired already. Returns the
    /// dial to run.
    pub fn offer_scanned(
        &mut self,
        offer: Result<ScannedOffer, PairingError>,
        now: u64,
        now_unix_secs: i64,
    ) -> (dial: Result<OfferDial, FerryError>)
        requires
            old(self).wf(),
            old(self).can_begin(now, now_unix_secs),
        ensures
            final(self).wf(),
            final(self).only_pairing(*old(self), dial is Ok),
            match dial {
                Ok(d) => {
                    &&& offer matches Ok(o)
                    &&& now_unix_secs < o.expires_unix_secs
                    &&& !is_paired(old(self).peers@, hex_of(o.key@))
                    &&& !runs(old(self).pairing@.shown)
                    &&& d.wf()
                    &&& d.at == 0
                    &&& d.last_error is None
                    &&& d.targets@ == offer_targets(o.addresses@)
                    &&& final(self).pairing@ == shown_as(
                        old(self).begun(now, now_unix_secs),
                        PairView::Waiting { expires: old(self).expiry(now_unix_secs) },
                    )
                },
                Err(e) => final(self).pairing@ == old(self).pairing@ && (match offer {
                    Err(problem) => is_failed(e, offer_code(problem)),
                    Ok(o) => if now_unix_secs >= o.expires_unix_secs {
                        is_failed(e, offer_code(PairingError::OfferExpired))
                    } else if is_paired(old(self).peers@, hex_of(o.key@)) {
                        is_failed(e, offer_code(PairingError::AlreadyPaired))
                    } else {
                        runs(old(self).pairing@.shown) && is_failed(e, "Runtime::PairingBusy"@)
                    },
                }),
            },
    {
        let offer = match offer {
            Err(problem) => {
                return Err(from_offer(problem));
            },
            Ok(offer) => offer,
        };
        if now_unix_secs >= offer.expires_unix_secs {
            return Err(from_offer(PairingError::OfferExpired));
        }
        let key_hex = hex_text(offer.key.as_slice());
        if self.peers.contains(key_hex.as_str()) {
            return Err(from_offer(PairingError::AlreadyPaired));
        }
        let expires: i64 = match self.pairing.begin(
            now,
            now_unix_secs,
            self.settings.pairing_timeout,
        ) {
            None => {
                return Err(failed("Runtime::PairingBusy"));
            },
            Some(at) => at,
        };
        self.pairing.set(PairingState::Waiting { expires_unix_secs: expires });
        self.tell();
        Ok(OfferDial::new(addresses_to_dial(&offer.addresses)))
    }

    /// Picks a candidate. Returns where to dial it.
    pub fn pick_candidate(&mut self, id: &str) -> (picked: Result<Addr, FerryError>)
        requires
            old(self).wf(),
        ensures
            final(self).wf(),
            final(self).only_pairing(*old(self), false),
            match picked {
                Ok(addr) => open_to_pairing(old(self).pairing@)
                    && old(self).pairing@.candidates.contains_key(id@) && addr == old(
                    self,
                ).pairing@.candidates[id@].1 && final(self).pairing@ == (PairingView {
                    dialing: true,
                    ..old(self).pairing@
                }),
                Err(e) => final(self).pairing@ == old(self).pairing@ && (if !runs(
                    old(self).pairing@.shown,
                ) {
                    is_failed(e, "Runtime::NoCandidate"@)
                } else if !open_to_pairing(old(self).pairing@) {
                    is_failed(e, "Runtime::PairingBusy"@)
                } else {
                    !old(self).pairing@.candidates.contains_key(id@) && is_failed(
                        e,
                        "Runtime::NoCandidate"@,
                    )
                }),
            },
    {
        self.pairing.pick(id)
    }

    /// A handshake that pairs failed. A pairing that moved on is left alone.
    /// `dialed_out` says that it was the dial of a picked candidate.
    pub fn pairing_failed(&mut self, error: &TcpError, dialed_out: bool)
        requires
            old(self).wf(),
        ensures
            final(self).wf(),
            final(self).only_pairing(*old(self), runs(old(self).pairing@.shown)),
            final(self).pairing@ == after_failure(
                if dialed_out {
                    dialed(old(self).pairing@)
                } else {
                    old(self).pairing@
                },
                (tcp_code(*error), None),
            ),
    {
        let reported = from_tcp(error);
        let told = if dialed_out {
            self.pairing.dial_failed(reported)
        } else {
            self.pairing.fail(reported)
        };
        if told {
            self.tell();
        }
    }

    /// The handshake of a scan failed on the side that drew the offer. A
    /// nonce that does not match is a stranger's, and the offer stays.
    pub fn scan_failed(&mut self, error: &TcpError)
        requires
            old(self).wf(),
        ensures
            final(self).wf(),
            final(self).only_pairing(*old(self), *error != TcpError::Noise(NoiseError::UnknownOffer) && runs(
                    old(self).pairing@.shown,
                )),
            final(self).pairing@ == (if *error == TcpError::Noise(NoiseError::UnknownOffer) {
                old(self).pairing@
            } else {
                after_failure(old(self).pairing@, (tcp_code(*error), None))
            }),
    {
        match error {
            TcpError::Noise(NoiseError::UnknownOffer) => {},
            _ => {
                self.pairing_failed(error, false);
            },
        }
    }

    /// The handshake of an accepted connection failed. What it was to be says
    /// who hears of it: a pairing that goes on shows the failure, and of
    /// everything else nothing is said.
    pub fn inbound_failed(&mut self, heard: Option<Inbound>, error: &TcpError)
        requires
            old(self).wf(),
        ensures
            final(self).wf(),
            ({
                let told = match heard {
                    Some(Inbound::PairByCode) => true,
                    Some(Inbound::PairByQr) => *error != TcpError::Noise(NoiseError::UnknownOffer),
                    _ => false,
                };
                &&& final(self).only_pairing(*old(self), told && runs(old(self).pairing@.shown))
                &&& final(self).pairing@ == (if told {
                    after_failure(old(self).pairing@, (tcp_code(*error), None))
                } else {
                    old(self).pairing@
                })
            }),
    {
        match heard {
            Some(Inbound::PairByCode) => {
                self.pairing_failed(error, false);
            },
            Some(Inbound::PairByQr) => {
                self.scan_failed(error);
            },
            _ => {},
        }
    }

    /// Shows the failure of a pairing that still goes on.
    pub fn fail_pairing(&mut self, error: FerryError)
        requires
            old(self).wf(),
        ensures
            final(self).wf(),
            final(self).only_pairing(*old(self), runs(old(self).pairing@.shown)),
            final(self).pairing@ == after_failure(old(self).pairing@, error_view(error)),
    {
        if self.pairing.fail(error) {
            self.tell();
        }
    }

    /// The handshake of the code method is done. Shows the code and holds the
    /// connection; where something is held already the failure is shown
    /// instead, and the connection has to go.
    pub fn hold_pairing(&mut self, held: HeldPairing, code: String, now_unix_secs: i64) -> (taken: bool)
        requires
            old(self).wf(),
        ensures
            final(self).wf(),
            final(self).only_pairing(*old(self), runs(old(self).pairing@.shown)),
            ({
                let before = if held.accepted {
                    old(self).pairing@
                } else {
                    dialed(old(self).pairing@)
                };
                &&& taken == open_to_pairing(before)
                &&& final(self).pairing@ == (if taken {
                    holding(before, held, code@, now_unix_secs)
                } else {
                    after_failure(before, ("Runtime::PairingBusy"@, None))
                })
            }),
    {
        match self.pairing.hold(held, code, now_unix_secs) {
            Ok(_) => {
                self.tell();
                true
            },
            Err(e) => {
                self.fail_pairing(e);
                false
            },
        }
    }

    /// The handshake of a scan is done on the side that drew the offer.
    /// Where another scan came first, the connection has to go.
    pub fn hold_qr_pairing(&mut self, requested: RequestedPairing) -> (taken: bool)
        requires
            old(self).wf(),
        ensures
            final(self).wf(),
            final(self).only_pairing(*old(self), taken),
            taken == offering(old(self).pairing@),
            final(self).pairing@ == (if taken {
                scanned(old(self).pairing@, requested, None)
            } else {
                old(self).pairing@
            }),
    {
        match self.pairing.hold_qr(requested) {
            Ok(_) => {
                self.tell();
                true
            },
            Err(_) => false,
        }
    }

    /// The names have crossed on the side that scanned.
    pub fn hold_scanned_pairing(&mut self, requested: RequestedPairing) -> (taken: bool)
        requires
            old(self).wf(),
        ensures
            final(self).wf(),
            final(self).only_pairing(*old(self), taken),
            taken == (old(self).pairing@.requested is None && runs(old(self).pairing@.shown)),
            final(self).pairing@ == (if taken {
                scanned(old(self).pairing@, requested, old(self).pairing@.nonce)
            } else {
                old(self).pairing@
            }),
    {
        let taken = self.pairing.hold_scanned(requested);
        if taken {
            self.tell();
        }
        taken
    }

    /// Accepts or rejects the device whose code, or scan, is shown. This
    /// answers for this device only.
    pub fn confirm_pairing(&mut self, accept: bool) -> (confirmed: Confirmed)
        requires
            old(self).wf(),
        ensures
            final(self).wf(),
            final(self).only_pairing(*old(self), !accept),
            ({
                let before = old(self).pairing@;
                if !accept {
                    final(self).pairing@ == idle_view() && (if before.held is None
                        && before.requested is None {
                        confirmed == Confirmed::Nothing
                    } else {
                        confirmed == Confirmed::Dropped
                    })
                } else {
                    match (before.held, before.requested) {
                        (Some(held), _) => confirmed == Confirmed::Exchange(held, None)
                            && final(self).pairing@ == (PairingView { held: None, ..before }),
                        (None, Some(r)) => final(self).pairing@ == (PairingView {
                            requested: None,
                            ..before
                        }) && (if r.hello_done {
                            confirmed == Confirmed::Store(r)
                        } else {
                            confirmed matches Confirmed::Exchange(held, Some((name, kind)))
                                && held.connection == r.connection && held.peer@ == r.peer@
                                && held.addr == r.addr && held.accepted && name@ == r.name@ && kind
                                == r.kind
                        }),
                        (None, None) => confirmed == Confirmed::Nothing && final(self).pairing@
                            == before,
                    }
                }
            }),
    {
        let taken = self.pairing.take_confirming();
        if !accept {
            self.pairing.set(PairingState::Idle);
            self.tell();
            return match taken {
                None => Confirmed::Nothing,
                Some(_) => Confirmed::Dropped,
            };
        }
        match taken {
            None => Confirmed::Nothing,
            Some(Confirming::Code(held)) => Confirmed::Exchange(held, None),
            Some(Confirming::Scan(requested)) => {
                if requested.hello_done {
                    Confirmed::Store(requested)
                } else {
                    let held = HeldPairing {
                        connection: requested.connection,
                        peer: requested.peer,
                        addr: requested.addr,
                        accepted: true,
                    };
                    Confirmed::Exchange(held, Some((requested.name, requested.kind)))
                }
            },
        }
    }

    /// Stops pairing, and drops whatever it held.
    pub fn cancel_pairing(&mut self)
        requires
            old(self).wf(),
        ensures
            final(self).wf(),
            final(self).only_pairing(*old(self), true),
            final(self).pairing@ == idle_view(),
    {
        self.pairing.cancel();
        self.tell();
    }

    /// Looks at the deadline of a pairing.
    pub fn pairing_watchdog(&mut self, now: u64) -> (watch: Watch)
        requires
            old(self).wf(),
        ensures
            final(self).wf(),
            final(self).only_pairing(*old(self), watch == Watch::Expired(true)),
            match old(self).pairing@.deadline {
                None => watch == Watch::Ended && final(self).pairing@ == old(self).pairing@,
                Some(at) => if now < at {
                    watch == Watch::Wait((at - now) as u64) && final(self).pairing@ == old(
                        self,
                    ).pairing@
                } else {
                    watch == Watch::Expired(runs(old(self).pairing@.shown)) && final(self).pairing@
                        == expired(old(self).pairing@)
                },
            },
    {
        let watch = self.pairing.watch(now);
        if let Watch::Expired(true) = watch {
            self.tell();
        }
        watch
    }

    /// The list with a device that was confirmed, which has to be written.
    /// `None` where the pairing was given up meanwhile: nothing may be stored
    /// then. A list that cannot take the device fails the pairing.
    pub fn store_paired_peer(&mut self, peer: Peer) -> (list: Option<Peers>)
        requires
            old(self).wf(),
        ensures
            final(self).wf(),
            final(self).only_pairing(*old(self), list is None && runs(old(self).pairing@.shown)),
            match list {
                Some(peers) => runs(old(self).pairing@.shown) && peers.wf() && add_problem(
                    old(self).peers@,
                    peer@,
                ) is None && peers@ == with_peer(old(self).peers@, peer@) && final(self).pairing@
                    == old(self).pairing@,
                None => final(self).pairing@ == (match add_problem(old(self).peers@, peer@) {
                    Some(problem) => after_failure(
                        old(self).pairing@,
                        (peer_code(problem), None),
                    ),
                    None => old(self).pairing@,
                }) && (runs(old(self).pairing@.shown) ==> add_problem(old(self).peers@, peer@)
                    is Some),
            },
    {
        if !self.pairing.is_running() {
            return None;
        }
        let mut peers = self.peers.copy();
        match peers.add(peer) {
            Ok(_) => Some(peers),
            Err(problem) => {
                self.fail_pairing(from_peer(&problem));
                None
            },
        }
    }

    /// The list with a device that was confirmed was written, or was not.
    /// Where it was, the device is paired, and the app is shown it unless the
    /// pairing was given up meanwhile. Says whether the app was shown it.
    pub fn paired_peer_stored(
        &mut self,
        peers: Peers,
        written: Result<(), PeerError>,
        key_hex: &str,
        addr: Addr,
        now_unix_secs: i64,
    ) -> (confirmed: bool)
        requires
            old(self).wf(),
            peers.wf(),
        ensures
            final(self).wf(),
            match written {
                Err(problem) => !confirmed && final(self).only_pairing(
                    *old(self),
                    runs(old(self).pairing@.shown),
                ) && final(self).pairing@ == after_failure(
                    old(self).pairing@,
                    (peer_code(problem), None),
                ),
                Ok(_) => {
                    &&& final(self).peers == peers
                    &&& final(self).live@ == old(self).live@.insert(
                        key_hex@,
                        newly_paired(live_of(old(self).live@, key_hex@), addr, now_unix_secs),
                    )
                    &&& *final(self) == (Engine {
                        peers: final(self).peers,
                        live: final(self).live,
                        pairing: final(self).pairing,
                        notify: final(self).notify,
                        ..*old(self)
                    })
                    &&& final(self).notify.tells_more(
                        old(self).notify,
                        report_if(
                            runs(old(self).pairing@.shown),
                            ReportView::Pairing(final(self).pairing@.shown),
                        ),
                    )
                    &&& confirmed == (runs(old(self).pairing@.shown) && is_paired(peers@, key_hex@))
                    &&& final(self).notify.waiting() == (if confirmed {
                        marked(old(self).notify.waiting(), Change::Devices)
                    } else {
                        old(self).notify.waiting()
                    })
                    &&& if confirmed {
                        final(self).pairing@ == shown_as(
                            old(self).pairing@,
                            PairView::Confirmed {
                                device: device_view(
                                    peer_of(peers@, key_hex@),
                                    newly_paired(
                                        live_of(old(self).live@, key_hex@),
                                        addr,
                                        now_unix_secs,
                                    ),
                                    now_unix_secs,
                                ),
                            },
                        )
                    } else if !is_paired(peers@, key_hex@) {
                        final(self).pairing@ == after_failure(
                            old(self).pairing@,
                            ("Runtime::NotPaired"@, None),
                        )
                    } else {
                        final(self).pairing@ == old(self).pairing@
                    }
                },
            },
    {
        match written {
            Err(problem) => {
                self.fail_pairing(from_peer(&problem));
                return false;
            },
            Ok(_) => {},
        }
        self.peers = peers;
        self.live.mark_paired(key_hex, addr, now_unix_secs);
        let device = match self.device(key_hex, now_unix_secs) {
            None => {
                self.fail_pairing(failed("Runtime::NotPaired"));
                return false;
            },
            Some(device) => device,
        };
        if !self.pairing.is_running() {
            return false;
        }
        self.pairing.set(PairingState::Confirmed { device });
        self.tell();
        self.notify.mark(Change::Devices);
        true
    }

    /// Discovery found a device at an address, under a name. Says whether the
    /// address is news, so that paired devices have to be probed.
    pub fn on_discovered(&mut self, name: &str, addr: Addr) -> (news: bool)
        requires
            old(self).wf(),
        ensures
            final(self).wf(),
            final(self).discovery.found@ == remembered(old(self).discovery.found@, addr),
            news == (old(self).discovery.found@.len() == 0 || old(self).discovery.found@[0]
                != addr),
            final(self).pairing@ == offered(old(self).pairing@, wifi_shown(name@), addr),
            *final(self) == (Engine {
                discovery: final(self).discovery,
                pairing: final(self).pairing,
                notify: final(self).notify,
                ..*old(self)
            }),
            final(self).discovery == (crate::engine::discovery::Discovery {
                found: final(self).discovery.found,
                ..old(self).discovery
            }),
            final(self).notify.tells_as(old(self).notify),
            final(self).notify.waiting() == (if takes_candidate(
                old(self).pairing@,
                wifi_shown(name@).id,
            ) {
                marked(old(self).notify.waiting(), Change::Found)
            } else {
                old(self).notify.waiting()
            }),
    {
        let news = self.discovery.remember_address(addr);
        let shown = wifi_candidate(name);
        if self.pairing.add_candidate(&shown, addr) {
            self.notify.mark(Change::Found);
        }
        news
    }

    /// An address was given by hand, as if discovery had found it. Its own
    /// text is its name.
    pub fn offer_candidate(&mut self, addr: Addr, text: &str)
        requires
            old(self).wf(),
        ensures
            final(self).wf(),
            final(self).discovery.found@ == remembered(old(self).discovery.found@, addr),
            final(self).pairing@ == offered(old(self).pairing@, wifi_shown(text@), addr),
            *final(self) == (Engine {
                discovery: final(self).discovery,
                pairing: final(self).pairing,
                notify: final(self).notify,
                ..*old(self)
            }),
            final(self).discovery == (crate::engine::discovery::Discovery {
                found: final(self).discovery.found,
                ..old(self).discovery
            }),
            final(self).notify.tells_as(old(self).notify),
            final(self).notify.waiting() == (if takes_candidate(
                old(self).pairing@,
                wifi_shown(text@).id,
            ) {
                marked(old(self).notify.waiting(), Change::Found)
            } else {
                old(self).notify.waiting()
            }),
    {
        let news = self.on_discovered(text, addr);
    }

    /// Discovery lost a device.
    pub fn on_lost(&mut self, name: &str)
        requires
            old(self).wf(),
        ensures
            final(self).wf(),
            final(self).only_pairing(*old(self), false),
            final(self).pairing@ == (PairingView {
                candidates: old(self).pairing@.candidates.remove("wifi:"@ + name@),
                ..old(self).pairing@
            }),
    {
        let mut id = copy_of("wifi:");
        id.push_str(name);
        self.pairing.lose_candidate(id.as_str());
    }

    /// `adb` named the plugged in devices, and forwards were opened to those
    /// that had none: `made` holds the port for each, where one was opened.
    /// Returns the forwards that have to be removed.
    pub fn poll_adb_once(&mut self, serials: &Vec<String>, made: &Vec<Option<u16>>) -> (gone: Vec<
        UsbForward,
    >)
        requires
            old(self).wf(),
            serials@.len() == made@.len(),
        ensures
            final(self).wf(),
            ({
                let known = forward_views(old(self).discovery.forwards@);
                let current = forwards_after(known, text_views(serials@), made@);
                let lost = gone_forwards(known, text_views(serials@));
                &&& forward_views(gone@) == lost
                &&& forward_views(final(self).discovery.forwards@) == current
                &&& final(self).live@ == old(self).live@.map_values(
                    |l: LiveView| unplugged(l, ports_of(lost)),
                )
                &&& final(self).pairing@ == with_forwards(old(self).pairing@, current)
                &&& final(self).notify.waiting() == (if any_offered(old(self).pairing@, current) {
                    marked(old(self).notify.waiting(), Change::Found)
                } else {
                    old(self).notify.waiting()
                })
            }),
            *final(self) == (Engine {
                discovery: final(self).discovery,
                live: final(self).live,
                pairing: final(self).pairing,
                notify: final(self).notify,
                ..*old(self)
            }),
            final(self).discovery == (crate::engine::discovery::Discovery {
                forwards: final(self).discovery.forwards,
                ..old(self).discovery
            }),
            final(self).notify.tells_as(old(self).notify),
    {
        let gone = self.discovery.settle_forwards(serials, made);
        let ghost lost = forward_views(gone@);
        let mut ports: Vec<u16> = Vec::new();
        let mut i: usize = 0;
        assert(ports@ =~= ports_of(lost.take(0)));
        while i < gone.len()
            invariant
                i <= gone@.len(),
                lost == forward_views(gone@),
                ports@ == ports_of(lost.take(i as int)),
            decreases gone@.len() - i,
        {
            ports.push(gone[i].local_port);
            assert(ports_of(lost.take(i + 1)) =~= ports_of(lost.take(i as int)).push(
                gone@[i as int].local_port,
            ));
            i += 1;
        }
        assert(lost.take(i as int) =~= lost);
        self.live.clear_gone_usb_forwards(&ports);
        let ghost current = forward_views(self.discovery.forwards@);
        let ghost before = self.pairing@;
        let ghost start = *self;
        let mut j: usize = 0;
        assert(current.take(0) =~= Seq::<(Seq<char>, u16)>::empty());
        while j < self.discovery.forwards.len()
            invariant
                self.wf(),
                j <= self.discovery.forwards@.len(),
                current == forward_views(self.discovery.forwards@),
                self.pairing@ == with_forwards(before, current.take(j as int)),
                *self == (Engine { pairing: self.pairing, notify: self.notify, ..start }),
                self.notify.tells_as(start.notify),
                self.notify.waiting() == (if any_offered(before, current.take(j as int)) {
                    marked(start.notify.waiting(), Change::Found)
                } else {
                    start.notify.waiting()
                }),
            decreases self.discovery.forwards@.len() - j,
        {
            assert(current.take(j + 1).drop_last() =~= current.take(j as int));
            assert(current.take(j + 1).last() == current[j as int]);
            let shown = usb_candidate(self.discovery.forwards[j].serial.as_str());
            let addr = Addr::local(self.discovery.forwards[j].local_port);
            if self.pairing.add_candidate(&shown, addr) {
                self.notify.mark(Change::Found);
            }
            j += 1;
        }
        assert(current.take(j as int) =~= current);
        gone
    }

    /// Starts a probe of every paired device that was not probed lately.
    /// Nothing is probed once the engine is stopping. Returns the devices to
    /// probe.
    pub fn on_address_found(&mut self, now: u64) -> (keys: Vec<String>)
        requires
            old(self).wf(),
        ensures
            final(self).wf(),
            *final(self) == (Engine { discovery: final(self).discovery, ..*old(self) }),
            old(self).running.stopped ==> keys@.len() == 0 && *final(self) == *old(self),
            !old(self).running.stopped ==> {
                &&& text_views(keys@) == crate::engine::discovery::to_probe(
                    old(self).peers@,
                    old(self).discovery.last_probe@,
                    now,
                )
                &&& final(self).discovery.last_probe@ == crate::engine::discovery::probed(
                    old(self).discovery.last_probe@,
                    text_views(keys@),
                    now,
                )
                &&& final(self).discovery.probes == (old(self).discovery.probes + keys@.len())
                    % 0x1_0000_0000_0000_0000
                &&& final(self).discovery == (crate::engine::discovery::Discovery {
                    last_probe: final(self).discovery.last_probe,
                    probes: final(self).discovery.probes,
                    ..old(self).discovery
                })
            },
    {
        if self.running.stopped {
            return Vec::new();
        }
        self.discovery.start_probes(&self.peers, now)
    }

    /// Every address worth trying for a device, best first.
    pub fn dial_targets(&self, key_hex: &str) -> (targets: Vec<crate::engine::discovery::Target>)
        requires
            self.wf(),
        ensures
            targets@ == crate::engine::discovery::each_once(
                crate::engine::discovery::all_targets(
                    forward_views(self.discovery.forwards@),
                    live_of(self.live@, key_hex@).last_addr,
                    self.discovery.found@,
                ),
            ),
    {
        let last_addr: Option<Addr> = match self.live.get(key_hex) {
            None => None,
            Some(live) => live.last_addr,
        };
        self.discovery.dial_targets(last_addr)
    }
}

/// The ports of some forwards.
pub open spec fn ports_of(forwards: Seq<(Seq<char>, u16)>) -> Seq<u16> {
    forwards.map_values(|f: (Seq<char>, u16)| f.1)
}

/// A pairing that was given up stores nothing: whatever is confirmed after
/// the deadline finds nothing to confirm.
pub proof fn lemma_nothing_after_the_deadline(p: PairingView)
    ensures
        expired(p).held is None,
        expired(p).requested is None,
        expired(p).nonce is None,
        !runs(expired(p).shown),
{
}

/// A device that was reached is tried again where it was, whatever the network
/// shows now.
pub proof fn lemma_reached_device_is_dialed_again<L: EngineListener>(
    engine: &mut Engine<L>,
    key_hex: &str,
    addr: Addr,
    way: crate::types::Transport,
    now_unix_secs: i64,
    copy: bool,
    after: &Engine<L>,
    targets: Vec<crate::engine::discovery::Target>,
)
    requires
        call_ensures(
            Engine::<L>::mark_reachable,
            (engine, key_hex, addr, way, now_unix_secs),
            copy,
        ),
        after.live@ == final(engine).live@,
        call_ensures(Engine::<L>::dial_targets, (after, key_hex), targets),
    ensures
        crate::engine::discovery::leads_to(targets@, addr),
        forall|i: int|
            0 <= i < after.discovery.found@.len() ==> crate::engine::discovery::leads_to(
                targets@,
                #[trigger] after.discovery.found@[i],
            ),
{
    crate::engine::discovery::lemma_every_known_address_is_tried(
        crate::engine::discovery::forward_views(after.discovery.forwards@),
        live_of(after.live@, key_hex@).last_addr,
        after.discovery.found@,
    );
}

/// A device that was confirmed is paired from then on, under its own key and
/// name, and is tried where it was met; the app is shown that very device, and
/// whoever was paired before stays so.
pub proof fn lemma_confirmed_device_is_paired<L: EngineListener>(
    engine: &mut Engine<L>,
    peer: Peer,
    list: Peers,
    then: &mut Engine<L>,
    key_hex: &str,
    addr: Addr,
    now_unix_secs: i64,
    confirmed: bool,
    other: crate::peers::PeerView,
)
    requires
        old(engine).wf(),
        call_ensures(Engine::<L>::store_paired_peer, (engine, peer), Some(list)),
        old(then).pairing@ == final(engine).pairing@,
        old(then).live@ == final(engine).live@,
        key_hex@ == hex_of(peer@.key),
        call_ensures(
            Engine::<L>::paired_peer_stored,
            (then, list, Ok::<(), PeerError>(()), key_hex, addr, now_unix_secs),
            confirmed,
        ),
    ensures
        confirmed,
        is_paired(final(then).peers@, key_hex@),
        final(then).peers@.contains(peer@),
        old(engine).peers@.contains(other) && hex_of(other.key) != key_hex@ ==> final(
            then).peers@.contains(other),
        live_of(final(then).live@, key_hex@).last_addr == Some(addr),
        final(then).pairing@.shown matches PairView::Confirmed { device } && device.key_hex
            == key_hex@ && device.name == peer@.name && device.kind == peer@.kind,
        !runs(final(then).pairing@.shown),
{
    let peers = old(engine).peers@;
    crate::peers::lemma_added_is_itself(peers, peer@, other);
}

/// A device that the network shows while this one waits can be picked, and is
/// dialed where it was seen; once it is lost it cannot.
pub proof fn lemma_found_device_can_be_picked<L: EngineListener>(
    engine: &mut Engine<L>,
    name: &str,
    addr: Addr,
    news: bool,
    then: &mut Engine<L>,
    id: &str,
    picked: Result<Addr, FerryError>,
)
    requires
        call_ensures(Engine::<L>::on_discovered, (engine, name, addr), news),
        takes_candidate(old(engine).pairing@, "wifi:"@ + name@),
        old(then).pairing@ == final(engine).pairing@,
        id@ == "wifi:"@ + name@,
        call_ensures(Engine::<L>::pick_candidate, (then, id), picked),
    ensures
        picked matches Ok(at) && at == addr,
        final(then).pairing@.dialing,
        final(engine).discovery.found@.len() > 0,
        final(engine).discovery.found@[0] == addr,
        news <==> old(engine).discovery.found@.len() == 0 || old(engine).discovery.found@[0] != addr,
{
}

/// A device that is not shown any more cannot be picked.
pub proof fn lemma_lost_device_cannot_be_picked<L: EngineListener>(
    engine: &mut Engine<L>,
    name: &str,
    then: &mut Engine<L>,
    id: &str,
    picked: Result<Addr, FerryError>,
)
    requires
        call_ensures(Engine::<L>::on_lost, (engine, name), ()),
        old(then).pairing@ == final(engine).pairing@,
        id@ == "wifi:"@ + name@,
        call_ensures(Engine::<L>::pick_candidate, (then, id), picked),
    ensures
        picked is Err,
        final(then).pairing@ == old(then).pairing@,
{
}

/// A pairing that begins is under way until its time is over: before that the
/// watch waits out what is left, and then it ends the pairing and tells of it.
pub proof fn lemma_pairing_ends_in_time<L: EngineListener>(
    engine: &mut Engine<L>,
    now: u64,
    now_unix_secs: i64,
    start: StartPairing,
    then: &mut Engine<L>,
    later: u64,
    watch: Watch,
)
    requires
        old(engine).can_begin(now, now_unix_secs),
        !runs(old(engine).pairing@.shown),
        call_ensures(
            Engine::<L>::start_pairing_with,
            (engine, PairingMethod::Code, now, now_unix_secs),
            start,
        ),
        old(then).pairing@ == final(engine).pairing@,
        call_ensures(Engine::<L>::pairing_watchdog, (then, later), watch),
    ensures
        start == StartPairing::Waiting,
        runs(final(engine).pairing@.shown),
        open_to_pairing(final(engine).pairing@),
        final(engine).pairing@.shown matches PairView::Waiting { expires } && expires
            == now_unix_secs + old(engine).settings.pairing_timeout / 1000,
        later < now + old(engine).settings.pairing_timeout ==> watch == Watch::Wait(
            (now + old(engine).settings.pairing_timeout - later) as u64,
        ) && final(then).pairing@ == old(then).pairing@,
        later >= now + old(engine).settings.pairing_timeout ==> watch == Watch::Expired(true)
            && !runs(final(then).pairing@.shown) && (
        final(then).pairing@.shown matches PairView::Failed { error } && error.0
            == "Runtime::PairingTimeout"@),
{
}

/// The code both sides compare is shown as it is, for the connection that it
/// belongs to; yes goes on with that connection, and no drops it.
pub proof fn lemma_code_is_confirmed_for_its_connection<L: EngineListener>(
    engine: &mut Engine<L>,
    held: HeldPairing,
    code: String,
    now_unix_secs: i64,
    then: &mut Engine<L>,
    accept: bool,
    confirmed: Confirmed,
)
    requires
        call_ensures(Engine::<L>::hold_pairing, (engine, held, code, now_unix_secs), true),
        old(then).pairing@ == final(engine).pairing@,
        call_ensures(Engine::<L>::confirm_pairing, (then, accept), confirmed),
    ensures
        final(engine).pairing@.shown matches PairView::Code { code: c, .. } && c == code@,
        final(engine).pairing@.held == Some(held),
        accept ==> confirmed == Confirmed::Exchange(held, None) && final(then).pairing@.held
            is None,
        !accept ==> confirmed == Confirmed::Dropped && final(then).pairing@ == idle_view(),
{
}

/// A scan that asks for pairing is shown by its name and kind, and yes goes on
/// with the connection it came on.
pub proof fn lemma_scan_is_confirmed_for_its_connection<L: EngineListener>(
    engine: &mut Engine<L>,
    requested: crate::engine::pairing::RequestedPairing,
    then: &mut Engine<L>,
    accept: bool,
    confirmed: Confirmed,
)
    requires
        call_ensures(Engine::<L>::hold_qr_pairing, (engine, requested), true),
        old(engine).pairing@.held is None,
        old(then).pairing@ == final(engine).pairing@,
        call_ensures(Engine::<L>::confirm_pairing, (then, accept), confirmed),
    ensures
        final(engine).pairing@.shown matches PairView::Requested { name, kind, .. } && name
            == requested.name@ && kind == requested.kind,
        !crate::engine::pairing::offering(final(engine).pairing@),
        accept && requested.hello_done ==> confirmed == Confirmed::Store(requested),
        accept && !requested.hello_done ==> (confirmed matches Confirmed::Exchange(held, Some(_))
            && held.connection == requested.connection && held.peer@ == requested.peer@),
        !accept ==> confirmed == Confirmed::Dropped,
{
}

/// An offer is taken up only while it holds, from a device that is not paired
/// yet, and with no other pairing under way; then it is dialed where it says.
pub proof fn lemma_offer_is_taken_up<L: EngineListener>(
    engine: &mut Engine<L>,
    offer: ScannedOffer,
    now: u64,
    now_unix_secs: i64,
    dial: Result<OfferDial, FerryError>,
)
    requires
        call_ensures(
            Engine::<L>::offer_scanned,
            (engine, Ok::<ScannedOffer, PairingError>(offer), now, now_unix_secs),
            dial,
        ),
    ensures
        dial is Ok <==> now_unix_secs < offer.expires_unix_secs && !is_paired(
            old(engine).peers@,
            hex_of(offer.key@),
        ) && !runs(old(engine).pairing@.shown),
        dial matches Ok(d) ==> d.at == 0 && (forall|i: int|
            0 <= i < d.targets@.len() ==> offer.addresses@.contains(#[trigger] d.targets@[i])),
        dial is Ok && offer.addresses@.len() > 0 ==> dial->Ok_0.targets@.len() > 0,
        dial is Err ==> final(engine).pairing@ == old(engine).pairing@,
{
    if dial is Ok {
        let d = dial->Ok_0;
        let all = offer.addresses@;
        assert forall|i: int| 0 <= i < d.targets@.len() implies all.contains(
            #[trigger] d.targets@[i],
        ) by {
            if crate::engine::addr::dialable(all).len() == 0 {
                assert(all[i] == d.targets@[i]);
            } else {
                crate::engine::addr::lemma_dialed_elsewhere(all, i);
            }
        }
    }
}

/// Who gave another name or kind than the one that was confirmed is not
/// paired; who gave the same is.
pub proof fn lemma_confirmed_name_must_be_given(
    expected: &Option<(String, DeviceKind)>,
    name: &str,
    kind: DeviceKind,
    checked: Result<(), FerryError>,
)
    requires
        call_ensures(checked_name, (expected, name, kind), checked),
    ensures
        expected is None ==> checked is Ok,
        expected matches Some((n, k)) ==> (checked is Ok <==> n@ == name@ && *k == kind),
{
}

/// The wait for a device's name ends with its answer, and without one when the
/// time is over or the engine stops, and no sooner.
pub proof fn lemma_wait_for_a_name_ends(
    event: HelloEvent,
    stopping: bool,
    now: u64,
    deadline: u64,
    step: HelloStep,
)
    requires
        call_ensures(hello_wait, (event, stopping, now, deadline), step),
    ensures
        event matches HelloEvent::Answer(Ok((name, kind))) ==> step == HelloStep::Named(name, kind),
        event matches HelloEvent::Answer(Err(_)) ==> step is Failed,
        event is Gone ==> step is Failed,
        event is Tick ==> (step is Wait <==> !stopping && now < deadline),
        event is Tick && !(step is Wait) ==> step is Failed,
{
}

/// A pairing that was cancelled is over: nothing is held for it, and the next
/// one can begin.
pub proof fn lemma_cancelled_pairing_is_over<L: EngineListener>(
    engine: &mut Engine<L>,
    then: &mut Engine<L>,
    now: u64,
    now_unix_secs: i64,
    start: StartPairing,
)
    requires
        call_ensures(Engine::<L>::cancel_pairing, (engine,), ()),
        *old(then) == *final(engine),
        old(then).can_begin(now, now_unix_secs),
        call_ensures(
            Engine::<L>::start_pairing_with,
            (then, PairingMethod::Code, now, now_unix_secs),
            start,
        ),
    ensures
        !runs(final(engine).pairing@.shown),
        final(engine).pairing@.held is None,
        final(engine).pairing@.requested is None,
        final(engine).pairing@.nonce is None,
        start == StartPairing::Waiting,
{
}

/// A pairing whose connection failed is over, with the reason shown, and one
/// that is over already is left alone; a scan of an offer that is not this
/// device's leaves it alone too.
pub proof fn lemma_failed_pairing_is_over<L: EngineListener>(
    engine: &mut Engine<L>,
    error: &TcpError,
    dialed_out: bool,
    scan: &mut Engine<L>,
)
    requires
        call_ensures(Engine::<L>::pairing_failed, (engine, error, dialed_out), ()),
        call_ensures(Engine::<L>::scan_failed, (scan, error), ()),
    ensures
        !runs(final(engine).pairing@.shown),
        runs(old(engine).pairing@.shown) ==> (final(engine).pairing@.shown matches PairView::Failed {
            error: told,
        } && told.0 == tcp_code(*error)) && final(engine).pairing@.held is None,
        !runs(old(engine).pairing@.shown) ==> final(engine).pairing@.shown == old(
            engine).pairing@.shown,
        *error == TcpError::Noise(NoiseError::UnknownOffer) ==> final(scan).pairing@ == old(
            scan).pairing@,
        *error != TcpError::Noise(NoiseError::UnknownOffer) ==> !runs(final(scan).pairing@.shown),
{
}

/// A phone that is plugged in while this device waits can be picked, and is
/// dialed through the port that was made for it.
pub proof fn lemma_plugged_phone_can_be_picked<L: EngineListener>(
    engine: &mut Engine<L>,
    serials: &Vec<String>,
    made: &Vec<Option<u16>>,
    port: u16,
    gone: Vec<UsbForward>,
    then: &mut Engine<L>,
    id: &str,
    picked: Result<Addr, FerryError>,
)
    requires
        serials@.len() == 1,
        made@ == seq![Some(port)],
        old(engine).discovery.forwards@.len() == 0,
        takes_candidate(old(engine).pairing@, "usb:"@ + serials@[0]@),
        call_ensures(Engine::<L>::poll_adb_once, (engine, serials, made), gone),
        *old(then) == *final(engine),
        id@ == "usb:"@ + serials@[0]@,
        call_ensures(Engine::<L>::pick_candidate, (then, id), picked),
    ensures
        picked matches Ok(addr) && addr.port == port && addr == Addr::local_of(port),
        gone@.len() == 0,
        final(engine).discovery.forwards@.len() == 1,
        final(engine).discovery.forwards@[0].serial@ == serials@[0]@,
        final(engine).discovery.forwards@[0].local_port == port,
{
    let known = forward_views(old(engine).discovery.forwards@);
    let names = text_views(serials@);
    assert(known.len() == 0);
    assert(names =~= seq![serials@[0]@]);
    assert(names.drop_last().len() == 0);
    let none = forwards_after(known, names.drop_last(), made@.drop_last());
    assert(none =~= Seq::empty());
    let current = forwards_after(known, names, made@);
    assert(current =~= seq![(serials@[0]@, port)]);
    assert(current.drop_last() =~= Seq::empty());
    assert(with_forwards(old(engine).pairing@, current.drop_last()) == old(engine).pairing@);
    let now = final(engine).discovery.forwards@;
    assert(forward_views(now).len() == now.len());
    assert(forward_views(now)[0] == (now[0].serial@, now[0].local_port));
    assert(forward_views(gone@).len() == gone@.len());
}

} // verus!
