//! When a change is reported to the app, and what it is told.
//!
//! A change waits a short while and is reported once, however many times it
//! happened. Nothing reaches the app after the engine has stopped: stopping
//! empties the place the listener has. A pairing state carries a value the
//! screen needs, so it is reported as it happens.
//!
//! A report is one call of the listener. The calls are listed here, in their
//! order, and whoever holds the engine takes the list and makes them once it
//! has let the engine go: a listener may then call back into the engine.
//!
//! Times are milliseconds on a clock that only goes forward.

use crate::engine::shown::PairView;
use crate::types::{EngineListener, PairingState};
use std::sync::Arc;
use vstd::prelude::*;

verus! {

/// How long a change waits before it is reported.
pub const HOLD_MS: u64 = 250;

/// How long a new pairing candidate waits: the whole list crosses with it.
pub const HOLD_FOUND_MS: u64 = 1_000;

/// What changed.
#[derive(Debug, Clone, Copy, PartialEq, Eq, Structural)]
pub enum Change {
    /// The device list, or something shown beside a device.
    Devices,
    /// The transfer list, or something shown beside a transfer.
    Transfers,
    /// The pairing candidate list.
    Found,
    /// The access log.
    AccessLog,
}

/// One kind of change, and when it was last reported.
#[derive(Debug, Clone, Copy, PartialEq, Eq, Structural)]
pub struct Slot {
    /// A change of this kind is waiting.
    pub waiting: bool,
    /// When this kind was last reported.
    pub last: Option<u64>,
    /// How long a change of this kind waits.
    pub hold: u64,
}

impl Slot {
    /// How long until this kind may be reported, where something is waiting.
    pub open spec fn time_left(self, now: u64) -> Option<u64> {
        if !self.waiting {
            None
        } else {
            match self.last {
                None => Some(0),
                Some(last) => {
                    let passed = if now < last {
                        0
                    } else {
                        now - last
                    };
                    Some(
                        if passed >= self.hold {
                            0
                        } else {
                            (self.hold - passed) as u64
                        },
                    )
                },
            }
        }
    }

    /// This kind is reported at `now`: something waits, and its turn has come
    /// or is forced.
    pub open spec fn is_due(self, now: u64, force: bool) -> bool {
        self.waiting && (force || self.time_left(now) == Some(0u64))
    }

    /// This kind after it was asked at `now`.
    pub open spec fn after(self, now: u64, force: bool) -> Slot {
        if self.is_due(now, force) {
            Slot { waiting: false, last: Some(now), hold: self.hold }
        } else {
            self
        }
    }

    pub fn new(hold: u64) -> (slot: Slot)
        ensures
            slot == (Slot { waiting: false, last: None, hold }),
    {
        Slot { waiting: false, last: None, hold }
    }

    /// How long until this kind may be reported, where something is waiting.
    pub fn left(&self, now: u64) -> (left: Option<u64>)
        ensures
            left == self.time_left(now),
    {
        if !self.waiting {
            return None;
        }
        match self.last {
            None => Some(0),
            Some(last) => Some(self.hold.saturating_sub(now.saturating_sub(last))),
        }
    }

    /// Takes this kind's turn, where it has come or `force` says so.
    pub fn take(&mut self, now: u64, force: bool) -> (taken: bool)
        ensures
            taken == old(self).is_due(now, force),
            *final(self) == old(self).after(now, force),
    {
        let due = match self.left(now) {
            None => {
                return false;
            },
            Some(left) => left == 0,
        };
        if !due && !force {
            return false;
        }
        self.waiting = false;
        self.last = Some(now);
        true
    }
}

/// Which kinds are reported.
#[derive(Debug, Clone, Copy, PartialEq, Eq, Structural)]
pub struct Due {
    pub devices: bool,
    pub transfers: bool,
    pub found: bool,
    pub access_log: bool,
}

impl Due {
    /// Whether there is nothing to report.
    pub fn is_empty(self) -> (empty: bool)
        ensures
            empty == (!self.devices && !self.transfers && !self.found && !self.access_log),
    {
        !self.devices && !self.transfers && !self.found && !self.access_log
    }
}

/// Nothing is reported.
pub open spec fn none_due() -> Due {
    Due { devices: false, transfers: false, found: false, access_log: false }
}

/// Everything that waits to be reported.
#[derive(Debug, Clone, Copy, PartialEq, Eq, Structural)]
pub struct Outbox {
    pub devices: Slot,
    pub transfers: Slot,
    pub found: Slot,
    pub access_log: Slot,
    /// Someone waits to report what is held back.
    pub timer: bool,
}

impl Outbox {
    /// The slot of one kind.
    pub open spec fn slot(self, change: Change) -> Slot {
        match change {
            Change::Devices => self.devices,
            Change::Transfers => self.transfers,
            Change::Found => self.found,
            Change::AccessLog => self.access_log,
        }
    }

    /// One kind's slot replaced.
    pub open spec fn with(self, change: Change, slot: Slot) -> Outbox {
        match change {
            Change::Devices => Outbox { devices: slot, ..self },
            Change::Transfers => Outbox { transfers: slot, ..self },
            Change::Found => Outbox { found: slot, ..self },
            Change::AccessLog => Outbox { access_log: slot, ..self },
        }
    }

    /// Something waits.
    pub open spec fn any_waiting(self) -> bool {
        self.devices.waiting || self.transfers.waiting || self.found.waiting
            || self.access_log.waiting
    }
}

/// The smaller of two waits, where there are any.
pub open spec fn sooner(a: Option<u64>, b: Option<u64>) -> Option<u64> {
    match (a, b) {
        (None, x) => x,
        (x, None) => x,
        (Some(x), Some(y)) => Some(
            if y < x {
                y
            } else {
                x
            },
        ),
    }
}

fn min_wait(a: Option<u64>, b: Option<u64>) -> (least: Option<u64>)
    ensures
        least == sooner(a, b),
{
    match (a, b) {
        (None, x) => x,
        (x, None) => x,
        (Some(x), Some(y)) => {
            if y < x {
                Some(y)
            } else {
                Some(x)
            }
        },
    }
}

/// One call of the listener.
#[derive(Debug)]
pub enum Report {
    /// `EngineListener::devices_changed`.
    Devices,
    /// `EngineListener::transfers_changed`.
    Transfers,
    /// `EngineListener::access_log_changed`.
    AccessLog,
    /// `EngineListener::pairing_changed`, with this state.
    Pairing(PairingState),
}

/// What one call of the listener says.
pub enum ReportView {
    Devices,
    Transfers,
    AccessLog,
    Pairing(PairView),
}

impl View for Report {
    type V = ReportView;

    open spec fn view(&self) -> ReportView {
        match *self {
            Report::Devices => ReportView::Devices,
            Report::Transfers => ReportView::Transfers,
            Report::AccessLog => ReportView::AccessLog,
            Report::Pairing(state) => ReportView::Pairing(state@),
        }
    }
}

/// What some calls of the listener say.
pub open spec fn report_views(reports: Seq<Report>) -> Seq<ReportView> {
    reports.map_values(|r: Report| r@)
}

/// One call, where there is one to make.
pub open spec fn report_if(yes: bool, report: ReportView) -> Seq<ReportView> {
    if yes {
        seq![report]
    } else {
        Seq::empty()
    }
}

/// The calls that tell the app what `due` names, apart from the candidate
/// list, which is reported as a pairing state.
pub open spec fn due_reports(due: Due) -> Seq<ReportView> {
    report_if(due.devices, ReportView::Devices) + report_if(due.transfers, ReportView::Transfers)
        + report_if(due.access_log, ReportView::AccessLog)
}

/// The listener, and what waits to reach it.
pub struct Notify<L: EngineListener> {
    /// Empty once the engine has stopped.
    listener: Option<Arc<L>>,
    outbox: Outbox,
    /// The calls to make, in their order.
    reports: Vec<Report>,
}

impl<L: EngineListener> Notify<L> {
    /// What waits.
    pub closed spec fn waiting(self) -> Outbox {
        self.outbox
    }

    /// Who is told.
    pub closed spec fn told_to(self) -> Option<L> {
        match self.listener {
            Some(listener) => Some(*listener),
            None => None,
        }
    }

    /// The listener's place is empty.
    pub open spec fn is_closed(self) -> bool {
        self.told_to() is None
    }

    /// The calls to make, in their order.
    pub closed spec fn reports(self) -> Seq<ReportView> {
        report_views(self.reports@)
    }

    /// The same listener is told, and it has nothing more to hear.
    pub open spec fn tells_as(self, before: Notify<L>) -> bool {
        &&& self.told_to() == before.told_to()
        &&& self.reports() == before.reports()
    }

    /// The same listener is told, and it hears `more` too, where it is there
    /// to hear anything.
    pub open spec fn tells_more(self, before: Notify<L>, more: Seq<ReportView>) -> bool {
        &&& self.told_to() == before.told_to()
        &&& self.reports() == (if before.is_closed() {
            before.reports()
        } else {
            before.reports() + more
        })
    }

    /// Holds the listener the app gave.
    pub fn new(listener: L) -> (notify: Notify<L>)
        ensures
            notify.told_to() == Some(listener),
            notify.reports() == Seq::<ReportView>::empty(),
            notify.waiting() == (Outbox {
                devices: Slot { waiting: false, last: None, hold: HOLD_MS },
                transfers: Slot { waiting: false, last: None, hold: HOLD_MS },
                found: Slot { waiting: false, last: None, hold: HOLD_FOUND_MS },
                access_log: Slot { waiting: false, last: None, hold: HOLD_MS },
                timer: false,
            }),
    {
        let notify = Notify {
            listener: Some(Arc::new(listener)),
            outbox: Outbox {
                devices: Slot::new(HOLD_MS),
                transfers: Slot::new(HOLD_MS),
                found: Slot::new(HOLD_FOUND_MS),
                access_log: Slot::new(HOLD_MS),
                timer: false,
            },
            reports: Vec::new(),
        };
        assert(notify.reports() =~= Seq::<ReportView>::empty());
        notify
    }

    /// Empties the listener's place. Nothing reaches the app from here on.
    pub fn close(&mut self)
        ensures
            final(self).is_closed(),
            final(self).reports() == Seq::<ReportView>::empty(),
            final(self).waiting() == old(self).waiting(),
    {
        self.listener = None;
        self.reports = Vec::new();
        assert(self.reports() =~= Seq::<ReportView>::empty());
    }

    /// Takes the calls to make, and who they are made to. `None` once the
    /// listener's place is empty.
    pub fn take_reports(&mut self) -> (told: Option<(Arc<L>, Vec<Report>)>)
        ensures
            match told {
                Some((listener, reports)) => old(self).told_to() == Some(*listener)
                    && report_views(reports@) == old(self).reports(),
                None => old(self).is_closed(),
            },
            final(self).told_to() == old(self).told_to(),
            final(self).reports() == Seq::<ReportView>::empty(),
            final(self).waiting() == old(self).waiting(),
    {
        let mut reports: Vec<Report> = Vec::new();
        std::mem::swap(&mut reports, &mut self.reports);
        assert(self.reports() =~= Seq::<ReportView>::empty());
        match &self.listener {
            None => None,
            Some(listener) => Some((listener.clone(), reports)),
        }
    }

    fn report(&mut self, report: Report)
        ensures
            final(self).tells_more(*old(self), seq![report@]),
            final(self).waiting() == old(self).waiting(),
    {
        if self.listener.is_some() {
            let ghost before = self.reports();
            let ghost said = report@;
            self.reports.push(report);
            assert(self.reports() =~= before + seq![said]);
        }
    }

    /// Reports a pairing state at once. Says whether there is someone to
    /// hear it.
    pub fn pairing(&mut self, state: PairingState) -> (told: bool)
        ensures
            told == !old(self).is_closed(),
            final(self).tells_more(*old(self), seq![ReportView::Pairing(state@)]),
            final(self).waiting() == old(self).waiting(),
    {
        self.report(Report::Pairing(state));
        self.listener.is_some()
    }

    /// Notes that something changed. It is reported when its turn comes.
    pub fn mark(&mut self, change: Change)
        ensures
            final(self).tells_as(*old(self)),
            final(self).waiting() == old(self).waiting().with(
                change,
                Slot { waiting: true, ..old(self).waiting().slot(change) },
            ),
    {
        match change {
            Change::Devices => {
                self.outbox.devices.waiting = true;
            },
            Change::Transfers => {
                self.outbox.transfers.waiting = true;
            },
            Change::Found => {
                self.outbox.found.waiting = true;
            },
            Change::AccessLog => {
                self.outbox.access_log.waiting = true;
            },
        }
    }

    /// Takes every kind whose turn has come at `now`. `force` takes them all.
    pub fn take_due(&mut self, now: u64, force: bool) -> (due: Due)
        ensures
            final(self).tells_as(*old(self)),
            due == (Due {
                devices: old(self).waiting().devices.is_due(now, force),
                transfers: old(self).waiting().transfers.is_due(now, force),
                found: old(self).waiting().found.is_due(now, force),
                access_log: old(self).waiting().access_log.is_due(now, force),
            }),
            final(self).waiting() == (Outbox {
                devices: old(self).waiting().devices.after(now, force),
                transfers: old(self).waiting().transfers.after(now, force),
                found: old(self).waiting().found.after(now, force),
                access_log: old(self).waiting().access_log.after(now, force),
                timer: old(self).waiting().timer,
            }),
    {
        let devices = self.outbox.devices.take(now, force);
        let transfers = self.outbox.transfers.take(now, force);
        let found = self.outbox.found.take(now, force);
        let access_log = self.outbox.access_log.take(now, force);
        Due { devices, transfers, found, access_log }
    }

    /// Tells the app what `due` names, apart from the candidate list, which
    /// is reported as a pairing state. Returns what the app is told.
    pub fn send(&mut self, due: Due) -> (told: Due)
        ensures
            told == (if old(self).is_closed() {
                none_due()
            } else {
                Due { found: false, ..due }
            }),
            final(self).tells_more(*old(self), due_reports(due)),
            final(self).waiting() == old(self).waiting(),
    {
        if self.listener.is_none() {
            return Due { devices: false, transfers: false, found: false, access_log: false };
        }
        let ghost before = self.reports();
        if due.devices {
            self.report(Report::Devices);
        }
        if due.transfers {
            self.report(Report::Transfers);
        }
        if due.access_log {
            self.report(Report::AccessLog);
        }
        assert(self.reports() =~= before + due_reports(due));
        Due {
            devices: due.devices,
            transfers: due.transfers,
            found: false,
            access_log: due.access_log,
        }
    }

    /// How long until the next kind may be reported. Where nothing waits, the
    /// timer is given back at the same moment.
    pub fn next_turn(&mut self, now: u64) -> (left: Option<u64>)
        ensures
            final(self).tells_as(*old(self)),
            left == sooner(
                sooner(
                    old(self).waiting().devices.time_left(now),
                    old(self).waiting().transfers.time_left(now),
                ),
                sooner(
                    old(self).waiting().found.time_left(now),
                    old(self).waiting().access_log.time_left(now),
                ),
            ),
            left is None <==> !old(self).waiting().any_waiting(),
            final(self).waiting() == (Outbox {
                timer: old(self).waiting().timer && left is Some,
                ..old(self).waiting()
            }),
    {
        let soonest = min_wait(
            min_wait(self.outbox.devices.left(now), self.outbox.transfers.left(now)),
            min_wait(self.outbox.found.left(now), self.outbox.access_log.left(now)),
        );
        if soonest.is_none() {
            self.outbox.timer = false;
        }
        soonest
    }

    /// Whether the caller has to start waiting to report what is held back.
    /// Only one does at a time.
    pub fn claim_timer(&mut self) -> (claimed: bool)
        ensures
            final(self).tells_as(*old(self)),
            claimed == (old(self).waiting().any_waiting() && !old(self).waiting().timer),
            final(self).waiting() == (Outbox {
                timer: old(self).waiting().timer || claimed,
                ..old(self).waiting()
            }),
    {
        let waiting = self.outbox.devices.waiting || self.outbox.transfers.waiting
            || self.outbox.found.waiting || self.outbox.access_log.waiting;
        if !waiting || self.outbox.timer {
            return false;
        }
        self.outbox.timer = true;
        true
    }

    /// Gives the timer back, whatever waits.
    pub fn release_timer(&mut self)
        ensures
            final(self).tells_as(*old(self)),
            final(self).waiting() == (Outbox { timer: false, ..old(self).waiting() }),
    {
        self.outbox.timer = false;
    }
}

/// Once the listener's place is empty, whatever is reported changes nothing
/// of what the app is told, and there is nothing to tell it.
pub proof fn lemma_closed_tells_nobody<L: EngineListener>(
    before: Notify<L>,
    after: Notify<L>,
    more: Seq<ReportView>,
)
    requires
        before.is_closed(),
        before.reports() == Seq::<ReportView>::empty(),
        after.tells_more(before, more),
    ensures
        after.is_closed(),
        after.reports() == Seq::<ReportView>::empty(),
{
}

/// Two reports of one kind that nothing forced are at least its hold apart.
pub proof fn lemma_reports_apart(slot: Slot, first: u64, marked: Slot, second: u64)
    requires
        slot.is_due(first, false),
        marked == (Slot { waiting: true, ..slot.after(first, false) }),
        first <= second,
        marked.is_due(second, false),
    ensures
        second - first >= slot.hold,
{
}

/// A change that waits is reported once its hold has passed, and at once when
/// forced: the last change always arrives.
pub proof fn lemma_change_arrives(slot: Slot, now: u64)
    requires
        slot.waiting,
    ensures
        slot.is_due(now, true),
        slot.last matches Some(last) ==> (now >= last + slot.hold ==> slot.is_due(now, false)),
        slot.last is None ==> slot.is_due(now, false),
        !slot.after(now, true).waiting,
{
}

/// A change that was marked is told: there is a turn to wait for, which never
/// lies further away than the hold, and what is sent then names that change
/// and is handed to the listener.
pub proof fn lemma_marked_change_is_told<L: EngineListener>(
    notify: &mut Notify<L>,
    change: Change,
    turn: &mut Notify<L>,
    now: u64,
    left: Option<u64>,
    taking: &mut Notify<L>,
    due: Due,
    sending: &mut Notify<L>,
    told: Due,
)
    requires
        call_ensures(Notify::<L>::mark, (notify, change), ()),
        old(turn).waiting() == final(notify).waiting(),
        call_ensures(Notify::<L>::next_turn, (turn, now), left),
        old(taking).waiting() == final(turn).waiting(),
        call_ensures(Notify::<L>::take_due, (taking, now, true), due),
        !old(sending).is_closed(),
        call_ensures(Notify::<L>::send, (sending, due), told),
    ensures
        left matches Some(wait) && wait <= final(notify).waiting().slot(change).hold,
        !final(taking).waiting().any_waiting(),
        change == Change::Devices ==> final(sending).reports().contains(ReportView::Devices),
        change == Change::Transfers ==> final(sending).reports().contains(ReportView::Transfers),
        change == Change::AccessLog ==> final(sending).reports().contains(ReportView::AccessLog),
        change == Change::Found ==> due.found,
        forall|i: int|
            0 <= i < old(sending).reports().len() ==> final(sending).reports()[i]
                == #[trigger] old(sending).reports()[i],
{
    let before = old(sending).reports();
    let a = report_if(due.devices, ReportView::Devices);
    let b = report_if(due.transfers, ReportView::Transfers);
    let c = report_if(due.access_log, ReportView::AccessLog);
    let after = final(sending).reports();
    assert(after =~= before + (a + b + c));
    if change == Change::Devices {
        assert(after[before.len() as int] == ReportView::Devices);
    }
    if change == Change::Transfers {
        assert(after[(before.len() + a.len()) as int] == ReportView::Transfers);
    }
    if change == Change::AccessLog {
        assert(after[(before.len() + a.len() + b.len()) as int] == ReportView::AccessLog);
    }
}

/// Nothing is told of what did not change.
pub proof fn lemma_no_change_is_not_told<L: EngineListener>(
    taking: &mut Notify<L>,
    now: u64,
    force: bool,
    due: Due,
    sending: &mut Notify<L>,
    told: Due,
)
    requires
        call_ensures(Notify::<L>::take_due, (taking, now, force), due),
        call_ensures(Notify::<L>::send, (sending, due), told),
        !old(taking).waiting().any_waiting(),
    ensures
        final(sending).reports() == old(sending).reports(),
{
    assert(due_reports(due) =~= Seq::<ReportView>::empty());
    assert(old(sending).reports() + due_reports(due) =~= old(sending).reports());
}

} // verus!
