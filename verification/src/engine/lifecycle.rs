//! Starting, stopping, and what runs in between.

use crate::access::codec::EntryFields;
use crate::access::log::{Query, MAX_QUERY_LIMIT};
use crate::access::rollup::{
    counted, is_idle, not, on_other_path, pending_views, Pending, PendingView, RollUp,
};
use crate::engine::addr::Addr;
use crate::engine::devices::copy_starts;
use crate::engine::discovery::UsbForward;
use crate::engine::inbound::{welcome, welcomes_inbound, InboundSlots};
use crate::engine::live::LiveView;
use crate::engine::pairing::pairs_inbound;
use crate::engine::state::{connections_below, marked, Engine, Running};
use crate::limits::{MAX_INBOUND_CONNECTIONS, MAX_TRANSFER_WORKERS};
use crate::notify::{Change, Outbox, ReportView};
use crate::pool::Pool;
use crate::seqs::{lemma_push_contains, only};
use crate::text::{copy_of, text_views};
use crate::types::EngineListener;
use vstd::prelude::*;

verus! {

/// What has to be opened next, so that the engine can start.
#[derive(Debug, Clone, Copy, PartialEq, Eq, Structural)]
pub enum StartStep {
    /// It has started.
    Started,
    OpenRoots,
    OpenDownload,
    OpenLog,
    Bind,
}

/// What has to be closed once the engine is stopping.
pub struct Stopped {
    /// The entries of the access log that are final now.
    pub finished: Vec<Pending>,
    /// The devices whose bridge has to stop.
    pub mounts: Vec<String>,
    /// The forwards that have to be removed.
    pub forwards: Vec<UsbForward>,
}

/// What is opened next: the roots first, unless fresher ones were set, then
/// the download folder, then the access log, then the port.
pub open spec fn next_to_open(running: Running, log_open: bool) -> StartStep {
    if running.started {
        StartStep::Started
    } else if running.roots is None {
        StartStep::OpenRoots
    } else if !running.download_open {
        StartStep::OpenDownload
    } else if !log_open {
        StartStep::OpenLog
    } else {
        StartStep::Bind
    }
}

impl<L: EngineListener> Engine<L> {
    /// What has to be opened next, so that the engine can start. Starting
    /// twice is starting once.
    pub fn start(&self) -> (step: StartStep)
        ensures
            step == next_to_open(self.running, self.access is Some),
    {
        if self.running.started {
            StartStep::Started
        } else if self.running.roots.is_none() {
            StartStep::OpenRoots
        } else if !self.running.download_open {
            StartStep::OpenDownload
        } else if self.access.is_none() {
            StartStep::OpenLog
        } else {
            StartStep::Bind
        }
    }

    /// The download folder could be opened.
    pub fn download_opened(&mut self)
        requires
            old(self).wf(),
        ensures
            final(self).wf(),
            *final(self) == (Engine {
                running: Running { download_open: true, ..old(self).running },
                ..*old(self)
            }),
    {
        self.running.download_open = true;
    }

    /// The access log could be opened.
    pub fn log_opened(&mut self)
        requires
            old(self).wf(),
        ensures
            final(self).wf(),
            final(self).access matches Some(rollup) && rollup@.len() == 0 && !rollup.has_changed(),
            *final(self) == (Engine { access: final(self).access, ..*old(self) }),
    {
        self.access = Some(RollUp::new());
    }

    /// The port could be bound. The engine has started.
    pub fn bound(&mut self, addr: Addr)
        requires
            old(self).wf(),
        ensures
            final(self).wf(),
            *final(self) == (Engine {
                running: Running { started: true, listen_addr: Some(addr), ..old(self).running },
                ..*old(self)
            }),
            final(self).running.started,
    {
        self.running.started = true;
        self.running.listen_addr = Some(addr);
    }

    /// The name this device is announced under from now on, or that it is
    /// not.
    pub fn set_advertised(&mut self, name: Option<String>)
        requires
            old(self).wf(),
        ensures
            final(self).wf(),
            *final(self) == (Engine {
                running: Running { advertised: name, ..old(self).running },
                ..*old(self)
            }),
    {
        self.running.advertised = name;
    }

    /// Starts an automatic copy to every reachable device that wants one.
    /// Returns the devices.
    pub fn run_for_every_reachable_enabled(&mut self) -> (keys: Vec<String>)
        requires
            old(self).wf(),
        ensures
            final(self).wf(),
            *final(self) == (Engine { copying: final(self).copying, ..*old(self) }),
            forall|k: Seq<char>| #[trigger]
                text_views(keys@).contains(k) <==> old(self).live@.contains_key(k) && old(
                    self,
                ).live@[k].reachable_via is Some && copy_starts(*old(self), k),
            forall|k: Seq<char>| #[trigger]
                final(self).copying@.contains_key(k) <==> old(self).copying@.contains_key(k)
                    || text_views(keys@).contains(k),
            text_views(keys@).no_duplicates(),
    {
        let reachable = self.live.reachable();
        let ghost all = text_views(reachable@);
        let ghost start = *self;
        let mut keys: Vec<String> = Vec::new();
        let mut i: usize = 0;
        while i < reachable.len()
            invariant
                self.wf(),
                i <= reachable@.len(),
                all == text_views(reachable@),
                *self == (Engine { copying: self.copying, ..start }),
                forall|k: Seq<char>| #[trigger]
                    text_views(keys@).contains(k) <==> all.take(i as int).contains(k)
                        && copy_starts(start, k),
                forall|k: Seq<char>| #[trigger]
                    self.copying@.contains_key(k) <==> start.copying@.contains_key(k)
                        || text_views(keys@).contains(k),
                text_views(keys@).no_duplicates(),
            decreases reachable@.len() - i,
        {
            let ghost here = all[i as int];
            let ghost before = text_views(keys@);
            let ghost was = *self;
            let starts = self.maybe_start_copy(reachable[i].as_str());
            if starts {
                assert(!before.contains(here));
                keys.push(copy_of(reachable[i].as_str()));
                assert(text_views(keys@) =~= before.push(here));
            }
            proof {
                assert(all.take(i + 1) =~= all.take(i as int).push(here));
                lemma_push_contains(all.take(i as int), here);
                lemma_push_contains(before, here);
            }
            i += 1;
        }
        assert(all.take(i as int) =~= all);
        keys
    }

    /// Begins to stop: nothing is served from here on, and nothing is
    /// announced. Says whether the engine was not stopping already.
    pub fn begin_stop(&mut self) -> (begun: bool)
        requires
            old(self).wf(),
        ensures
            final(self).wf(),
            begun == !old(self).running.stopped,
            !begun ==> *final(self) == *old(self),
            begun ==> {
                &&& *final(self) == (Engine {
                    running: Running {
                        stopped: true,
                        reachable: false,
                        advertised: None,
                        roots: None,
                        download_open: false,
                        ..old(self).running
                    },
                    live: final(self).live,
                    ..*old(self)
                })
                &&& final(self).live@ == old(self).live@.map_values(
                    |l: LiveView| LiveView { serving: Seq::empty(), ..l },
                )
            },
    {
        if self.running.stopped {
            return false;
        }
        self.running.stopped = true;
        self.running.reachable = false;
        self.running.advertised = None;
        self.running.roots = None;
        self.running.download_open = false;
        self.live.switch_off();
        true
    }

    /// Ends the stop, once every thread that could be waited for is done.
    /// After this the app is told nothing more.
    pub fn stop(&mut self) -> (stopped: Stopped)
        requires
            old(self).wf(),
        ensures
            final(self).wf(),
            match old(self).access {
                Some(rollup) => pending_views(stopped.finished@) == rollup@,
                None => stopped.finished@.len() == 0,
            },
            text_views(stopped.mounts@) == old(self).mounts.devices(),
            stopped.forwards == old(self).discovery.forwards,
            final(self).access is None,
            final(self).discovery.forwards@.len() == 0,
            final(self).pools@ == Map::<Seq<char>, Pool>::empty(),
            final(self).notify.is_closed(),
            final(self).notify.reports() == Seq::<ReportView>::empty(),
            final(self).notify.waiting() == old(self).notify.waiting(),
            *final(self) == (Engine {
                access: None,
                discovery: crate::engine::discovery::Discovery {
                    forwards: final(self).discovery.forwards,
                    ..old(self).discovery
                },
                pools: final(self).pools,
                notify: final(self).notify,
                ..*old(self)
            }),
    {
        let finished: Vec<Pending> = match self.access.take() {
            None => Vec::new(),
            Some(rollup) => {
                let mut rollup = rollup;
                rollup.finalize_all()
            },
        };
        let mounts = self.mounts.stop_all();
        let mut forwards: Vec<UsbForward> = Vec::new();
        std::mem::swap(&mut forwards, &mut self.discovery.forwards);
        self.pools.clear();
        self.notify.close();
        Stopped { finished, mounts, forwards }
    }

    /// A connection came from `remote`. Says whether it is let in, and takes
    /// its place where it is.
    pub fn accept(&mut self, remote: Addr) -> (accepted: bool)
        requires
            old(self).wf(),
        ensures
            final(self).wf(),
            *final(self) == (Engine { inbound: final(self).inbound, ..*old(self) }),
            accepted == (!old(self).running.stopped && welcome(
                old(self).running.reachable,
                old(self).presence_rule().advertise,
                pairs_inbound(old(self).pairing@),
                remote,
            ) && old(self).inbound.alive < MAX_INBOUND_CONNECTIONS),
            final(self).inbound == (if accepted {
                InboundSlots {
                    alive: (old(self).inbound.alive + 1) as u32,
                    accepted: ((old(self).inbound.accepted + 1) % 0x1_0000_0000_0000_0000) as u64,
                }
            } else {
                old(self).inbound
            }),
    {
        let present = self.presence().advertise;
        let yes = welcomes_inbound(
            self.running.reachable,
            present,
            self.pairing.accepts_inbound(),
            remote,
        );
        self.inbound.reserve(self.running.stopped, yes)
    }

    /// A device did something on a connection it is served on. Returns the
    /// entries of the access log that are final now.
    pub fn served(&mut self, connection: u64, fields: EntryFields, now_unix_secs: i64) -> (finished: Vec<
        Pending,
    >)
        requires
            old(self).wf(),
            connection < old(self).running.next_connection,
        ensures
            final(self).wf(),
            *final(self) == (Engine { access: final(self).access, ..*old(self) }),
            final(self).access is Some == old(self).access is Some,
            match old(self).access {
                None => finished@.len() == 0,
                Some(rollup) => pending_views(finished@) == only(
                    rollup@,
                    on_other_path(connection, fields@.path),
                ) && counted(
                    only(rollup@, not(on_other_path(connection, fields@.path))),
                    final(self).access->0@,
                    now_unix_secs,
                    connection,
                    fields@,
                ) && final(self).access->0.has_changed() == rollup.has_changed(),
            },
    {
        match self.access.take() {
            None => Vec::new(),
            Some(rollup) => {
                let mut rollup = rollup;
                let ghost before = rollup@;
                let ghost next = self.running.next_connection;
                let ghost left = only(before, not(on_other_path(connection, fields@.path)));
                let finished = rollup.touch(now_unix_secs, connection, fields);
                proof {
                    lemma_left_below(before, not(on_other_path(connection, fields@.path)), next);
                    lemma_counted_below(
                        left,
                        rollup@,
                        now_unix_secs,
                        connection,
                        fields@,
                        next,
                    );
                }
                self.access = Some(rollup);
                finished
            },
        }
    }

    /// Makes final every entry of the access log that was left alone, and
    /// returns them.
    pub fn access_tick(&mut self, now_unix_secs: i64) -> (finished: Vec<Pending>)
        requires
            old(self).wf(),
        ensures
            final(self).wf(),
            *final(self) == (Engine { access: final(self).access, ..*old(self) }),
            final(self).access is Some == old(self).access is Some,
            match old(self).access {
                None => finished@.len() == 0,
                Some(rollup) => pending_views(finished@) == only(rollup@, is_idle(now_unix_secs))
                    && final(self).access->0@ == only(rollup@, not(is_idle(now_unix_secs)))
                    && final(self).access->0.has_changed() == rollup.has_changed(),
            },
    {
        match self.access.take() {
            None => Vec::new(),
            Some(rollup) => {
                let mut rollup = rollup;
                let ghost before = rollup@;
                let finished = rollup.tick(now_unix_secs);
                proof {
                    lemma_left_below(
                        before,
                        not(is_idle(now_unix_secs)),
                        self.running.next_connection,
                    );
                }
                self.access = Some(rollup);
                finished
            },
        }
    }

    /// Entries of the access log were written. The app hears of it.
    pub fn access_written(&mut self)
        requires
            old(self).wf(),
        ensures
            final(self).wf(),
            *final(self) == (Engine { notify: final(self).notify, ..*old(self) }),
            final(self).notify.tells_as(old(self).notify),
            final(self).notify.waiting() == marked(old(self).notify.waiting(), Change::AccessLog),
    {
        self.notify.mark(Change::AccessLog);
    }

    /// A question to the access log. `None` while it is not open.
    pub fn access_log(&self, device_key_hex: Option<&str>, limit: u32) -> (query: Option<Query>)
        ensures
            query is Some == self.access is Some,
            query matches Some(q) ==> q.so_far().len() == 0 && q.of_device()
                == crate::text::optional(device_key_hex) && q.most() == (if limit
                < MAX_QUERY_LIMIT {
                limit as nat
            } else {
                MAX_QUERY_LIMIT as nat
            }),
    {
        if self.access.is_none() {
            return None;
        }
        Some(Query::new(device_key_hex, limit))
    }

    /// Reports what is held back, for the one that waits to. Once the engine
    /// is stopping, everything is reported and nobody waits any more, so that
    /// the last state reaches the app. Says whether the wait is over.
    pub fn notify_timer(&mut self, now: u64, now_unix_secs: i64) -> (ended: bool)
        requires
            old(self).wf(),
        ensures
            final(self).wf(),
            ended == old(self).running.stopped,
            *final(self) == (Engine {
                notify: final(self).notify,
                pairing: final(self).pairing,
                ..*old(self)
            }),
            final(self).notify.waiting() == (Outbox {
                timer: old(self).notify.waiting().timer && !ended,
                ..old(self).waiting_after(now, ended)
            }),
            final(self).notify.tells_more(
                old(self).notify,
                old(self).reports_at(now, now_unix_secs, ended),
            ),
            final(self).pairing@ == old(self).pairing_after(now, now_unix_secs, ended),
            ended ==> !final(self).notify.waiting().any_waiting(),
    {
        let stopping = self.running.stopped;
        let told = self.report_due(now, now_unix_secs, stopping);
        if stopping {
            self.notify.release_timer();
        }
        stopping
    }

    /// Takes a place among the transfers that are worked on.
    pub fn claim_worker(&mut self) -> (claimed: bool)
        requires
            old(self).wf(),
        ensures
            final(self).wf(),
            claimed == (!old(self).running.stopped && old(self).running.workers
                < MAX_TRANSFER_WORKERS),
            *final(self) == (Engine {
                running: Running {
                    workers: if claimed {
                        (old(self).running.workers + 1) as u64
                    } else {
                        old(self).running.workers
                    },
                    ..old(self).running
                },
                ..*old(self)
            }),
    {
        if self.running.stopped || self.running.workers >= MAX_TRANSFER_WORKERS {
            return false;
        }
        self.running.workers = self.running.workers + 1;
        true
    }

    /// Gives a place back.
    pub fn worker_ended(&mut self)
        requires
            old(self).wf(),
            old(self).running.workers > 0,
        ensures
            final(self).wf(),
            *final(self) == (Engine {
                running: Running {
                    workers: (old(self).running.workers - 1) as u64,
                    ..old(self).running
                },
                ..*old(self)
            }),
    {
        self.running.workers = self.running.workers - 1;
    }

    /// Bytes moved on the wire.
    pub fn count_wire_bytes(&mut self, bytes: u64)
        requires
            old(self).wf(),
        ensures
            final(self).wf(),
            *final(self) == (Engine {
                running: Running {
                    wire_bytes: ((old(self).running.wire_bytes + bytes)
                        % 0x1_0000_0000_0000_0000) as u64,
                    ..old(self).running
                },
                ..*old(self)
            }),
    {
        self.running.wire_bytes = self.running.wire_bytes.wrapping_add(bytes);
    }
}

/// Entries that are left belong to the connections they belonged to.
proof fn lemma_left_below(
    pending: Seq<PendingView>,
    test: spec_fn(PendingView) -> bool,
    next: u64,
)
    requires
        connections_below(pending, next),
    ensures
        connections_below(only(pending, test), next),
{
    crate::seqs::lemma_only(pending, test);
    let left = only(pending, test);
    assert forall|i: int| 0 <= i < left.len() implies (#[trigger] left[i]).connection < next by {
        assert(pending.contains(left[i]));
    }
}

proof fn lemma_counted_below(
    before: Seq<PendingView>,
    after: Seq<PendingView>,
    now: i64,
    connection: u64,
    fields: crate::access::codec::FieldsView,
    next: u64,
)
    requires
        connections_below(before, next),
        connection < next,
        counted(before, after, now, connection, fields),
    ensures
        connections_below(after, next),
{
}

/// Once the engine stops, no connection answers any device, none is let in,
/// and none is announced.
pub proof fn lemma_stopped_serves_nobody<L: EngineListener>(engine: Engine<L>, key: Seq<char>, connection: u64)
    requires
        engine.running.stopped,
    ensures
        !engine.presence_rule().advertise,
        !engine.presence_rule().browse,
        !crate::engine::live::answers(
            crate::engine::live::live_of(
                engine.live@.map_values(
                    |l: LiveView| LiveView { serving: Seq::empty(), ..l },
                ),
                key,
            ),
            connection,
        ),
{
}

/// A connection is taken only while the engine runs, there is room, and either
/// this device is to be found here, someone pairs, or it comes over the cable
/// to a device that may be reached.
pub proof fn lemma_who_is_let_in<L: EngineListener>(
    engine: &mut Engine<L>,
    remote: Addr,
    accepted: bool,
)
    requires
        call_ensures(Engine::<L>::accept, (engine, remote), accepted),
    ensures
        old(engine).running.stopped ==> !accepted,
        old(engine).inbound.alive >= MAX_INBOUND_CONNECTIONS ==> !accepted,
        !old(engine).running.reachable && !pairs_inbound(old(engine).pairing@) ==> !accepted,
        accepted ==> final(engine).inbound.alive == old(engine).inbound.alive + 1,
        !accepted ==> final(engine).inbound.alive == old(engine).inbound.alive,
        !old(engine).running.stopped && old(engine).inbound.alive < MAX_INBOUND_CONNECTIONS
            && pairs_inbound(old(engine).pairing@) ==> accepted,
        !old(engine).running.stopped && old(engine).inbound.alive < MAX_INBOUND_CONNECTIONS && old(
            engine).running.reachable && crate::engine::addr::loopback(remote.host) ==> accepted,
{
}

/// A stop is begun once, and from then on nobody is served, this device is not
/// announced, and what it shared is closed.
pub proof fn lemma_stop_closes_everything<L: EngineListener>(
    engine: &mut Engine<L>,
    begun: bool,
    key: Seq<char>,
    connection: u64,
)
    requires
        call_ensures(Engine::<L>::begin_stop, (engine,), begun),
        begun,
    ensures
        !old(engine).running.stopped,
        final(engine).running.stopped,
        !final(engine).running.reachable,
        final(engine).running.roots is None,
        final(engine).running.advertised is None,
        !crate::engine::live::answers(
            crate::engine::live::live_of(final(engine).live@, key),
            connection,
        ),
{
}

/// An engine that starts opens its roots, its downloads and its log in turn,
/// and listens only then.
pub proof fn lemma_everything_is_open_before_it_listens<L: EngineListener>(
    engine: &Engine<L>,
    step: StartStep,
)
    requires
        call_ensures(Engine::<L>::start, (engine,), step),
    ensures
        step == StartStep::Bind <==> !engine.running.started && engine.running.roots is Some
            && engine.running.download_open && engine.access is Some,
        step == StartStep::Started <==> engine.running.started,
{
}

/// What is open when the engine stops is handed over to be closed: each entry
/// not written yet, each mount and each forward; and nobody is told anything
/// any more.
pub proof fn lemma_stop_leaves_nothing_open<L: EngineListener>(
    engine: &mut Engine<L>,
    stopped: Stopped,
    key: Seq<char>,
)
    requires
        old(engine).wf(),
        call_ensures(Engine::<L>::stop, (engine,), stopped),
    ensures
        old(engine).access matches Some(rollup) ==> stopped.finished@.len() == rollup@.len() && (
        forall|i: int|
            0 <= i < rollup@.len() ==> (#[trigger] stopped.finished@[i])@ == rollup@[i]),
        old(engine).mounts.running().contains_key(key) ==> text_views(stopped.mounts@).contains(
            key,
        ),
        stopped.forwards@ == old(engine).discovery.forwards@,
        final(engine).access is None,
        final(engine).discovery.forwards@.len() == 0,
        final(engine).notify.is_closed(),
{
    if let Some(rollup) = old(engine).access {
        let views = pending_views(stopped.finished@);
        assert(views.len() == stopped.finished@.len());
        assert forall|i: int| 0 <= i < rollup@.len() implies (#[trigger] stopped.finished@[i])@
            == rollup@[i] by {
            assert(views[i] == stopped.finished@[i]@);
        }
    }
    old(engine).mounts.mounts.lemma_view();
}

/// As many transfers run as workers were claimed and did not end, and never
/// more than there may be.
pub proof fn lemma_workers_are_counted<L: EngineListener>(
    engine: &mut Engine<L>,
    claimed: bool,
    then: &mut Engine<L>,
)
    requires
        call_ensures(Engine::<L>::claim_worker, (engine,), claimed),
        claimed,
        old(then).running == final(engine).running,
        call_ensures(Engine::<L>::worker_ended, (then,), ()),
    ensures
        !old(engine).running.stopped,
        final(engine).running.workers == old(engine).running.workers + 1,
        final(engine).running.workers <= MAX_TRANSFER_WORKERS,
        final(then).running.workers == old(engine).running.workers,
{
}

/// What a device reads here is counted in its own entry, and an entry is
/// finished once nothing touched it for a while, and not before.
pub proof fn lemma_idle_entries_are_finished<L: EngineListener>(
    engine: &mut Engine<L>,
    now: i64,
    finished: Vec<Pending>,
    entry: crate::access::rollup::PendingView,
)
    requires
        call_ensures(Engine::<L>::access_tick, (engine, now), finished),
        old(engine).access is Some,
        old(engine).access->0@.contains(entry),
    ensures
        now - entry.last_touch >= crate::access::rollup::IDLE_SECS ==> pending_views(finished@).contains(entry),
        now - entry.last_touch < crate::access::rollup::IDLE_SECS ==> final(engine).access->0@.contains(entry),
{
    let all = old(engine).access->0@;
    crate::seqs::lemma_only(all, is_idle(now));
    crate::seqs::lemma_only(all, not(is_idle(now)));
    let i = choose|i: int| 0 <= i < all.len() && all[i] == entry;
    if now - entry.last_touch >= crate::access::rollup::IDLE_SECS {
        assert(is_idle(now)(all[i]));
    } else {
        assert(not(is_idle(now))(all[i]));
    }
}

} // verus!
