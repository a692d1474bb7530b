//! The paired devices: what the app shows of them, forgetting one, serving
//! one, and the bridge and the automatic copy of each.

use crate::access::rollup::{is_of, not, pending_views, Pending};
use crate::auto_copy::{may_run, AutoCopyRow};
use crate::core_errors::PeerError;
use crate::dav::mounts::{endpoint_on, endpoint_view, Mount, MountRegistry, Start};
use crate::engine::addr::Addr;
use crate::engine::live::{
    has_serving_room, live_of, reached, served_no_more, serving_on, shows_device, DeviceLive,
    LiveView, Switch,
};
use crate::engine::state::{marked, Engine, Running};
use crate::errors::{failed, from_peer, is_failed, is_failed_with, peer_code};
use crate::notify::Change;
use crate::peers::{is_paired, peer_of, Peer, PeerView, Peers};
use crate::pool::Pool;
use crate::seqs::only;
use crate::text::{copy_of, copy_opt, hex_of, hex_text, opt_view, same_text, text_views};
use crate::transfers::{
    batch_with_device, members, with_device, worst_state, BatchRow, TransferRow,
};
use crate::types::{
    AutoCopy, DeviceInfo, EngineListener, FerryError, MountEndpoint, Origin, TransferState,
    Transport,
};
use vstd::prelude::*;

verus! {

/// The paired devices without one.
pub open spec fn without(peers: Seq<PeerView>, key_hex: Seq<char>) -> Seq<PeerView> {
    only(peers, |p: PeerView| hex_of(p.key) != key_hex)
}

/// What has to be closed and written so that a device can be forgotten.
pub struct Forgetting {
    /// The list of paired devices to write.
    pub peers: Peers,
    /// The bridge that has to stop.
    pub mount: Option<Mount>,
    /// The pool whose connections have to close.
    pub pool: Option<Pool>,
}

/// The records that have to go with a device.
pub struct Gone {
    pub transfers: Vec<String>,
    pub batches: Vec<String>,
}

/// What became of a file that had to go.
#[derive(Debug, Clone, Copy, PartialEq, Eq, Structural)]
pub enum Removal {
    Removed,
    /// It was gone already, which is what was asked for.
    Missing,
    Refused,
}

/// Whether a record is gone. One that stays behind would bring its transfer
/// back on the next run.
pub fn record_removed(removal: Removal) -> (removed: Result<(), FerryError>)
    ensures
        match removed {
            Ok(_) => removal != Removal::Refused,
            Err(e) => removal == Removal::Refused && is_failed(e, "TransferError::Local"@),
        },
{
    match removal {
        Removal::Refused => Err(failed("TransferError::Local")),
        _ => Ok(()),
    }
}

/// What a connection that was accepted comes to once the names have crossed.
pub enum Serve {
    /// The device was forgotten meanwhile. Nothing is served.
    Forgotten,
    /// No root is open. Nothing is served.
    NoRoots(Named),
    /// The connection is served.
    Serve(Named),
}

/// What follows from a device's name, and from its being reached.
pub struct Named {
    /// The list of paired devices to write, where the device has a new name.
    pub renamed: Option<Peers>,
    /// An automatic copy has to start.
    pub copy: bool,
}

/// An automatic copy to this device is moving files.
pub open spec fn moves_files(
    batches: Map<Seq<char>, BatchRow>,
    rows: Map<Seq<char>, TransferRow>,
    device: Seq<char>,
    id: Seq<char>,
) -> bool {
    &&& batches.contains_key(id)
    &&& batches[id].origin == Origin::Automatic
    &&& batches[id].device_key_hex@ == device
    &&& ({
        let state = worst_state(members(text_views(batches[id].transfer_ids@), rows));
        state != TransferState::Done && state != TransferState::Failed
    })
}

/// An automatic copy to a device starts: its switch is on, none is on its
/// way, and the engine is not stopping.
pub open spec fn copy_starts<L: EngineListener>(engine: Engine<L>, key: Seq<char>) -> bool {
    !engine.running.stopped && engine.auto_copy@.contains_key(key) && engine.auto_copy@[key].enabled
        && !engine.copying@.contains_key(key)
}

impl<L: EngineListener> Engine<L> {
    /// Every paired device, with what is known of it right now.
    pub fn devices(&self, now_unix_secs: i64) -> (infos: Vec<DeviceInfo>)
        requires
            self.wf(),
        ensures
            infos@.len() == self.peers@.len(),
            forall|i: int|
                0 <= i < infos@.len() ==> shows_device(
                    #[trigger] infos@[i],
                    self.peers@[i],
                    live_of(self.live@, hex_of(self.peers@[i].key)),
                    now_unix_secs,
                ),
    {
        let mut infos: Vec<DeviceInfo> = Vec::new();
        let mut i: usize = 0;
        while i < self.peers.len()
            invariant
                self.wf(),
                i <= self.peers@.len(),
                infos@.len() == i,
                forall|j: int|
                    0 <= j < i ==> shows_device(
                        #[trigger] infos@[j],
                        self.peers@[j],
                        live_of(self.live@, hex_of(self.peers@[j].key)),
                        now_unix_secs,
                    ),
            decreases self.peers@.len() - i,
        {
            let info = self.device_of(self.peers.at(i), now_unix_secs);
            infos.push(info);
            i += 1;
        }
        infos
    }

    fn device_of(&self, peer: &Peer, now_unix_secs: i64) -> (info: DeviceInfo)
        requires
            self.wf(),
        ensures
            shows_device(info, peer@, live_of(self.live@, hex_of(peer@.key)), now_unix_secs),
    {
        let key_hex = hex_text(peer.key.as_slice());
        match self.live.get(key_hex.as_str()) {
            Some(live) => live.info(peer, now_unix_secs),
            None => DeviceLive::unknown().info(peer, now_unix_secs),
        }
    }

    /// One paired device.
    pub fn device(&self, key_hex: &str, now_unix_secs: i64) -> (info: Option<DeviceInfo>)
        requires
            self.wf(),
        ensures
            match info {
                Some(d) => is_paired(self.peers@, key_hex@) && shows_device(
                    d,
                    peer_of(self.peers@, key_hex@),
                    live_of(self.live@, key_hex@),
                    now_unix_secs,
                ),
                None => !is_paired(self.peers@, key_hex@),
            },
    {
        match self.peers.get(key_hex) {
            None => None,
            Some(peer) => Some(self.device_of(peer, now_unix_secs)),
        }
    }

    /// Begins to forget a device: its bridge stops and its pool closes. The
    /// list without it has to be written.
    pub fn forget(&mut self, key_hex: &str) -> (forgetting: Result<Forgetting, FerryError>)
        requires
            old(self).wf(),
        ensures
            final(self).wf(),
            match forgetting {
                Ok(f) => {
                    &&& is_paired(old(self).peers@, key_hex@)
                    &&& f.peers.wf()
                    &&& f.peers@ == without(old(self).peers@, key_hex@)
                    &&& *final(self) == (Engine {
                        mounts: final(self).mounts,
                        pools: final(self).pools,
                        ..*old(self)
                    })
                    &&& final(self).mounts.running() == old(self).mounts.running().remove(key_hex@)
                    &&& final(self).mounts.in_flight() == old(self).mounts.in_flight()
                    &&& final(self).mounts.spool_bytes == old(self).mounts.spool_bytes
                    &&& final(self).pools@ == old(self).pools@.remove(key_hex@)
                    &&& f.mount == (if old(self).mounts.running().contains_key(key_hex@) {
                        Some(old(self).mounts.running()[key_hex@])
                    } else {
                        None
                    })
                    &&& f.pool == (if old(self).pools@.contains_key(key_hex@) {
                        Some(old(self).pools@[key_hex@])
                    } else {
                        None
                    })
                },
                Err(e) => !is_paired(old(self).peers@, key_hex@) && *final(self) == *old(self)
                    && is_failed(e, "Runtime::NotPaired"@),
            },
    {
        if !self.peers.contains(key_hex) {
            return Err(failed("Runtime::NotPaired"));
        }
        let mut peers = self.peers.copy();
        let removed = peers.remove(key_hex);
        let mount = self.mounts.stop(key_hex);
        let pool = self.pools.remove(key_hex);
        Ok(Forgetting { peers, mount, pool })
    }

    /// The list without a device was written, or was not. Where it was, the
    /// device is gone, with every switch, every transfer and every batch of
    /// it. Returns the records that have to go.
    pub fn forgotten(&mut self, key_hex: &str, written: Result<(), PeerError>) -> (gone: Result<
        Gone,
        FerryError,
    >)
        requires
            old(self).wf(),
        ensures
            final(self).wf(),
            match gone {
                Ok(g) => {
                    &&& written is Ok
                    &&& final(self).peers@ == without(old(self).peers@, key_hex@)
                    &&& !is_paired(final(self).peers@, key_hex@)
                    &&& final(self).live@ == old(self).live@.remove(key_hex@)
                    &&& text_views(g.transfers@) == only(
                        old(self).transfers.rows.spec_keys(),
                        with_device(old(self).transfers.rows@, key_hex@),
                    )
                    &&& text_views(g.batches@) == only(
                        old(self).transfers.batches.spec_keys(),
                        batch_with_device(old(self).transfers.batches@, key_hex@),
                    )
                    &&& final(self).transfers.rows@ == old(self).transfers.rows@.remove_keys(
                        text_views(g.transfers@).to_set(),
                    )
                    &&& final(self).transfers.batches@ == old(self).transfers.batches@.remove_keys(
                        text_views(g.batches@).to_set(),
                    )
                    &&& *final(self) == (Engine {
                        peers: final(self).peers,
                        live: final(self).live,
                        transfers: final(self).transfers,
                        notify: final(self).notify,
                        ..*old(self)
                    })
                    &&& final(self).notify.waiting() == marked(
                        marked(old(self).notify.waiting(), Change::Devices),
                        Change::Transfers,
                    )
                    &&& final(self).notify.tells_as(old(self).notify)
                },
                Err(e) => *final(self) == *old(self) && (written matches Err(problem) && is_failed(
                    e,
                    peer_code(problem),
                )),
            },
    {
        match written {
            Err(problem) => {
                return Err(from_peer(&problem));
            },
            Ok(_) => {},
        }
        let removed = self.peers.remove(key_hex);
        proof {
            crate::peers::lemma_removed_is_not_paired(old(self).peers@, key_hex@, key_hex@);
        }
        self.live.forget(key_hex);
        let (transfers, batches) = self.transfers.forget(key_hex);
        self.notify.mark(Change::Devices);
        self.notify.mark(Change::Transfers);
        Ok(Gone { transfers, batches })
    }

    /// Changes the list of paired devices, once it could be written.
    pub fn peers_saved(&mut self, peers: Peers, written: Result<(), PeerError>) -> (saved: Result<
        (),
        FerryError,
    >)
        requires
            old(self).wf(),
            peers.wf(),
        ensures
            final(self).wf(),
            match saved {
                Ok(_) => written is Ok && *final(self) == (Engine { peers, ..*old(self) }),
                Err(e) => *final(self) == *old(self) && (written matches Err(problem) && is_failed(
                    e,
                    peer_code(problem),
                )),
            },
    {
        match written {
            Err(problem) => Err(from_peer(&problem)),
            Ok(_) => {
                self.peers = peers;
                Ok(())
            },
        }
    }

    /// Starts an automatic copy to a device where it may start. One runs for
    /// a device at a time.
    pub fn maybe_start_copy(&mut self, key_hex: &str) -> (starts: bool)
        requires
            old(self).wf(),
        ensures
            final(self).wf(),
            starts == copy_starts(*old(self), key_hex@),
            *final(self) == (Engine { copying: final(self).copying, ..*old(self) }),
            final(self).copying@ == (if starts {
                old(self).copying@.insert(key_hex@, ())
            } else {
                old(self).copying@
            }),
    {
        let row = self.auto_copy.get(key_hex);
        let in_flight = self.copying.contains(key_hex);
        if !may_run(self.running.stopped, row, in_flight) {
            return false;
        }
        self.copying.insert(key_hex, ());
        true
    }

    /// An automatic copy to a device is no longer on its way.
    pub fn copy_ended(&mut self, key_hex: &str)
        requires
            old(self).wf(),
        ensures
            final(self).wf(),
            *final(self) == (Engine { copying: final(self).copying, ..*old(self) }),
            final(self).copying@ == old(self).copying@.remove(key_hex@),
    {
        let was = self.copying.remove(key_hex);
    }

    /// Writes down that a device was reached, and how. Says whether an
    /// automatic copy has to start: it does when the device was not reachable
    /// before.
    pub fn mark_reachable(
        &mut self,
        key_hex: &str,
        addr: Addr,
        via: Transport,
        now_unix_secs: i64,
    ) -> (copy: bool)
        requires
            old(self).wf(),
        ensures
            final(self).wf(),
            *final(self) == (Engine {
                live: final(self).live,
                copying: final(self).copying,
                ..*old(self)
            }),
            final(self).live@ == old(self).live@.insert(
                key_hex@,
                reached(live_of(old(self).live@, key_hex@), addr, via, now_unix_secs),
            ),
            copy == (live_of(old(self).live@, key_hex@).reachable_via is None && copy_starts(
                *old(self),
                key_hex@,
            )),
            final(self).copying@ == (if copy {
                old(self).copying@.insert(key_hex@, ())
            } else {
                old(self).copying@
            }),
    {
        let became = self.live.mark_reachable(key_hex, addr, via, now_unix_secs);
        if !became {
            return false;
        }
        self.maybe_start_copy(key_hex)
    }

    /// Files the switch of a connection, as soon as the handshake has proved
    /// who is calling. `capped` refuses one more than a device may hold.
    /// Returns the connection's id.
    pub fn register_serving(&mut self, key_hex: &str, addr: Addr, capped: bool) -> (connection: Option<
        u64,
    >)
        requires
            old(self).wf(),
            old(self).has_ids(),
        ensures
            final(self).wf(),
            match connection {
                None => capped && !has_serving_room(old(self).live@, key_hex@) && *final(self)
                    == *old(self),
                Some(id) => {
                    &&& !capped || has_serving_room(old(self).live@, key_hex@)
                    &&& id == old(self).running.next_connection
                    &&& *final(self) == (Engine {
                        live: final(self).live,
                        running: Running {
                            next_connection: (old(self).running.next_connection + 1) as u64,
                            ..old(self).running
                        },
                        ..*old(self)
                    })
                    &&& final(self).live@ == old(self).live@.insert(
                        key_hex@,
                        serving_on(
                            live_of(old(self).live@, key_hex@),
                            addr,
                            Switch { connection: id, on: !old(self).running.stopped },
                        ),
                    )
                },
            },
    {
        let id = self.running.next_connection;
        let stopped = self.running.stopped;
        let before = if capped {
            match self.live.get(key_hex) {
                Some(live) => live.serving.len() >= crate::limits::MAX_SERVING_PER_PEER,
                None => false,
            }
        } else {
            false
        };
        if before {
            return None;
        }
        let registered = self.live.register_serving(key_hex, addr, id, capped, stopped);
        self.running.next_connection = id + 1;
        Some(id)
    }

    /// The names have crossed on a connection whose switch is filed. The
    /// device may have been forgotten in the moment before that, so the list
    /// is asked once more.
    pub fn serve_named(
        &mut self,
        key_hex: &str,
        connection: u64,
        name: String,
        addr: Addr,
        via: Transport,
        now_unix_secs: i64,
    ) -> (serve: Serve)
        requires
            old(self).wf(),
        ensures
            final(self).wf(),
            ({
                let paired = is_paired(old(self).peers@, key_hex@);
                let stored = peer_of(old(self).peers@, key_hex@);
                let met = reached(live_of(old(self).live@, key_hex@), addr, via, now_unix_secs);
                match serve {
                    Serve::Forgotten => {
                        &&& !paired
                        &&& *final(self) == (Engine { live: final(self).live, ..*old(self) })
                        &&& final(self).live@ == old(self).live@.insert(
                            key_hex@,
                            served_no_more(
                                live_of(old(self).live@, key_hex@),
                                connection,
                                now_unix_secs,
                            ),
                        )
                    },
                    Serve::NoRoots(named) => {
                        &&& paired
                        &&& old(self).running.roots is None
                        &&& follows(*old(self), *final(self), named, stored, name@, key_hex@)
                        &&& final(self).live@ == old(self).live@.insert(
                            key_hex@,
                            served_no_more(met, connection, now_unix_secs),
                        )
                    },
                    Serve::Serve(named) => {
                        &&& paired
                        &&& old(self).running.roots is Some
                        &&& follows(*old(self), *final(self), named, stored, name@, key_hex@)
                        &&& final(self).live@ == old(self).live@.insert(key_hex@, met)
                    },
                }
            }),
    {
        let renamed: Option<Peers> = match self.peers.get(key_hex) {
            None => {
                self.live.release_serving(key_hex, connection, now_unix_secs);
                return Serve::Forgotten;
            },
            Some(stored) => {
                if same_text(stored.name.as_str(), name.as_str()) {
                    None
                } else {
                    let peer = Peer {
                        key: stored.key,
                        name,
                        paired_unix_secs: stored.paired_unix_secs,
                        kind: stored.kind,
                    };
                    let mut peers = self.peers.copy();
                    match peers.add(peer) {
                        Ok(_) => Some(peers),
                        Err(_) => None,
                    }
                }
            },
        };
        let copy = self.mark_reachable(key_hex, addr, via, now_unix_secs);
        self.notify.mark(Change::Devices);
        let named = Named { renamed, copy };
        if self.running.roots.is_none() {
            self.live.release_serving(key_hex, connection, now_unix_secs);
            assert(self.live@ =~= old(self).live@.insert(
                key_hex@,
                served_no_more(
                    reached(live_of(old(self).live@, key_hex@), addr, via, now_unix_secs),
                    connection,
                    now_unix_secs,
                ),
            ));
            return Serve::NoRoots(named);
        }
        Serve::Serve(named)
    }

    /// A connection that was served has ended. Returns the entries of the
    /// access log that are final now.
    pub fn serving_ended(&mut self, key_hex: &str, connection: u64, now_unix_secs: i64) -> (finished:
        Vec<Pending>)
        requires
            old(self).wf(),
        ensures
            final(self).wf(),
            *final(self) == (Engine {
                live: final(self).live,
                access: final(self).access,
                notify: final(self).notify,
                ..*old(self)
            }),
            final(self).live@ == old(self).live@.insert(
                key_hex@,
                served_no_more(live_of(old(self).live@, key_hex@), connection, now_unix_secs),
            ),
            final(self).access is Some == old(self).access is Some,
            match old(self).access {
                None => finished@.len() == 0,
                Some(rollup) => pending_views(finished@) == only(rollup@, is_of(connection))
                    && final(self).access->0@ == only(rollup@, not(is_of(connection)))
                    && final(self).access->0.has_changed() == rollup.has_changed(),
            },
            final(self).notify.waiting() == marked(old(self).notify.waiting(), Change::Devices),
            final(self).notify.tells_as(old(self).notify),
    {
        let finished: Vec<Pending> = match self.access.take() {
            None => Vec::new(),
            Some(rollup) => {
                let mut rollup = rollup;
                let ghost before = rollup@;
                let finished = rollup.connection_ended(connection);
                proof {
                    crate::seqs::lemma_only(before, not(is_of(connection)));
                    let next = self.running.next_connection;
                    assert forall|i: int| 0 <= i < rollup@.len() implies (
                    #[trigger] rollup@[i]).connection < next by {
                        assert(before.contains(rollup@[i]));
                    }
                }
                self.access = Some(rollup);
                finished
            },
        };
        self.live.release_serving(key_hex, connection, now_unix_secs);
        self.notify.mark(Change::Devices);
        finished
    }

    /// Records where the app mounted a device's bridge, or that it did not.
    pub fn set_mount_path(&mut self, key_hex: &str, path: Option<String>) -> (set: Result<
        (),
        FerryError,
    >)
        requires
            old(self).wf(),
        ensures
            final(self).wf(),
            match set {
                Ok(_) => {
                    &&& is_paired(old(self).peers@, key_hex@)
                    &&& *final(self) == (Engine {
                        live: final(self).live,
                        notify: final(self).notify,
                        ..*old(self)
                    })
                    &&& final(self).live@ == old(self).live@.insert(
                        key_hex@,
                        (LiveView {
                            mount_path: opt_view(path),
                            ..live_of(old(self).live@, key_hex@)
                        }),
                    )
                    &&& final(self).notify.waiting() == marked(
                        old(self).notify.waiting(),
                        Change::Devices,
                    )
                    &&& final(self).notify.tells_as(old(self).notify)
                },
                Err(e) => !is_paired(old(self).peers@, key_hex@) && *final(self) == *old(self)
                    && is_failed(e, "Runtime::NotPaired"@),
            },
    {
        if !self.peers.contains(key_hex) {
            return Err(failed("Runtime::NotPaired"));
        }
        self.live.set_mount_path(key_hex, path);
        self.notify.mark(Change::Devices);
        Ok(())
    }

    /// Starts a device's bridge. A second start gives the bridge that runs;
    /// one that comes while a first is on its way waits for it. The name is
    /// the device's own, which the bridge's root carries.
    pub fn mount_start(&mut self, key_hex: &str) -> (start: Result<(Start, String), FerryError>)
        requires
            old(self).wf(),
        ensures
            final(self).wf(),
            *final(self) == (Engine { mounts: final(self).mounts, ..*old(self) }),
            final(self).mounts.running() == old(self).mounts.running(),
            final(self).mounts.spool_bytes == old(self).mounts.spool_bytes,
            match start {
                Err(e) => final(self).mounts.in_flight() == old(self).mounts.in_flight() && (
                if !is_paired(old(self).peers@, key_hex@) {
                    is_failed(e, "Runtime::NotPaired"@)
                } else {
                    old(self).running.stopped && !old(self).mounts.running().contains_key(key_hex@)
                        && !old(self).mounts.in_flight().contains(key_hex@) && is_failed(
                        e,
                        "Runtime::NotReachable"@,
                    )
                }),
                Ok((start, name)) => {
                    &&& is_paired(old(self).peers@, key_hex@)
                    &&& name@ == peer_of(old(self).peers@, key_hex@).name
                    &&& if old(self).mounts.running().contains_key(key_hex@) {
                        (start matches Start::Running(e) && endpoint_view(e) == endpoint_view(
                            old(self).mounts.running()[key_hex@].endpoint,
                        )) && final(self).mounts.in_flight() == old(self).mounts.in_flight()
                    } else if old(self).mounts.in_flight().contains(key_hex@) {
                        start == Start::Wait && final(self).mounts.in_flight() == old(
                            self,
                        ).mounts.in_flight()
                    } else {
                        !old(self).running.stopped && start == Start::Begin
                            && final(self).mounts.in_flight() == old(
                            self,
                        ).mounts.in_flight().insert(key_hex@)
                    }
                },
            },
    {
        let name = match self.peers.get(key_hex) {
            None => {
                return Err(failed("Runtime::NotPaired"));
            },
            Some(peer) => copy_of(peer.name.as_str()),
        };
        let start = self.mounts.start(key_hex);
        match start {
            Start::Begin => match MountRegistry::may_begin(self.running.stopped) {
                Err(e) => {
                    let refused = self.mounts.finish_start(key_hex, Err(e), true);
                    assert(self.mounts.in_flight() =~= old(self).mounts.in_flight());
                    match refused {
                        Err(e) => Err(e),
                        Ok(_) => Ok((Start::Begin, name)),
                    }
                },
                Ok(_) => Ok((Start::Begin, name)),
            },
            other => Ok((other, name)),
        }
    }

    /// The port of a bridge that was to start was bound, or was not. The
    /// password is made here.
    pub fn mount_bound(&mut self, key_hex: &str, port: Result<u16, String>) -> (endpoint: Result<
        MountEndpoint,
        FerryError,
    >)
        requires
            old(self).wf(),
        ensures
            final(self).wf(),
            *final(self) == (Engine { mounts: final(self).mounts, ..*old(self) }),
            final(self).mounts.in_flight() == old(self).mounts.in_flight().remove(key_hex@),
            final(self).mounts.spool_bytes == old(self).mounts.spool_bytes,
            match endpoint {
                Ok(e) => {
                    &&& is_paired(old(self).peers@, key_hex@)
                    &&& !old(self).running.stopped
                    &&& port is Ok
                    &&& final(self).mounts.running().contains_key(key_hex@)
                    &&& endpoint_view(final(self).mounts.running()[key_hex@].endpoint)
                        == endpoint_view(e)
                    &&& final(self).mounts.running() == old(self).mounts.running().insert(
                        key_hex@,
                        final(self).mounts.running()[key_hex@],
                    )
                    &&& exists|random: Seq<u8>|
                        random.len() == 16 && endpoint_view(e) == endpoint_on(
                            port->Ok_0,
                            #[trigger] hex_of(random),
                        )
                },
                Err(e) => final(self).mounts.running() == old(self).mounts.running() && (match port {
                    Err(reason) => is_failed_with(e, "Runtime::MountFailed"@, reason@),
                    Ok(_) => is_failed_with(
                        e,
                        "Runtime::MountFailed"@,
                        "no randomness was available"@,
                    ) || (!is_paired(old(self).peers@, key_hex@) && is_failed(
                        e,
                        "Runtime::NotPaired"@,
                    )) || (old(self).running.stopped && is_failed(e, "Runtime::NotReachable"@)),
                }),
            },
    {
        let made = MountRegistry::make_mount(port, &self.peers, key_hex);
        self.mounts.finish_start(key_hex, made, self.running.stopped)
    }

    /// Stops a device's bridge, where it has one.
    pub fn mount_stop(&mut self, key_hex: &str) -> (mount: Option<Mount>)
        requires
            old(self).wf(),
        ensures
            final(self).wf(),
            *final(self) == (Engine { mounts: final(self).mounts, ..*old(self) }),
            final(self).mounts.running() == old(self).mounts.running().remove(key_hex@),
            final(self).mounts.in_flight() == old(self).mounts.in_flight(),
            final(self).mounts.spool_bytes == old(self).mounts.spool_bytes,
            mount == (if old(self).mounts.running().contains_key(key_hex@) {
                Some(old(self).mounts.running()[key_hex@])
            } else {
                None
            }),
    {
        self.mounts.stop(key_hex)
    }

    /// Whether an automatic copy to a device is moving files.
    pub fn is_copying(&self, key_hex: &str) -> (moving: bool)
        requires
            self.wf(),
        ensures
            moving == exists|id: Seq<char>| #[trigger]
                moves_files(self.transfers.batches@, self.transfers.rows@, key_hex@, id),
    {
        proof {
            self.transfers.batches.lemma_view();
        }
        let ghost keys = self.transfers.batches.spec_keys();
        let mut i: usize = 0;
        while i < self.transfers.batches.len()
            invariant
                self.wf(),
                keys == self.transfers.batches.spec_keys(),
                i <= keys.len(),
                forall|j: int|
                    0 <= j < i ==> !moves_files(
                        self.transfers.batches@,
                        self.transfers.rows@,
                        key_hex@,
                        #[trigger] keys[j],
                    ),
            decreases keys.len() - i,
        {
            let batch = self.transfers.batches.value_at(i);
            let info = batch.info(&self.transfers.rows);
            if batch.origin == Origin::Automatic && same_text(
                batch.device_key_hex.as_str(),
                key_hex,
            ) && info.state != TransferState::Done && info.state != TransferState::Failed {
                assert(moves_files(
                    self.transfers.batches@,
                    self.transfers.rows@,
                    key_hex@,
                    keys[i as int],
                ));
                return true;
            }
            i += 1;
        }
        assert forall|id: Seq<char>| !#[trigger]
            moves_files(self.transfers.batches@, self.transfers.rows@, key_hex@, id) by {
            if self.transfers.batches@.contains_key(id) {
                self.transfers.batches.lemma_view();
                assert(keys.contains(id));
                let j = choose|j: int| 0 <= j < keys.len() && keys[j] == id;
                assert(!moves_files(
                    self.transfers.batches@,
                    self.transfers.rows@,
                    key_hex@,
                    keys[j],
                ));
            }
        }
        false
    }

    /// Whether a device's camera folder is copied on its own, and what the
    /// last copy did. Always answers.
    pub fn auto_copy(&self, key_hex: &str) -> (shown: AutoCopy)
        requires
            self.wf(),
        ensures
            shown.device_key_hex@ == key_hex@,
            shown.enabled == self.auto_copy.row(key_hex@).enabled,
            shown.source@ == (match live_of(self.live@, key_hex@).source_root {
                Some(root) => root + "/DCIM"@,
                None => "DCIM"@,
            }),
            shown.destination@ == self.settings.download_dir@ + "/DCIM"@,
            shown.last_run_unix_secs == self.auto_copy.row(key_hex@).last_run_unix_secs,
            shown.last_run_files == self.auto_copy.row(key_hex@).last_run_files,
            shown.running == exists|id: Seq<char>| #[trigger]
                moves_files(self.transfers.batches@, self.transfers.rows@, key_hex@, id),
    {
        let running = self.is_copying(key_hex);
        let root: Option<String> = match self.live.get(key_hex) {
            None => None,
            Some(live) => copy_opt(&live.source_root),
        };
        let source_root: Option<&str> = match &root {
            None => None,
            Some(text) => Some(text.as_str()),
        };
        self.auto_copy.shown(key_hex, source_root, self.settings.download_dir.as_str(), running)
    }

    /// Turns the automatic copy on or off for a device. The settings have to
    /// be written.
    pub fn set_auto_copy(&mut self, key_hex: &str, enabled: bool) -> (bytes: Result<
        Vec<u8>,
        FerryError,
    >)
        requires
            old(self).wf(),
        ensures
            final(self).wf(),
            match bytes {
                Ok(b) => {
                    &&& is_paired(old(self).peers@, key_hex@)
                    &&& *final(self) == (Engine { auto_copy: final(self).auto_copy, ..*old(self) })
                    &&& final(self).auto_copy@ == old(self).auto_copy@.insert(
                        key_hex@,
                        (AutoCopyRow { enabled, ..old(self).auto_copy.row(key_hex@) }),
                    )
                    &&& b@ == crate::auto_copy::list_bytes(final(self).auto_copy.listed())
                },
                Err(e) => !is_paired(old(self).peers@, key_hex@) && *final(self) == *old(self)
                    && is_failed(e, "Runtime::NotPaired"@),
            },
    {
        if !self.peers.contains(key_hex) {
            return Err(failed("Runtime::NotPaired"));
        }
        self.auto_copy.set_enabled(key_hex, enabled);
        Ok(self.auto_copy.save())
    }

    /// The settings were written, or were not. Says whether a copy has to
    /// start: it does where the switch went on and the device is reachable.
    pub fn auto_copy_saved(&mut self, key_hex: &str, enabled: bool, written: bool) -> (starts: Result<
        bool,
        FerryError,
    >)
        requires
            old(self).wf(),
        ensures
            final(self).wf(),
            *final(self) == (Engine { copying: final(self).copying, ..*old(self) }),
            match starts {
                Ok(s) => written && s == (enabled && live_of(
                    old(self).live@,
                    key_hex@,
                ).reachable_via is Some && copy_starts(*old(self), key_hex@))
                    && final(self).copying@ == (if s {
                    old(self).copying@.insert(key_hex@, ())
                } else {
                    old(self).copying@
                }),
                Err(e) => !written && *final(self) == *old(self) && is_failed(
                    e,
                    "TransferError::Local"@,
                ),
            },
    {
        if !written {
            return Err(failed("TransferError::Local"));
        }
        let reachable = match self.live.get(key_hex) {
            None => false,
            Some(live) => live.reachable_via.is_some(),
        };
        if !enabled || !reachable {
            return Ok(false);
        }
        Ok(self.maybe_start_copy(key_hex))
    }

    /// An automatic copy has ended, and this many files were copied. Returns
    /// the settings to write.
    pub fn record_run(&mut self, key_hex: &str, ended_unix_secs: i64, files: u32) -> (bytes: Vec<u8>)
        requires
            old(self).wf(),
        ensures
            final(self).wf(),
            *final(self) == (Engine {
                auto_copy: final(self).auto_copy,
                notify: final(self).notify,
                ..*old(self)
            }),
            final(self).auto_copy@ == old(self).auto_copy@.insert(
                key_hex@,
                (AutoCopyRow {
                    last_run_unix_secs: Some(ended_unix_secs),
                    last_run_files: Some(files),
                    ..old(self).auto_copy.row(key_hex@)
                }),
            ),
            bytes@ == crate::auto_copy::list_bytes(final(self).auto_copy.listed()),
            final(self).notify.waiting() == marked(old(self).notify.waiting(), Change::Devices),
            final(self).notify.tells_as(old(self).notify),
    {
        self.auto_copy.record_run(key_hex, ended_unix_secs, files);
        let bytes = self.auto_copy.save();
        self.notify.mark(Change::Devices);
        bytes
    }
}

/// What follows once a device gave its name: a new name is stored, an
/// automatic copy may start, and the app hears of it.
pub open spec fn follows<L: EngineListener>(
    before: Engine<L>,
    after: Engine<L>,
    named: Named,
    stored: PeerView,
    name: Seq<char>,
    key: Seq<char>,
) -> bool {
    &&& after == (Engine {
        live: after.live,
        copying: after.copying,
        notify: after.notify,
        ..before
    })
    &&& after.notify.waiting() == marked(before.notify.waiting(), Change::Devices)
    &&& after.notify.tells_as(before.notify)
    &&& named.copy == (live_of(before.live@, key).reachable_via is None && copy_starts(before, key))
    &&& after.copying@ == (if named.copy {
        before.copying@.insert(key, ())
    } else {
        before.copying@
    })
    &&& match named.renamed {
        Some(peers) => {
            let peer = PeerView { name, ..stored };
            stored.name != name && peers.wf() && crate::peers::add_problem(before.peers@, peer)
                is None && peers@ == crate::peers::with_peer(before.peers@, peer)
        },
        None => stored.name == name || crate::peers::add_problem(
            before.peers@,
            PeerView { name, ..stored },
        ) is Some,
    }
}

/// Every paired device is shown, in order, as itself: under its own key and
/// name, with what is known of where it can be reached.
pub proof fn lemma_devices_are_shown<L: EngineListener>(
    engine: &Engine<L>,
    now_unix_secs: i64,
    infos: Vec<DeviceInfo>,
    i: int,
)
    requires
        call_ensures(Engine::<L>::devices, (engine, now_unix_secs), infos),
        0 <= i < engine.peers@.len(),
    ensures
        infos@.len() == engine.peers@.len(),
        infos@[i].key_hex@ == hex_of(engine.peers@[i].key),
        infos@[i].name@ == engine.peers@[i].name,
        infos@[i].kind == engine.peers@[i].kind,
        ({
            let live = live_of(engine.live@, hex_of(engine.peers@[i].key));
            &&& infos@[i].reachable_via == live.reachable_via
            &&& infos@[i].last_seen_unix_secs == live.last_seen
            &&& opt_view(infos@[i].mount_path) == live.mount_path
            &&& live.reachable_via matches Some(way) ==> infos@[i].available_transports@.contains(way)
            &&& !engine.live@.contains_key(hex_of(engine.peers@[i].key))
                ==> infos@[i].reachable_via is None && infos@[i].available_transports@.len() == 0
        }),
{
    let peer = engine.peers@[i];
    let live = live_of(engine.live@, hex_of(peer.key));
    assert(shows_device(infos@[i], peer, live, now_unix_secs));
    crate::engine::live::lemma_reachable_is_available(live, now_unix_secs);
}

/// A device that was reached is shown as reachable that way, and remembered at
/// that address; nothing that is known of any other device changes.
pub proof fn lemma_reached_device_is_remembered<L: EngineListener>(
    engine: &mut Engine<L>,
    key_hex: &str,
    addr: Addr,
    way: Transport,
    now_unix_secs: i64,
    copy: bool,
    other: Seq<char>,
)
    requires
        call_ensures(
            Engine::<L>::mark_reachable,
            (engine, key_hex, addr, way, now_unix_secs),
            copy,
        ),
    ensures
        live_of(final(engine).live@, key_hex@).reachable_via == Some(way),
        live_of(final(engine).live@, key_hex@).last_addr == Some(addr),
        live_of(final(engine).live@, key_hex@).last_seen == Some(now_unix_secs),
        live_of(final(engine).live@, key_hex@).serving == live_of(old(engine).live@, key_hex@).serving,
        way == Transport::Usb ==> live_of(final(engine).live@, key_hex@).usb_port == Some(addr.port),
        other != key_hex@ ==> live_of(final(engine).live@, other) == live_of(
            old(engine).live@,
            other,
        ),
        final(engine).peers == old(engine).peers,
        copy ==> old(engine).auto_copy@.contains_key(key_hex@) && old(
            engine).auto_copy@[key_hex@].enabled && final(engine).copying@.contains_key(key_hex@),
{
}

/// A device that was forgotten is not paired any more, is not known, and has
/// no transfer left; every other device and its transfers stay.
pub proof fn lemma_forgotten_device_is_gone<L: EngineListener>(
    engine: &mut Engine<L>,
    key_hex: &str,
    gone: Gone,
    p: PeerView,
    id: Seq<char>,
)
    requires
        old(engine).wf(),
        call_ensures(
            Engine::<L>::forgotten,
            (engine, key_hex, Ok::<(), PeerError>(())),
            Ok::<Gone, FerryError>(gone),
        ),
    ensures
        !is_paired(final(engine).peers@, key_hex@),
        final(engine).peers@.contains(p) <==> old(engine).peers@.contains(p) && hex_of(p.key)
            != key_hex@,
        !final(engine).live@.contains_key(key_hex@),
        final(engine).transfers.rows@.contains_key(id) <==> old(
            engine).transfers.rows@.contains_key(id) && old(
            engine).transfers.rows@[id].device_key_hex@ != key_hex@,
        final(engine).transfers.batches@.contains_key(id) <==> old(
            engine).transfers.batches@.contains_key(id) && old(
            engine).transfers.batches@[id].device_key_hex@ != key_hex@,
        final(engine).transfers.rows@.contains_key(id) ==> final(engine).transfers.rows@[id] == old(
            engine).transfers.rows@[id],
{
    let test = |p: PeerView| hex_of(p.key) != key_hex@;
    let peers = old(engine).peers@;
    crate::seqs::lemma_only(peers, test);
    let left = without(peers, key_hex@);
    if left.contains(p) {
        let k = choose|k: int| 0 <= k < left.len() && left[k] == p;
        assert(test(left[k]));
    }
    if peers.contains(p) && hex_of(p.key) != key_hex@ {
        let k = choose|k: int| 0 <= k < peers.len() && peers[k] == p;
        assert(test(peers[k]));
    }
    crate::transfers::lemma_forgotten_is_gone(
        old(engine).transfers,
        final(engine).transfers,
        key_hex@,
    );
}

/// A mount is served on this machine alone, under a password of its own, and
/// stays under way until it is stopped; asking again gives the same place.
pub proof fn lemma_mount_is_kept<L: EngineListener>(
    engine: &mut Engine<L>,
    key_hex: &str,
    port: u16,
    endpoint: MountEndpoint,
)
    requires
        call_ensures(
            Engine::<L>::mount_bound,
            (engine, key_hex, Ok::<u16, String>(port)),
            Ok::<MountEndpoint, FerryError>(endpoint),
        ),
    ensures
        final(engine).mounts.running().contains_key(key_hex@),
        endpoint_view(final(engine).mounts.running()[key_hex@].endpoint) == endpoint_view(endpoint),
        !final(engine).mounts.in_flight().contains(key_hex@),
        endpoint.url@ == "http://127.0.0.1:"@ + crate::text::decimal(port as nat) + "/"@,
        endpoint.password@.len() == 32,
        forall|other: Seq<char>|
            other != key_hex@ ==> (#[trigger] final(engine).mounts.running().contains_key(other)
                <==> old(engine).mounts.running().contains_key(other)),
{
    let random = choose|random: Seq<u8>|
        random.len() == 16 && endpoint_view(endpoint) == crate::dav::mounts::endpoint_on(
            port,
            #[trigger] hex_of(random),
        );
    crate::text::lemma_hex_len(random);
}

/// A mount that was stopped is gone, and only that one.
pub proof fn lemma_mount_is_stopped<L: EngineListener>(
    engine: &mut Engine<L>,
    key_hex: &str,
    mount: Option<Mount>,
    other: Seq<char>,
)
    requires
        call_ensures(Engine::<L>::mount_stop, (engine, key_hex), mount),
    ensures
        !final(engine).mounts.running().contains_key(key_hex@),
        mount is Some <==> old(engine).mounts.running().contains_key(key_hex@),
        other != key_hex@ ==> (final(engine).mounts.running().contains_key(other) <==> old(
            engine).mounts.running().contains_key(other)),
{
}

/// Turning automatic copies on or off is kept for that device, and for no
/// other; what it did last stays known.
pub proof fn lemma_auto_copy_is_set<L: EngineListener>(
    engine: &mut Engine<L>,
    key_hex: &str,
    enabled: bool,
    bytes: Vec<u8>,
    other: Seq<char>,
)
    requires
        call_ensures(
            Engine::<L>::set_auto_copy,
            (engine, key_hex, enabled),
            Ok::<Vec<u8>, FerryError>(bytes),
        ),
    ensures
        is_paired(old(engine).peers@, key_hex@),
        final(engine).auto_copy@.contains_key(key_hex@),
        final(engine).auto_copy@[key_hex@].enabled == enabled,
        old(engine).auto_copy@.contains_key(key_hex@) ==> final(
            engine).auto_copy@[key_hex@].last_run_unix_secs == old(
            engine).auto_copy@[key_hex@].last_run_unix_secs && final(
            engine).auto_copy@[key_hex@].last_run_files == old(
            engine).auto_copy@[key_hex@].last_run_files,
        other != key_hex@ ==> (final(engine).auto_copy@.contains_key(other) <==> old(
            engine).auto_copy@.contains_key(other)),
        other != key_hex@ && old(engine).auto_copy@.contains_key(other) ==> final(
            engine).auto_copy@[other] == old(engine).auto_copy@[other],
{
}

/// A device that is paired is served under the name it gives and is reachable
/// the way it came; one that is not is not served, and nobody else is touched.
pub proof fn lemma_named_device_is_served<L: EngineListener>(
    engine: &mut Engine<L>,
    key_hex: &str,
    connection: u64,
    name: String,
    addr: Addr,
    way: Transport,
    now: i64,
    serve: Serve,
    other: Seq<char>,
)
    requires
        old(engine).wf(),
        call_ensures(
            Engine::<L>::serve_named,
            (engine, key_hex, connection, name, addr, way, now),
            serve,
        ),
    ensures
        serve is Forgotten <==> !is_paired(old(engine).peers@, key_hex@),
        serve is Serve <==> is_paired(old(engine).peers@, key_hex@) && old(
            engine).running.roots is Some,
        serve is Serve ==> live_of(final(engine).live@, key_hex@).reachable_via == Some(way)
            && live_of(final(engine).live@, key_hex@).last_addr == Some(addr) && live_of(
            final(engine).live@,
            key_hex@,
        ).last_seen == Some(now),
        !(serve is Serve) ==> live_of(final(engine).live@, key_hex@).reachable_via is None,
        serve matches Serve::Serve(named) ==> (named.renamed matches Some(peers) ==> peers@.contains(
            PeerView { name: name@, ..peer_of(old(engine).peers@, key_hex@) },
        )),
        other != key_hex@ ==> live_of(final(engine).live@, other) == live_of(
            old(engine).live@,
            other,
        ),
{
    if let Serve::Serve(named) = serve {
        if let Some(peers) = named.renamed {
            let stored = peer_of(old(engine).peers@, key_hex@);
            let peer = PeerView { name: name@, ..stored };
            crate::peers::lemma_added_is_itself(old(engine).peers@, peer, peer);
        }
    }
}

/// When a connection ends the device is not reachable any more, its entries of
/// that connection are finished and no others, and the app is to be told.
pub proof fn lemma_ended_connection_is_closed<L: EngineListener>(
    engine: &mut Engine<L>,
    key_hex: &str,
    connection: u64,
    now: i64,
    finished: Vec<Pending>,
    entry: crate::access::rollup::PendingView,
)
    requires
        call_ensures(Engine::<L>::serving_ended, (engine, key_hex, connection, now), finished),
        old(engine).access is Some,
        old(engine).access->0@.contains(entry),
    ensures
        live_of(final(engine).live@, key_hex@).reachable_via is None,
        live_of(final(engine).live@, key_hex@).last_seen == Some(now),
        entry.connection == connection ==> pending_views(finished@).contains(entry),
        entry.connection != connection ==> final(engine).access->0@.contains(entry)
            && !pending_views(finished@).contains(entry),
        final(engine).notify.waiting().devices.waiting,
{
    let all = old(engine).access->0@;
    let ended = pending_views(finished@);
    crate::seqs::lemma_only(all, is_of(connection));
    crate::seqs::lemma_only(all, not(is_of(connection)));
    let i = choose|i: int| 0 <= i < all.len() && all[i] == entry;
    if entry.connection == connection {
        assert(is_of(connection)(all[i]));
    } else {
        assert(not(is_of(connection))(all[i]));
        if ended.contains(entry) {
            let k = choose|k: int| 0 <= k < ended.len() && ended[k] == entry;
            assert(is_of(connection)(ended[k]));
        }
    }
}

/// A device's files are copied by one run at a time: while one runs no other
/// starts, and once it ended the next may.
pub proof fn lemma_one_copy_at_a_time<L: EngineListener>(
    engine: &mut Engine<L>,
    key_hex: &str,
    starts: bool,
    second: &mut Engine<L>,
    again: bool,
    ending: &mut Engine<L>,
    third: &mut Engine<L>,
    anew: bool,
)
    requires
        call_ensures(Engine::<L>::maybe_start_copy, (engine, key_hex), starts),
        starts,
        *old(second) == *final(engine),
        call_ensures(Engine::<L>::maybe_start_copy, (second, key_hex), again),
        *old(ending) == *final(second),
        call_ensures(Engine::<L>::copy_ended, (ending, key_hex), ()),
        *old(third) == *final(ending),
        call_ensures(Engine::<L>::maybe_start_copy, (third, key_hex), anew),
    ensures
        old(engine).auto_copy@.contains_key(key_hex@),
        old(engine).auto_copy@[key_hex@].enabled,
        !old(engine).running.stopped,
        !again,
        anew,
{
}

/// What is shown of automatic copying is what was set and what the last run
/// did.
pub proof fn lemma_last_run_is_shown<L: EngineListener>(
    engine: &mut Engine<L>,
    key_hex: &str,
    ended: i64,
    files: u32,
    bytes: Vec<u8>,
    then: &Engine<L>,
    shown: AutoCopy,
)
    requires
        call_ensures(Engine::<L>::record_run, (engine, key_hex, ended, files), bytes),
        *then == *final(engine),
        call_ensures(Engine::<L>::auto_copy, (then, key_hex), shown),
    ensures
        shown.last_run_unix_secs == Some(ended),
        shown.last_run_files == Some(files),
        shown.enabled == old(engine).auto_copy.row(key_hex@).enabled,
        shown.device_key_hex@ == key_hex@,
        shown.destination@ == old(engine).settings.download_dir@ + "/DCIM"@,
{
}

/// A folder is mounted for a paired device alone, and under that device's name.
pub proof fn lemma_only_paired_devices_are_mounted<L: EngineListener>(
    engine: &mut Engine<L>,
    key_hex: &str,
    start: Result<(Start, String), FerryError>,
)
    requires
        call_ensures(Engine::<L>::mount_start, (engine, key_hex), start),
    ensures
        start is Ok ==> is_paired(old(engine).peers@, key_hex@) && (start->Ok_0).1@ == peer_of(
            old(engine).peers@,
            key_hex@,
        ).name,
        is_paired(old(engine).peers@, key_hex@) && !old(engine).running.stopped ==> start is Ok,
        start is Ok && (start->Ok_0).0 == Start::Begin ==> final(
            engine).mounts.in_flight().contains(key_hex@) && !old(
            engine).mounts.in_flight().contains(key_hex@),
{
}

} // verus!
