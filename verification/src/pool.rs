//! The few connections this device keeps to one other device.
//!
//! Four at most, idle and borrowed together, so one stalled request does not
//! hold up every other one, and a fifth request waits for one of them instead
//! of opening a fifth socket. A connection is named by the id its socket is
//! registered under.

use crate::core_errors::RpcError;
use crate::errors::{failed, from_rpc, is_failed, rpc_code};
use crate::types::FerryError;
use vstd::prelude::*;

verus! {

/// How many connections to one device are open at once.
pub const MAX_CONNECTIONS: usize = 4;

/// How long a fifth request waits for one of the four: thirty seconds.
pub const WAIT_FOR_SLOT_MS: u64 = 30_000;

/// What a request that needs a connection does.
#[derive(Debug, Clone, Copy, PartialEq, Eq, Structural)]
pub enum Take {
    /// It uses this idle connection.
    Idle(u64),
    /// It dials: a place has been set aside for what it gets.
    Dial,
    /// It waits for one to come back.
    Wait,
    /// The pool is paused: nothing is handed out.
    Paused,
}

/// The connections to one device.
#[derive(Debug)]
pub struct Pool {
    idle: Vec<u64>,
    outstanding: usize,
    paused: bool,
}

impl Pool {
    /// The idle connections, the one used last at the end.
    pub closed spec fn idle_ids(self) -> Seq<u64> {
        self.idle@
    }

    /// How many connections are borrowed or being dialed.
    pub closed spec fn borrowed(self) -> nat {
        self.outstanding as nat
    }

    pub closed spec fn is_paused(self) -> bool {
        self.paused
    }

    /// Never more than [`MAX_CONNECTIONS`].
    pub open spec fn wf(self) -> bool {
        self.idle_ids().len() + self.borrowed() <= MAX_CONNECTIONS
    }

    /// It has no connection, and lends.
    pub open spec fn is_new(self) -> bool {
        self.idle_ids().len() == 0 && self.borrowed() == 0 && !self.is_paused()
    }

    /// No connection.
    pub fn new() -> (pool: Pool)
        ensures
            pool.wf(),
            pool.is_new(),
    {
        Pool { idle: Vec::new(), outstanding: 0, paused: false }
    }

    /// Asks for a connection: an idle one where there is one, a new one where
    /// there is room, or a wait.
    pub fn take(&mut self) -> (take: Take)
        requires
            old(self).wf(),
        ensures
            final(self).wf(),
            final(self).is_paused() == old(self).is_paused(),
            match take {
                Take::Paused => old(self).is_paused() && final(self).idle_ids() == old(
                    self,
                ).idle_ids() && final(self).borrowed() == old(self).borrowed(),
                Take::Idle(id) => !old(self).is_paused() && old(self).idle_ids().len() > 0 && id
                    == old(self).idle_ids().last() && final(self).idle_ids() == old(
                    self,
                ).idle_ids().drop_last() && final(self).borrowed() == old(self).borrowed() + 1,
                Take::Dial => !old(self).is_paused() && old(self).idle_ids().len() == 0 && old(
                    self,
                ).borrowed() < MAX_CONNECTIONS && final(self).idle_ids() == old(self).idle_ids()
                    && final(self).borrowed() == old(self).borrowed() + 1,
                Take::Wait => !old(self).is_paused() && old(self).idle_ids().len() == 0 && old(
                    self,
                ).borrowed() == MAX_CONNECTIONS && final(self).idle_ids() == old(self).idle_ids()
                    && final(self).borrowed() == old(self).borrowed(),
            },
    {
        if self.paused {
            return Take::Paused;
        }
        match self.idle.pop() {
            Some(id) => {
                self.outstanding = self.outstanding + 1;
                Take::Idle(id)
            },
            None => {
                if self.outstanding < MAX_CONNECTIONS {
                    self.outstanding = self.outstanding + 1;
                    Take::Dial
                } else {
                    Take::Wait
                }
            },
        }
    }

    /// Takes back what was borrowed: a healthy connection is idle again, a
    /// broken one is gone.
    pub fn give_back(&mut self, connection: Option<u64>)
        ensures
            final(self).is_paused() == old(self).is_paused(),
            final(self).borrowed() == (if old(self).borrowed() > 0 {
                (old(self).borrowed() - 1) as nat
            } else {
                0
            }),
            final(self).idle_ids() == (match connection {
                Some(id) => old(self).idle_ids().push(id),
                None => old(self).idle_ids(),
            }),
            old(self).wf() && old(self).borrowed() > 0 ==> final(self).wf(),
    {
        self.outstanding = self.outstanding.saturating_sub(1);
        match connection {
            Some(id) => {
                self.idle.push(id);
            },
            None => {},
        }
    }

    /// Whether a connection of this pool is borrowed or being dialed.
    pub fn is_lending(&self) -> (lending: bool)
        ensures
            lending == (self.borrowed() > 0),
    {
        self.outstanding > 0
    }

    /// Hands nothing out until [`Pool::unpause`].
    pub fn pause(&mut self)
        ensures
            final(self).is_paused(),
            final(self).idle_ids() == old(self).idle_ids(),
            final(self).borrowed() == old(self).borrowed(),
    {
        self.paused = true;
    }

    /// Hands connections out again.
    pub fn unpause(&mut self)
        ensures
            !final(self).is_paused(),
            final(self).idle_ids() == old(self).idle_ids(),
            final(self).borrowed() == old(self).borrowed(),
    {
        self.paused = false;
    }
}

/// Whether a dial goes ahead. The key has to read as a key; and a request
/// that must be answered at once is refused where the device is not known to
/// be reachable.
pub fn dial_check(key_reads: bool, require_reachable: bool, reachable: bool) -> (checked: Result<
    (),
    FerryError,
>)
    ensures
        match checked {
            Ok(_) => key_reads && (!require_reachable || reachable),
            Err(e) => if !key_reads {
                is_failed(e, "Runtime::NotPaired"@)
            } else {
                require_reachable && !reachable && is_failed(e, "Runtime::NotReachable"@)
            },
        },
{
    if !key_reads {
        return Err(failed("Runtime::NotPaired"));
    }
    if require_reachable && !reachable {
        return Err(failed("Runtime::NotReachable"));
    }
    Ok(())
}

/// What the wait for a connection comes to when its time is over.
pub fn wait_over() -> (error: FerryError)
    ensures
        is_failed(error, "Runtime::NotReachable"@),
{
    failed("Runtime::NotReachable")
}

/// A failed call leaves the connection good exactly where the other device
/// answered.
pub open spec fn keeps_connection(error: RpcError) -> bool {
    error is Remote
}

/// What a failed call is reported as, and whether its connection is broken:
/// an answer of the other device is no fault of the connection, anything else
/// is.
pub fn after_failed_call(error: &RpcError) -> (outcome: (FerryError, bool))
    ensures
        is_failed(outcome.0, rpc_code(*error)),
        outcome.1 == !keeps_connection(*error),
{
    let unhealthy = match error {
        RpcError::Remote(_) => false,
        _ => true,
    };
    (from_rpc(error), unhealthy)
}

/// A connection that comes back healthy is the next one that is lent; one that
/// does not come back is replaced by a new one, and a paused pool lends none.
pub proof fn lemma_connection_is_lent_again(
    pool: &mut Pool,
    connection: Option<u64>,
    then: &mut Pool,
    taken: Take,
)
    requires
        old(pool).wf(),
        old(pool).borrowed() > 0,
        call_ensures(Pool::give_back, (pool, connection), ()),
        *old(then) == *final(pool),
        call_ensures(Pool::take, (then,), taken),
    ensures
        old(pool).is_paused() ==> taken == Take::Paused,
        !old(pool).is_paused() && connection is Some ==> taken == Take::Idle(connection->0)
            && final(then).borrowed() == old(pool).borrowed(),
        !old(pool).is_paused() && connection is None && old(pool).idle_ids().len() == 0 ==> taken
            == Take::Dial,
        final(then).borrowed() + final(then).idle_ids().len() <= MAX_CONNECTIONS,
{
}

/// Only an answer of the other device leaves a connection in use: after any
/// other failure it is dropped.
pub proof fn lemma_broken_connection_is_dropped(error: &RpcError, outcome: (FerryError, bool))
    requires
        call_ensures(after_failed_call, (error,), outcome),
    ensures
        error is Remote ==> !outcome.1,
        !(error is Remote) ==> outcome.1,
{
}

} // verus!
