//! The Wi-Fi network the app says it is on, and the trusted list.

use crate::engine::state::{marked, Engine, Running};
use crate::errors::{failed, is_failed};
use crate::networks::{good_name, TrustedNetworks, NETWORK_LIMIT};
use crate::notify::Change;
use crate::text::{copy_of, opt_view, same_text, text_views};
use crate::types::{EngineListener, FerryError};
use vstd::prelude::*;

verus! {

/// A trusted list that was changed, and has to be written before it counts.
pub struct NetworksChange {
    pub list: TrustedNetworks,
}

/// Two optional texts are the same.
fn same_opt(a: &Option<String>, b: &Option<String>) -> (same: bool)
    ensures
        same == (opt_view(*a) == opt_view(*b)),
{
    match (a, b) {
        (None, None) => true,
        (Some(x), Some(y)) => same_text(x.as_str(), y.as_str()),
        _ => false,
    }
}

/// `name` cannot be added to a list.
pub open spec fn refuses_network(list: Seq<Seq<char>>, name: Seq<char>) -> bool {
    !good_name(name) || (!list.contains(name) && list.len() >= NETWORK_LIMIT)
}

impl<L: EngineListener> Engine<L> {
    /// The app says which network it is on, or that it cannot tell. The same
    /// network twice changes nothing.
    pub fn set_network(&mut self, name: Option<String>)
        requires
            old(self).wf(),
        ensures
            final(self).wf(),
            opt_view(name) == opt_view(old(self).running.network) ==> *final(self) == *old(self),
            opt_view(name) != opt_view(old(self).running.network) ==> {
                &&& *final(self) == (Engine {
                    running: Running { network: name, ..old(self).running },
                    notify: final(self).notify,
                    ..*old(self)
                })
                &&& final(self).notify.waiting() == marked(
                    old(self).notify.waiting(),
                    Change::Devices,
                )
                &&& final(self).notify.tells_as(old(self).notify)
            },
    {
        if same_opt(&name, &self.running.network) {
            return;
        }
        self.running.network = name;
        self.notify.mark(Change::Devices);
    }

    /// Adds a name to the trusted list. Returns the list to write; `None`
    /// where the name is trusted already.
    pub fn trust_network(&self, name: &str) -> (change: Result<Option<NetworksChange>, FerryError>)
        requires
            self.wf(),
        ensures
            match change {
                Ok(Some(c)) => !refuses_network(self.trusted@, name@) && !self.trusted@.contains(
                    name@,
                ) && c.list.wf() && c.list@ == self.trusted@.push(name@),
                Ok(None) => !refuses_network(self.trusted@, name@) && self.trusted@.contains(name@),
                Err(e) => refuses_network(self.trusted@, name@) && is_failed(
                    e,
                    "Runtime::NetworkName"@,
                ),
            },
    {
        let mut list = self.trusted.copy();
        match list.add(name) {
            Ok(true) => Ok(Some(NetworksChange { list })),
            Ok(false) => Ok(None),
            Err(e) => Err(e),
        }
    }

    /// Takes a name off the trusted list. Returns the list to write; `None`
    /// where the name is not trusted.
    pub fn forget_network(&self, name: &str) -> (change: Option<NetworksChange>)
        requires
            self.wf(),
        ensures
            match change {
                Some(c) => c.list.wf() && self.trusted@.contains(name@) && (exists|at: int|
                    0 <= at < self.trusted@.len() && self.trusted@[at] == name@ && c.list@
                        == #[trigger] self.trusted@.remove(at)) && !c.list@.contains(name@),
                None => !self.trusted@.contains(name@),
            },
    {
        let mut list = self.trusted.copy();
        if list.remove(name) {
            Some(NetworksChange { list })
        } else {
            None
        }
    }

    /// The changed list was written, or was not. Only one that was written
    /// counts, so that memory and disk agree.
    pub fn networks_saved(&mut self, change: NetworksChange, written: bool) -> (saved: Result<
        (),
        FerryError,
    >)
        requires
            old(self).wf(),
            change.list.wf(),
        ensures
            final(self).wf(),
            match saved {
                Ok(_) => written && *final(self) == (Engine {
                    trusted: change.list,
                    notify: final(self).notify,
                    ..*old(self)
                }) && final(self).notify.waiting() == marked(
                    old(self).notify.waiting(),
                    Change::Devices,
                ) && final(self).notify.tells_as(old(self).notify),
                Err(e) => !written && *final(self) == *old(self) && is_failed(
                    e,
                    "TransferError::Local"@,
                ),
            },
    {
        if !written {
            return Err(failed("TransferError::Local"));
        }
        self.trusted = change.list;
        self.notify.mark(Change::Devices);
        Ok(())
    }

    /// Every trusted name, oldest first.
    pub fn trusted_networks(&self) -> (names: Vec<String>)
        ensures
            text_views(names@) == self.trusted@,
    {
        let all = self.trusted.names();
        let ghost views = crate::networks::name_views(all@);
        let mut names: Vec<String> = Vec::new();
        let mut i: usize = 0;
        assert(text_views(names@) =~= views.take(0));
        while i < all.len()
            invariant
                i <= all@.len(),
                views == crate::networks::name_views(all@),
                text_views(names@) == views.take(i as int),
            decreases all@.len() - i,
        {
            let name = copy_of(all[i].as_str());
            let ghost so_far = text_views(names@);
            let ghost here = name@;
            names.push(name);
            assert(text_views(names@) =~= so_far.push(here));
            assert(views.take(i + 1) =~= so_far.push(here));
            i += 1;
        }
        assert(views.take(i as int) =~= views);
        names
    }

    /// Adds the network this device is on to the trusted list, where it is
    /// known and the list takes it: the first pairing at home trusts home.
    /// Returns the list to write.
    pub fn trust_current_network(&self) -> (change: Option<NetworksChange>)
        requires
            self.wf(),
        ensures
            match change {
                Some(c) => c.list.wf() && (self.running.network matches Some(name)
                    && !refuses_network(self.trusted@, name@) && !self.trusted@.contains(name@)
                    && c.list@ == self.trusted@.push(name@)),
                None => self.running.network matches Some(name) ==> refuses_network(
                    self.trusted@,
                    name@,
                ) || self.trusted@.contains(name@),
            },
    {
        match &self.running.network {
            None => None,
            Some(name) => match self.trust_network(name.as_str()) {
                Ok(change) => change,
                Err(_) => None,
            },
        }
    }
}

/// A device on a network that is not trusted, with no pairing on its way,
/// neither announces itself nor looks for others.
pub proof fn lemma_silent_elsewhere<L: EngineListener>(engine: Engine<L>)
    requires
        engine.trusted@.len() > 0,
        !crate::engine::shown::runs(engine.pairing@.shown),
        engine.running.network matches Some(name) ==> !engine.trusted@.contains(name@),
    ensures
        !engine.presence_rule().advertise,
        !engine.presence_rule().browse,
{
}

/// A network that is trusted is in the list from then on, and one that is
/// forgotten is not; no other name comes or goes.
pub proof fn lemma_trust_is_kept<L: EngineListener>(
    engine: &Engine<L>,
    name: &str,
    trusted: Option<NetworksChange>,
    forgotten: Option<NetworksChange>,
    other: Seq<char>,
)
    requires
        engine.wf(),
        call_ensures(
            Engine::<L>::trust_network,
            (engine, name),
            Ok::<Option<NetworksChange>, FerryError>(trusted),
        ),
        call_ensures(Engine::<L>::forget_network, (engine, name), forgotten),
    ensures
        trusted matches Some(change) ==> change.list@.contains(name@),
        trusted is None ==> engine.trusted@.contains(name@),
        trusted is Some && other != name@ ==> (trusted->0.list@.contains(other)
            <==> engine.trusted@.contains(other)),
        forgotten matches Some(change) ==> !change.list@.contains(name@),
        forgotten is None ==> !engine.trusted@.contains(name@),
        forgotten is Some && other != name@ ==> (forgotten->0.list@.contains(other)
            <==> engine.trusted@.contains(other)),
{
    let list = engine.trusted@;
    if trusted is Some {
        let grown = list.push(name@);
        assert(grown[list.len() as int] == name@);
        crate::seqs::lemma_push_contains(list, name@);
    }
    if forgotten is Some && other != name@ {
        let at = choose|at: int|
            0 <= at < list.len() && list[at] == name@ && forgotten->0.list@ == #[trigger] list.remove(
                at,
            );
        let left = list.remove(at);
        if list.contains(other) {
            let k = choose|k: int| 0 <= k < list.len() && list[k] == other;
            if k < at {
                assert(left[k] == other);
            } else {
                assert(left[k - 1] == other);
            }
        }
        if left.contains(other) {
            let k = choose|k: int| 0 <= k < left.len() && left[k] == other;
            if k < at {
                assert(list[k] == other);
            } else {
                assert(list[k + 1] == other);
            }
        }
    }
}

} // verus!
