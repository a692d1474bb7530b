//! The bridges that are running, by device, and those that are about to be.

use crate::dav::put::SpoolBytes;
use crate::errors::{error_view, failed, failed_with, is_failed, is_failed_with};
use crate::peers::{is_paired, Peers};
use crate::random::random_hex;
use crate::text::{copy_of, decimal, hex_of, push_decimal, text_views};
use crate::textmap::TextMap;
use crate::types::{FerryError, MountEndpoint};
use vstd::prelude::*;

verus! {

/// One running bridge.
pub struct Mount {
    pub endpoint: MountEndpoint,
    pub port: u16,
}

/// What an endpoint says: its address, its user, and its password.
pub open spec fn endpoint_view(e: MountEndpoint) -> (Seq<char>, Seq<char>, Seq<char>) {
    (e.url@, e.user@, e.password@)
}

/// The endpoint of a bridge on a port.
pub open spec fn endpoint_on(port: u16, password: Seq<char>) -> (Seq<char>, Seq<char>, Seq<char>) {
    ("http://127.0.0.1:"@ + decimal(port as nat) + "/"@, "ferry"@, password)
}

fn copy_endpoint(e: &MountEndpoint) -> (copy: MountEndpoint)
    ensures
        endpoint_view(copy) == endpoint_view(*e),
{
    MountEndpoint {
        url: copy_of(e.url.as_str()),
        user: copy_of(e.user.as_str()),
        password: copy_of(e.password.as_str()),
    }
}

/// The endpoint of a bridge on a port, with this password.
pub fn endpoint_for(port: u16, password: &str) -> (e: MountEndpoint)
    ensures
        endpoint_view(e) == endpoint_on(port, password@),
{
    let mut url = copy_of("http://127.0.0.1:");
    push_decimal(&mut url, port as u64);
    url.push_str("/");
    MountEndpoint { url, user: copy_of("ferry"), password: copy_of(password) }
}

/// What a start comes to.
pub enum Start {
    /// The bridge is running already, and this is its endpoint.
    Running(MountEndpoint),
    /// A start for the same device is in flight, and its result is this
    /// one's too.
    Wait,
    /// This start does the work.
    Begin,
}

/// Every device's bridge.
pub struct MountRegistry {
    pub mounts: TextMap<Mount>,
    pub starting: TextMap<()>,
    /// How many bytes the spool folder holds, for every device together.
    pub spool_bytes: SpoolBytes,
}

impl MountRegistry {
    /// The running bridges.
    pub open spec fn running(self) -> Map<Seq<char>, Mount> {
        self.mounts@
    }

    /// The devices with a start in flight.
    pub open spec fn in_flight(self) -> Set<Seq<char>> {
        self.starting@.dom()
    }

    /// The devices with a running bridge, in order.
    pub open spec fn devices(self) -> Seq<Seq<char>> {
        self.mounts.spec_keys()
    }

    pub open spec fn wf(self) -> bool {
        self.mounts.wf() && self.starting.wf()
    }

    /// No bridge is running.
    pub fn new() -> (registry: MountRegistry)
        ensures
            registry.wf(),
            registry.running() == Map::<Seq<char>, Mount>::empty(),
            registry.in_flight() == Set::<Seq<char>>::empty(),
            registry.spool_bytes.counted() == 0,
            !registry.spool_bytes.has_walked(),
    {
        let registry = MountRegistry {
            mounts: TextMap::new(),
            starting: TextMap::new(),
            spool_bytes: SpoolBytes::new(),
        };
        assert(registry.in_flight() =~= Set::<Seq<char>>::empty());
        registry
    }

    /// The spool folder's total size.
    pub fn spool_bytes_total(&self) -> (total: u64)
        ensures
            total == self.spool_bytes.counted(),
    {
        self.spool_bytes.get()
    }

    /// Starts a device's bridge. One that is running keeps its endpoint, and
    /// of several starts for one device only one does the work.
    pub fn start(&mut self, device_key_hex: &str) -> (start: Start)
        requires
            old(self).wf(),
        ensures
            final(self).wf(),
            final(self).running() == old(self).running(),
            final(self).spool_bytes == old(self).spool_bytes,
            if old(self).running().contains_key(device_key_hex@) {
                &&& start matches Start::Running(e) && endpoint_view(e) == endpoint_view(
                    old(self).running()[device_key_hex@].endpoint,
                )
                &&& final(self).in_flight() == old(self).in_flight()
            } else if old(self).in_flight().contains(device_key_hex@) {
                start == Start::Wait && final(self).in_flight() == old(self).in_flight()
            } else {
                start == Start::Begin && final(self).in_flight() == old(self).in_flight().insert(
                    device_key_hex@,
                )
            },
    {
        if let Some(mount) = self.mounts.get(device_key_hex) {
            return Start::Running(copy_endpoint(&mount.endpoint));
        }
        if self.starting.contains(device_key_hex) {
            return Start::Wait;
        }
        self.starting.insert(device_key_hex, ());
        assert(self.in_flight() =~= old(self).in_flight().insert(device_key_hex@));
        Start::Begin
    }

    /// Whether the work of a start begins at all: not while the engine is
    /// stopping.
    pub fn may_begin(stopping: bool) -> (begun: Result<(), FerryError>)
        ensures
            match begun {
                Ok(_) => !stopping,
                Err(e) => stopping && is_failed(e, "Runtime::NotReachable"@),
            },
    {
        if stopping {
            Err(failed("Runtime::NotReachable"))
        } else {
            Ok(())
        }
    }

    /// The work of a start has come this far: a port is bound, or could not
    /// be, for this reason. The password is drawn; a device that was
    /// forgotten meanwhile gets no bridge.
    pub fn start_uncontested(
        port: Result<u16, String>,
        password: Result<String, FerryError>,
        paired: bool,
    ) -> (made: Result<Mount, FerryError>)
        ensures
            match made {
                Ok(m) => port == Ok::<u16, String>(m.port) && paired && (password matches Ok(p)
                    && endpoint_view(m.endpoint) == endpoint_on(m.port, p@)),
                Err(e) => match (port, password) {
                    (Err(reason), _) => is_failed_with(e, "Runtime::MountFailed"@, reason@),
                    (Ok(_), Err(no_password)) => error_view(e) == error_view(no_password),
                    (Ok(_), Ok(_)) => !paired && is_failed(e, "Runtime::NotPaired"@),
                },
            },
    {
        let port: u16 = match port {
            Ok(p) => p,
            Err(reason) => {
                return Err(failed_with("Runtime::MountFailed", reason.as_str()));
            },
        };
        let password = match password {
            Ok(p) => p,
            Err(e) => {
                return Err(e);
            },
        };
        if !paired {
            return Err(failed("Runtime::NotPaired"));
        }
        Ok(Mount { endpoint: endpoint_for(port, password.as_str()), port })
    }

    /// As [`MountRegistry::start_uncontested`], with a password drawn here.
    pub fn make_mount(port: Result<u16, String>, peers: &Peers, device_key_hex: &str) -> (made: Result<
        Mount,
        FerryError,
    >)
        requires
            peers.wf(),
        ensures
            match made {
                Ok(m) => port == Ok::<u16, String>(m.port) && is_paired(peers@, device_key_hex@) && (
                exists|random: Seq<u8>|
                    random.len() == 16 && endpoint_view(m.endpoint) == endpoint_on(
                        m.port,
                        #[trigger] hex_of(random),
                    )),
                Err(e) => match port {
                    Err(reason) => is_failed_with(e, "Runtime::MountFailed"@, reason@),
                    Ok(_) => is_failed_with(
                        e,
                        "Runtime::MountFailed"@,
                        "no randomness was available"@,
                    ) || (!is_paired(peers@, device_key_hex@) && is_failed(
                        e,
                        "Runtime::NotPaired"@,
                    )),
                },
            },
    {
        let password = random_hex(16);
        let paired = peers.contains(device_key_hex);
        MountRegistry::start_uncontested(port, password, paired)
    }

    /// The work of a start is over. A bridge that was made is put in, but for
    /// an engine that is stopping: then what was made is taken down again.
    pub fn finish_start(
        &mut self,
        device_key_hex: &str,
        made: Result<Mount, FerryError>,
        stopping: bool,
    ) -> (endpoint: Result<MountEndpoint, FerryError>)
        requires
            old(self).wf(),
        ensures
            final(self).wf(),
            final(self).in_flight() == old(self).in_flight().remove(device_key_hex@),
            final(self).spool_bytes == old(self).spool_bytes,
            match made {
                Err(e) => (endpoint matches Err(g) && error_view(g) == error_view(e)) && final(self).running() == old(self).running(),
                Ok(m) => if stopping {
                    (endpoint matches Err(g) && is_failed(g, "Runtime::NotReachable"@)) && final(self).running() == old(self).running()
                } else {
                    (endpoint matches Ok(e) && endpoint_view(e) == endpoint_view(m.endpoint))
                        && final(self).running() == old(self).running().insert(device_key_hex@, m)
                },
            },
    {
        let gone = self.starting.remove(device_key_hex);
        assert(self.in_flight() =~= old(self).in_flight().remove(device_key_hex@));
        match made {
            Err(e) => Err(e),
            Ok(mount) => {
                if stopping {
                    return Err(failed("Runtime::NotReachable"));
                }
                let endpoint = copy_endpoint(&mount.endpoint);
                self.mounts.insert(device_key_hex, mount);
                Ok(endpoint)
            },
        }
    }

    /// Stops a device's bridge, and names its port. A device with none has
    /// nothing to stop.
    pub fn stop(&mut self, device_key_hex: &str) -> (mount: Option<Mount>)
        requires
            old(self).wf(),
        ensures
            final(self).wf(),
            final(self).running() == old(self).running().remove(device_key_hex@),
            final(self).in_flight() == old(self).in_flight(),
            final(self).spool_bytes == old(self).spool_bytes,
            match mount {
                Some(m) => old(self).running().contains_key(device_key_hex@) && m == old(
                    self,
                ).running()[device_key_hex@],
                None => !old(self).running().contains_key(device_key_hex@),
            },
    {
        self.mounts.remove(device_key_hex)
    }

    /// Every device with a running bridge, in order: each of them is stopped
    /// when the engine stops.
    pub fn stop_all(&self) -> (keys: Vec<String>)
        requires
            self.wf(),
        ensures
            text_views(keys@) == self.devices(),
            forall|k: Seq<char>|
                self.running().contains_key(k) <==> #[trigger] text_views(keys@).contains(k),
    {
        let mut keys: Vec<String> = Vec::new();
        let mut i: usize = 0;
        proof {
            self.mounts.lemma_view();
        }
        while i < self.mounts.len()
            invariant
                self.wf(),
                i <= self.mounts.spec_keys().len(),
                text_views(keys@) == self.mounts.spec_keys().take(i as int),
            decreases self.mounts.spec_keys().len() - i,
        {
            let ghost so_far = text_views(keys@);
            keys.push(copy_of(self.mounts.key_at(i)));
            assert(text_views(keys@) =~= so_far.push(self.mounts.spec_keys()[i as int]));
            assert(self.mounts.spec_keys().take(i + 1) =~= so_far.push(
                self.mounts.spec_keys()[i as int],
            ));
            i += 1;
        }
        assert(self.mounts.spec_keys().take(self.mounts.spec_keys().len() as int)
            =~= self.mounts.spec_keys());
        assert forall|k: Seq<char>|
            self.running().contains_key(k) <==> #[trigger] text_views(keys@).contains(k) by {
            assert(self.mounts@.contains_key(k) <==> self.mounts.spec_keys().contains(k));
        }
        keys
    }
}

/// A folder that was mounted stays at its address until it is stopped: who asks
/// again is given that address, nobody starts it twice at a time, and once it
/// is stopped it can be started anew.
pub proof fn lemma_mounted_once(
    first: &mut MountRegistry,
    key: &str,
    begun: Start,
    second: &mut MountRegistry,
    waits: Start,
    ending: &mut MountRegistry,
    made: Result<Mount, FerryError>,
    given: Result<MountEndpoint, FerryError>,
    third: &mut MountRegistry,
    again: Start,
    fourth: &mut MountRegistry,
    stopped: Option<Mount>,
    fifth: &mut MountRegistry,
    anew: Start,
)
    requires
        call_ensures(MountRegistry::start, (first, key), begun),
        begun == Start::Begin,
        *old(second) == *final(first),
        call_ensures(MountRegistry::start, (second, key), waits),
        *old(ending) == *final(second),
        made is Ok,
        call_ensures(MountRegistry::finish_start, (ending, key, made, false), given),
        *old(third) == *final(ending),
        call_ensures(MountRegistry::start, (third, key), again),
        *old(fourth) == *final(third),
        call_ensures(MountRegistry::stop, (fourth, key), stopped),
        *old(fifth) == *final(fourth),
        call_ensures(MountRegistry::start, (fifth, key), anew),
    ensures
        waits == Start::Wait,
        given matches Ok(e) && endpoint_view(e) == endpoint_view(made->Ok_0.endpoint),
        again matches Start::Running(e) && endpoint_view(e) == endpoint_view(made->Ok_0.endpoint),
        stopped == Some(made->Ok_0),
        anew == Start::Begin,
{
}

} // verus!
