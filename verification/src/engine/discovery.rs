//! Where devices were found: over the network, and over the cable.

use crate::engine::addr::Addr;
use crate::limits::{MAX_DISCOVERED, PROBE_MIN_INTERVAL_MS};
use crate::peers::{PeerView, Peers};
use crate::seqs::{at_most, lemma_only_step, only};
use crate::text::{chars_of, copy_of, hex_of, hex_text, same_text, text_of, text_views};
use crate::textmap::TextMap;
use crate::types::{PairingCandidate, Transport};
use vstd::prelude::*;
use vstd::slice::slice_subrange;

verus! {

/// The last four characters of a text, or all of it where it is shorter.
pub open spec fn last_four_of(text: Seq<char>) -> Seq<char> {
    if text.len() <= 4 {
        text
    } else {
        text.skip(text.len() - 4)
    }
}

/// The last four characters, which is what both screens show.
pub fn last_four(text: &str) -> (last: String)
    ensures
        last@ == last_four_of(text@),
{
    let chars = chars_of(text);
    let start: usize = if chars.len() <= 4 {
        0
    } else {
        chars.len() - 4
    };
    let part = slice_subrange(chars.as_slice(), start, chars.len());
    assert(part@ =~= last_four_of(text@));
    text_of(part)
}

/// What a candidate shows.
#[verifier::ext_equal]
pub struct ShownView {
    pub id: Seq<char>,
    pub transport: Transport,
    pub short_code: Seq<char>,
}

impl View for PairingCandidate {
    type V = ShownView;

    open spec fn view(&self) -> ShownView {
        ShownView { id: self.id@, transport: self.transport, short_code: self.short_code@ }
    }
}

/// The candidate that a name on the network becomes.
pub open spec fn wifi_shown(name: Seq<char>) -> ShownView {
    ShownView {
        id: "wifi:"@ + name,
        transport: Transport::Wifi,
        short_code: last_four_of(name),
    }
}

/// The candidate that a plugged in device becomes.
pub open spec fn usb_shown(serial: Seq<char>) -> ShownView {
    ShownView {
        id: "usb:"@ + serial,
        transport: Transport::Usb,
        short_code: last_four_of(serial),
    }
}

/// The candidate that a name on the network becomes. An address that was
/// given by hand is its own name.
pub fn wifi_candidate(name: &str) -> (shown: PairingCandidate)
    ensures
        shown@ == wifi_shown(name@),
{
    let mut id = copy_of("wifi:");
    id.push_str(name);
    PairingCandidate { id, transport: Transport::Wifi, short_code: last_four(name) }
}

/// The candidate that a plugged in device becomes.
pub fn usb_candidate(serial: &str) -> (shown: PairingCandidate)
    ensures
        shown@ == usb_shown(serial@),
{
    let mut id = copy_of("usb:");
    id.push_str(serial);
    PairingCandidate { id, transport: Transport::Usb, short_code: last_four(serial) }
}

/// Every address but one.
pub open spec fn other_than(addr: Addr) -> spec_fn(Addr) -> bool {
    |a: Addr| a != addr
}

/// The addresses to keep once `addr` was found: it first, and no more than
/// the limit.
pub open spec fn remembered(known: Seq<Addr>, addr: Addr) -> Seq<Addr> {
    at_most(seq![addr] + only(known, other_than(addr)), MAX_DISCOVERED as int)
}

/// A forward that was opened to a plugged in device.
#[derive(Debug)]
pub struct UsbForward {
    pub serial: String,
    pub local_port: u16,
}

/// What forwards there are.
pub open spec fn forward_views(forwards: Seq<UsbForward>) -> Seq<(Seq<char>, u16)> {
    forwards.map_values(|f: UsbForward| (f.serial@, f.local_port))
}

/// The port of the forward to a device, where there is one.
pub open spec fn forward_to(known: Seq<(Seq<char>, u16)>, serial: Seq<char>) -> Option<u16>
    decreases known.len(),
{
    if known.len() == 0 {
        None
    } else if known[0].0 == serial {
        Some(known[0].1)
    } else {
        forward_to(known.drop_first(), serial)
    }
}

/// The forwards once every plugged in device was looked at. `made` holds, for
/// each of them, the port of a forward that was just opened.
pub open spec fn forwards_after(
    known: Seq<(Seq<char>, u16)>,
    serials: Seq<Seq<char>>,
    made: Seq<Option<u16>>,
) -> Seq<(Seq<char>, u16)>
    decreases serials.len(),
{
    if serials.len() == 0 {
        Seq::empty()
    } else {
        let before = forwards_after(known, serials.drop_last(), made.drop_last());
        match forward_to(known, serials.last()) {
            Some(port) => before.push((serials.last(), port)),
            None => match made.last() {
                Some(port) => before.push((serials.last(), port)),
                None => before,
            },
        }
    }
}

/// The forwards whose device was unplugged.
pub open spec fn gone_forwards(known: Seq<(Seq<char>, u16)>, serials: Seq<Seq<char>>) -> Seq<
    (Seq<char>, u16),
> {
    only(known, |f: (Seq<char>, u16)| !serials.contains(f.0))
}

/// An address to dial, and the way it leads.
#[derive(Debug, Clone, Copy, PartialEq, Eq, Structural)]
pub struct Target {
    pub addr: Addr,
    pub via: Transport,
}

/// Some target leads to the address.
pub open spec fn leads_to(targets: Seq<Target>, addr: Addr) -> bool {
    exists|i: int| 0 <= i < targets.len() && (#[trigger] targets[i]).addr == addr
}

/// The targets without those whose address came before.
pub open spec fn each_once(targets: Seq<Target>) -> Seq<Target>
    decreases targets.len(),
{
    if targets.len() == 0 {
        Seq::empty()
    } else {
        let before = each_once(targets.drop_last());
        if leads_to(before, targets.last().addr) {
            before
        } else {
            before.push(targets.last())
        }
    }
}

/// Every address to try for a device: the cable first, then where it was last
/// reached, then what discovery found.
pub open spec fn all_targets(
    forwards: Seq<(Seq<char>, u16)>,
    last_addr: Option<Addr>,
    found: Seq<Addr>,
) -> Seq<Target> {
    forwards.map_values(
        |f: (Seq<char>, u16)| Target { addr: Addr::local_of(f.1), via: Transport::Usb },
    ) + (match last_addr {
        Some(addr) => seq![Target { addr, via: Transport::Wifi }],
        None => Seq::empty(),
    }) + found.map_values(|a: Addr| Target { addr: a, via: Transport::Wifi })
}

fn push_once(targets: &mut Vec<Target>, target: Target, Ghost(all): Ghost<Seq<Target>>)
    requires
        old(targets)@ == each_once(all),
    ensures
        final(targets)@ == each_once(all.push(target)),
{
    proof {
        assert(all.push(target).drop_last() =~= all);
    }
    let mut i: usize = 0;
    while i < targets.len()
        invariant
            i <= targets@.len(),
            targets@ == each_once(all),
            all.push(target).drop_last() == all,
            forall|j: int| 0 <= j < i ==> (#[trigger] targets@[j]).addr != target.addr,
        decreases targets@.len() - i,
    {
        if targets[i].addr == target.addr {
            assert(leads_to(targets@, target.addr));
            return;
        }
        i += 1;
    }
    assert(!leads_to(targets@, target.addr));
    targets.push(target);
}

/// No two targets of a list without repeats lead to one address, and none
/// that was asked for is left out.
pub proof fn lemma_each_once(targets: Seq<Target>)
    ensures
        forall|i: int, j: int|
            0 <= i < j < each_once(targets).len() ==> (#[trigger] each_once(targets)[i]).addr != (
            #[trigger] each_once(targets)[j]).addr,
        forall|i: int|
            0 <= i < targets.len() ==> leads_to(
                each_once(targets),
                (#[trigger] targets[i]).addr,
            ),
    decreases targets.len(),
{
    if targets.len() > 0 {
        let rest = targets.drop_last();
        lemma_each_once(rest);
        let before = each_once(rest);
        let all = each_once(targets);
        let last = targets.last();
        assert forall|i: int| 0 <= i < targets.len() implies leads_to(
            all,
            (#[trigger] targets[i]).addr,
        ) by {
            if i < rest.len() {
                assert(rest[i] == targets[i]);
                let k = choose|k: int|
                    0 <= k < before.len() && (#[trigger] before[k]).addr == targets[i].addr;
                assert(all[k] == before[k]);
            } else if !leads_to(before, last.addr) {
                assert(all[before.len() as int] == last);
            }
        }
        assert forall|i: int, j: int| 0 <= i < j < all.len() implies (#[trigger] all[i]).addr != (
        #[trigger] all[j]).addr by {
            if j < before.len() {
                assert(all[i] == before[i] && all[j] == before[j]);
            } else {
                assert(all[i] == before[i]);
            }
        }
    }
}

/// The cable comes before everything else in `targets`.
pub open spec fn cable_leads(targets: Seq<Target>) -> bool {
    forall|i: int, j: int|
        0 <= i < j < targets.len() && (#[trigger] targets[j]).via == Transport::Usb ==> (
        #[trigger] targets[i]).via == Transport::Usb
}

/// Leaving repeats out keeps the order, and brings nothing new.
proof fn lemma_repeats_left_out(targets: Seq<Target>)
    requires
        cable_leads(targets),
    ensures
        cable_leads(each_once(targets)),
        forall|i: int|
            0 <= i < each_once(targets).len() ==> targets.contains(
                #[trigger] each_once(targets)[i],
            ),
    decreases targets.len(),
{
    if targets.len() > 0 {
        let rest = targets.drop_last();
        assert forall|i: int, j: int|
            0 <= i < j < rest.len() && (#[trigger] rest[j]).via == Transport::Usb implies (
        #[trigger] rest[i]).via == Transport::Usb by {
            assert(targets[i] == rest[i] && targets[j] == rest[j]);
        }
        lemma_repeats_left_out(rest);
        let before = each_once(rest);
        let all = each_once(targets);
        let last = targets.last();
        assert forall|i: int| 0 <= i < all.len() implies targets.contains(
            #[trigger] all[i],
        ) by {
            if i < before.len() {
                assert(all[i] == before[i]);
                let k = choose|k: int| 0 <= k < rest.len() && rest[k] == before[i];
                assert(targets[k] == all[i]);
            } else {
                assert(targets[targets.len() - 1] == all[i]);
            }
        }
        assert forall|i: int, j: int|
            0 <= i < j < all.len() && (#[trigger] all[j]).via == Transport::Usb implies (
        #[trigger] all[i]).via == Transport::Usb by {
            assert(all[i] == before[i]);
            if j < before.len() {
                assert(all[j] == before[j]);
            } else {
                let k = choose|k: int| 0 <= k < rest.len() && rest[k] == before[i];
                assert(targets[k] == all[i]);
                assert(targets[targets.len() - 1] == last);
            }
        }
    }
}

/// A device is tried on the cable first, and over Wi-Fi only after that.
pub proof fn lemma_cable_first(
    forwards: Seq<(Seq<char>, u16)>,
    last_addr: Option<Addr>,
    found: Seq<Addr>,
)
    ensures
        cable_leads(each_once(all_targets(forwards, last_addr, found))),
{
    lemma_repeats_left_out(all_targets(forwards, last_addr, found));
}

/// What discovery knows.
#[derive(Debug)]
pub struct Discovery {
    /// The addresses found, the newest first.
    pub found: Vec<Addr>,
    /// The forwards that are open.
    pub forwards: Vec<UsbForward>,
    /// When each device was last probed.
    pub last_probe: TextMap<u64>,
    /// How many probes were started.
    pub probes: u64,
}

/// A device was not probed within the interval.
pub open spec fn probe_due(last: Map<Seq<char>, u64>, key: Seq<char>, now: u64) -> bool {
    !last.contains_key(key) || now - last[key] >= PROBE_MIN_INTERVAL_MS
}

/// The devices to probe.
pub open spec fn to_probe(
    peers: Seq<PeerView>,
    last: Map<Seq<char>, u64>,
    now: u64,
) -> Seq<Seq<char>> {
    only(
        peers.map_values(|p: PeerView| hex_of(p.key)),
        |key: Seq<char>| probe_due(last, key, now),
    )
}

/// When each device was last probed, once some are.
pub open spec fn probed(
    last: Map<Seq<char>, u64>,
    keys: Seq<Seq<char>>,
    now: u64,
) -> Map<Seq<char>, u64>
    decreases keys.len(),
{
    if keys.len() == 0 {
        last
    } else {
        probed(last, keys.drop_last(), now).insert(keys.last(), now)
    }
}

proof fn lemma_probed(last: Map<Seq<char>, u64>, keys: Seq<Seq<char>>, now: u64, key: Seq<char>)
    ensures
        !keys.contains(key) ==> (probed(last, keys, now).contains_key(key) == last.contains_key(key)
            && (last.contains_key(key) ==> probed(last, keys, now)[key] == last[key])),
        keys.contains(key) ==> probed(last, keys, now).contains_key(key) && probed(
            last,
            keys,
            now,
        )[key] == now,
    decreases keys.len(),
{
    if keys.len() > 0 {
        let rest = keys.drop_last();
        lemma_probed(last, rest, now, key);
        if keys.contains(key) && keys.last() != key {
            let i = choose|i: int| 0 <= i < keys.len() && keys[i] == key;
            assert(rest[i] == key);
        }
        if rest.contains(key) {
            let i = choose|i: int| 0 <= i < rest.len() && rest[i] == key;
            assert(keys[i] == key);
        }
    }
}

/// A device that was just probed is not probed again within the interval.
pub proof fn lemma_probed_once(
    peers: Seq<PeerView>,
    last: Map<Seq<char>, u64>,
    now: u64,
    then: u64,
    key: Seq<char>,
)
    requires
        to_probe(peers, last, now).contains(key),
        now <= then < now + PROBE_MIN_INTERVAL_MS,
    ensures
        !probe_due(probed(last, to_probe(peers, last, now), now), key, then),
        !to_probe(peers, probed(last, to_probe(peers, last, now), now), then).contains(key),
{
    let keys = to_probe(peers, last, now);
    lemma_probed(last, keys, now, key);
    let after = probed(last, keys, now);
    let again = to_probe(peers, after, then);
    crate::seqs::lemma_only(
        peers.map_values(|p: PeerView| hex_of(p.key)),
        |k: Seq<char>| probe_due(after, k, then),
    );
    if again.contains(key) {
        let i = choose|i: int| 0 <= i < again.len() && again[i] == key;
        assert(probe_due(after, again[i], then));
    }
}

impl Discovery {
    pub open spec fn wf(self) -> bool {
        self.last_probe.wf() && self.found@.len() <= MAX_DISCOVERED
    }

    /// Nothing was found.
    pub fn new() -> (discovery: Discovery)
        ensures
            discovery.wf(),
            discovery.found@.len() == 0,
            discovery.forwards@.len() == 0,
            discovery.last_probe@ == Map::<Seq<char>, u64>::empty(),
            discovery.probes == 0,
    {
        Discovery {
            found: Vec::new(),
            forwards: Vec::new(),
            last_probe: TextMap::new(),
            probes: 0,
        }
    }

    /// Keeps an address worth dialing later, newest first. Says whether it
    /// was not the newest already.
    pub fn remember_address(&mut self, addr: Addr) -> (news: bool)
        requires
            old(self).wf(),
        ensures
            final(self).wf(),
            final(self).found@ == remembered(old(self).found@, addr),
            news == (old(self).found@.len() == 0 || old(self).found@[0] != addr),
            *final(self) == (Discovery { found: final(self).found, ..*old(self) }),
    {
        let news = self.found.len() == 0 || self.found[0] != addr;
        let ghost test = other_than(addr);
        let mut kept: Vec<Addr> = Vec::new();
        kept.push(addr);
        let mut i: usize = 0;
        assert(kept@ =~= seq![addr] + only(self.found@.take(0), test));
        while i < self.found.len()
            invariant
                i <= self.found@.len(),
                test == other_than(addr),
                kept@ == seq![addr] + only(self.found@.take(i as int), test),
            decreases self.found@.len() - i,
        {
            proof {
                lemma_only_step(self.found@, test, i as int);
            }
            let known = self.found[i];
            if known != addr {
                let ghost before = only(self.found@.take(i as int), test);
                kept.push(known);
                assert(kept@ =~= seq![addr] + before.push(known));
            }
            i += 1;
        }
        assert(self.found@.take(i as int) =~= self.found@);
        let ghost whole = seq![addr] + only(self.found@, other_than(addr));
        assert(kept@ == whole);
        if kept.len() > MAX_DISCOVERED {
            kept.truncate(MAX_DISCOVERED);
        }
        assert(kept@ =~= at_most(whole, MAX_DISCOVERED as int));
        self.found = kept;
        news
    }

    /// The port of the forward to a plugged in device, where one is open.
    pub fn forward_of(&self, serial: &str) -> (port: Option<u16>)
        ensures
            port == forward_to(forward_views(self.forwards@), serial@),
    {
        let ghost views = forward_views(self.forwards@);
        let mut i: usize = 0;
        assert(views.skip(0) =~= views);
        while i < self.forwards.len()
            invariant
                i <= self.forwards@.len(),
                views == forward_views(self.forwards@),
                forward_to(views, serial@) == forward_to(views.skip(i as int), serial@),
            decreases self.forwards@.len() - i,
        {
            assert(views.skip(i as int)[0] == views[i as int]);
            assert(views.skip(i as int).drop_first() =~= views.skip(i + 1));
            if same_text(self.forwards[i].serial.as_str(), serial) {
                return Some(self.forwards[i].local_port);
            }
            i += 1;
        }
        None
    }

    /// Settles which forwards there are, once every plugged in device was
    /// looked at. `made` holds, for each, the port of a forward that was just
    /// opened to it. Returns the forwards whose device is gone: they have to
    /// be removed.
    pub fn settle_forwards(&mut self, serials: &Vec<String>, made: &Vec<Option<u16>>) -> (gone: Vec<
        UsbForward,
    >)
        requires
            serials@.len() == made@.len(),
        ensures
            forward_views(final(self).forwards@) == forwards_after(
                forward_views(old(self).forwards@),
                text_views(serials@),
                made@,
            ),
            forward_views(gone@) == gone_forwards(
                forward_views(old(self).forwards@),
                text_views(serials@),
            ),
            *final(self) == (Discovery { forwards: final(self).forwards, ..*old(self) }),
    {
        let ghost known = forward_views(self.forwards@);
        let ghost names = text_views(serials@);
        let mut current: Vec<UsbForward> = Vec::new();
        let mut i: usize = 0;
        assert(names.take(0) =~= Seq::<Seq<char>>::empty());
        assert(forward_views(current@) =~= forwards_after(known, names.take(0), made@.take(0)));
        while i < serials.len()
            invariant
                i <= serials@.len(),
                serials@.len() == made@.len(),
                known == forward_views(self.forwards@),
                names == text_views(serials@),
                forward_views(current@) == forwards_after(
                    known,
                    names.take(i as int),
                    made@.take(i as int),
                ),
            decreases serials@.len() - i,
        {
            assert(names.take(i + 1).drop_last() =~= names.take(i as int));
            assert(made@.take(i + 1).drop_last() =~= made@.take(i as int));
            assert(names.take(i + 1).last() == serials@[i as int]@);
            let port: Option<u16> = match self.forward_of(serials[i].as_str()) {
                Some(port) => Some(port),
                None => made[i],
            };
            if let Some(local_port) = port {
                let ghost so_far = forward_views(current@);
                let forward = UsbForward { serial: copy_of(serials[i].as_str()), local_port };
                let ghost here = (forward.serial@, forward.local_port);
                current.push(forward);
                assert(forward_views(current@) =~= so_far.push(here));
            }
            i += 1;
        }
        assert(names.take(i as int) =~= names);
        assert(made@.take(i as int) =~= made@);
        let gone = self.gone(serials);
        self.forwards = current;
        gone
    }

    fn gone(&self, serials: &Vec<String>) -> (gone: Vec<UsbForward>)
        ensures
            forward_views(gone@) == gone_forwards(
                forward_views(self.forwards@),
                text_views(serials@),
            ),
    {
        let ghost known = forward_views(self.forwards@);
        let ghost names = text_views(serials@);
        let ghost test = |f: (Seq<char>, u16)| !names.contains(f.0);
        let mut gone: Vec<UsbForward> = Vec::new();
        let mut i: usize = 0;
        assert(forward_views(gone@) =~= only(known.take(0), test));
        while i < self.forwards.len()
            invariant
                i <= self.forwards@.len(),
                known == forward_views(self.forwards@),
                names == text_views(serials@),
                test == (|f: (Seq<char>, u16)| !names.contains(f.0)),
                forward_views(gone@) == only(known.take(i as int), test),
            decreases self.forwards@.len() - i,
        {
            proof {
                lemma_only_step(known, test, i as int);
            }
            assert(known[i as int] == (self.forwards@[i as int].serial@, self.forwards@[i as int].local_port));
            if !has_text(serials, self.forwards[i].serial.as_str()) {
                let ghost so_far = forward_views(gone@);
                let forward = UsbForward {
                    serial: copy_of(self.forwards[i].serial.as_str()),
                    local_port: self.forwards[i].local_port,
                };
                let ghost here = (forward.serial@, forward.local_port);
                gone.push(forward);
                assert(forward_views(gone@) =~= so_far.push(here));
            }
            i += 1;
        }
        assert(known.take(i as int) =~= known);
        gone
    }

    /// Every address worth trying for a device, best first.
    pub fn dial_targets(&self, last_addr: Option<Addr>) -> (targets: Vec<Target>)
        ensures
            forall|i: int|
                0 <= i < self.forwards@.len() ==> leads_to(
                    targets@,
                    Addr::local_of((#[trigger] self.forwards@[i]).local_port),
                ),
            last_addr matches Some(addr) ==> leads_to(targets@, addr),
            forall|i: int|
                0 <= i < self.found@.len() ==> leads_to(targets@, #[trigger] self.found@[i]),
            targets@ == each_once(
                all_targets(forward_views(self.forwards@), last_addr, self.found@),
            ),
    {
        let ghost known = forward_views(self.forwards@);
        let ghost usb = |f: (Seq<char>, u16)|
            Target { addr: Addr::local_of(f.1), via: Transport::Usb };
        let ghost wifi = |a: Addr| Target { addr: a, via: Transport::Wifi };
        let mut targets: Vec<Target> = Vec::new();
        let ghost mut all: Seq<Target> = Seq::empty();
        let mut i: usize = 0;
        assert(all =~= known.take(0).map_values(usb));
        while i < self.forwards.len()
            invariant
                i <= self.forwards@.len(),
                known == forward_views(self.forwards@),
                usb == (|f: (Seq<char>, u16)|
                    Target { addr: Addr::local_of(f.1), via: Transport::Usb }),
                all == known.take(i as int).map_values(usb),
                targets@ == each_once(all),
            decreases self.forwards@.len() - i,
        {
            let target = Target {
                addr: Addr::local(self.forwards[i].local_port),
                via: Transport::Usb,
            };
            push_once(&mut targets, target, Ghost(all));
            proof {
                assert(known.take(i + 1).map_values(usb) =~= all.push(target));
                all = all.push(target);
            }
            i += 1;
        }
        assert(known.take(i as int) =~= known);
        let ghost first = all;
        if let Some(addr) = last_addr {
            let target = Target { addr, via: Transport::Wifi };
            push_once(&mut targets, target, Ghost(all));
            proof {
                all = all.push(target);
                assert(all =~= first + seq![target]);
            }
        }
        let ghost second = all;
        let mut j: usize = 0;
        assert(all =~= second + self.found@.take(0).map_values(wifi));
        while j < self.found.len()
            invariant
                j <= self.found@.len(),
                wifi == (|a: Addr| Target { addr: a, via: Transport::Wifi }),
                all == second + self.found@.take(j as int).map_values(wifi),
                targets@ == each_once(all),
            decreases self.found@.len() - j,
        {
            let target = Target { addr: self.found[j], via: Transport::Wifi };
            push_once(&mut targets, target, Ghost(all));
            proof {
                assert(second + self.found@.take(j + 1).map_values(wifi) =~= all.push(target));
                all = all.push(target);
            }
            j += 1;
        }
        assert(self.found@.take(j as int) =~= self.found@);
        assert(all =~= all_targets(known, last_addr, self.found@));
        proof {
            lemma_every_known_address_is_tried(known, last_addr, self.found@);
            assert forall|i: int| 0 <= i < self.forwards@.len() implies leads_to(
                targets@,
                Addr::local_of((#[trigger] self.forwards@[i]).local_port),
            ) by {
                let target = Target { addr: Addr::local_of(known[i].1), via: Transport::Usb };
                assert(targets@.contains(target));
                let k = choose|k: int| 0 <= k < targets@.len() && targets@[k] == target;
                assert(targets@[k].addr == Addr::local_of(self.forwards@[i].local_port));
            }
        }
        targets
    }

    /// Starts one probe for each paired device that was not probed within the
    /// interval, and names them.
    pub fn start_probes(&mut self, peers: &Peers, now: u64) -> (keys: Vec<String>)
        requires
            old(self).wf(),
            peers.wf(),
        ensures
            final(self).wf(),
            text_views(keys@) == to_probe(peers@, old(self).last_probe@, now),
            final(self).last_probe@ == probed(old(self).last_probe@, text_views(keys@), now),
            final(self).probes == (old(self).probes + keys@.len()) % 0x1_0000_0000_0000_0000,
            *final(self) == (Discovery {
                last_probe: final(self).last_probe,
                probes: final(self).probes,
                ..*old(self)
            }),
    {
        let ghost start = self.last_probe@;
        let ghost hexes = peers@.map_values(|p: PeerView| hex_of(p.key));
        let ghost test = |key: Seq<char>| probe_due(start, key, now);
        let mut keys: Vec<String> = Vec::new();
        let mut i: usize = 0;
        assert(text_views(keys@) =~= only(hexes.take(0), test));
        while i < peers.len()
            invariant
                self.wf(),
                peers.wf(),
                i <= peers@.len(),
                start == old(self).last_probe@,
                hexes == peers@.map_values(|p: PeerView| hex_of(p.key)),
                test == (|key: Seq<char>| probe_due(start, key, now)),
                text_views(keys@) == only(hexes.take(i as int), test),
                self.last_probe@ == probed(start, text_views(keys@), now),
                self.probes == (old(self).probes + keys@.len()) % 0x1_0000_0000_0000_0000,
                *self == (Discovery {
                    last_probe: self.last_probe,
                    probes: self.probes,
                    ..*old(self)
                }),
            decreases peers@.len() - i,
        {
            let key = hex_text(peers.at(i).key.as_slice());
            proof {
                lemma_only_step(hexes, test, i as int);
                assert(hexes[i as int] == key@);
                lemma_probed(start, text_views(keys@), now, key@);
                crate::seqs::lemma_only(hexes.take(i as int), test);
                lemma_keys_differ_so_far(peers, hexes, i as int, text_views(keys@), key@);
            }
            let due = match self.last_probe.get(key.as_str()) {
                None => true,
                Some(last) => now >= *last && now - *last >= PROBE_MIN_INTERVAL_MS,
            };
            if due {
                self.last_probe.insert(key.as_str(), now);
                self.probes = self.probes.wrapping_add(1);
                let ghost so_far = text_views(keys@);
                let ghost here = key@;
                keys.push(key);
                assert(text_views(keys@) =~= so_far.push(here));
                assert(so_far.push(here).drop_last() =~= so_far);
            }
            i += 1;
        }
        assert(hexes.take(i as int) =~= hexes);
        keys
    }
}

/// No key of a device comes up twice among the peers.
proof fn lemma_keys_differ_so_far(
    peers: &Peers,
    hexes: Seq<Seq<char>>,
    i: int,
    keys: Seq<Seq<char>>,
    key: Seq<char>,
)
    requires
        peers.wf(),
        0 <= i < peers@.len(),
        hexes == peers@.map_values(|p: PeerView| hex_of(p.key)),
        key == hexes[i],
        forall|k: int| 0 <= k < keys.len() ==> hexes.take(i).contains(#[trigger] keys[k]),
    ensures
        !keys.contains(key),
{
    if keys.contains(key) {
        let k = choose|k: int| 0 <= k < keys.len() && keys[k] == key;
        let j = choose|j: int| 0 <= j < hexes.take(i).len() && hexes.take(i)[j] == keys[k];
        assert(hexes[j] == hexes[i]);
        crate::peers::lemma_one_key(peers@[j].key, peers@[i].key);
    }
}

/// Some text of a list is `text`.
fn has_text(texts: &Vec<String>, text: &str) -> (found: bool)
    ensures
        found == text_views(texts@).contains(text@),
{
    let ghost views = text_views(texts@);
    let mut i: usize = 0;
    while i < texts.len()
        invariant
            i <= texts@.len(),
            views == text_views(texts@),
            forall|j: int| 0 <= j < i ==> #[trigger] views[j] != text@,
        decreases texts@.len() - i,
    {
        if same_text(texts[i].as_str(), text) {
            assert(views[i as int] == text@);
            return true;
        }
        i += 1;
    }
    false
}

/// Every address that is known for a device is tried, each by the way it
/// leads, and no other: the port of each forward over the cable, and over
/// Wi-Fi the address it was last reached at and each that discovery found.
pub proof fn lemma_every_known_address_is_tried(
    forwards: Seq<(Seq<char>, u16)>,
    last_addr: Option<Addr>,
    found: Seq<Addr>,
)
    ensures
        ({
            let targets = each_once(all_targets(forwards, last_addr, found));
            &&& forall|i: int|
                0 <= i < forwards.len() ==> targets.contains(
                    Target {
                        addr: Addr {
                            host: crate::engine::addr::Host::V4(0x7f00_0001),
                            port: (#[trigger] forwards[i]).1,
                        },
                        via: Transport::Usb,
                    },
                )
            &&& last_addr matches Some(addr) ==> leads_to(targets, addr)
            &&& forall|i: int| 0 <= i < found.len() ==> leads_to(targets, #[trigger] found[i])
            &&& forall|k: int|
                0 <= k < targets.len() ==> match (#[trigger] targets[k]).via {
                    Transport::Usb => exists|i: int|
                        0 <= i < forwards.len() && targets[k].addr == (Addr {
                            host: crate::engine::addr::Host::V4(0x7f00_0001),
                            port: (#[trigger] forwards[i]).1,
                        }),
                    Transport::Wifi => last_addr == Some(targets[k].addr) || found.contains(
                        targets[k].addr,
                    ),
                }
        }),
{
    let all = all_targets(forwards, last_addr, found);
    let targets = each_once(all);
    let second = if last_addr is Some {
        1int
    } else {
        0int
    };
    lemma_each_once(all);
    lemma_repeats_left_out(all);
    assert forall|i: int| 0 <= i < forwards.len() implies targets.contains(
        Target {
            addr: Addr {
                host: crate::engine::addr::Host::V4(0x7f00_0001),
                port: (#[trigger] forwards[i]).1,
            },
            via: Transport::Usb,
        },
    ) by {
        assert(all[i] == (Target { addr: Addr::local_of(forwards[i].1), via: Transport::Usb }));
        lemma_cable_targets_stay(all, i);
    }
    if last_addr is Some {
        assert(all[forwards.len() as int].addr == last_addr->0);
    }
    assert forall|i: int| 0 <= i < found.len() implies leads_to(targets, #[trigger] found[i]) by {
        assert(all[forwards.len() + second + i].addr == found[i]);
    }
    assert forall|k: int| 0 <= k < targets.len() implies match (#[trigger] targets[k]).via {
        Transport::Usb => exists|i: int|
            0 <= i < forwards.len() && targets[k].addr == (Addr {
                host: crate::engine::addr::Host::V4(0x7f00_0001),
                port: (#[trigger] forwards[i]).1,
            }),
        Transport::Wifi => last_addr == Some(targets[k].addr) || found.contains(targets[k].addr),
    } by {
        let n = choose|n: int| 0 <= n < all.len() && all[n] == targets[k];
        if n < forwards.len() {
            assert(all[n].addr == Addr::local_of(forwards[n].1));
        } else if n >= forwards.len() + second {
            assert(found[n - forwards.len() - second] == all[n].addr);
        }
    }
}

/// A target over the cable stays where no other way comes before it.
proof fn lemma_cable_targets_stay(targets: Seq<Target>, i: int)
    requires
        cable_leads(targets),
        0 <= i < targets.len(),
        targets[i].via == Transport::Usb,
    ensures
        each_once(targets).contains(targets[i]),
    decreases targets.len(),
{
    let rest = targets.drop_last();
    assert forall|a: int, b: int|
        0 <= a < b < rest.len() && (#[trigger] rest[b]).via == Transport::Usb implies (
    #[trigger] rest[a]).via == Transport::Usb by {
        assert(targets[a] == rest[a] && targets[b] == rest[b]);
    }
    let before = each_once(rest);
    let all = each_once(targets);
    if i < rest.len() {
        lemma_cable_targets_stay(rest, i);
        let k = choose|k: int| 0 <= k < before.len() && before[k] == rest[i];
        assert(all[k] == before[k]);
    } else if leads_to(before, targets[i].addr) {
        lemma_repeats_left_out(rest);
        let k = choose|k: int| 0 <= k < before.len() && (#[trigger] before[k]).addr
            == targets[i].addr;
        let n = choose|n: int| 0 <= n < rest.len() && rest[n] == before[k];
        assert(targets[n] == before[k]);
        assert(targets[n].via == Transport::Usb);
        assert(all[k] == targets[i]);
    } else {
        assert(all[before.len() as int] == targets[i]);
    }
}

/// What discovery found last is tried first of what it found, and what it
/// found before is not lost as long as there is room.
pub proof fn lemma_newest_address_first(
    discovery: &mut Discovery,
    addr: Addr,
    news: bool,
    other: Addr,
)
    requires
        call_ensures(Discovery::remember_address, (discovery, addr), news),
    ensures
        final(discovery).found@.len() > 0,
        final(discovery).found@[0] == addr,
        final(discovery).found@.contains(other) ==> other == addr || old(
            discovery).found@.contains(other),
        old(discovery).found@.contains(other) && old(discovery).found@.len() < MAX_DISCOVERED
            ==> final(discovery).found@.contains(other),
{
    let known = old(discovery).found@;
    let kept = only(known, other_than(addr));
    let all = seq![addr] + kept;
    let now = final(discovery).found@;
    crate::seqs::lemma_only(known, other_than(addr));
    assert(now == remembered(known, addr));
    if now.contains(other) {
        let k = choose|k: int| 0 <= k < now.len() && now[k] == other;
        assert(all[k] == other);
        if k > 0 {
            assert(kept[k - 1] == other);
            assert(known.contains(kept[k - 1]));
        }
    }
    if known.contains(other) && known.len() < MAX_DISCOVERED {
        if other == addr {
            assert(now[0] == addr);
        } else {
            let k = choose|k: int| 0 <= k < known.len() && known[k] == other;
            assert(other_than(addr)(known[k]));
            let n = choose|n: int| 0 <= n < kept.len() && kept[n] == other;
            assert(all[n + 1] == other);
        }
    }
}

/// A phone on the cable keeps the port it has, and a new one gets the port
/// that was made for it; one that was unplugged has none.
pub proof fn lemma_every_phone_has_its_port(
    known: Seq<(Seq<char>, u16)>,
    serials: Seq<Seq<char>>,
    made: Seq<Option<u16>>,
    i: int,
)
    requires
        serials.len() == made.len(),
        0 <= i < serials.len(),
    ensures
        forward_to(known, serials[i]) matches Some(port) ==> forwards_after(
            known,
            serials,
            made,
        ).contains((serials[i], port)),
        forward_to(known, serials[i]) is None && made[i] is Some ==> forwards_after(
            known,
            serials,
            made,
        ).contains((serials[i], made[i]->0)),
        forall|k: int|
            0 <= k < forwards_after(known, serials, made).len() ==> serials.contains(
                (#[trigger] forwards_after(known, serials, made)[k]).0,
            ),
        forall|k: int|
            0 <= k < gone_forwards(known, serials).len() ==> known.contains(
                #[trigger] gone_forwards(known, serials)[k],
            ) && !serials.contains(gone_forwards(known, serials)[k].0),
        forall|k: int|
            0 <= k < known.len() && !serials.contains((#[trigger] known[k]).0)
                ==> gone_forwards(known, serials).contains(known[k]),
    decreases serials.len(),
{
    let test = |f: (Seq<char>, u16)| !serials.contains(f.0);
    crate::seqs::lemma_only(known, test);
    let gone = gone_forwards(known, serials);
    assert forall|k: int| 0 <= k < gone.len() implies known.contains(#[trigger] gone[k])
        && !serials.contains(gone[k].0) by {
        assert(test(gone[k]));
    }
    assert forall|k: int| 0 <= k < known.len() && !serials.contains(
        (#[trigger] known[k]).0,
    ) implies gone.contains(known[k]) by {
        assert(test(known[k]));
    }
    lemma_forwards_of_serials(known, serials, made);
    lemma_port_stays(known, serials, made, i);
}

proof fn lemma_forwards_of_serials(
    known: Seq<(Seq<char>, u16)>,
    serials: Seq<Seq<char>>,
    made: Seq<Option<u16>>,
)
    ensures
        forall|k: int|
            0 <= k < forwards_after(known, serials, made).len() ==> serials.contains(
                (#[trigger] forwards_after(known, serials, made)[k]).0,
            ),
    decreases serials.len(),
{
    if serials.len() > 0 {
        let front = serials.drop_last();
        let before = forwards_after(known, front, made.drop_last());
        let all = forwards_after(known, serials, made);
        lemma_forwards_of_serials(known, front, made.drop_last());
        assert forall|k: int| 0 <= k < all.len() implies serials.contains(
            (#[trigger] all[k]).0,
        ) by {
            if k < before.len() {
                assert(all[k] == before[k]);
                let n = choose|n: int| 0 <= n < front.len() && front[n] == before[k].0;
                assert(serials[n] == all[k].0);
            } else {
                assert(serials[serials.len() - 1] == all[k].0);
            }
        }
    }
}

proof fn lemma_port_stays(
    known: Seq<(Seq<char>, u16)>,
    serials: Seq<Seq<char>>,
    made: Seq<Option<u16>>,
    i: int,
)
    requires
        serials.len() == made.len(),
        0 <= i < serials.len(),
    ensures
        forward_to(known, serials[i]) matches Some(port) ==> forwards_after(
            known,
            serials,
            made,
        ).contains((serials[i], port)),
        forward_to(known, serials[i]) is None && made[i] is Some ==> forwards_after(
            known,
            serials,
            made,
        ).contains((serials[i], made[i]->0)),
    decreases serials.len(),
{
    let before = forwards_after(known, serials.drop_last(), made.drop_last());
    let all = forwards_after(known, serials, made);
    if i < serials.len() - 1 {
        lemma_port_stays(known, serials.drop_last(), made.drop_last(), i);
        let want = match forward_to(known, serials[i]) {
            Some(port) => Some((serials[i], port)),
            None => match made[i] {
                Some(port) => Some((serials[i], port)),
                None => None,
            },
        };
        if want is Some {
            let k = choose|k: int| 0 <= k < before.len() && before[k] == want->0;
            assert(all[k] == before[k]);
        }
    } else if forward_to(known, serials[i]) is Some || made[i] is Some {
        assert(all[before.len() as int].0 == serials[i]);
    }
}

/// A paired device is probed when it was not for a while, nobody else is, and
/// within that while it is not probed again.
pub proof fn lemma_devices_are_probed_in_turn(
    discovery: &mut Discovery,
    peers: &Peers,
    now: u64,
    keys: Vec<String>,
    then: &mut Discovery,
    later: u64,
    again: Vec<String>,
    key: Seq<char>,
)
    requires
        call_ensures(Discovery::start_probes, (discovery, peers, now), keys),
        *old(then) == *final(discovery),
        call_ensures(Discovery::start_probes, (then, peers, later), again),
    ensures
        text_views(keys@).contains(key) ==> crate::peers::is_paired(peers@, key),
        crate::peers::is_paired(peers@, key) && !old(discovery).last_probe@.contains_key(key)
            ==> text_views(keys@).contains(key),
        text_views(keys@).contains(key) && later < now + PROBE_MIN_INTERVAL_MS ==> !text_views(
            again@,
        ).contains(key),
        text_views(keys@).contains(key) && later >= now + PROBE_MIN_INTERVAL_MS ==> text_views(
            again@,
        ).contains(key),
{
    let all = peers@.map_values(|p: PeerView| hex_of(p.key));
    let first = old(discovery).last_probe@;
    let second = final(discovery).last_probe@;
    let a = text_views(keys@);
    let b = text_views(again@);
    let due = |k: Seq<char>| probe_due(first, k, now);
    let due_later = |k: Seq<char>| probe_due(second, k, later);
    crate::seqs::lemma_only(all, due);
    crate::seqs::lemma_only(all, due_later);
    lemma_probed(first, a, now, key);
    if a.contains(key) {
        let i = choose|i: int| 0 <= i < a.len() && a[i] == key;
        assert(all.contains(a[i]));
        let k = choose|k: int| 0 <= k < all.len() && all[k] == key;
        assert(hex_of(peers@[k].key) == key);
        if later >= now + PROBE_MIN_INTERVAL_MS {
            assert(due_later(all[k]));
        }
    }
    if crate::peers::is_paired(peers@, key) && !first.contains_key(key) {
        let k = choose|k: int|
            0 <= k < peers@.len() && hex_of((#[trigger] peers@[k]).key) == key;
        assert(all[k] == key);
        assert(due(all[k]));
    }
    if b.contains(key) {
        let i = choose|i: int| 0 <= i < b.len() && b[i] == key;
        assert(due_later(b[i]));
    }
}

/// A device that is found is shown by where it is and the last four characters
/// of its name, and two that differ in name or way are told apart.
pub proof fn lemma_candidates_are_told_apart(
    name: &str,
    on_wifi: PairingCandidate,
    serial: &str,
    on_cable: PairingCandidate,
    other: &str,
    third: PairingCandidate,
)
    requires
        call_ensures(wifi_candidate, (name,), on_wifi),
        call_ensures(usb_candidate, (serial,), on_cable),
        call_ensures(wifi_candidate, (other,), third),
    ensures
        on_wifi.transport == Transport::Wifi,
        on_cable.transport == Transport::Usb,
        on_wifi.id@ != on_cable.id@,
        on_wifi.id@ == third.id@ ==> name@ == other@,
        on_wifi.short_code@.len() <= 4,
        name@.len() >= 4 ==> on_wifi.short_code@ == name@.skip(name@.len() - 4),
        name@.len() < 4 ==> on_wifi.short_code@ == name@,
        serial@.len() >= 4 ==> on_cable.short_code@ == serial@.skip(serial@.len() - 4),
{
    reveal_strlit("wifi:");
    reveal_strlit("usb:");
    assert(on_wifi@.id[0] == 'w');
    assert(on_cable@.id[0] == 'u');
    if on_wifi.id@ == third.id@ {
        assert(on_wifi@.id.skip(5) =~= name@);
        assert(third@.id.skip(5) =~= other@);
    }
    if name@.len() == 4 {
        assert(name@.skip(0) =~= name@);
    }
    if serial@.len() == 4 {
        assert(serial@.skip(0) =~= serial@);
    }
}

} // verus!
