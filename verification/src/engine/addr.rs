//! Addresses, and which of them are worth dialing.

use crate::limits::MAX_DIAL_ADDRESSES;
use crate::seqs::{at_most, lemma_only_step, only};
use vstd::prelude::*;

verus! {

/// The number of a host on a network.
#[derive(Debug, Clone, Copy, PartialEq, Eq, Structural)]
pub enum Host {
    V4(u32),
    V6(u128),
}

/// A host, and a port on it.
#[derive(Debug, Clone, Copy, PartialEq, Eq, Structural)]
pub struct Addr {
    pub host: Host,
    pub port: u16,
}

/// A host reached without leaving this device: `127.0.0.0/8`, or `::1`.
pub open spec fn loopback(host: Host) -> bool {
    match host {
        Host::V4(n) => n / 0x100_0000 == 127,
        Host::V6(n) => n == 1,
    }
}

/// A host that means nothing without the interface it came from:
/// `169.254.0.0/16`, or `fe80::/10`.
pub open spec fn link_local(host: Host) -> bool {
    match host {
        Host::V4(n) => n / 0x1_0000 == 0xa9fe,
        Host::V6(n) => n / 0x40_0000_0000_0000_0000_0000_0000_0000 == 0x3fa,
    }
}

/// A host on a private network: `10.0.0.0/8`, `172.16.0.0/12`,
/// `192.168.0.0/16`, or `fc00::/7`.
pub open spec fn private_range(host: Host) -> bool {
    match host {
        Host::V4(n) => n / 0x100_0000 == 10 || n / 0x10_0000 == 0xac1 || n / 0x1_0000 == 0xc0a8,
        Host::V6(n) => n / 0x200_0000_0000_0000_0000_0000_0000_0000 == 0x7e,
    }
}

impl Addr {
    /// This device's own address.
    pub open spec fn local_of(port: u16) -> Addr {
        Addr { host: Host::V4(0x7f00_0001), port }
    }

    /// This device's own address.
    pub fn local(port: u16) -> (addr: Addr)
        ensures
            addr == Addr::local_of(port),
            loopback(addr.host),
    {
        Addr { host: Host::V4(0x7f00_0001), port }
    }

    /// Whether the address is reached without leaving this device.
    pub fn is_loopback(self) -> (yes: bool)
        ensures
            yes == loopback(self.host),
    {
        match self.host {
            Host::V4(n) => n / 0x100_0000 == 127,
            Host::V6(n) => n == 1,
        }
    }

    /// Whether the address means nothing without its interface.
    pub fn is_link_local(self) -> (yes: bool)
        ensures
            yes == link_local(self.host),
    {
        match self.host {
            Host::V4(n) => n / 0x1_0000 == 0xa9fe,
            Host::V6(n) => n / 0x40_0000_0000_0000_0000_0000_0000_0000 == 0x3fa,
        }
    }

    /// Whether the address is on a private network.
    pub fn is_private(self) -> (yes: bool)
        ensures
            yes == private_range(self.host),
    {
        match self.host {
            Host::V4(n) => n / 0x100_0000 == 10 || n / 0x10_0000 == 0xac1 || n / 0x1_0000 == 0xc0a8,
            Host::V6(n) => n / 0x200_0000_0000_0000_0000_0000_0000_0000 == 0x7e,
        }
    }
}

/// An address that another device could dial.
pub open spec fn may_be_dialed(addr: Addr) -> bool {
    !loopback(addr.host) && !link_local(addr.host)
}

/// An address that another device could dial, on a private network.
pub open spec fn dialed_first(addr: Addr) -> bool {
    may_be_dialed(addr) && private_range(addr.host)
}

/// An address that another device could dial, on no private network.
pub open spec fn dialed_last(addr: Addr) -> bool {
    may_be_dialed(addr) && !private_range(addr.host)
}

/// The addresses worth dialing: no loopback and no link-local one, those on a
/// private network first, and no more than the limit.
pub open spec fn dialable(addresses: Seq<Addr>) -> Seq<Addr> {
    at_most(
        only(addresses, |a: Addr| dialed_first(a)) + only(addresses, |a: Addr| dialed_last(a)),
        MAX_DIAL_ADDRESSES as int,
    )
}

/// The addresses worth dialing, in the order to dial them.
pub fn dialable_addresses(addresses: &Vec<Addr>) -> (kept: Vec<Addr>)
    ensures
        kept@ == dialable(addresses@),
{
    let ghost first = |a: Addr| dialed_first(a);
    let ghost last = |a: Addr| dialed_last(a);
    let mut private: Vec<Addr> = Vec::new();
    let mut public: Vec<Addr> = Vec::new();
    let mut i: usize = 0;
    assert(private@ =~= only(addresses@.take(0), first));
    assert(public@ =~= only(addresses@.take(0), last));
    while i < addresses.len()
        invariant
            i <= addresses@.len(),
            first == (|a: Addr| dialed_first(a)),
            last == (|a: Addr| dialed_last(a)),
            private@ == only(addresses@.take(i as int), first),
            public@ == only(addresses@.take(i as int), last),
        decreases addresses@.len() - i,
    {
        proof {
            lemma_only_step(addresses@, first, i as int);
            lemma_only_step(addresses@, last, i as int);
        }
        let addr = addresses[i];
        if !addr.is_loopback() && !addr.is_link_local() {
            if addr.is_private() {
                private.push(addr);
            } else {
                public.push(addr);
            }
        }
        i += 1;
    }
    assert(addresses@.take(i as int) =~= addresses@);
    let ghost whole = private@ + public@;
    private.append(&mut public);
    assert(private@ =~= whole);
    if private.len() > MAX_DIAL_ADDRESSES {
        private.truncate(MAX_DIAL_ADDRESSES);
    }
    assert(private@ =~= dialable(addresses@));
    private
}

/// The addresses of an offer to dial: those worth dialing, or, where none is,
/// the first ones as they stand.
pub open spec fn offer_targets(addresses: Seq<Addr>) -> Seq<Addr> {
    if dialable(addresses).len() == 0 {
        at_most(addresses, MAX_DIAL_ADDRESSES as int)
    } else {
        dialable(addresses)
    }
}

/// The addresses of an offer to dial, in the order to dial them. An offer is
/// not trusted to hold few addresses, or the best ones first.
pub fn addresses_to_dial(addresses: &Vec<Addr>) -> (targets: Vec<Addr>)
    ensures
        targets@ == offer_targets(addresses@),
        targets@.len() <= MAX_DIAL_ADDRESSES,
{
    let kept = dialable_addresses(addresses);
    if kept.len() > 0 {
        return kept;
    }
    let mut targets: Vec<Addr> = Vec::new();
    let mut i: usize = 0;
    while i < addresses.len() && i < MAX_DIAL_ADDRESSES
        invariant
            i <= addresses@.len(),
            i <= MAX_DIAL_ADDRESSES,
            targets@ == addresses@.take(i as int),
        decreases addresses@.len() - i,
    {
        targets.push(addresses[i]);
        assert(targets@ =~= addresses@.take(i + 1));
        i += 1;
    }
    assert(targets@ =~= at_most(addresses@, MAX_DIAL_ADDRESSES as int));
    targets
}

/// No address that is dialed from the list of the worthwhile ones is loopback
/// or link-local, and each came from the list.
pub proof fn lemma_dialed_elsewhere(addresses: Seq<Addr>, i: int)
    requires
        0 <= i < dialable(addresses).len(),
    ensures
        may_be_dialed(dialable(addresses)[i]),
        addresses.contains(dialable(addresses)[i]),
        dialable(addresses).len() <= MAX_DIAL_ADDRESSES,
{
    let first = |a: Addr| dialed_first(a);
    let last = |a: Addr| dialed_last(a);
    crate::seqs::lemma_only(addresses, first);
    crate::seqs::lemma_only(addresses, last);
    let head = only(addresses, first);
    if i < head.len() {
        assert(dialable(addresses)[i] == head[i]);
        assert(first(head[i]));
    } else {
        let tail = only(addresses, last);
        assert(dialable(addresses)[i] == tail[i - head.len()]);
        assert(last(tail[i - head.len()]));
    }
}

/// Of the addresses of an offer every one that may be dialed is tried, as long
/// as there is room, and those of a home network come before any other.
pub proof fn lemma_home_addresses_first(addresses: &Vec<Addr>, kept: Vec<Addr>)
    requires
        call_ensures(dialable_addresses, (addresses,), kept),
    ensures
        forall|i: int, j: int|
            0 <= i < j < kept@.len() && private_range((#[trigger] kept@[j]).host)
                ==> private_range((#[trigger] kept@[i]).host),
        forall|i: int|
            0 <= i < addresses@.len() && may_be_dialed(#[trigger] addresses@[i]) && kept@.len()
                < MAX_DIAL_ADDRESSES ==> kept@.contains(addresses@[i]),
        forall|i: int|
            0 <= i < kept@.len() ==> addresses@.contains(#[trigger] kept@[i]) && !loopback(
                kept@[i].host,
            ) && !link_local(kept@[i].host),
{
    let near = |a: Addr| dialed_first(a);
    let far = |a: Addr| dialed_last(a);
    let first = only(addresses@, near);
    let last = only(addresses@, far);
    let all = first + last;
    crate::seqs::lemma_only(addresses@, near);
    crate::seqs::lemma_only(addresses@, far);
    assert forall|i: int, j: int|
        0 <= i < j < kept@.len() && private_range((#[trigger] kept@[j]).host) implies private_range(
        (#[trigger] kept@[i]).host,
    ) by {
        assert(kept@[i] == all[i] && kept@[j] == all[j]);
        if j >= first.len() {
            assert(all[j] == last[j - first.len()]);
            assert(far(last[j - first.len()]));
        }
        assert(all[i] == first[i]);
        assert(near(first[i]));
    }
    assert forall|i: int|
        0 <= i < addresses@.len() && may_be_dialed(#[trigger] addresses@[i]) && kept@.len()
            < MAX_DIAL_ADDRESSES implies kept@.contains(addresses@[i]) by {
        assert(kept@ == all);
        let a = addresses@[i];
        if private_range(a.host) {
            assert(near(a));
            let k = choose|k: int| 0 <= k < first.len() && first[k] == a;
            assert(all[k] == a);
        } else {
            assert(far(a));
            let k = choose|k: int| 0 <= k < last.len() && last[k] == a;
            assert(all[first.len() + k] == a);
        }
    }
    assert forall|i: int| 0 <= i < kept@.len() implies addresses@.contains(#[trigger] kept@[i])
        && !loopback(kept@[i].host) && !link_local(kept@[i].host) by {
        assert(kept@[i] == dialable(addresses@)[i]);
        lemma_dialed_elsewhere(addresses@, i);
    }
}

/// An address written as four numbers is this machine's own where the first is
/// 127, given out on a link where it begins with 169.254, and one of a home
/// where it begins with 10, with 192.168 or with 172 and one from 16 to 31.
pub proof fn lemma_ranges_of_four_numbers(a: u8, b: u8, c: u8, d: u8, n: u32)
    requires
        n == a * 0x100_0000 + b * 0x1_0000 + c * 0x100 + d,
    ensures
        loopback(Host::V4(n)) <==> a == 127,
        link_local(Host::V4(n)) <==> a == 169 && b == 254,
        private_range(Host::V4(n)) <==> a == 10 || (a == 192 && b == 168) || (a == 172 && 16 <= b
            < 32),
{
    assert(n / 0x100_0000 == a);
    assert(n / 0x1_0000 == a * 0x100 + b);
    assert(n / 0x10_0000 == a * 0x10 + b / 0x10);
}

} // verus!
