//! Neighbors as the Linux kernel reports them over rtnetlink.
use vstd::prelude::*;
use vstd::std_specs::cmp::PartialEqSpecImpl;
use crate::iface::MacAddr;
use crate::ip::{be_value, IpAddr};

verus! {

/// The address in a `Destination` attribute of a neighbor message.
#[derive(Debug, Clone)]
pub enum NeighAddr {
    Inet(u32),
    Inet6(u128),
    Other(Vec<u8>),
}

/// An attribute of a neighbor message, as far as it matters here.
#[derive(Debug, Clone)]
pub enum NeighAttr {
    Destination(NeighAddr),
    LinkLayerAddress(Vec<u8>),
    Other,
}

/// A neighbor message: the interface index and state from its header, and
/// its attributes in order.
#[derive(Debug, Clone)]
pub struct NeighMsg {
    pub ifindex: u32,
    pub state: u16,
    pub attrs: Vec<NeighAttr>,
}

/// A neighbor on Linux. Two neighbors compare equal when their IP
/// addresses do.
#[derive(Debug, Clone, Copy)]
pub struct LinuxNetNeigh {
    pub ifindex: u32,
    pub ip: IpAddr,
    pub mac: MacAddr,
    pub state: u16,
}

impl PartialEq for LinuxNetNeigh {
    fn eq(&self, other: &Self) -> (r: bool) {
        self.ip == other.ip
    }
}

impl PartialEqSpecImpl for LinuxNetNeigh {
    open spec fn obeys_eq_spec() -> bool {
        true
    }

    open spec fn eq_spec(&self, other: &Self) -> bool {
        self.ip == other.ip
    }
}

/// The IP address a `Destination` attribute gives: the address itself, or
/// for raw bytes an IPv4 address of four, an IPv6 address of sixteen, and
/// none for any other count.
pub open spec fn dest_ip(a: NeighAddr) -> Option<IpAddr> {
    match a {
        NeighAddr::Inet(x) => Some(IpAddr::V4(x)),
        NeighAddr::Inet6(x) => Some(IpAddr::V6(x)),
        NeighAddr::Other(b) => if b@.len() == 4 {
            Some(IpAddr::V4(be_value(b@) as u32))
        } else if b@.len() == 16 {
            Some(IpAddr::V6(be_value(b@) as u128))
        } else {
            None
        },
    }
}

/// Some neighbor of `rets` has the address `ip`.
pub open spec fn has_ip(rets: Seq<LinuxNetNeigh>, ip: IpAddr) -> bool {
    exists|j: int| 0 <= j < rets.len() && (#[trigger] rets[j]).ip == ip
}

/// Once both an address and a hardware address are known, the neighbor is
/// recorded, unless one with the same address already is.
pub open spec fn record(
    ifindex: u32,
    state: u16,
    st: (Option<IpAddr>, Option<MacAddr>, Seq<LinuxNetNeigh>),
) -> (Option<IpAddr>, Option<MacAddr>, Seq<LinuxNetNeigh>) {
    match (st.0, st.1) {
        (Some(ip), Some(mac)) => if has_ip(st.2, ip) {
            st
        } else {
            (st.0, st.1, st.2.push(LinuxNetNeigh { ifindex, ip, mac, state }))
        },
        _ => st,
    }
}

/// One attribute of a neighbor message: a destination sets (or clears) the
/// address; a link-layer address of six or eight octets sets the hardware
/// address, one of another length is passed over; then the neighbor is
/// recorded if both are known.
pub open spec fn neigh_step(
    ifindex: u32,
    state: u16,
    st: (Option<IpAddr>, Option<MacAddr>, Seq<LinuxNetNeigh>),
    a: NeighAttr,
) -> (Option<IpAddr>, Option<MacAddr>, Seq<LinuxNetNeigh>) {
    match a {
        NeighAttr::Destination(d) => record(ifindex, state, (dest_ip(d), st.1, st.2)),
        NeighAttr::LinkLayerAddress(b) => if b@.len() == 6 || b@.len() == 8 {
            record(ifindex, state, (st.0, Some(MacAddr::spec_from_octets(b@)), st.2))
        } else {
            st
        },
        NeighAttr::Other => record(ifindex, state, st),
    }
}

/// The state after the attributes `attrs` of a message with `ifindex` and
/// `state`, starting from no address, no hardware address and the
/// neighbors `rets`.
pub open spec fn neigh_scan(ifindex: u32, state: u16, attrs: Seq<NeighAttr>, rets: Seq<LinuxNetNeigh>) -> (
    Option<IpAddr>,
    Option<MacAddr>,
    Seq<LinuxNetNeigh>,
)
    decreases attrs.len(),
{
    if attrs.len() == 0 {
        (None, None, rets)
    } else {
        neigh_step(ifindex, state, neigh_scan(ifindex, state, attrs.drop_last(), rets), attrs.last())
    }
}

/// Whether some neighbor of `rets` has the address `ip`.
fn contains_ip(rets: &Vec<LinuxNetNeigh>, ip: IpAddr) -> (r: bool)
    ensures
        r == has_ip(rets@, ip),
{
    for i in 0..rets.len()
        invariant
            forall|j: int| 0 <= j < i ==> (#[trigger] rets@[j]).ip != ip,
    {
        if rets[i].ip == ip {
            return true;
        }
    }
    false
}

/// Adds to `rets` the neighbors that one rtnetlink neighbor message
/// describes, each IP address at most once over all of `rets`.
pub fn scan_neigh_message(msg: &NeighMsg, rets: &mut Vec<LinuxNetNeigh>)
    ensures
        final(rets)@ == neigh_scan(msg.ifindex, msg.state, msg.attrs@, old(rets)@).2,
{
    let ifindex = msg.ifindex;
    let state = msg.state;
    let attrs = &msg.attrs;
    let mut ip: Option<IpAddr> = None;
    let mut mac: Option<MacAddr> = None;
    assert(attrs@.take(0) =~= Seq::<NeighAttr>::empty());
    for i in 0..attrs.len()
        invariant
            attrs@ == msg.attrs@,
            ifindex == msg.ifindex,
            state == msg.state,
            (ip, mac, rets@) == neigh_scan(ifindex, state, attrs@.take(i as int), old(rets)@),
    {
        assert(attrs@.take(i + 1).drop_last() =~= attrs@.take(i as int));
        let mut skip = false;
        match &attrs[i] {
            NeighAttr::Destination(d) => {
                ip = match d {
                    NeighAddr::Inet(x) => Some(IpAddr::V4(*x)),
                    NeighAddr::Inet6(x) => Some(IpAddr::V6(*x)),
                    NeighAddr::Other(bytes) => IpAddr::from_octets(bytes),
                };
            },
            NeighAttr::LinkLayerAddress(bytes) => {
                match MacAddr::from_octets(bytes) {
                    Some(m) => mac = Some(m),
                    None => skip = true,
                }
            },
            NeighAttr::Other => {},
        }
        if !skip {
            if let Some(ip) = ip {
                if let Some(mac) = mac {
                    let n = LinuxNetNeigh { ifindex, ip, mac, state };
                    if !contains_ip(rets, ip) {
                        rets.push(n);
                    }
                }
            }
        }
    }
    assert(attrs@.take(attrs.len() as int) =~= attrs@);
}

/// Some `Destination` attribute of `attrs` gives the address `ip`.
pub open spec fn ip_in_attrs(attrs: Seq<NeighAttr>, ip: IpAddr) -> bool {
    exists|k: int|
        0 <= k < attrs.len() && (#[trigger] attrs[k]) is Destination && dest_ip(attrs[k]->Destination_0)
            == Some(ip)
}

/// Some `LinkLayerAddress` attribute of `attrs` holds the octets `m`.
pub open spec fn mac_in_attrs(attrs: Seq<NeighAttr>, m: Seq<u8>) -> bool {
    exists|k: int| 0 <= k < attrs.len() && (#[trigger] attrs[k]) is LinkLayerAddress && (
    attrs[k]->LinkLayerAddress_0)@ == m
}

/// What holds of the state after scanning `attrs`: the neighbors only grow,
/// each added one carries the message's interface index and state and an
/// address and octets from attributes of the message, and so do the
/// address and hardware address in hand.
proof fn lemma_scan_sources(ifindex: u32, state: u16, attrs: Seq<NeighAttr>, rets: Seq<LinuxNetNeigh>)
    ensures
        rets.is_prefix_of(neigh_scan(ifindex, state, attrs, rets).2),
        forall|i: int|
            rets.len() <= i < neigh_scan(ifindex, state, attrs, rets).2.len() ==> {
                let n = #[trigger] neigh_scan(ifindex, state, attrs, rets).2[i];
                &&& n.ifindex == ifindex
                &&& n.state == state
                &&& ip_in_attrs(attrs, n.ip)
                &&& mac_in_attrs(attrs, n.mac@)
            },
        neigh_scan(ifindex, state, attrs, rets).0 matches Some(ip) ==> ip_in_attrs(attrs, ip),
        neigh_scan(ifindex, state, attrs, rets).1 matches Some(m) ==> mac_in_attrs(attrs, m@),
    decreases attrs.len(),
{
    if attrs.len() > 0 {
        let n = attrs.len() - 1;
        let init = attrs.drop_last();
        lemma_scan_sources(ifindex, state, init, rets);
        let st = neigh_scan(ifindex, state, init, rets);
        let a = attrs.last();
        assert(a == attrs[n]);
        assert forall|ip: IpAddr| ip_in_attrs(init, ip) implies ip_in_attrs(attrs, ip) by {
            let k = choose|k: int|
                0 <= k < init.len() && (#[trigger] init[k]) is Destination && dest_ip(init[k]->Destination_0)
                    == Some(ip);
            assert(attrs[k] == init[k]);
        }
        assert forall|m: Seq<u8>| mac_in_attrs(init, m) implies mac_in_attrs(attrs, m) by {
            let k = choose|k: int| 0 <= k < init.len() && (#[trigger] init[k]) is LinkLayerAddress && (
            init[k]->LinkLayerAddress_0)@ == m;
            assert(attrs[k] == init[k]);
        }
        let pre = match a {
            NeighAttr::Destination(d) => (dest_ip(d), st.1, st.2),
            NeighAttr::LinkLayerAddress(b) => if b@.len() == 6 || b@.len() == 8 {
                (st.0, Some(MacAddr::spec_from_octets(b@)), st.2)
            } else {
                st
            },
            NeighAttr::Other => st,
        };
        match a {
            NeighAttr::Destination(d) => {
                if dest_ip(d) is Some {
                    assert(ip_in_attrs(attrs, dest_ip(d).unwrap()));
                }
            },
            NeighAttr::LinkLayerAddress(b) => {
                if b@.len() == 6 || b@.len() == 8 {
                    MacAddr::lemma_spec_from_octets(b@);
                    assert(mac_in_attrs(attrs, b@));
                }
            },
            NeighAttr::Other => {},
        }
        assert(neigh_scan(ifindex, state, attrs, rets) == neigh_step(ifindex, state, st, a));
        let after = neigh_scan(ifindex, state, attrs, rets).2;
        assert(after == st.2 || after == record(ifindex, state, pre).2);
        assert forall|i: int| rets.len() <= i < after.len() implies {
            let n = #[trigger] after[i];
            &&& n.ifindex == ifindex
            &&& n.state == state
            &&& ip_in_attrs(attrs, n.ip)
            &&& mac_in_attrs(attrs, n.mac@)
        } by {
            if i < st.2.len() {
                assert(after[i] == st.2[i]);
            }
        }
    }
}

/// Every neighbor that scanning a message adds is on the message's
/// interface, in the message's state, with an IP address that one of its
/// `Destination` attributes gives and the octets of one of its
/// `LinkLayerAddress` attributes; the neighbors already there stay, in
/// order.
pub proof fn law_scan_neigh_sources(ifindex: u32, state: u16, attrs: Seq<NeighAttr>, rets: Seq<LinuxNetNeigh>)
    ensures
        rets.is_prefix_of(neigh_scan(ifindex, state, attrs, rets).2),
        forall|i: int|
            rets.len() <= i < neigh_scan(ifindex, state, attrs, rets).2.len() ==> {
                let n = #[trigger] neigh_scan(ifindex, state, attrs, rets).2[i];
                &&& n.ifindex == ifindex
                &&& n.state == state
                &&& ip_in_attrs(attrs, n.ip)
                &&& mac_in_attrs(attrs, n.mac@)
            },
{
    lemma_scan_sources(ifindex, state, attrs, rets);
}

/// No IP address occurs twice among the neighbors `s`.
pub open spec fn unique_ips(s: Seq<LinuxNetNeigh>) -> bool {
    forall|i: int, j: int| 0 <= i < s.len() && 0 <= j < s.len() && i != j ==> s[i].ip != s[j].ip
}

/// Scanning a message only adds neighbors, and never one whose IP address
/// is already there: distinct addresses stay distinct.
pub proof fn law_scan_unique_ips(ifindex: u32, state: u16, attrs: Seq<NeighAttr>, rets: Seq<LinuxNetNeigh>)
    requires
        unique_ips(rets),
    ensures
        unique_ips(neigh_scan(ifindex, state, attrs, rets).2),
        rets.is_prefix_of(neigh_scan(ifindex, state, attrs, rets).2),
    decreases attrs.len(),
{
    if attrs.len() > 0 {
        law_scan_unique_ips(ifindex, state, attrs.drop_last(), rets);
        let st = neigh_scan(ifindex, state, attrs.drop_last(), rets);
        let a = attrs.last();
        let pre = match a {
            NeighAttr::Destination(d) => (dest_ip(d), st.1, st.2),
            NeighAttr::LinkLayerAddress(b) => if b@.len() == 6 || b@.len() == 8 {
                (st.0, Some(MacAddr::spec_from_octets(b@)), st.2)
            } else {
                st
            },
            NeighAttr::Other => st,
        };
        lemma_record_unique(ifindex, state, pre);
    }
}

/// Recording keeps distinct addresses distinct and only appends.
proof fn lemma_record_unique(ifindex: u32, state: u16, st: (Option<IpAddr>, Option<MacAddr>, Seq<LinuxNetNeigh>))
    requires
        unique_ips(st.2),
    ensures
        unique_ips(record(ifindex, state, st).2),
        st.2.is_prefix_of(record(ifindex, state, st).2),
{
    let after = record(ifindex, state, st).2;
    if after != st.2 {
        let ip = st.0.unwrap();
        assert(!has_ip(st.2, ip));
        assert forall|i: int, j: int| 0 <= i < after.len() && 0 <= j < after.len() && i != j implies after[i].ip != after[j].ip by {
            if i < st.2.len() && j < st.2.len() {
                assert(after[i] == st.2[i] && after[j] == st.2[j]);
            } else if i < st.2.len() {
                assert(after[i] == st.2[i]);
            } else {
                assert(after[j] == st.2[j]);
            }
        }
    }
}

} // verus!
