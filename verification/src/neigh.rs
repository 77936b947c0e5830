//! Network interfaces, the neighbor (ARP / NDP) cache and its lookups.
use vstd::prelude::*;
use vstd::std_specs::cmp::PartialEqSpecImpl;
use crate::iface::MacAddr;
use crate::ip::IpAddr;

pub mod linux;
pub mod macos;
pub mod windows;



verus! {

/// A network interface: its name and its index. Two interfaces compare
/// equal when their indexes do.
#[derive(Debug, Clone)]
pub struct NetIf {
    pub ifname: String,
    pub ifindex: u32,
}

impl PartialEq for NetIf {
    fn eq(&self, other: &Self) -> (r: bool) {
        self.ifindex == other.ifindex
    }
}

impl PartialEqSpecImpl for NetIf {
    open spec fn obeys_eq_spec() -> bool {
        true
    }

    open spec fn eq_spec(&self, other: &Self) -> bool {
        self.ifindex == other.ifindex
    }
}

/// Some interface of `ifs` has index `ifindex`.
pub open spec fn has_ifindex(ifs: Seq<NetIf>, ifindex: u32) -> bool {
    exists|j: int| 0 <= j < ifs.len() && (#[trigger] ifs[j]).ifindex == ifindex
}

/// Adds `n` to `rets` unless an interface with the same index is there.
pub fn add_net_if(rets: &mut Vec<NetIf>, n: NetIf)
    ensures
        has_ifindex(old(rets)@, n.ifindex) ==> final(rets)@ == old(rets)@,
        !has_ifindex(old(rets)@, n.ifindex) ==> final(rets)@ == old(rets)@.push(n),
{
    for i in 0..rets.len()
        invariant
            rets@ == old(rets)@,
            forall|j: int| 0 <= j < i ==> (#[trigger] rets@[j]).ifindex != n.ifindex,
    {
        if rets[i].ifindex == n.ifindex {
            return;
        }
    }
    rets.push(n);
}

/// No index occurs twice among the interfaces `s`.
pub open spec fn unique_ifindexes(s: Seq<NetIf>) -> bool {
    forall|i: int, j: int| 0 <= i < s.len() && 0 <= j < s.len() && i != j ==> s[i].ifindex != s[j].ifindex
}

/// `add_net_if` keeps the indexes of the list distinct, and afterwards the
/// list has the index that was added.
pub proof fn law_add_net_if_unique(before: Seq<NetIf>, n: NetIf)
    requires
        unique_ifindexes(before),
    ensures
        ({
            let after = if has_ifindex(before, n.ifindex) {
                before
            } else {
                before.push(n)
            };
            unique_ifindexes(after) && has_ifindex(after, n.ifindex)
        }),
{
    if !has_ifindex(before, n.ifindex) {
        let after = before.push(n);
        assert(after[before.len() as int].ifindex == n.ifindex);
        assert forall|i: int, j: int| 0 <= i < after.len() && 0 <= j < after.len() && i != j implies after[i].ifindex != after[j].ifindex by {
            if i < before.len() && j < before.len() {
                assert(after[i] == before[i] && after[j] == before[j]);
            } else if i < before.len() {
                assert(after[i] == before[i]);
            } else {
                assert(after[j] == before[j]);
            }
        }
    }
}

/// What is known of the hardware address of a neighbor: the address, and
/// the interface it was seen on (by index where the system reports indexes,
/// by name where it reports names).
#[derive(Debug, Clone)]
pub struct MacInfo {
    mac: MacAddr,
    ifindex: Option<u32>,
    ifname: Option<String>,
}

impl MacInfo {
    pub closed spec fn spec_mac(self) -> MacAddr {
        self.mac
    }

    pub closed spec fn spec_ifindex(self) -> Option<u32> {
        self.ifindex
    }

    pub closed spec fn spec_ifname(self) -> Option<String> {
        self.ifname
    }

    /// The neighbor information of `mac` seen on the given interface.
    pub fn new(mac: MacAddr, ifindex: Option<u32>, ifname: Option<String>) -> (m: MacInfo)
        ensures
            m.spec_mac() == mac,
            m.spec_ifindex() == ifindex,
            m.spec_ifname() == ifname,
    {
        MacInfo { mac, ifindex, ifname }
    }

    /// The hardware address.
    pub fn mac(&self) -> (m: MacAddr)
        ensures
            m == self.spec_mac(),
    {
        self.mac
    }

    /// The index of the interface, where known.
    pub fn ifindex(&self) -> (i: Option<u32>)
        ensures
            i == self.spec_ifindex(),
    {
        self.ifindex
    }

    /// The name of the interface, where the system reported it.
    pub fn ifname(&self) -> (n: &Option<String>)
        ensures
            *n == self.spec_ifname(),
    {
        &self.ifname
    }

    /// The name of the interface this neighbor was seen on: the name of the
    /// first interface of `net_ifs` whose index is this entry's interface
    /// index; `None` when the entry has no index or no interface has it.
    pub fn interface_name(&self, net_ifs: &Vec<NetIf>) -> (r: Option<String>)
        ensures
            match self.spec_ifindex() {
                None => r is None,
                Some(ix) => match r {
                    Some(name) => exists|j: int|
                        0 <= j < net_ifs@.len() && net_ifs@[j].ifindex == ix && name@
                            == net_ifs@[j].ifname@ && forall|k: int|
                            0 <= k < j ==> (#[trigger] net_ifs@[k]).ifindex != ix,
                    None => !has_ifindex(net_ifs@, ix),
                },
            },
    {
        if let Some(iface) = &self.ifindex {
            for i in 0..net_ifs.len()
                invariant
                    self.ifindex == Some(*iface),
                    forall|k: int| 0 <= k < i ==> (#[trigger] net_ifs@[k]).ifindex != *iface,
            {
                if *iface == net_ifs[i].ifindex {
                    let name = net_ifs[i].ifname.clone();
                    assert(net_ifs@[i as int].ifindex == *iface && name@ == net_ifs@[i as int].ifname@);
                    return Some(name);
                }
            }
        }
        None
    }
}

/// The map that the entries `s` make when inserted in order: a later entry
/// for an address replaces an earlier one.
pub open spec fn entries_map(s: Seq<(IpAddr, MacInfo)>) -> Map<IpAddr, MacInfo>
    decreases s.len(),
{
    if s.len() == 0 {
        Map::empty()
    } else {
        entries_map(s.drop_last()).insert(s.last().0, s.last().1)
    }
}

/// No address occurs twice among the entries `s`.
pub open spec fn unique_keys(s: Seq<(IpAddr, MacInfo)>) -> bool {
    forall|i: int, j: int| 0 <= i < s.len() && 0 <= j < s.len() && i != j ==> s[i].0 != s[j].0
}

/// With distinct addresses, the map holds exactly the addresses of the
/// entries, each with its entry's information.
pub proof fn lemma_entries_map(s: Seq<(IpAddr, MacInfo)>)
    requires
        unique_keys(s),
    ensures
        forall|i: int| 0 <= i < s.len() ==> #[trigger] entries_map(s).contains_key(s[i].0) && entries_map(s)[s[i].0] == s[i].1,
        forall|k: IpAddr| entries_map(s).contains_key(k) ==> exists|i: int| 0 <= i < s.len() && (#[trigger] s[i]).0 == k,
    decreases s.len(),
{
    if s.len() > 0 {
        let init = s.drop_last();
        assert(unique_keys(init)) by {
            assert forall|i: int, j: int| 0 <= i < init.len() && 0 <= j < init.len() && i != j implies init[i].0 != init[j].0 by {
                assert(init[i] == s[i] && init[j] == s[j]);
            }
        }
        lemma_entries_map(init);
        assert forall|i: int| 0 <= i < s.len() implies #[trigger] entries_map(s).contains_key(s[i].0) && entries_map(s)[s[i].0] == s[i].1 by {
            if i < s.len() - 1 {
                assert(init[i] == s[i]);
                assert(entries_map(init).contains_key(init[i].0));
                assert(s[i].0 != s[s.len() - 1].0);
            }
        }
        assert forall|k: IpAddr| entries_map(s).contains_key(k) implies exists|i: int| 0 <= i < s.len() && (#[trigger] s[i]).0 == k by {
            if k != s.last().0 {
                assert(entries_map(init).contains_key(k));
                let i = choose|i: int| 0 <= i < init.len() && (#[trigger] init[i]).0 == k;
                assert(s[i] == init[i]);
            } else {
                assert(s[s.len() - 1].0 == k);
            }
        }
    }
}

/// Replacing the information of an address that occurs once is an insert.
pub proof fn lemma_entries_map_update(s: Seq<(IpAddr, MacInfo)>, i: int, v: MacInfo)
    requires
        unique_keys(s),
        0 <= i < s.len(),
    ensures
        entries_map(s.update(i, (s[i].0, v))) == entries_map(s).insert(s[i].0, v),
    decreases s.len(),
{
    let k = s[i].0;
    let t = s.update(i, (k, v));
    let init = s.drop_last();
    if i == s.len() - 1 {
        assert(t.drop_last() =~= init);
        assert(entries_map(t) =~= entries_map(s).insert(k, v));
    } else {
        assert(unique_keys(init)) by {
            assert forall|a: int, b: int| 0 <= a < init.len() && 0 <= b < init.len() && a != b implies init[a].0 != init[b].0 by {
                assert(init[a] == s[a] && init[b] == s[b]);
            }
        }
        lemma_entries_map_update(init, i, v);
        assert(t.drop_last() =~= init.update(i, (k, v)));
        assert(s.last().0 != k);
        assert(entries_map(t) =~= entries_map(s).insert(k, v));
    }
}

/// The neighbor cache: for each IP address, what is known of its hardware
/// address.
pub struct NeighborCache {
    entries: Vec<(IpAddr, MacInfo)>,
}

impl View for NeighborCache {
    type V = Map<IpAddr, MacInfo>;

    closed spec fn view(&self) -> Map<IpAddr, MacInfo> {
        entries_map(self.entries@)
    }
}

impl NeighborCache {
    #[verifier::type_invariant]
    spec fn wf(self) -> bool {
        unique_keys(self.entries@)
    }

    /// An empty cache.
    pub fn new() -> (c: NeighborCache)
        ensures
            c@ == Map::<IpAddr, MacInfo>::empty(),
    {
        NeighborCache { entries: Vec::new() }
    }

    /// Records `info` for `ip`, replacing what was recorded for it before.
    pub fn insert(&mut self, ip: IpAddr, info: MacInfo)
        ensures
            final(self)@ == old(self)@.insert(ip, info),
    {
        proof {
            use_type_invariant(&*self);
        }
        let mut entries: Vec<(IpAddr, MacInfo)> = Vec::new();
        std::mem::swap(&mut entries, &mut self.entries);
        let ghost s = entries@;
        let mut found: Option<usize> = None;
        for i in 0..entries.len()
            invariant
                entries@ == s,
                match found {
                    None => forall|j: int| 0 <= j < i ==> (#[trigger] s[j]).0 != ip,
                    Some(f) => f < i && s[f as int].0 == ip,
                },
        {
            if found.is_none() && entries[i].0 == ip {
                found = Some(i);
            }
        }
        match found {
            Some(i) => {
                proof {
                    lemma_entries_map_update(s, i as int, info);
                }
                entries.set(i, (ip, info));
                assert(unique_keys(entries@)) by {
                    assert forall|a: int, b: int| 0 <= a < entries@.len() && 0 <= b < entries@.len() && a != b implies entries@[a].0 != entries@[b].0 by {
                        assert(entries@[a].0 == s[a].0 && entries@[b].0 == s[b].0);
                    }
                }
            },
            None => {
                entries.push((ip, info));
                assert(entries@.drop_last() =~= s);
                assert(unique_keys(entries@)) by {
                    assert forall|a: int, b: int| 0 <= a < entries@.len() && 0 <= b < entries@.len() && a != b implies entries@[a].0 != entries@[b].0 by {
                        if a < s.len() && b < s.len() {
                            assert(entries@[a] == s[a] && entries@[b] == s[b]);
                        } else if a < s.len() {
                            assert(entries@[a] == s[a]);
                        } else {
                            assert(entries@[b] == s[b]);
                        }
                    }
                }
            },
        }
        self.entries = entries;
    }

    /// The entries of the cache, each address once.
    pub fn entries(&self) -> (e: &Vec<(IpAddr, MacInfo)>)
        ensures
            entries_map(e@) == self@,
            unique_keys(e@),
    {
        proof {
            use_type_invariant(self);
        }
        &self.entries
    }

    /// The hardware address recorded for `ip`, if any.
    pub fn search_mac(&self, ip: &IpAddr) -> (r: Option<MacAddr>)
        ensures
            r == (if self@.contains_key(*ip) {
                Some(self@[*ip].spec_mac())
            } else {
                None
            }),
    {
        proof {
            use_type_invariant(self);
        }
        let entries = &self.entries;
        for i in 0..entries.len()
            invariant
                entries@ == self.entries@,
                forall|j: int| 0 <= j < i ==> (#[trigger] entries@[j]).0 != *ip,
        {
            if entries[i].0 == *ip {
                proof {
                    use_type_invariant(self);
                    lemma_entries_map(self.entries@);
                    assert(entries_map(entries@).contains_key(entries@[i as int].0));
                }
                return Some(entries[i].1.mac());
            }
        }
        proof {
            lemma_entries_map(self.entries@);
        }
        None
    }
}

/// The neighbor cache made from `neighs` inserted in order, so that for an
/// address that occurs more than once the last entry counts.
pub fn neighbor_cache_from(neighs: Vec<(IpAddr, MacInfo)>) -> (c: NeighborCache)
    ensures
        c@ == entries_map(neighs@),
{
    let mut c = NeighborCache::new();
    let ghost s = neighs@;
    assert(s.take(0) =~= Seq::<(IpAddr, MacInfo)>::empty());
    for e in it: neighs.into_iter()
        invariant
            it.seq() == s,
            c@ == entries_map(s.take(it.index())),
    {
        assert(s.take(it.index() + 1).drop_last() =~= s.take(it.index()));
        c.insert(e.0, e.1);
    }
    assert(s.take(s.len() as int) =~= s);
    c
}

/// Reading back what was written: after `insert(ip, info)` the cache gives
/// `info`'s hardware address for `ip`, and every other address keeps what
/// it had.
pub proof fn law_insert_then_search(before: Map<IpAddr, MacInfo>, ip: IpAddr, info: MacInfo, other: IpAddr)
    ensures
        before.insert(ip, info).contains_key(ip),
        before.insert(ip, info)[ip].spec_mac() == info.spec_mac(),
        other != ip ==> before.insert(ip, info).contains_key(other) == before.contains_key(other),
        other != ip && before.contains_key(other) ==> before.insert(ip, info)[other] == before[other],
{
}

/// In a cache built from a list of neighbors, an address is known exactly
/// when some neighbor has it, and the information of the last such
/// neighbor is what counts.
pub proof fn law_cache_last_wins(s: Seq<(IpAddr, MacInfo)>, i: int)
    requires
        0 <= i < s.len(),
        forall|j: int| i < j < s.len() ==> (#[trigger] s[j]).0 != s[i].0,
    ensures
        entries_map(s).contains_key(s[i].0),
        entries_map(s)[s[i].0] == s[i].1,
    decreases s.len(),
{
    if i < s.len() - 1 {
        let init = s.drop_last();
        assert forall|j: int| i < j < init.len() implies (#[trigger] init[j]).0 != init[i].0 by {
            assert(init[j] == s[j] && init[i] == s[i]);
        }
        law_cache_last_wins(init, i);
        assert(s[s.len() - 1].0 != s[i].0);
        assert(init[i] == s[i]);
    }
}

/// An address that no neighbor of the list has is not in the cache.
pub proof fn law_cache_absent(s: Seq<(IpAddr, MacInfo)>, k: IpAddr)
    requires
        forall|j: int| 0 <= j < s.len() ==> (#[trigger] s[j]).0 != k,
    ensures
        !entries_map(s).contains_key(k),
    decreases s.len(),
{
    if s.len() > 0 {
        let init = s.drop_last();
        assert forall|j: int| 0 <= j < init.len() implies (#[trigger] init[j]).0 != k by {
            assert(init[j] == s[j]);
        }
        law_cache_absent(init, k);
        assert(s[s.len() - 1].0 != k);
    }
}

} // verus!
