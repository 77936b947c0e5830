//! Routes, the routing table, and the choice of a route for a destination.
use vstd::prelude::*;
use vstd::std_specs::cmp::PartialEqSpecImpl;
use crate::error::CrossNetError;
use crate::iface::NetFamily;
use crate::ip::{IpAddr, IpPool};
use crate::rtmsg::RouteEntry;
use subnetwork::NetmaskExt;


pub mod bsd;
pub mod linux;
pub mod macos;
pub mod unix;

verus! {

/// Where a route leads: a whole network, or a single address.
#[derive(Debug, Clone, Copy, PartialEq, Eq, Hash, Structural)]
pub enum NetRouteAddr {
    IpPool(IpPool),
    IpAddr(IpAddr),
}

/// Two route targets are equal exactly when they are of the same kind and
/// hold equal values: an address never equals a network, not even the
/// network that holds that address alone.
pub proof fn law_route_addr_eq(a: NetRouteAddr, b: NetRouteAddr)
    ensures
        (a == b) == match (a, b) {
            (NetRouteAddr::IpPool(p), NetRouteAddr::IpPool(q)) => p == q,
            (NetRouteAddr::IpAddr(x), NetRouteAddr::IpAddr(y)) => x == y,
            _ => false,
        },
{
}

/// Indicates the type of network route,
/// default route or normal route.
/// Default route is the route that has no destination address,
/// and it is used when there is no other route that matches the destination address of a packet.
/// Normal route is the route that has a specific destination address,
/// and it is used when there is a matching route for the destination address of a packet.
#[derive(Debug, Clone, Copy, PartialEq, Eq, PartialOrd, Ord, Hash, Structural)]
pub enum NetType {
    Normal,
    Default,
}

/// A route of the routing table. Two routes compare equal when their
/// destinations do.
#[derive(Debug, Clone, Copy)]
pub struct NetRoute {
    pub dst: Option<NetRouteAddr>,
    pub src: Option<NetRouteAddr>,
    pub gateway: Option<NetRouteAddr>,
    pub ntype: NetType,
    pub family: NetFamily,
}

/// The routes that the Linux kernel reports have the same shape.
pub type LinuxNetRoute = NetRoute;

impl PartialEq for NetRoute {
    fn eq(&self, other: &Self) -> (r: bool) {
        self.dst == other.dst
    }
}

impl PartialEqSpecImpl for NetRoute {
    open spec fn obeys_eq_spec() -> bool {
        true
    }

    open spec fn eq_spec(&self, other: &Self) -> bool {
        self.dst == other.dst
    }
}

/// What the text of a route shows: its destination, or else its gateway,
/// each with the source when there is one; nothing when it has neither.
#[derive(Debug, Clone, Copy, PartialEq, Eq, Structural)]
pub enum RouteShown {
    Dst(NetRouteAddr, Option<NetRouteAddr>),
    Gateway(NetRouteAddr, Option<NetRouteAddr>),
    Nothing,
}

impl NetRoute {
    /// What the text of this route shows: the destination if there is one,
    /// else the gateway if there is one, each with the source.
    pub fn shown(&self) -> (r: RouteShown)
        ensures
            r == (match (self.dst, self.gateway) {
                (Some(d), _) => RouteShown::Dst(d, self.src),
                (None, Some(g)) => RouteShown::Gateway(g, self.src),
                (None, None) => RouteShown::Nothing,
            }),
    {
        if let Some(dst) = self.dst {
            RouteShown::Dst(dst, self.src)
        } else if let Some(gateway) = self.gateway {
            RouteShown::Gateway(gateway, self.src)
        } else {
            RouteShown::Nothing
        }
    }
}

/// The destination of `route` covers `ip`: a network that holds it, or the
/// address itself.
pub open spec fn dst_covers(route: NetRoute, ip: IpAddr) -> bool {
    match route.dst {
        Some(NetRouteAddr::IpPool(pool)) => pool.spec_contains(ip),
        Some(NetRouteAddr::IpAddr(a)) => a == ip,
        None => false,
    }
}

/// `route` is a default route of the family of `ip`.
pub open spec fn is_default_for(route: NetRoute, ip: IpAddr) -> bool {
    route.ntype == NetType::Default && route.family == ip.spec_family()
}

/// The index of the first route of `routes` whose destination covers `ip`.
pub open spec fn first_covering(routes: Seq<NetRoute>, ip: IpAddr) -> Option<int>
    decreases routes.len(),
{
    if routes.len() == 0 {
        None
    } else {
        match first_covering(routes.drop_last(), ip) {
            Some(i) => Some(i),
            None => if dst_covers(routes.last(), ip) {
                Some(routes.len() - 1)
            } else {
                None
            },
        }
    }
}

/// The index of the first default route of `routes` of the family of `ip`.
pub open spec fn first_default(routes: Seq<NetRoute>, ip: IpAddr) -> Option<int>
    decreases routes.len(),
{
    if routes.len() == 0 {
        None
    } else {
        match first_default(routes.drop_last(), ip) {
            Some(i) => Some(i),
            None => if is_default_for(routes.last(), ip) {
                Some(routes.len() - 1)
            } else {
                None
            },
        }
    }
}

/// The route chosen for `ip`: the first whose destination covers `ip`; if
/// there is none, the first default route of the family of `ip`.
pub open spec fn chosen_route(routes: Seq<NetRoute>, ip: IpAddr) -> Option<NetRoute> {
    match first_covering(routes, ip) {
        Some(i) => Some(routes[i]),
        None => match first_default(routes, ip) {
            Some(i) => Some(routes[i]),
            None => None,
        },
    }
}

/// `first_covering` gives the first index whose route covers `ip`.
pub proof fn lemma_first_covering(routes: Seq<NetRoute>, ip: IpAddr)
    ensures
        match first_covering(routes, ip) {
            Some(i) => 0 <= i < routes.len() && dst_covers(routes[i], ip) && forall|j: int|
                0 <= j < i ==> !dst_covers(#[trigger] routes[j], ip),
            None => forall|j: int| 0 <= j < routes.len() ==> !dst_covers(#[trigger] routes[j], ip),
        },
    decreases routes.len(),
{
    if routes.len() > 0 {
        let init = routes.drop_last();
        lemma_first_covering(init, ip);
        assert forall|j: int| 0 <= j < init.len() implies init[j] == routes[j] by {}
    }
}

/// `first_default` gives the first index of a default route for `ip`.
pub proof fn lemma_first_default(routes: Seq<NetRoute>, ip: IpAddr)
    ensures
        match first_default(routes, ip) {
            Some(i) => 0 <= i < routes.len() && is_default_for(routes[i], ip) && forall|j: int|
                0 <= j < i ==> !is_default_for(#[trigger] routes[j], ip),
            None => forall|j: int| 0 <= j < routes.len() ==> !is_default_for(#[trigger] routes[j], ip),
        },
    decreases routes.len(),
{
    if routes.len() > 0 {
        let init = routes.drop_last();
        lemma_first_default(init, ip);
        assert forall|j: int| 0 <= j < init.len() implies init[j] == routes[j] by {}
    }
}


/// What a route address of `addr` with prefix length `prefix` becomes: the
/// address itself when the prefix length is 0, else the network of that
/// prefix length; `None` when that network is refused (prefix length above
/// the family's largest).
pub open spec fn converted_addr(addr: Option<IpAddr>, prefix: u8) -> Option<Option<NetRouteAddr>> {
    match addr {
        None => Some(None),
        Some(a) => if prefix == 0 {
            Some(Some(NetRouteAddr::IpAddr(a)))
        } else if prefix <= IpPool::max_prefix(a) {
            Some(Some(NetRouteAddr::IpPool(IpPool::spec_new(a, prefix))))
        } else {
            None
        },
    }
}

/// Turns an optional address and its prefix length into a route address:
/// the address itself for prefix length 0, else its network, which
/// `subnetwork` may refuse with `IpPoolError`.
pub fn convert_addr(addr: Option<IpAddr>, prefix: u8) -> (r: Result<Option<NetRouteAddr>, CrossNetError>)
    ensures
        match r {
            Ok(x) => converted_addr(addr, prefix) == Some(x),
            Err(e) => converted_addr(addr, prefix) is None && e is IpPoolError,
        },
{
    match addr {
        Some(a) => {
            if prefix != 0 {
                match IpPool::new(a, prefix) {
                    Ok(pool) => Ok(Some(NetRouteAddr::IpPool(pool))),
                    Err(e) => Err(e),
                }
            } else {
                Ok(Some(NetRouteAddr::IpAddr(a)))
            }
        },
        None => Ok(None),
    }
}


/// The number of one bits among the lowest `n` bits of `x`.
pub open spec fn ones(x: int, n: nat) -> nat
    decreases n,
{
    if n == 0 {
        0
    } else {
        ones(x / 2, (n - 1) as nat) + (x % 2) as nat
    }
}

/// The prefix length of a netmask: the number of its one bits.
pub open spec fn netmask_prefix(mask: IpAddr) -> nat {
    match mask {
        IpAddr::V4(m) => ones(m as int, 32),
        IpAddr::V6(m) => ones(m as int, 128),
    }
}

/// At most `n` of the lowest `n` bits are set.
pub proof fn lemma_ones_bound(x: int, n: nat)
    ensures
        ones(x, n) <= n,
    decreases n,
{
    if n > 0 {
        lemma_ones_bound(x / 2, (n - 1) as nat);
    }
}

/// `subnetwork::NetmaskExt::from_addr(mask).get_prefix()`: the number of one
/// bits of the netmask (`count_ones` of its octets read big-endian).
#[verifier::external_body]
fn netmask_ext_prefix(mask: IpAddr) -> (p: u8)
    ensures
        p == netmask_prefix(mask),
{
    match mask {
        IpAddr::V4(m) => NetmaskExt::from_addr(m.to_be_bytes().into()).get_prefix(),
        IpAddr::V6(m) => NetmaskExt::from_addr(m.to_be_bytes().into()).get_prefix(),
    }
}

/// The route that a routing-table entry describes: `Some(None)` when the
/// destination, gateway, netmask or interface name is missing; `None` when
/// the destination network is refused. A destination whose netmask covers
/// the whole address stays an address, any other becomes the network of
/// the netmask's prefix length; the gateway stays an address.
pub open spec fn route_of_entry(e: (Option<IpAddr>, Option<IpAddr>, Option<IpAddr>, Option<Seq<char>>, i32)) -> Option<Option<NetRoute>> {
    match (e.0, e.1, e.2, e.3) {
        (Some(dst), Some(gateway), Some(mask), Some(_)) => {
            let prefix = netmask_prefix(mask);
            let full = IpPool::max_prefix(dst);
            let d = if prefix == full {
                Some(NetRouteAddr::IpAddr(dst))
            } else if prefix <= full {
                Some(NetRouteAddr::IpPool(IpPool::spec_new(dst, prefix as u8)))
            } else {
                None
            };
            match d {
                None => None,
                Some(d) => Some(Some(NetRoute {
                    dst: Some(d),
                    src: None,
                    gateway: Some(NetRouteAddr::IpAddr(gateway)),
                    ntype: NetType::Normal,
                    family: dst.spec_family(),
                })),
            }
        },
        _ => Some(None),
    }
}

/// A route read from a routing-table entry always has a destination and is
/// a normal route.
pub proof fn law_entry_route_has_destination(e: (Option<IpAddr>, Option<IpAddr>, Option<IpAddr>, Option<Seq<char>>, i32))
    ensures
        route_of_entry(e) matches Some(Some(r)) ==> r.dst is Some && r.ntype == NetType::Normal,
{
}

/// The entry, if complete, has a netmask with at least one bit set, which
/// is what building its destination network asks.
pub open spec fn entry_mask_nonzero(e: (Option<IpAddr>, Option<IpAddr>, Option<IpAddr>, Option<Seq<char>>, i32)) -> bool {
    match (e.0, e.1, e.2, e.3) {
        (Some(_), Some(_), Some(mask), Some(_)) => netmask_prefix(mask) != 0,
        _ => true,
    }
}

/// The route of one routing-table entry, as `route_of_entry` describes;
/// `IpPoolError` when the destination network is refused.
pub fn route_from_entry(e: &RouteEntry) -> (r: Result<Option<NetRoute>, CrossNetError>)
    requires
        entry_mask_nonzero(e@),
    ensures
        match r {
            Ok(x) => route_of_entry(e@) == Some(x),
            Err(err) => route_of_entry(e@) is None && err is IpPoolError,
        },
{
    match (e.destination, e.gateway, e.netmask, &e.ifname) {
        (Some(dst), Some(gateway), Some(netmask), Some(_)) => {
            let prefix = netmask_ext_prefix(netmask);
            proof {
                match netmask {
                    IpAddr::V4(m) => lemma_ones_bound(m as int, 32),
                    IpAddr::V6(m) => lemma_ones_bound(m as int, 128),
                }
            }
            let (full, family): (u8, NetFamily) = match dst {
                IpAddr::V4(_) => (32, NetFamily::Ipv4),
                IpAddr::V6(_) => (128, NetFamily::Ipv6),
            };
            let d = if prefix == full {
                NetRouteAddr::IpAddr(dst)
            } else {
                match IpPool::new(dst, prefix) {
                    Ok(pool) => NetRouteAddr::IpPool(pool),
                    Err(err) => return Err(err),
                }
            };
            Ok(Some(NetRoute {
                dst: Some(d),
                src: None,
                gateway: Some(NetRouteAddr::IpAddr(gateway)),
                ntype: NetType::Normal,
                family,
            }))
        },
        _ => Ok(None),
    }
}

/// The routes of the entries `es`, in order, leaving out incomplete ones;
/// `None` as soon as one destination network is refused.
pub open spec fn routes_of_entries(es: Seq<RouteEntry>) -> Option<Seq<NetRoute>>
    decreases es.len(),
{
    if es.len() == 0 {
        Some(Seq::empty())
    } else {
        match routes_of_entries(es.drop_last()) {
            None => None,
            Some(rs) => match route_of_entry(es.last()@) {
                None => None,
                Some(None) => Some(rs),
                Some(Some(r)) => Some(rs.push(r)),
            },
        }
    }
}

/// The routes of the routing-table entries `es`, as `routes_of_entries`
/// describes; `IpPoolError` when a destination network is refused.
pub fn routes_from_entries(es: &Vec<RouteEntry>) -> (r: Result<Vec<NetRoute>, CrossNetError>)
    requires
        forall|k: int| 0 <= k < es@.len() ==> entry_mask_nonzero(#[trigger] es@[k]@),
    ensures
        match r {
            Ok(v) => routes_of_entries(es@) == Some(v@),
            Err(err) => routes_of_entries(es@) is None && err is IpPoolError,
        },
{
    let mut rets: Vec<NetRoute> = Vec::new();
    assert(es@.take(0) =~= Seq::<RouteEntry>::empty());
    for i in 0..es.len()
        invariant
            forall|k: int| 0 <= k < es@.len() ==> entry_mask_nonzero(#[trigger] es@[k]@),
            routes_of_entries(es@.take(i as int)) == Some(rets@),
    {
        assert(es@.take(i + 1).drop_last() =~= es@.take(i as int));
        assert(es@.take(i + 1).last() == es@[i as int]);
        match route_from_entry(&es[i]) {
            Ok(Some(route)) => rets.push(route),
            Ok(None) => {},
            Err(err) => {
                assert(routes_of_entries(es@.take(i + 1)) is None);
                proof {
                    lemma_routes_of_entries_none(es@, i + 1);
                }
                return Err(err);
            },
        }
    }
    assert(es@.take(es.len() as int) =~= es@);
    Ok(rets)
}

/// Once a prefix of the entries fails, all of them do.
proof fn lemma_routes_of_entries_none(es: Seq<RouteEntry>, n: int)
    requires
        0 <= n <= es.len(),
        routes_of_entries(es.take(n)) is None,
    ensures
        routes_of_entries(es) is None,
    decreases es.len() - n,
{
    if n < es.len() {
        assert(es.take(n + 1).drop_last() =~= es.take(n));
        lemma_routes_of_entries_none(es, n + 1);
    } else {
        assert(es.take(n) =~= es);
    }
}

/// A route whose destination covers an address is always chosen over
/// default routes: the search then gives a route, and its destination
/// covers the address. Whatever the search gives is a route of the table,
/// covering the address or a default route of its family. Among covering
/// routes the earliest in the table wins; when none covers the address,
/// the earliest default route of its family wins.
pub proof fn law_search_route(routes: Seq<NetRoute>, ip: IpAddr)
    ensures
        (exists|i: int| 0 <= i < routes.len() && dst_covers(#[trigger] routes[i], ip)) ==> (
        chosen_route(routes, ip) matches Some(r) && dst_covers(r, ip)),
        chosen_route(routes, ip) matches Some(r) ==> (exists|i: int|
            0 <= i < routes.len() && #[trigger] routes[i] == r) && (dst_covers(r, ip) || is_default_for(r, ip)),
        chosen_route(routes, ip) is None ==> forall|i: int|
            0 <= i < routes.len() ==> !dst_covers(#[trigger] routes[i], ip) && !is_default_for(routes[i], ip),
        forall|i: int|
            0 <= i < routes.len() && dst_covers(#[trigger] routes[i], ip) && (forall|j: int|
                0 <= j < i ==> !dst_covers(#[trigger] routes[j], ip)) ==> chosen_route(routes, ip) == Some(
                routes[i],
            ),
        (forall|j: int| 0 <= j < routes.len() ==> !dst_covers(#[trigger] routes[j], ip)) ==> forall|i: int|
            0 <= i < routes.len() && is_default_for(#[trigger] routes[i], ip) && (forall|j: int|
                0 <= j < i ==> !is_default_for(#[trigger] routes[j], ip)) ==> chosen_route(routes, ip) == Some(
                routes[i],
            ),
{
    lemma_first_covering(routes, ip);
    lemma_first_default(routes, ip);
}

/// The routing table.
pub struct RouteCache(Vec<NetRoute>);

impl View for RouteCache {
    type V = Seq<NetRoute>;

    closed spec fn view(&self) -> Seq<NetRoute> {
        self.0@
    }
}

/// A routing table holding `routes`, in order.
pub fn route_cache_from(routes: Vec<NetRoute>) -> (c: RouteCache)
    ensures
        c@ == routes@,
{
    RouteCache(routes)
}

impl RouteCache {
    /// The routes of the table, in order.
    pub fn routes(&self) -> (r: &Vec<NetRoute>)
        ensures
            r@ == self@,
    {
        &self.0
    }

    /// The route for `dst_addr`: the first whose destination network holds
    /// the address or whose destination is the address; when none matches,
    /// the first default route of the address's family; else `None`.
    pub fn search_route(&self, dst_addr: IpAddr) -> (r: Option<NetRoute>)
        ensures
            r == chosen_route(self@, dst_addr),
    {
        let routes = &self.0;
        proof {
            lemma_first_covering(routes@, dst_addr);
            lemma_first_default(routes@, dst_addr);
        }
        for i in 0..routes.len()
            invariant
                routes@ == self@,
                forall|j: int| 0 <= j < i ==> !dst_covers(#[trigger] routes@[j], dst_addr),
                match first_covering(routes@, dst_addr) {
                    Some(k) => 0 <= k < routes@.len() && dst_covers(routes@[k], dst_addr) && forall|j: int|
                        0 <= j < k ==> !dst_covers(#[trigger] routes@[j], dst_addr),
                    None => forall|j: int| 0 <= j < routes@.len() ==> !dst_covers(#[trigger] routes@[j], dst_addr),
                },
        {
            let route = &routes[i];
            let found = match &route.dst {
                Some(NetRouteAddr::IpPool(pool)) => pool.contains(dst_addr),
                Some(NetRouteAddr::IpAddr(addr)) => *addr == dst_addr,
                None => false,
            };
            if found {
                assert(dst_covers(routes@[i as int], dst_addr));
                return Some(*route);
            }
        }
        // no route found for the given destination address
        // now we use the default route if it exists
        let family = dst_addr.family();
        for i in 0..routes.len()
            invariant
                routes@ == self@,
                family == dst_addr.spec_family(),
                forall|j: int| 0 <= j < routes@.len() ==> !dst_covers(#[trigger] routes@[j], dst_addr),
                forall|j: int| 0 <= j < i ==> !is_default_for(#[trigger] routes@[j], dst_addr),
                match first_default(routes@, dst_addr) {
                    Some(k) => 0 <= k < routes@.len() && is_default_for(routes@[k], dst_addr) && forall|j: int|
                        0 <= j < k ==> !is_default_for(#[trigger] routes@[j], dst_addr),
                    None => forall|j: int| 0 <= j < routes@.len() ==> !is_default_for(#[trigger] routes@[j], dst_addr),
                },
                first_covering(routes@, dst_addr) is None,
        {
            let route = &routes[i];
            if route.ntype == NetType::Default && route.family == family {
                assert(is_default_for(routes@[i as int], dst_addr));
                return Some(*route);
            }
        }
        None
    }
}

} // verus!
