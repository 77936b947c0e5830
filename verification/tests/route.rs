use crossnet::error::CrossNetError;
use crossnet::iface::NetFamily;
use crossnet::ip::{IpAddr, IpPool};
use crossnet::route::linux::{route_from_message, MsgFamily, RouteAttr, RouteKind, RouteMsg};
use crossnet::route::{convert_addr, RouteShown, route_cache_from, route_from_entry, routes_from_entries, NetRoute, NetRouteAddr, NetType};
use crossnet::rtmsg::RouteEntry;

fn v4(a: u8, b: u8, c: u8, d: u8) -> IpAddr {
    IpAddr::V4(u32::from_be_bytes([a, b, c, d]))
}

fn pool(a: IpAddr, prefix: u8) -> NetRouteAddr {
    NetRouteAddr::IpPool(IpPool::new(a, prefix).unwrap())
}

fn route(dst: Option<NetRouteAddr>, gateway: Option<NetRouteAddr>, ntype: NetType, family: NetFamily) -> NetRoute {
    NetRoute { dst, src: None, gateway, ntype, family }
}

fn table() -> Vec<NetRoute> {
    vec![
        route(None, Some(NetRouteAddr::IpAddr(v4(192, 168, 5, 2))), NetType::Default, NetFamily::Ipv4),
        route(Some(pool(v4(192, 168, 5, 0), 24)), None, NetType::Normal, NetFamily::Ipv4),
        route(Some(NetRouteAddr::IpAddr(v4(127, 0, 0, 1))), None, NetType::Normal, NetFamily::Ipv4),
        route(Some(pool(v4(127, 0, 0, 0), 8)), None, NetType::Normal, NetFamily::Ipv4),
        route(Some(pool(IpAddr::V6(0xfe80 << 112), 64)), None, NetType::Normal, NetFamily::Ipv6),
    ]
}

#[test]
fn search_route_finds_network() {
    let cache = route_cache_from(table());
    let r = cache.search_route(v4(192, 168, 5, 78)).unwrap();
    assert_eq!(r.dst, Some(pool(v4(192, 168, 5, 0), 24)));
}

#[test]
fn search_route_prefers_first_covering_route() {
    let cache = route_cache_from(table());
    let r = cache.search_route(v4(127, 0, 0, 1)).unwrap();
    assert_eq!(r.dst, Some(NetRouteAddr::IpAddr(v4(127, 0, 0, 1))));
    let r = cache.search_route(v4(127, 0, 0, 2)).unwrap();
    assert_eq!(r.dst, Some(pool(v4(127, 0, 0, 0), 8)));
}

#[test]
fn search_route_falls_back_to_default_of_family() {
    let cache = route_cache_from(table());
    let r = cache.search_route(v4(8, 8, 8, 8)).unwrap();
    assert_eq!(r.ntype, NetType::Default);
    assert_eq!(r.gateway, Some(NetRouteAddr::IpAddr(v4(192, 168, 5, 2))));
}

#[test]
fn search_route_v6() {
    let cache = route_cache_from(table());
    let r = cache.search_route(IpAddr::V6((0xfe80 << 112) | 1)).unwrap();
    assert_eq!(r.family, NetFamily::Ipv6);
    assert_eq!(cache.search_route(IpAddr::V6(1)), None);
}

#[test]
fn search_route_empty_table() {
    let cache = route_cache_from(vec![]);
    assert_eq!(cache.search_route(v4(1, 1, 1, 1)), None);
}

#[test]
fn routes_compare_by_destination() {
    let a = route(Some(NetRouteAddr::IpAddr(v4(1, 2, 3, 4))), None, NetType::Normal, NetFamily::Ipv4);
    let b = route(Some(NetRouteAddr::IpAddr(v4(1, 2, 3, 4))), Some(NetRouteAddr::IpAddr(v4(9, 9, 9, 9))), NetType::Default, NetFamily::Ipv4);
    let c = route(Some(NetRouteAddr::IpAddr(v4(1, 2, 3, 5))), None, NetType::Normal, NetFamily::Ipv4);
    assert!(a == b);
    assert!(a != c);
}

#[test]
fn pool_refuses_long_prefix() {
    assert!(matches!(IpPool::new(v4(10, 0, 0, 0), 33), Err(CrossNetError::IpPoolError(_))));
    assert!(matches!(IpPool::new(IpAddr::V6(0), 129), Err(CrossNetError::IpPoolError(_))));
    let p = IpPool::new(v4(10, 1, 2, 3), 32).unwrap();
    assert!(p.contains(v4(10, 1, 2, 3)));
    assert!(!p.contains(v4(10, 1, 2, 4)));
    let p = IpPool::new(v4(10, 1, 2, 3), 16).unwrap();
    assert_eq!(p.addr(), v4(10, 1, 2, 3));
    assert_eq!(p.prefix(), 16);
    assert!(p.contains(v4(10, 1, 255, 255)));
    assert!(!p.contains(v4(10, 2, 0, 0)));
    assert!(!p.contains(IpAddr::V6(0)));
}

#[test]
fn convert_addr_by_prefix() {
    assert_eq!(convert_addr(None, 24).unwrap(), None);
    assert_eq!(convert_addr(Some(v4(1, 2, 3, 4)), 0).unwrap(), Some(NetRouteAddr::IpAddr(v4(1, 2, 3, 4))));
    assert_eq!(convert_addr(Some(v4(1, 2, 3, 4)), 24).unwrap(), Some(pool(v4(1, 2, 3, 4), 24)));
    assert!(matches!(convert_addr(Some(v4(1, 2, 3, 4)), 40), Err(CrossNetError::IpPoolError(_))));
}

fn msg(kind: RouteKind, family: MsgFamily, dst_prefix: u8, attrs: Vec<RouteAttr>) -> RouteMsg {
    RouteMsg { kind, family, dst_prefix, src_prefix: 0, attrs }
}

#[test]
fn linux_default_route_message() {
    let m = msg(RouteKind::Unicast, MsgFamily::Inet, 0, vec![RouteAttr::Other, RouteAttr::Gateway(v4(192, 168, 5, 2)), RouteAttr::Other]);
    let r = route_from_message(&m).unwrap().unwrap();
    assert_eq!(r.ntype, NetType::Default);
    assert_eq!(r.family, NetFamily::Ipv4);
    assert_eq!(r.dst, None);
    assert_eq!(r.gateway, Some(NetRouteAddr::IpAddr(v4(192, 168, 5, 2))));
}

#[test]
fn linux_network_route_message() {
    let m = msg(
        RouteKind::Local,
        MsgFamily::Inet,
        24,
        vec![RouteAttr::Destination(v4(192, 168, 5, 0)), RouteAttr::PrefSource(v4(192, 168, 5, 3))],
    );
    let r = route_from_message(&m).unwrap().unwrap();
    assert_eq!(r.ntype, NetType::Normal);
    assert_eq!(r.dst, Some(pool(v4(192, 168, 5, 0), 24)));
    assert_eq!(r.src, Some(NetRouteAddr::IpAddr(v4(192, 168, 5, 3))));
}

#[test]
fn linux_last_attribute_wins() {
    let m = msg(
        RouteKind::Unicast,
        MsgFamily::Inet6,
        128,
        vec![RouteAttr::Destination(IpAddr::V6(1)), RouteAttr::Destination(IpAddr::V6(2))],
    );
    let r = route_from_message(&m).unwrap().unwrap();
    assert_eq!(r.family, NetFamily::Ipv6);
    assert_eq!(r.dst, Some(pool(IpAddr::V6(2), 128)));
}

#[test]
fn linux_skipped_messages() {
    let m = msg(RouteKind::Other, MsgFamily::Inet, 0, vec![]);
    assert_eq!(route_from_message(&m).unwrap(), None);
    let m = msg(RouteKind::Unicast, MsgFamily::Other, 0, vec![]);
    assert_eq!(route_from_message(&m).unwrap(), None);
}

#[test]
fn linux_refused_network() {
    let m = msg(RouteKind::Unicast, MsgFamily::Inet, 33, vec![RouteAttr::Destination(v4(1, 0, 0, 0))]);
    assert!(matches!(route_from_message(&m), Err(CrossNetError::IpPoolError(_))));
}

fn entry(dst: Option<IpAddr>, gw: Option<IpAddr>, mask: Option<IpAddr>, ifname: Option<&str>) -> RouteEntry {
    RouteEntry { destination: dst, gateway: gw, netmask: mask, ifname: ifname.map(|s| s.to_string()), flags: 0 }
}

#[test]
fn entry_with_netmask_becomes_network() {
    let e = entry(Some(v4(10, 0, 0, 0)), Some(v4(10, 0, 0, 1)), Some(v4(255, 255, 255, 0)), Some("en0"));
    let r = route_from_entry(&e).unwrap().unwrap();
    assert_eq!(r.dst, Some(pool(v4(10, 0, 0, 0), 24)));
    assert_eq!(r.gateway, Some(NetRouteAddr::IpAddr(v4(10, 0, 0, 1))));
    assert_eq!(r.ntype, NetType::Normal);
    assert_eq!(r.family, NetFamily::Ipv4);
}

#[test]
fn entry_with_full_netmask_stays_address() {
    let e = entry(Some(v4(10, 0, 0, 7)), Some(v4(10, 0, 0, 1)), Some(v4(255, 255, 255, 255)), Some("en0"));
    let r = route_from_entry(&e).unwrap().unwrap();
    assert_eq!(r.dst, Some(NetRouteAddr::IpAddr(v4(10, 0, 0, 7))));
    let e = entry(Some(IpAddr::V6(5)), Some(IpAddr::V6(1)), Some(IpAddr::V6(u128::MAX)), Some("en0"));
    let r = route_from_entry(&e).unwrap().unwrap();
    assert_eq!(r.dst, Some(NetRouteAddr::IpAddr(IpAddr::V6(5))));
    assert_eq!(r.family, NetFamily::Ipv6);
}

#[test]
fn incomplete_entries_are_left_out() {
    let es = vec![
        entry(None, Some(v4(1, 1, 1, 1)), Some(v4(255, 0, 0, 0)), Some("en0")),
        entry(Some(v4(10, 0, 0, 0)), Some(v4(10, 0, 0, 1)), Some(v4(255, 0, 0, 0)), None),
        entry(Some(v4(10, 0, 0, 0)), Some(v4(10, 0, 0, 1)), Some(v4(255, 0, 0, 0)), Some("en0")),
    ];
    let rs = routes_from_entries(&es).unwrap();
    assert_eq!(rs.len(), 1);
    assert_eq!(rs[0].dst, Some(pool(v4(10, 0, 0, 0), 8)));
}

#[test]
fn entry_with_mismatched_netmask_is_refused() {
    let es = vec![entry(Some(v4(10, 0, 0, 0)), Some(v4(10, 0, 0, 1)), Some(IpAddr::V6(u128::MAX << 64)), Some("en0"))];
    assert!(matches!(routes_from_entries(&es), Err(CrossNetError::IpPoolError(_))));
}

#[test]
fn route_shows_destination_else_gateway() {
    let d = NetRouteAddr::IpAddr(v4(1, 2, 3, 4));
    let g = NetRouteAddr::IpAddr(v4(5, 6, 7, 8));
    let r = NetRoute { dst: Some(d), src: Some(g), gateway: Some(g), ntype: NetType::Normal, family: NetFamily::Ipv4 };
    assert_eq!(r.shown(), RouteShown::Dst(d, Some(g)));
    let r = NetRoute { dst: None, src: None, gateway: Some(g), ntype: NetType::Default, family: NetFamily::Ipv4 };
    assert_eq!(r.shown(), RouteShown::Gateway(g, None));
    let r = NetRoute { dst: None, src: Some(d), gateway: None, ntype: NetType::Default, family: NetFamily::Ipv4 };
    assert_eq!(r.shown(), RouteShown::Nothing);
}

#[test]
fn route_addr_equality_by_kind_and_value() {
    let x = v4(10, 0, 0, 1);
    assert_eq!(NetRouteAddr::IpAddr(x), NetRouteAddr::IpAddr(v4(10, 0, 0, 1)));
    assert_ne!(NetRouteAddr::IpAddr(x), NetRouteAddr::IpAddr(v4(10, 0, 0, 2)));
    assert_ne!(NetRouteAddr::IpAddr(x), pool(x, 32));
    assert_eq!(pool(x, 32), pool(v4(10, 0, 0, 1), 32));
    assert_ne!(pool(x, 24), pool(x, 32));
    let y = IpAddr::V6(1);
    assert_ne!(NetRouteAddr::IpAddr(y), pool(y, 128));
}
