use crossnet::error::CrossNetError;
use crossnet::ip::{IpAddr, IpPool};
use crossnet::neigh::macos::{get_net_neighs as macos_neighs, list_neighbors, roundup_sa as neigh_roundup};
use crossnet::route::bsd::{list_routes as bsd_list_routes, roundup_sa as bsd_roundup};
use crossnet::route::macos::{get_net_routes as macos_routes, list_routes as macos_list_routes, roundup_sa as macos_roundup};
use crossnet::route::NetRouteAddr;
use crossnet::rtmsg::{message_offsets, RtFlavor, RtLayout};

const MACOS: RtLayout = RtLayout { hdr_len: 92, rtm_version: 5, af_inet: 2, af_inet6: 30, af_link: 18, sockaddr_len: 16 };
const FREEBSD: RtLayout = RtLayout { hdr_len: 16, rtm_version: 5, af_inet: 2, af_inet6: 28, af_link: 18, sockaddr_len: 16 };

fn pad_to(mut v: Vec<u8>, n: usize) -> Vec<u8> {
    v.resize(n, 0);
    v
}

fn sockaddr_in(a: [u8; 4]) -> Vec<u8> {
    pad_to(vec![16, 2, 0, 0, a[0], a[1], a[2], a[3]], 16)
}

fn sockaddr_in6(a: [u8; 16]) -> Vec<u8> {
    let mut v = vec![28, 30, 0, 0, 0, 0, 0, 0];
    v.extend_from_slice(&a);
    pad_to(v, 28)
}

fn sockaddr_dl(name: &str, lladdr: &[u8], room: usize) -> Vec<u8> {
    let len = 8 + name.len() + lladdr.len();
    let mut v = vec![len as u8, 18, 4, 0, 6, name.len() as u8, lladdr.len() as u8, 0];
    v.extend_from_slice(name.as_bytes());
    v.extend_from_slice(lladdr);
    pad_to(v, room)
}

fn message(hdr_len: usize, version: u8, flags: i32, mask: u8, addrs: &[Vec<u8>]) -> Vec<u8> {
    let body: usize = addrs.iter().map(|a| a.len()).sum();
    let msglen = (hdr_len + body) as u16;
    let mut v = vec![0u8; hdr_len];
    v[0..2].copy_from_slice(&msglen.to_le_bytes());
    v[2] = version;
    v[8..12].copy_from_slice(&flags.to_le_bytes());
    v[12] = mask;
    for a in addrs {
        v.extend_from_slice(a);
    }
    v
}

#[test]
fn roundups() {
    assert_eq!(neigh_roundup(0), 4);
    assert_eq!(neigh_roundup(1), 4);
    assert_eq!(neigh_roundup(16), 16);
    assert_eq!(neigh_roundup(17), 20);
    let w = std::mem::size_of::<usize>();
    assert_eq!(macos_roundup(0), 0);
    assert_eq!(macos_roundup(1), w);
    assert_eq!(macos_roundup(17), 24);
    let a = std::mem::align_of::<usize>();
    assert_eq!(bsd_roundup(a + 1), 2 * a);
    assert_eq!(bsd_roundup(16), 16);
}

#[test]
fn roundups_at_the_top_of_usize() {
    let a = std::mem::align_of::<usize>();
    let top = usize::MAX - (a - 1);
    assert_eq!(bsd_roundup(top), top);
    assert_eq!(bsd_roundup(top - 1), top);
    let w = std::mem::size_of::<usize>();
    let wtop = usize::MAX - (w - 1);
    assert_eq!(macos_roundup(wtop), wtop);
    assert_eq!(macos_roundup(wtop - w + 1), wtop);
}

#[test]
fn macos_neighbor_message() {
    let lladdr = [0xf8, 0xce, 0x21, 0x39, 0x5b, 0xf4];
    let mut buf = message(92, 5, 0x404, 0x13, &[sockaddr_in([192, 168, 0, 1]), sockaddr_dl("en0", &lladdr, 20), sockaddr_dl("en0", &[], 12)]);
    buf.extend(message(92, 4, 0, 0x13, &[sockaddr_in([192, 168, 0, 9])]));
    buf.extend(message(92, 5, 7, 0x01, &[sockaddr_in6([0xfe, 0x80, 0, 0, 0, 0, 0, 0, 0, 0, 0, 0, 0, 0, 0, 1])]));
    let es = list_neighbors(&buf, MACOS);
    assert_eq!(es.len(), 2);
    assert_eq!(es[0].ip, Some(IpAddr::V4(u32::from_be_bytes([192, 168, 0, 1]))));
    assert_eq!(es[0].lladdr.as_deref(), Some("f8:ce:21:39:5b:f4"));
    assert_eq!(es[0].ifname.as_deref(), Some("en0"));
    assert_eq!(es[0].flags, 0x404);
    assert_eq!(es[1].ip, Some(IpAddr::V6((0xfe80 << 112) | 1)));
    assert_eq!(es[1].lladdr, None);
    let ns = macos_neighs(es).unwrap();
    assert_eq!(ns.len(), 1);
    assert_eq!(ns[0].mac.octets(), lladdr.to_vec());
    assert_eq!(ns[0].ifname.as_deref(), Some("en0"));
    assert_eq!(ns[0].state, 0x404);
}

#[test]
fn macos_neighbor_with_short_lladdr_fails() {
    let buf = message(92, 5, 0, 0x03, &[sockaddr_in([10, 0, 0, 1]), sockaddr_dl("", &[1, 2, 3, 4], 12)]);
    let es = list_neighbors(&buf, MACOS);
    assert_eq!(es[0].lladdr.as_deref(), Some("01:02:03:04"));
    match macos_neighs(es) {
        Err(CrossNetError::ParseMacAddrErr { mac }) => assert_eq!(mac, "01:02:03:04"),
        other => panic!("unexpected {:?}", other),
    }
}

#[test]
fn message_walk_stops_at_zero_length() {
    let mut buf = message(92, 5, 0, 0, &[]);
    buf.extend(vec![0u8; 100]);
    buf.extend(message(92, 5, 0, 0, &[]));
    assert_eq!(message_offsets(&buf, MACOS, RtFlavor::MacosRoute), vec![0]);
    let short = vec![0u8; 50];
    assert_eq!(message_offsets(&short, MACOS, RtFlavor::MacosRoute), Vec::<usize>::new());
}

#[test]
fn macos_route_message() {
    let buf = message(
        92,
        5,
        3,
        0x17,
        &[sockaddr_in([10, 1, 0, 0]), sockaddr_in([10, 1, 0, 1]), sockaddr_in([255, 255, 0, 0]), sockaddr_dl("en1", &[], 16)],
    );
    let es = macos_list_routes(&buf, MACOS);
    assert_eq!(es.len(), 1);
    // The four IPv4 bytes are read in reverse order.
    assert_eq!(es[0].destination, Some(IpAddr::V4(u32::from_be_bytes([0, 0, 1, 10]))));
    assert_eq!(es[0].gateway, Some(IpAddr::V4(u32::from_be_bytes([1, 0, 1, 10]))));
    assert_eq!(es[0].netmask, Some(IpAddr::V4(u32::from_be_bytes([0, 0, 255, 255]))));
    assert_eq!(es[0].ifname.as_deref(), Some("en1"));
    let rs = macos_routes(&es).unwrap();
    assert_eq!(rs.len(), 1);
    let want = IpPool::new(IpAddr::V4(u32::from_be_bytes([0, 0, 1, 10])), 16).unwrap();
    assert_eq!(rs[0].dst, Some(NetRouteAddr::IpPool(want)));
}

#[test]
fn freebsd_walk_stops_past_message_end() {
    let mut dst = sockaddr_in([1, 2, 3, 4]);
    dst[0] = 0;
    let buf = message(16, 5, 0, 0x07, &[dst]);
    let es = bsd_list_routes(&buf, FREEBSD);
    assert_eq!(es.len(), 1);
    assert_eq!(es[0].destination, Some(IpAddr::V4(u32::from_be_bytes([4, 3, 2, 1]))));
    assert_eq!(es[0].gateway, None);
    assert_eq!(es[0].netmask, None);
}

#[test]
fn freebsd_refuses_message_shorter_than_header() {
    let mut buf = message(16, 5, 0, 0, &[]);
    buf[0] = 8;
    assert_eq!(bsd_list_routes(&buf, FREEBSD).len(), 0);
}
