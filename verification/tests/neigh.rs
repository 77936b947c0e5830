use crossnet::iface::MacAddr;
use crossnet::ip::IpAddr;
use crossnet::neigh::linux::{scan_neigh_message, LinuxNetNeigh, NeighAddr, NeighAttr, NeighMsg};
use crossnet::neigh::windows::{
    get_net_ifs, get_net_neighs, sockaddr_inet_to_ipaddr, utf16_array_to_string, SockaddrInet, WinIfRow, WinNeighRow,
    AF_INET, AF_INET6,
};
use crossnet::neigh::{add_net_if, neighbor_cache_from, MacInfo, NeighborCache, NetIf};

fn v4(a: u8, b: u8, c: u8, d: u8) -> IpAddr {
    IpAddr::V4(u32::from_be_bytes([a, b, c, d]))
}

fn mac(last: u8) -> MacAddr {
    MacAddr::new(0x02, 0, 0, 0, 0, last)
}

#[test]
fn cache_insert_then_search() {
    let mut c = NeighborCache::new();
    assert_eq!(c.search_mac(&v4(10, 0, 0, 1)), None);
    c.insert(v4(10, 0, 0, 1), MacInfo::new(mac(1), Some(2), None));
    c.insert(v4(10, 0, 0, 2), MacInfo::new(mac(2), Some(2), None));
    assert_eq!(c.search_mac(&v4(10, 0, 0, 1)), Some(mac(1)));
    c.insert(v4(10, 0, 0, 1), MacInfo::new(mac(3), None, Some("en0".to_string())));
    assert_eq!(c.search_mac(&v4(10, 0, 0, 1)), Some(mac(3)));
    assert_eq!(c.search_mac(&v4(10, 0, 0, 2)), Some(mac(2)));
    assert_eq!(c.entries().len(), 2);
}

#[test]
fn cache_from_list_last_wins() {
    let c = neighbor_cache_from(vec![
        (v4(1, 1, 1, 1), MacInfo::new(mac(1), Some(1), None)),
        (IpAddr::V6(1), MacInfo::new(mac(2), Some(1), None)),
        (v4(1, 1, 1, 1), MacInfo::new(mac(3), Some(4), None)),
    ]);
    assert_eq!(c.search_mac(&v4(1, 1, 1, 1)), Some(mac(3)));
    assert_eq!(c.search_mac(&IpAddr::V6(1)), Some(mac(2)));
    assert_eq!(c.search_mac(&IpAddr::V6(2)), None);
    assert_eq!(c.entries().len(), 2);
}

#[test]
fn interface_name_by_index() {
    let ifs = vec![
        NetIf { ifname: "lo".to_string(), ifindex: 1 },
        NetIf { ifname: "eth0".to_string(), ifindex: 2 },
        NetIf { ifname: "eth0-dup".to_string(), ifindex: 2 },
    ];
    assert_eq!(MacInfo::new(mac(1), Some(2), None).interface_name(&ifs), Some("eth0".to_string()));
    assert_eq!(MacInfo::new(mac(1), Some(7), None).interface_name(&ifs), None);
    assert_eq!(MacInfo::new(mac(1), None, Some("en0".to_string())).interface_name(&ifs), None);
}

#[test]
fn net_if_equality_and_adding() {
    let a = NetIf { ifname: "a".to_string(), ifindex: 3 };
    let b = NetIf { ifname: "b".to_string(), ifindex: 3 };
    assert!(a == b);
    let mut v = Vec::new();
    add_net_if(&mut v, a);
    add_net_if(&mut v, b);
    add_net_if(&mut v, NetIf { ifname: "c".to_string(), ifindex: 4 });
    assert_eq!(v.len(), 2);
    assert_eq!(v[0].ifname, "a");
    assert_eq!(v[1].ifname, "c");
}

#[test]
fn linux_scan_records_pairs_once() {
    let m = NeighMsg {
        ifindex: 2,
        state: 2,
        attrs: vec![
            NeighAttr::Destination(NeighAddr::Inet(u32::from_be_bytes([192, 168, 5, 2]))),
            NeighAttr::LinkLayerAddress(vec![0, 0x50, 0x56, 0xc0, 0, 8]),
            NeighAttr::Other,
        ],
    };
    let mut rets: Vec<LinuxNetNeigh> = Vec::new();
    scan_neigh_message(&m, &mut rets);
    assert_eq!(rets.len(), 1);
    assert_eq!(rets[0].ip, v4(192, 168, 5, 2));
    assert_eq!(rets[0].mac, MacAddr::new(0, 0x50, 0x56, 0xc0, 0, 8));
    assert_eq!(rets[0].ifindex, 2);
    scan_neigh_message(&m, &mut rets);
    assert_eq!(rets.len(), 1);
}

#[test]
fn linux_scan_raw_addresses_and_bad_lengths() {
    let m = NeighMsg {
        ifindex: 3,
        state: 4,
        attrs: vec![
            NeighAttr::LinkLayerAddress(vec![1, 2, 3]),
            NeighAttr::Destination(NeighAddr::Other(vec![10, 0, 0, 9])),
            NeighAttr::LinkLayerAddress(vec![1, 2, 3, 4, 5, 6, 7, 8]),
            NeighAttr::Destination(NeighAddr::Other(vec![1, 2, 3])),
            NeighAttr::Destination(NeighAddr::Inet6(5)),
        ],
    };
    let mut rets: Vec<LinuxNetNeigh> = Vec::new();
    scan_neigh_message(&m, &mut rets);
    assert_eq!(rets.len(), 2);
    assert_eq!(rets[0].ip, v4(10, 0, 0, 9));
    assert_eq!(rets[0].mac, MacAddr::new_eui64(1, 2, 3, 4, 5, 6, 7, 8));
    assert_eq!(rets[1].ip, IpAddr::V6(5));
    assert_eq!(rets[1].state, 4);
}

#[test]
fn utf16_stops_at_nul_and_replaces() {
    let units: Vec<u16> = "Ethernet".encode_utf16().chain([0, 65, 66]).collect();
    assert_eq!(utf16_array_to_string(&units), "Ethernet");
    let units: Vec<u16> = vec![0x0057, 0xD83D, 0xDE00, 0xD800, 0x0041];
    assert_eq!(utf16_array_to_string(&units), "W\u{1F600}\u{FFFD}A");
    assert_eq!(utf16_array_to_string(&vec![]), "");
}

#[test]
fn windows_interfaces_first_name_wins() {
    let rows = vec![
        WinIfRow { interface_index: 1, alias: "Loopback".encode_utf16().chain([0]).collect() },
        WinIfRow { interface_index: 7, alias: "Wi-Fi".encode_utf16().collect() },
        WinIfRow { interface_index: 1, alias: "Other".encode_utf16().collect() },
    ];
    let ifs = get_net_ifs(&rows);
    assert_eq!(ifs.len(), 2);
    assert_eq!(ifs[0].ifname, "Loopback");
    assert_eq!(ifs[1].ifname, "Wi-Fi");
    assert_eq!(ifs[1].ifindex, 7);
}

fn row(len: u32, bytes: Vec<u8>, family: u16, ipv4: u32) -> WinNeighRow {
    let mut physical_address = bytes;
    physical_address.resize(32, 0);
    WinNeighRow {
        physical_address_length: len,
        physical_address,
        interface_index: 9,
        state: 5,
        address: SockaddrInet { si_family: family, ipv4, ipv6: 0 },
    }
}

#[test]
fn windows_neighbors() {
    let rows = vec![
        row(0, vec![], AF_INET, 1),
        row(6, vec![1, 2, 3, 4, 5, 6], AF_INET, 2),
        row(4, vec![1, 2, 3, 4], AF_INET, 3),
        row(6, vec![9, 9, 9, 9, 9, 9], AF_INET, 2),
        row(8, vec![1, 2, 3, 4, 5, 6, 7, 8], 99, 4),
        row(8, vec![1, 2, 3, 4, 5, 6, 7, 8], AF_INET6, 4),
    ];
    let ns = get_net_neighs(&rows).unwrap();
    assert_eq!(ns.len(), 2);
    assert_eq!(ns[0].ip, IpAddr::V4(2));
    assert_eq!(ns[0].mac, MacAddr::new(1, 2, 3, 4, 5, 6));
    assert_eq!(ns[0].if_index, 9);
    assert_eq!(ns[1].ip, IpAddr::V6(0));
    assert!(ns[0] != ns[1]);
}

#[test]
fn windows_sockaddr_families() {
    let a = SockaddrInet { si_family: AF_INET, ipv4: 7, ipv6: 8 };
    assert_eq!(sockaddr_inet_to_ipaddr(&a).unwrap(), Some(IpAddr::V4(7)));
    let a = SockaddrInet { si_family: AF_INET6, ipv4: 7, ipv6: 8 };
    assert_eq!(sockaddr_inet_to_ipaddr(&a).unwrap(), Some(IpAddr::V6(8)));
    let a = SockaddrInet { si_family: 0, ipv4: 7, ipv6: 8 };
    assert_eq!(sockaddr_inet_to_ipaddr(&a).unwrap(), None);
}

#[test]
fn ip_from_octets() {
    assert_eq!(IpAddr::from_octets(&vec![192, 168, 0, 1]), Some(v4(192, 168, 0, 1)));
    let mut b = vec![0u8; 16];
    b[15] = 1;
    b[0] = 0xfe;
    assert_eq!(IpAddr::from_octets(&b), Some(IpAddr::V6((0xfe << 120) | 1)));
    assert_eq!(IpAddr::from_octets(&vec![1, 2]), None);
}
