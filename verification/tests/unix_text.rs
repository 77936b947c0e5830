use crossnet::iface::NetFamily;
use crossnet::ip::IpAddr;
use crossnet::route::unix::{get_net_routes, pick_gateway, search_route};

const NETSTAT: &str = "Routing tables\n\nInternet:\nDestination        Gateway            Flags               Netif Expire\ndefault            192.168.0.1        UGScg                 en0\ndefault            link#20            UCSIg           bridge100      !\n127.0.0.1          127.0.0.1          UH                    lo0\n\nInternet6:\ndefault                                 fe80::face:21ff:fe39:5bf4%en0           UGcg                  en0\r\n";

#[test]
fn netstat_default_routes() {
    let rs = get_net_routes(&NETSTAT.as_bytes().to_vec());
    assert_eq!(rs.len(), 2);
    assert_eq!(rs[0].via.as_deref(), Some("192.168.0.1"));
    assert_eq!(rs[0].family, NetFamily::Ipv4);
    assert_eq!(rs[0].if_name.as_deref(), Some("en0"));
    assert_eq!(rs[1].via.as_deref(), Some("fe80::face:21ff:fe39:5bf4"));
    assert_eq!(rs[1].family, NetFamily::Ipv6);
    assert_eq!(rs[1].if_name.as_deref(), Some("en0"));
}

#[test]
fn netstat_without_defaults() {
    assert_eq!(get_net_routes(&b"nothing here\n".to_vec()).len(), 0);
    assert_eq!(get_net_routes(&Vec::new()).len(), 0);
}

#[test]
fn route_get_output() {
    let out = "   route to: 1.1.1.1\ndestination: default\n       mask: default\n    gateway: 192.168.0.1\n  interface: en0\n      flags: <UP,GATEWAY,DONE,STATIC,PRCLONING,GLOBAL>\n";
    let r = search_route(&out.as_bytes().to_vec());
    assert_eq!(r.interface.as_deref(), Some("en0"));
    assert_eq!(r.gateways, vec!["192.168.0.1".to_string()]);
}

#[test]
fn route_get_without_gateway() {
    let out = "   route to: 192.168.5.3\ndestination: 192.168.5.0\n  interface: bridge101\n    gateway:   \n";
    let r = search_route(&out.as_bytes().to_vec());
    assert_eq!(r.interface.as_deref(), Some("bridge101"));
    assert!(r.gateways.is_empty());
}

#[test]
fn gateway_is_the_last_address() {
    let a = IpAddr::V4(0xc0a8_0001);
    let b = IpAddr::V6(1);
    assert_eq!(pick_gateway(&vec![]), Ok(None));
    assert_eq!(pick_gateway(&vec![Some(a)]), Ok(Some(a)));
    assert_eq!(pick_gateway(&vec![Some(a), Some(b)]), Ok(Some(b)));
}

#[test]
fn gateway_search_stops_at_the_first_bad_value() {
    let a = IpAddr::V4(0xc0a8_0001);
    assert_eq!(pick_gateway(&vec![None]), Err(0));
    assert_eq!(pick_gateway(&vec![Some(a), None, Some(a), None]), Err(1));
}
