use crossnet::error::CrossNetError;
use crossnet::iface::MacAddr;

#[test]
fn new_gives_eui48_octets() {
    let m = MacAddr::new(0xaa, 0xbb, 0xcc, 0xdd, 0xee, 0xff);
    assert_eq!(m.octets(), vec![0xaa, 0xbb, 0xcc, 0xdd, 0xee, 0xff]);
    assert!(m.is_eui48());
    assert!(!m.is_eui64());
}

#[test]
fn zero_is_all_zero() {
    let m = MacAddr::zero();
    assert_eq!(m.octets(), vec![0; 6]);
    assert_eq!(m.to_string(), "00:00:00:00:00:00");
}

#[test]
fn new_eui64_gives_eight_octets() {
    let m = MacAddr::new_eui64(1, 2, 3, 4, 5, 6, 7, 8);
    assert!(m.is_eui64());
    assert!(!m.is_eui48());
    assert_eq!(m.to_string(), "01:02:03:04:05:06:07:08");
}

#[test]
fn to_string_is_lowercase_two_digits() {
    let m = MacAddr::new_eui48(0x0a, 0xB0, 0x00, 0xff, 0x10, 0x01);
    assert_eq!(m.to_string(), "0a:b0:00:ff:10:01");
}

#[test]
fn from_str_reads_eui48() {
    let m = MacAddr::from_str("AA:bb:0C:d:ee:FF").unwrap();
    assert_eq!(m.octets(), vec![0xaa, 0xbb, 0x0c, 0x0d, 0xee, 0xff]);
    assert!(m.is_eui48());
}

#[test]
fn from_str_reads_eui64() {
    let m = MacAddr::from_str("00:11:22:33:44:55:66:77").unwrap();
    assert_eq!(m, MacAddr::new_eui64(0, 0x11, 0x22, 0x33, 0x44, 0x55, 0x66, 0x77));
}

#[test]
fn from_str_accepts_plus_and_leading_zeros() {
    let m = MacAddr::from_str("+1:0002:3:4:5:6").unwrap();
    assert_eq!(m, MacAddr::new(1, 2, 3, 4, 5, 6));
}

fn parse_error_text(s: &str) -> String {
    match MacAddr::from_str(s) {
        Err(CrossNetError::ParseMacAddrErr { mac }) => mac,
        Err(e) => panic!("unexpected error {:?}", e),
        Ok(m) => panic!("unexpected address {:?}", m),
    }
}

#[test]
fn from_str_refuses_wrong_counts() {
    assert_eq!(parse_error_text(""), "");
    assert_eq!(parse_error_text("aa:bb:cc:dd:ee"), "aa:bb:cc:dd:ee");
    assert_eq!(parse_error_text("1:2:3:4:5:6:7"), "1:2:3:4:5:6:7");
    assert_eq!(parse_error_text("1:2:3:4:5:6:7:8:9"), "1:2:3:4:5:6:7:8:9");
}

#[test]
fn from_str_refuses_bad_octets() {
    assert_eq!(parse_error_text("aa:bb:cc:dd:ee:fg"), "aa:bb:cc:dd:ee:fg");
    assert_eq!(parse_error_text("aa:bb:cc:dd:ee:100"), "aa:bb:cc:dd:ee:100");
    assert_eq!(parse_error_text("aa:bb:cc:dd::ff"), "aa:bb:cc:dd::ff");
    assert_eq!(parse_error_text("aa:bb:cc:dd:ee:+"), "aa:bb:cc:dd:ee:+");
    assert_eq!(parse_error_text("aa:bb:cc:dd:ee:-1"), "aa:bb:cc:dd:ee:-1");
    assert_eq!(parse_error_text(" aa:bb:cc:dd:ee:ff"), " aa:bb:cc:dd:ee:ff");
}

#[test]
fn to_string_then_from_str_roundtrip() {
    for m in [
        MacAddr::new(0xde, 0xad, 0xbe, 0xef, 0x00, 0x01),
        MacAddr::zero(),
        MacAddr::new_eui64(0xff, 0xfe, 0xfd, 0xfc, 0xfb, 0xfa, 0xf9, 0xf8),
    ] {
        assert_eq!(MacAddr::from_str(&m.to_string()).unwrap(), m);
    }
}

#[test]
fn from_octets_by_length() {
    assert_eq!(MacAddr::from_octets(&vec![1, 2, 3, 4, 5, 6]), Some(MacAddr::new(1, 2, 3, 4, 5, 6)));
    assert_eq!(
        MacAddr::from_octets(&vec![1, 2, 3, 4, 5, 6, 7, 8]),
        Some(MacAddr::new_eui64(1, 2, 3, 4, 5, 6, 7, 8))
    );
    assert_eq!(MacAddr::from_octets(&vec![1, 2, 3, 4, 5]), None);
    assert_eq!(MacAddr::from_octets(&vec![]), None);
}

#[test]
fn canonical_text_reads_and_writes_back() {
    for t in ["0a:1b:2c:3d:4e:5f", "00:00:00:00:00:00", "ff:ee:dd:cc:bb:aa:99:88"] {
        let m = MacAddr::from_str(t).unwrap();
        assert_eq!(m.to_string(), t);
    }
    let m = MacAddr::from_str("A:0B:c:d:e:f").unwrap();
    assert_eq!(m.to_string(), "0a:0b:0c:0d:0e:0f");
}
