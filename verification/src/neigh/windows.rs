//! Interfaces and neighbors as the Windows IP Helper tables list them.
use vstd::prelude::*;
use vstd::std_specs::cmp::PartialEqSpecImpl;
use crate::error::CrossNetError;
use crate::iface::MacAddr;
use crate::ip::IpAddr;
use crate::neigh::{add_net_if, has_ifindex, NetIf};

verus! {

/// What `String::from_utf16_lossy` makes of the code units `u`: a unit
/// outside the surrogate range is its own character, a high surrogate
/// followed by a low one is the character they encode, and every other
/// surrogate becomes U+FFFD.
pub open spec fn utf16_lossy(u: Seq<u16>) -> Seq<char>
    decreases u.len(),
{
    if u.len() == 0 {
        Seq::empty()
    } else if u[0] < 0xD800 || u[0] > 0xDFFF {
        seq![u[0] as char] + utf16_lossy(u.drop_first())
    } else if u[0] <= 0xDBFF && u.len() >= 2 && 0xDC00 <= u[1] <= 0xDFFF {
        seq![((u[0] - 0xD800) * 1024 + (u[1] - 0xDC00) + 0x10000) as char] + utf16_lossy(
            u.subrange(2, u.len() as int),
        )
    } else {
        seq!['\u{FFFD}'] + utf16_lossy(u.drop_first())
    }
}

/// `String::from_utf16_lossy`, which decodes UTF-16 and replaces each
/// unpaired surrogate with U+FFFD.
#[verifier::external_body]
fn string_from_utf16_lossy(units: &Vec<u16>) -> (s: String)
    ensures
        s@ == utf16_lossy(units@),
{
    String::from_utf16_lossy(units.as_slice())
}

/// The number of code units before the first 0, or all of them if there
/// is no 0.
pub open spec fn nul_len(buf: Seq<u16>) -> int {
    if exists|i: int| 0 <= i < buf.len() && buf[i] == 0 {
        choose|i: int| 0 <= i < buf.len() && buf[i] == 0 && forall|j: int| 0 <= j < i ==> buf[j] != 0
    } else {
        buf.len() as int
    }
}

/// `nul_len` is the one count of leading nonzero units that is followed
/// by a 0 or by the end.
proof fn lemma_nul_len(buf: Seq<u16>, n: int)
    requires
        0 <= n <= buf.len(),
        forall|j: int| 0 <= j < n ==> buf[j] != 0,
        n < buf.len() ==> buf[n] == 0,
    ensures
        nul_len(buf) == n,
{
    if n < buf.len() {
        assert(buf[n] == 0);
        assert(exists|i: int| 0 <= i < buf.len() && buf[i] == 0 && forall|j: int| 0 <= j < i ==> buf[j] != 0);
        let i = nul_len(buf);
        assert(0 <= i < buf.len() && buf[i] == 0 && forall|j: int| 0 <= j < i ==> buf[j] != 0);
        if i < n {
            assert(buf[i] != 0);
        } else if n < i {
            assert(buf[n] != 0);
        }
    } else {
        if exists|i: int| 0 <= i < buf.len() && buf[i] == 0 {
            let i = choose|i: int| 0 <= i < buf.len() && buf[i] == 0;
            assert(buf[i] != 0);
        }
    }
}

/// The text of a NUL-terminated UTF-16 buffer: the units before the first
/// 0 (all of them if there is none), decoded with replacement of invalid
/// units.
pub fn utf16_array_to_string(buf: &Vec<u16>) -> (s: String)
    ensures
        s@ == utf16_lossy(buf@.take(nul_len(buf@))),
{
    let mut found = false;
    let mut units: Vec<u16> = Vec::new();
    for i in 0..buf.len()
        invariant
            units@.len() <= i,
            units@ == buf@.take(units@.len() as int),
            forall|j: int| 0 <= j < units@.len() ==> buf@[j] != 0,
            found ==> units@.len() < buf@.len() && buf@[units@.len() as int] == 0,
            !found ==> units@.len() == i,
    {
        if !found {
            if buf[i] == 0 {
                found = true;
            } else {
                units.push(buf[i]);
                assert(buf@.take(i + 1) =~= buf@.take(i as int).push(buf@[i as int]));
            }
        }
    }
    let s = string_from_utf16_lossy(&units);
    proof {
        lemma_nul_len(buf@, units@.len() as int);
    }
    s
}

/// One row of the interface table: index and alias.
#[derive(Debug, Clone)]
pub struct WinIfRow {
    pub interface_index: u32,
    pub alias: Vec<u16>,
}

/// The interfaces of the rows `rows` as (name, index), each index once,
/// the first row with an index giving its name.
pub open spec fn ifs_of_rows(rows: Seq<WinIfRow>) -> Seq<(Seq<char>, u32)>
    decreases rows.len(),
{
    if rows.len() == 0 {
        Seq::empty()
    } else {
        let prev = ifs_of_rows(rows.drop_last());
        let r = rows.last();
        if exists|j: int| 0 <= j < prev.len() && (#[trigger] prev[j]).1 == r.interface_index {
            prev
        } else {
            prev.push((utf16_lossy(r.alias@.take(nul_len(r.alias@))), r.interface_index))
        }
    }
}

/// The interfaces of the rows of the interface table: each row gives the
/// interface of its index, named by its alias, unless an earlier row had
/// the same index.
pub fn get_net_ifs(rows: &Vec<WinIfRow>) -> (rets: Vec<NetIf>)
    ensures
        rets@.map_values(|n: NetIf| (n.ifname@, n.ifindex)) == ifs_of_rows(rows@),
{
    let mut rets: Vec<NetIf> = Vec::new();
    assert(rows@.take(0) =~= Seq::<WinIfRow>::empty());
    assert(rets@.map_values(|n: NetIf| (n.ifname@, n.ifindex)) =~= Seq::empty());
    for i in 0..rows.len()
        invariant
            rets@.map_values(|n: NetIf| (n.ifname@, n.ifindex)) == ifs_of_rows(rows@.take(i as int)),
    {
        assert(rows@.take(i + 1).drop_last() =~= rows@.take(i as int));
        let ghost prev = rets@;
        let ghost pv = prev.map_values(|n: NetIf| (n.ifname@, n.ifindex));
        let row = &rows[i];
        let n = NetIf { ifname: utf16_array_to_string(&row.alias), ifindex: row.interface_index };
        let ghost nv = (n.ifname@, n.ifindex);
        add_net_if(&mut rets, n);
        proof {
            if has_ifindex(prev, row.interface_index) {
                let j = choose|j: int| 0 <= j < prev.len() && (#[trigger] prev[j]).ifindex == row.interface_index;
                assert(pv[j].1 == row.interface_index);
            } else {
                assert forall|j: int| 0 <= j < pv.len() implies (#[trigger] pv[j]).1 != row.interface_index by {
                    assert(prev[j].ifindex != row.interface_index);
                }
                assert(rets@.map_values(|n: NetIf| (n.ifname@, n.ifindex)) =~= pv.push(nv));
            }
        }
    }
    assert(rows@.take(rows.len() as int) =~= rows@);
    rets
}

/// The address of a `SOCKADDR_INET`: its family, and the address in the
/// IPv4 and IPv6 members of the union (the one that the family does not
/// name is not read).
#[derive(Debug, Clone, Copy)]
pub struct SockaddrInet {
    pub si_family: u16,
    pub ipv4: u32,
    pub ipv6: u128,
}

/// The address family number of IPv4 on Windows.
pub const AF_INET: u16 = 2;

/// The address family number of IPv6 on Windows.
pub const AF_INET6: u16 = 23;

/// The IP address of a `SOCKADDR_INET`: IPv4 or IPv6 by its family, none
/// for another family.
pub open spec fn sockaddr_ip(addr: SockaddrInet) -> Option<IpAddr> {
    if addr.si_family == AF_INET {
        Some(IpAddr::V4(addr.ipv4))
    } else if addr.si_family == AF_INET6 {
        Some(IpAddr::V6(addr.ipv6))
    } else {
        None
    }
}

/// The IP address of a `SOCKADDR_INET`, as `sockaddr_ip` describes; it
/// never fails.
pub fn sockaddr_inet_to_ipaddr(addr: &SockaddrInet) -> (r: Result<Option<IpAddr>, CrossNetError>)
    ensures
        r == Ok::<_, CrossNetError>(sockaddr_ip(*addr)),
{
    let family = addr.si_family;
    if family == AF_INET {
        Ok(Some(IpAddr::V4(addr.ipv4)))
    } else if family == AF_INET6 {
        Ok(Some(IpAddr::V6(addr.ipv6)))
    } else {
        Ok(None)
    }
}

/// One row of the neighbor table: the physical address (its length and
/// its buffer), the interface index, the state and the IP address.
#[derive(Debug, Clone)]
pub struct WinNeighRow {
    pub physical_address_length: u32,
    pub physical_address: Vec<u8>,
    pub interface_index: u32,
    pub state: i32,
    pub address: SockaddrInet,
}

/// A neighbor on Windows. Two neighbors compare equal when their IP
/// addresses do.
#[derive(Debug, Clone, Copy)]
pub struct WindowsNetNeigh {
    pub if_index: u32,
    pub ip: IpAddr,
    pub mac: MacAddr,
    pub state: i32,
}

impl PartialEq for WindowsNetNeigh {
    fn eq(&self, other: &Self) -> (r: bool) {
        self.ip == other.ip
    }
}

impl PartialEqSpecImpl for WindowsNetNeigh {
    open spec fn obeys_eq_spec() -> bool {
        true
    }

    open spec fn eq_spec(&self, other: &Self) -> bool {
        self.ip == other.ip
    }
}

/// The physical address of the row fits in its buffer.
pub open spec fn row_ok(row: WinNeighRow) -> bool {
    row.physical_address_length <= row.physical_address@.len()
}

/// The neighbors of the rows `rows`, in order: a row gives one when its
/// physical address has six or eight octets, its family is IPv4 or IPv6,
/// and no earlier neighbor has its IP address.
pub open spec fn neighs_of_rows(rows: Seq<WinNeighRow>) -> Seq<WindowsNetNeigh>
    decreases rows.len(),
{
    if rows.len() == 0 {
        Seq::empty()
    } else {
        let prev = neighs_of_rows(rows.drop_last());
        let r = rows.last();
        let len = r.physical_address_length as int;
        let bytes = r.physical_address@.take(len);
        if len != 6 && len != 8 {
            prev
        } else {
            match sockaddr_ip(r.address) {
                None => prev,
                Some(ip) => if exists|j: int| 0 <= j < prev.len() && (#[trigger] prev[j]).ip == ip {
                    prev
                } else {
                    prev.push(
                        WindowsNetNeigh {
                            if_index: r.interface_index,
                            ip,
                            mac: MacAddr::spec_from_octets(bytes),
                            state: r.state,
                        },
                    )
                },
            }
        }
    }
}

/// The neighbors of the rows of the neighbor table, as `neighs_of_rows`
/// describes; reading an address never fails, so neither does this.
pub fn get_net_neighs(rows: &Vec<WinNeighRow>) -> (r: Result<Vec<WindowsNetNeigh>, CrossNetError>)
    requires
        forall|k: int| 0 <= k < rows@.len() ==> row_ok(#[trigger] rows@[k]),
    ensures
        r matches Ok(v) && v@ == neighs_of_rows(rows@),
{
    let mut rets: Vec<WindowsNetNeigh> = Vec::new();
    assert(rows@.take(0) =~= Seq::<WinNeighRow>::empty());
    for i in 0..rows.len()
        invariant
            forall|k: int| 0 <= k < rows@.len() ==> row_ok(#[trigger] rows@[k]),
            rets@ == neighs_of_rows(rows@.take(i as int)),
    {
        assert(rows@.take(i + 1).drop_last() =~= rows@.take(i as int));
        assert(rows@.take(i + 1).last() == rows@[i as int]);
        let row = &rows[i];
        assert(row_ok(*row));
        if row.physical_address_length != 0 {
            let state = row.state;
            let if_index = row.interface_index;
            let ip = sockaddr_inet_to_ipaddr(&row.address)?;
            let len = row.physical_address_length as usize;
            let mut mac_bytes: Vec<u8> = Vec::new();
            for k in 0..len
                invariant
                    len <= row.physical_address@.len(),
                    mac_bytes@ == row.physical_address@.take(k as int),
            {
                mac_bytes.push(row.physical_address[k]);
                assert(row.physical_address@.take(k + 1) =~= row.physical_address@.take(k as int).push(
                    row.physical_address@[k as int],
                ));
            }
            if let Some(mac) = MacAddr::from_octets(&mac_bytes) {
                if let Some(ip) = ip {
                    let n = WindowsNetNeigh { if_index, ip, mac, state };
                    let mut seen = false;
                    for j in 0..rets.len()
                        invariant
                            seen == exists|q: int| 0 <= q < j && (#[trigger] rets@[q]).ip == ip,
                    {
                        if rets[j].ip == ip {
                            seen = true;
                        }
                    }
                    if !seen {
                        rets.push(n);
                    }
                }
            }
        }
    }
    assert(rows@.take(rows.len() as int) =~= rows@);
    Ok(rets)
}

/// The neighbor `n` is what the row `row` says: its physical address has
/// six or eight octets and gives the hardware address, its family is IPv4
/// or IPv6 (`AF_INET`, 2, or `AF_INET6`, 23) and its address of that family
/// is the IP address, and the interface index and state are the row's.
pub open spec fn row_gives(row: WinNeighRow, n: WindowsNetNeigh) -> bool {
    let len = row.physical_address_length as int;
    &&& len == 6 || len == 8
    &&& n.mac@ == row.physical_address@.take(len)
    &&& n.if_index == row.interface_index
    &&& n.state == row.state
    &&& row.address.si_family == 2 || row.address.si_family == 23
    &&& n.ip == (if row.address.si_family == 2 {
        IpAddr::V4(row.address.ipv4)
    } else {
        IpAddr::V6(row.address.ipv6)
    })
}

/// Every neighbor read from the table is what one of its rows says, and
/// every row with a six- or eight-octet physical address and an IPv4 or
/// IPv6 address has its IP address among the neighbors.
pub proof fn law_neighs_from_rows(rows: Seq<WinNeighRow>)
    requires
        forall|k: int| 0 <= k < rows.len() ==> row_ok(#[trigger] rows[k]),
    ensures
        forall|i: int|
            0 <= i < neighs_of_rows(rows).len() ==> exists|k: int|
                0 <= k < rows.len() && row_gives(#[trigger] rows[k], #[trigger] neighs_of_rows(rows)[i]),
        forall|k: int|
            0 <= k < rows.len() && ((#[trigger] rows[k]).physical_address_length == 6
                || rows[k].physical_address_length == 8) && (rows[k].address.si_family == 2
                || rows[k].address.si_family == 23) ==> exists|i: int|
                0 <= i < neighs_of_rows(rows).len() && (#[trigger] neighs_of_rows(rows)[i]).ip == (if rows[k].address.si_family
                    == 2 {
                    IpAddr::V4(rows[k].address.ipv4)
                } else {
                    IpAddr::V6(rows[k].address.ipv6)
                }),
    decreases rows.len(),
{
    if rows.len() > 0 {
        let n = rows.len() - 1;
        let init = rows.drop_last();
        assert forall|k: int| 0 <= k < init.len() implies row_ok(#[trigger] init[k]) by {
            assert(init[k] == rows[k]);
        }
        law_neighs_from_rows(init);
        let prev = neighs_of_rows(init);
        let out = neighs_of_rows(rows);
        let r = rows[n];
        assert(rows.last() == r);
        assert(row_ok(r));
        assert(prev.is_prefix_of(out) && out.len() <= prev.len() + 1);
        assert forall|i: int| 0 <= i < out.len() implies exists|k: int|
            0 <= k < rows.len() && row_gives(#[trigger] rows[k], #[trigger] out[i]) by {
            if i < prev.len() {
                assert(out[i] == prev[i]);
                let k = choose|k: int| 0 <= k < init.len() && row_gives(#[trigger] init[k], #[trigger] prev[i]);
                assert(rows[k] == init[k]);
            } else {
                let len = r.physical_address_length as int;
                MacAddr::lemma_spec_from_octets(r.physical_address@.take(len));
                assert(row_gives(rows[n], out[i]));
            }
        }
        assert forall|k: int|
            0 <= k < rows.len() && ((#[trigger] rows[k]).physical_address_length == 6
                || rows[k].physical_address_length == 8) && (rows[k].address.si_family == 2
                || rows[k].address.si_family == 23) implies exists|i: int|
                0 <= i < out.len() && (#[trigger] out[i]).ip == (if rows[k].address.si_family == 2 {
                    IpAddr::V4(rows[k].address.ipv4)
                } else {
                    IpAddr::V6(rows[k].address.ipv6)
                }) by {
            if k < n {
                assert(rows[k] == init[k]);
                let i = choose|i: int|
                    0 <= i < prev.len() && (#[trigger] prev[i]).ip == (if init[k].address.si_family == 2 {
                        IpAddr::V4(init[k].address.ipv4)
                    } else {
                        IpAddr::V6(init[k].address.ipv6)
                    });
                assert(out[i] == prev[i]);
            } else {
                let ip = sockaddr_ip(r.address).unwrap();
                if exists|j: int| 0 <= j < prev.len() && (#[trigger] prev[j]).ip == ip {
                    let j = choose|j: int| 0 <= j < prev.len() && (#[trigger] prev[j]).ip == ip;
                    assert(out[j] == prev[j]);
                } else {
                    assert(out[prev.len() as int].ip == ip);
                }
            }
        }
    }
}

/// The neighbors read from the table never share an IP address.
pub proof fn law_neighs_unique_ips(rows: Seq<WinNeighRow>)
    ensures
        forall|i: int, j: int|
            0 <= i < neighs_of_rows(rows).len() && 0 <= j < neighs_of_rows(rows).len() && i != j
                ==> (#[trigger] neighs_of_rows(rows)[i]).ip != (#[trigger] neighs_of_rows(rows)[j]).ip,
    decreases rows.len(),
{
    if rows.len() > 0 {
        law_neighs_unique_ips(rows.drop_last());
        let prev = neighs_of_rows(rows.drop_last());
        let after = neighs_of_rows(rows);
        if after != prev {
            assert forall|i: int, j: int| 0 <= i < after.len() && 0 <= j < after.len() && i != j implies (#[trigger] after[i]).ip != (#[trigger] after[j]).ip by {
                if i < prev.len() && j < prev.len() {
                    assert(after[i] == prev[i] && after[j] == prev[j]);
                } else if i < prev.len() {
                    assert(after[i] == prev[i]);
                } else {
                    assert(after[j] == prev[j]);
                }
            }
        }
    }
}

} // verus!
