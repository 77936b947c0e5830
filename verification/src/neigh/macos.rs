//! Neighbors read from the macOS neighbor cache (`sysctl` with
//! `NET_RT_FLAGS` and `RTF_LLINFO`).
use vstd::prelude::*;
use crate::error::CrossNetError;
use crate::iface::{mac_text, parse_mac_text, MacAddr};
use crate::ip::IpAddr;
use crate::rtmsg::{
    i32_at, layout_ok, msg_addrs, msg_offsets, opt_text, parse_ifname, parse_lladdr,
    parse_sockaddr_ip, read_i32, round_up, sa_ip, sa_link_bytes, sa_name_bytes, sockaddr_offsets,
    utf8_lossy, lemma_msg_offsets_bounds, message_offsets, u16_at, RtFlavor, RtLayout,
};

verus! {

/// Room that a socket address of length `len` takes: four bytes when the
/// length is 0, else the length rounded up to a multiple of four.
pub fn roundup_sa(len: usize) -> (r: usize)
    requires
        len + 3 <= usize::MAX,
    ensures
        r == (if len == 0 {
            4
        } else {
            round_up(len as int, 4)
        }),
{
    if len == 0 {
        4
    } else {
        let x = len + 3;
        let r = x & !3;
        assert(x & !3usize == (x / 4) * 4) by (bit_vector);
        r
    }
}

/// What is read of one neighbor message: the IP address, the link-level
/// address written as text, the interface name and the flags.
#[derive(Debug, Clone)]
pub struct NeighEntry {
    pub ip: Option<IpAddr>,
    pub lladdr: Option<String>,
    pub ifname: Option<String>,
    pub flags: i32,
}

impl View for NeighEntry {
    type V = (Option<IpAddr>, Option<Seq<char>>, Option<Seq<char>>, i32);

    open spec fn view(&self) -> Self::V {
        (self.ip, opt_text(self.lladdr), opt_text(self.ifname), self.flags)
    }
}

/// The neighbor entry of the message at `off`: socket address 0 gives the
/// IP address, socket address 1 the link-level address (as colon-separated
/// lowercase hexadecimal pairs), socket address 4 the interface name, and
/// the flags are at offset 8.
pub open spec fn neigh_entry_at(buf: Seq<u8>, lay: RtLayout, off: int) -> (
    Option<IpAddr>,
    Option<Seq<char>>,
    Option<Seq<char>>,
    i32,
) {
    let a = msg_addrs(buf, lay, RtFlavor::MacosNeighbor, off);
    (
        sa_ip(buf, lay, a[0], false),
        match sa_link_bytes(buf, lay, a[1]) {
            Some(b) => Some(mac_text(b)),
            None => None,
        },
        match sa_name_bytes(buf, lay, a[4]) {
            Some(b) => Some(utf8_lossy(b)),
            None => None,
        },
        i32_at(buf, off + 8),
    )
}

/// The entries of the neighbor messages in `buf` (what `sysctl` returned),
/// one per message of the layout's version, in order.
pub fn list_neighbors(buf: &Vec<u8>, lay: RtLayout) -> (r: Vec<NeighEntry>)
    requires
        layout_ok(lay),
        buf@.len() <= isize::MAX,
    ensures
        r@.len() == msg_offsets(buf@, lay, RtFlavor::MacosNeighbor, 0).len(),
        forall|k: int|
            0 <= k < r@.len() ==> #[trigger] r@[k]@ == neigh_entry_at(
                buf@,
                lay,
                msg_offsets(buf@, lay, RtFlavor::MacosNeighbor, 0)[k],
            ),
{
    let offs = message_offsets(buf, lay, RtFlavor::MacosNeighbor);
    proof {
        lemma_msg_offsets_bounds(buf@, lay, RtFlavor::MacosNeighbor, 0);
    }
    let ghost spec_offs = msg_offsets(buf@, lay, RtFlavor::MacosNeighbor, 0);
    let mut out: Vec<NeighEntry> = Vec::new();
    for i in 0..offs.len()
        invariant
            layout_ok(lay),
            buf@.len() <= isize::MAX,
            spec_offs == msg_offsets(buf@, lay, RtFlavor::MacosNeighbor, 0),
            offs@.len() == spec_offs.len(),
            forall|k: int| 0 <= k < offs@.len() ==> offs@[k] as int == #[trigger] spec_offs[k],
            forall|k: int| 0 <= k < spec_offs.len() ==> {
                let o = #[trigger] spec_offs[k];
                &&& 0 <= o
                &&& o + lay.hdr_len <= buf@.len()
                &&& o + u16_at(buf@, o) <= buf@.len()
            },
            out@.len() == i,
            forall|k: int| 0 <= k < i ==> #[trigger] out@[k]@ == neigh_entry_at(buf@, lay, spec_offs[k]),
    {
        let off = offs[i];
        assert(spec_offs[i as int] == off);
        let addrs = sockaddr_offsets(buf, lay, RtFlavor::MacosNeighbor, off);
        let entry = NeighEntry {
            ip: parse_sockaddr_ip(buf, lay, addrs[0], false),
            lladdr: parse_lladdr(buf, lay, addrs[1]),
            ifname: parse_ifname(buf, lay, addrs[4]),
            flags: read_i32(buf, off + 8),
        };
        out.push(entry);
    }
    out
}

/// A neighbor on macOS: interface name, IP address, hardware address and
/// the flags of its message.
#[derive(Debug, Clone)]
pub struct MacosNetNeigh {
    pub ifname: Option<String>,
    pub ip: IpAddr,
    pub mac: MacAddr,
    pub state: i32,
}

impl View for MacosNetNeigh {
    type V = (Option<Seq<char>>, IpAddr, Seq<u8>, i32);

    open spec fn view(&self) -> Self::V {
        (opt_text(self.ifname), self.ip, self.mac@, self.state)
    }
}

/// The neighbors of the entries `es`, in order: each entry with both an IP
/// address and a link-level address gives one, the others none; the first
/// link-level text that is not a MAC address is the error.
pub open spec fn neighs_of_entries(es: Seq<NeighEntry>) -> Result<
    Seq<(Option<Seq<char>>, IpAddr, Seq<u8>, i32)>,
    Seq<char>,
>
    decreases es.len(),
{
    if es.len() == 0 {
        Ok(Seq::empty())
    } else {
        match neighs_of_entries(es.drop_last()) {
            Err(t) => Err(t),
            Ok(ns) => {
                let e = es.last()@;
                match (e.0, e.1) {
                    (Some(ip), Some(text)) => match parse_mac_text(text) {
                        Some(b) => Ok(ns.push((e.2, ip, b, e.3))),
                        None => Err(text),
                    },
                    _ => Ok(ns),
                }
            },
        }
    }
}

/// Once a prefix of the entries fails, all of them fail the same way.
proof fn lemma_neighs_of_entries_err(es: Seq<NeighEntry>, n: int)
    requires
        0 <= n <= es.len(),
        neighs_of_entries(es.take(n)) is Err,
    ensures
        neighs_of_entries(es) == neighs_of_entries(es.take(n)),
    decreases es.len() - n,
{
    if n < es.len() {
        assert(es.take(n + 1).drop_last() =~= es.take(n));
        lemma_neighs_of_entries_err(es, n + 1);
    } else {
        assert(es.take(n) =~= es);
    }
}

/// The neighbors of the macOS neighbor entries `neighs`, as
/// `neighs_of_entries` describes; a link-level text that is not a MAC
/// address ends the reading with `ParseMacAddrErr` carrying that text.
pub fn get_net_neighs(neighs: Vec<NeighEntry>) -> (r: Result<Vec<MacosNetNeigh>, CrossNetError>)
    ensures
        match r {
            Ok(v) => neighs_of_entries(neighs@) == Ok::<_, Seq<char>>(v@.map_values(|n: MacosNetNeigh| n@)),
            Err(e) => neighs_of_entries(neighs@) is Err && (e matches CrossNetError::ParseMacAddrErr {
                mac,
            } && neighs_of_entries(neighs@) == Err::<Seq<(Option<Seq<char>>, IpAddr, Seq<u8>, i32)>, _>(mac@)),
        },
{
    let ghost es = neighs@;
    let mut rets: Vec<MacosNetNeigh> = Vec::new();
    assert(es.take(0) =~= Seq::<NeighEntry>::empty());
    assert(rets@.map_values(|n: MacosNetNeigh| n@) =~= Seq::empty());
    for n in it: neighs.into_iter()
        invariant
            it.seq() == es,
            neighs_of_entries(es.take(it.index())) == Ok::<_, Seq<char>>(rets@.map_values(|n: MacosNetNeigh| n@)),
    {
        let ghost i = it.index();
        assert(es.take(i + 1).drop_last() =~= es.take(i));
        assert(es.take(i + 1).last() == es[i]);
        let ghost before = rets@;
        match (n.ip, n.lladdr) {
            (Some(ip), Some(text)) => {
                match MacAddr::from_str(text.as_str()) {
                    Ok(mac) => {
                        rets.push(MacosNetNeigh { ifname: n.ifname, ip, mac, state: n.flags });
                        assert(rets@.map_values(|n: MacosNetNeigh| n@) =~= before.map_values(|n: MacosNetNeigh| n@).push(rets@.last()@));
                    },
                    Err(e) => {
                        proof {
                            lemma_neighs_of_entries_err(es, i + 1);
                        }
                        return Err(e);
                    },
                }
            },
            _ => {},
        }
    }
    assert(es.take(es.len() as int) =~= es);
    Ok(rets)
}

} // verus!
