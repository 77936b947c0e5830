//! Routing-socket messages as BSD systems hand them out through `sysctl`:
//! a buffer of messages, each a fixed header followed by the socket
//! addresses that its address mask announces. The buffer is read as a
//! little-endian host lays it out.
use vstd::prelude::*;
use crate::iface::{hex_colon_text, mac_text};
use crate::ip::{be_value, IpAddr};

verus! {

/// The facts of a system's routing messages that the parser needs: the
/// length of the message header, the routing-message version, the address
/// family numbers of IPv4, IPv6 and link-level addresses, and the length of
/// a bare `sockaddr`.
#[derive(Debug, Clone, Copy)]
pub struct RtLayout {
    pub hdr_len: usize,
    pub rtm_version: u8,
    pub af_inet: u8,
    pub af_inet6: u8,
    pub af_link: u8,
    pub sockaddr_len: u8,
}

/// The three readers of routing messages, which differ in how they step
/// from one socket address to the next and when they stop.
#[derive(Debug, Clone, Copy, PartialEq, Eq, Structural)]
pub enum RtFlavor {
    /// FreeBSD routes: a message shorter than the header ends the buffer; a
    /// socket address of length 0 takes the room of a bare `sockaddr`;
    /// lengths are rounded up to the alignment of `usize`; the walk stops
    /// when it passes the end of the message.
    FreeBsdRoute,
    /// macOS routes: a message of length 0 ends the buffer; a socket address
    /// of length 0 takes the room of a bare `sockaddr`; lengths are rounded
    /// up to the size of `usize`.
    MacosRoute,
    /// macOS neighbors: a message of length 0 ends the buffer; lengths are
    /// rounded up to four bytes, and a length of 0 takes four bytes.
    MacosNeighbor,
}

/// The layout is one the parser can work with: a header long enough to
/// hold the address mask.
pub open spec fn layout_ok(lay: RtLayout) -> bool {
    lay.hdr_len >= 16
}

/// `len` rounded up to a multiple of `a`.
pub open spec fn round_up(len: int, a: int) -> int {
    ((len + a - 1) / a) * a
}

/// How far the walk moves past a socket address whose length byte is
/// `sa_len`.
pub open spec fn sa_advance(lay: RtLayout, flavor: RtFlavor, sa_len: u8) -> int {
    match flavor {
        RtFlavor::FreeBsdRoute => round_up(
            if sa_len == 0 { lay.sockaddr_len as int } else { sa_len as int },
            vstd::layout::align_of::<usize>() as int,
        ),
        RtFlavor::MacosRoute => round_up(
            if sa_len == 0 { lay.sockaddr_len as int } else { sa_len as int },
            vstd::layout::size_of::<usize>() as int,
        ),
        RtFlavor::MacosNeighbor => if sa_len == 0 {
            4
        } else {
            round_up(sa_len as int, 4)
        },
    }
}

/// The 16-bit little-endian number at `off`.
pub open spec fn u16_at(buf: Seq<u8>, off: int) -> int {
    buf[off] + 256 * buf[off + 1]
}

/// The 32-bit little-endian number at `off`, as a signed number.
pub open spec fn i32_at(buf: Seq<u8>, off: int) -> i32 {
    (buf[off] + 256 * buf[off + 1] + 65536 * buf[off + 2] + 16777216 * buf[off + 3]) as u32 as i32
}

/// Rounding up gives the smallest multiple of `a` that is not below `len`.
pub proof fn law_round_up(len: int, a: int)
    requires
        0 <= len,
        0 < a,
    ensures
        round_up(len, a) % a == 0,
        len <= round_up(len, a) < len + a,
{
    let q = (len + a - 1) / a;
    assert(q * a <= len + a - 1 && len + a - 1 < q * a + a) by (nonlinear_arith)
        requires
            q == (len + a - 1) / a,
            0 < a,
            0 <= len,
    ;
    assert((q * a) % a == 0) by (nonlinear_arith)
        requires
            0 < a,
    ;
}

/// The walk steps past a socket address by its length (that of a bare
/// `sockaddr` when the length byte is 0) rounded up to the least multiple
/// of the flavor's unit not below it: the alignment of `usize` for FreeBSD
/// routes, the size of `usize` for macOS routes, four bytes for macOS
/// neighbors, where a length byte of 0 takes four bytes.
pub proof fn law_sa_advance(lay: RtLayout, flavor: RtFlavor, sa_len: u8)
    ensures
        flavor == RtFlavor::FreeBsdRoute ==> ({
            let l = if sa_len == 0 { lay.sockaddr_len as int } else { sa_len as int };
            let a = vstd::layout::align_of::<usize>() as int;
            &&& sa_advance(lay, flavor, sa_len) % a == 0
            &&& l <= sa_advance(lay, flavor, sa_len) < l + a
        }),
        flavor == RtFlavor::MacosRoute ==> ({
            let l = if sa_len == 0 { lay.sockaddr_len as int } else { sa_len as int };
            let a = vstd::layout::size_of::<usize>() as int;
            &&& sa_advance(lay, flavor, sa_len) % a == 0
            &&& l <= sa_advance(lay, flavor, sa_len) < l + a
        }),
        flavor == RtFlavor::MacosNeighbor ==> (if sa_len == 0 {
            sa_advance(lay, flavor, sa_len) == 4
        } else {
            &&& sa_advance(lay, flavor, sa_len) % 4 == 0
            &&& sa_len <= sa_advance(lay, flavor, sa_len) < sa_len + 4
        }),
{
    broadcast use vstd::layout::layout_of_primitives;

    crate::route::bsd::lemma_usize_align();
    let l = if sa_len == 0 { lay.sockaddr_len as int } else { sa_len as int };
    law_round_up(l, vstd::layout::align_of::<usize>() as int);
    law_round_up(l, vstd::layout::size_of::<usize>() as int);
    law_round_up(sa_len as int, 4);
}

/// The offsets of the messages, from `off` on, whose version is the
/// layout's. The walk ends at a header that does not fit, at a message
/// length that the flavor refuses, or at a message that runs past the
/// buffer; a message of another version is stepped over.
pub open spec fn msg_offsets(buf: Seq<u8>, lay: RtLayout, flavor: RtFlavor, off: int) -> Seq<int>
    decreases buf.len() - off,
{
    if off < 0 || off + lay.hdr_len > buf.len() || lay.hdr_len < 16 {
        Seq::empty()
    } else {
        let msglen = u16_at(buf, off);
        if msglen == 0 || (flavor == RtFlavor::FreeBsdRoute && msglen < lay.hdr_len) || off + msglen
            > buf.len() {
            Seq::empty()
        } else if buf[off + 2] != lay.rtm_version {
            msg_offsets(buf, lay, flavor, off + msglen)
        } else {
            seq![off] + msg_offsets(buf, lay, flavor, off + msglen)
        }
    }
}

/// Where the socket addresses `i` to 7 of a message start, given that the
/// next one would start at `p`: `None` for an address the mask leaves out,
/// and for every address once the walk has stopped (at the end of the
/// buffer, or for FreeBSD past the end `msg_end` of the message).
pub open spec fn sa_walk(
    buf: Seq<u8>,
    lay: RtLayout,
    flavor: RtFlavor,
    msg_end: int,
    mask: u8,
    i: int,
    p: int,
) -> Seq<Option<int>>
    decreases 8 - i,
{
    if i >= 8 || i < 0 {
        Seq::empty()
    } else if (mask >> (i as u8)) & 1 == 0 {
        seq![None] + sa_walk(buf, lay, flavor, msg_end, mask, i + 1, p)
    } else if p < 0 || p >= buf.len() {
        Seq::new((8 - i) as nat, |k: int| None)
    } else {
        let next = p + sa_advance(lay, flavor, buf[p]);
        if flavor == RtFlavor::FreeBsdRoute && next > msg_end {
            seq![Some(p)] + Seq::new((7 - i) as nat, |k: int| None)
        } else {
            seq![Some(p)] + sa_walk(buf, lay, flavor, msg_end, mask, i + 1, next)
        }
    }
}

/// The starts of the socket addresses that are present in `w`, in order.
pub open spec fn present_starts(w: Seq<Option<int>>) -> Seq<int>
    decreases w.len(),
{
    if w.len() == 0 {
        Seq::empty()
    } else if w[0] is Some {
        seq![w[0].unwrap()] + present_starts(w.drop_first())
    } else {
        present_starts(w.drop_first())
    }
}

/// A walk that found nothing has no starts.
proof fn lemma_no_starts(n: nat)
    ensures
        present_starts(Seq::new(n, |k: int| None::<int>)) == Seq::<int>::empty(),
    decreases n,
{
    if n > 0 {
        let w = Seq::new(n, |k: int| None::<int>);
        assert(w.drop_first() =~= Seq::new((n - 1) as nat, |k: int| None::<int>));
        lemma_no_starts((n - 1) as nat);
    }
}

/// The socket addresses that the walk finds follow one another: the first
/// starts at `p`, and each next one starts where the one before it ends,
/// at its start stepped on by `sa_advance` of its length byte.
pub proof fn law_sa_walk_steps(
    buf: Seq<u8>,
    lay: RtLayout,
    flavor: RtFlavor,
    msg_end: int,
    mask: u8,
    i: int,
    p: int,
)
    ensures
        present_starts(sa_walk(buf, lay, flavor, msg_end, mask, i, p)).len() > 0 ==> present_starts(
            sa_walk(buf, lay, flavor, msg_end, mask, i, p),
        )[0] == p,
        forall|k: int|
            0 <= k < present_starts(sa_walk(buf, lay, flavor, msg_end, mask, i, p)).len() - 1 ==> #[trigger] present_starts(
                sa_walk(buf, lay, flavor, msg_end, mask, i, p),
            )[k + 1] == present_starts(sa_walk(buf, lay, flavor, msg_end, mask, i, p))[k] + sa_advance(
                lay,
                flavor,
                buf[present_starts(sa_walk(buf, lay, flavor, msg_end, mask, i, p))[k]],
            ),
    decreases 8 - i,
{
    let w = sa_walk(buf, lay, flavor, msg_end, mask, i, p);
    if i >= 8 || i < 0 {
    } else if (mask >> (i as u8)) & 1 == 0 {
        let w1 = sa_walk(buf, lay, flavor, msg_end, mask, i + 1, p);
        law_sa_walk_steps(buf, lay, flavor, msg_end, mask, i + 1, p);
        assert(w.drop_first() =~= w1);
        assert(present_starts(w) == present_starts(w1));
    } else if p < 0 || p >= buf.len() {
        lemma_no_starts((8 - i) as nat);
    } else {
        let next = p + sa_advance(lay, flavor, buf[p]);
        let w1 = if flavor == RtFlavor::FreeBsdRoute && next > msg_end {
            Seq::new((7 - i) as nat, |k: int| None::<int>)
        } else {
            sa_walk(buf, lay, flavor, msg_end, mask, i + 1, next)
        };
        if flavor == RtFlavor::FreeBsdRoute && next > msg_end {
            lemma_no_starts((7 - i) as nat);
        } else {
            law_sa_walk_steps(buf, lay, flavor, msg_end, mask, i + 1, next);
        }
        assert(w.drop_first() =~= w1);
        let ps1 = present_starts(w1);
        let ps = present_starts(w);
        assert(ps == seq![p] + ps1);
        assert forall|k: int| 0 <= k < ps.len() - 1 implies #[trigger] ps[k + 1] == ps[k] + sa_advance(
            lay,
            flavor,
            buf[ps[k]],
        ) by {
            assert(ps[k + 1] == ps1[k]);
            if k > 0 {
                assert(ps[k] == ps1[k - 1]);
                assert(ps1[(k - 1) + 1] == ps1[k - 1] + sa_advance(lay, flavor, buf[ps1[k - 1]]));
            }
        }
    }
}

/// The start of each of the eight socket addresses of the message at `off`.
pub open spec fn msg_addrs(buf: Seq<u8>, lay: RtLayout, flavor: RtFlavor, off: int) -> Seq<Option<int>> {
    sa_walk(buf, lay, flavor, off + u16_at(buf, off), buf[off + 12], 0, off + lay.hdr_len)
}

/// The IP address of the socket address at `p`: four address bytes at
/// offset 4 for the IPv4 family, sixteen at offset 8 for IPv6, none for
/// another family or an address that runs past the buffer. With
/// `reversed`, the four IPv4 bytes are taken in reverse order.
pub open spec fn sa_ip(buf: Seq<u8>, lay: RtLayout, p: Option<int>, reversed: bool) -> Option<IpAddr> {
    match p {
        None => None,
        Some(p) => if p < 0 || p + 2 > buf.len() {
            None
        } else if buf[p + 1] == lay.af_inet && p + 8 <= buf.len() {
            let b = buf.subrange(p + 4, p + 8);
            Some(IpAddr::V4((if reversed { be_value(b.reverse()) } else { be_value(b) }) as u32))
        } else if buf[p + 1] == lay.af_inet6 && p + 24 <= buf.len() {
            Some(IpAddr::V6(be_value(buf.subrange(p + 8, p + 24)) as u128))
        } else {
            None
        },
    }
}

/// The bytes of the name in the link-level socket address at `p`: the
/// name length is at offset 5 and the name at offset 8; none for another
/// family, an empty name, or a name that runs past the buffer.
pub open spec fn sa_name_bytes(buf: Seq<u8>, lay: RtLayout, p: Option<int>) -> Option<Seq<u8>> {
    match p {
        None => None,
        Some(p) => if p < 0 || p + 8 > buf.len() || buf[p + 1] != lay.af_link || buf[p + 5] == 0
            || p + 8 + buf[p + 5] > buf.len() {
            None
        } else {
            Some(buf.subrange(p + 8, p + 8 + buf[p + 5]))
        },
    }
}

/// The bytes of the link-level address in the socket address at `p`: its
/// length is at offset 6, and it follows the name; none for another family,
/// an empty address, or one that runs past the buffer.
pub open spec fn sa_link_bytes(buf: Seq<u8>, lay: RtLayout, p: Option<int>) -> Option<Seq<u8>> {
    match p {
        None => None,
        Some(p) => if p < 0 || p + 8 > buf.len() || buf[p + 1] != lay.af_link || buf[p + 6] == 0
            || p + 8 + buf[p + 5] + buf[p + 6] > buf.len() {
            None
        } else {
            Some(buf.subrange(p + 8 + buf[p + 5], p + 8 + buf[p + 5] + buf[p + 6]))
        },
    }
}

/// What `String::from_utf8_lossy` makes of `bytes`.
pub uninterp spec fn utf8_lossy(bytes: Seq<u8>) -> Seq<char>;

/// `String::from_utf8_lossy`: the text of `bytes`, with each invalid
/// sequence replaced. What it returns depends on the bytes alone; it is
/// given a name and not written out.
#[verifier::external_body]
pub(crate) fn string_from_utf8_lossy(bytes: &Vec<u8>) -> (s: String)
    ensures
        s@ == utf8_lossy(bytes@),
{
    String::from_utf8_lossy(bytes.as_slice()).into_owned()
}

/// The bytes of `buf` from `start` to `end`.
fn copy_range(buf: &Vec<u8>, start: usize, end: usize) -> (v: Vec<u8>)
    requires
        start <= end <= buf@.len(),
    ensures
        v@ == buf@.subrange(start as int, end as int),
{
    let mut v: Vec<u8> = Vec::new();
    for i in start..end
        invariant
            start <= end <= buf@.len(),
            v@ == buf@.subrange(start as int, i as int),
    {
        v.push(buf[i]);
        assert(buf@.subrange(start as int, i + 1) =~= buf@.subrange(start as int, i as int).push(buf@[i as int]));
    }
    v
}

/// An optional offset as a number.
pub open spec fn opt_int(o: Option<usize>) -> Option<int> {
    match o {
        Some(p) => Some(p as int),
        None => None,
    }
}

/// An optional string as its characters.
pub open spec fn opt_text(o: Option<String>) -> Option<Seq<char>> {
    match o {
        Some(s) => Some(s@),
        None => None,
    }
}

/// How far to move past a socket address whose length byte is `sa_len`.
fn sa_step(lay: RtLayout, flavor: RtFlavor, sa_len: u8) -> (r: usize)
    ensures
        r == sa_advance(lay, flavor, sa_len),
        r <= 512,
{
    broadcast use vstd::layout::layout_of_primitives;

    proof {
        crate::route::bsd::lemma_usize_align();
        assert forall|l: int, a: int| 0 <= l && 0 < a implies #[trigger] round_up(l, a) <= l + a by {
            assert(((l + a - 1) / a) * a <= l + a - 1) by (nonlinear_arith)
                requires
                    0 <= l,
                    0 < a,
            ;
        }
    }
    match flavor {
        RtFlavor::FreeBsdRoute => crate::route::bsd::roundup_sa(
            if sa_len == 0 { lay.sockaddr_len as usize } else { sa_len as usize },
        ),
        RtFlavor::MacosRoute => crate::route::macos::roundup_sa(
            if sa_len == 0 { lay.sockaddr_len as usize } else { sa_len as usize },
        ),
        RtFlavor::MacosNeighbor => crate::neigh::macos::roundup_sa(sa_len as usize),
    }
}

/// The offsets of the messages in `buf` whose version is the layout's.
pub fn message_offsets(buf: &Vec<u8>, lay: RtLayout, flavor: RtFlavor) -> (offs: Vec<usize>)
    requires
        layout_ok(lay),
        buf@.len() <= isize::MAX,
    ensures
        offs@.len() == msg_offsets(buf@, lay, flavor, 0).len(),
        forall|k: int| 0 <= k < offs@.len() ==> offs@[k] as int == #[trigger] msg_offsets(buf@, lay, flavor, 0)[k],
{
    let mut offs: Vec<usize> = Vec::new();
    let mut off: usize = 0;
    loop
        invariant
            layout_ok(lay),
            buf@.len() <= isize::MAX,
            off <= buf@.len(),
            msg_offsets(buf@, lay, flavor, 0) =~= Seq::new(offs@.len(), |k: int| offs@[k] as int) + msg_offsets(buf@, lay, flavor, off as int),
        ensures
            msg_offsets(buf@, lay, flavor, 0) =~= Seq::new(offs@.len(), |k: int| offs@[k] as int),
        decreases buf@.len() - off,
    {
        let ghost before = Seq::new(offs@.len(), |k: int| offs@[k] as int);
        if lay.hdr_len > buf.len() - off {
            assert(msg_offsets(buf@, lay, flavor, off as int) =~= Seq::<int>::empty());
            break;
        }
        let msglen = buf[off] as usize + 256 * buf[off + 1] as usize;
        if msglen == 0 || (flavor == RtFlavor::FreeBsdRoute && msglen < lay.hdr_len) || msglen > buf.len() - off {
            assert(msg_offsets(buf@, lay, flavor, off as int) =~= Seq::<int>::empty());
            break;
        }
        if buf[off + 2] != lay.rtm_version {
            off = off + msglen;
        } else {
            offs.push(off);
            assert(Seq::new(offs@.len(), |k: int| offs@[k] as int) =~= before + seq![(off as int)]);
            off = off + msglen;
        }
    }
    offs
}

/// Where each of the eight socket addresses of the message at `off`
/// starts.
pub fn sockaddr_offsets(buf: &Vec<u8>, lay: RtLayout, flavor: RtFlavor, off: usize) -> (addrs: Vec<Option<usize>>)
    requires
        layout_ok(lay),
        buf@.len() <= isize::MAX,
        off + lay.hdr_len <= buf@.len(),
        off + u16_at(buf@, off as int) <= buf@.len(),
    ensures
        addrs@.len() == 8,
        forall|k: int| 0 <= k < 8 ==> opt_int(#[trigger] addrs@[k]) == msg_addrs(buf@, lay, flavor, off as int)[k],
{
    let msg_end = off + (buf[off] as usize + 256 * buf[off + 1] as usize);
    let mask = buf[off + 12];
    let mut p: usize = off + lay.hdr_len;
    let mut stopped = false;
    let mut addrs: Vec<Option<usize>> = Vec::new();
    let ghost whole = msg_addrs(buf@, lay, flavor, off as int);
    for i in 0..8usize
        invariant
            buf@.len() <= isize::MAX,
            msg_end <= buf@.len(),
            p <= buf@.len() + 1024,
            addrs@.len() == i,
            whole == sa_walk(buf@, lay, flavor, msg_end as int, mask, 0, (off + lay.hdr_len) as int),
            whole =~= Seq::new(i as nat, |k: int| opt_int(addrs@[k])) + (if stopped {
                Seq::new((8 - i) as nat, |k: int| None)
            } else {
                sa_walk(buf@, lay, flavor, msg_end as int, mask, i as int, p as int)
            }),
    {
        let ghost before = Seq::new(i as nat, |k: int| opt_int(addrs@[k]));
        if stopped {
            addrs.push(None);
            assert(Seq::new((i + 1) as nat, |k: int| opt_int(addrs@[k])) =~= before + seq![None]);
        } else if (mask >> (i as u8)) & 1u8 == 0 {
            addrs.push(None);
            assert(Seq::new((i + 1) as nat, |k: int| opt_int(addrs@[k])) =~= before + seq![None]);
        } else if p >= buf.len() {
            addrs.push(None);
            stopped = true;
            assert(Seq::new((i + 1) as nat, |k: int| opt_int(addrs@[k])) =~= before + seq![None]);
        } else {
            addrs.push(Some(p));
            assert(Seq::new((i + 1) as nat, |k: int| opt_int(addrs@[k])) =~= before + seq![Some(p as int)]);
            let next = p + sa_step(lay, flavor, buf[p]);
            if flavor == RtFlavor::FreeBsdRoute && next > msg_end {
                stopped = true;
            } else {
                p = next;
            }
        }
    }
    addrs
}

/// The IP address of the socket address at `p`, as `sa_ip` describes.
pub fn parse_sockaddr_ip(buf: &Vec<u8>, lay: RtLayout, p: Option<usize>, reversed: bool) -> (r: Option<IpAddr>)
    requires
        buf@.len() <= isize::MAX,
    ensures
        r == sa_ip(buf@, lay, opt_int(p), reversed),
{
    let p = match p {
        None => return None,
        Some(p) => p,
    };
    if p >= buf.len() || buf.len() - p < 2 {
        return None;
    }
    let fam = buf[p + 1];
    if fam == lay.af_inet && buf.len() - p >= 8 {
        let b = copy_range(buf, p + 4, p + 8);
        if reversed {
            let mut rb: Vec<u8> = Vec::new();
            rb.push(b[3]);
            rb.push(b[2]);
            rb.push(b[1]);
            rb.push(b[0]);
            assert(rb@ =~= b@.reverse());
            IpAddr::from_octets(&rb)
        } else {
            IpAddr::from_octets(&b)
        }
    } else if fam == lay.af_inet6 && buf.len() - p >= 24 {
        let b = copy_range(buf, p + 8, p + 24);
        IpAddr::from_octets(&b)
    } else {
        None
    }
}

/// The interface name in the link-level socket address at `p`.
pub fn parse_ifname(buf: &Vec<u8>, lay: RtLayout, p: Option<usize>) -> (r: Option<String>)
    requires
        buf@.len() <= isize::MAX,
    ensures
        opt_text(r) == match sa_name_bytes(buf@, lay, opt_int(p)) {
            Some(b) => Some(utf8_lossy(b)),
            None => None,
        },
{
    let p = match p {
        None => return None,
        Some(p) => p,
    };
    if p >= buf.len() || buf.len() - p < 8 || buf[p + 1] != lay.af_link {
        return None;
    }
    let nlen = buf[p + 5] as usize;
    if nlen == 0 || buf.len() - p - 8 < nlen {
        return None;
    }
    let name = copy_range(buf, p + 8, p + 8 + nlen);
    Some(string_from_utf8_lossy(&name))
}

/// The link-level address in the socket address at `p`, written as
/// colon-separated pairs of lowercase hexadecimal digits.
pub fn parse_lladdr(buf: &Vec<u8>, lay: RtLayout, p: Option<usize>) -> (r: Option<String>)
    requires
        buf@.len() <= isize::MAX,
    ensures
        opt_text(r) == match sa_link_bytes(buf@, lay, opt_int(p)) {
            Some(b) => Some(mac_text(b)),
            None => None,
        },
{
    let p = match p {
        None => return None,
        Some(p) => p,
    };
    if p >= buf.len() || buf.len() - p < 8 || buf[p + 1] != lay.af_link {
        return None;
    }
    let nlen = buf[p + 5] as usize;
    let alen = buf[p + 6] as usize;
    if alen == 0 || buf.len() - p - 8 < nlen + alen {
        return None;
    }
    let mac = copy_range(buf, p + 8 + nlen, p + 8 + nlen + alen);
    Some(hex_colon_text(&mac))
}

/// Every message offset leaves room for the header and the whole message.
pub proof fn lemma_msg_offsets_bounds(buf: Seq<u8>, lay: RtLayout, flavor: RtFlavor, off: int)
    ensures
        forall|k: int| 0 <= k < msg_offsets(buf, lay, flavor, off).len() ==> {
            let o = #[trigger] msg_offsets(buf, lay, flavor, off)[k];
            &&& off <= o
            &&& o + lay.hdr_len <= buf.len()
            &&& o + u16_at(buf, o) <= buf.len()
        },
    decreases buf.len() - off,
{
    if !(off < 0 || off + lay.hdr_len > buf.len() || lay.hdr_len < 16) {
        let msglen = u16_at(buf, off);
        if !(msglen == 0 || (flavor == RtFlavor::FreeBsdRoute && msglen < lay.hdr_len) || off + msglen > buf.len()) {
            lemma_msg_offsets_bounds(buf, lay, flavor, off + msglen);
            if buf[off + 2] != lay.rtm_version {
                assert(msg_offsets(buf, lay, flavor, off) == msg_offsets(buf, lay, flavor, off + msglen));
            } else {
                let rest = msg_offsets(buf, lay, flavor, off + msglen);
                assert forall|k: int| 0 <= k < msg_offsets(buf, lay, flavor, off).len() implies {
                    let o = #[trigger] msg_offsets(buf, lay, flavor, off)[k];
                    &&& off <= o
                    &&& o + lay.hdr_len <= buf.len()
                    &&& o + u16_at(buf, o) <= buf.len()
                } by {
                    assert(msg_offsets(buf, lay, flavor, off) == seq![off] + rest);
                    if k > 0 {
                        assert(msg_offsets(buf, lay, flavor, off)[k] == rest[k - 1]);
                    } else {
                        assert(msg_offsets(buf, lay, flavor, off)[k] == off);
                    }
                }
            }
        }
    }
}

/// The 32-bit little-endian number at `off`, as a signed number.
pub fn read_i32(buf: &Vec<u8>, off: usize) -> (r: i32)
    requires
        off + 4 <= buf@.len(),
        buf@.len() <= isize::MAX,
    ensures
        r == i32_at(buf@, off as int),
{
    let b0 = buf[off] as u32;
    let b1 = buf[off + 1] as u32;
    let b2 = buf[off + 2] as u32;
    let b3 = buf[off + 3] as u32;
    assert(b0 < 256 && b1 < 256 && b2 < 256 && b3 < 256);
    let v: u32 = b0 + 256 * b1 + 65536 * b2 + 16777216 * b3;
    #[verifier::truncate]
    let r = v as i32;
    r
}

/// What is read of one route message: destination, gateway, netmask,
/// interface name and flags.
#[derive(Debug, Clone)]
pub struct RouteEntry {
    pub destination: Option<IpAddr>,
    pub gateway: Option<IpAddr>,
    pub netmask: Option<IpAddr>,
    pub ifname: Option<String>,
    pub flags: i32,
}

impl View for RouteEntry {
    type V = (Option<IpAddr>, Option<IpAddr>, Option<IpAddr>, Option<Seq<char>>, i32);

    open spec fn view(&self) -> Self::V {
        (self.destination, self.gateway, self.netmask, opt_text(self.ifname), self.flags)
    }
}

/// The route entry of the message at `off`: socket addresses 0, 1 and 2
/// give destination, gateway and netmask (IPv4 bytes in reverse order),
/// socket address 4 the interface name, and the flags are at offset 8.
pub open spec fn route_entry_at(buf: Seq<u8>, lay: RtLayout, flavor: RtFlavor, off: int) -> (
    Option<IpAddr>,
    Option<IpAddr>,
    Option<IpAddr>,
    Option<Seq<char>>,
    i32,
) {
    let a = msg_addrs(buf, lay, flavor, off);
    (
        sa_ip(buf, lay, a[0], true),
        sa_ip(buf, lay, a[1], true),
        sa_ip(buf, lay, a[2], true),
        match sa_name_bytes(buf, lay, a[4]) {
            Some(b) => Some(utf8_lossy(b)),
            None => None,
        },
        i32_at(buf, off + 8),
    )
}

/// The route entries of the messages in `buf`, one per message of the
/// layout's version, in order.
pub fn route_entries(buf: &Vec<u8>, lay: RtLayout, flavor: RtFlavor) -> (r: Vec<RouteEntry>)
    requires
        layout_ok(lay),
        buf@.len() <= isize::MAX,
    ensures
        r@.len() == msg_offsets(buf@, lay, flavor, 0).len(),
        forall|k: int| 0 <= k < r@.len() ==> #[trigger] r@[k]@ == route_entry_at(buf@, lay, flavor, msg_offsets(buf@, lay, flavor, 0)[k]),
{
    let offs = message_offsets(buf, lay, flavor);
    proof {
        lemma_msg_offsets_bounds(buf@, lay, flavor, 0);
    }
    let ghost spec_offs = msg_offsets(buf@, lay, flavor, 0);
    let mut out: Vec<RouteEntry> = Vec::new();
    for i in 0..offs.len()
        invariant
            layout_ok(lay),
            buf@.len() <= isize::MAX,
            spec_offs == msg_offsets(buf@, lay, flavor, 0),
            offs@.len() == spec_offs.len(),
            forall|k: int| 0 <= k < offs@.len() ==> offs@[k] as int == #[trigger] spec_offs[k],
            forall|k: int| 0 <= k < spec_offs.len() ==> {
                let o = #[trigger] spec_offs[k];
                &&& 0 <= o
                &&& o + lay.hdr_len <= buf@.len()
                &&& o + u16_at(buf@, o) <= buf@.len()
            },
            out@.len() == i,
            forall|k: int| 0 <= k < i ==> #[trigger] out@[k]@ == route_entry_at(buf@, lay, flavor, spec_offs[k]),
    {
        let off = offs[i];
        assert(spec_offs[i as int] == off);
        let addrs = sockaddr_offsets(buf, lay, flavor, off);
        let entry = RouteEntry {
            destination: parse_sockaddr_ip(buf, lay, addrs[0], true),
            gateway: parse_sockaddr_ip(buf, lay, addrs[1], true),
            netmask: parse_sockaddr_ip(buf, lay, addrs[2], true),
            ifname: parse_ifname(buf, lay, addrs[4]),
            flags: read_i32(buf, off + 8),
        };
        out.push(entry);
    }
    out
}

} // verus!
