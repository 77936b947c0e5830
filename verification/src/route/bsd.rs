//! Routes read from the FreeBSD routing table (`sysctl` with `NET_RT_DUMP`).
use vstd::prelude::*;
use crate::error::CrossNetError;
use crate::route::{entry_mask_nonzero, routes_from_entries, routes_of_entries, NetRoute};
use crate::rtmsg::{
    law_round_up, layout_ok, msg_offsets, round_up, route_entries, route_entry_at, RouteEntry, RtFlavor, RtLayout,
};

verus! {

/// The alignment of `usize` is 1, 2, 4 or 8.
pub proof fn lemma_usize_align()
    ensures
        vstd::layout::align_of::<usize>() == 1 || vstd::layout::align_of::<usize>() == 2
            || vstd::layout::align_of::<usize>() == 4 || vstd::layout::align_of::<usize>() == 8,
{
    broadcast use vstd::layout::layout_of_primitives, vstd::layout::align_properties, vstd::layout::align_nonzero;

    let a = vstd::layout::align_of::<usize>() as int;
    let s = vstd::layout::size_of::<usize>() as int;
    assert(s == 4 || s == 8);
    assert(a <= s) by (nonlinear_arith)
        requires
            a > 0,
            s > 0,
            s % a == 0,
    ;
    assert(vstd::arithmetic::power2::is_pow2(a));
    reveal_with_fuel(vstd::arithmetic::power2::is_pow2, 4);
}

/// `len` rounded up to the alignment of `usize`.
pub fn roundup_sa(len: usize) -> (r: usize)
    requires
        len + vstd::layout::align_of::<usize>() - 1 <= usize::MAX,
    ensures
        r == round_up(len as int, vstd::layout::align_of::<usize>() as int),
        r as int % vstd::layout::align_of::<usize>() as int == 0,
        len <= r < len + vstd::layout::align_of::<usize>(),
{
    let a = core::mem::align_of::<usize>();
    proof {
        lemma_usize_align();
    }
    let x = len + (a - 1);
    let r = x & !(a - 1);
    proof {
        law_round_up(len as int, a as int);
        if a == 1 {
            assert(x & !0usize == x) by (bit_vector);
        } else if a == 2 {
            assert(x & !1usize == (x / 2) * 2) by (bit_vector);
        } else if a == 4 {
            assert(x & !3usize == (x / 4) * 4) by (bit_vector);
        } else {
            assert(x & !7usize == (x / 8) * 8) by (bit_vector);
        }
    }
    r
}

/// The entries of the routing messages in `buf` (what `sysctl` returned),
/// one per message of the layout's version, in order.
pub fn list_routes(buf: &Vec<u8>, lay: RtLayout) -> (r: Vec<RouteEntry>)
    requires
        layout_ok(lay),
        buf@.len() <= isize::MAX,
    ensures
        r@.len() == msg_offsets(buf@, lay, RtFlavor::FreeBsdRoute, 0).len(),
        forall|k: int|
            0 <= k < r@.len() ==> #[trigger] r@[k]@ == route_entry_at(
                buf@,
                lay,
                RtFlavor::FreeBsdRoute,
                msg_offsets(buf@, lay, RtFlavor::FreeBsdRoute, 0)[k],
            ),
{
    route_entries(buf, lay, RtFlavor::FreeBsdRoute)
}

/// The routes of the FreeBSD routing-table entries `routes`: complete entries
/// become routes to their destination, in order; `IpPoolError` when a
/// destination network is refused.
pub fn get_net_routes(routes: &Vec<RouteEntry>) -> (r: Result<Vec<NetRoute>, CrossNetError>)
    requires
        forall|k: int| 0 <= k < routes@.len() ==> entry_mask_nonzero(#[trigger] routes@[k]@),
    ensures
        match r {
            Ok(v) => routes_of_entries(routes@) == Some(v@),
            Err(err) => routes_of_entries(routes@) is None && err is IpPoolError,
        },
{
    routes_from_entries(routes)
}

} // verus!
