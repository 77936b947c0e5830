//! Routes read from the macOS routing table (`sysctl` with `NET_RT_DUMP2`).
use vstd::prelude::*;
use crate::error::CrossNetError;
use crate::route::{entry_mask_nonzero, routes_from_entries, routes_of_entries, NetRoute};
use crate::rtmsg::{
    law_round_up, layout_ok, msg_offsets, round_up, route_entries, route_entry_at, RouteEntry, RtFlavor, RtLayout,
};

verus! {

/// `len` rounded up to the size of `usize`.
pub fn roundup_sa(len: usize) -> (r: usize)
    requires
        len + vstd::layout::size_of::<usize>() - 1 <= usize::MAX,
    ensures
        r == round_up(len as int, vstd::layout::size_of::<usize>() as int),
        r as int % vstd::layout::size_of::<usize>() as int == 0,
        len <= r < len + vstd::layout::size_of::<usize>(),
{
    broadcast use vstd::layout::layout_of_primitives;

    let align = core::mem::size_of::<usize>();
    assert(align == 4 || align == 8);
    let x = len + (align - 1);
    let r = x & !(align - 1);
    proof {
        law_round_up(len as int, align as int);
        if align == 4 {
            assert(x & !3usize == (x / 4) * 4) by (bit_vector);
        } else {
            assert(x & !7usize == (x / 8) * 8) by (bit_vector);
        }
    }
    r
}

/// The entries of the routing messages in `buf` (what `sysctl` returned),
/// one per message of the layout's version, in order.
pub fn list_routes(buf: &Vec<u8>, lay: RtLayout) -> (r: Vec<RouteEntry>)
    requires
        layout_ok(lay),
        buf@.len() <= isize::MAX,
    ensures
        r@.len() == msg_offsets(buf@, lay, RtFlavor::MacosRoute, 0).len(),
        forall|k: int|
            0 <= k < r@.len() ==> #[trigger] r@[k]@ == route_entry_at(
                buf@,
                lay,
                RtFlavor::MacosRoute,
                msg_offsets(buf@, lay, RtFlavor::MacosRoute, 0)[k],
            ),
{
    route_entries(buf, lay, RtFlavor::MacosRoute)
}

/// The routes of the macOS routing-table entries `routes`: complete entries
/// become routes to their destination, in order; `IpPoolError` when a
/// destination network is refused.
pub fn get_net_routes(routes: &Vec<RouteEntry>) -> (r: Result<Vec<NetRoute>, CrossNetError>)
    requires
        forall|k: int| 0 <= k < routes@.len() ==> entry_mask_nonzero(#[trigger] routes@[k]@),
    ensures
        match r {
            Ok(v) => routes_of_entries(routes@) == Some(v@),
            Err(err) => routes_of_entries(routes@) is None && err is IpPoolError,
        },
{
    routes_from_entries(routes)
}

} // verus!
