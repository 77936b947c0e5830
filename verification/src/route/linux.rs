//! Routes as the Linux kernel reports them over rtnetlink.
use vstd::prelude::*;
use crate::error::CrossNetError;
use crate::iface::NetFamily;
use crate::ip::{IpAddr, IpPool};
use crate::route::{convert_addr, converted_addr, NetRoute, NetRouteAddr, NetType};

verus! {

/// The kind of a route message (`RouteType`), as far as it matters here.
#[derive(Debug, Clone, Copy, PartialEq, Eq, Structural)]
pub enum RouteKind {
    Unicast,
    Local,
    Other,
}

/// The address family of a route message.
#[derive(Debug, Clone, Copy, PartialEq, Eq, Structural)]
pub enum MsgFamily {
    Inet,
    Inet6,
    Other,
}

/// An attribute of a route message. Attributes that carry no IP address,
/// or another kind of address, are `Other`.
#[derive(Debug, Clone, Copy, PartialEq, Eq, Structural)]
pub enum RouteAttr {
    Destination(IpAddr),
    Gateway(IpAddr),
    PrefSource(IpAddr),
    Other,
}

/// A route message: its header fields and its attributes, in order.
#[derive(Debug, Clone)]
pub struct RouteMsg {
    pub kind: RouteKind,
    pub family: MsgFamily,
    pub dst_prefix: u8,
    pub src_prefix: u8,
    pub attrs: Vec<RouteAttr>,
}

/// The address of the last `Destination` attribute.
pub open spec fn last_destination(attrs: Seq<RouteAttr>) -> Option<IpAddr>
    decreases attrs.len(),
{
    if attrs.len() == 0 {
        None
    } else {
        match attrs.last() {
            RouteAttr::Destination(a) => Some(a),
            _ => last_destination(attrs.drop_last()),
        }
    }
}

/// The address of the last `Gateway` attribute.
pub open spec fn last_gateway(attrs: Seq<RouteAttr>) -> Option<IpAddr>
    decreases attrs.len(),
{
    if attrs.len() == 0 {
        None
    } else {
        match attrs.last() {
            RouteAttr::Gateway(a) => Some(a),
            _ => last_gateway(attrs.drop_last()),
        }
    }
}

/// The address of the last `PrefSource` attribute.
pub open spec fn last_pref_source(attrs: Seq<RouteAttr>) -> Option<IpAddr>
    decreases attrs.len(),
{
    if attrs.len() == 0 {
        None
    } else {
        match attrs.last() {
            RouteAttr::PrefSource(a) => Some(a),
            _ => last_pref_source(attrs.drop_last()),
        }
    }
}

/// The route a message describes: `Some(None)` for a message that is not
/// a unicast or local route, or not of an IP family; `None` when one of
/// its networks is refused. The type is `Default` exactly when the
/// destination prefix length is 0; the destination and source become
/// networks of their prefix lengths, the gateway stays an address.
pub open spec fn route_of_message(
    kind: RouteKind,
    family: MsgFamily,
    dst_prefix: u8,
    src_prefix: u8,
    attrs: Seq<RouteAttr>,
) -> Option<Option<NetRoute>> {
    if kind == RouteKind::Other || family == MsgFamily::Other {
        Some(None)
    } else {
        match (
            converted_addr(last_destination(attrs), dst_prefix),
            converted_addr(last_pref_source(attrs), src_prefix),
            converted_addr(last_gateway(attrs), 0),
        ) {
            (Some(dst), Some(src), Some(gateway)) => Some(
                Some(
                    NetRoute {
                        dst,
                        src,
                        gateway,
                        ntype: if dst_prefix == 0 {
                            NetType::Default
                        } else {
                            NetType::Normal
                        },
                        family: if family == MsgFamily::Inet {
                            NetFamily::Ipv4
                        } else {
                            NetFamily::Ipv6
                        },
                    },
                ),
            ),
            _ => None,
        }
    }
}

/// A default route is one without a destination address: for every message
/// that carries a destination exactly when its destination prefix length is
/// above 0, the route it gives is `Default` exactly when it has no
/// destination.
pub proof fn law_default_route_has_no_destination(
    kind: RouteKind,
    family: MsgFamily,
    dst_prefix: u8,
    src_prefix: u8,
    attrs: Seq<RouteAttr>,
)
    requires
        (last_destination(attrs) is None) == (dst_prefix == 0),
    ensures
        route_of_message(kind, family, dst_prefix, src_prefix, attrs) matches Some(Some(r)) ==> (r.ntype
            == NetType::Default <==> r.dst is None),
{
}

/// `last_destination` is the address of the last `Destination` attribute, and none
/// exactly when there is no such attribute.
proof fn lemma_last_destination(attrs: Seq<RouteAttr>)
    ensures
        last_destination(attrs) is None <==> forall|k: int| 0 <= k < attrs.len() ==> !((#[trigger] attrs[k]) is Destination),
        forall|k: int|
            0 <= k < attrs.len() && (#[trigger] attrs[k]) is Destination && (forall|j: int|
                k < j < attrs.len() ==> !((#[trigger] attrs[j]) is Destination)) ==> last_destination(attrs) == Some(
                attrs[k]->Destination_0,
            ),
    decreases attrs.len(),
{
    if attrs.len() > 0 {
        let n = attrs.len() - 1;
        let init = attrs.drop_last();
        lemma_last_destination(init);
        assert(attrs.last() == attrs[n]);
        if attrs[n] is Destination {
            assert forall|k: int|
                0 <= k < attrs.len() && (#[trigger] attrs[k]) is Destination && (forall|j: int|
                    k < j < attrs.len() ==> !((#[trigger] attrs[j]) is Destination)) implies k == n by {
                if k < n {
                    assert(attrs[n] is Destination);
                }
            }
        } else {
            if last_destination(init) is None {
                assert forall|k: int| 0 <= k < attrs.len() implies !((#[trigger] attrs[k]) is Destination) by {
                    if k < n {
                        assert(init[k] == attrs[k]);
                    }
                }
            } else {
                let k0 = choose|k: int| 0 <= k < init.len() && (#[trigger] init[k]) is Destination;
                assert(attrs[k0] == init[k0]);
            }
            assert forall|k: int|
                0 <= k < attrs.len() && (#[trigger] attrs[k]) is Destination && (forall|j: int|
                    k < j < attrs.len() ==> !((#[trigger] attrs[j]) is Destination)) implies last_destination(attrs) == Some(
                attrs[k]->Destination_0,
            ) by {
                assert(k < n);
                assert(init[k] == attrs[k]);
                assert forall|j: int| k < j < init.len() implies !((#[trigger] init[j]) is Destination) by {
                    assert(init[j] == attrs[j]);
                }
            }
        }
    }
}

/// `last_gateway` is the address of the last `Gateway` attribute, and none
/// exactly when there is no such attribute.
proof fn lemma_last_gateway(attrs: Seq<RouteAttr>)
    ensures
        last_gateway(attrs) is None <==> forall|k: int| 0 <= k < attrs.len() ==> !((#[trigger] attrs[k]) is Gateway),
        forall|k: int|
            0 <= k < attrs.len() && (#[trigger] attrs[k]) is Gateway && (forall|j: int|
                k < j < attrs.len() ==> !((#[trigger] attrs[j]) is Gateway)) ==> last_gateway(attrs) == Some(
                attrs[k]->Gateway_0,
            ),
    decreases attrs.len(),
{
    if attrs.len() > 0 {
        let n = attrs.len() - 1;
        let init = attrs.drop_last();
        lemma_last_gateway(init);
        assert(attrs.last() == attrs[n]);
        if attrs[n] is Gateway {
            assert forall|k: int|
                0 <= k < attrs.len() && (#[trigger] attrs[k]) is Gateway && (forall|j: int|
                    k < j < attrs.len() ==> !((#[trigger] attrs[j]) is Gateway)) implies k == n by {
                if k < n {
                    assert(attrs[n] is Gateway);
                }
            }
        } else {
            if last_gateway(init) is None {
                assert forall|k: int| 0 <= k < attrs.len() implies !((#[trigger] attrs[k]) is Gateway) by {
                    if k < n {
                        assert(init[k] == attrs[k]);
                    }
                }
            } else {
                let k0 = choose|k: int| 0 <= k < init.len() && (#[trigger] init[k]) is Gateway;
                assert(attrs[k0] == init[k0]);
            }
            assert forall|k: int|
                0 <= k < attrs.len() && (#[trigger] attrs[k]) is Gateway && (forall|j: int|
                    k < j < attrs.len() ==> !((#[trigger] attrs[j]) is Gateway)) implies last_gateway(attrs) == Some(
                attrs[k]->Gateway_0,
            ) by {
                assert(k < n);
                assert(init[k] == attrs[k]);
                assert forall|j: int| k < j < init.len() implies !((#[trigger] init[j]) is Gateway) by {
                    assert(init[j] == attrs[j]);
                }
            }
        }
    }
}

/// `last_pref_source` is the address of the last `PrefSource` attribute, and none
/// exactly when there is no such attribute.
proof fn lemma_last_pref_source(attrs: Seq<RouteAttr>)
    ensures
        last_pref_source(attrs) is None <==> forall|k: int| 0 <= k < attrs.len() ==> !((#[trigger] attrs[k]) is PrefSource),
        forall|k: int|
            0 <= k < attrs.len() && (#[trigger] attrs[k]) is PrefSource && (forall|j: int|
                k < j < attrs.len() ==> !((#[trigger] attrs[j]) is PrefSource)) ==> last_pref_source(attrs) == Some(
                attrs[k]->PrefSource_0,
            ),
    decreases attrs.len(),
{
    if attrs.len() > 0 {
        let n = attrs.len() - 1;
        let init = attrs.drop_last();
        lemma_last_pref_source(init);
        assert(attrs.last() == attrs[n]);
        if attrs[n] is PrefSource {
            assert forall|k: int|
                0 <= k < attrs.len() && (#[trigger] attrs[k]) is PrefSource && (forall|j: int|
                    k < j < attrs.len() ==> !((#[trigger] attrs[j]) is PrefSource)) implies k == n by {
                if k < n {
                    assert(attrs[n] is PrefSource);
                }
            }
        } else {
            if last_pref_source(init) is None {
                assert forall|k: int| 0 <= k < attrs.len() implies !((#[trigger] attrs[k]) is PrefSource) by {
                    if k < n {
                        assert(init[k] == attrs[k]);
                    }
                }
            } else {
                let k0 = choose|k: int| 0 <= k < init.len() && (#[trigger] init[k]) is PrefSource;
                assert(attrs[k0] == init[k0]);
            }
            assert forall|k: int|
                0 <= k < attrs.len() && (#[trigger] attrs[k]) is PrefSource && (forall|j: int|
                    k < j < attrs.len() ==> !((#[trigger] attrs[j]) is PrefSource)) implies last_pref_source(attrs) == Some(
                attrs[k]->PrefSource_0,
            ) by {
                assert(k < n);
                assert(init[k] == attrs[k]);
                assert forall|j: int| k < j < init.len() implies !((#[trigger] init[j]) is PrefSource) by {
                    assert(init[j] == attrs[j]);
                }
            }
        }
    }
}

/// What a route message gives, read off its header and attributes: nothing
/// exactly for a kind or family that is not a route of IP; otherwise the
/// family of the message, `Default` exactly for destination prefix length
/// 0; the destination from the last `Destination` attribute and the source
/// from the last `PrefSource` attribute, each a network of its prefix
/// length (the address itself for length 0), and none where the message
/// has no such attribute; the gateway is the address of the last `Gateway`
/// attribute, none without one.
pub proof fn law_route_of_message_fields(
    kind: RouteKind,
    family: MsgFamily,
    dst_prefix: u8,
    src_prefix: u8,
    attrs: Seq<RouteAttr>,
)
    ensures
        (route_of_message(kind, family, dst_prefix, src_prefix, attrs) == Some(None::<NetRoute>)) <==> (kind
            == RouteKind::Other || family == MsgFamily::Other),
        route_of_message(kind, family, dst_prefix, src_prefix, attrs) matches Some(Some(r)) ==> {
            &&& r.family == (if family == MsgFamily::Inet {
                NetFamily::Ipv4
            } else {
                NetFamily::Ipv6
            })
            &&& (r.ntype == NetType::Default) == (dst_prefix == 0)
            &&& (r.dst is None) == (forall|k: int| 0 <= k < attrs.len() ==> !((#[trigger] attrs[k]) is Destination))
            &&& (r.src is None) == (forall|k: int| 0 <= k < attrs.len() ==> !((#[trigger] attrs[k]) is PrefSource))
            &&& (r.gateway is None) == (forall|k: int| 0 <= k < attrs.len() ==> !((#[trigger] attrs[k]) is Gateway))
            &&& forall|k: int|
                0 <= k < attrs.len() && (#[trigger] attrs[k]) is Destination && (forall|j: int|
                    k < j < attrs.len() ==> !((#[trigger] attrs[j]) is Destination)) ==> r.dst == Some(
                    route_target(attrs[k]->Destination_0, dst_prefix),
                )
            &&& forall|k: int|
                0 <= k < attrs.len() && (#[trigger] attrs[k]) is PrefSource && (forall|j: int|
                    k < j < attrs.len() ==> !((#[trigger] attrs[j]) is PrefSource)) ==> r.src == Some(
                    route_target(attrs[k]->PrefSource_0, src_prefix),
                )
            &&& forall|k: int|
                0 <= k < attrs.len() && (#[trigger] attrs[k]) is Gateway && (forall|j: int|
                    k < j < attrs.len() ==> !((#[trigger] attrs[j]) is Gateway)) ==> r.gateway == Some(
                    NetRouteAddr::IpAddr(attrs[k]->Gateway_0),
                )
        },
{
    lemma_last_destination(attrs);
    lemma_last_gateway(attrs);
    lemma_last_pref_source(attrs);
}

/// The address `a` as a route target of prefix length `prefix`: the
/// address itself for length 0, else its network.
pub open spec fn route_target(a: IpAddr, prefix: u8) -> NetRouteAddr {
    if prefix == 0 {
        NetRouteAddr::IpAddr(a)
    } else {
        NetRouteAddr::IpPool(IpPool::spec_new(a, prefix))
    }
}

/// The route that one rtnetlink route message describes: `Ok(None)` for a
/// message that is skipped (not a unicast or local route, or not IPv4 or
/// IPv6), `IpPoolError` when a destination or source network is refused.
pub fn route_from_message(msg: &RouteMsg) -> (r: Result<Option<NetRoute>, CrossNetError>)
    ensures
        match r {
            Ok(x) => route_of_message(msg.kind, msg.family, msg.dst_prefix, msg.src_prefix, msg.attrs@)
                == Some(x),
            Err(e) => route_of_message(msg.kind, msg.family, msg.dst_prefix, msg.src_prefix, msg.attrs@)
                is None && e is IpPoolError,
        },
{
    match msg.kind {
        RouteKind::Unicast | RouteKind::Local => {},
        _ => return Ok(None),
    }
    let ntype = if msg.dst_prefix == 0 {
        NetType::Default
    } else {
        NetType::Normal
    };
    let family = match msg.family {
        MsgFamily::Inet => NetFamily::Ipv4,
        MsgFamily::Inet6 => NetFamily::Ipv6,
        _ => return Ok(None),
    };
    let mut dst_addr: Option<IpAddr> = None;
    let mut src_addr: Option<IpAddr> = None;
    let mut gateway_addr: Option<IpAddr> = None;
    let attrs = &msg.attrs;
    assert(attrs@.take(0) =~= Seq::<RouteAttr>::empty());
    for i in 0..attrs.len()
        invariant
            attrs@ == msg.attrs@,
            dst_addr == last_destination(attrs@.take(i as int)),
            src_addr == last_pref_source(attrs@.take(i as int)),
            gateway_addr == last_gateway(attrs@.take(i as int)),
    {
        assert(attrs@.take(i + 1).drop_last() =~= attrs@.take(i as int));
        match attrs[i] {
            RouteAttr::Destination(a) => dst_addr = Some(a),
            RouteAttr::Gateway(a) => gateway_addr = Some(a),
            RouteAttr::PrefSource(a) => src_addr = Some(a),
            RouteAttr::Other => {},
        }
    }
    assert(attrs@.take(attrs.len() as int) =~= attrs@);
    let dst = convert_addr(dst_addr, msg.dst_prefix)?;
    let src = convert_addr(src_addr, msg.src_prefix)?;
    let gateway = convert_addr(gateway_addr, 0)?;
    Ok(Some(NetRoute { dst, src, gateway, ntype, family }))
}

} // verus!
