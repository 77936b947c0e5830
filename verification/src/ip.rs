//! IP addresses and the networks (address and prefix length) that routes
//! point at. Membership in a network is decided by the `subnetwork` crate.
use vstd::prelude::*;
use crate::error::CrossNetError;
use crate::iface::NetFamily;

verus! {

/// An IP address. An IPv4 address is held as the 32-bit number whose
/// big-endian bytes are its four octets; an IPv6 address likewise as a
/// 128-bit number.
#[derive(Debug, Clone, Copy, PartialEq, Eq, Hash, Structural)]
pub enum IpAddr {
    V4(u32),
    V6(u128),
}

impl IpAddr {
    /// The family of the address.
    pub open spec fn spec_family(self) -> NetFamily {
        match self {
            IpAddr::V4(_) => NetFamily::Ipv4,
            IpAddr::V6(_) => NetFamily::Ipv6,
        }
    }

    /// The family of the address.
    pub fn family(&self) -> (f: NetFamily)
        ensures
            f == self.spec_family(),
    {
        match self {
            IpAddr::V4(_) => NetFamily::Ipv4,
            IpAddr::V6(_) => NetFamily::Ipv6,
        }
    }
}


/// The number whose big-endian bytes are `b`.
pub open spec fn be_value(b: Seq<u8>) -> nat
    decreases b.len(),
{
    if b.len() == 0 {
        0
    } else {
        be_value(b.drop_last()) * 256 + b.last() as nat
    }
}

/// 256 to the power `n`.
pub open spec fn pow256(n: nat) -> nat
    decreases n,
{
    if n == 0 {
        1
    } else {
        256 * pow256((n - 1) as nat)
    }
}

/// The number of `n` big-endian bytes is below `256^n`.
pub proof fn lemma_be_value_bound(b: Seq<u8>)
    ensures
        be_value(b) < pow256(b.len()),
    decreases b.len(),
{
    if b.len() > 0 {
        lemma_be_value_bound(b.drop_last());
        let v = be_value(b.drop_last());
        let p = pow256(b.drop_last().len());
        assert(v * 256 + b.last() < p * 256) by (nonlinear_arith)
            requires
                v < p,
                b.last() < 256,
        ;
    }
}

/// The number whose big-endian bytes are `b`, at most sixteen of them.
fn be_u128(b: &Vec<u8>) -> (r: u128)
    requires
        b@.len() <= 16,
    ensures
        r == be_value(b@),
{
    let mut acc: u128 = 0;
    assert(b@.take(0) =~= Seq::<u8>::empty());
    assert(pow256(16) == 0x1_0000_0000_0000_0000_0000_0000_0000_0000) by {
        reveal_with_fuel(pow256, 17);
    }
    for i in 0..b.len()
        invariant
            b@.len() <= 16,
            pow256(16) == 0x1_0000_0000_0000_0000_0000_0000_0000_0000,
            acc == be_value(b@.take(i as int)),
    {
        assert(b@.take(i + 1).drop_last() =~= b@.take(i as int));
        proof {
            lemma_be_value_bound(b@.take(i + 1));
            lemma_pow256_mono((i + 1) as nat, 16);
        }
        acc = acc * 256 + b[i] as u128;
    }
    assert(b@.take(b.len() as int) =~= b@);
    acc
}

/// `pow256` grows with its exponent.
pub proof fn lemma_pow256_mono(a: nat, b: nat)
    requires
        a <= b,
    ensures
        pow256(a) <= pow256(b),
    decreases b,
{
    if a < b {
        lemma_pow256_mono(a, (b - 1) as nat);
    }
}

impl IpAddr {
    /// The address whose octets are `b`: four of them make an IPv4 address,
    /// sixteen an IPv6 address; any other count makes none.
    pub fn from_octets(b: &Vec<u8>) -> (r: Option<IpAddr>)
        ensures
            r == (if b@.len() == 4 {
                Some(IpAddr::V4(be_value(b@) as u32))
            } else if b@.len() == 16 {
                Some(IpAddr::V6(be_value(b@) as u128))
            } else {
                None
            }),
            b@.len() == 4 ==> be_value(b@) < 0x1_0000_0000,
    {
        if b.len() == 4 {
            let v = be_u128(b);
            proof {
                lemma_be_value_bound(b@);
                assert(pow256(4) == 0x1_0000_0000) by {
                    reveal_with_fuel(pow256, 5);
                }
            }
            Some(IpAddr::V4(v as u32))
        } else if b.len() == 16 {
            Some(IpAddr::V6(be_u128(b)))
        } else {
            None
        }
    }
}

/// The netmask of an IPv4 network with `prefix` leading one bits
/// (`u32::MAX << (32 - prefix)`), for `prefix` from 1 to 32.
pub open spec fn v4_mask(prefix: u8) -> u32 {
    u32::MAX << ((32 - prefix) as u32)
}

/// The netmask of an IPv6 network with `prefix` leading one bits, for
/// `prefix` from 1 to 128.
pub open spec fn v6_mask(prefix: u8) -> u128 {
    u128::MAX << ((128 - prefix) as u128)
}

/// `ip` lies in the IPv4 network of `addr` with prefix length `prefix`.
pub open spec fn v4_in_network(addr: u32, prefix: u8, ip: u32) -> bool {
    ip & v4_mask(prefix) == addr & v4_mask(prefix)
}

/// `ip` lies in the IPv6 network of `addr` with prefix length `prefix`.
pub open spec fn v6_in_network(addr: u128, prefix: u8, ip: u128) -> bool {
    ip & v6_mask(prefix) == addr & v6_mask(prefix)
}

/// `subnetwork::IpPool::new(addr, prefix)`: it refuses a prefix length
/// above the largest of the address's family (32 or 128) with an error and
/// accepts every other. (With a prefix length of 0 it overflows a shift,
/// which is why that one is left out.)
#[verifier::external_body]
fn subnetwork_check(addr: IpAddr, prefix: u8) -> (r: Option<subnetwork::SubnetworkError>)
    requires
        prefix != 0,
    ensures
        r is None <==> prefix <= IpPool::max_prefix(addr),
{
    match addr {
        IpAddr::V4(a) => subnetwork::IpPool::new(a.to_be_bytes().into(), prefix).err(),
        IpAddr::V6(a) => subnetwork::IpPool::new(a.to_be_bytes().into(), prefix).err(),
    }
}

/// `subnetwork::IpPool::contains` on the pool that `IpPool::new(addr,
/// prefix)` builds: the pool keeps `addr & mask` and the mask of `prefix`
/// leading ones, and holds an address of the same family whose `& mask`
/// equals it; an address of the other family it does not hold.
#[verifier::external_body]
fn subnetwork_contains(addr: IpAddr, prefix: u8, ip: IpAddr) -> (r: bool)
    requires
        1 <= prefix <= IpPool::max_prefix(addr),
    ensures
        r == match (addr, ip) {
            (IpAddr::V4(a), IpAddr::V4(x)) => v4_in_network(a, prefix, x),
            (IpAddr::V6(a), IpAddr::V6(x)) => v6_in_network(a, prefix, x),
            _ => false,
        },
{
    let pool = match addr {
        IpAddr::V4(a) => subnetwork::IpPool::new(a.to_be_bytes().into(), prefix),
        IpAddr::V6(a) => subnetwork::IpPool::new(a.to_be_bytes().into(), prefix),
    };
    let ip = match ip {
        IpAddr::V4(x) => x.to_be_bytes().into(),
        IpAddr::V6(x) => x.to_be_bytes().into(),
    };
    match pool {
        Ok(pool) => pool.contains(&ip),
        Err(_) => false,
    }
}

/// A network: an address and a prefix length that the address family
/// allows (1 to 32 for IPv4, 1 to 128 for IPv6). Two pools are equal when
/// both the address and the prefix length are, as in `subnetwork`.
#[derive(Debug, Clone, Copy, PartialEq, Eq, Hash, Structural)]
pub struct IpPool {
    addr: IpAddr,
    prefix: u8,
}

impl IpPool {
    #[verifier::type_invariant]
    spec fn wf(self) -> bool {
        &&& 1 <= self.prefix
        &&& match self.addr {
            IpAddr::V4(_) => self.prefix <= 32,
            IpAddr::V6(_) => self.prefix <= 128,
        }
    }

    /// The address the pool was made from.
    pub closed spec fn spec_addr(self) -> IpAddr {
        self.addr
    }

    /// The prefix length of the pool.
    pub closed spec fn spec_prefix(self) -> u8 {
        self.prefix
    }

    /// The pool of `addr` with prefix length `prefix`.
    pub closed spec fn spec_new(addr: IpAddr, prefix: u8) -> IpPool {
        IpPool { addr, prefix }
    }

    /// A pool is determined by its address and prefix length.
    pub proof fn lemma_spec_new(addr: IpAddr, prefix: u8)
        ensures
            Self::spec_new(addr, prefix).spec_addr() == addr,
            Self::spec_new(addr, prefix).spec_prefix() == prefix,
            forall|p: IpPool| p.spec_addr() == addr && p.spec_prefix() == prefix ==> p == Self::spec_new(addr, prefix),
    {
    }

    /// The largest prefix length of the family of `addr`.
    pub open spec fn max_prefix(addr: IpAddr) -> u8 {
        match addr {
            IpAddr::V4(_) => 32,
            IpAddr::V6(_) => 128,
        }
    }

    /// Whether `ip` lies in the pool: same family, and equal to the pool's
    /// address on the first `prefix` bits.
    pub open spec fn spec_contains(self, ip: IpAddr) -> bool {
        match (self.spec_addr(), ip) {
            (IpAddr::V4(a), IpAddr::V4(x)) => v4_in_network(a, self.spec_prefix(), x),
            (IpAddr::V6(a), IpAddr::V6(x)) => v6_in_network(a, self.spec_prefix(), x),
            _ => false,
        }
    }

    /// Builds the network of `addr` with `prefix` leading bits; a prefix
    /// length above the family's largest is refused with `IpPoolError`.
    pub fn new(addr: IpAddr, prefix: u8) -> (r: Result<IpPool, CrossNetError>)
        requires
            prefix != 0,
        ensures
            match r {
                Ok(p) => prefix <= Self::max_prefix(addr) && p == Self::spec_new(addr, prefix),
                Err(e) => prefix > Self::max_prefix(addr) && e is IpPoolError,
            },
    {
        match subnetwork_check(addr, prefix) {
            Some(e) => Err(CrossNetError::IpPoolError(e)),
            None => Ok(IpPool { addr, prefix }),
        }
    }

    /// The address the pool was made from.
    pub fn addr(&self) -> (a: IpAddr)
        ensures
            a == self.spec_addr(),
    {
        self.addr
    }

    /// The prefix length of the pool.
    pub fn prefix(&self) -> (p: u8)
        ensures
            p == self.spec_prefix(),
            1 <= p <= Self::max_prefix(self.spec_addr()),
    {
        proof {
            use_type_invariant(self);
        }
        self.prefix
    }

    /// Whether `ip` lies in the pool.
    pub fn contains(&self, ip: IpAddr) -> (r: bool)
        ensures
            r == self.spec_contains(ip),
    {
        proof {
            use_type_invariant(self);
        }
        subnetwork_contains(self.addr, self.prefix, ip)
    }
}

/// A network holds the address it was made from.
pub proof fn law_pool_holds_own_addr(pool: IpPool)
    ensures
        pool.spec_contains(pool.spec_addr()),
{
}

} // verus!
