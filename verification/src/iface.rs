//! Hardware (MAC) addresses and their text form.
use vstd::prelude::*;
use crate::error::CrossNetError;
use crate::text::{
    byte_text, chars_of, is_lower_hex, lacks, lemma_byte_text, lemma_join_split, lemma_split_join, lemma_two_digits, join_with, parse_hex_byte, parse_hex_u8, push_byte_text, push_char, split_chars,
    split_on,
};

verus! {

/// The two encodings of a hardware address.
#[derive(Debug, Clone, Copy, PartialEq, Eq, Hash)]
enum MacAddrInner {
    Eui48([u8; 6]),
    Eui64([u8; 8]),
}

/// A MAC address, either EUI-48 (six octets) or EUI-64 (eight octets).
#[derive(Debug, Clone, Copy, PartialEq, Eq, Hash)]
pub struct MacAddr(MacAddrInner);

impl View for MacAddr {
    type V = Seq<u8>;

    /// The octets of the address; six of them for EUI-48, eight for EUI-64.
    closed spec fn view(&self) -> Seq<u8> {
        match self.0 {
            MacAddrInner::Eui48(b) => b@,
            MacAddrInner::Eui64(b) => b@,
        }
    }
}

/// The address family of an IP address or route.
#[derive(Debug, Clone, Copy, PartialEq, Eq, Hash, Structural)]
pub enum NetFamily {
    Ipv4,
    Ipv6,
}

/// The text of the octets `bytes`: each as two lowercase hexadecimal digits,
/// separated by colons.
pub open spec fn mac_text(bytes: Seq<u8>) -> Seq<char> {
    join_with(Seq::new(bytes.len(), |i: int| byte_text(bytes[i])), ':')
}

/// The octets that the text `s` denotes as a MAC address: six or eight
/// colon-separated pieces, each an optional `+` and one or more hexadecimal
/// digits of value below 256; `None` for any other text.
pub open spec fn parse_mac_text(s: Seq<char>) -> Option<Seq<u8>> {
    let parts = split_on(s, ':');
    if (parts.len() == 6 || parts.len() == 8) && forall|i: int|
        0 <= i < parts.len() ==> (#[trigger] parse_hex_u8(parts[i])) is Some {
        Some(Seq::new(parts.len(), |i: int| parse_hex_u8(parts[i]).unwrap()))
    } else {
        None
    }
}


/// The bytes `bytes`, each as two lowercase hexadecimal digits, separated
/// by colons.
pub fn hex_colon_text(bytes: &Vec<u8>) -> (s: String)
    ensures
        s@ == mac_text(bytes@),
{
    let mut s = String::new();
    let ghost texts = Seq::new(bytes@.len(), |i: int| byte_text(bytes@[i]));
    for i in 0..bytes.len()
        invariant
            texts == Seq::new(bytes@.len(), |i: int| byte_text(bytes@[i])),
            s@ == join_with(texts.take(i as int), ':'),
    {
        assert(texts.take(i + 1).drop_last() =~= texts.take(i as int));
        if i > 0 {
            push_char(&mut s, ':');
        }
        push_byte_text(&mut s, bytes[i]);
        if i == 0 {
            assert(texts.take(1) =~= seq![byte_text(bytes@[0])]);
            assert(s@ =~= byte_text(bytes@[0]));
        }
    }
    assert(texts.take(bytes.len() as int) =~= texts);
    s
}

/// Writing octets as text and reading the text back gives the same octets
/// for every length that a MAC address has (six or eight), and is refused
/// for every other length.
pub proof fn law_mac_text_roundtrip(bytes: Seq<u8>)
    ensures
        parse_mac_text(mac_text(bytes)) == (if bytes.len() == 6 || bytes.len() == 8 {
            Some(bytes)
        } else {
            None::<Seq<u8>>
        }),
{
    let texts = Seq::new(bytes.len(), |i: int| byte_text(bytes[i]));
    if bytes.len() == 0 {
        assert(mac_text(bytes) =~= Seq::<char>::empty());
        assert(split_on(Seq::<char>::empty(), ':').len() == 1);
    } else {
        assert forall|i: int| 0 <= i < texts.len() implies lacks(#[trigger] texts[i], ':') by {
            lemma_byte_text(bytes[i]);
        }
        lemma_split_join(texts, ':');
        let parts = split_on(mac_text(bytes), ':');
        assert(parts == texts);
        if bytes.len() == 6 || bytes.len() == 8 {
            assert forall|i: int| 0 <= i < parts.len() implies (#[trigger] parse_hex_u8(parts[i])) is Some by {
                lemma_byte_text(bytes[i]);
            }
            assert forall|i: int| 0 <= i < parts.len() implies parse_hex_u8(parts[i]).unwrap() == bytes[i] by {
                lemma_byte_text(bytes[i]);
            }
            assert(Seq::new(parts.len(), |i: int| parse_hex_u8(parts[i]).unwrap()) =~= bytes);
        }
    }
}

/// Canonical MAC text: six or eight colon-separated groups of exactly two
/// lowercase hexadecimal digits, the form that `MacAddr::to_string` writes.
pub open spec fn is_canonical_mac_text(s: Seq<char>) -> bool {
    let parts = split_on(s, ':');
    (parts.len() == 6 || parts.len() == 8) && forall|i: int|
        0 <= i < parts.len() ==> (#[trigger] parts[i]).len() == 2 && is_lower_hex(parts[i][0])
            && is_lower_hex(parts[i][1])
}

/// Reading canonical text as a MAC address and writing the address back
/// gives the same text.
pub proof fn law_canonical_text_roundtrip(s: Seq<char>)
    requires
        is_canonical_mac_text(s),
    ensures
        parse_mac_text(s) is Some,
        mac_text(parse_mac_text(s).unwrap()) == s,
{
    let parts = split_on(s, ':');
    assert forall|i: int| 0 <= i < parts.len() implies (#[trigger] parse_hex_u8(parts[i])) is Some
        && byte_text(parse_hex_u8(parts[i]).unwrap()) == parts[i] by {
        lemma_two_digits(parts[i]);
    }
    let b = Seq::new(parts.len(), |i: int| parse_hex_u8(parts[i]).unwrap());
    assert(parse_mac_text(s) == Some(b));
    assert(Seq::new(b.len(), |i: int| byte_text(b[i])) =~= parts);
    lemma_join_split(s, ':');
}

/// `MacAddr::from_str` accepts what `MacAddr::to_string` writes and gives
/// back the same address.
pub proof fn law_to_string_from_str(m: MacAddr)
    ensures
        parse_mac_text(mac_text(m@)) == Some(m@),
        forall|n: MacAddr| n@ == m@ ==> n == m,
{
    m.lemma_len();
    law_mac_text_roundtrip(m@);
    assert forall|n: MacAddr| n@ == m@ implies n == m by {
        n.lemma_view_injective(m);
    }
}

impl MacAddr {
    /// A well-formed address has six or eight octets.
    pub proof fn lemma_len(self)
        ensures
            self@.len() == 6 || self@.len() == 8,
    {
    }

    /// Two addresses are equal exactly when their octets are.
    pub proof fn lemma_view_injective(self, other: MacAddr)
        ensures
            (self@ == other@) == (self == other),
    {
        broadcast use vstd::array::group_array_axioms;
        if self@ == other@ {
            match (self.0, other.0) {
                (MacAddrInner::Eui48(a), MacAddrInner::Eui48(b)) => {
                    assert(a == b);
                    assert(self.0 == other.0);
                },
                (MacAddrInner::Eui64(a), MacAddrInner::Eui64(b)) => {
                    assert(a == b);
                    assert(self.0 == other.0);
                },
                (MacAddrInner::Eui48(a), MacAddrInner::Eui64(b)) => {
                    assert(a@.len() != b@.len());
                },
                (MacAddrInner::Eui64(a), MacAddrInner::Eui48(b)) => {
                    assert(a@.len() != b@.len());
                },
            }
        }
    }

    /// The address whose octets are `b`, for six or eight octets.
    pub closed spec fn spec_from_octets(b: Seq<u8>) -> MacAddr {
        if b.len() == 6 {
            MacAddr(MacAddrInner::Eui48([b[0], b[1], b[2], b[3], b[4], b[5]]))
        } else {
            MacAddr(MacAddrInner::Eui64([b[0], b[1], b[2], b[3], b[4], b[5], b[6], b[7]]))
        }
    }

    /// The address made from six or eight octets has those octets.
    pub proof fn lemma_spec_from_octets(b: Seq<u8>)
        requires
            b.len() == 6 || b.len() == 8,
        ensures
            Self::spec_from_octets(b)@ == b,
    {
        assert(Self::spec_from_octets(b)@ =~= b);
    }

    /// Creates a new MAC address from the given bytes.
    pub fn new(a: u8, b: u8, c: u8, d: u8, e: u8, f: u8) -> (m: Self)
        ensures
            m@ == seq![a, b, c, d, e, f],
    {
        MacAddr(MacAddrInner::Eui48([a, b, c, d, e, f]))
    }

    /// The all-zero EUI-48 address.
    pub fn zero() -> (m: Self)
        ensures
            m@ == seq![0u8, 0u8, 0u8, 0u8, 0u8, 0u8],
    {
        MacAddr(MacAddrInner::Eui48([0, 0, 0, 0, 0, 0]))
    }

    /// Creates a new EUI-48 MAC address from the given bytes.
    pub fn new_eui48(a: u8, b: u8, c: u8, d: u8, e: u8, f: u8) -> (m: Self)
        ensures
            m@ == seq![a, b, c, d, e, f],
    {
        MacAddr(MacAddrInner::Eui48([a, b, c, d, e, f]))
    }

    /// Creates a new EUI-64 MAC address from the given bytes.
    pub fn new_eui64(a: u8, b: u8, c: u8, d: u8, e: u8, f: u8, g: u8, h: u8) -> (m: Self)
        ensures
            m@ == seq![a, b, c, d, e, f, g, h],
    {
        MacAddr(MacAddrInner::Eui64([a, b, c, d, e, f, g, h]))
    }

    /// The address with the octets `b`: six make an EUI-48 address, eight an
    /// EUI-64 address, any other count none.
    pub fn from_octets(b: &Vec<u8>) -> (r: Option<Self>)
        ensures
            match r {
                Some(m) => (b@.len() == 6 || b@.len() == 8) && m == Self::spec_from_octets(b@) && m@ == b@,
                None => b@.len() != 6 && b@.len() != 8,
            },
    {
        if b.len() == 6 {
            let m = MacAddr::new_eui48(b[0], b[1], b[2], b[3], b[4], b[5]);
            assert(m@ =~= b@);
            proof {
                Self::lemma_spec_from_octets(b@);
                m.lemma_view_injective(Self::spec_from_octets(b@));
            }
            Some(m)
        } else if b.len() == 8 {
            let m = MacAddr::new_eui64(b[0], b[1], b[2], b[3], b[4], b[5], b[6], b[7]);
            assert(m@ =~= b@);
            proof {
                Self::lemma_spec_from_octets(b@);
                m.lemma_view_injective(Self::spec_from_octets(b@));
            }
            Some(m)
        } else {
            None
        }
    }

    /// Parses six or eight colon-separated hexadecimal octets
    /// (`"aa:bb:cc:dd:ee:ff"`); any other text is refused with
    /// `ParseMacAddrErr` carrying the text.
    pub fn from_str(s: &str) -> (r: Result<Self, CrossNetError>)
        ensures
            match r {
                Ok(m) => parse_mac_text(s@) == Some(m@),
                Err(e) => parse_mac_text(s@) is None && (e matches CrossNetError::ParseMacAddrErr {
                    mac,
                } && mac@ == s@),
            },
    {
        let chars = chars_of(s);
        let parts = split_chars(&chars, ':');
        let n = parts.len();
        if n != 6 && n != 8 {
            return Err(CrossNetError::ParseMacAddrErr { mac: s.to_owned() });
        }
        let ghost spec_parts = split_on(s@, ':');
        let mut bytes: Vec<u8> = Vec::new();
        for i in 0..n
            invariant
                n == parts@.len(),
                n == spec_parts.len(),
                spec_parts == split_on(s@, ':'),
                forall|j: int| 0 <= j < n ==> #[trigger] parts@[j]@ == spec_parts[j],
                bytes@.len() == i,
                forall|j: int|
                    0 <= j < i ==> #[trigger] parse_hex_u8(spec_parts[j]) == Some(bytes@[j]),
        {
            match parse_hex_byte(&parts[i]) {
                Some(b) => bytes.push(b),
                None => {
                    assert(parse_hex_u8(spec_parts[i as int]) is None);
                    return Err(CrossNetError::ParseMacAddrErr { mac: s.to_owned() });
                },
            }
        }
        let m = if n == 6 {
            MacAddr(
                MacAddrInner::Eui48([bytes[0], bytes[1], bytes[2], bytes[3], bytes[4], bytes[5]]),
            )
        } else {
            MacAddr(
                MacAddrInner::Eui64(
                    [
                        bytes[0],
                        bytes[1],
                        bytes[2],
                        bytes[3],
                        bytes[4],
                        bytes[5],
                        bytes[6],
                        bytes[7],
                    ],
                ),
            )
        };
        assert(m@ =~= Seq::new(n as nat, |i: int| parse_hex_u8(spec_parts[i]).unwrap()));
        Ok(m)
    }

    /// The octets, each as two lowercase hexadecimal digits, separated by
    /// colons (`"aa:bb:cc:dd:ee:ff"`).
    pub fn to_string(&self) -> (s: String)
        ensures
            s@ == mac_text(self@),
    {
        hex_colon_text(&self.octets())
    }

    /// The octets of the address.
    pub fn octets(&self) -> (v: Vec<u8>)
        ensures
            v@ == self@,
    {
        let mut v: Vec<u8> = Vec::new();
        match &self.0 {
            MacAddrInner::Eui48(b) => {
                for i in 0..6
                    invariant
                        v@ == b@.take(i as int),
                {
                    v.push(b[i]);
                    assert(b@.take(i + 1) =~= b@.take(i as int).push(b@[i as int]));
                }
                assert(b@.take(6) =~= b@);
            },
            MacAddrInner::Eui64(b) => {
                for i in 0..8
                    invariant
                        v@ == b@.take(i as int),
                {
                    v.push(b[i]);
                    assert(b@.take(i + 1) =~= b@.take(i as int).push(b@[i as int]));
                }
                assert(b@.take(8) =~= b@);
            },
        }
        v
    }

    /// Whether this is an EUI-48 (six-octet) address.
    pub fn is_eui48(&self) -> (r: bool)
        ensures
            r == (self@.len() == 6),
    {
        match self.0 {
            MacAddrInner::Eui48(_) => true,
            MacAddrInner::Eui64(_) => false,
        }
    }

    /// Whether this is an EUI-64 (eight-octet) address.
    pub fn is_eui64(&self) -> (r: bool)
        ensures
            r == (self@.len() == 8),
    {
        match self.0 {
            MacAddrInner::Eui48(_) => false,
            MacAddrInner::Eui64(_) => true,
        }
    }
}

} // verus!
