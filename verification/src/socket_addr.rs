//! Internet socket addresses and their text form.
//!
//! An IPv4 address is written `10.0.0.5:8443`, an IPv6 address `[2001:db8::5]:8443`, with
//! an optional scope as in `[fe80::1%2]:80`. The grammar is [`crate::address_text::address_of`], the text that
//! stands for an address is [`crate::address_text::address_text`].
use vstd::prelude::*;


verus! {

/// An IPv4 address, as its four octets.
#[derive(Debug, Clone, Copy, PartialEq, Eq)]
pub struct Ipv4Addr {
    pub octets: [u8; 4],
}

/// An IPv6 address, as its eight 16-bit segments.
#[derive(Debug, Clone, Copy, PartialEq, Eq)]
pub struct Ipv6Addr {
    pub segments: [u16; 8],
}

/// An IPv4 address with a port.
#[derive(Debug, Clone, Copy, PartialEq, Eq)]
pub struct SocketAddrV4 {
    pub ip: Ipv4Addr,
    pub port: u16,
}

/// An IPv6 address with a port, a flow label and a scope.
#[derive(Debug, Clone, Copy, PartialEq, Eq)]
pub struct SocketAddrV6 {
    pub ip: Ipv6Addr,
    pub port: u16,
    pub flowinfo: u32,
    pub scope_id: u32,
}

/// A socket address of either family.
#[derive(Debug, Clone, Copy, PartialEq, Eq)]
pub enum SocketAddr {
    V4(SocketAddrV4),
    V6(SocketAddrV6),
}

/// What a [`SocketAddr`] denotes.
pub enum Address {
    V4 { octets: Seq<u8>, port: u16 },
    V6 { segments: Seq<u16>, port: u16, flowinfo: u32, scope_id: u32 },
}

impl Address {
    pub open spec fn port(self) -> u16 {
        match self {
            Address::V4 { port, .. } => port,
            Address::V6 { port, .. } => port,
        }
    }

    /// The number of parts that an address of the family has.
    pub open spec fn well_formed(self) -> bool {
        match self {
            Address::V4 { octets, .. } => octets.len() == 4,
            Address::V6 { segments, .. } => segments.len() == 8,
        }
    }

    /// The address without its flow label, which the text form does not carry.
    pub open spec fn without_flow(self) -> Address {
        match self {
            Address::V4 { .. } => self,
            Address::V6 { segments, port, scope_id, .. } => Address::V6 {
                segments,
                port,
                flowinfo: 0,
                scope_id,
            },
        }
    }

    /// The address as a header carries it: without flow label and scope.
    pub open spec fn on_wire(self) -> Address {
        match self {
            Address::V4 { .. } => self,
            Address::V6 { segments, port, .. } => Address::V6 {
                segments,
                port,
                flowinfo: 0,
                scope_id: 0,
            },
        }
    }
}

impl View for SocketAddrV4 {
    type V = Address;

    open spec fn view(&self) -> Address {
        Address::V4 { octets: self.ip.octets@, port: self.port }
    }
}

impl View for SocketAddrV6 {
    type V = Address;

    open spec fn view(&self) -> Address {
        Address::V6 {
            segments: self.ip.segments@,
            port: self.port,
            flowinfo: self.flowinfo,
            scope_id: self.scope_id,
        }
    }
}

impl View for SocketAddr {
    type V = Address;

    open spec fn view(&self) -> Address {
        match self {
            SocketAddr::V4(addr) => addr@,
            SocketAddr::V6(addr) => addr@,
        }
    }
}

/// Addresses that denote the same are the same.
pub proof fn lemma_same_view(a: SocketAddr, b: SocketAddr)
    requires
        a@ == b@,
    ensures
        a == b,
{
    match (a, b) {
        (SocketAddr::V4(x), SocketAddr::V4(y)) => {
            assert(x.ip.octets =~= y.ip.octets);
        },
        (SocketAddr::V6(x), SocketAddr::V6(y)) => {
            assert(x.ip.segments =~= y.ip.segments);
        },
        _ => {},
    }
}

impl Ipv4Addr {
    /// The address `a.b.c.d`.
    pub fn new(a: u8, b: u8, c: u8, d: u8) -> (r: Ipv4Addr)
        ensures
            r.octets@ == seq![a, b, c, d],
    {
        Ipv4Addr { octets: [a, b, c, d] }
    }
}

/// The 16-bit number with the high octet `high` and the low octet `low`.
pub open spec fn big_endian(high: u8, low: u8) -> u16 {
    (high * 256 + low) as u16
}

/// The high octet of `n`.
pub open spec fn high_octet(n: u16) -> u8 {
    (n / 256) as u8
}

/// The low octet of `n`.
pub open spec fn low_octet(n: u16) -> u8 {
    (n % 256) as u8
}

/// The eight segments written by sixteen octets, high octet first.
pub open spec fn segments_of(octets: Seq<u8>) -> Seq<u16> {
    Seq::new(8, |i: int| big_endian(octets[2 * i], octets[2 * i + 1]))
}

/// The sixteen octets that write eight segments, high octet first.
pub open spec fn octets_of(segments: Seq<u16>) -> Seq<u8> {
    Seq::new(
        16,
        |i: int|
            if i % 2 == 0 {
                high_octet(segments[i / 2])
            } else {
                low_octet(segments[i / 2])
            },
    )
}

/// The number with the given high and low octet.
pub fn join_octets(high: u8, low: u8) -> (r: u16)
    ensures
        r == big_endian(high, low),
        r == 256 * high + low,
{
    high as u16 * 256 + low as u16
}

impl Ipv6Addr {
    /// The address with the segments `a` to `h`.
    pub fn new(a: u16, b: u16, c: u16, d: u16, e: u16, f: u16, g: u16, h: u16) -> (r: Ipv6Addr)
        ensures
            r.segments@ == seq![a, b, c, d, e, f, g, h],
    {
        Ipv6Addr { segments: [a, b, c, d, e, f, g, h] }
    }

    /// The address whose sixteen octets start at `at`.
    pub fn from_octets(octets: &[u8], at: usize) -> (r: Ipv6Addr)
        requires
            at + 16 <= octets.len(),
        ensures
            r.segments@ == segments_of(octets@.subrange(at as int, at + 16)),
            forall|i: int|
                0 <= i < 8 ==> #[trigger] r.segments@[i] == 256 * octets@[at + 2 * i] + octets@[at
                    + 2 * i + 1],
    {
        let mut segments: [u16; 8] = [0u16; 8];
        let mut i: usize = 0;
        while i < 8
            invariant
                i <= 8,
                at + 16 <= octets.len(),
                forall|j: int|
                    0 <= j < i ==> #[trigger] segments@[j] == big_endian(
                        octets@[at + 2 * j],
                        octets@[at + 2 * j + 1],
                    ),
            decreases 8 - i,
        {
            segments[i] = join_octets(octets[at + 2 * i], octets[at + 2 * i + 1]);
            i += 1;
        }
        assert(segments@ =~= segments_of(octets@.subrange(at as int, at + 16)));
        Ipv6Addr { segments }
    }
}

impl SocketAddr {
    /// The port of the address.
    pub fn port(&self) -> (r: u16)
        ensures
            r == self@.port(),
            match self {
                SocketAddr::V4(addr) => r == addr.port,
                SocketAddr::V6(addr) => r == addr.port,
            },
    {
        match self {
            SocketAddr::V4(addr) => addr.port,
            SocketAddr::V6(addr) => addr.port,
        }
    }

    /// An address always has the parts of its family.
    pub proof fn lemma_well_formed(self)
        ensures
            self@.well_formed(),
    {
    }
}

/// An address denotes its own parts: the octets or segments of its host, its port, its flow
/// label and its scope, each as it is.
pub proof fn law_address_denotes_its_parts(addr: SocketAddr)
    ensures
        addr@.port() == (match addr {
            SocketAddr::V4(v4) => v4.port,
            SocketAddr::V6(v6) => v6.port,
        }),
        addr matches SocketAddr::V4(v4) ==> {
            &&& v4@ == addr@
            &&& addr@ matches Address::V4 { octets, port }
            &&& octets == v4.ip.octets@
            &&& port == v4.port
        },
        addr matches SocketAddr::V6(v6) ==> {
            &&& v6@ == addr@
            &&& addr@ matches Address::V6 { segments, port, flowinfo, scope_id }
            &&& segments == v6.ip.segments@
            &&& port == v6.port
            &&& flowinfo == v6.flowinfo
            &&& scope_id == v6.scope_id
        },
{
}

} // verus!
