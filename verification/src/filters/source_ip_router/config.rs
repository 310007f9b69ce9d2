//! The configuration of the source-IP router: routes, each with the
//! networks whose clients it serves.

use crate::bindings::{
    ipv4_mask, ipv4_network_contains, ipv6_mask, ipv6_network_contains, network_text,
    network_to_string, parse_network, parsed_network,
};
use crate::net::IpAddress;
use vstd::prelude::*;

verus! {

/// A network as plain numbers: the address it was written with and the
/// number of leading bits that count.
#[allow(inconsistent_fields)]
#[derive(Clone, Copy, Debug, PartialEq, Eq, Hash, Structural)]
pub enum Network {
    V4 { address: u32, prefix: u8 },
    V6 { address: u128, prefix: u8 },
}

/// Under the mask of `prefix` bits, `ip` equals `address`.
pub open spec fn ipv4_within(address: u32, prefix: u8, ip: u32) -> bool {
    (ip & ipv4_mask(prefix)) == (address & ipv4_mask(prefix))
}

/// Under the mask of `prefix` bits, `ip` equals `address`.
pub open spec fn ipv6_within(address: u128, prefix: u8, ip: u128) -> bool {
    (ip & ipv6_mask(prefix)) == (address & ipv6_mask(prefix))
}

impl Network {
    /// The prefix is no longer than the address.
    pub open spec fn wf(self) -> bool {
        match self {
            Network::V4 { address, prefix } => prefix <= 32,
            Network::V6 { address, prefix } => prefix <= 128,
        }
    }

    /// Whether `ip` lies in the network.
    ///
    /// An address of the network's own family lies in it where the two
    /// agree under the mask. An IPv6 address lies in an IPv4 network where
    /// it embeds an IPv4 address that does. An IPv4 address lies in no IPv6
    /// network.
    pub open spec fn contains(self, ip: IpAddress) -> bool {
        match self {
            Network::V4 { address, prefix } => match ip {
                IpAddress::V4(bits) => ipv4_within(address, prefix, bits),
                IpAddress::V6(_) => match ip.embedded_v4_spec() {
                    Some(bits) => ipv4_within(address, prefix, bits),
                    None => false,
                },
            },
            Network::V6 { address, prefix } => match ip {
                IpAddress::V4(_) => false,
                IpAddress::V6(bits) => ipv6_within(address, prefix, bits),
            },
        }
    }
}

/// The IPv6 address that maps an IPv4 address: `::ffff:a.b.c.d`.
pub open spec fn mapped(bits: u32) -> IpAddress {
    IpAddress::V6((0xffff_0000_0000 + bits) as u128)
}

/// An IPv4-mapped IPv6 address lies in exactly those IPv4 networks in
/// which the IPv4 address lies that it maps, and so does the IPv6 address
/// with nothing but that IPv4 address in its low 32 bits.
pub proof fn lemma_embedded_address_lies_where_its_ipv4_form_lies(network: Network, bits: u32)
    requires
        network is V4,
    ensures
        network.contains(mapped(bits)) == network.contains(IpAddress::V4(bits)),
        network.contains(IpAddress::V6(bits as u128)) == network.contains(IpAddress::V4(bits)),
{
    assert(mapped(bits).embedded_v4_spec() == Some(bits));
    assert(IpAddress::V6(bits as u128).embedded_v4_spec() == Some(bits));
}

/// An IPv4 network without a prefix holds every address.
pub proof fn lemma_ipv4_prefix_zero_holds_all(address: u32, ip: u32)
    ensures
        ipv4_within(address, 0, ip),
{
    assert(ipv4_mask(0) == 0) by (bit_vector);
    assert(ip & 0 == address & 0) by (bit_vector);
}

/// An IPv4 network with a prefix of all 32 bits holds its own address and
/// no other.
pub proof fn lemma_ipv4_full_prefix_holds_one(address: u32, ip: u32)
    ensures
        ipv4_within(address, 32, ip) <==> ip == address,
{
    assert(ipv4_mask(32) == 0xffff_ffffu32) by (bit_vector);
    assert((ip & 0xffff_ffffu32 == address & 0xffff_ffffu32) <==> ip == address) by (bit_vector);
}

/// An address lies in an IPv4 network exactly where its leading `prefix`
/// bits are those of the network's address.
pub proof fn lemma_ipv4_within_compares_leading_bits(address: u32, prefix: u8, ip: u32)
    requires
        1 <= prefix <= 32,
    ensures
        ipv4_within(address, prefix, ip) <==> ip >> ((32 - prefix) as u32) == address >> ((32
            - prefix) as u32),
{
    let low: u32 = (32 - prefix) as u32;
    let mask = ipv4_mask(prefix);
    assert(((ip & mask) == (address & mask)) <==> (ip >> low == address >> low)) by (bit_vector)
        requires
            mask == (!(0xffff_ffffu64 >> (prefix as u64))) as u32,
            low == (32 - prefix) as u32,
            1 <= prefix <= 32,
    ;
}

/// An IPv6 network without a prefix holds every IPv6 address.
pub proof fn lemma_ipv6_prefix_zero_holds_all(address: u128, ip: u128)
    ensures
        ipv6_within(address, 0, ip),
{
    assert(ipv6_mask(0) == 0) by (bit_vector);
    assert(ip & 0 == address & 0) by (bit_vector);
}

/// An IPv6 network with a prefix of all 128 bits holds its own address
/// and no other.
pub proof fn lemma_ipv6_full_prefix_holds_one(address: u128, ip: u128)
    ensures
        ipv6_within(address, 128, ip) <==> ip == address,
{
    let mask = ipv6_mask(128);
    assert((ip & mask == address & mask) <==> ip == address) by (bit_vector)
        requires
            mask == 0xffff_ffff_ffff_ffff_ffff_ffff_ffff_ffffu128,
    ;
}

/// An address lies in an IPv6 network exactly where its leading `prefix`
/// bits are those of the network's address.
#[verifier::rlimit(100)]
pub proof fn lemma_ipv6_within_compares_leading_bits(address: u128, prefix: u8, ip: u128)
    requires
        1 <= prefix <= 128,
    ensures
        ipv6_within(address, prefix, ip) <==> ip >> ((128 - prefix) as u128) == address >> ((128
            - prefix) as u128),
{
    let low: u128 = (128 - prefix) as u128;
    let mask = ipv6_mask(prefix);
    let differ = ip ^ address;
    assert(((ip & mask) == (address & mask)) <==> differ & mask == 0) by (bit_vector)
        requires
            differ == ip ^ address,
    ;
    assert((ip >> low == address >> low) <==> differ >> low == 0) by (bit_vector)
        requires
            differ == ip ^ address,
            low < 128,
    ;
    if prefix == 128 {
        assert(differ & mask == 0 <==> differ >> low == 0) by (bit_vector)
            requires
                mask == 0xffff_ffff_ffff_ffff_ffff_ffff_ffff_ffffu128,
                low == 0,
        ;
    } else {
        let high: u128 = prefix as u128;
        assert(differ & mask == 0 <==> differ >> low == 0) by (bit_vector)
            requires
                mask == !(0xffff_ffff_ffff_ffff_ffff_ffff_ffff_ffffu128 >> high),
                low == 128 - high,
                1 <= high < 128,
        ;
    }
}

/// A network in CIDR notation. Its prefix is never longer than its address.
#[derive(Clone, Copy, Debug, PartialEq, Eq, Hash)]
pub struct Cidr {
    network: Network,
}

/// Why a text is no network in CIDR notation.
#[derive(Clone, Debug, PartialEq, Eq)]
pub struct InvalidCidr {
    pub message: String,
}

impl View for Cidr {
    type V = Network;

    closed spec fn view(&self) -> Network {
        self.network
    }
}

impl Cidr {
    #[verifier::type_invariant]
    closed spec fn well_formed(self) -> bool {
        self.network.wf()
    }

    /// The network as a `Cidr`, unless its prefix is longer than its
    /// address.
    pub fn new(network: Network) -> (cidr: Option<Cidr>)
        ensures
            match cidr {
                Some(c) => network.wf() && c@ == network,
                None => !network.wf(),
            },
    {
        let fits = match network {
            Network::V4 { address, prefix } => prefix <= 32,
            Network::V6 { address, prefix } => prefix <= 128,
        };
        if fits {
            Some(Cidr { network })
        } else {
            None
        }
    }

    /// The network as plain numbers.
    pub fn network(&self) -> (network: Network)
        ensures
            network == self@,
            network.wf(),
    {
        proof {
            use_type_invariant(self);
        }
        self.network
    }

    /// Returns true if `ip` is contained in this CIDR range.
    pub fn contains(&self, ip: IpAddress) -> (inside: bool)
        ensures
            inside == self@.contains(ip),
    {
        proof {
            use_type_invariant(self);
        }
        match self.network {
            Network::V4 { address, prefix } => match ip {
                IpAddress::V4(bits) => ipv4_network_contains(address, prefix, bits),
                IpAddress::V6(_) => match ip.embedded_v4() {
                    Some(bits) => ipv4_network_contains(address, prefix, bits),
                    None => false,
                },
            },
            Network::V6 { address, prefix } => match ip {
                IpAddress::V4(_) => false,
                IpAddress::V6(bits) => ipv6_network_contains(address, prefix, bits),
            },
        }
    }

    /// Reads a network from its text.
    pub fn from_str(text: &str) -> (r: Result<Cidr, InvalidCidr>)
        ensures
            match r {
                Ok(cidr) => parsed_network(text@) == Some(cidr@),
                Err(error) => parsed_network(text@) is None && error.message@
                    == "invalid address: "@ + text@,
            },
    {
        match parse_network(text) {
            Ok(network) => Ok(Cidr { network }),
            Err(message) => Err(InvalidCidr { message }),
        }
    }

    /// Writes the network as text. [`Cidr::from_str`] reads the same
    /// network back from it.
    pub fn to_string(&self) -> (text: String)
        ensures
            text@ == network_text(self@),
            parsed_network(text@) == Some(self@),
    {
        proof {
            use_type_invariant(self);
        }
        network_to_string(self.network)
    }
}

/// A single routing rule: a client whose address lies in any of `sources`
/// is routed to `endpoint`.
#[derive(Clone, Debug, PartialEq, Eq)]
pub struct Route {
    /// One or more networks in CIDR notation.
    pub sources: Vec<Cidr>,
    /// The `host:port` to route to.
    pub endpoint: String,
}

/// The networks of `Cidr`s.
pub open spec fn cidr_views(cidrs: Seq<Cidr>) -> Seq<Network> {
    cidrs.map_values(|cidr: Cidr| cidr@)
}

/// The views of routes.
pub open spec fn route_views(routes: Seq<Route>) -> Seq<RouteView> {
    routes.map_values(|route: Route| route@)
}

/// A [`Route`] as plain values.
pub struct RouteView {
    pub sources: Seq<Network>,
    pub endpoint: Seq<char>,
}

impl View for Route {
    type V = RouteView;

    open spec fn view(&self) -> RouteView {
        RouteView {
            sources: cidr_views(self.sources@),
            endpoint: self.endpoint@,
        }
    }
}

/// The configuration of the source-IP router: its routes, in the order in
/// which they are tried.
#[derive(Clone, Debug, PartialEq, Eq)]
pub struct Config {
    pub routes: Vec<Route>,
}

impl View for Config {
    type V = Seq<RouteView>;

    open spec fn view(&self) -> Seq<RouteView> {
        route_views(self.routes@)
    }
}

impl Default for Config {
    fn default() -> (config: Config)
        ensures
            config@ == Seq::<RouteView>::empty(),
    {
        Config { routes: Vec::new() }
    }
}

} // verus!
