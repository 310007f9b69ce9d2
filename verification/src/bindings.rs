//! The calls that leave this crate. Verus takes the contract of each item
//! here on trust; everything else in the crate is proved from them.

use crate::filters::source_ip_router::config::Network;
use base64::Engine;
use rand::Rng;
use vstd::prelude::*;

verus! {

/// The text that the `base64` crate's `STANDARD` engine makes of `bytes`:
/// the standard alphabet, padded with `=`.
pub uninterp spec fn base64_standard(bytes: Seq<u8>) -> Seq<char>;

/// Whether `Engine::encode` has room for its output: four characters for
/// every three bytes, and four more for what is left over, within `usize`.
pub open spec fn base64_has_room(len: nat) -> bool {
    len / 3 * 4 + (if len % 3 > 0 { 4int } else { 0int }) <= usize::MAX
}

/// `base64::Engine::encode` on `base64::engine::general_purpose::STANDARD`.
/// The text depends on the bytes alone. The call panics where the length of
/// the text overflows `usize`, which `requires` leaves out.
#[verifier::external_body]
pub(crate) fn base64_encode(bytes: &[u8]) -> (text: String)
    requires
        base64_has_room(bytes@.len()),
    ensures
        text@ == base64_standard(bytes@),
{
    base64::engine::general_purpose::STANDARD.encode(bytes)
}

/// The network that the `ipnetwork` crate reads from a text in CIDR
/// notation, if it reads one (`IpNetwork::from_str`).
pub uninterp spec fn parsed_network(text: Seq<char>) -> Option<Network>;

/// The text in CIDR notation that the `ipnetwork` crate writes for a
/// network (`IpNetwork`'s `Display`).
pub uninterp spec fn network_text(network: Network) -> Seq<char>;

/// `IpNetwork::from_str`. A text gives a network or none, and always the
/// same; a network that it gives has a prefix within the width of its
/// address. Whatever is wrong with a text, the error is `InvalidAddr` with
/// the whole text, which displays as `invalid address: ` and the text.
#[verifier::external_body]
pub(crate) fn parse_network(text: &str) -> (r: Result<Network, String>)
    ensures
        match r {
            Ok(network) => parsed_network(text@) == Some(network) && network.wf(),
            Err(complaint) => parsed_network(text@) is None && complaint@ == "invalid address: "@
                + text@,
        },
{
    match text.parse::<ipnetwork::IpNetwork>() {
        Ok(ipnetwork::IpNetwork::V4(net)) => Ok(
            Network::V4 { address: net.ip().into(), prefix: net.prefix() },
        ),
        Ok(ipnetwork::IpNetwork::V6(net)) => Ok(
            Network::V6 { address: net.ip().into(), prefix: net.prefix() },
        ),
        Err(error) => Err(error.to_string()),
    }
}

/// `IpNetwork`'s `to_string`: the address, `/` and the prefix. Read back
/// by `IpNetwork::from_str`, the text gives the network it was written for.
#[verifier::external_body]
pub(crate) fn network_to_string(network: Network) -> (text: String)
    requires
        network.wf(),
    ensures
        text@ == network_text(network),
        parsed_network(text@) == Some(network),
{
    let made = match network {
        Network::V4 { address, prefix } => ipnetwork::Ipv4Network::new(address.into(), prefix).map(
            ipnetwork::IpNetwork::V4,
        ),
        Network::V6 { address, prefix } => ipnetwork::Ipv6Network::new(address.into(), prefix).map(
            ipnetwork::IpNetwork::V6,
        ),
    };
    match made {
        Ok(net) => net.to_string(),
        Err(_) => String::new(),
    }
}

/// The mask of an IPv4 network: `prefix` ones from the top, zeros below.
pub open spec fn ipv4_mask(prefix: u8) -> u32 {
    (!(0xffff_ffffu64 >> (prefix as u64))) as u32
}

/// The mask of an IPv6 network: `prefix` ones from the top, zeros below.
pub open spec fn ipv6_mask(prefix: u8) -> u128 {
    if prefix >= 128 {
        0xffff_ffff_ffff_ffff_ffff_ffff_ffff_ffffu128
    } else {
        !(0xffff_ffff_ffff_ffff_ffff_ffff_ffff_ffffu128 >> (prefix as u128))
    }
}

/// `Ipv4Network::contains`: under the network's mask, the address equals
/// the network's own.
#[verifier::external_body]
pub(crate) fn ipv4_network_contains(address: u32, prefix: u8, ip: u32) -> (inside: bool)
    requires
        prefix <= 32,
    ensures
        inside == ((ip & ipv4_mask(prefix)) == (address & ipv4_mask(prefix))),
{
    match ipnetwork::Ipv4Network::new(address.into(), prefix) {
        Ok(net) => net.contains(ip.into()),
        Err(_) => false,
    }
}

/// `Ipv6Network::contains`: under the network's mask, the address equals
/// the network's own.
#[verifier::external_body]
pub(crate) fn ipv6_network_contains(address: u128, prefix: u8, ip: u128) -> (inside: bool)
    requires
        prefix <= 128,
    ensures
        inside == ((ip & ipv6_mask(prefix)) == (address & ipv6_mask(prefix))),
{
    match ipnetwork::Ipv6Network::new(address.into(), prefix) {
        Ok(net) => net.contains(ip.into()),
        Err(_) => false,
    }
}

/// `Rng::gen_range(0, count)` on `rand::thread_rng()`: some index below
/// `count`, by chance. The call panics on an empty range, which `requires`
/// leaves out.
#[verifier::external_body]
pub(crate) fn random_index(count: usize) -> (index: usize)
    requires
        count > 0,
    ensures
        index < count,
{
    rand::thread_rng().gen_range(0, count)
}

/// `serde_json::Value`: the metadata that travels with an endpoint. It is
/// compared and never read.
#[verifier::external_type_specification]
#[verifier::external_body]
pub struct ExJsonValue(serde_json::Value);

/// `serde_json::Value`'s `==`: true for the same value and for no other.
#[verifier::external_body]
pub(crate) fn json_eq(a: &serde_json::Value, b: &serde_json::Value) -> (same: bool)
    ensures
        same == (*a == *b),
{
    a == b
}

} // verus!
