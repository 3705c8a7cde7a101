//! Trusted proxy networks and the containment test for a peer address.
//!
//! Addresses are held as plain integers: an IPv4 address in the low 32 bits
//! of a `u128`, an IPv6 address in all 128 bits. Parsing network text is
//! delegated to the `ipnet` crate.

use vstd::prelude::*;
use vstd::arithmetic::power2::pow2;
use vstd::bits::lemma_u128_shr_is_div;

verus! {

/// A network a trusted proxy may connect from.
#[derive(Debug, Clone, Copy, PartialEq, Eq, Structural)]
pub struct TrustedNetwork {
    /// IPv6 (`true`) or IPv4 (`false`).
    pub is_v6: bool,
    /// Network address as written (host bits are kept, as `ipnet` keeps them).
    pub address: u128,
    /// Prefix length in bits.
    pub prefix_len: u8,
}

/// The address a connection came from.
#[derive(Debug, Clone, Copy, PartialEq, Eq, Structural)]
pub struct PeerAddress {
    /// IPv6 (`true`) or IPv4 (`false`).
    pub is_v6: bool,
    /// The address.
    pub address: u128,
}

/// Bits in an address of the family.
pub open spec fn family_bits(is_v6: bool) -> nat {
    if is_v6 {
        128
    } else {
        32
    }
}

impl TrustedNetwork {
    /// Prefix and address fit the family.
    pub open spec fn valid(self) -> bool {
        &&& self.prefix_len as nat <= family_bits(self.is_v6)
        &&& (self.address as nat) < pow2(family_bits(self.is_v6))
    }

    /// Host bits of the network.
    pub open spec fn host_bits(self) -> nat {
        (family_bits(self.is_v6) - self.prefix_len) as nat
    }

    /// `IpNet::contains`: same family, and the peer lies between the network
    /// address and the broadcast address, i.e. shares the network prefix.
    pub open spec fn contains_spec(self, peer: PeerAddress) -> bool {
        &&& self.is_v6 == peer.is_v6
        &&& (self.address as nat) / pow2(self.host_bits()) == (peer.address as nat) / pow2(
            self.host_bits(),
        )
    }

    /// Whether `peer` lies inside the network.
    pub fn contains(&self, peer: &PeerAddress) -> (r: bool)
        requires
            self.valid(),
            (peer.address as nat) < pow2(family_bits(peer.is_v6)),
        ensures
            r == self.contains_spec(*peer),
    {
        if self.is_v6 != peer.is_v6 {
            return false;
        }
        let bits: u32 = if self.is_v6 { 128 } else { 32 };
        let host = bits - self.prefix_len as u32;
        if host >= 128 {
            proof {
                vstd::arithmetic::power2::lemma_pow2_pos(128);
                vstd::arithmetic::div_mod::lemma_basic_div(self.address as int, pow2(128) as int);
                vstd::arithmetic::div_mod::lemma_basic_div(peer.address as int, pow2(128) as int);
            }
            return true;
        }
        proof {
            lemma_u128_shr_is_div(self.address, host as u128);
            lemma_u128_shr_is_div(peer.address, host as u128);
        }
        (self.address >> (host as u128)) == (peer.address >> (host as u128))
    }
}

/// Whether some trusted network contains the peer.
pub open spec fn any_contains(nets: Seq<TrustedNetwork>, peer: PeerAddress) -> bool {
    exists|i: int| 0 <= i < nets.len() && #[trigger] nets[i].contains_spec(peer)
}

/// Whether any of the trusted networks contains the peer.
pub fn trusted_peer(nets: &Vec<TrustedNetwork>, peer: &PeerAddress) -> (r: bool)
    requires
        forall|i: int| 0 <= i < nets@.len() ==> #[trigger] nets@[i].valid(),
        (peer.address as nat) < pow2(family_bits(peer.is_v6)),
    ensures
        r == any_contains(nets@, *peer),
{
    let mut i: usize = 0;
    while i < nets.len()
        invariant
            i <= nets@.len(),
            forall|j: int| 0 <= j < nets@.len() ==> #[trigger] nets@[j].valid(),
            (peer.address as nat) < pow2(family_bits(peer.is_v6)),
            forall|j: int| 0 <= j < i ==> !#[trigger] nets@[j].contains_spec(*peer),
        decreases nets.len() - i,
    {
        if nets[i].contains(peer) {
            return true;
        }
        i = i + 1;
    }
    false
}

/// What `ipnet` parses from network text: family, address and prefix length.
pub uninterp spec fn parsed_ip_network(text: Seq<char>) -> Option<(bool, u128, u8)>;

/// The network a parse result describes.
pub open spec fn network_of(p: Option<(bool, u128, u8)>) -> Option<TrustedNetwork> {
    match p {
        Some((v6, a, l)) => Some(TrustedNetwork { is_v6: v6, address: a, prefix_len: l }),
        None => None,
    }
}

/// Parses CIDR text with `<ipnet::IpNet as FromStr>::from_str`.
///
/// Trusted: the result is whatever `ipnet` parses (named `parsed_ip_network`),
/// and, as its constructors enforce, a parsed prefix never exceeds the family's
/// width (32 or 128) and an IPv4 address fits in 32 bits. The syntax `ipnet`
/// accepts is not restated here.
#[verifier::external_body]
pub fn parse_network(text: &str) -> (r: Option<TrustedNetwork>)
    ensures
        r == network_of(parsed_ip_network(text@)),
        r matches Some(n) ==> n.valid(),
{
    match text.parse::<ipnet::IpNet>() {
        Ok(ipnet::IpNet::V4(n)) => Some(
            TrustedNetwork { is_v6: false, address: u32::from(n.addr()) as u128, prefix_len: n.prefix_len() },
        ),
        Ok(ipnet::IpNet::V6(n)) => Some(
            TrustedNetwork { is_v6: true, address: u128::from(n.addr()), prefix_len: n.prefix_len() },
        ),
        Err(_) => None,
    }
}

} // verus!
