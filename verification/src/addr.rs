//! Network endpoints of peers, as plain values.

use vstd::prelude::*;

verus! {

/// The network endpoint of a peer: an IP address and a port, with the two
/// extra words that an IPv6 endpoint carries.
///
/// Two endpoints are the same peer exactly when all their fields agree.
#[allow(inconsistent_fields)]
#[derive(Clone, Copy, Debug, PartialEq, Eq, Structural, Hash)]
pub enum PeerAddr {
    /// An IPv4 endpoint; `ip` holds the four octets, the first one highest.
    V4 { ip: u32, port: u16 },
    /// An IPv6 endpoint; `ip` holds the sixteen octets, the first one highest.
    V6 { ip: u128, port: u16, flowinfo: u32, scope_id: u32 },
}

impl PeerAddr {
    /// The IPv4 endpoint `a.b.c.d:port`.
    pub fn v4(a: u8, b: u8, c: u8, d: u8, port: u16) -> (addr: PeerAddr)
        ensures
            addr == (PeerAddr::V4 { ip: ipv4_bits(a, b, c, d), port }),
    {
        let ip: u32 = (a as u32) * 0x100_0000 + (b as u32) * 0x1_0000 + (c as u32) * 0x100 + (
        d as u32);
        PeerAddr::V4 { ip, port }
    }
}

/// The four octets `a.b.c.d` as one word, `a` highest.
pub open spec fn ipv4_bits(a: u8, b: u8, c: u8, d: u8) -> u32 {
    (a * 0x100_0000 + b * 0x1_0000 + c * 0x100 + d) as u32
}

} // verus!
