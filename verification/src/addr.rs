//! Network addresses as plain values.

use vstd::prelude::*;

verus! {

/// The address and port of one end of a UDP conversation. The octets and the segments of an
/// address form one number, the first of them highest.
#[derive(Clone, Copy, Debug, PartialEq, Eq, Structural)]
pub enum SocketAddr {
    V4 { octets: u32, port: u16 },
    V6 { segments: u128, port: u16, flow_info: u32, scope_id: u32 },
}

/// A socket address flattened into integers: the family, the address, the port, and, for IPv6, the
/// flow information and the scope.
pub type SocketAddrKey = (u8, u128, u16, u32, u32);

impl SocketAddr {
    /// The integers that stand for this address in a hash map.
    pub open spec fn spec_key(self) -> SocketAddrKey {
        match self {
            SocketAddr::V4 { octets, port } => (4u8, octets as u128, port, 0u32, 0u32),
            SocketAddr::V6 { segments, port, flow_info, scope_id } => (
                6u8,
                segments,
                port,
                flow_info,
                scope_id,
            ),
        }
    }

    /// The integers that stand for this address in a hash map.
    pub fn key(self) -> (key: SocketAddrKey)
        ensures
            key == self.spec_key(),
    {
        match self {
            SocketAddr::V4 { octets, port } => (4u8, octets as u128, port, 0u32, 0u32),
            SocketAddr::V6 { segments, port, flow_info, scope_id } => (
                6u8,
                segments,
                port,
                flow_info,
                scope_id,
            ),
        }
    }
}

/// Two addresses share a key only if they are the same address.
pub proof fn lemma_key_injective(a: SocketAddr, b: SocketAddr)
    ensures
        a.spec_key() == b.spec_key() <==> a == b,
{
}

} // verus!
