//! Plain-value socket addresses and discovered address candidates.

use vstd::prelude::*;

verus! {

/// An IPv4 socket address held as plain values: the four octets packed into a
/// `u32` (network order, most significant octet first) and a port number.
#[derive(Clone, Copy, PartialEq, Eq, Structural, Debug)]
pub struct SockAddr {
    pub ip: u32,
    pub port: u16,
}

impl SockAddr {
    pub fn new(ip: u32, port: u16) -> (r: SockAddr)
        ensures
            r == (SockAddr { ip, port }),
    {
        SockAddr { ip, port }
    }
}

/// A candidate external address for the socket being mapped, together with
/// its provenance: `via_reflection` is true when the address was reported by
/// a peer reflection service, false for optimistic local-interface entries
/// and for gateway-assigned mappings. Immutable once created.
#[derive(Clone, Copy, PartialEq, Eq, Structural, Debug)]
pub struct MappedAddr {
    pub addr: SockAddr,
    pub via_reflection: bool,
}

impl MappedAddr {
    pub fn new(addr: SockAddr, via_reflection: bool) -> (r: MappedAddr)
        ensures
            r == (MappedAddr { addr, via_reflection }),
    {
        MappedAddr { addr, via_reflection }
    }
}

} // verus!
