//! The flat mapping configuration and the setup-failure taxonomy.

use vstd::prelude::*;
use crate::addr::SockAddr;

verus! {

/// One local IPv4 interface, as the coordinator sees it: its address and
/// whether a UPnP/IGD-capable gateway is reachable through it. The gateway
/// handle itself stays with the embedding program; the coordinator only
/// decides from its presence.
#[derive(Clone, Copy, PartialEq, Eq, Structural, Debug)]
pub struct Ifv4 {
    pub ip: u32,
    pub has_gateway: bool,
}

/// The mapping configuration: the local IPv4 interfaces (each with or
/// without a gateway) and the addresses of peer-operated reflection
/// services. Empty lists are valid inputs.
pub struct MappingContext {
    pub ifv4s: Vec<Ifv4>,
    pub peer_listeners: Vec<SockAddr>,
}

impl MappingContext {
    pub fn new(ifv4s: Vec<Ifv4>, peer_listeners: Vec<SockAddr>) -> (r: MappingContext)
        ensures
            r.ifv4s == ifv4s,
            r.peer_listeners == peer_listeners,
    {
        MappingContext { ifv4s, peer_listeners }
    }
}

/// A fatal setup failure, surfaced synchronously from `start` before any
/// child exists: the local socket could not be reuse-bound, or the timeout
/// timer could not be registered.
#[derive(Clone, Copy, PartialEq, Eq, Structural, Debug)]
pub enum NatError {
    SocketBind,
    TimerRegister,
}

} // verus!
