//! NAT-traversal coordination for a reuse-bound TCP socket.
//!
//! The crate models the fan-out/fan-in coordinator that discovers the
//! externally reachable addresses of a locally bound TCP socket: it seeds
//! optimistic local-interface candidates, tracks one gateway mapping worker
//! per interface that carries a gateway and one reflection-query child per
//! configured peer, reconciles their asynchronously delivered results, and
//! terminates at the first of "all children settled" and "timer fired",
//! handing back the socket together with the accumulated candidate list
//! exactly once.
//!
//! All blocking work (socket binding, gateway requests, the reflection wire
//! exchange, timers) is performed by the embedding program, which feeds the
//! outcomes back in as plain events; every decision taken on those events is
//! verified here.

pub mod addr;
pub mod config;
pub mod coordinator;
pub mod laws;
pub mod model;
