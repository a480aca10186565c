//! A user-space TCP/IPv4 stack for a TUN interface: header codecs with their
//! checksums, the per-flow connection state machine, the table of flows, the
//! frame ingress pipeline and the socket-style control plane.

pub mod wire;
pub mod utility;
pub mod ipv4;
pub mod tcp;
pub mod connections;
pub mod unixsocket;
pub mod ingress;
