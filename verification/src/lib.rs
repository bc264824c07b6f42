//! Data plane of an RTP fan-out relay.
//!
//! The library parses RTP datagrams, keeps a registry of sessions keyed by
//! SSRC, and replicates each ingress packet to every subscriber of its
//! session. I/O (sockets, clocks, metric export) stays outside; the library
//! works on plain values and states what it does in contracts.

pub mod codec;
pub mod config;
pub mod fanout;
pub mod metrics;
pub mod session;

use vstd::prelude::*;

verus! {

/// A UDP destination, as the plain values the relay routes on: an IP address
/// (IPv4 held in the low 32 bits) and a port.
#[derive(Clone, Copy, PartialEq, Eq, Structural, Hash, Debug)]
pub struct Addr {
    pub is_v6: bool,
    pub ip: u128,
    pub port: u16,
}

impl Addr {
    /// Build an IPv4 address from its four octets and a port.
    pub fn v4(a: u8, b: u8, c: u8, d: u8, port: u16) -> (r: Addr)
        ensures
            !r.is_v6,
            r.ip == (a as int) * 0x1000000 + (b as int) * 0x10000 + (c as int) * 0x100 + (d as int),
            r.port == port,
    {
        let ip: u32 = (a as u32) * 0x1000000 + (b as u32) * 0x10000 + (c as u32) * 0x100 + (d as u32);
        Addr { is_v6: false, ip: ip as u128, port }
    }
}

/// A parsed RTP packet: the routing-relevant header fields and the payload.
#[derive(Debug, Clone)]
pub struct RtpPacket {
    pub payload: Vec<u8>,
    pub timestamp: u32,
    pub sequence: u16,
    pub ssrc: u32,
    pub marker: bool,
}

/// One egress datagram the fan-out engine asks the sender to put on the wire.
#[derive(Debug, Clone)]
pub struct Datagram {
    pub dest: Addr,
    pub data: Vec<u8>,
}

} // verus!
