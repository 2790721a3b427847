use vstd::prelude::*;

verus! {

/// The IPv4 loopback address, 127.0.0.1, as its 32 bits.
pub const LOCALHOST_V4: u32 = 0x7f00_0001;

/// An IP address, held as its bits: 32 for IPv4, 128 for IPv6, most significant octet first.
#[derive(Clone, Copy, Debug, PartialEq, Eq, Hash, Structural)]
pub enum Ip {
    V4(u32),
    V6(u128),
}

/// A network address: an IP address together with a port.
#[derive(Clone, Copy, Debug, PartialEq, Eq, Hash, Structural)]
pub struct Addr {
    pub ip: Ip,
    pub port: u16,
}

impl Addr {
    pub fn new(ip: Ip, port: u16) -> (r: Addr)
        ensures
            r.ip == ip,
            r.port == port,
    {
        Addr { ip, port }
    }
}

} // verus!
