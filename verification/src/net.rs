use vstd::prelude::*;

verus! {

/// An IP address, held as a plain integer: IPv4 in the low 32 bits of a `u32`,
/// IPv6 as a `u128` (big-endian, as in the dotted and colon notations).
#[derive(PartialEq, Eq, Structural, Clone, Copy, Debug)]
pub enum IpAddress {
    V4(u32),
    V6(u128),
}

/// A transport address of a peer: its IP address and a port.
#[derive(PartialEq, Eq, Structural, Clone, Copy, Debug)]
pub struct PeerAddr {
    pub ip: IpAddress,
    pub port: u16,
}

impl PeerAddr {
    /// The same host with another port.
    pub fn with_port(self, port: u16) -> (res: PeerAddr)
        ensures
            res.ip == self.ip,
            res.port == port,
    {
        PeerAddr { ip: self.ip, port }
    }
}

} // verus!
