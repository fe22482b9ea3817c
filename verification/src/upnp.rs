use vstd::prelude::*;

use crate::discovery::BROADCAST_PORT;
use crate::net::IpAddress;

verus! {

/// How long, in seconds, the router keeps a port mapping.
pub const LEASE_SECS: u32 = 86400;

/// How a port mapping is described on the router.
pub const MAPPING_DESCRIPTION: &'static str = "sp2p app";

/// The transport protocol of a port mapping.
#[derive(PartialEq, Eq, Structural, Clone, Copy, Debug)]
pub enum MappingProtocol {
    Tcp,
    Udp,
}

/// A request to the router to forward a port to this host.
pub struct PortMapping {
    pub protocol: MappingProtocol,
    pub external_port: u16,
    pub local_ip: u32,
    pub local_port: u16,
    pub lease_secs: u32,
}

/// The mapping of one port, the same outside as inside, to `ip` for a day.
pub open spec fn mapping_of(protocol: MappingProtocol, ip: u32, port: u16, m: PortMapping) -> bool {
    &&& m.protocol == protocol
    &&& m.external_port == port
    &&& m.local_ip == ip
    &&& m.local_port == port
    &&& m.lease_secs == LEASE_SECS
}

/// The mappings to ask for: the transfer port over TCP and the discovery port
/// `BROADCAST_PORT` over UDP, each the same port outside as inside, to this host's
/// IPv4 address, for a day. No mapping is asked for an IPv6 address.
pub fn port_mappings(local: IpAddress, tcp_port: u16) -> (res: Vec<PortMapping>)
    ensures
        match local {
            IpAddress::V4(ip) => res@.len() == 2
                && mapping_of(MappingProtocol::Tcp, ip, tcp_port, res@[0])
                && mapping_of(MappingProtocol::Udp, ip, BROADCAST_PORT, res@[1]),
            IpAddress::V6(_) => res@.len() == 0,
        },
{
    let mut res: Vec<PortMapping> = Vec::new();
    match local {
        IpAddress::V4(ip) => {
            res.push(PortMapping {
                protocol: MappingProtocol::Tcp,
                external_port: tcp_port,
                local_ip: ip,
                local_port: tcp_port,
                lease_secs: LEASE_SECS,
            });
            res.push(PortMapping {
                protocol: MappingProtocol::Udp,
                external_port: BROADCAST_PORT,
                local_ip: ip,
                local_port: BROADCAST_PORT,
                lease_secs: LEASE_SECS,
            });
        },
        IpAddress::V6(_) => {},
    }
    res
}

} // verus!
