//! Where the process-inspection agent listens.
//!
//! The agent discloses process names, users and resource usage without
//! authentication or TLS, so it listens on the loopback interface only;
//! remote access goes through an authenticated tunnel.

use vstd::prelude::*;

verus! {

/// An IPv4 socket address: four octets and a port.
#[derive(Clone, Copy, Debug)]
pub struct ListenAddr {
    pub octets: [u8; 4],
    pub port: u16,
}

impl ListenAddr {
    /// The address is on the loopback network `127.0.0.0/8`.
    pub open spec fn loopback(self) -> bool {
        self.octets[0] == 127
    }

    /// Whether the address is on the loopback network (`Ipv4Addr::is_loopback`).
    pub fn is_loopback(&self) -> (r: bool)
        ensures
            r == self.loopback(),
    {
        self.octets[0] == 127
    }
}

/// The address the agent listens on: `127.0.0.1` at `port`. It is never a
/// public interface.
pub fn agent_listen_addr(port: u16) -> (addr: ListenAddr)
    ensures
        addr.octets@ == seq![127u8, 0u8, 0u8, 1u8],
        addr.port == port,
        addr.loopback(),
{
    let addr = ListenAddr { octets: [127, 0, 0, 1], port };
    assert(addr.octets@ =~= seq![127u8, 0u8, 0u8, 1u8]);
    addr
}

} // verus!
