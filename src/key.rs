use vstd::prelude::*;

verus! {

/// A client's source address as seen on the listening socket.
///
/// An IPv4 address is held in the low 32 bits of `ip`; `scope_id` is zero for
/// IPv4 and for IPv6 addresses without a scope.
#[derive(PartialEq, Eq, Structural, Clone, Copy, Debug, Hash)]
pub struct ClientKey {
    pub v6: bool,
    pub ip: u128,
    pub port: u16,
    pub scope_id: u32,
}

impl ClientKey {
    /// The key of an IPv4 client.
    pub fn v4(ip: u32, port: u16) -> (k: ClientKey)
        ensures
            !k.v6,
            k.ip == ip as u128,
            k.port == port,
            k.scope_id == 0,
    {
        ClientKey { v6: false, ip: ip as u128, port, scope_id: 0 }
    }

    /// The key of an IPv6 client.
    pub fn v6(ip: u128, port: u16, scope_id: u32) -> (k: ClientKey)
        ensures
            k.v6,
            k.ip == ip,
            k.port == port,
            k.scope_id == scope_id,
    {
        ClientKey { v6: true, ip, port, scope_id }
    }
}

} // verus!
