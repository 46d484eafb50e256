use vstd::prelude::*;

verus! {

/// Network identity of a worker: the socket address of its connection, held
/// as plain integers. Two workers are the same peer exactly when every field
/// is equal, as for a socket address.
#[derive(Clone, Copy, Debug, PartialEq, Eq, Hash, Structural)]
#[allow(inconsistent_fields)]
pub enum WorkerAddr {
    /// An IPv4 peer: the address as a big-endian integer, and the port.
    V4 { ip: u32, port: u16 },
    /// An IPv6 peer: the address as a big-endian integer, the port, the flow
    /// information and the scope identifier.
    V6 { ip: u128, port: u16, flowinfo: u32, scope_id: u32 },
}

} // verus!
