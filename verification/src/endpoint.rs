//! Addresses of sockets.

use vstd::prelude::*;

verus! {

/// A TCP port.
pub type Port = u16;

/// A host, by address or by name.
#[derive(Debug)]
pub enum Host {
    Ipv4([u8; 4]),
    Ipv6([u8; 16]),
    Domain(String),
}

/// Where a socket binds or connects. `P` is a path of the file system.
#[derive(Debug)]
pub enum Endpoint<P> {
    Tcp(Host, Port),
    /// A Unix domain socket; without a path it is unnamed.
    Ipc(Option<P>),
}

} // verus!
