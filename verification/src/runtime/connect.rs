//! Which transport an endpoint asks for.

use crate::endpoint::{Endpoint, Host, Port};
use crate::error::ZmqError;
use vstd::prelude::*;

verus! {

/// The transports that were built in.
#[derive(Debug, Clone, Copy, PartialEq, Eq, Structural)]
pub struct Transports {
    pub tcp: bool,
    pub ipc: bool,
}

impl Transports {
    /// The transport of the endpoint is there.
    pub open spec fn support<P>(self, endpoint: Endpoint<P>) -> bool {
        match endpoint {
            Endpoint::Tcp(_, _) => self.tcp,
            Endpoint::Ipc(_) => self.ipc,
        }
    }

    /// Whether the transport of the endpoint is there.
    pub fn supports<P>(&self, endpoint: &Endpoint<P>) -> (r: bool)
        ensures
            r == self.support(*endpoint),
    {
        match endpoint {
            Endpoint::Tcp(_, _) => self.tcp,
            Endpoint::Ipc(_) => self.ipc,
        }
    }
}

/// An address on one transport. `H` is a host, `P` a path.
#[derive(Debug)]
pub enum Target<H, P> {
    Tcp(H, Port),
    Ipc(P),
}

/// Where to connect for an endpoint. An unnamed socket cannot be connected to.
pub fn connect<'a, P>(endpoint: &'a Endpoint<P>, transports: &Transports) -> (r: Result<
    Target<&'a Host, &'a P>,
    ZmqError,
>)
    requires
        transports.support(*endpoint),
    ensures
        match *endpoint {
            Endpoint::Tcp(host, port) => r == Ok::<Target<&Host, &P>, ZmqError>(
                Target::Tcp(&host, port),
            ),
            Endpoint::Ipc(Some(path)) => r == Ok::<Target<&Host, &P>, ZmqError>(Target::Ipc(&path)),
            Endpoint::Ipc(None) => r matches Err(ZmqError::Socket(m)) && m@
                == "Cannot connect to an unnamed ipc socket"@,
        },
{
    match endpoint {
        Endpoint::Tcp(host, port) => Ok(Target::Tcp(host, *port)),
        Endpoint::Ipc(Some(path)) => Ok(Target::Ipc(path)),
        Endpoint::Ipc(None) => Err(ZmqError::Socket("Cannot connect to an unnamed ipc socket")),
    }
}

/// Where to listen for an endpoint. Peers cannot be accepted at an unnamed socket.
pub fn begin_accept<P>(endpoint: Endpoint<P>, transports: &Transports) -> (r: Result<
    Target<Host, P>,
    ZmqError,
>)
    requires
        transports.support(endpoint),
    ensures
        match endpoint {
            Endpoint::Tcp(host, port) => r == Ok::<Target<Host, P>, ZmqError>(
                Target::Tcp(host, port),
            ),
            Endpoint::Ipc(Some(path)) => r == Ok::<Target<Host, P>, ZmqError>(Target::Ipc(path)),
            Endpoint::Ipc(None) => r matches Err(ZmqError::Socket(m)) && m@
                == "Cannot begin accepting peers at an unnamed ipc socket"@,
        },
{
    match endpoint {
        Endpoint::Tcp(host, port) => Ok(Target::Tcp(host, port)),
        Endpoint::Ipc(Some(path)) => Ok(Target::Ipc(path)),
        Endpoint::Ipc(None) => Err(
            ZmqError::Socket("Cannot begin accepting peers at an unnamed ipc socket"),
        ),
    }
}

/// What happens to the task that accepts connections. `A` is an accepted connection, or why
/// accepting it failed.
#[derive(Debug)]
pub enum AcceptEvent<A> {
    /// Accepting gave this.
    Accepted(A),
    /// The task was told to stop, or whoever could tell it is gone.
    Stop,
}

/// What the task that accepts connections does next.
#[derive(Debug)]
pub enum AcceptAction<A> {
    /// Hand this to the callback, in a task of its own, and go on accepting.
    Hand(A),
    /// Give up listening, and end.
    Stop,
}

/// What the task that accepts connections does about `event`. The callback gets every outcome as
/// it is, a failure too, and none of them ends the task.
pub fn accept_step<A>(event: AcceptEvent<A>) -> (r: AcceptAction<A>)
    ensures
        match event {
            AcceptEvent::Accepted(accepted) => r == AcceptAction::Hand(accepted),
            AcceptEvent::Stop => r is Stop,
        },
{
    match event {
        AcceptEvent::Accepted(accepted) => AcceptAction::Hand(accepted),
        AcceptEvent::Stop => AcceptAction::Stop,
    }
}

/// The endpoint at which a TCP socket listens once it is bound: with the port that it got, and
/// with the address that it got, unless it was asked for by name.
pub fn bound_endpoint<P>(host: Host, resolved_host: Host, port: Port) -> (r: Endpoint<P>)
    ensures
        r == Endpoint::<P>::Tcp(
            if host is Domain {
                host
            } else {
                resolved_host
            },
            port,
        ),
{
    let host = match host {
        Host::Domain(name) => Host::Domain(name),
        Host::Ipv4(_) => resolved_host,
        Host::Ipv6(_) => resolved_host,
    };
    Endpoint::Tcp(host, port)
}

} // verus!
