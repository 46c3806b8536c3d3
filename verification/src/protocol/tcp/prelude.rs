//! The names that every part of the transport shares.

use crate::addr::VirtualIp;
use vstd::prelude::*;
use vstd::std_specs::convert::FromSpecImpl;

verus! {

/// A transport port.
#[derive(Clone, Copy, Debug, PartialEq, Eq, Hash, Structural)]
pub struct Port(pub u16);

impl From<u16> for Port {
    fn from(p: u16) -> (r: Port) {
        Port(p)
    }
}

impl FromSpecImpl<u16> for Port {
    open spec fn obeys_from_spec() -> bool {
        true
    }

    open spec fn from_spec(p: u16) -> Port {
        Port(p)
    }
}

/// The small integer by which a user names a socket.
#[derive(Clone, Copy, Debug, PartialEq, Eq, Hash, Structural)]
pub struct SocketDescriptor(pub u16);

/// The far end of a connection.
#[derive(Clone, Copy, Debug, PartialEq, Eq, Hash, Structural)]
pub struct Remote {
    pub ip: VirtualIp,
    pub port: Port,
}

impl Remote {
    pub fn new(ip: VirtualIp, port: Port) -> (r: Remote)
        ensures
            r == (Remote { ip, port }),
    {
        Remote { ip, port }
    }

    pub fn ip(&self) -> (ip: VirtualIp)
        ensures
            ip == self.ip,
    {
        self.ip
    }

    pub fn port(&self) -> (port: Port)
        ensures
            port == self.port,
    {
        self.port
    }
}

/// The identity of a socket: a listener is known by its port, a connection
/// by its local port and its far end.
#[derive(Clone, Copy, Debug, PartialEq, Eq, Hash, Structural)]
pub enum SocketId {
    Listen(Port),
    Connection(Port, VirtualIp, Port),
}

/// Collects the parts of a connection's identity.
#[derive(Clone, Copy, Debug, PartialEq, Eq, Structural)]
pub struct SocketIdBuilder {
    pub remote_ip: Option<VirtualIp>,
    pub remote_port: Option<Port>,
    pub local_port: Option<Port>,
}

impl SocketId {
    /// The identity of the listener on `port`.
    pub fn for_listen_socket(port: Port) -> (id: SocketId)
        ensures
            id == SocketId::Listen(port),
    {
        SocketId::Listen(port)
    }

    /// The identity of the connection from `local_port` to `remote`.
    pub fn for_connection(local_port: Port, remote: Remote) -> (id: SocketId)
        ensures
            id == SocketId::Connection(local_port, remote.ip, remote.port),
    {
        SocketId::Connection(local_port, remote.ip, remote.port)
    }

    /// Starts collecting the parts of a connection's identity.
    pub fn build() -> (b: SocketIdBuilder)
        ensures
            b == (SocketIdBuilder { remote_ip: None, remote_port: None, local_port: None }),
    {
        SocketIdBuilder { remote_ip: None, remote_port: None, local_port: None }
    }

    pub open spec fn spec_local_port(self) -> Port {
        match self {
            SocketId::Listen(p) => p,
            SocketId::Connection(p, _, _) => p,
        }
    }

    pub open spec fn spec_remote(self) -> Option<Remote> {
        match self {
            SocketId::Listen(_) => None,
            SocketId::Connection(_, ip, port) => Some(Remote { ip, port }),
        }
    }

    /// The local port.
    pub fn local_port(&self) -> (p: Port)
        ensures
            p == self.spec_local_port(),
    {
        match *self {
            SocketId::Listen(p) => p,
            SocketId::Connection(p, _, _) => p,
        }
    }

    /// The far end; a listener has none.
    pub fn remote(&self) -> (r: Option<Remote>)
        ensures
            r == self.spec_remote(),
    {
        match *self {
            SocketId::Listen(_) => None,
            SocketId::Connection(_, ip, port) => Some(Remote { ip, port }),
        }
    }
}

impl SocketIdBuilder {
    pub fn with_remote_ip(self, ip: VirtualIp) -> (b: Self)
        ensures
            b == (SocketIdBuilder { remote_ip: Some(ip), ..self }),
    {
        SocketIdBuilder { remote_ip: Some(ip), ..self }
    }

    pub fn with_remote_port(self, port: Port) -> (b: Self)
        ensures
            b == (SocketIdBuilder { remote_port: Some(port), ..self }),
    {
        SocketIdBuilder { remote_port: Some(port), ..self }
    }

    pub fn with_local_port(self, port: Port) -> (b: Self)
        ensures
            b == (SocketIdBuilder { local_port: Some(port), ..self }),
    {
        SocketIdBuilder { local_port: Some(port), ..self }
    }

    /// The identity, where all three parts were given.
    pub fn build(self) -> (id: Option<SocketId>)
        ensures
            id == match (self.local_port, self.remote_ip, self.remote_port) {
                (Some(l), Some(ip), Some(p)) => Some(SocketId::Connection(l, ip, p)),
                _ => None,
            },
    {
        match (self.local_port, self.remote_ip, self.remote_port) {
            (Some(l), Some(ip), Some(p)) => Some(SocketId::Connection(l, ip, p)),
            _ => None,
        }
    }
}

} // verus!
