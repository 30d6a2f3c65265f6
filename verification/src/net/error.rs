//! What can go wrong with peers.

use vstd::prelude::*;

use crate::net::addr::{IpAddr, ResolveSeedAddress, SocketAddr};

verus! {

/// A connection to the peer exists already.
#[derive(Clone, Copy, Debug, PartialEq, Eq, Structural)]
pub struct AlreadyConnected(pub SocketAddr);

/// Why a connection could not be started.
#[derive(Debug)]
pub enum ConnectError {
    EndpointStopping,
    CidsExhausted,
    InvalidServerName(String),
    InvalidRemoteAddress(SocketAddr),
    NoDefaultClientConfig,
    UnsupportedVersion,
}

#[derive(Debug)]
pub enum Error {
    AlreadyConnected(AlreadyConnected),
    Connect(ConnectError),
    /// The database failed, with its message.
    Db(String),
    MissingPeerConnection(SocketAddr),
    /// The queue of the peer takes no more messages.
    PushTransaction { addr: SocketAddr },
    /// A peer cannot be reached at an unspecified address.
    UnspecfiedPeerIP(IpAddr),
}

impl From<AlreadyConnected> for Error {
    fn from(err: AlreadyConnected) -> (converted: Error) {
        Error::AlreadyConnected(err)
    }
}

impl vstd::std_specs::convert::FromSpecImpl<AlreadyConnected> for Error {
    open spec fn obeys_from_spec() -> bool {
        true
    }

    open spec fn from_spec(err: AlreadyConnected) -> Error {
        Error::AlreadyConnected(err)
    }
}

/// Why a seed could not be dialed.
#[derive(Debug)]
pub enum DialSeed {
    Resolve(ResolveSeedAddress),
    Connect(Error),
}

/// Why an incoming connection was not accepted.
#[derive(Debug)]
pub enum AcceptConnection {
    AlreadyConnected(AlreadyConnected),
    /// The handshake failed, with its message.
    Connection { message: String, remote_address: SocketAddr },
    Db(String),
    ServerEndpointClosed,
}

impl AcceptConnection {
    /// Whether no connection can be accepted any more. Every other error concerns
    /// one connection.
    pub fn is_fatal(&self) -> (fatal: bool)
        ensures
            fatal == (*self is ServerEndpointClosed),
    {
        match self {
            AcceptConnection::ServerEndpointClosed => true,
            _ => false,
        }
    }
}

} // verus!
