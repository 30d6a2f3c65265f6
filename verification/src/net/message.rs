//! What peers are asked, what they answer, and what the tasks that serve their
//! connections are told.

use vstd::prelude::*;

use crate::hash::{BlockHash, Hash256, MainBlockHash, Txid};
use crate::net::addr::{ResolvedSeedAddress, SocketAddr};
use crate::table::{Key, KeySet};
use crate::types::{AuthorizedTransaction, Body, Header, Tip};

verus! {

/// Names the state of a peer that a request was made in.
#[derive(Clone, Copy, Debug, PartialEq, Eq, PartialOrd, Ord, Hash, Structural)]
pub struct PeerStateId(pub Hash256);

/// The bytes that open each message, by which networks tell each other apart.
#[derive(Clone, Copy, Debug, PartialEq, Eq)]
pub struct MagicBytes(pub [u8; 4]);

#[derive(Clone, Copy, Debug, PartialEq, Eq, Structural)]
pub struct GetBlockRequest {
    pub block_hash: BlockHash,
    /// The tip that the block is wanted for.
    pub descendant_tip: Option<Tip>,
    /// The block above which bodies are wanted.
    pub ancestor: Option<BlockHash>,
    pub peer_state_id: Option<PeerStateId>,
}

#[derive(Debug)]
pub struct GetHeadersRequest {
    /// The blocks that the headers may start after.
    pub start: KeySet<BlockHash>,
    pub end: BlockHash,
    /// The height of the end block.
    pub height: Option<u32>,
    pub peer_state_id: Option<PeerStateId>,
}

#[derive(Debug)]
pub struct PushTransactionRequest {
    pub transaction: AuthorizedTransaction,
}

#[derive(Debug)]
pub enum PeerRequest {
    GetBlock(GetBlockRequest),
    GetHeaders(GetHeadersRequest),
    PushTransaction(PushTransactionRequest),
}

#[derive(Debug)]
pub enum PeerResponse {
    Block { header: Header, body: Body },
    NoBlock { block_hash: BlockHash },
    Headers(Vec<Header>),
    NoHeader { block_hash: BlockHash },
    TransactionAccepted(Txid),
    TransactionRejected(Txid),
}

/// Why the mainchain ancestors of a block could not be had.
#[derive(Clone, Debug)]
pub enum MainchainAncestorsError {
    BlockNotAvailable { block_hash: MainBlockHash },
    /// The mainchain task failed, with its message.
    Task(String),
}

/// What the task that serves a peer connection is told.
#[derive(Debug)]
pub enum PeerConnectionMessage {
    Request(PeerRequest),
    /// All bodies that were asked for are available.
    BodiesAvailable(PeerStateId),
    /// The headers that were asked for are available.
    Headers(PeerStateId),
    /// The mainchain ancestors that were asked for are available.
    MainchainAncestors(PeerStateId),
    MainchainAncestorsError(MainchainAncestorsError),
}

impl From<PushTransactionRequest> for PeerRequest {
    fn from(request: PushTransactionRequest) -> (converted: PeerRequest) {
        PeerRequest::PushTransaction(request)
    }
}

impl vstd::std_specs::convert::FromSpecImpl<PushTransactionRequest> for PeerRequest {
    open spec fn obeys_from_spec() -> bool {
        true
    }

    open spec fn from_spec(request: PushTransactionRequest) -> PeerRequest {
        PeerRequest::PushTransaction(request)
    }
}

impl From<PeerRequest> for PeerConnectionMessage {
    fn from(request: PeerRequest) -> (message: PeerConnectionMessage) {
        PeerConnectionMessage::Request(request)
    }
}

impl vstd::std_specs::convert::FromSpecImpl<PeerRequest> for PeerConnectionMessage {
    open spec fn obeys_from_spec() -> bool {
        true
    }

    open spec fn from_spec(request: PeerRequest) -> PeerConnectionMessage {
        PeerConnectionMessage::Request(request)
    }
}

/// Why a peer connection failed.
#[derive(Debug)]
pub enum PeerConnectionError {
    /// The peer fell silent.
    HeartbeatTimeout,
    /// The peer runs another network.
    BadMagic,
    /// The peer holds a connection to this node already.
    DuplicateConnection,
    /// The connection was not made in time.
    ConnectTimeout,
    Other(String),
}

impl PeerConnectionError {
    pub fn is_bad_magic(&self) -> (is: bool)
        ensures
            is == (*self is BadMagic),
    {
        matches!(self, PeerConnectionError::BadMagic)
    }

    pub fn is_duplicate_connection(&self) -> (is: bool)
        ensures
            is == (*self is DuplicateConnection),
    {
        matches!(self, PeerConnectionError::DuplicateConnection)
    }

    pub fn is_connect_timeout(&self) -> (is: bool)
        ensures
            is == (*self is ConnectTimeout),
    {
        matches!(self, PeerConnectionError::ConnectTimeout)
    }
}

/// What the task that serves a peer connection reports.
#[derive(Debug)]
pub enum PeerConnectionInfo {
    Connected,
    Error { err: PeerConnectionError, resolved_addr: ResolvedSeedAddress },
    NeedMainchainAncestors { main_hash: MainBlockHash, peer_state_id: PeerStateId },
    NewTipReady(Tip),
    NewTransaction(AuthorizedTransaction),
    Response(PeerResponse, PeerRequest),
}

/// A peer together with the state that a request of it was made in.
#[derive(Clone, Copy, Debug, PartialEq, Eq, Structural)]
pub struct RequestSource {
    pub addr: SocketAddr,
    pub peer_state_id: PeerStateId,
}

impl Key for RequestSource {
    fn same(&self, other: &Self) -> (same: bool) {
        *self == *other
    }
}

} // verus!
