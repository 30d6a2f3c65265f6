//! What can go wrong in the node.

use vstd::prelude::*;

use crate::net;

verus! {

#[derive(Debug)]
pub enum AuthorizationError {
    BorshSerialize(String),
    Other(String),
}

#[derive(Debug)]
pub enum AmmError {
    Db(String),
    InvalidSwap,
    Other(String),
}

#[derive(Debug)]
pub enum BitAssetError {
    Db(String),
    Other(String),
}

#[derive(Debug)]
pub enum DutchAuctionError {
    Db(String),
    Other(String),
}

#[derive(Debug)]
pub enum ConnectWithdrawalBundleSubmittedError {
    Db(String),
    Other(String),
}

/// Why the state did not take a block or a transaction.
#[derive(Debug)]
pub enum StateError {
    Amm(AmmError),
    Authorization(AuthorizationError),
    BitAsset(BitAssetError),
    BorshSerialize(String),
    ConnectWithdrawalBundleSubmitted(ConnectWithdrawalBundleSubmittedError),
    Db(String),
    DutchAuction(DutchAuctionError),
    NoTip,
    NotEnoughFees,
    Other(String),
}

/// Why the mempool did not take a transaction.
#[derive(Debug)]
pub enum MempoolError {
    Db(String),
    UtxoDoubleSpent,
}

/// A contradiction in what is stored, after which the node cannot go on.
#[derive(Clone, Copy, Debug, PartialEq, Eq, Structural)]
pub enum Contradiction {
    /// Neither of two mainchain blocks descends from the other.
    UnrelatedMainBlocks,
    /// The tip is not the block that it was disconnected to.
    TipIsNotCommonAncestor,
    /// The tip is not the block that was connected last.
    TipIsNotNewTip,
    /// There is no tip after a block was connected.
    NoTipAfterConnect,
    /// The tip is not above the block that it is disconnected to.
    AncestorAboveTip,
    /// A height does not fit its type.
    HeightOverflow,
    /// A block has no verification on the chain of its descendant.
    NotVerified,
    /// A stored answer is not one to the question.
    Answer,
}

/// Why the net task failed.
#[derive(Debug)]
pub enum Error {
    Archive(String),
    Contradiction(Contradiction),
    Db(String),
    ForwardMainchainTaskRequest,
    MemPool(MempoolError),
    Net(net::Error),
    PeerInfoRxClosed,
    ReceiveReorgResultOneshot,
    SendNewTipReady,
    SendReorgResultOneshot,
    State(StateError),
}

impl From<net::Error> for Error {
    fn from(err: net::Error) -> (converted: Error) {
        Error::Net(err)
    }
}

impl vstd::std_specs::convert::FromSpecImpl<net::Error> for Error {
    open spec fn obeys_from_spec() -> bool {
        true
    }

    open spec fn from_spec(err: net::Error) -> Error {
        Error::Net(err)
    }
}

/// Errors that say nothing about a transaction: it could not be read or
/// checked.
pub open spec fn is_read_error(error: StateError) -> bool {
    ||| error is Db
    ||| error is BorshSerialize
    ||| error matches StateError::Authorization(AuthorizationError::BorshSerialize(_))
    ||| error matches StateError::Amm(AmmError::Db(_))
    ||| error matches StateError::BitAsset(BitAssetError::Db(_))
    ||| error matches StateError::DutchAuction(DutchAuctionError::Db(_))
    ||| error matches StateError::ConnectWithdrawalBundleSubmitted(
        ConnectWithdrawalBundleSubmittedError::Db(_),
    )
}

/// Whether a transaction could not be checked, rather than being invalid.
pub fn transaction_read_error(error: &StateError) -> (is: bool)
    ensures
        is == is_read_error(*error),
        is == match *error {
            StateError::Db(_) | StateError::BorshSerialize(_) => true,
            StateError::Authorization(err) => err is BorshSerialize,
            StateError::Amm(err) => err is Db,
            StateError::BitAsset(err) => err is Db,
            StateError::DutchAuction(err) => err is Db,
            StateError::ConnectWithdrawalBundleSubmitted(err) => err is Db,
            StateError::NoTip | StateError::NotEnoughFees | StateError::Other(_) => false,
        },
{
    match error {
        StateError::Db(_) => true,
        StateError::BorshSerialize(_) => true,
        StateError::Authorization(AuthorizationError::BorshSerialize(_)) => true,
        StateError::Amm(AmmError::Db(_)) => true,
        StateError::BitAsset(BitAssetError::Db(_)) => true,
        StateError::DutchAuction(DutchAuctionError::Db(_)) => true,
        StateError::ConnectWithdrawalBundleSubmitted(
            ConnectWithdrawalBundleSubmittedError::Db(_),
        ) => true,
        _ => false,
    }
}

/// Whether an error of a re-organisation stops the node. An error of the state
/// means that a peer sent an invalid block, which must not.
pub fn is_fatal_reorg_error(err: &Error) -> (fatal: bool)
    ensures
        fatal == !(*err is State),
{
    !matches!(err, Error::State(_))
}

/// A state error says nothing about a transaction exactly if the database failed
/// or something could not be serialized, wherever in the state that was. Every
/// other error is a verdict on the transaction.
pub proof fn law_only_failed_reads_are_read_errors(error: StateError)
    ensures
        is_read_error(error) == match error {
            StateError::Db(_) | StateError::BorshSerialize(_) => true,
            StateError::Authorization(err) => err is BorshSerialize,
            StateError::Amm(err) => err is Db,
            StateError::BitAsset(err) => err is Db,
            StateError::DutchAuction(err) => err is Db,
            StateError::ConnectWithdrawalBundleSubmitted(err) => err is Db,
            StateError::NoTip | StateError::NotEnoughFees | StateError::Other(_) => false,
        },
{
}

} // verus!
