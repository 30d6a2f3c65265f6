//! What the net task does about each event.

use vstd::prelude::*;

use crate::hash::{BlockHash, MainBlockHash};
use crate::net;
use crate::net::addr::{ResolvedSeedAddress, SocketAddr};
use crate::net::error::AcceptConnection;
use crate::net::known::stored;
use crate::net::message::{
    MainchainAncestorsError, PeerConnectionError, PeerConnectionInfo, PeerConnectionMessage,
    PeerStateId, RequestSource,
};
use crate::net::peers::{push_message, PeerConnectionHandle};
use crate::node::error::{is_fatal_reorg_error, Contradiction, Error, MempoolError};
use crate::node::relay::{relay_transaction, relayed, with_copies};
use crate::node::response::{handled, ResponseStep};
use crate::node::task::{MainchainRequest, NetTask, NewTipReady, TaskView};
use crate::table::KeySet;
use crate::types::{AuthorizedTransaction, Tip};

verus! {

/// The seconds to wait before connecting again to a peer that was lost.
pub const RECONNECT_DELAY_SECS: u64 = 10;

/// The shortest wait between two checks for a connection, in nanoseconds.
pub const REDIAL_MIN_DELAY: u128 = 60_000_000_000;

/// The longest wait between two checks for a connection, in nanoseconds.
pub const REDIAL_MAX_DELAY: u128 = 600_000_000_000;

/// What the mainchain task answers.
#[derive(Debug)]
pub enum MainchainResponse {
    /// Whether the ancestors of a mainchain block are available, or the message
    /// of the failure to get them.
    AncestorInfos(MainBlockHash, Result<bool, String>),
}

/// What the mainchain task reports.
#[derive(Debug)]
pub enum MainchainEvent {
    /// The mainchain has a new block, or lost one.
    Block,
    Response(MainchainResponse),
}

/// An event that the net task answers to.
#[derive(Debug)]
pub enum MailboxItem {
    /// An incoming connection was accepted, ignored or failed.
    AcceptConnection(Result<Option<SocketAddr>, AcceptConnection>),
    /// A request for the mainchain task, and the peer that it is for.
    ForwardMainchainTaskRequest(MainchainRequest, RequestSource),
    MainchainTaskEvent(MainchainEvent),
    NewTipReady(NewTipReady),
    /// What a peer connection reports: nothing once it is closed. No more
    /// reports come at all if there is no address.
    PeerInfo(Option<(SocketAddr, Option<PeerConnectionInfo>)>),
    /// It is time to connect to a peer again.
    ReconnectPeer(ResolvedSeedAddress),
    /// The loop that dials known peers failed.
    RedialKnownPeers(net::Error),
    /// It is time to relay the pending transactions again.
    RetryTransactions,
}

/// The event that an attempt to accept a connection gives, and whether to accept
/// another one. The task is not told of an error that concerns one connection.
pub fn accept_event(res: Result<Option<SocketAddr>, AcceptConnection>) -> (event: (
    Option<MailboxItem>,
    bool,
))
    ensures
        event == match res {
            Ok(_) => (Some(MailboxItem::AcceptConnection(res)), true),
            Err(AcceptConnection::ServerEndpointClosed) => (
                Some(MailboxItem::AcceptConnection(res)),
                false,
            ),
            Err(_) => (None, true),
        },
{
    let fatal = match &res {
        Ok(_) => false,
        Err(err) => {
            if !err.is_fatal() {
                return (None, true);
            }
            true
        },
    };
    (Some(MailboxItem::AcceptConnection(res)), !fatal)
}

/// What the net task has to do about an event.
#[derive(Debug)]
pub enum Action {
    /// Nothing more.
    Nothing,
    /// Ask the mainchain task, and report with [`NetTask::mainchain_request_sent`].
    RequestMainchainTask(MainchainRequest, RequestSource),
    /// Queue a request for the mainchain task.
    QueueMainchainTaskRequest(MainchainRequest, RequestSource),
    /// Follow the mainchain, starting with [`follow_mainchain`].
    FollowMainchain,
    /// Check a tip, starting with [`check_new_tip`], and report with
    /// [`NetTask::new_tip_checked`].
    CheckNewTip(NewTipReady),
    /// Relay the pending transactions, to one peer or to all.
    RelayPending(Option<SocketAddr>),
    /// Go on taking a transaction of a peer.
    TakeTransaction(TransactionStep),
    /// Connect to a peer after [`RECONNECT_DELAY_SECS`].
    Reconnect(ResolvedSeedAddress),
    /// Connect to a peer. A failure is of no consequence.
    Connect(ResolvedSeedAddress),
    /// Delete a peer from the database of known peers.
    DeleteKnownPeer(SocketAddr),
    /// Go on handling a response.
    Respond(ResponseStep),
    /// Stop with an error.
    Stop(Error),
}

/// What a peer that waits for mainchain ancestors is told.
pub open spec fn ancestors_message(
    block_hash: MainBlockHash,
    res: Result<bool, String>,
    peer_state_id: PeerStateId,
) -> PeerConnectionMessage {
    match res {
        Ok(true) => PeerConnectionMessage::MainchainAncestors(peer_state_id),
        Ok(false) => PeerConnectionMessage::MainchainAncestorsError(
            MainchainAncestorsError::BlockNotAvailable { block_hash },
        ),
        Err(message) => PeerConnectionMessage::MainchainAncestorsError(
            MainchainAncestorsError::Task(message),
        ),
    }
}

/// The net task after peers that wait for mainchain ancestors were told, in the
/// given order.
pub open spec fn told_ancestors(
    task: TaskView,
    block_hash: MainBlockHash,
    res: Result<bool, String>,
    sources: Seq<RequestSource>,
) -> TaskView
    decreases sources.len(),
{
    if sources.len() == 0 {
        task
    } else {
        told_ancestors(task, block_hash, res, sources.drop_last()).told(
            ancestors_message(block_hash, res, sources.last().peer_state_id),
            sources.last().addr,
        )
    }
}

/// Whether a list holds each item of a set once.
pub open spec fn lists<A>(list: Seq<A>, set: Set<A>) -> bool {
    list.no_duplicates() && list.to_set() == set
}

/// Whether the net task changed as an answer of the mainchain task has it: all
/// peers that waited for it were told, and wait no more.
pub open spec fn answered(
    before: TaskView,
    after: TaskView,
    block_hash: MainBlockHash,
    res: Result<bool, String>,
) -> bool {
    let request = MainchainRequest::AncestorInfos(block_hash);
    if before.sources.dom().contains(request) {
        exists|sources: Seq<RequestSource>|
            {
                &&& #[trigger] lists(sources, before.sources[request])
                &&& after == told_ancestors(
                    TaskView { sources: before.sources.remove(request), ..before },
                    block_hash,
                    res,
                    sources,
                )
            }
    } else {
        after == before
    }
}

/// Whether a peer error leads to the given action, and the net task changes
/// accordingly.
pub open spec fn handles_peer_error(
    before: TaskView,
    after: TaskView,
    addr: SocketAddr,
    err: PeerConnectionError,
    resolved_addr: ResolvedSeedAddress,
    action: Action,
) -> bool {
    match err {
        // A peer that fell silent is only of interest while it is connected.
        PeerConnectionError::HeartbeatTimeout => if !before.peers.dom().contains(addr) {
            after == before && action is Nothing
        } else {
            &&& after == before.dropped(addr)
            &&& if before.peers[addr].received_msg_successfully {
                action == Action::Reconnect(resolved_addr)
            } else {
                reconnects_to_next(resolved_addr, action)
            }
        },
        PeerConnectionError::DuplicateConnection | PeerConnectionError::ConnectTimeout => {
            &&& after == before.dropped(addr)
            &&& action == Action::Reconnect(resolved_addr)
        },
        // A peer on another network never becomes useful.
        PeerConnectionError::BadMagic => {
            &&& after == (TaskView { known: before.known.remove(stored(addr)), ..before.dropped(addr) })
            &&& action == Action::DeleteKnownPeer(addr)
        },
        PeerConnectionError::Other(_) => {
            &&& after == before.dropped(addr)
            &&& reconnects_to_next(resolved_addr, action)
        },
    }
}

/// Whether the next address of a peer is tried, if it has one.
pub open spec fn reconnects_to_next(resolved_addr: ResolvedSeedAddress, action: Action) -> bool {
    match resolved_addr@.rest() {
        Some(rest) => action matches Action::Reconnect(next_addr) && next_addr@ == rest,
        None => action is Nothing,
    }
}

/// Whether an event leads to the given action, and the net task changes
/// accordingly.
pub open spec fn handles(
    before: TaskView,
    after: TaskView,
    item: MailboxItem,
    action: Action,
) -> bool {
    match item {
        MailboxItem::AcceptConnection(_) => after == before && action is Nothing,
        MailboxItem::ForwardMainchainTaskRequest(request, source) => {
            &&& after == before
            &&& action == Action::RequestMainchainTask(request, source)
        },
        MailboxItem::MainchainTaskEvent(MainchainEvent::Block) => {
            &&& after == before
            &&& action is FollowMainchain
        },
        MailboxItem::MainchainTaskEvent(
            MainchainEvent::Response(MainchainResponse::AncestorInfos(block_hash, res)),
        ) => {
            &&& answered(before, after, block_hash, res)
            &&& action is Nothing
        },
        MailboxItem::NewTipReady(new_tip) => {
            &&& after == before
            &&& action == Action::CheckNewTip(new_tip)
        },
        MailboxItem::PeerInfo(None) => {
            &&& after == before
            &&& action == Action::Stop(Error::PeerInfoRxClosed)
        },
        MailboxItem::PeerInfo(Some((addr, None))) => {
            &&& after == before.dropped(addr)
            &&& action is Nothing
        },
        MailboxItem::PeerInfo(Some((addr, Some(info)))) => match info {
            PeerConnectionInfo::Connected => {
                &&& after == before
                &&& action == Action::RelayPending(Some(addr))
            },
            PeerConnectionInfo::Error { err, resolved_addr } => handles_peer_error(
                before,
                after,
                addr,
                err,
                resolved_addr,
                action,
            ),
            PeerConnectionInfo::NeedMainchainAncestors { main_hash, peer_state_id } => {
                &&& after == before
                &&& action == Action::QueueMainchainTaskRequest(
                    MainchainRequest::AncestorInfos(main_hash),
                    RequestSource { addr, peer_state_id },
                )
            },
            PeerConnectionInfo::NewTipReady(tip) => {
                &&& after == before.ready(tip, addr)
                &&& action is Nothing
            },
            PeerConnectionInfo::NewTransaction(transaction) => {
                &&& after == before
                &&& action == Action::TakeTransaction(take_first(addr, transaction))
            },
            PeerConnectionInfo::Response(resp, req) => action matches Action::Respond(step) && (
                after,
                step@,
            ) == handled(before, addr, resp, req),
        },
        MailboxItem::ReconnectPeer(resolved_addr) => {
            &&& after == before
            &&& action == Action::Connect(resolved_addr)
        },
        MailboxItem::RedialKnownPeers(err) => {
            &&& after == before
            &&& action == Action::Stop(Error::Net(err))
        },
        MailboxItem::RetryTransactions => {
            &&& after == before
            &&& action == Action::RelayPending(None)
        },
    }
}

fn next_addr_action(resolved_addr: ResolvedSeedAddress) -> (action: Action)
    ensures
        reconnects_to_next(resolved_addr, action),
{
    match resolved_addr.pop_first_ip_addr() {
        (_, Some(next_addr)) => Action::Reconnect(next_addr),
        (_, None) => Action::Nothing,
    }
}

impl NetTask {
    /// Answer to an event.
    pub fn handle(&mut self, item: MailboxItem) -> (action: Action)
        ensures
            handles(old(self)@, final(self)@, item, action),
    {
        match item {
            MailboxItem::AcceptConnection(_) => Action::Nothing,
            MailboxItem::ForwardMainchainTaskRequest(request, source) => {
                Action::RequestMainchainTask(request, source)
            },
            MailboxItem::MainchainTaskEvent(event) => self.handle_mainchain_task_event(event),
            MailboxItem::NewTipReady(new_tip) => Action::CheckNewTip(new_tip),
            MailboxItem::PeerInfo(None) => Action::Stop(Error::PeerInfoRxClosed),
            MailboxItem::PeerInfo(Some((addr, None))) => {
                self.drop_peer(addr);
                Action::Nothing
            },
            MailboxItem::PeerInfo(Some((addr, Some(info)))) => self.handle_peer_info(addr, info),
            MailboxItem::ReconnectPeer(resolved_addr) => Action::Connect(resolved_addr),
            MailboxItem::RedialKnownPeers(err) => Action::Stop(Error::Net(err)),
            MailboxItem::RetryTransactions => Action::RelayPending(None),
        }
    }

    fn handle_mainchain_task_event(&mut self, event: MainchainEvent) -> (action: Action)
        ensures
            handles(old(self)@, final(self)@, MailboxItem::MainchainTaskEvent(event), action),
    {
        match event {
            MainchainEvent::Block => Action::FollowMainchain,
            MainchainEvent::Response(response) => {
                self.handle_mainchain_task_response(response);
                Action::Nothing
            },
        }
    }

    /// Tell the peers that waited for an answer of the mainchain task.
    pub fn handle_mainchain_task_response(&mut self, response: MainchainResponse)
        ensures
            match response {
                MainchainResponse::AncestorInfos(block_hash, res) => answered(
                    old(self)@,
                    final(self)@,
                    block_hash,
                    res,
                ),
            },
    {
        let MainchainResponse::AncestorInfos(block_hash, res) = response;
        let request = MainchainRequest::AncestorInfos(block_hash);
        let ghost before = self@;
        let sources = match self.mainchain_task_request_sources.remove(&request) {
            None => {
                assert(self@ =~= before);
                return;
            },
            Some(sources) => sources,
        };
        let ghost start = TaskView { sources: before.sources.remove(request), ..before };
        assert(self@ =~= start);
        let len = sources.len();
        let mut i: usize = 0;
        while i < len
            invariant
                i <= len,
                len == sources.keys().len(),
                self@ == told_ancestors(start, block_hash, res, sources.keys().take(i as int)),
            decreases len - i,
        {
            let source = *sources.at(i);
            let message = match &res {
                Ok(true) => PeerConnectionMessage::MainchainAncestors(source.peer_state_id),
                Ok(false) => PeerConnectionMessage::MainchainAncestorsError(
                    MainchainAncestorsError::BlockNotAvailable { block_hash },
                ),
                Err(message) => PeerConnectionMessage::MainchainAncestorsError(
                    MainchainAncestorsError::Task(message.clone()),
                ),
            };
            proof {
                assert(sources.keys().take(i + 1).drop_last() =~= sources.keys().take(i as int));
                assert(message == ancestors_message(block_hash, res, source.peer_state_id));
            }
            self.tell(message, source.addr);
            i += 1;
        }
        proof {
            assert(sources.keys().take(len as int) =~= sources.keys());
            assert(lists(sources.keys(), before.sources[request]));
        }
    }

    fn handle_peer_info(&mut self, addr: SocketAddr, info: PeerConnectionInfo) -> (action: Action)
        ensures
            handles(
                old(self)@,
                final(self)@,
                MailboxItem::PeerInfo(Some((addr, Some(info)))),
                action,
            ),
    {
        match info {
            PeerConnectionInfo::Connected => Action::RelayPending(Some(addr)),
            PeerConnectionInfo::Error { err, resolved_addr } => self.handle_peer_error(
                addr,
                err,
                resolved_addr,
            ),
            PeerConnectionInfo::NeedMainchainAncestors { main_hash, peer_state_id } => {
                Action::QueueMainchainTaskRequest(
                    MainchainRequest::AncestorInfos(main_hash),
                    RequestSource { addr, peer_state_id },
                )
            },
            PeerConnectionInfo::NewTipReady(tip) => {
                self.tip_ready(tip, addr);
                Action::Nothing
            },
            PeerConnectionInfo::NewTransaction(transaction) => {
                Action::TakeTransaction(take_transaction(addr, transaction))
            },
            PeerConnectionInfo::Response(resp, req) => {
                Action::Respond(self.handle_response(addr, resp, req))
            },
        }
    }

    fn handle_peer_error(
        &mut self,
        addr: SocketAddr,
        err: PeerConnectionError,
        resolved_addr: ResolvedSeedAddress,
    ) -> (action: Action)
        ensures
            handles_peer_error(old(self)@, final(self)@, addr, err, resolved_addr, action),
    {
        if let PeerConnectionError::HeartbeatTimeout = err {
            let received = self.net.try_with_active_peer_connection(
                addr,
                PeerConnectionHandle::received_msg_successfully,
            );
            let received = match received {
                None => {
                    return Action::Nothing;
                },
                Some(received) => received,
            };
            self.drop_peer(addr);
            if received {
                return Action::Reconnect(resolved_addr);
            }
            return next_addr_action(resolved_addr);
        }
        self.drop_peer(addr);
        if err.is_duplicate_connection() || err.is_connect_timeout() {
            Action::Reconnect(resolved_addr)
        } else if err.is_bad_magic() {
            self.net.forget_peer(&addr);
            Action::DeleteKnownPeer(addr)
        } else {
            next_addr_action(resolved_addr)
        }
    }

    /// Take note of a request to the mainchain task, if the task took it.
    pub fn mainchain_request_sent(
        &mut self,
        request: MainchainRequest,
        source: RequestSource,
        taken: bool,
    )
        ensures
            final(self)@ == if taken {
                TaskView {
                    sources: old(self)@.sources.insert(
                        request,
                        if old(self)@.sources.dom().contains(request) {
                            old(self)@.sources[request].insert(source)
                        } else {
                            set![source]
                        },
                    ),
                    ..old(self)@
                }
            } else {
                old(self)@
            },
    {
        if !taken {
            return;
        }
        let mut sources = match self.mainchain_task_request_sources.remove(&request) {
            Some(sources) => sources,
            None => KeySet::new(),
        };
        sources.insert(source);
        self.mainchain_task_request_sources.insert(request, sources);
        proof {
            let after = old(self)@.sources.insert(
                request,
                if old(self)@.sources.dom().contains(request) {
                    old(self)@.sources[request].insert(source)
                } else {
                    set![source]
                },
            );
            assert(self@.sources =~= after);
        }
    }

    /// Take note of what came of a tip that was ready: whether it was applied. A
    /// peer that sent an invalid block is dropped. Any other error stops the
    /// net task.
    pub fn new_tip_checked(
        &mut self,
        addr: Option<SocketAddr>,
        reorg_result: Result<bool, Error>,
    ) -> (applied: Result<bool, Error>)
        ensures
            match reorg_result {
                Ok(reorged) => applied == Ok::<bool, Error>(reorged) && final(self)@ == old(self)@,
                Err(Error::State(_)) => {
                    &&& applied == Ok::<bool, Error>(false)
                    &&& final(self)@ == match addr {
                        Some(addr) => old(self)@.dropped(addr),
                        None => old(self)@,
                    }
                },
                Err(err) => applied == Err::<bool, Error>(err) && final(self)@ == old(self)@,
            },
    {
        match reorg_result {
            Ok(applied) => Ok(applied),
            Err(err) => {
                if is_fatal_reorg_error(&err) {
                    return Err(err);
                }
                if let Some(addr) = addr {
                    self.drop_peer(addr);
                }
                Ok(false)
            },
        }
    }

    /// Relay a transaction that a peer sent to the other peers.
    pub fn relay_new_transaction(
        &mut self,
        addr: SocketAddr,
        transaction: &AuthorizedTransaction,
    ) -> (res: Result<(), Error>)
        ensures
            res == Ok::<(), Error>(()),
            relayed_from(old(self)@, final(self)@, addr, *transaction),
    {
        let mut exclude = KeySet::new();
        exclude.insert(addr);
        assert(exclude@ =~= set![addr]);
        let res = relay_transaction(&mut self.net, transaction, &exclude);
        proof {
            let copies = choose|copies: Map<SocketAddr, nat>|
                #[trigger] relayed(old(self)@.peers, exclude@, copies) && self.net.peers()
                    == with_copies(old(self)@.peers, push_message(*transaction), copies);
            assert(relayed(old(self)@.peers, set![addr], copies));
        }
        res
    }
}

/// What taking a transaction asks of the mempool.
#[derive(Clone, Copy, Debug, PartialEq, Eq, Structural)]
pub enum TransactionAsk {
    /// Whether the transaction is in the mempool.
    Lookup,
    /// Put the transaction into the mempool.
    Put,
    /// Commit the mempool.
    Commit,
}

/// What the mempool answers.
#[derive(Debug)]
pub enum TransactionReply {
    Known(bool),
    Put(Result<(), MempoolError>),
    /// What was asked for is done.
    Done,
    /// What was asked for could not be done.
    Failed(Error),
}

/// A transaction that a peer sent, and the question that it waits for.
#[derive(Debug)]
pub struct NewTransaction {
    pub addr: SocketAddr,
    pub transaction: AuthorizedTransaction,
    pub asked: TransactionAsk,
}

/// The next step of taking a transaction.
#[derive(Debug)]
pub enum TransactionStep {
    /// Ask the mempool, and call [`NewTransaction::next`] with the answer.
    Ask(NewTransaction),
    /// The transaction was taken, or is of no interest.
    Over(Result<(), Error>),
}

/// The first step of taking a transaction.
pub open spec fn take_first(
    addr: SocketAddr,
    transaction: AuthorizedTransaction,
) -> TransactionStep {
    TransactionStep::Ask(NewTransaction { addr, transaction, asked: TransactionAsk::Lookup })
}

/// Take a transaction that a peer sent.
pub fn take_transaction(addr: SocketAddr, transaction: AuthorizedTransaction) -> (step:
    TransactionStep)
    ensures
        step == take_first(addr, transaction),
{
    TransactionStep::Ask(NewTransaction { addr, transaction, asked: TransactionAsk::Lookup })
}

/// Whether a transaction of a peer was relayed to the other peers.
pub open spec fn relayed_from(
    before: TaskView,
    after: TaskView,
    addr: SocketAddr,
    transaction: AuthorizedTransaction,
) -> bool {
    exists|copies: Map<SocketAddr, nat>|
        {
            &&& #[trigger] relayed(before.peers, set![addr], copies)
            &&& after == (TaskView {
                peers: with_copies(before.peers, push_message(transaction), copies),
                ..before
            })
        }
}

impl NewTransaction {
    /// Whether an answer leads to the given step, and the net task changes
    /// accordingly. A transaction that is known, or that spends what another one
    /// spends, is ignored; one that was stored is relayed.
    pub open spec fn takes(
        self,
        before: TaskView,
        after: TaskView,
        reply: TransactionReply,
        step: TransactionStep,
    ) -> bool {
        match (self.asked, reply) {
            (_, TransactionReply::Failed(err)) => {
                &&& after == before
                &&& step == TransactionStep::Over(Err(err))
            },
            (TransactionAsk::Lookup, TransactionReply::Known(known)) => {
                &&& after == before
                &&& step == if known {
                    TransactionStep::Over(Ok(()))
                } else {
                    TransactionStep::Ask(NewTransaction { asked: TransactionAsk::Put, ..self })
                }
            },
            (TransactionAsk::Put, TransactionReply::Put(put)) => {
                &&& after == before
                &&& step == match put {
                    Ok(()) => TransactionStep::Ask(
                        NewTransaction { asked: TransactionAsk::Commit, ..self },
                    ),
                    Err(MempoolError::UtxoDoubleSpent) => TransactionStep::Over(Ok(())),
                    Err(err) => TransactionStep::Over(Err(Error::MemPool(err))),
                }
            },
            (TransactionAsk::Commit, TransactionReply::Done) => {
                &&& relayed_from(before, after, self.addr, self.transaction)
                &&& step == TransactionStep::Over(Ok(()))
            },
            _ => {
                &&& after == before
                &&& step == TransactionStep::Over(
                    Err(Error::Contradiction(Contradiction::Answer)),
                )
            },
        }
    }

    /// The step that an answer leads to.
    pub fn next(self, task: &mut NetTask, reply: TransactionReply) -> (step: TransactionStep)
        ensures
            self.takes(old(task)@, final(task)@, reply, step),
    {
        match (self.asked, reply) {
            (_, TransactionReply::Failed(err)) => TransactionStep::Over(Err(err)),
            (TransactionAsk::Lookup, TransactionReply::Known(known)) => {
                if known {
                    TransactionStep::Over(Ok(()))
                } else {
                    TransactionStep::Ask(NewTransaction { asked: TransactionAsk::Put, ..self })
                }
            },
            (TransactionAsk::Put, TransactionReply::Put(put)) => match put {
                Ok(()) => TransactionStep::Ask(
                    NewTransaction { asked: TransactionAsk::Commit, ..self },
                ),
                Err(MempoolError::UtxoDoubleSpent) => TransactionStep::Over(Ok(())),
                Err(err) => TransactionStep::Over(Err(Error::MemPool(err))),
            },
            (TransactionAsk::Commit, TransactionReply::Done) => {
                TransactionStep::Over(task.relay_new_transaction(self.addr, &self.transaction))
            },
            _ => TransactionStep::Over(Err(Error::Contradiction(Contradiction::Answer))),
        }
    }
}

/// What following the mainchain, or checking a tip, asks of the database.
#[derive(Clone, Copy, Debug, PartialEq, Eq, Structural)]
pub enum FollowAsk {
    /// The tip of the state.
    StateTip,
    /// Whether a block is on a side chain whose blocks the mainchain verified.
    IsSideTip(BlockHash),
    /// Disconnect the block, which is the tip of the state.
    Disconnect(BlockHash),
    /// The best tip that the mainchain verified.
    BestSideTip,
    /// Commit what was disconnected.
    Commit,
    /// The tip of the mainchain.
    MainchainTip,
    /// Whether one mainchain block descends from another.
    IsMainDescendant { ancestor: MainBlockHash, descendant: MainBlockHash },
}

/// What the database answers.
#[derive(Debug)]
pub enum FollowReply {
    StateTip(Option<BlockHash>),
    Flag(bool),
    BestSideTip(Option<Tip>),
    MainchainTip(MainBlockHash),
    /// What was asked for is done.
    Done,
    /// What was asked for could not be done.
    Failed(Error),
}

/// What following the mainchain, or checking a tip, waits for.
#[derive(Clone, Copy, Debug, PartialEq, Eq, Structural)]
pub enum Follow {
    /// The tip of the state.
    StateTip,
    /// Whether the tip of the state is verified.
    TipVerified(BlockHash),
    /// The tip of the state to be disconnected.
    Disconnect,
    /// The best verified tip.
    BestSideTip,
    /// The disconnected blocks to be committed.
    Commit(Option<Tip>),
    /// Whether a new tip is verified.
    NewTipVerified(Tip),
    /// The tip of the mainchain.
    MainchainTip(Tip),
    /// Whether the verification of a new tip is on the mainchain.
    OnMainchain(Tip),
}

/// The next step.
#[derive(Debug)]
pub enum FollowStep {
    /// Ask the database, and call [`Follow::next`] with the answer.
    Ask(FollowAsk, Follow),
    /// Re-organise to a tip.
    Reorg(Tip),
    /// There is nothing to re-organise to.
    Stay,
    /// The database failed.
    Failed(Error),
}

/// Follow the mainchain after one of its blocks came or went: blocks that it no
/// longer verifies are disconnected, and the best verified tip is the one to
/// re-organise to.
pub fn follow_mainchain() -> (step: FollowStep)
    ensures
        step == FollowStep::Ask(FollowAsk::StateTip, Follow::StateTip),
{
    FollowStep::Ask(FollowAsk::StateTip, Follow::StateTip)
}

/// Check a tip before re-organising to it: the mainchain must have verified it,
/// in a block that is part of the mainchain.
pub fn check_new_tip(new_tip: Tip) -> (step: FollowStep)
    ensures
        step == FollowStep::Ask(
            FollowAsk::IsSideTip(new_tip.block_hash),
            Follow::NewTipVerified(new_tip),
        ),
{
    FollowStep::Ask(FollowAsk::IsSideTip(new_tip.block_hash), Follow::NewTipVerified(new_tip))
}

/// The step that an answer leads to.
pub open spec fn follow_step(follow: Follow, reply: FollowReply) -> FollowStep {
    match (follow, reply) {
        (_, FollowReply::Failed(err)) => FollowStep::Failed(err),
        (Follow::StateTip, FollowReply::StateTip(Some(block_hash))) => FollowStep::Ask(
            FollowAsk::IsSideTip(block_hash),
            Follow::TipVerified(block_hash),
        ),
        (Follow::StateTip, FollowReply::StateTip(None)) => FollowStep::Ask(
            FollowAsk::BestSideTip,
            Follow::BestSideTip,
        ),
        (Follow::TipVerified(block_hash), FollowReply::Flag(verified)) => if verified {
            FollowStep::Ask(FollowAsk::BestSideTip, Follow::BestSideTip)
        } else {
            FollowStep::Ask(FollowAsk::Disconnect(block_hash), Follow::Disconnect)
        },
        (Follow::Disconnect, FollowReply::Done) => FollowStep::Ask(
            FollowAsk::StateTip,
            Follow::StateTip,
        ),
        (Follow::BestSideTip, FollowReply::BestSideTip(best)) => FollowStep::Ask(
            FollowAsk::Commit,
            Follow::Commit(best),
        ),
        (Follow::Commit(Some(best)), FollowReply::Done) => FollowStep::Reorg(best),
        (Follow::Commit(None), FollowReply::Done) => FollowStep::Stay,
        (Follow::NewTipVerified(new_tip), FollowReply::Flag(verified)) => if verified {
            FollowStep::Ask(FollowAsk::MainchainTip, Follow::MainchainTip(new_tip))
        } else {
            FollowStep::Stay
        },
        (Follow::MainchainTip(new_tip), FollowReply::MainchainTip(descendant)) => FollowStep::Ask(
            FollowAsk::IsMainDescendant { ancestor: new_tip.main_block_hash, descendant },
            Follow::OnMainchain(new_tip),
        ),
        (Follow::OnMainchain(new_tip), FollowReply::Flag(on_mainchain)) => if on_mainchain {
            FollowStep::Reorg(new_tip)
        } else {
            FollowStep::Stay
        },
        _ => FollowStep::Failed(Error::Contradiction(Contradiction::Answer)),
    }
}

impl Follow {
    /// The step that an answer leads to.
    pub fn next(self, reply: FollowReply) -> (step: FollowStep)
        ensures
            step == follow_step(self, reply),
    {
        match (self, reply) {
            (_, FollowReply::Failed(err)) => FollowStep::Failed(err),
            (Follow::StateTip, FollowReply::StateTip(tip)) => match tip {
                Some(block_hash) => FollowStep::Ask(
                    FollowAsk::IsSideTip(block_hash),
                    Follow::TipVerified(block_hash),
                ),
                None => FollowStep::Ask(FollowAsk::BestSideTip, Follow::BestSideTip),
            },
            (Follow::TipVerified(block_hash), FollowReply::Flag(verified)) => {
                if verified {
                    FollowStep::Ask(FollowAsk::BestSideTip, Follow::BestSideTip)
                } else {
                    FollowStep::Ask(FollowAsk::Disconnect(block_hash), Follow::Disconnect)
                }
            },
            (Follow::Disconnect, FollowReply::Done) => FollowStep::Ask(
                FollowAsk::StateTip,
                Follow::StateTip,
            ),
            (Follow::BestSideTip, FollowReply::BestSideTip(best)) => FollowStep::Ask(
                FollowAsk::Commit,
                Follow::Commit(best),
            ),
            (Follow::Commit(best), FollowReply::Done) => match best {
                Some(best) => FollowStep::Reorg(best),
                None => FollowStep::Stay,
            },
            (Follow::NewTipVerified(new_tip), FollowReply::Flag(verified)) => {
                if verified {
                    FollowStep::Ask(FollowAsk::MainchainTip, Follow::MainchainTip(new_tip))
                } else {
                    FollowStep::Stay
                }
            },
            (Follow::MainchainTip(new_tip), FollowReply::MainchainTip(descendant)) => {
                FollowStep::Ask(
                    FollowAsk::IsMainDescendant { ancestor: new_tip.main_block_hash, descendant },
                    Follow::OnMainchain(new_tip),
                )
            },
            (Follow::OnMainchain(new_tip), FollowReply::Flag(on_mainchain)) => {
                if on_mainchain {
                    FollowStep::Reorg(new_tip)
                } else {
                    FollowStep::Stay
                }
            },
            _ => FollowStep::Failed(Error::Contradiction(Contradiction::Answer)),
        }
    }
}

/// What the database holds when the mainchain is followed.
pub struct Mainchain {
    /// The blocks on side chains that the mainchain verified.
    pub side_tips: Set<BlockHash>,
    pub best_side_tip: Option<Tip>,
    pub tip: MainBlockHash,
    /// Whether the second mainchain block descends from the first.
    pub descends: spec_fn(MainBlockHash, MainBlockHash) -> bool,
}

/// The chain of the state, and the one that would be found after a crash.
pub struct StateChain {
    pub current: Seq<BlockHash>,
    pub committed: Seq<BlockHash>,
}

impl Mainchain {
    /// What the database answers, and what becomes of the chain of the state. Only
    /// a commit makes a change last, and only the tip can be disconnected.
    pub open spec fn answer(self, chain: StateChain, ask: FollowAsk) -> (StateChain, FollowReply) {
        match ask {
            FollowAsk::StateTip => (
                chain,
                FollowReply::StateTip(
                    if chain.current.len() == 0 {
                        None
                    } else {
                        Some(chain.current.last())
                    },
                ),
            ),
            FollowAsk::IsSideTip(block_hash) => (
                chain,
                FollowReply::Flag(self.side_tips.contains(block_hash)),
            ),
            FollowAsk::Disconnect(block_hash) => if chain.current.len() > 0
                && chain.current.last() == block_hash {
                (StateChain { current: chain.current.drop_last(), ..chain }, FollowReply::Done)
            } else {
                (
                    chain,
                    FollowReply::Failed(Error::Contradiction(Contradiction::TipIsNotNewTip)),
                )
            },
            FollowAsk::BestSideTip => (chain, FollowReply::BestSideTip(self.best_side_tip)),
            FollowAsk::Commit => (
                StateChain { committed: chain.current, ..chain },
                FollowReply::Done,
            ),
            FollowAsk::MainchainTip => (chain, FollowReply::MainchainTip(self.tip)),
            FollowAsk::IsMainDescendant { ancestor, descendant } => (
                chain,
                FollowReply::Flag((self.descends)(ancestor, descendant)),
            ),
        }
    }

    /// What became of the chain after at most `n` questions were answered.
    pub open spec fn run(self, chain: StateChain, step: FollowStep, n: nat) -> (
        StateChain,
        FollowStep,
    )
        decreases n,
    {
        match step {
            FollowStep::Ask(ask, follow) if n > 0 => {
                let (after, reply) = self.answer(chain, ask);
                self.run(after, follow_step(follow, reply), (n - 1) as nat)
            },
            _ => (chain, step),
        }
    }
}

/// The longest start of a chain whose last block the mainchain verified.
pub open spec fn verified_part(chain: Seq<BlockHash>, side_tips: Set<BlockHash>) -> Seq<BlockHash>
    decreases chain.len(),
{
    if chain.len() == 0 || side_tips.contains(chain.last()) {
        chain
    } else {
        verified_part(chain.drop_last(), side_tips)
    }
}

/// The verified part of a chain is its start up to the last block that the
/// mainchain verified.
pub proof fn law_verified_part_ends_with_the_last_verified_block(
    chain: Seq<BlockHash>,
    side_tips: Set<BlockHash>,
)
    ensures
        ({
            let part = verified_part(chain, side_tips);
            &&& part.len() <= chain.len()
            &&& part == chain.take(part.len() as int)
            &&& part.len() > 0 ==> side_tips.contains(part.last())
            &&& forall|i: int|
                part.len() <= i < chain.len() ==> !side_tips.contains(#[trigger] chain[i])
        }),
    decreases chain.len(),
{
    if chain.len() == 0 || side_tips.contains(chain.last()) {
        assert(chain.take(chain.len() as int) =~= chain);
    } else {
        let rest = chain.drop_last();
        law_verified_part_ends_with_the_last_verified_block(rest, side_tips);
        let part = verified_part(rest, side_tips);
        assert(part =~= chain.take(part.len() as int));
        assert forall|i: int| part.len() <= i < chain.len() implies !side_tips.contains(
            #[trigger] chain[i],
        ) by {
            if i < rest.len() {
                assert(rest[i] == chain[i]);
            }
        }
    }
}

/// Following the mainchain disconnects exactly the blocks above the last one
/// that the mainchain verified, commits that, and then re-organises to the best
/// verified tip, if there is one.
pub proof fn law_unverified_blocks_are_disconnected(mainchain: Mainchain, chain: StateChain)
    ensures
        exists|n: nat|
            (#[trigger] mainchain.run(
                chain,
                FollowStep::Ask(FollowAsk::StateTip, Follow::StateTip),
                n,
            )) == (
                StateChain {
                    current: verified_part(chain.current, mainchain.side_tips),
                    committed: verified_part(chain.current, mainchain.side_tips),
                },
                match mainchain.best_side_tip {
                    Some(best) => FollowStep::Reorg(best),
                    None => FollowStep::Stay,
                },
            ),
    decreases chain.current.len(),
{
    let start = FollowStep::Ask(FollowAsk::StateTip, Follow::StateTip);
    let end = match mainchain.best_side_tip {
        Some(best) => FollowStep::Reorg(best),
        None => FollowStep::Stay,
    };
    let part = verified_part(chain.current, mainchain.side_tips);
    let over = StateChain { current: part, committed: part };
    reveal_with_fuel(Mainchain::run, 5);
    if chain.current.len() == 0 {
        assert(mainchain.run(chain, start, 3) == (over, end));
    } else if mainchain.side_tips.contains(chain.current.last()) {
        assert(mainchain.run(chain, start, 4) == (over, end));
    } else {
        let rest = StateChain { current: chain.current.drop_last(), ..chain };
        law_unverified_blocks_are_disconnected(mainchain, rest);
        let n = choose|n: nat| (#[trigger] mainchain.run(rest, start, n)) == (over, end);
        assert(mainchain.run(chain, start, n + 3) == mainchain.run(rest, start, n));
    }
}

/// Whenever following the mainchain is over, the committed chain is the verified
/// part of the chain of before, and so is the chain of the state. Until then the
/// committed chain is the one of before, or that part.
pub proof fn law_following_commits_the_verified_part(
    mainchain: Mainchain,
    chain: Seq<BlockHash>,
    n: nat,
)
    ensures
        ({
            let (after, step) = mainchain.run(
                StateChain { current: chain, committed: chain },
                FollowStep::Ask(FollowAsk::StateTip, Follow::StateTip),
                n,
            );
            let k = after.current.len() as int;
            &&& after.current == chain.take(k) && k <= chain.len()
            &&& forall|i: int|
                k <= i < chain.len() ==> !mainchain.side_tips.contains(#[trigger] chain[i])
            &&& after.committed == chain || after.committed == after.current
            &&& !(step is Failed)
            &&& !(step is Ask) ==> {
                &&& after.committed == after.current
                &&& k > 0 ==> mainchain.side_tips.contains(chain[k - 1])
                &&& step == match mainchain.best_side_tip {
                    Some(best) => FollowStep::Reorg(best),
                    None => FollowStep::Stay,
                }
            }
        }),
{
    let start = FollowStep::Ask(FollowAsk::StateTip, Follow::StateTip);
    let before = StateChain { current: chain, committed: chain };
    assert(chain.take(chain.len() as int) =~= chain);
    lemma_following(mainchain, chain, before, start, n);
}

/// What holds at each step of following the mainchain from a chain.
spec fn following(
    mainchain: Mainchain,
    chain: Seq<BlockHash>,
    now: StateChain,
    step: FollowStep,
) -> bool {
    let k = now.current.len() as int;
    let end = k > 0 ==> mainchain.side_tips.contains(chain[k - 1]);
    &&& k <= chain.len() && now.current == chain.take(k)
    &&& forall|i: int| k <= i < chain.len() ==> !mainchain.side_tips.contains(#[trigger] chain[i])
    &&& match step {
        FollowStep::Ask(ask, follow) => {
            &&& now.committed == chain
            &&& match follow {
                Follow::StateTip => ask == FollowAsk::StateTip,
                Follow::TipVerified(block_hash) => {
                    &&& k > 0 && block_hash == chain[k - 1]
                    &&& ask == FollowAsk::IsSideTip(block_hash)
                },
                Follow::Disconnect => {
                    &&& k > 0 && !mainchain.side_tips.contains(chain[k - 1])
                    &&& ask == FollowAsk::Disconnect(chain[k - 1])
                },
                Follow::BestSideTip => end && ask == FollowAsk::BestSideTip,
                Follow::Commit(best) => end && best == mainchain.best_side_tip && ask
                    == FollowAsk::Commit,
                _ => false,
            }
        },
        FollowStep::Reorg(best) => end && now.committed == now.current
            && mainchain.best_side_tip == Some(best),
        FollowStep::Stay => end && now.committed == now.current && mainchain.best_side_tip is None,
        FollowStep::Failed(_) => false,
    }
}

proof fn lemma_following(
    mainchain: Mainchain,
    chain: Seq<BlockHash>,
    now: StateChain,
    step: FollowStep,
    n: nat,
)
    requires
        following(mainchain, chain, now, step),
    ensures
        ({
            let (after, last) = mainchain.run(now, step, n);
            following(mainchain, chain, after, last)
        }),
    decreases n,
{
    if let FollowStep::Ask(ask, follow) = step {
        if n > 0 {
            let (after, reply) = mainchain.answer(now, ask);
            let k = now.current.len() as int;
            if k > 0 {
                assert(chain.take(k).drop_last() =~= chain.take(k - 1));
                assert(now.current.last() == chain[k - 1]);
            }
            lemma_following(mainchain, chain, after, follow_step(follow, reply), (n - 1) as nat);
        }
    }
}

/// A tip is re-organised to exactly if the mainchain verified it, in a block
/// that is part of the mainchain, and checking it leaves the chain alone.
pub proof fn law_new_tip_is_checked(mainchain: Mainchain, chain: StateChain, new_tip: Tip)
    ensures
        mainchain.run(
            chain,
            FollowStep::Ask(
                FollowAsk::IsSideTip(new_tip.block_hash),
                Follow::NewTipVerified(new_tip),
            ),
            3,
        ) == (
            chain,
            if mainchain.side_tips.contains(new_tip.block_hash) && (mainchain.descends)(
                new_tip.main_block_hash,
                mainchain.tip,
            ) {
                FollowStep::Reorg(new_tip)
            } else {
                FollowStep::Stay
            },
        ),
{
    reveal_with_fuel(Mainchain::run, 4);
}

/// A failure of the database ends what it was asked for, with that failure, and an
/// answer that is none to the question never does anything else.
pub proof fn law_failures_end_following(follow: Follow, err: Error, reply: FollowReply)
    ensures
        follow_step(follow, FollowReply::Failed(err)) == FollowStep::Failed(err),
        follow_step(follow, reply) is Reorg ==> {
            ||| follow is Commit && reply is Done
            ||| follow is OnMainchain && reply == FollowReply::Flag(true)
        },
{
}

/// Telling peers changes nothing but their queues.
proof fn lemma_told_ancestors(
    task: TaskView,
    block_hash: MainBlockHash,
    res: Result<bool, String>,
    sources: Seq<RequestSource>,
)
    ensures
        ({
            let after = told_ancestors(task, block_hash, res, sources);
            &&& after.known == task.known
            &&& after.peers.dom() == task.peers.dom()
            &&& after.waiting == task.waiting
            &&& after.new_tips == task.new_tips
        }),
    decreases sources.len(),
{
    if sources.len() > 0 {
        lemma_told_ancestors(task, block_hash, res, sources.drop_last());
        let before = told_ancestors(task, block_hash, res, sources.drop_last());
        let after = told_ancestors(task, block_hash, res, sources);
        assert(after.peers.dom() =~= before.peers.dom());
    }
}

/// No event makes a peer known or connects one, and the only event that makes a
/// known peer unknown is its being on another network.
pub proof fn law_events_add_no_peers(
    before: TaskView,
    after: TaskView,
    item: MailboxItem,
    action: Action,
)
    requires
        handles(before, after, item, action),
    ensures
        after.peers.dom().subset_of(before.peers.dom()),
        after.known.subset_of(before.known),
        after.known == before.known || action is DeleteKnownPeer,
{
    match item {
        MailboxItem::MainchainTaskEvent(
            MainchainEvent::Response(MainchainResponse::AncestorInfos(block_hash, res)),
        ) => {
            let request = MainchainRequest::AncestorInfos(block_hash);
            if before.sources.dom().contains(request) {
                let start = TaskView { sources: before.sources.remove(request), ..before };
                let sources = choose|sources: Seq<RequestSource>|
                    #[trigger] lists(sources, before.sources[request]) && after == told_ancestors(
                        start,
                        block_hash,
                        res,
                        sources,
                    );
                lemma_told_ancestors(start, block_hash, res, sources);
            }
        },
        _ => {},
    }
}

/// The net task stops for two reasons only: no more reports of peers can come,
/// or the known peers can no longer be dialed.
pub proof fn law_stop_has_two_reasons(
    before: TaskView,
    after: TaskView,
    item: MailboxItem,
    action: Action,
)
    requires
        handles(before, after, item, action),
    ensures
        action is Stop <==> (item is RedialKnownPeers || item matches MailboxItem::PeerInfo(None)),
{
}

/// A peer that fails is no longer connected.
pub proof fn law_failed_peers_are_dropped(
    before: TaskView,
    after: TaskView,
    addr: SocketAddr,
    info: PeerConnectionInfo,
    action: Action,
)
    requires
        info is Error,
        handles(before, after, MailboxItem::PeerInfo(Some((addr, Some(info)))), action),
    ensures
        !after.peers.dom().contains(addr),
        forall|other: SocketAddr|
            other != addr && #[trigger] before.peers.dom().contains(other)
                ==> after.peers.dom().contains(other) && after.peers[other] == before.peers[other],
{
}

/// A peer that fails is dropped, and tried again at the same address if the
/// connection as such was refused or came too late, or if the peer was heard
/// before it fell silent. Otherwise the next address of the peer is tried, if there
/// is one. A peer of another network is forgotten. A peer that fell silent is of no
/// interest any more if it is not connected.
pub proof fn law_failed_peers_are_tried_again(
    before: TaskView,
    after: TaskView,
    addr: SocketAddr,
    err: PeerConnectionError,
    resolved_addr: ResolvedSeedAddress,
    action: Action,
)
    requires
        handles(
            before,
            after,
            MailboxItem::PeerInfo(
                Some((addr, Some(PeerConnectionInfo::Error { err, resolved_addr }))),
            ),
            action,
        ),
    ensures
        ({
            let gone = TaskView { peers: before.peers.remove(addr), ..before };
            let ips = resolved_addr@.ips();
            let next = if ips.len() > 1 {
                action matches Action::Reconnect(other) && other@.ips() == ips.skip(1)
                    && other@.port() == resolved_addr@.port()
            } else {
                action is Nothing
            };
            match err {
                PeerConnectionError::HeartbeatTimeout => {
                    if before.peers.dom().contains(addr) {
                        &&& after == gone
                        &&& if before.peers[addr].received_msg_successfully {
                            action == Action::Reconnect(resolved_addr)
                        } else {
                            next
                        }
                    } else {
                        after == before && action is Nothing
                    }
                },
                PeerConnectionError::DuplicateConnection | PeerConnectionError::ConnectTimeout => {
                    after == gone && action == Action::Reconnect(resolved_addr)
                },
                PeerConnectionError::BadMagic => {
                    &&& after.known == before.known.remove(
                        crate::net::addr::socket_addr_of(addr.ip_spec(), addr.port_spec()),
                    )
                    &&& after == (TaskView { known: after.known, ..gone })
                    &&& action == Action::DeleteKnownPeer(addr)
                },
                PeerConnectionError::Other(_) => after == gone && next,
            }
        }),
{
}

/// What the net task does about the other events: it is told of them, and only a
/// closed connection and a tip that is ready change what it keeps.
pub proof fn law_events_lead_to_actions(
    before: TaskView,
    after: TaskView,
    item: MailboxItem,
    action: Action,
)
    requires
        handles(before, after, item, action),
    ensures
        match item {
            MailboxItem::AcceptConnection(_) => after == before && action is Nothing,
            MailboxItem::ForwardMainchainTaskRequest(request, source) => {
                after == before && action == Action::RequestMainchainTask(request, source)
            },
            MailboxItem::MainchainTaskEvent(MainchainEvent::Block) => {
                after == before && action is FollowMainchain
            },
            MailboxItem::NewTipReady(new_tip) => {
                after == before && action == Action::CheckNewTip(new_tip)
            },
            MailboxItem::PeerInfo(None) => {
                after == before && action == Action::Stop(Error::PeerInfoRxClosed)
            },
            MailboxItem::PeerInfo(Some((addr, None))) => {
                after == (TaskView { peers: before.peers.remove(addr), ..before })
                    && action is Nothing
            },
            MailboxItem::PeerInfo(Some((addr, Some(PeerConnectionInfo::Connected)))) => {
                after == before && action == Action::RelayPending(Some(addr))
            },
            MailboxItem::PeerInfo(
                Some(
                    (
                        addr,
                        Some(
                            PeerConnectionInfo::NeedMainchainAncestors {
                                main_hash,
                                peer_state_id,
                            },
                        ),
                    ),
                ),
            ) => after == before && action == Action::QueueMainchainTaskRequest(
                MainchainRequest::AncestorInfos(main_hash),
                RequestSource { addr, peer_state_id },
            ),
            MailboxItem::PeerInfo(Some((addr, Some(PeerConnectionInfo::NewTipReady(tip))))) => {
                action is Nothing && after == (TaskView {
                    new_tips: before.new_tips.push(NewTipReady { tip, addr: Some(addr) }),
                    ..before
                })
            },
            MailboxItem::PeerInfo(
                Some((addr, Some(PeerConnectionInfo::NewTransaction(transaction)))),
            ) => after == before && action == Action::TakeTransaction(
                TransactionStep::Ask(
                    NewTransaction { addr, transaction, asked: TransactionAsk::Lookup },
                ),
            ),
            MailboxItem::ReconnectPeer(resolved_addr) => {
                after == before && action == Action::Connect(resolved_addr)
            },
            MailboxItem::RedialKnownPeers(err) => {
                after == before && action == Action::Stop(Error::Net(err))
            },
            MailboxItem::RetryTransactions => {
                after == before && action == Action::RelayPending(None)
            },
            _ => true,
        },
{
}

/// The number of the first `n` of some peers that are at an address.
pub open spec fn told_at(sources: Seq<RequestSource>, addr: SocketAddr, n: int) -> int
    decreases n,
{
    if n <= 0 {
        0
    } else {
        told_at(sources, addr, n - 1) + if sources[n - 1].addr == addr {
            1int
        } else {
            0int
        }
    }
}

proof fn lemma_told_one(
    task: TaskView,
    block_hash: MainBlockHash,
    res: Result<bool, String>,
    sources: Seq<RequestSource>,
    addr: SocketAddr,
)
    requires
        task.peers.dom().contains(addr),
    ensures
        ({
            let after = told_ancestors(task, block_hash, res, sources);
            let was = task.peers[addr];
            let now = after.peers[addr];
            &&& after.peers.dom() == task.peers.dom()
            &&& after.sources == task.sources
            &&& after.known == task.known
            &&& after.waiting == task.waiting && after.new_tips == task.new_tips
            &&& now.status == was.status && now.open == was.open
            &&& now.received_msg_successfully == was.received_msg_successfully
            &&& was.queue.is_prefix_of(now.queue)
            &&& now.queue.len() == was.queue.len() + if was.open {
                told_at(sources, addr, sources.len() as int)
            } else {
                0
            }
            &&& forall|i: int|
                0 <= i < sources.len() && (#[trigger] sources[i]).addr == addr && was.open
                    ==> now.queue.skip(was.queue.len() as int).contains(
                    match res {
                        Ok(true) => PeerConnectionMessage::MainchainAncestors(
                            sources[i].peer_state_id,
                        ),
                        Ok(false) => PeerConnectionMessage::MainchainAncestorsError(
                            MainchainAncestorsError::BlockNotAvailable { block_hash },
                        ),
                        Err(message) => PeerConnectionMessage::MainchainAncestorsError(
                            MainchainAncestorsError::Task(message),
                        ),
                    },
                )
        }),
    decreases sources.len(),
{
    let was = task.peers[addr];
    if sources.len() > 0 {
        let rest = sources.drop_last();
        let last = sources.last();
        lemma_told_one(task, block_hash, res, rest, addr);
        lemma_told_at(sources, addr, rest.len() as int);
        let before = told_ancestors(task, block_hash, res, rest);
        let message = ancestors_message(block_hash, res, last.peer_state_id);
        let after = before.told(message, last.addr);
        crate::node::task::law_told_queues_one_message(before, message, last.addr, addr);
        let then = before.peers[addr].queue;
        let now = after.peers[addr].queue;
        let n = was.queue.len() as int;
        assert(sources[sources.len() - 1] == last);
        assert(was.queue =~= now.take(n)) by {
            assert(was.queue == then.take(n));
        }
        if was.open && last.addr == addr {
            assert(now == then.push(message));
            assert(now.skip(n) =~= then.skip(n).push(message));
            assert(now.skip(n)[then.skip(n).len() as int] == message);
        }
        assert forall|i: int| 0 <= i < sources.len() && (#[trigger] sources[i]).addr == addr
            && was.open implies now.skip(n).contains(
            ancestors_message(block_hash, res, sources[i].peer_state_id),
        ) by {
            let m = ancestors_message(block_hash, res, sources[i].peer_state_id);
            if i < rest.len() {
                assert(rest[i] == sources[i]);
                let k = then.skip(n).index_of(m);
                assert(then.skip(n)[k] == m);
                assert(now.skip(n)[k] == m);
            }
        }
    } else {
        assert(was.queue =~= was.queue.take(was.queue.len() as int));
    }
}

proof fn lemma_told_at(sources: Seq<RequestSource>, addr: SocketAddr, n: int)
    requires
        0 <= n < sources.len(),
    ensures
        told_at(sources.drop_last(), addr, n) == told_at(sources, addr, n),
    decreases n,
{
    if n > 0 {
        lemma_told_at(sources, addr, n - 1);
        assert(sources.drop_last()[n - 1] == sources[n - 1]);
    }
}

/// An answer of the mainchain task goes to every peer that waited for it, once for
/// each of its requests, and to no other: that the ancestors are there, that the
/// block is not, or what went wrong. Nobody waits for it afterwards, and everybody
/// else waits on.
pub proof fn law_waiting_peers_are_answered(
    before: TaskView,
    after: TaskView,
    block_hash: MainBlockHash,
    res: Result<bool, String>,
    addr: SocketAddr,
)
    requires
        answered(before, after, block_hash, res),
        before.peers.dom().contains(addr),
    ensures
        ({
            let request = MainchainRequest::AncestorInfos(block_hash);
            let waiting = before.sources.dom().contains(request);
            let was = before.peers[addr];
            let now = after.peers[addr];
            let new = now.queue.skip(was.queue.len() as int);
            &&& after.sources == before.sources.remove(request)
            &&& after.peers.dom() == before.peers.dom()
            &&& after.known == before.known
            &&& now.status == was.status && now.open == was.open
            &&& was.queue.is_prefix_of(now.queue)
            &&& !waiting || !was.open || (forall|source: RequestSource| #[trigger]
                before.sources[request].contains(source) ==> source.addr != addr) ==> now.queue
                == was.queue
            &&& waiting ==> forall|source: RequestSource| #[trigger]
                before.sources[request].contains(source) && source.addr == addr && was.open
                    ==> new.contains(
                    match res {
                        Ok(true) => PeerConnectionMessage::MainchainAncestors(
                            source.peer_state_id,
                        ),
                        Ok(false) => PeerConnectionMessage::MainchainAncestorsError(
                            MainchainAncestorsError::BlockNotAvailable { block_hash },
                        ),
                        Err(message) => PeerConnectionMessage::MainchainAncestorsError(
                            MainchainAncestorsError::Task(message),
                        ),
                    },
                )
        }),
{
    let request = MainchainRequest::AncestorInfos(block_hash);
    let was = before.peers[addr];
    if before.sources.dom().contains(request) {
        let start = TaskView { sources: before.sources.remove(request), ..before };
        let sources = choose|sources: Seq<RequestSource>|
            #[trigger] lists(sources, before.sources[request]) && after == told_ancestors(
                start,
                block_hash,
                res,
                sources,
            );
        lemma_told_one(start, block_hash, res, sources, addr);
        assert forall|source: RequestSource| #[trigger]
            before.sources[request].contains(source) && source.addr == addr
                && was.open implies after.peers[addr].queue.skip(was.queue.len() as int).contains(
            ancestors_message(block_hash, res, source.peer_state_id),
        ) by {
            assert(sources.to_set().contains(source));
            assert(sources.contains(source));
            let i = sources.index_of(source);
            assert(sources[i] == source);
        }
        if forall|source: RequestSource| #[trigger]
            before.sources[request].contains(source) ==> source.addr != addr {
            assert forall|i: int| 0 <= i < sources.len() implies (#[trigger] sources[i]).addr
                != addr by {
                assert(sources.contains(sources[i]));
                assert(sources.to_set().contains(sources[i]));
            }
            lemma_none_told(sources, addr, sources.len() as int);
        }
        if !was.open || (forall|source: RequestSource| #[trigger]
            before.sources[request].contains(source) ==> source.addr != addr) {
            let now = after.peers[addr].queue;
            assert(now.take(now.len() as int) =~= now);
        }
    } else {
        assert(before.sources.remove(request) =~= before.sources);
        assert(was.queue.take(was.queue.len() as int) =~= was.queue);
    }
}

proof fn lemma_none_told(sources: Seq<RequestSource>, addr: SocketAddr, n: int)
    requires
        0 <= n <= sources.len(),
        forall|i: int| 0 <= i < sources.len() ==> (#[trigger] sources[i]).addr != addr,
    ensures
        told_at(sources, addr, n) == 0,
    decreases n,
{
    if n > 0 {
        lemma_none_told(sources, addr, n - 1);
        assert(sources[n - 1].addr != addr);
    }
}

/// A transaction of a peer is put into the mempool exactly if it is not there yet,
/// and it is relayed once that is committed, and not before. One that spends what
/// another one spends is ignored, and any other failure of the mempool is reported.
/// Only the relay changes what the net task keeps.
pub proof fn law_new_transactions_are_stored_then_relayed(
    addr: SocketAddr,
    transaction: AuthorizedTransaction,
    tasks: Seq<TaskView>,
    steps: Seq<TransactionStep>,
    known: bool,
    put: Result<(), MempoolError>,
)
    requires
        tasks.len() == 4,
        steps.len() == 4,
        steps[0] == take_first(addr, transaction),
        steps[0] matches TransactionStep::Ask(asked) ==> asked.takes(
            tasks[0],
            tasks[1],
            TransactionReply::Known(known),
            steps[1],
        ),
        steps[1] matches TransactionStep::Ask(asked) ==> asked.takes(
            tasks[1],
            tasks[2],
            TransactionReply::Put(put),
            steps[2],
        ),
        steps[2] matches TransactionStep::Ask(asked) ==> asked.takes(
            tasks[2],
            tasks[3],
            TransactionReply::Done,
            steps[3],
        ),
    ensures
        steps[0] == TransactionStep::Ask(
            NewTransaction { addr, transaction, asked: TransactionAsk::Lookup },
        ),
        tasks[1] == tasks[0],
        known ==> steps[1] == TransactionStep::Over(Ok(())),
        !known ==> {
            &&& steps[1] == TransactionStep::Ask(
                NewTransaction { addr, transaction, asked: TransactionAsk::Put },
            )
            &&& tasks[2] == tasks[0]
            &&& match put {
                Err(MempoolError::UtxoDoubleSpent) => steps[2] == TransactionStep::Over(Ok(())),
                Err(err) => steps[2] == TransactionStep::Over(Err(Error::MemPool(err))),
                Ok(()) => {
                    &&& steps[2] == TransactionStep::Ask(
                        NewTransaction { addr, transaction, asked: TransactionAsk::Commit },
                    )
                    &&& steps[3] == TransactionStep::Over(Ok(()))
                    &&& crate::node::relay::relayed_once(
                        tasks[0].peers,
                        tasks[3].peers,
                        transaction,
                        set![addr],
                    )
                    &&& tasks[3] == (TaskView { peers: tasks[3].peers, ..tasks[0] })
                },
            }
        },
{
}

/// A failure of the mempool ends taking a transaction with that failure, and
/// changes nothing that the net task keeps.
pub proof fn law_failures_end_taking_a_transaction(
    asked: NewTransaction,
    before: TaskView,
    after: TaskView,
    err: Error,
    step: TransactionStep,
)
    requires
        asked.takes(before, after, TransactionReply::Failed(err), step),
    ensures
        after == before,
        step == TransactionStep::Over(Err(err)),
{
}

/// How long the net task waits: ten seconds before it connects to a peer again,
/// and from one up to ten minutes between two redials.
pub proof fn law_delays_of_the_net_task()
    ensures
        RECONNECT_DELAY_SECS == 10,
        REDIAL_MIN_DELAY == 60 * 1_000_000_000,
        REDIAL_MAX_DELAY == 600 * 1_000_000_000,
        crate::node::relay::TRANSACTION_RETRY_INTERVAL_SECS == 60,
{
}

} // verus!
