//! Relaying, re-organising, and answering to peers and the mainchain.

use bitassets_node::hash::{BlockHash, Hash256, MainBlockHash, Txid};
use bitassets_node::net::addr::{IpAddr, ResolvedSeedAddress, SocketAddr};
use bitassets_node::net::known::KnownPeers;
use bitassets_node::net::message::{
    GetBlockRequest, GetHeadersRequest, MagicBytes, MainchainAncestorsError,
    PeerConnectionError, PeerConnectionInfo, PeerConnectionMessage, PeerRequest, PeerResponse,
    PeerStateId, PushTransactionRequest, RequestSource,
};
use bitassets_node::net::error::{AcceptConnection, AlreadyConnected};
use bitassets_node::net::peers::{Net, PeerConnectionHandle, PeerConnectionStatus};
use bitassets_node::net::seeds::Network;
use bitassets_node::node::descendants::Waiting;
use bitassets_node::node::error::{
    is_fatal_reorg_error, transaction_read_error, Contradiction, Error, MempoolError, StateError,
};
use bitassets_node::node::events::{
    accept_event, check_new_tip, follow_mainchain, take_transaction, Action, FollowAsk,
    FollowReply, FollowStep, MailboxItem, MainchainEvent, MainchainResponse, TransactionAsk,
    TransactionReply, TransactionStep, RECONNECT_DELAY_SECS,
};
use bitassets_node::node::relay::{
    check_pending_transactions, relay_pending_transactions, relay_transaction, Pending,
};
use bitassets_node::node::reorg::{
    reorg_to_tip, HashBlock, ReorgAsk, ReorgOutcome, ReorgReply, ReorgStep,
};
use bitassets_node::node::response::{BmmEntry, ResponseAsk, ResponseReply, ResponseStep};
use bitassets_node::node::task::{MainchainRequest, NetTask, NewTipReady};
use bitassets_node::node::tip::{
    connect_tip, disconnect_tip, AppliedBlock, ConnectOp, DisconnectAsk, DisconnectOp,
    DisconnectPlan, DisconnectReply, DisconnectStep,
};
use bitassets_node::table::KeySet;
use bitassets_node::types::{
    AuthorizedTransaction, BmmResult, Block, Body, Header, MainBlockInfo, Tip,
};
use std::collections::HashMap;
use std::sync::Arc;

fn hash256(n: u8) -> Hash256 {
    Hash256::from_bytes(&[n; 32])
}

fn side(n: u8) -> BlockHash {
    BlockHash(hash256(n))
}

fn main_hash(n: u8) -> MainBlockHash {
    MainBlockHash(hash256(n))
}

fn tip(n: u8, m: u8) -> Tip {
    Tip { block_hash: side(n), main_block_hash: main_hash(m) }
}

fn addr(port: u16) -> SocketAddr {
    SocketAddr::new(IpAddr::V4(0x7f00_0001), port)
}

fn transaction(n: u8) -> AuthorizedTransaction {
    AuthorizedTransaction { txid: Txid(hash256(n)), encoding: Arc::new(vec![n]) }
}

fn header(n: u8, parent: Option<u8>, prev_main: u8) -> Header {
    Header {
        hash: side(n),
        merkle_root: hash256(0),
        prev_side_hash: parent.map(side),
        prev_main_hash: main_hash(prev_main),
    }
}

fn body(txs: &[u8]) -> Body {
    Body {
        transactions: txs.iter().map(|n| transaction(*n)).collect(),
        encoding: Arc::new(vec![]),
    }
}

fn net() -> Net {
    Net::new(KnownPeers::new(), true, None, MagicBytes([0; 4]), Network::Regtest, &vec![]).0
}

fn net_with(peers: &[u16]) -> Net {
    let mut net = net();
    for port in peers {
        net.add_active_peer(
            addr(*port),
            PeerConnectionHandle::new(PeerConnectionStatus::Connected),
        )
        .unwrap();
    }
    net
}

fn close_queue(net: &mut Net, port: u16) {
    let mut handle = net.active_peers.remove(&addr(port)).unwrap();
    handle.open = false;
    net.active_peers.insert(addr(port), handle);
}

fn received(net: &Net, port: u16) -> Vec<Txid> {
    net.active_peers
        .get(&addr(port))
        .unwrap()
        .queue
        .iter()
        .filter_map(|message| match message {
            PeerConnectionMessage::Request(PeerRequest::PushTransaction(request)) => {
                Some(request.transaction.txid)
            }
            _ => None,
        })
        .collect()
}

fn valid(n: u8) -> Pending {
    Pending { transaction: transaction(n), validation: Ok(()) }
}

fn invalid(n: u8, error: StateError) -> Pending {
    Pending { transaction: transaction(n), validation: Err(error) }
}

// a peer's invalid block (value out > value in) must not be fatal
#[test]
fn invalid_peer_block_is_not_fatal() {
    let err = Error::State(StateError::NotEnoughFees);
    assert!(!is_fatal_reorg_error(&err));
}

// local infrastructure errors stay fatal
#[test]
fn infrastructure_error_is_fatal() {
    assert!(is_fatal_reorg_error(&Error::PeerInfoRxClosed));
}

#[test]
fn retry_returns_serialization_errors() {
    let error = StateError::BorshSerialize("The transaction serialization failed".to_string());
    assert!(transaction_read_error(&error));
    assert!(!transaction_read_error(&StateError::NotEnoughFees));
}

#[test]
fn retry_stops_at_an_unreadable_transaction() {
    let res = check_pending_transactions(vec![
        invalid(1, StateError::NotEnoughFees),
        invalid(2, StateError::Db("locked".to_string())),
        invalid(3, StateError::BorshSerialize("later".to_string())),
    ]);
    assert!(matches!(res, Err(Error::State(StateError::Db(message))) if message == "locked"));
}

#[test]
fn retry_deletes_invalid_transaction() {
    let checked = check_pending_transactions(vec![
        valid(1),
        invalid(2, StateError::NotEnoughFees),
        valid(3),
    ])
    .unwrap();
    assert_eq!(checked.delete, vec![transaction(2).txid]);
    let left: Vec<Txid> = checked.valid.iter().map(|tx| tx.txid).collect();
    assert_eq!(left, vec![transaction(1).txid, transaction(3).txid]);
}

#[test]
fn pending_transaction_reaches_a_new_peer() {
    let mut net = net_with(&[]);
    let pending = vec![transaction(1)];
    assert_eq!(net.push_tx(&KeySet::new(), &transaction(1)).unwrap(), 0);
    net.add_active_peer(addr(1), PeerConnectionHandle::new(PeerConnectionStatus::Connected))
        .unwrap();
    relay_pending_transactions(&mut net, &pending, Some(addr(1))).unwrap();
    assert_eq!(received(&net, 1), vec![transaction(1).txid]);
    relay_pending_transactions(&mut net, &pending, None).unwrap();
    assert_eq!(received(&net, 1).len(), 2);
    assert_eq!(net.push_tx(&KeySet::new(), &transaction(1)).unwrap(), 1);
    assert_eq!(received(&net, 1).len(), 3);
    let queue = &net.active_peers.get(&addr(1)).unwrap().queue;
    assert!(queue.iter().all(|message| matches!(
        message,
        PeerConnectionMessage::Request(PeerRequest::PushTransaction(request))
            if *request.transaction.encoding == vec![1]
    )));
}

#[test]
fn retry_recovers_from_a_closed_peer_queue() {
    let mut net = net_with(&[1, 2]);
    close_queue(&mut net, 1);
    let result = net.push_tx(&KeySet::new(), &transaction(1));
    assert!(matches!(
        result,
        Err(bitassets_node::net::Error::PushTransaction { addr: closed }) if closed == addr(1)
    ));
    relay_pending_transactions(&mut net, &vec![transaction(1)], None).unwrap();
    assert!(received(&net, 2).contains(&transaction(1).txid));
    assert!(received(&net, 1).is_empty());
    assert_eq!(net.get_active_peers().len(), 2);
}

#[test]
fn reconnect_replay_targets_the_new_peer() {
    let mut net = net_with(&[1, 2]);
    relay_pending_transactions(&mut net, &vec![transaction(1)], Some(addr(2))).unwrap();
    assert_eq!(received(&net, 2), vec![transaction(1).txid]);
    assert!(received(&net, 1).is_empty());
}

#[test]
fn peer_forward_recovers_from_a_closed_queue() {
    let mut task = NetTask::new(net_with(&[1, 2, 3]));
    close_queue(&mut task.net, 1);
    let info = PeerConnectionInfo::NewTransaction(transaction(1));
    let action = task.handle(MailboxItem::PeerInfo(Some((addr(3), Some(info)))));
    let Action::TakeTransaction(step) = action else {
        panic!("unexpected action: {action:?}");
    };
    take(&mut task, step, false, Ok(())).unwrap();
    assert!(received(&task.net, 2).contains(&transaction(1).txid));
    assert!(received(&task.net, 1).is_empty());
    assert!(received(&task.net, 3).is_empty());
    assert!(matches!(
        task.handle(MailboxItem::PeerInfo(None)),
        Action::Stop(Error::PeerInfoRxClosed)
    ));
}

/// Take a transaction into a mempool that answers as given.
fn take(
    task: &mut NetTask,
    mut step: TransactionStep,
    known: bool,
    put: Result<(), MempoolError>,
) -> Result<(), Error> {
    let mut put = Some(put);
    loop {
        match step {
            TransactionStep::Ask(new) => {
                let reply = match new.asked {
                    TransactionAsk::Lookup => TransactionReply::Known(known),
                    TransactionAsk::Put => TransactionReply::Put(put.take().unwrap()),
                    TransactionAsk::Commit => TransactionReply::Done,
                };
                step = new.next(task, reply);
            }
            TransactionStep::Over(res) => return res,
        }
    }
}

#[test]
fn peer_transaction_conflicts_do_not_stop_net_task() {
    let mut task = NetTask::new(net_with(&[1, 2]));
    let mut mempool: Vec<Txid> = Vec::new();
    // the second transaction spends what the first one spends
    for n in [1, 2, 1, 3] {
        let info = PeerConnectionInfo::NewTransaction(transaction(n));
        let action = task.handle(MailboxItem::PeerInfo(Some((addr(1), Some(info)))));
        let Action::TakeTransaction(step) = action else {
            panic!("unexpected action: {action:?}");
        };
        let known = mempool.contains(&transaction(n).txid);
        let put = if n == 2 { Err(MempoolError::UtxoDoubleSpent) } else { Ok(()) };
        let added = !known && put.is_ok();
        take(&mut task, step, known, put).unwrap();
        if added {
            mempool.push(transaction(n).txid);
        }
    }
    assert!(matches!(
        task.handle(MailboxItem::PeerInfo(None)),
        Action::Stop(Error::PeerInfoRxClosed)
    ));
    assert_eq!(mempool, vec![transaction(1).txid, transaction(3).txid]);
    assert_eq!(received(&task.net, 2), mempool);
    assert!(received(&task.net, 1).is_empty());
}

#[test]
fn a_mempool_that_fails_stops_the_net_task() {
    let mut task = NetTask::new(net_with(&[1, 2]));
    let full = Err(MempoolError::Db("full".to_string()));
    assert!(matches!(
        take(&mut task, take_transaction(addr(1), transaction(1)), false, full),
        Err(Error::MemPool(MempoolError::Db(_)))
    ));
    assert!(received(&task.net, 2).is_empty());
}

#[test]
fn peer_without_inputs_stays_connected_for_retry() {
    let mut task = NetTask::new(net_with(&[1]));
    relay_pending_transactions(&mut task.net, &vec![transaction(1)], Some(addr(1))).unwrap();
    assert_eq!(received(&task.net, 1), vec![transaction(1).txid]);
    let action = task.handle(MailboxItem::PeerInfo(Some((
        addr(1),
        Some(PeerConnectionInfo::Response(
            PeerResponse::TransactionRejected(transaction(1).txid),
            PeerRequest::PushTransaction(PushTransactionRequest { transaction: transaction(1) }),
        )),
    ))));
    assert!(matches!(action, Action::Respond(ResponseStep::Over(Ok(())))));
    assert_eq!(task.net.get_active_peers().len(), 1);
    assert_eq!(task.net.push_tx(&KeySet::new(), &transaction(1)).unwrap(), 1);
    assert_eq!(received(&task.net, 1).len(), 2);
}

#[test]
fn relay_leaves_excluded_peers_out() {
    let mut net = net_with(&[1, 2]);
    let mut exclude = KeySet::new();
    exclude.insert(addr(1));
    relay_transaction(&mut net, &transaction(1), &exclude).unwrap();
    assert!(received(&net, 1).is_empty());
    assert_eq!(received(&net, 2), vec![transaction(1).txid]);
}

fn peer_error(task: &mut NetTask, err: PeerConnectionError, ips: &[u32]) -> Action {
    let mut ips: Vec<IpAddr> = ips.iter().rev().map(|ip| IpAddr::V4(*ip)).collect();
    let head = ips.remove(0);
    let resolved_addr = ResolvedSeedAddress::Domain {
        domain: "seed".to_string(),
        port: 1,
        addrs: nonempty::NonEmpty { head, tail: ips },
    };
    task.handle(MailboxItem::PeerInfo(Some((
        addr(1),
        Some(PeerConnectionInfo::Error { err, resolved_addr }),
    ))))
}

fn reconnects_to(action: Action) -> Option<Vec<IpAddr>> {
    match action {
        Action::Reconnect(resolved_addr) => Some(resolved_addr.ip_addrs()),
        Action::Nothing => None,
        other => panic!("unexpected action: {other:?}"),
    }
}

#[test]
fn retry_connection_timeout_before_first_message() {
    let mut task = NetTask::new(net_with(&[1]));
    assert_eq!(
        task.net
            .try_with_active_peer_connection(addr(1), |peer| peer.received_msg_successfully()),
        Some(false)
    );
    let action = peer_error(&mut task, PeerConnectionError::ConnectTimeout, &[1]);
    assert!(task.net.get_active_peers().is_empty());
    assert_eq!(reconnects_to(action), Some(vec![IpAddr::V4(1)]));
}

#[test]
fn retry_duplicate_close_before_first_message() {
    assert_eq!(RECONNECT_DELAY_SECS, 10);
    let mut task = NetTask::new(net_with(&[1]));
    for _ in 0..2 {
        assert_eq!(
            task.net.try_with_active_peer_connection(addr(1), |peer| peer
                .received_msg_successfully()),
            Some(false)
        );
        let action = peer_error(&mut task, PeerConnectionError::DuplicateConnection, &[1, 2]);
        assert!(task.net.get_active_peers().is_empty());
        let Action::Reconnect(resolved_addr) = action else {
            panic!("unexpected action: {action:?}");
        };
        assert_eq!(resolved_addr.ip_addrs(), vec![IpAddr::V4(1), IpAddr::V4(2)]);
        let action = task.handle(MailboxItem::ReconnectPeer(resolved_addr));
        let Action::Connect(resolved_addr) = action else {
            panic!("unexpected action: {action:?}");
        };
        assert_eq!(resolved_addr.ip_addrs(), vec![IpAddr::V4(1), IpAddr::V4(2)]);
        task.net
            .add_active_peer(addr(1), PeerConnectionHandle::new(PeerConnectionStatus::Connected))
            .unwrap();
    }
    let peers = task.net.get_active_peers();
    assert_eq!(peers.len(), 1);
    assert_eq!(peers[0].address, addr(1));
    assert_eq!(peers[0].status, PeerConnectionStatus::Connected);
}

#[test]
fn a_silent_peer_is_tried_at_its_next_address() {
    let mut task = NetTask::new(net_with(&[1]));
    let action = peer_error(&mut task, PeerConnectionError::HeartbeatTimeout, &[1, 2]);
    assert_eq!(reconnects_to(action), Some(vec![IpAddr::V4(2)]));
    assert!(task.net.get_active_peers().is_empty());
    let action = peer_error(&mut task, PeerConnectionError::HeartbeatTimeout, &[1, 2]);
    assert_eq!(reconnects_to(action), None);
    let mut heard = PeerConnectionHandle::new(PeerConnectionStatus::Connected);
    heard.received_msg_successfully = true;
    task.net.add_active_peer(addr(1), heard).unwrap();
    let action = peer_error(&mut task, PeerConnectionError::HeartbeatTimeout, &[1, 2]);
    assert_eq!(reconnects_to(action), Some(vec![IpAddr::V4(1), IpAddr::V4(2)]));
}

#[test]
fn a_peer_of_another_network_is_forgotten() {
    let mut task = NetTask::new(net_with(&[1]));
    task.net.known_peers.insert(addr(1));
    let action = peer_error(&mut task, PeerConnectionError::BadMagic, &[1, 2]);
    assert!(matches!(action, Action::DeleteKnownPeer(forgotten) if forgotten == addr(1)));
    assert!(task.net.known_peer_addrs().is_empty());
    assert!(task.net.get_active_peers().is_empty());
}

#[test]
fn other_peer_errors_try_the_next_address() {
    let mut task = NetTask::new(net_with(&[1]));
    let err = || PeerConnectionError::Other("reset".to_string());
    assert_eq!(reconnects_to(peer_error(&mut task, err(), &[1, 2])), Some(vec![IpAddr::V4(2)]));
    assert_eq!(reconnects_to(peer_error(&mut task, err(), &[1])), None);
}

#[test]
fn events_lead_to_actions() {
    let mut task = NetTask::new(net_with(&[1]));
    assert!(matches!(
        task.handle(MailboxItem::PeerInfo(Some((
            addr(1),
            Some(PeerConnectionInfo::Connected)
        )))),
        Action::RelayPending(Some(peer)) if peer == addr(1)
    ));
    assert!(matches!(task.handle(MailboxItem::RetryTransactions), Action::RelayPending(None)));
    let ready = PeerConnectionInfo::NewTipReady(tip(1, 1));
    assert!(matches!(
        task.handle(MailboxItem::PeerInfo(Some((addr(1), Some(ready))))),
        Action::Nothing
    ));
    assert_eq!(task.new_tips, vec![NewTipReady { tip: tip(1, 1), addr: Some(addr(1)) }]);
    assert!(matches!(
        task.handle(MailboxItem::NewTipReady(task.new_tips[0])),
        Action::CheckNewTip(_)
    ));
    assert!(matches!(
        task.handle(MailboxItem::MainchainTaskEvent(MainchainEvent::Block)),
        Action::FollowMainchain
    ));
    assert!(matches!(
        task.handle(MailboxItem::ReconnectPeer(addr(2).into())),
        Action::Connect(ResolvedSeedAddress::Static(again)) if again == addr(2)
    ));
    assert!(matches!(
        task.handle(MailboxItem::RedialKnownPeers(bitassets_node::net::Error::Db(String::new()))),
        Action::Stop(Error::Net(_))
    ));
    assert!(matches!(
        task.handle(MailboxItem::AcceptConnection(Ok(None))),
        Action::Nothing
    ));
    assert!(matches!(
        task.handle(MailboxItem::PeerInfo(Some((addr(1), None)))),
        Action::Nothing
    ));
    assert!(task.net.get_active_peers().is_empty());
}

#[test]
fn an_invalid_tip_costs_its_sender_the_connection() {
    let mut task = NetTask::new(net_with(&[1, 2]));
    assert_eq!(task.new_tip_checked(Some(addr(1)), Ok(true)).unwrap(), true);
    assert_eq!(task.net.get_active_peers().len(), 2);
    let err = || Err(Error::State(StateError::NotEnoughFees));
    assert_eq!(task.new_tip_checked(Some(addr(1)), err()).unwrap(), false);
    assert_eq!(task.net.get_active_peers().len(), 1);
    assert_eq!(task.new_tip_checked(None, err()).unwrap(), false);
    assert!(task.new_tip_checked(Some(addr(2)), Err(Error::Db("gone".to_string()))).is_err());
    assert_eq!(task.net.get_active_peers().len(), 1);
}

#[test]
fn mainchain_answers_reach_all_that_wait() {
    let request = MainchainRequest::AncestorInfos(main_hash(1));
    let source = |port, n| RequestSource { addr: addr(port), peer_state_id: PeerStateId(hash256(n)) };
    for res in [Ok(true), Ok(false), Err("down".to_string())] {
        let mut task = NetTask::new(net_with(&[1, 2]));
        let need = PeerConnectionInfo::NeedMainchainAncestors {
            main_hash: main_hash(1),
            peer_state_id: PeerStateId(hash256(1)),
        };
        let action = task.handle(MailboxItem::PeerInfo(Some((addr(1), Some(need)))));
        let Action::QueueMainchainTaskRequest(queued, from) = action else {
            panic!("unexpected action: {action:?}");
        };
        assert_eq!(queued, request);
        let action = task.handle(MailboxItem::ForwardMainchainTaskRequest(queued, from));
        assert!(matches!(action, Action::RequestMainchainTask(..)));
        task.mainchain_request_sent(request, from, true);
        task.mainchain_request_sent(request, source(2, 2), true);
        task.mainchain_request_sent(request, source(2, 3), false);
        let answer = |res| {
            MailboxItem::MainchainTaskEvent(MainchainEvent::Response(
                MainchainResponse::AncestorInfos(main_hash(1), res),
            ))
        };
        assert!(matches!(task.handle(answer(res.clone())), Action::Nothing));
        assert!(matches!(task.handle(answer(res.clone())), Action::Nothing));
        for (port, n) in [(1, 1), (2, 2)] {
            let queue = &task.net.active_peers.get(&addr(port)).unwrap().queue;
            assert_eq!(queue.len(), 1);
            match (&res, &queue[0]) {
                (Ok(true), PeerConnectionMessage::MainchainAncestors(id)) => {
                    assert_eq!(*id, PeerStateId(hash256(n)));
                }
                (
                    Ok(false),
                    PeerConnectionMessage::MainchainAncestorsError(
                        MainchainAncestorsError::BlockNotAvailable { block_hash },
                    ),
                ) => assert_eq!(*block_hash, main_hash(1)),
                (
                    Err(_),
                    PeerConnectionMessage::MainchainAncestorsError(MainchainAncestorsError::Task(
                        message,
                    )),
                ) => assert_eq!(message, "down"),
                other => panic!("unexpected message: {other:?}"),
            }
        }
    }
}

#[test]
fn connecting_takes_transactions_out_of_the_mempool() {
    assert_eq!(
        connect_tip(&body(&[4, 5])),
        vec![
            ConnectOp::ApplyBlock,
            ConnectOp::ConnectTwoWayPeg,
            ConnectOp::PutHeader,
            ConnectOp::PutBody,
            ConnectOp::DeleteTransaction(transaction(4).txid),
            ConnectOp::DeleteTransaction(transaction(5).txid),
        ]
    );
}

fn applied(n: u8, applied_height: u32) -> AppliedBlock {
    AppliedBlock { block_hash: main_hash(n), applied_height }
}

fn list(items: &[(u8, u32)]) -> Vec<AppliedBlock> {
    items.iter().map(|(n, height)| applied(*n, *height)).collect()
}

/// Disconnect a block at height 5 that was built upon mainchain block 9. `first`
/// is the one of two mainchain blocks that the other descends from. Blocks with
/// an even number have no events.
fn disconnect(
    deposits: &[(u8, u32)],
    withdrawals: &[(u8, u32)],
    first: Option<u8>,
) -> Result<DisconnectPlan, Error> {
    let block = Block { header: header(1, None, 9), body: body(&[4, 5, 6]) };
    let mut step = disconnect_tip(Some(block), Some(5), &list(deposits), &list(withdrawals));
    loop {
        match step {
            DisconnectStep::Ask(ask, disconnect) => {
                let reply = match ask {
                    DisconnectAsk::IsMainDescendant { ancestor, .. } => {
                        DisconnectReply::Flag(first.map(main_hash) == Some(ancestor))
                    }
                    DisconnectAsk::MainBlock(hash) => {
                        let n = hash.0.to_bytes()[0];
                        DisconnectReply::MainBlock {
                            info: MainBlockInfo { events: vec![vec![n]; (n % 2) as usize] },
                            parent: if n > 0 { Some(main_hash(n - 1)) } else { None },
                        }
                    }
                };
                step = disconnect.next(reply);
            }
            DisconnectStep::Over(res) => return res,
        }
    }
}

fn undone(plan: &DisconnectPlan) -> Vec<u8> {
    let data = &plan.two_way_peg_data;
    (0..data.len()).map(|i| data.at(i).0 .0.to_bytes()[0]).collect()
}

#[test]
fn disconnecting_undoes_events_and_returns_transactions() {
    let plan = disconnect(&[], &[], None).unwrap();
    assert_eq!(undone(&plan), vec![1, 3, 5, 7, 9]);
    assert_eq!(
        plan.ops,
        vec![
            DisconnectOp::DisconnectTwoWayPeg,
            DisconnectOp::DisconnectBlock,
            DisconnectOp::PutTransaction(2),
            DisconnectOp::PutTransaction(1),
            DisconnectOp::PutTransaction(0),
        ]
    );
    assert_eq!(plan.block.header.hash, side(1));
}

/// Disconnecting the block that was just connected gives back the tip, the height
/// and the mempool. The archive keeps the block.
#[test]
fn disconnecting_undoes_connecting() {
    let block = Block { header: header(1, Some(0), 9), body: body(&[4, 5, 6]) };
    let mut chain = vec![side(0)];
    let mut pegs: Vec<(BlockHash, bool)> = Vec::new();
    let mut stored: Vec<BlockHash> = Vec::new();
    let mut mempool = vec![transaction(5).txid, transaction(8).txid];
    for op in connect_tip(&block.body) {
        match op {
            ConnectOp::ApplyBlock => {
                assert_eq!(block.header.prev_side_hash.as_ref(), chain.last());
                chain.push(block.header.hash);
            }
            ConnectOp::ConnectTwoWayPeg => pegs.push((*chain.last().unwrap(), true)),
            ConnectOp::PutHeader | ConnectOp::PutBody => stored.push(block.header.hash),
            ConnectOp::DeleteTransaction(txid) => mempool.retain(|other| *other != txid),
        }
    }
    assert_eq!(chain, vec![side(0), side(1)]);
    assert_eq!(mempool, vec![transaction(8).txid]);
    let plan = disconnect(&[], &[], None).unwrap();
    for op in plan.ops {
        match op {
            DisconnectOp::DisconnectTwoWayPeg => pegs.push((*chain.last().unwrap(), false)),
            DisconnectOp::DisconnectBlock => assert_eq!(chain.pop(), Some(side(1))),
            DisconnectOp::PutTransaction(place) => {
                mempool.push(plan.block.body.transactions[place].txid);
            }
        }
    }
    assert_eq!(chain, vec![side(0)]);
    assert_eq!(pegs, vec![(side(1), true), (side(1), false)]);
    assert_eq!(stored, vec![side(1), side(1)]);
    assert_eq!(mempool, [8, 6, 5, 4].map(|n| transaction(n).txid));
}

#[test]
fn accepting_ends_with_the_endpoint() {
    let (item, go_on) = accept_event(Ok(Some(addr(1))));
    assert!(matches!(
        item,
        Some(MailboxItem::AcceptConnection(Ok(Some(added)))) if added == addr(1)
    ));
    assert!(go_on);
    let (item, go_on) = accept_event(Ok(None));
    assert!(matches!(item, Some(MailboxItem::AcceptConnection(Ok(None)))));
    assert!(go_on);
    for err in [
        AcceptConnection::AlreadyConnected(AlreadyConnected(addr(1))),
        AcceptConnection::Connection { message: "reset".to_string(), remote_address: addr(1) },
        AcceptConnection::Db("locked".to_string()),
    ] {
        assert!(!err.is_fatal());
        let (item, go_on) = accept_event(Err(err));
        assert!(item.is_none());
        assert!(go_on);
    }
    assert!(AcceptConnection::ServerEndpointClosed.is_fatal());
    let (item, go_on) = accept_event(Err(AcceptConnection::ServerEndpointClosed));
    assert!(matches!(
        item,
        Some(MailboxItem::AcceptConnection(Err(AcceptConnection::ServerEndpointClosed)))
    ));
    assert!(!go_on);
}

#[test]
fn open_queues_get_one_copy_of_a_relay() {
    let mut net = net_with(&[1, 2, 3]);
    let mut exclude = KeySet::new();
    exclude.insert(addr(3));
    relay_transaction(&mut net, &transaction(1), &exclude).unwrap();
    assert_eq!(received(&net, 1).len(), 1);
    assert_eq!(received(&net, 2).len(), 1);
    assert!(received(&net, 3).is_empty());
    // with one closed queue there is at most one copy more
    close_queue(&mut net, 2);
    relay_transaction(&mut net, &transaction(2), &KeySet::new()).unwrap();
    assert!((2..=3).contains(&received(&net, 1).len()));
    assert_eq!(received(&net, 2).len(), 1);
    assert!((1..=2).contains(&received(&net, 3).len()));
}

#[test]
fn disconnecting_starts_after_the_last_applied_block() {
    // blocks that were applied at the height of the tip are undone
    assert_eq!(
        undone(&disconnect(&[(1, 2), (3, 4), (7, 5)], &[], None).unwrap()),
        vec![5, 7, 9]
    );
    assert_eq!(undone(&disconnect(&[(1, 2)], &[(5, 3)], None).unwrap()), vec![7, 9]);
    assert_eq!(undone(&disconnect(&[(7, 4)], &[(5, 3)], None).unwrap()), vec![9]);
}

#[test]
fn disconnecting_starts_after_the_earlier_of_two_blocks() {
    assert_eq!(undone(&disconnect(&[(7, 3)], &[(5, 3)], Some(5)).unwrap()), vec![7, 9]);
    assert_eq!(undone(&disconnect(&[(5, 3)], &[(7, 3)], Some(5)).unwrap()), vec![7, 9]);
    assert!(matches!(
        disconnect(&[(5, 3)], &[(7, 3)], None),
        Err(Error::Contradiction(Contradiction::UnrelatedMainBlocks))
    ));
}

#[test]
fn nothing_is_disconnected_without_a_tip() {
    assert!(matches!(
        disconnect_tip(None, Some(1), &vec![], &vec![]),
        DisconnectStep::Over(Err(Error::State(StateError::NoTip)))
    ));
    let block = Block { header: header(1, None, 9), body: body(&[]) };
    assert!(matches!(
        disconnect_tip(Some(block), None, &vec![], &vec![]),
        DisconnectStep::Over(Err(Error::State(StateError::NoTip)))
    ));
}

/// An archive and a state in memory.
struct World {
    headers: HashMap<BlockHash, Header>,
    mains: HashMap<MainBlockHash, Option<MainBlockHash>>,
    chain: Vec<BlockHash>,
    committed: Vec<BlockHash>,
    invalid: Option<BlockHash>,
    deleted: Vec<BlockHash>,
    pegs: Vec<Vec<MainBlockHash>>,
}

impl World {
    fn path(&self, mut hash: BlockHash) -> Vec<BlockHash> {
        let mut path = vec![hash];
        while let Some(parent) = self.headers[&hash].prev_side_hash {
            path.insert(0, parent);
            hash = parent;
        }
        path
    }

    fn state_tip(&self) -> Option<Tip> {
        let block_hash = *self.chain.last()?;
        Some(Tip { block_hash, main_block_hash: self.headers[&block_hash].prev_main_hash })
    }

    /// A longer chain is better.
    fn better(&self, tip: Tip, new_tip: Tip) -> Option<Tip> {
        if self.path(new_tip.block_hash).len() > self.path(tip.block_hash).len() {
            Some(new_tip)
        } else {
            Some(tip)
        }
    }

    fn answer(&mut self, ask: ReorgAsk) -> ReorgReply {
        match ask {
            ReorgAsk::StateTip => ReorgReply::StateTip {
                height: self.chain.len().checked_sub(1).map(|height| height as u32),
                tip: self.state_tip(),
            },
            ReorgAsk::BetterTip { tip, new_tip } => {
                ReorgReply::BetterTip(self.better(tip, new_tip))
            }
            ReorgAsk::CommonAncestor { block_hash, new_block_hash } => {
                let (a, b) = (self.path(block_hash), self.path(new_block_hash));
                let shared = a.iter().zip(&b).take_while(|(a, b)| a == b).count();
                ReorgReply::CommonAncestor(a[..shared].last().copied())
            }
            ReorgAsk::Block(hash) => {
                ReorgReply::Block(Block { header: self.headers[&hash], body: body(&[]) })
            }
            ReorgAsk::Height(hash) => ReorgReply::Height(self.path(hash).len() as u32 - 1),
            ReorgAsk::DisconnectTip => {
                self.chain.pop().unwrap();
                ReorgReply::Done
            }
            ReorgAsk::Header(hash) => ReorgReply::Header(self.headers[&hash]),
            ReorgAsk::MainBlock(hash) => ReorgReply::MainBlock {
                info: MainBlockInfo { events: vec![] },
                parent: self.mains[&hash],
            },
            ReorgAsk::ConnectTip { block, two_way_peg_data } => {
                if self.invalid == Some(block.header.hash) {
                    return ReorgReply::NotConnected {
                        block,
                        err: Error::State(StateError::NotEnoughFees),
                    };
                }
                self.chain.push(block.header.hash);
                let peg = (0..two_way_peg_data.len()).map(|i| *two_way_peg_data.at(i).0);
                self.pegs.push(peg.collect());
                ReorgReply::Done
            }
            ReorgAsk::Commit => {
                self.committed = self.chain.clone();
                ReorgReply::Done
            }
            ReorgAsk::DeleteBody { block } => {
                self.chain = self.committed.clone();
                self.deleted.push(block.header.hash);
                ReorgReply::Done
            }
        }
    }

    fn reorg(&mut self, new_tip: Tip) -> Result<Option<Vec<HashBlock>>, Error> {
        let mut step = reorg_to_tip(new_tip);
        loop {
            match step {
                ReorgStep::Ask(ask, reorg) => {
                    let reply = self.answer(ask);
                    step = reorg.next(reply);
                }
                ReorgStep::Over(res) => {
                    self.chain = self.committed.clone();
                    return res.map(|outcome| match outcome {
                        ReorgOutcome::NotBetter => None,
                        ReorgOutcome::Synced { announce } => Some(announce),
                    });
                }
            }
        }
    }
}

/// The chain `1 - 2 - 3`, and the branch `1 - 12 - 13 - 14` beside it. Each block
/// was built upon the mainchain block of the same last digit.
fn world() -> World {
    let headers = [
        header(1, None, 101),
        header(2, Some(1), 102),
        header(3, Some(2), 103),
        header(12, Some(1), 102),
        header(13, Some(12), 104),
        header(14, Some(13), 105),
    ];
    World {
        headers: headers.iter().map(|header| (header.hash, *header)).collect(),
        mains: (100..=105)
            .map(|n| (main_hash(n), if n == 100 { None } else { Some(main_hash(n - 1)) }))
            .collect(),
        chain: vec![],
        committed: vec![],
        invalid: None,
        deleted: vec![],
        pegs: vec![],
    }
}

fn announced(blocks: &[(u8, u32)]) -> Vec<HashBlock> {
    blocks.iter().map(|(n, height)| HashBlock { block_hash: side(*n), height: *height }).collect()
}

#[test]
fn a_chain_is_synced_from_its_start() {
    let mut world = world();
    let synced = world.reorg(tip(3, 103)).unwrap();
    assert_eq!(synced, Some(announced(&[(1, 0), (2, 1), (3, 2)])));
    assert_eq!(world.committed, vec![side(1), side(2), side(3)]);
    assert_eq!(
        world.pegs,
        vec![vec![main_hash(100), main_hash(101)], vec![main_hash(102)], vec![main_hash(103)]]
    );
}

#[test]
fn a_better_branch_replaces_the_tip() {
    let mut world = world();
    world.reorg(tip(3, 103)).unwrap();
    world.pegs.clear();
    let synced = world.reorg(tip(14, 105)).unwrap();
    assert_eq!(synced, Some(announced(&[(12, 1), (13, 2), (14, 3)])));
    assert_eq!(world.committed, vec![side(1), side(12), side(13), side(14)]);
    assert_eq!(
        world.pegs,
        vec![
            vec![main_hash(102)],
            vec![main_hash(103), main_hash(104)],
            vec![main_hash(105)],
        ]
    );
}

#[test]
fn a_tip_that_is_not_better_changes_nothing() {
    let mut world = world();
    world.reorg(tip(3, 103)).unwrap();
    assert_eq!(world.reorg(tip(13, 104)).unwrap(), None);
    assert_eq!(world.committed, vec![side(1), side(2), side(3)]);
    // nor does one on the chain of the state
    assert_eq!(world.reorg(tip(2, 102)).unwrap(), None);
    assert_eq!(world.committed, vec![side(1), side(2), side(3)]);
}

#[test]
fn an_invalid_block_keeps_the_old_chain() {
    let mut world = world();
    world.reorg(tip(3, 103)).unwrap();
    world.invalid = Some(side(14));
    let err = world.reorg(tip(14, 105)).unwrap_err();
    assert!(matches!(err, Error::State(StateError::NotEnoughFees)));
    assert_eq!(world.committed, vec![side(1), side(2), side(3)]);
    assert_eq!(world.deleted, vec![side(14)]);
}

#[test]
fn an_unexpected_tip_is_a_contradiction() {
    let ReorgStep::Ask(_, reorg) = reorg_to_tip(tip(1, 1)) else {
        panic!("no question");
    };
    assert!(matches!(
        reorg.next(ReorgReply::Height(1)),
        ReorgStep::Over(Err(Error::Contradiction(Contradiction::Answer)))
    ));
}

#[test]
fn announcements_hold_hash_and_height() {
    let (hash, height) = HashBlock { block_hash: side(7), height: 258 }.frames();
    assert_eq!(hash, vec![7; 32]);
    assert_eq!(height, vec![2, 1, 0, 0]);
}

fn follow(mut chain: Vec<u8>, side_tips: &[u8], mut step: FollowStep) -> (Vec<u8>, FollowStep) {
    loop {
        let FollowStep::Ask(ask, follow) = step else {
            return (chain, step);
        };
        let reply = match ask {
            FollowAsk::StateTip => FollowReply::StateTip(chain.last().map(|n| side(*n))),
            FollowAsk::IsSideTip(hash) => {
                FollowReply::Flag(side_tips.iter().any(|n| side(*n) == hash))
            }
            FollowAsk::Disconnect(hash) => {
                assert_eq!(hash, side(chain.pop().unwrap()));
                FollowReply::Done
            }
            FollowAsk::BestSideTip => {
                FollowReply::BestSideTip(side_tips.last().map(|n| tip(*n, 9)))
            }
            FollowAsk::Commit => FollowReply::Done,
            FollowAsk::MainchainTip => FollowReply::MainchainTip(main_hash(9)),
            FollowAsk::IsMainDescendant { ancestor, descendant } => {
                assert_eq!(descendant, main_hash(9));
                FollowReply::Flag(ancestor == main_hash(8))
            }
        };
        step = follow.next(reply);
    }
}

#[test]
fn unverified_blocks_are_disconnected() {
    let (chain, step) = follow(vec![1, 2, 3], &[1], follow_mainchain());
    assert_eq!(chain, vec![1]);
    assert!(matches!(step, FollowStep::Reorg(best) if best == tip(1, 9)));
    let (chain, step) = follow(vec![1, 2], &[], follow_mainchain());
    assert!(chain.is_empty());
    assert!(matches!(step, FollowStep::Stay));
}

#[test]
fn only_verified_tips_on_the_mainchain_are_reorganised_to() {
    let (_, step) = follow(vec![1], &[2], check_new_tip(tip(2, 8)));
    assert!(matches!(step, FollowStep::Reorg(new_tip) if new_tip == tip(2, 8)));
    let (_, step) = follow(vec![1], &[2], check_new_tip(tip(2, 7)));
    assert!(matches!(step, FollowStep::Stay));
    let (_, step) = follow(vec![1], &[2], check_new_tip(tip(3, 8)));
    assert!(matches!(step, FollowStep::Stay));
}

fn headers_request(start: &[u8], end: u8, height: u32) -> PeerRequest {
    let mut starts = KeySet::new();
    for n in start {
        starts.insert(side(*n));
    }
    PeerRequest::GetHeaders(GetHeadersRequest {
        start: starts,
        end: side(end),
        height: Some(height),
        peer_state_id: Some(PeerStateId(hash256(1))),
    })
}

/// Handle headers with an archive that holds some headers, and give back those
/// that it holds afterwards.
fn handle_headers(
    task: &mut NetTask,
    request: PeerRequest,
    headers: Vec<Header>,
    mut stored: Vec<u8>,
    invalidated: &[u8],
) -> Vec<u8> {
    let mut step = task.handle_response(addr(1), PeerResponse::Headers(headers), request);
    loop {
        match step {
            ResponseStep::Ask(ask, response) => {
                let reply = match ask {
                    ResponseAsk::Height(hash) => ResponseReply::Height(hash.0.to_bytes()[0] as u32),
                    ResponseAsk::Invalidated(hash) => {
                        ResponseReply::Flag(invalidated.iter().any(|n| side(*n) == hash))
                    }
                    ResponseAsk::Stored(hash) => {
                        ResponseReply::Flag(stored.iter().any(|n| side(*n) == hash))
                    }
                    ResponseAsk::PutHeader(header) => {
                        stored.push(header.hash.0.to_bytes()[0]);
                        ResponseReply::Done
                    }
                    ResponseAsk::CommitHeaders => ResponseReply::Done,
                    other => panic!("unexpected question: {other:?}"),
                };
                step = response.next(task, reply);
            }
            ResponseStep::Over(res) => {
                res.unwrap();
                return stored;
            }
        }
    }
}

fn headers_of(blocks: &[(u8, Option<u8>)]) -> Vec<Header> {
    blocks.iter().map(|(n, parent)| header(*n, *parent, 0)).collect()
}

#[test]
fn headers_are_stored_and_the_peer_is_told() {
    let mut task = NetTask::new(net_with(&[1]));
    let headers = headers_of(&[(5, Some(4)), (6, Some(5)), (7, Some(6))]);
    let stored =
        handle_headers(&mut task, headers_request(&[3, 4], 7, 7), headers, vec![4, 5], &[]);
    assert_eq!(stored, vec![4, 5, 6, 7]);
    let queue = &task.net.active_peers.get(&addr(1)).unwrap().queue;
    assert!(matches!(
        queue[..],
        [PeerConnectionMessage::Headers(id)] if id == PeerStateId(hash256(1))
    ));
}

#[test]
fn headers_above_a_missing_one_are_not_stored() {
    let mut task = NetTask::new(net_with(&[1]));
    let headers = headers_of(&[(5, Some(4)), (6, Some(5))]);
    let stored = handle_headers(&mut task, headers_request(&[4], 6, 6), headers, vec![3], &[]);
    assert_eq!(stored, vec![3]);
    assert_eq!(task.net.get_active_peers().len(), 1);
}

#[test]
fn first_headers_have_no_parent() {
    let mut task = NetTask::new(net_with(&[1]));
    let headers = headers_of(&[(1, None), (2, Some(1))]);
    let stored = handle_headers(&mut task, headers_request(&[], 2, 1), headers, vec![], &[]);
    assert_eq!(stored, vec![1, 2]);
}

#[test]
fn wrong_headers_cost_the_peer_its_connection() {
    let cases = vec![
        // none at all
        (headers_request(&[4], 6, 6), headers_of(&[]), vec![]),
        // another end
        (headers_request(&[4], 6, 6), headers_of(&[(5, Some(4))]), vec![]),
        // another start
        (headers_request(&[3], 5, 5), headers_of(&[(5, Some(4))]), vec![]),
        // another height
        (headers_request(&[4], 5, 6), headers_of(&[(5, Some(4))]), vec![]),
        // a gap
        (headers_request(&[4], 7, 6), headers_of(&[(5, Some(4)), (7, Some(6))]), vec![]),
        // an invalid block
        (headers_request(&[4], 6, 6), headers_of(&[(5, Some(4)), (6, Some(5))]), vec![6]),
    ];
    for (request, headers, invalidated) in cases {
        let mut task = NetTask::new(net_with(&[1]));
        let stored = handle_headers(&mut task, request, headers, vec![4], &invalidated);
        assert_eq!(stored, vec![4]);
        assert!(task.net.get_active_peers().is_empty());
    }
}

fn block_request(n: u8, descendant: Tip) -> GetBlockRequest {
    GetBlockRequest {
        block_hash: side(n),
        descendant_tip: Some(descendant),
        ancestor: Some(side(1)),
        peer_state_id: Some(PeerStateId(hash256(1))),
    }
}

/// Handle block 2 on top of block 1, which is the tip. `missing` says which body
/// is missing below a block.
fn handle_block(task: &mut NetTask, missing: &[(u8, u8)]) {
    let state_tip = tip(1, 1);
    let mut step = task.handle_response(
        addr(1),
        PeerResponse::Block { header: header(2, Some(1), 0), body: body(&[]) },
        PeerRequest::GetBlock(block_request(2, tip(4, 9))),
    );
    loop {
        match step {
            ResponseStep::Ask(ask, response) => {
                let reply = match ask {
                    ResponseAsk::PutBody { block_hash, .. } => {
                        assert_eq!(block_hash, side(2));
                        ResponseReply::Done
                    }
                    ResponseAsk::Height(hash) => {
                        assert_eq!(hash, side(1));
                        ResponseReply::Height(0)
                    }
                    ResponseAsk::EarliestMissingBody { block_hash, from_height } => {
                        assert_eq!(from_height, 1);
                        ResponseReply::MissingBody(
                            missing
                                .iter()
                                .find(|(n, _)| side(*n) == block_hash)
                                .map(|(_, n)| side(*n)),
                        )
                    }
                    ResponseAsk::StateTip => ResponseReply::StateTip(Some(state_tip)),
                    ResponseAsk::BmmResults(_) => ResponseReply::BmmResults(vec![
                        BmmEntry { main_block_hash: main_hash(5), result: BmmResult::Failed },
                        BmmEntry { main_block_hash: main_hash(6), result: BmmResult::Verified },
                        BmmEntry { main_block_hash: main_hash(7), result: BmmResult::Verified },
                    ]),
                    ResponseAsk::IsMainDescendant { ancestor, descendant } => {
                        assert_eq!(descendant, main_hash(9));
                        ResponseReply::Flag(ancestor == main_hash(7))
                    }
                    ResponseAsk::CommonAncestor { .. } => {
                        ResponseReply::CommonAncestor(Some(side(1)))
                    }
                    ResponseAsk::PrevSideHash(hash) => {
                        ResponseReply::PrevSideHash(Some(side(hash.0.to_bytes()[0] - 1)))
                    }
                    ResponseAsk::BestVerification(_) => {
                        ResponseReply::BestVerification(main_hash(8))
                    }
                    ResponseAsk::BetterTip { tip, new_tip } => {
                        assert_eq!(tip, state_tip);
                        ResponseReply::BetterTip(Some(new_tip))
                    }
                    other => panic!("unexpected question: {other:?}"),
                };
                step = response.next(task, reply);
            }
            ResponseStep::Over(res) => return res.unwrap(),
        }
    }
}

fn ready(tip: Tip, port: u16) -> NewTipReady {
    NewTipReady { tip, addr: Some(addr(port)) }
}

#[test]
fn a_block_on_the_tip_is_ready() {
    let mut task = NetTask::new(net_with(&[1]));
    handle_block(&mut task, &[]);
    assert_eq!(task.new_tips, vec![ready(tip(2, 7), 1)]);
    let queue = &task.net.active_peers.get(&addr(1)).unwrap().queue;
    assert!(matches!(queue[..], [PeerConnectionMessage::BodiesAvailable(_)]));
}

#[test]
fn tips_wait_for_their_earliest_missing_body() {
    let mut task = NetTask::new(net_with(&[1]));
    // the tip waits for block 3 once block 2 is there
    handle_block(&mut task, &[(2, 3)]);
    assert_eq!(task.new_tips, vec![ready(tip(2, 7), 1)]);
    assert!(task.net.active_peers.get(&addr(1)).unwrap().queue.is_empty());
    let groups = task.descendant_tips.take(side(3));
    assert_eq!(groups.len(), 1);
    assert_eq!(groups[0].tip, tip(4, 9));
    assert_eq!(groups[0].sources, vec![addr(1)]);
    assert!(task.descendant_tips.take(side(3)).is_empty());
}

#[test]
fn waiting_tips_are_looked_at_when_a_body_arrives() {
    let mut task = NetTask::new(net_with(&[1, 2, 3]));
    for port in [2, 3, 2] {
        task.descendant_tips.file(Waiting {
            missing: side(2),
            tip: tip(4, 9),
            source: addr(port),
        });
    }
    task.descendant_tips.file(Waiting { missing: side(2), tip: tip(6, 9), source: addr(2) });
    // nothing is missing below block 4, and block 5 is missing below block 6
    handle_block(&mut task, &[(6, 5)]);
    assert_eq!(
        task.new_tips,
        vec![
            ready(tip(2, 7), 1),
            ready(tip(4, 9), 2),
            ready(tip(4, 9), 3),
            // the parent of the missing body
            ready(tip(4, 8), 2),
        ]
    );
    assert!(task.descendant_tips.take(side(2)).is_empty());
    assert_eq!(task.descendant_tips.take(side(5))[0].sources, vec![addr(2)]);
}

#[test]
fn responses_must_answer_their_requests() {
    let over = |step: ResponseStep| match step {
        ResponseStep::Over(res) => res.unwrap(),
        ResponseStep::Ask(ask, _) => panic!("unexpected question: {ask:?}"),
    };
    let get_block = || PeerRequest::GetBlock(block_request(2, tip(4, 9)));
    let push = || {
        PeerRequest::PushTransaction(PushTransactionRequest { transaction: transaction(1) })
    };
    let mut task = NetTask::new(net_with(&[1]));
    over(task.handle_response(addr(1), PeerResponse::NoBlock { block_hash: side(2) }, get_block()));
    over(task.handle_response(
        addr(1),
        PeerResponse::NoHeader { block_hash: side(7) },
        headers_request(&[], 7, 7),
    ));
    for resp in [
        PeerResponse::TransactionAccepted(transaction(1).txid),
        PeerResponse::TransactionRejected(transaction(1).txid),
    ] {
        over(task.handle_response(addr(1), resp, push()));
    }
    assert_eq!(task.net.get_active_peers().len(), 1);
    let wrong = vec![
        (PeerResponse::NoBlock { block_hash: side(3) }, get_block()),
        (
            PeerResponse::Block { header: header(3, Some(1), 0), body: body(&[]) },
            get_block(),
        ),
        (PeerResponse::TransactionAccepted(transaction(1).txid), get_block()),
        (PeerResponse::NoHeader { block_hash: side(6) }, headers_request(&[], 7, 7)),
        (PeerResponse::NoBlock { block_hash: side(2) }, push()),
    ];
    for (resp, req) in wrong {
        let mut task = NetTask::new(net_with(&[1]));
        over(task.handle_response(addr(1), resp, req));
        assert!(task.net.get_active_peers().is_empty());
    }
}
