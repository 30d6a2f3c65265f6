//! Relaying transactions to peers.

use vstd::prelude::*;

use crate::hash::Txid;
use crate::net::addr::SocketAddr;
use crate::net::message::{PeerConnectionMessage, PeerRequest, PushTransactionRequest};
use crate::net::peers::{
    push_message, receivers, receives, sent_to, ConnectionView, Connections, Net, Peer,
    PeerConnectionStatus,
};
use crate::net;
use crate::node::error::{is_read_error, transaction_read_error, Error, StateError};
use crate::table::KeySet;
use crate::types::AuthorizedTransaction;

verus! {

/// The seconds between two attempts to relay the pending transactions.
pub const TRANSACTION_RETRY_INTERVAL_SECS: u64 = 60;

/// A transaction of the mempool, with what the state says of it.
#[derive(Debug)]
pub struct Pending {
    pub transaction: AuthorizedTransaction,
    pub validation: Result<(), StateError>,
}

/// The pending transactions after each was checked.
#[derive(Debug)]
pub struct Checked {
    /// The transactions to delete from the mempool.
    pub delete: Vec<Txid>,
    /// The transactions to relay.
    pub valid: Vec<AuthorizedTransaction>,
}

/// The valid ones among pending transactions.
pub open spec fn valid_of(pending: Seq<Pending>) -> Seq<AuthorizedTransaction>
    decreases pending.len(),
{
    if pending.len() == 0 {
        Seq::empty()
    } else if pending.last().validation is Ok {
        valid_of(pending.drop_last()).push(pending.last().transaction)
    } else {
        valid_of(pending.drop_last())
    }
}

/// The identifiers of the invalid ones among pending transactions.
pub open spec fn invalid_of(pending: Seq<Pending>) -> Seq<Txid>
    decreases pending.len(),
{
    if pending.len() == 0 {
        Seq::empty()
    } else if pending.last().validation is Err {
        invalid_of(pending.drop_last()).push(pending.last().transaction.txid)
    } else {
        invalid_of(pending.drop_last())
    }
}

/// Whether a pending transaction could not be checked.
pub open spec fn unreadable(pending: Pending) -> bool {
    pending.validation matches Err(error) && is_read_error(error)
}

/// Sort the pending transactions into those to delete and those to relay. A
/// transaction that cannot be checked stops the pass, and nothing is deleted.
pub fn check_pending_transactions(pending: Vec<Pending>) -> (checked: Result<Checked, Error>)
    ensures
        match checked {
            Ok(checked) => {
                &&& forall|i: int| 0 <= i < pending@.len() ==> !unreadable(#[trigger] pending@[i])
                &&& checked.delete@ == invalid_of(pending@)
                &&& checked.valid@ == valid_of(pending@)
                &&& checked.delete@ == pending@.filter(
                    |item: Pending| item.validation is Err,
                ).map_values(|item: Pending| item.transaction.txid)
                &&& checked.valid@ == pending@.filter(
                    |item: Pending| item.validation is Ok,
                ).map_values(|item: Pending| item.transaction)
            },
            Err(err) => exists|i: int|
                {
                    &&& 0 <= i < pending@.len()
                    &&& unreadable(#[trigger] pending@[i])
                    &&& err == Error::State(pending@[i].validation->Err_0)
                    &&& forall|j: int| 0 <= j < i ==> !unreadable(#[trigger] pending@[j])
                },
        },
{
    let mut delete: Vec<Txid> = Vec::new();
    let mut valid: Vec<AuthorizedTransaction> = Vec::new();
    let ghost all = pending@;
    let ghost mut i: int = 0;
    let mut left = pending;
    assert(all.skip(0) =~= all);
    while left.len() > 0
        invariant
            0 <= i <= all.len(),
            left@ == all.skip(i),
            forall|j: int| 0 <= j < i ==> !unreadable(#[trigger] all[j]),
            delete@ == invalid_of(all.take(i)),
            valid@ == valid_of(all.take(i)),
            all == pending@,
        decreases left@.len(),
    {
        let next = left.remove(0);
        proof {
            assert(next == all[i]);
            assert(left@ =~= all.skip(i + 1));
            assert(all.take(i + 1).drop_last() =~= all.take(i));
        }
        match next.validation {
            Ok(()) => {
                valid.push(next.transaction);
            },
            Err(error) => {
                if transaction_read_error(&error) {
                    assert(unreadable(all[i]));
                    return Err(Error::State(error));
                }
                delete.push(next.transaction.txid);
            },
        }
        proof {
            i = i + 1;
        }
    }
    assert(all.take(all.len() as int) =~= all);
    proof {
        law_pending_are_sorted_by_verdict(all);
    }
    Ok(Checked { delete, valid })
}

/// A connection once a message was put into its queue `n` times.
pub open spec fn sent_copies(
    connection: ConnectionView,
    message: PeerConnectionMessage,
    n: nat,
) -> ConnectionView {
    ConnectionView { queue: connection.queue + Seq::new(n, |i: int| message), ..connection }
}

/// The connections once a message was put into the queue of each a number of
/// times.
pub open spec fn with_copies(
    peers: Connections,
    message: PeerConnectionMessage,
    copies: Map<SocketAddr, nat>,
) -> Connections {
    Map::new(
        |addr: SocketAddr| peers.dom().contains(addr),
        |addr: SocketAddr| sent_copies(peers[addr], message, copies[addr]),
    )
}

/// Whether the numbers of copies are those of a relay: every connected peer
/// with an open queue that is not excluded got the message, and no other did.
/// A peer gets it again only after another one turned out to be closed.
pub open spec fn relayed(
    peers: Connections,
    exclude: Set<SocketAddr>,
    copies: Map<SocketAddr, nat>,
) -> bool {
    forall|addr: SocketAddr| #[trigger]
        peers.dom().contains(addr) ==> {
            &&& copies[addr] > 0 <==> receives(peers, exclude, addr) && peers[addr].open
            &&& copies[addr] <= closed_receivers(peers, exclude).len() + 1
        }
}

/// The peers that would get a message if their queues were not closed.
pub open spec fn closed_receivers(peers: Connections, exclude: Set<SocketAddr>) -> Set<
    SocketAddr,
> {
    peers.dom().filter(|addr: SocketAddr| receives(peers, exclude, addr) && !peers[addr].open)
}

/// Send a transaction to every connected peer that is not excluded. A peer
/// whose queue is closed is left out.
pub fn relay_transaction(
    net: &mut Net,
    transaction: &AuthorizedTransaction,
    exclude: &KeySet<SocketAddr>,
) -> (res: Result<(), Error>)
    ensures
        res == Ok::<(), Error>(()),
        final(net).known() == old(net).known(),
        final(net).magic_bytes == old(net).magic_bytes,
        exists|copies: Map<SocketAddr, nat>|
            {
                &&& #[trigger] relayed(old(net).peers(), exclude@, copies)
                &&& final(net).peers() == with_copies(
                    old(net).peers(),
                    push_message(*transaction),
                    copies,
                )
            },
{
    let ghost peers = net.peers();
    let ghost message = push_message(*transaction);
    let ghost mut copies = Map::new(|addr: SocketAddr| true, |addr: SocketAddr| 0nat);
    let mut excluded = exclude.clone();
    let _len = net.active_peers.len();
    proof {
        assert(peers.dom() =~= net.active_peers@.dom());
        assert forall|addr: SocketAddr| peers.dom().contains(addr) implies #[trigger] peers[addr]
            == with_copies(peers, message, copies)[addr] by {
            assert(peers[addr].queue + Seq::new(0nat, |i: int| message) =~= peers[addr].queue);
        }
        assert(peers =~= with_copies(peers, message, copies));
    }
    loop
        invariant
            peers == old(net).peers(),
            message == push_message(*transaction),
            net.known() == old(net).known(),
            net.magic_bytes == old(net).magic_bytes,
            net.peers() == with_copies(peers, message, copies),
            copies.dom() == Set::<SocketAddr>::full(),
            peers.dom().finite(),
            exclude@.subset_of(excluded@),
            forall|addr: SocketAddr| #[trigger]
                excluded@.contains(addr) && !exclude@.contains(addr) ==> receives(
                    peers,
                    exclude@,
                    addr,
                ) && !peers[addr].open,
            forall|addr: SocketAddr| #[trigger]
                copies[addr] > 0 ==> receives(peers, exclude@, addr) && peers[addr].open,
            forall|addr: SocketAddr| #[trigger]
                copies[addr] + closed_receivers(peers, excluded@).len() <= closed_receivers(
                    peers,
                    exclude@,
                ).len(),
            closed_receivers(peers, excluded@).finite(),
        decreases closed_receivers(peers, excluded@).len(),
    {
        let ghost before = net.peers();
        proof {
            assert forall|addr: SocketAddr| #[trigger]
                receivers(before, excluded@).contains(addr) <==> receives(peers, excluded@, addr) by {
            }
        }
        match net.push_tx(&excluded, transaction) {
            Ok(_) => {
                proof {
                    let to = receivers(before, excluded@);
                    let more = copies_after(copies, to);
                    lemma_copies(peers, message, copies, to);
                    assert forall|addr: SocketAddr| #[trigger]
                        peers.dom().contains(addr) implies (more[addr] > 0 <==> receives(
                        peers,
                        exclude@,
                        addr,
                    ) && peers[addr].open) && more[addr] <= closed_receivers(
                        peers,
                        exclude@,
                    ).len() + 1 by {
                        assert(to.contains(addr) <==> receives(peers, excluded@, addr));
                        if to.contains(addr) {
                            assert(before[addr].open);
                        }
                        assert(copies[addr] > 0 ==> receives(peers, exclude@, addr));
                        if excluded@.contains(addr) && !exclude@.contains(addr) {
                            assert(!peers[addr].open);
                        }
                    }
                    assert(relayed(peers, exclude@, more));
                }
                return Ok(());
            },
            Err(net::Error::PushTransaction { addr }) => {
                proof {
                    let reached = choose|reached: Set<SocketAddr>|
                        {
                            &&& #[trigger] reached.contains(addr) == false
                            &&& reached.subset_of(receivers(before, excluded@))
                            &&& forall|a: SocketAddr| #[trigger]
                                reached.contains(a) ==> before[a].open
                            &&& net.peers() == sent_to(before, reached, message)
                        };
                    assert(receivers(before, excluded@).contains(addr));
                    lemma_copies(peers, message, copies, reached);
                    copies = copies_after(copies, reached);
                    let was = closed_receivers(peers, excluded@);
                    let now = closed_receivers(peers, excluded@.insert(addr));
                    assert(now =~= was.remove(addr));
                    assert(was.contains(addr));
                    assert forall|a: SocketAddr| #[trigger] copies[a] > 0 implies receives(
                        peers,
                        exclude@,
                        a,
                    ) && peers[a].open by {
                        if reached.contains(a) {
                            assert(receivers(before, excluded@).contains(a));
                        }
                    }
                }
                excluded.insert(addr);
            },
            Err(error) => {
                return Err(Error::from(error));
            },
        }
    }
}

/// The numbers of copies once those of some addresses went up by one.
spec fn copies_after(copies: Map<SocketAddr, nat>, addrs: Set<SocketAddr>) -> Map<
    SocketAddr,
    nat,
> {
    Map::new(
        |addr: SocketAddr| true,
        |addr: SocketAddr|
            if addrs.contains(addr) {
                copies[addr] + 1
            } else {
                copies[addr]
            },
    )
}

proof fn lemma_copies(
    peers: Connections,
    message: PeerConnectionMessage,
    copies: Map<SocketAddr, nat>,
    addrs: Set<SocketAddr>,
)
    ensures
        sent_to(with_copies(peers, message, copies), addrs, message) == with_copies(
            peers,
            message,
            copies_after(copies, addrs),
        ),
        copies_after(copies, addrs).dom() == Set::<SocketAddr>::full(),
{
    let left = sent_to(with_copies(peers, message, copies), addrs, message);
    let right = with_copies(peers, message, copies_after(copies, addrs));
    assert forall|addr: SocketAddr| peers.dom().contains(addr) implies left[addr]
        == right[addr] by {
        assert(left[addr].queue =~= right[addr].queue);
    }
    assert(left =~= right);
    assert(copies_after(copies, addrs).dom() =~= Set::<SocketAddr>::full());
}

/// Relay the valid pending transactions: to one peer, or to all of them.
pub fn relay_pending_transactions(
    net: &mut Net,
    valid: &Vec<AuthorizedTransaction>,
    peer: Option<SocketAddr>,
) -> (res: Result<(), Error>)
    ensures
        res == Ok::<(), Error>(()),
        final(net).known() == old(net).known(),
        final(net).magic_bytes == old(net).magic_bytes,
        exists|states: Seq<Connections>| #[trigger]
            relays(states, valid@, others(old(net).peers(), peer)) && states[0] == old(net).peers()
                && states.last() == final(net).peers(),
{
    let exclude = excluded_peers(net, peer);
    let ghost mut states = seq![net.peers()];
    let mut i: usize = 0;
    while i < valid.len()
        invariant
            i <= valid@.len(),
            states.len() == i + 1,
            states[0] == old(net).peers(),
            states.last() == net.peers(),
            relays(states, valid@.take(i as int), exclude@),
            net.known() == old(net).known(),
            net.magic_bytes == old(net).magic_bytes,
        decreases valid@.len() - i,
    {
        let ghost before = net.peers();
        relay_transaction(net, &valid[i], &exclude)?;
        proof {
            let copies = choose|copies: Map<SocketAddr, nat>|
                #[trigger] relayed(before, exclude@, copies) && net.peers() == with_copies(
                    before,
                    push_message(valid@[i as int]),
                    copies,
                );
            assert(relayed(before, exclude@, copies));
            let more = states.push(net.peers());
            assert(relayed_once(before, net.peers(), valid@[i as int], exclude@));
            assert forall|k: int| 0 <= k < i + 1 implies #[trigger] relayed_once(
                more[k],
                more[k + 1],
                valid@.take(i + 1)[k],
                exclude@,
            ) by {
                if k < i {
                    assert(relayed_once(
                        states[k],
                        states[k + 1],
                        valid@.take(i as int)[k],
                        exclude@,
                    ));
                }
            }
            states = more;
        }
        i += 1;
    }
    assert(valid@.take(valid@.len() as int) =~= valid@);
    Ok(())
}

/// Whether the connections changed as the relay of one transaction does.
pub open spec fn relayed_once(
    before: Connections,
    after: Connections,
    transaction: AuthorizedTransaction,
    exclude: Set<SocketAddr>,
) -> bool {
    exists|copies: Map<SocketAddr, nat>|
        {
            &&& #[trigger] relayed(before, exclude, copies)
            &&& after == with_copies(before, push_message(transaction), copies)
        }
}

/// Whether the connections changed as the relay of transactions, one after the
/// other, does.
pub open spec fn relays(
    states: Seq<Connections>,
    transactions: Seq<AuthorizedTransaction>,
    exclude: Set<SocketAddr>,
) -> bool {
    &&& states.len() == transactions.len() + 1
    &&& forall|k: int|
        0 <= k < transactions.len() ==> #[trigger] relayed_once(
            states[k],
            states[k + 1],
            transactions[k],
            exclude,
        )
}

/// The peers that pending transactions are not relayed to: all but the given
/// one, or none.
pub open spec fn others(peers: Connections, peer: Option<SocketAddr>) -> Set<SocketAddr> {
    match peer {
        Some(peer) => peers.dom().remove(peer),
        None => Set::empty(),
    }
}

/// A relay leaves the connections of excluded peers as they were, and changes
/// neither the status of any connection nor whether its queue is open.
pub proof fn law_relay_spares_excluded_peers(
    states: Seq<Connections>,
    transactions: Seq<AuthorizedTransaction>,
    exclude: Set<SocketAddr>,
    addr: SocketAddr,
)
    requires
        relays(states, transactions, exclude),
        states[0].dom().contains(addr),
    ensures
        states.last().dom() == states[0].dom(),
        states.last()[addr].status == states[0][addr].status,
        states.last()[addr].open == states[0][addr].open,
        exclude.contains(addr) ==> states.last()[addr] == states[0][addr],
    decreases transactions.len(),
{
    if transactions.len() > 0 {
        let n = transactions.len() - 1;
        let before = states.drop_last();
        assert forall|k: int| 0 <= k < n implies #[trigger] relayed_once(
            before[k],
            before[k + 1],
            transactions.drop_last()[k],
            exclude,
        ) by {
            assert(relayed_once(states[k], states[k + 1], transactions[k], exclude));
        }
        law_relay_spares_excluded_peers(before, transactions.drop_last(), exclude, addr);
        assert(relayed_once(states[n], states[n + 1], transactions[n], exclude));
        let copies = choose|copies: Map<SocketAddr, nat>|
            #[trigger] relayed(states[n], exclude, copies) && states[n + 1] == with_copies(
                states[n],
                push_message(transactions[n]),
                copies,
            );
        assert(states[n].dom().contains(addr));
        assert(states.last().dom() =~= states[n].dom());
        if exclude.contains(addr) {
            assert(copies[addr] == 0);
            assert(states.last()[addr].queue =~= states[n][addr].queue);
        }
    }
}

/// A transaction is sent once to each connected peer that is not excluded, as
/// long as none of their queues is closed.
pub proof fn law_relay_sends_one_copy(
    before: Connections,
    after: Connections,
    transaction: AuthorizedTransaction,
    exclude: Set<SocketAddr>,
    addr: SocketAddr,
)
    requires
        relayed_once(before, after, transaction, exclude),
        forall|other: SocketAddr| #[trigger]
            receives(before, exclude, other) ==> before[other].open,
        receives(before, exclude, addr),
    ensures
        after[addr].queue == before[addr].queue.push(push_message(transaction)),
{
    let copies = choose|copies: Map<SocketAddr, nat>|
        {
            &&& #[trigger] relayed(before, exclude, copies)
            &&& after == with_copies(before, push_message(transaction), copies)
        };
    assert(closed_receivers(before, exclude) =~= Set::<SocketAddr>::empty());
    assert(before.dom().contains(addr));
    assert(copies[addr] == 1);
    assert(after[addr].queue =~= before[addr].queue.push(push_message(transaction)));
}

/// Pending transactions that are relayed to a new peer reach no other peer.
pub proof fn law_replay_targets_the_new_peer(
    states: Seq<Connections>,
    transactions: Seq<AuthorizedTransaction>,
    peer: SocketAddr,
    addr: SocketAddr,
)
    requires
        relays(states, transactions, others(states[0], Some(peer))),
        states[0].dom().contains(addr),
        addr != peer,
    ensures
        states.last()[addr] == states[0][addr],
{
    law_relay_spares_excluded_peers(states, transactions, others(states[0], Some(peer)), addr);
}

/// Every transaction of a relay reaches every connected peer whose queue is
/// open, whatever the queues of other peers do.
pub proof fn law_relay_reaches_open_peers(
    states: Seq<Connections>,
    transactions: Seq<AuthorizedTransaction>,
    exclude: Set<SocketAddr>,
    addr: SocketAddr,
    i: int,
)
    requires
        relays(states, transactions, exclude),
        receives(states[0], exclude, addr),
        states[0][addr].open,
        0 <= i < transactions.len(),
    ensures
        states.last()[addr].queue.contains(push_message(transactions[i])),
    decreases transactions.len(),
{
    let n = transactions.len() - 1;
    let before = states.drop_last();
    let earlier = transactions.drop_last();
    assert forall|k: int| 0 <= k < n implies #[trigger] relayed_once(
        before[k],
        before[k + 1],
        earlier[k],
        exclude,
    ) by {
        assert(relayed_once(states[k], states[k + 1], transactions[k], exclude));
    }
    law_relay_spares_excluded_peers(before, earlier, exclude, addr);
    assert(relayed_once(states[n], states[n + 1], transactions[n], exclude));
    let copies = choose|copies: Map<SocketAddr, nat>|
        #[trigger] relayed(states[n], exclude, copies) && states[n + 1] == with_copies(
            states[n],
            push_message(transactions[n]),
            copies,
        );
    assert(states[n].dom().contains(addr));
    let old_queue = states[n][addr].queue;
    let new_queue = states.last()[addr].queue;
    if i == n {
        assert(copies[addr] > 0);
        assert(new_queue[old_queue.len() as int] == push_message(transactions[n]));
    } else {
        law_relay_reaches_open_peers(before, earlier, exclude, addr, i);
        let k = old_queue.index_of(push_message(transactions[i]));
        assert(new_queue[k] == push_message(transactions[i]));
    }
}

fn excluded_peers(net: &Net, peer: Option<SocketAddr>) -> (exclude: KeySet<SocketAddr>)
    ensures
        exclude@ == others(net.peers(), peer),
{
    let mut exclude = KeySet::new();
    if let Some(peer) = peer {
        let active = net.get_active_peers();
        let mut i: usize = 0;
        while i < active.len()
            invariant
                i <= active@.len(),
                forall|addr: SocketAddr| #[trigger]
                    exclude@.contains(addr) <==> addr != peer && exists|j: int|
                        0 <= j < i && (#[trigger] active@[j]).address == addr,
            decreases active@.len() - i,
        {
            let ghost before = exclude@;
            if active[i].address != peer {
                exclude.insert(active[i].address);
            }
            proof {
                assert forall|addr: SocketAddr| #[trigger]
                    exclude@.contains(addr) <==> addr != peer && exists|j: int|
                        0 <= j < i + 1 && (#[trigger] active@[j]).address == addr by {
                    if before.contains(addr) {
                        let j = choose|j: int| 0 <= j < i && (#[trigger] active@[j]).address == addr;
                        assert(active@[j].address == addr);
                    }
                    assert(active@[i as int].address == active@[i as int].address);
                    if addr != peer && exists|j: int|
                        0 <= j < i + 1 && (#[trigger] active@[j]).address == addr {
                        let j = choose|j: int|
                            0 <= j < i + 1 && (#[trigger] active@[j]).address == addr;
                        if j < i {
                            assert(before.contains(addr));
                        }
                    }
                }
            }
            i += 1;
        }
        proof {
            assert forall|addr: SocketAddr| #[trigger]
                exclude@.contains(addr) <==> net.peers().dom().remove(peer).contains(addr) by {
                if exclude@.contains(addr) {
                    let j = choose|j: int|
                        0 <= j < active@.len() && (#[trigger] active@[j]).address == addr;
                    assert(active@.contains(active@[j]));
                }
                if net.peers().dom().remove(peer).contains(addr) {
                    let entry = Peer { address: addr, status: net.peers()[addr].status };
                    assert(active@.contains(entry));
                    let j = active@.index_of(entry);
                    assert(active@[j].address == addr);
                }
            }
            assert(exclude@ =~= net.peers().dom().remove(peer));
        }
    }
    exclude
}

/// The transactions to relay are the valid ones, and those to delete are all
/// others, both in the order in which they are pending.
pub proof fn law_pending_are_sorted_by_verdict(pending: Seq<Pending>)
    ensures
        valid_of(pending) == pending.filter(|item: Pending| item.validation is Ok).map_values(
            |item: Pending| item.transaction,
        ),
        invalid_of(pending) == pending.filter(|item: Pending| item.validation is Err).map_values(
            |item: Pending| item.transaction.txid,
        ),
        valid_of(pending).len() + invalid_of(pending).len() == pending.len(),
    decreases pending.len(),
{
    reveal(Seq::filter);
    if pending.len() > 0 {
        law_pending_are_sorted_by_verdict(pending.drop_last());
    }
    assert(valid_of(pending) =~= pending.filter(|item: Pending| item.validation is Ok).map_values(
        |item: Pending| item.transaction,
    ));
    assert(invalid_of(pending) =~= pending.filter(
        |item: Pending| item.validation is Err,
    ).map_values(|item: Pending| item.transaction.txid));
}

/// No verdict on a transaction stops the pass over the pending ones: a pending
/// transaction is unreadable exactly if the state could not read or serialize
/// something when it was checked.
pub proof fn law_verdicts_do_not_stop_the_pass(pending: Pending)
    ensures
        unreadable(pending) <==> match pending.validation {
            Ok(()) => false,
            Err(StateError::Db(_)) | Err(StateError::BorshSerialize(_)) => true,
            Err(StateError::Authorization(err)) => err is BorshSerialize,
            Err(StateError::Amm(err)) => err is Db,
            Err(StateError::BitAsset(err)) => err is Db,
            Err(StateError::DutchAuction(err)) => err is Db,
            Err(StateError::ConnectWithdrawalBundleSubmitted(err)) => err is Db,
            Err(StateError::NoTip) | Err(StateError::NotEnoughFees) | Err(
                StateError::Other(_),
            ) => false,
        },
{
}

/// A relay puts nothing but the transaction into queues, and into those of the
/// connected peers with an open queue that are not excluded, and no other.
pub proof fn law_relay_queues_the_transaction(
    before: Connections,
    after: Connections,
    transaction: AuthorizedTransaction,
    exclude: Set<SocketAddr>,
    addr: SocketAddr,
)
    requires
        relayed_once(before, after, transaction, exclude),
        before.dom().contains(addr),
    ensures
        after.dom() == before.dom(),
        after[addr].status == before[addr].status,
        after[addr].open == before[addr].open,
        after[addr].received_msg_successfully == before[addr].received_msg_successfully,
        after[addr].queue.len() > before[addr].queue.len() <==> before[addr].open
            && before[addr].status == PeerConnectionStatus::Connected && !exclude.contains(addr),
        before[addr].queue.is_prefix_of(after[addr].queue),
        forall|i: int|
            before[addr].queue.len() <= i < after[addr].queue.len()
                ==> #[trigger] after[addr].queue[i] == PeerConnectionMessage::Request(
                PeerRequest::PushTransaction(PushTransactionRequest { transaction }),
            ),
{
    let copies = choose|copies: Map<SocketAddr, nat>|
        {
            &&& #[trigger] relayed(before, exclude, copies)
            &&& after == with_copies(before, push_message(transaction), copies)
        };
    assert(after.dom() =~= before.dom());
    assert(before[addr].queue =~= after[addr].queue.take(before[addr].queue.len() as int));
}

/// The pending transactions go to one peer, if one is given, and to all if none
/// is.
pub proof fn law_others_are_all_but_the_peer(
    peers: Connections,
    peer: SocketAddr,
    addr: SocketAddr,
)
    ensures
        others(peers, Some(peer)).contains(addr) <==> peers.dom().contains(addr) && addr != peer,
        !others(peers, None).contains(addr),
{
}

} // verus!
