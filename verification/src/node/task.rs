//! What the net task keeps between the events that it answers to.

use vstd::prelude::*;

use crate::hash::MainBlockHash;
use crate::net::addr::SocketAddr;
use crate::net::message::{MagicBytes, PeerConnectionMessage, RequestSource};
use crate::net::peers::{sent_to, Connections, Net};
use crate::node::descendants::{filed, law_filing_adds_one_item, DescendantTips, Waiting};
use crate::table::{Key, KeySet, Table};
use crate::types::Tip;

verus! {

/// What the mainchain task can be asked.
#[derive(Clone, Copy, Debug, PartialEq, Eq, Structural)]
pub enum MainchainRequest {
    /// The ancestors of a mainchain block.
    AncestorInfos(MainBlockHash),
}

impl Key for MainchainRequest {
    fn same(&self, other: &Self) -> (same: bool) {
        *self == *other
    }
}

/// A tip that is ready to re-organise to, and the peer that it came from, if it
/// came from one.
#[derive(Clone, Copy, Debug, PartialEq, Eq, Structural)]
pub struct NewTipReady {
    pub tip: Tip,
    pub addr: Option<SocketAddr>,
}

/// What the net task keeps.
#[derive(Debug)]
pub struct NetTask {
    pub net: Net,
    /// The tips that wait for the body of one of their ancestors.
    pub descendant_tips: DescendantTips,
    /// The peers that wait for an answer of the mainchain task.
    pub mainchain_task_request_sources: Table<MainchainRequest, KeySet<RequestSource>>,
    /// The tips that became ready and were not handled yet, the oldest first.
    pub new_tips: Vec<NewTipReady>,
}

#[verifier::ext_equal]
pub struct TaskView {
    pub peers: Connections,
    pub known: Set<SocketAddr>,
    pub magic_bytes: MagicBytes,
    pub waiting: Seq<Waiting>,
    pub sources: Map<MainchainRequest, Set<RequestSource>>,
    pub new_tips: Seq<NewTipReady>,
}

impl TaskView {
    /// The peer is no longer connected.
    pub open spec fn dropped(self, addr: SocketAddr) -> TaskView {
        TaskView { peers: self.peers.remove(addr), ..self }
    }

    /// The message is in the queue of the peer, if there is an open one.
    pub open spec fn told(self, message: PeerConnectionMessage, addr: SocketAddr) -> TaskView {
        if self.peers.dom().contains(addr) && self.peers[addr].open {
            TaskView { peers: sent_to(self.peers, set![addr], message), ..self }
        } else {
            self
        }
    }

    /// The tip waits for a body.
    pub open spec fn filed(self, item: Waiting) -> TaskView {
        TaskView { waiting: filed(self.waiting, item), ..self }
    }

    /// The tip is ready, and came from a peer.
    pub open spec fn ready(self, tip: Tip, addr: SocketAddr) -> TaskView {
        TaskView { new_tips: self.new_tips.push(NewTipReady { tip, addr: Some(addr) }), ..self }
    }

    /// The tip is ready, and came from each of some peers.
    pub open spec fn ready_from(self, tip: Tip, sources: Seq<SocketAddr>) -> TaskView {
        TaskView {
            new_tips: self.new_tips + sources.map_values(
                |source: SocketAddr| NewTipReady { tip, addr: Some(source) },
            ),
            ..self
        }
    }
}

impl NetTask {
    pub open spec fn view(self) -> TaskView {
        TaskView {
            peers: self.net.peers(),
            known: self.net.known(),
            magic_bytes: self.net.magic_bytes,
            waiting: self.descendant_tips@,
            sources: self.mainchain_task_request_sources@.map_values(
                |sources: KeySet<RequestSource>| sources@,
            ),
            new_tips: self.new_tips@,
        }
    }

    /// Nothing waits yet.
    pub fn new(net: Net) -> (task: Self)
        ensures
            task@ == (TaskView {
                peers: net.peers(),
                known: net.known(),
                magic_bytes: net.magic_bytes,
                waiting: Seq::empty(),
                sources: Map::empty(),
                new_tips: Seq::empty(),
            }),
    {
        let task = NetTask {
            net,
            descendant_tips: DescendantTips::new(),
            mainchain_task_request_sources: Table::new(),
            new_tips: Vec::new(),
        };
        assert(task@.sources =~= Map::empty());
        task
    }

    /// Forget the connection to a peer.
    pub fn drop_peer(&mut self, addr: SocketAddr)
        ensures
            final(self)@ == old(self)@.dropped(addr),
    {
        self.net.remove_active_peer(addr);
    }

    /// Put a message into the queue of a peer, if there is an open one.
    pub fn tell(&mut self, message: PeerConnectionMessage, addr: SocketAddr)
        ensures
            final(self)@ == old(self)@.told(message, addr),
    {
        let _pushed = self.net.push_internal_message(message, addr);
    }

    /// Let a tip wait for a body.
    pub fn file(&mut self, item: Waiting)
        ensures
            final(self)@ == old(self)@.filed(item),
    {
        self.descendant_tips.file(item);
    }

    /// Note a tip that is ready, and came from a peer.
    pub fn tip_ready(&mut self, tip: Tip, addr: SocketAddr)
        ensures
            final(self)@ == old(self)@.ready(tip, addr),
    {
        self.new_tips.push(NewTipReady { tip, addr: Some(addr) });
    }

    /// Note a tip that is ready, and came from each of some peers.
    pub fn tip_ready_from(&mut self, tip: Tip, sources: &Vec<SocketAddr>)
        ensures
            final(self)@ == old(self)@.ready_from(tip, sources@),
    {
        let ghost item = |source: SocketAddr| NewTipReady { tip, addr: Some(source) };
        let mut i: usize = 0;
        assert(self.new_tips@ + sources@.take(0).map_values(item) =~= self.new_tips@);
        while i < sources.len()
            invariant
                i <= sources@.len(),
                item == (|source: SocketAddr| NewTipReady { tip, addr: Some(source) }),
                self.new_tips@ == old(self).new_tips@ + sources@.take(i as int).map_values(item),
                self.net == old(self).net,
                self.descendant_tips == old(self).descendant_tips,
                self.mainchain_task_request_sources == old(self).mainchain_task_request_sources,
            decreases sources@.len() - i,
        {
            self.new_tips.push(NewTipReady { tip, addr: Some(sources[i]) });
            assert(self.new_tips@ =~= old(self).new_tips@ + sources@.take(i + 1).map_values(item));
            i += 1;
        }
        assert(sources@.take(sources@.len() as int) =~= sources@);
    }
}

/// A message goes to the end of the queue of one peer, if that peer is connected
/// and its queue is open. Nothing else changes.
pub proof fn law_told_queues_one_message(
    task: TaskView,
    message: PeerConnectionMessage,
    addr: SocketAddr,
    other: SocketAddr,
)
    requires
        task.peers.dom().contains(other),
    ensures
        ({
            let after = task.told(message, addr);
            &&& after.peers.dom() == task.peers.dom()
            &&& after.peers[other].queue == if other == addr && task.peers[addr].open {
                task.peers[addr].queue.push(message)
            } else {
                task.peers[other].queue
            }
            &&& after.peers[other].status == task.peers[other].status
            &&& after.peers[other].open == task.peers[other].open
            &&& after.peers[other].received_msg_successfully
                == task.peers[other].received_msg_successfully
            &&& after.known == task.known && after.magic_bytes == task.magic_bytes
            &&& after.waiting == task.waiting && after.sources == task.sources
            &&& after.new_tips == task.new_tips
        }),
{
    let after = task.told(message, addr);
    assert(after.peers.dom() =~= task.peers.dom());
}

/// Dropping a peer ends the connection to that peer, and changes nothing else.
pub proof fn law_dropped_ends_one_connection(
    task: TaskView,
    addr: SocketAddr,
    other: SocketAddr,
)
    ensures
        ({
            let after = task.dropped(addr);
            &&& after.peers.dom().contains(other) <==> task.peers.dom().contains(other) && other
                != addr
            &&& after.peers.dom().contains(other) ==> after.peers[other] == task.peers[other]
            &&& after.known == task.known && after.magic_bytes == task.magic_bytes
            &&& after.waiting == task.waiting && after.sources == task.sources
            &&& after.new_tips == task.new_tips
        }),
{
}

/// A tip that is ready goes to the end of the list, once for each peer that it came
/// from, and nothing else changes. A tip that waits is among those that wait.
pub proof fn law_tips_are_noted(
    task: TaskView,
    tip: Tip,
    addr: SocketAddr,
    sources: Seq<SocketAddr>,
    item: Waiting,
)
    ensures
        task.ready(tip, addr) == (TaskView {
            new_tips: task.new_tips.push(NewTipReady { tip, addr: Some(addr) }),
            ..task
        }),
        ({
            let after = task.ready_from(tip, sources);
            let old = task.new_tips.len();
            &&& after == (TaskView { new_tips: after.new_tips, ..task })
            &&& after.new_tips.len() == old + sources.len()
            &&& after.new_tips.take(old as int) == task.new_tips
            &&& forall|i: int|
                0 <= i < sources.len() ==> #[trigger] after.new_tips[old + i] == (NewTipReady {
                    tip,
                    addr: Some(sources[i]),
                })
        }),
        ({
            let after = task.filed(item);
            &&& after == (TaskView { waiting: after.waiting, ..task })
            &&& after.waiting.contains(item)
        }),
{
    let after = task.ready_from(tip, sources);
    assert(after.new_tips.take(task.new_tips.len() as int) =~= task.new_tips);
    law_filing_adds_one_item(task.waiting, item, item);
}

/// What the net task shows of itself: its connections and known peers, and what
/// waits.
pub proof fn law_task_view(task: NetTask)
    ensures
        task@.peers == task.net.peers(),
        task@.known == task.net.known(),
        task@.magic_bytes == task.net.magic_bytes,
        task@.waiting == task.descendant_tips@,
        task@.new_tips == task.new_tips@,
        task@.sources.dom() == task.mainchain_task_request_sources@.dom(),
        forall|request: MainchainRequest| #[trigger]
            task@.sources.dom().contains(request) ==> task@.sources[request]
                == task.mainchain_task_request_sources@[request]@,
{
    assert(task@.sources.dom() =~= task.mainchain_task_request_sources@.dom());
}

} // verus!
