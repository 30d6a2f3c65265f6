//! Handling what peers answer to requests.
//!
//! As with a re-organisation, each step says what to ask of the database, and
//! the answer leads to the next step. What the net task keeps changes on the
//! way.

use vstd::prelude::*;

use crate::hash::{BlockHash, MainBlockHash};
use crate::net::addr::SocketAddr;
use crate::net::message::{
    GetBlockRequest, GetHeadersRequest, PeerConnectionMessage, PeerRequest, PeerResponse,
    PeerStateId,
};
use crate::node::descendants::{
    filed_all, group_views, groups_for, not_for, Group, GroupView, Waiting,
};
use crate::node::error::{Contradiction, Error};
use crate::node::task::{NetTask, TaskView};
use crate::types::{BmmResult, Body, Header, Tip};

verus! {

/// What handling a response asks of the database.
#[derive(Debug)]
pub enum ResponseAsk {
    /// Store a body, and commit.
    PutBody { block_hash: BlockHash, body: Body },
    /// The height of a block of the archive.
    Height(BlockHash),
    /// The earliest ancestor of a block, from a height on, whose body is
    /// missing.
    EarliestMissingBody { block_hash: BlockHash, from_height: u32 },
    /// The tip of the state, with its best verification.
    StateTip,
    /// What the mainchain says of a block.
    BmmResults(BlockHash),
    /// Whether one mainchain block descends from another.
    IsMainDescendant { ancestor: MainBlockHash, descendant: MainBlockHash },
    /// The last common ancestor of two blocks.
    CommonAncestor { block_hash: BlockHash, other: BlockHash },
    /// The parent of a block of the archive.
    PrevSideHash(BlockHash),
    /// The best verification of a block.
    BestVerification(BlockHash),
    /// The better one of two tips.
    BetterTip { tip: Tip, new_tip: Tip },
    /// Whether a block is marked as invalid.
    Invalidated(BlockHash),
    /// Whether the header of a block is stored.
    Stored(BlockHash),
    /// Store a header.
    PutHeader(Header),
    /// Commit the headers that were stored.
    CommitHeaders,
}

/// What the mainchain says of a block.
#[derive(Clone, Copy, Debug, PartialEq, Eq, Structural)]
pub struct BmmEntry {
    pub main_block_hash: MainBlockHash,
    pub result: BmmResult,
}

/// What the database answers.
#[derive(Debug)]
pub enum ResponseReply {
    /// What was asked for is done.
    Done,
    Height(u32),
    MissingBody(Option<BlockHash>),
    StateTip(Option<Tip>),
    BmmResults(Vec<BmmEntry>),
    Flag(bool),
    CommonAncestor(Option<BlockHash>),
    PrevSideHash(Option<BlockHash>),
    BestVerification(MainBlockHash),
    BetterTip(Option<Tip>),
    /// What was asked for could not be done.
    Failed(Error),
}

/// What headers wait for.
#[derive(Clone, Copy, Debug, PartialEq, Eq, Structural)]
pub enum HeadersPhase {
    /// The height of the block before the first header.
    StartHeight,
    /// Whether the block of a header is marked as invalid.
    Invalidated(usize),
    /// Whether a header is stored.
    Stored(usize),
    /// Whether the parent of a header is stored.
    ParentStored(usize),
    /// A header to be stored.
    PutHeader(usize),
    /// The headers to be committed.
    Commit,
}

/// Headers that a peer sent.
#[derive(Debug)]
pub struct HeadersFlow {
    addr: SocketAddr,
    headers: Vec<Header>,
    height: u32,
    peer_state_id: PeerStateId,
    phase: HeadersPhase,
}

#[verifier::ext_equal]
pub struct HeadersView {
    pub addr: SocketAddr,
    pub headers: Seq<Header>,
    pub height: u32,
    pub peer_state_id: PeerStateId,
    pub phase: HeadersPhase,
}

/// What a block waits for.
#[derive(Clone, Copy, Debug, PartialEq, Eq, Structural)]
pub enum BlockPhase {
    /// The body to be stored.
    Body,
    /// The height of the block above which bodies are wanted.
    AncestorHeight,
    /// The earliest missing body.
    Missing,
    /// The tip of the state.
    StateTip,
    /// What the mainchain says of the block.
    Bmm,
    /// Whether a verification is on the chain of the descendant tip.
    Verify,
    /// The last common ancestor of a descendant tip and the tip.
    GroupAncestor,
    /// The height of that ancestor.
    GroupHeight,
    /// The earliest missing body of a descendant tip.
    GroupMissing,
    /// The parent of that body.
    GroupParent,
    /// The best verification of that parent.
    GroupVerification(BlockHash),
    /// The better one of the tip and the tip that became available.
    GroupBetter(Tip),
}

/// A block that a peer sent.
#[derive(Debug)]
pub struct BlockFlow {
    addr: SocketAddr,
    block_hash: BlockHash,
    prev_side_hash: Option<BlockHash>,
    descendant_tip: Tip,
    ancestor: Option<BlockHash>,
    peer_state_id: PeerStateId,
    tip: Option<Tip>,
    /// The verifications that were not looked at, the next one last.
    verified: Vec<MainBlockHash>,
    /// The descendant tips that were not looked at, the next one first.
    groups: Vec<Group>,
    phase: BlockPhase,
}

#[verifier::ext_equal]
pub struct BlockView {
    pub addr: SocketAddr,
    pub block_hash: BlockHash,
    pub prev_side_hash: Option<BlockHash>,
    pub descendant_tip: Tip,
    pub ancestor: Option<BlockHash>,
    pub peer_state_id: PeerStateId,
    pub tip: Option<Tip>,
    pub verified: Seq<MainBlockHash>,
    pub groups: Seq<GroupView>,
    pub phase: BlockPhase,
}

/// A response that is being handled.
#[derive(Debug)]
pub enum Response {
    Headers(HeadersFlow),
    Block(BlockFlow),
}

pub enum ResponseView {
    Headers(HeadersView),
    Block(BlockView),
}

/// The next step of handling a response.
#[derive(Debug)]
pub enum ResponseStep {
    /// Ask the database, and call [`Response::next`] with the answer.
    Ask(ResponseAsk, Response),
    /// The response is handled.
    Over(Result<(), Error>),
}

pub enum ResponseStepView {
    Ask(ResponseAsk, ResponseView),
    Over(Result<(), Error>),
}

impl Response {
    pub open spec fn view(self) -> ResponseView {
        match self {
            Response::Headers(flow) => ResponseView::Headers(flow@),
            Response::Block(flow) => ResponseView::Block(flow@),
        }
    }
}

impl ResponseStep {
    pub open spec fn view(self) -> ResponseStepView {
        match self {
            ResponseStep::Ask(ask, response) => ResponseStepView::Ask(ask, response@),
            ResponseStep::Over(res) => ResponseStepView::Over(res),
        }
    }
}

/// The response is handled.
pub open spec fn done() -> ResponseStepView {
    ResponseStepView::Over(Ok(()))
}

pub open spec fn contradicts(contradiction: Contradiction) -> ResponseStepView {
    ResponseStepView::Over(Err(Error::Contradiction(contradiction)))
}

/// The response is not one to the request: the peer is dropped.
pub open spec fn refused(task: TaskView, addr: SocketAddr) -> (TaskView, ResponseStepView) {
    (task.dropped(addr), done())
}

/// The height that the last of some headers has.
pub open spec fn end_height(start_height: Option<u32>, headers: nat) -> int {
    match start_height {
        Some(start_height) => start_height + headers,
        None => headers - 1,
    }
}

impl HeadersView {
    pub open spec fn asks(self, task: TaskView, ask: ResponseAsk, phase: HeadersPhase) -> (
        TaskView,
        ResponseStepView,
    ) {
        (
            task,
            ResponseStepView::Ask(ask, ResponseView::Headers(HeadersView { phase, ..self })),
        )
    }

    /// The block before a header, as the headers before it have it.
    pub open spec fn parent(self, i: int) -> Option<BlockHash> {
        if i == 0 {
            self.headers[0].prev_side_hash
        } else {
            Some(self.headers[i - 1].hash)
        }
    }

    /// Check the height of the last header.
    pub open spec fn starts_at(self, task: TaskView, start_height: Option<u32>) -> (
        TaskView,
        ResponseStepView,
    ) {
        if end_height(start_height, self.headers.len()) == self.height {
            self.checks(task, 0)
        } else {
            refused(task, self.addr)
        }
    }

    /// Check that a header follows the one before it.
    pub open spec fn checks(self, task: TaskView, i: int) -> (TaskView, ResponseStepView) {
        if i >= self.headers.len() {
            self.stores(task, 0)
        } else if self.headers[i].prev_side_hash != self.parent(i) {
            refused(task, self.addr)
        } else {
            self.asks(
                task,
                ResponseAsk::Invalidated(self.headers[i].hash),
                HeadersPhase::Invalidated(i as usize),
            )
        }
    }

    /// Store a header, unless it is stored already.
    pub open spec fn stores(self, task: TaskView, i: int) -> (TaskView, ResponseStepView) {
        if i >= self.headers.len() {
            self.commits(task)
        } else {
            self.asks(
                task,
                ResponseAsk::Stored(self.headers[i].hash),
                HeadersPhase::Stored(i as usize),
            )
        }
    }

    pub open spec fn puts(self, task: TaskView, i: int) -> (TaskView, ResponseStepView) {
        self.asks(
            task,
            ResponseAsk::PutHeader(self.headers[i]),
            HeadersPhase::PutHeader(i as usize),
        )
    }

    pub open spec fn commits(self, task: TaskView) -> (TaskView, ResponseStepView) {
        self.asks(task, ResponseAsk::CommitHeaders, HeadersPhase::Commit)
    }

    /// What an answer leads to.
    pub open spec fn next_step(self, task: TaskView, reply: ResponseReply) -> (
        TaskView,
        ResponseStepView,
    ) {
        match (self.phase, reply) {
            (_, ResponseReply::Failed(err)) => (task, ResponseStepView::Over(Err(err))),
            (HeadersPhase::StartHeight, ResponseReply::Height(height)) => self.starts_at(
                task,
                Some(height),
            ),
            (HeadersPhase::Invalidated(i), ResponseReply::Flag(invalidated)) => if invalidated {
                refused(task, self.addr)
            } else {
                self.checks(task, i + 1)
            },
            (HeadersPhase::Stored(i), ResponseReply::Flag(stored)) => if i >= self.headers.len() {
                (task, contradicts(Contradiction::Answer))
            } else if stored {
                self.stores(task, i + 1)
            } else {
                match self.headers[i as int].prev_side_hash {
                    Some(parent) => self.asks(
                        task,
                        ResponseAsk::Stored(parent),
                        HeadersPhase::ParentStored(i),
                    ),
                    None => self.puts(task, i as int),
                }
            },
            (HeadersPhase::ParentStored(i), ResponseReply::Flag(stored)) => if i
                >= self.headers.len() {
                (task, contradicts(Contradiction::Answer))
            } else if stored {
                self.puts(task, i as int)
            } else {
                self.commits(task)
            },
            (HeadersPhase::PutHeader(i), ResponseReply::Done) => self.stores(task, i + 1),
            (HeadersPhase::Commit, ResponseReply::Done) => (
                task.told(PeerConnectionMessage::Headers(self.peer_state_id), self.addr),
                done(),
            ),
            _ => (task, contradicts(Contradiction::Answer)),
        }
    }
}

/// The hashes of verifications, in the opposite order.
pub open spec fn verified_of(results: Seq<BmmEntry>) -> Seq<MainBlockHash>
    decreases results.len(),
{
    if results.len() == 0 {
        Seq::empty()
    } else if results[0].result == BmmResult::Verified {
        verified_of(results.skip(1)).push(results[0].main_block_hash)
    } else {
        verified_of(results.skip(1))
    }
}

impl BlockView {
    pub open spec fn asks(self, task: TaskView, ask: ResponseAsk, phase: BlockPhase) -> (
        TaskView,
        ResponseStepView,
    ) {
        (task, ResponseStepView::Ask(ask, ResponseView::Block(BlockView { phase, ..self })))
    }

    /// Look for missing bodies between the ancestor and the block.
    pub open spec fn seeks(self, task: TaskView, from_height: u32) -> (
        TaskView,
        ResponseStepView,
    ) {
        self.asks(
            task,
            ResponseAsk::EarliestMissingBody { block_hash: self.block_hash, from_height },
            BlockPhase::Missing,
        )
    }

    /// Find the verification that is on the chain of the descendant tip.
    pub open spec fn verifies(self, task: TaskView) -> (TaskView, ResponseStepView) {
        if self.verified.len() == 0 {
            (task, contradicts(Contradiction::NotVerified))
        } else {
            self.asks(
                task,
                ResponseAsk::IsMainDescendant {
                    ancestor: self.verified.last(),
                    descendant: self.descendant_tip.main_block_hash,
                },
                BlockPhase::Verify,
            )
        }
    }

    /// The block is verified: it is ready if it follows the tip, and what waited
    /// for it is looked at.
    pub open spec fn is_verified(self, task: TaskView, main_block_hash: MainBlockHash) -> (
        TaskView,
        ResponseStepView,
    ) {
        let block_tip = Tip { block_hash: self.block_hash, main_block_hash };
        let tip_hash = match self.tip {
            Some(tip) => Some(tip.block_hash),
            None => None,
        };
        let task = if self.prev_side_hash == tip_hash {
            task.ready(block_tip, self.addr)
        } else {
            task
        };
        let groups = groups_for(task.waiting, self.block_hash);
        BlockView { groups, ..self }.regroups(
            TaskView { waiting: not_for(task.waiting, self.block_hash), ..task },
        )
    }

    /// Look at the next descendant tip.
    pub open spec fn regroups(self, task: TaskView) -> (TaskView, ResponseStepView) {
        if self.groups.len() == 0 {
            (task, done())
        } else {
            match self.tip {
                Some(tip) => self.asks(
                    task,
                    ResponseAsk::CommonAncestor {
                        block_hash: self.groups[0].tip.block_hash,
                        other: tip.block_hash,
                    },
                    BlockPhase::GroupAncestor,
                ),
                None => self.seeks_group(task, 0),
            }
        }
    }

    /// Look for missing bodies of the descendant tip.
    pub open spec fn seeks_group(self, task: TaskView, from_height: u32) -> (
        TaskView,
        ResponseStepView,
    ) {
        self.asks(
            task,
            ResponseAsk::EarliestMissingBody {
                block_hash: self.groups[0].tip.block_hash,
                from_height,
            },
            BlockPhase::GroupMissing,
        )
    }

    /// Compare a tip that became available with the tip.
    pub open spec fn offers(self, task: TaskView, next_tip: Tip) -> (TaskView, ResponseStepView) {
        match self.tip {
            Some(tip) => self.asks(
                task,
                ResponseAsk::BetterTip { tip, new_tip: next_tip },
                BlockPhase::GroupBetter(next_tip),
            ),
            None => self.announces(task, next_tip),
        }
    }

    /// The tip is ready, and came from the sources of the descendant tip.
    pub open spec fn announces(self, task: TaskView, next_tip: Tip) -> (
        TaskView,
        ResponseStepView,
    ) {
        self.leaves(task.ready_from(next_tip, self.groups[0].sources))
    }

    /// Go on to the next descendant tip.
    pub open spec fn leaves(self, task: TaskView) -> (TaskView, ResponseStepView) {
        BlockView { groups: self.groups.skip(1), ..self }.regroups(task)
    }

    /// What an answer leads to.
    pub open spec fn next_step(self, task: TaskView, reply: ResponseReply) -> (
        TaskView,
        ResponseStepView,
    ) {
        match (self.phase, reply) {
            (_, ResponseReply::Failed(err)) => (task, ResponseStepView::Over(Err(err))),
            (BlockPhase::Body, ResponseReply::Done) => match self.ancestor {
                Some(ancestor) => self.asks(
                    task,
                    ResponseAsk::Height(ancestor),
                    BlockPhase::AncestorHeight,
                ),
                None => self.seeks(task, 0),
            },
            (BlockPhase::AncestorHeight, ResponseReply::Height(height)) => if height < u32::MAX {
                self.seeks(task, (height + 1) as u32)
            } else {
                (task, contradicts(Contradiction::HeightOverflow))
            },
            (BlockPhase::Missing, ResponseReply::MissingBody(missing)) => {
                let task = match missing {
                    Some(missing) => task.filed(
                        Waiting { missing, tip: self.descendant_tip, source: self.addr },
                    ),
                    None => task.told(
                        PeerConnectionMessage::BodiesAvailable(self.peer_state_id),
                        self.addr,
                    ),
                };
                self.asks(task, ResponseAsk::StateTip, BlockPhase::StateTip)
            },
            (BlockPhase::StateTip, ResponseReply::StateTip(tip)) => BlockView {
                tip,
                ..self
            }.asks(task, ResponseAsk::BmmResults(self.block_hash), BlockPhase::Bmm),
            (BlockPhase::Bmm, ResponseReply::BmmResults(results)) => BlockView {
                verified: verified_of(results@),
                ..self
            }.verifies(task),
            (BlockPhase::Verify, ResponseReply::Flag(on_chain)) => if self.verified.len() == 0 {
                (task, contradicts(Contradiction::NotVerified))
            } else if on_chain {
                self.is_verified(task, self.verified.last())
            } else {
                BlockView { verified: self.verified.drop_last(), ..self }.verifies(task)
            },
            (phase, reply) => if self.groups.len() == 0 {
                (task, contradicts(Contradiction::Answer))
            } else {
                match (phase, reply) {
                    (
                        BlockPhase::GroupAncestor,
                        ResponseReply::CommonAncestor(Some(ancestor)),
                    ) => self.asks(task, ResponseAsk::Height(ancestor), BlockPhase::GroupHeight),
                    (
                        BlockPhase::GroupAncestor,
                        ResponseReply::CommonAncestor(None),
                    ) => self.seeks_group(task, 0),
                    (BlockPhase::GroupHeight, ResponseReply::Height(height)) => if height
                        < u32::MAX {
                        self.seeks_group(task, (height + 1) as u32)
                    } else {
                        (task, contradicts(Contradiction::HeightOverflow))
                    },
                    (
                        BlockPhase::GroupMissing,
                        ResponseReply::MissingBody(Some(missing)),
                    ) => self.asks(
                        TaskView {
                            waiting: filed_all(
                                task.waiting,
                                missing,
                                self.groups[0].tip,
                                self.groups[0].sources,
                            ),
                            ..task
                        },
                        ResponseAsk::PrevSideHash(missing),
                        BlockPhase::GroupParent,
                    ),
                    (
                        BlockPhase::GroupMissing,
                        ResponseReply::MissingBody(None),
                    ) => self.offers(task, self.groups[0].tip),
                    (
                        BlockPhase::GroupParent,
                        ResponseReply::PrevSideHash(Some(block_hash)),
                    ) => self.asks(
                        task,
                        ResponseAsk::BestVerification(block_hash),
                        BlockPhase::GroupVerification(block_hash),
                    ),
                    (
                        BlockPhase::GroupParent,
                        ResponseReply::PrevSideHash(None),
                    ) => self.leaves(task),
                    (
                        BlockPhase::GroupVerification(block_hash),
                        ResponseReply::BestVerification(main_block_hash),
                    ) => self.offers(task, Tip { block_hash, main_block_hash }),
                    (
                        BlockPhase::GroupBetter(next_tip),
                        ResponseReply::BetterTip(better),
                    ) => if better == Some(next_tip) {
                        self.announces(task, next_tip)
                    } else {
                        self.leaves(task)
                    },
                    _ => (task, contradicts(Contradiction::Answer)),
                }
            },
        }
    }
}

impl ResponseView {
    /// What an answer leads to.
    pub open spec fn next_step(self, task: TaskView, reply: ResponseReply) -> (
        TaskView,
        ResponseStepView,
    ) {
        match self {
            ResponseView::Headers(flow) => flow.next_step(task, reply),
            ResponseView::Block(flow) => flow.next_step(task, reply),
        }
    }
}

/// What a response leads to.
pub open spec fn handled(
    task: TaskView,
    addr: SocketAddr,
    resp: PeerResponse,
    req: PeerRequest,
) -> (TaskView, ResponseStepView) {
    match (req, resp) {
        (
            PeerRequest::GetBlock(
                GetBlockRequest {
                    block_hash,
                    descendant_tip: Some(descendant_tip),
                    ancestor,
                    peer_state_id: Some(peer_state_id),
                },
            ),
            PeerResponse::Block { header, body },
        ) => if header.hash != block_hash {
            refused(task, addr)
        } else {
            BlockView {
                addr,
                block_hash,
                prev_side_hash: header.prev_side_hash,
                descendant_tip,
                ancestor,
                peer_state_id,
                tip: None,
                verified: Seq::empty(),
                groups: Seq::empty(),
                phase: BlockPhase::Body,
            }.asks(task, ResponseAsk::PutBody { block_hash, body }, BlockPhase::Body)
        },
        (
            PeerRequest::GetBlock(
                GetBlockRequest {
                    block_hash: wanted,
                    descendant_tip: Some(_),
                    peer_state_id: Some(_),
                    ..
                },
            ),
            PeerResponse::NoBlock { block_hash },
        ) if wanted == block_hash => (task, done()),
        (
            PeerRequest::GetHeaders(
                GetHeadersRequest {
                    start,
                    end,
                    height: Some(height),
                    peer_state_id: Some(peer_state_id),
                },
            ),
            PeerResponse::Headers(headers),
        ) => if headers@.len() == 0 || headers@.last().hash != end {
            refused(task, addr)
        } else {
            let flow = HeadersView {
                addr,
                headers: headers@,
                height,
                peer_state_id,
                phase: HeadersPhase::StartHeight,
            };
            match headers@[0].prev_side_hash {
                Some(start_hash) => if start@.contains(start_hash) {
                    flow.asks(task, ResponseAsk::Height(start_hash), HeadersPhase::StartHeight)
                } else {
                    refused(task, addr)
                },
                None => flow.starts_at(task, None),
            }
        },
        (
            PeerRequest::GetHeaders(GetHeadersRequest { end, .. }),
            PeerResponse::NoHeader { block_hash },
        ) if end == block_hash => (task, done()),
        (PeerRequest::PushTransaction(_), PeerResponse::TransactionAccepted(_)) => (task, done()),
        (PeerRequest::PushTransaction(_), PeerResponse::TransactionRejected(_)) => (task, done()),
        _ => refused(task, addr),
    }
}

fn contradicted(contradiction: Contradiction) -> (step: ResponseStep)
    ensures
        step@ == contradicts(contradiction),
{
    ResponseStep::Over(Err(Error::Contradiction(contradiction)))
}

fn refuse(task: &mut NetTask, addr: SocketAddr) -> (step: ResponseStep)
    ensures
        (final(task)@, step@) == refused(old(task)@, addr),
{
    task.drop_peer(addr);
    ResponseStep::Over(Ok(()))
}

impl HeadersFlow {
    pub closed spec fn view(self) -> HeadersView {
        HeadersView {
            addr: self.addr,
            headers: self.headers@,
            height: self.height,
            peer_state_id: self.peer_state_id,
            phase: self.phase,
        }
    }

    fn asks(self, ask: ResponseAsk, phase: HeadersPhase) -> (step: ResponseStep)
        ensures
            forall|task: TaskView| (task, step@) == #[trigger] self@.asks(task, ask, phase),
    {
        ResponseStep::Ask(ask, Response::Headers(HeadersFlow { phase, ..self }))
    }

    fn starts_at(self, task: &mut NetTask, start_height: Option<u32>) -> (step: ResponseStep)
        requires
            start_height is None ==> self@.headers.len() > 0,
        ensures
            (final(task)@, step@) == self@.starts_at(old(task)@, start_height),
    {
        let len: usize = self.headers.len();
        let end: u128 = match start_height {
            Some(start_height) => start_height as u128 + len as u128,
            None => len as u128 - 1,
        };
        if end == self.height as u128 {
            self.checks(task, 0)
        } else {
            refuse(task, self.addr)
        }
    }

    fn checks(self, task: &mut NetTask, i: usize) -> (step: ResponseStep)
        ensures
            (final(task)@, step@) == self@.checks(old(task)@, i as int),
    {
        if i >= self.headers.len() {
            return self.stores(0);
        }
        let parent = if i == 0 {
            self.headers[0].prev_side_hash
        } else {
            Some(self.headers[i - 1].hash)
        };
        if self.headers[i].prev_side_hash != parent {
            return refuse(task, self.addr);
        }
        let hash = self.headers[i].hash;
        self.asks(ResponseAsk::Invalidated(hash), HeadersPhase::Invalidated(i))
    }

    fn stores(self, i: usize) -> (step: ResponseStep)
        ensures
            forall|task: TaskView| (task, step@) == #[trigger] self@.stores(task, i as int),
    {
        if i >= self.headers.len() {
            return self.asks(ResponseAsk::CommitHeaders, HeadersPhase::Commit);
        }
        let hash = self.headers[i].hash;
        self.asks(ResponseAsk::Stored(hash), HeadersPhase::Stored(i))
    }

    fn puts(self, i: usize) -> (step: ResponseStep)
        requires
            i < self@.headers.len(),
        ensures
            forall|task: TaskView| (task, step@) == #[trigger] self@.puts(task, i as int),
    {
        let header = self.headers[i];
        self.asks(ResponseAsk::PutHeader(header), HeadersPhase::PutHeader(i))
    }

    fn next(self, task: &mut NetTask, reply: ResponseReply) -> (step: ResponseStep)
        ensures
            (final(task)@, step@) == self@.next_step(old(task)@, reply),
    {
        match (self.phase, reply) {
            (_, ResponseReply::Failed(err)) => ResponseStep::Over(Err(err)),
            (HeadersPhase::StartHeight, ResponseReply::Height(height)) => {
                self.starts_at(task, Some(height))
            },
            (HeadersPhase::Invalidated(i), ResponseReply::Flag(invalidated)) => {
                if invalidated {
                    refuse(task, self.addr)
                } else if i >= self.headers.len() {
                    self.stores(0)
                } else {
                    self.checks(task, i + 1)
                }
            },
            (HeadersPhase::Stored(i), ResponseReply::Flag(stored)) => {
                if i >= self.headers.len() {
                    return contradicted(Contradiction::Answer);
                }
                if stored {
                    return self.stores(i + 1);
                }
                match self.headers[i].prev_side_hash {
                    Some(parent) => self.asks(
                        ResponseAsk::Stored(parent),
                        HeadersPhase::ParentStored(i),
                    ),
                    None => self.puts(i),
                }
            },
            (HeadersPhase::ParentStored(i), ResponseReply::Flag(stored)) => {
                if i >= self.headers.len() {
                    contradicted(Contradiction::Answer)
                } else if stored {
                    self.puts(i)
                } else {
                    self.asks(ResponseAsk::CommitHeaders, HeadersPhase::Commit)
                }
            },
            (HeadersPhase::PutHeader(i), ResponseReply::Done) => {
                if i >= self.headers.len() {
                    self.asks(ResponseAsk::CommitHeaders, HeadersPhase::Commit)
                } else {
                    self.stores(i + 1)
                }
            },
            (HeadersPhase::Commit, ResponseReply::Done) => {
                task.tell(PeerConnectionMessage::Headers(self.peer_state_id), self.addr);
                ResponseStep::Over(Ok(()))
            },
            _ => contradicted(Contradiction::Answer),
        }
    }
}

impl BlockFlow {
    pub closed spec fn view(self) -> BlockView {
        BlockView {
            addr: self.addr,
            block_hash: self.block_hash,
            prev_side_hash: self.prev_side_hash,
            descendant_tip: self.descendant_tip,
            ancestor: self.ancestor,
            peer_state_id: self.peer_state_id,
            tip: self.tip,
            verified: self.verified@,
            groups: group_views(self.groups@),
            phase: self.phase,
        }
    }

    fn asks(self, ask: ResponseAsk, phase: BlockPhase) -> (step: ResponseStep)
        ensures
            forall|task: TaskView| (task, step@) == #[trigger] self@.asks(task, ask, phase),
    {
        ResponseStep::Ask(ask, Response::Block(BlockFlow { phase, ..self }))
    }

    fn seeks(self, from_height: u32) -> (step: ResponseStep)
        ensures
            forall|task: TaskView| (task, step@) == #[trigger] self@.seeks(task, from_height),
    {
        let block_hash = self.block_hash;
        self.asks(
            ResponseAsk::EarliestMissingBody { block_hash, from_height },
            BlockPhase::Missing,
        )
    }

    fn verifies(self) -> (step: ResponseStep)
        ensures
            forall|task: TaskView| (task, step@) == #[trigger] self@.verifies(task),
    {
        if self.verified.len() == 0 {
            return contradicted(Contradiction::NotVerified);
        }
        let ancestor = self.verified[self.verified.len() - 1];
        let descendant = self.descendant_tip.main_block_hash;
        self.asks(ResponseAsk::IsMainDescendant { ancestor, descendant }, BlockPhase::Verify)
    }

    fn is_verified(self, task: &mut NetTask, main_block_hash: MainBlockHash) -> (step:
        ResponseStep)
        ensures
            (final(task)@, step@) == self@.is_verified(old(task)@, main_block_hash),
    {
        let block_tip = Tip { block_hash: self.block_hash, main_block_hash };
        let tip_hash = match self.tip {
            Some(tip) => Some(tip.block_hash),
            None => None,
        };
        if self.prev_side_hash == tip_hash {
            task.tip_ready(block_tip, self.addr);
        }
        let groups = task.descendant_tips.take(self.block_hash);
        BlockFlow { groups, ..self }.regroups()
    }

    fn regroups(self) -> (step: ResponseStep)
        ensures
            forall|task: TaskView| (task, step@) == #[trigger] self@.regroups(task),
    {
        if self.groups.len() == 0 {
            return ResponseStep::Over(Ok(()));
        }
        match self.tip {
            Some(tip) => {
                let block_hash = self.groups[0].tip.block_hash;
                self.asks(
                    ResponseAsk::CommonAncestor { block_hash, other: tip.block_hash },
                    BlockPhase::GroupAncestor,
                )
            },
            None => self.seeks_group(0),
        }
    }

    fn seeks_group(self, from_height: u32) -> (step: ResponseStep)
        requires
            self@.groups.len() > 0,
        ensures
            forall|task: TaskView| (task, step@) == #[trigger] self@.seeks_group(task, from_height),
    {
        let block_hash = self.groups[0].tip.block_hash;
        self.asks(
            ResponseAsk::EarliestMissingBody { block_hash, from_height },
            BlockPhase::GroupMissing,
        )
    }

    fn offers(self, task: &mut NetTask, next_tip: Tip) -> (step: ResponseStep)
        requires
            self@.groups.len() > 0,
        ensures
            (final(task)@, step@) == self@.offers(old(task)@, next_tip),
    {
        match self.tip {
            Some(tip) => self.asks(
                ResponseAsk::BetterTip { tip, new_tip: next_tip },
                BlockPhase::GroupBetter(next_tip),
            ),
            None => self.announces(task, next_tip),
        }
    }

    fn announces(self, task: &mut NetTask, next_tip: Tip) -> (step: ResponseStep)
        requires
            self@.groups.len() > 0,
        ensures
            (final(task)@, step@) == self@.announces(old(task)@, next_tip),
    {
        task.tip_ready_from(next_tip, &self.groups[0].sources);
        self.leaves()
    }

    fn leaves(self) -> (step: ResponseStep)
        requires
            self@.groups.len() > 0,
        ensures
            forall|task: TaskView| (task, step@) == #[trigger] self@.leaves(task),
    {
        let mut flow = self;
        let _group = flow.groups.remove(0);
        assert(group_views(flow.groups@) =~= self@.groups.skip(1));
        flow.regroups()
    }

    fn next_group(self, task: &mut NetTask, reply: ResponseReply) -> (step: ResponseStep)
        requires
            self@.groups.len() > 0,
            !(reply is Failed),
            self@.phase is GroupAncestor || self@.phase is GroupHeight || self@.phase
                is GroupMissing || self@.phase is GroupParent || self@.phase is GroupVerification
                || self@.phase is GroupBetter,
        ensures
            (final(task)@, step@) == self@.next_step(old(task)@, reply),
    {
        match (self.phase, reply) {
            (BlockPhase::GroupAncestor, ResponseReply::CommonAncestor(ancestor)) => match ancestor {
                Some(ancestor) => self.asks(
                    ResponseAsk::Height(ancestor),
                    BlockPhase::GroupHeight,
                ),
                None => self.seeks_group(0),
            },
            (BlockPhase::GroupHeight, ResponseReply::Height(height)) => {
                if height < u32::MAX {
                    self.seeks_group(height + 1)
                } else {
                    contradicted(Contradiction::HeightOverflow)
                }
            },
            (BlockPhase::GroupMissing, ResponseReply::MissingBody(missing)) => match missing {
                Some(missing) => {
                    task.descendant_tips.file_all(
                        missing,
                        self.groups[0].tip,
                        &self.groups[0].sources,
                    );
                    self.asks(ResponseAsk::PrevSideHash(missing), BlockPhase::GroupParent)
                },
                None => {
                    let next_tip = self.groups[0].tip;
                    self.offers(task, next_tip)
                },
            },
            (BlockPhase::GroupParent, ResponseReply::PrevSideHash(parent)) => match parent {
                Some(block_hash) => self.asks(
                    ResponseAsk::BestVerification(block_hash),
                    BlockPhase::GroupVerification(block_hash),
                ),
                None => self.leaves(),
            },
            (
                BlockPhase::GroupVerification(block_hash),
                ResponseReply::BestVerification(main_block_hash),
            ) => self.offers(task, Tip { block_hash, main_block_hash }),
            (BlockPhase::GroupBetter(next_tip), ResponseReply::BetterTip(better)) => {
                if better == Some(next_tip) {
                    self.announces(task, next_tip)
                } else {
                    self.leaves()
                }
            },
            _ => contradicted(Contradiction::Answer),
        }
    }

    fn next(self, task: &mut NetTask, reply: ResponseReply) -> (step: ResponseStep)
        ensures
            (final(task)@, step@) == self@.next_step(old(task)@, reply),
    {
        match (self.phase, reply) {
            (_, ResponseReply::Failed(err)) => ResponseStep::Over(Err(err)),
            (BlockPhase::Body, ResponseReply::Done) => match self.ancestor {
                Some(ancestor) => self.asks(
                    ResponseAsk::Height(ancestor),
                    BlockPhase::AncestorHeight,
                ),
                None => self.seeks(0),
            },
            (BlockPhase::AncestorHeight, ResponseReply::Height(height)) => {
                if height < u32::MAX {
                    self.seeks(height + 1)
                } else {
                    contradicted(Contradiction::HeightOverflow)
                }
            },
            (BlockPhase::Missing, ResponseReply::MissingBody(missing)) => {
                match missing {
                    Some(missing) => {
                        task.file(
                            Waiting { missing, tip: self.descendant_tip, source: self.addr },
                        );
                    },
                    None => {
                        task.tell(
                            PeerConnectionMessage::BodiesAvailable(self.peer_state_id),
                            self.addr,
                        );
                    },
                }
                self.asks(ResponseAsk::StateTip, BlockPhase::StateTip)
            },
            (BlockPhase::StateTip, ResponseReply::StateTip(tip)) => {
                let block_hash = self.block_hash;
                BlockFlow { tip, ..self }.asks(
                    ResponseAsk::BmmResults(block_hash),
                    BlockPhase::Bmm,
                )
            },
            (BlockPhase::Bmm, ResponseReply::BmmResults(results)) => {
                let verified = verified(&results);
                BlockFlow { verified, ..self }.verifies()
            },
            (BlockPhase::Verify, ResponseReply::Flag(on_chain)) => {
                let mut flow = self;
                match flow.verified.pop() {
                    None => contradicted(Contradiction::NotVerified),
                    Some(main_block_hash) => {
                        if on_chain {
                            flow.verified.push(main_block_hash);
                            assert(flow@ =~= self@);
                            flow.is_verified(task, main_block_hash)
                        } else {
                            flow.verifies()
                        }
                    },
                }
            },
            (
                BlockPhase::GroupAncestor
                | BlockPhase::GroupHeight
                | BlockPhase::GroupMissing
                | BlockPhase::GroupParent
                | BlockPhase::GroupVerification(_)
                | BlockPhase::GroupBetter(_),
                reply,
            ) => {
                if self.groups.len() == 0 {
                    contradicted(Contradiction::Answer)
                } else {
                    self.next_group(task, reply)
                }
            },
            _ => contradicted(Contradiction::Answer),
        }
    }
}

fn verified(results: &Vec<BmmEntry>) -> (verified: Vec<MainBlockHash>)
    ensures
        verified@ == verified_of(results@),
{
    let mut verified: Vec<MainBlockHash> = Vec::new();
    let mut i: usize = results.len();
    while i > 0
        invariant
            i <= results@.len(),
            verified@ == verified_of(results@.skip(i as int)),
        decreases i,
    {
        i -= 1;
        proof {
            assert(results@.skip(i as int).skip(1) =~= results@.skip(i + 1));
        }
        if results[i].result == BmmResult::Verified {
            verified.push(results[i].main_block_hash);
        }
    }
    assert(results@.skip(0) =~= results@);
    verified
}

impl Response {
    /// The step that an answer leads to.
    pub fn next(self, task: &mut NetTask, reply: ResponseReply) -> (step: ResponseStep)
        ensures
            (final(task)@, step@) == self@.next_step(old(task)@, reply),
    {
        match self {
            Response::Headers(flow) => flow.next(task, reply),
            Response::Block(flow) => flow.next(task, reply),
        }
    }
}

impl NetTask {
    /// Handle what a peer answered to a request.
    pub fn handle_response(&mut self, addr: SocketAddr, resp: PeerResponse, req: PeerRequest) -> (
    step: ResponseStep)
        ensures
            (final(self)@, step@) == handled(old(self)@, addr, resp, req),
    {
        match (req, resp) {
            (
                PeerRequest::GetBlock(
                    GetBlockRequest {
                        block_hash,
                        descendant_tip: Some(descendant_tip),
                        ancestor,
                        peer_state_id: Some(peer_state_id),
                    },
                ),
                PeerResponse::Block { header, body },
            ) => {
                if header.hash != block_hash {
                    return refuse(self, addr);
                }
                let flow = BlockFlow {
                    addr,
                    block_hash,
                    prev_side_hash: header.prev_side_hash,
                    descendant_tip,
                    ancestor,
                    peer_state_id,
                    tip: None,
                    verified: Vec::new(),
                    groups: Vec::new(),
                    phase: BlockPhase::Body,
                };
                assert(flow@.groups =~= Seq::<GroupView>::empty());
                flow.asks(ResponseAsk::PutBody { block_hash, body }, BlockPhase::Body)
            },
            (
                PeerRequest::GetBlock(
                    GetBlockRequest {
                        block_hash: wanted,
                        descendant_tip: Some(_),
                        peer_state_id: Some(_),
                        ancestor: _,
                    },
                ),
                PeerResponse::NoBlock { block_hash },
            ) => {
                if wanted == block_hash {
                    ResponseStep::Over(Ok(()))
                } else {
                    refuse(self, addr)
                }
            },
            (
                PeerRequest::GetHeaders(
                    GetHeadersRequest {
                        start,
                        end,
                        height: Some(height),
                        peer_state_id: Some(peer_state_id),
                    },
                ),
                PeerResponse::Headers(headers),
            ) => {
                if headers.len() == 0 || headers[headers.len() - 1].hash != end {
                    return refuse(self, addr);
                }
                let start_hash = headers[0].prev_side_hash;
                let flow = HeadersFlow {
                    addr,
                    headers,
                    height,
                    peer_state_id,
                    phase: HeadersPhase::StartHeight,
                };
                match start_hash {
                    Some(start_hash) => {
                        if start.contains(&start_hash) {
                            flow.asks(ResponseAsk::Height(start_hash), HeadersPhase::StartHeight)
                        } else {
                            refuse(self, addr)
                        }
                    },
                    None => flow.starts_at(self, None),
                }
            },
            (PeerRequest::GetHeaders(request), PeerResponse::NoHeader { block_hash }) => {
                if request.end == block_hash {
                    ResponseStep::Over(Ok(()))
                } else {
                    refuse(self, addr)
                }
            },
            (PeerRequest::PushTransaction(_), PeerResponse::TransactionAccepted(_)) => {
                ResponseStep::Over(Ok(()))
            },
            (PeerRequest::PushTransaction(_), PeerResponse::TransactionRejected(_)) => {
                ResponseStep::Over(Ok(()))
            },
            _ => refuse(self, addr),
        }
    }
}

/// What a step shows of itself.
pub proof fn law_response_views(step: ResponseStep)
    ensures
        match step {
            ResponseStep::Ask(ask, Response::Headers(flow)) => step@ == ResponseStepView::Ask(
                ask,
                ResponseView::Headers(flow@),
            ),
            ResponseStep::Ask(ask, Response::Block(flow)) => step@ == ResponseStepView::Ask(
                ask,
                ResponseView::Block(flow@),
            ),
            ResponseStep::Over(res) => step@ == ResponseStepView::Over(res),
        },
{
}

} // verus!
