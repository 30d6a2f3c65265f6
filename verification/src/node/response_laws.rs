//! What handling a response comes to, whatever the database holds.

use vstd::prelude::*;

use crate::hash::{BlockHash, MainBlockHash};
use crate::net::addr::SocketAddr;
use crate::net::message::{
    GetBlockRequest, GetHeadersRequest, PeerConnectionMessage, PeerRequest, PeerResponse,
};
use crate::node::error::{Contradiction, Error};
use crate::node::descendants::{
    filed_all, groups_for, law_filing_adds_each_peer, law_filing_adds_one_item,
    law_nothing_waiting_is_lost, not_for, sends, GroupView, Waiting,
};
use crate::node::response::{
    done, end_height, handled, refused, verified_of, BlockPhase, BlockView, BmmEntry,
    HeadersPhase, HeadersView, ResponseAsk, ResponseReply, ResponseStepView, ResponseView,
};
use crate::node::task::{NewTipReady, TaskView};
use crate::types::{BmmResult, Body, Header, Tip};

verus! {

/// What the archive and the state hold.
pub struct Archive {
    pub height: spec_fn(BlockHash) -> u32,
    /// The earliest ancestor of a block, from a height on, whose body is
    /// missing.
    pub missing: spec_fn(BlockHash, u32) -> Option<BlockHash>,
    pub tip: Option<Tip>,
    pub bmm_results: spec_fn(BlockHash) -> Vec<BmmEntry>,
    /// Whether the second mainchain block descends from the first.
    pub main_descendant: spec_fn(MainBlockHash, MainBlockHash) -> bool,
    pub common_ancestor: spec_fn(BlockHash, BlockHash) -> Option<BlockHash>,
    pub parent: spec_fn(BlockHash) -> Option<BlockHash>,
    pub verification: spec_fn(BlockHash) -> MainBlockHash,
    pub better: spec_fn(Tip, Tip) -> Option<Tip>,
    pub invalidated: spec_fn(BlockHash) -> bool,
}

/// What was stored on the way.
#[verifier::ext_equal]
pub struct Records {
    pub headers: Map<BlockHash, Header>,
    /// The headers that would be found after a crash.
    pub committed: Map<BlockHash, Header>,
    pub bodies: Map<BlockHash, Body>,
}

impl Archive {
    /// What the database answers, and what is stored afterwards.
    pub open spec fn answer(self, stored: Records, ask: ResponseAsk) -> (Records, ResponseReply) {
        match ask {
            ResponseAsk::PutBody { block_hash, body } => (
                Records { bodies: stored.bodies.insert(block_hash, body), ..stored },
                ResponseReply::Done,
            ),
            ResponseAsk::Height(block_hash) => (
                stored,
                ResponseReply::Height((self.height)(block_hash)),
            ),
            ResponseAsk::EarliestMissingBody { block_hash, from_height } => (
                stored,
                ResponseReply::MissingBody((self.missing)(block_hash, from_height)),
            ),
            ResponseAsk::StateTip => (stored, ResponseReply::StateTip(self.tip)),
            ResponseAsk::BmmResults(block_hash) => (
                stored,
                ResponseReply::BmmResults((self.bmm_results)(block_hash)),
            ),
            ResponseAsk::IsMainDescendant { ancestor, descendant } => (
                stored,
                ResponseReply::Flag((self.main_descendant)(ancestor, descendant)),
            ),
            ResponseAsk::CommonAncestor { block_hash, other } => (
                stored,
                ResponseReply::CommonAncestor((self.common_ancestor)(block_hash, other)),
            ),
            ResponseAsk::PrevSideHash(block_hash) => (
                stored,
                ResponseReply::PrevSideHash((self.parent)(block_hash)),
            ),
            ResponseAsk::BestVerification(block_hash) => (
                stored,
                ResponseReply::BestVerification((self.verification)(block_hash)),
            ),
            ResponseAsk::BetterTip { tip, new_tip } => (
                stored,
                ResponseReply::BetterTip((self.better)(tip, new_tip)),
            ),
            ResponseAsk::Invalidated(block_hash) => (
                stored,
                ResponseReply::Flag((self.invalidated)(block_hash)),
            ),
            ResponseAsk::Stored(block_hash) => (
                stored,
                ResponseReply::Flag(stored.headers.dom().contains(block_hash)),
            ),
            ResponseAsk::PutHeader(header) => (
                Records { headers: stored.headers.insert(header.hash, header), ..stored },
                ResponseReply::Done,
            ),
            ResponseAsk::CommitHeaders => (
                Records { committed: stored.headers, ..stored },
                ResponseReply::Done,
            ),
        }
    }

    /// What became of the stored headers and of the net task after at most `n`
    /// questions were answered.
    pub open spec fn run(
        self,
        stored: Records,
        at: (TaskView, ResponseStepView),
        n: nat,
    ) -> (Records, (TaskView, ResponseStepView))
        decreases n,
    {
        match at.1 {
            ResponseStepView::Ask(ask, response) if n > 0 => {
                let (after, reply) = self.answer(stored, ask);
                self.run(after, response.next_step(at.0, reply), (n - 1) as nat)
            },
            _ => (stored, at),
        }
    }

    /// Whether handling a response ends, and how.
    pub open spec fn ends(
        self,
        stored: Records,
        at: (TaskView, ResponseStepView),
        stored_after: Records,
        task_after: TaskView,
    ) -> bool {
        exists|n: nat|
            (#[trigger] self.run(stored, at, n)) == (stored_after, (task_after, done()))
    }

    proof fn lemma_step(
        self,
        stored: Records,
        at: (TaskView, ResponseStepView),
        stored_after: Records,
        task_after: TaskView,
    )
        requires
            at.1 is Ask,
            ({
                let (next_stored, reply) = self.answer(stored, at.1->Ask_0);
                self.ends(
                    next_stored,
                    at.1->Ask_1.next_step(at.0, reply),
                    stored_after,
                    task_after,
                )
            }),
        ensures
            self.ends(stored, at, stored_after, task_after),
    {
        let (next_stored, reply) = self.answer(stored, at.1->Ask_0);
        let next = at.1->Ask_1.next_step(at.0, reply);
        let n = choose|n: nat|
            (#[trigger] self.run(next_stored, next, n)) == (stored_after, (task_after, done()));
        assert(self.run(stored, at, n + 1) == self.run(next_stored, next, n));
    }

    proof fn lemma_ended(self, stored: Records, task: TaskView)
        ensures
            self.ends(stored, (task, done()), stored, task),
    {
        assert(self.run(stored, (task, done()), 0) == (stored, (task, done())));
    }
}

/// Whether headers are a chain of valid blocks with the expected height.
pub open spec fn acceptable(archive: Archive, flow: HeadersView) -> bool {
    let start_height = match flow.headers[0].prev_side_hash {
        Some(start_hash) => Some((archive.height)(start_hash)),
        None => None,
    };
    &&& end_height(start_height, flow.headers.len()) == flow.height
    &&& forall|i: int|
        0 <= i < flow.headers.len() ==> #[trigger] follows(archive, flow, i)
}

/// Whether a header follows the one before it, and is not marked as invalid.
pub open spec fn follows(archive: Archive, flow: HeadersView, i: int) -> bool {
    &&& flow.headers[i].prev_side_hash == flow.parent(i)
    &&& !(archive.invalidated)(flow.headers[i].hash)
}

/// The headers that are stored once the first `i` of some headers were, unless they
/// were before.
pub open spec fn put_headers(
    held: Map<BlockHash, Header>,
    headers: Seq<Header>,
    i: int,
) -> Map<BlockHash, Header>
    decreases i,
{
    if i <= 0 {
        held
    } else {
        let before = put_headers(held, headers, i - 1);
        if before.dom().contains(headers[i - 1].hash) {
            before
        } else {
            before.insert(headers[i - 1].hash, headers[i - 1])
        }
    }
}

/// Whether headers have a place: the first one is stored, or its parent is, or it
/// has none.
pub open spec fn rooted(stored: Records, headers: Seq<Header>) -> bool {
    stored.headers.dom().contains(headers[0].hash) || (
    headers[0].prev_side_hash matches Some(parent) ==> stored.headers.dom().contains(parent))
}

/// What is stored after a chain of headers was. Nothing is stored above a block
/// whose header is missing.
pub open spec fn stored_with(stored: Records, headers: Seq<Header>) -> Records {
    let all = if rooted(stored, headers) {
        put_headers(stored.headers, headers, headers.len() as int)
    } else {
        stored.headers
    };
    Records { headers: all, committed: all, ..stored }
}

/// Storing headers adds exactly those that were missing, and leaves the others
/// alone.
pub proof fn law_missing_headers_are_put(
    held: Map<BlockHash, Header>,
    headers: Seq<Header>,
    i: int,
    hash: BlockHash,
)
    requires
        0 <= i <= headers.len(),
    ensures
        ({
            let after = put_headers(held, headers, i);
            &&& after.dom().contains(hash) <==> held.dom().contains(hash) || exists|j: int|
                0 <= j < i && (#[trigger] headers[j]).hash == hash
            &&& held.dom().contains(hash) ==> after[hash] == held[hash]
            &&& after.dom().contains(hash) && !held.dom().contains(hash) ==> exists|j: int|
                0 <= j < i && (#[trigger] headers[j]).hash == hash && after[hash] == headers[j]
        }),
    decreases i,
{
    if i > 0 {
        law_missing_headers_are_put(held, headers, i - 1, hash);
        let before = put_headers(held, headers, i - 1);
        let last = headers[i - 1];
        law_missing_headers_are_put(held, headers, i - 1, last.hash);
        if last.hash == hash && !before.dom().contains(hash) {
            assert(headers[i - 1].hash == hash);
        }
    }
}

/// The hashes of the first `i` headers.
spec fn hashes(headers: Seq<Header>, i: int) -> Set<BlockHash> {
    headers.take(i).map_values(|header: Header| header.hash).to_set()
}

proof fn lemma_hashes(headers: Seq<Header>, i: int)
    requires
        0 <= i < headers.len(),
    ensures
        hashes(headers, i + 1) == hashes(headers, i).insert(headers[i].hash),
        i > 0 ==> hashes(headers, i).contains(headers[i - 1].hash),
{
    let some = headers.take(i).map_values(|header: Header| header.hash);
    let more = headers.take(i + 1).map_values(|header: Header| header.hash);
    assert(more =~= some.push(headers[i].hash));
    assert(more.take(i) =~= some);
    assert(more.take(i + 1) =~= more);
    crate::table::lemma_take_to_set(more, i);
    if i > 0 {
        assert(some[i - 1] == headers[i - 1].hash);
    }
}

proof fn lemma_put_hashes(held: Map<BlockHash, Header>, headers: Seq<Header>, i: int)
    requires
        0 <= i <= headers.len(),
    ensures
        put_headers(held, headers, i).dom() == held.dom() + hashes(headers, i),
    decreases i,
{
    if i > 0 {
        lemma_put_hashes(held, headers, i - 1);
        lemma_hashes(headers, i - 1);
    }
    assert(put_headers(held, headers, i).dom() =~= held.dom() + hashes(headers, i));
}

/// A chain of headers that has a place is stored and committed as a whole, and one
/// that has none leaves the stored headers alone.
pub proof fn law_all_headers_are_stored_or_none(stored: Records, headers: Seq<Header>)
    requires
        headers.len() > 0,
    ensures
        ({
            let after = stored_with(stored, headers);
            let all = headers.map_values(|header: Header| header.hash).to_set();
            &&& after.headers.dom() == if stored.headers.dom().contains(headers[0].hash) || (
            headers[0].prev_side_hash matches Some(parent) ==> stored.headers.dom().contains(
                parent,
            )) {
                stored.headers.dom() + all
            } else {
                stored.headers.dom()
            }
            &&& after.committed == after.headers
            &&& after.bodies == stored.bodies
        }),
{
    lemma_put_hashes(stored.headers, headers, headers.len() as int);
    assert(headers.take(headers.len() as int) =~= headers);
}

/// Where handling headers starts once the request was looked at.
pub open spec fn headers_start(task: TaskView, flow: HeadersView) -> (TaskView, ResponseStepView) {
    match flow.headers[0].prev_side_hash {
        Some(start_hash) => flow.asks(
            task,
            ResponseAsk::Height(start_hash),
            HeadersPhase::StartHeight,
        ),
        None => flow.starts_at(task, None),
    }
}

/// A chain of valid headers is stored and the peer that asked is told; any other
/// headers change nothing and cost their sender the connection.
pub proof fn law_headers_are_stored_or_refused(
    archive: Archive,
    stored: Records,
    task: TaskView,
    flow: HeadersView,
)
    requires
        0 < flow.headers.len() <= usize::MAX,
    ensures
        if acceptable(archive, flow) {
            archive.ends(
                stored,
                headers_start(task, flow),
                stored_with(stored, flow.headers),
                task.told(PeerConnectionMessage::Headers(flow.peer_state_id), flow.addr),
            )
        } else {
            archive.ends(stored, headers_start(task, flow), stored, task.dropped(flow.addr))
        },
{
    let ok = acceptable(archive, flow);
    let stored_after = if ok {
        stored_with(stored, flow.headers)
    } else {
        stored
    };
    let task_after = if ok {
        task.told(PeerConnectionMessage::Headers(flow.peer_state_id), flow.addr)
    } else {
        task.dropped(flow.addr)
    };
    let start_height = match flow.headers[0].prev_side_hash {
        Some(start_hash) => Some((archive.height)(start_hash)),
        None => None,
    };
    let waiting = HeadersView { phase: HeadersPhase::StartHeight, ..flow };
    let begun = if flow.headers[0].prev_side_hash is Some {
        waiting
    } else {
        flow
    };
    if end_height(start_height, flow.headers.len()) == flow.height {
        assert(acceptable(archive, begun) == ok) by {
            assert forall|i: int| #[trigger] follows(archive, begun, i) == follows(
                archive,
                flow,
                i,
            ) by {}
            if ok {
                assert forall|i: int| 0 <= i < begun.headers.len() implies #[trigger] follows(
                    archive,
                    begun,
                    i,
                ) by {
                    assert(follows(archive, flow, i));
                }
            }
            if acceptable(archive, begun) {
                assert forall|i: int| 0 <= i < flow.headers.len() implies #[trigger] follows(
                    archive,
                    flow,
                    i,
                ) by {
                    assert(follows(archive, begun, i));
                }
            }
        }
        lemma_checks(archive, stored, task, begun, 0);
        assert(archive.ends(stored, begun.starts_at(task, start_height), stored_after, task_after));
    } else {
        archive.lemma_ended(stored, task.dropped(flow.addr));
    }
    if flow.headers[0].prev_side_hash is Some {
        archive.lemma_step(stored, headers_start(task, flow), stored_after, task_after);
    }
}

proof fn lemma_checks(
    archive: Archive,
    stored: Records,
    task: TaskView,
    flow: HeadersView,
    i: int,
)
    requires
        0 <= i <= flow.headers.len() <= usize::MAX,
        0 < flow.headers.len(),
        forall|j: int| 0 <= j < i ==> #[trigger] follows(archive, flow, j),
    ensures
        if forall|j: int| 0 <= j < flow.headers.len() ==> #[trigger] follows(archive, flow, j) {
            archive.ends(
                stored,
                flow.checks(task, i),
                stored_with(stored, flow.headers),
                task.told(PeerConnectionMessage::Headers(flow.peer_state_id), flow.addr),
            )
        } else {
            archive.ends(stored, flow.checks(task, i), stored, task.dropped(flow.addr))
        },
    decreases flow.headers.len() - i,
{
    let ok = forall|j: int| 0 <= j < flow.headers.len() ==> #[trigger] follows(archive, flow, j);
    if i == flow.headers.len() {
        assert(ok);
        lemma_stores_first(archive, stored, task, flow);
    } else if flow.headers[i].prev_side_hash != flow.parent(i) {
        assert(!follows(archive, flow, i));
        archive.lemma_ended(stored, task.dropped(flow.addr));
    } else {
        let at = flow.checks(task, i);
        let waiting = HeadersView { phase: HeadersPhase::Invalidated(i as usize), ..flow };
        assert(at.1 == ResponseStepView::Ask(
            ResponseAsk::Invalidated(flow.headers[i].hash),
            ResponseView::Headers(waiting),
        ));
        let stored_after = if ok {
            stored_with(stored, flow.headers)
        } else {
            stored
        };
        let task_after = if ok {
            task.told(PeerConnectionMessage::Headers(flow.peer_state_id), flow.addr)
        } else {
            task.dropped(flow.addr)
        };
        if (archive.invalidated)(flow.headers[i].hash) {
            assert(!follows(archive, flow, i));
            archive.lemma_ended(stored, task.dropped(flow.addr));
        } else {
            assert(follows(archive, flow, i));
            lemma_follows_whatever_phase(archive, flow, waiting);
            lemma_checks(archive, stored, task, waiting, i + 1);
        }
        archive.lemma_step(stored, at, stored_after, task_after);
    }
}

proof fn lemma_follows_whatever_phase(archive: Archive, flow: HeadersView, other: HeadersView)
    requires
        flow.headers == other.headers,
    ensures
        forall|j: int| #[trigger] follows(archive, flow, j) == follows(archive, other, j),
        forall|j: int| #[trigger] follows(archive, other, j) == follows(archive, flow, j),
{
}

/// Storing the first header: either all headers are stored, or none is.
proof fn lemma_stores_first(
    archive: Archive,
    stored: Records,
    task: TaskView,
    flow: HeadersView,
)
    requires
        0 < flow.headers.len() <= usize::MAX,
        forall|j: int| 0 <= j < flow.headers.len() ==> #[trigger] follows(archive, flow, j),
    ensures
        archive.ends(
            stored,
            flow.stores(task, 0),
            stored_with(stored, flow.headers),
            task.told(PeerConnectionMessage::Headers(flow.peer_state_id), flow.addr),
        ),
{
    let first = flow.headers[0];
    if rooted(stored, flow.headers) {
        lemma_stores(archive, stored, stored, task, flow, 0);
    } else {
        let task_after = task.told(PeerConnectionMessage::Headers(flow.peer_state_id), flow.addr);
        let stored_after = stored_with(stored, flow.headers);
        let first_wait = HeadersView { phase: HeadersPhase::Stored(0), ..flow };
        let second_wait = HeadersView { phase: HeadersPhase::ParentStored(0), ..flow };
        let parent = first.prev_side_hash->Some_0;
        let second = second_wait.asks(
            task,
            ResponseAsk::Stored(parent),
            HeadersPhase::ParentStored(0),
        );
        lemma_commits(archive, stored, task, second_wait);
        archive.lemma_step(stored, second, stored_after, task_after);
        archive.lemma_step(stored, flow.stores(task, 0), stored_after, task_after);
    }
}

proof fn lemma_commits(archive: Archive, stored: Records, task: TaskView, flow: HeadersView)
    ensures
        archive.ends(
            stored,
            flow.commits(task),
            Records { committed: stored.headers, ..stored },
            task.told(PeerConnectionMessage::Headers(flow.peer_state_id), flow.addr),
        ),
{
    let task_after = task.told(PeerConnectionMessage::Headers(flow.peer_state_id), flow.addr);
    let stored_after = Records { committed: stored.headers, ..stored };
    archive.lemma_ended(stored_after, task_after);
    archive.lemma_step(stored, flow.commits(task), stored_after, task_after);
}

proof fn lemma_stores(
    archive: Archive,
    before: Records,
    stored: Records,
    task: TaskView,
    flow: HeadersView,
    i: int,
)
    requires
        0 <= i <= flow.headers.len() <= usize::MAX,
        0 < flow.headers.len(),
        forall|j: int| 0 <= j < flow.headers.len() ==> #[trigger] follows(archive, flow, j),
        rooted(before, flow.headers),
        stored == (Records {
            headers: put_headers(before.headers, flow.headers, i),
            ..before
        }),
    ensures
        archive.ends(
            stored,
            flow.stores(task, i),
            stored_with(before, flow.headers),
            task.told(PeerConnectionMessage::Headers(flow.peer_state_id), flow.addr),
        ),
    decreases flow.headers.len() - i,
{
    let task_after = task.told(PeerConnectionMessage::Headers(flow.peer_state_id), flow.addr);
    let stored_after = stored_with(before, flow.headers);
    if i == flow.headers.len() {
        lemma_commits(archive, stored, task, flow);
    } else {
        let header = flow.headers[i];
        let waiting = HeadersView { phase: HeadersPhase::Stored(i as usize), ..flow };
        assert(follows(archive, flow, i));
        if i > 0 {
            assert(stored.headers.dom().contains(flow.headers[i - 1].hash));
        }
        if stored.headers.dom().contains(header.hash) {
            lemma_follows_whatever_phase(archive, flow, waiting);
            assert forall|j: int| 0 <= j < waiting.headers.len() implies #[trigger] follows(
                archive,
                waiting,
                j,
            ) by {
                assert(follows(archive, flow, j));
            }
            lemma_stores(archive, before, stored, task, waiting, i + 1);
        } else {
            let more = Records {
                headers: stored.headers.insert(header.hash, header),
                ..stored
            };
            let putting = HeadersView { phase: HeadersPhase::PutHeader(i as usize), ..flow };
            lemma_follows_whatever_phase(archive, flow, putting);
            assert forall|j: int| 0 <= j < putting.headers.len() implies #[trigger] follows(
                archive,
                putting,
                j,
            ) by {
                assert(follows(archive, flow, j));
            }
            lemma_stores(archive, before, more, task, putting, i + 1);
            match header.prev_side_hash {
                Some(parent) => {
                    let parent_wait = HeadersView {
                        phase: HeadersPhase::ParentStored(i as usize),
                        ..flow
                    };
                    assert(stored.headers.dom().contains(parent));
                    let put = parent_wait.puts(task, i);
                    archive.lemma_step(stored, put, stored_after, task_after);
                    let asked = waiting.asks(
                        task,
                        ResponseAsk::Stored(parent),
                        HeadersPhase::ParentStored(i as usize),
                    );
                    archive.lemma_step(stored, asked, stored_after, task_after);
                },
                None => {
                    let put = waiting.puts(task, i);
                    archive.lemma_step(stored, put, stored_after, task_after);
                },
            }
        }
        archive.lemma_step(stored, flow.stores(task, i), stored_after, task_after);
    }
}

/// The height to look for missing bodies from: above a block, or from the start.
pub open spec fn height_above(archive: Archive, block_hash: Option<BlockHash>) -> u32 {
    match block_hash {
        Some(block_hash) => ((archive.height)(block_hash) + 1) as u32,
        None => 0,
    }
}

/// The first verification of a block that is on the chain of a mainchain block.
pub open spec fn first_verified(
    archive: Archive,
    results: Seq<BmmEntry>,
    descendant: MainBlockHash,
) -> Option<MainBlockHash>
    decreases results.len(),
{
    if results.len() == 0 {
        None
    } else if results[0].result == BmmResult::Verified && (archive.main_descendant)(
        results[0].main_block_hash,
        descendant,
    ) {
        Some(results[0].main_block_hash)
    } else {
        first_verified(archive, results.skip(1), descendant)
    }
}

/// The tip that a descendant tip makes available: itself once no body is
/// missing, otherwise the parent of the earliest missing one.
pub open spec fn available(archive: Archive, tip: Tip) -> Option<Tip> {
    match missing_of(archive, tip) {
        Some(missing) => match (archive.parent)(missing) {
            Some(block_hash) => Some(
                Tip { block_hash, main_block_hash: (archive.verification)(block_hash) },
            ),
            None => None,
        },
        None => Some(tip),
    }
}

/// The earliest missing body of a descendant tip, above what it has in common
/// with the tip.
pub open spec fn missing_of(archive: Archive, tip: Tip) -> Option<BlockHash> {
    let common_ancestor = match archive.tip {
        Some(state_tip) => (archive.common_ancestor)(tip.block_hash, state_tip.block_hash),
        None => None,
    };
    (archive.missing)(tip.block_hash, height_above(archive, common_ancestor))
}

/// Whether a tip is better than the tip of the state.
pub open spec fn is_better(archive: Archive, tip: Tip) -> bool {
    match archive.tip {
        Some(state_tip) => (archive.better)(state_tip, tip) == Some(tip),
        None => true,
    }
}

/// What a descendant tip comes to: it waits on for what is still missing, and
/// what it makes available is ready if it is better than the tip.
pub open spec fn group_effect(archive: Archive, task: TaskView, group: GroupView) -> TaskView {
    let waits = match missing_of(archive, group.tip) {
        Some(missing) => TaskView {
            waiting: filed_all(task.waiting, missing, group.tip, group.sources),
            ..task
        },
        None => task,
    };
    match available(archive, group.tip) {
        Some(tip) if is_better(archive, tip) => waits.ready_from(tip, group.sources),
        _ => waits,
    }
}

/// What descendant tips come to, one after the other.
pub open spec fn groups_effect(
    archive: Archive,
    task: TaskView,
    groups: Seq<GroupView>,
) -> TaskView
    decreases groups.len(),
{
    if groups.len() == 0 {
        task
    } else {
        groups_effect(archive, group_effect(archive, task, groups[0]), groups.skip(1))
    }
}

/// What a block comes to: the peer is told that all bodies are there, or its tip
/// waits for the earliest missing one; the block is ready if it follows the tip;
/// and the tips that waited for the block are looked at.
pub open spec fn block_effect(
    archive: Archive,
    task: TaskView,
    addr: SocketAddr,
    request: GetBlockRequest,
    header: Header,
) -> TaskView {
    let descendant_tip = request.descendant_tip->Some_0;
    let told = match (archive.missing)(
        request.block_hash,
        height_above(archive, request.ancestor),
    ) {
        Some(missing) => task.filed(Waiting { missing, tip: descendant_tip, source: addr }),
        None => task.told(
            PeerConnectionMessage::BodiesAvailable(request.peer_state_id->Some_0),
            addr,
        ),
    };
    let block_tip = Tip {
        block_hash: request.block_hash,
        main_block_hash: first_verified(
            archive,
            (archive.bmm_results)(request.block_hash)@,
            descendant_tip.main_block_hash,
        )->Some_0,
    };
    let tip_hash = match archive.tip {
        Some(tip) => Some(tip.block_hash),
        None => None,
    };
    let ready = if header.prev_side_hash == tip_hash {
        told.ready(block_tip, addr)
    } else {
        told
    };
    groups_effect(
        archive,
        TaskView { waiting: not_for(ready.waiting, request.block_hash), ..ready },
        groups_for(ready.waiting, request.block_hash),
    )
}

/// Handling a block that was asked for stores its body under its hash and comes to
/// what [`block_effect`] says, as long as the block has a verification on the chain of the tip that it was
/// wanted for and heights fit their type.
pub proof fn law_block_is_handled(
    archive: Archive,
    stored: Records,
    task: TaskView,
    addr: SocketAddr,
    request: GetBlockRequest,
    response: PeerResponse,
)
    requires
        request.descendant_tip is Some,
        request.peer_state_id is Some,
        response is Block,
        response->header.hash == request.block_hash,
        first_verified(
            archive,
            (archive.bmm_results)(request.block_hash)@,
            request.descendant_tip->Some_0.main_block_hash,
        ) is Some,
        forall|block_hash: BlockHash| #[trigger] (archive.height)(block_hash) < u32::MAX,
    ensures
        archive.ends(
            stored,
            handled(task, addr, response, PeerRequest::GetBlock(request)),
            Records {
                bodies: stored.bodies.insert(request.block_hash, response->body),
                ..stored
            },
            block_effect(archive, task, addr, request, response->header),
        ),
{
    let before = stored;
    let stored = Records {
        bodies: before.bodies.insert(request.block_hash, response->body),
        ..before
    };
    let header = response->header;
    let after = block_effect(archive, task, addr, request, header);
    let descendant_tip = request.descendant_tip->Some_0;
    let flow = BlockView {
        addr,
        block_hash: request.block_hash,
        prev_side_hash: header.prev_side_hash,
        descendant_tip,
        ancestor: request.ancestor,
        peer_state_id: request.peer_state_id->Some_0,
        tip: None,
        verified: Seq::empty(),
        groups: Seq::empty(),
        phase: BlockPhase::Body,
    };
    let at = handled(task, addr, response, PeerRequest::GetBlock(request));
    let from = height_above(archive, request.ancestor);
    let seeking = BlockView { phase: BlockPhase::AncestorHeight, ..flow };
    let sought = if request.ancestor is Some {
        seeking
    } else {
        flow
    };
    let missing_wait = BlockView { phase: BlockPhase::Missing, ..flow };
    let told = match (archive.missing)(request.block_hash, from) {
        Some(missing) => task.filed(Waiting { missing, tip: descendant_tip, source: addr }),
        None => task.told(
            PeerConnectionMessage::BodiesAvailable(request.peer_state_id->Some_0),
            addr,
        ),
    };
    let tip_wait = BlockView { phase: BlockPhase::StateTip, ..flow };
    let bmm_wait = BlockView { tip: archive.tip, phase: BlockPhase::Bmm, ..flow };
    let results = (archive.bmm_results)(request.block_hash)@;
    let verifying = BlockView { verified: verified_of(results), ..bmm_wait };
    lemma_verifies(archive, stored, told, verifying, results);
    let step4 = tip_wait.asks(told, ResponseAsk::StateTip, BlockPhase::StateTip);
    let step5 = bmm_wait.asks(told, ResponseAsk::BmmResults(request.block_hash), BlockPhase::Bmm);
    archive.lemma_step(stored, step5, stored, after);
    archive.lemma_step(stored, step4, stored, after);
    archive.lemma_step(stored, sought.seeks(task, from), stored, after);
    if let Some(ancestor) = request.ancestor {
        assert((archive.height)(ancestor) < u32::MAX);
        let asked = flow.asks(task, ResponseAsk::Height(ancestor), BlockPhase::AncestorHeight);
        archive.lemma_step(stored, asked, stored, after);
    }
    archive.lemma_step(before, at, stored, after);
}

/// What verifying leads to.
spec fn verified_effect(
    archive: Archive,
    task: TaskView,
    flow: BlockView,
    main_block_hash: MainBlockHash,
) -> TaskView {
    let block_tip = Tip { block_hash: flow.block_hash, main_block_hash };
    let tip_hash = match flow.tip {
        Some(tip) => Some(tip.block_hash),
        None => None,
    };
    let ready = if flow.prev_side_hash == tip_hash {
        task.ready(block_tip, flow.addr)
    } else {
        task
    };
    groups_effect(
        archive,
        TaskView { waiting: not_for(ready.waiting, flow.block_hash), ..ready },
        groups_for(ready.waiting, flow.block_hash),
    )
}

proof fn lemma_verifies(
    archive: Archive,
    stored: Records,
    task: TaskView,
    flow: BlockView,
    results: Seq<BmmEntry>,
)
    requires
        flow.tip == archive.tip,
        flow.verified == verified_of(results),
        first_verified(archive, results, flow.descendant_tip.main_block_hash) is Some,
        forall|block_hash: BlockHash| #[trigger] (archive.height)(block_hash) < u32::MAX,
    ensures
        archive.ends(
            stored,
            flow.verifies(task),
            stored,
            verified_effect(
                archive,
                task,
                flow,
                first_verified(archive, results, flow.descendant_tip.main_block_hash)->Some_0,
            ),
        ),
    decreases results.len(),
{
    let descendant = flow.descendant_tip.main_block_hash;
    let found = first_verified(archive, results, descendant)->Some_0;
    let after = verified_effect(archive, task, flow, found);
    let first = results[0];
    let rest = results.skip(1);
    if first.result == BmmResult::Verified {
        let waiting = BlockView { phase: BlockPhase::Verify, ..flow };
        assert(flow.verified.last() == first.main_block_hash);
        if (archive.main_descendant)(first.main_block_hash, descendant) {
            lemma_is_verified(archive, stored, task, waiting, first.main_block_hash);
        } else {
            let next = BlockView { verified: flow.verified.drop_last(), ..waiting };
            assert(next.verified =~= verified_of(rest));
            lemma_verifies(archive, stored, task, next, rest);
        }
        archive.lemma_step(stored, flow.verifies(task), stored, after);
    } else {
        lemma_verifies(archive, stored, task, flow, rest);
    }
}

proof fn lemma_is_verified(
    archive: Archive,
    stored: Records,
    task: TaskView,
    flow: BlockView,
    main_block_hash: MainBlockHash,
)
    requires
        flow.tip == archive.tip,
        forall|block_hash: BlockHash| #[trigger] (archive.height)(block_hash) < u32::MAX,
    ensures
        archive.ends(
            stored,
            flow.is_verified(task, main_block_hash),
            stored,
            verified_effect(archive, task, flow, main_block_hash),
        ),
{
    let block_tip = Tip { block_hash: flow.block_hash, main_block_hash };
    let tip_hash = match flow.tip {
        Some(tip) => Some(tip.block_hash),
        None => None,
    };
    let ready = if flow.prev_side_hash == tip_hash {
        task.ready(block_tip, flow.addr)
    } else {
        task
    };
    let groups = groups_for(ready.waiting, flow.block_hash);
    lemma_regroups(
        archive,
        stored,
        TaskView { waiting: not_for(ready.waiting, flow.block_hash), ..ready },
        BlockView { groups, ..flow },
    );
}

proof fn lemma_regroups(
    archive: Archive,
    stored: Records,
    task: TaskView,
    flow: BlockView,
)
    requires
        flow.tip == archive.tip,
        forall|block_hash: BlockHash| #[trigger] (archive.height)(block_hash) < u32::MAX,
    ensures
        archive.ends(
            stored,
            flow.regroups(task),
            stored,
            groups_effect(archive, task, flow.groups),
        ),
    decreases flow.groups.len(), 3int,
{
    let after = groups_effect(archive, task, flow.groups);
    if flow.groups.len() == 0 {
        archive.lemma_ended(stored, task);
    } else {
        let group = flow.groups[0];
        match archive.tip {
            None => {
                lemma_seeks_group(archive, stored, task, flow, 0);
            },
            Some(tip) => {
                let ancestor = (archive.common_ancestor)(group.tip.block_hash, tip.block_hash);
                let waiting = BlockView { phase: BlockPhase::GroupAncestor, ..flow };
                match ancestor {
                    None => {
                        lemma_seeks_group(archive, stored, task, waiting, 0);
                    },
                    Some(ancestor) => {
                        assert((archive.height)(ancestor) < u32::MAX);
                        let height_wait = BlockView { phase: BlockPhase::GroupHeight, ..flow };
                        lemma_seeks_group(
                            archive,
                            stored,
                            task,
                            height_wait,
                            ((archive.height)(ancestor) + 1) as u32,
                        );
                        let asked = waiting.asks(
                            task,
                            ResponseAsk::Height(ancestor),
                            BlockPhase::GroupHeight,
                        );
                        archive.lemma_step(stored, asked, stored, after);
                    },
                }
                archive.lemma_step(stored, flow.regroups(task), stored, after);
            },
        }
    }
}

proof fn lemma_seeks_group(
    archive: Archive,
    stored: Records,
    task: TaskView,
    flow: BlockView,
    from_height: u32,
)
    requires
        flow.tip == archive.tip,
        flow.groups.len() > 0,
        (archive.missing)(flow.groups[0].tip.block_hash, from_height) == missing_of(
            archive,
            flow.groups[0].tip,
        ),
        forall|block_hash: BlockHash| #[trigger] (archive.height)(block_hash) < u32::MAX,
    ensures
        archive.ends(
            stored,
            flow.seeks_group(task, from_height),
            stored,
            groups_effect(archive, task, flow.groups),
        ),
    decreases flow.groups.len(), 2int,
{
    let group = flow.groups[0];
    let after = groups_effect(archive, task, flow.groups);
    let waiting = BlockView { phase: BlockPhase::GroupMissing, ..flow };
    match missing_of(archive, group.tip) {
        None => {
            lemma_offers(archive, stored, task, task, waiting, group.tip);
        },
        Some(missing) => {
            let waits = TaskView {
                waiting: filed_all(task.waiting, missing, group.tip, group.sources),
                ..task
            };
            let parent_wait = BlockView { phase: BlockPhase::GroupParent, ..flow };
            match (archive.parent)(missing) {
                None => {
                    lemma_leaves(archive, stored, waits, parent_wait);
                },
                Some(block_hash) => {
                    let verification_wait = BlockView {
                        phase: BlockPhase::GroupVerification(block_hash),
                        ..flow
                    };
                    let next_tip = Tip {
                        block_hash,
                        main_block_hash: (archive.verification)(block_hash),
                    };
                    lemma_offers(archive, stored, task, waits, verification_wait, next_tip);
                    let asked = parent_wait.asks(
                        waits,
                        ResponseAsk::BestVerification(block_hash),
                        BlockPhase::GroupVerification(block_hash),
                    );
                    archive.lemma_step(stored, asked, stored, after);
                },
            }
            let asked = waiting.asks(
                waits,
                ResponseAsk::PrevSideHash(missing),
                BlockPhase::GroupParent,
            );
            archive.lemma_step(stored, asked, stored, after);
        },
    }
    archive.lemma_step(stored, flow.seeks_group(task, from_height), stored, after);
}

proof fn lemma_offers(
    archive: Archive,
    stored: Records,
    task: TaskView,
    waits: TaskView,
    flow: BlockView,
    next_tip: Tip,
)
    requires
        flow.tip == archive.tip,
        flow.groups.len() > 0,
        available(archive, flow.groups[0].tip) == Some(next_tip),
        waits == match missing_of(archive, flow.groups[0].tip) {
            Some(missing) => TaskView {
                waiting: filed_all(
                    task.waiting,
                    missing,
                    flow.groups[0].tip,
                    flow.groups[0].sources,
                ),
                ..task
            },
            None => task,
        },
        forall|block_hash: BlockHash| #[trigger] (archive.height)(block_hash) < u32::MAX,
    ensures
        archive.ends(
            stored,
            flow.offers(waits, next_tip),
            stored,
            groups_effect(archive, task, flow.groups),
        ),
    decreases flow.groups.len(), 1int,
{
    let after = groups_effect(archive, task, flow.groups);
    match archive.tip {
        None => {
            lemma_leaves(
                archive,
                stored,
                waits.ready_from(next_tip, flow.groups[0].sources),
                flow,
            );
        },
        Some(tip) => {
            let waiting = BlockView { phase: BlockPhase::GroupBetter(next_tip), ..flow };
            if is_better(archive, next_tip) {
                lemma_leaves(
                    archive,
                    stored,
                    waits.ready_from(next_tip, flow.groups[0].sources),
                    waiting,
                );
            } else {
                lemma_leaves(archive, stored, waits, waiting);
            }
            archive.lemma_step(stored, flow.offers(waits, next_tip), stored, after);
        },
    }
}

proof fn lemma_leaves(
    archive: Archive,
    stored: Records,
    task: TaskView,
    flow: BlockView,
)
    requires
        flow.tip == archive.tip,
        flow.groups.len() > 0,
        forall|block_hash: BlockHash| #[trigger] (archive.height)(block_hash) < u32::MAX,
    ensures
        archive.ends(
            stored,
            flow.leaves(task),
            stored,
            groups_effect(archive, task, flow.groups.skip(1)),
        ),
    decreases flow.groups.len(), 0int,
{
    lemma_regroups(archive, stored, task, BlockView { groups: flow.groups.skip(1), ..flow });
}

/// A response that is none to its request costs the peer its connection, and
/// changes nothing else.
pub proof fn law_wrong_block_is_refused(
    task: TaskView,
    addr: SocketAddr,
    request: GetBlockRequest,
    response: PeerResponse,
)
    requires
        match response {
            PeerResponse::Block { header, .. } => header.hash != request.block_hash,
            PeerResponse::NoBlock { block_hash } => block_hash != request.block_hash,
            _ => true,
        },
    ensures
        handled(task, addr, response, PeerRequest::GetBlock(request)) == refused(task, addr),
{
}

/// Whether a header names the one before it as its parent.
pub open spec fn chained(headers: Seq<Header>, i: int) -> bool {
    headers[i].prev_side_hash == Some(headers[i - 1].hash)
}

/// Headers are accepted exactly if they end with the block that was asked for, at
/// the height that was asked for, follow one another and a block that was named,
/// and none is marked as invalid: headers that follow a block at height `s` end at
/// `s` plus their number, and those that follow none at their number less one.
/// Accepted headers are stored and committed, and the peer is told. Any others
/// change nothing and cost their sender the connection.
pub proof fn law_headers_are_accepted_if_they_fit_the_request(
    archive: Archive,
    stored: Records,
    task: TaskView,
    addr: SocketAddr,
    request: GetHeadersRequest,
    headers: Vec<Header>,
)
    requires
        request.height is Some,
        request.peer_state_id is Some,
    ensures
        ({
            let height = request.height->Some_0;
            let sent = headers@;
            let fits = {
                &&& sent.len() > 0
                &&& sent[sent.len() - 1].hash == request.end
                &&& match sent[0].prev_side_hash {
                    Some(start) => request.start@.contains(start) && height == (archive.height)(
                        start,
                    ) + sent.len(),
                    None => height == sent.len() - 1,
                }
                &&& forall|i: int| 0 < i < sent.len() ==> #[trigger] chained(sent, i)
                &&& forall|i: int|
                    0 <= i < sent.len() ==> !(archive.invalidated)((#[trigger] sent[i]).hash)
            };
            let at = handled(
                task,
                addr,
                PeerResponse::Headers(headers),
                PeerRequest::GetHeaders(request),
            );
            if fits {
                archive.ends(
                    stored,
                    at,
                    stored_with(stored, sent),
                    task.told(
                        PeerConnectionMessage::Headers(request.peer_state_id->Some_0),
                        addr,
                    ),
                )
            } else {
                archive.ends(
                    stored,
                    at,
                    stored,
                    TaskView { peers: task.peers.remove(addr), ..task },
                )
            }
        }),
{
    let height = request.height->Some_0;
    let sent = headers@;
    assert(sent.len() == headers.len());
    let dropped = TaskView { peers: task.peers.remove(addr), ..task };
    archive.lemma_ended(stored, dropped);
    if sent.len() > 0 && sent.last().hash == request.end {
        let flow = HeadersView {
            addr,
            headers: sent,
            height,
            peer_state_id: request.peer_state_id->Some_0,
            phase: HeadersPhase::StartHeight,
        };
        law_headers_are_stored_or_refused(archive, stored, task, flow);
        let start_ok = sent[0].prev_side_hash matches Some(start) ==> request.start@.contains(
            start,
        );
        if start_ok {
            if forall|i: int| 0 <= i < sent.len() ==> #[trigger] follows(archive, flow, i) {
                assert forall|i: int| 0 < i < sent.len() implies #[trigger] chained(sent, i) by {
                    assert(follows(archive, flow, i));
                }
                assert forall|i: int| 0 <= i < sent.len() implies !(archive.invalidated)(
                    (#[trigger] sent[i]).hash,
                ) by {
                    assert(follows(archive, flow, i));
                }
            }
            if (forall|i: int| 0 < i < sent.len() ==> #[trigger] chained(sent, i)) && (forall|
                i: int,
            |
                0 <= i < sent.len() ==> !(archive.invalidated)((#[trigger] sent[i]).hash)) {
                assert forall|i: int| 0 <= i < sent.len() implies #[trigger] follows(
                    archive,
                    flow,
                    i,
                ) by {
                    if i > 0 {
                        assert(chained(sent, i));
                    }
                    assert(!(archive.invalidated)(sent[i].hash));
                }
            }
        }
    }
}

/// Whether a response is one that its request can get. Requests for a block or for
/// headers that do not say what they are for get none.
pub open spec fn answers(req: PeerRequest, resp: PeerResponse) -> bool {
    match (req, resp) {
        (PeerRequest::GetBlock(request), PeerResponse::Block { header, .. }) => {
            &&& request.descendant_tip is Some && request.peer_state_id is Some
            &&& header.hash == request.block_hash
        },
        (PeerRequest::GetBlock(request), PeerResponse::NoBlock { block_hash }) => {
            &&& request.descendant_tip is Some && request.peer_state_id is Some
            &&& block_hash == request.block_hash
        },
        (PeerRequest::GetHeaders(request), PeerResponse::Headers(_)) => {
            request.height is Some && request.peer_state_id is Some
        },
        (PeerRequest::GetHeaders(request), PeerResponse::NoHeader { block_hash }) => {
            block_hash == request.end
        },
        (PeerRequest::PushTransaction(_), PeerResponse::TransactionAccepted(_)) => true,
        (PeerRequest::PushTransaction(_), PeerResponse::TransactionRejected(_)) => true,
        _ => false,
    }
}

/// A response that is none to its request costs the peer its connection, and
/// changes nothing else. One that says that there is nothing, or what became of a
/// transaction, changes nothing at all.
pub proof fn law_only_answers_are_handled(
    task: TaskView,
    addr: SocketAddr,
    resp: PeerResponse,
    req: PeerRequest,
)
    ensures
        !answers(req, resp) ==> handled(task, addr, resp, req) == (
            TaskView { peers: task.peers.remove(addr), ..task },
            ResponseStepView::Over(Ok(())),
        ),
        answers(req, resp) && (resp is NoBlock || resp is NoHeader || resp is TransactionAccepted
            || resp is TransactionRejected) ==> handled(task, addr, resp, req) == (
            task,
            ResponseStepView::Over(Ok(())),
        ),
        answers(req, resp) && resp is Block ==> (handled(task, addr, resp, req).1 matches
            ResponseStepView::Ask(ask, _) && ask == (ResponseAsk::PutBody {
            block_hash: resp->header.hash,
            body: resp->body,
        })),
{
}

/// A failure of the database ends the handling of a response with that failure.
pub proof fn law_failures_end_a_response(response: ResponseView, task: TaskView, err: Error)
    ensures
        response.next_step(task, ResponseReply::Failed(err)) == (
            task,
            ResponseStepView::Over(Err(err)),
        ),
{
}

/// The verification of a block that counts is the first one of the list that is
/// verified and on the chain of the wanted tip.
pub proof fn law_first_verification_counts(
    archive: Archive,
    results: Seq<BmmEntry>,
    descendant: MainBlockHash,
)
    ensures
        match first_verified(archive, results, descendant) {
            Some(hash) => exists|i: int|
                {
                    &&& 0 <= i < results.len()
                    &&& (#[trigger] results[i]).main_block_hash == hash
                    &&& results[i].result == BmmResult::Verified
                    &&& (archive.main_descendant)(hash, descendant)
                    &&& forall|j: int|
                        0 <= j < i ==> !((#[trigger] results[j]).result == BmmResult::Verified && (
                        archive.main_descendant)(results[j].main_block_hash, descendant))
                },
            None => forall|j: int|
                0 <= j < results.len() ==> !((#[trigger] results[j]).result == BmmResult::Verified
                    && (archive.main_descendant)(results[j].main_block_hash, descendant)),
        },
    decreases results.len(),
{
    if results.len() > 0 {
        let first = results[0];
        if !(first.result == BmmResult::Verified && (archive.main_descendant)(
            first.main_block_hash,
            descendant,
        )) {
            let rest = results.skip(1);
            law_first_verification_counts(archive, rest, descendant);
            match first_verified(archive, rest, descendant) {
                Some(hash) => {
                    let i = choose|i: int|
                        {
                            &&& 0 <= i < rest.len()
                            &&& (#[trigger] rest[i]).main_block_hash == hash
                            &&& rest[i].result == BmmResult::Verified
                            &&& (archive.main_descendant)(hash, descendant)
                            &&& forall|j: int|
                                0 <= j < i ==> !((#[trigger] rest[j]).result == BmmResult::Verified
                                    && (archive.main_descendant)(
                                    rest[j].main_block_hash,
                                    descendant,
                                ))
                        };
                    assert(results[i + 1] == rest[i]);
                    assert forall|j: int| 0 <= j < i + 1 implies !((#[trigger] results[j]).result
                        == BmmResult::Verified && (archive.main_descendant)(
                        results[j].main_block_hash,
                        descendant,
                    )) by {
                        if j > 0 {
                            assert(rest[j - 1] == results[j]);
                        }
                    }
                },
                None => {
                    assert forall|j: int| 0 <= j < results.len() implies !((
                    #[trigger] results[j]).result == BmmResult::Verified && (
                    archive.main_descendant)(results[j].main_block_hash, descendant)) by {
                        if j > 0 {
                            assert(rest[j - 1] == results[j]);
                        }
                    }
                },
            }
        }
    }
}

/// A block that has no verification on the chain of the tip that it was wanted for
/// is neither ready nor looked at any further.
pub proof fn law_unverified_block_is_not_ready(
    archive: Archive,
    stored: Records,
    task: TaskView,
    flow: BlockView,
    results: Seq<BmmEntry>,
)
    requires
        flow.verified == verified_of(results),
        forall|j: int|
            0 <= j < results.len() ==> !((#[trigger] results[j]).result == BmmResult::Verified && (
            archive.main_descendant)(
                results[j].main_block_hash,
                flow.descendant_tip.main_block_hash,
            )),
    ensures
        exists|n: nat|
            (#[trigger] archive.run(stored, flow.verifies(task), n)) == (
                stored,
                (
                    task,
                    ResponseStepView::Over(Err(Error::Contradiction(Contradiction::NotVerified))),
                ),
            ),
    decreases results.len(),
{
    let at = flow.verifies(task);
    let end = (
        stored,
        (task, ResponseStepView::Over(Err(Error::Contradiction(Contradiction::NotVerified)))),
    );
    if results.len() == 0 {
        assert(archive.run(stored, at, 0) == end);
    } else {
        let first = results[0];
        let rest = results.skip(1);
        assert forall|j: int| 0 <= j < rest.len() implies !((#[trigger] rest[j]).result
            == BmmResult::Verified && (archive.main_descendant)(
            rest[j].main_block_hash,
            flow.descendant_tip.main_block_hash,
        )) by {
            assert(rest[j] == results[j + 1]);
        }
        if first.result == BmmResult::Verified {
            let waiting = BlockView { phase: BlockPhase::Verify, ..flow };
            assert(flow.verified.last() == first.main_block_hash);
            let next = BlockView { verified: flow.verified.drop_last(), ..waiting };
            assert(next.verified =~= verified_of(rest));
            law_unverified_block_is_not_ready(archive, stored, task, next, rest);
            let n = choose|n: nat|
                (#[trigger] archive.run(stored, next.verifies(task), n)) == end;
            assert(archive.run(stored, at, n + 1) == archive.run(stored, next.verifies(task), n));
        } else {
            law_unverified_block_is_not_ready(archive, stored, task, flow, rest);
        }
    }
}

/// Bodies are looked for from the height above an ancestor on. A height that has
/// none above it is reported.
pub proof fn law_bodies_are_wanted_above_the_ancestor(
    flow: BlockView,
    task: TaskView,
    height: u32,
)
    ensures
        flow.phase is AncestorHeight ==> {
            let (after, step) = flow.next_step(task, ResponseReply::Height(height));
            &&& after == task
            &&& height == u32::MAX ==> step == ResponseStepView::Over(
                Err(Error::Contradiction(Contradiction::HeightOverflow)),
            )
            &&& height < u32::MAX ==> (step matches ResponseStepView::Ask(ask, _) && ask == (
            ResponseAsk::EarliestMissingBody {
                block_hash: flow.block_hash,
                from_height: (height + 1) as u32,
            }))
        },
        flow.phase is GroupHeight && flow.groups.len() > 0 ==> {
            let (after, step) = flow.next_step(task, ResponseReply::Height(height));
            &&& after == task
            &&& height == u32::MAX ==> step == ResponseStepView::Over(
                Err(Error::Contradiction(Contradiction::HeightOverflow)),
            )
            &&& height < u32::MAX ==> (step matches ResponseStepView::Ask(ask, _) && ask == (
            ResponseAsk::EarliestMissingBody {
                block_hash: flow.groups[0].tip.block_hash,
                from_height: (height + 1) as u32,
            }))
        },
{
}

/// The height that bodies of a tip are wanted from: above what the tip has in common
/// with the tip of the state, or from the first block on.
pub open spec fn wanted_from(archive: Archive, tip: Tip) -> int {
    match archive.tip {
        Some(state_tip) => match (archive.common_ancestor)(
            tip.block_hash,
            state_tip.block_hash,
        ) {
            Some(ancestor) => (archive.height)(ancestor) + 1,
            None => 0,
        },
        None => 0,
    }
}

/// Whether a body is the earliest one that a tip still lacks.
pub open spec fn lacks(archive: Archive, tip: Tip, missing: BlockHash) -> bool {
    (archive.missing)(tip.block_hash, wanted_from(archive, tip) as u32) == Some(missing)
}

/// Whether a tip makes another one available that is better than the tip of the
/// state: itself if it lacks no body, otherwise the parent of the earliest body that
/// it lacks, with the best verification of that parent.
pub open spec fn makes_available(archive: Archive, tip: Tip, out: Tip) -> bool {
    &&& archive.tip matches Some(state_tip) ==> (archive.better)(state_tip, out) == Some(out)
    &&& match (archive.missing)(tip.block_hash, wanted_from(archive, tip) as u32) {
        None => out == tip,
        Some(missing) => {
            &&& (archive.parent)(missing) == Some(out.block_hash)
            &&& out.main_block_hash == (archive.verification)(out.block_hash)
        },
    }
}

/// Whether a tip is ready because of a tip that waited for a block, for the same
/// peer.
pub open spec fn ready_by(
    archive: Archive,
    groups: Seq<GroupView>,
    ready: NewTipReady,
) -> bool {
    exists|tip: Tip, source: SocketAddr| #[trigger]
        sends(groups, tip, source) && ready.addr == Some(source) && makes_available(
            archive,
            tip,
            ready.tip,
        )
}

proof fn lemma_groups_effect(
    archive: Archive,
    task: TaskView,
    groups: Seq<GroupView>,
    ready: NewTipReady,
    item: Waiting,
)
    requires
        forall|block_hash: BlockHash| #[trigger] (archive.height)(block_hash) < u32::MAX,
    ensures
        ({
            let after = groups_effect(archive, task, groups);
            &&& after.peers == task.peers && after.known == task.known
            &&& after.sources == task.sources && after.magic_bytes == task.magic_bytes
            &&& task.new_tips.is_prefix_of(after.new_tips)
            &&& after.new_tips.contains(ready) <==> task.new_tips.contains(ready) || ready_by(
                archive,
                groups,
                ready,
            )
            &&& after.waiting.contains(item) <==> task.waiting.contains(item) || (sends(
                groups,
                item.tip,
                item.source,
            ) && lacks(archive, item.tip, item.missing))
        }),
    decreases groups.len(),
{
    if groups.len() == 0 {
        assert(task.new_tips.take(task.new_tips.len() as int) =~= task.new_tips);
        if ready_by(archive, groups, ready) {
            let (tip, source) = choose|tip: Tip, source: SocketAddr| #[trigger]
                sends(groups, tip, source) && ready.addr == Some(source) && makes_available(
                    archive,
                    tip,
                    ready.tip,
                );
            assert(sends(groups, tip, source));
            assert(false);
        }
    } else {
        let group = groups[0];
        let rest = groups.skip(1);
        let between = group_effect(archive, task, group);
        lemma_groups_effect(archive, between, rest, ready, item);
        lemma_group_effect(archive, task, group, ready, item);
        lemma_sends_rest(groups, item.tip, item.source);
        let after = groups_effect(archive, task, groups);
        let n = task.new_tips.len() as int;
        assert(after.new_tips.take(n) =~= task.new_tips) by {
            assert(between.new_tips == after.new_tips.take(between.new_tips.len() as int));
            assert(task.new_tips == between.new_tips.take(n));
        }
        if ready_by(archive, groups, ready) {
            let (tip, source) = choose|tip: Tip, source: SocketAddr| #[trigger]
                sends(groups, tip, source) && ready.addr == Some(source) && makes_available(
                    archive,
                    tip,
                    ready.tip,
                );
            lemma_sends_rest(groups, tip, source);
            if sends(rest, tip, source) {
                assert(ready_by(archive, rest, ready));
            }
        }
        if ready_by(archive, rest, ready) {
            let (tip, source) = choose|tip: Tip, source: SocketAddr| #[trigger]
                sends(rest, tip, source) && ready.addr == Some(source) && makes_available(
                    archive,
                    tip,
                    ready.tip,
                );
            lemma_sends_rest(groups, tip, source);
            assert(sends(groups, tip, source));
        }
        if ready.addr matches Some(source) && group.sources.contains(source) && makes_available(
            archive,
            group.tip,
            ready.tip,
        ) {
            lemma_sends_rest(groups, group.tip, ready.addr->Some_0);
            assert(sends(groups, group.tip, ready.addr->Some_0));
        }
    }
}

proof fn lemma_sends_rest(groups: Seq<GroupView>, tip: Tip, source: SocketAddr)
    requires
        groups.len() > 0,
    ensures
        sends(groups, tip, source) <==> (groups[0].tip == tip && groups[0].sources.contains(
            source,
        )) || sends(groups.skip(1), tip, source),
{
    let rest = groups.skip(1);
    if sends(groups, tip, source) {
        let i = choose|i: int|
            0 <= i < groups.len() && (#[trigger] groups[i]).tip == tip
                && groups[i].sources.contains(source);
        if i > 0 {
            assert(rest[i - 1] == groups[i]);
        }
    }
    if sends(rest, tip, source) {
        let i = choose|i: int|
            0 <= i < rest.len() && (#[trigger] rest[i]).tip == tip && rest[i].sources.contains(
                source,
            );
        assert(groups[i + 1] == rest[i]);
    }
    if groups[0].tip == tip && groups[0].sources.contains(source) {
        assert(sends(groups, tip, source));
    }
}

proof fn lemma_group_effect(
    archive: Archive,
    task: TaskView,
    group: GroupView,
    ready: NewTipReady,
    item: Waiting,
)
    requires
        forall|block_hash: BlockHash| #[trigger] (archive.height)(block_hash) < u32::MAX,
    ensures
        ({
            let after = group_effect(archive, task, group);
            &&& after.peers == task.peers && after.known == task.known
            &&& after.sources == task.sources && after.magic_bytes == task.magic_bytes
            &&& task.new_tips.is_prefix_of(after.new_tips)
            &&& after.new_tips.contains(ready) <==> task.new_tips.contains(ready) || (
            ready.addr matches Some(source) && group.sources.contains(source) && makes_available(
                archive,
                group.tip,
                ready.tip,
            ))
            &&& after.waiting.contains(item) <==> task.waiting.contains(item) || (item.tip
                == group.tip && group.sources.contains(item.source) && lacks(
                archive,
                item.tip,
                item.missing,
            ))
        }),
{
    let after = group_effect(archive, task, group);
    let old = task.new_tips;
    if let Some(missing) = missing_of(archive, group.tip) {
        law_filing_adds_each_peer(task.waiting, missing, group.tip, group.sources, item);
    }
    assert(old.is_prefix_of(after.new_tips)) by {
        assert(after.new_tips.take(old.len() as int) =~= old);
    }
    match available(archive, group.tip) {
        Some(tip) if is_better(archive, tip) => {
            let added = group.sources.map_values(
                |source: SocketAddr| NewTipReady { tip, addr: Some(source) },
            );
            assert(after.new_tips == old + added);
            if old.contains(ready) {
                assert(after.new_tips[old.index_of(ready)] == ready);
            }
            if after.new_tips.contains(ready) {
                let i = after.new_tips.index_of(ready);
                if i < old.len() {
                    assert(old[i] == ready);
                } else {
                    assert(ready == added[i - old.len()]);
                    assert(group.sources.contains(group.sources[i - old.len()]));
                }
            }
            if ready.addr matches Some(source) && group.sources.contains(source)
                && makes_available(archive, group.tip, ready.tip) {
                let j = group.sources.index_of(ready.addr->Some_0);
                assert(ready.tip == tip);
                assert(after.new_tips[old.len() + j] == ready);
            }
        },
        _ => {},
    }
}

/// The earliest body that is missing above the ancestor that a request names, or
/// from the first block on.
pub open spec fn missing_above(archive: Archive, request: GetBlockRequest) -> Option<BlockHash> {
    let from = match request.ancestor {
        Some(ancestor) => (archive.height)(ancestor) + 1,
        None => 0,
    };
    (archive.missing)(request.block_hash, from as u32)
}

/// Whether a tip waits for a body, or does so now that a peer sent a block of it and
/// a body is missing.
pub open spec fn waits_now(
    archive: Archive,
    task: TaskView,
    addr: SocketAddr,
    request: GetBlockRequest,
    item: Waiting,
) -> bool {
    task.waiting.contains(item) || (missing_above(archive, request) == Some(item.missing)
        && Some(item.tip) == request.descendant_tip && item.source == addr)
}

/// What a block that was asked for comes to. The peer is told that all bodies are
/// there, or its tip waits for the earliest one that is missing. The block is ready
/// exactly if it follows the tip of the state. Every tip that waited for the block
/// waits on for the body that it now lacks, for the same peers, and makes ready what
/// it makes available, for the same peers. Everything else waits on, and nothing else
/// becomes ready.
pub proof fn law_block_serves_what_waited_for_it(
    archive: Archive,
    task: TaskView,
    addr: SocketAddr,
    request: GetBlockRequest,
    header: Header,
    ready: NewTipReady,
    item: Waiting,
)
    requires
        request.descendant_tip is Some,
        request.peer_state_id is Some,
        forall|block_hash: BlockHash| #[trigger] (archive.height)(block_hash) < u32::MAX,
    ensures
        ({
            let after = block_effect(archive, task, addr, request, header);
            let tip = request.descendant_tip->Some_0;
            let missing = missing_above(archive, request);
            let verification = first_verified(
                archive,
                (archive.bmm_results)(request.block_hash)@,
                tip.main_block_hash,
            )->Some_0;
            let follows_tip = match archive.tip {
                Some(state_tip) => header.prev_side_hash == Some(state_tip.block_hash),
                None => header.prev_side_hash is None,
            };
            &&& after.known == task.known && after.sources == task.sources
            &&& after.peers == if missing is None {
                task.told(
                    PeerConnectionMessage::BodiesAvailable(request.peer_state_id->Some_0),
                    addr,
                ).peers
            } else {
                task.peers
            }
            &&& task.new_tips.is_prefix_of(after.new_tips)
            &&& after.new_tips.contains(ready) <==> {
                ||| task.new_tips.contains(ready)
                ||| follows_tip && ready == (NewTipReady {
                    tip: Tip { block_hash: request.block_hash, main_block_hash: verification },
                    addr: Some(addr),
                })
                ||| exists|other: Waiting| #[trigger]
                    waits_now(archive, task, addr, request, other) && other.missing == request.block_hash && ready.addr == Some(
                        other.source,
                    ) && makes_available(archive, other.tip, ready.tip)
            }
            &&& after.waiting.contains(item) <==> {
                ||| waits_now(archive, task, addr, request, item) && item.missing != request.block_hash
                ||| lacks(archive, item.tip, item.missing) && waits_now(
                    archive,
                    task,
                    addr,
                    request,
                    Waiting { missing: request.block_hash, ..item },
                )
            }
        }),
{
    let after = block_effect(archive, task, addr, request, header);
    let tip = request.descendant_tip->Some_0;
    let from = height_above(archive, request.ancestor);
    if let Some(ancestor) = request.ancestor {
        assert((archive.height)(ancestor) < u32::MAX);
    }
    let missing = (archive.missing)(request.block_hash, from);
    let told = match missing {
        Some(missing) => task.filed(Waiting { missing, tip, source: addr }),
        None => task.told(
            PeerConnectionMessage::BodiesAvailable(request.peer_state_id->Some_0),
            addr,
        ),
    };
    assert forall|other: Waiting| #[trigger] told.waiting.contains(other) <==> waits_now(archive, task, addr, request, other) by {
        if let Some(missing) = missing {
            law_filing_adds_one_item(
                task.waiting,
                Waiting { missing, tip, source: addr },
                other,
            );
        }
    }
    let block_tip = Tip {
        block_hash: request.block_hash,
        main_block_hash: first_verified(
            archive,
            (archive.bmm_results)(request.block_hash)@,
            tip.main_block_hash,
        )->Some_0,
    };
    let tip_hash = match archive.tip {
        Some(tip) => Some(tip.block_hash),
        None => None,
    };
    let first = NewTipReady { tip: block_tip, addr: Some(addr) };
    let noted = if header.prev_side_hash == tip_hash {
        told.ready(block_tip, addr)
    } else {
        told
    };
    let groups = groups_for(noted.waiting, request.block_hash);
    let start = TaskView { waiting: not_for(noted.waiting, request.block_hash), ..noted };
    assert(after == groups_effect(archive, start, groups));
    lemma_groups_effect(archive, start, groups, ready, item);
    assert(told.new_tips == task.new_tips);
    let old = task.new_tips;
    if header.prev_side_hash == tip_hash {
        assert(start.new_tips == old.push(first));
        assert(start.new_tips[old.len() as int] == first);
        if old.contains(ready) {
            assert(start.new_tips[old.index_of(ready)] == ready);
        }
        if start.new_tips.contains(ready) {
            let i = start.new_tips.index_of(ready);
            if i < old.len() {
                assert(old[i] == ready);
            }
        }
    }
    assert(old.is_prefix_of(after.new_tips)) by {
        assert(start.new_tips == after.new_tips.take(start.new_tips.len() as int));
        assert(after.new_tips.take(old.len() as int) =~= old);
    }
    assert forall|t: Tip, s: SocketAddr| #[trigger] sends(groups, t, s) <==> waits_now(
        archive,
        task,
        addr,
        request,
        Waiting { missing: request.block_hash, tip: t, source: s },
    ) by {
        law_nothing_waiting_is_lost(
            noted.waiting,
            request.block_hash,
            Waiting { missing: request.block_hash, tip: t, source: s },
        );
    }
    law_nothing_waiting_is_lost(noted.waiting, request.block_hash, item);
    if ready_by(archive, groups, ready) {
        let (t, s) = choose|t: Tip, s: SocketAddr| #[trigger]
            sends(groups, t, s) && ready.addr == Some(s) && makes_available(
                archive,
                t,
                ready.tip,
            );
        assert(waits_now(
            archive,
            task,
            addr,
            request,
            Waiting { missing: request.block_hash, tip: t, source: s },
        ));
    }
    if exists|other: Waiting| #[trigger]
        waits_now(archive, task, addr, request, other) && other.missing == request.block_hash
            && ready.addr == Some(other.source) && makes_available(
            archive,
            other.tip,
            ready.tip,
        ) {
        let other = choose|other: Waiting| #[trigger]
            waits_now(archive, task, addr, request, other) && other.missing == request.block_hash && ready.addr == Some(
                other.source,
            ) && makes_available(archive, other.tip, ready.tip);
        assert(sends(groups, other.tip, other.source));
    }
}

} // verus!
