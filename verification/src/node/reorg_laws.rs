//! What a re-organisation does to the chain, whatever the database holds.

use vstd::prelude::*;

use crate::hash::{BlockHash, MainBlockHash};
use crate::node::error::Error;
use crate::node::reorg::{
    announced, applied_count, first_step, lemma_applied_count, AskView, Phase, ReorgReply,
    ReorgView, StepView,
};
use crate::types::{Block, MainBlock, MainBlockInfo, Tip};

pub mod peg;

verus! {

/// What the archive holds, and how the state takes blocks.
pub struct Store {
    /// The chain of a block, from the first block up to the block itself.
    pub path: spec_fn(BlockHash) -> Seq<BlockHash>,
    pub block: spec_fn(BlockHash) -> Block,
    /// The best verification of a block.
    pub verification: spec_fn(BlockHash) -> MainBlockHash,
    /// The better one of two tips.
    pub better: spec_fn(Tip, Tip) -> Option<Tip>,
    pub main_info: spec_fn(MainBlockHash) -> MainBlockInfo,
    pub main_parent: spec_fn(MainBlockHash) -> Option<MainBlockHash>,
    /// Why the state does not take a block on top of a chain, if it does not.
    pub rejects: spec_fn(Seq<BlockHash>, BlockHash) -> Option<Error>,
}

/// The chain of the state, the one that would be found after a crash, and what
/// was deleted.
pub struct Chains {
    pub current: Seq<BlockHash>,
    pub committed: Seq<BlockHash>,
    /// The blocks whose bodies were deleted from the archive.
    pub deleted: Set<BlockHash>,
}

/// The length of the longest common start of two chains, `upto` at most.
pub open spec fn common_len(a: Seq<BlockHash>, b: Seq<BlockHash>, upto: nat) -> nat
    decreases upto,
{
    if upto == 0 || (upto <= a.len() && upto <= b.len() && a.take(upto as int) == b.take(
        upto as int,
    )) {
        upto
    } else {
        common_len(a, b, (upto - 1) as nat)
    }
}

/// The length of the longest common start of two chains.
pub open spec fn common(a: Seq<BlockHash>, b: Seq<BlockHash>) -> nat {
    common_len(a, b, a.len())
}

/// The last block of a chain.
pub open spec fn top(chain: Seq<BlockHash>) -> Option<BlockHash> {
    if chain.len() == 0 {
        None
    } else {
        Some(chain.last())
    }
}

impl Store {
    /// Whether the archive holds the chain of a block: each block of it names
    /// its parent, and its height fits its type.
    pub open spec fn holds(self, block_hash: BlockHash) -> bool {
        let path = (self.path)(block_hash);
        &&& 0 < path.len() <= u32::MAX
        &&& path.last() == block_hash
        &&& forall|i: int| 0 <= i < path.len() ==> #[trigger] self.links(path, i)
    }

    /// Whether a block of a chain names its parent.
    pub open spec fn links(self, path: Seq<BlockHash>, i: int) -> bool {
        let block = (self.block)(path[i]);
        &&& (self.path)(path[i]) == path.take(i + 1)
        &&& block.header.hash == path[i]
        &&& block.header.prev_side_hash == top(path.take(i))
    }

    /// The tip of a chain, with its best verification.
    pub open spec fn tip(self, chain: Seq<BlockHash>) -> Option<Tip> {
        match top(chain) {
            Some(block_hash) => Some(
                Tip { block_hash, main_block_hash: (self.verification)(block_hash) },
            ),
            None => None,
        }
    }

    /// Whether a tip is better than the tip of a chain.
    pub open spec fn improves(self, chain: Seq<BlockHash>, new_tip: Tip) -> bool {
        match self.tip(chain) {
            Some(tip) => (self.better)(tip, new_tip) == Some(new_tip),
            None => true,
        }
    }

    /// What the database answers, and what becomes of the chains.
    pub open spec fn answer(self, chains: Chains, ask: AskView) -> (Chains, ReorgReply) {
        match ask {
            AskView::StateTip => (
                chains,
                ReorgReply::StateTip {
                    height: if chains.current.len() == 0 {
                        None
                    } else {
                        Some((chains.current.len() - 1) as u32)
                    },
                    tip: self.tip(chains.current),
                },
            ),
            AskView::BetterTip { tip, new_tip } => (
                chains,
                ReorgReply::BetterTip((self.better)(tip, new_tip)),
            ),
            AskView::CommonAncestor { block_hash, new_block_hash } => {
                let path = (self.path)(block_hash);
                let n = common(path, (self.path)(new_block_hash));
                (chains, ReorgReply::CommonAncestor(top(path.take(n as int))))
            },
            AskView::Block(block_hash) => (chains, ReorgReply::Block((self.block)(block_hash))),
            AskView::Height(block_hash) => (
                chains,
                ReorgReply::Height(((self.path)(block_hash).len() - 1) as u32),
            ),
            AskView::DisconnectTip => (
                Chains { current: chains.current.drop_last(), ..chains },
                ReorgReply::Done,
            ),
            AskView::Header(block_hash) => (
                chains,
                ReorgReply::Header((self.block)(block_hash).header),
            ),
            AskView::MainBlock(hash) => (
                chains,
                ReorgReply::MainBlock {
                    info: (self.main_info)(hash),
                    parent: (self.main_parent)(hash),
                },
            ),
            AskView::ConnectTip { block, .. } => match (self.rejects)(
                chains.current,
                block.header.hash,
            ) {
                Some(err) => (chains, ReorgReply::NotConnected { block, err }),
                None => (
                    Chains { current: chains.current.push(block.header.hash), ..chains },
                    ReorgReply::Done,
                ),
            },
            AskView::Commit => (
                Chains { committed: chains.current, ..chains },
                ReorgReply::Done,
            ),
            AskView::DeleteBody { block } => (
                Chains {
                    current: chains.committed,
                    deleted: chains.deleted.insert(block.header.hash),
                    ..chains
                },
                ReorgReply::Done,
            ),
        }
    }

    /// The chains and the step after at most `n` questions were answered.
    pub open spec fn run(self, chains: Chains, step: StepView, n: nat) -> (Chains, StepView)
        decreases n,
    {
        match step {
            StepView::Ask(ask, reorg) if n > 0 => {
                let (after, reply) = self.answer(chains, ask);
                self.run(after, reorg.next_step(reply), (n - 1) as nat)
            },
            _ => (chains, step),
        }
    }

    /// The chains and the step after a re-organisation from a chain got at most
    /// `n` answers.
    pub open spec fn reorg(self, chain: Seq<BlockHash>, new_tip: Tip, n: nat) -> (
        Chains,
        StepView,
    ) {
        self.run(
            Chains { current: chain, committed: chain, deleted: Set::empty() },
            first_step(new_tip),
            n,
        )
    }
}

/// The start of a re-organisation: the archive holds the chain of the state and
/// that of the new tip, and a new tip that is better than that of the state is
/// not part of the chain of the state.
pub struct Start {
    pub store: Store,
    pub chain: Seq<BlockHash>,
    pub new_tip: Tip,
}

impl Start {
    pub open spec fn path(self) -> Seq<BlockHash> {
        (self.store.path)(self.new_tip.block_hash)
    }

    /// The number of blocks that the chain of the state and that of the new tip
    /// have in common.
    pub open spec fn shared(self) -> nat {
        common(self.chain, self.path())
    }

    pub open spec fn valid(self) -> bool {
        &&& self.store.holds(self.new_tip.block_hash)
        &&& self.chain.len() > 0 ==> self.store.holds(self.chain.last()) && (self.store.path)(
            self.chain.last(),
        ) == self.chain
        &&& self.store.improves(self.chain, self.new_tip) ==> self.shared() < self.path().len()
    }

    /// Whether a committed chain is the one that the re-organisation started
    /// from, that of the new tip, or one with a better tip.
    pub open spec fn sound(self, committed: Seq<BlockHash>) -> bool {
        ||| committed == self.chain
        ||| committed == self.path() && self.store.improves(self.chain, self.new_tip)
        ||| {
            &&& committed.is_prefix_of(self.path())
            &&& committed.len() > self.shared()
            &&& self.store.improves(self.chain, self.store.tip(committed)->Some_0)
        }
    }

    /// Whether the first `j` blocks of the chain of the new tip have a better tip
    /// than the chain of the state.
    pub open spec fn better_at(self, j: int) -> bool {
        self.store.improves(self.chain, self.store.tip(self.path().take(j))->Some_0)
    }

    /// Whether the committed chain is the longest start of the chain of the new tip
    /// with a better tip, among those of up to `upto` blocks, or the chain that the
    /// re-organisation started from, if none of them has.
    pub open spec fn saved(self, committed: Seq<BlockHash>, upto: int) -> bool {
        let n = self.shared() as int;
        let m = committed.len() as int;
        ||| {
            &&& committed == self.chain
            &&& forall|j: int| n < j <= upto ==> !#[trigger] self.better_at(j)
        }
        ||| {
            &&& n < m <= upto
            &&& committed == self.path().take(m)
            &&& self.better_at(m)
            &&& forall|j: int| m < j <= upto ==> !#[trigger] self.better_at(j)
        }
    }

    /// Whether the state, at the end of the blocks before it, refuses the block
    /// at a place in the chain of the new tip, which it does not hold yet.
    pub open spec fn refused_at(self, k: int, err: Error) -> bool {
        &&& self.shared() <= k < self.path().len()
        &&& (self.store.rejects)(self.path().take(k), self.path()[k]) == Some(err)
    }

    /// Whether an error is the refusal by the state of a block of the chain of
    /// the new tip. No block from there on was committed. An invalid block leaves
    /// only what was committed, and its body is deleted.
    pub open spec fn failed_for(self, chains: Chains, err: Error) -> bool {
        exists|k: int|
            {
                &&& #[trigger] self.refused_at(k, err)
                &&& chains.committed == self.chain || chains.committed.len() <= k
                &&& self.saved(chains.committed, k)
                &&& if err is State {
                    chains.deleted == set![self.path()[k]] && chains.current == chains.committed
                } else {
                    chains.deleted == Set::<BlockHash>::empty()
                }
            }
    }

    /// The highest `k` blocks of the chain of the new tip, the highest first.
    spec fn blocks(self, k: int) -> Seq<Block> {
        Seq::new(k as nat, |i: int| (self.store.block)(self.path()[self.path().len() - 1 - i]))
    }

    spec fn ancestor(self) -> Option<BlockHash> {
        top(self.chain.take(self.shared() as int))
    }

    spec fn height(self) -> Option<u32> {
        if self.chain.len() == 0 {
            None
        } else {
            Some((self.chain.len() - 1) as u32)
        }
    }

    spec fn ancestor_height(self) -> Option<u32> {
        if self.shared() == 0 {
            None
        } else {
            Some((self.shared() - 1) as u32)
        }
    }

    /// What is known once the tips were compared.
    spec fn compared(self, reorg: ReorgView) -> bool {
        &&& reorg.new_tip == self.new_tip
        &&& reorg.tip == self.store.tip(self.chain)
        &&& reorg.tip_height == self.height()
        &&& self.store.improves(self.chain, self.new_tip)
    }

    /// What is known once the common ancestor was found.
    spec fn rooted(self, reorg: ReorgView) -> bool {
        &&& self.compared(reorg)
        &&& reorg.common_ancestor == self.ancestor()
    }

    /// What holds between disconnecting and connecting.
    spec fn at_ancestor(self, reorg: ReorgView, chains: Chains) -> bool {
        &&& self.rooted(reorg)
        &&& reorg.common_ancestor_height == self.ancestor_height()
        &&& reorg.blocks == self.blocks(self.path().len() - self.shared())
        &&& reorg.connected == Seq::<BlockHash>::empty()
        &&& chains.current == self.chain.take(self.shared() as int)
        &&& chains.committed == self.chain
    }

    /// What holds when `k` blocks were connected and `left` are left.
    spec fn connecting(self, reorg: ReorgView, chains: Chains, k: int, left: int) -> bool {
        let n = self.shared() as int;
        &&& 0 <= k
        &&& n + k + left <= self.path().len()
        &&& 0 <= left
        &&& self.rooted(reorg)
        &&& reorg.common_ancestor_height == self.ancestor_height()
        &&& reorg.blocks == self.blocks(left)
        &&& reorg.connected == self.path().subrange(n, n + k)
        &&& chains.current == self.path().take(n + k)
        &&& chains.committed == self.chain || chains.committed.len() <= n + k
    }

    #[verifier::opaque]
    spec fn awaits_start(self, chains: Chains, ask: AskView, reorg: ReorgView) -> bool {
        &&& StepView::Ask(ask, reorg) == first_step(self.new_tip)
        &&& chains.current == self.chain && chains.committed == self.chain
    }

    #[verifier::opaque]
    spec fn awaits_compare(self, chains: Chains, ask: AskView, reorg: ReorgView) -> bool {
        let k = reorg.connected.len() as int;
        &&& chains.current == self.chain && chains.committed == self.chain
        &&& reorg.new_tip == self.new_tip
        &&& reorg.tip == self.store.tip(self.chain)
        &&& reorg.tip_height == self.height()
        &&& self.chain.len() > 0
        &&& ask == AskView::BetterTip {
            tip: reorg.tip->Some_0,
            new_tip: self.new_tip,
        }
        &&& reorg.common_ancestor_height is None
        &&& reorg.blocks.len() == 0 && k == 0
    }

    #[verifier::opaque]
    spec fn awaits_common_ancestor(self, chains: Chains, ask: AskView, reorg: ReorgView) -> bool {
        let k = reorg.connected.len() as int;
        &&& chains.current == self.chain && chains.committed == self.chain
        &&& self.compared(reorg)
        &&& self.chain.len() > 0
        &&& ask == AskView::CommonAncestor {
            block_hash: self.chain.last(),
            new_block_hash: self.new_tip.block_hash,
        }
        &&& reorg.common_ancestor_height is None
        &&& reorg.blocks.len() == 0 && k == 0
    }

    #[verifier::opaque]
    spec fn awaits_load(
        self,
        chains: Chains,
        ask: AskView,
        reorg: ReorgView,
        block_hash: BlockHash,
    ) -> bool {
        let n = self.shared() as int;
        let len = self.path().len() as int;
        let k = reorg.connected.len() as int;
        &&& chains.current == self.chain && chains.committed == self.chain
        &&& self.rooted(reorg)
        &&& reorg.common_ancestor_height is None && k == 0
        &&& reorg.blocks == self.blocks(reorg.blocks.len() as int)
        &&& reorg.blocks.len() < len - n
        &&& block_hash == self.path()[len - 1 - reorg.blocks.len()]
        &&& ask == AskView::Block(block_hash)
    }

    #[verifier::opaque]
    spec fn awaits_ancestor_height(self, chains: Chains, ask: AskView, reorg: ReorgView) -> bool {
        let n = self.shared() as int;
        let len = self.path().len() as int;
        let k = reorg.connected.len() as int;
        &&& chains.current == self.chain && chains.committed == self.chain
        &&& self.rooted(reorg)
        &&& n > 0
        &&& reorg.blocks == self.blocks(len - n) && k == 0
        &&& ask == AskView::Height(self.chain[n - 1])
    }

    #[verifier::opaque]
    spec fn awaits_disconnect(
        self,
        chains: Chains,
        ask: AskView,
        reorg: ReorgView,
        times: u64,
    ) -> bool {
        let n = self.shared() as int;
        let len = self.path().len() as int;
        let k = reorg.connected.len() as int;
        &&& n + times + 1 <= self.chain.len()
        &&& chains.committed == self.chain
        &&& chains.current == self.chain.take(n + times + 1)
        &&& self.rooted(reorg)
        &&& reorg.common_ancestor_height == self.ancestor_height()
        &&& reorg.blocks == self.blocks(len - n) && k == 0
        &&& ask == AskView::DisconnectTip
    }

    #[verifier::opaque]
    spec fn awaits_check_tip(self, chains: Chains, ask: AskView, reorg: ReorgView) -> bool {
        &&& self.at_ancestor(reorg, chains)
        &&& ask == AskView::StateTip
    }

    #[verifier::opaque]
    spec fn awaits_ancestor_header(self, chains: Chains, ask: AskView, reorg: ReorgView) -> bool {
        let n = self.shared() as int;
        &&& self.at_ancestor(reorg, chains)
        &&& n > 0
        &&& ask == AskView::Header(self.chain[n - 1])
    }

    #[verifier::opaque]
    spec fn awaits_walk(
        self,
        chains: Chains,
        ask: AskView,
        reorg: ReorgView,
        at: MainBlockHash,
    ) -> bool {
        &&& self.at_ancestor(reorg, chains)
        &&& ask == AskView::MainBlock(at)
    }

    #[verifier::opaque]
    spec fn awaits_connect(
        self,
        chains: Chains,
        ask: AskView,
        reorg: ReorgView,
        block_hash: BlockHash,
    ) -> bool {
        let n = self.shared() as int;
        let len = self.path().len() as int;
        let k = reorg.connected.len() as int;
        &&& self.connecting(reorg, chains, k, len - n - k - 1)
        &&& self.saved(chains.committed, n + k)
        &&& block_hash == self.path()[n + k]
        &&& ask matches AskView::ConnectTip { block, .. }
            && block == (self.store.block)(block_hash)
    }

    #[verifier::opaque]
    spec fn awaits_connected(self, chains: Chains, ask: AskView, reorg: ReorgView) -> bool {
        let n = self.shared() as int;
        let len = self.path().len() as int;
        let k = reorg.connected.len() as int;
        &&& self.connecting(reorg, chains, k, len - n - k)
        &&& k > 0
        &&& self.saved(chains.committed, n + k - 1)
        &&& ask == AskView::StateTip
    }

    #[verifier::opaque]
    spec fn awaits_improved(
        self,
        chains: Chains,
        ask: AskView,
        reorg: ReorgView,
        tip: Tip,
    ) -> bool {
        let n = self.shared() as int;
        let len = self.path().len() as int;
        let k = reorg.connected.len() as int;
        &&& self.connecting(reorg, chains, k, len - n - k)
        &&& k > 0
        &&& self.saved(chains.committed, n + k - 1)
        &&& self.store.tip(chains.current) == Some(tip)
        &&& reorg.tip is Some
        &&& ask == AskView::BetterTip { tip: reorg.tip->Some_0, new_tip: tip }
    }

    #[verifier::opaque]
    spec fn awaits_commit(self, chains: Chains, ask: AskView, reorg: ReorgView) -> bool {
        let n = self.shared() as int;
        let len = self.path().len() as int;
        let k = reorg.connected.len() as int;
        &&& self.connecting(reorg, chains, k, len - n - k)
        &&& k > 0
        &&& self.store.improves(
            self.chain,
            self.store.tip(chains.current)->Some_0,
            )
        &&& ask == AskView::Commit
    }

    #[verifier::opaque]
    spec fn awaits_final_tip(self, chains: Chains, ask: AskView, reorg: ReorgView) -> bool {
        let n = self.shared() as int;
        let len = self.path().len() as int;
        let k = reorg.connected.len() as int;
        &&& self.connecting(reorg, chains, len - n, 0)
        &&& k == len - n
        &&& ask == AskView::StateTip
    }

    #[verifier::opaque]
    spec fn awaits_final_commit(self, chains: Chains, ask: AskView, reorg: ReorgView) -> bool {
        let n = self.shared() as int;
        let len = self.path().len() as int;
        let k = reorg.connected.len() as int;
        &&& self.connecting(reorg, chains, len - n, 0)
        &&& k == len - n
        &&& ask == AskView::Commit
    }

    #[verifier::opaque]
    spec fn awaits_delete(
        self,
        chains: Chains,
        ask: AskView,
        reorg: ReorgView,
        err: Error,
    ) -> bool {
        &&& err is State
        &&& ask matches AskView::DeleteBody { block } && exists|k: int| #[trigger]
            self.refused_at(k, err) && block.header.hash == self.path()[k] && self.saved(
                chains.committed,
                k,
            ) && (chains.committed == self.chain || chains.committed.len() <= k)
    }

    /// What holds at each step.
    spec fn steady(self, chains: Chains, step: StepView) -> bool {
        let n = self.shared() as int;
        &&& self.sound(chains.committed)
        &&& !(step is Failed) ==> chains.deleted == Set::<BlockHash>::empty()
        &&& match step {
            StepView::NotBetter => {
                &&& chains.current == self.chain && chains.committed == self.chain
                &&& !self.store.improves(self.chain, self.new_tip)
            },
            StepView::Synced(announcements) => {
                &&& chains.current == self.path() && chains.committed == self.path()
                &&& self.store.improves(self.chain, self.new_tip)
                &&& announcements == announced(self.path().skip(n), n)
            },
            StepView::Failed(err) => self.failed_for(chains, err),
            StepView::Ask(ask, reorg) => match reorg.phase {
                Phase::Start => self.awaits_start(chains, ask, reorg),
                Phase::Compare => self.awaits_compare(chains, ask, reorg),
                Phase::CommonAncestor => self.awaits_common_ancestor(chains, ask, reorg),
                Phase::Load(block_hash) => self.awaits_load(chains, ask, reorg, block_hash),
                Phase::AncestorHeight => self.awaits_ancestor_height(chains, ask, reorg),
                Phase::Disconnect(times) => self.awaits_disconnect(chains, ask, reorg, times),
                Phase::CheckTip => self.awaits_check_tip(chains, ask, reorg),
                Phase::AncestorHeader => self.awaits_ancestor_header(chains, ask, reorg),
                Phase::Walk { at, .. } => self.awaits_walk(chains, ask, reorg, at),
                Phase::Connect(block_hash) => self.awaits_connect(chains, ask, reorg, block_hash),
                Phase::Connected => self.awaits_connected(chains, ask, reorg),
                Phase::Improved(tip) => self.awaits_improved(chains, ask, reorg, tip),
                Phase::Commit => self.awaits_commit(chains, ask, reorg),
                Phase::FinalTip => self.awaits_final_tip(chains, ask, reorg),
                Phase::FinalCommit => self.awaits_final_commit(chains, ask, reorg),
                Phase::Delete(err) => self.awaits_delete(chains, ask, reorg, err),
            },
        }
    }

    proof fn lemma_common(self)
        requires
            self.valid(),
        ensures
            self.shared() <= self.chain.len(),
            self.shared() <= self.path().len(),
            self.chain.take(self.shared() as int) == self.path().take(self.shared() as int),
            self.ancestor() == top(self.path().take(self.shared() as int)),
            self.shared() > 0 ==> self.ancestor() == Some(self.chain[self.shared() - 1]),
    {
        lemma_common_len(self.chain, self.path(), self.chain.len());
    }

    proof fn lemma_path_is_distinct(self, i: int, j: int)
        requires
            self.valid(),
            0 <= i < j < self.path().len(),
        ensures
            self.path()[i] != self.path()[j],
    {
        let path = self.path();
        assert(self.store.links(path, i) && self.store.links(path, j));
        assert(path.take(i + 1).len() != path.take(j + 1).len());
    }

    /// Connecting the next block, or checking the tip after the last one, keeps
    /// the invariant.
    proof fn lemma_connects(self, chains: Chains, reorg: ReorgView)
        requires
            self.valid(),
            self.sound(chains.committed),
            chains.deleted == Set::<BlockHash>::empty(),
            ({
                let n = self.shared() as int;
                let k = reorg.connected.len() as int;
                &&& self.connecting(reorg, chains, k, self.path().len() - n - k)
                &&& self.saved(chains.committed, n + k)
            }),
        ensures
            self.steady(chains, reorg.connects()),
    {
        reveal(Start::awaits_final_tip);
        reveal(Start::awaits_connect);
        let n = self.shared() as int;
        let len = self.path().len() as int;
        let k = reorg.connected.len() as int;
        if reorg.blocks.len() > 0 {
            assert(reorg.blocks.drop_last() =~= self.blocks(len - n - k - 1));
            assert(reorg.blocks.last() == (self.store.block)(self.path()[n + k]));
            assert(self.store.links(self.path(), n + k));
        } else {
            assert(self.path().take(len) =~= self.path());
        }
    }

    /// Walking on over the mainchain keeps the invariant.
    proof fn lemma_walks(
        self,
        chains: Chains,
        reorg: ReorgView,
        next: Option<MainBlockHash>,
        stop: Option<MainBlockHash>,
    )
        requires
            self.valid(),
            self.sound(chains.committed),
            chains.deleted == Set::<BlockHash>::empty(),
            self.at_ancestor(reorg, chains),
        ensures
            self.steady(chains, reorg.walks(next, stop)),
    {
        reveal(Start::awaits_walk);
        self.lemma_common();
        let n = self.shared() as int;
        assert(self.path().subrange(n, n) =~= Seq::<BlockHash>::empty());
        self.lemma_connects(chains, reorg);
    }

    /// Disconnecting on, or checking the tip after the last time, keeps the
    /// invariant.
    proof fn lemma_disconnects(self, chains: Chains, reorg: ReorgView, times: int)
        requires
            self.sound(chains.committed),
            chains.deleted == Set::<BlockHash>::empty(),
            self.rooted(reorg),
            reorg.common_ancestor_height == self.ancestor_height(),
            reorg.blocks == self.blocks(self.path().len() - self.shared()),
            reorg.connected.len() == 0,
            chains.committed == self.chain,
            0 <= times <= u64::MAX,
            self.shared() + times <= self.chain.len(),
            chains.current == self.chain.take(self.shared() + times),
        ensures
            self.steady(chains, reorg.disconnects(times)),
    {
        reveal(Start::awaits_disconnect);
        reveal(Start::awaits_check_tip);
        assert(reorg.connected =~= Seq::<BlockHash>::empty());
        if times > 0 {
            let after = ReorgView { phase: Phase::Disconnect((times - 1) as u64), ..reorg };
            assert(reorg.disconnects(times) == StepView::Ask(AskView::DisconnectTip, after));
            assert(self.rooted(after));
        } else {
            let after = ReorgView { phase: Phase::CheckTip, ..reorg };
            assert(reorg.disconnects(times) == StepView::Ask(AskView::StateTip, after));
            assert(self.at_ancestor(after, chains));
        }
    }

    proof fn lemma_start_next(self, chains: Chains, ask: AskView, reorg: ReorgView)
        requires
            self.valid(),
            self.steady(chains, StepView::Ask(ask, reorg)),
            reorg.phase is Start,
        ensures
            ({
                let (after, reply) = self.store.answer(chains, ask);
                self.steady(after, reorg.next_step(reply))
            }),
    {
        reveal(Start::awaits_start);
        reveal(Start::awaits_compare);
        reveal(Start::awaits_load);
        let len = self.path().len() as int;
        self.lemma_common();
        assert(reorg.connected =~= Seq::<BlockHash>::empty());
        assert(self.blocks(0) =~= Seq::<Block>::empty());
        if self.chain.len() == 0 {
            assert(self.chain.take(0) =~= Seq::<BlockHash>::empty());
        }
    }

    proof fn lemma_compare_next(self, chains: Chains, ask: AskView, reorg: ReorgView)
        requires
            self.valid(),
            self.steady(chains, StepView::Ask(ask, reorg)),
            reorg.phase is Compare,
        ensures
            ({
                let (after, reply) = self.store.answer(chains, ask);
                self.steady(after, reorg.next_step(reply))
            }),
    {
        reveal(Start::awaits_compare);
        reveal(Start::awaits_common_ancestor);
        self.lemma_common();
    }

    proof fn lemma_common_ancestor_next(self, chains: Chains, ask: AskView, reorg: ReorgView)
        requires
            self.valid(),
            self.steady(chains, StepView::Ask(ask, reorg)),
            reorg.phase is CommonAncestor,
        ensures
            ({
                let (after, reply) = self.store.answer(chains, ask);
                self.steady(after, reorg.next_step(reply))
            }),
    {
        reveal(Start::awaits_common_ancestor);
        reveal(Start::awaits_load);
        self.lemma_common();
        assert(reorg.blocks =~= self.blocks(0));
    }

    proof fn lemma_load_next(self, chains: Chains, ask: AskView, reorg: ReorgView)
        requires
            self.valid(),
            self.steady(chains, StepView::Ask(ask, reorg)),
            reorg.phase is Load,
        ensures
            ({
                let (after, reply) = self.store.answer(chains, ask);
                self.steady(after, reorg.next_step(reply))
            }),
    {
        reveal(Start::awaits_load);
        reveal(Start::awaits_ancestor_height);
        reveal(Start::awaits_check_tip);
        let (after, reply) = self.store.answer(chains, ask);
        let n = self.shared() as int;
        let len = self.path().len() as int;
        let path = self.path();
        self.lemma_common();
        if let Phase::Load(block_hash) = reorg.phase {
            let i = len - 1 - reorg.blocks.len();
            let block = (self.store.block)(block_hash);
            let more = ReorgView { blocks: reorg.blocks.push(block), ..reorg };
            assert(more.blocks =~= self.blocks(reorg.blocks.len() as int + 1));
            assert(self.store.links(path, i));
            if i > n {
                assert(path.take(i).last() == path[i - 1]);
                if n > 0 {
                    self.lemma_path_is_distinct(n - 1, i - 1);
                    assert(path.take(n).last() == path[n - 1]);
                }
                assert(self.common_is_not(path[i - 1]));
            } else {
                assert(i == n);
                if n == 0 && self.chain.len() > 0 {
                    assert(self.chain.take(n + self.chain.len()) =~= self.chain);
                    self.lemma_disconnects(after, more, self.chain.len() as int);
                }
                if self.chain.len() == 0 {
                    assert(reorg.connected =~= Seq::<BlockHash>::empty());
                    assert(self.chain.take(0) =~= self.chain);
                }
            }
        }
    }

    proof fn lemma_ancestor_height_next(self, chains: Chains, ask: AskView, reorg: ReorgView)
        requires
            self.valid(),
            self.steady(chains, StepView::Ask(ask, reorg)),
            reorg.phase is AncestorHeight,
        ensures
            ({
                let (after, reply) = self.store.answer(chains, ask);
                self.steady(after, reorg.next_step(reply))
            }),
    {
        reveal(Start::awaits_ancestor_height);
        let (after, reply) = self.store.answer(chains, ask);
        let n = self.shared() as int;
        let len = self.path().len() as int;
        let path = self.path();
        self.lemma_common();
        let known = ReorgView { common_ancestor_height: Some((n - 1) as u32), ..reorg };
        assert(path.take(n).last() == path[n - 1]);
        assert(self.chain.take(n).last() == self.chain[n - 1]);
        assert(self.chain.take(n)[n - 1] == path.take(n)[n - 1]);
        assert(self.store.links(path, n - 1));
        assert(self.chain.take(n + (self.chain.len() - n)) =~= self.chain);
        self.lemma_disconnects(after, known, self.chain.len() - n);
    }

    proof fn lemma_disconnect_next(self, chains: Chains, ask: AskView, reorg: ReorgView)
        requires
            self.valid(),
            self.steady(chains, StepView::Ask(ask, reorg)),
            reorg.phase is Disconnect,
        ensures
            ({
                let (after, reply) = self.store.answer(chains, ask);
                self.steady(after, reorg.next_step(reply))
            }),
    {
        reveal(Start::awaits_disconnect);
        let (after, reply) = self.store.answer(chains, ask);
        let n = self.shared() as int;
        self.lemma_common();
        if let Phase::Disconnect(times) = reorg.phase {
            assert(self.chain.take(n + times + 1).drop_last() =~= self.chain.take(n + times));
            self.lemma_disconnects(after, reorg, times as int);
        }
    }

    proof fn lemma_check_tip_next(self, chains: Chains, ask: AskView, reorg: ReorgView)
        requires
            self.valid(),
            self.steady(chains, StepView::Ask(ask, reorg)),
            reorg.phase is CheckTip,
        ensures
            ({
                let (after, reply) = self.store.answer(chains, ask);
                self.steady(after, reorg.next_step(reply))
            }),
    {
        reveal(Start::awaits_check_tip);
        reveal(Start::awaits_ancestor_header);
        let (after, reply) = self.store.answer(chains, ask);
        let n = self.shared() as int;
        let len = self.path().len() as int;
        let path = self.path();
        self.lemma_common();
        assert(reorg.blocks[0] == (self.store.block)(path[len - 1]));
        if n == 0 {
            self.lemma_walks(
                after,
                reorg,
                Some(reorg.blocks[0].header.prev_main_hash),
                None,
            );
        }
    }

    proof fn lemma_ancestor_header_next(self, chains: Chains, ask: AskView, reorg: ReorgView)
        requires
            self.valid(),
            self.steady(chains, StepView::Ask(ask, reorg)),
            reorg.phase is AncestorHeader,
        ensures
            ({
                let (after, reply) = self.store.answer(chains, ask);
                self.steady(after, reorg.next_step(reply))
            }),
    {
        reveal(Start::awaits_ancestor_header);
        let (after, reply) = self.store.answer(chains, ask);
        let n = self.shared() as int;
        self.lemma_common();
        let stop = Some((self.store.block)(self.chain[n - 1]).header.prev_main_hash);
        self.lemma_walks(after, reorg, Some(reorg.blocks[0].header.prev_main_hash), stop);
    }

    proof fn lemma_walk_next(self, chains: Chains, ask: AskView, reorg: ReorgView)
        requires
            self.valid(),
            self.steady(chains, StepView::Ask(ask, reorg)),
            reorg.phase is Walk,
        ensures
            ({
                let (after, reply) = self.store.answer(chains, ask);
                self.steady(after, reorg.next_step(reply))
            }),
    {
        reveal(Start::awaits_walk);
        let (after, reply) = self.store.answer(chains, ask);
        self.lemma_common();
        if let Phase::Walk { at, stop } = reorg.phase {
            let more = ReorgView {
                main_blocks: reorg.main_blocks.push(
                    MainBlock { hash: at, info: (self.store.main_info)(at) },
                ),
                ..reorg
            };
            self.lemma_walks(after, more, (self.store.main_parent)(at), stop);
        }
    }

    proof fn lemma_connect_next(self, chains: Chains, ask: AskView, reorg: ReorgView)
        requires
            self.valid(),
            self.steady(chains, StepView::Ask(ask, reorg)),
            reorg.phase is Connect,
        ensures
            ({
                let (after, reply) = self.store.answer(chains, ask);
                self.steady(after, reorg.next_step(reply))
            }),
    {
        reveal(Start::awaits_connect);
        reveal(Start::awaits_connected);
        reveal(Start::awaits_delete);
        let n = self.shared() as int;
        let len = self.path().len() as int;
        let k = reorg.connected.len() as int;
        let path = self.path();
        self.lemma_common();
        if let Phase::Connect(block_hash) = reorg.phase {
            assert(self.store.links(path, n + k));
            match (self.store.rejects)(chains.current, block_hash) {
                Some(err) => {
                    assert(self.refused_at(n + k, err));
                },
                None => {
                    assert(path.take(n + k).push(block_hash) =~= path.take(n + k + 1));
                    assert(path.subrange(n, n + k).push(block_hash) =~= path.subrange(
                        n,
                        n + k + 1,
                    ));
                },
            }
        }
    }

    proof fn lemma_connected_next(self, chains: Chains, ask: AskView, reorg: ReorgView)
        requires
            self.valid(),
            self.steady(chains, StepView::Ask(ask, reorg)),
            reorg.phase is Connected,
        ensures
            ({
                let (after, reply) = self.store.answer(chains, ask);
                self.steady(after, reorg.next_step(reply))
            }),
    {
        reveal(Start::awaits_connected);
        reveal(Start::awaits_improved);
        reveal(Start::awaits_commit);
        self.lemma_common();
    }

    proof fn lemma_improved_next(self, chains: Chains, ask: AskView, reorg: ReorgView)
        requires
            self.valid(),
            self.steady(chains, StepView::Ask(ask, reorg)),
            reorg.phase is Improved,
        ensures
            ({
                let (after, reply) = self.store.answer(chains, ask);
                self.steady(after, reorg.next_step(reply))
            }),
    {
        reveal(Start::awaits_improved);
        reveal(Start::awaits_commit);
        let (after, reply) = self.store.answer(chains, ask);
        self.lemma_common();
        if let Phase::Improved(tip) = reorg.phase {
            if (self.store.better)(reorg.tip->Some_0, tip) != Some(tip) {
                let n = self.shared() as int;
                assert(!self.better_at(n + reorg.connected.len()));
                self.lemma_connects(after, reorg);
            }
        }
    }

    proof fn lemma_commit_next(self, chains: Chains, ask: AskView, reorg: ReorgView)
        requires
            self.valid(),
            self.steady(chains, StepView::Ask(ask, reorg)),
            reorg.phase is Commit,
        ensures
            ({
                let (after, reply) = self.store.answer(chains, ask);
                self.steady(after, reorg.next_step(reply))
            }),
    {
        reveal(Start::awaits_commit);
        let (after, reply) = self.store.answer(chains, ask);
        let n = self.shared() as int;
        let len = self.path().len() as int;
        let k = reorg.connected.len() as int;
        let path = self.path();
        self.lemma_common();
        assert(path.take(n + k).is_prefix_of(path));
        assert(self.sound(after.committed));
        assert(self.better_at(n + k));
        self.lemma_connects(after, reorg);
    }

    proof fn lemma_final_tip_next(self, chains: Chains, ask: AskView, reorg: ReorgView)
        requires
            self.valid(),
            self.steady(chains, StepView::Ask(ask, reorg)),
            reorg.phase is FinalTip,
        ensures
            ({
                let (after, reply) = self.store.answer(chains, ask);
                self.steady(after, reorg.next_step(reply))
            }),
    {
        reveal(Start::awaits_final_tip);
        reveal(Start::awaits_final_commit);
        let len = self.path().len() as int;
        let path = self.path();
        self.lemma_common();
        assert(path.take(len) =~= path);
    }

    proof fn lemma_final_commit_next(self, chains: Chains, ask: AskView, reorg: ReorgView)
        requires
            self.valid(),
            self.steady(chains, StepView::Ask(ask, reorg)),
            reorg.phase is FinalCommit,
        ensures
            ({
                let (after, reply) = self.store.answer(chains, ask);
                self.steady(after, reorg.next_step(reply))
            }),
    {
        reveal(Start::awaits_final_commit);
        let n = self.shared() as int;
        let len = self.path().len() as int;
        let path = self.path();
        self.lemma_common();
        assert(path.take(len) =~= path);
        assert(path.subrange(n, len) =~= path.skip(n));
    }

    proof fn lemma_delete_next(self, chains: Chains, ask: AskView, reorg: ReorgView)
        requires
            self.valid(),
            self.steady(chains, StepView::Ask(ask, reorg)),
            reorg.phase is Delete,
        ensures
            ({
                let (after, reply) = self.store.answer(chains, ask);
                self.steady(after, reorg.next_step(reply))
            }),
    {
        reveal(Start::awaits_delete);
        let (after, reply) = self.store.answer(chains, ask);
        self.lemma_common();
        if let (Phase::Delete(err), AskView::DeleteBody { block }) = (reorg.phase, ask) {
            let k = choose|k: int| #[trigger]
                self.refused_at(k, err) && block.header.hash == self.path()[k] && self.saved(
                    chains.committed,
                    k,
                ) && (chains.committed == self.chain || chains.committed.len() <= k);
            assert(self.refused_at(k, err));
            assert(after.deleted =~= set![block.header.hash]);
        }
    }

    /// An answer keeps the invariant.
    proof fn lemma_next(self, chains: Chains, ask: AskView, reorg: ReorgView)
        requires
            self.valid(),
            self.steady(chains, StepView::Ask(ask, reorg)),
        ensures
            ({
                let (after, reply) = self.store.answer(chains, ask);
                self.steady(after, reorg.next_step(reply))
            }),
    {
        match reorg.phase {
            Phase::Start => self.lemma_start_next(chains, ask, reorg),
            Phase::Compare => self.lemma_compare_next(chains, ask, reorg),
            Phase::CommonAncestor => self.lemma_common_ancestor_next(chains, ask, reorg),
            Phase::Load(_) => self.lemma_load_next(chains, ask, reorg),
            Phase::AncestorHeight => self.lemma_ancestor_height_next(chains, ask, reorg),
            Phase::Disconnect(_) => self.lemma_disconnect_next(chains, ask, reorg),
            Phase::CheckTip => self.lemma_check_tip_next(chains, ask, reorg),
            Phase::AncestorHeader => self.lemma_ancestor_header_next(chains, ask, reorg),
            Phase::Walk { .. } => self.lemma_walk_next(chains, ask, reorg),
            Phase::Connect(_) => self.lemma_connect_next(chains, ask, reorg),
            Phase::Connected => self.lemma_connected_next(chains, ask, reorg),
            Phase::Improved(_) => self.lemma_improved_next(chains, ask, reorg),
            Phase::Commit => self.lemma_commit_next(chains, ask, reorg),
            Phase::FinalTip => self.lemma_final_tip_next(chains, ask, reorg),
            Phase::FinalCommit => self.lemma_final_commit_next(chains, ask, reorg),
            Phase::Delete(_) => self.lemma_delete_next(chains, ask, reorg),
        }
    }

    spec fn common_is_not(self, block_hash: BlockHash) -> bool {
        self.ancestor() != Some(block_hash)
    }

    proof fn lemma_run(self, chains: Chains, step: StepView, n: nat)
        requires
            self.valid(),
            self.steady(chains, step),
        ensures
            ({
                let (after, last) = self.store.run(chains, step, n);
                self.steady(after, last)
            }),
        decreases n,
    {
        match step {
            StepView::Ask(ask, reorg) => {
                if n > 0 {
                    let (after, reply) = self.store.answer(chains, ask);
                    self.lemma_next(chains, ask, reorg);
                    self.lemma_run(after, reorg.next_step(reply), (n - 1) as nat);
                }
            },
            _ => {},
        }
    }
}

/// How far a re-organisation is from its end: the part that it is in, and what
/// is left of that part.
spec fn left_over(depth: spec_fn(MainBlockHash) -> nat, len: nat, step: StepView) -> (nat, nat) {
    match step {
        StepView::Ask(_, reorg) => {
            let blocks = 4 * reorg.blocks.len();
            match reorg.phase {
                Phase::Start => (13, 0),
                Phase::Compare => (12, 0),
                Phase::CommonAncestor => (11, 0),
                Phase::Load(_) => (10, (len - reorg.blocks.len()) as nat),
                Phase::AncestorHeight => (9, 0),
                Phase::Disconnect(times) => (8, times as nat),
                Phase::CheckTip => (7, 0),
                Phase::AncestorHeader => (6, 0),
                Phase::Walk { at, .. } => (5, depth(at)),
                Phase::Connect(_) => (4, blocks + 3),
                Phase::Connected => (4, blocks + 2),
                Phase::Improved(_) => (4, blocks + 1),
                Phase::Commit => (4, blocks),
                Phase::FinalTip => (3, 0),
                Phase::FinalCommit => (2, 0),
                Phase::Delete(_) => (1, 0),
            }
        },
        _ => (0, 0),
    }
}

/// Whether each mainchain block is deeper than its parent.
pub open spec fn main_chain_ends(store: Store, depth: spec_fn(MainBlockHash) -> nat) -> bool {
    forall|hash: MainBlockHash|
        (#[trigger] (store.main_parent)(hash)) matches Some(parent) ==> depth(parent) < depth(hash)
}

impl Start {
    proof fn lemma_closer(
        self,
        depth: spec_fn(MainBlockHash) -> nat,
        chains: Chains,
        ask: AskView,
        reorg: ReorgView,
    )
        requires
            self.valid(),
            self.steady(chains, StepView::Ask(ask, reorg)),
            main_chain_ends(self.store, depth),
        ensures
            ({
                let next = reorg.next_step(self.store.answer(chains, ask).1);
                let before = left_over(depth, self.path().len(), StepView::Ask(ask, reorg));
                let after = left_over(depth, self.path().len(), next);
                after.0 < before.0 || (after.0 == before.0 && after.1 < before.1)
            }),
    {
        reveal(Start::awaits_start);
        reveal(Start::awaits_compare);
        reveal(Start::awaits_common_ancestor);
        reveal(Start::awaits_load);
        reveal(Start::awaits_ancestor_height);
        reveal(Start::awaits_disconnect);
        reveal(Start::awaits_check_tip);
        reveal(Start::awaits_ancestor_header);
        reveal(Start::awaits_walk);
        reveal(Start::awaits_connect);
        reveal(Start::awaits_connected);
        reveal(Start::awaits_improved);
        reveal(Start::awaits_commit);
        reveal(Start::awaits_final_tip);
        reveal(Start::awaits_final_commit);
        reveal(Start::awaits_delete);
        self.lemma_common();
        let next = reorg.next_step(self.store.answer(chains, ask).1);
        match reorg.phase {
            Phase::Walk { at, stop } => {
                assert((self.store.main_parent)(at) matches Some(parent) ==> depth(parent) < depth(
                    at,
                ));
            },
            _ => {},
        }
    }

    proof fn lemma_ends(
        self,
        depth: spec_fn(MainBlockHash) -> nat,
        chains: Chains,
        step: StepView,
    )
        requires
            self.valid(),
            self.steady(chains, step),
            main_chain_ends(self.store, depth),
        ensures
            exists|n: nat| !((#[trigger] self.store.run(chains, step, n)).1 is Ask),
        decreases
                left_over(depth, self.path().len(), step).0,
                left_over(depth, self.path().len(), step).1,
    {
        match step {
            StepView::Ask(ask, reorg) => {
                let (after, reply) = self.store.answer(chains, ask);
                let next = reorg.next_step(reply);
                self.lemma_next(chains, ask, reorg);
                self.lemma_closer(depth, chains, ask, reorg);
                self.lemma_ends(depth, after, next);
                let n = choose|n: nat| !((#[trigger] self.store.run(after, next, n)).1 is Ask);
                assert(self.store.run(chains, step, n + 1) == self.store.run(after, next, n));
            },
            _ => {
                assert(!(self.store.run(chains, step, 0).1 is Ask));
            },
        }
    }
}

/// Blocks are looked up only while nothing was changed, and the tip is
/// disconnected only once all blocks above the common ancestor are there. A
/// missing body therefore leaves the chain alone.
pub proof fn law_blocks_are_loaded_before_disconnecting(start: Start, n: nat)
    requires
        start.valid(),
    ensures
        ({
            let (chains, step) = start.store.reorg(start.chain, start.new_tip, n);
            let path = start.path();
            &&& step matches StepView::Ask(AskView::Block(_), _) ==> {
                &&& chains.current == start.chain
                &&& chains.committed == start.chain
            }
            &&& step matches StepView::Ask(AskView::DisconnectTip, reorg) ==> {
                &&& chains.committed == start.chain
                &&& reorg.blocks.len() == path.len() - start.shared()
                &&& forall|i: int|
                    0 <= i < reorg.blocks.len() ==> #[trigger] reorg.blocks[i] == (
                    start.store.block)(path[path.len() - 1 - i])
            }
        }),
{
    let chains = Chains {
        current: start.chain,
        committed: start.chain,
        deleted: Set::empty(),
    };
    reveal(Start::awaits_start);
    reveal(Start::awaits_compare);
    reveal(Start::awaits_common_ancestor);
    reveal(Start::awaits_load);
    reveal(Start::awaits_ancestor_height);
    reveal(Start::awaits_disconnect);
    reveal(Start::awaits_check_tip);
    reveal(Start::awaits_ancestor_header);
    reveal(Start::awaits_walk);
    reveal(Start::awaits_connect);
    reveal(Start::awaits_connected);
    reveal(Start::awaits_improved);
    reveal(Start::awaits_commit);
    reveal(Start::awaits_final_tip);
    reveal(Start::awaits_final_commit);
    reveal(Start::awaits_delete);
    assert(start.steady(chains, first_step(start.new_tip)));
    start.lemma_common();
    start.lemma_run(chains, first_step(start.new_tip), n);
}

/// A re-organisation ends, as long as the mainchain goes back to a first block.
pub proof fn law_reorg_ends(start: Start, depth: spec_fn(MainBlockHash) -> nat)
    requires
        start.valid(),
        main_chain_ends(start.store, depth),
    ensures
        exists|n: nat|
            !((#[trigger] start.store.reorg(start.chain, start.new_tip, n)).1 is Ask),
{
    let chains = Chains {
        current: start.chain,
        committed: start.chain,
        deleted: Set::empty(),
    };
    let step = first_step(start.new_tip);
    reveal(Start::awaits_start);
    assert(start.steady(chains, step));
    start.lemma_ends(depth, chains, step);
    let n = choose|n: nat| !((#[trigger] start.store.run(chains, step, n)).1 is Ask);
    assert(!(start.store.reorg(start.chain, start.new_tip, n).1 is Ask));
}

/// What is left of the mainchain blocks after some side chain blocks applied
/// theirs.
pub open spec fn left_after(
    main_blocks: Seq<MainBlock>,
    prev_main_hashes: Seq<MainBlockHash>,
) -> Seq<MainBlock>
    decreases prev_main_hashes.len(),
{
    if prev_main_hashes.len() == 0 {
        main_blocks
    } else {
        let before = left_after(main_blocks, prev_main_hashes.drop_last());
        before.take(before.len() - applied_count(before, prev_main_hashes.last()))
    }
}

/// The mainchain blocks that some side chain blocks apply, one after the other.
pub open spec fn applied_by(
    main_blocks: Seq<MainBlock>,
    prev_main_hashes: Seq<MainBlockHash>,
) -> Seq<MainBlock>
    decreases prev_main_hashes.len(),
{
    if prev_main_hashes.len() == 0 {
        Seq::empty()
    } else {
        let before = left_after(main_blocks, prev_main_hashes.drop_last());
        let left = before.len() - applied_count(before, prev_main_hashes.last());
        applied_by(main_blocks, prev_main_hashes.drop_last()) + before.skip(left).reverse()
    }
}

/// Side chain blocks apply the mainchain blocks from the oldest on, each once
/// and none left out, and what they leave is exactly what they did not apply.
pub proof fn law_main_blocks_are_applied_once(
    main_blocks: Seq<MainBlock>,
    prev_main_hashes: Seq<MainBlockHash>,
)
    ensures
        applied_by(main_blocks, prev_main_hashes) + left_after(
            main_blocks,
            prev_main_hashes,
        ).reverse() == main_blocks.reverse(),
    decreases prev_main_hashes.len(),
{
    if prev_main_hashes.len() == 0 {
        assert(Seq::<MainBlock>::empty() + main_blocks.reverse() =~= main_blocks.reverse());
    } else {
        let earlier = prev_main_hashes.drop_last();
        let before = left_after(main_blocks, earlier);
        law_main_blocks_are_applied_once(main_blocks, earlier);
        lemma_applied_count(before, prev_main_hashes.last());
        let left = before.len() - applied_count(before, prev_main_hashes.last());
        assert(before.skip(left).reverse() + before.take(left).reverse() =~= before.reverse());
        assert(applied_by(main_blocks, prev_main_hashes) + before.take(left).reverse()
            =~= applied_by(main_blocks, earlier) + before.reverse());
    }
}

/// A side chain block applies the mainchain block that it was built upon, and
/// every older one that is left, if that block is among those left.
pub proof fn law_block_applies_up_to_its_parent(
    main_blocks: Seq<MainBlock>,
    prev_main_hash: MainBlockHash,
    i: int,
)
    requires
        0 <= i < main_blocks.len(),
        main_blocks[i].hash == prev_main_hash,
        forall|j: int|
            i < j < main_blocks.len() ==> (#[trigger] main_blocks[j]).hash != prev_main_hash,
    ensures
        main_blocks.len() - applied_count(main_blocks, prev_main_hash) == i,
    decreases main_blocks.len(),
{
    if i < main_blocks.len() - 1 {
        assert(main_blocks.last() == main_blocks[main_blocks.len() - 1]);
        law_block_applies_up_to_its_parent(main_blocks.drop_last(), prev_main_hash, i);
    }
}

proof fn lemma_common_len(a: Seq<BlockHash>, b: Seq<BlockHash>, upto: nat)
    ensures
        common_len(a, b, upto) <= upto,
        common_len(a, b, upto) > 0 ==> common_len(a, b, upto) <= a.len() && common_len(a, b, upto)
            <= b.len(),
        a.take(common_len(a, b, upto) as int) == b.take(common_len(a, b, upto) as int),
    decreases upto,
{
    if upto == 0 {
        assert(a.take(0) =~= b.take(0));
    } else if !(upto <= a.len() && upto <= b.len() && a.take(upto as int) == b.take(upto as int)) {
        lemma_common_len(a, b, (upto - 1) as nat);
    }
}

/// Whatever the tip, a re-organisation ends in one of three ways. A tip that is
/// not better changes nothing. A success leaves the chain of the new tip as the
/// chain of the state, committed, and announces exactly the blocks above the
/// common ancestor with their heights. A failure is the refusal of one of these
/// blocks by a state that holds those below it, and the body of an invalid block
/// is deleted. What is then left is the longest start of the new chain below that
/// block that has a better tip, or the chain of before, if none has. And whatever
/// was committed at any time is the chain of before, or one with a better tip.
pub proof fn law_reorg_outcome(start: Start, n: nat)
    requires
        start.valid(),
    ensures
        ({
            let (chains, step) = start.store.reorg(start.chain, start.new_tip, n);
            let shared = start.shared() as int;
            &&& start.sound(chains.committed)
            &&& step is NotBetter ==> {
                &&& chains.current == start.chain && chains.committed == start.chain
                &&& !start.store.improves(start.chain, start.new_tip)
            }
            &&& step matches StepView::Synced(announcements) ==> {
                &&& start.store.improves(start.chain, start.new_tip)
                &&& chains.current == start.path() && chains.committed == start.path()
                &&& announcements == announced(start.path().skip(shared), shared)
                &&& announcements.len() == start.path().len() - shared
                &&& forall|i: int|
                    0 <= i < announcements.len() ==> {
                        &&& (#[trigger] announcements[i]).block_hash == start.path()[shared + i]
                        &&& announcements[i].height == shared + i
                    }
            }
            &&& step matches StepView::Failed(err) ==> start.failed_for(chains, err)
            &&& !(step is Failed) ==> chains.deleted == Set::<BlockHash>::empty()
        }),
{
    let chains = Chains {
        current: start.chain,
        committed: start.chain,
        deleted: Set::empty(),
    };
    reveal(Start::awaits_start);
    assert(start.steady(chains, first_step(start.new_tip)));
    start.lemma_run(chains, first_step(start.new_tip), n);
}

} // verus!
