//! Which mainchain blocks a re-organisation hands to the blocks that it connects.

use vstd::prelude::*;

use super::{main_chain_ends, Chains, Start, Store};
use crate::hash::MainBlockHash;
use crate::node::reorg::{
    applied_count, first_step, lemma_applied_count, AskView, Phase, ReorgView, StepView,
};
use crate::node::tip::{distinct_blocks, law_peg_data_is_oldest_first};
use crate::node::tip_laws::{follows, lemma_walk_is_distinct, main_walk};
use crate::types::{Block, MainBlock, MainBlockInfo};

verus! {

/// A block that is to be connected, with the peg data that it is given.
pub struct Connect {
    pub block: Block,
    pub data: Seq<(MainBlockHash, MainBlockInfo)>,
}

impl Store {
    /// The blocks that a run asks to connect, in order.
    pub open spec fn connects(self, chains: Chains, step: StepView, n: nat) -> Seq<Connect>
        decreases n,
    {
        match step {
            StepView::Ask(ask, reorg) if n > 0 => {
                let (after, reply) = self.answer(chains, ask);
                let rest = self.connects(after, reorg.next_step(reply), (n - 1) as nat);
                match ask {
                    AskView::ConnectTip { block, two_way_peg_data } => seq![
                        Connect { block, data: two_way_peg_data },
                    ] + rest,
                    _ => rest,
                }
            },
            _ => Seq::empty(),
        }
    }
}

/// The number of mainchain blocks in the peg data of the first `i` blocks.
pub open spec fn given(connects: Seq<Connect>, i: int) -> int
    decreases i,
{
    if i <= 0 {
        0
    } else {
        given(connects, i - 1) + connects[i - 1].data.len()
    }
}

/// Whether a block is given the mainchain blocks of a list, the oldest first, from
/// one place up to another: up to and including the one that the block was built
/// upon, or all that are left if that one is not among them.
#[verifier::opaque]
pub open spec fn gets(connect: Connect, mains: Seq<MainBlock>, from: int, to: int) -> bool {
    let upon = connect.block.header.prev_main_hash;
    &&& 0 <= from <= to <= mains.len()
    &&& connect.data == mains.subrange(from, to).map_values(
        |main: MainBlock| (main.hash, main.info),
    )
    &&& forall|p: int| from <= p < to - 1 ==> (#[trigger] mains[p]).hash != upon
    &&& to < mains.len() ==> from < to && mains[to - 1].hash == upon
}

impl Start {
    /// The mainchain block that the common ancestor was built upon.
    pub open spec fn ancestor_main(self) -> Option<MainBlockHash> {
        let n = self.shared() as int;
        if n > 0 {
            Some((self.store.block)(self.path()[n - 1]).header.prev_main_hash)
        } else {
            None
        }
    }

    /// The mainchain block that the new tip was built upon.
    pub open spec fn new_main(self) -> MainBlockHash {
        (self.store.block)(self.new_tip.block_hash).header.prev_main_hash
    }

    /// Whether a list holds the mainchain blocks that the new blocks apply.
    pub open spec fn applies(self, mains: Seq<MainBlock>) -> bool {
        main_walk(
            self.store.main_info,
            self.store.main_parent,
            self.new_main(),
            self.ancestor_main(),
            mains,
        )
    }

    /// The blocks that are still to be connected get what is left of the list.
    spec fn fits(self, mains: Seq<MainBlock>, asked: Seq<Connect>, begun: int, k: int) -> bool {
        &&& asked.len() <= self.path().len() - self.shared() - k
        &&& forall|i: int|
            0 <= i < asked.len() ==> {
                let from = begun + given(asked, i);
                &&& (#[trigger] asked[i]).block == (self.store.block)(
                    self.path()[self.shared() + k + i],
                )
                &&& gets(asked[i], mains, from, from + asked[i].data.len())
            }
    }

    /// What the gathered mainchain blocks are at each step.
    spec fn pegged(self, mains: Seq<MainBlock>, step: StepView) -> bool {
        let len = mains.len() as int;
        match step {
            StepView::Ask(ask, reorg) => {
                let c = reorg.main_blocks.len() as int;
                let ready = {
                    &&& c <= len
                    &&& reorg.main_blocks == mains.skip(len - c).reverse()
                    &&& reorg.blocks.len() == 0 ==> c == 0
                };
                match reorg.phase {
                    Phase::Walk { at, stop } => {
                        &&& stop == self.ancestor_main()
                        &&& c < len
                        &&& reorg.main_blocks == mains.skip(len - c).reverse()
                        &&& at == mains[len - 1 - c].hash
                        &&& !(ask is ConnectTip)
                    },
                    Phase::Connect(_) => ready && (
                    ask matches AskView::ConnectTip { block, two_way_peg_data } && gets(
                        Connect { block, data: two_way_peg_data },
                        mains,
                        len - c - two_way_peg_data.len(),
                        len - c,
                    )),
                    Phase::Connected
                    | Phase::Improved(_)
                    | Phase::Commit
                    | Phase::FinalTip
                    | Phase::FinalCommit => ready && !(ask is ConnectTip),
                    Phase::Delete(_) => !(ask is ConnectTip),
                    _ => c == 0 && !(ask is ConnectTip),
                }
            },
            _ => true,
        }
    }
}

/// The number of mainchain blocks that were handed on before a step.
spec fn begun(mains: Seq<MainBlock>, step: StepView) -> int {
    match step {
        StepView::Ask(ask, reorg) => {
            let handed = mains.len() - reorg.main_blocks.len();
            match reorg.phase {
                Phase::Connect(_) => match ask {
                    AskView::ConnectTip { two_way_peg_data, .. } => handed
                        - two_way_peg_data.len(),
                    _ => handed,
                },
                Phase::Connected
                | Phase::Improved(_)
                | Phase::Commit
                | Phase::FinalTip
                | Phase::FinalCommit => handed,
                _ => 0,
            }
        },
        _ => 0,
    }
}

/// A side chain block applies the oldest mainchain blocks that are left, up to the
/// first that it was built upon.
proof fn lemma_applied_oldest(rest: Seq<MainBlock>, upon: MainBlockHash)
    ensures
        ({
            let c = applied_count(rest.reverse(), upon) as int;
            &&& c <= rest.len()
            &&& forall|p: int| 0 <= p < c - 1 ==> (#[trigger] rest[p]).hash != upon
            &&& c < rest.len() ==> c > 0 && rest[c - 1].hash == upon
        }),
    decreases rest.len(),
{
    let blocks = rest.reverse();
    lemma_applied_count(blocks, upon);
    if rest.len() > 0 {
        assert(blocks.last() == rest[0]);
        if rest[0].hash != upon {
            let tail = rest.skip(1);
            assert(blocks.drop_last() =~= tail.reverse());
            lemma_applied_oldest(tail, upon);
            let c = applied_count(blocks, upon) as int;
            assert forall|p: int| 0 <= p < c - 1 implies (#[trigger] rest[p]).hash != upon by {
                if p > 0 {
                    assert(tail[p - 1] == rest[p]);
                }
            }
            if c < rest.len() {
                assert(tail[c - 2] == rest[c - 1]);
            }
        }
    }
}

impl Start {
    proof fn lemma_mains_are_distinct(
        self,
        depth: spec_fn(MainBlockHash) -> nat,
        mains: Seq<MainBlock>,
    )
        requires
            main_chain_ends(self.store, depth),
            self.applies(mains),
        ensures
            distinct_blocks(mains),
    {
        assert forall|i: int, j: int| 0 <= i < j < mains.len() implies (
        #[trigger] mains[i]).hash != (#[trigger] mains[j]).hash by {
            lemma_walk_is_distinct(
                depth,
                self.store.main_info,
                self.store.main_parent,
                self.new_main(),
                self.ancestor_main(),
                mains,
                i,
                j,
            );
        }
    }

    /// Connecting the next block hands on the right mainchain blocks.
    proof fn lemma_hands_on(self, mains: Seq<MainBlock>, reorg: ReorgView, done: int)
        requires
            self.valid(),
            distinct_blocks(mains),
            self.applies(mains),
            0 <= done <= mains.len(),
            reorg.main_blocks == mains.skip(done).reverse(),
            reorg.blocks.len() == 0 ==> done == mains.len(),
            reorg.blocks.len() <= self.path().len(),
            reorg.blocks == self.blocks(reorg.blocks.len() as int),
        ensures
            self.pegged(mains, reorg.connects()),
            begun(mains, reorg.connects()) == done,
    {
        reveal(gets);
        let len = mains.len() as int;
        if reorg.blocks.len() > 0 {
            let block = reorg.blocks.last();
            let upon = block.header.prev_main_hash;
            let rest = mains.skip(done);
            let c = applied_count(reorg.main_blocks, upon) as int;
            lemma_applied_oldest(rest, upon);
            let left = reorg.main_blocks.len() - c;
            let to = done + c;
            let taken = reorg.main_blocks.skip(left);
            assert(taken =~= mains.subrange(done, to).reverse());
            assert(distinct_blocks(taken)) by {
                assert forall|i: int, j: int| 0 <= i < j < taken.len() implies (
                #[trigger] taken[i]).hash != (#[trigger] taken[j]).hash by {
                    assert(taken[i] == mains[to - 1 - i]);
                    assert(taken[j] == mains[to - 1 - j]);
                }
            }
            law_peg_data_is_oldest_first(taken);
            let data = mains.subrange(done, to).map_values(
                |main: MainBlock| (main.hash, main.info),
            );
            assert(taken.reverse().map_values(|block: MainBlock| (block.hash, block.info))
                =~= data);
            assert(reorg.main_blocks.take(left) =~= mains.skip(to).reverse());
            assert(mains.len() - reorg.main_blocks.take(left).len() == to);
            assert forall|p: int| done <= p < to - 1 implies (#[trigger] mains[p]).hash != upon by {
                assert(rest[p - done] == mains[p]);
            }
            if to < len {
                assert(rest[c - 1] == mains[to - 1]);
            }
            if reorg.blocks.len() == 1 {
                assert(block == self.blocks(1)[0]);
                assert(block == (self.store.block)(self.new_tip.block_hash));
                if to < len {
                    assert(mains[to - 1].hash != mains[len - 1].hash);
                    assert(mains.last().hash == upon);
                }
            }
        }
    }

    proof fn lemma_pegged_next(
        self,
        depth: spec_fn(MainBlockHash) -> nat,
        mains: Seq<MainBlock>,
        chains: Chains,
        ask: AskView,
        reorg: ReorgView,
    )
        requires
            self.valid(),
            main_chain_ends(self.store, depth),
            self.applies(mains),
            self.steady(chains, StepView::Ask(ask, reorg)),
            self.pegged(mains, StepView::Ask(ask, reorg)),
        ensures
            ({
                let (after, reply) = self.store.answer(chains, ask);
                let next = reorg.next_step(reply);
                &&& self.pegged(mains, next)
                &&& next is Ask && !(next->Ask_1.phase is Delete) ==> begun(mains, next)
                    == begun(mains, StepView::Ask(ask, reorg)) + match ask {
                    AskView::ConnectTip { two_way_peg_data, .. } => two_way_peg_data.len() as int,
                    _ => 0,
                }
            }),
    {
        self.lemma_common();
        self.lemma_mains_are_distinct(depth, mains);
        let len = mains.len() as int;
        let n = self.shared() as int;
        let (after, reply) = self.store.answer(chains, ask);
        match reorg.phase {
            Phase::Start => {
                reveal(Start::awaits_start);
            },
            Phase::Compare => {
                reveal(Start::awaits_compare);
            },
            Phase::CommonAncestor => {
                reveal(Start::awaits_common_ancestor);
            },
            Phase::Load(_) => {
                reveal(Start::awaits_load);
            },
            Phase::AncestorHeight => {
                reveal(Start::awaits_ancestor_height);
            },
            Phase::Disconnect(_) => {
                reveal(Start::awaits_disconnect);
            },
            Phase::CheckTip => {
                reveal(Start::awaits_check_tip);
                assert(reorg.blocks[0] == (self.store.block)(self.path()[self.path().len() - 1]));
                if n == 0 {
                    self.lemma_walk_begins(mains, reorg);
                }
            },
            Phase::AncestorHeader => {
                reveal(Start::awaits_ancestor_header);
                assert(self.chain.take(n)[n - 1] == self.path().take(n)[n - 1]);
                assert(reorg.blocks[0] == (self.store.block)(self.path()[self.path().len() - 1]));
                self.lemma_walk_begins(mains, reorg);
            },
            Phase::Walk { at, stop } => {
                reveal(Start::awaits_walk);
                let c = reorg.main_blocks.len() as int;
                let block = MainBlock { hash: at, info: (self.store.main_info)(at) };
                assert(block == mains[len - 1 - c]);
                let more = ReorgView { main_blocks: reorg.main_blocks.push(block), ..reorg };
                assert(more.main_blocks =~= mains.skip(len - c - 1).reverse());
                if c + 1 < len {
                    assert(follows(self.store.main_parent, mains, len - 1 - c));
                } else {
                    assert(mains.skip(0) =~= mains);
                    self.lemma_hands_on(mains, more, 0);
                }
            },
            Phase::Connect(_) => {
                reveal(Start::awaits_connect);
            },
            Phase::Connected => {
                reveal(Start::awaits_connected);
            },
            Phase::Improved(tip) => {
                reveal(Start::awaits_improved);
                if (self.store.better)(reorg.tip->Some_0, tip) != Some(tip) {
                    self.lemma_hands_on(mains, reorg, len - reorg.main_blocks.len());
                }
            },
            Phase::Commit => {
                reveal(Start::awaits_commit);
                self.lemma_hands_on(mains, reorg, len - reorg.main_blocks.len());
            },
            Phase::FinalTip => {
                reveal(Start::awaits_final_tip);
            },
            Phase::FinalCommit => {
                reveal(Start::awaits_final_commit);
            },
            Phase::Delete(_) => {
                reveal(Start::awaits_delete);
            },
        }
    }

    /// The walk starts at the block that the new tip was built upon.
    proof fn lemma_walk_begins(self, mains: Seq<MainBlock>, reorg: ReorgView)
        requires
            self.valid(),
            distinct_blocks(mains),
            self.applies(mains),
            reorg.main_blocks.len() == 0,
            0 < reorg.blocks.len() <= self.path().len(),
            reorg.blocks == self.blocks(reorg.blocks.len() as int),
        ensures
            self.pegged(mains, reorg.walks_from_tip(self.ancestor_main())),
            reorg.walks_from_tip(self.ancestor_main()) is Ask ==> begun(
                mains,
                reorg.walks_from_tip(self.ancestor_main()),
            ) == 0,
    {
        assert(reorg.blocks[0] == (self.store.block)(self.new_tip.block_hash));
        if mains.len() == 0 {
            assert(reorg.main_blocks =~= mains.skip(0).reverse());
            self.lemma_hands_on(mains, reorg, 0);
        } else {
            assert(reorg.main_blocks =~= mains.skip(mains.len() as int).reverse());
            assert(mains.last() == mains[mains.len() - 1]);
        }
    }

    /// How far an answer gets.
    proof fn lemma_turn(self, chains: Chains, ask: AskView, reorg: ReorgView)
        requires
            self.valid(),
            self.steady(chains, StepView::Ask(ask, reorg)),
        ensures
            ({
                let next = reorg.next_step(self.store.answer(chains, ask).1);
                let k = reorg.connected.len() as int;
                &&& ask is ConnectTip ==> reorg.phase is Connect
                &&& reorg.phase is Delete ==> !(next is Ask) && !(next is Synced)
                &&& next is Synced ==> reorg.phase is FinalCommit
                &&& !(reorg.phase is Connect) && !(reorg.phase is Delete) ==> (next matches
                    StepView::Ask(_, after) ==> !(after.phase is Delete) && after.connected.len()
                    == k)
                &&& reorg.phase is Connect ==> (next matches StepView::Ask(_, after) ==>
                    after.phase is Delete || after.connected.len() == k + 1)
            }),
    {
        reveal(Start::awaits_start);
        reveal(Start::awaits_compare);
        reveal(Start::awaits_common_ancestor);
        reveal(Start::awaits_load);
        reveal(Start::awaits_ancestor_height);
        reveal(Start::awaits_disconnect);
        reveal(Start::awaits_check_tip);
        reveal(Start::awaits_ancestor_header);
        reveal(Start::awaits_walk);
        reveal(Start::awaits_connect);
        reveal(Start::awaits_connected);
        reveal(Start::awaits_improved);
        reveal(Start::awaits_commit);
        reveal(Start::awaits_final_tip);
        reveal(Start::awaits_final_commit);
        reveal(Start::awaits_delete);
    }

    /// What is asked from a step on, given what is asked from the next one on.
    proof fn lemma_fits_before(
        self,
        mains: Seq<MainBlock>,
        first: Connect,
        rest: Seq<Connect>,
        from: int,
        k: int,
    )
        requires
            0 <= k < self.path().len() - self.shared(),
            first.block == (self.store.block)(self.path()[self.shared() + k]),
            gets(first, mains, from, from + first.data.len()),
            self.fits(mains, rest, from + first.data.len(), k + 1),
        ensures
            self.fits(mains, seq![first] + rest, from, k),
            given(seq![first] + rest, rest.len() as int + 1) == first.data.len() + given(
                rest,
                rest.len() as int,
            ),
    {
        let asked = seq![first] + rest;
        assert(asked[0] == first);
        assert(given(asked, 0) == 0);
        assert forall|i: int| 0 <= i < asked.len() implies {
            let start = from + given(asked, i);
            &&& (#[trigger] asked[i]).block == (self.store.block)(
                self.path()[self.shared() + k + i],
            )
            &&& gets(asked[i], mains, start, start + asked[i].data.len())
        } by {
            if i > 0 {
                let j = i - 1;
                lemma_given(first, rest, j);
                assert(asked[i] == rest[j]);
                assert(rest[j].block == (self.store.block)(
                    self.path()[self.shared() + (k + 1) + j],
                ));
                let start = from + first.data.len() + given(rest, j);
                assert(gets(rest[j], mains, start, start + rest[j].data.len()));
                assert(from + given(asked, i) == start);
            } else {
                assert(gets(asked[i], mains, from, from + first.data.len()));
            }
        }
        lemma_given(first, rest, rest.len() as int);
    }

    #[verifier::rlimit(40)]
    proof fn lemma_connects_fit(
        self,
        depth: spec_fn(MainBlockHash) -> nat,
        mains: Seq<MainBlock>,
        chains: Chains,
        ask: AskView,
        reorg: ReorgView,
        n: nat,
    )
        requires
            self.valid(),
            main_chain_ends(self.store, depth),
            self.applies(mains),
            self.steady(chains, StepView::Ask(ask, reorg)),
            self.pegged(mains, StepView::Ask(ask, reorg)),
        ensures
            ({
                let step = StepView::Ask(ask, reorg);
                let asked = self.store.connects(chains, step, n);
                let last = self.store.run(chains, step, n).1;
                let k = reorg.connected.len() as int;
                &&& reorg.phase is Delete ==> asked.len() == 0 && !(last is Synced)
                &&& !(reorg.phase is Delete) ==> {
                    &&& self.fits(mains, asked, begun(mains, step), k)
                    &&& last is Synced ==> {
                        &&& asked.len() == self.path().len() - self.shared() - k
                        &&& begun(mains, step) + given(asked, asked.len() as int) == mains.len()
                    }
                }
            }),
        decreases n,
    {
        let step = StepView::Ask(ask, reorg);
        let (after, reply) = self.store.answer(chains, ask);
        let next = reorg.next_step(reply);
        let k = reorg.connected.len() as int;
        self.lemma_common();
        self.lemma_counts(chains, ask, reorg);
        if n > 0 {
            self.lemma_next(chains, ask, reorg);
            self.lemma_pegged_next(depth, mains, chains, ask, reorg);
            self.lemma_turn(chains, ask, reorg);
            let m = (n - 1) as nat;
            let rest = self.store.connects(after, next, m);
            let last = self.store.run(after, next, m).1;
            assert(self.store.run(chains, step, n).1 == last);
            match next {
                StepView::Ask(next_ask, next_reorg) => {
                    self.lemma_connects_fit(depth, mains, after, next_ask, next_reorg, m);
                },
                _ => {
                    assert(last == next && rest.len() == 0);
                },
            }
            let empty = !(next is Ask) || next->Ask_1.phase is Delete;
            if empty {
                assert(rest.len() == 0);
                assert(given(rest, 0) == 0);
            }
            match ask {
                AskView::ConnectTip { block, two_way_peg_data } => {
                    let first = Connect { block, data: two_way_peg_data };
                    let from = begun(mains, step);
                    self.lemma_connect_is_next(chains, ask, reorg);
                    assert(self.fits(mains, rest, from + first.data.len(), k + 1));
                    self.lemma_fits_before(mains, first, rest, from, k);
                },
                _ => {},
            }
        }
    }

    /// What a step has connected so far, and what it leaves.
    proof fn lemma_counts(self, chains: Chains, ask: AskView, reorg: ReorgView)
        requires
            self.valid(),
            self.steady(chains, StepView::Ask(ask, reorg)),
        ensures
            !(reorg.phase is Delete) ==> reorg.connected.len() <= self.path().len()
                - self.shared(),
            reorg.phase is Connect ==> reorg.connected.len() < self.path().len() - self.shared(),
            reorg.phase is FinalCommit ==> reorg.connected.len() == self.path().len()
                - self.shared() && reorg.blocks.len() == 0,
    {
        self.lemma_common();
        reveal(Start::awaits_start);
        reveal(Start::awaits_compare);
        reveal(Start::awaits_common_ancestor);
        reveal(Start::awaits_load);
        reveal(Start::awaits_ancestor_height);
        reveal(Start::awaits_disconnect);
        reveal(Start::awaits_check_tip);
        reveal(Start::awaits_ancestor_header);
        reveal(Start::awaits_walk);
        reveal(Start::awaits_connect);
        reveal(Start::awaits_connected);
        reveal(Start::awaits_improved);
        reveal(Start::awaits_commit);
        reveal(Start::awaits_final_tip);
        reveal(Start::awaits_final_commit);
    }

    proof fn lemma_connect_is_next(self, chains: Chains, ask: AskView, reorg: ReorgView)
        requires
            self.valid(),
            self.steady(chains, StepView::Ask(ask, reorg)),
            reorg.phase is Connect,
        ensures
            ask matches AskView::ConnectTip { block, .. } && block == (self.store.block)(
                self.path()[self.shared() + reorg.connected.len() as int],
            ),
    {
        reveal(Start::awaits_connect);
    }
}

proof fn lemma_given(first: Connect, rest: Seq<Connect>, i: int)
    requires
        0 <= i <= rest.len(),
    ensures
        given(seq![first] + rest, i + 1) == first.data.len() + given(rest, i),
    decreases i,
{
    let all = seq![first] + rest;
    if i == 0 {
        reveal_with_fuel(given, 2);
    } else {
        lemma_given(first, rest, i - 1);
        assert(all[i] == rest[i - 1]);
    }
}

/// A re-organisation connects the blocks of the new chain above the common
/// ancestor, from the lowest on, and hands on the mainchain blocks from the one
/// that the new tip was built upon back to, but without, the one that the common
/// ancestor was built upon: the oldest first, each with what the archive holds of
/// it, none left out and none twice. Each block gets those up to and including the
/// one that it was built upon. A success hands on all of them.
pub proof fn law_blocks_get_their_mainchain_blocks(
    start: Start,
    depth: spec_fn(MainBlockHash) -> nat,
    mains: Seq<MainBlock>,
    n: nat,
)
    requires
        start.valid(),
        main_chain_ends(start.store, depth),
        start.applies(mains),
    ensures
        ({
            let chains = Chains {
                current: start.chain,
                committed: start.chain,
                deleted: Set::empty(),
            };
            let path = start.path();
            let shared = start.shared() as int;
            let asked = start.store.connects(chains, first_step(start.new_tip), n);
            let (_, last) = start.store.reorg(start.chain, start.new_tip, n);
            &&& forall|i: int|
                0 <= i < asked.len() ==> {
                    let from = given(asked, i);
                    &&& (#[trigger] asked[i]).block == (start.store.block)(path[shared + i])
                    &&& gets(asked[i], mains, from, from + asked[i].data.len())
                }
            &&& last is Synced ==> {
                &&& asked.len() == path.len() - shared
                &&& given(asked, asked.len() as int) == mains.len()
            }
        }),
{
    let chains = Chains { current: start.chain, committed: start.chain, deleted: Set::empty() };
    let step = first_step(start.new_tip);
    reveal(Start::awaits_start);
    assert(start.steady(chains, step));
    assert(start.pegged(mains, step));
    if let StepView::Ask(ask, reorg) = step {
        assert(begun(mains, step) == 0);
        start.lemma_connects_fit(depth, mains, chains, ask, reorg, n);
    }
}

} // verus!
