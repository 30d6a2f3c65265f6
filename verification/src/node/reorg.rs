//! Re-organising the side chain to a better tip.
//!
//! A re-organisation alternates between decisions and work on the database: each
//! step says what to ask of the database, and the answer leads to the next step.
//! All of it happens in one transaction, except where a step asks for a commit.

use vstd::bytes::{spec_u32_to_le_bytes, u32_to_le_bytes};
use vstd::prelude::*;

use crate::hash::{BlockHash, MainBlockHash};
use crate::node::error::{is_fatal_reorg_error, Contradiction, Error};
use crate::node::tip::{peg_entries, peg_entries_from, wanted};
use crate::table::Table;
use crate::types::{Block, Header, MainBlock, MainBlockInfo, Tip, TwoWayPegData};

verus! {

/// What a re-organisation asks of the database.
#[derive(Debug)]
pub enum ReorgAsk {
    /// The tip of the state, with its best verification, and its height.
    StateTip,
    /// The better one of two tips.
    BetterTip { tip: Tip, new_tip: Tip },
    /// The last common ancestor of two blocks.
    CommonAncestor { block_hash: BlockHash, new_block_hash: BlockHash },
    /// A block of the archive.
    Block(BlockHash),
    /// The height of a block of the archive.
    Height(BlockHash),
    /// Disconnect the tip.
    DisconnectTip,
    /// A header of the archive.
    Header(BlockHash),
    /// A mainchain block of the archive, and its parent.
    MainBlock(MainBlockHash),
    /// Connect a block to the tip.
    ConnectTip { block: Block, two_way_peg_data: TwoWayPegData },
    /// Commit what was done so far, and go on in a new transaction.
    Commit,
    /// Give up what was not committed, and delete the body of a block from the
    /// archive.
    DeleteBody { block: Block },
}

pub enum AskView {
    StateTip,
    BetterTip { tip: Tip, new_tip: Tip },
    CommonAncestor { block_hash: BlockHash, new_block_hash: BlockHash },
    Block(BlockHash),
    Height(BlockHash),
    DisconnectTip,
    Header(BlockHash),
    MainBlock(MainBlockHash),
    ConnectTip { block: Block, two_way_peg_data: Seq<(MainBlockHash, MainBlockInfo)> },
    Commit,
    DeleteBody { block: Block },
}

impl ReorgAsk {
    pub open spec fn view(self) -> AskView {
        match self {
            ReorgAsk::StateTip => AskView::StateTip,
            ReorgAsk::BetterTip { tip, new_tip } => AskView::BetterTip { tip, new_tip },
            ReorgAsk::CommonAncestor { block_hash, new_block_hash } => AskView::CommonAncestor {
                block_hash,
                new_block_hash,
            },
            ReorgAsk::Block(hash) => AskView::Block(hash),
            ReorgAsk::Height(hash) => AskView::Height(hash),
            ReorgAsk::DisconnectTip => AskView::DisconnectTip,
            ReorgAsk::Header(hash) => AskView::Header(hash),
            ReorgAsk::MainBlock(hash) => AskView::MainBlock(hash),
            ReorgAsk::ConnectTip { block, two_way_peg_data } => AskView::ConnectTip {
                block,
                two_way_peg_data: two_way_peg_data.entries(),
            },
            ReorgAsk::Commit => AskView::Commit,
            ReorgAsk::DeleteBody { block } => AskView::DeleteBody { block },
        }
    }
}

/// What the database answers.
#[derive(Debug)]
pub enum ReorgReply {
    StateTip { height: Option<u32>, tip: Option<Tip> },
    BetterTip(Option<Tip>),
    CommonAncestor(Option<BlockHash>),
    Block(Block),
    Height(u32),
    Header(Header),
    MainBlock { info: MainBlockInfo, parent: Option<MainBlockHash> },
    /// What was asked for is done.
    Done,
    /// The block could not be connected.
    NotConnected { block: Block, err: Error },
    /// What was asked for could not be done.
    Failed(Error),
}

/// A block that became part of the chain, as it is announced.
#[derive(Clone, Copy, Debug, PartialEq, Eq, Structural)]
pub struct HashBlock {
    pub block_hash: BlockHash,
    pub height: u32,
}

/// The topic that new blocks are announced under.
pub const HASHBLOCK_TOPIC: &'static str = "hashblock";

impl HashBlock {
    /// The parts of the announcement after its topic: the hash, and the height
    /// in four bytes, the least significant one first.
    pub fn frames(&self) -> (frames: (Vec<u8>, Vec<u8>))
        ensures
            frames.0@ == self.block_hash.0.bytes(),
            frames.1@ == spec_u32_to_le_bytes(self.height),
    {
        (self.block_hash.0.to_bytes(), u32_to_le_bytes(self.height))
    }
}

/// What came of a re-organisation.
#[derive(Debug)]
pub enum ReorgOutcome {
    /// The new tip is not better than the tip, and nothing was attempted.
    NotBetter,
    /// The new tip is the tip. The blocks that were connected are announced, the
    /// lowest one first.
    Synced { announce: Vec<HashBlock> },
}

/// What a re-organisation waits for.
#[derive(Debug)]
pub enum Phase {
    /// The tip of the state.
    Start,
    /// The better one of the tip and the new tip.
    Compare,
    /// The last common ancestor of the tip and the new tip.
    CommonAncestor,
    /// A block that is to be connected.
    Load(BlockHash),
    /// The height of the common ancestor.
    AncestorHeight,
    /// The tip to be disconnected, and so often more.
    Disconnect(u64),
    /// The tip of the state after disconnecting.
    CheckTip,
    /// The header of the common ancestor.
    AncestorHeader,
    /// A mainchain block, on the way back to the given one.
    Walk { at: MainBlockHash, stop: Option<MainBlockHash> },
    /// A block to be connected.
    Connect(BlockHash),
    /// The tip of the state after connecting a block.
    Connected,
    /// The better one of the old tip and the tip so far.
    Improved(Tip),
    /// The tip so far to be committed.
    Commit,
    /// The tip of the state after connecting all blocks.
    FinalTip,
    /// The new tip to be committed.
    FinalCommit,
    /// An invalid body to be deleted.
    Delete(Error),
}

/// A re-organisation under way.
#[derive(Debug)]
pub struct Reorg {
    new_tip: Tip,
    tip: Option<Tip>,
    tip_height: Option<u32>,
    common_ancestor: Option<BlockHash>,
    common_ancestor_height: Option<u32>,
    /// The blocks that are still to be connected, the highest one first.
    blocks: Vec<Block>,
    /// The mainchain blocks that no connected block applied, the newest one
    /// first.
    main_blocks: Vec<MainBlock>,
    /// The blocks that were connected, the lowest one first.
    connected: Vec<BlockHash>,
    phase: Phase,
}

#[verifier::ext_equal]
pub struct ReorgView {
    pub new_tip: Tip,
    pub tip: Option<Tip>,
    pub tip_height: Option<u32>,
    pub common_ancestor: Option<BlockHash>,
    pub common_ancestor_height: Option<u32>,
    pub blocks: Seq<Block>,
    pub main_blocks: Seq<MainBlock>,
    pub connected: Seq<BlockHash>,
    pub phase: Phase,
}

/// The next step of a re-organisation.
#[derive(Debug)]
pub enum ReorgStep {
    /// Ask the database, and call [`Reorg::next`] with the answer.
    Ask(ReorgAsk, Reorg),
    /// The re-organisation is over. What was not committed is given up.
    Over(Result<ReorgOutcome, Error>),
}

#[verifier::ext_equal]
pub enum StepView {
    Ask(AskView, ReorgView),
    NotBetter,
    Synced(Seq<HashBlock>),
    Failed(Error),
}

impl ReorgStep {
    pub open spec fn view(self) -> StepView {
        match self {
            ReorgStep::Ask(ask, reorg) => StepView::Ask(ask@, reorg@),
            ReorgStep::Over(Ok(ReorgOutcome::NotBetter)) => StepView::NotBetter,
            ReorgStep::Over(Ok(ReorgOutcome::Synced { announce })) => StepView::Synced(announce@),
            ReorgStep::Over(Err(err)) => StepView::Failed(err),
        }
    }
}

/// How many mainchain blocks a side chain block applies: those up to and
/// including the block that it was built upon, or all that are left.
pub open spec fn applied_count(main_blocks: Seq<MainBlock>, prev_main_hash: MainBlockHash) -> nat
    decreases main_blocks.len(),
{
    if main_blocks.len() == 0 {
        0
    } else if main_blocks.last().hash == prev_main_hash {
        1
    } else {
        1 + applied_count(main_blocks.drop_last(), prev_main_hash)
    }
}

/// The announcements of blocks from a height on.
pub open spec fn announced(connected: Seq<BlockHash>, height: int) -> Seq<HashBlock> {
    Seq::new(
        connected.len(),
        |i: int| HashBlock { block_hash: connected[i], height: (height + i) as u32 },
    )
}

/// The height of the first block above the common ancestor.
pub open spec fn first_height(common_ancestor_height: Option<u32>) -> int {
    match common_ancestor_height {
        Some(height) => height + 1,
        None => 0,
    }
}

pub open spec fn contradiction(contradiction: Contradiction) -> StepView {
    StepView::Failed(Error::Contradiction(contradiction))
}

/// The block hash of a tip.
pub open spec fn block_hash_of(tip: Option<Tip>) -> Option<BlockHash> {
    match tip {
        Some(tip) => Some(tip.block_hash),
        None => None,
    }
}

impl ReorgView {
    /// Wait for the answer to a question.
    pub open spec fn asks(self, ask: AskView, phase: Phase) -> StepView {
        StepView::Ask(ask, ReorgView { phase, ..self })
    }

    /// All blocks are there: disconnect the tip down to the common ancestor.
    pub open spec fn loaded(self) -> StepView {
        match (self.tip_height, self.common_ancestor) {
            (None, _) => self.disconnected(),
            (Some(_), Some(common_ancestor)) => self.asks(
                AskView::Height(common_ancestor),
                Phase::AncestorHeight,
            ),
            (Some(tip_height), None) => self.disconnects(tip_height + 1),
        }
    }

    /// Disconnect the tip a number of times.
    pub open spec fn disconnects(self, times: int) -> StepView {
        if times > 0 {
            self.asks(AskView::DisconnectTip, Phase::Disconnect((times - 1) as u64))
        } else {
            self.disconnected()
        }
    }

    /// Check the tip after disconnecting.
    pub open spec fn disconnected(self) -> StepView {
        self.asks(AskView::StateTip, Phase::CheckTip)
    }

    /// Find the mainchain blocks that the new blocks apply.
    pub open spec fn at_ancestor(self) -> StepView {
        match self.common_ancestor {
            Some(common_ancestor) => self.asks(
                AskView::Header(common_ancestor),
                Phase::AncestorHeader,
            ),
            None => self.walks_from_tip(None),
        }
    }

    /// Walk back over the mainchain, from the block that the new tip was built
    /// upon.
    pub open spec fn walks_from_tip(self, stop: Option<MainBlockHash>) -> StepView {
        if self.blocks.len() == 0 {
            contradiction(Contradiction::Answer)
        } else {
            self.walks(Some(self.blocks[0].header.prev_main_hash), stop)
        }
    }

    pub open spec fn walks(
        self,
        next: Option<MainBlockHash>,
        stop: Option<MainBlockHash>,
    ) -> StepView {
        match wanted(next, stop) {
            Some(at) => self.asks(AskView::MainBlock(at), Phase::Walk { at, stop }),
            None => self.connects(),
        }
    }

    /// Connect the lowest block that is left.
    pub open spec fn connects(self) -> StepView {
        if self.blocks.len() == 0 {
            self.asks(AskView::StateTip, Phase::FinalTip)
        } else {
            let block = self.blocks.last();
            let left = self.main_blocks.len() - applied_count(
                self.main_blocks,
                block.header.prev_main_hash,
            );
            ReorgView {
                blocks: self.blocks.drop_last(),
                main_blocks: self.main_blocks.take(left),
                ..self
            }.asks(
                AskView::ConnectTip {
                    block,
                    two_way_peg_data: peg_entries(self.main_blocks.skip(left)),
                },
                Phase::Connect(block.header.hash),
            )
        }
    }

    /// The step that an answer leads to.
    pub open spec fn next_step(self, reply: ReorgReply) -> StepView {
        match (self.phase, reply) {
            (_, ReorgReply::Failed(err)) => StepView::Failed(err),
            (Phase::Start, ReorgReply::StateTip { height, tip }) => {
                let known = ReorgView { tip_height: height, tip, ..self };
                match tip {
                    Some(tip) => known.asks(
                        AskView::BetterTip { tip, new_tip: self.new_tip },
                        Phase::Compare,
                    ),
                    None => known.asks(
                        AskView::Block(self.new_tip.block_hash),
                        Phase::Load(self.new_tip.block_hash),
                    ),
                }
            },
            (Phase::Compare, ReorgReply::BetterTip(better)) => match self.tip {
                Some(tip) if better == Some(self.new_tip) => self.asks(
                    AskView::CommonAncestor {
                        block_hash: tip.block_hash,
                        new_block_hash: self.new_tip.block_hash,
                    },
                    Phase::CommonAncestor,
                ),
                _ => StepView::NotBetter,
            },
            (Phase::CommonAncestor, ReorgReply::CommonAncestor(common_ancestor)) => ReorgView {
                common_ancestor,
                ..self
            }.asks(
                AskView::Block(self.new_tip.block_hash),
                Phase::Load(self.new_tip.block_hash),
            ),
            (Phase::Load(_), ReorgReply::Block(block)) => {
                let more = ReorgView { blocks: self.blocks.push(block), ..self };
                match block.header.prev_side_hash {
                    Some(parent) if self.common_ancestor != Some(parent) => more.asks(
                        AskView::Block(parent),
                        Phase::Load(parent),
                    ),
                    _ => more.loaded(),
                }
            },
            (Phase::AncestorHeight, ReorgReply::Height(height)) => {
                let known = ReorgView { common_ancestor_height: Some(height), ..self };
                match self.tip_height {
                    Some(tip_height) if height <= tip_height => known.disconnects(
                        tip_height - height,
                    ),
                    _ => contradiction(Contradiction::AncestorAboveTip),
                }
            },
            (Phase::Disconnect(times), ReorgReply::Done) => self.disconnects(times as int),
            (Phase::CheckTip, ReorgReply::StateTip { tip, .. }) => if block_hash_of(tip)
                == self.common_ancestor {
                self.at_ancestor()
            } else {
                contradiction(Contradiction::TipIsNotCommonAncestor)
            },
            (Phase::AncestorHeader, ReorgReply::Header(header)) => self.walks_from_tip(
                Some(header.prev_main_hash),
            ),
            (Phase::Walk { at, stop }, ReorgReply::MainBlock { info, parent }) => ReorgView {
                main_blocks: self.main_blocks.push(MainBlock { hash: at, info }),
                ..self
            }.walks(parent, stop),
            (Phase::Connect(block_hash), ReorgReply::Done) => ReorgView {
                connected: self.connected.push(block_hash),
                ..self
            }.asks(AskView::StateTip, Phase::Connected),
            (Phase::Connect(_), ReorgReply::NotConnected { block, err }) => if err is State {
                self.asks(AskView::DeleteBody { block }, Phase::Delete(err))
            } else {
                StepView::Failed(err)
            },
            (Phase::Delete(err), ReorgReply::Done) => StepView::Failed(err),
            (Phase::Connected, ReorgReply::StateTip { tip, .. }) => match (tip, self.tip) {
                (None, _) => contradiction(Contradiction::NoTipAfterConnect),
                (Some(new_tip), Some(tip)) => self.asks(
                    AskView::BetterTip { tip, new_tip },
                    Phase::Improved(new_tip),
                ),
                (Some(_), None) => self.asks(AskView::Commit, Phase::Commit),
            },
            (Phase::Improved(new_tip), ReorgReply::BetterTip(better)) => if better == Some(
                new_tip,
            ) {
                self.asks(AskView::Commit, Phase::Commit)
            } else {
                self.connects()
            },
            (Phase::Commit, ReorgReply::Done) => self.connects(),
            (Phase::FinalTip, ReorgReply::StateTip { tip, .. }) => if block_hash_of(tip) == Some(
                self.new_tip.block_hash,
            ) {
                self.asks(AskView::Commit, Phase::FinalCommit)
            } else {
                contradiction(Contradiction::TipIsNotNewTip)
            },
            (Phase::FinalCommit, ReorgReply::Done) => {
                let height = first_height(self.common_ancestor_height);
                if height + self.connected.len() <= u32::MAX + 1 {
                    StepView::Synced(announced(self.connected, height))
                } else {
                    contradiction(Contradiction::HeightOverflow)
                }
            },
            _ => contradiction(Contradiction::Answer),
        }
    }
}

/// The first step of a re-organisation to a tip.
pub open spec fn first_step(new_tip: Tip) -> StepView {
    StepView::Ask(
        AskView::StateTip,
        ReorgView {
            new_tip,
            tip: None,
            tip_height: None,
            common_ancestor: None,
            common_ancestor_height: None,
            blocks: Seq::empty(),
            main_blocks: Seq::empty(),
            connected: Seq::empty(),
            phase: Phase::Start,
        },
    )
}

fn failed(contradiction: Contradiction) -> (step: ReorgStep)
    ensures
        step@ == self::contradiction(contradiction),
{
    ReorgStep::Over(Err(Error::Contradiction(contradiction)))
}

/// Re-organise to a tip, if it is better than the tip of the state. The blocks
/// up to the new tip must be in the archive.
pub fn reorg_to_tip(new_tip: Tip) -> (step: ReorgStep)
    ensures
        step@ == first_step(new_tip),
{
    ReorgStep::Ask(
        ReorgAsk::StateTip,
        Reorg {
            new_tip,
            tip: None,
            tip_height: None,
            common_ancestor: None,
            common_ancestor_height: None,
            blocks: Vec::new(),
            main_blocks: Vec::new(),
            connected: Vec::new(),
            phase: Phase::Start,
        },
    )
}

impl Reorg {
    pub closed spec fn view(self) -> ReorgView {
        ReorgView {
            new_tip: self.new_tip,
            tip: self.tip,
            tip_height: self.tip_height,
            common_ancestor: self.common_ancestor,
            common_ancestor_height: self.common_ancestor_height,
            blocks: self.blocks@,
            main_blocks: self.main_blocks@,
            connected: self.connected@,
            phase: self.phase,
        }
    }

    fn asks(self, ask: ReorgAsk, phase: Phase) -> (step: ReorgStep)
        ensures
            step@ == self@.asks(ask@, phase),
    {
        ReorgStep::Ask(ask, Reorg { phase, ..self })
    }

    fn loaded(self) -> (step: ReorgStep)
        ensures
            step@ == self@.loaded(),
    {
        match (self.tip_height, self.common_ancestor) {
            (None, _) => self.disconnected(),
            (Some(_), Some(common_ancestor)) => self.asks(
                ReorgAsk::Height(common_ancestor),
                Phase::AncestorHeight,
            ),
            (Some(tip_height), None) => self.disconnects(tip_height as u64 + 1),
        }
    }

    fn disconnects(self, times: u64) -> (step: ReorgStep)
        ensures
            step@ == self@.disconnects(times as int),
    {
        if times > 0 {
            self.asks(ReorgAsk::DisconnectTip, Phase::Disconnect(times - 1))
        } else {
            self.disconnected()
        }
    }

    fn disconnected(self) -> (step: ReorgStep)
        ensures
            step@ == self@.disconnected(),
    {
        self.asks(ReorgAsk::StateTip, Phase::CheckTip)
    }

    fn at_ancestor(self) -> (step: ReorgStep)
        ensures
            step@ == self@.at_ancestor(),
    {
        match self.common_ancestor {
            Some(common_ancestor) => self.asks(
                ReorgAsk::Header(common_ancestor),
                Phase::AncestorHeader,
            ),
            None => self.walks_from_tip(None),
        }
    }

    fn walks_from_tip(self, stop: Option<MainBlockHash>) -> (step: ReorgStep)
        ensures
            step@ == self@.walks_from_tip(stop),
    {
        if self.blocks.len() == 0 {
            failed(Contradiction::Answer)
        } else {
            let from = self.blocks[0].header.prev_main_hash;
            self.walks(Some(from), stop)
        }
    }

    fn walks(self, next: Option<MainBlockHash>, stop: Option<MainBlockHash>) -> (step: ReorgStep)
        ensures
            step@ == self@.walks(next, stop),
    {
        match next {
            Some(at) if stop != Some(at) => self.asks(
                ReorgAsk::MainBlock(at),
                Phase::Walk { at, stop },
            ),
            _ => self.connects(),
        }
    }

    fn connects(self) -> (step: ReorgStep)
        ensures
            step@ == self@.connects(),
    {
        let mut reorg = self;
        let block = match reorg.blocks.pop() {
            None => {
                return reorg.asks(ReorgAsk::StateTip, Phase::FinalTip);
            },
            Some(block) => block,
        };
        let ghost left = self@.main_blocks.len() - applied_count(
            self@.main_blocks,
            block.header.prev_main_hash,
        );
        let two_way_peg_data = take_applied(&mut reorg.main_blocks, block.header.prev_main_hash);
        let block_hash = block.header.hash;
        let step = reorg.asks(
            ReorgAsk::ConnectTip { block, two_way_peg_data },
            Phase::Connect(block_hash),
        );
        assert(step@ =~= self@.connects());
        step
    }

    fn answered_block(self, block: Block) -> (step: ReorgStep)
        requires
            self@.phase is Load,
        ensures
            step@ == self@.next_step(ReorgReply::Block(block)),
    {
        let parent = block.header.prev_side_hash;
        let mut reorg = self;
        reorg.blocks.push(block);
        match parent {
            Some(parent) if reorg.common_ancestor != Some(parent) => reorg.asks(
                ReorgAsk::Block(parent),
                Phase::Load(parent),
            ),
            _ => reorg.loaded(),
        }
    }

    fn answered_state_tip(self, height: Option<u32>, tip: Option<Tip>) -> (step: ReorgStep)
        ensures
            step@ == self@.next_step(ReorgReply::StateTip { height, tip }),
    {
        let block_hash = match tip {
            Some(tip) => Some(tip.block_hash),
            None => None,
        };
        match self.phase {
            Phase::Start => {
                let new_tip = self.new_tip;
                let known = Reorg { tip_height: height, tip, ..self };
                match tip {
                    Some(tip) => known.asks(ReorgAsk::BetterTip { tip, new_tip }, Phase::Compare),
                    None => known.asks(
                        ReorgAsk::Block(new_tip.block_hash),
                        Phase::Load(new_tip.block_hash),
                    ),
                }
            },
            Phase::CheckTip => {
                if block_hash == self.common_ancestor {
                    self.at_ancestor()
                } else {
                    failed(Contradiction::TipIsNotCommonAncestor)
                }
            },
            Phase::Connected => match (tip, self.tip) {
                (None, _) => failed(Contradiction::NoTipAfterConnect),
                (Some(new_tip), Some(tip)) => self.asks(
                    ReorgAsk::BetterTip { tip, new_tip },
                    Phase::Improved(new_tip),
                ),
                (Some(_), None) => self.asks(ReorgAsk::Commit, Phase::Commit),
            },
            Phase::FinalTip => {
                if block_hash == Some(self.new_tip.block_hash) {
                    self.asks(ReorgAsk::Commit, Phase::FinalCommit)
                } else {
                    failed(Contradiction::TipIsNotNewTip)
                }
            },
            _ => failed(Contradiction::Answer),
        }
    }

    fn answered_better_tip(self, better: Option<Tip>) -> (step: ReorgStep)
        ensures
            step@ == self@.next_step(ReorgReply::BetterTip(better)),
    {
        match self.phase {
            Phase::Compare => match self.tip {
                Some(tip) if better == Some(self.new_tip) => {
                    let ask = ReorgAsk::CommonAncestor {
                        block_hash: tip.block_hash,
                        new_block_hash: self.new_tip.block_hash,
                    };
                    self.asks(ask, Phase::CommonAncestor)
                },
                _ => ReorgStep::Over(Ok(ReorgOutcome::NotBetter)),
            },
            Phase::Improved(new_tip) => {
                if better == Some(new_tip) {
                    self.asks(ReorgAsk::Commit, Phase::Commit)
                } else {
                    self.connects()
                }
            },
            _ => failed(Contradiction::Answer),
        }
    }

    fn answered_done(self) -> (step: ReorgStep)
        ensures
            step@ == self@.next_step(ReorgReply::Done),
    {
        let mut reorg = self;
        match reorg.phase {
            Phase::Disconnect(times) => reorg.disconnects(times),
            Phase::Connect(block_hash) => {
                reorg.connected.push(block_hash);
                reorg.asks(ReorgAsk::StateTip, Phase::Connected)
            },
            Phase::Delete(err) => ReorgStep::Over(Err(err)),
            Phase::Commit => reorg.connects(),
            Phase::FinalCommit => announce(reorg.common_ancestor_height, &reorg.connected),
            _ => failed(Contradiction::Answer),
        }
    }

    /// The step that an answer leads to.
    pub fn next(self, reply: ReorgReply) -> (step: ReorgStep)
        ensures
            step@ == self@.next_step(reply),
    {
        match reply {
            ReorgReply::Failed(err) => ReorgStep::Over(Err(err)),
            ReorgReply::StateTip { height, tip } => self.answered_state_tip(height, tip),
            ReorgReply::BetterTip(better) => self.answered_better_tip(better),
            ReorgReply::Done => self.answered_done(),
            ReorgReply::CommonAncestor(common_ancestor) => match self.phase {
                Phase::CommonAncestor => {
                    let block_hash = self.new_tip.block_hash;
                    Reorg { common_ancestor, ..self }.asks(
                        ReorgAsk::Block(block_hash),
                        Phase::Load(block_hash),
                    )
                },
                _ => failed(Contradiction::Answer),
            },
            ReorgReply::Block(block) => match self.phase {
                Phase::Load(_) => self.answered_block(block),
                _ => failed(Contradiction::Answer),
            },
            ReorgReply::Height(height) => match self.phase {
                Phase::AncestorHeight => match self.tip_height {
                    Some(tip_height) if height <= tip_height => {
                        Reorg { common_ancestor_height: Some(height), ..self }.disconnects(
                            tip_height as u64 - height as u64,
                        )
                    },
                    _ => failed(Contradiction::AncestorAboveTip),
                },
                _ => failed(Contradiction::Answer),
            },
            ReorgReply::Header(header) => match self.phase {
                Phase::AncestorHeader => self.walks_from_tip(Some(header.prev_main_hash)),
                _ => failed(Contradiction::Answer),
            },
            ReorgReply::MainBlock { info, parent } => match self.phase {
                Phase::Walk { at, stop } => {
                    let mut reorg = self;
                    reorg.main_blocks.push(MainBlock { hash: at, info });
                    reorg.walks(parent, stop)
                },
                _ => failed(Contradiction::Answer),
            },
            ReorgReply::NotConnected { block, err } => match self.phase {
                Phase::Connect(_) => {
                    if is_fatal_reorg_error(&err) {
                        ReorgStep::Over(Err(err))
                    } else {
                        // The stored body does not belong to its header. It is
                        // deleted, so that the block counts as missing again.
                        self.asks(ReorgAsk::DeleteBody { block }, Phase::Delete(err))
                    }
                },
                _ => failed(Contradiction::Answer),
            },
        }
    }
}

/// Take the mainchain blocks that a side chain block applies.
fn take_applied(main_blocks: &mut Vec<MainBlock>, prev_main_hash: MainBlockHash) -> (data:
    TwoWayPegData)
    ensures
        ({
            let left = old(main_blocks)@.len() - applied_count(old(main_blocks)@, prev_main_hash);
            &&& 0 <= left <= old(main_blocks)@.len()
            &&& final(main_blocks)@ == old(main_blocks)@.take(left)
            &&& data.entries() == peg_entries(old(main_blocks)@.skip(left))
        }),
{
    let ghost all = main_blocks@;
    let ghost left = all.len() - applied_count(all, prev_main_hash);
    proof {
        lemma_applied_count(all, prev_main_hash);
    }
    let mut data: TwoWayPegData = Table::new();
    let mut found = false;
    while !found && main_blocks.len() > 0
        invariant
            0 <= left <= main_blocks@.len() <= all.len(),
            main_blocks@ == all.take(main_blocks@.len() as int),
            left == if found {
                main_blocks@.len() as int
            } else {
                main_blocks@.len() - applied_count(main_blocks@, prev_main_hash)
            },
            peg_entries(all.skip(left)) == peg_entries_from(
                data.entries(),
                all.subrange(left, main_blocks@.len() as int),
            ),
        decreases main_blocks@.len(),
    {
        let ghost n = main_blocks@.len() as int;
        if let Some(block) = main_blocks.pop() {
            found = block.hash == prev_main_hash;
            proof {
                assert(all.take(n).drop_last() =~= all.take(n - 1));
                lemma_applied_count(all.take(n - 1), prev_main_hash);
                assert(all.subrange(left, n).drop_last() =~= all.subrange(left, n - 1));
                assert(all.subrange(left, n).last() == block);
            }
            data.insert(block.hash, block.info);
        }
    }
    data
}

/// A side chain block applies no more mainchain blocks than there are.
pub proof fn lemma_applied_count(main_blocks: Seq<MainBlock>, prev_main_hash: MainBlockHash)
    ensures
        applied_count(main_blocks, prev_main_hash) <= main_blocks.len(),
    decreases main_blocks.len(),
{
    if main_blocks.len() > 0 {
        lemma_applied_count(main_blocks.drop_last(), prev_main_hash);
    }
}

fn announce(common_ancestor_height: Option<u32>, connected: &Vec<BlockHash>) -> (step: ReorgStep)
    ensures
        step@ == ({
            let height = first_height(common_ancestor_height);
            if height + connected@.len() <= u32::MAX + 1 {
                StepView::Synced(announced(connected@, height))
            } else {
                contradiction(Contradiction::HeightOverflow)
            }
        }),
{
    let height: u64 = match common_ancestor_height {
        Some(height) => height as u64 + 1,
        None => 0,
    };
    let room: u64 = u32::MAX as u64 + 1 - height;
    if connected.len() as u64 > room {
        return failed(Contradiction::HeightOverflow);
    }
    let mut announce: Vec<HashBlock> = Vec::new();
    let mut i: usize = 0;
    while i < connected.len()
        invariant
            i <= connected@.len(),
            height + connected@.len() <= u32::MAX + 1,
            announce@ == announced(connected@, height as int).take(i as int),
        decreases connected@.len() - i,
    {
        announce.push(
            HashBlock { block_hash: connected[i], height: (height + i as u64) as u32 },
        );
        assert(announce@ =~= announced(connected@, height as int).take(i + 1));
        i += 1;
    }
    assert(announced(connected@, height as int).take(connected@.len() as int) =~= announced(
        connected@,
        height as int,
    ));
    ReorgStep::Over(Ok(ReorgOutcome::Synced { announce }))
}

/// A failure of the database ends a re-organisation with that failure.
pub proof fn law_failures_end_a_reorg(reorg: ReorgView, err: Error)
    ensures
        reorg.next_step(ReorgReply::Failed(err)) == StepView::Failed(err),
{
}

/// A re-organisation goes on after disconnecting only if the tip is the common
/// ancestor, and commits its last block only if the tip is the new one. A tip that
/// is gone, or a common ancestor above the tip, ends it.
pub proof fn law_contradictions_end_a_reorg(
    reorg: ReorgView,
    height: Option<u32>,
    tip: Option<Tip>,
    ancestor_height: u32,
)
    ensures
        ({
            let next = reorg.next_step(ReorgReply::StateTip { height, tip });
            let hash = match tip {
                Some(tip) => Some(tip.block_hash),
                None => None,
            };
            &&& reorg.phase is CheckTip && hash != reorg.common_ancestor ==> next
                == StepView::Failed(Error::Contradiction(Contradiction::TipIsNotCommonAncestor))
            &&& reorg.phase is FinalTip && hash != Some(reorg.new_tip.block_hash) ==> next
                == StepView::Failed(Error::Contradiction(Contradiction::TipIsNotNewTip))
            &&& reorg.phase is Connected && tip is None ==> next == StepView::Failed(
                Error::Contradiction(Contradiction::NoTipAfterConnect),
            )
        }),
        reorg.phase is AncestorHeight && (reorg.tip_height matches Some(tip_height)
            ==> tip_height < ancestor_height) ==> reorg.next_step(
            ReorgReply::Height(ancestor_height),
        ) == StepView::Failed(Error::Contradiction(Contradiction::AncestorAboveTip)),
{
}

/// What a question, a step and a re-organisation show of themselves.
pub proof fn law_reorg_views(ask: ReorgAsk, step: ReorgStep)
    ensures
        match ask {
            ReorgAsk::ConnectTip { block, two_way_peg_data } => ask@ == (AskView::ConnectTip {
                block,
                two_way_peg_data: two_way_peg_data.entries(),
            }),
            ReorgAsk::DeleteBody { block } => ask@ == (AskView::DeleteBody { block }),
            ReorgAsk::BetterTip { tip, new_tip } => ask@ == (AskView::BetterTip { tip, new_tip }),
            ReorgAsk::CommonAncestor { block_hash, new_block_hash } => ask@ == (
            AskView::CommonAncestor { block_hash, new_block_hash }),
            ReorgAsk::Block(hash) => ask@ == AskView::Block(hash),
            ReorgAsk::Height(hash) => ask@ == AskView::Height(hash),
            ReorgAsk::Header(hash) => ask@ == AskView::Header(hash),
            ReorgAsk::MainBlock(hash) => ask@ == AskView::MainBlock(hash),
            ReorgAsk::StateTip => ask@ is StateTip,
            ReorgAsk::DisconnectTip => ask@ is DisconnectTip,
            ReorgAsk::Commit => ask@ is Commit,
        },
        match step {
            ReorgStep::Ask(ask, reorg) => step@ == StepView::Ask(ask@, reorg@),
            ReorgStep::Over(Ok(ReorgOutcome::NotBetter)) => step@ is NotBetter,
            ReorgStep::Over(Ok(ReorgOutcome::Synced { announce })) => step@ == StepView::Synced(
                announce@,
            ),
            ReorgStep::Over(Err(err)) => step@ == StepView::Failed(err),
        },
{
}

} // verus!
