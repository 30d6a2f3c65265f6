//! Connecting a block to the tip, and disconnecting the tip.

use vstd::prelude::*;

use crate::hash::{MainBlockHash, Txid};
use crate::node::error::{Contradiction, Error, StateError};
use crate::table::{keys_of, put_entry, Table};
use crate::types::{AuthorizedTransaction, Block, Body, MainBlock, MainBlockInfo, TwoWayPegData};

verus! {

/// One part of connecting a block to the tip.
#[derive(Clone, Copy, Debug, PartialEq, Eq, Structural)]
pub enum ConnectOp {
    /// Apply the block to the state.
    ApplyBlock,
    /// Apply what the mainchain did to the two way peg.
    ConnectTwoWayPeg,
    /// Store the header.
    PutHeader,
    /// Store the body.
    PutBody,
    /// Take a transaction of the block out of the mempool.
    DeleteTransaction(Txid),
}

/// The parts of connecting a block whose body holds the given transactions.
pub open spec fn connect_ops(transactions: Seq<AuthorizedTransaction>) -> Seq<ConnectOp> {
    seq![
        ConnectOp::ApplyBlock,
        ConnectOp::ConnectTwoWayPeg,
        ConnectOp::PutHeader,
        ConnectOp::PutBody,
    ] + transactions.map_values(
        |transaction: AuthorizedTransaction| ConnectOp::DeleteTransaction(transaction.txid),
    )
}

/// What it takes to connect a block to the tip, in order. Nothing of it stands
/// if a part fails.
pub fn connect_tip(body: &Body) -> (ops: Vec<ConnectOp>)
    ensures
        ops@ == connect_ops(body.transactions@),
{
    let mut ops: Vec<ConnectOp> = Vec::new();
    ops.push(ConnectOp::ApplyBlock);
    ops.push(ConnectOp::ConnectTwoWayPeg);
    ops.push(ConnectOp::PutHeader);
    ops.push(ConnectOp::PutBody);
    let mut i: usize = 0;
    while i < body.transactions.len()
        invariant
            i <= body.transactions@.len(),
            ops@ == connect_ops(body.transactions@.take(i as int)),
        decreases body.transactions@.len() - i,
    {
        ops.push(ConnectOp::DeleteTransaction(body.transactions[i].txid));
        assert(ops@ =~= connect_ops(body.transactions@.take(i + 1)));
        i += 1;
    }
    assert(body.transactions@.take(body.transactions@.len() as int) =~= body.transactions@);
    ops
}

/// A mainchain block that changed the two way peg, with the height of the side
/// chain block that applied it.
#[derive(Clone, Copy, Debug, PartialEq, Eq, Structural)]
pub struct AppliedBlock {
    pub block_hash: MainBlockHash,
    pub applied_height: u32,
}

/// The last block of a list that was applied below a height.
pub open spec fn last_below(blocks: Seq<AppliedBlock>, height: u32) -> Option<AppliedBlock>
    decreases blocks.len(),
{
    if blocks.len() == 0 {
        None
    } else if blocks.last().applied_height < height {
        Some(blocks.last())
    } else {
        last_below(blocks.drop_last(), height)
    }
}

/// Whether a block is the last of a list that was applied below a height: it is in
/// the list, and all that come after it were applied at that height or above. If
/// there is none, all of the list were.
pub open spec fn is_last_below(
    blocks: Seq<AppliedBlock>,
    height: u32,
    last: Option<AppliedBlock>,
) -> bool {
    match last {
        Some(block) => exists|i: int|
            {
                &&& 0 <= i < blocks.len()
                &&& #[trigger] blocks[i] == block
                &&& block.applied_height < height
                &&& forall|j: int|
                    i < j < blocks.len() ==> (#[trigger] blocks[j]).applied_height >= height
            },
        None => forall|j: int|
            0 <= j < blocks.len() ==> (#[trigger] blocks[j]).applied_height >= height,
    }
}

/// The last block that was applied below a height is in the list, was applied
/// below that height, and none that comes after it was. There is none only if
/// every block was applied at that height or above.
pub proof fn law_last_below_is_the_last(blocks: Seq<AppliedBlock>, height: u32)
    ensures
        match last_below(blocks, height) {
            Some(block) => exists|i: int|
                {
                    &&& 0 <= i < blocks.len()
                    &&& #[trigger] blocks[i] == block
                    &&& block.applied_height < height
                    &&& forall|j: int|
                        i < j < blocks.len() ==> (#[trigger] blocks[j]).applied_height >= height
                },
            None => forall|j: int|
                0 <= j < blocks.len() ==> (#[trigger] blocks[j]).applied_height >= height,
        },
    decreases blocks.len(),
{
    if blocks.len() > 0 {
        let n = blocks.len() - 1;
        assert(blocks[n] == blocks.last());
        if blocks.last().applied_height >= height {
            let rest = blocks.drop_last();
            law_last_below_is_the_last(rest, height);
            match last_below(rest, height) {
                Some(block) => {
                    let i = choose|i: int|
                        {
                            &&& 0 <= i < rest.len()
                            &&& #[trigger] rest[i] == block
                            &&& block.applied_height < height
                            &&& forall|j: int|
                                i < j < rest.len() ==> (#[trigger] rest[j]).applied_height
                                    >= height
                        };
                    assert(blocks[i] == block);
                    assert forall|j: int| i < j < blocks.len() implies (
                    #[trigger] blocks[j]).applied_height >= height by {
                        if j < n {
                            assert(rest[j] == blocks[j]);
                        }
                    }
                },
                None => {
                    assert forall|j: int| 0 <= j < blocks.len() implies (
                    #[trigger] blocks[j]).applied_height >= height by {
                        if j < n {
                            assert(rest[j] == blocks[j]);
                        }
                    }
                },
            }
        }
    }
}

pub fn last_applied_below(blocks: &Vec<AppliedBlock>, height: u32) -> (last: Option<AppliedBlock>)
    ensures
        last == last_below(blocks@, height),
        is_last_below(blocks@, height, last),
{
    proof {
        law_last_below_is_the_last(blocks@, height);
    }
    let mut i: usize = blocks.len();
    assert(blocks@.take(blocks@.len() as int) =~= blocks@);
    while i > 0
        invariant
            i <= blocks@.len(),
            last_below(blocks@, height) == last_below(blocks@.take(i as int), height),
            is_last_below(blocks@, height, last_below(blocks@, height)),
        decreases i,
    {
        i -= 1;
        assert(blocks@.take(i + 1).drop_last() =~= blocks@.take(i as int));
        if blocks[i].applied_height < height {
            return Some(blocks[i]);
        }
    }
    None
}

/// Where the mainchain blocks that a tip applied start.
#[derive(Clone, Copy, Debug, PartialEq, Eq, Structural)]
pub enum PegStart {
    /// After this block, or at the very first one.
    After(Option<MainBlockHash>),
    /// After the one of the two blocks that the other descends from.
    AfterAncestor { deposit: MainBlockHash, withdrawal: MainBlockHash },
}

/// The block that was applied later, of the last one with deposits and the last
/// one with withdrawal bundle events.
pub open spec fn peg_start_spec(
    deposit: Option<AppliedBlock>,
    withdrawal: Option<AppliedBlock>,
) -> PegStart {
    match (deposit, withdrawal) {
        (None, None) => PegStart::After(None),
        (Some(block), None) => PegStart::After(Some(block.block_hash)),
        (None, Some(block)) => PegStart::After(Some(block.block_hash)),
        (Some(deposit), Some(withdrawal)) => {
            if deposit.applied_height < withdrawal.applied_height {
                PegStart::After(Some(withdrawal.block_hash))
            } else if deposit.applied_height > withdrawal.applied_height {
                PegStart::After(Some(deposit.block_hash))
            } else {
                PegStart::AfterAncestor {
                    deposit: deposit.block_hash,
                    withdrawal: withdrawal.block_hash,
                }
            }
        },
    }
}

pub fn peg_start(deposit: Option<AppliedBlock>, withdrawal: Option<AppliedBlock>) -> (start:
    PegStart)
    ensures
        start == peg_start_spec(deposit, withdrawal),
{
    match (deposit, withdrawal) {
        (None, None) => PegStart::After(None),
        (Some(block), None) => PegStart::After(Some(block.block_hash)),
        (None, Some(block)) => PegStart::After(Some(block.block_hash)),
        (Some(deposit), Some(withdrawal)) => {
            if deposit.applied_height < withdrawal.applied_height {
                PegStart::After(Some(withdrawal.block_hash))
            } else if deposit.applied_height > withdrawal.applied_height {
                PegStart::After(Some(deposit.block_hash))
            } else {
                PegStart::AfterAncestor {
                    deposit: deposit.block_hash,
                    withdrawal: withdrawal.block_hash,
                }
            }
        },
    }
}

/// Undoing starts after the block that was applied last, of those given. Of two
/// that were applied at the same height it is not known which one that is.
pub proof fn law_peg_start_is_the_later_block(
    deposit: Option<AppliedBlock>,
    withdrawal: Option<AppliedBlock>,
)
    ensures
        match peg_start_spec(deposit, withdrawal) {
            PegStart::After(None) => deposit is None && withdrawal is None,
            PegStart::After(Some(hash)) => {
                ||| deposit matches Some(block) && block.block_hash == hash && (
                withdrawal matches Some(other) ==> other.applied_height < block.applied_height)
                ||| withdrawal matches Some(block) && block.block_hash == hash && (
                deposit matches Some(other) ==> other.applied_height < block.applied_height)
            },
            PegStart::AfterAncestor { deposit: d, withdrawal: w } => {
                &&& deposit matches Some(first) && first.block_hash == d
                &&& withdrawal matches Some(second) && second.block_hash == w
                &&& deposit->Some_0.applied_height == withdrawal->Some_0.applied_height
            },
        },
{
}

/// The block to look up next on a walk back over the mainchain, unless the walk
/// has come to the block that it stops at, or the chain is over.
pub open spec fn wanted(next: Option<MainBlockHash>, stop: Option<MainBlockHash>) -> Option<
    MainBlockHash,
> {
    if next == stop {
        None
    } else {
        next
    }
}

/// Those of a list of mainchain blocks that changed the two way peg.
pub open spec fn with_events(blocks: Seq<MainBlock>) -> Seq<MainBlock>
    decreases blocks.len(),
{
    if blocks.len() == 0 {
        Seq::empty()
    } else if blocks.last().info.events@.len() > 0 {
        with_events(blocks.drop_last()).push(blocks.last())
    } else {
        with_events(blocks.drop_last())
    }
}

/// The peg data that a list of mainchain blocks stands for. The list is taken
/// from its end.
pub open spec fn peg_entries(blocks: Seq<MainBlock>) -> Seq<(MainBlockHash, MainBlockInfo)> {
    peg_entries_from(Seq::empty(), blocks)
}

/// The peg data once a list of mainchain blocks was added to it. The list is
/// taken from its end.
pub open spec fn peg_entries_from(
    entries: Seq<(MainBlockHash, MainBlockInfo)>,
    blocks: Seq<MainBlock>,
) -> Seq<(MainBlockHash, MainBlockInfo)>
    decreases blocks.len(),
{
    if blocks.len() == 0 {
        entries
    } else {
        peg_entries_from(
            put_entry(entries, blocks.last().hash, blocks.last().info),
            blocks.drop_last(),
        )
    }
}

/// One part of disconnecting the tip.
#[derive(Clone, Copy, Debug, PartialEq, Eq, Structural)]
pub enum DisconnectOp {
    /// Undo what the mainchain did to the two way peg.
    DisconnectTwoWayPeg,
    /// Undo the block.
    DisconnectBlock,
    /// Put a transaction into the mempool, given by its place in the body of the
    /// block.
    PutTransaction(usize),
}

/// The parts of disconnecting a block whose body holds `len` transactions: the
/// two way peg first, then the block, and then its transactions, the last one
/// first.
pub open spec fn disconnect_ops(len: nat) -> Seq<DisconnectOp> {
    seq![DisconnectOp::DisconnectTwoWayPeg, DisconnectOp::DisconnectBlock] + Seq::new(
        len,
        |i: int| DisconnectOp::PutTransaction((len - 1 - i) as usize),
    )
}

/// What it takes to disconnect the tip.
#[derive(Debug)]
pub struct DisconnectPlan {
    pub two_way_peg_data: TwoWayPegData,
    pub block: Block,
    /// What to do, in order. Nothing of it stands if a part fails.
    pub ops: Vec<DisconnectOp>,
}

/// What disconnecting the tip asks of the database.
#[derive(Clone, Copy, Debug, PartialEq, Eq, Structural)]
pub enum DisconnectAsk {
    /// Whether one mainchain block descends from another.
    IsMainDescendant { ancestor: MainBlockHash, descendant: MainBlockHash },
    /// A mainchain block of the archive, and its parent.
    MainBlock(MainBlockHash),
}

/// What the database answers.
#[derive(Debug)]
pub enum DisconnectReply {
    Flag(bool),
    MainBlock { info: MainBlockInfo, parent: Option<MainBlockHash> },
    /// What was asked for could not be done.
    Failed(Error),
}

/// What disconnecting the tip waits for.
#[derive(Clone, Copy, Debug, PartialEq, Eq, Structural)]
pub enum DisconnectPhase {
    /// Whether the deposit block descends from the withdrawal block.
    WithdrawalFirst { deposit: MainBlockHash, withdrawal: MainBlockHash },
    /// Whether the withdrawal block descends from the deposit block.
    DepositFirst { deposit: MainBlockHash, withdrawal: MainBlockHash },
    /// A mainchain block, on the way back to the given one.
    Walk { at: MainBlockHash, stop: Option<MainBlockHash> },
}

/// A tip that is being disconnected.
#[derive(Debug)]
pub struct Disconnect {
    block: Block,
    /// The mainchain blocks that were passed, the newest first.
    passed: Vec<MainBlock>,
    phase: DisconnectPhase,
}

#[verifier::ext_equal]
pub struct DisconnectView {
    pub block: Block,
    pub passed: Seq<MainBlock>,
    pub phase: DisconnectPhase,
}

/// The next step of disconnecting the tip.
#[derive(Debug)]
pub enum DisconnectStep {
    /// Ask the database, and call [`Disconnect::next`] with the answer.
    Ask(DisconnectAsk, Disconnect),
    /// It is known what to do, or why nothing can be done.
    Over(Result<DisconnectPlan, Error>),
}

#[verifier::ext_equal]
pub enum DisconnectStepView {
    Ask(DisconnectAsk, DisconnectView),
    Plan {
        block: Block,
        two_way_peg_data: Seq<(MainBlockHash, MainBlockInfo)>,
        ops: Seq<DisconnectOp>,
    },
    Failed(Error),
}

impl DisconnectStep {
    pub open spec fn view(self) -> DisconnectStepView {
        match self {
            DisconnectStep::Ask(ask, disconnect) => DisconnectStepView::Ask(ask, disconnect@),
            DisconnectStep::Over(Ok(plan)) => DisconnectStepView::Plan {
                block: plan.block,
                two_way_peg_data: plan.two_way_peg_data.entries(),
                ops: plan.ops@,
            },
            DisconnectStep::Over(Err(err)) => DisconnectStepView::Failed(err),
        }
    }
}

impl DisconnectView {
    /// Wait for the answer to a question.
    pub open spec fn asks(self, ask: DisconnectAsk, phase: DisconnectPhase) -> DisconnectStepView {
        DisconnectStepView::Ask(ask, DisconnectView { phase, ..self })
    }

    /// Walk back over the mainchain, from the block that the tip was built upon.
    pub open spec fn walks_from_tip(self, stop: Option<MainBlockHash>) -> DisconnectStepView {
        self.walks(Some(self.block.header.prev_main_hash), stop)
    }

    pub open spec fn walks(
        self,
        next: Option<MainBlockHash>,
        stop: Option<MainBlockHash>,
    ) -> DisconnectStepView {
        match wanted(next, stop) {
            Some(at) => self.asks(
                DisconnectAsk::MainBlock(at),
                DisconnectPhase::Walk { at, stop },
            ),
            None => self.plans(),
        }
    }

    /// All mainchain blocks that the tip applied are known.
    pub open spec fn plans(self) -> DisconnectStepView {
        DisconnectStepView::Plan {
            block: self.block,
            two_way_peg_data: peg_entries(with_events(self.passed)),
            ops: disconnect_ops(self.block.body.transactions@.len()),
        }
    }

    /// Start after a block, or after the earlier one of two.
    pub open spec fn starts(self, start: PegStart) -> DisconnectStepView {
        match start {
            PegStart::After(stop) => self.walks_from_tip(stop),
            PegStart::AfterAncestor { deposit, withdrawal } => self.asks(
                DisconnectAsk::IsMainDescendant { ancestor: withdrawal, descendant: deposit },
                DisconnectPhase::WithdrawalFirst { deposit, withdrawal },
            ),
        }
    }

    /// The step that an answer leads to.
    pub open spec fn next_step(self, reply: DisconnectReply) -> DisconnectStepView {
        match (self.phase, reply) {
            (_, DisconnectReply::Failed(err)) => DisconnectStepView::Failed(err),
            (
                DisconnectPhase::WithdrawalFirst { deposit, withdrawal },
                DisconnectReply::Flag(withdrawal_first),
            ) => if withdrawal_first {
                self.walks_from_tip(Some(withdrawal))
            } else {
                self.asks(
                    DisconnectAsk::IsMainDescendant { ancestor: deposit, descendant: withdrawal },
                    DisconnectPhase::DepositFirst { deposit, withdrawal },
                )
            },
            (
                DisconnectPhase::DepositFirst { deposit, .. },
                DisconnectReply::Flag(deposit_first),
            ) => if deposit_first {
                self.walks_from_tip(Some(deposit))
            } else {
                DisconnectStepView::Failed(
                    Error::Contradiction(Contradiction::UnrelatedMainBlocks),
                )
            },
            (
                DisconnectPhase::Walk { at, stop },
                DisconnectReply::MainBlock { info, parent },
            ) => DisconnectView {
                passed: self.passed.push(MainBlock { hash: at, info }),
                ..self
            }.walks(parent, stop),
            _ => DisconnectStepView::Failed(Error::Contradiction(Contradiction::Answer)),
        }
    }
}

/// The first step of disconnecting a tip at a height.
pub open spec fn disconnect_first(
    tip: Option<Block>,
    height: Option<u32>,
    deposit_blocks: Seq<AppliedBlock>,
    withdrawal_bundle_event_blocks: Seq<AppliedBlock>,
) -> DisconnectStepView {
    match (tip, height) {
        (Some(block), Some(height)) => DisconnectView {
            block,
            passed: Seq::empty(),
            phase: DisconnectPhase::Walk { at: block.header.prev_main_hash, stop: None },
        }.starts(
            peg_start_spec(
                last_below(deposit_blocks, height),
                last_below(withdrawal_bundle_event_blocks, height),
            ),
        ),
        _ => DisconnectStepView::Failed(Error::State(StateError::NoTip)),
    }
}

/// Disconnect the tip, given the blocks that changed the two way peg in the
/// order in which they were applied.
pub fn disconnect_tip(
    tip: Option<Block>,
    height: Option<u32>,
    deposit_blocks: &Vec<AppliedBlock>,
    withdrawal_bundle_event_blocks: &Vec<AppliedBlock>,
) -> (step: DisconnectStep)
    ensures
        step@ == disconnect_first(
            tip,
            height,
            deposit_blocks@,
            withdrawal_bundle_event_blocks@,
        ),
{
    match (tip, height) {
        (Some(block), Some(height)) => {
            let deposit = last_applied_below(deposit_blocks, height);
            let withdrawal = last_applied_below(withdrawal_bundle_event_blocks, height);
            let at = block.header.prev_main_hash;
            let disconnect = Disconnect {
                block,
                passed: Vec::new(),
                phase: DisconnectPhase::Walk { at, stop: None },
            };
            match peg_start(deposit, withdrawal) {
                PegStart::After(stop) => disconnect.walks_from_tip(stop),
                PegStart::AfterAncestor { deposit, withdrawal } => disconnect.asks(
                    DisconnectAsk::IsMainDescendant { ancestor: withdrawal, descendant: deposit },
                    DisconnectPhase::WithdrawalFirst { deposit, withdrawal },
                ),
            }
        },
        _ => DisconnectStep::Over(Err(Error::State(StateError::NoTip))),
    }
}

/// Disconnecting a block gives back to the mempool exactly the transactions
/// that connecting it took out, the last one first.
pub proof fn law_disconnect_returns_transactions(transactions: Seq<AuthorizedTransaction>)
    requires
        transactions.len() <= usize::MAX,
    ensures
        disconnect_ops(transactions.len()).skip(2).map_values(
            |op: DisconnectOp|
                ConnectOp::DeleteTransaction(transactions[op->PutTransaction_0 as int].txid),
        ).reverse() == connect_ops(transactions).skip(4),
{
    assert(disconnect_ops(transactions.len()).skip(2).map_values(
        |op: DisconnectOp|
            ConnectOp::DeleteTransaction(transactions[op->PutTransaction_0 as int].txid),
    ).reverse() =~= connect_ops(transactions).skip(4));
}

impl Disconnect {
    pub closed spec fn view(self) -> DisconnectView {
        DisconnectView { block: self.block, passed: self.passed@, phase: self.phase }
    }

    fn asks(self, ask: DisconnectAsk, phase: DisconnectPhase) -> (step: DisconnectStep)
        ensures
            step@ == self@.asks(ask, phase),
    {
        DisconnectStep::Ask(ask, Disconnect { phase, ..self })
    }

    fn walks_from_tip(self, stop: Option<MainBlockHash>) -> (step: DisconnectStep)
        ensures
            step@ == self@.walks_from_tip(stop),
    {
        let from = self.block.header.prev_main_hash;
        self.walks(Some(from), stop)
    }

    fn walks(self, next: Option<MainBlockHash>, stop: Option<MainBlockHash>) -> (step:
        DisconnectStep)
        ensures
            step@ == self@.walks(next, stop),
    {
        match next {
            Some(at) if stop != Some(at) => self.asks(
                DisconnectAsk::MainBlock(at),
                DisconnectPhase::Walk { at, stop },
            ),
            _ => self.plans(),
        }
    }

    fn plans(self) -> (step: DisconnectStep)
        ensures
            step@ == self@.plans(),
    {
        let kept = keep_with_events(self.passed);
        let two_way_peg_data = peg_data(kept);
        let mut ops: Vec<DisconnectOp> = Vec::new();
        ops.push(DisconnectOp::DisconnectTwoWayPeg);
        ops.push(DisconnectOp::DisconnectBlock);
        let len: usize = self.block.body.transactions.len();
        let mut i: usize = len;
        assert(ops@ =~= disconnect_ops(len as nat).take(2));
        while i > 0
            invariant
                i <= len,
                ops@ == disconnect_ops(len as nat).take(2 + len - i),
            decreases i,
        {
            i -= 1;
            ops.push(DisconnectOp::PutTransaction(i));
            assert(ops@ =~= disconnect_ops(len as nat).take(2 + len - i));
        }
        assert(disconnect_ops(len as nat).take(2 + len) =~= disconnect_ops(len as nat));
        DisconnectStep::Over(Ok(DisconnectPlan { two_way_peg_data, block: self.block, ops }))
    }

    /// The step that an answer leads to.
    pub fn next(self, reply: DisconnectReply) -> (step: DisconnectStep)
        ensures
            step@ == self@.next_step(reply),
    {
        match (self.phase, reply) {
            (_, DisconnectReply::Failed(err)) => DisconnectStep::Over(Err(err)),
            (
                DisconnectPhase::WithdrawalFirst { deposit, withdrawal },
                DisconnectReply::Flag(withdrawal_first),
            ) => {
                if withdrawal_first {
                    self.walks_from_tip(Some(withdrawal))
                } else {
                    self.asks(
                        DisconnectAsk::IsMainDescendant {
                            ancestor: deposit,
                            descendant: withdrawal,
                        },
                        DisconnectPhase::DepositFirst { deposit, withdrawal },
                    )
                }
            },
            (
                DisconnectPhase::DepositFirst { deposit, .. },
                DisconnectReply::Flag(deposit_first),
            ) => {
                if deposit_first {
                    self.walks_from_tip(Some(deposit))
                } else {
                    DisconnectStep::Over(
                        Err(Error::Contradiction(Contradiction::UnrelatedMainBlocks)),
                    )
                }
            },
            (DisconnectPhase::Walk { at, stop }, DisconnectReply::MainBlock { info, parent }) => {
                let mut disconnect = self;
                disconnect.passed.push(MainBlock { hash: at, info });
                disconnect.walks(parent, stop)
            },
            _ => DisconnectStep::Over(Err(Error::Contradiction(Contradiction::Answer))),
        }
    }
}

fn keep_with_events(blocks: Vec<MainBlock>) -> (kept: Vec<MainBlock>)
    ensures
        kept@ == with_events(blocks@),
{
    let mut kept: Vec<MainBlock> = Vec::new();
    let mut left = blocks;
    let ghost all = blocks@;
    let ghost mut i: int = 0;
    assert(all.skip(0) =~= all);
    while left.len() > 0
        invariant
            0 <= i <= all.len(),
            left@ == all.skip(i),
            kept@ == with_events(all.take(i)),
        decreases left@.len(),
    {
        let block = left.remove(0);
        proof {
            assert(left@ =~= all.skip(i + 1));
            assert(all.take(i + 1).drop_last() =~= all.take(i));
            i = i + 1;
        }
        if block.info.events.len() > 0 {
            kept.push(block);
        }
    }
    assert(all.take(all.len() as int) =~= all);
    kept
}

fn peg_data(blocks: Vec<MainBlock>) -> (data: TwoWayPegData)
    ensures
        data.entries() == peg_entries(blocks@),
{
    let mut data: TwoWayPegData = Table::new();
    let mut left = blocks;
    while left.len() > 0
        invariant
            peg_entries(blocks@) == peg_entries_from(data.entries(), left@),
        decreases left@.len(),
    {
        if let Some(block) = left.pop() {
            data.insert(block.hash, block.info);
        }
    }
    data
}

/// The mainchain, as the archive has it.
pub struct MainArchive {
    pub info: spec_fn(MainBlockHash) -> MainBlockInfo,
    pub parent: spec_fn(MainBlockHash) -> Option<MainBlockHash>,
    /// Whether the second block descends from the first.
    pub descends: spec_fn(MainBlockHash, MainBlockHash) -> bool,
}

impl MainArchive {
    /// The blocks from one back to, but without, another, `n` at most, the newest
    /// first.
    pub open spec fn back_to(
        self,
        next: Option<MainBlockHash>,
        stop: Option<MainBlockHash>,
        n: nat,
    ) -> Seq<MainBlock>
        decreases n,
    {
        match wanted(next, stop) {
            Some(at) if n > 0 => seq![MainBlock { hash: at, info: (self.info)(at) }]
                + self.back_to((self.parent)(at), stop, (n - 1) as nat),
            _ => Seq::empty(),
        }
    }

    /// The block to stop at: of two blocks the one that the other descends from.
    pub open spec fn settled(self, start: PegStart) -> Option<MainBlockHash> {
        match start {
            PegStart::After(stop) => stop,
            PegStart::AfterAncestor { deposit, withdrawal } => if (self.descends)(
                withdrawal,
                deposit,
            ) {
                Some(withdrawal)
            } else {
                Some(deposit)
            },
        }
    }

    pub open spec fn answer(self, ask: DisconnectAsk) -> DisconnectReply {
        match ask {
            DisconnectAsk::IsMainDescendant { ancestor, descendant } => DisconnectReply::Flag(
                (self.descends)(ancestor, descendant),
            ),
            DisconnectAsk::MainBlock(hash) => DisconnectReply::MainBlock {
                info: (self.info)(hash),
                parent: (self.parent)(hash),
            },
        }
    }

    /// The step after at most `n` questions were answered.
    pub open spec fn run(self, step: DisconnectStepView, n: nat) -> DisconnectStepView
        decreases n,
    {
        match step {
            DisconnectStepView::Ask(ask, disconnect) if n > 0 => self.run(
                disconnect.next_step(self.answer(ask)),
                (n - 1) as nat,
            ),
            _ => step,
        }
    }
}

proof fn lemma_walk_back(
    archive: MainArchive,
    depth: spec_fn(MainBlockHash) -> nat,
    disconnect: DisconnectView,
    next: Option<MainBlockHash>,
    stop: Option<MainBlockHash>,
    n: nat,
)
    requires
        forall|hash: MainBlockHash|
            (#[trigger] (archive.parent)(hash)) matches Some(parent) ==> depth(parent) < depth(
                hash,
            ),
        next matches Some(hash) ==> depth(hash) < n,
    ensures
        archive.run(disconnect.walks(next, stop), n) == (DisconnectView {
            passed: disconnect.passed + archive.back_to(next, stop, n),
            ..disconnect
        }).plans(),
    decreases n,
{
    match wanted(next, stop) {
        None => {
            assert(disconnect.passed + archive.back_to(next, stop, n) =~= disconnect.passed);
        },
        Some(at) => {
            let block = MainBlock { hash: at, info: (archive.info)(at) };
            let more = DisconnectView {
                passed: disconnect.passed.push(block),
                phase: DisconnectPhase::Walk { at, stop },
                ..disconnect
            };
            let parent = (archive.parent)(at);
            lemma_walk_back(archive, depth, more, parent, stop, (n - 1) as nat);
            assert(more.passed + archive.back_to(parent, stop, (n - 1) as nat)
                =~= disconnect.passed + archive.back_to(next, stop, n));
        },
    }
}

/// Disconnecting a tip undoes exactly the events of the mainchain blocks from the
/// one that the tip was built upon back to the last one that was applied below
/// it, as long as one of two such blocks descends from the other and the
/// mainchain goes back to a first block.
pub proof fn law_disconnect_undoes_what_the_tip_applied(
    archive: MainArchive,
    depth: spec_fn(MainBlockHash) -> nat,
    block: Block,
    height: u32,
    deposit_blocks: Seq<AppliedBlock>,
    withdrawal_bundle_event_blocks: Seq<AppliedBlock>,
)
    requires
        forall|hash: MainBlockHash|
            (#[trigger] (archive.parent)(hash)) matches Some(parent) ==> depth(parent) < depth(
                hash,
            ),
        peg_start_spec(
            last_below(deposit_blocks, height),
            last_below(withdrawal_bundle_event_blocks, height),
        ) matches PegStart::AfterAncestor { deposit, withdrawal } ==> (archive.descends)(
            withdrawal,
            deposit,
        ) || (archive.descends)(deposit, withdrawal),
    ensures
        ({
            let start = peg_start_spec(
                last_below(deposit_blocks, height),
                last_below(withdrawal_bundle_event_blocks, height),
            );
            let from = block.header.prev_main_hash;
            let n = depth(from) + 1;
            archive.run(
                disconnect_first(
                    Some(block),
                    Some(height),
                    deposit_blocks,
                    withdrawal_bundle_event_blocks,
                ),
                n + 2,
            ) == (DisconnectStepView::Plan {
                block,
                two_way_peg_data: peg_entries(
                    with_events(archive.back_to(Some(from), archive.settled(start), n)),
                ),
                ops: disconnect_ops(block.body.transactions@.len()),
            })
        }),
{
    let start = peg_start_spec(
        last_below(deposit_blocks, height),
        last_below(withdrawal_bundle_event_blocks, height),
    );
    let from = block.header.prev_main_hash;
    let n = depth(from) + 1;
    let first = DisconnectView {
        block,
        passed: Seq::empty(),
        phase: DisconnectPhase::Walk { at: from, stop: None },
    };
    let stop = archive.settled(start);
    let begun = match start {
        PegStart::After(_) => first,
        PegStart::AfterAncestor { deposit, withdrawal } => if (archive.descends)(
            withdrawal,
            deposit,
        ) {
            DisconnectView {
                phase: DisconnectPhase::WithdrawalFirst { deposit, withdrawal },
                ..first
            }
        } else {
            DisconnectView {
                phase: DisconnectPhase::DepositFirst { deposit, withdrawal },
                ..first
            }
        },
    };
    lemma_walk_back(archive, depth, begun, Some(from), stop, n);
    assert(begun.passed + archive.back_to(Some(from), stop, n) =~= archive.back_to(
        Some(from),
        stop,
        n,
    ));
    let walked = begun.walks(Some(from), stop);
    lemma_run_longer(archive, walked, n, n + 1);
    lemma_run_longer(archive, walked, n, n + 2);
    reveal_with_fuel(MainArchive::run, 3);
}

/// A step that is over stays as it is.
proof fn lemma_run_longer(archive: MainArchive, step: DisconnectStepView, n: nat, m: nat)
    requires
        n <= m,
        !(archive.run(step, n) is Ask),
    ensures
        archive.run(step, m) == archive.run(step, n),
    decreases n,
{
    match step {
        DisconnectStepView::Ask(ask, disconnect) => {
            if n > 0 {
                let next = disconnect.next_step(archive.answer(ask));
                lemma_run_longer(archive, next, (n - 1) as nat, (m - 1) as nat);
            }
        },
        _ => {},
    }
}

/// Whether no mainchain block occurs twice in a list.
pub open spec fn distinct_blocks(blocks: Seq<MainBlock>) -> bool {
    forall|i: int, j: int|
        0 <= i < j < blocks.len() ==> (#[trigger] blocks[i]).hash != (#[trigger] blocks[j]).hash
}

/// The peg data of distinct blocks that are listed from the newest holds every
/// block once, from the oldest.
pub proof fn law_peg_data_is_oldest_first(blocks: Seq<MainBlock>)
    requires
        distinct_blocks(blocks),
    ensures
        peg_entries(blocks) == blocks.reverse().map_values(
            |block: MainBlock| (block.hash, block.info),
        ),
{
    lemma_peg_entries_append(Seq::empty(), blocks);
    assert(peg_entries(blocks) =~= blocks.reverse().map_values(
        |block: MainBlock| (block.hash, block.info),
    ));
}

proof fn lemma_peg_entries_append(
    entries: Seq<(MainBlockHash, MainBlockInfo)>,
    blocks: Seq<MainBlock>,
)
    requires
        distinct_blocks(blocks),
        forall|i: int|
            0 <= i < blocks.len() ==> !keys_of(entries).contains((#[trigger] blocks[i]).hash),
    ensures
        peg_entries_from(entries, blocks) == entries + blocks.reverse().map_values(
            |block: MainBlock| (block.hash, block.info),
        ),
    decreases blocks.len(),
{
    let pair = |block: MainBlock| (block.hash, block.info);
    if blocks.len() == 0 {
        assert(entries + blocks.reverse().map_values(pair) =~= entries);
    } else {
        let last = blocks.last();
        let rest = blocks.drop_last();
        assert(!keys_of(entries).contains(blocks[blocks.len() - 1].hash));
        let more = entries.push((last.hash, last.info));
        assert(put_entry(entries, last.hash, last.info) == more);
        assert forall|i: int| 0 <= i < rest.len() implies !keys_of(more).contains(
            (#[trigger] rest[i]).hash,
        ) by {
            assert(!keys_of(entries).contains(blocks[i].hash));
            assert(blocks[i].hash != blocks[blocks.len() - 1].hash);
            if keys_of(more).contains(rest[i].hash) {
                let k = keys_of(more).index_of(rest[i].hash);
                if k < entries.len() {
                    assert(keys_of(entries)[k] == rest[i].hash);
                }
            }
        }
        lemma_peg_entries_append(more, rest);
        assert(more + rest.reverse().map_values(pair) =~= entries + blocks.reverse().map_values(
            pair,
        ));
    }
}

/// A failure of the database ends disconnecting with that failure, before anything
/// was undone.
pub proof fn law_failures_end_disconnecting(disconnect: DisconnectView, err: Error)
    ensures
        disconnect.next_step(DisconnectReply::Failed(err)) == DisconnectStepView::Failed(err),
{
}

/// If neither of the two mainchain blocks that were applied last descends from the
/// other, nothing is disconnected.
pub proof fn law_unrelated_main_blocks_end_disconnecting(
    archive: MainArchive,
    block: Block,
    height: u32,
    deposit_blocks: Seq<AppliedBlock>,
    withdrawal_bundle_event_blocks: Seq<AppliedBlock>,
    deposit: AppliedBlock,
    withdrawal: AppliedBlock,
)
    requires
        last_below(deposit_blocks, height) == Some(deposit),
        last_below(withdrawal_bundle_event_blocks, height) == Some(withdrawal),
        deposit.applied_height == withdrawal.applied_height,
        !(archive.descends)(withdrawal.block_hash, deposit.block_hash),
        !(archive.descends)(deposit.block_hash, withdrawal.block_hash),
    ensures
        archive.run(
            disconnect_first(
                Some(block),
                Some(height),
                deposit_blocks,
                withdrawal_bundle_event_blocks,
            ),
            2,
        ) == DisconnectStepView::Failed(Error::Contradiction(Contradiction::UnrelatedMainBlocks)),
{
    reveal_with_fuel(MainArchive::run, 3);
}

/// What a step shows of itself.
pub proof fn law_disconnect_views(step: DisconnectStep)
    ensures
        match step {
            DisconnectStep::Ask(ask, disconnect) => step@ == DisconnectStepView::Ask(
                ask,
                disconnect@,
            ),
            DisconnectStep::Over(Ok(plan)) => step@ == (DisconnectStepView::Plan {
                block: plan.block,
                two_way_peg_data: plan.two_way_peg_data.entries(),
                ops: plan.ops@,
            }),
            DisconnectStep::Over(Err(err)) => step@ == DisconnectStepView::Failed(err),
        },
{
}

/// Connecting a block applies it, then applies what the mainchain did to the two way
/// peg, stores header and body, and takes each of its transactions out of the
/// mempool, in order.
pub proof fn law_connect_ops_in_order(transactions: Seq<AuthorizedTransaction>)
    ensures
        ({
            let ops = connect_ops(transactions);
            &&& ops.len() == transactions.len() + 4
            &&& ops[0] == ConnectOp::ApplyBlock
            &&& ops[1] == ConnectOp::ConnectTwoWayPeg
            &&& ops[2] == ConnectOp::PutHeader
            &&& ops[3] == ConnectOp::PutBody
            &&& forall|i: int|
                0 <= i < transactions.len() ==> #[trigger] ops[i + 4]
                    == ConnectOp::DeleteTransaction(transactions[i].txid)
        }),
{
}

/// Those of a list of mainchain blocks that changed the two way peg are those with
/// events, in order.
pub proof fn law_blocks_with_events_changed_the_peg(blocks: Seq<MainBlock>)
    ensures
        with_events(blocks) == blocks.filter(|block: MainBlock| block.info.events@.len() > 0),
    decreases blocks.len(),
{
    reveal(Seq::filter);
    if blocks.len() > 0 {
        law_blocks_with_events_changed_the_peg(blocks.drop_last());
    }
}

} // verus!
