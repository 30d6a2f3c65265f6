//! What connecting a block and disconnecting the tip do to the state, the archive
//! and the mempool, taken together.

use vstd::prelude::*;

use crate::hash::{BlockHash, MainBlockHash, Txid};
use crate::node::error::{Error, StateError};
use crate::node::reorg_laws::top;
use crate::node::tip::{
    connect_ops, disconnect_first, disconnect_ops, distinct_blocks, is_last_below, last_below,
    law_disconnect_undoes_what_the_tip_applied, law_peg_data_is_oldest_first, peg_entries,
    peg_start_spec, with_events, AppliedBlock, ConnectOp, DisconnectOp, DisconnectStepView, MainArchive, PegStart,
};
use crate::types::{AuthorizedTransaction, Block, Body, Header, MainBlock, MainBlockInfo};

verus! {

/// A change of the two way peg, with the tip at the time of the change.
pub enum PegChange {
    Connected { tip: Option<BlockHash>, data: Seq<(MainBlockHash, MainBlockInfo)> },
    Disconnected { tip: Option<BlockHash>, data: Seq<(MainBlockHash, MainBlockInfo)> },
}

/// The state, the archive and the mempool, as far as connecting and disconnecting
/// blocks changes them.
#[verifier::ext_equal]
pub struct Ledger {
    /// The blocks that the state applied, the oldest first.
    pub chain: Seq<BlockHash>,
    /// What happened to the two way peg, in order.
    pub pegs: Seq<PegChange>,
    pub headers: Map<BlockHash, Header>,
    pub bodies: Map<BlockHash, Body>,
    pub mempool: Map<Txid, AuthorizedTransaction>,
}

impl Ledger {
    pub open spec fn tip(self) -> Option<BlockHash> {
        top(self.chain)
    }

    pub open spec fn height(self) -> Option<u32> {
        if self.chain.len() == 0 {
            None
        } else {
            Some((self.chain.len() - 1) as u32)
        }
    }

    /// The block at the tip, as the archive has it.
    pub open spec fn tip_block(self) -> Option<Block> {
        match self.tip() {
            Some(hash) => Some(Block { header: self.headers[hash], body: self.bodies[hash] }),
            None => None,
        }
    }

    /// What one part of connecting a block does.
    pub open spec fn connect_op(
        self,
        block: Block,
        data: Seq<(MainBlockHash, MainBlockInfo)>,
        op: ConnectOp,
    ) -> Ledger {
        let hash = block.header.hash;
        match op {
            ConnectOp::ApplyBlock => Ledger { chain: self.chain.push(hash), ..self },
            ConnectOp::ConnectTwoWayPeg => Ledger {
                pegs: self.pegs.push(PegChange::Connected { tip: self.tip(), data }),
                ..self
            },
            ConnectOp::PutHeader => Ledger {
                headers: self.headers.insert(hash, block.header),
                ..self
            },
            ConnectOp::PutBody => Ledger { bodies: self.bodies.insert(hash, block.body), ..self },
            ConnectOp::DeleteTransaction(txid) => Ledger {
                mempool: self.mempool.remove(txid),
                ..self
            },
        }
    }

    pub open spec fn connect(
        self,
        block: Block,
        data: Seq<(MainBlockHash, MainBlockInfo)>,
        ops: Seq<ConnectOp>,
    ) -> Ledger
        decreases ops.len(),
    {
        if ops.len() == 0 {
            self
        } else {
            self.connect(block, data, ops.drop_last()).connect_op(block, data, ops.last())
        }
    }

    /// What one part of disconnecting a block does.
    pub open spec fn disconnect_op(
        self,
        block: Block,
        data: Seq<(MainBlockHash, MainBlockInfo)>,
        op: DisconnectOp,
    ) -> Ledger {
        match op {
            DisconnectOp::DisconnectTwoWayPeg => Ledger {
                pegs: self.pegs.push(PegChange::Disconnected { tip: self.tip(), data }),
                ..self
            },
            DisconnectOp::DisconnectBlock => Ledger { chain: self.chain.drop_last(), ..self },
            DisconnectOp::PutTransaction(place) => {
                let transaction = block.body.transactions@[place as int];
                Ledger {
                    mempool: self.mempool.insert(transaction.txid, transaction),
                    ..self
                }
            },
        }
    }

    pub open spec fn disconnect(
        self,
        block: Block,
        data: Seq<(MainBlockHash, MainBlockInfo)>,
        ops: Seq<DisconnectOp>,
    ) -> Ledger
        decreases ops.len(),
    {
        if ops.len() == 0 {
            self
        } else {
            self.disconnect(block, data, ops.drop_last()).disconnect_op(block, data, ops.last())
        }
    }

    /// Disconnect the tip, with at most `n` questions to the archive. Only a plan
    /// changes anything.
    pub open spec fn disconnect_tip(
        self,
        archive: MainArchive,
        deposit_blocks: Seq<AppliedBlock>,
        withdrawal_bundle_event_blocks: Seq<AppliedBlock>,
        n: nat,
    ) -> (Ledger, DisconnectStepView) {
        let step = archive.run(
            disconnect_first(
                self.tip_block(),
                self.height(),
                deposit_blocks,
                withdrawal_bundle_event_blocks,
            ),
            n,
        );
        match step {
            DisconnectStepView::Plan { block, two_way_peg_data, ops } => (
                self.disconnect(block, two_way_peg_data, ops),
                step,
            ),
            _ => (self, step),
        }
    }
}

/// Whether a transaction with the given identifier is in a list, from a place on.
pub open spec fn holds_txid(
    transactions: Seq<AuthorizedTransaction>,
    from: int,
    txid: Txid,
) -> bool {
    exists|i: int| from <= i < transactions.len() && #[trigger] transactions[i].txid == txid
}

proof fn lemma_connect(
    before: Ledger,
    block: Block,
    data: Seq<(MainBlockHash, MainBlockInfo)>,
    k: int,
)
    requires
        0 <= k <= block.body.transactions@.len(),
    ensures
        ({
            let hash = block.header.hash;
            let taken = block.body.transactions@.take(k);
            let after = before.connect(block, data, connect_ops(taken));
            &&& after.chain == before.chain.push(hash)
            &&& after.pegs == before.pegs.push(PegChange::Connected { tip: Some(hash), data })
            &&& after.headers == before.headers.insert(hash, block.header)
            &&& after.bodies == before.bodies.insert(hash, block.body)
            &&& forall|txid: Txid| #[trigger]
                after.mempool.dom().contains(txid) <==> before.mempool.dom().contains(txid)
                    && !holds_txid(taken, 0, txid)
            &&& forall|txid: Txid|
                after.mempool.dom().contains(txid) ==> #[trigger] after.mempool[txid]
                    == before.mempool[txid]
        }),
    decreases k,
{
    let taken = block.body.transactions@.take(k);
    let ops = connect_ops(taken);
    if k == 0 {
        reveal_with_fuel(Ledger::connect, 5);
        assert(ops.len() == 4);
        assert(ops.drop_last() =~= ops.take(3));
        assert(ops.take(3).drop_last() =~= ops.take(2));
        assert(ops.take(2).drop_last() =~= ops.take(1));
        assert(ops.take(1).drop_last() =~= ops.take(0));
        assert(before.chain.push(block.header.hash).last() == block.header.hash);
    } else {
        lemma_connect(before, block, data, k - 1);
        let earlier = block.body.transactions@.take(k - 1);
        assert(ops.drop_last() =~= connect_ops(earlier));
        assert(ops.last() == ConnectOp::DeleteTransaction(taken[k - 1].txid));
        assert forall|txid: Txid|
            holds_txid(taken, 0, txid) <==> (holds_txid(earlier, 0, txid) || txid == taken[k
                - 1].txid) by {
            if holds_txid(earlier, 0, txid) {
                let i = choose|i: int|
                    0 <= i < earlier.len() && #[trigger] earlier[i].txid == txid;
                assert(taken[i].txid == txid);
            }
            if holds_txid(taken, 0, txid) {
                let i = choose|i: int| 0 <= i < taken.len() && #[trigger] taken[i].txid == txid;
                if i < k - 1 {
                    assert(earlier[i].txid == txid);
                }
            }
        }
    }
}

proof fn lemma_disconnect(
    before: Ledger,
    block: Block,
    data: Seq<(MainBlockHash, MainBlockInfo)>,
    k: int,
)
    requires
        0 <= k <= block.body.transactions@.len() <= usize::MAX,
    ensures
        ({
            let transactions = block.body.transactions@;
            let from = transactions.len() - k;
            let after = before.disconnect(
                block,
                data,
                disconnect_ops(transactions.len()).take(2 + k),
            );
            &&& after.chain == before.chain.drop_last()
            &&& after.pegs == before.pegs.push(
                PegChange::Disconnected { tip: before.tip(), data },
            )
            &&& after.headers == before.headers
            &&& after.bodies == before.bodies
            &&& forall|txid: Txid| #[trigger]
                after.mempool.dom().contains(txid) <==> before.mempool.dom().contains(txid)
                    || holds_txid(transactions, from, txid)
            &&& forall|txid: Txid|
                holds_txid(transactions, from, txid) ==> transactions.contains(
                    #[trigger] after.mempool[txid],
                ) && after.mempool[txid].txid == txid
            &&& forall|txid: Txid|
                !holds_txid(transactions, from, txid) ==> #[trigger] after.mempool[txid]
                    == before.mempool[txid]
        }),
    decreases k,
{
    let transactions = block.body.transactions@;
    let from = transactions.len() - k;
    let all = disconnect_ops(transactions.len());
    let ops = all.take(2 + k);
    if k == 0 {
        reveal_with_fuel(Ledger::disconnect, 3);
        assert(ops.drop_last() =~= all.take(1));
        assert(all.take(1).drop_last() =~= all.take(0));
    } else {
        lemma_disconnect(before, block, data, k - 1);
        assert(ops.drop_last() =~= all.take(1 + k));
        assert(ops.last() == DisconnectOp::PutTransaction(from as usize));
        assert(transactions.contains(transactions[from]));
        assert forall|txid: Txid|
            holds_txid(transactions, from, txid) <==> (holds_txid(transactions, from + 1, txid)
                || txid == transactions[from].txid) by {
            if holds_txid(transactions, from + 1, txid) {
                let i = choose|i: int|
                    from + 1 <= i < transactions.len() && #[trigger] transactions[i].txid == txid;
                assert(transactions[i].txid == txid);
            }
        }
    }
}

/// Disconnecting the block that was just connected gives the state its tip and
/// its height back. Every transaction of the block is in the mempool, which is
/// otherwise as it was, the archive still holds the header and the body, and what
/// the mainchain did to the two way peg is undone while the block is still the
/// tip. One of two mainchain blocks that were applied last must descend from the
/// other, and the mainchain must go back to a first block.
pub proof fn law_disconnect_undoes_connect(
    archive: MainArchive,
    depth: spec_fn(MainBlockHash) -> nat,
    before: Ledger,
    block: Block,
    data: Seq<(MainBlockHash, MainBlockInfo)>,
    deposit_blocks: Seq<AppliedBlock>,
    withdrawal_bundle_event_blocks: Seq<AppliedBlock>,
)
    requires
        before.tip() == block.header.prev_side_hash,
        before.chain.len() <= u32::MAX,
        block.body.transactions@.len() <= usize::MAX,
        forall|hash: MainBlockHash|
            (#[trigger] (archive.parent)(hash)) matches Some(parent) ==> depth(parent) < depth(
                hash,
            ),
        peg_start_spec(
            last_below(deposit_blocks, before.chain.len() as u32),
            last_below(withdrawal_bundle_event_blocks, before.chain.len() as u32),
        ) matches PegStart::AfterAncestor { deposit, withdrawal } ==> (archive.descends)(
            withdrawal,
            deposit,
        ) || (archive.descends)(deposit, withdrawal),
    ensures
        ({
            let hash = block.header.hash;
            let transactions = block.body.transactions@;
            let from = block.header.prev_main_hash;
            let n = depth(from) + 1;
            let connected = before.connect(block, data, connect_ops(transactions));
            let (after, step) = connected.disconnect_tip(
                archive,
                deposit_blocks,
                withdrawal_bundle_event_blocks,
                n + 2,
            );
            let stop = archive.settled(
                peg_start_spec(
                    last_below(deposit_blocks, before.chain.len() as u32),
                    last_below(withdrawal_bundle_event_blocks, before.chain.len() as u32),
                ),
            );
            let undone = peg_entries(with_events(archive.back_to(Some(from), stop, n)));
            &&& connected.tip() == Some(hash)
            &&& connected.tip_block() == Some(block)
            &&& step is Plan
            &&& after.chain == before.chain
            &&& after.tip() == block.header.prev_side_hash
            &&& after.height() == before.height()
            &&& after.pegs == before.pegs.push(
                PegChange::Connected { tip: Some(hash), data },
            ).push(PegChange::Disconnected { tip: Some(hash), data: undone })
            &&& after.headers == before.headers.insert(hash, block.header)
            &&& after.bodies == before.bodies.insert(hash, block.body)
            &&& forall|txid: Txid| #[trigger]
                after.mempool.dom().contains(txid) <==> before.mempool.dom().contains(txid)
                    || holds_txid(transactions, 0, txid)
            &&& forall|txid: Txid|
                holds_txid(transactions, 0, txid) ==> transactions.contains(
                    #[trigger] after.mempool[txid],
                ) && after.mempool[txid].txid == txid
            &&& forall|txid: Txid|
                before.mempool.dom().contains(txid) && !holds_txid(transactions, 0, txid)
                    ==> #[trigger] after.mempool[txid] == before.mempool[txid]
        }),
{
    let hash = block.header.hash;
    let transactions = block.body.transactions@;
    let len = transactions.len() as int;
    let from = block.header.prev_main_hash;
    let n = depth(from) + 1;
    lemma_connect(before, block, data, len);
    assert(transactions.take(len) =~= transactions);
    let connected = before.connect(block, data, connect_ops(transactions));
    assert(connected.chain.last() == hash);
    law_disconnect_undoes_what_the_tip_applied(
        archive,
        depth,
        block,
        before.chain.len() as u32,
        deposit_blocks,
        withdrawal_bundle_event_blocks,
    );
    let stop = archive.settled(
        peg_start_spec(
            last_below(deposit_blocks, before.chain.len() as u32),
            last_below(withdrawal_bundle_event_blocks, before.chain.len() as u32),
        ),
    );
    let undone = peg_entries(with_events(archive.back_to(Some(from), stop, n)));
    lemma_disconnect(connected, block, undone, len);
    assert(disconnect_ops(transactions.len()).take(2 + len) =~= disconnect_ops(
        transactions.len(),
    ));
    assert(connected.chain.drop_last() =~= before.chain);
}

/// Without a tip nothing is disconnected, and nothing changes.
pub proof fn law_nothing_is_disconnected_without_a_tip(
    archive: MainArchive,
    ledger: Ledger,
    deposit_blocks: Seq<AppliedBlock>,
    withdrawal_bundle_event_blocks: Seq<AppliedBlock>,
    n: nat,
)
    requires
        ledger.tip() is None,
    ensures
        ledger.disconnect_tip(archive, deposit_blocks, withdrawal_bundle_event_blocks, n) == (
            ledger,
            DisconnectStepView::Failed(Error::State(StateError::NoTip)),
        ),
{
}

/// Whether none of a list of mainchain blocks changed the two way peg.
pub open spec fn no_events(blocks: Seq<MainBlock>) -> bool {
    forall|i: int| 0 <= i < blocks.len() ==> (#[trigger] blocks[i]).info.events@.len() == 0
}

/// Whether a mainchain block is not in a list.
pub open spec fn passes_by(blocks: Seq<MainBlock>, hash: Option<MainBlockHash>) -> bool {
    forall|i: int| 0 <= i < blocks.len() ==> Some((#[trigger] blocks[i]).hash) != hash
}

/// If the mainchain blocks from the last one that the parent of a block applied
/// back to the one where undoing stops have no events, then the events that are
/// undone with the block are exactly those that were applied with it.
pub proof fn law_undone_events_are_those_applied(
    archive: MainArchive,
    depth: spec_fn(MainBlockHash) -> nat,
    from: Option<MainBlockHash>,
    applied: MainBlockHash,
    stop: Option<MainBlockHash>,
    n: nat,
)
    requires
        forall|hash: MainBlockHash|
            (#[trigger] (archive.parent)(hash)) matches Some(parent) ==> depth(parent) < depth(
                hash,
            ),
        from matches Some(hash) ==> depth(hash) < n,
        forall|m: nat| no_events(#[trigger] archive.back_to(Some(applied), stop, m)),
        passes_by(archive.back_to(from, Some(applied), n), stop),
    ensures
        with_events(archive.back_to(from, stop, n)) == with_events(
            archive.back_to(from, Some(applied), n),
        ),
    decreases n,
{
    match from {
        Some(hash) if hash != applied => {
            let block = MainBlock { hash, info: (archive.info)(hash) };
            let parent = (archive.parent)(hash);
            let m = (n - 1) as nat;
            let newer = archive.back_to(from, Some(applied), n);
            let rest = archive.back_to(parent, Some(applied), m);
            assert(newer == seq![block] + rest);
            assert(newer[0] == block);
            assert(stop != Some(hash));
            assert forall|i: int| 0 <= i < rest.len() implies Some((#[trigger] rest[i]).hash)
                != stop by {
                assert(rest[i] == newer[i + 1]);
            }
            law_undone_events_are_those_applied(archive, depth, parent, applied, stop, m);
            lemma_with_events_append(seq![block], rest);
            lemma_with_events_append(seq![block], archive.back_to(parent, stop, m));
        },
        Some(_) => {
            lemma_without_events(archive.back_to(Some(applied), stop, n));
        },
        None => {},
    }
}

proof fn lemma_with_events_append(blocks: Seq<MainBlock>, more: Seq<MainBlock>)
    ensures
        with_events(blocks + more) == with_events(blocks) + with_events(more),
    decreases more.len(),
{
    if more.len() == 0 {
        assert(blocks + more =~= blocks);
        assert(with_events(blocks) + with_events(more) =~= with_events(blocks));
    } else {
        lemma_with_events_append(blocks, more.drop_last());
        assert((blocks + more).drop_last() =~= blocks + more.drop_last());
        assert(with_events(blocks + more) =~= with_events(blocks) + with_events(more));
    }
}

proof fn lemma_without_events(blocks: Seq<MainBlock>)
    requires
        no_events(blocks),
    ensures
        with_events(blocks) == Seq::<MainBlock>::empty(),
    decreases blocks.len(),
{
    if blocks.len() > 0 {
        assert(blocks.last() == blocks[blocks.len() - 1]);
        assert forall|i: int| 0 <= i < blocks.drop_last().len() implies (
        #[trigger] blocks.drop_last()[i]).info.events@.len() == 0 by {
            assert(blocks.drop_last()[i] == blocks[i]);
        }
        lemma_without_events(blocks.drop_last());
    }
}

/// Whether a block of a list of mainchain blocks, the oldest first, is the child
/// of the one before it.
pub open spec fn follows(
    parent: spec_fn(MainBlockHash) -> Option<MainBlockHash>,
    mains: Seq<MainBlock>,
    i: int,
) -> bool {
    parent(mains[i].hash) == Some(mains[i - 1].hash)
}

/// Whether a list holds the mainchain blocks from `from` back to, but without,
/// `stop`, or back to the first block, the oldest one first, each with what is
/// known of it.
pub open spec fn main_walk(
    info: spec_fn(MainBlockHash) -> MainBlockInfo,
    parent: spec_fn(MainBlockHash) -> Option<MainBlockHash>,
    from: MainBlockHash,
    stop: Option<MainBlockHash>,
    mains: Seq<MainBlock>,
) -> bool {
    &&& mains.len() == 0 <==> stop == Some(from)
    &&& mains.len() > 0 ==> {
        &&& mains.last().hash == from
        &&& parent(mains[0].hash) is None || parent(mains[0].hash) == stop
    }
    &&& forall|i: int|
        0 <= i < mains.len() ==> (#[trigger] mains[i]).info == info(mains[i].hash) && stop != Some(
            mains[i].hash,
        )
    &&& forall|i: int| 0 < i < mains.len() ==> #[trigger] follows(parent, mains, i)
}

/// Blocks of a walk over a mainchain that goes back to a first block get less
/// deep, so that none occurs twice.
pub proof fn lemma_walk_is_distinct(
    depth: spec_fn(MainBlockHash) -> nat,
    info: spec_fn(MainBlockHash) -> MainBlockInfo,
    parent: spec_fn(MainBlockHash) -> Option<MainBlockHash>,
    from: MainBlockHash,
    stop: Option<MainBlockHash>,
    mains: Seq<MainBlock>,
    i: int,
    j: int,
)
    requires
        main_walk(info, parent, from, stop, mains),
        forall|hash: MainBlockHash|
            (#[trigger] parent(hash)) matches Some(parent) ==> depth(parent) < depth(hash),
        0 <= i < j < mains.len(),
    ensures
        depth(mains[i].hash) + (j - i) <= depth(mains[j].hash),
        mains[i].hash != mains[j].hash,
    decreases j - i,
{
    assert(follows(parent, mains, j));
    if i + 1 < j {
        lemma_walk_is_distinct(depth, info, parent, from, stop, mains, i, j - 1);
    }
}

proof fn lemma_back_to_walk(
    archive: MainArchive,
    from: MainBlockHash,
    stop: Option<MainBlockHash>,
    mains: Seq<MainBlock>,
    k: int,
    n: nat,
)
    requires
        main_walk(archive.info, archive.parent, from, stop, mains),
        0 < k <= mains.len(),
        k <= n,
    ensures
        archive.back_to(Some(mains[k - 1].hash), stop, n) == mains.take(k).reverse(),
    decreases k,
{
    let at = mains[k - 1].hash;
    let block = MainBlock { hash: at, info: (archive.info)(at) };
    assert(block == mains[k - 1]);
    if k > 1 {
        assert(follows(archive.parent, mains, k - 1));
        lemma_back_to_walk(archive, from, stop, mains, k - 1, (n - 1) as nat);
    } else {
        reveal_with_fuel(MainArchive::back_to, 2);
    }
    assert(archive.back_to(Some(at), stop, n) =~= mains.take(k).reverse());
}

proof fn lemma_with_events_filter(mains: Seq<MainBlock>)
    ensures
        with_events(mains.reverse()).reverse() == mains.filter(
            |block: MainBlock| block.info.events@.len() > 0,
        ),
    decreases mains.len(),
{
    reveal(Seq::filter);
    if mains.len() > 0 {
        let rest = mains.drop_last();
        let last = mains.last();
        lemma_with_events_filter(rest);
        assert(mains.reverse() =~= seq![last] + rest.reverse());
        lemma_with_events_append(seq![last], rest.reverse());
        reveal_with_fuel(with_events, 2);
        assert(seq![last].drop_last() =~= Seq::<MainBlock>::empty());
        if last.info.events@.len() > 0 {
            assert(with_events(mains.reverse()).reverse() =~= with_events(
                rest.reverse(),
            ).reverse().push(last));
        } else {
            assert(with_events(mains.reverse()).reverse() =~= with_events(
                rest.reverse(),
            ).reverse());
        }
    } else {
        assert(mains.reverse() =~= Seq::<MainBlock>::empty());
        assert(with_events(mains.reverse()).reverse() =~= Seq::<MainBlock>::empty());
    }
}

proof fn lemma_filter_is_distinct(mains: Seq<MainBlock>, p: spec_fn(MainBlock) -> bool)
    requires
        distinct_blocks(mains),
    ensures
        distinct_blocks(mains.filter(p)),
        forall|i: int|
            0 <= i < mains.filter(p).len() ==> mains.contains(#[trigger] mains.filter(p)[i]),
    decreases mains.len(),
{
    reveal(Seq::filter);
    if mains.len() > 0 {
        let rest = mains.drop_last();
        lemma_filter_is_distinct(rest, p);
        assert(mains.last() == mains[mains.len() - 1]);
        assert forall|i: int| 0 <= i < rest.filter(p).len() implies mains.contains(
            #[trigger] rest.filter(p)[i],
        ) && rest.filter(p)[i].hash != mains.last().hash by {
            let j = rest.index_of(rest.filter(p)[i]);
            assert(mains[j] == rest.filter(p)[i]);
        }
    }
}

/// Whether undoing what a tip applied stops at a mainchain block: the one that was
/// applied later, of the last with deposits and the last with withdrawal bundle
/// events below the tip. Of two that the same block applied it is the one that the
/// other descends from.
pub open spec fn stops_at(
    archive: MainArchive,
    deposit: Option<AppliedBlock>,
    withdrawal: Option<AppliedBlock>,
    stop: Option<MainBlockHash>,
) -> bool {
    match (deposit, withdrawal) {
        (None, None) => stop is None,
        (Some(block), None) | (None, Some(block)) => stop == Some(block.block_hash),
        (Some(d), Some(w)) => {
            &&& d.applied_height < w.applied_height ==> stop == Some(w.block_hash)
            &&& d.applied_height > w.applied_height ==> stop == Some(d.block_hash)
            &&& d.applied_height == w.applied_height ==> {
                ||| (archive.descends)(w.block_hash, d.block_hash) && stop == Some(w.block_hash)
                ||| !(archive.descends)(w.block_hash, d.block_hash) && (archive.descends)(
                    d.block_hash,
                    w.block_hash,
                ) && stop == Some(d.block_hash)
            }
        },
    }
}

/// Disconnecting a tip undoes exactly the mainchain blocks with events, the oldest
/// first, from the one that the tip was built upon back to the last one that was
/// applied below the tip. It does so first, then undoes the block, and then puts
/// the transactions of the block into the mempool, the last one first.
pub proof fn law_disconnect_undoes_the_mainchain_blocks_of_the_tip(
    archive: MainArchive,
    depth: spec_fn(MainBlockHash) -> nat,
    block: Block,
    height: u32,
    deposit_blocks: Seq<AppliedBlock>,
    withdrawal_bundle_event_blocks: Seq<AppliedBlock>,
    deposit: Option<AppliedBlock>,
    withdrawal: Option<AppliedBlock>,
    stop: Option<MainBlockHash>,
    mains: Seq<MainBlock>,
)
    requires
        forall|hash: MainBlockHash|
            (#[trigger] (archive.parent)(hash)) matches Some(parent) ==> depth(parent) < depth(
                hash,
            ),
        is_last_below(deposit_blocks, height, deposit),
        is_last_below(withdrawal_bundle_event_blocks, height, withdrawal),
        stops_at(archive, deposit, withdrawal, stop),
        main_walk(archive.info, archive.parent, block.header.prev_main_hash, stop, mains),
    ensures
        ({
            let step = archive.run(
                disconnect_first(
                    Some(block),
                    Some(height),
                    deposit_blocks,
                    withdrawal_bundle_event_blocks,
                ),
                depth(block.header.prev_main_hash) + 3,
            );
            let len = block.body.transactions@.len();
            &&& step matches DisconnectStepView::Plan { block: undone, two_way_peg_data, ops }
            &&& undone == block
            &&& two_way_peg_data == mains.filter(
                |main: MainBlock| main.info.events@.len() > 0,
            ).map_values(|main: MainBlock| (main.hash, main.info))
            &&& ops.len() == len + 2
            &&& ops[0] == DisconnectOp::DisconnectTwoWayPeg
            &&& ops[1] == DisconnectOp::DisconnectBlock
            &&& forall|i: int|
                0 <= i < len ==> #[trigger] ops[i + 2] == DisconnectOp::PutTransaction(
                    (len - 1 - i) as usize,
                )
        }),
{
    let from = block.header.prev_main_hash;
    let n = depth(from) + 1;
    lemma_is_last_below(deposit_blocks, height, deposit);
    lemma_is_last_below(withdrawal_bundle_event_blocks, height, withdrawal);
    law_disconnect_undoes_what_the_tip_applied(
        archive,
        depth,
        block,
        height,
        deposit_blocks,
        withdrawal_bundle_event_blocks,
    );
    let start = peg_start_spec(deposit, withdrawal);
    assert(archive.settled(start) == stop);
    assert(distinct_blocks(mains)) by {
        assert forall|i: int, j: int| 0 <= i < j < mains.len() implies (
        #[trigger] mains[i]).hash != (#[trigger] mains[j]).hash by {
            lemma_walk_is_distinct(
                depth,
                archive.info,
                archive.parent,
                from,
                stop,
                mains,
                i,
                j,
            );
        }
    }
    let back = archive.back_to(Some(from), stop, n);
    assert(back == mains.reverse()) by {
        if mains.len() > 0 {
            if mains.len() > 1 {
                lemma_walk_is_distinct(
                    depth,
                    archive.info,
                    archive.parent,
                    from,
                    stop,
                    mains,
                    0,
                    mains.len() - 1,
                );
            }
            lemma_back_to_walk(archive, from, stop, mains, mains.len() as int, n);
            assert(mains.take(mains.len() as int) =~= mains);
        } else {
            assert(back =~= mains.reverse());
        }
    }
    let p = |main: MainBlock| main.info.events@.len() > 0;
    let kept = mains.filter(p);
    lemma_with_events_filter(mains);
    lemma_filter_is_distinct(mains, p);
    let undone = with_events(mains.reverse());
    assert(undone.reverse() == kept);
    assert(undone =~= kept.reverse());
    assert(distinct_blocks(undone)) by {
        assert forall|i: int, j: int| 0 <= i < j < undone.len() implies (
        #[trigger] undone[i]).hash != (#[trigger] undone[j]).hash by {
            assert(undone[i] == kept[kept.len() - 1 - i]);
            assert(undone[j] == kept[kept.len() - 1 - j]);
        }
    }
    law_peg_data_is_oldest_first(undone);
    assert(peg_entries(undone) =~= kept.map_values(|main: MainBlock| (main.hash, main.info)));
}

proof fn lemma_is_last_below(
    blocks: Seq<AppliedBlock>,
    height: u32,
    last: Option<AppliedBlock>,
)
    requires
        is_last_below(blocks, height, last),
    ensures
        last == last_below(blocks, height),
    decreases blocks.len(),
{
    if blocks.len() > 0 {
        let n = blocks.len() - 1;
        let rest = blocks.drop_last();
        assert(blocks[n] == blocks.last());
        if blocks.last().applied_height >= height {
            match last {
                Some(block) => {
                    let i = choose|i: int|
                        {
                            &&& 0 <= i < blocks.len()
                            &&& #[trigger] blocks[i] == block
                            &&& block.applied_height < height
                            &&& forall|j: int|
                                i < j < blocks.len() ==> (#[trigger] blocks[j]).applied_height
                                    >= height
                        };
                    assert(rest[i] == block);
                    assert forall|j: int| i < j < rest.len() implies (
                    #[trigger] rest[j]).applied_height >= height by {
                        assert(rest[j] == blocks[j]);
                    }
                },
                None => {
                    assert forall|j: int| 0 <= j < rest.len() implies (
                    #[trigger] rest[j]).applied_height >= height by {
                        assert(rest[j] == blocks[j]);
                    }
                },
            }
            lemma_is_last_below(rest, height, last);
        }
    }
}

} // verus!
