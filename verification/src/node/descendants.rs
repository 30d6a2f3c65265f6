//! Tips that wait for the body of one of their ancestors.

use vstd::prelude::*;

use crate::hash::BlockHash;
use crate::net::addr::SocketAddr;
use crate::types::Tip;

verus! {

/// A tip that a peer sent, and the body that it waits for.
#[derive(Clone, Copy, Debug, PartialEq, Eq, Structural)]
pub struct Waiting {
    pub missing: BlockHash,
    pub tip: Tip,
    pub source: SocketAddr,
}

/// A tip, and the peers that sent it.
#[derive(Debug)]
pub struct Group {
    pub tip: Tip,
    pub sources: Vec<SocketAddr>,
}

#[verifier::ext_equal]
pub struct GroupView {
    pub tip: Tip,
    pub sources: Seq<SocketAddr>,
}

impl Group {
    pub open spec fn view(self) -> GroupView {
        GroupView { tip: self.tip, sources: self.sources@ }
    }
}

/// The tips that wait for a body, no tip of a peer twice for the same body.
#[derive(Debug)]
pub struct DescendantTips {
    waiting: Vec<Waiting>,
}

/// The list with an item at its end, unless it is there already.
pub open spec fn filed(waiting: Seq<Waiting>, item: Waiting) -> Seq<Waiting> {
    if waiting.contains(item) {
        waiting
    } else {
        waiting.push(item)
    }
}

/// The list after a tip was filed for a number of peers.
pub open spec fn filed_all(
    waiting: Seq<Waiting>,
    missing: BlockHash,
    tip: Tip,
    sources: Seq<SocketAddr>,
) -> Seq<Waiting>
    decreases sources.len(),
{
    if sources.len() == 0 {
        waiting
    } else {
        filed(
            filed_all(waiting, missing, tip, sources.drop_last()),
            Waiting { missing, tip, source: sources.last() },
        )
    }
}

/// What does not wait for a body.
pub open spec fn not_for(waiting: Seq<Waiting>, block_hash: BlockHash) -> Seq<Waiting>
    decreases waiting.len(),
{
    if waiting.len() == 0 {
        Seq::empty()
    } else if waiting.last().missing == block_hash {
        not_for(waiting.drop_last(), block_hash)
    } else {
        not_for(waiting.drop_last(), block_hash).push(waiting.last())
    }
}

/// The place of a tip among groups, or their number if it is not there.
pub open spec fn place_of(groups: Seq<GroupView>, tip: Tip) -> int
    decreases groups.len(),
{
    if groups.len() == 0 {
        0
    } else {
        let before = place_of(groups.drop_last(), tip);
        if before < groups.len() - 1 || groups.last().tip == tip {
            before
        } else {
            groups.len() as int
        }
    }
}

/// The groups once a peer was added to the group of a tip.
pub open spec fn grouped(groups: Seq<GroupView>, tip: Tip, source: SocketAddr) -> Seq<GroupView> {
    let i = place_of(groups, tip);
    if i < groups.len() {
        groups.update(i, GroupView { tip, sources: groups[i].sources.push(source) })
    } else {
        groups.push(GroupView { tip, sources: seq![source] })
    }
}

/// What waits for a body, by tip.
pub open spec fn groups_for(waiting: Seq<Waiting>, block_hash: BlockHash) -> Seq<GroupView>
    decreases waiting.len(),
{
    if waiting.len() == 0 {
        Seq::empty()
    } else {
        let before = groups_for(waiting.drop_last(), block_hash);
        if waiting.last().missing == block_hash {
            grouped(before, waiting.last().tip, waiting.last().source)
        } else {
            before
        }
    }
}

/// What a list of groups says.
pub open spec fn group_views(groups: Seq<Group>) -> Seq<GroupView> {
    groups.map_values(|group: Group| group@)
}

impl DescendantTips {
    pub closed spec fn view(self) -> Seq<Waiting> {
        self.waiting@
    }

    pub fn new() -> (tips: Self)
        ensures
            tips@ == Seq::<Waiting>::empty(),
    {
        DescendantTips { waiting: Vec::new() }
    }

    /// File a tip under the body that it waits for.
    pub fn file(&mut self, item: Waiting)
        ensures
            final(self)@ == filed(old(self)@, item),
    {
        let mut i: usize = 0;
        while i < self.waiting.len()
            invariant
                i <= self.waiting@.len(),
                self.waiting@ == old(self).waiting@,
                forall|j: int| 0 <= j < i ==> #[trigger] self.waiting@[j] != item,
            decreases self.waiting@.len() - i,
        {
            if self.waiting[i] == item {
                return;
            }
            i += 1;
        }
        self.waiting.push(item);
    }

    /// File a tip for a number of peers.
    pub fn file_all(&mut self, missing: BlockHash, tip: Tip, sources: &Vec<SocketAddr>)
        ensures
            final(self)@ == filed_all(old(self)@, missing, tip, sources@),
    {
        let mut i: usize = 0;
        while i < sources.len()
            invariant
                i <= sources@.len(),
                self@ == filed_all(old(self)@, missing, tip, sources@.take(i as int)),
            decreases sources@.len() - i,
        {
            proof {
                assert(sources@.take(i + 1).drop_last() =~= sources@.take(i as int));
            }
            self.file(Waiting { missing, tip, source: sources[i] });
            i += 1;
        }
        assert(sources@.take(sources@.len() as int) =~= sources@);
    }

    /// Take out what waits for a body.
    pub fn take(&mut self, block_hash: BlockHash) -> (groups: Vec<Group>)
        ensures
            final(self)@ == not_for(old(self)@, block_hash),
            group_views(groups@) == groups_for(old(self)@, block_hash),
    {
        let ghost all = self.waiting@;
        let mut kept: Vec<Waiting> = Vec::new();
        let mut groups: Vec<Group> = Vec::new();
        let mut i: usize = 0;
        assert(group_views(groups@) =~= Seq::<GroupView>::empty());
        while i < self.waiting.len()
            invariant
                i <= all.len(),
                all == self.waiting@,
                kept@ == not_for(all.take(i as int), block_hash),
                group_views(groups@) == groups_for(all.take(i as int), block_hash),
            decreases all.len() - i,
        {
            let item = self.waiting[i];
            proof {
                assert(all.take(i + 1).drop_last() =~= all.take(i as int));
            }
            if item.missing == block_hash {
                add_source(&mut groups, item.tip, item.source);
            } else {
                kept.push(item);
            }
            i += 1;
        }
        assert(all.take(all.len() as int) =~= all);
        self.waiting = kept;
        groups
    }
}

fn add_source(groups: &mut Vec<Group>, tip: Tip, source: SocketAddr)
    ensures
        group_views(final(groups)@) == grouped(group_views(old(groups)@), tip, source),
{
    let ghost before = group_views(groups@);
    let mut i: usize = 0;
    assert(before.take(0) =~= Seq::<GroupView>::empty());
    while i < groups.len() && groups[i].tip != tip
        invariant
            i <= groups@.len(),
            groups@ == old(groups)@,
            before == group_views(groups@),
            place_of(before.take(i as int), tip) == i,
        decreases groups@.len() - i,
    {
        proof {
            assert(before.take(i + 1).drop_last() =~= before.take(i as int));
        }
        i += 1;
    }
    proof {
        assert(before.take(before.len() as int) =~= before);
        if i < before.len() {
            assert(before.take(i + 1).drop_last() =~= before.take(i as int));
            lemma_place_stays(before, tip, i + 1);
        }
    }
    if i < groups.len() {
        groups[i].sources.push(source);
    } else {
        let mut sources: Vec<SocketAddr> = Vec::new();
        sources.push(source);
        groups.push(Group { tip, sources });
    }
    assert(group_views(groups@) =~= grouped(before, tip, source));
}

proof fn lemma_place_stays(groups: Seq<GroupView>, tip: Tip, n: int)
    requires
        0 < n <= groups.len(),
        place_of(groups.take(n), tip) < n,
    ensures
        place_of(groups, tip) == place_of(groups.take(n), tip),
    decreases groups.len(),
{
    if n < groups.len() {
        assert(groups.drop_last().take(n) =~= groups.take(n));
        lemma_place_stays(groups.drop_last(), tip, n);
    } else {
        assert(groups.take(n) =~= groups);
    }
}

/// Whether a peer is among the sources of a tip.
pub open spec fn sends(groups: Seq<GroupView>, tip: Tip, source: SocketAddr) -> bool {
    exists|i: int|
        0 <= i < groups.len() && (#[trigger] groups[i]).tip == tip && groups[i].sources.contains(
            source,
        )
}

/// Taking out what waits for a body loses nothing: each tip that waited for it
/// is handed out with each peer that sent it, and what waits for another body
/// stays.
pub proof fn law_nothing_waiting_is_lost(waiting: Seq<Waiting>, block_hash: BlockHash, item: Waiting)
    ensures
        waiting.contains(item) <==> not_for(waiting, block_hash).contains(item) || (item.missing
            == block_hash && sends(groups_for(waiting, block_hash), item.tip, item.source)),
        not_for(waiting, block_hash).contains(item) ==> item.missing != block_hash,
    decreases waiting.len(),
{
    if waiting.len() == 0 {
        if sends(groups_for(waiting, block_hash), item.tip, item.source) {
            assert(false);
        }
    } else {
        let before = waiting.drop_last();
        let last = waiting.last();
        law_nothing_waiting_is_lost(before, block_hash, item);
        assert(waiting =~= before.push(last));
        assert(waiting.contains(item) <==> before.contains(item) || item == last) by {
            if before.contains(item) {
                assert(waiting[before.index_of(item)] == item);
            }
            if waiting.contains(item) {
                let i = waiting.index_of(item);
                if i < before.len() {
                    assert(before[i] == item);
                }
            }
            assert(waiting[before.len() as int] == last);
        }
        if last.missing == block_hash {
            lemma_grouped(
                groups_for(before, block_hash),
                last.tip,
                last.source,
                item.tip,
                item.source,
            );
        } else {
            let kept = not_for(before, block_hash);
            assert(kept.push(last).contains(item) <==> kept.contains(item) || item == last) by {
                if kept.contains(item) {
                    assert(kept.push(last)[kept.index_of(item)] == item);
                }
                if kept.push(last).contains(item) {
                    let i = kept.push(last).index_of(item);
                    if i < kept.len() {
                        assert(kept[i] == item);
                    }
                }
                assert(kept.push(last)[kept.len() as int] == last);
            }
        }
    }
}

proof fn lemma_place_of(groups: Seq<GroupView>, tip: Tip)
    ensures
        0 <= place_of(groups, tip) <= groups.len(),
        place_of(groups, tip) < groups.len() ==> groups[place_of(groups, tip)].tip == tip,
    decreases groups.len(),
{
    if groups.len() > 0 {
        lemma_place_of(groups.drop_last(), tip);
    }
}

proof fn lemma_grouped(
    groups: Seq<GroupView>,
    tip: Tip,
    source: SocketAddr,
    other_tip: Tip,
    other: SocketAddr,
)
    ensures
        sends(grouped(groups, tip, source), other_tip, other) <==> sends(groups, other_tip, other)
            || (other_tip == tip && other == source),
{
    lemma_place_of(groups, tip);
    let i = place_of(groups, tip);
    let after = grouped(groups, tip, source);
    if i < groups.len() {
        let old_sources = groups[i].sources;
        assert(after[i].sources == old_sources.push(source));
        assert(old_sources.push(source)[old_sources.len() as int] == source);
        if sends(groups, other_tip, other) {
            let j = choose|j: int|
                0 <= j < groups.len() && (#[trigger] groups[j]).tip == other_tip
                    && groups[j].sources.contains(other);
            if j == i {
                assert(after[i].sources[old_sources.index_of(other)] == other);
            }
            assert(after[j].tip == other_tip);
        }
        if sends(after, other_tip, other) {
            let j = choose|j: int|
                0 <= j < after.len() && (#[trigger] after[j]).tip == other_tip
                    && after[j].sources.contains(other);
            if j == i {
                let k = after[i].sources.index_of(other);
                if k < old_sources.len() {
                    assert(old_sources[k] == other);
                }
            }
            assert(groups[j].tip == other_tip);
        }
        if other_tip == tip && other == source {
            assert(after[i].tip == tip);
        }
    } else {
        assert(after[groups.len() as int].sources[0] == source);
        if sends(groups, other_tip, other) {
            let j = choose|j: int|
                0 <= j < groups.len() && (#[trigger] groups[j]).tip == other_tip
                    && groups[j].sources.contains(other);
            assert(after[j].tip == other_tip);
        }
        if sends(after, other_tip, other) {
            let j = choose|j: int|
                0 <= j < after.len() && (#[trigger] after[j]).tip == other_tip
                    && after[j].sources.contains(other);
            if j < groups.len() {
                assert(groups[j].tip == other_tip);
            } else {
                assert(after[j].sources[after[j].sources.index_of(other)] == source);
            }
        }
        if other_tip == tip && other == source {
            assert(after[groups.len() as int].tip == tip);
        }
    }
}

/// Filing a tip adds it to what waits, at the end, unless it is there, and takes
/// nothing away.
pub proof fn law_filing_adds_one_item(waiting: Seq<Waiting>, item: Waiting, other: Waiting)
    ensures
        filed(waiting, item).contains(other) <==> waiting.contains(other) || other == item,
        waiting.is_prefix_of(filed(waiting, item)),
        filed(waiting, item).len() <= waiting.len() + 1,
        waiting.no_duplicates() ==> filed(waiting, item).no_duplicates(),
{
    let after = filed(waiting, item);
    assert(after.take(waiting.len() as int) =~= waiting);
    if !waiting.contains(item) {
        assert(after[waiting.len() as int] == item);
        if waiting.contains(other) {
            assert(after[waiting.index_of(other)] == other);
        }
        if after.contains(other) {
            let i = after.index_of(other);
            if i < waiting.len() {
                assert(waiting[i] == other);
            }
        }
        if waiting.no_duplicates() {
            assert forall|i: int, j: int|
                0 <= i < after.len() && 0 <= j < after.len() && i != j implies after[i]
                != after[j] by {
                if i < waiting.len() && j < waiting.len() {
                    assert(waiting[i] != waiting[j]);
                } else if i < waiting.len() {
                    assert(waiting.contains(waiting[i]));
                } else {
                    assert(waiting.contains(waiting[j]));
                }
            }
        }
    }
}

/// Filing a tip for a number of peers adds it for each of them, and for no other.
pub proof fn law_filing_adds_each_peer(
    waiting: Seq<Waiting>,
    missing: BlockHash,
    tip: Tip,
    sources: Seq<SocketAddr>,
    other: Waiting,
)
    ensures
        filed_all(waiting, missing, tip, sources).contains(other) <==> waiting.contains(other) || (
        other.missing == missing && other.tip == tip && sources.contains(other.source)),
        waiting.is_prefix_of(filed_all(waiting, missing, tip, sources)),
    decreases sources.len(),
{
    if sources.len() > 0 {
        let rest = sources.drop_last();
        let last = Waiting { missing, tip, source: sources.last() };
        let before = filed_all(waiting, missing, tip, rest);
        law_filing_adds_each_peer(waiting, missing, tip, rest, other);
        law_filing_adds_one_item(before, last, other);
        assert(sources[sources.len() - 1] == sources.last());
        if rest.contains(other.source) {
            assert(sources[rest.index_of(other.source)] == other.source);
        }
        if sources.contains(other.source) {
            let i = sources.index_of(other.source);
            if i < rest.len() {
                assert(rest[i] == other.source);
            }
        }
        let after = filed_all(waiting, missing, tip, sources);
        assert(before == after.take(before.len() as int));
        assert(after.take(waiting.len() as int) =~= before.take(waiting.len() as int));
    } else {
        assert(waiting.take(waiting.len() as int) =~= waiting);
    }
}

/// What stays when a body arrives is what does not wait for it, in the same order.
pub proof fn law_others_wait_on(waiting: Seq<Waiting>, block_hash: BlockHash)
    ensures
        not_for(waiting, block_hash) == waiting.filter(
            |item: Waiting| item.missing != block_hash,
        ),
    decreases waiting.len(),
{
    reveal(Seq::filter);
    if waiting.len() > 0 {
        law_others_wait_on(waiting.drop_last(), block_hash);
    }
}

/// Each tip that waited for a body is handed out once, with its peers in the order
/// in which they are listed: for one tip these are the sources of the items that
/// wait for the body with that tip.
pub proof fn law_tips_are_handed_out_once(waiting: Seq<Waiting>, block_hash: BlockHash)
    ensures
        ({
            let groups = groups_for(waiting, block_hash);
            &&& forall|i: int, j: int|
                0 <= i < j < groups.len() ==> (#[trigger] groups[i]).tip != (
                #[trigger] groups[j]).tip
            &&& forall|i: int|
                0 <= i < groups.len() ==> (#[trigger] groups[i]).sources == sources_of(
                    waiting,
                    block_hash,
                    groups[i].tip,
                )
        }),
    decreases waiting.len(),
{
    if waiting.len() > 0 {
        let rest = waiting.drop_last();
        let last = waiting.last();
        law_tips_are_handed_out_once(rest, block_hash);
        let before = groups_for(rest, block_hash);
        let groups = groups_for(waiting, block_hash);
        lemma_place_of(before, last.tip);
        lemma_place_is_first(before, last.tip);
        let p = place_of(before, last.tip);
        assert forall|tip: Tip| sources_of(waiting, block_hash, tip) == if last.missing
            == block_hash && last.tip == tip {
            #[trigger] sources_of(rest, block_hash, tip).push(last.source)
        } else {
            sources_of(rest, block_hash, tip)
        } by {
            lemma_sources_of(waiting, block_hash, tip);
        }
        if last.missing == block_hash && p == before.len() {
            lemma_no_sources(rest, block_hash, last.tip);
            assert(sources_of(rest, block_hash, last.tip).push(last.source) =~= seq![last.source]);
        }
        assert forall|i: int| 0 <= i < groups.len() implies (#[trigger] groups[i]).sources
            == sources_of(waiting, block_hash, groups[i].tip) by {
            let tip = groups[i].tip;
            lemma_sources_of(waiting, block_hash, tip);
            if i < before.len() {
                assert(before[i].tip == tip);
                assert(before[i].sources == sources_of(rest, block_hash, tip));
            }
        }
    }
}

/// The sources of the items that wait for a body with a tip.
pub open spec fn sources_of(waiting: Seq<Waiting>, block_hash: BlockHash, tip: Tip) -> Seq<
    SocketAddr,
> {
    waiting.filter(|item: Waiting| item.missing == block_hash && item.tip == tip).map_values(
        |item: Waiting| item.source,
    )
}

proof fn lemma_sources_of(waiting: Seq<Waiting>, block_hash: BlockHash, tip: Tip)
    requires
        waiting.len() > 0,
    ensures
        sources_of(waiting, block_hash, tip) == if waiting.last().missing == block_hash
            && waiting.last().tip == tip {
            sources_of(waiting.drop_last(), block_hash, tip).push(waiting.last().source)
        } else {
            sources_of(waiting.drop_last(), block_hash, tip)
        },
{
    reveal(Seq::filter);
    let p = |item: Waiting| item.missing == block_hash && item.tip == tip;
    let rest = waiting.drop_last();
    assert(waiting.filter(p) =~= if p(waiting.last()) {
        rest.filter(p).push(waiting.last())
    } else {
        rest.filter(p)
    });
    assert(sources_of(waiting, block_hash, tip) =~= if p(waiting.last()) {
        sources_of(rest, block_hash, tip).push(waiting.last().source)
    } else {
        sources_of(rest, block_hash, tip)
    });
}

proof fn lemma_place_is_first(groups: Seq<GroupView>, tip: Tip)
    ensures
        forall|i: int|
            0 <= i < place_of(groups, tip) && i < groups.len() ==> (#[trigger] groups[i]).tip
                != tip,
    decreases groups.len(),
{
    if groups.len() > 0 {
        let rest = groups.drop_last();
        lemma_place_is_first(rest, tip);
        lemma_place_of(rest, tip);
        assert forall|i: int|
            0 <= i < place_of(groups, tip) && i < groups.len() implies (#[trigger] groups[i]).tip
            != tip by {
            if i < rest.len() {
                assert(rest[i] == groups[i]);
            }
        }
    }
}

/// A tip that is in no group has no sources.
proof fn lemma_no_sources(waiting: Seq<Waiting>, block_hash: BlockHash, tip: Tip)
    requires
        place_of(groups_for(waiting, block_hash), tip) == groups_for(waiting, block_hash).len(),
    ensures
        sources_of(waiting, block_hash, tip).len() == 0,
    decreases waiting.len(),
{
    let groups = groups_for(waiting, block_hash);
    reveal(Seq::filter);
    lemma_place_is_first(groups, tip);
    if waiting.len() > 0 {
        let rest = waiting.drop_last();
        let last = waiting.last();
        let before = groups_for(rest, block_hash);
        lemma_sources_of(waiting, block_hash, tip);
        lemma_place_of(before, last.tip);
        lemma_place_of(before, tip);
        if last.missing == block_hash {
            let p = place_of(before, last.tip);
            if last.tip == tip {
                assert(groups[p].tip == tip);
            }
            if place_of(before, tip) < before.len() {
                assert(groups[place_of(before, tip)].tip == tip);
            }
        }
        lemma_no_sources(rest, block_hash, tip);
    }
}

} // verus!
