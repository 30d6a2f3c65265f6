//! What traders give and get: automated market making and Dutch auctions.

use vstd::prelude::*;

verus! {

/// Names an asset.
#[derive(Clone, Copy, Debug, PartialEq, Eq)]
pub struct BitAssetId(pub [u8; 32]);

/// Something that can be traded. Assets are ordered by kind, and within a kind
/// by their names.
#[derive(Clone, Copy, Debug, PartialEq, Eq)]
pub enum AssetId {
    Bitcoin,
    BitAsset(BitAssetId),
    BitAssetControl(BitAssetId),
}

/// Whether a byte string comes before another of the same length.
pub open spec fn bytes_before(a: Seq<u8>, b: Seq<u8>) -> bool {
    exists|i: int|
        {
            &&& 0 <= i < a.len() && i < b.len()
            &&& #[trigger] a[i] < b[i]
            &&& a.take(i) == b.take(i)
        }
}

impl AssetId {
    /// The place of the kind of an asset.
    pub open spec fn rank(self) -> int {
        match self {
            AssetId::Bitcoin => 0,
            AssetId::BitAsset(_) => 1,
            AssetId::BitAssetControl(_) => 2,
        }
    }

    /// The name of an asset, empty for bitcoin.
    pub open spec fn name(self) -> Seq<u8> {
        match self {
            AssetId::Bitcoin => Seq::empty(),
            AssetId::BitAsset(id) => id.0@,
            AssetId::BitAssetControl(id) => id.0@,
        }
    }

    /// Whether both are the same asset.
    pub open spec fn is_same(self, other: AssetId) -> bool {
        self.rank() == other.rank() && self.name() == other.name()
    }

    /// Whether the asset comes before another.
    pub open spec fn before(self, other: AssetId) -> bool {
        self.rank() < other.rank() || (self.rank() == other.rank() && bytes_before(
            self.name(),
            other.name(),
        ))
    }
}

/// How two assets are ordered.
#[derive(Clone, Copy, Debug, PartialEq, Eq, Structural)]
pub enum AssetOrder {
    Before,
    Same,
    After,
}

fn order_bytes(a: &[u8; 32], b: &[u8; 32]) -> (order: AssetOrder)
    ensures
        match order {
            AssetOrder::Before => bytes_before(a@, b@),
            AssetOrder::Same => a@ == b@,
            AssetOrder::After => bytes_before(b@, a@),
        },
{
    let mut i: usize = 0;
    while i < 32
        invariant
            i <= 32,
            a@.take(i as int) == b@.take(i as int),
        decreases 32 - i,
    {
        if a[i] < b[i] {
            assert(a@[i as int] < b@[i as int]);
            return AssetOrder::Before;
        }
        if a[i] > b[i] {
            assert(b@[i as int] < a@[i as int]);
            return AssetOrder::After;
        }
        assert(a@.take(i + 1) =~= a@.take(i as int).push(a@[i as int]));
        assert(b@.take(i + 1) =~= b@.take(i as int).push(b@[i as int]));
        i += 1;
    }
    assert(a@.take(32) =~= a@);
    assert(b@.take(32) =~= b@);
    AssetOrder::Same
}

/// How two assets are ordered.
pub fn order_assets(a: AssetId, b: AssetId) -> (order: AssetOrder)
    ensures
        match order {
            AssetOrder::Before => a.before(b),
            AssetOrder::Same => a.is_same(b),
            AssetOrder::After => b.before(a),
        },
{
    match (a, b) {
        (AssetId::Bitcoin, AssetId::Bitcoin) => AssetOrder::Same,
        (AssetId::Bitcoin, _) => AssetOrder::Before,
        (_, AssetId::Bitcoin) => AssetOrder::After,
        (AssetId::BitAsset(a), AssetId::BitAsset(b)) => order_bytes(&a.0, &b.0),
        (AssetId::BitAsset(_), AssetId::BitAssetControl(_)) => AssetOrder::Before,
        (AssetId::BitAssetControl(_), AssetId::BitAsset(_)) => AssetOrder::After,
        (AssetId::BitAssetControl(a), AssetId::BitAssetControl(b)) => order_bytes(&a.0, &b.0),
    }
}

/// No byte string comes before itself or before one that comes before it.
pub proof fn law_order_is_strict(a: Seq<u8>, b: Seq<u8>)
    requires
        bytes_before(a, b),
    ensures
        a != b,
        !bytes_before(b, a),
{
    let i = choose|i: int|
        0 <= i < a.len() && i < b.len() && #[trigger] a[i] < b[i] && a.take(i) == b.take(i);
    if bytes_before(b, a) {
        let j = choose|j: int|
            0 <= j < b.len() && j < a.len() && #[trigger] b[j] < a[j] && b.take(j) == a.take(j);
        if i < j {
            assert(b.take(j)[i] == a.take(j)[i]);
        } else if j < i {
            assert(a.take(i)[j] == b.take(i)[j]);
        }
    }
}

/// Of two different byte strings of the same length one comes before the other.
proof fn lemma_order_is_total(a: Seq<u8>, b: Seq<u8>, n: int)
    requires
        a.len() == b.len(),
        0 <= n <= a.len(),
        a.take(n) == b.take(n),
    ensures
        a == b || bytes_before(a, b) || bytes_before(b, a),
    decreases a.len() - n,
{
    if n == a.len() {
        assert(a.take(n) =~= a);
        assert(b.take(n) =~= b);
    } else if a[n] == b[n] {
        assert(a.take(n + 1) =~= a.take(n).push(a[n]));
        assert(b.take(n + 1) =~= b.take(n).push(b[n]));
        lemma_order_is_total(a, b, n + 1);
    } else if a[n] < b[n] {
        assert(bytes_before(a, b));
    } else {
        assert(b[n] < a[n]);
        assert(bytes_before(b, a));
    }
}

/// Of two assets exactly one holds: one comes before the other, it comes after
/// it, or both are the same.
pub proof fn law_assets_are_ordered(a: AssetId, b: AssetId)
    ensures
        a.is_same(b) || a.before(b) || b.before(a),
        a.is_same(b) ==> !a.before(b) && !b.before(a),
        a.before(b) ==> !b.before(a),
{
    if a.rank() == b.rank() {
        assert(a.name().take(0) =~= b.name().take(0));
        assert(a.name().len() == b.name().len());
        lemma_order_is_total(a.name(), b.name(), 0);
        if bytes_before(a.name(), b.name()) {
            law_order_is_strict(a.name(), b.name());
        }
        if bytes_before(b.name(), a.name()) {
            law_order_is_strict(b.name(), a.name());
        }
    }
}

/// What a swap was refused for.
#[derive(Clone, Copy, Debug, PartialEq, Eq, Structural)]
pub enum AmmError {
    /// An asset cannot be swapped for itself.
    InvalidSwap,
}

/// Which asset of a pool is given for the other.
#[derive(Clone, Copy, Debug, PartialEq, Eq, Structural)]
pub enum SwapDirection {
    Asset0ForAsset1,
    Asset1ForAsset0,
}

/// The pool that a swap goes through, and its direction.
#[derive(Clone, Copy, Debug, PartialEq, Eq)]
pub struct SwapRoute {
    pub asset0: AssetId,
    pub asset1: AssetId,
    pub direction: SwapDirection,
}

/// The pool of two assets has the one that comes first as its first asset.
pub open spec fn swap_route(asset_spend: AssetId, asset_receive: AssetId) -> Result<
    SwapRoute,
    AmmError,
> {
    if asset_spend.is_same(asset_receive) {
        Err(AmmError::InvalidSwap)
    } else if asset_spend.before(asset_receive) {
        Ok(
            SwapRoute {
                asset0: asset_spend,
                asset1: asset_receive,
                direction: SwapDirection::Asset0ForAsset1,
            },
        )
    } else {
        Ok(
            SwapRoute {
                asset0: asset_receive,
                asset1: asset_spend,
                direction: SwapDirection::Asset1ForAsset0,
            },
        )
    }
}

/// The pool that a swap goes through, and its direction.
pub fn amm_swap_route(asset_spend: AssetId, asset_receive: AssetId) -> (route: Result<
    SwapRoute,
    AmmError,
>)
    ensures
        route == swap_route(asset_spend, asset_receive),
{
    proof {
        law_assets_are_ordered(asset_spend, asset_receive);
        law_assets_are_ordered(asset_receive, asset_spend);
    }
    match order_assets(asset_spend, asset_receive) {
        AssetOrder::Before => Ok(
            SwapRoute {
                asset0: asset_spend,
                asset1: asset_receive,
                direction: SwapDirection::Asset0ForAsset1,
            },
        ),
        AssetOrder::Same => Err(AmmError::InvalidSwap),
        AssetOrder::After => Ok(
            SwapRoute {
                asset0: asset_receive,
                asset1: asset_spend,
                direction: SwapDirection::Asset1ForAsset0,
            },
        ),
    }
}

/// The assets of a pool, the one that comes first as its first asset.
pub open spec fn pair_of(a: AssetId, b: AssetId) -> (AssetId, AssetId) {
    if b.before(a) {
        (b, a)
    } else {
        (a, b)
    }
}

/// The assets of the pool of two assets. The amounts of the pool are in the same
/// order.
pub fn amm_pair(asset0: AssetId, asset1: AssetId) -> (pair: (AssetId, AssetId))
    ensures
        pair == pair_of(asset0, asset1),
{
    proof {
        law_assets_are_ordered(asset0, asset1);
        law_assets_are_ordered(asset1, asset0);
    }
    match order_assets(asset0, asset1) {
        AssetOrder::After => (asset1, asset0),
        _ => (asset0, asset1),
    }
}

/// The pool of two different assets does not depend on which of them is named
/// first, and it is the one that a swap between them goes through.
pub proof fn law_pair_is_that_of_a_swap(a: AssetId, b: AssetId)
    requires
        !a.is_same(b),
    ensures
        pair_of(a, b) == pair_of(b, a),
        swap_route(a, b) matches Ok(route) && pair_of(a, b) == (route.asset0, route.asset1),
{
    law_assets_are_ordered(a, b);
    law_assets_are_ordered(b, a);
}

/// What a pool holds.
#[derive(Clone, Copy, Debug, PartialEq, Eq, Structural)]
pub struct AmmPoolState {
    pub reserve0: u64,
    pub reserve1: u64,
    pub outstanding_lp_tokens: u64,
}

/// What burning pool tokens gives back of each asset: what leaves the reserves.
pub fn amm_burn(pool: AmmPoolState, next_pool: AmmPoolState) -> (amounts: (u64, u64))
    requires
        next_pool.reserve0 <= pool.reserve0,
        next_pool.reserve1 <= pool.reserve1,
    ensures
        amounts.0 == pool.reserve0 - next_pool.reserve0,
        amounts.1 == pool.reserve1 - next_pool.reserve1,
{
    (pool.reserve0 - next_pool.reserve0, pool.reserve1 - next_pool.reserve1)
}

/// How many pool tokens a deposit into the pool gives.
pub fn amm_mint(pool: AmmPoolState, next_pool: AmmPoolState) -> (lp_token_mint: u64)
    requires
        pool.outstanding_lp_tokens <= next_pool.outstanding_lp_tokens,
    ensures
        lp_token_mint == next_pool.outstanding_lp_tokens - pool.outstanding_lp_tokens,
{
    next_pool.outstanding_lp_tokens - pool.outstanding_lp_tokens
}

/// The amount of the asset to receive in a swap: what leaves its reserve.
pub fn amm_swap(direction: SwapDirection, pool: AmmPoolState, next_pool: AmmPoolState) -> (
amount_receive: u64)
    requires
        direction == SwapDirection::Asset0ForAsset1 ==> next_pool.reserve1 <= pool.reserve1,
        direction == SwapDirection::Asset1ForAsset0 ==> next_pool.reserve0 <= pool.reserve0,
    ensures
        amount_receive == match direction {
            SwapDirection::Asset0ForAsset1 => pool.reserve1 - next_pool.reserve1,
            SwapDirection::Asset1ForAsset0 => pool.reserve0 - next_pool.reserve0,
        },
{
    match direction {
        SwapDirection::Asset0ForAsset1 => pool.reserve1 - next_pool.reserve1,
        SwapDirection::Asset1ForAsset0 => pool.reserve0 - next_pool.reserve0,
    }
}

/// A swap of different assets and the swap back go through the same pool, in
/// opposite directions.
pub proof fn law_swap_back_uses_the_same_pool(spend: AssetId, receive: AssetId)
    requires
        !spend.is_same(receive),
    ensures
        swap_route(spend, receive) is Ok,
        swap_route(receive, spend) is Ok,
        ({
            let there = swap_route(spend, receive)->Ok_0;
            let back = swap_route(receive, spend)->Ok_0;
            &&& there.asset0 == back.asset0 && there.asset1 == back.asset1
            &&& there.direction != back.direction
            &&& there.asset0.before(there.asset1)
        }),
{
    law_assets_are_ordered(spend, receive);
    law_assets_are_ordered(receive, spend);
}

/// A Dutch auction.
#[derive(Clone, Copy, Debug, PartialEq, Eq)]
pub struct DutchAuctionState {
    /// The block count at which bids can start.
    pub start_block: u32,
    /// For how many blocks bids can be made.
    pub duration: u32,
    pub base_asset: AssetId,
    pub quote_asset: AssetId,
    /// What is left to be sold.
    pub base_amount_remaining: u64,
    /// What was paid so far.
    pub quote_amount: u64,
}

/// Why an auction could not be collected.
#[derive(Clone, Copy, Debug, PartialEq, Eq, Structural)]
pub enum CollectError {
    AuctionNotFinished,
}

/// The amount of the base asset that a bid gives: what leaves the auction.
pub fn dutch_auction_bid(auction: DutchAuctionState, next_auction: DutchAuctionState) -> (
receive_quantity: u64)
    requires
        next_auction.base_amount_remaining <= auction.base_amount_remaining,
    ensures
        receive_quantity == auction.base_amount_remaining - next_auction.base_amount_remaining,
{
    auction.base_amount_remaining - next_auction.base_amount_remaining
}

/// The amounts of the base asset and of the quote asset to receive, once an
/// auction is over.
pub fn dutch_auction_collect(auction: DutchAuctionState, height: u32) -> (amounts: Result<
    (u64, u64),
    CollectError,
>)
    requires
        auction.start_block + auction.duration <= u32::MAX,
    ensures
        amounts == if height <= auction.start_block + auction.duration {
            Err::<(u64, u64), CollectError>(CollectError::AuctionNotFinished)
        } else {
            Ok((auction.base_amount_remaining, auction.quote_amount))
        },
{
    if height <= auction.start_block + auction.duration {
        return Err(CollectError::AuctionNotFinished);
    }
    Ok((auction.base_amount_remaining, auction.quote_amount))
}

/// Byte strings are ordered by the first byte in which they differ, the smaller one
/// first.
pub proof fn law_bytes_are_ordered_by_the_first_difference(a: Seq<u8>, b: Seq<u8>, i: int)
    requires
        0 <= i < a.len(),
        i < b.len(),
        a[i] != b[i],
        forall|j: int| 0 <= j < i ==> #[trigger] a[j] == b[j],
    ensures
        bytes_before(a, b) <==> a[i] < b[i],
{
    assert(a.take(i) =~= b.take(i));
    if a[i] < b[i] {
        assert(bytes_before(a, b));
    } else {
        assert(b[i] < a[i]);
        assert(bytes_before(b, a));
        if bytes_before(a, b) {
            law_order_is_strict(a, b);
        }
    }
}

/// Bitcoin comes before every asset, and every asset before every control. Within a
/// kind the names decide.
pub proof fn law_kinds_are_ordered(a: AssetId, b: AssetId)
    ensures
        a.before(b) <==> match (a, b) {
            (AssetId::Bitcoin, AssetId::Bitcoin) => false,
            (AssetId::Bitcoin, _) => true,
            (_, AssetId::Bitcoin) => false,
            (AssetId::BitAsset(x), AssetId::BitAsset(y)) => bytes_before(x.0@, y.0@),
            (AssetId::BitAsset(_), AssetId::BitAssetControl(_)) => true,
            (AssetId::BitAssetControl(_), AssetId::BitAsset(_)) => false,
            (AssetId::BitAssetControl(x), AssetId::BitAssetControl(y)) => bytes_before(
                x.0@,
                y.0@,
            ),
        },
        a.is_same(b) <==> match (a, b) {
            (AssetId::Bitcoin, AssetId::Bitcoin) => true,
            (AssetId::BitAsset(x), AssetId::BitAsset(y)) => x.0@ == y.0@,
            (AssetId::BitAssetControl(x), AssetId::BitAssetControl(y)) => x.0@ == y.0@,
            _ => false,
        },
{
    if a is Bitcoin && b is Bitcoin {
        assert(!bytes_before(a.name(), b.name()));
    }
}

/// A swap is refused exactly if an asset is to be swapped for itself. Otherwise the
/// pool holds both assets, the one that comes first as its first, and the direction
/// is from the one that is spent to the one that is received.
pub proof fn law_swap_route_holds_both_assets(spend: AssetId, receive: AssetId)
    ensures
        swap_route(spend, receive) is Err <==> spend.is_same(receive),
        swap_route(spend, receive) matches Ok(route) ==> {
            &&& route.asset0.before(route.asset1)
            &&& match route.direction {
                SwapDirection::Asset0ForAsset1 => route.asset0 == spend && route.asset1 == receive,
                SwapDirection::Asset1ForAsset0 => route.asset1 == spend && route.asset0 == receive,
            }
        },
{
    law_assets_are_ordered(spend, receive);
}

/// The pair of two assets holds both of them, the one that comes first as its first.
pub proof fn law_pair_is_ordered(a: AssetId, b: AssetId)
    ensures
        pair_of(a, b) == (a, b) || pair_of(a, b) == (b, a),
        !pair_of(a, b).1.before(pair_of(a, b).0),
{
    law_assets_are_ordered(a, b);
}

} // verus!
