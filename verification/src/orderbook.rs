//! Price-time priority orderbook: price levels per market and side, FIFO
//! queues of order ids within a level, best prices, depth and matching.
use vstd::prelude::*;
use crate::error::EngineError;
use crate::state::{StateManager, StateView, active_ids_in, pairs_unique};
use crate::table::{keys_unique, has_key, table_map, lemma_key_index, lemma_table_update, lemma_table_push, lemma_table_remove, lemma_table_empty};
use crate::types::{Address, Market, Order, OrderStatus};

verus! {

/// A trade between a resting (maker) order and an incoming (taker) order.
#[derive(Debug, Clone, Copy, PartialEq, Eq, Structural)]
pub struct Fill {
    pub maker: Address,
    pub taker: Address,
    pub market_id: u32,
    pub price: u64,
    pub size: u64,
    pub taker_is_buy: bool,
    pub maker_order_id: u64,
    pub taker_order_id: u64,
}

/// Orders resting at one price: a FIFO queue of ids and their total size.
#[derive(Debug)]
pub struct PriceLevel {
    pub orders: Vec<u64>,
    pub total_size: u64,
}

/// Key of a price level: `(market_id, is_bid, price)`.
pub type LevelKey = (u32, bool, u64);

/// Mathematical content of an [`OrderbookManager`].
pub struct BookView {
    /// Orders known to the book, by id.
    pub orders: Map<u64, Order>,
    /// `(market_id, order_id)` pairs of the book's orders, in insertion order.
    pub by_market: Seq<(u32, u64)>,
    /// Price levels by `(market_id, is_bid, price)`.
    pub levels: Map<LevelKey, PriceLevel>,
}

/// First position of `id` in `s`.
pub open spec fn first_index(s: Seq<u64>, id: u64) -> int {
    choose|i: int| 0 <= i < s.len() && s[i] == id && forall|j: int| 0 <= j < i ==> s[j] != id
}

/// The level at `k` once the order `id` of size `size` has left it: the first
/// occurrence of `id` leaves the queue and the total shrinks (not below zero).
pub open spec fn level_without(lv: PriceLevel, id: u64, size: u64) -> (Seq<u64>, u64) {
    (lv.orders@.remove(first_index(lv.orders@, id)), if lv.total_size >= size { (lv.total_size - size) as u64 } else { 0 })
}

/// Whether the book has a level at `(market_id, is_bid, price)`.
pub open spec fn has_level(v: BookView, market_id: u32, is_bid: bool, price: u64) -> bool {
    v.levels.contains_key((market_id, is_bid, price))
}

/// Whether `p` lies strictly beyond `bound` in the matching direction of a side
/// (below for bids, above for asks).
pub open spec fn beyond(is_bid: bool, bound: Option<u64>, p: u64) -> bool {
    match bound {
        None => true,
        Some(b) => if is_bid { p < b } else { p > b },
    }
}

/// Whether `p` is at least as good as `q` on a side (higher for bids, lower for asks).
pub open spec fn better_or_equal(is_bid: bool, p: u64, q: u64) -> bool {
    if is_bid { p >= q } else { p <= q }
}

/// Whether a depth listing is the `n` best levels of one side, best first.
pub open spec fn is_depth(v: BookView, market_id: u32, is_bid: bool, n: nat, r: Seq<(u64, u64)>) -> bool {
    &&& r.len() <= n
    &&& forall|i: int| 0 <= i < r.len() ==> #[trigger] has_level(v, market_id, is_bid, r[i].0)
        && r[i].1 == v.levels[(market_id, is_bid, r[i].0)].total_size
    &&& forall|i: int, j: int| 0 <= i < j < r.len() ==> beyond(is_bid, Some(#[trigger] r[i].0), #[trigger] r[j].0)
    &&& forall|p: u64| #[trigger] has_level(v, market_id, is_bid, p) ==>
        (exists|i: int| 0 <= i < r.len() && r[i].0 == p) || (r.len() == n && (n == 0 || beyond(is_bid, Some(r[r.len() - 1].0), p)))
}

/// Levels `new` are `old` after order `id` of size `size` left the level `k`
/// (a level left empty disappears; every other level is untouched).
#[verifier::opaque]
pub open spec fn levels_after_removal(old: Map<LevelKey, PriceLevel>, new: Map<LevelKey, PriceLevel>, k: LevelKey, id: u64, size: u64) -> bool {
    if !old.contains_key(k) || !old[k].orders@.contains(id) {
        &&& forall|k2: LevelKey| #[trigger] new.contains_key(k2) <==> old.contains_key(k2)
        &&& forall|k2: LevelKey| #[trigger] old.contains_key(k2) ==> new[k2] == old[k2]
    } else {
        let (q, t) = level_without(old[k], id, size);
        &&& forall|k2: LevelKey| k2 != k ==> (#[trigger] new.contains_key(k2) <==> old.contains_key(k2))
        &&& forall|k2: LevelKey| k2 != k && #[trigger] old.contains_key(k2) ==> new[k2] == old[k2]
        &&& q.len() == 0 ==> !new.contains_key(k)
        &&& q.len() > 0 ==> new.contains_key(k) && new[k].orders@ == q && new[k].total_size == t
    }
}

proof fn lemma_level_emptied(before: Seq<(LevelKey, PriceLevel)>, i: int, k: LevelKey, id: u64, size: u64)
    requires
        keys_unique(before),
        0 <= i < before.len(),
        before[i].0 == k,
        before[i].1.orders@.contains(id),
        level_without(before[i].1, id, size).0.len() == 0,
    ensures
        keys_unique(before.remove(i)),
        levels_after_removal(table_map(before), table_map(before.remove(i)), k, id, size),
{
    reveal(levels_after_removal);
    lemma_key_index(before, i);
    lemma_table_remove(before, i);
}

proof fn lemma_level_shrunk(before: Seq<(LevelKey, PriceLevel)>, i: int, k: LevelKey, id: u64, size: u64, newlv: PriceLevel)
    requires
        keys_unique(before),
        0 <= i < before.len(),
        before[i].0 == k,
        before[i].1.orders@.contains(id),
        newlv.orders@ == level_without(before[i].1, id, size).0,
        newlv.total_size == level_without(before[i].1, id, size).1,
        newlv.orders@.len() > 0,
    ensures
        keys_unique(before.update(i, (k, newlv))),
        levels_after_removal(table_map(before), table_map(before.update(i, (k, newlv))), k, id, size),
{
    reveal(levels_after_removal);
    lemma_key_index(before, i);
    lemma_table_update(before, i, newlv);
}

/// Book `new` is `old` once `order` joined the back of its price level
/// under `id` (the level opens if it was not there).
pub open spec fn book_after_add(old: BookView, new: BookView, id: u64, order: Order) -> bool {
    let k = (order.market_id, order.is_buy, order.price);
    &&& new.orders == old.orders.insert(id, order)
    &&& new.by_market == if old.by_market.contains((order.market_id, id)) { old.by_market }
        else { old.by_market.push((order.market_id, id)) }
    &&& new.levels.dom() == old.levels.dom().insert(k)
    &&& forall|k2: LevelKey| k2 != k && #[trigger] old.levels.contains_key(k2) ==> new.levels[k2] == old.levels[k2]
    &&& old.levels.contains_key(k) ==> new.levels[k].orders@ == old.levels[k].orders@.push(id)
        && new.levels[k].total_size == old.levels[k].total_size + order.remaining_size
    &&& !old.levels.contains_key(k) ==> new.levels[k].orders@ == seq![id]
        && new.levels[k].total_size == order.remaining_size
}

/// Book `new` is `old` once the order `id` (described by `order`) left it:
/// its entry, its market index entry and its place in its price level.
pub open spec fn book_after_remove(old: BookView, new: BookView, id: u64, order: Order) -> bool {
    &&& new.orders == old.orders.remove(id)
    &&& !new.by_market.contains((order.market_id, id))
    &&& !old.by_market.contains((order.market_id, id)) ==> new.by_market == old.by_market
    &&& old.by_market.contains((order.market_id, id)) ==> exists|i: int|
        0 <= i < old.by_market.len() && old.by_market[i] == (order.market_id, id)
        && new.by_market == old.by_market.remove(i)
    &&& levels_after_removal(old.levels, new.levels, (order.market_id, order.is_buy, order.price), id, order.remaining_size)
}

/// Whether an incoming order would trade immediately against the book.
pub open spec fn crosses(v: BookView, order: Order) -> bool {
    exists|k: LevelKey| #[trigger] v.levels.contains_key(k) && k.0 == order.market_id && k.1 == !order.is_buy
        && (order.price == 0 || (order.is_buy && order.price >= k.2) || (!order.is_buy && order.price <= k.2))
}

/// Whether `p` is within the limit price of an order (0 = no limit).
pub open spec fn within_limit(order: Order, p: u64) -> bool {
    order.price == 0 || (order.is_buy && p <= order.price) || (!order.is_buy && p >= order.price)
}

/// A fill is the trade of the incoming `order` against another trader.
pub open spec fn fill_of(f: Fill, order: Order) -> bool {
    &&& f.taker == order.owner
    &&& f.market_id == order.market_id
    &&& f.taker_is_buy == order.is_buy
    &&& f.taker_order_id == order.id
    &&& f.maker != order.owner
    &&& within_limit(order, f.price)
}

/// Whether resting order `id` could still trade with the incoming `order`:
/// it is stored, belongs to another trader and has size left.
pub open spec fn tradable(s: StateView, order: Order, id: u64) -> bool {
    s.order(id) is Some && s.order(id).unwrap().owner != order.owner && s.order(id).unwrap().remaining_size > 0
}

/// Whether the level at `p` of the side `order` trades against holds no
/// order that could still trade with it.
pub open spec fn level_exhausted(v: BookView, s: StateView, order: Order, p: u64) -> bool {
    v.levels.contains_key(opposing_key(order, p)) ==> forall|j: int|
        0 <= j < v.levels[opposing_key(order, p)].orders@.len()
        ==> !tradable(s, order, #[trigger] v.levels[opposing_key(order, p)].orders@[j])
}

/// The level at price `p` on the side that `order` trades against.
pub open spec fn opposing_key(order: Order, p: u64) -> LevelKey {
    (order.market_id, !order.is_buy, p)
}

/// Whether `pos` places each fill's maker in the queue of its level in `v`,
/// with fills at one price coming in queue order (time priority).
pub open spec fn queue_positions(v: BookView, order: Order, fills: Seq<Fill>, pos: Seq<int>) -> bool {
    &&& pos.len() == fills.len()
    &&& forall|i: int| 0 <= i < fills.len() ==> 0 <= #[trigger] pos[i] < v.levels[opposing_key(order, fills[i].price)].orders@.len()
        && v.levels[opposing_key(order, fills[i].price)].orders@[pos[i]] == fills[i].maker_order_id
    &&& forall|i: int, j: int| 0 <= i < j < fills.len() && fills[i].price == fills[j].price ==> #[trigger] pos[i] < #[trigger] pos[j]
}

/// Every order of level `k` of `v` either cannot trade with `order` or is
/// still ahead in `q` from position `qi`.
spec fn queue_inv(v: BookView, s: StateView, order: Order, k: LevelKey, q: Seq<u64>, qi: int) -> bool {
    v.levels.contains_key(k) ==> forall|j: int| 0 <= j < v.levels[k].orders@.len()
        ==> !tradable(s, order, #[trigger] v.levels[k].orders@[j]) || q.subrange(qi, q.len() as int).contains(v.levels[k].orders@[j])
}

/// The levels visited before the one at `price` hold nothing tradable.
spec fn others_exhausted(v: BookView, s: StateView, order: Order, bound: Option<u64>, price: u64) -> bool {
    forall|p: u64| p != price && !beyond(!order.is_buy, bound, p) ==> #[trigger] level_exhausted(v, s, order, p)
}

/// An order that cannot trade stays so when makers only lose size.
spec fn untradable_kept(s0: StateView, s1: StateView, order: Order) -> bool {
    forall|x: u64| #![trigger tradable(s0, order, x)] #![trigger tradable(s1, order, x)] !tradable(s0, order, x) ==> !tradable(s1, order, x)
}

proof fn lemma_maker_update(s0: StateView, s1: StateView, order: Order, maker_id: u64, updated: Order)
    requires
        s0.order(maker_id) is Some,
        updated.owner == s0.order(maker_id).unwrap().owner,
        updated.remaining_size <= s0.order(maker_id).unwrap().remaining_size,
        s1.orders == s0.orders.insert(maker_id, updated),
    ensures
        untradable_kept(s0, s1, order),
        updated.remaining_size == 0 ==> !tradable(s1, order, maker_id),
{
    assert forall|x: u64| #![trigger tradable(s0, order, x)] #![trigger tradable(s1, order, x)] !tradable(s0, order, x) implies !tradable(s1, order, x) by {
        if x != maker_id {
            assert(s1.order(x) == s0.order(x));
        }
    }
}

proof fn lemma_first_exists(s: Seq<u64>, id: u64, i: int)
    requires
        0 <= i < s.len(),
        s[i] == id,
    ensures
        exists|k: int| 0 <= k < s.len() && s[k] == id && forall|j: int| 0 <= j < k ==> s[j] != id,
    decreases i,
{
    if exists|j: int| 0 <= j < i && s[j] == id {
        let j = choose|j: int| 0 <= j < i && s[j] == id;
        lemma_first_exists(s, id, j);
    } else {
        assert(forall|j: int| 0 <= j < i ==> s[j] != id);
    }
}

/// The first occurrence of an id that occurs is a position holding it.
proof fn lemma_first_index(s: Seq<u64>, id: u64)
    requires
        s.contains(id),
    ensures
        0 <= first_index(s, id) < s.len(),
        s[first_index(s, id)] == id,
{
    let i = choose|i: int| 0 <= i < s.len() && s[i] == id;
    lemma_first_exists(s, id, i);
}

proof fn lemma_queue_step(v0: BookView, v1: BookView, s0: StateView, s1: StateView, order: Order, k: LevelKey, q: Seq<u64>, qi: int)
    requires
        0 <= qi < q.len(),
        queue_inv(v0, s0, order, k, q, qi),
        !tradable(s1, order, q[qi]),
        untradable_kept(s0, s1, order),
        v1.levels.contains_key(k) ==> v0.levels.contains_key(k)
            && forall|j: int| 0 <= j < v1.levels[k].orders@.len() ==> v0.levels[k].orders@.contains(#[trigger] v1.levels[k].orders@[j]),
    ensures
        queue_inv(v1, s1, order, k, q, qi + 1),
{
    if v1.levels.contains_key(k) {
        assert forall|j: int| 0 <= j < v1.levels[k].orders@.len() implies !tradable(s1, order, #[trigger] v1.levels[k].orders@[j])
            || q.subrange(qi + 1, q.len() as int).contains(v1.levels[k].orders@[j]) by {
            let x = v1.levels[k].orders@[j];
            assert(v0.levels[k].orders@.contains(x));
            let j0 = choose|j0: int| 0 <= j0 < v0.levels[k].orders@.len() && v0.levels[k].orders@[j0] == x;
            assert(!tradable(s0, order, v0.levels[k].orders@[j0]) || q.subrange(qi, q.len() as int).contains(v0.levels[k].orders@[j0]));
            if !tradable(s0, order, x) {
                assert(!tradable(s1, order, x));
            } else if x != q[qi] {
                let t = choose|t: int| 0 <= t < q.subrange(qi, q.len() as int).len() && q.subrange(qi, q.len() as int)[t] == x;
                assert(t != 0);
                assert(q.subrange(qi + 1, q.len() as int)[t - 1] == x);
            }
        }
    }
}

proof fn lemma_others_kept(v0: BookView, v1: BookView, s0: StateView, s1: StateView, order: Order, bound: Option<u64>, price: u64, k: LevelKey)
    requires
        k == (order.market_id, !order.is_buy, price),
        others_exhausted(v0, s0, order, bound, price),
        untradable_kept(s0, s1, order),
        forall|k2: LevelKey| #[trigger] v1.levels.contains_key(k2) ==> v0.levels.contains_key(k2),
        forall|k2: LevelKey| k2 != k && #[trigger] v1.levels.contains_key(k2) ==> v1.levels[k2] == v0.levels[k2],
    ensures
        others_exhausted(v1, s1, order, bound, price),
{
    assert forall|p: u64| p != price && !beyond(!order.is_buy, bound, p) implies #[trigger] level_exhausted(v1, s1, order, p) by {
        assert(level_exhausted(v0, s0, order, p));
        let kp = opposing_key(order, p);
        if v1.levels.contains_key(kp) {
            assert(v0.levels.contains_key(kp));
            assert(v1.levels[kp] == v0.levels[kp]);

            assert forall|j: int| 0 <= j < v1.levels[kp].orders@.len() implies !tradable(s1, order, #[trigger] v1.levels[kp].orders@[j]) by {
                assert(v1.levels[kp] == v0.levels[kp]);
                assert(!tradable(s0, order, v0.levels[kp].orders@[j]));
            }
        }
    }
}

/// A maker order after a fill of `size` against it: its size left shrinks by
/// the fill, and an order with nothing left is filled.
pub open spec fn filled_maker(o: Order, size: u64) -> Order {
    Order {
        remaining_size: (o.remaining_size - size) as u64,
        status: if o.remaining_size - size == 0 { OrderStatus::Filled } else { o.status },
        ..o
    }
}

/// Stored orders `m` once the fills have been applied to their makers, in order.
pub open spec fn orders_after_fills(m: Map<u64, Order>, fills: Seq<Fill>) -> Map<u64, Order>
    decreases fills.len(),
{
    if fills.len() == 0 {
        m
    } else {
        let prev = orders_after_fills(m, fills.drop_last());
        let f = fills.last();
        prev.insert(f.maker_order_id, filled_maker(prev[f.maker_order_id], f.size))
    }
}

/// Fill `i` takes at most what its maker had left just before it, and all of
/// it unless the incoming order of size `size` is complete with this fill.
pub open spec fn fill_fits(m: Map<u64, Order>, fills: Seq<Fill>, i: int, size: u64) -> bool {
    let before = orders_after_fills(m, fills.take(i));
    &&& before.contains_key(fills[i].maker_order_id)
    &&& fills[i].size <= before[fills[i].maker_order_id].remaining_size
    &&& fills[i].size < before[fills[i].maker_order_id].remaining_size ==> total_filled(fills.take(i + 1)) == size
}

/// Fill `i` leaves its maker with nothing.
pub open spec fn exhausts(m: Map<u64, Order>, fills: Seq<Fill>, i: int) -> bool {
    orders_after_fills(m, fills.take(i + 1))[fills[i].maker_order_id].remaining_size == 0
}

/// The active-order entry `p` belongs to a maker that one of the fills left
/// with nothing.
pub open spec fn left_active(m: Map<u64, Order>, fills: Seq<Fill>, p: (u32, u64)) -> bool {
    exists|i: int| 0 <= i < fills.len() && #[trigger] exhausts(m, fills, i) && fills[i].maker_order_id == p.1
        && orders_after_fills(m, fills.take(i))[p.1].market_id == p.0
}

/// Order `id` is the maker of a fill that left it with nothing.
pub open spec fn left_book(m: Map<u64, Order>, fills: Seq<Fill>, id: u64) -> bool {
    exists|i: int| 0 <= i < fills.len() && #[trigger] exhausts(m, fills, i) && fills[i].maker_order_id == id
}

/// Queue and total size of each price level.
pub open spec fn level_contents(levels: Map<LevelKey, PriceLevel>) -> Map<LevelKey, (Seq<u64>, u64)> {
    levels.map_values(|lv: PriceLevel| (lv.orders@, lv.total_size))
}

/// `t - s`, or 0 when `s` exceeds `t`.
pub open spec fn sat_sub(t: u64, s: u64) -> u64 {
    if t >= s { (t - s) as u64 } else { 0 }
}

/// Level contents after a fill of `size` against order `id` at level `k`: a
/// maker left with nothing leaves its queue (and an emptied level goes);
/// otherwise only the level's total shrinks.
pub open spec fn contents_after_fill(c: Map<LevelKey, (Seq<u64>, u64)>, k: LevelKey, id: u64, size: u64, exhausted: bool) -> Map<LevelKey, (Seq<u64>, u64)> {
    if !c.contains_key(k) {
        c
    } else if !exhausted {
        c.insert(k, (c[k].0, sat_sub(c[k].1, size)))
    } else if !c[k].0.contains(id) {
        c
    } else if c[k].0.remove(first_index(c[k].0, id)).len() == 0 {
        c.remove(k)
    } else {
        c.insert(k, (c[k].0.remove(first_index(c[k].0, id)), sat_sub(c[k].1, size)))
    }
}

/// Level contents after the fills of `order` against stored orders `m`.
pub open spec fn contents_after_fills(c: Map<LevelKey, (Seq<u64>, u64)>, m: Map<u64, Order>, order: Order, fills: Seq<Fill>) -> Map<LevelKey, (Seq<u64>, u64)>
    decreases fills.len(),
{
    if fills.len() == 0 {
        c
    } else {
        let f = fills.last();
        contents_after_fill(contents_after_fills(c, m, order, fills.drop_last()), opposing_key(order, f.price),
            f.maker_order_id, f.size, exhausts(m, fills, fills.len() - 1))
    }
}

proof fn lemma_removal_contents(a: Map<LevelKey, PriceLevel>, b: Map<LevelKey, PriceLevel>, k: LevelKey, id: u64, size: u64)
    requires
        levels_after_removal(a, b, k, id, size),
    ensures
        level_contents(b) == contents_after_fill(level_contents(a), k, id, size, true),
{
    reveal(levels_after_removal);
    let ca = level_contents(a);
    let cb = level_contents(b);
    let r = contents_after_fill(ca, k, id, size, true);
    assert forall|k2: LevelKey| #[trigger] cb.contains_key(k2) <==> r.contains_key(k2) by {}
    assert forall|k2: LevelKey| #[trigger] cb.contains_key(k2) implies cb[k2] == r[k2] by {}
    assert(cb =~= r);
}

proof fn lemma_reduce_contents(a: Map<LevelKey, PriceLevel>, b: Map<LevelKey, PriceLevel>, k: LevelKey, id: u64, size: u64)
    requires
        forall|k2: LevelKey| #[trigger] b.contains_key(k2) <==> a.contains_key(k2),
        forall|k2: LevelKey| k2 != k && #[trigger] a.contains_key(k2) ==> b[k2] == a[k2],
        a.contains_key(k) ==> b[k].orders@ == a[k].orders@ && b[k].total_size == sat_sub(a[k].total_size, size),
    ensures
        level_contents(b) == contents_after_fill(level_contents(a), k, id, size, false),
{
    let ca = level_contents(a);
    let cb = level_contents(b);
    let r = contents_after_fill(ca, k, id, size, false);
    assert forall|k2: LevelKey| #[trigger] cb.contains_key(k2) <==> r.contains_key(k2) by {}
    assert forall|k2: LevelKey| #[trigger] cb.contains_key(k2) implies cb[k2] == r[k2] by {}
    assert(cb =~= r);
}

/// Appending a fill keeps what the earlier fills said and extends the folds.
proof fn lemma_fills_push(m: Map<u64, Order>, f0: Seq<Fill>, f: Fill, size: u64)
    ensures
        f0.push(f).drop_last() == f0,
        f0.push(f).take(f0.len() as int) == f0,
        f0.push(f).take(f0.len() as int + 1) == f0.push(f),
        forall|i: int| 0 <= i <= f0.len() ==> #[trigger] f0.push(f).take(i) == f0.take(i),
        forall|i: int| 0 <= i < f0.len() ==> fill_fits(m, f0, i, size) ==> #[trigger] fill_fits(m, f0.push(f), i, size),
        forall|i: int| 0 <= i < f0.len() ==> (#[trigger] exhausts(m, f0.push(f), i) <==> exhausts(m, f0, i)),
{
    assert(f0.push(f).drop_last() =~= f0);
    assert(f0.push(f).take(f0.len() as int) =~= f0);
    assert(f0.push(f).take(f0.len() as int + 1) =~= f0.push(f));
    assert forall|i: int| 0 <= i <= f0.len() implies #[trigger] f0.push(f).take(i) == f0.take(i) by {
        assert(f0.push(f).take(i) =~= f0.take(i));
    }
    assert forall|i: int| 0 <= i < f0.len() && fill_fits(m, f0, i, size) implies #[trigger] fill_fits(m, f0.push(f), i, size) by {
        assert(f0.push(f).take(i) =~= f0.take(i));
        assert(f0.push(f).take(i + 1) =~= f0.take(i + 1));
    }
    assert forall|i: int| 0 <= i < f0.len() implies (#[trigger] exhausts(m, f0.push(f), i) <==> exhausts(m, f0, i)) by {
        assert(f0.push(f).take(i + 1) =~= f0.take(i + 1));
    }
}

/// One more fill, of what the taker still wants or what the maker has left,
/// whichever is less: how each fold over the fills moves on.
proof fn lemma_fill_step(m: Map<u64, Order>, c0: Map<LevelKey, (Seq<u64>, u64)>, order: Order, f0: Seq<Fill>, f: Fill, size: u64, maker: Order, remaining: u64)
    requires
        orders_after_fills(m, f0).contains_key(f.maker_order_id),
        orders_after_fills(m, f0)[f.maker_order_id] == maker,
        f.size == if remaining <= maker.remaining_size { remaining } else { maker.remaining_size },
        remaining + total_filled(f0) == size,
        forall|i: int| 0 <= i < f0.len() ==> #[trigger] fill_fits(m, f0, i, size),
    ensures
        orders_after_fills(m, f0.push(f)) == orders_after_fills(m, f0).insert(f.maker_order_id, filled_maker(maker, f.size)),
        forall|i: int| 0 <= i < f0.len() + 1 ==> #[trigger] fill_fits(m, f0.push(f), i, size),
        total_filled(f0.push(f)) == total_filled(f0) + f.size,
        exhausts(m, f0.push(f), f0.len() as int) == (maker.remaining_size - f.size == 0),
        forall|p: (u32, u64)| #[trigger] left_active(m, f0.push(f), p) <==> left_active(m, f0, p)
            || (maker.remaining_size - f.size == 0 && p == (maker.market_id, f.maker_order_id)),
        contents_after_fills(c0, m, order, f0.push(f)) == contents_after_fill(contents_after_fills(c0, m, order, f0),
            opposing_key(order, f.price), f.maker_order_id, f.size, maker.remaining_size - f.size == 0),
        forall|id: u64| #[trigger] left_book(m, f0.push(f), id) <==> left_book(m, f0, id)
            || (maker.remaining_size - f.size == 0 && id == f.maker_order_id),
{
    let f1 = f0.push(f);
    let n = f0.len() as int;
    lemma_fills_push(m, f0, f, size);
    assert(f1.last() == f);
    assert(f1[n] == f);
    assert(total_filled(f1) == total_filled(f0) + f.size);
    assert(fill_fits(m, f1, n, size));
    assert(exhausts(m, f1, n) == (maker.remaining_size - f.size == 0));
    assert forall|p: (u32, u64)| #[trigger] left_active(m, f1, p) <==> left_active(m, f0, p)
        || (maker.remaining_size - f.size == 0 && p == (maker.market_id, f.maker_order_id)) by {
        if left_active(m, f1, p) {
            let i = choose|i: int| 0 <= i < f1.len() && #[trigger] exhausts(m, f1, i) && f1[i].maker_order_id == p.1
                && orders_after_fills(m, f1.take(i))[p.1].market_id == p.0;
            if i < n {
                assert(exhausts(m, f0, i));
                assert(f1[i] == f0[i]);
            }
        }
        if left_active(m, f0, p) {
            let i = choose|i: int| 0 <= i < f0.len() && #[trigger] exhausts(m, f0, i) && f0[i].maker_order_id == p.1
                && orders_after_fills(m, f0.take(i))[p.1].market_id == p.0;
            assert(exhausts(m, f1, i));
            assert(f1[i] == f0[i]);
        }
        if maker.remaining_size - f.size == 0 && p == (maker.market_id, f.maker_order_id) {
            assert(exhausts(m, f1, n));
        }
    }
    assert forall|id: u64| #[trigger] left_book(m, f1, id) <==> left_book(m, f0, id)
        || (maker.remaining_size - f.size == 0 && id == f.maker_order_id) by {
        if left_book(m, f1, id) {
            let i = choose|i: int| 0 <= i < f1.len() && #[trigger] exhausts(m, f1, i) && f1[i].maker_order_id == id;
            if i < n {
                assert(exhausts(m, f0, i));
                assert(f1[i] == f0[i]);
            }
        }
        if left_book(m, f0, id) {
            let i = choose|i: int| 0 <= i < f0.len() && #[trigger] exhausts(m, f0, i) && f0[i].maker_order_id == id;
            assert(exhausts(m, f1, i));
            assert(f1[i] == f0[i]);
        }
        if maker.remaining_size - f.size == 0 && id == f.maker_order_id {
            assert(exhausts(m, f1, n));
        }
    }
}

/// Resting order `id` is passed over by `order`: it is not stored, or it is
/// the same trader's.
pub open spec fn passed_over(s: StateView, order: Order, id: u64) -> bool {
    s.order(id) is None || s.order(id).unwrap().owner == order.owner
}

/// Order `id` is the maker of one of the first `n` fills.
pub open spec fn filled_before(fills: Seq<Fill>, n: int, id: u64) -> bool {
    exists|i: int| 0 <= i < n && #[trigger] fills[i].maker_order_id == id
}

/// No resting order is jumped: before each fill, every order queued ahead of
/// its maker at its price, and every order at a better price, was passed
/// over or had been filled already.
pub open spec fn none_skipped(b0: BookView, s0: StateView, order: Order, fills: Seq<Fill>, pos: Seq<int>) -> bool {
    &&& forall|i: int, j: int| #![trigger fills[i], b0.levels[opposing_key(order, fills[i].price)].orders@[j]]
        0 <= i < fills.len() && 0 <= j < pos[i]
        ==> passed_over(s0, order, b0.levels[opposing_key(order, fills[i].price)].orders@[j])
            || filled_before(fills, i, b0.levels[opposing_key(order, fills[i].price)].orders@[j])
    &&& forall|i: int, p: u64, j: int| #![trigger fills[i], b0.levels[opposing_key(order, p)].orders@[j]]
        0 <= i < fills.len() && has_level(b0, order.market_id, !order.is_buy, p)
        && better_or_equal(!order.is_buy, p, fills[i].price) && p != fills[i].price
        && 0 <= j < b0.levels[opposing_key(order, p)].orders@.len()
        ==> passed_over(s0, order, b0.levels[opposing_key(order, p)].orders@[j])
            || filled_before(fills, i, b0.levels[opposing_key(order, p)].orders@[j])
}

/// What matching `order` against book `b0` and state `s0` does when it
/// goes through: the fills it makes (best price first, in queue order, each
/// taking what the maker has left or what the order still wants), the makers
/// updated in the state, and the levels they leave or shrink.
pub open spec fn matched(b0: BookView, s0: StateView, order: Order, fills: Seq<Fill>, s1: StateView, b1: BookView) -> bool {
    &&& forall|i: int| 0 <= i < fills.len() ==> fill_of(#[trigger] fills[i], order)
    &&& forall|i: int| 0 <= i < fills.len() ==> has_level(b0, order.market_id, !order.is_buy, #[trigger] fills[i].price)
    &&& forall|i: int, j: int| 0 <= i < j < fills.len() ==> better_or_equal(!order.is_buy, #[trigger] fills[i].price, #[trigger] fills[j].price)
    &&& total_filled(fills) <= order.remaining_size
    &&& forall|i: int| 0 <= i < fills.len() ==> (#[trigger] s1.order(fills[i].maker_order_id)) is Some
        && s1.order(fills[i].maker_order_id).unwrap().owner == fills[i].maker
    &&& only_orders_changed(s0, s1)
    &&& levels_side_changed(b0, b1, order.market_id, !order.is_buy)
    &&& forall|id: u64| #[trigger] b1.orders.contains_key(id) <==> b0.orders.contains_key(id) && !left_book(s0.orders, fills, id)
    &&& forall|id: u64| #[trigger] b1.orders.contains_key(id) ==> b1.orders[id] == b0.orders[id]
    &&& forall|p: (u32, u64)| #[trigger] b1.by_market.contains(p)
        <==> b0.by_market.contains(p) && !(p.0 == order.market_id && left_book(s0.orders, fills, p.1))
    &&& total_filled(fills) < order.remaining_size ==> forall|p: u64| within_limit(order, p)
        ==> #[trigger] level_exhausted(b1, s1, order, p)
    &&& exists|pos: Seq<int>| #[trigger] queue_positions(b0, order, fills, pos) && none_skipped(b0, s0, order, fills, pos)
    &&& forall|i: int| 0 <= i < fills.len() ==> #[trigger] fill_fits(s0.orders, fills, i, order.remaining_size)
    &&& s1.orders == orders_after_fills(s0.orders, fills)
    &&& forall|p: (u32, u64)| #[trigger] s1.active_orders.contains(p)
        <==> s0.active_orders.contains(p) && !left_active(s0.orders, fills, p)
    &&& level_contents(b1.levels) == contents_after_fills(level_contents(b0.levels), s0.orders, order, fills)
}


/// A copy of a level's queue.
fn copy_ids(v: &Vec<u64>) -> (r: Vec<u64>)
    ensures
        r@ == v@,
{
    let mut r: Vec<u64> = Vec::new();
    let mut i: usize = 0;
    while i < v.len()
        invariant
            i <= v@.len(),
            r@ == v@.take(i as int),
        decreases v@.len() - i,
    {
        r.push(v[i]);
        i += 1;
        proof { assert(r@ =~= v@.take(i as int)); }
    }
    proof { assert(r@ =~= v@); }
    r
}

/// Two books hold the same orders, market index and level contents.
pub open spec fn same_book(a: BookView, b: BookView) -> bool {
    &&& a.orders == b.orders
    &&& a.by_market == b.by_market
    &&& level_contents(a.levels) == level_contents(b.levels)
}

impl OrderbookManager {
    /// A copy of the book, with the same contents.
    pub fn copy_book(&self) -> (r: Self)
        ensures
            same_book(r@, self@),
    {
        proof { use_type_invariant(self); }
        let mut orders: Vec<(u64, Order)> = Vec::new();
        let mut i: usize = 0;
        while i < self.orders.len()
            invariant
                i <= self.orders@.len(),
                orders@ == self.orders@.take(i as int),
            decreases self.orders@.len() - i,
        {
            orders.push(self.orders[i]);
            i += 1;
            proof { assert(orders@ =~= self.orders@.take(i as int)); }
        }
        let mut by_market: Vec<(u32, u64)> = Vec::new();
        let mut j: usize = 0;
        while j < self.by_market.len()
            invariant
                j <= self.by_market@.len(),
                by_market@ == self.by_market@.take(j as int),
            decreases self.by_market@.len() - j,
        {
            by_market.push(self.by_market[j]);
            j += 1;
            proof { assert(by_market@ =~= self.by_market@.take(j as int)); }
        }
        let mut levels: Vec<(LevelKey, PriceLevel)> = Vec::new();
        let mut k: usize = 0;
        while k < self.levels.len()
            invariant
                k <= self.levels@.len(),
                levels@.len() == k,
                forall|x: int| 0 <= x < k ==> (#[trigger] levels@[x]).0 == self.levels@[x].0
                    && levels@[x].1.orders@ == self.levels@[x].1.orders@
                    && levels@[x].1.total_size == self.levels@[x].1.total_size,
            decreases self.levels@.len() - k,
        {
            let q = copy_ids(&self.levels[k].1.orders);
            levels.push((self.levels[k].0, PriceLevel { orders: q, total_size: self.levels[k].1.total_size }));
            k += 1;
        }
        proof {
            assert(orders@ =~= self.orders@);
            assert(by_market@ =~= self.by_market@);
            let a = self.levels@;
            let b = levels@;
            assert(keys_unique(b)) by {
                assert forall|x: int, y: int| 0 <= x < b.len() && 0 <= y < b.len() && x != y implies b[x].0 != b[y].0 by {
                    assert(b[x].0 == a[x].0 && b[y].0 == a[y].0);
                }
            }
            let ca = level_contents(table_map(a));
            let cb = level_contents(table_map(b));
            assert forall|key: LevelKey| #[trigger] cb.contains_key(key) <==> ca.contains_key(key) by {
                if has_key(b, key) {
                    let x = choose|x: int| 0 <= x < b.len() && b[x].0 == key;
                    assert(a[x].0 == key);
                }
                if has_key(a, key) {
                    let x = choose|x: int| 0 <= x < a.len() && a[x].0 == key;
                    assert(b[x].0 == key);
                }
            }
            assert forall|key: LevelKey| #[trigger] cb.contains_key(key) implies cb[key] == ca[key] by {
                let x = choose|x: int| 0 <= x < b.len() && b[x].0 == key;
                lemma_key_index(b, x);
                assert(a[x].0 == key);
                lemma_key_index(a, x);
            }
            assert(cb =~= ca);
        }
        OrderbookManager { orders, by_market, levels }
    }
}

/// Sum of fill sizes.
pub open spec fn total_filled(fills: Seq<Fill>) -> nat
    decreases fills.len(),
{
    if fills.len() == 0 { 0 } else { total_filled(fills.drop_last()) + fills.last().size as nat }
}

/// Only the orders and the active-order list differ between two states.
pub open spec fn only_orders_changed(a: StateView, b: StateView) -> bool {
    &&& b.balances == a.balances
    &&& b.positions == a.positions
    &&& b.markets == a.markets
    &&& b.market_ids == a.market_ids
    &&& b.assets == a.assets
    &&& b.bridge_operators == a.bridge_operators
    &&& b.nonces == a.nonces
    &&& b.funding_rates == a.funding_rates
    &&& b.next_order_id == a.next_order_id
    &&& b.version == a.version
}

/// Only levels of one side of one market differ between two books, and no
/// level appeared.
pub open spec fn only_side_changed(a: BookView, b: BookView, m: u32, is_bid: bool) -> bool {
    &&& b.orders == a.orders
    &&& b.by_market == a.by_market
    &&& levels_side_changed(a, b, m, is_bid)
}

/// Only levels of one side of one market differ between two books, and no
/// level appeared (the order index aside).
pub open spec fn levels_side_changed(a: BookView, b: BookView, m: u32, is_bid: bool) -> bool {
    &&& forall|k: LevelKey| #[trigger] b.levels.contains_key(k) ==> a.levels.contains_key(k)
    &&& forall|k: LevelKey| (k.0 != m || k.1 != is_bid) && #[trigger] a.levels.contains_key(k)
        ==> b.levels.contains_key(k) && b.levels[k] == a.levels[k]
}

/// Orderbook manager with price-time priority.
pub struct OrderbookManager {
    orders: Vec<(u64, Order)>,
    by_market: Vec<(u32, u64)>,
    levels: Vec<(LevelKey, PriceLevel)>,
}

impl View for OrderbookManager {
    type V = BookView;

    closed spec fn view(&self) -> BookView {
        BookView { orders: table_map(self.orders@), by_market: self.by_market@, levels: table_map(self.levels@) }
    }
}

impl OrderbookManager {
    #[verifier::type_invariant]
    spec fn inv(self) -> bool {
        &&& keys_unique(self.orders@)
        &&& pairs_unique(self.by_market@)
        &&& keys_unique(self.levels@)
    }

    /// An empty orderbook.
    pub fn new() -> (r: Self)
        ensures
            r@.orders == Map::<u64, Order>::empty(),
            r@.by_market == Seq::<(u32, u64)>::empty(),
            r@.levels == Map::<LevelKey, PriceLevel>::empty(),
    {
        let r = OrderbookManager { orders: Vec::new(), by_market: Vec::new(), levels: Vec::new() };
        proof {
            lemma_table_empty(r.orders@);
            lemma_table_empty(r.levels@);
        }
        r
    }

    fn find_order(&self, id: u64) -> (r: Option<usize>)
        ensures
            r matches Some(i) ==> i < self.orders@.len() && self.orders@[i as int].0 == id,
            r is None ==> !has_key(self.orders@, id),
    {
        let mut i: usize = 0;
        while i < self.orders.len()
            invariant
                i <= self.orders@.len(),
                forall|j: int| 0 <= j < i ==> self.orders@[j].0 != id,
            decreases self.orders@.len() - i,
        {
            if self.orders[i].0 == id {
                return Some(i);
            }
            i += 1;
        }
        None
    }

    fn find_pair(&self, market_id: u32, id: u64) -> (r: Option<usize>)
        ensures
            r matches Some(i) ==> i < self.by_market@.len() && self.by_market@[i as int] == (market_id, id),
            r is None ==> !self.by_market@.contains((market_id, id)),
    {
        let mut i: usize = 0;
        while i < self.by_market.len()
            invariant
                i <= self.by_market@.len(),
                forall|j: int| 0 <= j < i ==> self.by_market@[j] != (market_id, id),
            decreases self.by_market@.len() - i,
        {
            if self.by_market[i].0 == market_id && self.by_market[i].1 == id {
                return Some(i);
            }
            i += 1;
        }
        None
    }

    fn find_level(&self, market_id: u32, is_bid: bool, price: u64) -> (r: Option<usize>)
        ensures
            r matches Some(i) ==> i < self.levels@.len() && self.levels@[i as int].0 == (market_id, is_bid, price),
            r is None ==> !has_key(self.levels@, (market_id, is_bid, price)),
    {
        let mut i: usize = 0;
        while i < self.levels.len()
            invariant
                i <= self.levels@.len(),
                forall|j: int| 0 <= j < i ==> self.levels@[j].0 != (market_id, is_bid, price),
            decreases self.levels@.len() - i,
        {
            if self.levels[i].0.0 == market_id && self.levels[i].0.1 == is_bid && self.levels[i].0.2 == price {
                return Some(i);
            }
            i += 1;
        }
        None
    }

    /// Add an order to the book: it joins the back of its price level.
    pub fn add_order(&mut self, order_id: u64, order: &Order)
        requires
            old(self)@.levels.contains_key((order.market_id, order.is_buy, order.price))
                ==> old(self)@.levels[(order.market_id, order.is_buy, order.price)].total_size + order.remaining_size <= u64::MAX,
        ensures
            book_after_add(old(self)@, final(self)@, order_id, *order),
    {
        proof { use_type_invariant(&*self); }
        // The order itself.
        let found = self.find_order(order_id);
        let mut t: Vec<(u64, Order)> = Vec::new();
        std::mem::swap(&mut t, &mut self.orders);
        match found {
            Some(i) => {
                proof { lemma_table_update(t@, i as int, *order); }
                t.set(i, (order_id, *order));
            },
            None => {
                proof { lemma_table_push(t@, order_id, *order); }
                t.push((order_id, *order));
            },
        }
        self.orders = t;
        // Market index.
        if self.find_pair(order.market_id, order_id).is_none() {
            let mut p: Vec<(u32, u64)> = Vec::new();
            std::mem::swap(&mut p, &mut self.by_market);
            let ghost before = p@;
            p.push((order.market_id, order_id));
            proof {
                assert forall|i: int, j: int| 0 <= i < p@.len() && 0 <= j < p@.len() && i != j implies p@[i] != p@[j] by {
                    if i == p@.len() - 1 { assert(before[j] == p@[j]); }
                    if j == p@.len() - 1 { assert(before[i] == p@[i]); }
                }
            }
            self.by_market = p;
        }
        // Price level.
        let k = (order.market_id, order.is_buy, order.price);
        let lf = self.find_level(order.market_id, order.is_buy, order.price);
        let mut lv: Vec<(LevelKey, PriceLevel)> = Vec::new();
        std::mem::swap(&mut lv, &mut self.levels);
        let ghost before = lv@;
        match lf {
            Some(i) => {
                proof { lemma_key_index(before, i as int); }
                let (key, mut level) = lv.remove(i);
                level.orders.push(order_id);
                level.total_size = level.total_size + order.remaining_size;
                let ghost newlv = level;
                lv.insert(i, (key, level));
                proof {
                    assert(lv@ =~= before.update(i as int, (k, newlv)));
                    lemma_table_update(before, i as int, newlv);
                }
            },
            None => {
                let mut q: Vec<u64> = Vec::new();
                q.push(order_id);
                let level = PriceLevel { orders: q, total_size: order.remaining_size };
                let ghost newlv = level;
                proof { lemma_table_push(before, k, newlv); }
                lv.push((k, level));
                proof { assert(newlv.orders@ =~= seq![order_id]); }
            },
        }
        self.levels = lv;
    }

    /// Position of the first occurrence of `id` in a queue.
    fn queue_position(q: &Vec<u64>, id: u64) -> (r: Option<usize>)
        ensures
            r matches Some(i) ==> i < q@.len() && i == first_index(q@, id) && q@[i as int] == id,
            r is None ==> !q@.contains(id),
    {
        let mut i: usize = 0;
        while i < q.len()
            invariant
                i <= q@.len(),
                forall|j: int| 0 <= j < i ==> q@[j] != id,
            decreases q@.len() - i,
        {
            if q[i] == id {
                proof {
                    let f = first_index(q@, id);
                    assert(0 <= i < q@.len() && q@[i as int] == id && forall|j: int| 0 <= j < i ==> q@[j] != id);
                    assert(0 <= f < q@.len() && q@[f] == id && forall|j: int| 0 <= j < f ==> q@[j] != id);
                    assert(f == i) by {
                        if f < i { assert(q@[f] != id); }
                        if f > i { assert(q@[i as int] != id); }
                    }
                }
                return Some(i);
            }
            i += 1;
        }
        None
    }

    /// Take order `id` of size `size` out of level `k` (the level disappears once empty).
    #[verifier::rlimit(60)]
    fn remove_from_level(&mut self, market_id: u32, is_bid: bool, price: u64, id: u64, size: u64)
        ensures
            final(self)@.orders == old(self)@.orders,
            final(self)@.by_market == old(self)@.by_market,
            levels_after_removal(old(self)@.levels, final(self)@.levels, (market_id, is_bid, price), id, size),
    {
        proof { use_type_invariant(&*self); }
        let k = (market_id, is_bid, price);
        let lf = self.find_level(market_id, is_bid, price);
        let mut lv: Vec<(LevelKey, PriceLevel)> = Vec::new();
        std::mem::swap(&mut lv, &mut self.levels);
        let ghost before = lv@;
        match lf {
            None => {
                proof { assert(!table_map(before).contains_key(k)); }
                self.levels = lv;
                proof {
                    reveal(levels_after_removal);
                    assert(self.levels@ == before);
                    assert(self@.levels == table_map(before));
                    assert(levels_after_removal(old(self)@.levels, self@.levels, k, id, size));
                }
                return;
            },
            Some(i) => {
                proof { lemma_key_index(before, i as int); }
                let pos = Self::queue_position(&lv[i].1.orders, id);
                match pos {
                    None => {
                        proof {
                            assert(table_map(before)[k] == before[i as int].1);
                            assert(!table_map(before)[k].orders@.contains(id));
                        }
                        self.levels = lv;
                        proof {
                            reveal(levels_after_removal);
                            assert(self.levels@ == before);
                            assert(levels_after_removal(old(self)@.levels, self@.levels, k, id, size));
                        }
                        return;
                    },
                    Some(p) => {
                        proof {
                            assert(table_map(before)[k] == before[i as int].1);
                            assert(table_map(before)[k].orders@.contains(id));
                        }
                        let (key, mut level) = lv.remove(i);
                        level.orders.remove(p);
                        level.total_size = level.total_size.saturating_sub(size);
                        if level.orders.len() == 0 {
                            proof {
                                lemma_level_emptied(before, i as int, k, id, size);
                            }
                        } else {
                            let ghost newlv = level;
                            lv.insert(i, (key, level));
                            proof {
                                assert(lv@ =~= before.update(i as int, (k, newlv)));
                                lemma_level_shrunk(before, i as int, k, id, size, newlv);
                            }
                        }
                    },
                }
            },
        }
        self.levels = lv;
    }

    /// Take order `order_id` of market `market_id` out of the book's order
    /// index (its entry and its market entry); the price levels stay.
    fn forget_order(&mut self, order_id: u64, market_id: u32)
        ensures
            final(self)@.orders == old(self)@.orders.remove(order_id),
            final(self)@.levels == old(self)@.levels,
            !final(self)@.by_market.contains((market_id, order_id)),
            !old(self)@.by_market.contains((market_id, order_id)) ==> final(self)@.by_market == old(self)@.by_market,
            old(self)@.by_market.contains((market_id, order_id)) ==> exists|i: int|
                0 <= i < old(self)@.by_market.len() && old(self)@.by_market[i] == (market_id, order_id)
                && final(self)@.by_market == old(self)@.by_market.remove(i),
    {
        proof { use_type_invariant(&*self); }
        match self.find_order(order_id) {
            Some(i) => {
                let mut t: Vec<(u64, Order)> = Vec::new();
                std::mem::swap(&mut t, &mut self.orders);
                proof { lemma_table_remove(t@, i as int); }
                t.remove(i);
                self.orders = t;
            },
            None => {
                proof { assert(table_map(self.orders@).remove(order_id) =~= table_map(self.orders@)); }
            },
        }
        match self.find_pair(market_id, order_id) {
            Some(i) => {
                let mut t: Vec<(u32, u64)> = Vec::new();
                std::mem::swap(&mut t, &mut self.by_market);
                let ghost before = t@;
                t.remove(i);
                proof {
                    assert forall|a: int, b: int| 0 <= a < t@.len() && 0 <= b < t@.len() && a != b implies t@[a] != t@[b] by {
                        let a2 = if a < i { a } else { a + 1 };
                        let b2 = if b < i { b } else { b + 1 };
                        assert(t@[a] == before[a2]);
                        assert(t@[b] == before[b2]);
                    }
                    assert forall|x: int| 0 <= x < t@.len() implies t@[x] != (market_id, order_id) by {
                        let x2 = if x < i { x } else { x + 1 };
                        assert(t@[x] == before[x2]);
                    }
                }
                self.by_market = t;
            },
            None => {},
        }
    }

    /// Remove an order from the book.
    pub fn remove_order(&mut self, order_id: u64, order: &Order)
        ensures
            book_after_remove(old(self)@, final(self)@, order_id, *order),
    {
        self.forget_order(order_id, order.market_id);
        self.remove_from_level(order.market_id, order.is_buy, order.price, order_id, order.remaining_size);
    }

    /// Ids of the book's orders in `market_id`, in insertion order.
    pub fn get_orders_for_market(&self, market_id: u32) -> (r: Vec<u64>)
        ensures
            r@ == active_ids_in(self@.by_market, market_id),
    {
        let mut r: Vec<u64> = Vec::new();
        let mut i: usize = 0;
        while i < self.by_market.len()
            invariant
                i <= self.by_market@.len(),
                r@ == active_ids_in(self.by_market@.take(i as int), market_id),
            decreases self.by_market@.len() - i,
        {
            proof { assert(self.by_market@.take(i + 1).drop_last() =~= self.by_market@.take(i as int)); }
            if self.by_market[i].0 == market_id {
                r.push(self.by_market[i].1);
            }
            i += 1;
        }
        proof { assert(self.by_market@.take(i as int) =~= self.by_market@); }
        r
    }

    /// Index of the best level of a side lying strictly beyond `bound`
    /// (for bids: highest price below the bound; for asks: lowest above it).
    fn select_next(&self, market_id: u32, is_bid: bool, bound: Option<u64>) -> (r: Option<usize>)
        ensures
            r is None ==> forall|p: u64| #[trigger] has_level(self@, market_id, is_bid, p) ==> !beyond(is_bid, bound, p),
            r matches Some(i) ==> i < self.levels@.len() && self.levels@[i as int].0.0 == market_id
                && self.levels@[i as int].0.1 == is_bid
                && has_level(self@, market_id, is_bid, self.levels@[i as int].0.2)
                && self@.levels[self.levels@[i as int].0] == self.levels@[i as int].1
                && beyond(is_bid, bound, self.levels@[i as int].0.2)
                && forall|p: u64| #[trigger] has_level(self@, market_id, is_bid, p) && beyond(is_bid, bound, p)
                    ==> better_or_equal(is_bid, self.levels@[i as int].0.2, p),
    {
        proof { use_type_invariant(self); }
        let mut best: Option<usize> = None;
        let mut i: usize = 0;
        while i < self.levels.len()
            invariant
                i <= self.levels@.len(),
                keys_unique(self.levels@),
                best matches Some(b) ==> b < i && self.levels@[b as int].0.0 == market_id && self.levels@[b as int].0.1 == is_bid
                    && beyond(is_bid, bound, self.levels@[b as int].0.2),
                forall|j: int| 0 <= j < i && (#[trigger] self.levels@[j]).0.0 == market_id && self.levels@[j].0.1 == is_bid
                    && beyond(is_bid, bound, self.levels@[j].0.2)
                    ==> best is Some && better_or_equal(is_bid, self.levels@[best.unwrap() as int].0.2, self.levels@[j].0.2),
            decreases self.levels@.len() - i,
        {
            let k = self.levels[i].0;
            let ok = k.0 == market_id && k.1 == is_bid && match bound {
                None => true,
                Some(b) => if is_bid { k.2 < b } else { k.2 > b },
            };
            if ok {
                match best {
                    None => { best = Some(i); },
                    Some(b) => {
                        let bp = self.levels[b].0.2;
                        if (is_bid && k.2 > bp) || (!is_bid && k.2 < bp) {
                            best = Some(i);
                        }
                    },
                }
            }
            i += 1;
        }
        proof {
            assert forall|p: u64| #[trigger] has_level(self@, market_id, is_bid, p) && beyond(is_bid, bound, p)
                implies best is Some && better_or_equal(is_bid, self.levels@[best.unwrap() as int].0.2, p) by {
                let j = crate::table::key_index(self.levels@, (market_id, is_bid, p));
                assert(self.levels@[j].0 == (market_id, is_bid, p));
            }
            if let Some(b) = best {
                lemma_key_index(self.levels@, b as int);
            }
        }
        best
    }

    /// Best (highest) bid price of a market.
    pub fn get_best_bid(&self, market_id: u32) -> (r: Option<u64>)
        ensures
            r is None ==> forall|p: u64| !(#[trigger] has_level(self@, market_id, true, p)),
            r matches Some(b) ==> has_level(self@, market_id, true, b)
                && forall|p: u64| #[trigger] has_level(self@, market_id, true, p) ==> p <= b,
    {
        match self.select_next(market_id, true, None) {
            Some(i) => Some(self.levels[i].0.2),
            None => None,
        }
    }

    /// Best (lowest) ask price of a market.
    pub fn get_best_ask(&self, market_id: u32) -> (r: Option<u64>)
        ensures
            r is None ==> forall|p: u64| !(#[trigger] has_level(self@, market_id, false, p)),
            r matches Some(a) ==> has_level(self@, market_id, false, a)
                && forall|p: u64| #[trigger] has_level(self@, market_id, false, p) ==> a <= p,
    {
        match self.select_next(market_id, false, None) {
            Some(i) => Some(self.levels[i].0.2),
            None => None,
        }
    }

    fn side_depth(&self, market_id: u32, is_bid: bool, levels: usize) -> (r: Vec<(u64, u64)>)
        ensures
            is_depth(self@, market_id, is_bid, levels as nat, r@),
    {
        let mut r: Vec<(u64, u64)> = Vec::new();
        let mut bound: Option<u64> = None;
        let mut done = false;
        while r.len() < levels && !done
            invariant
                r@.len() <= levels,
                bound is None <==> r@.len() == 0,
                r@.len() > 0 ==> bound == Some(r@[r@.len() - 1].0),
                forall|i: int| 0 <= i < r@.len() ==> #[trigger] has_level(self@, market_id, is_bid, r@[i].0)
                    && r@[i].1 == self@.levels[(market_id, is_bid, r@[i].0)].total_size,
                forall|i: int, j: int| 0 <= i < j < r@.len() ==> beyond(is_bid, Some(#[trigger] r@[i].0), #[trigger] r@[j].0),
                forall|p: u64| #[trigger] has_level(self@, market_id, is_bid, p) ==>
                    (exists|i: int| 0 <= i < r@.len() && r@[i].0 == p) || beyond(is_bid, bound, p),
                done ==> forall|p: u64| #[trigger] has_level(self@, market_id, is_bid, p) ==> !beyond(is_bid, bound, p),
            decreases levels - r@.len(), if done { 0int } else { 1int },
        {
            match self.select_next(market_id, is_bid, bound) {
                None => { done = true; },
                Some(i) => {
                    let p = self.levels[i].0.2;
                    let ghost r0 = r@;
                    r.push((p, self.levels[i].1.total_size));
                    proof {
                        assert forall|a: int, b: int| 0 <= a < b < r@.len() implies beyond(is_bid, Some(#[trigger] r@[a].0), #[trigger] r@[b].0) by {
                            if b == r@.len() - 1 && a < b {
                                assert(r0[r0.len() - 1].0 == bound.unwrap() || a == r0.len() - 1 || true);
                                if r0.len() > 0 {
                                    // every earlier price is at least as good as the bound
                                    assert(beyond(is_bid, Some(r0[a].0), r0[r0.len() - 1].0) || a == r0.len() - 1);
                                }
                            }
                        }
                        assert forall|q: u64| #[trigger] has_level(self@, market_id, is_bid, q) implies
                            (exists|x: int| 0 <= x < r@.len() && r@[x].0 == q) || beyond(is_bid, Some(p), q) by {
                            if exists|x: int| 0 <= x < r0.len() && r0[x].0 == q {
                                let x = choose|x: int| 0 <= x < r0.len() && r0[x].0 == q;
                                assert(r@[x].0 == q);
                            } else if q == p {
                                assert(r@[r@.len() - 1].0 == q);
                            } else {
                                assert(beyond(is_bid, bound, q));
                            }
                        }
                        assert(r@[r@.len() - 1].0 == p);
                    }
                    bound = Some(p);
                },
            }
        }
        r
    }

    /// The `levels` best price levels of each side: `(bids, asks)` as
    /// `(price, total_size)` pairs, best first.
    pub fn get_depth(&self, market_id: u32, levels: usize) -> (r: (Vec<(u64, u64)>, Vec<(u64, u64)>))
        ensures
            is_depth(self@, market_id, true, levels as nat, r.0@),
            is_depth(self@, market_id, false, levels as nat, r.1@),
    {
        (self.side_depth(market_id, true, levels), self.side_depth(market_id, false, levels))
    }

    /// Lower the total size of level `k` by `size` (not below zero).
    fn reduce_level_total(&mut self, market_id: u32, is_bid: bool, price: u64, size: u64)
        ensures
            final(self)@.orders == old(self)@.orders,
            final(self)@.by_market == old(self)@.by_market,
            forall|k2: LevelKey| #[trigger] final(self)@.levels.contains_key(k2) <==> old(self)@.levels.contains_key(k2),
            forall|k2: LevelKey| k2 != (market_id, is_bid, price) && #[trigger] old(self)@.levels.contains_key(k2)
                ==> final(self)@.levels[k2] == old(self)@.levels[k2],
            old(self)@.levels.contains_key((market_id, is_bid, price)) ==> ({
                let k = (market_id, is_bid, price);
                &&& final(self)@.levels[k].orders@ == old(self)@.levels[k].orders@
                &&& final(self)@.levels[k].total_size == if old(self)@.levels[k].total_size >= size {
                    (old(self)@.levels[k].total_size - size) as u64 } else { 0 }
            }),
    {
        proof { use_type_invariant(&*self); }
        let k = (market_id, is_bid, price);
        let lf = self.find_level(market_id, is_bid, price);
        let mut lv: Vec<(LevelKey, PriceLevel)> = Vec::new();
        std::mem::swap(&mut lv, &mut self.levels);
        let ghost before = lv@;
        match lf {
            None => {},
            Some(i) => {
                let (key, mut level) = lv.remove(i);
                level.total_size = level.total_size.saturating_sub(size);
                let ghost newlv = level;
                lv.insert(i, (key, level));
                proof {
                    assert(lv@ =~= before.update(i as int, (k, newlv)));
                    lemma_key_index(before, i as int);
                    lemma_table_update(before, i as int, newlv);
                }
            },
        }
        self.levels = lv;
    }

    /// Total size resting at a price level (0 when there is no such level).
    pub fn level_total(&self, market_id: u32, is_bid: bool, price: u64) -> (r: u64)
        ensures
            r == if self@.levels.contains_key((market_id, is_bid, price)) { self@.levels[(market_id, is_bid, price)].total_size } else { 0 },
    {
        proof { use_type_invariant(self); }
        match self.find_level(market_id, is_bid, price) {
            None => 0,
            Some(i) => {
                proof { lemma_key_index(self.levels@, i as int); }
                self.levels[i].1.total_size
            },
        }
    }

    /// The order ids queued at a price level, oldest first (empty when
    /// there is no such level).
    pub fn level_queue(&self, market_id: u32, is_bid: bool, price: u64) -> (r: Vec<u64>)
        ensures
            self@.levels.contains_key((market_id, is_bid, price)) ==> r@ == self@.levels[(market_id, is_bid, price)].orders@,
            !self@.levels.contains_key((market_id, is_bid, price)) ==> r@.len() == 0,
    {
        proof { use_type_invariant(self); }
        let mut r: Vec<u64> = Vec::new();
        match self.find_level(market_id, is_bid, price) {
            None => {},
            Some(i) => {
                proof { lemma_key_index(self.levels@, i as int); }
                let q = &self.levels[i].1.orders;
                let mut j: usize = 0;
                while j < q.len()
                    invariant
                        j <= q@.len(),
                        r@ == q@.take(j as int),
                    decreases q@.len() - j,
                {
                    r.push(q[j]);
                    proof { assert(r@ =~= q@.take(j + 1)); }
                    j += 1;
                }
                proof { assert(r@ =~= q@); }
            },
        }
        r
    }

    /// Whether `order` would trade immediately against the book.
    pub fn would_match(&self, order: &Order) -> (r: bool)
        ensures
            r == crosses(self@, *order),
    {
        let opposing_is_bid = !order.is_buy;
        match self.select_next(order.market_id, opposing_is_bid, None) {
            None => {
                proof {
                    if crosses(self@, *order) {
                        let k = choose|k: LevelKey| #[trigger] self@.levels.contains_key(k) && k.0 == order.market_id && k.1 == !order.is_buy
                            && (order.price == 0 || (order.is_buy && order.price >= k.2) || (!order.is_buy && order.price <= k.2));
                        assert(has_level(self@, order.market_id, opposing_is_bid, k.2));
                    }
                }
                false
            },
            Some(i) => {
                let best = self.levels[i].0.2;
                let r = order.price == 0 || (order.is_buy && order.price >= best) || (!order.is_buy && order.price <= best);
                proof {
                    if crosses(self@, *order) {
                        let k = choose|k: LevelKey| #[trigger] self@.levels.contains_key(k) && k.0 == order.market_id && k.1 == !order.is_buy
                            && (order.price == 0 || (order.is_buy && order.price >= k.2) || (!order.is_buy && order.price <= k.2));
                        assert(has_level(self@, order.market_id, opposing_is_bid, k.2));
                        assert(better_or_equal(opposing_is_bid, best, k.2));
                    }
                    if r {
                        assert(self@.levels.contains_key((order.market_id, opposing_is_bid, best)));
                    }
                }
                r
            },
        }
    }

    /// Match an incoming order against the opposing side of its market, best
    /// price first and oldest order first within a price. Resting orders of
    /// the same owner are skipped. Each maker order is updated in `state`:
    /// its remaining size shrinks by the fill, and a fully filled maker is
    /// marked filled, leaves the active orders and leaves the book.
    #[verifier::rlimit(60)]
    pub fn match_order(&mut self, state: &mut StateManager, order: &Order, market: &Market) -> (r: Result<Vec<Fill>, EngineError>)
        ensures
            order.post_only && crosses(old(self)@, *order) ==> r == Err::<Vec<Fill>, EngineError>(EngineError::PostOnlyWouldTake)
                && final(self)@ == old(self)@ && final(state)@ == old(state)@,
            !(order.post_only && crosses(old(self)@, *order)) ==> r is Ok,
            r matches Ok(fills) ==> matched(old(self)@, old(state)@, *order, fills@, final(state)@, final(self)@),
    {
        if order.post_only && self.would_match(order) {
            return Err(EngineError::PostOnlyWouldTake);
        }
        let m = order.market_id;
        let side = !order.is_buy;
        let mut fills: Vec<Fill> = Vec::new();
        let mut remaining: u64 = order.remaining_size;
        let mut bound: Option<u64> = None;
        let ghost book0 = self@;
        let ghost state0 = state@;
        let ghost mut pos: Seq<int> = Seq::empty();
        let mut done = false;
        while !done && remaining > 0
            invariant
                remaining + total_filled(fills@) == order.remaining_size,
                m == order.market_id,
                side == !order.is_buy,
                forall|i: int| 0 <= i < fills@.len() ==> fill_of(#[trigger] fills@[i], *order),
                forall|i: int| 0 <= i < fills@.len() ==> #[trigger] has_level(book0, m, side, fills@[i].price),
                forall|i: int, j: int| 0 <= i < j < fills@.len() ==> better_or_equal(side, #[trigger] fills@[i].price, #[trigger] fills@[j].price),
                forall|i: int| 0 <= i < fills@.len() ==> !beyond(side, bound, #[trigger] fills@[i].price),
                forall|i: int| 0 <= i < fills@.len() ==> (#[trigger] state@.order(fills@[i].maker_order_id)) is Some
                    && state@.order(fills@[i].maker_order_id).unwrap().owner == fills@[i].maker,
                only_orders_changed(state0, state@),
                levels_side_changed(book0, self@, m, side),
                forall|id: u64| #[trigger] self@.orders.contains_key(id) <==> book0.orders.contains_key(id) && !left_book(state0.orders, fills@, id),
                forall|id: u64| #[trigger] self@.orders.contains_key(id) ==> self@.orders[id] == book0.orders[id],
                forall|p: (u32, u64)| #[trigger] self@.by_market.contains(p)
                    <==> book0.by_market.contains(p) && !(p.0 == m && left_book(state0.orders, fills@, p.1)),
                remaining > 0 ==> forall|p: u64| !beyond(side, bound, p) ==> #[trigger] level_exhausted(self@, state@, *order, p),
                done && remaining > 0 ==> forall|p: u64| beyond(side, bound, p) && #[trigger] has_level(self@, m, side, p) ==> !within_limit(*order, p),
                book0 == old(self)@,
                queue_positions(book0, *order, fills@, pos),
                forall|p: u64| beyond(side, bound, p) && #[trigger] has_level(self@, m, side, p)
                    ==> self@.levels[(m, side, p)] == book0.levels[(m, side, p)],
                state0 == old(state)@,
                forall|i: int| 0 <= i < fills@.len() ==> #[trigger] fill_fits(state0.orders, fills@, i, order.remaining_size),
                state@.orders == orders_after_fills(state0.orders, fills@),
                forall|p: (u32, u64)| #[trigger] state@.active_orders.contains(p)
                    <==> state0.active_orders.contains(p) && !left_active(state0.orders, fills@, p),
                level_contents(self@.levels) == contents_after_fills(level_contents(book0.levels), state0.orders, *order, fills@),
                state@.orders.dom() == state0.orders.dom(),
                forall|x: u64| #[trigger] state0.orders.contains_key(x) ==> state@.orders[x].owner == state0.orders[x].owner,
                none_skipped(book0, state0, *order, fills@, pos),
                remaining > 0 ==> forall|p: u64, j: int| #![trigger book0.levels[opposing_key(*order, p)].orders@[j]]
                    has_level(book0, m, side, p) && !beyond(side, bound, p) && 0 <= j < book0.levels[opposing_key(*order, p)].orders@.len()
                    ==> passed_over(state0, *order, book0.levels[opposing_key(*order, p)].orders@[j])
                        || filled_before(fills@, fills@.len() as int, book0.levels[opposing_key(*order, p)].orders@[j]),
                forall|p: u64| beyond(side, bound, p) && #[trigger] has_level(book0, m, side, p) ==> has_level(self@, m, side, p),
            decreases remaining, if done { 0int } else { 1int },
                match bound { None => u64::MAX as int + 1, Some(b) => if side { b as int } else { u64::MAX - b } },
        {
            let ghost rem_before = remaining;
            let next = self.select_next(m, side, bound);
            match next {
                None => { done = true; },
                Some(li) => {
                    let price = self.levels[li].0.2;
                    if order.is_buy && order.price > 0 && price > order.price {
                        done = true;
                        proof {
                            assert forall|p: u64| beyond(side, bound, p) && #[trigger] has_level(self@, m, side, p) implies !within_limit(*order, p) by {
                                assert(better_or_equal(side, price, p));
                            }
                        }
                    } else if !order.is_buy && order.price > 0 && price < order.price {
                        done = true;
                        proof {
                            assert forall|p: u64| beyond(side, bound, p) && #[trigger] has_level(self@, m, side, p) implies !within_limit(*order, p) by {
                                assert(better_or_equal(side, price, p));
                            }
                        }
                    } else {
                        let queue = self.level_queue(m, side, price);
                        let mut qi: usize = 0;
                        let ghost fills_before = fills@;
                        let ghost sel = self@;
                        let ghost k = (m, side, price);
                        proof {
                            assert(has_level(self@, m, side, price));
                            assert(self@.levels[k] == book0.levels[k]);
                            assert(has_level(book0, m, side, price));
                            if remaining > 0 {
                                assert(queue_inv(self@, state@, *order, k, queue@, 0)) by {
                                    if self@.levels.contains_key(k) {
                                        assert forall|j: int| 0 <= j < self@.levels[k].orders@.len()
                                            implies !tradable(state@, *order, #[trigger] self@.levels[k].orders@[j])
                                            || queue@.subrange(0, queue@.len() as int).contains(self@.levels[k].orders@[j]) by {
                                            assert(queue@.subrange(0, queue@.len() as int) =~= queue@);
                                            assert(queue@[j] == self@.levels[k].orders@[j]);
                                        }
                                    }
                                }
                                assert(others_exhausted(self@, state@, *order, bound, price));
                            }
                        }
                        while qi < queue.len() && remaining > 0
                            invariant
                                qi <= queue@.len(),
                                remaining + total_filled(fills@) == order.remaining_size,
                                remaining <= rem_before,
                                m == order.market_id,
                                side == !order.is_buy,
                                has_level(book0, m, side, price),
                                beyond(side, bound, price),
                                within_limit(*order, price),
                                fills_before.len() <= fills@.len(),
                                forall|i: int| 0 <= i < fills_before.len() ==> fills@[i] == fills_before[i],
                                forall|i: int| fills_before.len() <= i < fills@.len() ==> (#[trigger] fills@[i]).price == price,
                                forall|i: int| 0 <= i < fills@.len() ==> fill_of(#[trigger] fills@[i], *order),
                                forall|i: int| 0 <= i < fills_before.len() ==> #[trigger] has_level(book0, m, side, fills@[i].price),
                                forall|i: int, j: int| 0 <= i < j < fills_before.len() ==> better_or_equal(side, #[trigger] fills@[i].price, #[trigger] fills@[j].price),
                                forall|i: int| 0 <= i < fills_before.len() ==> !beyond(side, bound, #[trigger] fills@[i].price),
                                forall|i: int| 0 <= i < fills@.len() ==> (#[trigger] state@.order(fills@[i].maker_order_id)) is Some
                                    && state@.order(fills@[i].maker_order_id).unwrap().owner == fills@[i].maker,
                                only_orders_changed(state0, state@),
                                levels_side_changed(book0, self@, m, side),
                                forall|id: u64| #[trigger] self@.orders.contains_key(id) <==> book0.orders.contains_key(id) && !left_book(state0.orders, fills@, id),
                                forall|id: u64| #[trigger] self@.orders.contains_key(id) ==> self@.orders[id] == book0.orders[id],
                                forall|p: (u32, u64)| #[trigger] self@.by_market.contains(p)
                                    <==> book0.by_market.contains(p) && !(p.0 == m && left_book(state0.orders, fills@, p.1)),
                                k == (m, side, price),
                                forall|k2: LevelKey| #[trigger] self@.levels.contains_key(k2) ==> sel.levels.contains_key(k2),
                                forall|p: u64| #[trigger] has_level(sel, m, side, p) && beyond(side, bound, p) ==> better_or_equal(side, price, p),
                                remaining > 0 ==> others_exhausted(self@, state@, *order, bound, price),
                                remaining > 0 ==> queue_inv(self@, state@, *order, k, queue@, qi as int),
                                book0 == old(self)@,
                                has_level(book0, m, side, price),
                                queue@ == book0.levels[k].orders@,
                                queue_positions(book0, *order, fills@, pos),
                                forall|i: int| fills_before.len() <= i < fills@.len() ==> #[trigger] pos[i] < qi,
                                forall|p: u64| p != price && beyond(side, bound, p) && #[trigger] has_level(self@, m, side, p)
                                    ==> self@.levels[(m, side, p)] == book0.levels[(m, side, p)],
                                state0 == old(state)@,
                                forall|i: int| 0 <= i < fills@.len() ==> #[trigger] fill_fits(state0.orders, fills@, i, order.remaining_size),
                                state@.orders == orders_after_fills(state0.orders, fills@),
                                forall|p: (u32, u64)| #[trigger] state@.active_orders.contains(p)
                                    <==> state0.active_orders.contains(p) && !left_active(state0.orders, fills@, p),
                                level_contents(self@.levels) == contents_after_fills(level_contents(book0.levels), state0.orders, *order, fills@),
                                state@.orders.dom() == state0.orders.dom(),
                                forall|x: u64| #[trigger] state0.orders.contains_key(x) ==> state@.orders[x].owner == state0.orders[x].owner,
                                none_skipped(book0, state0, *order, fills@, pos),
                                forall|j: int| 0 <= j < qi ==> passed_over(state0, *order, #[trigger] queue@[j])
                                    || filled_before(fills@, fills@.len() as int, queue@[j]),
                                forall|p: u64, j: int| #![trigger book0.levels[opposing_key(*order, p)].orders@[j]]
                                    has_level(book0, m, side, p) && better_or_equal(side, p, price) && p != price
                                    && 0 <= j < book0.levels[opposing_key(*order, p)].orders@.len()
                                    ==> passed_over(state0, *order, book0.levels[opposing_key(*order, p)].orders@[j])
                                        || filled_before(fills_before, fills_before.len() as int, book0.levels[opposing_key(*order, p)].orders@[j]),
                                forall|p: u64| beyond(side, bound, p) && p != price && #[trigger] has_level(book0, m, side, p) ==> has_level(self@, m, side, p),
                            decreases queue@.len() - qi,
                        {
                            let maker_id = queue[qi];
                            let ghost qi0 = qi as int;
                            let ghost v0 = self@;
                            let ghost s0 = state@;
                            qi += 1;
                            let maker = match state.get_order(maker_id) {
                                Some(o) => o,
                                None => {
                                    proof {
                                        if remaining > 0 {
                                            lemma_queue_step(v0, v0, s0, s0, *order, k, queue@, qi0);
                                        }
                                    }
                                    continue;
                                },
                            };
                            if maker.owner == order.owner {
                                proof {
                                    if remaining > 0 {
                                        lemma_queue_step(v0, v0, s0, s0, *order, k, queue@, qi0);
                                    }
                                }
                                continue;
                            }
                            let fill_size = if remaining <= maker.remaining_size { remaining } else { maker.remaining_size };
                            let fill = Fill {
                                maker: maker.owner,
                                taker: order.owner,
                                market_id: order.market_id,
                                price,
                                size: fill_size,
                                taker_is_buy: order.is_buy,
                                maker_order_id: maker_id,
                                taker_order_id: order.id,
                            };
                            let ghost f0 = fills@;
                            let ghost p0 = pos;
                            let ghost lv_before = self@.levels;
                            let ghost act_before = state@.active_orders;
                            proof {
                                lemma_fill_step(state0.orders, level_contents(book0.levels), *order, f0, fill, order.remaining_size, maker, remaining);
                            }
                            fills.push(fill);
                            proof {
                                assert(fills@.drop_last() =~= f0);
                                pos = p0.push(qi0);
                                assert(opposing_key(*order, price) == k);
                                assert forall|i: int, j: int| 0 <= i < j < fills@.len() && fills@[i].price == fills@[j].price
                                    implies #[trigger] pos[i] < #[trigger] pos[j] by {
                                    if j == fills@.len() - 1 {
                                        if i < fills_before.len() {
                                            assert(!beyond(side, bound, fills@[i].price));
                                        } else {
                                            assert(pos[i] == p0[i]);
                                        }
                                    } else {
                                        assert(fills@[i] == f0[i] && fills@[j] == f0[j]);
                                        assert(pos[i] == p0[i] && pos[j] == p0[j]);
                                    }
                                }
                                assert forall|i: int| 0 <= i < fills@.len() implies 0 <= #[trigger] pos[i] < book0.levels[opposing_key(*order, fills@[i].price)].orders@.len()
                                    && book0.levels[opposing_key(*order, fills@[i].price)].orders@[pos[i]] == fills@[i].maker_order_id by {
                                    if i < fills@.len() - 1 {
                                        assert(fills@[i] == f0[i]);
                                        assert(pos[i] == p0[i]);
                                    }
                                }
                            }
                            remaining = remaining - fill_size;
                            let mut updated = maker;
                            updated.remaining_size = maker.remaining_size - fill_size;
                            let ghost st_before = state@;
                            if updated.remaining_size == 0 {
                                updated.status = OrderStatus::Filled;
                                state.set_order(maker_id, updated);
                                let ghost st_mid = state@;
                                state.remove_active_order(updated.market_id, maker_id);
                                let ghost bk_mid = self@;
                                self.forget_order(maker_id, m);
                                let ghost bk_forgot = self@;
                                self.remove_from_level(m, side, price, maker_id, fill_size);
                                proof {
                                    assert forall|p: (u32, u64)| #[trigger] self@.by_market.contains(p)
                                        <==> bk_mid.by_market.contains(p) && p != (m, maker_id) by {
                                        assert(self@.by_market == bk_forgot.by_market);
                                        if bk_mid.by_market.contains((m, maker_id)) {
                                            let j = choose|j: int| 0 <= j < bk_mid.by_market.len() && bk_mid.by_market[j] == (m, maker_id)
                                                && bk_forgot.by_market == bk_mid.by_market.remove(j);
                                            if self@.by_market.contains(p) {
                                                let t = choose|t: int| 0 <= t < self@.by_market.len() && self@.by_market[t] == p;
                                                let t0 = if t < j { t } else { t + 1 };
                                                assert(bk_mid.by_market[t0] == p);
                                            }
                                            if bk_mid.by_market.contains(p) && p != (m, maker_id) {
                                                let t = choose|t: int| 0 <= t < bk_mid.by_market.len() && bk_mid.by_market[t] == p;
                                                assert(t != j);
                                                let t1 = if t < j { t } else { t - 1 };
                                                assert(self@.by_market[t1] == p);
                                            }
                                        }
                                    }
                                    assert(updated == filled_maker(maker, fill_size));
                                    lemma_removal_contents(lv_before, self@.levels, k, maker_id, fill_size);
                                    assert(opposing_key(*order, price) == k);
                                    assert forall|p: (u32, u64)| #[trigger] state@.active_orders.contains(p)
                                        <==> state0.active_orders.contains(p) && !left_active(state0.orders, fills@, p) by {
                                        if act_before.contains((updated.market_id, maker_id)) {
                                            let j = choose|j: int| 0 <= j < act_before.len() && act_before[j] == (updated.market_id, maker_id)
                                                && state@ == (StateView { active_orders: st_mid.active_orders.remove(j), ..st_mid });
                                            assert(state@.active_orders == act_before.remove(j));
                                            if state@.active_orders.contains(p) {
                                                let t = choose|t: int| 0 <= t < state@.active_orders.len() && state@.active_orders[t] == p;
                                                let t0 = if t < j { t } else { t + 1 };
                                                assert(act_before[t0] == p);
                                            }
                                            if act_before.contains(p) && p != (updated.market_id, maker_id) {
                                                let t = choose|t: int| 0 <= t < act_before.len() && act_before[t] == p;
                                                assert(t != j);
                                                let t1 = if t < j { t } else { t - 1 };
                                                assert(state@.active_orders[t1] == p);
                                            }
                                        }
                                    }
                                    reveal(levels_after_removal);
                                    lemma_maker_update(s0, state@, *order, maker_id, updated);
                                    if remaining > 0 {
                                        if self@.levels.contains_key(k) {
                                            let lv0 = v0.levels[k].orders@;
                                            let idx = first_index(lv0, maker_id);
                                            if lv0.contains(maker_id) {
                                                lemma_first_index(lv0, maker_id);
                                            }
                                            assert forall|j: int| 0 <= j < self@.levels[k].orders@.len()
                                                implies lv0.contains(#[trigger] self@.levels[k].orders@[j]) by {
                                                if v0.levels[k].orders@.contains(maker_id) {
                                                    let j0 = if j < idx { j } else { j + 1 };
                                                    assert(self@.levels[k].orders@ == lv0.remove(idx));
                                                    assert(self@.levels[k].orders@[j] == lv0[j0]);
                                                } else {
                                                    assert(self@.levels[k] == v0.levels[k]);
                                                    assert(lv0[j] == self@.levels[k].orders@[j]);
                                                }
                                            }
                                        }
                                        lemma_queue_step(v0, self@, s0, state@, *order, k, queue@, qi0);
                                        lemma_others_kept(v0, self@, s0, state@, *order, bound, price, k);
                                    }
                                }
                            } else {
                                state.set_order(maker_id, updated);
                                self.reduce_level_total(m, side, price, fill_size);
                                proof {
                                    assert(remaining == 0);
                                    assert(updated == filled_maker(maker, fill_size));
                                    lemma_reduce_contents(lv_before, self@.levels, k, maker_id, fill_size);
                                    assert(opposing_key(*order, price) == k);
                                }
                            }
                            proof {
                                reveal(levels_after_removal);
                                assert forall|p: u64| p != price && beyond(side, bound, p) && #[trigger] has_level(self@, m, side, p)
                                    implies self@.levels[(m, side, p)] == book0.levels[(m, side, p)] by {
                                    assert(v0.levels.contains_key((m, side, p)));
                                    assert(has_level(v0, m, side, p));
                                    assert(self@.levels[(m, side, p)] == v0.levels[(m, side, p)]);
                                }
                                assert forall|i: int| 0 <= i < fills@.len() implies (#[trigger] state@.order(fills@[i].maker_order_id)) is Some
                                    && state@.order(fills@[i].maker_order_id).unwrap().owner == fills@[i].maker by {
                                    if i < fills@.len() - 1 {
                                        assert(fills@[i] == f0[i]);
                                        assert(st_before.order(f0[i].maker_order_id) is Some);
                                    }
                                }
                            }
                        }
                        proof {
                            assert forall|i: int, j: int| 0 <= i < j < fills@.len() implies better_or_equal(side, #[trigger] fills@[i].price, #[trigger] fills@[j].price) by {
                                if j >= fills_before.len() && i < fills_before.len() {
                                    assert(!beyond(side, bound, fills@[i].price));
                                }
                            }
                            assert forall|i: int| 0 <= i < fills@.len() implies !beyond(side, Some(price), #[trigger] fills@[i].price) by {
                                if i < fills_before.len() {
                                    assert(!beyond(side, bound, fills@[i].price));
                                }
                            }
                            if remaining > 0 {
                                assert(qi == queue@.len());
                                assert(level_exhausted(self@, state@, *order, price)) by {
                                    if self@.levels.contains_key(k) {
                                        assert forall|j: int| 0 <= j < self@.levels[k].orders@.len()
                                            implies !tradable(state@, *order, #[trigger] self@.levels[k].orders@[j]) by {
                                            if queue@.subrange(qi as int, queue@.len() as int).contains(self@.levels[k].orders@[j]) {
                                                let t = choose|t: int| 0 <= t < queue@.subrange(qi as int, queue@.len() as int).len()
                                                    && queue@.subrange(qi as int, queue@.len() as int)[t] == self@.levels[k].orders@[j];
                                            }
                                        }
                                    }
                                }
                                assert forall|p: u64| !beyond(side, Some(price), p) implies #[trigger] level_exhausted(self@, state@, *order, p) by {
                                    if p != price {
                                        if beyond(side, bound, p) && has_level(self@, m, side, p) {
                                            assert(has_level(sel, m, side, p));
                                            assert(better_or_equal(side, price, p));
                                        }
                                        if !beyond(side, bound, p) {
                                            assert(level_exhausted(self@, state@, *order, p));
                                        }
                                    }
                                }
                            }
                        }
                        bound = Some(price);
                    }
                },
            }
        }
        proof {
            if remaining > 0 {
                assert forall|p: u64| within_limit(*order, p) implies #[trigger] level_exhausted(self@, state@, *order, p) by {
                    if has_level(self@, m, side, p) && beyond(side, bound, p) {
                        assert(!within_limit(*order, p));
                    }
                }
            }
        }
        Ok(fills)
    }
}

} // verus!
