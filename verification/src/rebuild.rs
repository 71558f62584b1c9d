//! Rebuilding the order book from the active orders of the state, as after
//! a restart: live orders go back into their price levels in the order the
//! state lists them, and stale entries leave the active-order index.
use vstd::prelude::*;
use crate::error::EngineError;
use crate::orderbook::{BookView, LevelKey, OrderbookManager};
use crate::state::{StateManager, StateView, active_ids_in, pairs_unique, lemma_active_ids_unique};
use crate::types::{Order, OrderStatus};

verus! {

/// Whether the stored order `id` is active with size left to fill.
pub open spec fn live_order(s: StateView, id: u64) -> bool {
    s.orders.contains_key(id) && s.orders[id].status == OrderStatus::Active && s.orders[id].remaining_size > 0
}

/// Whether the order `id` is stored but filled, cancelled or empty.
pub open spec fn stale_order(s: StateView, id: u64) -> bool {
    s.orders.contains_key(id) && !(s.orders[id].status == OrderStatus::Active && s.orders[id].remaining_size > 0)
}

/// The live orders among `ids`, in their order, with the stored orders.
pub open spec fn live_among(s: StateView, ids: Seq<u64>) -> Seq<(u64, Order)>
    decreases ids.len(),
{
    if ids.len() == 0 {
        Seq::empty()
    } else {
        let rest = live_among(s, ids.drop_last());
        if live_order(s, ids.last()) { rest.push((ids.last(), s.orders[ids.last()])) } else { rest }
    }
}

/// The live active orders of the markets `ms`, market by market.
pub open spec fn live_in_markets(s: StateView, ms: Seq<u32>) -> Seq<(u64, Order)>
    decreases ms.len(),
{
    if ms.len() == 0 {
        Seq::empty()
    } else {
        live_in_markets(s, ms.drop_last()) + live_among(s, s.active_ids(ms.last()))
    }
}

/// The price level an order rests at.
pub open spec fn level_key(o: Order) -> LevelKey {
    (o.market_id, o.is_buy, o.price)
}

/// Ids of the orders of `q` resting at level `k`, in order.
pub open spec fn level_ids(q: Seq<(u64, Order)>, k: LevelKey) -> Seq<u64>
    decreases q.len(),
{
    if q.len() == 0 {
        Seq::empty()
    } else {
        let rest = level_ids(q.drop_last(), k);
        if level_key(q.last().1) == k { rest.push(q.last().0) } else { rest }
    }
}

/// Remaining size of the orders of `q` resting at level `k`.
pub open spec fn level_sum(q: Seq<(u64, Order)>, k: LevelKey) -> nat
    decreases q.len(),
{
    if q.len() == 0 {
        0
    } else {
        level_sum(q.drop_last(), k) + if level_key(q.last().1) == k { q.last().1.remaining_size as nat } else { 0 }
    }
}

/// The orders of `q` by id (a later entry replaces an earlier one).
pub open spec fn orders_of(q: Seq<(u64, Order)>) -> Map<u64, Order>
    decreases q.len(),
{
    if q.len() == 0 {
        Map::empty()
    } else {
        orders_of(q.drop_last()).insert(q.last().0, q.last().1)
    }
}

/// The `(market_id, order_id)` pairs of `q`, each once, in order of first
/// appearance.
pub open spec fn market_pairs(q: Seq<(u64, Order)>) -> Seq<(u32, u64)>
    decreases q.len(),
{
    if q.len() == 0 {
        Seq::empty()
    } else {
        let rest = market_pairs(q.drop_last());
        let p = (q.last().1.market_id, q.last().0);
        if rest.contains(p) { rest } else { rest.push(p) }
    }
}

/// Whether book `v` holds exactly the orders `q`, queued in their order.
pub open spec fn book_of(v: BookView, q: Seq<(u64, Order)>) -> bool {
    &&& v.orders == orders_of(q)
    &&& v.by_market == market_pairs(q)
    &&& forall|k: LevelKey| #[trigger] v.levels.contains_key(k) <==> level_ids(q, k).len() > 0
    &&& forall|k: LevelKey| #[trigger] v.levels.contains_key(k)
        ==> v.levels[k].orders@ == level_ids(q, k) && v.levels[k].total_size == level_sum(q, k)
}

/// Whether the orders of `q` at some level add up beyond `u64::MAX`.
pub open spec fn level_overflows(q: Seq<(u64, Order)>) -> bool {
    exists|k: LevelKey| level_sum(q, k) > u64::MAX
}

/// The active orders of `s` once the stale orders of markets `ms` are dropped.
pub open spec fn without_stale(s: StateView, ms: Seq<u32>) -> Seq<(u32, u64)> {
    s.active_orders.filter(|p: (u32, u64)| !(ms.contains(p.0) && stale_order(s, p.1)))
}

// ----------------------------------------------------------------------
// Lemmas
// ----------------------------------------------------------------------

proof fn lemma_filter_ext(s: Seq<(u32, u64)>, f: spec_fn((u32, u64)) -> bool, g: spec_fn((u32, u64)) -> bool)
    requires
        forall|i: int| 0 <= i < s.len() ==> f(#[trigger] s[i]) == g(s[i]),
    ensures
        s.filter(f) == s.filter(g),
    decreases s.len(),
{
    reveal_with_fuel(Seq::filter, 1);
    if s.len() > 0 {
        let d = s.drop_last();
        assert forall|i: int| 0 <= i < d.len() implies f(#[trigger] d[i]) == g(d[i]) by {
            assert(d[i] == s[i]);
        }
        lemma_filter_ext(d, f, g);
        assert(f(s[s.len() - 1]) == g(s[s.len() - 1]));
    }
}

proof fn lemma_filter_remove(s: Seq<(u32, u64)>, f: spec_fn((u32, u64)) -> bool, g: spec_fn((u32, u64)) -> bool, p: (u32, u64), idx: int)
    requires
        pairs_unique(s),
        0 <= idx < s.filter(f).len(),
        s.filter(f)[idx] == p,
        forall|x: (u32, u64)| #[trigger] g(x) == (f(x) && x != p),
    ensures
        s.filter(f).remove(idx) == s.filter(g),
    decreases s.len(),
{
    reveal_with_fuel(Seq::filter, 1);
    let d = s.drop_last();
    let l = s.last();
    assert(pairs_unique(d)) by {
        assert forall|i: int, j: int| 0 <= i < d.len() && 0 <= j < d.len() && i != j implies d[i] != d[j] by {
            assert(d[i] == s[i] && d[j] == s[j]);
        }
    }
    assert forall|x: (u32, u64)| d.filter(f).contains(x) implies d.contains(x) by {
        d.lemma_filter_contains_rev(f, x);
    }
    if f(l) {
        let t = d.filter(f);
        if idx == t.len() {
            assert(l == p);
            assert forall|i: int| 0 <= i < d.len() implies f(#[trigger] d[i]) == g(d[i]) by {
                assert(d[i] == s[i]);
                assert(s[i] != s[s.len() - 1]);
            }
            lemma_filter_ext(d, f, g);
            assert(t.push(l).remove(idx) =~= t);
        } else {
            assert(t[idx] == p);
            lemma_filter_remove(d, f, g, p, idx);
            assert(t.contains(p));
            assert(d.contains(p));
            let j = choose|j: int| 0 <= j < d.len() && d[j] == p;
            assert(s[j] == p && j != s.len() - 1);
            assert(l != p);
            assert(t.push(l).remove(idx) =~= t.remove(idx).push(l));
        }
    } else {
        assert(!g(l));
        lemma_filter_remove(d, f, g, p, idx);
    }
}

proof fn lemma_filter_keeps(s: Seq<(u32, u64)>, f: spec_fn((u32, u64)) -> bool, x: (u32, u64))
    requires
        s.contains(x),
        f(x),
    ensures
        s.filter(f).contains(x),
    decreases s.len(),
{
    reveal_with_fuel(Seq::filter, 1);
    let d = s.drop_last();
    if s.last() == x {
        assert(s.filter(f).last() == x);
        assert(s.filter(f)[s.filter(f).len() - 1] == x);
    } else {
        let j = choose|j: int| 0 <= j < s.len() && s[j] == x;
        assert(j != s.len() - 1);
        assert(d[j] == x);
        lemma_filter_keeps(d, f, x);
        let t = d.filter(f);
        let k = choose|k: int| 0 <= k < t.len() && t[k] == x;
        if f(s.last()) {
            assert(t.push(s.last())[k] == x);
        }
    }
}

proof fn lemma_active_ids_filter(s: Seq<(u32, u64)>, f: spec_fn((u32, u64)) -> bool, m: u32)
    requires
        forall|i: int| 0 <= i < s.len() && (#[trigger] s[i]).0 == m ==> f(s[i]),
    ensures
        active_ids_in(s.filter(f), m) == active_ids_in(s, m),
    decreases s.len(),
{
    reveal_with_fuel(Seq::filter, 1);
    if s.len() > 0 {
        let d = s.drop_last();
        assert forall|i: int| 0 <= i < d.len() && (#[trigger] d[i]).0 == m implies f(d[i]) by {
            assert(d[i] == s[i]);
        }
        lemma_active_ids_filter(d, f, m);
        let l = s.last();
        assert(l == s[s.len() - 1]);
        if f(l) {
            assert(s.filter(f).drop_last() =~= d.filter(f));
        }
    }
}

proof fn lemma_active_ids_has(s: Seq<(u32, u64)>, m: u32, x: u64)
    requires
        s.contains((m, x)),
    ensures
        active_ids_in(s, m).contains(x),
    decreases s.len(),
{
    let d = s.drop_last();
    let rest = active_ids_in(d, m);
    if s.last() == (m, x) {
        assert(rest.push(x)[rest.len() as int] == x);
    } else {
        let j = choose|j: int| 0 <= j < s.len() && s[j] == (m, x);
        assert(j != s.len() - 1);
        assert(d[j] == (m, x));
        lemma_active_ids_has(d, m, x);
        let k = choose|k: int| 0 <= k < rest.len() && rest[k] == x;
        if s.last().0 == m {
            assert(rest.push(s.last().1)[k] == x);
        }
    }
}

proof fn lemma_live_among_add(s: StateView, a: Seq<u64>, b: Seq<u64>)
    ensures
        live_among(s, a + b) == live_among(s, a) + live_among(s, b),
    decreases b.len(),
{
    if b.len() == 0 {
        assert(a + b =~= a);
        assert(live_among(s, a) + live_among(s, b) =~= live_among(s, a));
    } else {
        assert((a + b).drop_last() =~= a + b.drop_last());
        assert((a + b).last() == b.last());
        lemma_live_among_add(s, a, b.drop_last());
        if live_order(s, b.last()) {
            assert(live_among(s, a) + live_among(s, b) =~= (live_among(s, a) + live_among(s, b.drop_last())).push((b.last(), s.orders[b.last()])));
        }
    }
}

proof fn lemma_live_in_markets_add(s: StateView, a: Seq<u32>, b: Seq<u32>)
    ensures
        live_in_markets(s, a + b) == live_in_markets(s, a) + live_in_markets(s, b),
    decreases b.len(),
{
    if b.len() == 0 {
        assert(a + b =~= a);
        assert(live_in_markets(s, a) + live_in_markets(s, b) =~= live_in_markets(s, a));
    } else {
        assert((a + b).drop_last() =~= a + b.drop_last());
        assert((a + b).last() == b.last());
        lemma_live_in_markets_add(s, a, b.drop_last());
        let x = live_in_markets(s, a);
        let y = live_in_markets(s, b.drop_last());
        let z = live_among(s, s.active_ids(b.last()));
        assert((x + y) + z =~= x + (y + z));
    }
}

proof fn lemma_level_sum_add(q: Seq<(u64, Order)>, r: Seq<(u64, Order)>, k: LevelKey)
    ensures
        level_sum(q + r, k) == level_sum(q, k) + level_sum(r, k),
    decreases r.len(),
{
    if r.len() == 0 {
        assert(q + r =~= q);
    } else {
        assert((q + r).drop_last() =~= q + r.drop_last());
        assert((q + r).last() == r.last());
        lemma_level_sum_add(q, r.drop_last(), k);
    }
}

proof fn lemma_level_sum_empty(q: Seq<(u64, Order)>, k: LevelKey)
    requires
        level_ids(q, k).len() == 0,
    ensures
        level_sum(q, k) == 0,
    decreases q.len(),
{
    if q.len() > 0 {
        lemma_level_sum_empty(q.drop_last(), k);
    }
}

/// Adding an order to a book that holds `q` gives a book that holds `q`
/// followed by that order.
proof fn lemma_book_push(v: BookView, w: BookView, q: Seq<(u64, Order)>, id: u64, o: Order)
    requires
        book_of(v, q),
        w.orders == v.orders.insert(id, o),
        w.by_market == if v.by_market.contains((o.market_id, id)) { v.by_market } else { v.by_market.push((o.market_id, id)) },
        ({
            let k = level_key(o);
            &&& w.levels.dom() == v.levels.dom().insert(k)
            &&& forall|k2: LevelKey| k2 != k && #[trigger] v.levels.contains_key(k2) ==> w.levels[k2] == v.levels[k2]
            &&& v.levels.contains_key(k) ==> w.levels[k].orders@ == v.levels[k].orders@.push(id)
                && w.levels[k].total_size == v.levels[k].total_size + o.remaining_size
            &&& !v.levels.contains_key(k) ==> w.levels[k].orders@ == seq![id]
                && w.levels[k].total_size == o.remaining_size
        }),
    ensures
        book_of(w, q.push((id, o))),
{
    let q2 = q.push((id, o));
    assert(q2.drop_last() =~= q);
    assert(q2.last() == (id, o));
    let k = level_key(o);
    assert forall|k2: LevelKey| #[trigger] w.levels.contains_key(k2) <==> level_ids(q2, k2).len() > 0 by {
        assert(w.levels.dom().contains(k2) == v.levels.dom().insert(k).contains(k2));
    }
    assert forall|k2: LevelKey| #[trigger] w.levels.contains_key(k2)
        implies w.levels[k2].orders@ == level_ids(q2, k2) && w.levels[k2].total_size == level_sum(q2, k2) by {
        assert(w.levels.dom().contains(k2) == v.levels.dom().insert(k).contains(k2));
        if k2 == k && !v.levels.contains_key(k) {
            lemma_level_sum_empty(q, k);
            assert(level_ids(q, k) =~= Seq::<u64>::empty());
            assert(level_ids(q, k).push(id) =~= seq![id]);
        }
    }
}

// ----------------------------------------------------------------------
// Rebuild
// ----------------------------------------------------------------------

/// The active-order pairs still kept once markets `done` are processed and,
/// in market `m`, the ids `seen`.
spec fn kept(s: StateView, done: Seq<u32>, m: u32, seen: Seq<u64>) -> spec_fn((u32, u64)) -> bool {
    |p: (u32, u64)| !((done.contains(p.0) || (p.0 == m && seen.contains(p.1))) && stale_order(s, p.1))
}

/// A book holding the live active orders of `state`, market by market in the
/// order the markets were stored and within a market in the order the
/// orders became active; stale orders (stored but filled, cancelled or
/// empty) leave the active-order index. Fails with `Overflow` when the
/// orders of some price level add up beyond `u64::MAX`.
pub fn rebuild_book(state: &mut StateManager) -> (r: Result<OrderbookManager, EngineError>)
    ensures
        final(state)@ == (StateView { active_orders: final(state)@.active_orders, ..old(state)@ }),
        r is Ok <==> !level_overflows(live_in_markets(old(state)@, old(state)@.market_ids)),
        r is Err ==> r == Err::<OrderbookManager, EngineError>(EngineError::Overflow),
        r matches Ok(book) ==> book_of(book@, live_in_markets(old(state)@, old(state)@.market_ids))
            && final(state)@.active_orders == without_stale(old(state)@, old(state)@.market_ids),
{
    let ghost s0 = state@;
    let mut book = OrderbookManager::new();
    let markets = state.list_all_markets();
    let ghost ms = s0.market_ids;
    state.index_facts();
    proof {
        reveal_with_fuel(Seq::filter, 1);
        assert(book_of(book@, live_in_markets(s0, ms.take(0)))) by {
            assert(ms.take(0) =~= Seq::<u32>::empty());
            assert forall|k: LevelKey| #[trigger] book@.levels.contains_key(k) <==> level_ids(Seq::<(u64, Order)>::empty(), k).len() > 0 by {
                assert(book@.levels.dom() =~= Map::<LevelKey, crate::orderbook::PriceLevel>::empty().dom());
            }
        }
        lemma_filter_ext(s0.active_orders, kept(s0, ms.take(0), 0, Seq::empty()), |p: (u32, u64)| true);
        lemma_filter_true(s0.active_orders);
    }
    let mut i: usize = 0;
    while i < markets.len()
        invariant
            markets@ == ms,
            s0 == old(state)@,
            ms == s0.market_ids,
            ms.no_duplicates(),
            pairs_unique(s0.active_orders),
            i <= ms.len(),
            state@ == (StateView { active_orders: state@.active_orders, ..s0 }),
            state@.active_orders == s0.active_orders.filter(kept(s0, ms.take(i as int), 0, Seq::empty())),
            book_of(book@, live_in_markets(s0, ms.take(i as int))),
        decreases ms.len() - i,
    {
        let m = markets[i];
        let ghost f0 = kept(s0, ms.take(i as int), 0, Seq::empty());
        proof {
            assert(!ms.take(i as int).contains(m)) by {
                if ms.take(i as int).contains(m) {
                    let j = choose|j: int| 0 <= j < i && #[trigger] ms.take(i as int)[j] == m;
                    assert(ms[j] == ms[i as int]);
                }
            }
            assert forall|x: int| 0 <= x < s0.active_orders.len() && (#[trigger] s0.active_orders[x]).0 == m implies f0(s0.active_orders[x]) by {}
            lemma_active_ids_filter(s0.active_orders, f0, m);
        }
        let ids = state.get_active_orders_by_market(m);
        let ghost qi = live_in_markets(s0, ms.take(i as int));
        proof {
            lemma_active_ids_unique(s0.active_orders, m);
            lemma_filter_ext(s0.active_orders, f0, kept(s0, ms.take(i as int), m, ids@.take(0)));
            assert(ids@.take(0) =~= Seq::<u64>::empty());
            assert(qi + live_among(s0, ids@.take(0)) =~= qi);
        }
        let mut j: usize = 0;
        while j < ids.len()
            invariant
                markets@ == ms,
                s0 == old(state)@,
                ms == s0.market_ids,
                ms.no_duplicates(),
                pairs_unique(s0.active_orders),
                i < ms.len(),
                m == ms[i as int],
                !ms.take(i as int).contains(m),
                ids@ == s0.active_ids(m),
                ids@.no_duplicates(),
                forall|x: u64| #[trigger] ids@.contains(x) ==> s0.active_orders.contains((m, x)),
                qi == live_in_markets(s0, ms.take(i as int)),
                j <= ids@.len(),
                state@ == (StateView { active_orders: state@.active_orders, ..s0 }),
                state@.active_orders == s0.active_orders.filter(kept(s0, ms.take(i as int), m, ids@.take(j as int))),
                book_of(book@, qi + live_among(s0, ids@.take(j as int))),
            decreases ids@.len() - j,
        {
            let id = ids[j];
            let ghost fj = kept(s0, ms.take(i as int), m, ids@.take(j as int));
            let ghost fj1 = kept(s0, ms.take(i as int), m, ids@.take(j + 1));
            let ghost qj = qi + live_among(s0, ids@.take(j as int));
            proof {
                assert(ids@.take(j + 1).drop_last() =~= ids@.take(j as int));
                assert(ids@.take(j + 1).last() == id);
                assert(!ids@.take(j as int).contains(id)) by {
                    if ids@.take(j as int).contains(id) {
                        let x = choose|x: int| 0 <= x < j && #[trigger] ids@.take(j as int)[x] == id;
                        assert(ids@[x] == ids@[j as int]);
                    }
                }
                assert(ids@.contains(id)) by { assert(ids@[j as int] == id); }
            }
            match state.get_order(id) {
                Some(order) => {
                    if order.status == OrderStatus::Active && order.remaining_size > 0 {
                        let total = book.level_total(order.market_id, order.is_buy, order.price);
                        if total > u64::MAX - order.remaining_size {
                            proof {
                                let e = (id, order);
                                let k = level_key(order);
                                assert(live_among(s0, ids@.take(j + 1)) == live_among(s0, ids@.take(j as int)).push(e));
                                let rest_ids = ids@.skip(j + 1);
                                assert(ids@ =~= ids@.take(j + 1) + rest_ids);
                                lemma_live_among_add(s0, ids@.take(j + 1), rest_ids);
                                let rest_ms = ms.skip(i + 1);
                                assert(ms =~= ms.take(i + 1) + rest_ms);
                                lemma_live_in_markets_add(s0, ms.take(i + 1), rest_ms);
                                assert(ms.take(i + 1).drop_last() =~= ms.take(i as int));
                                assert(ms.take(i + 1).last() == m);
                                let all = live_in_markets(s0, ms);
                                let p = qj.push(e);
                                let tail = live_among(s0, rest_ids) + live_in_markets(s0, rest_ms);
                                assert(all =~= p + tail) by {
                                    assert(qj.push(e) =~= qi + live_among(s0, ids@.take(j + 1)));
                                }
                                lemma_level_sum_add(p, tail, k);
                                assert(p.drop_last() =~= qj);
                                if !book@.levels.contains_key(k) {
                                    lemma_level_sum_empty(qj, k);
                                }
                                assert(level_sum(all, k) > u64::MAX);
                            }
                            return Err(EngineError::Overflow);
                        }
                        let ghost before = book@;
                        book.add_order(id, &order);
                        proof {
                            lemma_book_push(before, book@, qj, id, order);
                            assert(live_among(s0, ids@.take(j + 1)) == live_among(s0, ids@.take(j as int)).push((id, order)));
                            assert(qj.push((id, order)) =~= qi + live_among(s0, ids@.take(j + 1)));
                            assert forall|x: int| 0 <= x < s0.active_orders.len() implies fj(#[trigger] s0.active_orders[x]) == fj1(s0.active_orders[x]) by {}
                            lemma_filter_ext(s0.active_orders, fj, fj1);
                        }
                    } else {
                        let ghost before = state@.active_orders;
                        proof {
                            lemma_filter_keeps(s0.active_orders, fj, (m, id));
                        }
                        state.remove_active_order(m, id);
                        proof {
                            let idx = choose|idx: int| 0 <= idx < before.len() && before[idx] == (m, id)
                                && state@ == (StateView { active_orders: before.remove(idx), ..s0 });
                            assert forall|x: (u32, u64)| #[trigger] fj1(x) == (fj(x) && x != (m, id)) by {}
                            lemma_filter_remove(s0.active_orders, fj, fj1, (m, id), idx);
                            assert(live_among(s0, ids@.take(j + 1)) == live_among(s0, ids@.take(j as int)));
                        }
                    }
                },
                None => {
                    proof {
                        assert forall|x: int| 0 <= x < s0.active_orders.len() implies fj(#[trigger] s0.active_orders[x]) == fj1(s0.active_orders[x]) by {}
                        lemma_filter_ext(s0.active_orders, fj, fj1);
                        assert(live_among(s0, ids@.take(j + 1)) == live_among(s0, ids@.take(j as int)));
                    }
                },
            }
            j += 1;
        }
        proof {
            assert(ids@.take(j as int) =~= ids@);
            assert(ms.take(i + 1).drop_last() =~= ms.take(i as int));
            assert(ms.take(i + 1).last() == m);
            let fa = kept(s0, ms.take(i as int), m, ids@);
            let fb = kept(s0, ms.take(i + 1), 0, Seq::empty());
            assert forall|x: int| 0 <= x < s0.active_orders.len() implies fa(#[trigger] s0.active_orders[x]) == fb(s0.active_orders[x]) by {
                let p = s0.active_orders[x];
                assert(ms.take(i + 1).contains(p.0) == (ms.take(i as int).contains(p.0) || p.0 == m)) by {
                    if p.0 == m { assert(ms.take(i + 1)[i as int] == m); }
                    if ms.take(i + 1).contains(p.0) {
                        let y = choose|y: int| 0 <= y < i + 1 && #[trigger] ms.take(i + 1)[y] == p.0;
                        if y < i { assert(ms.take(i as int)[y] == p.0); }
                    }
                    if ms.take(i as int).contains(p.0) {
                        let y = choose|y: int| 0 <= y < i && #[trigger] ms.take(i as int)[y] == p.0;
                        assert(ms.take(i + 1)[y] == p.0);
                    }
                }
                if p.0 == m {
                    assert(s0.active_orders.contains(p));
                    lemma_active_ids_has(s0.active_orders, m, p.1);
                }
            }
            lemma_filter_ext(s0.active_orders, fa, fb);
        }
        i += 1;
    }
    proof {
        assert(ms.take(i as int) =~= ms);
        let q = live_in_markets(s0, ms);
        assert(!level_overflows(q)) by {
            assert forall|k: LevelKey| !(level_sum(q, k) > u64::MAX) by {
                if !book@.levels.contains_key(k) {
                    lemma_level_sum_empty(q, k);
                }
            }
        }
        lemma_filter_ext(s0.active_orders, kept(s0, ms, 0, Seq::empty()),
            |p: (u32, u64)| !(ms.contains(p.0) && stale_order(s0, p.1)));
    }
    Ok(book)
}

proof fn lemma_filter_true(s: Seq<(u32, u64)>)
    ensures
        s.filter(|p: (u32, u64)| true) == s,
    decreases s.len(),
{
    reveal_with_fuel(Seq::filter, 1);
    if s.len() > 0 {
        lemma_filter_true(s.drop_last());
        assert(s.drop_last().push(s.last()) =~= s);
    }
}

} // verus!
