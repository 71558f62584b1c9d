//! Order lifecycle: placement (validation, risk check, matching, position
//! updates, resting or cancelling the remainder), cancellation and closing
//! positions with reduce-only market orders.
use vstd::prelude::*;
use crate::error::EngineError;
use crate::events::{Event, ServiceContext};
use crate::orderbook::{BookView, Fill, OrderbookManager, crosses, fill_of, total_filled, only_orders_changed, within_limit, better_or_equal, queue_positions, level_exhausted, tradable, opposing_key};
use crate::position::{PositionChange, PositionManager, position_after_fill};
use crate::risk::{MarginMode, RiskEngine, order_check_spec};
use crate::state::{StateManager, StateView};
use crate::types::{Address, CancelOrderTx, ClosePositionTx, Market, Order, OrderStatus, OrderType, PlaceOrderTx, TimeInForce, on_tick};

verus! {

/// Positions keyed by `(trader, market_id)`.
pub type PositionMap = Map<(Address, u32), crate::types::Position>;

/// Position of `t` in market `m` in a position map.
pub open spec fn pos_get(p: PositionMap, t: Address, m: u32) -> Option<crate::types::Position> {
    if p.contains_key((t, m)) { Some(p[(t, m)]) } else { None }
}

/// Apply a position change to a position map.
pub open spec fn apply_change(p: PositionMap, t: Address, m: u32, c: PositionChange) -> PositionMap {
    match c {
        PositionChange::Fail(_) => p,
        PositionChange::Close => p.remove((t, m)),
        PositionChange::Store(x) => p.insert((t, m), x),
    }
}

/// Positions after one fill: the taker's side first, then the maker's.
pub open spec fn positions_after_fill(p: PositionMap, f: Fill, initial_margin_bps: u32) -> Result<PositionMap, EngineError> {
    let c1 = position_after_fill(pos_get(p, f.taker, f.market_id), f.size, f.price, f.taker_is_buy, initial_margin_bps);
    match c1 {
        PositionChange::Fail(e) => Err(e),
        _ => {
            let p1 = apply_change(p, f.taker, f.market_id, c1);
            let c2 = position_after_fill(pos_get(p1, f.maker, f.market_id), f.size, f.price, !f.taker_is_buy, initial_margin_bps);
            match c2 {
                PositionChange::Fail(e) => Err(e),
                _ => Ok(apply_change(p1, f.maker, f.market_id, c2)),
            }
        },
    }
}

/// Positions after a sequence of fills, in order.
pub open spec fn positions_after_fills(p: PositionMap, fills: Seq<Fill>, initial_margin_bps: u32) -> Result<PositionMap, EngineError>
    decreases fills.len(),
{
    if fills.len() == 0 {
        Ok(p)
    } else {
        match positions_after_fills(p, fills.drop_last(), initial_margin_bps) {
            Err(e) => Err(e),
            Ok(q) => positions_after_fill(q, fills.last(), initial_margin_bps),
        }
    }
}

/// The event recording a fill.
pub open spec fn fill_event(f: Fill) -> Event {
    Event::OrderFilled {
        maker_order_id: f.maker_order_id,
        taker_order_id: f.taker_order_id,
        maker: f.maker,
        taker: f.taker,
        market_id: f.market_id,
        price: f.price,
        size: f.size,
        taker_is_buy: f.taker_is_buy,
        maker_fee: 0,
        taker_fee: 0,
    }
}

/// Result of the checks made before an order is matched.
pub open spec fn placement_check(s: StateView, trader: Address, req: PlaceOrderTx) -> Result<(), EngineError> {
    match s.market(req.market_id) {
        None => Err(EngineError::MarketNotFound),
        Some(market) => {
            if req.price > 0 && !on_tick(market.tick_size, req.price) {
                Err(EngineError::InvalidTickPrice { price: req.price, tick_size: market.tick_size })
            } else if req.size < market.min_order_size {
                Err(EngineError::OrderBelowMinimum { size: req.size, min_size: market.min_order_size })
            } else if req.size > market.max_order_size {
                Err(EngineError::OrderAboveMaximum { size: req.size, max_size: market.max_order_size })
            } else {
                order_check_spec(s, trader, req)
            }
        },
    }
}

/// The order that a request creates before matching.
pub open spec fn new_order(s: StateView, trader: Address, req: PlaceOrderTx) -> Order {
    Order {
        id: s.next_order_id,
        market_id: req.market_id,
        owner: trader,
        is_buy: req.is_buy,
        price: req.price,
        original_size: req.size,
        remaining_size: req.size,
        status: OrderStatus::Active,
        created_at: s.version,
        reduce_only: req.reduce_only,
        post_only: req.post_only,
    }
}

/// Partial sums of fill sizes never exceed the whole sum.
pub proof fn lemma_total_filled_prefix(fills: Seq<Fill>, i: int)
    requires
        0 <= i <= fills.len(),
    ensures
        total_filled(fills.take(i)) <= total_filled(fills),
        i < fills.len() ==> total_filled(fills.take(i + 1)) == total_filled(fills.take(i)) + fills[i].size,
    decreases fills.len() - i,
{
    if i < fills.len() {
        assert(fills.take(i + 1).drop_last() =~= fills.take(i));
        lemma_total_filled_prefix(fills, i + 1);
    } else {
        assert(fills.take(i) =~= fills);
    }
}

/// Order service: order lifecycle.
#[derive(Debug, Clone, Copy, Default)]
pub struct OrderService;

/// Position service: closing positions.
#[derive(Debug, Clone, Copy, Default)]
pub struct PositionService;

/// Only positions, orders, the active-order list and the order counter
/// differ between two states.
pub open spec fn only_trading_changed(a: StateView, b: StateView) -> bool {
    b == (StateView { positions: b.positions, orders: b.orders, active_orders: b.active_orders, next_order_id: b.next_order_id, ..a })
}

/// A position error on some first fills is the error of all of them.
proof fn lemma_positions_error_kept(p: PositionMap, fills: Seq<Fill>, k: int, imb: u32, e: EngineError)
    requires
        0 <= k <= fills.len(),
        positions_after_fills(p, fills.take(k), imb) == Err::<PositionMap, EngineError>(e),
    ensures
        positions_after_fills(p, fills, imb) == Err::<PositionMap, EngineError>(e),
    decreases fills.len() - k,
{
    if k == fills.len() {
        assert(fills.take(k) =~= fills);
    } else {
        assert(fills.take(k + 1).drop_last() =~= fills.take(k));
        lemma_positions_error_kept(p, fills, k + 1, imb, e);
    }
}

/// The state in which an order is matched: the order counter has moved on.
pub open spec fn with_id_taken(s: StateView) -> StateView {
    StateView { next_order_id: (s.next_order_id + 1) as u64, ..s }
}

/// Status of a placed order with `rem` left under time in force `tif`.
pub open spec fn placed_status(rem: nat, tif: TimeInForce) -> OrderStatus {
    if rem == 0 {
        OrderStatus::Filled
    } else if tif == TimeInForce::GTC || tif == TimeInForce::PostOnly {
        OrderStatus::Active
    } else {
        OrderStatus::Cancelled
    }
}

/// What placing does once matching made `fills`, leaving state `sm` and book
/// `bm`: both sides' positions follow the fills (a position error is the
/// result); a fill-or-kill order that cannot be filled completely fails and
/// leaves everything as it was (but the order counter); otherwise the
/// order is stored with what is left, and rests at the back of its price
/// level when it is good-till-cancelled or post-only and not complete.
pub open spec fn placed_after_match(s0: StateView, c0: Seq<Event>, b0: BookView, trader: Address, req: PlaceOrderTx, fills: Seq<Fill>, sm: StateView, bm: BookView, r: Result<u64, EngineError>, s1: StateView, c1: Seq<Event>, b1: BookView) -> bool {
    let imb = s0.market(req.market_id).unwrap().initial_margin_bps;
    let id = s0.next_order_id;
    let o0 = new_order(s0, trader, req);
    let rem = (req.size - total_filled(fills)) as nat;
    let done = c0 + fills.map_values(|f: Fill| fill_event(f)) + seq![Event::OrderPlaced { order_id: id, owner: trader,
        market_id: req.market_id, is_buy: req.is_buy, price: req.price, size: req.size, order_type: req.order_type }];
    let o = Order { remaining_size: rem as u64, status: placed_status(rem, req.time_in_force), ..o0 };
    if rem > 0 && req.time_in_force == TimeInForce::FOK {
        &&& r == Err::<u64, EngineError>(EngineError::OrderNotFilled)
        &&& s1 == with_id_taken(s0)
        &&& crate::orderbook::same_book(b1, b0)
        &&& c1 == c0
    } else {
    match positions_after_fills(s0.positions, fills, imb) {
        Err(e) => r == Err::<u64, EngineError>(e),
        Ok(ps) => {
            {
                &&& r == Ok::<u64, EngineError>(id)
                &&& c1 == done
                &&& s1.positions == ps
                &&& s1.orders == sm.orders.insert(id, o)
                &&& if rem > 0 && (req.time_in_force == TimeInForce::GTC || req.time_in_force == TimeInForce::PostOnly) {
                        &&& s1 == (StateView { positions: ps, orders: sm.orders.insert(id, o),
                            active_orders: if sm.active_orders.contains((req.market_id, id)) { sm.active_orders }
                                else { sm.active_orders.push((req.market_id, id)) }, ..sm })
                        &&& crate::orderbook::book_after_add(bm, b1, id, o)
                    } else {
                        &&& s1 == (StateView { positions: ps, orders: sm.orders.insert(id, o), ..sm })
                        &&& b1 == bm
                    }
            }
        },
    }
    }
}

/// What placing an order of `trader` does, under margin mode `mode`.
pub open spec fn place_order_outcome(mode: MarginMode, s0: StateView, c0: Seq<Event>, b0: BookView, trader: Address, order_request: PlaceOrderTx, r: Result<u64, EngineError>, s1: StateView, c1: Seq<Event>, b1: BookView) -> bool {
    &&& only_trading_changed(s0, s1)
    &&& (mode == MarginMode::Cross ==> r is Err)
    &&& (mode == MarginMode::Isolated && placement_check(s0, trader, order_request) is Err ==>
            r == Err::<u64, EngineError>(placement_check(s0, trader, order_request)->Err_0)
            && s1 == s0 && c1 == c0 && b1 == b0)
    &&& (mode == MarginMode::Isolated && placement_check(s0, trader, order_request) is Ok
            && s0.next_order_id == u64::MAX ==> r == Err::<u64, EngineError>(EngineError::Overflow)
            && s1 == s0 && c1 == c0 && b1 == b0)
    &&& (mode == MarginMode::Isolated && placement_check(s0, trader, order_request) is Ok
            && s0.next_order_id < u64::MAX && order_request.post_only
            && crosses(b0, new_order(s0, trader, order_request))
            ==> r == Err::<u64, EngineError>(EngineError::PostOnlyWouldTake) && c1 == c0
            && b1 == b0 && s1 == (StateView { next_order_id: (s0.next_order_id + 1) as u64, ..s0 }))
    &&& (mode == MarginMode::Isolated && placement_check(s0, trader, order_request) is Ok
            && s0.next_order_id < u64::MAX && !(order_request.post_only && crosses(b0, new_order(s0, trader, order_request)))
            && r is Err ==> (r == Err::<u64, EngineError>(EngineError::OrderNotFilled) && order_request.time_in_force == TimeInForce::FOK)
                || (exists|fills: Seq<Fill>| #![trigger positions_after_fills(s0.positions, fills, s0.market(order_request.market_id).unwrap().initial_margin_bps)]
                    positions_after_fills(s0.positions, fills, s0.market(order_request.market_id).unwrap().initial_margin_bps)
                        == Err::<PositionMap, EngineError>(r->Err_0)))
    &&& (mode == MarginMode::Isolated && placement_check(s0, trader, order_request) is Ok
            && s0.next_order_id < u64::MAX && !(order_request.post_only && crosses(b0, new_order(s0, trader, order_request)))
            ==> exists|fills: Seq<Fill>, sm: StateView, bm: BookView|
                #[trigger] crate::orderbook::matched(b0, with_id_taken(s0), new_order(s0, trader, order_request), fills, sm, bm)
                && placed_after_match(s0, c0, b0, trader, order_request, fills, sm, bm, r, s1, c1, b1))
    &&& (r matches Ok(id) ==> ({
            let o = s1.order(id).unwrap();
            let o0 = new_order(s0, trader, order_request);
            &&& placement_check(s0, trader, order_request) is Ok
            &&& id == s0.next_order_id
            &&& s1.next_order_id == id + 1
            &&& s1.order(id) is Some
            &&& o == (Order { remaining_size: o.remaining_size, status: o.status, ..o0 })
            &&& o.remaining_size <= order_request.size
            &&& o.remaining_size == 0 ==> o.status == OrderStatus::Filled
            &&& o.remaining_size > 0 ==> order_request.time_in_force != TimeInForce::FOK
            &&& o.remaining_size > 0 && (order_request.time_in_force == TimeInForce::GTC || order_request.time_in_force == TimeInForce::PostOnly)
                ==> o.status == OrderStatus::Active && s1.active_orders.contains((order_request.market_id, id))
                    && b1.orders.contains_key(id)
            &&& o.remaining_size > 0 && order_request.time_in_force == TimeInForce::IOC ==> o.status == OrderStatus::Cancelled
            &&& s1.balances == s0.balances
            &&& o.remaining_size > 0 ==> forall|p: u64| within_limit(o0, p) ==> #[trigger] level_exhausted(b1, s1, o0, p)
            &&& exists|fills: Seq<Fill>| #![trigger total_filled(fills)]
                total_filled(fills) == order_request.size - o.remaining_size
                && (forall|i: int| 0 <= i < fills.len() ==> fill_of(#[trigger] fills[i], o0))
                && (forall|i: int, j: int| 0 <= i < j < fills.len()
                    ==> better_or_equal(!order_request.is_buy, #[trigger] fills[i].price, #[trigger] fills[j].price))
                && (exists|pos: Seq<int>| #[trigger] queue_positions(b0, o0, fills, pos))
                && c1 == c0 + fills.map_values(|f: Fill| fill_event(f)) + seq![Event::OrderPlaced { order_id: id, owner: trader,
                    market_id: order_request.market_id, is_buy: order_request.is_buy, price: order_request.price,
                    size: order_request.size, order_type: order_request.order_type }]
                && positions_after_fills(s0.positions, fills,
                    s0.market(order_request.market_id).unwrap().initial_margin_bps) == Ok::<PositionMap, EngineError>(s1.positions)
        }))
}

/// What cancelling an order of `trader` does.
pub open spec fn cancel_order_outcome(s0: StateView, c0: Seq<Event>, b0: BookView, trader: Address, cancel: CancelOrderTx, r: Result<(), EngineError>, s1: StateView, c1: Seq<Event>, b1: BookView) -> bool {
    let s = s0;
    let id = cancel.order_id;
    let o = s.order(id).unwrap();
    &&& s.order(id) is None ==> r == Err::<(), EngineError>(EngineError::OrderNotFound)
        && s1 == s && c1 == c0 && b1 == b0
    &&& s.order(id) is Some && o.owner != trader ==> r == Err::<(), EngineError>(EngineError::Unauthorized)
        && s1 == s && c1 == c0 && b1 == b0
    &&& s.order(id) is Some && o.owner == trader && o.status != OrderStatus::Active
        ==> r == Err::<(), EngineError>(EngineError::OrderNotFound)
        && s1 == s && c1 == c0 && b1 == b0
    &&& s.order(id) is Some && o.owner == trader && o.status == OrderStatus::Active ==> {
        &&& r is Ok
        &&& s1.orders == s.orders.insert(id, Order { status: OrderStatus::Cancelled, ..o })
        &&& !s1.active_orders.contains((o.market_id, id))
        &&& only_orders_changed(s, s1)
        &&& !b1.orders.contains_key(id)
        &&& c1 == c0.push(Event::OrderCancelled { order_id: id, owner: trader,
            market_id: o.market_id, remaining_size: o.remaining_size })
    }
}

/// What closing (part of) a position of `trader` does, under margin mode `mode`.
pub open spec fn close_position_outcome(mode: MarginMode, s0: StateView, c0: Seq<Event>, b0: BookView, trader: Address, close: ClosePositionTx, r: Result<(), EngineError>, s1: StateView, c1: Seq<Event>, b1: BookView) -> bool {
    &&& only_trading_changed(s0, s1)
    &&& (s0.position(trader, close.market_id) is None ==> r == Err::<(), EngineError>(EngineError::PositionNotFound)
            && s1 == s0 && c1 == c0 && b1 == b0)
    &&& (s0.position(trader, close.market_id) matches Some(p) ==> exists|rp: Result<u64, EngineError>|
            #[trigger] place_order_outcome(mode, s0, c0, b0, trader, close_request(p, close), rp, s1, c1, b1)
            && r == match rp { Ok(_) => Ok::<(), EngineError>(()), Err(e) => Err(e) })
    &&& (s0.position(trader, close.market_id) matches Some(p) ==> ({
            let req = close_request(p, close);
            &&& mode == MarginMode::Isolated && placement_check(s0, trader, req) is Err ==>
                r == Err::<(), EngineError>(placement_check(s0, trader, req)->Err_0)
                && s1 == s0 && c1 == c0 && b1 == b0
            &&& r is Ok ==> s1.balances == s0.balances
                && exists|fills: Seq<Fill>| #![trigger total_filled(fills)]
                    total_filled(fills) <= req.size
                    && (forall|i: int| 0 <= i < fills.len() ==> fill_of(#[trigger] fills[i], new_order(s0, trader, req)))
                    && positions_after_fills(s0.positions, fills,
                        s0.market(close.market_id).unwrap().initial_margin_bps) == Ok::<PositionMap, EngineError>(s1.positions)
        }))
}

impl OrderService {
    /// Apply one fill to both parties' positions and record it.
    fn process_fill(
        &self,
        state: &mut StateManager,
        ctx: &mut ServiceContext,
        position_mgr: &mut PositionManager,
        fill: &Fill,
        market: &Market,
    ) -> (r: Result<(), EngineError>)
        ensures
            final(state)@ == (StateView { positions: final(state)@.positions, ..old(state)@ }),
            positions_after_fill(old(state)@.positions, *fill, market.initial_margin_bps) matches Ok(p) ==>
                r is Ok && final(state)@.positions == p && final(ctx)@ == old(ctx)@.push(fill_event(*fill)),
            positions_after_fill(old(state)@.positions, *fill, market.initial_margin_bps) matches Err(e) ==>
                r == Err::<(), EngineError>(e) && final(ctx)@ == old(ctx)@,
    {
        position_mgr.update_position(state, fill.taker, fill.market_id, fill.size, fill.price, fill.taker_is_buy, market.initial_margin_bps)?;
        position_mgr.update_position(state, fill.maker, fill.market_id, fill.size, fill.price, !fill.taker_is_buy, market.initial_margin_bps)?;
        ctx.emit(Event::OrderFilled {
            maker_order_id: fill.maker_order_id,
            taker_order_id: fill.taker_order_id,
            maker: fill.maker,
            taker: fill.taker,
            market_id: fill.market_id,
            price: fill.price,
            size: fill.size,
            taker_is_buy: fill.taker_is_buy,
            maker_fee: 0,
            taker_fee: 0,
        });
        Ok(())
    }

    /// Place an order: validate it against its market, check margin, match
    /// it against the book (a fill-or-kill order that cannot be filled
    /// completely fails, and its matching is undone), update the positions of
    /// both sides of every fill, then rest the remainder (GTC and post-only)
    /// or cancel it (IOC). Returns the new order's id.
    pub fn place_order(
        &self,
        state: &mut StateManager,
        ctx: &mut ServiceContext,
        orderbook: &mut OrderbookManager,
        position_mgr: &mut PositionManager,
        risk: &RiskEngine,
        trader: Address,
        order_request: &PlaceOrderTx,
    ) -> (r: Result<u64, EngineError>)
        requires
            (order_request.time_in_force == TimeInForce::GTC || order_request.time_in_force == TimeInForce::PostOnly)
                && old(orderbook)@.levels.contains_key((order_request.market_id, order_request.is_buy, order_request.price))
                ==> old(orderbook)@.levels[(order_request.market_id, order_request.is_buy, order_request.price)].total_size
                    + order_request.size <= u64::MAX,
        ensures
            place_order_outcome(risk.mode(), old(state)@, old(ctx)@, old(orderbook)@, trader, *order_request, r, final(state)@, final(ctx)@, final(orderbook)@),
    {
        let market = match state.get_market(order_request.market_id) {
            Some(m) => m,
            None => { return Err(EngineError::MarketNotFound); },
        };
        if order_request.price > 0 && !market.validate_price(order_request.price) {
            return Err(EngineError::InvalidTickPrice { price: order_request.price, tick_size: market.tick_size });
        }
        if order_request.size < market.min_order_size {
            return Err(EngineError::OrderBelowMinimum { size: order_request.size, min_size: market.min_order_size });
        }
        if order_request.size > market.max_order_size {
            return Err(EngineError::OrderAboveMaximum { size: order_request.size, max_size: market.max_order_size });
        }
        risk.check_order_allowed(state, trader, order_request)?;
        let ghost s0 = state@;
        proof {
            assert(risk.mode() == MarginMode::Isolated);
            assert(placement_check(s0, trader, *order_request) is Ok);
        }
        let order_id = state.next_order_id()?;
        let order = Order {
            id: order_id,
            market_id: order_request.market_id,
            owner: trader,
            is_buy: order_request.is_buy,
            price: order_request.price,
            original_size: order_request.size,
            remaining_size: order_request.size,
            status: OrderStatus::Active,
            created_at: state.version(),
            reduce_only: order_request.reduce_only,
            post_only: order_request.post_only,
        };
        proof { assert(order == new_order(s0, trader, *order_request)); }
        let ghost book0 = orderbook@;
        let ghost s_id = state@;
        proof { assert(s_id == with_id_taken(s0)); }
        let fok = match order_request.time_in_force { TimeInForce::FOK => true, _ => false };
        let saved = if fok { Some((state.save_orders(), orderbook.copy_book())) } else { None };
        let fills = orderbook.match_order(state, &order, &market)?;
        let ghost s1 = state@;
        let ghost book1 = orderbook@;
        let mut filled: u64 = 0;
        let mut t: usize = 0;
        while t < fills.len()
            invariant
                t <= fills@.len(),
                total_filled(fills@) <= order.remaining_size,
                filled == total_filled(fills@.take(t as int)),
            decreases fills@.len() - t,
        {
            proof {
                lemma_total_filled_prefix(fills@, t as int);
                lemma_total_filled_prefix(fills@, t as int + 1);
            }
            filled = filled + fills[t].size;
            t += 1;
        }
        proof { assert(fills@.take(t as int) =~= fills@); }
        if fok && filled < order.remaining_size {
            match saved {
                Some((records, book)) => {
                    state.restore_orders(records);
                    *orderbook = book;
                },
                None => {},
            }
            proof {
                assert(state@ == with_id_taken(s0));
                assert(placed_after_match(s0, old(ctx)@, book0, trader, *order_request, fills@, s1, book1, Err(EngineError::OrderNotFilled),
                    state@, ctx@, orderbook@));
            }
            return Err(EngineError::OrderNotFilled);
        }
        let mut total_filled_size: u64 = 0;
        let mut i: usize = 0;
        while i < fills.len()
            invariant
                i <= fills@.len(),
                total_filled(fills@) <= order.remaining_size,
                total_filled_size == total_filled(fills@.take(i as int)),
                state@ == (StateView { positions: state@.positions, ..s1 }),
                positions_after_fills(s0.positions, fills@.take(i as int), market.initial_margin_bps)
                    == Ok::<PositionMap, EngineError>(state@.positions),
                s1.positions == s0.positions,
                only_trading_changed(s0, s1),
                s0 == old(state)@,
                book0 == old(orderbook)@,
                ctx@ == old(ctx)@ + fills@.take(i as int).map_values(|f: Fill| fill_event(f)),
                s0.market(order_request.market_id) == Some(market),
                (order_request.time_in_force == TimeInForce::GTC || order_request.time_in_force == TimeInForce::PostOnly)
                    && book0.levels.contains_key((order_request.market_id, order_request.is_buy, order_request.price))
                    ==> book0.levels[(order_request.market_id, order_request.is_buy, order_request.price)].total_size
                        + order_request.size <= u64::MAX,
                risk.mode() == MarginMode::Isolated,
                placement_check(s0, trader, *order_request) is Ok,
                s0.next_order_id < u64::MAX,
                !(order_request.post_only && crosses(old(orderbook)@, new_order(s0, trader, *order_request))),
                crate::orderbook::matched(book0, with_id_taken(s0), order, fills@, s1, book1),
                orderbook@ == book1,
                order == new_order(s0, trader, *order_request),
                fok == (order_request.time_in_force == TimeInForce::FOK),
                !(fok && total_filled(fills@) < order.remaining_size),
            decreases fills@.len() - i,
        {
            proof {
                lemma_total_filled_prefix(fills@, i as int);
                lemma_total_filled_prefix(fills@, i as int + 1);
                assert(fills@.take(i + 1).drop_last() =~= fills@.take(i as int));
                assert(fills@.take(i + 1).last() == fills@[i as int]);
            }
            match self.process_fill(state, ctx, position_mgr, &fills[i], &market) {
                Ok(()) => {},
                Err(e) => {
                    proof {
                        assert(s0.market(order_request.market_id).unwrap().initial_margin_bps == market.initial_margin_bps);
                        assert(positions_after_fills(s0.positions, fills@.take(i + 1), market.initial_margin_bps)
                            == Err::<PositionMap, EngineError>(e));
                        lemma_positions_error_kept(s0.positions, fills@, i + 1, market.initial_margin_bps, e);
                        assert(placed_after_match(s0, old(ctx)@, book0, trader, *order_request, fills@, s1, book1, Err(e), state@, ctx@, orderbook@));
                    }
                    return Err(e);
                },
            }
            total_filled_size = total_filled_size + fills[i].size;
            i += 1;
        }
        proof { assert(fills@.take(i as int) =~= fills@); }
        let mut updated_order = order;
        updated_order.remaining_size = order.remaining_size - total_filled_size;
        ctx.emit(Event::OrderPlaced {
            order_id,
            owner: trader,
            market_id: order_request.market_id,
            is_buy: order_request.is_buy,
            price: order_request.price,
            size: order_request.size,
            order_type: order_request.order_type,
        });
        if updated_order.remaining_size == 0 {
            updated_order.status = OrderStatus::Filled;
            state.set_order(order_id, updated_order);
        } else {
            match order_request.time_in_force {
                TimeInForce::GTC | TimeInForce::PostOnly => {
                    updated_order.status = OrderStatus::Active;
                    state.set_order(order_id, updated_order);
                    let ghost before_add = state@.active_orders;
                    state.add_active_order(order_request.market_id, order_id);
                    proof {
                        if !before_add.contains((order_request.market_id, order_id)) {
                            assert(state@.active_orders[state@.active_orders.len() - 1] == (order_request.market_id, order_id));
                        }
                        assert(state@.active_orders.contains((order_request.market_id, order_id)));
                        assert(book0.levels.contains_key((order.market_id, order.is_buy, order.price)) ==>
                            orderbook@.levels[(order.market_id, order.is_buy, order.price)] == book0.levels[(order.market_id, order.is_buy, order.price)]);
                    }
                    orderbook.add_order(order_id, &updated_order);
                },
                _ => {
                    updated_order.status = OrderStatus::Cancelled;
                    state.set_order(order_id, updated_order);
                },
            }
        }
        proof {
            let fs = fills@;
            assert(total_filled(fs) == order_request.size - updated_order.remaining_size);
            assert(forall|j: int| 0 <= j < fs.len() ==> fill_of(#[trigger] fs[j], new_order(s0, trader, *order_request)));
            assert(s0.market(order_request.market_id).unwrap().initial_margin_bps == market.initial_margin_bps);
            assert(state@.order(order_id) == Some(updated_order));
            assert(ctx@ =~= old(ctx)@ + fs.map_values(|f: Fill| fill_event(f)) + seq![Event::OrderPlaced { order_id, owner: trader,
                market_id: order_request.market_id, is_buy: order_request.is_buy, price: order_request.price,
                size: order_request.size, order_type: order_request.order_type }]);
            assert(updated_order == (Order { remaining_size: (order_request.size - total_filled(fs)) as u64,
                status: placed_status((order_request.size - total_filled(fs)) as nat, order_request.time_in_force), ..order }));
            assert(placed_after_match(s0, old(ctx)@, book0, trader, *order_request, fs, s1, book1, Ok(order_id), state@, ctx@, orderbook@));
            if updated_order.remaining_size > 0 {
                assert forall|p: u64| within_limit(order, p) implies #[trigger] level_exhausted(orderbook@, state@, order, p) by {
                    assert(level_exhausted(book1, s1, order, p));
                    let kp = opposing_key(order, p);
                    if orderbook@.levels.contains_key(kp) {
                        assert(book1.levels.contains_key(kp));
                        assert(orderbook@.levels[kp] == book1.levels[kp]);
                        assert forall|j: int| 0 <= j < orderbook@.levels[kp].orders@.len()
                            implies !tradable(state@, order, #[trigger] orderbook@.levels[kp].orders@[j]) by {
                            let x = orderbook@.levels[kp].orders@[j];
                            assert(x == book1.levels[kp].orders@[j]);
                            assert(!tradable(s1, order, x));
                            if x != order_id {
                                assert(state@.order(x) == s1.order(x));
                            }
                        }
                    }
                }
            }
        }
        Ok(order_id)
    }

    /// Cancel an active order of `trader`.
    pub fn cancel_order(
        &self,
        state: &mut StateManager,
        ctx: &mut ServiceContext,
        orderbook: &mut OrderbookManager,
        trader: Address,
        cancel: &CancelOrderTx,
    ) -> (r: Result<(), EngineError>)
        ensures
            cancel_order_outcome(old(state)@, old(ctx)@, old(orderbook)@, trader, *cancel, r, final(state)@, final(ctx)@, final(orderbook)@),
    {
        let mut order = match state.get_order(cancel.order_id) {
            Some(o) => o,
            None => { return Err(EngineError::OrderNotFound); },
        };
        if order.owner != trader {
            return Err(EngineError::Unauthorized);
        }
        if order.status != OrderStatus::Active {
            return Err(EngineError::OrderNotFound);
        }
        orderbook.remove_order(cancel.order_id, &order);
        order.status = OrderStatus::Cancelled;
        state.set_order(cancel.order_id, order);
        state.remove_active_order(order.market_id, cancel.order_id);
        ctx.emit(Event::OrderCancelled {
            order_id: cancel.order_id,
            owner: trader,
            market_id: order.market_id,
            remaining_size: order.remaining_size,
        });
        Ok(())
    }
}

/// The reduce-only IOC market order that closes (part of) a position.
pub open spec fn close_request(p: crate::types::Position, close: ClosePositionTx) -> PlaceOrderTx {
    PlaceOrderTx {
        market_id: close.market_id,
        is_buy: !p.is_long,
        order_type: OrderType::Market,
        price: 0,
        size: if close.size == 0 { p.size } else if close.size <= p.size { close.size } else { p.size },
        time_in_force: TimeInForce::IOC,
        reduce_only: true,
        post_only: false,
    }
}

impl PositionService {
    /// Close (part of) a position with a reduce-only IOC market order on the
    /// opposite side; a size of zero closes the whole position.
    pub fn close_position(
        &self,
        state: &mut StateManager,
        ctx: &mut ServiceContext,
        orderbook: &mut OrderbookManager,
        position_mgr: &mut PositionManager,
        risk: &RiskEngine,
        order_service: &OrderService,
        trader: Address,
        close: &ClosePositionTx,
    ) -> (r: Result<(), EngineError>)
        ensures
            close_position_outcome(risk.mode(), old(state)@, old(ctx)@, old(orderbook)@, trader, *close, r, final(state)@, final(ctx)@, final(orderbook)@),
    {
        let position = match state.get_position(trader, close.market_id) {
            Some(p) => p,
            None => { return Err(EngineError::PositionNotFound); },
        };
        let size_to_close = if close.size == 0 {
            position.size
        } else if close.size <= position.size {
            close.size
        } else {
            position.size
        };
        let close_order = PlaceOrderTx {
            market_id: close.market_id,
            is_buy: !position.is_long,
            order_type: OrderType::Market,
            price: 0,
            size: size_to_close,
            time_in_force: TimeInForce::IOC,
            reduce_only: true,
            post_only: false,
        };
        proof { assert(close_order == close_request(position, *close)); }
        let placed = order_service.place_order(state, ctx, orderbook, position_mgr, risk, trader, &close_order);
        match placed {
            Ok(_) => Ok(()),
            Err(e) => Err(e),
        }
    }
}

} // verus!
