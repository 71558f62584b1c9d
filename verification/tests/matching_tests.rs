use pranklin::engine::Engine;
use pranklin::state::StateManager;
use pranklin::types::{Address, Market, OrderStatus, OrderType, PlaceOrderTx, TimeInForce};

fn market() -> Market {
    Market {
        id: 0,
        symbol: "BTC-PERP".to_string(),
        base_asset_id: 1,
        quote_asset_id: 0,
        tick_size: 1000,
        price_decimals: 2,
        size_decimals: 6,
        min_order_size: 1,
        max_order_size: 1_000_000_000,
        max_leverage: 20,
        initial_margin_bps: 1000,
        maintenance_margin_bps: 500,
        liquidation_fee_bps: 100,
        funding_interval: 3600,
        max_funding_rate_bps: 100,
    }
}

fn limit(is_buy: bool, price: u64, size: u64) -> PlaceOrderTx {
    PlaceOrderTx {
        market_id: 0,
        is_buy,
        order_type: OrderType::Limit,
        price,
        size,
        time_in_force: TimeInForce::GTC,
        reduce_only: false,
        post_only: false,
    }
}

fn engine_with(traders: &[Address]) -> Engine {
    let mut engine = Engine::new(StateManager::new());
    engine.state_mut().set_market(0, market());
    for t in traders {
        engine.state_mut().set_balance(*t, 0, 1_000_000_000);
    }
    engine
}

#[test]
fn test_time_priority_within_a_price() {
    let a = Address::with_last_byte(1);
    let b = Address::with_last_byte(2);
    let taker = Address::with_last_byte(3);
    let mut engine = engine_with(&[a, b, taker]);
    let first = engine.process_place_order(a, &limit(false, 50_000, 10)).unwrap();
    let second = engine.process_place_order(b, &limit(false, 50_000, 10)).unwrap();

    engine.process_place_order(taker, &limit(true, 50_000, 15)).unwrap();

    let o1 = engine.state().get_order(first).unwrap();
    let o2 = engine.state().get_order(second).unwrap();
    assert_eq!(o1.remaining_size, 0);
    assert_eq!(o1.status, OrderStatus::Filled);
    assert_eq!(o2.remaining_size, 5);
    assert_eq!(engine.get_orderbook_depth(0, 10).1, vec![(50_000, 5)]);
}

#[test]
fn test_price_priority_and_no_crossed_rest() {
    let a = Address::with_last_byte(1);
    let b = Address::with_last_byte(2);
    let taker = Address::with_last_byte(3);
    let mut engine = engine_with(&[a, b, taker]);
    let worse = engine.process_place_order(a, &limit(false, 52_000, 10)).unwrap();
    let better = engine.process_place_order(b, &limit(false, 51_000, 10)).unwrap();

    // The buyer takes the cheaper ask first, then rests what is left below the dearer one.
    let bid = engine.process_place_order(taker, &limit(true, 51_000, 15)).unwrap();

    assert_eq!(engine.state().get_order(better).unwrap().remaining_size, 0);
    assert_eq!(engine.state().get_order(worse).unwrap().remaining_size, 10);
    assert_eq!(engine.state().get_order(bid).unwrap().remaining_size, 5);
    let (bids, asks) = engine.get_orderbook_depth(0, 10);
    assert_eq!(bids, vec![(51_000, 5)]);
    assert_eq!(asks, vec![(52_000, 10)]);
}

#[test]
fn test_own_orders_are_skipped() {
    let a = Address::with_last_byte(1);
    let b = Address::with_last_byte(2);
    let mut engine = engine_with(&[a, b]);
    let own = engine.process_place_order(a, &limit(false, 50_000, 10)).unwrap();
    let other = engine.process_place_order(b, &limit(false, 50_000, 10)).unwrap();
    engine.process_place_order(a, &limit(true, 50_000, 4)).unwrap();
    assert_eq!(engine.state().get_order(own).unwrap().remaining_size, 10);
    assert_eq!(engine.state().get_order(other).unwrap().remaining_size, 6);
}

fn resting(id: u64, is_buy: bool, price: u64, size: u64) -> pranklin::types::Order {
    pranklin::types::Order {
        id,
        market_id: 0,
        owner: Address::with_last_byte(1),
        is_buy,
        price,
        original_size: size,
        remaining_size: size,
        status: OrderStatus::Active,
        created_at: 0,
        reduce_only: false,
        post_only: false,
    }
}

#[test]
fn adding_then_removing_an_order_gives_the_book_back() {
    let mut book = pranklin::orderbook::OrderbookManager::new();
    book.add_order(1, &resting(1, true, 100, 5));
    book.add_order(2, &resting(2, true, 100, 7));
    book.add_order(3, &resting(3, false, 110, 4));
    let before = (
        book.get_orders_for_market(0),
        book.level_queue(0, true, 100),
        book.level_total(0, true, 100),
        book.get_depth(0, 10),
    );
    let extra = resting(4, true, 100, 9);
    book.add_order(4, &extra);
    assert_eq!(book.level_queue(0, true, 100), vec![1, 2, 4]);
    assert_eq!(book.level_total(0, true, 100), 21);
    book.remove_order(4, &extra);
    let after = (
        book.get_orders_for_market(0),
        book.level_queue(0, true, 100),
        book.level_total(0, true, 100),
        book.get_depth(0, 10),
    );
    assert_eq!(before, after);
    assert_eq!(after.1, vec![1, 2]);
    assert_eq!(after.2, 12);
}

#[test]
fn a_small_maker_is_filled_only_up_to_its_size_and_leaves_the_book() {
    let mut state = StateManager::new();
    state.set_market(0, market());
    let mut book = pranklin::orderbook::OrderbookManager::new();
    let mut small = resting(1, false, 100_000, 3);
    small.owner = Address::with_last_byte(1);
    let mut big = resting(2, false, 100_000, 8);
    big.owner = Address::with_last_byte(2);
    for o in [small, big] {
        state.set_order(o.id, o);
        state.add_active_order(0, o.id);
        book.add_order(o.id, &o);
    }
    let mut taker = resting(3, true, 100_000, 5);
    taker.owner = Address::with_last_byte(3);
    let fills = book.match_order(&mut state, &taker, &market()).unwrap();
    assert_eq!(fills.len(), 2);
    assert_eq!((fills[0].maker_order_id, fills[0].size), (1, 3));
    assert_eq!((fills[1].maker_order_id, fills[1].size), (2, 2));
    let first = state.get_order(1).unwrap();
    assert_eq!(first.remaining_size, 0);
    assert_eq!(first.status, OrderStatus::Filled);
    let second = state.get_order(2).unwrap();
    assert_eq!(second.remaining_size, 6);
    assert_eq!(second.status, OrderStatus::Active);
    assert_eq!(state.get_active_orders_by_market(0), vec![2]);
    assert_eq!(book.level_queue(0, false, 100_000), vec![2]);
    assert_eq!(book.level_total(0, false, 100_000), 6);
    assert_eq!(book.get_orders_for_market(0), vec![2]);
}
