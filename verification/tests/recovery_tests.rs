use pranklin::engine::Engine;
use pranklin::state::StateManager;
use pranklin::types::{Address, Market, Order, OrderStatus, OrderType, PlaceOrderTx, TimeInForce};

fn create_test_market(id: u32) -> Market {
    Market {
        id,
        symbol: format!("MARKET-{}", id),
        base_asset_id: 1,
        quote_asset_id: 0,
        tick_size: 1000,
        price_decimals: 2,
        size_decimals: 6,
        min_order_size: 1,
        max_order_size: 1_000_000_000,
        max_leverage: 20,
        initial_margin_bps: 1000,
        maintenance_margin_bps: 500,
        liquidation_fee_bps: 100,
        funding_interval: 3600,
        max_funding_rate_bps: 100,
    }
}

fn limit(market_id: u32, is_buy: bool, price: u64, size: u64) -> PlaceOrderTx {
    PlaceOrderTx {
        market_id,
        is_buy,
        order_type: OrderType::Limit,
        price,
        size,
        time_in_force: TimeInForce::GTC,
        reduce_only: false,
        post_only: false,
    }
}

fn stored(id: u64, market_id: u32, is_buy: bool, price: u64, remaining: u64, status: OrderStatus) -> Order {
    Order {
        id,
        market_id,
        owner: Address::from_bytes([1u8; 20]),
        is_buy,
        price,
        original_size: 10,
        remaining_size: remaining,
        status,
        created_at: 0,
        reduce_only: false,
        post_only: false,
    }
}

#[test]
fn test_orderbook_rebuild_after_restart() {
    let mut engine = Engine::new(StateManager::new());
    engine.state_mut().set_market(0, create_test_market(0));
    let trader1 = Address::from_bytes([1u8; 20]);
    let trader2 = Address::from_bytes([2u8; 20]);
    engine.state_mut().set_balance(trader1, 0, 1_000_000);
    engine.state_mut().set_balance(trader2, 0, 1_000_000);

    let order_id1 = engine.process_place_order(trader1, &limit(0, true, 50_000, 10)).unwrap();
    let order_id2 = engine.process_place_order(trader2, &limit(0, false, 51_000, 10)).unwrap();

    let active_orders = engine.state().get_active_orders_by_market(0);
    assert_eq!(active_orders.len(), 2);
    assert!(active_orders.contains(&order_id1));
    assert!(active_orders.contains(&order_id2));

    // The book is rebuilt from the state alone.
    engine.rebuild_orderbook_from_state().unwrap();

    let active_orders = engine.state().get_active_orders_by_market(0);
    assert_eq!(active_orders.len(), 2, "Should recover 2 active orders after restart");
    let (bids, asks) = engine.get_orderbook_depth(0, 10);
    assert_eq!(bids.len(), 1, "Should recover 1 bid");
    assert_eq!(asks.len(), 1, "Should recover 1 ask");
    assert_eq!(bids[0].0, 50_000, "Bid price should be recovered");
    assert_eq!(asks[0].0, 51_000, "Ask price should be recovered");
}

#[test]
fn test_rebuild_from_fresh_engine_drops_stale_orders() {
    let mut state = StateManager::new();
    state.set_market(0, create_test_market(0));
    state.set_order(1, stored(1, 0, true, 50_000, 10, OrderStatus::Active));
    state.set_order(2, stored(2, 0, true, 50_000, 0, OrderStatus::Active));
    state.set_order(3, stored(3, 0, false, 51_000, 4, OrderStatus::Cancelled));
    state.set_order(4, stored(4, 0, true, 50_000, 5, OrderStatus::Active));
    for id in [1u64, 2, 3, 4, 9] {
        state.add_active_order(0, id);
    }
    let mut engine = Engine::new(state);
    assert_eq!(engine.get_orderbook_depth(0, 10).0.len(), 0);

    engine.rebuild_orderbook_from_state().unwrap();

    // Orders 2 (empty) and 3 (cancelled) leave the index; 9 has no stored order and stays.
    assert_eq!(engine.state().get_active_orders_by_market(0), vec![1, 4, 9]);
    let (bids, asks) = engine.get_orderbook_depth(0, 10);
    assert_eq!(bids, vec![(50_000, 15)]);
    assert_eq!(asks.len(), 0);
}

#[test]
fn test_recovery_with_multiple_markets() {
    let mut state = StateManager::new();
    for (i, m) in [0u32, 5, 100].iter().enumerate() {
        state.set_market(*m, create_test_market(*m));
        let id = i as u64 + 1;
        state.set_order(id, stored(id, *m, true, 50_000, 10, OrderStatus::Active));
        state.add_active_order(*m, id);
    }
    let mut engine = Engine::new(state);
    engine.rebuild_orderbook_from_state().unwrap();
    for m in [0u32, 5, 100] {
        let (bids, _) = engine.get_orderbook_depth(m, 10);
        assert_eq!(bids.len(), 1, "Market {} should have 1 order", m);
    }
    assert_eq!(engine.state().list_all_markets(), vec![0, 5, 100]);
}

#[test]
fn test_rebuild_level_overflow() {
    let mut state = StateManager::new();
    state.set_market(0, create_test_market(0));
    state.set_order(1, stored(1, 0, true, 50_000, u64::MAX, OrderStatus::Active));
    state.set_order(2, stored(2, 0, true, 50_000, 1, OrderStatus::Active));
    state.add_active_order(0, 1);
    state.add_active_order(0, 2);
    let mut engine = Engine::new(state);
    assert!(engine.rebuild_orderbook_from_state().is_err());
    assert_eq!(engine.get_orderbook_depth(0, 10).0.len(), 0);
}

#[test]
fn test_market_list_persistence() {
    let mut engine = Engine::new(StateManager::new());
    for market_id in [0u32, 5, 100] {
        engine.state_mut().set_market(market_id, create_test_market(market_id));
    }
    let markets = engine.state().list_all_markets();
    assert_eq!(markets.len(), 3);
    assert!(markets.contains(&0));
    assert!(markets.contains(&5));
    assert!(markets.contains(&100));

    engine.rebuild_orderbook_from_state().unwrap();
    let markets = engine.state().list_all_markets();
    assert_eq!(markets.len(), 3, "Market list should persist after restart");
}

#[test]
fn test_full_crash_recovery_scenario() {
    let trader1 = Address::from_bytes([1u8; 20]);
    let trader2 = Address::from_bytes([2u8; 20]);
    let trader3 = Address::from_bytes([3u8; 20]);

    let mut engine = Engine::new(StateManager::new());
    engine.state_mut().set_market(0, create_test_market(0));
    for trader in [trader1, trader2, trader3] {
        engine.state_mut().set_balance(trader, 0, 10_000_000);
    }
    let order_id1 = engine.process_place_order(trader1, &limit(0, true, 49_000, 100)).unwrap();
    let order_id2 = engine.process_place_order(trader2, &limit(0, false, 51_000, 200)).unwrap();
    engine.state_mut().set_position(
        trader3,
        0,
        pranklin::types::Position { size: 50, entry_price: 50_000, is_long: true, margin: 50_000, funding_index: 0 },
    );

    engine.rebuild_orderbook_from_state().unwrap();

    let active_orders = engine.state().get_active_orders_by_market(0);
    assert_eq!(active_orders.len(), 2, "Should recover 2 active orders");
    let (bids, asks) = engine.get_orderbook_depth(0, 10);
    assert_eq!(bids.len(), 1);
    assert_eq!(asks.len(), 1);
    assert_eq!(bids[0], (49_000, 100));
    assert_eq!(asks[0], (51_000, 200));

    assert_eq!(engine.state().get_order(order_id1).unwrap().remaining_size, 100);
    assert_eq!(engine.state().get_order(order_id2).unwrap().remaining_size, 200);

    let positions = engine.state().get_all_positions_in_market(0);
    assert_eq!(positions.len(), 1, "Should recover 1 position");
    assert_eq!(positions[0].0, trader3);
    assert_eq!(positions[0].1.size, 50);

    let markets = engine.state().list_all_markets();
    assert_eq!(markets.len(), 1);
    assert_eq!(markets[0], 0);

    engine.process_place_order(trader1, &limit(0, true, 50_000, 50)).unwrap();
    let active_orders = engine.state().get_active_orders_by_market(0);
    assert_eq!(active_orders.len(), 3, "Should have 3 orders after placing new one");
}
