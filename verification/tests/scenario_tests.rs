use pranklin::scenarios::{
    aggressive_market_order, aggressive_worker_counts, burst_start, burst_step, depth_building_continues, depth_building_order,
    matching_scenario_order, trader_split, DEPTH_BUILD_MS,
    BurstPhase, DEPTH_PRICE_SPREAD, MATCHING_PRICE_SPREAD, SCENARIO_BASE_PRICE,
};
use pranklin::types::{OrderType, TimeInForce, TxPayload};

#[test]
fn trader_split_gives_the_odd_worker_to_the_sellers() {
    assert_eq!(trader_split(0), (0, 0));
    assert_eq!(trader_split(5), (2, 3));
    assert_eq!(trader_split(8), (4, 4));
}

#[test]
fn matching_orders_cross_the_base_price() {
    for _ in 0..200 {
        match matching_scenario_order(3, true) {
            TxPayload::PlaceOrder(o) => {
                assert!(o.is_buy);
                assert_eq!(o.market_id, 3);
                assert_eq!(o.order_type, OrderType::Limit);
                assert_eq!(o.time_in_force, TimeInForce::IOC);
                assert!(o.price >= SCENARIO_BASE_PRICE && o.price < SCENARIO_BASE_PRICE + MATCHING_PRICE_SPREAD);
                assert!(o.size >= 1_000_000 && o.size < 10_000_000);
            }
            _ => panic!("not an order"),
        }
        match matching_scenario_order(3, false) {
            TxPayload::PlaceOrder(o) => {
                assert!(!o.is_buy);
                assert!(o.price <= SCENARIO_BASE_PRICE && o.price > SCENARIO_BASE_PRICE - MATCHING_PRICE_SPREAD);
            }
            _ => panic!("not an order"),
        }
    }
}

#[test]
fn depth_orders_rest_on_their_own_side() {
    for worker in 0..20usize {
        match depth_building_order(1, worker) {
            TxPayload::PlaceOrder(o) => {
                assert_eq!(o.is_buy, worker % 2 == 0);
                assert!(o.post_only);
                assert_eq!(o.time_in_force, TimeInForce::PostOnly);
                assert!(o.size >= 5_000_000 && o.size < 50_000_000);
                if o.is_buy {
                    assert!(o.price <= SCENARIO_BASE_PRICE && o.price > SCENARIO_BASE_PRICE - DEPTH_PRICE_SPREAD);
                } else {
                    assert!(o.price >= SCENARIO_BASE_PRICE && o.price < SCENARIO_BASE_PRICE + DEPTH_PRICE_SPREAD);
                }
            }
            _ => panic!("not an order"),
        }
    }
}

#[test]
fn aggressive_orders_are_market_orders() {
    for _ in 0..100 {
        match aggressive_market_order(2) {
            TxPayload::PlaceOrder(o) => {
                assert_eq!(o.order_type, OrderType::Market);
                assert_eq!(o.price, 0);
                assert_eq!(o.time_in_force, TimeInForce::IOC);
                assert!(o.size >= 1_000_000 && o.size < 20_000_000);
            }
            _ => panic!("not an order"),
        }
    }
}

#[test]
fn bursts_alternate_with_cool_downs() {
    let p = burst_start(0);
    assert_eq!(p, BurstPhase { in_burst: false, next_switch_ms: 0 });
    let p = burst_step(p, 0, 2_000, 5_000);
    assert_eq!(p, BurstPhase { in_burst: true, next_switch_ms: 2_000 });
    let p = burst_step(p, 1_000, 2_000, 5_000);
    assert_eq!(p, BurstPhase { in_burst: true, next_switch_ms: 2_000 });
    let p = burst_step(p, 2_010, 2_000, 5_000);
    assert_eq!(p, BurstPhase { in_burst: false, next_switch_ms: 5_010 });
    let p = burst_step(p, 5_010, 2_000, 5_000);
    assert_eq!(p, BurstPhase { in_burst: true, next_switch_ms: 7_010 });
}

#[test]
fn the_aggressive_scenario_builds_depth_for_ten_seconds_within_its_duration() {
    assert_eq!(DEPTH_BUILD_MS, 10_000);
    assert!(depth_building_continues(0, 0, 60_000));
    assert!(depth_building_continues(9_999, 9_999, 60_000));
    assert!(!depth_building_continues(10_000, 10_000, 60_000));
    assert!(!depth_building_continues(1_000, 5_000, 5_000));
    assert_eq!(aggressive_worker_counts(7), (3, 7));
}
