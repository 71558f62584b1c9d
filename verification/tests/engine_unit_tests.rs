use pranklin::funding::FundingRateCalculator;
use pranklin::liquidation::{InsuranceFund, LiquidationEngine};
use pranklin::orderbook::OrderbookManager;
use pranklin::position::PositionManager;
use pranklin::risk::RiskEngine;
use pranklin::types::{Address, Market, Order, OrderStatus, Position};

fn btc_market() -> Market {
    Market {
        id: 0,
        symbol: "BTC-PERP".to_string(),
        base_asset_id: 1,
        quote_asset_id: 0,
        tick_size: 1000,
        price_decimals: 2,
        size_decimals: 6,
        min_order_size: 1,
        max_order_size: 1_000_000_000,
        max_leverage: 20,
        initial_margin_bps: 1000,
        maintenance_margin_bps: 500,
        liquidation_fee_bps: 100,
        funding_interval: 3600,
        max_funding_rate_bps: 100,
    }
}

fn resting(id: u64, is_buy: bool, price: u64, size: u64, created_at: u64) -> Order {
    Order {
        id,
        market_id: 0,
        owner: Address::zero(),
        is_buy,
        price,
        original_size: size,
        remaining_size: size,
        status: OrderStatus::Active,
        created_at,
        reduce_only: false,
        post_only: false,
    }
}

#[test]
fn test_calculate_funding_rate() {
    let calc = FundingRateCalculator::new();
    let mark_price = 51000;
    let oracle_price = 50000;
    let rate = calc.calculate_funding_rate(mark_price, oracle_price, 3600, 28800).unwrap();
    assert!(rate > 0);
}

#[test]
fn test_funding_payment() {
    let calc = FundingRateCalculator::new();
    let position_size = 100;
    let entry_index = 1000;
    let current_index = 1100;
    let (payment, longs_pay) = calc.calculate_funding_payment(position_size, true, entry_index, current_index).unwrap();
    assert!(payment > 0);
    assert!(longs_pay);
}

#[test]
fn test_margin_ratio() {
    let risk = RiskEngine::new();
    let margin = 1000;
    let size = 100;
    let price = 50000;
    let ratio = risk.calculate_margin_ratio(margin, size, price).unwrap();
    assert_eq!(ratio, 2);
}

#[test]
fn test_calculate_pnl() {
    let mgr = PositionManager;
    let position = Position { size: 100, entry_price: 50000, is_long: true, margin: 1000, funding_index: 0 };
    let (pnl, is_profit) = mgr.calculate_pnl(&position, 51000).unwrap();
    assert!(is_profit);
    assert_eq!(pnl, 100000);
    let (pnl, is_profit) = mgr.calculate_pnl(&position, 49000).unwrap();
    assert!(!is_profit);
    assert_eq!(pnl, 100000);
}

#[test]
fn test_orderbook_price_time_priority() {
    let mut orderbook = OrderbookManager::new();
    let order1 = resting(1, false, 50000, 100, 0);
    let order2 = resting(2, false, 50000, 50, 1);
    orderbook.add_order(1, &order1);
    orderbook.add_order(2, &order2);
    let queue = orderbook.level_queue(0, false, 50000);
    assert_eq!(queue[0], 1);
    assert_eq!(queue[1], 2);
    assert_eq!(orderbook.level_total(0, false, 50000), 150);
}

#[test]
fn test_best_bid_ask() {
    let mut orderbook = OrderbookManager::new();
    let bid = resting(1, true, 49000, 100, 0);
    let ask = resting(2, false, 51000, 100, 0);
    orderbook.add_order(1, &bid);
    orderbook.add_order(2, &ask);
    assert_eq!(orderbook.get_best_bid(0), Some(49000));
    assert_eq!(orderbook.get_best_ask(0), Some(51000));
}

#[test]
fn test_orderbook_depth() {
    let mut orderbook = OrderbookManager::new();
    for i in 0..5u64 {
        let order = resting(i, true, 50000 - (i * 100), 100, 0);
        orderbook.add_order(i, &order);
    }
    let (bids, _) = orderbook.get_depth(0, 3);
    assert_eq!(bids.len(), 3);
    assert_eq!(bids[0].0, 50000);
    assert_eq!(bids[1].0, 49900);
    assert_eq!(bids[2].0, 49800);
}

#[test]
fn test_partial_liquidation_calculation() {
    let liquidation = LiquidationEngine::default();
    let position = Position { size: 1000, entry_price: 50000, is_long: true, margin: 250000, funding_index: 0 };
    let market = btc_market();
    let size = liquidation.calculate_partial_liquidation_size(&position, 48000, &market).unwrap();
    assert!(size > 0);
    assert!(size < position.size);
}

#[test]
fn test_insurance_fund() {
    let mut liquidation = LiquidationEngine::default();
    let fund = liquidation.get_insurance_fund(0);
    assert_eq!(fund.balance, 0);
    let mut fund = liquidation.get_insurance_fund(0);
    fund.balance = 1000000;
    liquidation.set_insurance_fund(0, fund);
    let fund: InsuranceFund = liquidation.get_insurance_fund(0);
    assert_eq!(fund.balance, 1000000);
}

#[test]
fn liquidation_test_fee_split_configuration() {
    let mut liquidation = LiquidationEngine::default();
    assert_eq!(liquidation.get_fee_split(), (5000, 5000));
    liquidation.set_fee_split(7000, 3000);
    assert_eq!(liquidation.get_fee_split(), (7000, 3000));
}
