use pranklin::generator::{
    CancelGenerator, DepositGenerator, MixedGenerator, OrderGenerator, TransactionGenerator, TransferGenerator,
    TxGenerator, WithdrawGenerator, ORDER_PRICE_MAX, ORDER_PRICE_MIN, ORDER_SIZE_MAX, ORDER_SIZE_MIN,
};
use pranklin::loadtest::TransactionType;
use pranklin::types::{Address, OrderType, TimeInForce, TxPayload};

#[test]
fn test_with_params_market_order_has_zero_price() {
    let p = OrderGenerator::with_params(3, true, OrderType::Market, 50_000, 7, TimeInForce::IOC);
    match p {
        TxPayload::PlaceOrder(o) => {
            assert_eq!(o.price, 0);
            assert_eq!(o.market_id, 3);
            assert_eq!(o.size, 7);
            assert!(!o.post_only);
            assert!(!o.reduce_only);
        }
        _ => panic!("not an order"),
    }
    match OrderGenerator::with_params(3, false, OrderType::Limit, 50_000, 7, TimeInForce::PostOnly) {
        TxPayload::PlaceOrder(o) => {
            assert_eq!(o.price, 50_000);
            assert!(o.post_only);
        }
        _ => panic!("not an order"),
    }
}

#[test]
fn test_random_orders_stay_in_range() {
    let g = OrderGenerator::new(9);
    for _ in 0..200 {
        match g.generate() {
            TxPayload::PlaceOrder(o) => {
                assert_eq!(o.market_id, 9);
                assert!(o.size >= ORDER_SIZE_MIN && o.size < ORDER_SIZE_MAX);
                if o.order_type == OrderType::Limit {
                    assert!(o.price >= ORDER_PRICE_MIN && o.price < ORDER_PRICE_MAX);
                } else {
                    assert_eq!(o.price, 0);
                }
                assert_eq!(o.post_only, o.time_in_force == TimeInForce::PostOnly);
            }
            _ => panic!("not an order"),
        }
    }
}

#[test]
fn test_single_kind_generators() {
    let me = Address::with_last_byte(4);
    match CancelGenerator.generate() {
        TxPayload::CancelOrder(c) => assert!(c.order_id >= 1 && c.order_id < 1_000_000),
        _ => panic!(),
    }
    match DepositGenerator::new(2).generate() {
        TxPayload::Deposit(d) => assert!(d.asset_id == 2 && d.amount >= 100_000_000 && d.amount < 10_000_000_000),
        _ => panic!(),
    }
    match WithdrawGenerator::new(2, me).generate() {
        TxPayload::Withdraw(w) => assert!(w.to == me && w.amount >= 10_000_000 && w.amount < 1_000_000_000),
        _ => panic!(),
    }
    match TransferGenerator::new(1).generate() {
        TxPayload::Transfer(t) => assert!(t.asset_id == 1 && t.amount >= 1_000_000 && t.amount < 100_000_000),
        _ => panic!(),
    }
}

#[test]
fn test_mixed_and_typed_generators() {
    let me = Address::with_last_byte(4);
    let mixed = MixedGenerator::new(1, 0, me);
    for _ in 0..50 {
        let p = mixed.generate();
        assert!(!matches!(p, TxPayload::ClosePosition(_) | TxPayload::SetAgent(_) | TxPayload::RemoveAgent(_)));
    }
    let typed = TransactionGenerator { tx_type: TransactionType::Deposit, market_id: 1, asset_id: 5, address: me };
    assert!(matches!(typed.generate(), TxPayload::Deposit(d) if d.asset_id == 5));
}
