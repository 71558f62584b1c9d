use pranklin::engine::Engine;
use pranklin::error::EngineError;
use pranklin::state::StateManager;
use pranklin::auth::AuthService;
use pranklin::permissions;
use pranklin::types::{Address, DepositTx, Market, OrderType, PlaceOrderTx, Position, SetAgentTx, TimeInForce, Transaction, TxHash,
    TxPayload, WithdrawTx};

/// A transaction of `from` with `nonce`; its hash plays no part here.
fn new_tx(nonce: u64, from: Address, payload: TxPayload) -> Transaction {
    Transaction { nonce, from, payload, tx_hash: TxHash::zero() }
}
/// Security-focused integration tests

/// Helper to create test market
fn create_test_market() -> Market {
    Market {
        id: 0,
        symbol: "BTC-PERP".to_string(),
        base_asset_id: 1,
        quote_asset_id: 0,
        tick_size: 1000,
        price_decimals: 2,
        size_decimals: 6,
        min_order_size: 1,
        max_order_size: 1_000_000_000,
        max_leverage: 20,
        initial_margin_bps: 1000,
        maintenance_margin_bps: 500,
        liquidation_fee_bps: 100,
        funding_interval: 3600,
        max_funding_rate_bps: 100,
    }
}

#[test]
fn test_maximum_order_size_validation() {
    let state = StateManager::new();
    let mut engine = Engine::new(state);

    // Create market
    let market = create_test_market();
    engine.state_mut().set_market(0, market.clone());

    let trader = Address::from_bytes([1u8; 20]);

    // Fund trader
    engine
        .state_mut()
        .set_balance(trader, 0, u128::MAX); // Unlimited funds

    // Try to place order exceeding max size
    let tx = new_tx(
        0,
        trader,
        TxPayload::PlaceOrder(PlaceOrderTx {
            market_id: 0,
            is_buy: true,
            order_type: OrderType::Limit,
            price: 50_000,
            size: market.max_order_size + 1, // Exceed maximum!
            time_in_force: TimeInForce::GTC,
            reduce_only: false,
            post_only: false,
        }),
    );

    if let TxPayload::PlaceOrder(ref order) = tx.payload {
        let result = engine.process_place_order(tx.from, order);
        assert!(
            result.is_err(),
            "Order exceeding max size should be rejected"
        );
        assert!(
            matches!(result.unwrap_err(), EngineError::OrderAboveMaximum { .. }),
            "Error should mention maximum size"
        );
    }

    println!("✅ Maximum order size validation test passed");
}

#[test]
fn test_minimum_order_size_validation() {
    let state = StateManager::new();
    let mut engine = Engine::new(state);

    // Create market with min_order_size = 100
    let mut market = create_test_market();
    market.min_order_size = 100;
    engine.state_mut().set_market(0, market.clone());

    let trader = Address::from_bytes([1u8; 20]);
    engine
        .state_mut()
        .set_balance(trader, 0, 1_000_000);

    // Try to place order below minimum
    let tx = new_tx(
        0,
        trader,
        TxPayload::PlaceOrder(PlaceOrderTx {
            market_id: 0,
            is_buy: true,
            order_type: OrderType::Limit,
            price: 50_000,
            size: 50, // Below minimum of 100
            time_in_force: TimeInForce::GTC,
            reduce_only: false,
            post_only: false,
        }),
    );

    if let TxPayload::PlaceOrder(ref order) = tx.payload {
        let result = engine.process_place_order(tx.from, order);
        assert!(result.is_err(), "Order below min size should be rejected");
        assert!(
            matches!(result.unwrap_err(), EngineError::OrderBelowMinimum { .. }),
            "Error should mention minimum size"
        );
    }

    println!("✅ Minimum order size validation test passed");
}

#[test]
fn test_nonce_handling_after_failed_transaction() {
    let state = StateManager::new();
    let mut engine = Engine::new(state);

    let trader = Address::from_bytes([1u8; 20]);

    // Initial nonce should be 0
    let nonce = engine.state().get_nonce(trader);
    assert_eq!(nonce, 0);

    // Transaction with nonce=0 should work
    let tx1 = new_tx(
        0,
        trader,
        TxPayload::Deposit(DepositTx {
            amount: 1000,
            asset_id: 0,
        }),
    );

    // Simulate successful execution
    if let TxPayload::Deposit(ref deposit) = tx1.payload {
        engine.process_deposit(tx1.from, deposit).unwrap();
    }
    engine.state_mut().increment_nonce(trader);

    // Nonce should now be 1
    let nonce = engine.state().get_nonce(trader);
    assert_eq!(nonce, 1);

    // If a transaction with nonce=1 fails BEFORE execution, nonce stays at 1
    // Next transaction with nonce=1 should be accepted
    let tx2 = new_tx(
        1,
        trader,
        TxPayload::Withdraw(WithdrawTx {
            amount: 10_000_000, // Will fail - insufficient balance
            asset_id: 0,
            to: Address::zero(),
        }),
    );

    // This should fail, but nonce wasn't incremented yet (correct!)
    if let TxPayload::Withdraw(ref withdraw) = tx2.payload {
        let result = engine.process_withdraw(tx2.from, withdraw);
        assert!(result.is_err(), "Should fail due to insufficient balance");
    }

    // Nonce should still be 1 (not incremented on failure)
    let nonce = engine.state().get_nonce(trader);
    assert_eq!(nonce, 1);

    // Can retry with same nonce
    let tx3 = new_tx(
        1,
        trader,
        TxPayload::Deposit(DepositTx {
            amount: 500,
            asset_id: 0,
        }),
    );

    if let TxPayload::Deposit(ref deposit) = tx3.payload {
        engine.process_deposit(tx3.from, deposit).unwrap();
    }
    engine.state_mut().increment_nonce(trader);

    let nonce = engine.state().get_nonce(trader);
    assert_eq!(nonce, 2);

    println!("✅ Nonce handling test passed");
}

#[test]
fn test_zero_mark_price_rejection() {
    let state = StateManager::new();
    let mut engine = Engine::new(state);

    let market = create_test_market();
    engine.state_mut().set_market(0, market);

    let trader = Address::from_bytes([1u8; 20]);
    let liquidator = Address::from_bytes([2u8; 20]);

    // Create position
    engine
        .state_mut()
        .set_position(
            trader,
            0,
            Position {
                size: 100,
                entry_price: 50_000,
                is_long: true,
                margin: 5_000,
                funding_index: 0,
            },
        );

    // Try to liquidate with zero mark price
    let result = engine.liquidate_with_incentive(trader, 0, 0, liquidator); // mark_price = 0

    assert!(result.is_err(), "Zero mark price should be rejected");
    assert!(
        matches!(result.unwrap_err(), EngineError::ZeroMarkPrice),
        "Error should mention zero price"
    );

    println!("✅ Zero mark price rejection test passed");
}


#[test]
fn test_agent_cannot_modify_agents() {
    let mut auth = AuthService::new();
    let owner = Address::from_bytes([1u8; 20]);
    let agent = Address::from_bytes([2u8; 20]);
    let malicious_agent = Address::from_bytes([3u8; 20]);

    auth.set_agent(owner, agent, permissions::PLACE_ORDER | permissions::CANCEL_ORDER);

    let tx = new_tx(
        0,
        owner,
        TxPayload::SetAgent(SetAgentTx { agent: malicious_agent, permissions: permissions::ALL }),
    );

    let signer = agent;
    let is_owner = signer == owner;

    assert!(!is_owner, "Agent should not be the owner, transaction should fail");
    assert!(auth.verify_transaction(&tx, signer).is_err());

    println!("✅ Agent privilege escalation prevention test passed");
}
