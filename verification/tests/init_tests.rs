use pranklin::exec::txs_within_bytes;
use pranklin::init::{default_assets, initialize_bridge_operators, initialize_default_assets};
use pranklin::state::StateManager;
use pranklin::types::Address;

#[test]
fn test_initialize_assets() {
    let mut state = StateManager::new();
    initialize_default_assets(&mut state);

    let expected_assets = [("USDC", 6), ("USDT", 6), ("DAI", 18)];

    for (id, (symbol, decimals)) in expected_assets.iter().enumerate() {
        let asset = state.get_asset(id as u32).unwrap();
        assert_eq!(asset.symbol, *symbol);
        assert_eq!(asset.decimals, *decimals);
        assert!(asset.is_collateral);
    }

    assert_eq!(state.list_all_assets().len(), 3);
}

#[test]
fn test_initialize_operators() {
    let mut state = StateManager::new();
    let operators = vec![Address::from_bytes([1u8; 20]), Address::from_bytes([2u8; 20])];

    initialize_bridge_operators(&mut state, &operators);

    operators.iter().for_each(|&op| assert!(state.is_bridge_operator(op)));

    let non_operator = Address::from_bytes([3u8; 20]);
    assert!(!state.is_bridge_operator(non_operator));
}

#[test]
fn test_default_asset_weights() {
    let assets = default_assets();
    let weights: Vec<u32> = assets.iter().map(|a| a.collateral_weight_bps).collect();
    assert_eq!(weights, vec![10000, 9800, 9500]);
    assert_eq!(assets[1].name, "Tether USD");
}

#[test]
fn test_txs_within_bytes() {
    assert_eq!(txs_within_bytes(&[100, 200, 300], 300), 2);
    assert_eq!(txs_within_bytes(&[100, 200, 300], 600), 3);
    assert_eq!(txs_within_bytes(&[700, 1], 600), 0);
    assert_eq!(txs_within_bytes(&[], 10), 0);
    // Packing stops at the first transaction that does not fit.
    assert_eq!(txs_within_bytes(&[5, 20, 1], 10), 1);
}
