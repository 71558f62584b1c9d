use pranklin::auth::{AuthError, AuthService};
use pranklin::engine::Engine;
use pranklin::exec::TxExecutionError;
use pranklin::mempool::{Mempool, MempoolConfig};
use pranklin::permissions;
use pranklin::state::StateManager;
use pranklin::tx_executor::{execute_single_tx, execute_tx_batch, execute_tx_payload_readonly};
use pranklin::types::{Address, DepositTx, RemoveAgentTx, SetAgentTx, Transaction, TxHash, TxPayload, WithdrawTx};

fn tx(nonce: u64, from: Address, payload: TxPayload) -> Transaction {
    Transaction { nonce, from, payload, tx_hash: TxHash { hi: from.lo as u128, lo: nonce as u128 } }
}

fn setup() -> (Engine, AuthService, Mempool) {
    (Engine::new(StateManager::new()), AuthService::new(), Mempool::new(MempoolConfig::default()))
}

#[test]
fn test_execute_single_tx_deposit_advances_nonce_and_leaves_pool() {
    let (mut engine, mut auth, mut mempool) = setup();
    let alice = Address::with_last_byte(1);
    let t = tx(0, alice, TxPayload::Deposit(DepositTx { amount: 500, asset_id: 0 }));
    mempool.add(t).unwrap();
    assert!(mempool.contains(&t.tx_hash));

    execute_single_tx(&t, alice, &mut engine, &mut auth, &mut mempool, 1).unwrap();

    assert_eq!(engine.state().get_balance(alice, 0), 500);
    assert_eq!(engine.state().get_nonce(alice), 1);
    assert!(!mempool.contains(&t.tx_hash));
}

#[test]
fn test_execute_single_tx_wrong_signer_changes_nothing() {
    let (mut engine, mut auth, mut mempool) = setup();
    let alice = Address::with_last_byte(1);
    let mallory = Address::with_last_byte(9);
    let t = tx(0, alice, TxPayload::Deposit(DepositTx { amount: 500, asset_id: 0 }));
    let r = execute_single_tx(&t, mallory, &mut engine, &mut auth, &mut mempool, 1);
    match r {
        Err(TxExecutionError::Auth(AuthError::Unauthorized { signer, account })) => {
            assert_eq!(signer, mallory);
            assert_eq!(account, alice);
        }
        other => panic!("unexpected {:?}", other),
    }
    assert_eq!(engine.state().get_balance(alice, 0), 0);
    assert_eq!(engine.state().get_nonce(alice), 0);
}

#[test]
fn test_execute_single_tx_nonce_errors() {
    let (mut engine, mut auth, mut mempool) = setup();
    let alice = Address::with_last_byte(1);
    let gap = tx(3, alice, TxPayload::Deposit(DepositTx { amount: 1, asset_id: 0 }));
    assert!(matches!(
        execute_single_tx(&gap, alice, &mut engine, &mut auth, &mut mempool, 1),
        Err(TxExecutionError::NonceGap { expected: 0, got: 3 })
    ));
    let first = tx(0, alice, TxPayload::Deposit(DepositTx { amount: 1, asset_id: 0 }));
    execute_single_tx(&first, alice, &mut engine, &mut auth, &mut mempool, 1).unwrap();
    assert!(matches!(
        execute_single_tx(&first, alice, &mut engine, &mut auth, &mut mempool, 1),
        Err(TxExecutionError::InvalidNonce { expected: 1, got: 0 })
    ));
}

#[test]
fn test_failed_payload_keeps_nonce() {
    let (mut engine, mut auth, mut mempool) = setup();
    let alice = Address::with_last_byte(1);
    let w = tx(0, alice, TxPayload::Withdraw(WithdrawTx { amount: 10, asset_id: 0, to: alice }));
    let r = execute_single_tx(&w, alice, &mut engine, &mut auth, &mut mempool, 1);
    assert!(matches!(r, Err(TxExecutionError::Engine(_))));
    assert_eq!(engine.state().get_nonce(alice), 0);
}

#[test]
fn test_agent_payloads_update_auth() {
    let (mut engine, mut auth, mut mempool) = setup();
    let alice = Address::with_last_byte(1);
    let bot = Address::with_last_byte(2);
    let set = tx(0, alice, TxPayload::SetAgent(SetAgentTx { agent: bot, permissions: permissions::PLACE_ORDER }));
    execute_single_tx(&set, alice, &mut engine, &mut auth, &mut mempool, 1).unwrap();
    assert_eq!(auth.agent_permissions(alice, bot), Some(permissions::PLACE_ORDER));
    assert_eq!(engine.take_events().len(), 1);

    let remove = tx(1, alice, TxPayload::RemoveAgent(RemoveAgentTx { agent: bot }));
    execute_single_tx(&remove, alice, &mut engine, &mut auth, &mut mempool, 1).unwrap();
    assert_eq!(auth.agent_permissions(alice, bot), None);
    assert_eq!(engine.state().get_nonce(alice), 2);
}

#[test]
fn test_readonly_payload_does_not_touch_grants() {
    let mut engine = Engine::new(StateManager::new());
    let alice = Address::with_last_byte(1);
    let set = tx(0, alice, TxPayload::SetAgent(SetAgentTx { agent: Address::with_last_byte(2), permissions: permissions::ALL }));
    execute_tx_payload_readonly(&mut engine, &set).unwrap();
    // Only the event is recorded; the nonce is the caller's business.
    assert_eq!(engine.take_events().len(), 1);
    assert_eq!(engine.state().get_nonce(alice), 0);
}

#[test]
fn test_execute_tx_batch_counts() {
    let (mut engine, mut auth, mut mempool) = setup();
    let alice = Address::with_last_byte(1);
    let bob = Address::with_last_byte(2);
    let batch = vec![
        (tx(0, alice, TxPayload::Deposit(DepositTx { amount: 5, asset_id: 0 })), alice),
        (tx(1, alice, TxPayload::Deposit(DepositTx { amount: 5, asset_id: 0 })), bob),
        (tx(1, alice, TxPayload::Deposit(DepositTx { amount: 5, asset_id: 0 })), alice),
        (tx(0, bob, TxPayload::Withdraw(WithdrawTx { amount: 1, asset_id: 0, to: bob })), bob),
    ];
    let stats = execute_tx_batch(&batch, &mut engine, &mut auth, &mut mempool, 7);
    assert_eq!(stats.successful, 2);
    assert_eq!(stats.failed, 2);
    assert_eq!(engine.state().get_balance(alice, 0), 10);
}
