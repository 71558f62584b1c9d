use pranklin::exec::{next_sync_range, sync_result, verify_nonce, ExecutionMode, ExecutionStats, ReadOnlyConfig,
    SyncResult, TxExecutionError, TxExecutionStats};
use pranklin::types::{Address, DepositTx, Transaction, TxHash, TxPayload};

fn tx_with_nonce(nonce: u64) -> Transaction {
    Transaction {
        nonce,
        from: Address::with_last_byte(1),
        payload: TxPayload::Deposit(DepositTx { amount: 1000, asset_id: 0 }),
        tx_hash: TxHash { hi: 1, lo: nonce as u128 },
    }
}

#[test]
fn test_execution_stats() {
    let mut stats = ExecutionStats::default();
    stats.record(true, 100);
    stats.record(true, 200);
    stats.record(false, 150);
    assert_eq!(stats.total_txs, 3);
    assert_eq!(stats.successful_txs, 2);
    assert_eq!(stats.failed_txs, 1);
    assert_eq!(stats.total_time_us, 450);
    assert_eq!(stats.avg_time_us, 150);
    // The success rate is the share of successful transactions.
    assert_eq!(stats.successful_txs as f64 / stats.total_txs as f64, 2.0 / 3.0);
}

#[test]
fn test_execution_stats_tps() {
    let mut stats = ExecutionStats::default();
    for _ in 0..100 {
        stats.record(true, 1000);
    }
    // 100 transactions in 10 seconds = 10 TPS
    assert_eq!(stats.total_txs as f64 / 10.0, 10.0);
}

#[test]
fn test_execution_mode() {
    let seq = ExecutionMode::default();
    assert_eq!(seq, ExecutionMode::Sequential);
    let par = ExecutionMode::parallel(8);
    if let ExecutionMode::Parallel { workers, optimistic } = par {
        assert_eq!(workers, 8);
        assert!(!optimistic);
    } else {
        panic!("Expected parallel mode");
    }
    let opt = ExecutionMode::parallel_optimistic(16);
    if let ExecutionMode::Parallel { workers, optimistic } = opt {
        assert_eq!(workers, 16);
        assert!(optimistic);
    } else {
        panic!("Expected optimistic parallel mode");
    }
}

#[test]
fn tx_execution_stats_counts() {
    let mut stats = TxExecutionStats::new();
    stats.record_success();
    stats.record_success();
    stats.record_failure();
    assert_eq!(stats, TxExecutionStats { successful: 2, failed: 1 });
    assert_eq!(TxExecutionStats::default(), TxExecutionStats::new());
}

#[test]
fn nonce_checks() {
    assert!(verify_nonce(5, &tx_with_nonce(5)).is_ok());
    assert!(matches!(verify_nonce(5, &tx_with_nonce(3)), Err(TxExecutionError::InvalidNonce { expected: 5, got: 3 })));
    assert!(matches!(verify_nonce(5, &tx_with_nonce(7)), Err(TxExecutionError::NonceGap { expected: 5, got: 7 })));
}

#[test]
fn sync_ranges() {
    assert_eq!(next_sync_range(10, 10, 100), None);
    assert_eq!(next_sync_range(0, 250, 100), Some((1, 100)));
    assert_eq!(next_sync_range(200, 250, 100), Some((201, 250)));
    assert_eq!(sync_result(5, 3), SyncResult { synced_blocks: 0, new_height: 5, is_synced: true });
    assert_eq!(sync_result(5, 9), SyncResult { synced_blocks: 4, new_height: 9, is_synced: true });
}

#[test]
fn readonly_config_defaults() {
    let c = ReadOnlyConfig::default();
    assert_eq!(c.leader_url, "http://localhost:3000");
    assert_eq!(c.sync_interval_secs, 5);
    assert_eq!(c.sync_batch_size, 100);
    assert!(c.verify_state_root);
}
