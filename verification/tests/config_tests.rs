use pranklin::config::{CloudProvider, ConfigError, SnapshotConfig, StartConfig};
use pranklin::loadtest::{LoadTestMode, RandomRange, TestScenario, TransactionType};
use pranklin::types::Address;

fn snapshot(s3: Option<&str>, gcs: Option<&str>) -> SnapshotConfig {
    SnapshotConfig {
        s3_bucket: s3.map(|s| s.to_string()),
        s3_region: "us-east-1".to_string(),
        s3_prefix: "snapshots".to_string(),
        gcs_bucket: gcs.map(|s| s.to_string()),
        gcs_prefix: "snapshots".to_string(),
        local_path: "./snapshots".to_string(),
    }
}

fn start(operators: Vec<&str>, enable: bool) -> StartConfig {
    StartConfig {
        grpc_addr: "0.0.0.0:50051".to_string(),
        rpc_addr: "0.0.0.0:3000".to_string(),
        db_path: "./data/pranklin_db".to_string(),
        chain_id: "pranklin-mainnet-1".to_string(),
        debug: false,
        bridge_operators: operators.into_iter().map(|s| s.to_string()).collect(),
        snapshot_enable: enable,
        snapshot_interval: 10000,
        snapshot: snapshot(None, Some("bucket")),
    }
}

#[test]
fn bridge_operators_parsed() {
    let c = start(vec!["0x0000000000000000000000000000000000000001", "0x00000000000000000000000000000000000000ff"], false);
    assert!(c.has_bridge_operators());
    let ops = c.parse_bridge_operators().unwrap();
    assert_eq!(ops, vec![Address::with_last_byte(1), Address::with_last_byte(255)]);
    let bad = start(vec!["0x0000000000000000000000000000000000000001", "not-an-address"], false);
    assert_eq!(bad.parse_bridge_operators(), Err(ConfigError::InvalidBridgeOperator { index: 1 }));
    assert!(!start(vec![], false).has_bridge_operators());
}

#[test]
fn snapshot_provider_priority() {
    assert!(matches!(snapshot(Some("a"), Some("b")).cloud_provider(), CloudProvider::S3(c) if c.bucket == "a"));
    assert!(matches!(snapshot(None, Some("b")).cloud_provider(), CloudProvider::GCS(c) if c.bucket == "b"));
    assert!(matches!(snapshot(None, None).cloud_provider(), CloudProvider::Local { path } if path == "./snapshots"));
    assert!(start(vec![], false).snapshot_exporter_config().is_none());
    let e = start(vec![], true).snapshot_exporter_config().unwrap();
    assert_eq!(e.auto_export_interval, 10000);
    assert_eq!(e.chain_id, "pranklin-mainnet-1");
}

#[test]
fn loadtest_labels() {
    assert_eq!(TestScenario::OrderSpam.description(), "Order spam: submit & cancel rapidly");
    assert_eq!(LoadTestMode::Burst.description(), "Burst");
    assert_eq!(TransactionType::CancelOrder.description(), "CancelOrder");
}

#[test]
fn random_draws_stay_in_range() {
    for _ in 0..100 {
        let x = <u64 as RandomRange>::random_in_range(10, 20);
        assert!((10..20).contains(&x));
        let y = <u128 as RandomRange>::random_in_range(5, 6);
        assert_eq!(y, 5);
    }
}
