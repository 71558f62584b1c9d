use pranklin::block_stm::{AccessMode, BlockStmScheduler, ConflictDetector, DependencyGraph, TxNode};

// Keys of the state a transaction touches, as the accesses it declares.
const BALANCE_1: u64 = 11;
const BALANCE_2: u64 = 12;
const BALANCE_3: u64 = 13;
const BALANCE_4: u64 = 14;
const NONCE_1: u64 = 21;
const NONCE_3: u64 = 23;
const ORDERS_MARKET_0: u64 = 30;
const ORDERS_MARKET_1: u64 = 31;

fn transfer(from_balance: u64, from_nonce: u64, to_balance: u64) -> Vec<(u64, AccessMode)> {
    vec![(from_balance, AccessMode::Write), (to_balance, AccessMode::Write), (from_nonce, AccessMode::Write)]
}

fn order(market_orders: u64, balance: u64) -> Vec<(u64, AccessMode)> {
    vec![(market_orders, AccessMode::Write), (balance, AccessMode::Read)]
}

#[test]
fn test_dependency_graph_independent_txs() {
    let txs = vec![transfer(BALANCE_1, NONCE_1, BALANCE_2), transfer(BALANCE_3, NONCE_3, BALANCE_4)];
    let graph = DependencyGraph::build(&txs);
    let groups = graph.independent_groups();
    assert_eq!(groups.len(), 1);
    assert_eq!(groups[0].len(), 2);
}

#[test]
fn test_dependency_graph_dependent_txs() {
    let txs = vec![transfer(BALANCE_1, NONCE_1, BALANCE_2), transfer(BALANCE_1, NONCE_1, BALANCE_3)];
    let graph = DependencyGraph::build(&txs);
    let groups = graph.independent_groups();
    assert_eq!(groups.len(), 2);
    assert_eq!(groups[0].len(), 1);
    assert_eq!(groups[1].len(), 1);
}

#[test]
fn test_dependency_graph_same_market() {
    let txs = vec![order(ORDERS_MARKET_0, BALANCE_1), order(ORDERS_MARKET_0, BALANCE_2)];
    let graph = DependencyGraph::build(&txs);
    let groups = graph.independent_groups();
    assert_eq!(groups.len(), 2);
}

#[test]
fn test_dependency_graph_different_markets() {
    let txs = vec![order(ORDERS_MARKET_0, BALANCE_1), order(ORDERS_MARKET_1, BALANCE_2)];
    let graph = DependencyGraph::build(&txs);
    let groups = graph.independent_groups();
    assert_eq!(groups.len(), 1);
}

#[test]
fn rounds_follow_longest_chain() {
    // 0 -> 1 -> 3, 2 independent, 4 depends on 0 only.
    let txs = vec![
        vec![(1, AccessMode::Write)],
        vec![(1, AccessMode::Read), (2, AccessMode::Write)],
        vec![(9, AccessMode::Write)],
        vec![(2, AccessMode::Read)],
        vec![(1, AccessMode::Read)],
    ];
    let graph = DependencyGraph::build(&txs);
    let groups = graph.independent_groups();
    assert_eq!(groups, vec![vec![0, 2], vec![1, 4], vec![3]]);
    assert_eq!(graph.ready_transactions(), vec![0, 2]);
}

#[test]
fn test_conflict_detector() {
    let mut detector = ConflictDetector::new();
    detector.record_write(0, 100);
    detector.record_write(2, 200);
    assert!(detector.has_conflict(1, &vec![100]));
    assert!(!detector.has_conflict(0, &vec![100]));
    assert!(!detector.has_conflict(1, &vec![200]));
    assert!(detector.has_conflict(3, &vec![200, 300]));
    let nodes = vec![
        TxNode { tx_index: 1, read_set: vec![100], write_set: vec![] },
        TxNode { tx_index: 1, read_set: vec![200], write_set: vec![] },
        TxNode { tx_index: 3, read_set: vec![200], write_set: vec![] },
    ];
    assert_eq!(detector.get_conflicts(&nodes), vec![1, 3]);
}

#[test]
fn scheduler_workers() {
    let s = BlockStmScheduler::with_workers(4);
    assert_eq!(s.num_workers, 4);
    assert!(!s.optimistic);
    assert!(BlockStmScheduler::with_workers(0).num_workers >= 1);
}
