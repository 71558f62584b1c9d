use pranklin::event_store::{block_event_keys_from_scan, tx_events_from_scan, EventStore, InMemoryEventStore};
use pranklin::event_store_key::{EventStoreKey, KeyDecodeError};
use pranklin::events::{BalanceChangeReason, DomainEvent, Event};
use pranklin::types::{Address, TxHash};

fn deposit(block: u64, tx: TxHash, index: u32, address: Address, amount: u128) -> DomainEvent {
    DomainEvent::new(
        block,
        tx,
        index,
        1234567890 + block,
        Event::BalanceChanged {
            address,
            asset_id: 0,
            old_balance: 0,
            new_balance: amount,
            reason: BalanceChangeReason::Deposit,
        },
    )
}

#[test]
fn test_in_memory_event_store() {
    let mut store = InMemoryEventStore::default();

    let event = DomainEvent::new(
        100,
        TxHash::zero(),
        0,
        1234567890,
        Event::BalanceChanged {
            address: Address::zero(),
            asset_id: 0,
            old_balance: 1000,
            new_balance: 2000,
            reason: BalanceChangeReason::Deposit,
        },
    );

    store.append(vec![event.clone()]).unwrap();

    assert_eq!(store.count().unwrap(), 1);

    let events = store.get_by_block_range(100, 100).unwrap();
    assert_eq!(events.len(), 1);
    assert_eq!(events[0].block_height, 100);

    let tx_events = store.get_by_tx(TxHash::zero()).unwrap();
    assert_eq!(tx_events.len(), 1);
}

#[test]
fn test_event_filtering_by_address() {
    let mut store = InMemoryEventStore::default();
    let addr1 = Address::with_last_byte(1);
    let addr2 = Address::with_last_byte(2);

    store
        .append(vec![DomainEvent::new(
            100,
            TxHash::zero(),
            0,
            1234567890,
            Event::BalanceChanged {
                address: addr1,
                asset_id: 0,
                old_balance: 0,
                new_balance: 1000,
                reason: BalanceChangeReason::Deposit,
            },
        )])
        .unwrap();

    store
        .append(vec![DomainEvent::new(
            101,
            TxHash::zero(),
            0,
            1234567891,
            Event::BalanceChanged {
                address: addr2,
                asset_id: 0,
                old_balance: 0,
                new_balance: 2000,
                reason: BalanceChangeReason::Deposit,
            },
        )])
        .unwrap();

    let addr1_events = store.get_by_address(addr1, 10).unwrap();
    assert_eq!(addr1_events.len(), 1);

    let addr2_events = store.get_by_address(addr2, 10).unwrap();
    assert_eq!(addr2_events.len(), 1);
}

#[test]
fn test_block_range_orders_by_block_then_arrival() {
    let mut store = InMemoryEventStore::new();
    let a = Address::with_last_byte(1);
    let t1 = TxHash::from_bytes([1u8; 32]);
    let t2 = TxHash::from_bytes([2u8; 32]);
    store
        .append(vec![deposit(12, t1, 0, a, 1), deposit(10, t2, 0, a, 2), deposit(12, t2, 1, a, 3), deposit(30, t1, 0, a, 4)])
        .unwrap();
    let got: Vec<u128> = store
        .get_by_block_range(10, 12)
        .unwrap()
        .iter()
        .map(|e| match e.event {
            Event::BalanceChanged { new_balance, .. } => new_balance,
            _ => 0,
        })
        .collect();
    assert_eq!(got, vec![2, 1, 3]);
    assert_eq!(store.get_by_block_range(13, 29).unwrap().len(), 0);
    assert_eq!(store.get_by_block_range(12, 10).unwrap().len(), 0);
    assert_eq!(store.get_by_block_range(0, u64::MAX).unwrap().len(), 4);
    assert_eq!(store.get_by_tx(t1).unwrap().len(), 2);
    assert_eq!(store.get_by_tx(t2).unwrap()[1].block_height, 12);
}

#[test]
fn test_get_by_address_newest_first_with_limit() {
    let mut store = InMemoryEventStore::new();
    let a = Address::with_last_byte(1);
    let b = Address::with_last_byte(2);
    for i in 0..5u64 {
        store.append(vec![deposit(i, TxHash::zero(), 0, if i % 2 == 0 { a } else { b }, i as u128)]).unwrap();
    }
    let latest = store.get_by_address(a, 2).unwrap();
    assert_eq!(latest.len(), 2);
    assert_eq!(latest[0].block_height, 4);
    assert_eq!(latest[1].block_height, 2);
    assert_eq!(store.get_by_address(a, 0).unwrap().len(), 0);
    assert_eq!(store.get_by_address(b, 10).unwrap().len(), 2);
    store.clear();
    assert_eq!(store.count().unwrap(), 0);
    assert_eq!(store.all_events().len(), 0);
}

#[test]
fn test_event_store_key_serialization() {
    let key1 = EventStoreKey::MetaCount;
    let bytes1 = key1.to_bytes();
    let decoded1 = EventStoreKey::from_bytes(&bytes1).unwrap();
    assert_eq!(key1, decoded1);

    let key2 = EventStoreKey::Event { block_height: 12345, tx_hash: TxHash::zero(), event_index: 0 };
    let bytes2 = key2.to_bytes();
    let decoded2 = EventStoreKey::from_bytes(&bytes2).unwrap();
    assert_eq!(key2, decoded2);
}

#[test]
fn test_event_store_key_prefixes() {
    let event = EventStoreKey::Event { block_height: 1, tx_hash: TxHash::zero(), event_index: 0 }.to_bytes();
    let block_idx = EventStoreKey::BlockIndex { block_height: 1, tx_hash: TxHash::zero(), event_index: 0 }.to_bytes();
    let tx_idx = EventStoreKey::TxIndex { tx_hash: TxHash::zero(), event_index: 0 }.to_bytes();
    let meta = EventStoreKey::MetaCount.to_bytes();

    assert_ne!(event[0], block_idx[0]);
    assert_ne!(event[0], tx_idx[0]);
    assert_ne!(event[0], meta[0]);
    assert_ne!(block_idx[0], tx_idx[0]);
    assert_ne!(block_idx[0], meta[0]);
    assert_ne!(tx_idx[0], meta[0]);
}

#[test]
fn test_block_prefix() {
    let block_height = 12345u64;
    let prefix = EventStoreKey::prefix_for_block(block_height);

    assert_eq!(prefix[0], 1u8);

    let key = EventStoreKey::BlockIndex { block_height, tx_hash: TxHash::zero(), event_index: 0 }.to_bytes();

    assert!(key.starts_with(&prefix));
}

#[test]
fn test_tx_prefix() {
    let tx_hash = TxHash::from_bytes([1u8; 32]);
    let prefix = EventStoreKey::prefix_for_tx(tx_hash);

    assert_eq!(prefix[0], 2u8);

    let key = EventStoreKey::TxIndex { tx_hash, event_index: 0 }.to_bytes();

    assert!(key.starts_with(&prefix));
}

#[test]
fn test_deterministic_serialization() {
    let key = EventStoreKey::Event { block_height: 42, tx_hash: TxHash::from_bytes([1u8; 32]), event_index: 5 };

    let bytes1 = key.to_bytes();
    let bytes2 = key.to_bytes();

    assert_eq!(bytes1, bytes2);
}

#[test]
fn test_key_size_comparison() {
    let event_key = EventStoreKey::Event { block_height: 999999, tx_hash: TxHash::from_bytes([0xff; 32]), event_index: 99 };
    let enum_size = event_key.to_bytes().len();

    let string_size = 80;

    println!("Enum-based key size: {} bytes", enum_size);
    println!("String-based key size: {} bytes", string_size);
    println!(
        "Savings: {} bytes ({:.1}%)",
        string_size - enum_size,
        ((string_size - enum_size) as f64 / string_size as f64) * 100.0
    );

    assert!(enum_size < string_size);
}

#[test]
fn test_key_layout_exact_bytes() {
    let key = EventStoreKey::BlockIndex { block_height: 0x0102, tx_hash: TxHash::from_bytes([7u8; 32]), event_index: 3 };
    let b = key.to_bytes();
    let mut want = vec![1u8, 0x02, 0x01, 0, 0, 0, 0, 0, 0];
    want.extend_from_slice(&[7u8; 32]);
    want.extend_from_slice(&[3, 0, 0, 0]);
    assert_eq!(b, want);
    assert_eq!(EventStoreKey::TxIndex { tx_hash: TxHash::zero(), event_index: 1 }.to_bytes().len(), 37);
    assert_eq!(EventStoreKey::prefix_for_events(), vec![0u8]);
    assert_eq!(EventStoreKey::prefix_for_block_index(), vec![1u8]);
    assert_eq!(EventStoreKey::prefix_for_tx_index(), vec![2u8]);
}

#[test]
fn test_key_decode_errors() {
    assert_eq!(EventStoreKey::from_bytes(&[]), Err(KeyDecodeError::UnexpectedEnd));
    assert_eq!(EventStoreKey::from_bytes(&[9u8]), Err(KeyDecodeError::UnknownVariant(9)));
    assert_eq!(EventStoreKey::from_bytes(&[0u8, 1, 2]), Err(KeyDecodeError::UnexpectedEnd));
    assert_eq!(EventStoreKey::from_bytes(&[3u8, 0]), Err(KeyDecodeError::TrailingBytes));
    let k = EventStoreKey::TxIndex { tx_hash: TxHash::from_bytes([0xab; 32]), event_index: 77 };
    assert_eq!(EventStoreKey::from_bytes(&k.to_bytes()), Ok(k));
}

#[test]
fn tx_events_from_scan_picks_the_transaction_events_in_index_order() {
    let a = TxHash::from_bytes([1u8; 32]);
    let b = TxHash::from_bytes([2u8; 32]);
    let who = Address::with_last_byte(7);
    let e_a0 = deposit(5, a, 0, who, 10);
    let e_a1 = deposit(5, a, 1, who, 11);
    let e_a2 = deposit(5, a, 2, who, 12);
    let e_b0 = deposit(5, b, 0, who, 20);
    let event_key = |e: &DomainEvent| {
        EventStoreKey::Event { block_height: e.block_height, tx_hash: e.tx_hash, event_index: e.event_index }.to_bytes()
    };
    let entries = vec![
        (event_key(&e_b0), e_b0),
        (event_key(&e_a1), e_a1),
        (event_key(&e_a0), e_a0),
        (event_key(&e_a2), e_a2),
    ];
    // The index keys as scanned: index 2 before 0 and 1; index 2 then has no
    // stored event of its own here; the scan stops at the other transaction.
    let index = |tx: TxHash, i: u32| EventStoreKey::TxIndex { tx_hash: tx, event_index: i }.to_bytes();
    let keys = vec![index(a, 1), index(a, 0), index(a, 2), index(b, 0), index(a, 3)];
    let found = tx_events_from_scan(a, &keys, &entries);
    assert_eq!(found, vec![e_a0, e_a1, e_a2]);
    // Only index 1 is listed before a key that is not an index key.
    let keys = vec![index(a, 1), EventStoreKey::MetaCount.to_bytes(), index(a, 0)];
    assert_eq!(tx_events_from_scan(a, &keys, &entries), vec![e_a1]);
    // Bytes that are no key stop the scan too.
    let keys = vec![vec![9u8, 1, 2], index(a, 0)];
    assert!(tx_events_from_scan(a, &keys, &entries).is_empty());
    // An index without a stored event yields nothing for it.
    let keys = vec![index(b, 0), index(b, 5)];
    assert_eq!(tx_events_from_scan(b, &keys, &entries), vec![e_b0]);
}

#[test]
fn block_event_keys_from_scan_stops_at_the_next_block() {
    let a = TxHash::from_bytes([1u8; 32]);
    let b = TxHash::from_bytes([2u8; 32]);
    let index = |h: u64, tx: TxHash, i: u32| EventStoreKey::BlockIndex { block_height: h, tx_hash: tx, event_index: i }.to_bytes();
    let keys = vec![index(7, a, 0), index(7, b, 1), index(8, a, 0), index(7, a, 2)];
    assert_eq!(
        block_event_keys_from_scan(7, &keys),
        vec![
            EventStoreKey::Event { block_height: 7, tx_hash: a, event_index: 0 },
            EventStoreKey::Event { block_height: 7, tx_hash: b, event_index: 1 },
        ]
    );
    assert!(block_event_keys_from_scan(8, &keys).is_empty());
    let keys = vec![index(9, a, 3), EventStoreKey::MetaCount.to_bytes(), index(9, a, 4)];
    assert_eq!(block_event_keys_from_scan(9, &keys), vec![EventStoreKey::Event { block_height: 9, tx_hash: a, event_index: 3 }]);
}
