//! Where stamped events are kept: the store interface and the in-memory
//! store, with queries by block range, transaction and address.
use vstd::prelude::*;
use crate::events::{DomainEvent, event_involves_address, involves};
use crate::types::{Address, TxHash};
use crate::event_store_key::{EventStoreKey, KeyDecodeError, key_bytes, encoded_len, law_key_encoding_injective, law_key_encoding_well_formed};

verus! {

/// Errors of an event store.
#[derive(Debug, Clone)]
pub enum EventStoreError {
    SerializationError(String),
    StorageError(String),
    NotFound,
    Other(String),
    RocksDbError(String),
}

/// A place where stamped events are appended and queried.
pub trait EventStore {
    /// Append events, in order.
    fn append(&mut self, events: Vec<DomainEvent>) -> Result<(), EventStoreError>;

    /// Events of blocks `from_height..=to_height`, by block, then in order.
    fn get_by_block_range(&self, from_height: u64, to_height: u64) -> Result<Vec<DomainEvent>, EventStoreError>;

    /// Events of a transaction, in order.
    fn get_by_tx(&self, tx_hash: TxHash) -> Result<Vec<DomainEvent>, EventStoreError>;

    /// The latest `limit` events that involve `address`, newest first.
    fn get_by_address(&self, address: Address, limit: usize) -> Result<Vec<DomainEvent>, EventStoreError>;

    /// Number of stored events.
    fn count(&self) -> Result<u64, EventStoreError>;
}

/// The events of `es` in block `h`, in order.
pub open spec fn events_at(es: Seq<DomainEvent>, h: u64) -> Seq<DomainEvent> {
    es.filter(|e: DomainEvent| e.block_height == h)
}

/// The events of `es` in blocks `from..=to`, block by block.
pub open spec fn events_in_heights(es: Seq<DomainEvent>, from: int, to: int) -> Seq<DomainEvent>
    decreases to - from + 1,
{
    if to < from {
        Seq::empty()
    } else {
        events_in_heights(es, from, to - 1) + events_at(es, to as u64)
    }
}

/// The events of `es` in transaction `tx`, in order.
pub open spec fn events_of_tx(es: Seq<DomainEvent>, tx: TxHash) -> Seq<DomainEvent> {
    es.filter(|e: DomainEvent| e.tx_hash == tx)
}

/// The latest `limit` events of `es` that involve `a`, newest first.
pub open spec fn newest_involving(es: Seq<DomainEvent>, a: Address, limit: nat) -> Seq<DomainEvent>
    decreases es.len(),
{
    if es.len() == 0 || limit == 0 {
        Seq::empty()
    } else if involves(es.last().event, a) {
        seq![es.last()] + newest_involving(es.drop_last(), a, (limit - 1) as nat)
    } else {
        newest_involving(es.drop_last(), a, limit)
    }
}

/// Events kept in memory.
#[derive(Debug)]
pub struct InMemoryEventStore {
    events: Vec<DomainEvent>,
}

impl View for InMemoryEventStore {
    type V = Seq<DomainEvent>;

    closed spec fn view(&self) -> Seq<DomainEvent> {
        self.events@
    }
}

proof fn lemma_events_at_none(es: Seq<DomainEvent>, h: u64)
    requires
        forall|i: int| 0 <= i < es.len() ==> (#[trigger] es[i]).block_height != h,
    ensures
        events_at(es, h) == Seq::<DomainEvent>::empty(),
{
    let p = |e: DomainEvent| e.block_height == h;
    assert(es.all(|x: DomainEvent| !p(x)));
    es.lemma_all_neg_filter_empty(p);
    assert(events_at(es, h) =~= Seq::<DomainEvent>::empty());
}

/// Blocks without events add nothing to a range.
proof fn lemma_heights_skip(es: Seq<DomainEvent>, from: int, a: int, b: int)
    requires
        0 <= from,
        from - 1 <= a <= b,
        forall|i: int| 0 <= i < es.len() ==> !(a < (#[trigger] es[i]).block_height <= b),
        b <= u64::MAX,
    ensures
        events_in_heights(es, from, b) == events_in_heights(es, from, a),
    decreases b - a,
{
    if a < b {
        lemma_heights_skip(es, from, a, b - 1);
        assert forall|i: int| 0 <= i < es.len() implies (#[trigger] es[i]).block_height != b as u64 by {
            assert(!(a < es[i].block_height <= b));
        }
        lemma_events_at_none(es, b as u64);
        if b >= from {
            assert(events_in_heights(es, from, b) =~= events_in_heights(es, from, b - 1));
        } else {
            assert(false);
        }
    }
}

impl InMemoryEventStore {
    /// An empty store.
    pub fn new() -> (r: Self)
        ensures
            r@ == Seq::<DomainEvent>::empty(),
    {
        InMemoryEventStore { events: Vec::new() }
    }

    /// Drop every event.
    pub fn clear(&mut self)
        ensures
            final(self)@ == Seq::<DomainEvent>::empty(),
    {
        self.events = Vec::new();
    }

    /// All events, in order.
    pub fn all_events(&self) -> (r: &[DomainEvent])
        ensures
            r@ == self@,
    {
        self.events.as_slice()
    }

    /// The smallest block height in `lo..=hi` that some event has.
    fn next_height(&self, lo: u64, hi: u64) -> (r: Option<u64>)
        ensures
            match r {
                Some(n) => lo <= n <= hi
                    && (exists|i: int| 0 <= i < self@.len() && (#[trigger] self@[i]).block_height == n)
                    && forall|i: int| 0 <= i < self@.len() ==> !(lo <= (#[trigger] self@[i]).block_height < n),
                None => forall|i: int| 0 <= i < self@.len() ==> !(lo <= (#[trigger] self@[i]).block_height <= hi),
            },
    {
        let mut best: Option<u64> = None;
        let mut i: usize = 0;
        while i < self.events.len()
            invariant
                i <= self@.len(),
                match best {
                    Some(n) => lo <= n <= hi
                        && (exists|k: int| 0 <= k < i && (#[trigger] self@[k]).block_height == n)
                        && forall|k: int| 0 <= k < i ==> !(lo <= (#[trigger] self@[k]).block_height < n),
                    None => forall|k: int| 0 <= k < i ==> !(lo <= (#[trigger] self@[k]).block_height <= hi),
                },
            decreases self@.len() - i,
        {
            let h = self.events[i].block_height;
            if lo <= h && h <= hi {
                match best {
                    Some(n) => {
                        if h < n {
                            best = Some(h);
                        }
                    },
                    None => {
                        best = Some(h);
                    },
                }
            }
            i += 1;
        }
        best
    }

    /// Append the events of `self` in block `h` to `out`.
    fn push_events_at(&self, h: u64, out: &mut Vec<DomainEvent>)
        ensures
            final(out)@ == old(out)@ + events_at(self@, h),
    {
        let ghost start = out@;
        let mut i: usize = 0;
        while i < self.events.len()
            invariant
                i <= self@.len(),
                out@ == start + events_at(self@.take(i as int), h),
            decreases self@.len() - i,
        {
            proof {
                reveal_with_fuel(Seq::filter, 1);
                assert(self@.take(i + 1).drop_last() =~= self@.take(i as int));
                assert(self@.take(i + 1).last() == self@[i as int]);
            }
            if self.events[i].block_height == h {
                out.push(self.events[i]);
            }
            i += 1;
        }
        proof { assert(self@.take(i as int) =~= self@); }
    }
}

impl Default for InMemoryEventStore {
    fn default() -> (r: Self)
        ensures
            r@ == Seq::<DomainEvent>::empty(),
    {
        InMemoryEventStore::new()
    }
}

impl EventStore for InMemoryEventStore {
    fn append(&mut self, events: Vec<DomainEvent>) -> (r: Result<(), EventStoreError>)
        ensures
            r is Ok,
            final(self)@ == old(self)@ + events@,
    {
        let ghost start = self.events@;
        let mut i: usize = 0;
        while i < events.len()
            invariant
                i <= events@.len(),
                self.events@ == start + events@.take(i as int),
            decreases events@.len() - i,
        {
            self.events.push(events[i]);
            i += 1;
            proof { assert(events@.take(i as int) =~= events@.take(i - 1).push(events@[i - 1])); }
        }
        proof { assert(events@.take(i as int) =~= events@); }
        Ok(())
    }

    fn get_by_block_range(&self, from_height: u64, to_height: u64) -> (r: Result<Vec<DomainEvent>, EventStoreError>)
        ensures
            r matches Ok(v) && v@ == events_in_heights(self@, from_height as int, to_height as int),
    {
        let mut result: Vec<DomainEvent> = Vec::new();
        if from_height > to_height {
            return Ok(result);
        }
        let mut h: u64 = from_height;
        loop
            invariant
                from_height <= h <= to_height,
                result@ == events_in_heights(self@, from_height as int, h - 1),
            decreases to_height - h,
        {
            match self.next_height(h, to_height) {
                None => {
                    proof { lemma_heights_skip(self@, from_height as int, h - 1, to_height as int); }
                    return Ok(result);
                },
                Some(n) => {
                    proof { lemma_heights_skip(self@, from_height as int, h - 1, n - 1); }
                    self.push_events_at(n, &mut result);
                    if n == to_height {
                        return Ok(result);
                    }
                    h = n + 1;
                },
            }
        }
    }

    fn get_by_tx(&self, tx_hash: TxHash) -> (r: Result<Vec<DomainEvent>, EventStoreError>)
        ensures
            r matches Ok(v) && v@ == events_of_tx(self@, tx_hash),
    {
        let mut result: Vec<DomainEvent> = Vec::new();
        let mut i: usize = 0;
        while i < self.events.len()
            invariant
                i <= self@.len(),
                result@ == events_of_tx(self@.take(i as int), tx_hash),
            decreases self@.len() - i,
        {
            proof {
                reveal_with_fuel(Seq::filter, 1);
                assert(self@.take(i + 1).drop_last() =~= self@.take(i as int));
                assert(self@.take(i + 1).last() == self@[i as int]);
            }
            if self.events[i].tx_hash == tx_hash {
                result.push(self.events[i]);
            }
            i += 1;
        }
        proof { assert(self@.take(i as int) =~= self@); }
        Ok(result)
    }

    fn get_by_address(&self, address: Address, limit: usize) -> (r: Result<Vec<DomainEvent>, EventStoreError>)
        ensures
            r matches Ok(v) && v@ == newest_involving(self@, address, limit as nat),
    {
        let mut result: Vec<DomainEvent> = Vec::new();
        let mut count: usize = 0;
        let mut i: usize = self.events.len();
        proof {
            assert(self@.take(i as int) =~= self@);
            assert(result@ + newest_involving(self@, address, limit as nat) =~= newest_involving(self@, address, limit as nat));
        }
        while i > 0 && count < limit
            invariant
                i <= self@.len(),
                count <= limit,
                count == result@.len(),
                result@ + newest_involving(self@.take(i as int), address, (limit - count) as nat)
                    == newest_involving(self@, address, limit as nat),
            decreases i,
        {
            let ghost pre = self@.take(i as int);
            proof {
                assert(pre.drop_last() =~= self@.take(i - 1));
                assert(pre.last() == self@[i - 1]);
            }
            if event_involves_address(&self.events[i - 1].event, address) {
                proof {
                    assert(result@.push(self@[i - 1]) + newest_involving(self@.take(i - 1), address, (limit - count - 1) as nat)
                        =~= result@ + (seq![self@[i - 1]] + newest_involving(self@.take(i - 1), address, (limit - count - 1) as nat)));
                }
                result.push(self.events[i - 1]);
                count += 1;
            }
            i -= 1;
        }
        proof {
            assert(result@ + Seq::<DomainEvent>::empty() =~= result@);
        }
        Ok(result)
    }

    fn count(&self) -> (r: Result<u64, EventStoreError>)
        ensures
            r matches Ok(n) && n == self@.len(),
    {
        Ok(self.events.len() as u64)
    }
}


/// The key that the bytes `b` encode, if any (there is at most one).
pub open spec fn decode_key(b: Seq<u8>) -> Option<EventStoreKey> {
    if exists|k: EventStoreKey| #[trigger] key_bytes(k) == b {
        Some(choose|k: EventStoreKey| #[trigger] key_bytes(k) == b)
    } else {
        None
    }
}

/// Decoding gives what `EventStoreKey::from_bytes` gives.
proof fn lemma_decode_key(b: Seq<u8>, r: Result<EventStoreKey, KeyDecodeError>)
    requires
        match r {
            Ok(k) => key_bytes(k) == b,
            Err(KeyDecodeError::UnexpectedEnd) => b.len() == 0 || (b[0] < 4 && b.len() < encoded_len(b[0])),
            Err(KeyDecodeError::UnknownVariant(v)) => b.len() > 0 && b[0] >= 4,
            Err(KeyDecodeError::TrailingBytes) => b.len() > 0 && b[0] < 4 && b.len() > encoded_len(b[0]),
        },
    ensures
        decode_key(b) == match r { Ok(k) => Some(k), Err(_) => None::<EventStoreKey> },
{
    match r {
        Ok(k) => {
            let c = choose|c: EventStoreKey| #[trigger] key_bytes(c) == b;
            assert(key_bytes(k) == b);
            law_key_encoding_injective(c, k);
        },
        Err(_) => {
            if exists|k: EventStoreKey| #[trigger] key_bytes(k) == b {
                let k = choose|k: EventStoreKey| #[trigger] key_bytes(k) == b;
                law_key_encoding_well_formed(k);
            }
        },
    }
}

/// Byte strings of a list of keys.
pub open spec fn byte_keys(s: Seq<Vec<u8>>) -> Seq<Seq<u8>> {
    s.map_values(|v: Vec<u8>| v@)
}

/// Byte keys and events of a list of stored entries.
pub open spec fn byte_entries(s: Seq<(Vec<u8>, DomainEvent)>) -> Seq<(Seq<u8>, DomainEvent)> {
    s.map_values(|e: (Vec<u8>, DomainEvent)| (e.0@, e.1))
}

/// The event indices that a scan of the transaction index from `tx`'s
/// prefix yields: those of the leading keys that are index keys of `tx`, up
/// to the first key that is not one.
pub open spec fn scanned_indices(tx: TxHash, keys: Seq<Seq<u8>>) -> Seq<u32>
    decreases keys.len(),
{
    if keys.len() == 0 {
        Seq::empty()
    } else {
        match decode_key(keys[0]) {
            Some(EventStoreKey::TxIndex { tx_hash, event_index }) => if tx_hash == tx {
                seq![event_index] + scanned_indices(tx, keys.drop_first())
            } else {
                Seq::empty()
            },
            _ => Seq::empty(),
        }
    }
}

/// The event of the first stored entry whose key is the event key of `tx`
/// with index `idx`.
pub open spec fn event_entry(tx: TxHash, idx: u32, entries: Seq<(Seq<u8>, DomainEvent)>) -> Option<DomainEvent>
    decreases entries.len(),
{
    if entries.len() == 0 {
        None
    } else {
        match decode_key(entries[0].0) {
            Some(EventStoreKey::Event { block_height, tx_hash, event_index }) => if tx_hash == tx && event_index == idx {
                Some(entries[0].1)
            } else {
                event_entry(tx, idx, entries.drop_first())
            },
            _ => event_entry(tx, idx, entries.drop_first()),
        }
    }
}

/// The events found for the indices `idxs` of `tx`, in that order.
pub open spec fn found_events(tx: TxHash, idxs: Seq<u32>, entries: Seq<(Seq<u8>, DomainEvent)>) -> Seq<DomainEvent>
    decreases idxs.len(),
{
    if idxs.len() == 0 {
        Seq::empty()
    } else {
        let rest = found_events(tx, idxs.drop_last(), entries);
        match event_entry(tx, idxs.last(), entries) {
            Some(e) => rest.push(e),
            None => rest,
        }
    }
}

/// `t` with `x` inserted after every event of index at most its own.
pub open spec fn insert_by_index(t: Seq<DomainEvent>, x: DomainEvent) -> Seq<DomainEvent>
    decreases t.len(),
{
    if t.len() == 0 {
        seq![x]
    } else if t.last().event_index <= x.event_index {
        t.push(x)
    } else {
        insert_by_index(t.drop_last(), x).push(t.last())
    }
}

/// Events by increasing index; events of equal index keep their order.
pub open spec fn sort_by_index(c: Seq<DomainEvent>) -> Seq<DomainEvent>
    decreases c.len(),
{
    if c.len() == 0 { c } else { insert_by_index(sort_by_index(c.drop_last()), c.last()) }
}

proof fn lemma_insert_by_index_at(t: Seq<DomainEvent>, x: DomainEvent, j: int)
    requires
        0 <= j <= t.len(),
        j == 0 || t[j - 1].event_index <= x.event_index,
        forall|k: int| j <= k < t.len() ==> t[k].event_index > x.event_index,
    ensures
        insert_by_index(t, x) == t.insert(j, x),
    decreases t.len(),
{
    if t.len() == 0 {
        assert(t.insert(j, x) =~= seq![x]);
    } else if j == t.len() {
        assert(t.insert(j, x) =~= t.push(x));
    } else {
        lemma_insert_by_index_at(t.drop_last(), x, j);
        assert(t.insert(j, x) =~= t.drop_last().insert(j, x).push(t.last()));
    }
}

/// The event of `tx` with index `idx` among stored entries, as the first
/// entry whose key decodes to that event key.
fn find_event_entry(tx: TxHash, idx: u32, entries: &[(Vec<u8>, DomainEvent)]) -> (r: Option<DomainEvent>)
    ensures
        r == event_entry(tx, idx, byte_entries(entries@)),
{
    let ghost all = byte_entries(entries@);
    proof { assert(all.subrange(0, all.len() as int) =~= all); }
    let mut i: usize = 0;
    while i < entries.len()
        invariant
            i <= entries@.len(),
            all == byte_entries(entries@),
            event_entry(tx, idx, all) == event_entry(tx, idx, all.subrange(i as int, all.len() as int)),
        decreases entries@.len() - i,
    {
        let ghost rest = all.subrange(i as int, all.len() as int);
        proof {
            assert(rest.drop_first() =~= all.subrange(i + 1, all.len() as int));
            assert(rest[0] == (entries@[i as int].0@, entries@[i as int].1));
        }
        let decoded = EventStoreKey::from_bytes(entries[i].0.as_slice());
        proof { lemma_decode_key(entries@[i as int].0@, decoded); }
        match decoded {
            Ok(EventStoreKey::Event { block_height, tx_hash, event_index }) => {
                if tx_hash == tx && event_index == idx {
                    return Some(entries[i].1);
                }
            },
            _ => {},
        }
        i += 1;
    }
    proof { assert(all.subrange(i as int, all.len() as int).len() == 0); }
    None
}

/// The events of transaction `tx_hash` from a scan of the store: the
/// transaction-index keys read from `tx_hash`'s prefix onwards (the scan
/// stops at the first key that is not an index key of `tx_hash`), each
/// looked up among the stored event entries, then ordered by event index
/// (events of equal index keep their order).
pub fn tx_events_from_scan(tx_hash: TxHash, index_keys: &[Vec<u8>], event_entries: &[(Vec<u8>, DomainEvent)]) -> (r: Vec<DomainEvent>)
    ensures
        r@ == sort_by_index(found_events(tx_hash, scanned_indices(tx_hash, byte_keys(index_keys@)), byte_entries(event_entries@))),
{
    let ghost keys = byte_keys(index_keys@);
    let ghost entries = byte_entries(event_entries@);
    let mut idxs: Vec<u32> = Vec::new();
    proof { assert(Seq::<u32>::empty() + scanned_indices(tx_hash, keys.subrange(0, keys.len() as int)) =~= scanned_indices(tx_hash, keys)) by {
        assert(keys.subrange(0, keys.len() as int) =~= keys);
    } }
    let mut i: usize = 0;
    while i < index_keys.len()
        invariant_except_break
            i <= index_keys@.len(),
            keys == byte_keys(index_keys@),
            scanned_indices(tx_hash, keys) == idxs@ + scanned_indices(tx_hash, keys.subrange(i as int, keys.len() as int)),
        ensures
            scanned_indices(tx_hash, keys) == idxs@,
        decreases index_keys@.len() - i,
    {
        let ghost rest = keys.subrange(i as int, keys.len() as int);
        proof {
            assert(rest.drop_first() =~= keys.subrange(i + 1, keys.len() as int));
            assert(rest[0] == index_keys@[i as int]@);
        }
        let decoded = EventStoreKey::from_bytes(index_keys[i].as_slice());
        proof { lemma_decode_key(index_keys@[i as int]@, decoded); }
        match decoded {
            Ok(EventStoreKey::TxIndex { tx_hash: h, event_index }) => {
                if h == tx_hash {
                    let ghost before = idxs@;
                    idxs.push(event_index);
                    proof {
                        assert(idxs@ + scanned_indices(tx_hash, keys.subrange(i + 1, keys.len() as int))
                            =~= before + (seq![event_index] + scanned_indices(tx_hash, rest.drop_first())));
                    }
                } else {
                    proof { assert(idxs@ + scanned_indices(tx_hash, rest) =~= idxs@); }
                    break;
                }
            },
            _ => {
                proof { assert(idxs@ + scanned_indices(tx_hash, rest) =~= idxs@); }
                break;
            },
        }
        i += 1;
    }
    proof {
        if i == index_keys.len() {
            assert(keys.subrange(i as int, keys.len() as int).len() == 0);
            assert(idxs@ + Seq::<u32>::empty() =~= idxs@);
        }
    }
    let mut found: Vec<DomainEvent> = Vec::new();
    let mut j: usize = 0;
    while j < idxs.len()
        invariant
            j <= idxs@.len(),
            entries == byte_entries(event_entries@),
            found@ == found_events(tx_hash, idxs@.take(j as int), entries),
        decreases idxs@.len() - j,
    {
        let e = find_event_entry(tx_hash, idxs[j], event_entries);
        proof {
            assert(idxs@.take(j + 1).drop_last() =~= idxs@.take(j as int));
            assert(idxs@.take(j + 1).last() == idxs@[j as int]);
        }
        match e {
            Some(x) => { found.push(x); },
            None => {},
        }
        j += 1;
    }
    proof { assert(idxs@.take(j as int) =~= idxs@); }
    let mut out: Vec<DomainEvent> = Vec::new();
    let mut k: usize = 0;
    while k < found.len()
        invariant
            k <= found@.len(),
            out@ == sort_by_index(found@.take(k as int)),
        decreases found@.len() - k,
    {
        let x = found[k];
        let mut p: usize = out.len();
        while p > 0 && out[p - 1].event_index > x.event_index
            invariant
                p <= out@.len(),
                forall|q: int| p <= q < out@.len() ==> out@[q].event_index > x.event_index,
            decreases p,
        {
            p -= 1;
        }
        proof {
            lemma_insert_by_index_at(out@, x, p as int);
            assert(found@.take(k + 1).drop_last() =~= found@.take(k as int));
        }
        out.insert(p, x);
        k += 1;
    }
    proof { assert(found@.take(k as int) =~= found@); }
    out
}


/// The event keys that a scan of block `height`'s index yields: one for each
/// leading key that is an index key of that block, up to the first key that
/// is not one.
pub open spec fn scanned_block_events(height: u64, keys: Seq<Seq<u8>>) -> Seq<EventStoreKey>
    decreases keys.len(),
{
    if keys.len() == 0 {
        Seq::empty()
    } else {
        match decode_key(keys[0]) {
            Some(EventStoreKey::BlockIndex { block_height, tx_hash, event_index }) => if block_height == height {
                seq![EventStoreKey::Event { block_height, tx_hash, event_index }] + scanned_block_events(height, keys.drop_first())
            } else {
                Seq::empty()
            },
            _ => Seq::empty(),
        }
    }
}

/// The keys of the events of block `height`, from a scan of the block index
/// read from that block's prefix onwards; the scan stops at the first key
/// that is not an index key of the block. The events are then read under
/// these keys, in this order.
pub fn block_event_keys_from_scan(height: u64, index_keys: &[Vec<u8>]) -> (r: Vec<EventStoreKey>)
    ensures
        r@ == scanned_block_events(height, byte_keys(index_keys@)),
{
    let ghost keys = byte_keys(index_keys@);
    let mut out: Vec<EventStoreKey> = Vec::new();
    proof { assert(Seq::<EventStoreKey>::empty() + scanned_block_events(height, keys.subrange(0, keys.len() as int)) =~= scanned_block_events(height, keys)) by {
        assert(keys.subrange(0, keys.len() as int) =~= keys);
    } }
    let mut i: usize = 0;
    while i < index_keys.len()
        invariant_except_break
            i <= index_keys@.len(),
            keys == byte_keys(index_keys@),
            scanned_block_events(height, keys) == out@ + scanned_block_events(height, keys.subrange(i as int, keys.len() as int)),
        ensures
            scanned_block_events(height, keys) == out@,
        decreases index_keys@.len() - i,
    {
        let ghost rest = keys.subrange(i as int, keys.len() as int);
        proof {
            assert(rest.drop_first() =~= keys.subrange(i + 1, keys.len() as int));
            assert(rest[0] == index_keys@[i as int]@);
        }
        let decoded = EventStoreKey::from_bytes(index_keys[i].as_slice());
        proof { lemma_decode_key(index_keys@[i as int]@, decoded); }
        match decoded {
            Ok(EventStoreKey::BlockIndex { block_height, tx_hash, event_index }) => {
                if block_height == height {
                    let ghost before = out@;
                    let k = EventStoreKey::Event { block_height, tx_hash, event_index };
                    out.push(k);
                    proof {
                        assert(out@ + scanned_block_events(height, keys.subrange(i + 1, keys.len() as int))
                            =~= before + (seq![k] + scanned_block_events(height, rest.drop_first())));
                    }
                } else {
                    proof { assert(out@ + scanned_block_events(height, rest) =~= out@); }
                    break;
                }
            },
            _ => {
                proof { assert(out@ + scanned_block_events(height, rest) =~= out@); }
                break;
            },
        }
        i += 1;
    }
    proof {
        if i == index_keys.len() {
            assert(keys.subrange(i as int, keys.len() as int).len() == 0);
            assert(out@ + Seq::<EventStoreKey>::empty() =~= out@);
        }
    }
    out
}

} // verus!
