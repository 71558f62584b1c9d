//! Storage keys of the event store as bytes: a one-byte variant tag, then
//! the fields in order (integers little-endian, hashes as their 32 bytes),
//! so that keys of one kind share a prefix and sort by their leading fields.
use vstd::prelude::*;
use crate::bytes::{be_bytes, le_bytes, be_bytes_of, le_bytes_of, push_all, le_value_at, be_value_at,
    lemma_be_bytes_len, lemma_le_bytes_len, lemma_le_bytes_of_value, lemma_be_bytes_of_value,
    lemma_le_value_of_bytes, lemma_be_value_of_bytes, lemma_pow256_values};
use crate::types::{TxHash, be_value};

verus! {

/// The 32 bytes of a hash, most significant first.
pub open spec fn hash_bytes(h: TxHash) -> Seq<u8> {
    be_bytes(h.hi as nat, 16) + be_bytes(h.lo as nat, 16)
}

impl TxHash {
    /// The hash made of the given 32 bytes.
    pub fn from_bytes(bytes: [u8; 32]) -> (r: TxHash)
        ensures
            hash_bytes(r) == bytes@,
    {
        let hi = be_value_at(&bytes, 0, 16);
        let lo = be_value_at(&bytes, 16, 32);
        proof {
            lemma_be_bytes_of_value(bytes@.subrange(0, 16));
            lemma_be_bytes_of_value(bytes@.subrange(16, 32));
            assert(bytes@ =~= bytes@.subrange(0, 16) + bytes@.subrange(16, 32));
        }
        TxHash { hi, lo }
    }
}

fn hash_bytes_of(h: TxHash) -> (r: Vec<u8>)
    ensures
        r@ == hash_bytes(h),
{
    let mut v = be_bytes_of(h.hi, 16);
    let lo = be_bytes_of(h.lo, 16);
    push_all(&mut v, lo.as_slice());
    v
}

/// A key of the event store.
#[derive(Debug, Clone, Copy, PartialEq, Eq, Structural)]
pub enum EventStoreKey {
    /// An event, by block, transaction and position.
    Event { block_height: u64, tx_hash: TxHash, event_index: u32 },
    /// Index entry of an event under its block.
    BlockIndex { block_height: u64, tx_hash: TxHash, event_index: u32 },
    /// Index entry of an event under its transaction.
    TxIndex { tx_hash: TxHash, event_index: u32 },
    /// The total event count.
    MetaCount,
}

/// Why bytes are not a key.
#[derive(Debug, Clone, Copy, PartialEq, Eq, Structural)]
pub enum KeyDecodeError {
    /// The bytes end before the key does.
    UnexpectedEnd,
    /// The first byte names no kind of key.
    UnknownVariant(u8),
    /// Bytes are left after the key.
    TrailingBytes,
}

/// The encoding of a key.
pub open spec fn key_bytes(k: EventStoreKey) -> Seq<u8> {
    match k {
        EventStoreKey::Event { block_height, tx_hash, event_index } =>
            seq![0u8] + le_bytes(block_height as nat, 8) + hash_bytes(tx_hash) + le_bytes(event_index as nat, 4),
        EventStoreKey::BlockIndex { block_height, tx_hash, event_index } =>
            seq![1u8] + le_bytes(block_height as nat, 8) + hash_bytes(tx_hash) + le_bytes(event_index as nat, 4),
        EventStoreKey::TxIndex { tx_hash, event_index } =>
            seq![2u8] + hash_bytes(tx_hash) + le_bytes(event_index as nat, 4),
        EventStoreKey::MetaCount => seq![3u8],
    }
}

/// The length of the encoding of a key whose tag is `tag` (`tag < 4`).
pub open spec fn encoded_len(tag: u8) -> nat {
    if tag == 0 || tag == 1 { 45 } else if tag == 2 { 37 } else { 1 }
}

proof fn lemma_key_shape(k: EventStoreKey)
    ensures
        key_bytes(k).len() > 0,
        key_bytes(k)[0] < 4,
        key_bytes(k).len() == encoded_len(key_bytes(k)[0]),
{
    lemma_be_bytes_len(0, 16);
    match k {
        EventStoreKey::Event { block_height, tx_hash, event_index } => {
            lemma_le_bytes_len(block_height as nat, 8);
            lemma_be_bytes_len(tx_hash.hi as nat, 16);
            lemma_be_bytes_len(tx_hash.lo as nat, 16);
            lemma_le_bytes_len(event_index as nat, 4);
        },
        EventStoreKey::BlockIndex { block_height, tx_hash, event_index } => {
            lemma_le_bytes_len(block_height as nat, 8);
            lemma_be_bytes_len(tx_hash.hi as nat, 16);
            lemma_be_bytes_len(tx_hash.lo as nat, 16);
            lemma_le_bytes_len(event_index as nat, 4);
        },
        EventStoreKey::TxIndex { tx_hash, event_index } => {
            lemma_be_bytes_len(tx_hash.hi as nat, 16);
            lemma_be_bytes_len(tx_hash.lo as nat, 16);
            lemma_le_bytes_len(event_index as nat, 4);
        },
        EventStoreKey::MetaCount => {},
    }
}

/// The hash whose bytes are `b` (32 bytes).
spec fn hash_of(b: Seq<u8>) -> TxHash {
    TxHash { hi: be_value(b.subrange(0, 16)) as u128, lo: be_value(b.subrange(16, 32)) as u128 }
}

proof fn lemma_hash_round_trip(h: TxHash)
    ensures
        hash_bytes(h).len() == 32,
        hash_of(hash_bytes(h)) == h,
{
    lemma_pow256_values();
    lemma_be_bytes_len(h.hi as nat, 16);
    lemma_be_bytes_len(h.lo as nat, 16);
    let b = hash_bytes(h);
    assert(b.subrange(0, 16) =~= be_bytes(h.hi as nat, 16));
    assert(b.subrange(16, 32) =~= be_bytes(h.lo as nat, 16));
    lemma_be_value_of_bytes(h.hi as nat, 16);
    lemma_be_value_of_bytes(h.lo as nat, 16);
}

impl EventStoreKey {
    /// The key's bytes.
    pub fn to_bytes(&self) -> (r: Vec<u8>)
        ensures
            r@ == key_bytes(*self),
    {
        let mut v: Vec<u8> = Vec::new();
        match self {
            EventStoreKey::Event { block_height, tx_hash, event_index } => {
                v.push(0u8);
                let h = le_bytes_of(*block_height as u128, 8);
                push_all(&mut v, h.as_slice());
                let t = hash_bytes_of(*tx_hash);
                push_all(&mut v, t.as_slice());
                let e = le_bytes_of(*event_index as u128, 4);
                push_all(&mut v, e.as_slice());
            },
            EventStoreKey::BlockIndex { block_height, tx_hash, event_index } => {
                v.push(1u8);
                let h = le_bytes_of(*block_height as u128, 8);
                push_all(&mut v, h.as_slice());
                let t = hash_bytes_of(*tx_hash);
                push_all(&mut v, t.as_slice());
                let e = le_bytes_of(*event_index as u128, 4);
                push_all(&mut v, e.as_slice());
            },
            EventStoreKey::TxIndex { tx_hash, event_index } => {
                v.push(2u8);
                let t = hash_bytes_of(*tx_hash);
                push_all(&mut v, t.as_slice());
                let e = le_bytes_of(*event_index as u128, 4);
                push_all(&mut v, e.as_slice());
            },
            EventStoreKey::MetaCount => {
                v.push(3u8);
            },
        }
        proof { assert(v@ =~= key_bytes(*self)); }
        v
    }

    /// The key whose bytes are `bytes`, or why there is none.
    pub fn from_bytes(bytes: &[u8]) -> (r: Result<EventStoreKey, KeyDecodeError>)
        ensures
            match r {
                Ok(k) => key_bytes(k) == bytes@,
                Err(KeyDecodeError::UnexpectedEnd) => bytes@.len() == 0
                    || (bytes@[0] < 4 && bytes@.len() < encoded_len(bytes@[0])),
                Err(KeyDecodeError::UnknownVariant(v)) => bytes@.len() > 0 && bytes@[0] >= 4 && v == bytes@[0],
                Err(KeyDecodeError::TrailingBytes) => bytes@.len() > 0 && bytes@[0] < 4
                    && bytes@.len() > encoded_len(bytes@[0]),
            },
    {
        if bytes.len() == 0 {
            return Err(KeyDecodeError::UnexpectedEnd);
        }
        let tag = bytes[0];
        if tag >= 4 {
            return Err(KeyDecodeError::UnknownVariant(tag));
        }
        let need: usize = if tag == 0 || tag == 1 { 45 } else if tag == 2 { 37 } else { 1 };
        if bytes.len() < need {
            return Err(KeyDecodeError::UnexpectedEnd);
        }
        if bytes.len() > need {
            return Err(KeyDecodeError::TrailingBytes);
        }
        let ghost b = bytes@;
        proof { lemma_pow256_values(); }
        if tag == 3 {
            proof { assert(b =~= seq![3u8]); }
            return Ok(EventStoreKey::MetaCount);
        }
        if tag == 2 {
            let hi = be_value_at(bytes, 1, 17);
            let lo = be_value_at(bytes, 17, 33);
            let ei = le_value_at(bytes, 33, 37);
            proof {
                lemma_be_bytes_of_value(b.subrange(1, 17));
                lemma_be_bytes_of_value(b.subrange(17, 33));
                lemma_le_bytes_of_value(b.subrange(33, 37));
            }
            let k = EventStoreKey::TxIndex { tx_hash: TxHash { hi, lo }, event_index: ei as u32 };
            proof {
                assert(b =~= seq![2u8] + (b.subrange(1, 17) + b.subrange(17, 33)) + b.subrange(33, 37));
            }
            return Ok(k);
        }
        let bh = le_value_at(bytes, 1, 9);
        let hi = be_value_at(bytes, 9, 25);
        let lo = be_value_at(bytes, 25, 41);
        let ei = le_value_at(bytes, 41, 45);
        proof {
            lemma_le_bytes_of_value(b.subrange(1, 9));
            lemma_be_bytes_of_value(b.subrange(9, 25));
            lemma_be_bytes_of_value(b.subrange(25, 41));
            lemma_le_bytes_of_value(b.subrange(41, 45));
            assert(b =~= seq![tag] + b.subrange(1, 9) + (b.subrange(9, 25) + b.subrange(25, 41)) + b.subrange(41, 45));
        }
        let tx_hash = TxHash { hi, lo };
        if tag == 0 {
            Ok(EventStoreKey::Event { block_height: bh as u64, tx_hash, event_index: ei as u32 })
        } else {
            Ok(EventStoreKey::BlockIndex { block_height: bh as u64, tx_hash, event_index: ei as u32 })
        }
    }

    /// The prefix shared by all event keys.
    pub fn prefix_for_events() -> (r: Vec<u8>)
        ensures
            r@ == seq![0u8],
    {
        let mut v: Vec<u8> = Vec::new();
        v.push(0u8);
        proof { assert(v@ =~= seq![0u8]); }
        v
    }

    /// The prefix shared by all block-index keys.
    pub fn prefix_for_block_index() -> (r: Vec<u8>)
        ensures
            r@ == seq![1u8],
    {
        let mut v: Vec<u8> = Vec::new();
        v.push(1u8);
        proof { assert(v@ =~= seq![1u8]); }
        v
    }

    /// The prefix shared by all transaction-index keys.
    pub fn prefix_for_tx_index() -> (r: Vec<u8>)
        ensures
            r@ == seq![2u8],
    {
        let mut v: Vec<u8> = Vec::new();
        v.push(2u8);
        proof { assert(v@ =~= seq![2u8]); }
        v
    }

    /// The prefix shared by the block-index keys of block `block_height`.
    pub fn prefix_for_block(block_height: u64) -> (r: Vec<u8>)
        ensures
            r@ == seq![1u8] + le_bytes(block_height as nat, 8),
    {
        let mut v: Vec<u8> = Vec::new();
        v.push(1u8);
        let h = le_bytes_of(block_height as u128, 8);
        push_all(&mut v, h.as_slice());
        proof { assert(v@ =~= seq![1u8] + le_bytes(block_height as nat, 8)); }
        v
    }

    /// The prefix shared by the transaction-index keys of `tx_hash`.
    pub fn prefix_for_tx(tx_hash: TxHash) -> (r: Vec<u8>)
        ensures
            r@ == seq![2u8] + hash_bytes(tx_hash),
    {
        let mut v: Vec<u8> = Vec::new();
        v.push(2u8);
        let t = hash_bytes_of(tx_hash);
        push_all(&mut v, t.as_slice());
        proof { assert(v@ =~= seq![2u8] + hash_bytes(tx_hash)); }
        v
    }
}

/// Distinct keys have distinct encodings, so decoding a key's bytes gives
/// the key back.
pub proof fn law_key_encoding_injective(a: EventStoreKey, b: EventStoreKey)
    requires
        key_bytes(a) == key_bytes(b),
    ensures
        a == b,
{
    lemma_key_shape(a);
    lemma_key_shape(b);
    lemma_pow256_values();
    let s = key_bytes(a);
    match a {
        EventStoreKey::Event { block_height, tx_hash, event_index } => {
            lemma_le_bytes_len(block_height as nat, 8);
            lemma_hash_round_trip(tx_hash);
            lemma_le_bytes_len(event_index as nat, 4);
            assert(s.subrange(1, 9) =~= le_bytes(block_height as nat, 8));
            assert(s.subrange(9, 41) =~= hash_bytes(tx_hash));
            assert(s.subrange(41, 45) =~= le_bytes(event_index as nat, 4));
            lemma_le_value_of_bytes(block_height as nat, 8);
            lemma_le_value_of_bytes(event_index as nat, 4);
            match b {
                EventStoreKey::Event { block_height: h2, tx_hash: t2, event_index: e2 } => {
                    lemma_le_bytes_len(h2 as nat, 8);
                    lemma_hash_round_trip(t2);
                    lemma_le_bytes_len(e2 as nat, 4);
                    assert(s.subrange(1, 9) =~= le_bytes(h2 as nat, 8));
                    assert(s.subrange(9, 41) =~= hash_bytes(t2));
                    assert(s.subrange(41, 45) =~= le_bytes(e2 as nat, 4));
                    lemma_le_value_of_bytes(h2 as nat, 8);
                    lemma_le_value_of_bytes(e2 as nat, 4);
                },
                _ => { assert(key_bytes(b)[0] != s[0]); },
            }
        },
        EventStoreKey::BlockIndex { block_height, tx_hash, event_index } => {
            lemma_le_bytes_len(block_height as nat, 8);
            lemma_hash_round_trip(tx_hash);
            lemma_le_bytes_len(event_index as nat, 4);
            assert(s.subrange(1, 9) =~= le_bytes(block_height as nat, 8));
            assert(s.subrange(9, 41) =~= hash_bytes(tx_hash));
            assert(s.subrange(41, 45) =~= le_bytes(event_index as nat, 4));
            lemma_le_value_of_bytes(block_height as nat, 8);
            lemma_le_value_of_bytes(event_index as nat, 4);
            match b {
                EventStoreKey::BlockIndex { block_height: h2, tx_hash: t2, event_index: e2 } => {
                    lemma_le_bytes_len(h2 as nat, 8);
                    lemma_hash_round_trip(t2);
                    lemma_le_bytes_len(e2 as nat, 4);
                    assert(s.subrange(1, 9) =~= le_bytes(h2 as nat, 8));
                    assert(s.subrange(9, 41) =~= hash_bytes(t2));
                    assert(s.subrange(41, 45) =~= le_bytes(e2 as nat, 4));
                    lemma_le_value_of_bytes(h2 as nat, 8);
                    lemma_le_value_of_bytes(e2 as nat, 4);
                },
                _ => { assert(key_bytes(b)[0] != s[0]); },
            }
        },
        EventStoreKey::TxIndex { tx_hash, event_index } => {
            lemma_hash_round_trip(tx_hash);
            lemma_le_bytes_len(event_index as nat, 4);
            assert(s.subrange(1, 33) =~= hash_bytes(tx_hash));
            assert(s.subrange(33, 37) =~= le_bytes(event_index as nat, 4));
            lemma_le_value_of_bytes(event_index as nat, 4);
            match b {
                EventStoreKey::TxIndex { tx_hash: t2, event_index: e2 } => {
                    lemma_hash_round_trip(t2);
                    lemma_le_bytes_len(e2 as nat, 4);
                    assert(s.subrange(1, 33) =~= hash_bytes(t2));
                    assert(s.subrange(33, 37) =~= le_bytes(e2 as nat, 4));
                    lemma_le_value_of_bytes(e2 as nat, 4);
                },
                _ => { assert(key_bytes(b)[0] != s[0]); },
            }
        },
        EventStoreKey::MetaCount => {
            match b {
                EventStoreKey::MetaCount => {},
                _ => { assert(key_bytes(b)[0] != s[0]); },
            }
        },
    }
}

/// The bytes of every key decode: a key's encoding is never refused.
pub proof fn law_key_encoding_well_formed(k: EventStoreKey)
    ensures
        key_bytes(k).len() > 0,
        key_bytes(k)[0] < 4,
        key_bytes(k).len() == encoded_len(key_bytes(k)[0]),
{
    lemma_key_shape(k);
}

/// The block-index keys of a block start with that block's prefix, and the
/// transaction-index keys of a transaction with that transaction's prefix.
pub proof fn law_key_prefixes(block_height: u64, tx_hash: TxHash, event_index: u32)
    ensures
        key_bytes(EventStoreKey::BlockIndex { block_height, tx_hash, event_index }).subrange(0, 9)
            == seq![1u8] + le_bytes(block_height as nat, 8),
        key_bytes(EventStoreKey::TxIndex { tx_hash, event_index }).subrange(0, 33)
            == seq![2u8] + hash_bytes(tx_hash),
{
    lemma_le_bytes_len(block_height as nat, 8);
    lemma_be_bytes_len(tx_hash.hi as nat, 16);
    lemma_be_bytes_len(tx_hash.lo as nat, 16);
    assert(key_bytes(EventStoreKey::BlockIndex { block_height, tx_hash, event_index }).subrange(0, 9)
        =~= seq![1u8] + le_bytes(block_height as nat, 8));
    assert(key_bytes(EventStoreKey::TxIndex { tx_hash, event_index }).subrange(0, 33)
        =~= seq![2u8] + hash_bytes(tx_hash));
}

} // verus!
