//! Mempool: pending transactions with duplicate detection, a per-sender
//! limit, nonce bookkeeping and a capacity.
use vstd::prelude::*;
use crate::tx_index::{TransactionIndex, TxIndexView, nonce_insert, present_txs, count_up_to, remove_hashes};
use crate::types::{Address, Transaction, TxHash};

verus! {

/// Mempool limits.
#[derive(Debug, Clone, Copy, PartialEq, Eq, Structural)]
pub struct MempoolConfig {
    /// Maximum number of transactions in the pool.
    pub max_size: usize,
    /// Maximum number of transactions per sender.
    pub max_txs_per_sender: usize,
    /// Whether nonces must be used in order.
    pub strict_nonce_ordering: bool,
}

impl MempoolConfig {
    /// A configuration with strict nonce ordering.
    pub fn new(max_size: usize, max_txs_per_sender: usize) -> (r: Self)
        ensures
            r == (MempoolConfig { max_size, max_txs_per_sender, strict_nonce_ordering: true }),
    {
        MempoolConfig { max_size, max_txs_per_sender, strict_nonce_ordering: true }
    }

    /// The same configuration with relaxed nonce ordering.
    pub fn with_relaxed_nonce_ordering(self) -> (r: Self)
        ensures
            r == (MempoolConfig { strict_nonce_ordering: false, ..self }),
    {
        let mut c = self;
        c.strict_nonce_ordering = false;
        c
    }

    /// Check the limits: both positive, and the per-sender limit within the
    /// pool size.
    pub fn validate(&self) -> (r: Result<(), &'static str>)
        ensures
            self.max_size == 0 ==> r == Err::<(), &'static str>("max_size must be greater than 0"),
            self.max_size > 0 && self.max_txs_per_sender == 0
                ==> r == Err::<(), &'static str>("max_txs_per_sender must be greater than 0"),
            self.max_size > 0 && self.max_txs_per_sender > 0 && self.max_txs_per_sender > self.max_size
                ==> r == Err::<(), &'static str>("max_txs_per_sender cannot exceed max_size"),
            self.max_size > 0 && self.max_txs_per_sender > 0 && self.max_txs_per_sender <= self.max_size
                ==> r == Ok::<(), &'static str>(()),
    {
        if self.max_size == 0 {
            Err("max_size must be greater than 0")
        } else if self.max_txs_per_sender == 0 {
            Err("max_txs_per_sender must be greater than 0")
        } else if self.max_txs_per_sender > self.max_size {
            Err("max_txs_per_sender cannot exceed max_size")
        } else {
            Ok(())
        }
    }
}

impl From<(usize, usize)> for MempoolConfig {
    fn from(limits: (usize, usize)) -> (r: Self) {
        MempoolConfig::new(limits.0, limits.1)
    }
}

impl vstd::std_specs::convert::FromSpecImpl<(usize, usize)> for MempoolConfig {
    open spec fn obeys_from_spec() -> bool {
        true
    }

    open spec fn from_spec(limits: (usize, usize)) -> Self {
        MempoolConfig { max_size: limits.0, max_txs_per_sender: limits.1, strict_nonce_ordering: true }
    }
}

impl From<(usize, usize, bool)> for MempoolConfig {
    fn from(settings: (usize, usize, bool)) -> (r: Self) {
        MempoolConfig { max_size: settings.0, max_txs_per_sender: settings.1, strict_nonce_ordering: settings.2 }
    }
}

impl vstd::std_specs::convert::FromSpecImpl<(usize, usize, bool)> for MempoolConfig {
    open spec fn obeys_from_spec() -> bool {
        true
    }

    open spec fn from_spec(settings: (usize, usize, bool)) -> Self {
        MempoolConfig { max_size: settings.0, max_txs_per_sender: settings.1, strict_nonce_ordering: settings.2 }
    }
}

impl Default for MempoolConfig {
    fn default() -> (r: Self)
        ensures
            r == (MempoolConfig { max_size: 10_000, max_txs_per_sender: 100, strict_nonce_ordering: true }),
    {
        MempoolConfig::new(10_000, 100)
    }
}

/// Mempool errors.
#[derive(Debug, Clone)]
pub enum MempoolError {
    /// The pool is at capacity (the capacity).
    MempoolFull(usize),
    /// A transaction with this hash is already pending.
    DuplicateTransaction(TxHash),
    /// No pending transaction has this hash.
    TransactionNotFound(TxHash),
    /// The nonce is not the one expected.
    InvalidNonce { sender: Address, nonce: u64, expected: u64 },
    /// The nonce skips ahead of the one expected.
    NonceGap { sender: Address, nonce: u64, expected: u64 },
    /// The sender has as many pending transactions as allowed.
    RateLimitExceeded { sender: Address, current: usize, max: usize },
    /// Invalid configuration.
    InvalidConfig(String),
    /// The transaction failed validation.
    ValidationFailed(String),
    /// Any other error.
    Other(String),
}

impl MempoolError {
    /// An [`MempoolError::Other`] error carrying `message`.
    pub fn other(message: &str) -> (r: Self)
        ensures
            r is Other && r->Other_0@ == message@,
    {
        MempoolError::Other(message.to_owned())
    }

    /// Whether retrying later may succeed (the pool was full).
    pub fn is_retryable(&self) -> (r: bool)
        ensures
            r == (*self is MempoolFull),
    {
        matches!(self, MempoolError::MempoolFull(_))
    }

    /// Whether the sender's limit was hit.
    pub fn is_rate_limited(&self) -> (r: bool)
        ensures
            r == (*self is RateLimitExceeded),
    {
        matches!(self, MempoolError::RateLimitExceeded { .. })
    }

    /// Whether the error is about nonces.
    pub fn is_nonce_error(&self) -> (r: bool)
        ensures
            r == (*self is InvalidNonce || *self is NonceGap),
    {
        matches!(self, MempoolError::InvalidNonce { .. } | MempoolError::NonceGap { .. })
    }

    /// A short description of the kind of error.
    pub fn as_ref(&self) -> (r: &'static str)
        ensures
            *self is MempoolFull ==> r == "mempool full",
            *self is DuplicateTransaction ==> r == "duplicate transaction",
            *self is TransactionNotFound ==> r == "transaction not found",
            *self is InvalidNonce ==> r == "invalid nonce",
            *self is NonceGap ==> r == "nonce gap",
            *self is RateLimitExceeded ==> r == "rate limit exceeded",
            *self is InvalidConfig ==> r == "invalid config",
            *self is ValidationFailed ==> r == "validation failed",
            *self is Other ==> r == "other error",
    {
        match self {
            MempoolError::MempoolFull(_) => "mempool full",
            MempoolError::DuplicateTransaction(_) => "duplicate transaction",
            MempoolError::TransactionNotFound(_) => "transaction not found",
            MempoolError::InvalidNonce { .. } => "invalid nonce",
            MempoolError::NonceGap { .. } => "nonce gap",
            MempoolError::RateLimitExceeded { .. } => "rate limit exceeded",
            MempoolError::InvalidConfig(_) => "invalid config",
            MempoolError::ValidationFailed(_) => "validation failed",
            MempoolError::Other(_) => "other error",
        }
    }
}

impl From<&str> for MempoolError {
    /// An [`MempoolError::Other`] error carrying the message (see [`MempoolError::other`]).
    fn from(message: &str) -> (r: Self) {
        MempoolError::other(message)
    }
}

impl vstd::std_specs::convert::FromSpecImpl<&str> for MempoolError {
    /// The message is a `String`, whose value the view of the text does not
    /// determine, so no exact result is claimed here.
    open spec fn obeys_from_spec() -> bool {
        false
    }

    open spec fn from_spec(message: &str) -> Self {
        MempoolError::MempoolFull(0)
    }
}

impl From<String> for MempoolError {
    fn from(message: String) -> (r: Self) {
        MempoolError::Other(message)
    }
}

impl vstd::std_specs::convert::FromSpecImpl<String> for MempoolError {
    open spec fn obeys_from_spec() -> bool {
        true
    }

    open spec fn from_spec(message: String) -> Self {
        MempoolError::Other(message)
    }
}

/// Statistics of a mempool.
#[derive(Debug, Clone, Copy, PartialEq, Eq, Structural)]
pub struct MempoolStats {
    pub total_txs: usize,
    pub unique_senders: usize,
    pub capacity: usize,
    pub available: usize,
    /// Share of the capacity in use, in percent.
    pub utilization_pct: u8,
}

/// What adding `tx` to a pool with limits `cfg` and content `v` gives: the
/// result and the new content. Checks come in order: capacity, duplicate
/// hash, per-sender limit.
pub open spec fn add_outcome(cfg: MempoolConfig, v: TxIndexView, tx: Transaction) -> (Result<TxHash, MempoolError>, TxIndexView) {
    let count = v.nonces(tx.from).len();
    if v.txs.dom().len() >= cfg.max_size {
        (Err(MempoolError::MempoolFull(cfg.max_size)), v)
    } else if v.txs.contains_key(tx.tx_hash) {
        (Err(MempoolError::DuplicateTransaction(tx.tx_hash)), v)
    } else if count >= cfg.max_txs_per_sender {
        (Err(MempoolError::RateLimitExceeded { sender: tx.from, current: count as usize, max: cfg.max_txs_per_sender }), v)
    } else {
        (Ok(tx.tx_hash), TxIndexView {
            txs: v.txs.insert(tx.tx_hash, tx),
            by_sender: v.by_sender.insert(tx.from, nonce_insert(v.nonces(tx.from), tx.nonce, tx.tx_hash)),
        })
    }
}

/// Adding the transactions of `txs` one after the other.
pub open spec fn add_batch_outcome(cfg: MempoolConfig, v: TxIndexView, txs: Seq<Transaction>) -> (Seq<Result<TxHash, MempoolError>>, TxIndexView)
    decreases txs.len(),
{
    if txs.len() == 0 {
        (Seq::empty(), v)
    } else {
        let (rs, v1) = add_batch_outcome(cfg, v, txs.drop_last());
        let (r, v2) = add_outcome(cfg, v1, txs.last());
        (rs.push(r), v2)
    }
}

/// The pending transactions of the senders of `order`, sender after sender,
/// each sender's in nonce order.
pub open spec fn txs_of_senders(v: TxIndexView, order: Seq<Address>) -> Seq<Transaction>
    decreases order.len(),
{
    if order.len() == 0 {
        Seq::empty()
    } else {
        txs_of_senders(v, order.drop_last()) + present_txs(v.nonces(order.last()), v.txs)
    }
}

/// The first `n` elements of `s` (all of them when there are fewer).
pub open spec fn first_n<T>(s: Seq<T>, n: int) -> Seq<T> {
    if n < s.len() { s.take(n) } else { s }
}

/// Share of `capacity` that `len` transactions fill, in percent, rounded
/// down and capped at 255; an empty pool of no capacity is 0% full and a
/// non-empty one 255%.
pub open spec fn utilization_pct(len: int, capacity: int) -> u8 {
    if capacity == 0 {
        if len == 0 { 0 } else { 255 }
    } else if len * 100 / capacity > 255 {
        255
    } else {
        (len * 100 / capacity) as u8
    }
}

/// Pending transactions with duplicate detection, a per-sender limit and a
/// capacity.
pub struct Mempool {
    index: TransactionIndex,
    config: MempoolConfig,
}

impl View for Mempool {
    type V = TxIndexView;

    closed spec fn view(&self) -> TxIndexView {
        self.index@
    }
}

impl Mempool {
    /// The pool's limits.
    pub closed spec fn settings(&self) -> MempoolConfig {
        self.config
    }

    /// An empty mempool with the given limits.
    pub fn new(config: MempoolConfig) -> (r: Self)
        ensures
            r.settings() == config,
            r@.txs == Map::<TxHash, Transaction>::empty(),
            r@.by_sender == Map::<Address, Seq<(u64, TxHash)>>::empty(),
    {
        Mempool { index: TransactionIndex::new(), config }
    }

    /// An empty mempool with the given limits and strict nonce ordering.
    pub fn with_limits(max_size: usize, max_txs_per_sender: usize) -> (r: Self)
        ensures
            r.settings() == (MempoolConfig { max_size, max_txs_per_sender, strict_nonce_ordering: true }),
            r@.txs == Map::<TxHash, Transaction>::empty(),
            r@.by_sender == Map::<Address, Seq<(u64, TxHash)>>::empty(),
    {
        let config: MempoolConfig = MempoolConfig::from((max_size, max_txs_per_sender));
        Mempool::new(config)
    }

    /// The pool's limits.
    pub fn config(&self) -> (r: &MempoolConfig)
        ensures
            *r == self.settings(),
    {
        &self.config
    }

    /// Whether the pool holds as many transactions as its capacity.
    pub fn is_full(&self) -> (r: bool)
        ensures
            r == (self@.txs.dom().len() >= self.settings().max_size),
    {
        self.index.len() >= self.config.max_size
    }

    /// Room left before the capacity is reached.
    pub fn available_capacity(&self) -> (r: usize)
        ensures
            r == if self@.txs.dom().len() >= self.settings().max_size { 0 } else {
                (self.settings().max_size - self@.txs.dom().len()) as usize
            },
    {
        self.config.max_size.saturating_sub(self.index.len())
    }

    /// Add a transaction: refused when the pool is full, when its hash is
    /// already pending, or when its sender is at its limit.
    pub fn add(&mut self, tx: Transaction) -> (r: Result<TxHash, MempoolError>)
        ensures
            (r, final(self)@) == add_outcome(old(self).settings(), old(self)@, tx),
            final(self).settings() == old(self).settings(),
            final(self)@.txs.dom().finite(),
            r is Ok ==> final(self)@.txs.dom().len() == old(self)@.txs.dom().len() + 1,
    {
        let len = self.index.len();
        if len >= self.config.max_size {
            return Err(MempoolError::MempoolFull(self.config.max_size));
        }
        let tx_hash = tx.hash();
        if self.index.contains(&tx_hash) {
            return Err(MempoolError::DuplicateTransaction(tx_hash));
        }
        let count = self.index.sender_tx_count(&tx.from);
        if count >= self.config.max_txs_per_sender {
            return Err(MempoolError::RateLimitExceeded { sender: tx.from, current: count, max: self.config.max_txs_per_sender });
        }
        self.index.insert(tx);
        Ok(tx_hash)
    }

    /// Remove a transaction by hash (see [`TransactionIndex::remove`]).
    pub fn remove(&mut self, tx_hash: &TxHash) -> (r: Option<Transaction>)
        ensures
            final(self).settings() == old(self).settings(),
            !old(self)@.txs.contains_key(*tx_hash) ==> r is None && final(self)@ == old(self)@,
            old(self)@.txs.contains_key(*tx_hash) ==> ({
                let tx = old(self)@.txs[*tx_hash];
                &&& r == Some(tx)
                &&& final(self)@.txs == old(self)@.txs.remove(*tx_hash)
                &&& final(self)@.by_sender == old(self)@.with_nonces(tx.from, crate::tx_index::nonce_remove(old(self)@.nonces(tx.from), tx.nonce))
            }),
    {
        self.index.remove(tx_hash)
    }

    /// The transaction stored under `tx_hash`, if any.
    pub fn get(&self, tx_hash: &TxHash) -> (r: Option<Transaction>)
        ensures
            r == if self@.txs.contains_key(*tx_hash) { Some(self@.txs[*tx_hash]) } else { None::<Transaction> },
    {
        self.index.get(tx_hash)
    }

    /// Whether a transaction is pending under `tx_hash`.
    pub fn contains(&self, tx_hash: &TxHash) -> (r: bool)
        ensures
            r == self@.txs.contains_key(*tx_hash),
    {
        self.index.contains(tx_hash)
    }

    /// The pending transactions of `sender`, in nonce order.
    pub fn get_sender_txs(&self, sender: &Address) -> (r: Vec<Transaction>)
        ensures
            r@ == present_txs(self@.nonces(*sender), self@.txs),
    {
        self.index.get_by_sender(sender)
    }

    /// Number of pending transactions of `sender`.
    pub fn sender_tx_count(&self, sender: &Address) -> (r: usize)
        ensures
            r == self@.nonces(*sender).len(),
    {
        self.index.sender_tx_count(sender)
    }

    /// Up to `limit` pending transactions, sender after sender (in no
    /// particular order of senders), each sender's in nonce order.
    pub fn ready_txs(&self, limit: usize) -> (r: Vec<Transaction>)
        ensures
            exists|order: Seq<Address>| {
                &&& order.no_duplicates()
                &&& forall|a: Address| order.contains(a) <==> self@.by_sender.contains_key(a)
                &&& r@ == first_n(txs_of_senders(self@, order), limit as int)
            },
    {
        let senders = self.index.get_all_senders();
        let mut r: Vec<Transaction> = Vec::new();
        let mut i: usize = 0;
        while i < senders.len() && r.len() < limit
            invariant
                i <= senders@.len(),
                r@.len() <= limit,
                r@ == first_n(txs_of_senders(self@, senders@.take(i as int)), limit as int),
            decreases senders@.len() - i,
        {
            let txs = self.index.get_by_sender(&senders[i]);
            let ghost before = txs_of_senders(self@, senders@.take(i as int));
            proof {
                assert(senders@.take(i + 1).drop_last() =~= senders@.take(i as int));
                assert(r@ == before);
            }
            let mut k: usize = 0;
            while k < txs.len() && r.len() < limit
                invariant
                    k <= txs@.len(),
                    r@.len() <= limit,
                    r@ == first_n(before + txs@.take(k as int), limit as int),
                decreases txs@.len() - k,
            {
                proof {
                    assert((before + txs@.take(k as int)).len() == r@.len());
                    assert(before + txs@.take(k + 1) =~= (before + txs@.take(k as int)).push(txs@[k as int]));
                }
                r.push(txs[k]);
                k += 1;
            }
            proof {
                let all = before + txs@;
                if k == txs@.len() {
                    assert(txs@.take(k as int) =~= txs@);
                } else {
                    assert(r@.len() == limit);
                    assert(first_n(before + txs@.take(k as int), limit as int) =~= first_n(all, limit as int));
                }
            }
            i += 1;
        }
        proof {
            let all = txs_of_senders(self@, senders@);
            if i == senders@.len() {
                assert(senders@.take(i as int) =~= senders@);
            } else {
                assert(r@.len() == limit);
                lemma_first_n_prefix(self@, senders@, i as int, limit as int);
            }
            assert(r@ == first_n(txs_of_senders(self@, senders@), limit as int));
        }
        r
    }

    /// The senders with pending transactions, each once.
    pub fn senders(&self) -> (r: Vec<Address>)
        ensures
            r@.no_duplicates(),
            forall|a: Address| r@.contains(a) <==> self@.by_sender.contains_key(a),
    {
        self.index.get_all_senders()
    }

    /// The senders with pending transactions (see [`Self::senders`]).
    pub fn senders_iter(&self) -> (r: Vec<Address>)
        ensures
            r@.no_duplicates(),
            forall|a: Address| r@.contains(a) <==> self@.by_sender.contains_key(a),
    {
        self.index.senders_iter()
    }

    /// The pending transactions of `sender` (see [`Self::get_sender_txs`]).
    pub fn sender_txs_iter(&self, sender: &Address) -> (r: Vec<Transaction>)
        ensures
            r@ == present_txs(self@.nonces(*sender), self@.txs),
    {
        self.index.sender_txs_iter(sender)
    }

    /// All pending `(hash, transaction)` pairs, each hash once.
    pub fn iter(&self) -> (r: Vec<(TxHash, Transaction)>)
        ensures
            crate::table::keys_unique(r@),
            crate::table::table_map(r@) == self@.txs,
    {
        self.index.iter()
    }

    /// Remove the transactions of `sender` with nonces up to and including
    /// `up_to_nonce`; returns their hashes in nonce order.
    pub fn prune_sender_nonces(&mut self, sender: &Address, up_to_nonce: u64) -> (r: Vec<TxHash>)
        ensures
            final(self).settings() == old(self).settings(),
            ({
                let s = old(self)@.nonces(*sender);
                let k = count_up_to(s, up_to_nonce) as int;
                let (out, m) = remove_hashes(s.take(k), old(self)@.txs);
                &&& r@ == out.map_values(|e: (TxHash, Transaction)| e.0)
                &&& final(self)@.txs == m
                &&& final(self)@.by_sender == old(self)@.with_nonces(*sender, s.skip(k))
            }),
    {
        let removed = self.index.remove_up_to_nonce(sender, up_to_nonce);
        let mut r: Vec<TxHash> = Vec::new();
        let mut i: usize = 0;
        while i < removed.len()
            invariant
                i <= removed@.len(),
                r@ == removed@.take(i as int).map_values(|e: (TxHash, Transaction)| e.0),
            decreases removed@.len() - i,
        {
            r.push(removed[i].0);
            i += 1;
            proof {
                assert(r@ =~= removed@.take(i as int).map_values(|e: (TxHash, Transaction)| e.0));
            }
        }
        proof { assert(removed@.take(removed@.len() as int) =~= removed@); }
        r
    }

    /// Number of pending transactions.
    pub fn len(&self) -> (r: usize)
        ensures
            r == self@.txs.dom().len(),
            self@.txs.dom().finite(),
    {
        self.index.len()
    }

    /// Whether no transaction is pending.
    pub fn is_empty(&self) -> (r: bool)
        ensures
            r == (self@.txs.dom().len() == 0),
    {
        self.index.is_empty()
    }

    /// Drop every pending transaction.
    pub fn clear(&mut self)
        ensures
            final(self).settings() == old(self).settings(),
            final(self)@.txs == Map::<TxHash, Transaction>::empty(),
            final(self)@.by_sender == Map::<Address, Seq<(u64, TxHash)>>::empty(),
    {
        self.index.clear();
    }

    /// The nonce after `sender`'s highest pending one, if it has any.
    pub fn next_nonce(&self, sender: &Address) -> (r: Option<u64>)
        requires
            self@.nonces(*sender).len() > 0 ==> self@.nonces(*sender).last().0 < u64::MAX,
        ensures
            r == if self@.nonces(*sender).len() > 0 { Some((self@.nonces(*sender).last().0 + 1) as u64) } else { None::<u64> },
    {
        match self.index.get_highest_nonce(sender) {
            Some(n) => Some(n + 1),
            None => None,
        }
    }

    /// The nonce after `sender`'s highest pending one, or 0.
    pub fn next_nonce_or_default(&self, sender: &Address) -> (r: u64)
        requires
            self@.nonces(*sender).len() > 0 ==> self@.nonces(*sender).last().0 < u64::MAX,
        ensures
            r == if self@.nonces(*sender).len() > 0 { (self@.nonces(*sender).last().0 + 1) as u64 } else { 0 },
    {
        match self.next_nonce(sender) {
            Some(n) => n,
            None => 0,
        }
    }

    /// Whether `sender` has a pending transaction with `nonce`.
    pub fn has_nonce(&self, sender: &Address, nonce: u64) -> (r: bool)
        ensures
            r == self@.has_nonce(*sender, nonce),
    {
        self.index.has_nonce(sender, nonce)
    }

    /// Highest pending nonce of `sender`.
    pub fn highest_nonce(&self, sender: &Address) -> (r: Option<u64>)
        ensures
            r == if self@.nonces(*sender).len() > 0 { Some(self@.nonces(*sender).last().0) } else { None::<u64> },
    {
        self.index.get_highest_nonce(sender)
    }

    /// Add transactions one after the other; one result per transaction.
    pub fn add_batch(&mut self, txs: Vec<Transaction>) -> (r: Vec<Result<TxHash, MempoolError>>)
        ensures
            (r@, final(self)@) == add_batch_outcome(old(self).settings(), old(self)@, txs@),
            final(self).settings() == old(self).settings(),
    {
        let mut r: Vec<Result<TxHash, MempoolError>> = Vec::new();
        let mut i: usize = 0;
        while i < txs.len()
            invariant
                i <= txs@.len(),
                self.settings() == old(self).settings(),
                (r@, self@) == add_batch_outcome(old(self).settings(), old(self)@, txs@.take(i as int)),
            decreases txs@.len() - i,
        {
            proof { assert(txs@.take(i + 1).drop_last() =~= txs@.take(i as int)); }
            let res = self.add(txs[i]);
            r.push(res);
            i += 1;
        }
        proof { assert(txs@.take(txs@.len() as int) =~= txs@); }
        r
    }

    /// Statistics of the pool.
    pub fn stats(&self) -> (r: MempoolStats)
        ensures
            r.total_txs == self@.txs.dom().len(),
            r.unique_senders == self@.by_sender.dom().len(),
            r.capacity == self.settings().max_size,
            r.available == if self@.txs.dom().len() >= self.settings().max_size { 0 } else {
                (self.settings().max_size - self@.txs.dom().len()) as usize
            },
            r.utilization_pct == utilization_pct(self@.txs.dom().len() as int, self.settings().max_size as int),
    {
        let len = self.index.len();
        let capacity = self.config.max_size;
        let utilization: u8 = if capacity == 0 {
            if len == 0 { 0 } else { 255 }
        } else {
            let pct: u128 = (len as u128) * 100 / (capacity as u128);
            if pct > 255 { 255 } else { pct as u8 }
        };
        MempoolStats {
            total_txs: len,
            unique_senders: self.index.sender_count(),
            capacity,
            available: self.available_capacity(),
            utilization_pct: utilization,
        }
    }
}

/// Once `limit` transactions were gathered from the first senders, the
/// remaining senders add nothing to the first `limit`.
proof fn lemma_first_n_prefix(v: TxIndexView, order: Seq<Address>, i: int, limit: int)
    requires
        0 <= i <= order.len(),
        0 <= limit <= txs_of_senders(v, order.take(i)).len(),
    ensures
        first_n(txs_of_senders(v, order.take(i)), limit) == first_n(txs_of_senders(v, order), limit),
    decreases order.len() - i,
{
    if i < order.len() {
        assert(order.take(i + 1).drop_last() =~= order.take(i));
        let a = txs_of_senders(v, order.take(i));
        let b = txs_of_senders(v, order.take(i + 1));
        assert(b.take(limit) =~= a.take(limit));
        lemma_first_n_prefix(v, order, i + 1, limit);
    } else {
        assert(order.take(i) =~= order);
    }
}

impl Default for Mempool {
    fn default() -> (r: Self)
        ensures
            r.settings() == (MempoolConfig { max_size: 10_000, max_txs_per_sender: 100, strict_nonce_ordering: true }),
            r@.txs == Map::<TxHash, Transaction>::empty(),
            r@.by_sender == Map::<Address, Seq<(u64, TxHash)>>::empty(),
    {
        Mempool::new(MempoolConfig::default())
    }
}

} // verus!
