//! Execution bookkeeping: statistics, execution modes, nonce checks, and the
//! decisions of a read-only node that syncs from a leader.
use vstd::prelude::*;
use crate::auth::AuthError;
use crate::error::EngineError;
use crate::types::Transaction;

verus! {

/// Execution statistics for monitoring.
#[derive(Debug, Clone, Copy, PartialEq, Eq, Structural)]
pub struct ExecutionStats {
    /// Transactions executed.
    pub total_txs: u64,
    /// Transactions that succeeded.
    pub successful_txs: u64,
    /// Transactions that failed.
    pub failed_txs: u64,
    /// Total execution time (microseconds).
    pub total_time_us: u64,
    /// Average execution time per transaction (microseconds, rounded down).
    pub avg_time_us: u64,
}

impl Default for ExecutionStats {
    fn default() -> (r: Self)
        ensures
            r == (ExecutionStats { total_txs: 0, successful_txs: 0, failed_txs: 0, total_time_us: 0, avg_time_us: 0 }),
    {
        ExecutionStats { total_txs: 0, successful_txs: 0, failed_txs: 0, total_time_us: 0, avg_time_us: 0 }
    }
}

impl ExecutionStats {
    /// Record one execution that took `time_us` microseconds.
    pub fn record(&mut self, success: bool, time_us: u64)
        requires
            old(self).total_txs < u64::MAX,
            success ==> old(self).successful_txs < u64::MAX,
            !success ==> old(self).failed_txs < u64::MAX,
            old(self).total_time_us + time_us <= u64::MAX,
        ensures
            final(self).total_txs == old(self).total_txs + 1,
            final(self).successful_txs == old(self).successful_txs + if success { 1int } else { 0int },
            final(self).failed_txs == old(self).failed_txs + if success { 0int } else { 1int },
            final(self).total_time_us == old(self).total_time_us + time_us,
            final(self).avg_time_us == final(self).total_time_us / final(self).total_txs,
    {
        self.total_txs = self.total_txs + 1;
        if success {
            self.successful_txs = self.successful_txs + 1;
        } else {
            self.failed_txs = self.failed_txs + 1;
        }
        self.total_time_us = self.total_time_us + time_us;
        self.avg_time_us = self.total_time_us / self.total_txs;
    }
}

/// Execution strategy.
#[derive(Debug, Clone, Copy, PartialEq, Eq, Structural)]
pub enum ExecutionMode {
    /// One transaction after the other.
    Sequential,
    /// Independent transactions concurrently.
    Parallel {
        /// Number of worker threads.
        workers: usize,
        /// Whether execution is optimistic.
        optimistic: bool,
    },
    /// Checks only, no state changes.
    ValidationOnly,
}

impl Default for ExecutionMode {
    fn default() -> (r: Self)
        ensures
            r == ExecutionMode::Sequential,
    {
        ExecutionMode::Sequential
    }
}

impl ExecutionMode {
    /// Parallel execution with `workers` threads, not optimistic.
    pub fn parallel(workers: usize) -> (r: Self)
        ensures
            r == (ExecutionMode::Parallel { workers, optimistic: false }),
    {
        ExecutionMode::Parallel { workers, optimistic: false }
    }

    /// Optimistic parallel execution with `workers` threads.
    pub fn parallel_optimistic(workers: usize) -> (r: Self)
        ensures
            r == (ExecutionMode::Parallel { workers, optimistic: true }),
    {
        ExecutionMode::Parallel { workers, optimistic: true }
    }
}

/// Successes and failures of a batch.
#[derive(Debug, Clone, Copy, PartialEq, Eq, Structural)]
pub struct TxExecutionStats {
    pub successful: usize,
    pub failed: usize,
}

impl Default for TxExecutionStats {
    fn default() -> (r: Self)
        ensures
            r == (TxExecutionStats { successful: 0, failed: 0 }),
    {
        TxExecutionStats { successful: 0, failed: 0 }
    }
}

impl TxExecutionStats {
    /// No success and no failure yet.
    pub fn new() -> (r: Self)
        ensures
            r == (TxExecutionStats { successful: 0, failed: 0 }),
    {
        TxExecutionStats { successful: 0, failed: 0 }
    }

    /// Count a success.
    pub fn record_success(&mut self)
        requires
            old(self).successful < usize::MAX,
        ensures
            *final(self) == (TxExecutionStats { successful: (old(self).successful + 1) as usize, ..*old(self) }),
    {
        self.successful = self.successful + 1;
    }

    /// Count a failure.
    pub fn record_failure(&mut self)
        requires
            old(self).failed < usize::MAX,
        ensures
            *final(self) == (TxExecutionStats { failed: (old(self).failed + 1) as usize, ..*old(self) }),
    {
        self.failed = self.failed + 1;
    }
}

/// Transaction execution errors.
#[derive(Debug)]
pub enum TxExecutionError {
    /// The signer may not act for the sender.
    Auth(AuthError),
    /// The engine refused the transaction.
    Engine(EngineError),
    /// The nonce was already used.
    InvalidNonce { expected: u64, got: u64 },
    /// The nonce skips ahead of the account's.
    NonceGap { expected: u64, got: u64 },
    /// The operation is not implemented.
    NotImplemented(String),
    /// The signer may not act for the account.
    Unauthorized,
}

impl From<EngineError> for TxExecutionError {
    fn from(e: EngineError) -> (r: Self) {
        TxExecutionError::Engine(e)
    }
}

impl vstd::std_specs::convert::FromSpecImpl<EngineError> for TxExecutionError {
    open spec fn obeys_from_spec() -> bool {
        true
    }

    open spec fn from_spec(e: EngineError) -> Self {
        TxExecutionError::Engine(e)
    }
}

impl From<AuthError> for TxExecutionError {
    fn from(e: AuthError) -> (r: Self) {
        TxExecutionError::Auth(e)
    }
}

impl vstd::std_specs::convert::FromSpecImpl<AuthError> for TxExecutionError {
    open spec fn obeys_from_spec() -> bool {
        true
    }

    open spec fn from_spec(e: AuthError) -> Self {
        TxExecutionError::Auth(e)
    }
}

impl From<String> for TxExecutionError {
    fn from(message: String) -> (r: Self) {
        TxExecutionError::NotImplemented(message)
    }
}

impl vstd::std_specs::convert::FromSpecImpl<String> for TxExecutionError {
    open spec fn obeys_from_spec() -> bool {
        true
    }

    open spec fn from_spec(message: String) -> Self {
        TxExecutionError::NotImplemented(message)
    }
}

/// Check a transaction's nonce against the account's current nonce: an
/// older nonce is invalid, a newer one leaves a gap.
pub fn verify_nonce(current_nonce: u64, tx: &Transaction) -> (r: Result<(), TxExecutionError>)
    ensures
        tx.nonce < current_nonce ==> r == Err::<(), TxExecutionError>(
            TxExecutionError::InvalidNonce { expected: current_nonce, got: tx.nonce }),
        tx.nonce > current_nonce ==> r == Err::<(), TxExecutionError>(
            TxExecutionError::NonceGap { expected: current_nonce, got: tx.nonce }),
        tx.nonce == current_nonce ==> r is Ok,
{
    if tx.nonce < current_nonce {
        Err(TxExecutionError::InvalidNonce { expected: current_nonce, got: tx.nonce })
    } else if tx.nonce > current_nonce {
        Err(TxExecutionError::NonceGap { expected: current_nonce, got: tx.nonce })
    } else {
        Ok(())
    }
}

/// Outcome of a sync with the leader.
#[derive(Debug, Clone, Copy, PartialEq, Eq, Structural)]
pub struct SyncResult {
    /// Blocks synced.
    pub synced_blocks: u64,
    /// Height after the sync.
    pub new_height: u64,
    /// Whether the node caught up.
    pub is_synced: bool,
}

/// The next block range `(from, to)` to fetch when blocks up to
/// `synced_height` are replayed and the leader is at `leader_height`:
/// at most `batch_size` blocks, none when caught up.
pub fn next_sync_range(synced_height: u64, leader_height: u64, batch_size: usize) -> (r: Option<(u64, u64)>)
    requires
        synced_height < leader_height ==> synced_height + batch_size <= u64::MAX,
    ensures
        synced_height >= leader_height ==> r is None,
        synced_height < leader_height ==> r == Some((
            (synced_height + 1) as u64,
            if synced_height + batch_size <= leader_height { (synced_height + batch_size) as u64 } else { leader_height },
        )),
{
    if synced_height >= leader_height {
        return None;
    }
    let from = synced_height + 1;
    let last = synced_height + (batch_size as u64);
    let end = if last <= leader_height { last } else { leader_height };
    Some((from, end))
}

/// The result of a sync that started at `start_height` and replayed blocks
/// up to `leader_height` (none when already there).
pub fn sync_result(start_height: u64, leader_height: u64) -> (r: SyncResult)
    ensures
        leader_height <= start_height ==> r == (SyncResult { synced_blocks: 0, new_height: start_height, is_synced: true }),
        leader_height > start_height ==> r == (SyncResult {
            synced_blocks: (leader_height - start_height) as u64,
            new_height: leader_height,
            is_synced: true,
        }),
{
    if leader_height <= start_height {
        SyncResult { synced_blocks: 0, new_height: start_height, is_synced: true }
    } else {
        SyncResult { synced_blocks: leader_height - start_height, new_height: leader_height, is_synced: true }
    }
}

/// Errors of a read-only node.
#[derive(Debug)]
pub enum ReadOnlyError {
    InitError(String),
    NetworkError(String),
    ExecutionError(String),
    QueryError(String),
}

impl ReadOnlyError {
    /// An initialization error with `message`.
    pub fn init(message: String) -> (r: Self)
        ensures
            r == ReadOnlyError::InitError(message),
    {
        ReadOnlyError::InitError(message)
    }

    /// A network error with `message`.
    pub fn network(message: String) -> (r: Self)
        ensures
            r == ReadOnlyError::NetworkError(message),
    {
        ReadOnlyError::NetworkError(message)
    }

    /// An execution error with `message`.
    pub fn execution(message: String) -> (r: Self)
        ensures
            r == ReadOnlyError::ExecutionError(message),
    {
        ReadOnlyError::ExecutionError(message)
    }

    /// A query error with `message`.
    pub fn query(message: String) -> (r: Self)
        ensures
            r == ReadOnlyError::QueryError(message),
    {
        ReadOnlyError::QueryError(message)
    }
}

/// Configuration of a read-only node.
#[derive(Debug, Clone)]
pub struct ReadOnlyConfig {
    /// Leader node to sync from.
    pub leader_url: String,
    /// Seconds between syncs.
    pub sync_interval_secs: u64,
    /// Blocks fetched per request.
    pub sync_batch_size: usize,
    /// Whether to check the state root after a sync.
    pub verify_state_root: bool,
}

impl Default for ReadOnlyConfig {
    fn default() -> (r: Self)
        ensures
            r.leader_url@ == "http://localhost:3000"@,
            r.sync_interval_secs == 5,
            r.sync_batch_size == 100,
            r.verify_state_root,
    {
        ReadOnlyConfig {
            leader_url: "http://localhost:3000".to_owned(),
            sync_interval_secs: 5,
            sync_batch_size: 100,
            verify_state_root: true,
        }
    }
}

/// Total of a sequence of sizes.
pub open spec fn sum_sizes(s: Seq<u64>) -> nat
    decreases s.len(),
{
    if s.len() == 0 { 0 } else { sum_sizes(s.drop_last()) + s.last() as nat }
}

/// How many of the ready transactions, of encoded sizes `sizes` in order, go
/// into a block of at most `max_bytes`: they are taken in order and packing
/// stops at the first that would not fit.
pub fn txs_within_bytes(sizes: &[u64], max_bytes: u64) -> (r: usize)
    ensures
        r <= sizes@.len(),
        sum_sizes(sizes@.take(r as int)) <= max_bytes,
        r < sizes@.len() ==> sum_sizes(sizes@.take(r + 1)) > max_bytes,
{
    let mut total: u64 = 0;
    let mut i: usize = 0;
    proof { assert(sizes@.take(0) =~= Seq::<u64>::empty()); }
    while i < sizes.len()
        invariant
            i <= sizes@.len(),
            total == sum_sizes(sizes@.take(i as int)),
            total <= max_bytes,
        decreases sizes@.len() - i,
    {
        proof {
            assert(sizes@.take(i + 1).drop_last() =~= sizes@.take(i as int));
            assert(sizes@.take(i + 1).last() == sizes@[i as int]);
        }
        if sizes[i] > max_bytes - total {
            return i;
        }
        total = total + sizes[i];
        i += 1;
    }
    i
}

} // verus!
