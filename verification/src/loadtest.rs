//! Settings of the load-testing tool and the random draws it makes.
use vstd::prelude::*;

verus! {

/// Settings of a load test.
#[derive(Debug, Clone)]
pub struct LoadTestConfig {
    /// RPC endpoint URL.
    pub rpc_url: String,
    /// Concurrent workers.
    pub num_workers: usize,
    /// Target transactions per second.
    pub target_tps: usize,
    /// Duration in seconds.
    pub duration_secs: u64,
    pub mode: LoadTestMode,
    pub tx_type: TransactionType,
    /// Wallets used (to spread nonces).
    pub num_wallets: usize,
    /// Market of order transactions.
    pub market_id: u32,
    /// Asset of deposits and withdrawals.
    pub asset_id: u32,
    /// Ramp-up duration in seconds (ramp mode).
    pub ramp_up_secs: u64,
    /// Burst duration in seconds (burst mode).
    pub burst_duration_secs: u64,
    /// Seconds between bursts (burst mode).
    pub burst_interval_secs: u64,
    /// Fund the wallets through a bridge operator first.
    pub operator_mode: bool,
    /// Balance given to each wallet.
    pub initial_balance: u128,
    pub scenario: TestScenario,
}

/// Test scenarios.
#[derive(Debug, Clone, Copy, PartialEq, Eq, Structural)]
pub enum TestScenario {
    Standard,
    OrderSpam,
    OrderMatching,
    Aggressive,
}

impl TestScenario {
    /// Human-readable description.
    pub fn description(&self) -> (r: &'static str)
        ensures
            *self == TestScenario::Standard ==> r == "Standard load test",
            *self == TestScenario::OrderSpam ==> r == "Order spam: submit & cancel rapidly",
            *self == TestScenario::OrderMatching ==> r == "Order matching: matching buy/sell orders",
            *self == TestScenario::Aggressive ==> r == "Aggressive: orderbook depth + market orders",
    {
        match self {
            TestScenario::Standard => "Standard load test",
            TestScenario::OrderSpam => "Order spam: submit & cancel rapidly",
            TestScenario::OrderMatching => "Order matching: matching buy/sell orders",
            TestScenario::Aggressive => "Aggressive: orderbook depth + market orders",
        }
    }
}

/// Load shapes.
#[derive(Debug, Clone, Copy, PartialEq, Eq, Structural)]
pub enum LoadTestMode {
    Sustained,
    Ramp,
    Burst,
    Stress,
}

impl LoadTestMode {
    /// The mode's name.
    pub fn description(&self) -> (r: &'static str)
        ensures
            *self == LoadTestMode::Sustained ==> r == "Sustained",
            *self == LoadTestMode::Ramp ==> r == "Ramp",
            *self == LoadTestMode::Burst ==> r == "Burst",
            *self == LoadTestMode::Stress ==> r == "Stress",
    {
        match self {
            LoadTestMode::Sustained => "Sustained",
            LoadTestMode::Ramp => "Ramp",
            LoadTestMode::Burst => "Burst",
            LoadTestMode::Stress => "Stress",
        }
    }
}

/// Transaction kinds sent.
#[derive(Debug, Clone, Copy, PartialEq, Eq, Structural)]
pub enum TransactionType {
    PlaceOrder,
    CancelOrder,
    Deposit,
    Withdraw,
    Transfer,
    Mixed,
}

impl TransactionType {
    /// The kind's name.
    pub fn description(&self) -> (r: &'static str)
        ensures
            *self == TransactionType::PlaceOrder ==> r == "PlaceOrder",
            *self == TransactionType::CancelOrder ==> r == "CancelOrder",
            *self == TransactionType::Deposit ==> r == "Deposit",
            *self == TransactionType::Withdraw ==> r == "Withdraw",
            *self == TransactionType::Transfer ==> r == "Transfer",
            *self == TransactionType::Mixed ==> r == "Mixed",
    {
        match self {
            TransactionType::PlaceOrder => "PlaceOrder",
            TransactionType::CancelOrder => "CancelOrder",
            TransactionType::Deposit => "Deposit",
            TransactionType::Withdraw => "Withdraw",
            TransactionType::Transfer => "Transfer",
            TransactionType::Mixed => "Mixed",
        }
    }
}

/// Balance returned by the RPC endpoint.
#[derive(Debug, Clone, Copy, PartialEq, Eq, Structural)]
pub struct GetBalanceResponse {
    pub balance: u128,
}

/// A uniformly drawn `u64` in `min..max` (`fastrand::u64`, which panics on
/// an empty range); any value of the range may come back.
#[verifier::external_body]
pub(crate) fn draw_u64(min: u64, max: u64) -> (r: u64)
    requires
        min < max,
    ensures
        min <= r < max,
{
    fastrand::u64(min..max)
}

/// A uniformly drawn `u128` in `min..max` (`fastrand::u128`, which panics
/// on an empty range); any value of the range may come back.
#[verifier::external_body]
pub(crate) fn draw_u128(min: u128, max: u128) -> (r: u128)
    requires
        min < max,
    ensures
        min <= r < max,
{
    fastrand::u128(min..max)
}

/// Random draws in a half-open range.
pub trait RandomRange {
    type Output;

    /// Whether `min..max` holds a value.
    spec fn valid_range(min: Self::Output, max: Self::Output) -> bool;

    /// Whether `v` lies in `min..max`.
    spec fn in_range(v: Self::Output, min: Self::Output, max: Self::Output) -> bool;

    /// A random value of `min..max`.
    fn random_in_range(min: Self::Output, max: Self::Output) -> (r: Self::Output)
        requires
            Self::valid_range(min, max),
        ensures
            Self::in_range(r, min, max),
    ;
}

impl RandomRange for u64 {
    type Output = u64;

    open spec fn valid_range(min: u64, max: u64) -> bool {
        min < max
    }

    open spec fn in_range(v: u64, min: u64, max: u64) -> bool {
        min <= v < max
    }

    fn random_in_range(min: u64, max: u64) -> (r: u64) {
        draw_u64(min, max)
    }
}

impl RandomRange for u128 {
    type Output = u128;

    open spec fn valid_range(min: u128, max: u128) -> bool {
        min < max
    }

    open spec fn in_range(v: u128, min: u128, max: u128) -> bool {
        min <= v < max
    }

    fn random_in_range(min: u128, max: u128) -> (r: u128) {
        draw_u128(min, max)
    }
}

} // verus!
