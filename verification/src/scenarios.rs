//! What the load-test scenarios send and when: the orders each kind of
//! worker makes, how the workers split into buyers and sellers, and when a
//! burst starts or ends. Sending, waiting and reading the clock are left to
//! the caller, which hands the time in here as milliseconds.
use vstd::prelude::*;
use crate::generator::{OrderGenerator, draw_bool};
use crate::loadtest::draw_u64;
use crate::types::{OrderType, TimeInForce, TxPayload};

verus! {

/// The price around which the scenarios quote.
pub const SCENARIO_BASE_PRICE: u64 = 50_000_000_000;
/// How far from the base price the matching scenario's orders reach.
pub const MATCHING_PRICE_SPREAD: u64 = 100_000_000;
/// How far from the base price the depth-building orders reach.
pub const DEPTH_PRICE_SPREAD: u64 = 1_000_000_000;

/// How the matching scenario splits `num_workers`: buyers, then sellers
/// (the odd one out sells).
pub fn trader_split(num_workers: usize) -> (r: (usize, usize))
    ensures
        r.0 == num_workers / 2,
        r.1 == num_workers - num_workers / 2,
        r.0 + r.1 == num_workers,
{
    (num_workers / 2, num_workers - num_workers / 2)
}

/// Whether `p` is an order that a buyer (`is_buyer`) or a seller of the
/// matching scenario can send to `market_id`: an immediate-or-cancel limit
/// order priced at most one spread into the other side of the base price.
pub open spec fn matching_order(p: TxPayload, market_id: u32, is_buyer: bool) -> bool {
    &&& p matches TxPayload::PlaceOrder(o)
    &&& o.market_id == market_id
    &&& o.is_buy == is_buyer
    &&& o.order_type == OrderType::Limit
    &&& o.time_in_force == TimeInForce::IOC
    &&& !o.reduce_only && !o.post_only
    &&& 1_000_000 <= o.size < 10_000_000
    &&& is_buyer ==> SCENARIO_BASE_PRICE <= o.price < SCENARIO_BASE_PRICE + MATCHING_PRICE_SPREAD
    &&& !is_buyer ==> SCENARIO_BASE_PRICE - MATCHING_PRICE_SPREAD < o.price <= SCENARIO_BASE_PRICE
}

/// A random order of the matching scenario: buyers bid at or above the base
/// price, sellers ask at or below it, so that they cross.
pub fn matching_scenario_order(market_id: u32, is_buyer: bool) -> (r: TxPayload)
    ensures
        matching_order(r, market_id, is_buyer),
{
    let offset = draw_u64(0, MATCHING_PRICE_SPREAD);
    let price = if is_buyer { SCENARIO_BASE_PRICE + offset } else { SCENARIO_BASE_PRICE - offset };
    let size = draw_u64(1_000_000, 10_000_000);
    OrderGenerator::with_params(market_id, is_buyer, OrderType::Limit, price, size, TimeInForce::IOC)
}

/// Whether `p` is an order that depth-building worker `worker_id` can send
/// to `market_id`: even workers bid, odd ones ask, post-only, on their own
/// side of the base price within the depth spread.
pub open spec fn depth_order(p: TxPayload, market_id: u32, worker_id: usize) -> bool {
    &&& p matches TxPayload::PlaceOrder(o)
    &&& o.market_id == market_id
    &&& o.is_buy == (worker_id % 2 == 0)
    &&& o.order_type == OrderType::Limit
    &&& o.time_in_force == TimeInForce::PostOnly
    &&& !o.reduce_only && o.post_only
    &&& 5_000_000 <= o.size < 50_000_000
    &&& o.is_buy ==> SCENARIO_BASE_PRICE - DEPTH_PRICE_SPREAD < o.price <= SCENARIO_BASE_PRICE
    &&& !o.is_buy ==> SCENARIO_BASE_PRICE <= o.price < SCENARIO_BASE_PRICE + DEPTH_PRICE_SPREAD
}

/// A random resting order that builds book depth in the aggressive scenario.
pub fn depth_building_order(market_id: u32, worker_id: usize) -> (r: TxPayload)
    ensures
        depth_order(r, market_id, worker_id),
{
    let is_buyer = worker_id % 2 == 0;
    let offset = draw_u64(0, DEPTH_PRICE_SPREAD);
    let price = if is_buyer { SCENARIO_BASE_PRICE - offset } else { SCENARIO_BASE_PRICE + offset };
    let size = draw_u64(5_000_000, 50_000_000);
    OrderGenerator::with_params(market_id, is_buyer, OrderType::Limit, price, size, TimeInForce::PostOnly)
}

/// Whether `p` is an order of the aggressive scenario's second phase: an
/// immediate-or-cancel market order on either side.
pub open spec fn aggressive_order(p: TxPayload, market_id: u32) -> bool {
    &&& p matches TxPayload::PlaceOrder(o)
    &&& o.market_id == market_id
    &&& o.order_type == OrderType::Market
    &&& o.price == 0
    &&& o.time_in_force == TimeInForce::IOC
    &&& !o.reduce_only && !o.post_only
    &&& 1_000_000 <= o.size < 20_000_000
}

/// A random market order that takes liquidity in the aggressive scenario.
pub fn aggressive_market_order(market_id: u32) -> (r: TxPayload)
    ensures
        aggressive_order(r, market_id),
{
    let is_buy = draw_bool();
    let size = draw_u64(1_000_000, 20_000_000);
    OrderGenerator::with_params(market_id, is_buy, OrderType::Market, 0, size, TimeInForce::IOC)
}

/// How long the aggressive scenario builds book depth before it takes
/// liquidity, in milliseconds.
pub const DEPTH_BUILD_MS: u64 = 10_000;

/// Whether a depth-building worker of the aggressive scenario goes on, given
/// the milliseconds since its phase began and since the scenario began: only
/// within the build phase and within the scenario's duration.
pub fn depth_building_continues(phase_elapsed_ms: u64, total_elapsed_ms: u64, duration_ms: u64) -> (r: bool)
    ensures
        r == (phase_elapsed_ms < DEPTH_BUILD_MS && total_elapsed_ms < duration_ms),
{
    phase_elapsed_ms < DEPTH_BUILD_MS && total_elapsed_ms < duration_ms
}

/// How many workers each phase of the aggressive scenario runs: half of them
/// build depth (even ones bid, odd ones ask), then all of them take liquidity.
pub fn aggressive_worker_counts(num_workers: usize) -> (r: (usize, usize))
    ensures
        r == (num_workers / 2, num_workers),
{
    (num_workers / 2, num_workers)
}

/// Where a burst load stands: inside a burst or cooling down, and when
/// (in milliseconds on the caller's clock) that changes next.
#[derive(Debug, Clone, Copy, PartialEq, Eq, Structural)]
pub struct BurstPhase {
    pub in_burst: bool,
    pub next_switch_ms: u64,
}

/// The phase at the start (`start_ms`) of a burst load: cooling down, with
/// the first burst due at once.
pub fn burst_start(start_ms: u64) -> (r: BurstPhase)
    ensures
        r == (BurstPhase { in_burst: false, next_switch_ms: start_ms }),
{
    BurstPhase { in_burst: false, next_switch_ms: start_ms }
}

/// The phase at time `now_ms`: once the switch time is reached, a burst of
/// `burst_ms` starts or ends, and the cool-down fills the rest of each
/// `interval_ms`; before it, nothing changes.
pub fn burst_step(phase: BurstPhase, now_ms: u64, burst_ms: u64, interval_ms: u64) -> (r: BurstPhase)
    requires
        burst_ms <= interval_ms,
        now_ms + interval_ms <= u64::MAX,
    ensures
        now_ms < phase.next_switch_ms ==> r == phase,
        now_ms >= phase.next_switch_ms ==> r.in_burst == !phase.in_burst
            && r.next_switch_ms == now_ms + if r.in_burst { burst_ms as int } else { interval_ms - burst_ms },
{
    if now_ms >= phase.next_switch_ms {
        let in_burst = !phase.in_burst;
        let span = if in_burst { burst_ms } else { interval_ms - burst_ms };
        BurstPhase { in_burst, next_switch_ms: now_ms + span }
    } else {
        phase
    }
}

} // verus!
