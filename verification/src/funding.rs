use vstd::prelude::*;
use crate::error::EngineError;
use crate::state::{StateManager, StateView};
use crate::types::FundingRate;

verus! {

/// Basis points in one whole (10000 = 100%).
pub const BASIS_POINTS: u128 = 10000;

/// Default cap on the funding rate, in basis points per interval.
pub const DEFAULT_MAX_FUNDING_RATE_BPS: u32 = 1000;

/// Absolute difference of two prices.
pub open spec fn abs_diff(a: u64, b: u64) -> nat {
    if a >= b { (a - b) as nat } else { (b - a) as nat }
}

/// Premium of the mark price over the oracle price in basis points,
/// truncated to 64 bits as the engine stores it.
pub open spec fn premium_bps(mark_price: u64, oracle_price: u64) -> u64 {
    ((abs_diff(mark_price, oracle_price) as int * 10000) / (oracle_price as int)) as u64
}

/// Premium capped at the calculator's maximum rate.
pub open spec fn clamped_premium(max_bps: u32, mark_price: u64, oracle_price: u64) -> u64 {
    let p = premium_bps(mark_price, oracle_price);
    if p <= max_bps { p } else { max_bps as u64 }
}

/// Whether scaling the capped premium by the elapsed time leaves 64 bits.
pub open spec fn funding_rate_overflows(
    max_bps: u32,
    mark_price: u64,
    oracle_price: u64,
    time_elapsed: u64,
    funding_interval: u64,
) -> bool {
    oracle_price != 0 && funding_interval > 0
        && clamped_premium(max_bps, mark_price, oracle_price) * time_elapsed > u64::MAX
}

/// Unsigned size of the funding rate: the capped premium scaled by
/// `time_elapsed / funding_interval` (unscaled when the interval is zero).
pub open spec fn funding_rate_magnitude(
    max_bps: u32,
    mark_price: u64,
    oracle_price: u64,
    time_elapsed: u64,
    funding_interval: u64,
) -> u64 {
    let c = clamped_premium(max_bps, mark_price, oracle_price);
    if funding_interval > 0 {
        ((c * time_elapsed) / (funding_interval as int)) as u64
    } else {
        c
    }
}

/// Signed funding rate: positive when the mark trades above the oracle
/// (longs pay shorts), negative below it, zero without an oracle price.
pub open spec fn funding_rate_spec(
    max_bps: u32,
    mark_price: u64,
    oracle_price: u64,
    time_elapsed: u64,
    funding_interval: u64,
) -> i64 {
    let m = funding_rate_magnitude(max_bps, mark_price, oracle_price, time_elapsed, funding_interval);
    if oracle_price == 0 {
        0
    } else if mark_price >= oracle_price {
        m as i64
    } else {
        (-(m as i64)) as i64
    }
}

/// Rust's division of a signed value by a positive divisor (rounds toward zero).
pub open spec fn trunc_div(a: int, b: int) -> int {
    if a >= 0 { a / b } else { -((-a) / b) }
}

/// Signed funding payment `size * (current - entry) / 10000`, rounded toward zero.
pub open spec fn funding_payment_signed(position_size: u64, entry_index: i128, current_index: i128) -> int {
    trunc_div(position_size * (current_index - entry_index), 10000)
}

/// Whether `size * (current - entry)` leaves the 128-bit signed range.
pub open spec fn funding_payment_overflows(position_size: u64, entry_index: i128, current_index: i128) -> bool {
    let p = position_size * (current_index - entry_index);
    p < i128::MIN || p > i128::MAX
}

/// Whether negating the funding rate's magnitude leaves 64 bits (a
/// magnitude of exactly 2^63 below the oracle price).
pub open spec fn funding_rate_negation_overflows(
    max_bps: u32,
    mark_price: u64,
    oracle_price: u64,
    time_elapsed: u64,
    funding_interval: u64,
) -> bool {
    oracle_price != 0 && mark_price < oracle_price
        && !funding_rate_overflows(max_bps, mark_price, oracle_price, time_elapsed, funding_interval)
        && funding_rate_magnitude(max_bps, mark_price, oracle_price, time_elapsed, funding_interval) as i64 == i64::MIN
}

/// Time since the last funding update (zero before the first one).
pub open spec fn funding_elapsed(current: FundingRate, timestamp: u64) -> u64 {
    if current.last_update > 0 && timestamp >= current.last_update {
        (timestamp - current.last_update) as u64
    } else {
        0
    }
}

/// The funding state of a market after an update at `timestamp`: the new
/// rate, the cumulative index advanced by it, and the prices used.
pub open spec fn funding_after_update(
    max_bps: u32,
    current: FundingRate,
    funding_interval: u64,
    mark_price: u64,
    oracle_price: u64,
    timestamp: u64,
) -> Result<FundingRate, EngineError> {
    let elapsed = funding_elapsed(current, timestamp);
    if funding_rate_overflows(max_bps, mark_price, oracle_price, elapsed, funding_interval) {
        Err(EngineError::Overflow)
    } else {
        let rate = funding_rate_spec(max_bps, mark_price, oracle_price, elapsed, funding_interval);
        let index = current.index + rate;
        if index < i128::MIN || index > i128::MAX {
            Err(EngineError::Overflow)
        } else {
            Ok(FundingRate { rate, last_update: timestamp, index: index as i128, mark_price, oracle_price })
        }
    }
}

/// The product of two 64-bit values fits in 128 bits.
pub proof fn lemma_u64_product_fits(a: u64, b: u64)
    ensures
        (a as int) * (b as int) <= u128::MAX,
        0 <= (a as int) * (b as int),
{
    assert((a as int) * (b as int) <= (u64::MAX as int) * (u64::MAX as int)) by (nonlinear_arith)
        requires a <= u64::MAX, b <= u64::MAX, 0 <= a, 0 <= b;
    assert(0 <= (a as int) * (b as int)) by (nonlinear_arith) requires 0 <= a, 0 <= b;
}

/// Funding rate calculator for perpetual futures.
#[derive(Debug, Clone, Copy)]
pub struct FundingRateCalculator {
    /// Maximum funding rate (in basis points per interval).
    max_funding_rate_bps: u32,
}

impl Default for FundingRateCalculator {
    fn default() -> (r: Self)
        ensures
            r.max_rate() == 0,
    {
        FundingRateCalculator { max_funding_rate_bps: 0 }
    }
}

impl FundingRateCalculator {
    /// The cap on the funding rate, in basis points per interval.
    pub closed spec fn max_rate(&self) -> u32 {
        self.max_funding_rate_bps
    }

    /// Create a new funding rate calculator with the default cap.
    pub fn new() -> (r: Self)
        ensures
            r.max_rate() == DEFAULT_MAX_FUNDING_RATE_BPS,
    {
        FundingRateCalculator { max_funding_rate_bps: DEFAULT_MAX_FUNDING_RATE_BPS }
    }

    /// Calculate the funding rate from the mark and oracle prices, in basis
    /// points (positive = longs pay shorts, negative = shorts pay longs).
    pub fn calculate_funding_rate(
        &self,
        mark_price: u64,
        oracle_price: u64,
        time_elapsed: u64,
        funding_interval: u64,
    ) -> (r: Result<i64, EngineError>)
        requires
            !funding_rate_negation_overflows(self.max_rate(), mark_price, oracle_price, time_elapsed, funding_interval),
        ensures
            funding_rate_overflows(self.max_rate(), mark_price, oracle_price, time_elapsed, funding_interval)
                ==> r == Err::<i64, EngineError>(EngineError::Overflow),
            !funding_rate_overflows(self.max_rate(), mark_price, oracle_price, time_elapsed, funding_interval)
                ==> r == Ok::<i64, EngineError>(funding_rate_spec(self.max_rate(), mark_price, oracle_price, time_elapsed, funding_interval)),
    {
        if oracle_price == 0 {
            return Ok(0);
        }
        let is_positive = mark_price >= oracle_price;
        let diff: u64 = if is_positive { mark_price - oracle_price } else { oracle_price - mark_price };
        let wide: u128 = (diff as u128) * BASIS_POINTS / (oracle_price as u128);
        let premium: u64 = wide as u64;
        let max_bps: u64 = self.max_funding_rate_bps as u64;
        let clamped: u64 = if premium <= max_bps { premium } else { max_bps };
        let funding_rate: u64 = if funding_interval > 0 {
            proof {
                lemma_u64_product_fits(clamped, time_elapsed);
            }
            let scaled: u128 = (clamped as u128) * (time_elapsed as u128);
            if scaled > u64::MAX as u128 {
                return Err(EngineError::Overflow);
            }
            (scaled as u64) / funding_interval
        } else {
            clamped
        };
        if is_positive {
            Ok(funding_rate as i64)
        } else {
            Ok(-(funding_rate as i64))
        }
    }

    /// Update the funding state of a market: compute the rate for the time
    /// since the last update (none before the first) and advance the
    /// cumulative index by it.
    pub fn update_funding_rate(
        &self,
        state: &mut StateManager,
        market_id: u32,
        mark_price: u64,
        oracle_price: u64,
        timestamp: u64,
    ) -> (r: Result<(), EngineError>)
        requires
            old(state)@.market(market_id) is Some ==> !funding_rate_negation_overflows(
                self.max_rate(),
                mark_price,
                oracle_price,
                funding_elapsed(old(state)@.funding(market_id), timestamp),
                old(state)@.market(market_id).unwrap().funding_interval,
            ),
        ensures
            old(state)@.market(market_id) is None ==> r == Err::<(), EngineError>(EngineError::MarketNotFound)
                && final(state)@ == old(state)@,
            old(state)@.market(market_id) is Some ==> match funding_after_update(
                self.max_rate(),
                old(state)@.funding(market_id),
                old(state)@.market(market_id).unwrap().funding_interval,
                mark_price,
                oracle_price,
                timestamp,
            ) {
                Err(e) => r == Err::<(), EngineError>(e) && final(state)@ == old(state)@,
                Ok(f) => r is Ok
                    && final(state)@ == (StateView { funding_rates: old(state)@.funding_rates.insert(market_id, f), ..old(state)@ }),
            },
    {
        let current = state.get_funding_rate(market_id);
        let time_elapsed: u64 = if current.last_update > 0 {
            timestamp.saturating_sub(current.last_update)
        } else {
            0
        };
        let market_info = match state.get_market(market_id) {
            Some(m) => m,
            None => { return Err(EngineError::MarketNotFound); },
        };
        let funding_rate = self.calculate_funding_rate(mark_price, oracle_price, time_elapsed, market_info.funding_interval)?;
        let new_index = match current.index.checked_add(funding_rate as i128) {
            Some(v) => v,
            None => { return Err(EngineError::Overflow); },
        };
        let new_funding = FundingRate {
            rate: funding_rate,
            last_update: timestamp,
            index: new_index,
            mark_price,
            oracle_price,
        };
        state.set_funding_rate(market_id, new_funding);
        Ok(())
    }

    /// Calculate the funding payment of a position: `(amount, is_paying)`,
    /// where `is_paying` tells whether the trader pays (true) or receives.
    pub fn calculate_funding_payment(
        &self,
        position_size: u64,
        is_long: bool,
        entry_funding_index: i128,
        current_funding_index: i128,
    ) -> (r: Result<(u128, bool), EngineError>)
        requires
            i128::MIN <= current_funding_index - entry_funding_index <= i128::MAX,
        ensures
            current_funding_index == entry_funding_index ==> r == Ok::<(u128, bool), EngineError>((0u128, true)),
            current_funding_index != entry_funding_index && funding_payment_overflows(position_size, entry_funding_index, current_funding_index)
                ==> r == Err::<(u128, bool), EngineError>(EngineError::Overflow),
            current_funding_index != entry_funding_index && !funding_payment_overflows(position_size, entry_funding_index, current_funding_index)
                ==> ({
                    let p = funding_payment_signed(position_size, entry_funding_index, current_funding_index);
                    &&& r is Ok
                    &&& p > 0 ==> r.unwrap() == (p as u128, is_long)
                    &&& p <= 0 ==> r.unwrap() == ((-p) as u128, !is_long)
                }),
    {
        let funding_diff: i128 = current_funding_index - entry_funding_index;
        if funding_diff == 0 {
            return Ok((0, true));
        }
        let prod_opt = (position_size as i128).checked_mul(funding_diff);
        let prod: i128 = match prod_opt {
            Some(p) => p,
            None => { return Err(EngineError::Overflow); },
        };
        // |prod| computed without negating i128::MIN.
        let abs: u128 = if prod >= 0 { prod as u128 } else { ((-(prod + 1)) as u128) + 1 };
        let q: u128 = abs / BASIS_POINTS;
        if prod > 0 && q > 0 {
            Ok((q, is_long))
        } else {
            Ok((q, !is_long))
        }
    }
}

} // verus!
