//! Isolated-margin risk checks: withdrawals, order admission, liquidation
//! eligibility and margin ratios.
use vstd::prelude::*;
use crate::error::EngineError;
use crate::funding::{BASIS_POINTS, lemma_u64_product_fits};
use crate::position::{PositionManager, pnl_spec};
use crate::state::{StateManager, StateView};
use crate::types::{Address, PlaceOrderTx, Position};

verus! {

/// Margin mode for position management.
#[derive(Debug, Clone, Copy, PartialEq, Eq, Structural)]
pub enum MarginMode {
    /// Each position has its own margin.
    Isolated,
    /// All positions share one margin pool (not implemented).
    Cross,
}

/// Margin that stays locked in a position once an order on side `is_buy`
/// of `size` units is taken into account.
pub open spec fn locked_margin_after(pos: Option<Position>, is_buy: bool, size: u64) -> Result<u128, EngineError> {
    match pos {
        None => Ok(0),
        Some(p) => {
            if is_buy == p.is_long {
                Ok(p.margin)
            } else if p.size == 0 {
                Ok(0)
            } else {
                let reduction = if size <= p.size { size } else { p.size };
                let ratio = (reduction * 10000) / (p.size as int);
                if p.margin * ratio > u128::MAX {
                    Err(EngineError::Overflow)
                } else {
                    let freed = (p.margin * ratio) / 10000;
                    Ok(if p.margin >= freed { (p.margin - freed) as u128 } else { 0 })
                }
            }
        },
    }
}

/// Result of the admission check of an order in isolated margin mode: the
/// market must exist, the balance left beside the position's locked margin
/// must cover the initial margin, leverage (notional over margin) must stay
/// within the market's maximum when the order has a notional, and a
/// reduce-only order must shrink an existing position.
pub open spec fn order_check_spec(s: StateView, trader: Address, order: PlaceOrderTx) -> Result<(), EngineError> {
    match s.market(order.market_id) {
        None => Err(EngineError::MarketNotFound),
        Some(market) => {
            let order_value = order.size * order.price;
            if order_value * market.initial_margin_bps > u128::MAX {
                Err(EngineError::Overflow)
            } else {
                let required = (order_value * market.initial_margin_bps) / 10000;
                let balance = s.balance(trader, market.quote_asset_id);
                let pos = s.position(trader, order.market_id);
                match locked_margin_after(pos, order.is_buy, order.size) {
                    Err(e) => Err(e),
                    Ok(locked) => {
                        let available = if balance >= locked { balance - locked } else { 0 };
                        if available < required {
                            Err(EngineError::InsufficientMargin)
                        } else if required > 0 && order_value / required > market.max_leverage {
                            Err(EngineError::LeverageTooHigh)
                        } else if required == 0 && order_value > 0 && u128::MAX > market.max_leverage {
                            Err(EngineError::LeverageTooHigh)
                        } else if order.reduce_only && (pos is None || pos.unwrap().is_long == order.is_buy
                            || order.size > pos.unwrap().size) {
                            Err(EngineError::ReduceOnlyWouldIncrease)
                        } else {
                            Ok(())
                        }
                    },
                }
            }
        },
    }
}

/// Equity of a position at a mark price: margin plus profit, or margin
/// minus loss floored at zero. `None` when the sum leaves 128 bits.
pub open spec fn equity_spec(p: Position, mark_price: u64) -> Option<u128> {
    let (pnl, profit) = pnl_spec(p, mark_price);
    if profit {
        if p.margin + pnl > u128::MAX { None } else { Some((p.margin + pnl) as u128) }
    } else {
        Some(if p.margin >= pnl { (p.margin - pnl) as u128 } else { 0 })
    }
}

/// Result of the isolated-margin liquidation check.
pub open spec fn liquidation_check_spec(s: StateView, trader: Address, market_id: u32, mark_price: u64) -> Result<bool, EngineError> {
    match s.position(trader, market_id) {
        None => Ok(false),
        Some(p) => {
            if p.size == 0 {
                Ok(false)
            } else {
                match s.market(market_id) {
                    None => Err(EngineError::MarketNotFound),
                    Some(market) => {
                        let value = p.size * mark_price;
                        if value * market.maintenance_margin_bps > u128::MAX {
                            Err(EngineError::Overflow)
                        } else {
                            match equity_spec(p, mark_price) {
                                None => Err(EngineError::Overflow),
                                Some(eq) => Ok(eq < (value * market.maintenance_margin_bps) / 10000),
                            }
                        }
                    },
                }
            }
        },
    }
}

/// Margin ratio in basis points (`margin * 10000 / (size * mark)`), capped at `u32::MAX`.
pub open spec fn margin_ratio_spec(margin: u128, size: u64, mark_price: u64) -> Result<u32, EngineError> {
    if size == 0 || size * mark_price == 0 {
        Ok(0)
    } else if margin * 10000 > u128::MAX {
        Err(EngineError::Overflow)
    } else {
        let ratio = (margin * 10000) / (size * mark_price);
        Ok(if ratio <= u32::MAX { ratio as u32 } else { u32::MAX })
    }
}

/// Risk engine for managing margin and liquidations.
#[derive(Debug, Clone, Copy)]
pub struct RiskEngine {
    margin_mode: MarginMode,
}

impl Default for RiskEngine {
    fn default() -> (r: Self)
        ensures
            r.mode() == MarginMode::Isolated,
    {
        Self::new()
    }
}

/// Equity of a position: margin plus profit, or margin minus loss floored at zero.
pub fn position_equity(position: &Position, mark_price: u64) -> (r: Option<u128>)
    ensures
        r == equity_spec(*position, mark_price),
{
    let (pnl, is_profit) = PositionManager::calculate_pnl_static(position, mark_price);
    if is_profit {
        position.margin.checked_add(pnl)
    } else {
        Some(position.margin.saturating_sub(pnl))
    }
}

impl RiskEngine {
    /// The margin mode in force.
    pub closed spec fn mode(&self) -> MarginMode {
        self.margin_mode
    }

    /// A risk engine in isolated margin mode.
    pub fn new() -> (r: Self)
        ensures
            r.mode() == MarginMode::Isolated,
    {
        RiskEngine { margin_mode: MarginMode::Isolated }
    }

    /// The margin mode in force.
    pub fn margin_mode(&self) -> (r: MarginMode)
        ensures
            r == self.mode(),
    {
        self.margin_mode
    }

    /// Check that `trader` may withdraw `amount` of `asset_id`.
    pub fn check_withdraw_allowed(&self, state: &StateManager, trader: Address, asset_id: u32, amount: u128) -> (r: Result<(), EngineError>)
        ensures
            state@.balance(trader, asset_id) < amount ==> r == Err::<(), EngineError>(EngineError::InsufficientBalance),
            state@.balance(trader, asset_id) >= amount && self.mode() == MarginMode::Isolated ==> r is Ok,
            state@.balance(trader, asset_id) >= amount && self.mode() == MarginMode::Cross
                ==> r == Err::<(), EngineError>(EngineError::CrossMarginUnsupported),
    {
        let balance = state.get_balance(trader, asset_id);
        if balance < amount {
            return Err(EngineError::InsufficientBalance);
        }
        match self.margin_mode {
            MarginMode::Isolated => {
                // Isolated positions lock no balance-level margin.
                let locked_margin: u128 = 0;
                let available = balance.saturating_sub(locked_margin);
                if available < amount {
                    return Err(EngineError::InsufficientMargin);
                }
                Ok(())
            },
            MarginMode::Cross => Err(EngineError::CrossMarginUnsupported),
        }
    }

    fn locked_margin(pos: Option<Position>, is_buy: bool, size: u64) -> (r: Result<u128, EngineError>)
        ensures
            r == locked_margin_after(pos, is_buy, size),
    {
        match pos {
            None => Ok(0),
            Some(p) => {
                if is_buy == p.is_long {
                    Ok(p.margin)
                } else if p.size == 0 {
                    Ok(0)
                } else {
                    let reduction = if size <= p.size { size } else { p.size };
                    let ratio: u128 = (reduction as u128) * BASIS_POINTS / (p.size as u128);
                    match p.margin.checked_mul(ratio) {
                        None => Err(EngineError::Overflow),
                        Some(v) => Ok(p.margin.saturating_sub(v / BASIS_POINTS)),
                    }
                }
            },
        }
    }

    /// Check that `trader` may place `order` (margin, leverage, reduce-only).
    pub fn check_order_allowed(&self, state: &StateManager, trader: Address, order: &PlaceOrderTx) -> (r: Result<(), EngineError>)
        ensures
            self.mode() == MarginMode::Isolated ==> r == order_check_spec(state@, trader, *order),
            self.mode() == MarginMode::Cross ==> r is Err,
    {
        let market = match state.get_market(order.market_id) {
            Some(m) => m,
            None => { return Err(EngineError::MarketNotFound); },
        };
        proof { lemma_u64_product_fits(order.size, order.price); }
        let order_value: u128 = (order.size as u128) * (order.price as u128);
        let required_margin: u128 = match order_value.checked_mul(market.initial_margin_bps as u128) {
            Some(v) => v / BASIS_POINTS,
            None => { return Err(EngineError::Overflow); },
        };
        let balance = state.get_balance(trader, market.quote_asset_id);
        let pos = state.get_position(trader, order.market_id);
        match self.margin_mode {
            MarginMode::Isolated => {
                let existing_margin = Self::locked_margin(pos, order.is_buy, order.size)?;
                let available_margin = balance.saturating_sub(existing_margin);
                if available_margin < required_margin {
                    return Err(EngineError::InsufficientMargin);
                }
            },
            MarginMode::Cross => {
                return Err(EngineError::CrossMarginUnsupported);
            },
        }
        // An order without a price (a market order) has no notional to lever.
        let leverage: u128 = if required_margin > 0 {
            order_value / required_margin
        } else if order_value == 0 {
            0
        } else {
            u128::MAX
        };
        if leverage > market.max_leverage as u128 {
            return Err(EngineError::LeverageTooHigh);
        }
        if order.reduce_only {
            match pos {
                Some(p) => {
                    if order.is_buy == p.is_long {
                        return Err(EngineError::ReduceOnlyWouldIncrease);
                    }
                    if order.size > p.size {
                        return Err(EngineError::ReduceOnlyWouldIncrease);
                    }
                },
                None => {
                    return Err(EngineError::ReduceOnlyWouldIncrease);
                },
            }
        }
        Ok(())
    }

    /// Whether the position of `trader` in `market_id` is below maintenance margin.
    pub fn check_liquidation(&self, state: &StateManager, trader: Address, market_id: u32, mark_price: u64) -> (r: Result<bool, EngineError>)
        ensures
            self.mode() == MarginMode::Isolated ==> r == liquidation_check_spec(state@, trader, market_id, mark_price),
            self.mode() == MarginMode::Cross ==> r == match state@.position(trader, market_id) {
                None => Ok::<bool, EngineError>(false),
                Some(p) => if p.size == 0 {
                    Ok(false)
                } else if state@.market(market_id) is None {
                    Err(EngineError::MarketNotFound)
                } else {
                    Err(EngineError::CrossMarginUnsupported)
                },
            },
    {
        let position = match state.get_position(trader, market_id) {
            Some(p) => p,
            None => { return Ok(false); },
        };
        if position.size == 0 {
            return Ok(false);
        }
        let market = match state.get_market(market_id) {
            Some(m) => m,
            None => { return Err(EngineError::MarketNotFound); },
        };
        match self.margin_mode {
            MarginMode::Isolated => {
                proof { lemma_u64_product_fits(position.size, mark_price); }
                let position_value: u128 = (position.size as u128) * (mark_price as u128);
                let required_margin: u128 = match position_value.checked_mul(market.maintenance_margin_bps as u128) {
                    Some(v) => v / BASIS_POINTS,
                    None => { return Err(EngineError::Overflow); },
                };
                let equity = match position_equity(&position, mark_price) {
                    Some(e) => e,
                    None => { return Err(EngineError::Overflow); },
                };
                Ok(equity < required_margin)
            },
            MarginMode::Cross => Err(EngineError::CrossMarginUnsupported),
        }
    }

    /// Margin ratio of a position in basis points (capped at `u32::MAX`).
    pub fn calculate_margin_ratio(&self, position_margin: u128, position_size: u64, mark_price: u64) -> (r: Result<u32, EngineError>)
        ensures
            r == margin_ratio_spec(position_margin, position_size, mark_price),
    {
        if position_size == 0 {
            return Ok(0);
        }
        proof { lemma_u64_product_fits(position_size, mark_price); }
        let position_value: u128 = (position_size as u128) * (mark_price as u128);
        if position_value == 0 {
            return Ok(0);
        }
        let ratio: u128 = match position_margin.checked_mul(BASIS_POINTS) {
            Some(v) => v / position_value,
            None => { return Err(EngineError::Overflow); },
        };
        if ratio <= u32::MAX as u128 { Ok(ratio as u32) } else { Ok(u32::MAX) }
    }
}

} // verus!
