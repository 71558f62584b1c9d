//! Position arithmetic: opening, increasing, reducing, flipping and closing
//! positions after fills; unrealized PnL; liquidation prices.
use vstd::prelude::*;
use crate::error::EngineError;
use crate::funding::{BASIS_POINTS, lemma_u64_product_fits};
use crate::state::{StateManager, StateView};
use crate::types::{Address, Position};

verus! {

/// Unrealized PnL of a position at a mark price: `(amount, is_profit)`.
pub open spec fn pnl_spec(p: Position, mark_price: u64) -> (u128, bool) {
    if p.size == 0 {
        (0, true)
    } else {
        let entry_value = p.size * p.entry_price;
        let mark_value = p.size * mark_price;
        if p.is_long {
            if mark_value >= entry_value { ((mark_value - entry_value) as u128, true) } else { ((entry_value - mark_value) as u128, false) }
        } else if entry_value >= mark_value {
            ((entry_value - mark_value) as u128, true)
        } else {
            ((mark_value - entry_value) as u128, false)
        }
    }
}

/// Margin to open `size` at `price`: `size * price * bps / 10000`.
pub open spec fn initial_margin_spec(size: u64, price: u64, initial_margin_bps: u32) -> int {
    (size * price * initial_margin_bps) / 10000
}

/// Whether `size * price * bps` leaves the 128-bit range.
pub open spec fn initial_margin_overflows(size: u64, price: u64, initial_margin_bps: u32) -> bool {
    size * price * initial_margin_bps > u128::MAX
}

/// What a fill does to a trader's position.
pub enum PositionChange {
    /// The update fails with this error and nothing is stored.
    Fail(EngineError),
    /// The position is closed and removed.
    Close,
    /// The position is stored with these values.
    Store(Position),
}

/// The position left by a fill of `size` at `price` on side `is_buy`.
pub open spec fn position_after_fill(
    current: Option<Position>,
    size: u64,
    price: u64,
    is_buy: bool,
    initial_margin_bps: u32,
) -> PositionChange {
    match current {
        None => {
            if initial_margin_overflows(size, price, initial_margin_bps) {
                PositionChange::Fail(EngineError::Overflow)
            } else {
                PositionChange::Store(Position {
                    size,
                    entry_price: price,
                    is_long: is_buy,
                    margin: initial_margin_spec(size, price, initial_margin_bps) as u128,
                    funding_index: 0,
                })
            }
        },
        Some(pos) => {
            if pos.is_long == is_buy {
                // Increase: weighted average entry, margin for the added notional.
                let old_value = pos.size * pos.entry_price;
                let new_value = size * price;
                let total_value = old_value + new_value;
                let total_size = pos.size + size;
                if total_value > u128::MAX {
                    PositionChange::Fail(EngineError::Overflow)
                } else if total_size == 0 {
                    PositionChange::Store(pos)
                } else if new_value * initial_margin_bps > u128::MAX {
                    PositionChange::Fail(EngineError::Overflow)
                } else if pos.margin + (new_value * initial_margin_bps) / 10000 > u128::MAX {
                    PositionChange::Fail(EngineError::Overflow)
                } else {
                    PositionChange::Store(Position {
                        size: total_size as u64,
                        entry_price: (total_value / total_size) as u64,
                        margin: (pos.margin + (new_value * initial_margin_bps) / 10000) as u128,
                        ..pos
                    })
                }
            } else if size >= pos.size {
                let remaining = (size - pos.size) as u64;
                if remaining == 0 {
                    PositionChange::Close
                } else if initial_margin_overflows(remaining, price, initial_margin_bps) {
                    PositionChange::Fail(EngineError::Overflow)
                } else {
                    PositionChange::Store(Position {
                        size: remaining,
                        entry_price: price,
                        is_long: is_buy,
                        margin: initial_margin_spec(remaining, price, initial_margin_bps) as u128,
                        funding_index: pos.funding_index,
                    })
                }
            } else {
                // Partial reduction: margin released in proportion (in basis points).
                let ratio = (size * 10000) / (pos.size as int);
                if pos.margin * ratio > u128::MAX {
                    PositionChange::Fail(EngineError::Overflow)
                } else {
                    let reduction = (pos.margin * ratio) / 10000;
                    PositionChange::Store(Position {
                        size: (pos.size - size) as u64,
                        margin: if pos.margin >= reduction { (pos.margin - reduction) as u128 } else { 0 },
                        ..pos
                    })
                }
            }
        },
    }
}

/// Liquidation price: `entry * (1 - mm)` for longs, `entry * (1 + mm)` for shorts.
pub open spec fn liquidation_price_spec(p: Position, maintenance_margin_bps: u32) -> Result<u64, EngineError> {
    if p.size == 0 {
        Ok(0)
    } else {
        let factor = (p.entry_price * maintenance_margin_bps) / 10000;
        if p.is_long {
            if factor > p.entry_price { Err(EngineError::Overflow) } else { Ok((p.entry_price - factor) as u64) }
        } else {
            Ok((p.entry_price + factor) as u64)
        }
    }
}

/// Position manager for handling position updates and calculations.
#[derive(Debug, Clone, Copy)]
pub struct PositionManager;

/// `a * b * c` computed in 128 bits when it fits.
pub fn mul3_checked(a: u64, b: u64, c: u32) -> (r: Option<u128>)
    ensures
        r matches Some(v) ==> v == a * b * c,
        r is None <==> a * b * c > u128::MAX,
{
    proof { lemma_u64_product_fits(a, b); }
    let ab: u128 = (a as u128) * (b as u128);
    let r = ab.checked_mul(c as u128);
    proof {
        assert(a * b * c == (ab as int) * (c as int)) by (nonlinear_arith) requires ab == a * b;
    }
    r
}

impl PositionManager {
    /// Margin needed to open `size` at `price`.
    pub fn calculate_initial_margin(size: u64, price: u64, initial_margin_bps: u32) -> (r: Result<u128, EngineError>)
        ensures
            initial_margin_overflows(size, price, initial_margin_bps) ==> r == Err::<u128, EngineError>(EngineError::Overflow),
            !initial_margin_overflows(size, price, initial_margin_bps) ==> r == Ok::<u128, EngineError>(initial_margin_spec(size, price, initial_margin_bps) as u128),
    {
        match mul3_checked(size, price, initial_margin_bps) {
            Some(v) => Ok(v / BASIS_POINTS),
            None => Err(EngineError::Overflow),
        }
    }

    /// A position grown by a fill on its own side: weighted-average entry
    /// price, and margin added for the new notional.
    fn increase_position(pos: Position, size: u64, price: u64, initial_margin_bps: u32) -> (r: Result<Position, EngineError>)
        ensures
            match position_after_fill(Some(pos), size, price, pos.is_long, initial_margin_bps) {
                PositionChange::Fail(e) => r == Err::<Position, EngineError>(e),
                PositionChange::Store(p) => r == Ok::<Position, EngineError>(p),
                PositionChange::Close => false,
            },
    {
        proof {
            lemma_u64_product_fits(pos.size, pos.entry_price);
            lemma_u64_product_fits(size, price);
        }
        let old_value: u128 = (pos.size as u128) * (pos.entry_price as u128);
        let new_value: u128 = (size as u128) * (price as u128);
        let total_value: u128 = match old_value.checked_add(new_value) {
            Some(v) => v,
            None => { return Err(EngineError::Overflow); },
        };
        let total_size: u128 = (pos.size as u128) + (size as u128);
        if total_size > 0 {
            let add_notional = match new_value.checked_mul(initial_margin_bps as u128) {
                Some(v) => v,
                None => { return Err(EngineError::Overflow); },
            };
            let additional_margin: u128 = add_notional / BASIS_POINTS;
            let margin = match pos.margin.checked_add(additional_margin) {
                Some(v) => v,
                None => { return Err(EngineError::Overflow); },
            };
            Ok(Position {
                size: total_size as u64,
                entry_price: (total_value / total_size) as u64,
                margin,
                ..pos
            })
        } else {
            Ok(pos)
        }
    }

    /// The position after a fill, computed on a copy.
    fn apply_fill(current: Option<Position>, size: u64, price: u64, is_buy: bool, initial_margin_bps: u32) -> (r: Result<Option<Position>, EngineError>)
        ensures
            match position_after_fill(current, size, price, is_buy, initial_margin_bps) {
                PositionChange::Fail(e) => r == Err::<Option<Position>, EngineError>(e),
                PositionChange::Close => r == Ok::<Option<Position>, EngineError>(None),
                PositionChange::Store(p) => r == Ok::<Option<Position>, EngineError>(Some(p)),
            },
    {
        match current {
            None => {
                let margin = Self::calculate_initial_margin(size, price, initial_margin_bps)?;
                Ok(Some(Position { size, entry_price: price, is_long: is_buy, margin, funding_index: 0 }))
            },
            Some(pos) => {
                if pos.is_long == is_buy {
                    Ok(Some(Self::increase_position(pos, size, price, initial_margin_bps)?))
                } else if size >= pos.size {
                    let remaining = size - pos.size;
                    if remaining > 0 {
                        let new_margin = Self::calculate_initial_margin(remaining, price, initial_margin_bps)?;
                        Ok(Some(Position {
                            size: remaining,
                            entry_price: price,
                            is_long: is_buy,
                            margin: new_margin,
                            funding_index: pos.funding_index,
                        }))
                    } else {
                        Ok(None)
                    }
                } else {
                    let ratio: u128 = (size as u128) * 10000 / (pos.size as u128);
                    let scaled = match pos.margin.checked_mul(ratio) {
                        Some(v) => v,
                        None => { return Err(EngineError::Overflow); },
                    };
                    let margin_reduction: u128 = scaled / 10000;
                    Ok(Some(Position {
                        size: pos.size - size,
                        margin: pos.margin.saturating_sub(margin_reduction),
                        ..pos
                    }))
                }
            },
        }
    }

    /// Update or create the position of `trader` after a fill.
    pub fn update_position(
        &mut self,
        state: &mut StateManager,
        trader: Address,
        market_id: u32,
        size: u64,
        price: u64,
        is_buy: bool,
        initial_margin_bps: u32,
    ) -> (r: Result<(), EngineError>)
        ensures
            match position_after_fill(old(state)@.position(trader, market_id), size, price, is_buy, initial_margin_bps) {
                PositionChange::Fail(e) => r == Err::<(), EngineError>(e) && final(state)@ == old(state)@,
                PositionChange::Close => r is Ok && final(state)@ == (StateView {
                    positions: old(state)@.positions.remove((trader, market_id)), ..old(state)@ }),
                PositionChange::Store(p) => r is Ok && final(state)@ == (StateView {
                    positions: old(state)@.positions.insert((trader, market_id), p), ..old(state)@ }),
            },
    {
        let current = state.get_position(trader, market_id);
        let next = Self::apply_fill(current, size, price, is_buy, initial_margin_bps)?;
        match next {
            Some(p) => state.set_position(trader, market_id, p),
            None => state.delete_position(trader, market_id),
        }
        Ok(())
    }

    /// Unrealized PnL of a position at a mark price: `(amount, is_profit)`.
    pub fn calculate_pnl(&self, position: &Position, mark_price: u64) -> (r: Result<(u128, bool), EngineError>)
        ensures
            r == Ok::<(u128, bool), EngineError>(pnl_spec(*position, mark_price)),
    {
        Ok(Self::calculate_pnl_static(position, mark_price))
    }

    /// Unrealized PnL (no receiver).
    pub fn calculate_pnl_static(position: &Position, mark_price: u64) -> (r: (u128, bool))
        ensures
            r == pnl_spec(*position, mark_price),
    {
        if position.size == 0 {
            return (0, true);
        }
        proof {
            lemma_u64_product_fits(position.size, position.entry_price);
            lemma_u64_product_fits(position.size, mark_price);
        }
        let entry_value: u128 = (position.size as u128) * (position.entry_price as u128);
        let mark_value: u128 = (position.size as u128) * (mark_price as u128);
        if position.is_long {
            if mark_value >= entry_value { (mark_value - entry_value, true) } else { (entry_value - mark_value, false) }
        } else if entry_value >= mark_value {
            (entry_value - mark_value, true)
        } else {
            (mark_value - entry_value, false)
        }
    }

    /// Liquidation price of a position for a maintenance margin.
    pub fn calculate_liquidation_price(&self, position: &Position, maintenance_margin_bps: u32) -> (r: Result<u64, EngineError>)
        ensures
            r == liquidation_price_spec(*position, maintenance_margin_bps),
    {
        if position.size == 0 {
            return Ok(0);
        }
        proof { lemma_u64_product_fits(position.entry_price, maintenance_margin_bps as u64); }
        let margin_factor: u128 = (position.entry_price as u128) * (maintenance_margin_bps as u128) / BASIS_POINTS;
        if position.is_long {
            if margin_factor > position.entry_price as u128 {
                Err(EngineError::Overflow)
            } else {
                Ok(((position.entry_price as u128) - margin_factor) as u64)
            }
        } else {
            Ok(((position.entry_price as u128) + margin_factor) as u64)
        }
    }
}

} // verus!
