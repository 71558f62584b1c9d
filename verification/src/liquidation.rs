//! Liquidations: margin ratios, the at-risk index, partial liquidation
//! sizing, fee split between liquidator and insurance fund, insurance fund
//! payouts for bad debt, and auto-deleveraging.
use vstd::prelude::*;
use crate::error::EngineError;
use crate::funding::{BASIS_POINTS, lemma_u64_product_fits};
use crate::position::PositionManager;
use crate::risk::{equity_spec, position_equity};
use crate::state::{StateManager, StateView, lists_market_positions};
use crate::adl::{adl_outcome_holds, run_auto_deleverage};
use crate::table::{keys_unique, has_key, table_map, lemma_key_index, lemma_table_update, lemma_table_push, lemma_table_empty};
use crate::types::{Address, Market, Position};
use crate::orderbook::{BookView, OrderbookManager};

verus! {

/// Default liquidator share of liquidation fees (basis points).
pub const DEFAULT_LIQUIDATOR_FEE_BPS: u32 = 5000;
/// Default insurance fund share of liquidation fees (basis points).
pub const DEFAULT_INSURANCE_FEE_BPS: u32 = 5000;
/// Default minimum insurance fund ratio (basis points of open notional).
pub const DEFAULT_MIN_INSURANCE_RATIO_BPS: u32 = 100;
/// Margin buffer targeted by partial liquidations (basis points).
pub const MARGIN_BUFFER_BPS: u32 = 200;
/// A partial liquidation takes at least 1/MIN_LIQUIDATION_PCT of a position.
pub const MIN_LIQUIDATION_PCT: u64 = 10;

/// Risk snapshot of a position, used to rank liquidation candidates.
#[derive(Debug, Clone, Copy, PartialEq, Eq, Structural)]
pub struct PositionRisk {
    pub trader: Address,
    pub market_id: u32,
    /// Margin ratio in basis points.
    pub margin_ratio: u32,
    pub position_value: u128,
    pub equity: u128,
}

/// Outcome of a liquidation.
#[derive(Debug, Clone, Copy, PartialEq, Eq, Structural)]
pub struct LiquidationResult {
    pub trader: Address,
    pub market_id: u32,
    pub liquidated_size: u64,
    pub liquidation_price: u64,
    pub liquidation_fee: u128,
    pub remaining_equity: u128,
    pub liquidator: Option<Address>,
    pub liquidator_reward: u128,
    pub insurance_fund_contribution: u128,
    pub insurance_fund_usage: u128,
}

/// Insurance fund of a market.
#[derive(Debug, Clone, Copy, PartialEq, Eq, Structural)]
pub struct InsuranceFund {
    pub balance: u128,
    pub total_contributions: u128,
    pub total_payouts: u128,
}

/// What indexing the risk of `trader`'s position in `market_id` does.
pub open spec fn risk_index_updated(l0: LiquidationView, s0: StateView, trader: Address, market_id: u32, mark_price: u64, r: Result<(), EngineError>, l1: LiquidationView) -> bool {
    &&& (({
            let p = s0.position(trader, market_id);
            &&& (p is None || p.unwrap().size == 0) ==> r is Ok && l1 == l0
            &&& p is Some && p.unwrap().size > 0 ==> match position_risk_spec(trader, market_id, p.unwrap(), mark_price) {
                Err(e) => r == Err::<(), EngineError>(e) && l1 == l0,
                Ok(risk) => r is Ok && l1 == (LiquidationView { at_risk: l0.at_risk.push(risk), ..l0 }),
            }
        }))
}

/// What rebuilding the risk index of `market_id` does.
pub open spec fn risk_index_rebuilt(l0: LiquidationView, s0: StateView, market_id: u32, mark_price: u64, r: Result<(), EngineError>, l1: LiquidationView) -> bool {
    &&& (l1.insurance_funds == l0.insurance_funds)
    &&& (l1.fee_split == l0.fee_split)
    &&& (forall|i: int| 0 <= i < l1.at_risk.len() ==> (#[trigger] l1.at_risk[i]).market_id != market_id
            || ({
                let e = l1.at_risk[i];
                &&& s0.position(e.trader, market_id) is Some
                &&& s0.position(e.trader, market_id).unwrap().size > 0
                &&& position_risk_spec(e.trader, market_id, s0.position(e.trader, market_id).unwrap(), mark_price) == Ok::<PositionRisk, EngineError>(e)
            }))
    &&& (forall|i: int| 0 <= i < l0.at_risk.len() && (#[trigger] l0.at_risk[i]).market_id != market_id
            ==> l1.at_risk.contains(l0.at_risk[i]))
    &&& (r is Err <==> exists|t: Address| #[trigger] s0.positions.contains_key((t, market_id)) && s0.positions[(t, market_id)].size > 0
            && position_risk_spec(t, market_id, s0.positions[(t, market_id)], mark_price) is Err)
    &&& (r matches Err(e) ==> exists|t: Address| #[trigger] s0.positions.contains_key((t, market_id)) && s0.positions[(t, market_id)].size > 0
            && position_risk_spec(t, market_id, s0.positions[(t, market_id)], mark_price) == Err::<PositionRisk, EngineError>(e))
    &&& (r is Ok ==> forall|t: Address| #[trigger] s0.positions.contains_key((t, market_id)) && s0.positions[(t, market_id)].size > 0
            ==> exists|i: int| 0 <= i < l1.at_risk.len() && l1.at_risk[i].market_id == market_id
                && l1.at_risk[i].trader == t)
}

/// What liquidating `trader`'s position in `market_id` with incentives does.
pub open spec fn liquidation_outcome(l0: LiquidationView, s0: StateView, b0: BookView, trader: Address, market_id: u32, mark_price: u64, liquidator: Address, r: Result<Option<LiquidationResult>, EngineError>, l1: LiquidationView, s1: StateView, b1: BookView) -> bool {
    &&& (mark_price == 0 ==> r == Err::<Option<LiquidationResult>, EngineError>(EngineError::ZeroMarkPrice)
            && s1 == s0 && l1 == l0 && b1 == b0)
    &&& (mark_price > 0 && s0.market(market_id) is None ==> r == Err::<Option<LiquidationResult>, EngineError>(EngineError::MarketNotFound)
            && s1 == s0 && l1 == l0 && b1 == b0)
    &&& (mark_price > 0 && s0.market(market_id) is Some ==> ({
            let mk = s0.market(market_id).unwrap();
            let lp = crate::types::normalized_price(mk.tick_size, mark_price);
            let s = s0;
            match should_liquidate_spec(s, trader, market_id, lp, mk.maintenance_margin_bps) {
                Err(e) => r == Err::<Option<LiquidationResult>, EngineError>(e)
                    && s1 == s && l1 == l0 && b1 == b0,
                Ok(false) => r == Ok::<Option<LiquidationResult>, EngineError>(None)
                    && s1 == s && l1 == l0 && b1 == b0,
                Ok(true) => match liquidation_plan(s, l0, s.position(trader, market_id).unwrap(), mk, trader, market_id, lp, liquidator) {
                    Err(e) => r == Err::<Option<LiquidationResult>, EngineError>(e)
                        && book_after_cancels(b0, b1, s, trader, market_id),
                    Ok(pl) => {
                        let q = mk.quote_asset_id;
                        let paid = s.balances.insert((liquidator, q), pl.liquidator_balance);
                        &&& book_after_cancels(b0, b1, s, trader, market_id)
                        &&& r == Ok::<Option<LiquidationResult>, EngineError>(Some((LiquidationResult {
                            trader,
                            market_id,
                            liquidated_size: pl.size,
                            liquidation_price: lp,
                            liquidation_fee: pl.fee,
                            remaining_equity: pl.remaining,
                            liquidator: Some(liquidator),
                            liquidator_reward: pl.reward,
                            insurance_fund_contribution: pl.contribution,
                            insurance_fund_usage: pl.usage,
                        })))
                        &&& trader_orders_cancelled(s, (StateView { positions: s.positions, balances: s.balances, ..s1 }), trader, market_id)
                        &&& s1.positions == match pl.position_after {
                            Some(p) => s.positions.insert((trader, market_id), p),
                            None => s.positions.remove((trader, market_id)),
                        }
                        &&& s1.balances == if pl.remaining > 0 { paid.insert((trader, q), pl.trader_balance) } else { paid }
                        &&& l1 == (LiquidationView { insurance_funds: l0.insurance_funds.insert(market_id, pl.fund_after), ..l0 })
                    },
                },
            }
        }))
}

/// What a liquidation batch in `market_id` does.
pub open spec fn liquidation_batch_outcome(l0: LiquidationView, s0: StateView, b0: BookView, market_id: u32, mark_price: u64, liquidator: Address, max_liquidations: usize, r: Result<Vec<LiquidationResult>, EngineError>, l1: LiquidationView, s1: StateView, b1: BookView) -> bool {
    &&& (s0.market(market_id) is None ==> r == Err::<Vec<LiquidationResult>, EngineError>(EngineError::MarketNotFound)
            && s1 == s0 && l1 == l0 && b1 == b0)
    &&& (s0.market(market_id) matches Some(mk) ==> ({
            let targets = at_risk_below(l0.at_risk, market_id, mk.maintenance_margin_bps);
            let n_max = if targets.len() <= max_liquidations { targets.len() as int } else { max_liquidations as int };
            exists|n: int, ls: Seq<LiquidationView>, ss: Seq<StateView>, bs: Seq<BookView>, outs: Seq<Option<LiquidationResult>>|
                #[trigger] liquidation_trace(targets, mark_price, liquidator, n, ls, ss, bs, outs)
                && ls[0] == l0 && ss[0] == s0 && bs[0] == b0
                && match r {
                    Ok(results) => n == n_max && results@ == liquidated(outs) && l1 == ls[n] && s1 == ss[n] && b1 == bs[n],
                    Err(e) => n < n_max && liquidation_outcome(ls[n], ss[n], bs[n], targets[n].0, targets[n].1, mark_price, liquidator,
                        Err(e), l1, s1, b1),
                }
        }))
    &&& (r matches Ok(results) ==> (results@.len() <= max_liquidations
            && forall|i: int| 0 <= i < results@.len() ==> (#[trigger] results@[i]).market_id == market_id
                && results@[i].liquidator == Some(liquidator)))
}

/// The results of the liquidations that took place, in order, leaving out
/// the positions that needed none.
pub open spec fn liquidated(outs: Seq<Option<LiquidationResult>>) -> Seq<LiquidationResult>
    decreases outs.len(),
{
    if outs.len() == 0 {
        Seq::empty()
    } else {
        let rest = liquidated(outs.drop_last());
        match outs.last() {
            Some(x) => rest.push(x),
            None => rest,
        }
    }
}

/// `ls`, `ss` and `bs` hold the liquidation engine, the state and the book
/// before each of the first `n` liquidations of `targets` and after the last
/// of them; `outs` holds what each gave. Each went through without error.
pub open spec fn liquidation_trace(targets: Seq<(Address, u32)>, mark_price: u64, liquidator: Address, n: int, ls: Seq<LiquidationView>, ss: Seq<StateView>, bs: Seq<BookView>, outs: Seq<Option<LiquidationResult>>) -> bool {
    &&& 0 <= n <= targets.len()
    &&& ls.len() == n + 1 && ss.len() == n + 1 && bs.len() == n + 1 && outs.len() == n
    &&& forall|j: int| #![trigger outs[j]] 0 <= j < n ==> liquidation_outcome(ls[j], ss[j], bs[j], targets[j].0, targets[j].1,
        mark_price, liquidator, Ok(outs[j]), ls[j + 1], ss[j + 1], bs[j + 1])
}

impl Default for InsuranceFund {
    fn default() -> (r: Self)
        ensures
            r == (InsuranceFund { balance: 0, total_contributions: 0, total_payouts: 0 }),
    {
        InsuranceFund { balance: 0, total_contributions: 0, total_payouts: 0 }
    }
}

/// An empty insurance fund.
pub open spec fn empty_fund() -> InsuranceFund {
    InsuranceFund { balance: 0, total_contributions: 0, total_payouts: 0 }
}

/// Margin ratio used for liquidations: equity over notional in basis points,
/// `u32::MAX` for empty positions or zero notional, capped at `u32::MAX`.
pub open spec fn liq_margin_ratio(p: Position, mark_price: u64) -> Result<u32, EngineError> {
    if p.size == 0 {
        Ok(u32::MAX)
    } else {
        match equity_spec(p, mark_price) {
            None => Err(EngineError::Overflow),
            Some(eq) => {
                let value = p.size * mark_price;
                if value == 0 {
                    Ok(u32::MAX)
                } else if eq * 10000 > u128::MAX {
                    Err(EngineError::Overflow)
                } else {
                    let ratio = (eq * 10000) / value;
                    Ok(if ratio <= u32::MAX { ratio as u32 } else { u32::MAX })
                }
            },
        }
    }
}

/// Whether the position of `trader` in `market_id` is below maintenance margin.
pub open spec fn should_liquidate_spec(s: StateView, trader: Address, market_id: u32, mark_price: u64, maintenance_margin_bps: u32) -> Result<bool, EngineError> {
    match s.position(trader, market_id) {
        None => Ok(false),
        Some(p) => {
            if p.size == 0 {
                Ok(false)
            } else {
                match liq_margin_ratio(p, mark_price) {
                    Err(e) => Err(e),
                    Ok(ratio) => Ok(ratio < maintenance_margin_bps),
                }
            }
        },
    }
}

/// Risk entry of a position (errors when its equity or ratio overflow).
pub open spec fn position_risk_spec(trader: Address, market_id: u32, p: Position, mark_price: u64) -> Result<PositionRisk, EngineError> {
    match liq_margin_ratio(p, mark_price) {
        Err(e) => Err(e),
        Ok(ratio) => match equity_spec(p, mark_price) {
            None => Err(EngineError::Overflow),
            Some(eq) => Ok(PositionRisk {
                trader,
                market_id,
                margin_ratio: ratio,
                position_value: (p.size * mark_price) as u128,
                equity: eq,
            }),
        },
    }
}

/// Liquidation engine with partial liquidations, an insurance fund per
/// market and auto-deleveraging.
pub struct LiquidationEngine {
    position_mgr: PositionManager,
    at_risk_positions: Vec<PositionRisk>,
    insurance_funds: Vec<(u32, InsuranceFund)>,
    fee_split: (u32, u32),
    min_insurance_ratio: u32,
    enable_partial_liquidations: bool,
    adl_enabled: bool,
}

/// Mathematical content of a [`LiquidationEngine`].
pub struct LiquidationView {
    /// Risk entries, in the order they were indexed.
    pub at_risk: Seq<PositionRisk>,
    pub insurance_funds: Map<u32, InsuranceFund>,
    /// `(liquidator_bps, insurance_fund_bps)`.
    pub fee_split: (u32, u32),
    pub min_insurance_ratio: u32,
    pub partial_liquidations: bool,
    pub adl_enabled: bool,
}

impl LiquidationView {
    /// Insurance fund of market `m` (empty when never touched).
    pub open spec fn fund(self, m: u32) -> InsuranceFund {
        if self.insurance_funds.contains_key(m) { self.insurance_funds[m] } else { empty_fund() }
    }
}

impl View for LiquidationEngine {
    type V = LiquidationView;

    closed spec fn view(&self) -> LiquidationView {
        LiquidationView {
            at_risk: self.at_risk_positions@,
            insurance_funds: table_map(self.insurance_funds@),
            fee_split: self.fee_split,
            min_insurance_ratio: self.min_insurance_ratio,
            partial_liquidations: self.enable_partial_liquidations,
            adl_enabled: self.adl_enabled,
        }
    }
}

impl Default for LiquidationEngine {
    fn default() -> (r: Self)
        ensures
            r@.at_risk == Seq::<PositionRisk>::empty(),
            r@.insurance_funds == Map::<u32, InsuranceFund>::empty(),
            r@.fee_split == (DEFAULT_LIQUIDATOR_FEE_BPS, DEFAULT_INSURANCE_FEE_BPS),
            r@.min_insurance_ratio == DEFAULT_MIN_INSURANCE_RATIO_BPS,
            r@.partial_liquidations,
            r@.adl_enabled,
    {
        let r = LiquidationEngine {
            position_mgr: PositionManager,
            at_risk_positions: Vec::new(),
            insurance_funds: Vec::new(),
            fee_split: (DEFAULT_LIQUIDATOR_FEE_BPS, DEFAULT_INSURANCE_FEE_BPS),
            min_insurance_ratio: DEFAULT_MIN_INSURANCE_RATIO_BPS,
            enable_partial_liquidations: true,
            adl_enabled: true,
        };
        proof { lemma_table_empty(r.insurance_funds@); }
        r
    }
}

impl LiquidationEngine {
    #[verifier::type_invariant]
    spec fn inv(self) -> bool {
        keys_unique(self.insurance_funds@)
    }

    /// Configure the split of liquidation fees between liquidator and
    /// insurance fund; the two shares must add up to 10000 basis points.
    pub fn set_fee_split(&mut self, liquidator_bps: u32, insurance_fund_bps: u32)
        requires
            liquidator_bps + insurance_fund_bps == 10000,
        ensures
            final(self)@ == (LiquidationView { fee_split: (liquidator_bps, insurance_fund_bps), ..old(self)@ }),
    {
        proof { use_type_invariant(&*self); }
        self.fee_split = (liquidator_bps, insurance_fund_bps);
    }

    /// Current fee split `(liquidator_bps, insurance_fund_bps)`.
    pub fn get_fee_split(&self) -> (r: (u32, u32))
        ensures
            r == self@.fee_split,
    {
        self.fee_split
    }

    fn find_fund(&self, m: u32) -> (r: Option<usize>)
        ensures
            r matches Some(i) ==> i < self.insurance_funds@.len() && self.insurance_funds@[i as int].0 == m,
            r is None ==> !has_key(self.insurance_funds@, m),
    {
        let mut i: usize = 0;
        while i < self.insurance_funds.len()
            invariant
                i <= self.insurance_funds@.len(),
                forall|j: int| 0 <= j < i ==> self.insurance_funds@[j].0 != m,
            decreases self.insurance_funds@.len() - i,
        {
            if self.insurance_funds[i].0 == m {
                return Some(i);
            }
            i += 1;
        }
        None
    }

    /// Insurance fund of a market (empty when never touched).
    pub fn get_insurance_fund(&self, market_id: u32) -> (r: InsuranceFund)
        ensures
            r == self@.fund(market_id),
    {
        proof { use_type_invariant(self); }
        match self.find_fund(market_id) {
            Some(i) => {
                proof { lemma_key_index(self.insurance_funds@, i as int); }
                self.insurance_funds[i].1
            },
            None => InsuranceFund::default(),
        }
    }

    /// Store the insurance fund of a market.
    pub fn set_insurance_fund(&mut self, market_id: u32, fund: InsuranceFund)
        ensures
            final(self)@ == (LiquidationView { insurance_funds: old(self)@.insurance_funds.insert(market_id, fund), ..old(self)@ }),
    {
        proof { use_type_invariant(&*self); }
        let found = self.find_fund(market_id);
        let mut t: Vec<(u32, InsuranceFund)> = Vec::new();
        std::mem::swap(&mut t, &mut self.insurance_funds);
        match found {
            Some(i) => {
                proof { lemma_table_update(t@, i as int, fund); }
                t.set(i, (market_id, fund));
            },
            None => {
                proof { lemma_table_push(t@, market_id, fund); }
                t.push((market_id, fund));
            },
        }
        self.insurance_funds = t;
    }

    /// Whether the insurance fund covers the minimum ratio of open notional
    /// (an overflowing requirement counts as zero).
    pub fn is_insurance_fund_healthy(&self, market_id: u32, total_positions_value: u128) -> (r: bool)
        ensures
            r == (self@.fund(market_id).balance >= if total_positions_value * self@.min_insurance_ratio > u128::MAX { 0 }
                else { (total_positions_value * self@.min_insurance_ratio) / 10000 }),
    {
        let fund = self.get_insurance_fund(market_id);
        let required_minimum: u128 = match total_positions_value.checked_mul(self.min_insurance_ratio as u128) {
            Some(v) => v / BASIS_POINTS,
            None => 0,
        };
        fund.balance >= required_minimum
    }

    /// Margin ratio of a position for liquidation purposes.
    fn calculate_margin_ratio(&self, position: &Position, mark_price: u64) -> (r: Result<u32, EngineError>)
        ensures
            r == liq_margin_ratio(*position, mark_price),
    {
        if position.size == 0 {
            return Ok(u32::MAX);
        }
        let equity = match position_equity(position, mark_price) {
            Some(e) => e,
            None => { return Err(EngineError::Overflow); },
        };
        proof { lemma_u64_product_fits(position.size, mark_price); }
        let position_value: u128 = (position.size as u128) * (mark_price as u128);
        if position_value == 0 {
            return Ok(u32::MAX);
        }
        let ratio: u128 = match equity.checked_mul(BASIS_POINTS) {
            Some(v) => v / position_value,
            None => { return Err(EngineError::Overflow); },
        };
        if ratio <= u32::MAX as u128 { Ok(ratio as u32) } else { Ok(u32::MAX) }
    }

    /// Whether a position is below the market's maintenance margin.
    pub fn should_liquidate(&self, state: &StateManager, trader: Address, market_id: u32, mark_price: u64, market: &Market) -> (r: Result<bool, EngineError>)
        ensures
            r == should_liquidate_spec(state@, trader, market_id, mark_price, market.maintenance_margin_bps),
    {
        let position = match state.get_position(trader, market_id) {
            Some(p) => p,
            None => { return Ok(false); },
        };
        if position.size == 0 {
            return Ok(false);
        }
        let margin_ratio = self.calculate_margin_ratio(&position, mark_price)?;
        Ok(margin_ratio < market.maintenance_margin_bps)
    }

    fn create_position_risk(&self, trader: Address, market_id: u32, position: &Position, mark_price: u64) -> (r: Result<PositionRisk, EngineError>)
        ensures
            r == position_risk_spec(trader, market_id, *position, mark_price),
    {
        let margin_ratio = self.calculate_margin_ratio(position, mark_price)?;
        proof { lemma_u64_product_fits(position.size, mark_price); }
        let position_value: u128 = (position.size as u128) * (mark_price as u128);
        let equity = match position_equity(position, mark_price) {
            Some(e) => e,
            None => { return Err(EngineError::Overflow); },
        };
        Ok(PositionRisk { trader, market_id, margin_ratio, position_value, equity })
    }

    fn push_risk(&mut self, risk: PositionRisk)
        ensures
            final(self)@ == (LiquidationView { at_risk: old(self)@.at_risk.push(risk), ..old(self)@ }),
            final(self).at_risk_positions@ == old(self).at_risk_positions@.push(risk),
            final(self).insurance_funds@ == old(self).insurance_funds@,
            final(self).fee_split == old(self).fee_split,
    {
        proof { use_type_invariant(&*self); }
        let mut t: Vec<PositionRisk> = Vec::new();
        std::mem::swap(&mut t, &mut self.at_risk_positions);
        t.push(risk);
        self.at_risk_positions = t;
    }

    /// Index the risk of one position (no effect without a non-empty position).
    pub fn update_risk_index(&mut self, state: &StateManager, trader: Address, market_id: u32, mark_price: u64) -> (r: Result<(), EngineError>)
        ensures
            risk_index_updated(old(self)@, state@, trader, market_id, mark_price, r, final(self)@),
    {
        let position = match state.get_position(trader, market_id) {
            Some(p) => p,
            None => { return Ok(()); },
        };
        if position.size == 0 {
            return Ok(());
        }
        let risk = self.create_position_risk(trader, market_id, &position, mark_price)?;
        self.push_risk(risk);
        Ok(())
    }

    /// Rebuild the risk index of a market from the current positions.
    pub fn rebuild_risk_index(&mut self, state: &StateManager, market_id: u32, mark_price: u64) -> (r: Result<(), EngineError>)
        ensures
            risk_index_rebuilt(old(self)@, state@, market_id, mark_price, r, final(self)@),
    {
        proof { use_type_invariant(&*self); }
        // Drop the market's old entries.
        let mut kept: Vec<PositionRisk> = Vec::new();
        let mut i: usize = 0;
        while i < self.at_risk_positions.len()
            invariant
                i <= self.at_risk_positions@.len(),
                forall|j: int| 0 <= j < kept@.len() ==> (#[trigger] kept@[j]).market_id != market_id,
                forall|j: int| 0 <= j < i && (#[trigger] self.at_risk_positions@[j]).market_id != market_id
                    ==> kept@.contains(self.at_risk_positions@[j]),
            decreases self.at_risk_positions@.len() - i,
        {
            let e = self.at_risk_positions[i];
            if e.market_id != market_id {
                let ghost k0 = kept@;
                kept.push(e);
                proof {
                    assert forall|j: int| 0 <= j < i + 1 && (#[trigger] self.at_risk_positions@[j]).market_id != market_id
                        implies kept@.contains(self.at_risk_positions@[j]) by {
                        if j < i {
                            let w = choose|w: int| 0 <= w < k0.len() && k0[w] == self.at_risk_positions@[j];
                            assert(kept@[w] == k0[w]);
                        } else {
                            assert(kept@[kept@.len() - 1] == e);
                        }
                    }
                }
            }
            i += 1;
        }
        let ghost old_entries = self.at_risk_positions@;
        self.at_risk_positions = kept;
        let positions = state.get_all_positions_in_market(market_id);
        let mut k: usize = 0;
        while k < positions.len()
            invariant
                k <= positions@.len(),
                forall|j: int| 0 <= j < positions@.len() ==> state@.position(#[trigger] positions@[j].0, market_id) == Some(positions@[j].1),
                forall|j: int| 0 <= j < self.at_risk_positions@.len() ==> (#[trigger] self.at_risk_positions@[j]).market_id != market_id
                    || ({
                        let e = self.at_risk_positions@[j];
                        &&& state@.position(e.trader, market_id) is Some
                        &&& state@.position(e.trader, market_id).unwrap().size > 0
                        &&& position_risk_spec(e.trader, market_id, state@.position(e.trader, market_id).unwrap(), mark_price) == Ok::<PositionRisk, EngineError>(e)
                    }),
                forall|j: int| 0 <= j < old_entries.len() && (#[trigger] old_entries[j]).market_id != market_id
                    ==> self.at_risk_positions@.contains(old_entries[j]),
                forall|j: int| 0 <= j < k && (#[trigger] positions@[j]).1.size > 0 ==> exists|w: int| 0 <= w < self.at_risk_positions@.len()
                    && self.at_risk_positions@[w].market_id == market_id && self.at_risk_positions@[w].trader == positions@[j].0,
                self.insurance_funds@ == old(self).insurance_funds@,
                self.fee_split == old(self).fee_split,
                old_entries == old(self)@.at_risk,
                lists_market_positions(state@, market_id, positions@),
                forall|j: int| 0 <= j < k && (#[trigger] positions@[j]).1.size > 0
                    ==> position_risk_spec(positions@[j].0, market_id, positions@[j].1, mark_price) is Ok,
            decreases positions@.len() - k,
        {
            let (trader, position) = positions[k];
            if position.size > 0 {
                let risk = match self.create_position_risk(trader, market_id, &position, mark_price) {
                    Ok(x) => x,
                    Err(e) => {
                        proof {
                            assert(state@.position(positions@[k as int].0, market_id) == Some(positions@[k as int].1));
                            assert(state@.positions.contains_key((trader, market_id)));
                        }
                        return Err(e);
                    },
                };
                let ghost a0 = self.at_risk_positions@;
                self.push_risk(risk);
                proof {
                    assert forall|j: int| 0 <= j < old_entries.len() && (#[trigger] old_entries[j]).market_id != market_id
                        implies self.at_risk_positions@.contains(old_entries[j]) by {
                        let w = choose|w: int| 0 <= w < a0.len() && a0[w] == old_entries[j];
                        assert(self.at_risk_positions@[w] == a0[w]);
                    }
                    assert forall|j: int| 0 <= j < k + 1 && (#[trigger] positions@[j]).1.size > 0 implies exists|w: int| 0 <= w < self.at_risk_positions@.len()
                        && self.at_risk_positions@[w].market_id == market_id && self.at_risk_positions@[w].trader == positions@[j].0 by {
                        if j < k {
                            let w = choose|w: int| 0 <= w < a0.len() && a0[w].market_id == market_id && a0[w].trader == positions@[j].0;
                            assert(self.at_risk_positions@[w] == a0[w]);
                        } else {
                            assert(self.at_risk_positions@[a0.len() as int] == risk);
                        }
                    }
                }
            }
            k += 1;
        }
        proof {
            assert forall|t: Address| #[trigger] state@.positions.contains_key((t, market_id)) && state@.positions[(t, market_id)].size > 0
                implies position_risk_spec(t, market_id, state@.positions[(t, market_id)], mark_price) is Ok by {
                let j = choose|j: int| 0 <= j < positions@.len() && positions@[j].0 == t;
                assert(state@.position(positions@[j].0, market_id) == Some(positions@[j].1));
                assert(positions@[j].1.size > 0);
            }
            assert forall|t: Address| #[trigger] state@.positions.contains_key((t, market_id)) && state@.positions[(t, market_id)].size > 0
                implies exists|i: int| 0 <= i < self@.at_risk.len() && self@.at_risk[i].market_id == market_id
                    && self@.at_risk[i].trader == t by {
                assert(lists_market_positions(state@, market_id, positions@));
                assert(state@.positions.contains_key((t, market_id)));
                assert(exists|j: int| 0 <= j < positions@.len() && positions@[j].0 == t);
                let j = choose|j: int| 0 <= j < positions@.len() && positions@[j].0 == t;
                assert(state@.position(positions@[j].0, market_id) == Some(positions@[j].1));
                assert(positions@[j].1.size > 0);
                assert(k == positions@.len());
                let w = choose|w: int| 0 <= w < self.at_risk_positions@.len()
                    && self.at_risk_positions@[w].market_id == market_id && self.at_risk_positions@[w].trader == positions@[j].0;
                assert(self@.at_risk[w] == self.at_risk_positions@[w]);
            }
        }
        Ok(())
    }

    /// Indexed positions of a market whose margin ratio is below a threshold,
    /// as `(trader, market_id)`, in index order.
    pub fn get_at_risk_positions(&self, market_id: u32, threshold_bps: u32) -> (r: Vec<(Address, u32)>)
        ensures
            r@ == at_risk_below(self@.at_risk, market_id, threshold_bps),
    {
        let mut r: Vec<(Address, u32)> = Vec::new();
        let mut i: usize = 0;
        while i < self.at_risk_positions.len()
            invariant
                i <= self.at_risk_positions@.len(),
                r@ == at_risk_below(self.at_risk_positions@.take(i as int), market_id, threshold_bps),
            decreases self.at_risk_positions@.len() - i,
        {
            proof { assert(self.at_risk_positions@.take(i + 1).drop_last() =~= self.at_risk_positions@.take(i as int)); }
            let e = self.at_risk_positions[i];
            if e.market_id == market_id && e.margin_ratio < threshold_bps {
                r.push((e.trader, e.market_id));
            }
            i += 1;
        }
        proof { assert(self.at_risk_positions@.take(i as int) =~= self.at_risk_positions@); }
        r
    }

    /// Size to liquidate from a position at a mark price.
    pub fn calculate_partial_liquidation_size(&self, position: &Position, mark_price: u64, market: &Market) -> (r: Result<u64, EngineError>)
        requires
            market.maintenance_margin_bps + MARGIN_BUFFER_BPS <= u32::MAX,
        ensures
            r == partial_size_spec(*position, mark_price, *market),
    {
        if mark_price == 0 {
            return Ok(position.size);
        }
        if position.size == 0 {
            return Ok(0);
        }
        let target_margin_ratio: u32 = market.maintenance_margin_bps + MARGIN_BUFFER_BPS;
        proof { lemma_u64_product_fits(position.size, mark_price); }
        let position_value: u128 = (position.size as u128) * (mark_price as u128);
        proof {
            let (a, b) = (position.size, mark_price);
            assert(position_value > 0) by (nonlinear_arith) requires position_value == (a as int) * (b as int), a > 0, b > 0;
        }
        if position_value == 0 {
            return Ok(0);
        }
        let equity = match position_equity(position, mark_price) {
            Some(e) => e,
            None => { return Err(EngineError::Overflow); },
        };
        let required_equity: u128 = match position_value.checked_mul(target_margin_ratio as u128) {
            Some(v) => v / BASIS_POINTS,
            None => { return Err(EngineError::Overflow); },
        };
        if equity >= required_equity {
            return Ok(0);
        }
        let equity_deficit: u128 = required_equity - equity;
        let fee_bps: u128 = market.liquidation_fee_bps as u128;
        proof { lemma_u64_product_fits(mark_price, (10000 + fee_bps) as u64); }
        let divisor: u128 = (mark_price as u128) * (BASIS_POINTS + fee_bps);
        proof {
            assert(divisor > 0) by (nonlinear_arith) requires divisor == (mark_price as int) * (10000 + fee_bps), mark_price > 0, fee_bps >= 0;
        }
        let scaled: u128 = match equity_deficit.checked_mul(BASIS_POINTS) {
            Some(v) => v,
            None => { return Err(EngineError::Overflow); },
        };
        let raw: u64 = (scaled / divisor) as u64;
        let tenth: u64 = position.size / MIN_LIQUIDATION_PCT;
        let min_liquidation: u64 = if tenth >= market.min_order_size { tenth } else { market.min_order_size };
        let lo: u64 = if raw >= min_liquidation { raw } else { min_liquidation };
        let liquidation_size: u64 = if lo <= position.size { lo } else { position.size };
        if liquidation_size < market.min_order_size && position.size > market.min_order_size {
            return Ok(market.min_order_size);
        }
        let remaining_size = position.size - liquidation_size;
        if remaining_size > 0 && remaining_size < market.min_order_size {
            return Ok(position.size);
        }
        Ok(liquidation_size)
    }

    /// Cancel every active order of `trader` in `market_id`; returns their ids.
    fn cancel_trader_orders(
        &self,
        state: &mut StateManager,
        orderbook: &mut OrderbookManager,
        trader: Address,
        market_id: u32,
    ) -> (r: Vec<u64>)
        ensures
            trader_orders_cancelled(old(state)@, final(state)@, trader, market_id),
            book_after_cancels(old(orderbook)@, final(orderbook)@, old(state)@, trader, market_id),
    {
        let ids = state.get_active_orders_by_market(market_id);
        let ghost s0 = state@;
        let ghost mut trace: Seq<BookView> = seq![orderbook@];
        let mut cancelled: Vec<u64> = Vec::new();
        let mut i: usize = 0;
        while i < ids.len()
            invariant
                i <= ids@.len(),
                ids@ == s0.active_ids(market_id),
                ids@.no_duplicates(),
                crate::orderbook::only_orders_changed(s0, state@),
                forall|j: int| 0 <= j < i && s0.order(#[trigger] ids@[j]) is Some
                    && s0.order(ids@[j]).unwrap().owner == trader && s0.order(ids@[j]).unwrap().status == crate::types::OrderStatus::Active
                    ==> state@.order(ids@[j]) == Some(crate::types::Order { status: crate::types::OrderStatus::Cancelled, ..s0.order(ids@[j]).unwrap() })
                        && !state@.active_orders.contains((market_id, ids@[j])),
                forall|id: u64| !(exists|j: int| 0 <= j < i && ids@[j] == id && s0.order(id) is Some
                    && s0.order(id).unwrap().owner == trader && s0.order(id).unwrap().status == crate::types::OrderStatus::Active)
                    ==> #[trigger] state@.order(id) == s0.order(id),
                trace.len() == i + 1,
                trace[0] == old(orderbook)@,
                trace.last() == orderbook@,
                s0 == old(state)@,
                forall|j: int| #![trigger ids@[j]] 0 <= j < i ==>
                    (cancels(s0, trader, ids@[j]) ==> crate::orderbook::book_after_remove(trace[j], trace[j + 1], ids@[j], s0.order(ids@[j]).unwrap()))
                    && (!cancels(s0, trader, ids@[j]) ==> trace[j + 1] == trace[j]),
            decreases ids@.len() - i,
        {
            let order_id = ids[i];
            let ghost st = state@;
            let ghost tr0 = trace;
            proof {
                assert forall|j: int| 0 <= j < i implies ids@[j] != order_id by {
                    assert(ids@[j] != ids@[i as int]);
                }
            }
            match state.get_order(order_id) {
                Some(order) => {
                    if order.owner == trader && order.status == crate::types::OrderStatus::Active {
                        orderbook.remove_order(order_id, &order);
                        let mut o = order;
                        o.status = crate::types::OrderStatus::Cancelled;
                        state.set_order(order_id, o);
                        let ghost st2 = state@;
                        state.remove_active_order(market_id, order_id);
                        proof {
                            assert(state@.orders == st2.orders);
                            assert forall|j: int| 0 <= j < i && s0.order(#[trigger] ids@[j]) is Some
                                && s0.order(ids@[j]).unwrap().owner == trader && s0.order(ids@[j]).unwrap().status == crate::types::OrderStatus::Active
                                implies !state@.active_orders.contains((market_id, ids@[j])) by {
                                assert(!st.active_orders.contains((market_id, ids@[j])));
                                if state@.active_orders.contains((market_id, ids@[j])) {
                                    let w = choose|w: int| 0 <= w < state@.active_orders.len() && state@.active_orders[w] == (market_id, ids@[j]);
                                    if st2.active_orders.contains((market_id, order_id)) {
                                        let x = choose|x: int| 0 <= x < st2.active_orders.len() && st2.active_orders[x] == (market_id, order_id)
                                            && state@ == (StateView { active_orders: st2.active_orders.remove(x), ..st2 });
                                        let w2 = if w < x { w } else { w + 1 };
                                        assert(st2.active_orders[w2] == state@.active_orders[w]);
                                    }
                                }
                            }
                        }
                        cancelled.push(order_id);
                    }
                },
                None => {},
            }
            proof {
                assert(st.order(order_id) == s0.order(order_id)) by {
                    assert(!(exists|j: int| 0 <= j < i && ids@[j] == order_id && s0.order(order_id) is Some
                        && s0.order(order_id).unwrap().owner == trader && s0.order(order_id).unwrap().status == crate::types::OrderStatus::Active));
                }
                trace = tr0.push(orderbook@);
                assert forall|j: int| #![trigger ids@[j]] 0 <= j < i + 1 implies
                    (cancels(s0, trader, ids@[j]) ==> crate::orderbook::book_after_remove(trace[j], trace[j + 1], ids@[j], s0.order(ids@[j]).unwrap()))
                    && (!cancels(s0, trader, ids@[j]) ==> trace[j + 1] == trace[j]) by {
                    if j < i {
                        assert(trace[j] == tr0[j] && trace[j + 1] == tr0[j + 1]);
                    } else {
                        assert(trace[j] == tr0.last());
                    }
                }
            }
            proof {
                assert forall|id: u64| !(exists|j: int| 0 <= j < i + 1 && ids@[j] == id && s0.order(id) is Some
                    && s0.order(id).unwrap().owner == trader && s0.order(id).unwrap().status == crate::types::OrderStatus::Active)
                    implies #[trigger] state@.order(id) == s0.order(id) by {
                    if id == order_id {
                        assert(ids@[i as int] == id);
                        assert(st.order(id) == s0.order(id));
                    } else {
                        assert(!(exists|j: int| 0 <= j < i && ids@[j] == id && s0.order(id) is Some
                            && s0.order(id).unwrap().owner == trader && s0.order(id).unwrap().status == crate::types::OrderStatus::Active));
                    }
                }
            }
            i += 1;
        }
        proof {
            assert forall|id: u64| #[trigger] s0.active_ids(market_id).contains(id) && s0.order(id) is Some
                && s0.order(id).unwrap().owner == trader && s0.order(id).unwrap().status == crate::types::OrderStatus::Active
                implies state@.order(id) == Some(crate::types::Order { status: crate::types::OrderStatus::Cancelled, ..s0.order(id).unwrap() })
                    && !state@.active_orders.contains((market_id, id)) by {
                let j = choose|j: int| 0 <= j < ids@.len() && ids@[j] == id;
                assert(s0.order(ids@[j]) is Some);
            }
            assert forall|id: u64| !(s0.active_ids(market_id).contains(id) && s0.order(id) is Some
                && s0.order(id).unwrap().owner == trader && s0.order(id).unwrap().status == crate::types::OrderStatus::Active)
                implies #[trigger] state@.order(id) == s0.order(id) by {
                if exists|j: int| 0 <= j < i && ids@[j] == id && s0.order(id) is Some
                    && s0.order(id).unwrap().owner == trader && s0.order(id).unwrap().status == crate::types::OrderStatus::Active {
                    let j = choose|j: int| 0 <= j < i && ids@[j] == id && s0.order(id) is Some
                        && s0.order(id).unwrap().owner == trader && s0.order(id).unwrap().status == crate::types::OrderStatus::Active;
                    assert(s0.active_ids(market_id).contains(id)) by { assert(ids@[j] == id); }
                }
            }
            assert(cancel_trace(s0, trader, s0.active_ids(market_id), trace));
        }
        cancelled
    }
}

/// Size to liquidate so that the margin ratio returns to maintenance plus
/// a buffer, bounded below by a tenth of the position (or the minimum
/// order size) and above by the whole position; a remainder smaller than
/// the minimum order size is liquidated as well.
pub open spec fn partial_size_spec(p: Position, mark_price: u64, market: Market) -> Result<u64, EngineError> {
    if mark_price == 0 {
        Ok(p.size)
    } else if p.size == 0 {
        Ok(0)
    } else {
        let target = market.maintenance_margin_bps + MARGIN_BUFFER_BPS;
        let value = p.size * mark_price;
        match equity_spec(p, mark_price) {
            None => Err(EngineError::Overflow),
            Some(eq) => {
                if value * target > u128::MAX {
                    Err(EngineError::Overflow)
                } else {
                    let required = (value * target) / 10000;
                    if eq >= required {
                        Ok(0)
                    } else {
                        let deficit = required - eq;
                        if deficit * 10000 > u128::MAX {
                            Err(EngineError::Overflow)
                        } else {
                            let raw = ((deficit * 10000) / (mark_price * (10000 + market.liquidation_fee_bps))) as u64;
                            let tenth = p.size / MIN_LIQUIDATION_PCT;
                            let min_liq = if tenth >= market.min_order_size { tenth } else { market.min_order_size };
                            let lo = if raw >= min_liq { raw } else { min_liq };
                            let size1 = if lo <= p.size { lo } else { p.size };
                            if size1 < market.min_order_size && p.size > market.min_order_size {
                                Ok(market.min_order_size)
                            } else if p.size - size1 > 0 && p.size - size1 < market.min_order_size {
                                Ok(p.size)
                            } else {
                                Ok(size1)
                            }
                        }
                    }
                }
            },
        }
    }
}

/// Everything a liquidation decides, computed before it is applied.
pub struct LiquidationPlan {
    pub size: u64,
    pub fee: u128,
    pub reward: u128,
    pub contribution: u128,
    pub usage: u128,
    pub remaining: u128,
    /// The fund once bad debt has been covered and the contribution added.
    pub fund_after: InsuranceFund,
    /// The position left (`None` when fully liquidated).
    pub position_after: Option<Position>,
    /// The liquidator's balance after its reward.
    pub liquidator_balance: u128,
    /// The trader's balance after the remaining equity is returned.
    pub trader_balance: u128,
}

/// The fund after covering a shortfall of `fee - equity` (if any): it pays
/// what it can, and records the payout.
pub open spec fn fund_after_bad_debt(fund: InsuranceFund, equity: u128, fee: u128) -> Result<(InsuranceFund, u128), EngineError> {
    if equity >= fee {
        Ok((fund, 0u128))
    } else {
        let shortfall = (fee - equity) as u128;
        let paid = if fund.balance >= shortfall { shortfall } else { fund.balance };
        if fund.total_payouts + paid > u128::MAX {
            Err(EngineError::Overflow)
        } else {
            Ok((InsuranceFund { balance: (fund.balance - paid) as u128, total_payouts: (fund.total_payouts + paid) as u128, ..fund }, paid))
        }
    }
}

/// The plan of a liquidation of position `pos` of `trader` at price `lp`.
pub open spec fn liquidation_plan(
    s: StateView,
    v: LiquidationView,
    pos: Position,
    market: Market,
    trader: Address,
    market_id: u32,
    lp: u64,
    liquidator: Address,
) -> Result<LiquidationPlan, EngineError> {
    let size_r = if v.partial_liquidations { partial_size_spec(pos, lp, market) } else { Ok(pos.size) };
    match size_r {
        Err(e) => Err(e),
        Ok(size) => {
            let value = size * lp;
            if value * market.liquidation_fee_bps > u128::MAX {
                Err(EngineError::Overflow)
            } else {
                let fee = ((value * market.liquidation_fee_bps) / 10000) as u128;
                if fee * v.fee_split.0 > u128::MAX || fee * v.fee_split.1 > u128::MAX {
                    Err(EngineError::Overflow)
                } else {
                    let reward = ((fee * v.fee_split.0) / 10000) as u128;
                    let contribution = ((fee * v.fee_split.1) / 10000) as u128;
                    match equity_spec(pos, lp) {
                        None => Err(EngineError::Overflow),
                        Some(equity) => match fund_after_bad_debt(v.fund(market_id), equity, fee) {
                            Err(e) => Err(e),
                            Ok((fund1, usage)) => {
                                let remaining = if equity >= fee { (equity - fee) as u128 } else { 0u128 };
                                let pos_after = if size >= pos.size {
                                    Ok(None::<Position>)
                                } else if pos.margin * size > u128::MAX {
                                    Err(EngineError::Overflow)
                                } else {
                                    let red = (pos.margin * size) / (pos.size as int);
                                    Ok(Some(Position {
                                        size: (pos.size - size) as u64,
                                        margin: if pos.margin >= red { (pos.margin - red) as u128 } else { 0u128 },
                                        ..pos
                                    }))
                                };
                                let lb = s.balance(liquidator, market.quote_asset_id);
                                match pos_after {
                                    Err(e) => Err(e),
                                    Ok(pa) => {
                                        if lb + reward > u128::MAX
                                            || fund1.balance + contribution > u128::MAX
                                            || fund1.total_contributions + contribution > u128::MAX {
                                            Err(EngineError::Overflow)
                                        } else {
                                            let lb2 = (lb + reward) as u128;
                                            let tb = if trader == liquidator { lb2 } else { s.balance(trader, market.quote_asset_id) };
                                            if remaining > 0 && tb + remaining > u128::MAX {
                                                Err(EngineError::Overflow)
                                            } else {
                                                Ok(LiquidationPlan {
                                                    size,
                                                    fee,
                                                    reward,
                                                    contribution,
                                                    usage,
                                                    remaining,
                                                    fund_after: InsuranceFund {
                                                        balance: (fund1.balance + contribution) as u128,
                                                        total_contributions: (fund1.total_contributions + contribution) as u128,
                                                        ..fund1
                                                    },
                                                    position_after: pa,
                                                    liquidator_balance: lb2,
                                                    trader_balance: if remaining > 0 { (tb + remaining) as u128 } else { tb },
                                                })
                                            }
                                        }
                                    },
                                }
                            },
                        },
                    }
                }
            }
        },
    }
}

/// Whether cancelling `trader`'s orders takes out order `id`: it is stored,
/// the trader's, and active.
pub open spec fn cancels(a: StateView, trader: Address, id: u64) -> bool {
    a.order(id) is Some && a.order(id).unwrap().owner == trader && a.order(id).unwrap().status == crate::types::OrderStatus::Active
}

/// `t` holds the books met while going through `ids`: each order that
/// cancellation takes out leaves the book (as `book_after_remove` says, with
/// its record in `a`), and the book stays as it is for every other id.
pub open spec fn cancel_trace(a: StateView, trader: Address, ids: Seq<u64>, t: Seq<BookView>) -> bool {
    &&& t.len() == ids.len() + 1
    &&& forall|j: int| #![trigger ids[j]] 0 <= j < ids.len() ==>
        (cancels(a, trader, ids[j]) ==> crate::orderbook::book_after_remove(t[j], t[j + 1], ids[j], a.order(ids[j]).unwrap()))
        && (!cancels(a, trader, ids[j]) ==> t[j + 1] == t[j])
}

/// Book `b1` is `b0` once the active orders of `trader` in market `m` (as
/// state `a` lists them) have left it, one after another.
pub open spec fn book_after_cancels(b0: BookView, b1: BookView, a: StateView, trader: Address, m: u32) -> bool {
    exists|t: Seq<BookView>| #[trigger] cancel_trace(a, trader, a.active_ids(m), t) && t[0] == b0 && t.last() == b1
}

/// Whether the state `b` is `a` after the active orders of `trader` in
/// market `m` were cancelled (nothing but orders and active pairs changes).
pub open spec fn trader_orders_cancelled(a: StateView, b: StateView, trader: Address, m: u32) -> bool {
    &&& crate::orderbook::only_orders_changed(a, b)
    &&& forall|id: u64| #[trigger] a.active_ids(m).contains(id) && a.order(id) is Some
        && a.order(id).unwrap().owner == trader && a.order(id).unwrap().status == crate::types::OrderStatus::Active
        ==> b.order(id) == Some(crate::types::Order { status: crate::types::OrderStatus::Cancelled, ..a.order(id).unwrap() })
            && !b.active_orders.contains((m, id))
    &&& forall|id: u64| !(a.active_ids(m).contains(id) && a.order(id) is Some
        && a.order(id).unwrap().owner == trader && a.order(id).unwrap().status == crate::types::OrderStatus::Active)
        ==> #[trigger] b.order(id) == a.order(id)
}

impl LiquidationEngine {
    /// Liquidate the position of `trader` in `market_id` at the mark price
    /// (rounded to the tick grid), if it is below maintenance margin: cancel
    /// the trader's active orders in the market, liquidate part (or all) of
    /// the position, pay the liquidator its share of the fee, add the rest
    /// of the fee to the insurance fund, cover bad debt from the fund, and
    /// return what equity remains to the trader.
    pub fn liquidate_with_incentive(
        &mut self,
        state: &mut StateManager,
        orderbook: &mut OrderbookManager,
        trader: Address,
        market_id: u32,
        mark_price: u64,
        liquidator: Address,
    ) -> (r: Result<Option<LiquidationResult>, EngineError>)
        requires
            old(state)@.market(market_id) is Some ==> old(state)@.market(market_id).unwrap().maintenance_margin_bps + MARGIN_BUFFER_BPS <= u32::MAX,
        ensures
            liquidation_outcome(old(self)@, old(state)@, old(orderbook)@, trader, market_id, mark_price, liquidator, r, final(self)@, final(state)@, final(orderbook)@),
    {
        if mark_price == 0 {
            return Err(EngineError::ZeroMarkPrice);
        }
        let market = match state.get_market(market_id) {
            Some(m) => m,
            None => { return Err(EngineError::MarketNotFound); },
        };
        let liquidation_price = market.normalize_price(mark_price);
        if !self.should_liquidate(state, trader, market_id, liquidation_price, &market)? {
            return Ok(None);
        }
        let ghost s0 = state@;
        let ghost v0 = self@;
        let _cancelled = self.cancel_trader_orders(state, orderbook, trader, market_id);
        let ghost s1 = state@;
        let position = match state.get_position(trader, market_id) {
            Some(p) => p,
            None => { return Err(EngineError::PositionNotFound); },
        };
        proof { assert(position == s0.position(trader, market_id).unwrap()); }
        let liquidation_size: u64 = if self.enable_partial_liquidations {
            self.calculate_partial_liquidation_size(&position, liquidation_price, &market)?
        } else {
            position.size
        };
        proof { lemma_u64_product_fits(liquidation_size, liquidation_price); }
        let liquidation_value: u128 = (liquidation_size as u128) * (liquidation_price as u128);
        let liquidation_fee: u128 = match liquidation_value.checked_mul(market.liquidation_fee_bps as u128) {
            Some(v) => v / BASIS_POINTS,
            None => { return Err(EngineError::Overflow); },
        };
        let liquidator_reward: u128 = match liquidation_fee.checked_mul(self.fee_split.0 as u128) {
            Some(v) => v / BASIS_POINTS,
            None => { return Err(EngineError::Overflow); },
        };
        let insurance_contribution: u128 = match liquidation_fee.checked_mul(self.fee_split.1 as u128) {
            Some(v) => v / BASIS_POINTS,
            None => { return Err(EngineError::Overflow); },
        };
        let equity = match position_equity(&position, liquidation_price) {
            Some(e) => e,
            None => { return Err(EngineError::Overflow); },
        };
        let remaining_equity: u128 = equity.saturating_sub(liquidation_fee);
        let mut fund = self.get_insurance_fund(market_id);
        let insurance_fund_usage: u128 = if equity < liquidation_fee {
            let shortfall = liquidation_fee - equity;
            let paid = if fund.balance >= shortfall { shortfall } else { fund.balance };
            let payouts = match fund.total_payouts.checked_add(paid) {
                Some(v) => v,
                None => { return Err(EngineError::Overflow); },
            };
            fund.balance = fund.balance - paid;
            fund.total_payouts = payouts;
            self.set_insurance_fund(market_id, fund);
            paid
        } else {
            0
        };
        let ghost fund1 = fund;
        // Execute the liquidation on the position.
        if liquidation_size >= position.size {
            state.delete_position(trader, market_id);
        } else {
            let scaled = match position.margin.checked_mul(liquidation_size as u128) {
                Some(v) => v,
                None => { return Err(EngineError::Overflow); },
            };
            let margin_reduction: u128 = scaled / (position.size as u128);
            let updated = Position {
                size: position.size - liquidation_size,
                margin: position.margin.saturating_sub(margin_reduction),
                ..position
            };
            state.set_position(trader, market_id, updated);
        }
        // Reward the liquidator.
        let liquidator_balance = state.get_balance(liquidator, market.quote_asset_id);
        let new_liquidator_balance = match liquidator_balance.checked_add(liquidator_reward) {
            Some(v) => v,
            None => { return Err(EngineError::Overflow); },
        };
        state.set_balance(liquidator, market.quote_asset_id, new_liquidator_balance);
        // Feed the insurance fund.
        let new_fund_balance = match fund.balance.checked_add(insurance_contribution) {
            Some(v) => v,
            None => { return Err(EngineError::Overflow); },
        };
        let new_contributions = match fund.total_contributions.checked_add(insurance_contribution) {
            Some(v) => v,
            None => { return Err(EngineError::Overflow); },
        };
        fund.balance = new_fund_balance;
        fund.total_contributions = new_contributions;
        self.set_insurance_fund(market_id, fund);
        // Return what equity remains to the trader.
        if remaining_equity > 0 {
            let trader_balance = state.get_balance(trader, market.quote_asset_id);
            let new_trader_balance = match trader_balance.checked_add(remaining_equity) {
                Some(v) => v,
                None => { return Err(EngineError::Overflow); },
            };
            state.set_balance(trader, market.quote_asset_id, new_trader_balance);
        }
        proof {
            assert(s1.balances == s0.balances);
            assert(s1.positions == s0.positions);
            assert(self@.insurance_funds =~= v0.insurance_funds.insert(market_id, fund));
        }
        Ok(Some(LiquidationResult {
            trader,
            market_id,
            liquidated_size: liquidation_size,
            liquidation_price: market.normalize_price(mark_price),
            liquidation_fee,
            remaining_equity,
            liquidator: Some(liquidator),
            liquidator_reward,
            insurance_fund_contribution: insurance_contribution,
            insurance_fund_usage,
        }))
    }

    /// Auto-deleverage: when enabled, reduce the profitable positions of
    /// `market_id`, highest PnL-times-leverage first, until `required_amount`
    /// of notional at `mark_price` is collected; returns `(trader, size)` of
    /// each reduction. When disabled, nothing happens.
    pub fn auto_deleverage(
        &mut self,
        state: &mut StateManager,
        market_id: u32,
        required_amount: u128,
        mark_price: u64,
    ) -> (r: Result<Vec<(Address, u64)>, EngineError>)
        ensures
            final(self)@ == old(self)@,
            !old(self)@.adl_enabled ==> r is Ok && r->Ok_0@ == Seq::<(Address, u64)>::empty()
                && final(state)@ == old(state)@,
            old(self)@.adl_enabled ==> exists|ps: Seq<(Address, Position)>| {
                &&& lists_market_positions(old(state)@, market_id, ps)
                &&& adl_outcome_holds(old(state)@, ps, market_id, required_amount, mark_price, r, final(state)@)
            },
    {
        if !self.adl_enabled {
            return Ok(Vec::new());
        }
        run_auto_deleverage(state, market_id, required_amount, mark_price)
    }

    /// Liquidate up to `max_liquidations` indexed positions of a market that
    /// sit below its maintenance margin, in index order.
    pub fn process_liquidation_batch(
        &mut self,
        state: &mut StateManager,
        orderbook: &mut OrderbookManager,
        market_id: u32,
        mark_price: u64,
        liquidator: Address,
        max_liquidations: usize,
    ) -> (r: Result<Vec<LiquidationResult>, EngineError>)
        requires
            old(state)@.market(market_id) is Some ==> old(state)@.market(market_id).unwrap().maintenance_margin_bps + MARGIN_BUFFER_BPS <= u32::MAX,
        ensures
            liquidation_batch_outcome(old(self)@, old(state)@, old(orderbook)@, market_id, mark_price, liquidator, max_liquidations, r,
                final(self)@, final(state)@, final(orderbook)@),
    {
        let market = match state.get_market(market_id) {
            Some(m) => m,
            None => { return Err(EngineError::MarketNotFound); },
        };
        let at_risk = self.get_at_risk_positions(market_id, market.maintenance_margin_bps);
        let ghost ar0 = self@.at_risk;
        let ghost mut ls: Seq<LiquidationView> = seq![self@];
        let ghost mut ss: Seq<StateView> = seq![state@];
        let ghost mut bs: Seq<BookView> = seq![orderbook@];
        let ghost mut outs: Seq<Option<LiquidationResult>> = Seq::empty();
        let mut results: Vec<LiquidationResult> = Vec::new();
        let mut i: usize = 0;
        while i < at_risk.len() && i < max_liquidations
            invariant
                i <= at_risk@.len(),
                at_risk@ == at_risk_below(ar0, market_id, market.maintenance_margin_bps),
                ar0 == old(self)@.at_risk,
                state@.market(market_id) == Some(market),
                old(state)@.market(market_id) == Some(market),
                results@.len() <= i,
                i <= max_liquidations,
                state@.market(market_id) is Some,
                state@.market(market_id).unwrap().maintenance_margin_bps + MARGIN_BUFFER_BPS <= u32::MAX,
                forall|k: int| 0 <= k < results@.len() ==> (#[trigger] results@[k]).market_id == market_id
                    && results@[k].liquidator == Some(liquidator),
                liquidation_trace(at_risk@, mark_price, liquidator, i as int, ls, ss, bs, outs),
                ls[0] == old(self)@ && ss[0] == old(state)@ && bs[0] == old(orderbook)@,
                ls[i as int] == self@ && ss[i as int] == state@ && bs[i as int] == orderbook@,
                results@ == liquidated(outs),
            decreases at_risk@.len() - i,
        {
            let (trader, mid) = at_risk[i];
            proof { lemma_at_risk_market(ar0, market_id, market.maintenance_margin_bps, i as int); }
            let ghost st = state@;
            let ghost l_before = self@;
            let ghost b_before = orderbook@;
            let res = match self.liquidate_with_incentive(state, orderbook, trader, mid, mark_price, liquidator) {
                Ok(x) => x,
                Err(e) => {
                    proof {
                        assert(liquidation_trace(at_risk@, mark_price, liquidator, i as int, ls, ss, bs, outs));
                    }
                    return Err(e);
                },
            };
            proof { assert(state@.markets == st.markets); }
            let ghost r0 = results@;
            match res {
                Some(x) => { results.push(x); },
                None => {},
            }
            proof {
                let o0 = outs;
                let l0s = ls;
                let s0s = ss;
                let b0s = bs;
                outs = o0.push(res);
                ls = l0s.push(self@);
                ss = s0s.push(state@);
                bs = b0s.push(orderbook@);
                assert(outs.drop_last() =~= o0);
                assert forall|j: int| #![trigger outs[j]] 0 <= j < i + 1 implies liquidation_outcome(ls[j], ss[j], bs[j], at_risk@[j].0, at_risk@[j].1,
                    mark_price, liquidator, Ok(outs[j]), ls[j + 1], ss[j + 1], bs[j + 1]) by {
                    if j < i {
                        assert(outs[j] == o0[j]);
                        assert(ls[j] == l0s[j] && ls[j + 1] == l0s[j + 1]);
                        assert(ss[j] == s0s[j] && ss[j + 1] == s0s[j + 1]);
                        assert(bs[j] == b0s[j] && bs[j + 1] == b0s[j + 1]);
                    } else {
                        assert(at_risk@[j] == (trader, mid));
                    }
                }
            }
            i += 1;
        }
        Ok(results)
    }
}

/// Entries of market `m` with a margin ratio below `threshold`, as `(trader, market_id)`.
pub open spec fn at_risk_below(s: Seq<PositionRisk>, m: u32, threshold: u32) -> Seq<(Address, u32)>
    decreases s.len(),
{
    if s.len() == 0 {
        Seq::empty()
    } else {
        let rest = at_risk_below(s.drop_last(), m, threshold);
        let e = s.last();
        if e.market_id == m && e.margin_ratio < threshold { rest.push((e.trader, e.market_id)) } else { rest }
    }
}

/// Entries listed for a market belong to that market.
pub proof fn lemma_at_risk_market(s: Seq<PositionRisk>, m: u32, threshold: u32, i: int)
    requires
        0 <= i < at_risk_below(s, m, threshold).len(),
    ensures
        at_risk_below(s, m, threshold)[i].1 == m,
    decreases s.len(),
{
    if s.len() > 0 {
        let rest = at_risk_below(s.drop_last(), m, threshold);
        if i < rest.len() {
            lemma_at_risk_market(s.drop_last(), m, threshold, i);
        }
    }
}

} // verus!
