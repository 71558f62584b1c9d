//! Auto-deleveraging: ranking the profitable positions of a market and
//! reducing them, highest score first, until enough notional is collected.
use vstd::prelude::*;
use crate::error::EngineError;
use crate::funding::{BASIS_POINTS, lemma_u64_product_fits};
use crate::position::{pnl_spec, PositionManager};
use crate::risk::{equity_spec, position_equity};
use crate::state::{StateManager, StateView, lists_market_positions};
use crate::types::{Address, Position};

verus! {

/// A profitable position considered for auto-deleveraging.
#[derive(Debug, Clone, Copy, PartialEq, Eq, Structural)]
pub struct AdlCandidate {
    pub trader: Address,
    pub market_id: u32,
    pub position_size: u64,
    pub unrealized_pnl: u128,
    pub is_profit: bool,
    /// Unrealized PnL times leverage (in basis points); higher goes first.
    pub profit_score: i128,
}

/// `x` read as a two's complement `i128`.
pub open spec fn as_signed(x: u128) -> int {
    if x <= i128::MAX { x as int } else { x - 0x1_0000_0000_0000_0000_0000_0000_0000_0000int }
}

fn to_signed(x: u128) -> (r: i128)
    ensures
        r == as_signed(x),
{
    if x <= 0x7fff_ffff_ffff_ffff_ffff_ffff_ffff_ffffu128 {
        x as i128
    } else {
        let low = (x - 0x8000_0000_0000_0000_0000_0000_0000_0000u128) as i128;
        low + i128::MIN
    }
}

/// Leverage in basis points: notional over equity, `u128::MAX` without
/// equity; `None` when the scaled notional overflows.
pub open spec fn adl_leverage(value: int, equity: u128) -> Option<u128> {
    if equity == 0 {
        Some(u128::MAX)
    } else if value * BASIS_POINTS > u128::MAX {
        None
    } else {
        Some((value * BASIS_POINTS / equity as int) as u128)
    }
}

/// The candidate made of `trader`'s position `p` in market `m`: none for an
/// empty or losing position, an error when a score cannot be computed.
pub open spec fn adl_candidate(trader: Address, m: u32, p: Position, mark: u64) -> Option<Result<AdlCandidate, EngineError>> {
    let (pnl, profit) = pnl_spec(p, mark);
    if p.size == 0 || !profit {
        None
    } else {
        match equity_spec(p, mark) {
            None => Some(Err(EngineError::Overflow)),
            Some(equity) => match adl_leverage(p.size * mark, equity) {
                None => Some(Err(EngineError::Overflow)),
                Some(lev) => {
                    let score = as_signed(pnl) * as_signed(lev);
                    if score < i128::MIN || score > i128::MAX {
                        Some(Err(EngineError::Overflow))
                    } else {
                        Some(Ok(AdlCandidate {
                            trader,
                            market_id: m,
                            position_size: p.size,
                            unrealized_pnl: pnl,
                            is_profit: true,
                            profit_score: score as i128,
                        }))
                    }
                },
            },
        }
    }
}

/// Candidates of the listed positions, in list order; the first error met.
pub open spec fn adl_candidates(ps: Seq<(Address, Position)>, m: u32, mark: u64) -> Result<Seq<AdlCandidate>, EngineError>
    decreases ps.len(),
{
    if ps.len() == 0 {
        Ok(Seq::empty())
    } else {
        match adl_candidates(ps.drop_last(), m, mark) {
            Err(e) => Err(e),
            Ok(c) => match adl_candidate(ps.last().0, m, ps.last().1, mark) {
                None => Ok(c),
                Some(Err(e)) => Err(e),
                Some(Ok(x)) => Ok(c.push(x)),
            },
        }
    }
}

/// `x` placed into `t` behind every trailing entry whose score is lower,
/// i.e. after all entries scoring at least as much (a stable insertion).
pub open spec fn insert_by_score(t: Seq<AdlCandidate>, x: AdlCandidate) -> Seq<AdlCandidate>
    decreases t.len(),
{
    if t.len() == 0 {
        seq![x]
    } else if t.last().profit_score >= x.profit_score {
        t.push(x)
    } else {
        insert_by_score(t.drop_last(), x).push(t.last())
    }
}

/// Candidates by decreasing score; candidates of equal score keep their order.
pub open spec fn sort_by_score(c: Seq<AdlCandidate>) -> Seq<AdlCandidate>
    decreases c.len(),
{
    if c.len() == 0 { c } else { insert_by_score(sort_by_score(c.drop_last()), c.last()) }
}

/// Whether scores never increase along `s`.
pub open spec fn scores_descending(s: Seq<AdlCandidate>) -> bool {
    forall|i: int, j: int| 0 <= i < j < s.len() ==> #[trigger] s[i].profit_score >= #[trigger] s[j].profit_score
}

/// What an auto-deleveraging pass does: the reductions `(trader, size)` it
/// made, the positions afterwards, and the error it stopped on, if any.
pub struct AdlOutcome {
    pub reductions: Seq<(Address, u64)>,
    pub positions: Map<(Address, u32), Position>,
    pub error: Option<EngineError>,
}

/// Positions after reducing `trader`'s position in market `m` by `size`:
/// removed when `size` covers it, otherwise shrunk with its margin reduced
/// in proportion.
pub open spec fn adl_apply(pos: Map<(Address, u32), Position>, trader: Address, m: u32, size: u64) -> Result<Map<(Address, u32), Position>, EngineError> {
    if !pos.contains_key((trader, m)) {
        Err(EngineError::PositionNotFound)
    } else {
        let p = pos[(trader, m)];
        if size >= p.size {
            Ok(pos.remove((trader, m)))
        } else if p.margin * size > u128::MAX {
            Err(EngineError::Overflow)
        } else {
            let reduction = p.margin * size / p.size as int;
            Ok(pos.insert((trader, m), Position {
                size: (p.size - size) as u64,
                margin: if p.margin >= reduction { (p.margin - reduction) as u128 } else { 0 },
                ..p
            }))
        }
    }
}

/// Size taken from a position of `size` and notional `value` when
/// `remaining` notional is still owed: all of it if its notional does not
/// exceed what is owed, else the proportional part (rounded down); `None`
/// when that proportion overflows.
pub open spec fn adl_take(size: u64, value: int, remaining: int) -> Option<u64> {
    if value > remaining {
        if remaining * size > u128::MAX { None } else { Some((remaining * size / value) as u64) }
    } else {
        Some(size)
    }
}

/// Reduce the candidates in order until `required` notional (at `mark`) is
/// collected, starting from `collected`.
pub open spec fn adl_run(
    pos: Map<(Address, u32), Position>,
    cands: Seq<AdlCandidate>,
    m: u32,
    required: u128,
    mark: u64,
    collected: int,
) -> AdlOutcome
    decreases cands.len(),
{
    if cands.len() == 0 || collected >= required {
        AdlOutcome { reductions: Seq::empty(), positions: pos, error: None }
    } else {
        let c = cands[0];
        match adl_take(c.position_size, c.position_size * mark, required - collected) {
            None => AdlOutcome { reductions: Seq::empty(), positions: pos, error: Some(EngineError::Overflow) },
            Some(d) => match adl_apply(pos, c.trader, m, d) {
                Err(e) => AdlOutcome { reductions: Seq::empty(), positions: pos, error: Some(e) },
                Ok(pos2) => {
                    let rest = adl_run(pos2, cands.skip(1), m, required, mark, collected + d * mark);
                    AdlOutcome { reductions: seq![(c.trader, d)] + rest.reductions, ..rest }
                },
            },
        }
    }
}

/// The result and state of an auto-deleveraging pass over the listed
/// positions `ps` of market `m` in state `s`.
pub open spec fn adl_outcome_holds(
    s: StateView,
    ps: Seq<(Address, Position)>,
    m: u32,
    required: u128,
    mark: u64,
    r: Result<Vec<(Address, u64)>, EngineError>,
    s2: StateView,
) -> bool {
    match adl_candidates(ps, m, mark) {
        Err(e) => r == Err::<Vec<(Address, u64)>, EngineError>(e) && s2 == s,
        Ok(c) => {
            let o = adl_run(s.positions, sort_by_score(c), m, required, mark, 0);
            &&& s2 == (StateView { positions: o.positions, ..s })
            &&& match o.error {
                Some(e) => r == Err::<Vec<(Address, u64)>, EngineError>(e),
                None => r is Ok && r->Ok_0@ == o.reductions,
            }
        },
    }
}

proof fn lemma_candidates_error_prefix(ps: Seq<(Address, Position)>, k: int, m: u32, mark: u64)
    requires
        0 <= k <= ps.len(),
        adl_candidates(ps.take(k), m, mark) is Err,
    ensures
        adl_candidates(ps, m, mark) == adl_candidates(ps.take(k), m, mark),
    decreases ps.len() - k,
{
    if k < ps.len() {
        assert(ps.take(k + 1).drop_last() =~= ps.take(k));
        lemma_candidates_error_prefix(ps, k + 1, m, mark);
    } else {
        assert(ps.take(k) =~= ps);
    }
}

proof fn lemma_insert_at(t: Seq<AdlCandidate>, x: AdlCandidate, j: int)
    requires
        0 <= j <= t.len(),
        j == 0 || t[j - 1].profit_score >= x.profit_score,
        forall|k: int| j <= k < t.len() ==> t[k].profit_score < x.profit_score,
    ensures
        insert_by_score(t, x) == t.insert(j, x),
    decreases t.len(),
{
    if t.len() == 0 {
        assert(t.insert(j, x) =~= seq![x]);
    } else if j == t.len() {
        assert(t.insert(j, x) =~= t.push(x));
    } else {
        lemma_insert_at(t.drop_last(), x, j);
        assert(t.insert(j, x) =~= t.drop_last().insert(j, x).push(t.last()));
    }
}

proof fn lemma_take_bound(rem: int, size: int, mark: int)
    requires
        0 <= rem,
        0 <= size,
        0 <= mark,
        size * mark > rem,
    ensures
        (rem * size / (size * mark)) * mark <= rem,
        rem * size / (size * mark) < size,
{
    assert(size > 0) by (nonlinear_arith)
        requires 0 <= rem, 0 <= size, 0 <= mark, size * mark > rem;
    assert((rem * size / (size * mark)) * mark <= rem) by (nonlinear_arith)
        requires 0 <= rem, 0 < size, 0 <= mark, size * mark > rem;
    assert(rem * size / (size * mark) < size) by (nonlinear_arith)
        requires 0 <= rem, 0 < size, 0 <= mark, size * mark > rem;
}

/// Sort candidates by decreasing score, keeping the order of equal scores.
fn sort_candidates(c: &Vec<AdlCandidate>) -> (r: Vec<AdlCandidate>)
    ensures
        r@ == sort_by_score(c@),
{
    let mut out: Vec<AdlCandidate> = Vec::new();
    let mut i: usize = 0;
    while i < c.len()
        invariant
            i <= c@.len(),
            out@ == sort_by_score(c@.take(i as int)),
        decreases c@.len() - i,
    {
        let x = c[i];
        let mut j: usize = out.len();
        while j > 0 && out[j - 1].profit_score < x.profit_score
            invariant
                j <= out@.len(),
                forall|k: int| j <= k < out@.len() ==> out@[k].profit_score < x.profit_score,
            decreases j,
        {
            j -= 1;
        }
        proof {
            lemma_insert_at(out@, x, j as int);
            assert(c@.take(i + 1).drop_last() =~= c@.take(i as int));
        }
        out.insert(j, x);
        i += 1;
    }
    proof { assert(c@.take(c@.len() as int) =~= c@); }
    out
}

/// Candidates for auto-deleveraging among the profitable positions of
/// `market_id` at `mark_price`.
fn find_adl_candidates(state: &StateManager, market_id: u32, mark_price: u64) -> (r: Result<Vec<AdlCandidate>, EngineError>)
    ensures
        exists|ps: Seq<(Address, Position)>| {
            &&& lists_market_positions(state@, market_id, ps)
            &&& match adl_candidates(ps, market_id, mark_price) {
                Ok(c) => r is Ok && r->Ok_0@ == c,
                Err(e) => r == Err::<Vec<AdlCandidate>, EngineError>(e),
            }
        },
{
    let positions = state.get_all_positions_in_market(market_id);
    let mut candidates: Vec<AdlCandidate> = Vec::new();
    let mut i: usize = 0;
    while i < positions.len()
        invariant
            i <= positions@.len(),
            adl_candidates(positions@.take(i as int), market_id, mark_price) == Ok::<Seq<AdlCandidate>, EngineError>(candidates@),
            lists_market_positions(state@, market_id, positions@),
        decreases positions@.len() - i,
    {
        let (trader, position) = positions[i];
        proof { assert(positions@.take(i + 1).drop_last() =~= positions@.take(i as int)); }
        let (pnl, is_profit) = PositionManager::calculate_pnl_static(&position, mark_price);
        if position.size > 0 && is_profit {
            proof { lemma_u64_product_fits(position.size, mark_price); }
            let position_value: u128 = (position.size as u128) * (mark_price as u128);
            let equity = match position_equity(&position, mark_price) {
                Some(e) => e,
                None => {
                    proof {
                        lemma_candidates_error_prefix(positions@, i + 1, market_id, mark_price);
                        assert(lists_market_positions(state@, market_id, positions@));
                    }
                    return Err(EngineError::Overflow);
                },
            };
            let leverage: u128 = if equity > 0 {
                match position_value.checked_mul(BASIS_POINTS) {
                    Some(v) => v / equity,
                    None => {
                        proof {
                        lemma_candidates_error_prefix(positions@, i + 1, market_id, mark_price);
                        assert(lists_market_positions(state@, market_id, positions@));
                    }
                        return Err(EngineError::Overflow);
                    },
                }
            } else {
                u128::MAX
            };
            let profit_score = match to_signed(pnl).checked_mul(to_signed(leverage)) {
                Some(v) => v,
                None => {
                    proof {
                        lemma_candidates_error_prefix(positions@, i + 1, market_id, mark_price);
                        assert(lists_market_positions(state@, market_id, positions@));
                    }
                    return Err(EngineError::Overflow);
                },
            };
            candidates.push(AdlCandidate {
                trader,
                market_id,
                position_size: position.size,
                unrealized_pnl: pnl,
                is_profit,
                profit_score,
            });
        }
        i += 1;
    }
    proof { assert(positions@.take(positions@.len() as int) =~= positions@); }
    Ok(candidates)
}

/// Reduce `trader`'s position in `market_id` by `size` (see [`adl_apply`]).
fn execute_adl(state: &mut StateManager, trader: Address, market_id: u32, size: u64) -> (r: Result<(), EngineError>)
    ensures
        match adl_apply(old(state)@.positions, trader, market_id, size) {
            Ok(p) => r is Ok && final(state)@ == (StateView { positions: p, ..old(state)@ }),
            Err(e) => r == Err::<(), EngineError>(e) && final(state)@ == old(state)@,
        },
{
    let position = match state.get_position(trader, market_id) {
        Some(p) => p,
        None => { return Err(EngineError::PositionNotFound); },
    };
    if size >= position.size {
        state.delete_position(trader, market_id);
    } else {
        if position.size == 0 {
            return Err(EngineError::ZeroSizedPosition);
        }
        let scaled = match position.margin.checked_mul(size as u128) {
            Some(v) => v,
            None => { return Err(EngineError::Overflow); },
        };
        let margin_reduction: u128 = scaled / (position.size as u128);
        let updated = Position {
            size: position.size - size,
            margin: position.margin.saturating_sub(margin_reduction),
            ..position
        };
        state.set_position(trader, market_id, updated);
    }
    Ok(())
}

/// One auto-deleveraging pass over the profitable positions of a market
/// (see [`adl_outcome_holds`]).
pub(crate) fn run_auto_deleverage(
    state: &mut StateManager,
    market_id: u32,
    required_amount: u128,
    mark_price: u64,
) -> (r: Result<Vec<(Address, u64)>, EngineError>)
    ensures
        exists|ps: Seq<(Address, Position)>| {
            &&& lists_market_positions(old(state)@, market_id, ps)
            &&& adl_outcome_holds(old(state)@, ps, market_id, required_amount, mark_price, r, final(state)@)
        },
{
    let found = find_adl_candidates(state, market_id, mark_price);
    let ghost s0 = state@;
    let ghost ps = choose|ps: Seq<(Address, Position)>| {
        &&& lists_market_positions(s0, market_id, ps)
        &&& match adl_candidates(ps, market_id, mark_price) {
            Ok(c) => found is Ok && found->Ok_0@ == c,
            Err(e) => found == Err::<Vec<AdlCandidate>, EngineError>(e),
        }
    };
    let candidates = match found {
        Ok(c) => c,
        Err(e) => {
            proof { assert(adl_outcome_holds(s0, ps, market_id, required_amount, mark_price, Err::<Vec<(Address, u64)>, EngineError>(e), state@)); }
            return Err(e);
        },
    };
    let sorted = sort_candidates(&candidates);
    let ghost outcome = adl_run(s0.positions, sorted@, market_id, required_amount, mark_price, 0);
    let mut deleveraged: Vec<(Address, u64)> = Vec::new();
    let mut collected: u128 = 0;
    let mut i: usize = 0;
    proof { assert(sorted@.skip(0) =~= sorted@); }
    while i < sorted.len() && collected < required_amount
        invariant
            i <= sorted@.len(),
            collected <= required_amount,
            state@ == (StateView { positions: state@.positions, ..s0 }),
            lists_market_positions(s0, market_id, ps),
            old(state)@ == s0,
            adl_candidates(ps, market_id, mark_price) == Ok::<Seq<AdlCandidate>, EngineError>(candidates@),
            sorted@ == sort_by_score(candidates@),
            outcome == adl_run(s0.positions, sorted@, market_id, required_amount, mark_price, 0),
            ({
                let rest = adl_run(state@.positions, sorted@.skip(i as int), market_id, required_amount, mark_price, collected as int);
                outcome == (AdlOutcome { reductions: deleveraged@ + rest.reductions, ..rest })
            }),
        decreases sorted@.len() - i,
    {
        let candidate = sorted[i];
        let ghost pos_i = state@.positions;
        let ghost del_i = deleveraged@;
        proof {
            assert(sorted@.skip(i as int)[0] == candidate);
            assert(sorted@.skip(i as int).skip(1) =~= sorted@.skip(i + 1));
            lemma_u64_product_fits(candidate.position_size, mark_price);
        }
        let position_value: u128 = (candidate.position_size as u128) * (mark_price as u128);
        let remaining: u128 = required_amount - collected;
        let deleverage_size: u64 = if position_value > remaining {
            let scaled = match remaining.checked_mul(candidate.position_size as u128) {
                Some(v) => v,
                None => {
                    proof {
                        let rest = adl_run(state@.positions, sorted@.skip(i as int), market_id, required_amount, mark_price, collected as int);
                        assert(rest.error == Some(EngineError::Overflow));
                        assert(rest.positions == state@.positions);
                        assert(adl_outcome_holds(s0, ps, market_id, required_amount, mark_price,
                            Err::<Vec<(Address, u64)>, EngineError>(EngineError::Overflow), state@));
                    }
                    return Err(EngineError::Overflow);
                },
            };
            proof { lemma_take_bound(remaining as int, candidate.position_size as int, mark_price as int); }
            (scaled / position_value) as u64
        } else {
            candidate.position_size
        };
        proof {
            if position_value > remaining {
                lemma_take_bound(remaining as int, candidate.position_size as int, mark_price as int);
            }
            lemma_u64_product_fits(deleverage_size, mark_price);
            assert(deleverage_size * mark_price <= remaining) by (nonlinear_arith)
                requires
                    position_value > remaining ==> deleverage_size * mark_price <= remaining,
                    position_value <= remaining ==> deleverage_size == candidate.position_size,
                    position_value == candidate.position_size * mark_price;
        }
        match execute_adl(state, candidate.trader, market_id, deleverage_size) {
            Ok(()) => {},
            Err(e) => {
                proof {
                    let rest = adl_run(pos_i, sorted@.skip(i as int), market_id, required_amount, mark_price, collected as int);
                    assert(rest.error == Some(e));
                    assert(rest.positions == state@.positions);
                    assert(adl_outcome_holds(s0, ps, market_id, required_amount, mark_price,
                        Err::<Vec<(Address, u64)>, EngineError>(e), state@));
                }
                return Err(e);
            },
        }
        let taken: u128 = (deleverage_size as u128) * (mark_price as u128);
        collected = collected + taken;
        deleveraged.push((candidate.trader, deleverage_size));
        proof {
            let rest = adl_run(state@.positions, sorted@.skip(i + 1), market_id, required_amount, mark_price, collected as int);
            assert(del_i + (seq![(candidate.trader, deleverage_size)] + rest.reductions) =~= deleveraged@ + rest.reductions);
        }
        i += 1;
    }
    proof {
        assert(deleveraged@ + Seq::<(Address, u64)>::empty() =~= deleveraged@);
        assert(outcome.error is None && outcome.reductions == deleveraged@);
        assert(adl_outcome_holds(s0, ps, market_id, required_amount, mark_price,
            Ok::<Vec<(Address, u64)>, EngineError>(deleveraged), state@));
    }
    Ok(deleveraged)
}

} // verus!
