//! Properties that relate several operations of the library, or hold of all
//! their inputs.
use vstd::prelude::*;
use crate::tx_executor::{tx_outcome, payload_outcome};
use crate::engine::EngineView;
use crate::auth::{granted, grants, may_act, with_agent, without_agent};
use crate::event_store::{events_of_tx, events_at};
use crate::account::{deposit_outcome, withdraw_outcome, transfer_outcome};
use crate::adl::{AdlCandidate, insert_by_score, sort_by_score, scores_descending};
use crate::error::EngineError;
use crate::events::Event;
use crate::funding::{funding_rate_spec, funding_rate_magnitude, funding_rate_overflows, funding_payment_signed, premium_bps, clamped_premium};
use crate::mempool::{MempoolConfig, add_outcome};
use crate::position::pnl_spec;
use crate::state::StateView;
use crate::tx_index::{TxIndexView, nonce_insert, nonce_remove, nonces_ascending};
use crate::types::{Address, DepositTx, Position, Transaction, TransferTx, TxHash, WithdrawTx};

verus! {

/// A successful transfer moves the amount from sender to recipient: their
/// balances add up to the same total, and no other balance changes.
pub proof fn law_transfer_conserves_balances(
    s0: StateView,
    c0: Seq<Event>,
    from: Address,
    t: TransferTx,
    r: Result<(), EngineError>,
    s1: StateView,
    c1: Seq<Event>,
)
    requires
        transfer_outcome(s0, c0, from, t, r, s1, c1),
        r is Ok,
    ensures
        s1.balance(from, t.asset_id) + s1.balance(t.to, t.asset_id) == s0.balance(from, t.asset_id) + s0.balance(t.to, t.asset_id),
        s1.balance(from, t.asset_id) == s0.balance(from, t.asset_id) - t.amount,
        forall|a: Address, asset: u32| (a != from && a != t.to) || asset != t.asset_id ==> s1.balance(a, asset) == s0.balance(a, asset),
{
}

/// A refused transfer changes nothing but, when the recipient's balance
/// would overflow, the sender's debit.
pub proof fn law_refused_transfer(
    s0: StateView,
    c0: Seq<Event>,
    from: Address,
    t: TransferTx,
    r: Result<(), EngineError>,
    s1: StateView,
    c1: Seq<Event>,
)
    requires
        transfer_outcome(s0, c0, from, t, r, s1, c1),
        r is Err,
        r != Err::<(), EngineError>(EngineError::Overflow),
    ensures
        s1 == s0,
        c1 == c0,
{
}

/// Depositing an amount and then withdrawing it gives the balances back.
pub proof fn law_deposit_then_withdraw(
    s0: StateView,
    c0: Seq<Event>,
    from: Address,
    asset_id: u32,
    amount: u128,
    to: Address,
    r1: Result<(), EngineError>,
    s1: StateView,
    c1: Seq<Event>,
    r2: Result<(), EngineError>,
    s2: StateView,
    c2: Seq<Event>,
)
    requires
        deposit_outcome(s0, c0, from, DepositTx { amount, asset_id }, r1, s1, c1),
        withdraw_outcome(s1, c1, from, WithdrawTx { amount, asset_id, to }, r2, s2, c2),
        r1 is Ok,
    ensures
        r2 is Ok,
        s2.balance(from, asset_id) == s0.balance(from, asset_id),
        s2.balances == s0.balances.insert((from, asset_id), s0.balance(from, asset_id)),
{
}

/// While the elapsed time does not exceed the funding interval, the funding
/// rate stays within the cap, in either direction.
pub proof fn law_funding_rate_capped(max_bps: u32, mark_price: u64, oracle_price: u64, time_elapsed: u64, funding_interval: u64)
    requires
        funding_interval > 0,
        time_elapsed <= funding_interval,
        !funding_rate_overflows(max_bps, mark_price, oracle_price, time_elapsed, funding_interval),
    ensures
        funding_rate_magnitude(max_bps, mark_price, oracle_price, time_elapsed, funding_interval) <= max_bps,
{
    let c = clamped_premium(max_bps, mark_price, oracle_price);
    assert(c <= max_bps);
    assert((c * time_elapsed) / (funding_interval as int) <= c) by (nonlinear_arith)
        requires c >= 0, 0 <= time_elapsed <= funding_interval, funding_interval > 0;
}

/// The funding rate is positive only when the mark trades above the
/// oracle, negative only below it, and zero at equal prices.
pub proof fn law_funding_rate_direction(max_bps: u32, mark_price: u64, oracle_price: u64, time_elapsed: u64, funding_interval: u64)
    requires
        oracle_price > 0,
        funding_rate_magnitude(max_bps, mark_price, oracle_price, time_elapsed, funding_interval) <= i64::MAX,
    ensures
        mark_price == oracle_price ==> funding_rate_spec(max_bps, mark_price, oracle_price, time_elapsed, funding_interval) == 0,
        funding_rate_spec(max_bps, mark_price, oracle_price, time_elapsed, funding_interval) > 0 ==> mark_price > oracle_price,
        funding_rate_spec(max_bps, mark_price, oracle_price, time_elapsed, funding_interval) < 0 ==> mark_price < oracle_price,
{
    if mark_price == oracle_price {
        assert(premium_bps(mark_price, oracle_price) == 0);
        assert(clamped_premium(max_bps, mark_price, oracle_price) == 0);
        if funding_interval > 0 {
            let c = 0int;
            assert((c * time_elapsed) / (funding_interval as int) == 0) by (nonlinear_arith)
                requires c == 0, funding_interval > 0;
        }
    }
}

/// When the funding index rises, a long position pays what it owes and a
/// short one receives it; the amount is the same on both sides.
pub proof fn law_funding_payment_sides(position_size: u64, entry_index: i128, current_index: i128)
    requires
        current_index > entry_index,
    ensures
        funding_payment_signed(position_size, entry_index, current_index) >= 0,
{
    assert(position_size * (current_index - entry_index) >= 0) by (nonlinear_arith)
        requires current_index - entry_index > 0, position_size >= 0;
}

/// A long position is in profit exactly when the mark is at or above its
/// entry price, a short one when it is at or below.
pub proof fn law_pnl_direction(p: Position, mark_price: u64)
    requires
        p.size > 0,
    ensures
        p.is_long ==> (pnl_spec(p, mark_price).1 <==> mark_price >= p.entry_price),
        !p.is_long ==> (pnl_spec(p, mark_price).1 <==> mark_price <= p.entry_price),
{
    assert(mark_price >= p.entry_price <==> p.size * mark_price >= p.size * p.entry_price) by (nonlinear_arith)
        requires p.size > 0;
    assert(mark_price <= p.entry_price <==> p.size * mark_price <= p.size * p.entry_price) by (nonlinear_arith)
        requires p.size > 0;
}

/// Inserting into candidates ordered by decreasing score keeps the order.
proof fn lemma_insert_keeps_order(t: Seq<AdlCandidate>, x: AdlCandidate)
    requires
        scores_descending(t),
    ensures
        scores_descending(insert_by_score(t, x)),
        insert_by_score(t, x).to_multiset() == t.to_multiset().insert(x),
    decreases t.len(),
{
    broadcast use vstd::multiset::group_multiset_axioms;
    let r = insert_by_score(t, x);
    if t.len() == 0 {
        assert(r =~= seq![x]);
        vstd::seq_lib::to_multiset_build(t, x);
        assert(t.push(x) =~= seq![x]);
        assert(seq![x].to_multiset() =~= Seq::<AdlCandidate>::empty().to_multiset().insert(x)) by {
            broadcast use vstd::seq_lib::group_seq_properties;
        }
    } else if t.last().profit_score >= x.profit_score {
        broadcast use vstd::seq_lib::group_seq_properties;
        vstd::seq_lib::to_multiset_build(t, x);
        assert forall|i: int, j: int| 0 <= i < j < r.len() implies #[trigger] r[i].profit_score >= #[trigger] r[j].profit_score by {
            if j == t.len() {
                assert(t[i].profit_score >= t.last().profit_score);
            }
        }
    } else {
        let u = t.drop_last();
        assert(scores_descending(u));
        lemma_insert_keeps_order(u, x);
        let w = insert_by_score(u, x);
        broadcast use vstd::seq_lib::group_seq_properties;
        assert(t =~= u.push(t.last()));
        vstd::seq_lib::to_multiset_build(u, t.last());
        vstd::seq_lib::to_multiset_build(w, t.last());
        assert(r.to_multiset() =~= t.to_multiset().insert(x));
        assert forall|i: int, j: int| 0 <= i < j < r.len() implies #[trigger] r[i].profit_score >= #[trigger] r[j].profit_score by {
            if j == w.len() {
                // w holds the elements of u and x, all scoring at least t.last().
                assert(w.to_multiset().count(w[i]) > 0);
                assert(w.to_multiset() == u.to_multiset().insert(x));
                if w[i] != x {
                    assert(u.to_multiset().count(w[i]) > 0);
                    assert(u.contains(w[i]));
                    let k = choose|k: int| 0 <= k < u.len() && u[k] == w[i];
                    assert(t[k] == u[k]);
                    assert(t[k].profit_score >= t[t.len() - 1].profit_score);
                }
            }
        }
    }
}

/// Auto-deleveraging ranks candidates by decreasing score, and the ranking
/// holds the same candidates.
pub proof fn law_adl_ranking(c: Seq<AdlCandidate>)
    ensures
        scores_descending(sort_by_score(c)),
        sort_by_score(c).to_multiset() == c.to_multiset(),
    decreases c.len(),
{
    broadcast use vstd::multiset::group_multiset_axioms;
    if c.len() > 0 {
        law_adl_ranking(c.drop_last());
        lemma_insert_keeps_order(sort_by_score(c.drop_last()), c.last());
        broadcast use vstd::seq_lib::group_seq_properties;
        assert(c =~= c.drop_last().push(c.last()));
    }
}

/// A transaction added to the mempool can be found under its hash, and its
/// nonce is filed under its sender.
pub proof fn law_mempool_add_then_find(cfg: MempoolConfig, v: TxIndexView, tx: Transaction)
    requires
        add_outcome(cfg, v, tx).0 is Ok,
    ensures
        add_outcome(cfg, v, tx).1.txs.contains_key(tx.tx_hash),
        add_outcome(cfg, v, tx).1.txs[tx.tx_hash] == tx,
        add_outcome(cfg, v, tx).1.has_nonce(tx.from, tx.nonce),
{
    let s = v.nonces(tx.from);
    let r = nonce_insert(s, tx.nonce, tx.tx_hash);
    lemma_nonce_insert_contains(s, tx.nonce, tx.tx_hash);
    let i = choose|i: int| 0 <= i < r.len() && r[i] == (tx.nonce, tx.tx_hash);
    assert(add_outcome(cfg, v, tx).1.nonces(tx.from)[i].0 == tx.nonce);
}

proof fn lemma_nonce_insert_contains(s: Seq<(u64, TxHash)>, n: u64, h: TxHash)
    ensures
        nonce_insert(s, n, h).contains((n, h)),
    decreases s.len(),
{
    let r = nonce_insert(s, n, h);
    if s.len() == 0 {
        assert(r[0] == (n, h));
    } else if s.last().0 < n {
        assert(r[s.len() as int] == (n, h));
    } else if s.last().0 == n {
        assert(r[s.len() - 1] == (n, h));
    } else {
        lemma_nonce_insert_contains(s.drop_last(), n, h);
        let t = nonce_insert(s.drop_last(), n, h);
        let w = choose|w: int| 0 <= w < t.len() && t[w] == (n, h);
        assert(r[w] == (n, h));
    }
}

/// The mempool never grows past its capacity, and a refused transaction
/// leaves it unchanged.
pub proof fn law_mempool_capacity(cfg: MempoolConfig, v: TxIndexView, tx: Transaction)
    requires
        v.txs.dom().finite(),
        v.txs.dom().len() <= cfg.max_size,
    ensures
        add_outcome(cfg, v, tx).1.txs.dom().len() <= cfg.max_size,
        add_outcome(cfg, v, tx).0 is Err ==> add_outcome(cfg, v, tx).1 == v,
{
    if add_outcome(cfg, v, tx).0 is Ok {
        assert(add_outcome(cfg, v, tx).1.txs.dom() =~= v.txs.dom().insert(tx.tx_hash));
    }
}

/// A configuration validates exactly when both limits are positive and the
/// per-sender limit is within the pool size.
pub proof fn law_config_validity(c: MempoolConfig, r: Result<(), &'static str>)
    requires
        c.max_size == 0 ==> r == Err::<(), &'static str>("max_size must be greater than 0"),
        c.max_size > 0 && c.max_txs_per_sender == 0 ==> r == Err::<(), &'static str>("max_txs_per_sender must be greater than 0"),
        c.max_size > 0 && c.max_txs_per_sender > 0 && c.max_txs_per_sender > c.max_size
            ==> r == Err::<(), &'static str>("max_txs_per_sender cannot exceed max_size"),
        c.max_size > 0 && c.max_txs_per_sender > 0 && c.max_txs_per_sender <= c.max_size ==> r == Ok::<(), &'static str>(()),
    ensures
        r is Ok <==> 0 < c.max_txs_per_sender <= c.max_size,
{
}

/// A transaction scheduled in a round never depends on another
/// transaction of the same round, when every transaction comes in a later
/// round than its dependencies (as `DependencyGraph::independent_groups`
/// schedules them).
pub proof fn law_rounds_independent(deps: Seq<Set<usize>>, rounds: Seq<Vec<usize>>, k: int, x: usize, y: usize)
    requires
        forall|k1: int, k2: int, z: usize| 0 <= k1 < rounds.len() && 0 <= k2 < rounds.len() && #[trigger] rounds[k1]@.contains(z)
            && #[trigger] rounds[k2]@.contains(z) ==> k1 == k2,
        forall|kk: int, z: usize, d: usize| 0 <= kk < rounds.len() && #[trigger] rounds[kk]@.contains(z) && #[trigger] deps[z as int].contains(d)
            ==> exists|k2: int| 0 <= k2 < kk && #[trigger] rounds[k2]@.contains(d),
        0 <= k < rounds.len(),
        rounds[k]@.contains(x),
        rounds[k]@.contains(y),
    ensures
        !deps[x as int].contains(y),
{
    if deps[x as int].contains(y) {
        let k2 = choose|k2: int| 0 <= k2 < k && #[trigger] rounds[k2]@.contains(y);
        assert(rounds[k2]@.contains(y) && rounds[k]@.contains(y));
    }
}

/// The liquidator's reward and the insurance fund's contribution together
/// never exceed the liquidation fee when the split adds up to at most 100%.
pub proof fn law_fee_split_within_fee(fee: u128, liquidator_bps: u32, insurance_bps: u32)
    requires
        liquidator_bps + insurance_bps <= 10000,
    ensures
        (fee * liquidator_bps) / 10000 + (fee * insurance_bps) / 10000 <= fee,
{
    assert((fee * liquidator_bps) / 10000 + (fee * insurance_bps) / 10000 <= fee) by (nonlinear_arith)
        requires liquidator_bps + insurance_bps <= 10000, fee >= 0, liquidator_bps >= 0, insurance_bps >= 0;
}

/// Filing a nonce that a sender did not have and then removing it gives
/// the sender's entries back.
pub proof fn law_nonce_insert_then_remove(s: Seq<(u64, TxHash)>, n: u64, h: TxHash)
    requires
        nonces_ascending(s),
        forall|i: int| 0 <= i < s.len() ==> s[i].0 != n,
    ensures
        nonce_remove(nonce_insert(s, n, h), n) == s,
    decreases s.len(),
{
    if s.len() > 0 && s.last().0 > n {
        let u = s.drop_last();
        assert(nonces_ascending(u));
        law_nonce_insert_then_remove(u, n, h);
        assert(nonce_insert(s, n, h) == nonce_insert(u, n, h).push(s.last()));
        assert(nonce_insert(s, n, h).last() == s.last());
        assert(nonce_insert(s, n, h).drop_last() =~= nonce_insert(u, n, h));
        assert(u.push(s.last()) =~= s);
    } else if s.len() > 0 {
        assert(nonce_insert(s, n, h) == s.push((n, h)));
        assert(s.push((n, h)).drop_last() =~= s);
    }
}


/// After `account` grants `agent` the permissions `p`, the agent holds exactly
/// `p` there, may act for every permission within `p` and for no other, and
/// no other grant changes.
pub proof fn law_agent_grant(m: Map<Address, Map<Address, u64>>, account: Address, agent: Address, p: u64, permission: u64)
    ensures
        granted(with_agent(m, account, agent, p), account, agent) == Some(p),
        may_act(with_agent(m, account, agent, p), account, agent, permission) == (agent == account || grants(p, permission)),
        forall|a: Address, g: Address| (a != account || g != agent) ==> granted(with_agent(m, account, agent, p), a, g) == granted(m, a, g),
{
}

/// Once `account` withdraws `agent`, the agent holds nothing there (and may
/// act only as itself), and no other grant changes.
pub proof fn law_agent_removal(m: Map<Address, Map<Address, u64>>, account: Address, agent: Address)
    requires
        forall|a: Address| #[trigger] m.contains_key(a) ==> m[a].dom().finite(),
    ensures
        granted(without_agent(m, account, agent), account, agent) is None,
        forall|a: Address, g: Address| (a != account || g != agent) ==> granted(without_agent(m, account, agent), a, g) == granted(m, a, g),
{
    let w = without_agent(m, account, agent);
    assert forall|a: Address, g: Address| (a != account || g != agent) implies granted(w, a, g) == granted(m, a, g) by {
        if m.contains_key(account) && a == account {
            let rest = m[account].remove(agent);
            if rest.dom().len() == 0 {
                if rest.contains_key(g) {
                    assert(rest.dom().contains(g));
                    vstd::set_lib::lemma_set_empty_equivalency_len(rest.dom());
                }
            }
        }
    }
}

/// Appending events keeps what a transaction's query gave and adds the new
/// events of that transaction after it; the same holds block by block.
pub proof fn law_event_store_append_then_query(old: Seq<crate::events::DomainEvent>, new: Seq<crate::events::DomainEvent>, tx: TxHash, h: u64)
    ensures
        events_of_tx(old + new, tx) == events_of_tx(old, tx) + events_of_tx(new, tx),
        events_at(old + new, h) == events_at(old, h) + events_at(new, h),
        (old + new).len() == old.len() + new.len(),
{
    Seq::filter_distributes_over_add(old, new, |e: crate::events::DomainEvent| e.tx_hash == tx);
    Seq::filter_distributes_over_add(old, new, |e: crate::events::DomainEvent| e.block_height == h);
}


/// A payload never touches account nonces.
proof fn lemma_payload_keeps_nonces(e0: EngineView, from: Address, p: crate::types::TxPayload, r: Result<(), crate::exec::TxExecutionError>, e1: EngineView)
    requires
        payload_outcome(e0, from, p, r, e1),
    ensures
        e1.state.nonces == e0.state.nonces,
{
    match p {
        crate::types::TxPayload::Deposit(_) => {},
        crate::types::TxPayload::Withdraw(_) => {},
        crate::types::TxPayload::Transfer(_) => {},
        crate::types::TxPayload::BridgeDeposit(_) => {},
        crate::types::TxPayload::BridgeWithdraw(_) => {},
        crate::types::TxPayload::PlaceOrder(_) => {},
        crate::types::TxPayload::CancelOrder(_) => {},
        crate::types::TxPayload::ClosePosition(_) => {},
        crate::types::TxPayload::SetAgent(_) => {},
        crate::types::TxPayload::RemoveAgent(_) => {},
    }
}

/// Replay protection: once a transaction went through, executing it again
/// is refused as a stale nonce, and changes nothing.
pub proof fn law_no_replay(
    e0: EngineView, a0: Map<Address, Map<Address, u64>>, m0: TxIndexView,
    tx: Transaction, signer: Address, r: Result<(), crate::exec::TxExecutionError>,
    e1: EngineView, a1: Map<Address, Map<Address, u64>>, m1: TxIndexView,
    r2: Result<(), crate::exec::TxExecutionError>,
    e2: EngineView, a2: Map<Address, Map<Address, u64>>, m2: TxIndexView,
)
    requires
        tx_outcome(e0, a0, m0, tx, signer, r, e1, a1, m1),
        r is Ok,
        tx_outcome(e1, a1, m1, tx, signer, r2, e2, a2, m2),
    ensures
        r2 == Err::<(), crate::exec::TxExecutionError>(crate::exec::TxExecutionError::InvalidNonce { expected: (tx.nonce + 1) as u64, got: tx.nonce }),
        e2 == e1 && a2 == a1 && m2 == m1,
{
    let (mid, pr) = choose|mid: EngineView, pr: Result<(), crate::exec::TxExecutionError>| {
        &&& #[trigger] payload_outcome(e0, tx.from, tx.payload, pr, mid)
        &&& a1 == crate::tx_executor::grants_after(a0, tx.from, tx.payload, pr)
        &&& if pr is Err {
            r == pr && e1 == mid && m1 == m0
        } else if mid.state.nonce(tx.from) == u64::MAX {
            r == Err::<(), crate::exec::TxExecutionError>(crate::exec::TxExecutionError::Engine(EngineError::Overflow)) && e1 == mid && m1 == m0
        } else {
            &&& r is Ok
            &&& e1 == (EngineView { state: StateView {
                    nonces: mid.state.nonces.insert(tx.from, (mid.state.nonce(tx.from) + 1) as u64), ..mid.state }, ..mid })
            &&& crate::tx_executor::pool_without(m0, tx.tx_hash, m1)
        }
    };
    lemma_payload_keeps_nonces(e0, tx.from, tx.payload, pr, mid);
}


/// Price-time priority: an order's fills come best price first and, at one
/// price, in the order the resting orders joined that price's queue.
pub proof fn law_price_time_priority(
    mode: crate::risk::MarginMode, s0: StateView, c0: Seq<Event>, b0: crate::orderbook::BookView, trader: Address,
    req: crate::types::PlaceOrderTx, id: u64, s1: StateView, c1: Seq<Event>, b1: crate::orderbook::BookView,
)
    requires
        crate::order_service::place_order_outcome(mode, s0, c0, b0, trader, req, Ok(id), s1, c1, b1),
    ensures
        exists|fills: Seq<crate::orderbook::Fill>| #![trigger crate::orderbook::total_filled(fills)]
            crate::orderbook::total_filled(fills) == req.size - s1.order(id).unwrap().remaining_size
            && (forall|i: int, j: int| 0 <= i < j < fills.len()
                ==> crate::orderbook::better_or_equal(!req.is_buy, #[trigger] fills[i].price, #[trigger] fills[j].price))
            && (exists|pos: Seq<int>| #[trigger] crate::orderbook::queue_positions(b0, crate::order_service::new_order(s0, trader, req), fills, pos)),
{
}

/// No crossed book: an order that rests after matching faces, on the other
/// side within its limit price, only orders it cannot trade with (its own,
/// or ones without size left).
pub proof fn law_resting_order_faces_no_match(
    mode: crate::risk::MarginMode, s0: StateView, c0: Seq<Event>, b0: crate::orderbook::BookView, trader: Address,
    req: crate::types::PlaceOrderTx, id: u64, s1: StateView, c1: Seq<Event>, b1: crate::orderbook::BookView,
)
    requires
        crate::order_service::place_order_outcome(mode, s0, c0, b0, trader, req, Ok(id), s1, c1, b1),
        s1.order(id).unwrap().remaining_size > 0,
    ensures
        forall|p: u64| crate::orderbook::within_limit(crate::order_service::new_order(s0, trader, req), p)
            ==> #[trigger] crate::orderbook::level_exhausted(b1, s1, crate::order_service::new_order(s0, trader, req), p),
{
}


/// Adding an order that the book does not hold and then removing it gives
/// the book back: the same orders, market index and price levels (a price
/// level that is there holds at least one order, as the book keeps them).
pub proof fn law_add_then_remove_order(
    v0: crate::orderbook::BookView, v1: crate::orderbook::BookView, v2: crate::orderbook::BookView, id: u64, order: crate::types::Order,
)
    requires
        !v0.orders.contains_key(id),
        !v0.by_market.contains((order.market_id, id)),
        v0.levels.contains_key((order.market_id, order.is_buy, order.price))
            ==> !v0.levels[(order.market_id, order.is_buy, order.price)].orders@.contains(id)
                && v0.levels[(order.market_id, order.is_buy, order.price)].orders@.len() > 0,
        crate::orderbook::book_after_add(v0, v1, id, order),
        crate::orderbook::book_after_remove(v1, v2, id, order),
    ensures
        v2.orders == v0.orders,
        v2.by_market == v0.by_market,
        v2.levels.dom() == v0.levels.dom(),
        forall|k: crate::orderbook::LevelKey| #[trigger] v0.levels.contains_key(k)
            ==> v2.levels[k].orders@ == v0.levels[k].orders@ && v2.levels[k].total_size == v0.levels[k].total_size,
{
    let k = (order.market_id, order.is_buy, order.price);
    assert(v2.orders =~= v0.orders);
    // The market index: the pair sits only at the end of `v1.by_market`.
    assert(v1.by_market == v0.by_market.push((order.market_id, id)));
    assert(v1.by_market[v0.by_market.len() as int] == (order.market_id, id));
    let i = choose|i: int| 0 <= i < v1.by_market.len() && v1.by_market[i] == (order.market_id, id)
        && v2.by_market == v1.by_market.remove(i);
    if i < v0.by_market.len() {
        assert(v0.by_market[i] == (order.market_id, id));
        assert(v0.by_market.contains((order.market_id, id)));
    }
    assert(v2.by_market =~= v0.by_market);
    // The level: `id` was last in its queue, and only there.
    reveal(crate::orderbook::levels_after_removal);
    let q0: Seq<u64> = if v0.levels.contains_key(k) { v0.levels[k].orders@ } else { Seq::empty() };
    let q1 = v1.levels[k].orders@;
    assert(q1 =~= q0.push(id));
    assert(q1[q0.len() as int] == id);
    let fi = crate::orderbook::first_index(q1, id);
    assert(forall|j: int| 0 <= j < q0.len() ==> q1[j] == q0[j]);
    assert(forall|j: int| 0 <= j < q0.len() ==> q0[j] != id);
    assert(0 <= fi < q1.len() && q1[fi] == id) by {
        assert(0 <= q0.len() < q1.len() && q1[q0.len() as int] == id
            && forall|j: int| 0 <= j < q0.len() as int ==> q1[j] != id);
    }
    assert(fi == q0.len());
    assert(q1.remove(fi) =~= q0);
    assert(v1.levels[k].orders@.contains(id));
    assert(v2.levels.contains_key(k) == v0.levels.contains_key(k));
    assert(v2.levels.dom() =~= v0.levels.dom());
}


/// Price-time priority without jumps: the fills of a placed order are those
/// of matching it against the book, best price first, in queue order, with
/// every resting order ahead of a fill passed over (gone or the trader's own)
/// or filled already; what the order kept is its size less those fills.
pub proof fn law_no_order_jumped(
    mode: crate::risk::MarginMode, s0: StateView, c0: Seq<Event>, b0: crate::orderbook::BookView, trader: Address,
    req: crate::types::PlaceOrderTx, id: u64, s1: StateView, c1: Seq<Event>, b1: crate::orderbook::BookView,
)
    requires
        crate::order_service::place_order_outcome(mode, s0, c0, b0, trader, req, Ok(id), s1, c1, b1),
    ensures
        exists|fills: Seq<crate::orderbook::Fill>, sm: StateView, bm: crate::orderbook::BookView|
            #[trigger] crate::orderbook::matched(b0, crate::order_service::with_id_taken(s0), crate::order_service::new_order(s0, trader, req), fills, sm, bm)
            && (exists|pos: Seq<int>| #[trigger] crate::orderbook::queue_positions(b0, crate::order_service::new_order(s0, trader, req), fills, pos)
                && crate::orderbook::none_skipped(b0, crate::order_service::with_id_taken(s0), crate::order_service::new_order(s0, trader, req), fills, pos))
            && s1.order(id).unwrap().remaining_size == req.size - crate::orderbook::total_filled(fills),
{
    let o0 = crate::order_service::new_order(s0, trader, req);
    let (fills, sm, bm) = choose|fills: Seq<crate::orderbook::Fill>, sm: StateView, bm: crate::orderbook::BookView|
        #[trigger] crate::orderbook::matched(b0, crate::order_service::with_id_taken(s0), o0, fills, sm, bm)
        && crate::order_service::placed_after_match(s0, c0, b0, trader, req, fills, sm, bm, Ok(id), s1, c1, b1);
    assert(s1.order(id).unwrap().remaining_size == req.size - crate::orderbook::total_filled(fills));
}


/// Whether `c` is a chain of dependencies: each transaction of it depends on
/// the one before it.
pub open spec fn dep_chain(deps: Seq<Set<usize>>, c: Seq<usize>) -> bool {
    &&& c.len() > 0
    &&& forall|i: int, j: int| 0 <= i && j == i + 1 && j < c.len() ==> #[trigger] deps[c[j] as int].contains(#[trigger] c[i])
}

/// The rounds properties that `DependencyGraph::independent_groups` states:
/// each transaction in one round, each dependency in an earlier round, and
/// (past the first round) a dependency in the round just before.
pub open spec fn rounds_by_dependencies(deps: Seq<Set<usize>>, rounds: Seq<Vec<usize>>) -> bool {
    &&& forall|k1: int, k2: int, z: usize| 0 <= k1 < rounds.len() && 0 <= k2 < rounds.len() && #[trigger] rounds[k1]@.contains(z)
        && #[trigger] rounds[k2]@.contains(z) ==> k1 == k2
    &&& forall|kk: int, z: usize, d: usize| 0 <= kk < rounds.len() && #[trigger] rounds[kk]@.contains(z) && #[trigger] deps[z as int].contains(d)
        ==> exists|k2: int| 0 <= k2 < kk && #[trigger] rounds[k2]@.contains(d)
    &&& forall|kk: int, z: usize| 0 < kk < rounds.len() && #[trigger] rounds[kk]@.contains(z)
        ==> exists|d: usize| deps[z as int].contains(d) && #[trigger] rounds[kk - 1]@.contains(d)
}

proof fn lemma_chain_into_round(deps: Seq<Set<usize>>, rounds: Seq<Vec<usize>>, k: int, x: usize)
    requires
        rounds_by_dependencies(deps, rounds),
        0 <= k < rounds.len(),
        rounds[k]@.contains(x),
    ensures
        exists|c: Seq<usize>| #[trigger] dep_chain(deps, c) && c.last() == x && c.len() == k + 1,
    decreases k,
{
    if k == 0 {
        let c = seq![x];
        assert(dep_chain(deps, c));
    } else {
        let d = choose|d: usize| deps[x as int].contains(d) && #[trigger] rounds[k - 1]@.contains(d);
        lemma_chain_into_round(deps, rounds, k - 1, d);
        let c0 = choose|c: Seq<usize>| #[trigger] dep_chain(deps, c) && c.last() == d && c.len() == k;
        let c = c0.push(x);
        assert forall|i: int, j: int| 0 <= i && j == i + 1 && j < c.len() implies #[trigger] deps[c[j] as int].contains(#[trigger] c[i]) by {
            if j < c0.len() {
                assert(c[j] == c0[j] && c[i] == c0[i]);
            } else {
                assert(c[i] == d);
            }
        }
        assert(dep_chain(deps, c));
    }
}

proof fn lemma_chain_bounded(deps: Seq<Set<usize>>, rounds: Seq<Vec<usize>>, c: Seq<usize>, k: int)
    requires
        rounds_by_dependencies(deps, rounds),
        dep_chain(deps, c),
        0 <= k < rounds.len(),
        rounds[k]@.contains(c.last()),
    ensures
        c.len() <= k + 1,
    decreases c.len(),
{
    if c.len() > 1 {
        let n = c.len() - 1;
        assert(deps[c[n] as int].contains(c[n - 1]));
        let k2 = choose|k2: int| 0 <= k2 < k && #[trigger] rounds[k2]@.contains(c[n - 1]);
        let c1 = c.drop_last();
        assert forall|i: int, j: int| 0 <= i && j == i + 1 && j < c1.len() implies #[trigger] deps[c1[j] as int].contains(#[trigger] c1[i]) by {
            assert(c1[j] == c[j] && c1[i] == c[i]);
        }
        lemma_chain_bounded(deps, rounds, c1, k2);
    }
}

/// Rounds follow dependency depth: a transaction scheduled in round `k` ends
/// a chain of `k + 1` transactions each depending on the one before, and no
/// longer chain ends at it; so its round is its depth (the longest such
/// chain, less one), and no schedule that puts dependencies in earlier
/// rounds can use fewer rounds.
pub proof fn law_rounds_follow_depth(deps: Seq<Set<usize>>, rounds: Seq<Vec<usize>>, k: int, x: usize)
    requires
        rounds_by_dependencies(deps, rounds),
        0 <= k < rounds.len(),
        rounds[k]@.contains(x),
    ensures
        exists|c: Seq<usize>| #[trigger] dep_chain(deps, c) && c.last() == x && c.len() == k + 1,
        forall|c: Seq<usize>| #[trigger] dep_chain(deps, c) && c.last() == x ==> c.len() <= k + 1,
{
    lemma_chain_into_round(deps, rounds, k, x);
    assert forall|c: Seq<usize>| #[trigger] dep_chain(deps, c) && c.last() == x implies c.len() <= k + 1 by {
        lemma_chain_bounded(deps, rounds, c, k);
    }
}


/// A funding update advances the cumulative funding index by exactly the new
/// rate (it never restarts it), and records the update time and prices.
pub proof fn law_funding_index_accumulates(max_bps: u32, current: crate::types::FundingRate, funding_interval: u64,
    mark_price: u64, oracle_price: u64, timestamp: u64)
    ensures
        crate::funding::funding_after_update(max_bps, current, funding_interval, mark_price, oracle_price, timestamp) matches Ok(f)
            ==> f.index == current.index + f.rate && f.last_update == timestamp
                && f.mark_price == mark_price && f.oracle_price == oracle_price,
{
}

/// Two funding updates in a row add both rates to the index.
pub proof fn law_funding_updates_add_up(max_bps: u32, f0: crate::types::FundingRate, funding_interval: u64,
    m1: u64, o1: u64, t1: u64, m2: u64, o2: u64, t2: u64)
    ensures
        crate::funding::funding_after_update(max_bps, f0, funding_interval, m1, o1, t1) matches Ok(f1)
            ==> (crate::funding::funding_after_update(max_bps, f1, funding_interval, m2, o2, t2) matches Ok(f2)
                ==> f2.index == f0.index + f1.rate + f2.rate),
{
}

/// A weighted mean of two values at most `m` is at most `m`.
proof fn lemma_weighted_mean_bound(a: int, x: int, b: int, y: int, m: int)
    requires
        0 <= a, 0 <= b, a + b > 0, 0 <= x <= m, 0 <= y <= m,
    ensures
        0 <= (a * x + b * y) / (a + b) <= m,
{
    assert(a * x + b * y <= (a + b) * m) by (nonlinear_arith)
        requires 0 <= a, 0 <= b, 0 <= x <= m, 0 <= y <= m;
    assert(0 <= a * x + b * y) by (nonlinear_arith)
        requires 0 <= a, 0 <= b, 0 <= x, 0 <= y;
    assert((a * x + b * y) / (a + b) <= m) by (nonlinear_arith)
        requires a * x + b * y <= (a + b) * m, a + b > 0, 0 <= a * x + b * y;
    assert(0 <= (a * x + b * y) / (a + b)) by (nonlinear_arith)
        requires a + b > 0, 0 <= a * x + b * y;
}

/// Adding to a position on its own side keeps its side, adds the sizes and
/// sets the entry price to the size-weighted average of the old entry and
/// the fill price (rounded down); its margin only grows.
pub proof fn law_increase_averages_entry(pos: Position, size: u64, price: u64, initial_margin_bps: u32)
    requires
        pos.size + size <= u64::MAX,
        pos.size + size > 0,
    ensures
        crate::position::position_after_fill(Some(pos), size, price, pos.is_long, initial_margin_bps)
            matches crate::position::PositionChange::Store(p) ==> {
            &&& p.is_long == pos.is_long
            &&& p.size == pos.size + size
            &&& p.entry_price == (pos.size * pos.entry_price + size * price) / (pos.size + size)
            &&& p.margin >= pos.margin
        },
{
    lemma_weighted_mean_bound(pos.size as int, pos.entry_price as int, size as int, price as int, u64::MAX as int);
}

/// A liquidation never makes value from nothing: the fee is the fee rate of
/// the liquidated notional; the liquidator's reward and the fund's share come
/// out of the fee; a trader whose equity covers the fee gets back exactly
/// the equity less the fee (and the fund pays nothing), one whose equity
/// does not gets nothing and the fund pays at most the shortfall; when the
/// equity covers the fee, what the trader, the liquidator and the fund get
/// together never exceeds the equity.
pub proof fn law_liquidation_pays_from_equity(s: StateView, v: crate::liquidation::LiquidationView, pos: Position,
    market: crate::types::Market, trader: Address, market_id: u32, lp: u64, liquidator: Address)
    requires
        v.fee_split.0 + v.fee_split.1 <= 10000,
    ensures
        crate::liquidation::liquidation_plan(s, v, pos, market, trader, market_id, lp, liquidator) matches Ok(pl) ==> {
            let q = market.quote_asset_id;
            &&& pl.fee == (pl.size * lp * market.liquidation_fee_bps) / 10000
            &&& pl.reward + pl.contribution <= pl.fee
            &&& pl.reward == (pl.fee * v.fee_split.0) / 10000
            &&& pl.contribution == (pl.fee * v.fee_split.1) / 10000
            &&& pl.fund_after.balance == v.fund(market_id).balance - pl.usage + pl.contribution
            &&& !v.partial_liquidations ==> pl.size == pos.size
            &&& pl.size >= pos.size ==> pl.position_after is None
            &&& pl.size < pos.size ==> pl.position_after is Some
                && pl.position_after.unwrap().size == pos.size - pl.size
                && pl.position_after.unwrap().is_long == pos.is_long
                && pl.position_after.unwrap().entry_price == pos.entry_price
            &&& crate::risk::equity_spec(pos, lp) is Some
            &&& crate::risk::equity_spec(pos, lp).unwrap() >= pl.fee
                ==> pl.remaining == crate::risk::equity_spec(pos, lp).unwrap() - pl.fee && pl.usage == 0
            &&& crate::risk::equity_spec(pos, lp).unwrap() < pl.fee
                ==> pl.remaining == 0 && pl.usage <= pl.fee - crate::risk::equity_spec(pos, lp).unwrap()
            &&& crate::risk::equity_spec(pos, lp).unwrap() >= pl.fee
                ==> pl.remaining + pl.reward + pl.contribution <= crate::risk::equity_spec(pos, lp).unwrap()
            &&& pl.liquidator_balance == s.balance(liquidator, q) + pl.reward
            &&& trader != liquidator ==> pl.trader_balance == s.balance(trader, q) + pl.remaining
        },
{
    if crate::liquidation::liquidation_plan(s, v, pos, market, trader, market_id, lp, liquidator) is Ok {
        let pl = crate::liquidation::liquidation_plan(s, v, pos, market, trader, market_id, lp, liquidator)->Ok_0;
        law_fee_split_within_fee(pl.fee, v.fee_split.0, v.fee_split.1);
    }
}

/// An auto-deleveraging candidate is a profitable position scored by its
/// unrealized profit times its leverage: notional (size times mark) over
/// equity, in basis points.
pub proof fn law_adl_score_is_pnl_times_leverage(trader: Address, m: u32, p: Position, mark: u64)
    ensures
        crate::adl::adl_candidate(trader, m, p, mark) matches Some(Ok(c)) ==> {
            let eq = crate::risk::equity_spec(p, mark).unwrap();
            &&& c.trader == trader && c.market_id == m && c.position_size == p.size && c.is_profit
            &&& p.is_long ==> p.size * mark >= p.size * p.entry_price && c.unrealized_pnl == p.size * mark - p.size * p.entry_price
            &&& !p.is_long ==> p.size * p.entry_price >= p.size * mark && c.unrealized_pnl == p.size * p.entry_price - p.size * mark
            &&& eq == p.margin + c.unrealized_pnl
            &&& (eq > 0 && c.unrealized_pnl <= i128::MAX && (p.size * mark * 10000) / (eq as int) <= i128::MAX)
                ==> c.profit_score == c.unrealized_pnl * ((p.size * mark * 10000) / (eq as int))
        },
{
    if crate::adl::adl_candidate(trader, m, p, mark) is Some && crate::adl::adl_candidate(trader, m, p, mark)->Some_0 is Ok {
        let c = crate::adl::adl_candidate(trader, m, p, mark)->Some_0->Ok_0;
        let eq = crate::risk::equity_spec(p, mark).unwrap();
        crate::funding::lemma_u64_product_fits(p.size, mark);
        crate::funding::lemma_u64_product_fits(p.size, p.entry_price);
        assert(c.unrealized_pnl == crate::position::pnl_spec(p, mark).0);
        assert(eq == p.margin + c.unrealized_pnl);
        if eq > 0 && c.unrealized_pnl <= i128::MAX && (p.size * mark * 10000) / (eq as int) <= i128::MAX {
            assert(crate::adl::adl_leverage(p.size * mark, eq) == Some(((p.size * mark * 10000) / (eq as int)) as u128));
            assert(c.profit_score == c.unrealized_pnl * ((p.size * mark * 10000) / (eq as int)));
        }
        assert(p.is_long ==> p.size * mark >= p.size * p.entry_price && c.unrealized_pnl == p.size * mark - p.size * p.entry_price);
        assert(!p.is_long ==> p.size * p.entry_price >= p.size * mark && c.unrealized_pnl == p.size * p.entry_price - p.size * mark);
    }
}

/// A reduce-only order is admitted only against a position on the other
/// side at least as large as the order, so it can only shrink it.
pub proof fn law_reduce_only_never_grows(s: StateView, trader: Address, order: crate::types::PlaceOrderTx)
    ensures
        crate::risk::order_check_spec(s, trader, order) is Ok && order.reduce_only ==>
            s.position(trader, order.market_id) is Some
            && s.position(trader, order.market_id).unwrap().is_long != order.is_buy
            && order.size <= s.position(trader, order.market_id).unwrap().size,
        crate::order_service::placement_check(s, trader, order) is Ok && order.reduce_only ==>
            s.position(trader, order.market_id) is Some
            && s.position(trader, order.market_id).unwrap().is_long != order.is_buy
            && order.size <= s.position(trader, order.market_id).unwrap().size,
{
}


/// A position as a signed size: positive long, negative short, zero none.
pub open spec fn signed_size(p: Option<Position>) -> int {
    match p {
        None => 0,
        Some(x) => if x.is_long { x.size as int } else { -(x.size as int) },
    }
}

/// A fill nets into the position: the signed size afterwards is the signed
/// size before plus the fill (bought positive, sold negative). A position
/// that is only reduced keeps its entry price; one that is opened or flipped
/// takes the fill's price.
pub proof fn law_fill_nets_position(current: Option<Position>, size: u64, price: u64, is_buy: bool, initial_margin_bps: u32)
    requires
        current is Some && current.unwrap().is_long == is_buy ==> current.unwrap().size + size <= u64::MAX,
    ensures
        ({
            let delta: int = if is_buy { size as int } else { -(size as int) };
            match crate::position::position_after_fill(current, size, price, is_buy, initial_margin_bps) {
                crate::position::PositionChange::Store(p) => {
                    &&& signed_size(Some(p)) == signed_size(current) + delta
                    &&& (current is Some && current.unwrap().is_long != is_buy && size < current.unwrap().size)
                        ==> p.entry_price == current.unwrap().entry_price && p.is_long == current.unwrap().is_long
                    &&& (current is None || (current.unwrap().is_long != is_buy && size > current.unwrap().size))
                        ==> p.entry_price == price && p.is_long == is_buy
                },
                crate::position::PositionChange::Close => signed_size(current) + delta == 0,
                crate::position::PositionChange::Fail(_) => true,
            }
        }),
{
}

} // verus!
