//! Executing transactions: the sender's signature, the nonce, the payload on
//! the engine (agents also in the authorization service), the nonce advance
//! and the mempool clean-up, one transaction at a time or for a block.
use vstd::prelude::*;
use crate::account::{deposit_outcome, withdraw_outcome, transfer_outcome, bridge_deposit_outcome, bridge_withdraw_outcome,
    set_agent_outcome, remove_agent_outcome};
use crate::auth::{AuthError, AuthService, with_agent, without_agent};
use crate::engine::{Engine, EngineView};
use crate::error::EngineError;
use crate::exec::{TxExecutionError, TxExecutionStats, verify_nonce};
use crate::mempool::Mempool;
use crate::order_service::{place_order_outcome, cancel_order_outcome, close_position_outcome};
use crate::state::StateView;
use crate::tx_index::{TxIndexView, nonce_remove};
use crate::types::{Address, TimeInForce, Transaction, TxPayload};

verus! {

/// The engine error behind an execution outcome (`Ok` for `Ok`).
pub open spec fn engine_result(r: Result<(), TxExecutionError>) -> Result<(), EngineError> {
    match r {
        Ok(u) => Ok(u),
        Err(TxExecutionError::Engine(e)) => Err(e),
        Err(_) => Err(EngineError::Unauthorized),
    }
}

/// Whether an order request would push its price level's total beyond
/// `u64::MAX` when it comes to rest.
pub open spec fn level_would_overflow(e: EngineView, o: crate::types::PlaceOrderTx) -> bool {
    &&& (o.time_in_force == TimeInForce::GTC || o.time_in_force == TimeInForce::PostOnly)
    &&& e.book.levels.contains_key((o.market_id, o.is_buy, o.price))
    &&& e.book.levels[(o.market_id, o.is_buy, o.price)].total_size + o.size > u64::MAX
}

/// Whether the engine went from `e0` to `e1` by executing payload `p` of
/// `from` with outcome `r`, as the engine's own operations state it.
pub open spec fn payload_outcome(e0: EngineView, from: Address, p: TxPayload, r: Result<(), TxExecutionError>, e1: EngineView) -> bool {
    let er = engine_result(r);
    &&& (r is Ok || r->Err_0 is Engine)
    &&& match p {
        TxPayload::Deposit(d) => deposit_outcome(e0.state, e0.events, from, d, er, e1.state, e1.events)
            && e1 == (EngineView { state: e1.state, events: e1.events, ..e0 }),
        TxPayload::Withdraw(w) => withdraw_outcome(e0.state, e0.events, from, w, er, e1.state, e1.events)
            && e1 == (EngineView { state: e1.state, events: e1.events, ..e0 }),
        TxPayload::Transfer(t) => transfer_outcome(e0.state, e0.events, from, t, er, e1.state, e1.events)
            && e1 == (EngineView { state: e1.state, events: e1.events, ..e0 }),
        TxPayload::BridgeDeposit(d) => bridge_deposit_outcome(e0.state, e0.events, from, d, er, e1.state, e1.events)
            && e1 == (EngineView { state: e1.state, events: e1.events, ..e0 }),
        TxPayload::BridgeWithdraw(w) => bridge_withdraw_outcome(e0.state, e0.events, from, w, er, e1.state, e1.events)
            && e1 == (EngineView { state: e1.state, events: e1.events, ..e0 }),
        TxPayload::PlaceOrder(o) => if level_would_overflow(e0, o) {
            r == Err::<(), TxExecutionError>(TxExecutionError::Engine(EngineError::Overflow)) && e1 == e0
        } else {
            (exists|rid: Result<u64, EngineError>| #[trigger] place_order_outcome(e0.margin_mode, e0.state, e0.events, e0.book, from, o, rid,
                e1.state, e1.events, e1.book) && (rid is Ok <==> r is Ok) && (rid is Err ==> er == Err::<(), EngineError>(rid->Err_0)))
                && e1 == (EngineView { state: e1.state, events: e1.events, book: e1.book, ..e0 })
        },
        TxPayload::CancelOrder(c) => cancel_order_outcome(e0.state, e0.events, e0.book, from, c, er, e1.state, e1.events, e1.book)
            && e1 == (EngineView { state: e1.state, events: e1.events, book: e1.book, ..e0 }),
        TxPayload::ClosePosition(c) => close_position_outcome(e0.margin_mode, e0.state, e0.events, e0.book, from, c, er,
            e1.state, e1.events, e1.book)
            && e1 == (EngineView { state: e1.state, events: e1.events, book: e1.book, ..e0 }),
        TxPayload::SetAgent(a) => set_agent_outcome(e0.events, from, a, er, e1.events)
            && e1 == (EngineView { events: e1.events, ..e0 }),
        TxPayload::RemoveAgent(a) => remove_agent_outcome(e0.events, from, a, er, e1.events)
            && e1 == (EngineView { events: e1.events, ..e0 }),
    }
}

/// Execute a transaction's payload on the engine without touching agent
/// grants (as a read-only node replays them).
pub fn execute_tx_payload_readonly(engine: &mut Engine, tx: &Transaction) -> (r: Result<(), TxExecutionError>)
    ensures
        payload_outcome(old(engine)@, tx.from, tx.payload, r, final(engine)@),
{
    match &tx.payload {
        TxPayload::Deposit(d) => lift(engine.process_deposit(tx.from, d)),
        TxPayload::Withdraw(w) => lift(engine.process_withdraw(tx.from, w)),
        TxPayload::Transfer(t) => lift(engine.process_transfer(tx.from, t)),
        TxPayload::PlaceOrder(o) => {
            if o.time_in_force == TimeInForce::GTC || o.time_in_force == TimeInForce::PostOnly {
                let total = engine.book_level_total(o.market_id, o.is_buy, o.price);
                if total > u64::MAX - o.size {
                    return Err(TxExecutionError::Engine(EngineError::Overflow));
                }
            }
            let ghost e0 = engine@;
            let placed = engine.process_place_order(tx.from, o);
            proof {
                assert(place_order_outcome(e0.margin_mode, e0.state, e0.events, e0.book, tx.from, *o, placed,
                    engine@.state, engine@.events, engine@.book));
            }
            match placed {
                Ok(_) => Ok(()),
                Err(e) => Err(TxExecutionError::Engine(e)),
            }
        },
        TxPayload::CancelOrder(c) => lift(engine.process_cancel_order(tx.from, c)),
        TxPayload::ClosePosition(p) => lift(engine.process_close_position(tx.from, p)),
        TxPayload::SetAgent(a) => lift(engine.process_set_agent(tx.from, a)),
        TxPayload::RemoveAgent(a) => lift(engine.process_remove_agent(tx.from, a)),
        TxPayload::BridgeDeposit(d) => lift(engine.process_bridge_deposit(tx.from, d)),
        TxPayload::BridgeWithdraw(w) => lift(engine.process_bridge_withdraw(tx.from, w)),
    }
}

fn lift(r: Result<(), EngineError>) -> (t: Result<(), TxExecutionError>)
    ensures
        engine_result(t) == r,
        t is Ok || t->Err_0 is Engine,
{
    match r {
        Ok(u) => Ok(u),
        Err(e) => Err(TxExecutionError::Engine(e)),
    }
}

/// The agent grants after payload `p` of `from` ran with outcome `r`.
pub open spec fn grants_after(a0: Map<Address, Map<Address, u64>>, from: Address, p: TxPayload, r: Result<(), TxExecutionError>) -> Map<Address, Map<Address, u64>> {
    match p {
        TxPayload::SetAgent(a) => with_agent(a0, from, a.agent, a.permissions),
        TxPayload::RemoveAgent(a) => without_agent(a0, from, a.agent),
        _ => a0,
    }
}

/// Execute a payload, applying agent changes to `auth` as well; agent
/// changes need the sender's own signature.
fn execute_tx_payload(engine: &mut Engine, auth: &mut AuthService, tx: &Transaction, signer: Address) -> (r: Result<(), TxExecutionError>)
    ensures
        (tx.payload is SetAgent || tx.payload is RemoveAgent) && signer != tx.from ==>
            r == Err::<(), TxExecutionError>(TxExecutionError::Unauthorized) && final(engine)@ == old(engine)@ && final(auth)@ == old(auth)@,
        !((tx.payload is SetAgent || tx.payload is RemoveAgent) && signer != tx.from) ==>
            payload_outcome(old(engine)@, tx.from, tx.payload, r, final(engine)@)
            && final(auth)@ == grants_after(old(auth)@, tx.from, tx.payload, r),
{
    match &tx.payload {
        TxPayload::SetAgent(a) => {
            verify_tx_owner(signer, tx)?;
            auth.set_agent(tx.from, a.agent, a.permissions);
            lift(engine.process_set_agent(tx.from, a))
        },
        TxPayload::RemoveAgent(a) => {
            verify_tx_owner(signer, tx)?;
            auth.remove_agent(tx.from, a.agent);
            lift(engine.process_remove_agent(tx.from, a))
        },
        _ => execute_tx_payload_readonly(engine, tx),
    }
}

fn verify_tx_owner(signer: Address, tx: &Transaction) -> (r: Result<(), TxExecutionError>)
    ensures
        r == if signer == tx.from { Ok::<(), TxExecutionError>(()) } else { Err(TxExecutionError::Unauthorized) },
{
    if signer == tx.from {
        Ok(())
    } else {
        Err(TxExecutionError::Unauthorized)
    }
}

/// The pool after the transaction with hash `h` left it (unchanged when it
/// holds none).
pub open spec fn pool_without(m0: TxIndexView, h: crate::types::TxHash, m1: TxIndexView) -> bool {
    if m0.txs.contains_key(h) {
        let tx = m0.txs[h];
        &&& m1.txs == m0.txs.remove(h)
        &&& m1.by_sender == m0.with_nonces(tx.from, nonce_remove(m0.nonces(tx.from), tx.nonce))
    } else {
        m1 == m0
    }
}

/// Whether executing `tx`, signed by `signer`, took engine, grants and pool
/// from `(e0, a0, m0)` to `(e1, a1, m1)` with outcome `r`: a signer other
/// than the sender, or a nonce other than the sender's next, changes
/// nothing; otherwise the payload runs, and when it succeeds the sender's
/// nonce advances and the transaction leaves the pool.
pub open spec fn tx_outcome(
    e0: EngineView, a0: Map<Address, Map<Address, u64>>, m0: TxIndexView,
    tx: Transaction, signer: Address, r: Result<(), TxExecutionError>,
    e1: EngineView, a1: Map<Address, Map<Address, u64>>, m1: TxIndexView,
) -> bool {
    let n = e0.state.nonce(tx.from);
    if signer != tx.from {
        r == Err::<(), TxExecutionError>(TxExecutionError::Auth(AuthError::Unauthorized { signer, account: tx.from }))
            && e1 == e0 && a1 == a0 && m1 == m0
    } else if tx.nonce < n {
        r == Err::<(), TxExecutionError>(TxExecutionError::InvalidNonce { expected: n, got: tx.nonce })
            && e1 == e0 && a1 == a0 && m1 == m0
    } else if tx.nonce > n {
        r == Err::<(), TxExecutionError>(TxExecutionError::NonceGap { expected: n, got: tx.nonce })
            && e1 == e0 && a1 == a0 && m1 == m0
    } else {
        exists|mid: EngineView, pr: Result<(), TxExecutionError>| {
            &&& #[trigger] payload_outcome(e0, tx.from, tx.payload, pr, mid)
            &&& a1 == grants_after(a0, tx.from, tx.payload, pr)
            &&& if pr is Err {
                r == pr && e1 == mid && m1 == m0
            } else if mid.state.nonce(tx.from) == u64::MAX {
                r == Err::<(), TxExecutionError>(TxExecutionError::Engine(EngineError::Overflow)) && e1 == mid && m1 == m0
            } else {
                &&& r is Ok
                &&& e1 == (EngineView { state: StateView {
                        nonces: mid.state.nonces.insert(tx.from, (mid.state.nonce(tx.from) + 1) as u64), ..mid.state }, ..mid })
                &&& pool_without(m0, tx.tx_hash, m1)
            }
        }
    }
}

/// Execute one transaction whose signature recovers to `signer`.
pub fn execute_single_tx(
    tx: &Transaction,
    signer: Address,
    engine: &mut Engine,
    auth: &mut AuthService,
    mempool: &mut Mempool,
    block_height: u64,
) -> (r: Result<(), TxExecutionError>)
    ensures
        tx_outcome(old(engine)@, old(auth)@, old(mempool)@, *tx, signer, r, final(engine)@, final(auth)@, final(mempool)@),
        final(mempool).settings() == old(mempool).settings(),
{
    let tx_hash = tx.hash();
    match auth.verify_transaction(tx, signer) {
        Ok(()) => {},
        Err(e) => {
            return Err(TxExecutionError::Auth(e));
        },
    }
    let current = engine.state().get_nonce(tx.from);
    verify_nonce(current, tx)?;
    let ghost e0 = engine@;
    let ghost a0 = auth@;
    let pr = execute_tx_payload(engine, auth, tx, signer);
    let ghost mid = engine@;
    match pr {
        Err(e) => {
            proof {
                assert(payload_outcome(e0, tx.from, tx.payload, Err::<(), TxExecutionError>(e), mid));
            }
            return Err(e);
        },
        Ok(()) => {},
    }
    match engine.state_mut().increment_nonce(tx.from) {
        Ok(()) => {},
        Err(e) => {
            proof {
                assert(payload_outcome(e0, tx.from, tx.payload, Ok::<(), TxExecutionError>(()), mid));
            }
            return Err(TxExecutionError::Engine(e));
        },
    }
    let _ = mempool.remove(&tx_hash);
    proof {
        assert(payload_outcome(e0, tx.from, tx.payload, Ok::<(), TxExecutionError>(()), mid));
    }
    Ok(())
}

/// Number of successful outcomes.
pub open spec fn count_ok(rs: Seq<Result<(), TxExecutionError>>) -> nat
    decreases rs.len(),
{
    if rs.len() == 0 {
        0
    } else {
        count_ok(rs.drop_last()) + if rs.last() is Ok { 1nat } else { 0nat }
    }
}

/// Engine view, agent grants and pool content between two transactions.
pub type ExecState = (EngineView, Map<Address, Map<Address, u64>>, TxIndexView);

/// Whether `states` and `rs` trace executing `txs` (each with its recovered
/// signer) in order: `states[i]` is what transaction `i` met, `rs[i]` its
/// outcome and `states[i + 1]` what it left.
pub open spec fn batch_trace(txs: Seq<(Transaction, Address)>, states: Seq<ExecState>, rs: Seq<Result<(), TxExecutionError>>) -> bool {
    &&& states.len() == txs.len() + 1
    &&& rs.len() == txs.len()
    &&& forall|i: int| 0 <= i < txs.len() ==> tx_outcome(states[i].0, states[i].1, states[i].2, txs[i].0, txs[i].1,
        #[trigger] rs[i], states[i + 1].0, states[i + 1].1, states[i + 1].2)
}

/// Execute a block's transactions in order, each with the signer its
/// signature recovers to, and count successes and failures.
pub fn execute_tx_batch(
    txs: &[(Transaction, Address)],
    engine: &mut Engine,
    auth: &mut AuthService,
    mempool: &mut Mempool,
    block_height: u64,
) -> (stats: TxExecutionStats)
    ensures
        exists|states: Seq<ExecState>, rs: Seq<Result<(), TxExecutionError>>| {
            &&& #[trigger] batch_trace(txs@, states, rs)
            &&& states[0] == (old(engine)@, old(auth)@, old(mempool)@)
            &&& states.last() == (final(engine)@, final(auth)@, final(mempool)@)
            &&& stats.successful == count_ok(rs)
            &&& stats.failed == txs@.len() - count_ok(rs)
        },
        final(mempool).settings() == old(mempool).settings(),
{
    let mut stats = TxExecutionStats::new();
    let ghost mut states: Seq<ExecState> = seq![(engine@, auth@, mempool@)];
    let ghost mut rs: Seq<Result<(), TxExecutionError>> = Seq::empty();
    let mut i: usize = 0;
    while i < txs.len()
        invariant
            i <= txs@.len(),
            batch_trace(txs@.take(i as int), states, rs),
            states[0] == (old(engine)@, old(auth)@, old(mempool)@),
            states.last() == (engine@, auth@, mempool@),
            stats.successful == count_ok(rs),
            stats.failed == i - count_ok(rs),
            count_ok(rs) <= i,
            mempool.settings() == old(mempool).settings(),
        decreases txs@.len() - i,
    {
        let (tx, signer) = txs[i];
        let r = execute_single_tx(&tx, signer, engine, auth, mempool, block_height);
        match r {
            Ok(()) => stats.record_success(),
            Err(_) => stats.record_failure(),
        }
        proof {
            let s0 = states;
            let r0 = rs;
            states = s0.push((engine@, auth@, mempool@));
            rs = r0.push(r);
            assert(rs.drop_last() =~= r0);
            let t = txs@.take(i + 1);
            assert forall|k: int| 0 <= k < t.len() implies tx_outcome(states[k].0, states[k].1, states[k].2, t[k].0, t[k].1,
                #[trigger] rs[k], states[k + 1].0, states[k + 1].1, states[k + 1].2) by {
                if k < i {
                    assert(t[k] == txs@.take(i as int)[k]);
                    assert(rs[k] == r0[k]);
                }
            }
        }
        i += 1;
    }
    proof {
        assert(txs@.take(i as int) =~= txs@);
    }
    stats
}

} // verus!
