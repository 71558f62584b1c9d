//! The engine: state, order book, liquidation engine and services behind
//! one interface, with the events of the transaction being processed.
use vstd::prelude::*;
use crate::account::{AccountService, AgentService, deposit_outcome, withdraw_outcome, transfer_outcome,
    bridge_deposit_outcome, bridge_withdraw_outcome, set_agent_outcome, remove_agent_outcome};
use crate::error::EngineError;
use crate::events::{DomainEvent, Event, ServiceContext};
use crate::funding::{FundingRateCalculator, funding_after_update, funding_elapsed, funding_rate_negation_overflows};
use crate::liquidation::{InsuranceFund, LiquidationEngine, LiquidationResult, LiquidationView, MARGIN_BUFFER_BPS,
    at_risk_below, liquidation_outcome, liquidation_batch_outcome, risk_index_updated, risk_index_rebuilt, should_liquidate_spec};
use crate::adl::adl_outcome_holds;
use crate::order_service::{OrderService, PositionService, place_order_outcome, cancel_order_outcome, close_position_outcome};
use crate::orderbook::{BookView, OrderbookManager, is_depth};
use crate::position::PositionManager;
use crate::rebuild::{rebuild_book, book_of, level_overflows, live_in_markets, without_stale};
use crate::risk::{MarginMode, RiskEngine};
use crate::state::{StateManager, StateView, lists_market_positions};
use crate::types::{Address, BridgeDepositTx, BridgeWithdrawTx, CancelOrderTx, ClosePositionTx, DepositTx, PlaceOrderTx,
    Position, RemoveAgentTx, SetAgentTx, TransferTx, TxHash, WithdrawTx};

verus! {

/// The block and transaction being processed.
#[derive(Debug, Clone, Copy)]
struct BlockContext {
    height: u64,
    timestamp: u64,
    tx_hash: TxHash,
}

/// The perpetual exchange engine.
pub struct Engine {
    state: StateManager,
    account_service: AccountService,
    order_service: OrderService,
    position_service: PositionService,
    agent_service: AgentService,
    orderbook: OrderbookManager,
    position_mgr: PositionManager,
    liquidation: LiquidationEngine,
    funding: FundingRateCalculator,
    risk: RiskEngine,
    context: ServiceContext,
    current_block: BlockContext,
}

/// Mathematical content of an [`Engine`].
pub struct EngineView {
    pub state: StateView,
    pub book: BookView,
    pub liquidation: LiquidationView,
    /// Events of the transaction being processed.
    pub events: Seq<Event>,
    pub block_height: u64,
    pub block_timestamp: u64,
    pub tx_hash: TxHash,
    pub margin_mode: MarginMode,
    /// Cap on funding rates (basis points per interval).
    pub max_funding_rate: u32,
}

impl View for Engine {
    type V = EngineView;

    closed spec fn view(&self) -> EngineView {
        EngineView {
            state: self.state@,
            book: self.orderbook@,
            liquidation: self.liquidation@,
            events: self.context@,
            block_height: self.current_block.height,
            block_timestamp: self.current_block.timestamp,
            tx_hash: self.current_block.tx_hash,
            margin_mode: self.risk.mode(),
            max_funding_rate: self.funding.max_rate(),
        }
    }
}

/// The events `es`, stamped with their block, transaction and position.
pub open spec fn stamped(es: Seq<Event>, height: u64, tx_hash: TxHash, timestamp: u64) -> Seq<DomainEvent> {
    Seq::new(es.len(), |i: int| DomainEvent { block_height: height, tx_hash, event_index: i as u32, timestamp, event: es[i] })
}

impl Engine {
    /// An engine over `state`, with an empty book and no pending events.
    pub fn new(state: StateManager) -> (r: Self)
        ensures
            r@.state == state@,
            r@.book.orders == Map::<u64, crate::types::Order>::empty(),
            r@.book.by_market == Seq::<(u32, u64)>::empty(),
            r@.book.levels.dom() == Set::<crate::orderbook::LevelKey>::empty(),
            r@.liquidation.at_risk == Seq::<crate::liquidation::PositionRisk>::empty(),
            r@.liquidation.insurance_funds == Map::<u32, InsuranceFund>::empty(),
            r@.liquidation.partial_liquidations && r@.liquidation.adl_enabled,
            r@.events == Seq::<Event>::empty(),
            r@.block_height == 0 && r@.block_timestamp == 0 && r@.tx_hash == (TxHash { hi: 0, lo: 0 }),
            r@.margin_mode == MarginMode::Isolated,
            r@.max_funding_rate == crate::funding::DEFAULT_MAX_FUNDING_RATE_BPS,
    {
        Engine {
            state,
            account_service: AccountService,
            order_service: OrderService,
            position_service: PositionService,
            agent_service: AgentService,
            orderbook: OrderbookManager::new(),
            position_mgr: PositionManager,
            liquidation: LiquidationEngine::default(),
            funding: FundingRateCalculator::new(),
            risk: RiskEngine::default(),
            context: ServiceContext::new(),
            current_block: BlockContext { height: 0, timestamp: 0, tx_hash: TxHash::zero() },
        }
    }

    /// Start processing a transaction: record its block and drop pending events.
    pub fn begin_tx(&mut self, tx_hash: TxHash, block_height: u64, timestamp: u64)
        ensures
            final(self)@ == (EngineView { events: Seq::empty(), block_height, block_timestamp: timestamp, tx_hash, ..old(self)@ }),
    {
        self.current_block = BlockContext { height: block_height, timestamp, tx_hash };
        self.context = ServiceContext::new();
    }

    /// Take the events of the transaction, stamped with its block, hash and
    /// their position.
    pub fn take_events(&mut self) -> (r: Vec<DomainEvent>)
        ensures
            r@ == stamped(old(self)@.events, old(self)@.block_height, old(self)@.tx_hash, old(self)@.block_timestamp),
            final(self)@ == (EngineView { events: Seq::empty(), ..old(self)@ }),
    {
        let events = self.context.take_events();
        let mut r: Vec<DomainEvent> = Vec::new();
        let mut i: usize = 0;
        while i < events.len()
            invariant
                i <= events@.len(),
                r@ == stamped(events@.take(i as int), self.current_block.height, self.current_block.tx_hash, self.current_block.timestamp),
            decreases events@.len() - i,
        {
            let e = DomainEvent::new(self.current_block.height, self.current_block.tx_hash, i as u32, self.current_block.timestamp, events[i]);
            r.push(e);
            i += 1;
            proof {
                assert(r@ =~= stamped(events@.take(i as int), self.current_block.height, self.current_block.tx_hash, self.current_block.timestamp));
            }
        }
        proof { assert(events@.take(events@.len() as int) =~= events@); }
        r
    }

    /// Deposit into `from`'s balance.
    pub fn process_deposit(&mut self, from: Address, deposit: &DepositTx) -> (r: Result<(), EngineError>)
        ensures
            deposit_outcome(old(self)@.state, old(self)@.events, from, *deposit, r, final(self)@.state, final(self)@.events),
            final(self)@ == (EngineView { state: final(self)@.state, events: final(self)@.events, ..old(self)@ }),
    {
        self.account_service.deposit(&mut self.state, &mut self.context, from, deposit)
    }

    /// Withdraw from `from`'s balance.
    pub fn process_withdraw(&mut self, from: Address, withdraw: &WithdrawTx) -> (r: Result<(), EngineError>)
        ensures
            withdraw_outcome(old(self)@.state, old(self)@.events, from, *withdraw, r, final(self)@.state, final(self)@.events),
            final(self)@ == (EngineView { state: final(self)@.state, events: final(self)@.events, ..old(self)@ }),
    {
        self.account_service.withdraw(&mut self.state, &mut self.context, from, withdraw)
    }

    /// Transfer from `from` to another account.
    pub fn process_transfer(&mut self, from: Address, transfer: &TransferTx) -> (r: Result<(), EngineError>)
        ensures
            transfer_outcome(old(self)@.state, old(self)@.events, from, *transfer, r, final(self)@.state, final(self)@.events),
            final(self)@ == (EngineView { state: final(self)@.state, events: final(self)@.events, ..old(self)@ }),
    {
        self.account_service.transfer(&mut self.state, &mut self.context, from, transfer)
    }

    /// Credit a user on behalf of bridge operator `operator`.
    pub fn process_bridge_deposit(&mut self, operator: Address, deposit: &BridgeDepositTx) -> (r: Result<(), EngineError>)
        ensures
            bridge_deposit_outcome(old(self)@.state, old(self)@.events, operator, *deposit, r, final(self)@.state, final(self)@.events),
            final(self)@ == (EngineView { state: final(self)@.state, events: final(self)@.events, ..old(self)@ }),
    {
        self.account_service.bridge_deposit(&mut self.state, &mut self.context, operator, deposit)
    }

    /// Debit a user on behalf of bridge operator `operator`.
    pub fn process_bridge_withdraw(&mut self, operator: Address, withdraw: &BridgeWithdrawTx) -> (r: Result<(), EngineError>)
        ensures
            bridge_withdraw_outcome(old(self)@.state, old(self)@.events, operator, *withdraw, r, final(self)@.state, final(self)@.events),
            final(self)@ == (EngineView { state: final(self)@.state, events: final(self)@.events, ..old(self)@ }),
    {
        self.account_service.bridge_withdraw(&mut self.state, &mut self.context, operator, withdraw)
    }

    /// Place an order for `trader`; returns its id.
    pub fn process_place_order(&mut self, trader: Address, order: &PlaceOrderTx) -> (r: Result<u64, EngineError>)
        requires
            (order.time_in_force == crate::types::TimeInForce::GTC || order.time_in_force == crate::types::TimeInForce::PostOnly)
                && old(self)@.book.levels.contains_key((order.market_id, order.is_buy, order.price))
                ==> old(self)@.book.levels[(order.market_id, order.is_buy, order.price)].total_size + order.size <= u64::MAX,
        ensures
            place_order_outcome(old(self)@.margin_mode, old(self)@.state, old(self)@.events, old(self)@.book, trader, *order, r,
                final(self)@.state, final(self)@.events, final(self)@.book),
            final(self)@ == (EngineView { state: final(self)@.state, events: final(self)@.events, book: final(self)@.book, ..old(self)@ }),
    {
        self.order_service.place_order(&mut self.state, &mut self.context, &mut self.orderbook, &mut self.position_mgr, &self.risk, trader, order)
    }

    /// Cancel an order of `trader`.
    pub fn process_cancel_order(&mut self, trader: Address, cancel: &CancelOrderTx) -> (r: Result<(), EngineError>)
        ensures
            cancel_order_outcome(old(self)@.state, old(self)@.events, old(self)@.book, trader, *cancel, r,
                final(self)@.state, final(self)@.events, final(self)@.book),
            final(self)@ == (EngineView { state: final(self)@.state, events: final(self)@.events, book: final(self)@.book, ..old(self)@ }),
    {
        self.order_service.cancel_order(&mut self.state, &mut self.context, &mut self.orderbook, trader, cancel)
    }

    /// Close (part of) a position of `trader`.
    pub fn process_close_position(&mut self, trader: Address, close: &ClosePositionTx) -> (r: Result<(), EngineError>)
        ensures
            close_position_outcome(old(self)@.margin_mode, old(self)@.state, old(self)@.events, old(self)@.book, trader, *close, r,
                final(self)@.state, final(self)@.events, final(self)@.book),
            final(self)@ == (EngineView { state: final(self)@.state, events: final(self)@.events, book: final(self)@.book, ..old(self)@ }),
    {
        self.position_service.close_position(&mut self.state, &mut self.context, &mut self.orderbook, &mut self.position_mgr,
            &self.risk, &self.order_service, trader, close)
    }

    /// Record that `account` granted an agent its permissions.
    pub fn process_set_agent(&mut self, account: Address, set_agent: &SetAgentTx) -> (r: Result<(), EngineError>)
        ensures
            set_agent_outcome(old(self)@.events, account, *set_agent, r, final(self)@.events),
            final(self)@ == (EngineView { events: final(self)@.events, ..old(self)@ }),
    {
        self.agent_service.set_agent(&mut self.context, account, set_agent)
    }

    /// Record that `account` revoked an agent.
    pub fn process_remove_agent(&mut self, account: Address, remove_agent: &RemoveAgentTx) -> (r: Result<(), EngineError>)
        ensures
            remove_agent_outcome(old(self)@.events, account, *remove_agent, r, final(self)@.events),
            final(self)@ == (EngineView { events: final(self)@.events, ..old(self)@ }),
    {
        self.agent_service.remove_agent(&mut self.context, account, remove_agent)
    }

    /// Rebuild the book from the state's active orders (as after a restart):
    /// live orders return to their levels in the order the state lists them
    /// and stale ones leave the active-order index. Fails with `Overflow`,
    /// leaving the book as it was, when some level's orders add up beyond
    /// `u64::MAX`.
    pub fn rebuild_orderbook_from_state(&mut self) -> (r: Result<(), EngineError>)
        ensures
            final(self)@ == (EngineView { state: final(self)@.state, book: final(self)@.book, ..old(self)@ }),
            final(self)@.state == (StateView { active_orders: final(self)@.state.active_orders, ..old(self)@.state }),
            r is Ok <==> !level_overflows(live_in_markets(old(self)@.state, old(self)@.state.market_ids)),
            r is Err ==> r == Err::<(), EngineError>(EngineError::Overflow) && final(self)@.book == old(self)@.book,
            r is Ok ==> book_of(final(self)@.book, live_in_markets(old(self)@.state, old(self)@.state.market_ids))
                && final(self)@.state.active_orders == without_stale(old(self)@.state, old(self)@.state.market_ids),
    {
        match rebuild_book(&mut self.state) {
            Ok(book) => {
                self.orderbook = book;
                Ok(())
            },
            Err(e) => Err(e),
        }
    }

    /// Total size resting at a level of the book (0 when there is none).
    pub(crate) fn book_level_total(&self, market_id: u32, is_bid: bool, price: u64) -> (r: u64)
        ensures
            r == if self@.book.levels.contains_key((market_id, is_bid, price)) { self@.book.levels[(market_id, is_bid, price)].total_size } else { 0 },
    {
        self.orderbook.level_total(market_id, is_bid, price)
    }

    /// The best `depth` levels of each side of a market's book.
    pub fn get_orderbook_depth(&self, market_id: u32, depth: usize) -> (r: (Vec<(u64, u64)>, Vec<(u64, u64)>))
        ensures
            is_depth(self@.book, market_id, true, depth as nat, r.0@),
            is_depth(self@.book, market_id, false, depth as nat, r.1@),
    {
        self.orderbook.get_depth(market_id, depth)
    }

    /// Update the funding state of a market.
    pub fn update_funding_rate(&mut self, market_id: u32, mark_price: u64, oracle_price: u64, timestamp: u64) -> (r: Result<(), EngineError>)
        requires
            old(self)@.state.market(market_id) is Some ==> !funding_rate_negation_overflows(
                old(self)@.max_funding_rate,
                mark_price,
                oracle_price,
                funding_elapsed(old(self)@.state.funding(market_id), timestamp),
                old(self)@.state.market(market_id).unwrap().funding_interval,
            ),
        ensures
            final(self)@ == (EngineView { state: final(self)@.state, ..old(self)@ }),
            old(self)@.state.market(market_id) is None ==> r == Err::<(), EngineError>(EngineError::MarketNotFound)
                && final(self)@.state == old(self)@.state,
            old(self)@.state.market(market_id) is Some ==> match funding_after_update(
                old(self)@.max_funding_rate,
                old(self)@.state.funding(market_id),
                old(self)@.state.market(market_id).unwrap().funding_interval,
                mark_price,
                oracle_price,
                timestamp,
            ) {
                Err(e) => r == Err::<(), EngineError>(e) && final(self)@.state == old(self)@.state,
                Ok(f) => r is Ok
                    && final(self)@.state == (StateView { funding_rates: old(self)@.state.funding_rates.insert(market_id, f), ..old(self)@.state }),
            },
    {
        self.funding.update_funding_rate(&mut self.state, market_id, mark_price, oracle_price, timestamp)
    }

    /// Whether `trader`'s position in `market_id` is below maintenance margin.
    pub fn should_liquidate(&self, trader: Address, market_id: u32, mark_price: u64) -> (r: Result<bool, EngineError>)
        ensures
            self@.state.market(market_id) is None ==> r == Err::<bool, EngineError>(EngineError::MarketNotFound),
            self@.state.market(market_id) is Some ==> r == should_liquidate_spec(self@.state, trader, market_id, mark_price,
                self@.state.market(market_id).unwrap().maintenance_margin_bps),
    {
        let market = match self.state.get_market(market_id) {
            Some(m) => m,
            None => { return Err(EngineError::MarketNotFound); },
        };
        self.liquidation.should_liquidate(&self.state, trader, market_id, mark_price, &market)
    }

    /// Liquidate `trader`'s position in `market_id` with incentives for
    /// `liquidator`: cancel the trader's orders there, liquidate part or all
    /// of the position, split the fee between liquidator and insurance
    /// fund, and cover bad debt from the fund.
    pub fn liquidate_with_incentive(&mut self, trader: Address, market_id: u32, mark_price: u64, liquidator: Address)
        -> (r: Result<Option<LiquidationResult>, EngineError>)
        requires
            old(self)@.state.market(market_id) is Some
                ==> old(self)@.state.market(market_id).unwrap().maintenance_margin_bps + MARGIN_BUFFER_BPS <= u32::MAX,
        ensures
            liquidation_outcome(old(self)@.liquidation, old(self)@.state, old(self)@.book, trader, market_id, mark_price, liquidator, r,
                final(self)@.liquidation, final(self)@.state, final(self)@.book),
            final(self)@ == (EngineView { state: final(self)@.state, book: final(self)@.book, liquidation: final(self)@.liquidation, ..old(self)@ }),
    {
        self.liquidation.liquidate_with_incentive(&mut self.state, &mut self.orderbook, trader, market_id, mark_price, liquidator)
    }

    /// Index the risk of `trader`'s position in `market_id`.
    pub fn update_risk_index(&mut self, trader: Address, market_id: u32, mark_price: u64) -> (r: Result<(), EngineError>)
        ensures
            risk_index_updated(old(self)@.liquidation, old(self)@.state, trader, market_id, mark_price, r, final(self)@.liquidation),
            final(self)@ == (EngineView { liquidation: final(self)@.liquidation, ..old(self)@ }),
    {
        self.liquidation.update_risk_index(&self.state, trader, market_id, mark_price)
    }

    /// Rebuild the risk index of a market.
    pub fn rebuild_risk_index(&mut self, market_id: u32, mark_price: u64) -> (r: Result<(), EngineError>)
        ensures
            risk_index_rebuilt(old(self)@.liquidation, old(self)@.state, market_id, mark_price, r, final(self)@.liquidation),
            final(self)@ == (EngineView { liquidation: final(self)@.liquidation, ..old(self)@ }),
    {
        self.liquidation.rebuild_risk_index(&self.state, market_id, mark_price)
    }

    /// Indexed positions of a market below a margin ratio threshold.
    pub fn get_at_risk_positions(&self, market_id: u32, threshold_bps: u32) -> (r: Vec<(Address, u32)>)
        ensures
            r@ == at_risk_below(self@.liquidation.at_risk, market_id, threshold_bps),
    {
        self.liquidation.get_at_risk_positions(market_id, threshold_bps)
    }

    /// The insurance fund of a market.
    pub fn get_insurance_fund(&self, market_id: u32) -> (r: InsuranceFund)
        ensures
            r == self@.liquidation.fund(market_id),
    {
        self.liquidation.get_insurance_fund(market_id)
    }

    /// Liquidate up to `max_liquidations` indexed positions of a market.
    pub fn process_liquidation_batch(&mut self, market_id: u32, mark_price: u64, liquidator: Address, max_liquidations: usize)
        -> (r: Result<Vec<LiquidationResult>, EngineError>)
        requires
            old(self)@.state.market(market_id) is Some
                ==> old(self)@.state.market(market_id).unwrap().maintenance_margin_bps + MARGIN_BUFFER_BPS <= u32::MAX,
        ensures
            liquidation_batch_outcome(old(self)@.liquidation, old(self)@.state, old(self)@.book, market_id, mark_price, liquidator,
                max_liquidations, r, final(self)@.liquidation, final(self)@.state, final(self)@.book),
            final(self)@ == (EngineView { state: final(self)@.state, book: final(self)@.book, liquidation: final(self)@.liquidation, ..old(self)@ }),
    {
        self.liquidation.process_liquidation_batch(&mut self.state, &mut self.orderbook, market_id, mark_price, liquidator, max_liquidations)
    }

    /// Auto-deleverage a market (see [`LiquidationEngine::auto_deleverage`]).
    pub fn auto_deleverage(&mut self, market_id: u32, required_amount: u128, mark_price: u64) -> (r: Result<Vec<(Address, u64)>, EngineError>)
        ensures
            final(self)@ == (EngineView { state: final(self)@.state, ..old(self)@ }),
            !old(self)@.liquidation.adl_enabled ==> r is Ok && r->Ok_0@ == Seq::<(Address, u64)>::empty()
                && final(self)@.state == old(self)@.state,
            old(self)@.liquidation.adl_enabled ==> exists|ps: Seq<(Address, Position)>| {
                &&& lists_market_positions(old(self)@.state, market_id, ps)
                &&& adl_outcome_holds(old(self)@.state, ps, market_id, required_amount, mark_price, r, final(self)@.state)
            },
    {
        let ghost s0 = self.state@;
        let r = self.liquidation.auto_deleverage(&mut self.state, market_id, required_amount, mark_price);
        proof {
            if old(self)@.liquidation.adl_enabled {
                let ps = choose|ps: Seq<(Address, Position)>| {
                    &&& lists_market_positions(s0, market_id, ps)
                    &&& adl_outcome_holds(s0, ps, market_id, required_amount, mark_price, r, self.state@)
                };
                assert(lists_market_positions(old(self)@.state, market_id, ps));
                assert(adl_outcome_holds(old(self)@.state, ps, market_id, required_amount, mark_price, r, self@.state));
            }
        }
        r
    }

    /// Mutable access to the engine's state.
    pub fn state_mut(&mut self) -> (r: &mut StateManager)
        ensures
            r@ == old(self)@.state,
            final(self)@ == (EngineView { state: final(r)@, ..old(self)@ }),
    {
        &mut self.state
    }

    /// The engine's state.
    pub fn state(&self) -> (r: &StateManager)
        ensures
            r@ == self@.state,
    {
        &self.state
    }
}

} // verus!
