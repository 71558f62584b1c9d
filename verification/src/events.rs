//! Domain events emitted by the engine and the per-transaction collector.
use vstd::prelude::*;
use crate::types::{Address, OrderType, TxHash};

verus! {

/// Why a balance changed.
#[derive(Debug, Clone, Copy, PartialEq, Eq, Structural)]
pub enum BalanceChangeReason {
    Deposit,
    Withdraw,
}

/// Something that happened while executing a transaction.
#[derive(Debug, Clone, Copy, PartialEq, Eq, Structural)]
pub enum Event {
    BalanceChanged { address: Address, asset_id: u32, old_balance: u128, new_balance: u128, reason: BalanceChangeReason },
    Transfer { from: Address, to: Address, asset_id: u32, amount: u128 },
    OrderPlaced { order_id: u64, owner: Address, market_id: u32, is_buy: bool, price: u64, size: u64, order_type: OrderType },
    OrderCancelled { order_id: u64, owner: Address, market_id: u32, remaining_size: u64 },
    OrderFilled {
        maker_order_id: u64,
        taker_order_id: u64,
        maker: Address,
        taker: Address,
        market_id: u32,
        price: u64,
        size: u64,
        taker_is_buy: bool,
        maker_fee: u128,
        taker_fee: u128,
    },
    PositionOpened { trader: Address, market_id: u32, size: u64, entry_price: u64, is_long: bool },
    PositionClosed { trader: Address, market_id: u32, size: u64 },
    PositionModified { trader: Address, market_id: u32, size: u64 },
    PositionLiquidated { trader: Address, market_id: u32, liquidator: Option<Address>, size: u64, price: u64 },
    FundingPaid { trader: Address, market_id: u32, amount: u128 },
    BridgeDeposit { operator: Address, user: Address, asset_id: u32, amount: u128, external_tx_hash: TxHash },
    BridgeWithdraw { operator: Address, user: Address, asset_id: u32, amount: u128, destination: Address, external_tx_hash: TxHash },
    AgentSet { account: Address, agent: Address, permissions: u64 },
    AgentRemoved { account: Address, agent: Address },
}

/// An event stamped with the block and transaction it belongs to.
#[derive(Debug, Clone, Copy, PartialEq, Eq, Structural)]
pub struct DomainEvent {
    pub block_height: u64,
    pub tx_hash: TxHash,
    pub event_index: u32,
    pub timestamp: u64,
    pub event: Event,
}

impl DomainEvent {
    /// Stamp an event.
    pub fn new(block_height: u64, tx_hash: TxHash, event_index: u32, timestamp: u64, event: Event) -> (r: DomainEvent)
        ensures
            r == (DomainEvent { block_height, tx_hash, event_index, timestamp, event }),
    {
        DomainEvent { block_height, tx_hash, event_index, timestamp, event }
    }
}

/// Whether `address` takes part in an event.
pub open spec fn involves(event: Event, address: Address) -> bool {
    match event {
        Event::BalanceChanged { address: a, .. } => a == address,
        Event::Transfer { from, to, .. } => from == address || to == address,
        Event::OrderPlaced { owner, .. } => owner == address,
        Event::OrderCancelled { owner, .. } => owner == address,
        Event::OrderFilled { maker, taker, .. } => maker == address || taker == address,
        Event::PositionOpened { trader, .. } => trader == address,
        Event::PositionClosed { trader, .. } => trader == address,
        Event::PositionModified { trader, .. } => trader == address,
        Event::PositionLiquidated { trader, liquidator, .. } => trader == address || liquidator == Some(address),
        Event::FundingPaid { trader, .. } => trader == address,
        Event::BridgeDeposit { user, .. } => user == address,
        Event::BridgeWithdraw { user, .. } => user == address,
        Event::AgentSet { account, agent, .. } => account == address || agent == address,
        Event::AgentRemoved { account, agent } => account == address || agent == address,
    }
}

/// Whether `address` takes part in an event.
pub fn event_involves_address(event: &Event, address: Address) -> (r: bool)
    ensures
        r == involves(*event, address),
{
    match event {
        Event::BalanceChanged { address: a, .. } => *a == address,
        Event::Transfer { from, to, .. } => *from == address || *to == address,
        Event::OrderPlaced { owner, .. } => *owner == address,
        Event::OrderCancelled { owner, .. } => *owner == address,
        Event::OrderFilled { maker, taker, .. } => *maker == address || *taker == address,
        Event::PositionOpened { trader, .. } => *trader == address,
        Event::PositionClosed { trader, .. } => *trader == address,
        Event::PositionModified { trader, .. } => *trader == address,
        Event::PositionLiquidated { trader, liquidator, .. } => {
            *trader == address || match liquidator {
                Some(l) => *l == address,
                None => false,
            }
        },
        Event::FundingPaid { trader, .. } => *trader == address,
        Event::BridgeDeposit { user, .. } => *user == address,
        Event::BridgeWithdraw { user, .. } => *user == address,
        Event::AgentSet { account, agent, .. } => *account == address || *agent == address,
        Event::AgentRemoved { account, agent } => *account == address || *agent == address,
    }
}

/// Collector of the events of the current transaction.
pub struct ServiceContext {
    events: Vec<Event>,
}

impl View for ServiceContext {
    type V = Seq<Event>;

    closed spec fn view(&self) -> Seq<Event> {
        self.events@
    }
}

impl Default for ServiceContext {
    fn default() -> (r: Self)
        ensures
            r@ == Seq::<Event>::empty(),
    {
        ServiceContext { events: Vec::new() }
    }
}

impl ServiceContext {
    /// An empty collector.
    pub fn new() -> (r: Self)
        ensures
            r@ == Seq::<Event>::empty(),
    {
        ServiceContext { events: Vec::new() }
    }

    /// Record an event.
    pub fn emit(&mut self, event: Event)
        ensures
            final(self)@ == old(self)@.push(event),
    {
        self.events.push(event);
    }

    /// Hand out the recorded events and start afresh.
    pub fn take_events(&mut self) -> (r: Vec<Event>)
        ensures
            r@ == old(self)@,
            final(self)@ == Seq::<Event>::empty(),
    {
        let mut t: Vec<Event> = Vec::new();
        std::mem::swap(&mut t, &mut self.events);
        t
    }
}

} // verus!
