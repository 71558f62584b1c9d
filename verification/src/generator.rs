//! Random transaction payloads for load testing: orders, cancellations,
//! deposits, withdrawals, transfers, or a mix of them, each field drawn
//! from the range the tool uses.
use vstd::prelude::*;
use crate::loadtest::{TransactionType, draw_u64, draw_u128};
use crate::types::{Address, CancelOrderTx, DepositTx, OrderType, PlaceOrderTx, TimeInForce, TransferTx, TxPayload, WithdrawTx};

verus! {

/// A fair coin (`fastrand::bool`).
#[verifier::external_body]
pub(crate) fn draw_bool() -> bool {
    fastrand::bool()
}

/// A uniformly drawn `u8` in `min..max` (`fastrand::u8`, which panics on an
/// empty range); any value of the range may come back.
#[verifier::external_body]
fn draw_u8(min: u8, max: u8) -> (r: u8)
    requires
        min < max,
    ensures
        min <= r < max,
{
    fastrand::u8(min..max)
}

/// A uniformly drawn `usize` in `min..max` (`fastrand::usize`, which panics
/// on an empty range); any value of the range may come back.
#[verifier::external_body]
fn draw_usize(min: usize, max: usize) -> (r: usize)
    requires
        min < max,
    ensures
        min <= r < max,
{
    fastrand::usize(min..max)
}

/// Twenty random bytes (`fastrand::fill`); nothing is known of them.
#[verifier::external_body]
fn draw_bytes20() -> [u8; 20] {
    let mut b = [0u8; 20];
    fastrand::fill(&mut b);
    b
}

/// Lowest and highest (exclusive) random limit price.
pub const ORDER_PRICE_MIN: u64 = 45_000_000_000;
pub const ORDER_PRICE_MAX: u64 = 55_000_000_000;
/// Lowest and highest (exclusive) random order size.
pub const ORDER_SIZE_MIN: u64 = 1_000_000;
pub const ORDER_SIZE_MAX: u64 = 100_000_000;

/// Something that makes transaction payloads.
pub trait TxGenerator {
    /// Whether `p` is a payload this generator can make.
    spec fn can_make(&self, p: TxPayload) -> bool;

    /// A new payload, one that the generator can make.
    fn generate(&self) -> (r: TxPayload)
        ensures
            self.can_make(r);
}

/// Whether `p` is an order request that the order generator can make for
/// `market_id`.
pub open spec fn random_order(p: TxPayload, market_id: u32) -> bool {
    &&& p matches TxPayload::PlaceOrder(o)
    &&& o.market_id == market_id
    &&& ORDER_SIZE_MIN <= o.size < ORDER_SIZE_MAX
    &&& (o.order_type == OrderType::Market ==> o.price == 0)
    &&& (o.order_type == OrderType::Limit ==> ORDER_PRICE_MIN <= o.price < ORDER_PRICE_MAX)
    &&& !o.reduce_only
    &&& o.post_only == (o.time_in_force == TimeInForce::PostOnly)
}

/// Whether `p` is a payload that a generator of the single kind `t` can make.
pub open spec fn random_single(p: TxPayload, t: TransactionType, market_id: u32, asset_id: u32, address: Address) -> bool {
    match t {
        TransactionType::PlaceOrder => random_order(p, market_id),
        TransactionType::CancelOrder => p matches TxPayload::CancelOrder(c) && 1 <= c.order_id < 1_000_000,
        TransactionType::Deposit => p matches TxPayload::Deposit(d) && d.asset_id == asset_id
            && 100_000_000 <= d.amount < 10_000_000_000,
        TransactionType::Withdraw => p matches TxPayload::Withdraw(w) && w.asset_id == asset_id && w.to == address
            && 10_000_000 <= w.amount < 1_000_000_000,
        TransactionType::Transfer => p matches TxPayload::Transfer(x) && x.asset_id == asset_id
            && 1_000_000 <= x.amount < 100_000_000,
        TransactionType::Mixed => false,
    }
}

/// Whether `p` is a payload that a generator of kind `t` can make; a mixed
/// generator makes any of the single kinds.
pub open spec fn random_payload(p: TxPayload, t: TransactionType, market_id: u32, asset_id: u32, address: Address) -> bool {
    match t {
        TransactionType::Mixed => {
            ||| random_single(p, TransactionType::PlaceOrder, market_id, asset_id, address)
            ||| random_single(p, TransactionType::CancelOrder, market_id, asset_id, address)
            ||| random_single(p, TransactionType::Deposit, market_id, asset_id, address)
            ||| random_single(p, TransactionType::Withdraw, market_id, asset_id, address)
            ||| random_single(p, TransactionType::Transfer, market_id, asset_id, address)
        },
        _ => random_single(p, t, market_id, asset_id, address),
    }
}

/// Random orders in one market.
pub struct OrderGenerator {
    market_id: u32,
}

impl OrderGenerator {
    /// The market of the orders.
    pub closed spec fn market(self) -> u32 {
        self.market_id
    }

    /// A generator for `market_id`.
    pub fn new(market_id: u32) -> (r: Self)
        ensures
            r.market() == market_id,
    {
        OrderGenerator { market_id }
    }

    /// An order request with the given fields: a market order carries price
    /// 0, a post-only order is marked so, none is reduce-only.
    pub fn with_params(market_id: u32, is_buy: bool, order_type: OrderType, price: u64, size: u64, time_in_force: TimeInForce) -> (r: TxPayload)
        ensures
            r == TxPayload::PlaceOrder(PlaceOrderTx {
                market_id,
                is_buy,
                order_type,
                price: if order_type == OrderType::Market { 0 } else { price },
                size,
                time_in_force,
                reduce_only: false,
                post_only: time_in_force == TimeInForce::PostOnly,
            }),
    {
        TxPayload::PlaceOrder(PlaceOrderTx {
            market_id,
            is_buy,
            order_type,
            price: if order_type == OrderType::Market { 0 } else { price },
            size,
            time_in_force,
            reduce_only: false,
            post_only: time_in_force == TimeInForce::PostOnly,
        })
    }
}

impl TxGenerator for OrderGenerator {
    open spec fn can_make(&self, p: TxPayload) -> bool {
        random_order(p, self.market())
    }

    /// A buy or a sell, a limit order four times in five, with any time in force.
    fn generate(&self) -> (r: TxPayload)
        ensures
            random_order(r, self.market()),
    {
        let is_buy = draw_bool();
        let price = draw_u64(ORDER_PRICE_MIN, ORDER_PRICE_MAX);
        let size = draw_u64(ORDER_SIZE_MIN, ORDER_SIZE_MAX);
        let order_type = if draw_u8(0, 10) < 8 { OrderType::Limit } else { OrderType::Market };
        let time_in_force = match draw_usize(0, 4) {
            0 => TimeInForce::GTC,
            1 => TimeInForce::IOC,
            2 => TimeInForce::FOK,
            _ => TimeInForce::PostOnly,
        };
        Self::with_params(self.market_id, is_buy, order_type, price, size, time_in_force)
    }
}

/// Random cancellations.
pub struct CancelGenerator;

impl TxGenerator for CancelGenerator {
    open spec fn can_make(&self, p: TxPayload) -> bool {
        random_payload(p, TransactionType::CancelOrder, 0, 0, Address { hi: 0, lo: 0 })
    }

    fn generate(&self) -> (r: TxPayload)
        ensures
            random_payload(r, TransactionType::CancelOrder, 0, 0, Address { hi: 0, lo: 0 }),
    {
        TxPayload::CancelOrder(CancelOrderTx { order_id: draw_u64(1, 1_000_000) })
    }
}

/// Random deposits of one asset.
pub struct DepositGenerator {
    asset_id: u32,
}

impl DepositGenerator {
    /// The asset deposited.
    pub closed spec fn asset(self) -> u32 {
        self.asset_id
    }

    /// A generator for `asset_id`.
    pub fn new(asset_id: u32) -> (r: Self)
        ensures
            r.asset() == asset_id,
    {
        DepositGenerator { asset_id }
    }
}

impl TxGenerator for DepositGenerator {
    open spec fn can_make(&self, p: TxPayload) -> bool {
        random_payload(p, TransactionType::Deposit, 0, self.asset(), Address { hi: 0, lo: 0 })
    }

    fn generate(&self) -> (r: TxPayload)
        ensures
            random_payload(r, TransactionType::Deposit, 0, self.asset(), Address { hi: 0, lo: 0 }),
    {
        TxPayload::Deposit(DepositTx { amount: draw_u128(100_000_000, 10_000_000_000), asset_id: self.asset_id })
    }
}

/// Random withdrawals of one asset to one address.
pub struct WithdrawGenerator {
    asset_id: u32,
    address: Address,
}

impl WithdrawGenerator {
    /// The asset withdrawn.
    pub closed spec fn asset(self) -> u32 {
        self.asset_id
    }

    /// Where withdrawals go.
    pub closed spec fn payee(self) -> Address {
        self.address
    }

    /// A generator for `asset_id`, paying out to `address`.
    pub fn new(asset_id: u32, address: Address) -> (r: Self)
        ensures
            r.asset() == asset_id && r.payee() == address,
    {
        WithdrawGenerator { asset_id, address }
    }
}

impl TxGenerator for WithdrawGenerator {
    open spec fn can_make(&self, p: TxPayload) -> bool {
        random_payload(p, TransactionType::Withdraw, 0, self.asset(), self.payee())
    }

    fn generate(&self) -> (r: TxPayload)
        ensures
            random_payload(r, TransactionType::Withdraw, 0, self.asset(), self.payee()),
    {
        TxPayload::Withdraw(WithdrawTx { amount: draw_u128(10_000_000, 1_000_000_000), asset_id: self.asset_id, to: self.address })
    }
}

/// Random transfers of one asset to random addresses.
pub struct TransferGenerator {
    asset_id: u32,
}

impl TransferGenerator {
    /// The asset transferred.
    pub closed spec fn asset(self) -> u32 {
        self.asset_id
    }

    /// A generator for `asset_id`.
    pub fn new(asset_id: u32) -> (r: Self)
        ensures
            r.asset() == asset_id,
    {
        TransferGenerator { asset_id }
    }
}

impl TxGenerator for TransferGenerator {
    open spec fn can_make(&self, p: TxPayload) -> bool {
        random_payload(p, TransactionType::Transfer, 0, self.asset(), Address { hi: 0, lo: 0 })
    }

    fn generate(&self) -> (r: TxPayload)
        ensures
            random_payload(r, TransactionType::Transfer, 0, self.asset(), Address { hi: 0, lo: 0 }),
    {
        let to = Address::from_bytes(draw_bytes20());
        TxPayload::Transfer(TransferTx { to, amount: draw_u128(1_000_000, 100_000_000), asset_id: self.asset_id })
    }
}

/// Any of the payloads above, each kind equally likely.
pub struct MixedGenerator {
    market_id: u32,
    asset_id: u32,
    address: Address,
}

impl MixedGenerator {
    /// The market of the orders.
    pub closed spec fn market(self) -> u32 {
        self.market_id
    }

    /// The asset of funds.
    pub closed spec fn asset(self) -> u32 {
        self.asset_id
    }

    /// Where withdrawals go.
    pub closed spec fn payee(self) -> Address {
        self.address
    }

    /// A generator for orders in `market_id` and funds of `asset_id`, paying
    /// withdrawals to `address`.
    pub fn new(market_id: u32, asset_id: u32, address: Address) -> (r: Self)
        ensures
            r.market() == market_id && r.asset() == asset_id && r.payee() == address,
    {
        MixedGenerator { market_id, asset_id, address }
    }
}

impl TxGenerator for MixedGenerator {
    open spec fn can_make(&self, p: TxPayload) -> bool {
        random_payload(p, TransactionType::Mixed, self.market(), self.asset(), self.payee())
    }

    fn generate(&self) -> (r: TxPayload)
        ensures
            random_payload(r, TransactionType::Mixed, self.market(), self.asset(), self.payee()),
    {
        match draw_u8(0, 5) {
            0 => OrderGenerator::new(self.market_id).generate(),
            1 => CancelGenerator.generate(),
            2 => DepositGenerator::new(self.asset_id).generate(),
            3 => WithdrawGenerator::new(self.asset_id, self.address).generate(),
            _ => TransferGenerator::new(self.asset_id).generate(),
        }
    }
}

/// Payloads of one kind.
pub struct TransactionGenerator {
    pub tx_type: TransactionType,
    pub market_id: u32,
    pub asset_id: u32,
    pub address: Address,
}

impl TxGenerator for TransactionGenerator {
    open spec fn can_make(&self, p: TxPayload) -> bool {
        random_payload(p, self.tx_type, self.market_id, self.asset_id, self.address)
    }

    fn generate(&self) -> (r: TxPayload)
        ensures
            random_payload(r, self.tx_type, self.market_id, self.asset_id, self.address),
    {
        match self.tx_type {
            TransactionType::PlaceOrder => OrderGenerator::new(self.market_id).generate(),
            TransactionType::CancelOrder => CancelGenerator.generate(),
            TransactionType::Deposit => DepositGenerator::new(self.asset_id).generate(),
            TransactionType::Withdraw => WithdrawGenerator::new(self.asset_id, self.address).generate(),
            TransactionType::Transfer => TransferGenerator::new(self.asset_id).generate(),
            TransactionType::Mixed => MixedGenerator::new(self.market_id, self.asset_id, self.address).generate(),
        }
    }
}

} // verus!
