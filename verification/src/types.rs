//! Plain data of the exchange: addresses, hashes, markets, orders, positions,
//! assets, funding records and transaction payloads.
use vstd::prelude::*;

verus! {

/// A 20-byte account address, held as its first 16 bytes (`hi`, big-endian)
/// and its last 4 bytes (`lo`, big-endian).
#[derive(Debug, Clone, Copy, PartialEq, Eq, Structural, Hash)]
pub struct Address {
    pub hi: u128,
    pub lo: u32,
}

/// Big-endian value of a byte sequence.
pub open spec fn be_value(b: Seq<u8>) -> nat
    decreases b.len(),
{
    if b.len() == 0 {
        0
    } else {
        be_value(b.drop_last()) * 256 + b.last() as nat
    }
}

impl Address {
    /// The all-zero address.
    pub fn zero() -> (r: Address)
        ensures
            r.hi == 0 && r.lo == 0,
    {
        Address { hi: 0, lo: 0 }
    }

    /// The address whose bytes are all zero but the last one.
    pub fn with_last_byte(b: u8) -> (r: Address)
        ensures
            r.hi == 0 && r.lo == b as u32,
    {
        Address { hi: 0, lo: b as u32 }
    }

    /// The address made of the given 20 bytes.
    pub fn from_bytes(bytes: [u8; 20]) -> (r: Address)
        ensures
            r.hi as nat == be_value(bytes@.subrange(0, 16)),
            r.lo as nat == be_value(bytes@.subrange(16, 20)),
    {
        let mut hi: u128 = 0;
        let mut i: usize = 0;
        while i < 16
            invariant
                0 <= i <= 16,
                bytes@.len() == 20,
                hi as nat == be_value(bytes@.subrange(0, i as int)),
                hi as nat == be_value(bytes@.subrange(0, i as int)),
                (hi as nat) < pow256(i as nat),
            decreases 16 - i,
        {
            proof {
                assert(bytes@.subrange(0, i + 1).drop_last() =~= bytes@.subrange(0, i as int));
                lemma_pow256_step(i as nat);
                assert(pow256(16) == 0x1_0000_0000_0000_0000_0000_0000_0000_0000nat) by { reveal_with_fuel(pow256, 17); }
                lemma_pow256_mono(i as nat + 1, 16);
                assert(hi as nat * 256 + bytes@[i as int] < pow256(i as nat + 1)) by (nonlinear_arith)
                    requires (hi as nat) < pow256(i as nat), pow256(i as nat + 1) == pow256(i as nat) * 256, bytes@[i as int] < 256;
            }
            hi = hi * 256 + bytes[i] as u128;
            i = i + 1;
        }
        let mut lo: u32 = 0;
        let mut j: usize = 16;
        while j < 20
            invariant
                16 <= j <= 20,
                bytes@.len() == 20,
                lo as nat == be_value(bytes@.subrange(16, j as int)),
                (lo as nat) < pow256((j - 16) as nat),
            decreases 20 - j,
        {
            proof {
                assert(bytes@.subrange(16, j + 1).drop_last() =~= bytes@.subrange(16, j as int));
                lemma_pow256_step((j - 16) as nat);
                assert(pow256(4) == 0x1_0000_0000nat) by { reveal_with_fuel(pow256, 5); }
                lemma_pow256_mono((j - 16) as nat + 1, 4);
                assert(lo as nat * 256 + bytes@[j as int] < pow256((j - 16) as nat + 1)) by (nonlinear_arith)
                    requires (lo as nat) < pow256((j - 16) as nat), pow256((j - 16) as nat + 1) == pow256((j - 16) as nat) * 256, bytes@[j as int] < 256;
            }
            lo = lo * 256 + bytes[j] as u32;
            j = j + 1;
        }
        Address { hi, lo }
    }
}

/// `256^n`.
pub open spec fn pow256(n: nat) -> nat
    decreases n,
{
    if n == 0 { 1 } else { pow256((n - 1) as nat) * 256 }
}

proof fn lemma_pow256_step(n: nat)
    ensures
        pow256(n + 1) == pow256(n) * 256,
{
}

proof fn lemma_pow256_mono(a: nat, b: nat)
    requires
        a <= b,
    ensures
        pow256(a) <= pow256(b),
    decreases b - a,
{
    if a < b {
        lemma_pow256_mono(a, (b - 1) as nat);
        lemma_pow256_pos((b - 1) as nat);
    }
}

proof fn lemma_pow256_pos(n: nat)
    ensures
        pow256(n) >= 1,
    decreases n,
{
    if n > 0 {
        lemma_pow256_pos((n - 1) as nat);
    }
}

/// A 32-byte hash (transaction hash), held as two 128-bit halves.
#[derive(Debug, Clone, Copy, PartialEq, Eq, Structural, Hash)]
pub struct TxHash {
    pub hi: u128,
    pub lo: u128,
}

impl TxHash {
    /// The all-zero hash.
    pub fn zero() -> (r: TxHash)
        ensures
            r.hi == 0 && r.lo == 0,
    {
        TxHash { hi: 0, lo: 0 }
    }
}

/// Lifecycle status of an order.
#[derive(Debug, Clone, Copy, PartialEq, Eq, Structural)]
pub enum OrderStatus {
    Active,
    Filled,
    Cancelled,
}

/// An order resting in, or submitted to, an orderbook.
#[derive(Debug, Clone, Copy, PartialEq, Eq, Structural)]
pub struct Order {
    pub id: u64,
    pub market_id: u32,
    pub owner: Address,
    pub is_buy: bool,
    /// Limit price (0 = market order).
    pub price: u64,
    pub original_size: u64,
    pub remaining_size: u64,
    pub status: OrderStatus,
    pub created_at: u64,
    pub reduce_only: bool,
    pub post_only: bool,
}

/// An isolated-margin position.
#[derive(Debug, Clone, Copy, PartialEq, Eq, Structural)]
pub struct Position {
    pub size: u64,
    pub entry_price: u64,
    pub is_long: bool,
    pub margin: u128,
    pub funding_index: i128,
}

/// Parameters of a perpetual market.
#[derive(Debug)]
pub struct Market {
    pub id: u32,
    pub symbol: String,
    pub base_asset_id: u32,
    pub quote_asset_id: u32,
    /// Prices must be multiples of the tick size.
    pub tick_size: u64,
    pub price_decimals: u8,
    pub size_decimals: u8,
    pub min_order_size: u64,
    pub max_order_size: u64,
    pub max_leverage: u32,
    pub initial_margin_bps: u32,
    pub maintenance_margin_bps: u32,
    pub liquidation_fee_bps: u32,
    pub funding_interval: u64,
    pub max_funding_rate_bps: u32,
}

impl Clone for Market {
    fn clone(&self) -> (r: Self)
        ensures
            r == *self,
    {
        Market {
            id: self.id,
            symbol: self.symbol.clone(),
            base_asset_id: self.base_asset_id,
            quote_asset_id: self.quote_asset_id,
            tick_size: self.tick_size,
            price_decimals: self.price_decimals,
            size_decimals: self.size_decimals,
            min_order_size: self.min_order_size,
            max_order_size: self.max_order_size,
            max_leverage: self.max_leverage,
            initial_margin_bps: self.initial_margin_bps,
            maintenance_margin_bps: self.maintenance_margin_bps,
            liquidation_fee_bps: self.liquidation_fee_bps,
            funding_interval: self.funding_interval,
            max_funding_rate_bps: self.max_funding_rate_bps,
        }
    }
}

/// Whether `price` lies on the tick grid of a market with the given tick size.
pub open spec fn on_tick(tick_size: u64, price: u64) -> bool {
    tick_size == 0 || price % tick_size == 0
}

/// `price` rounded to the nearest multiple of the tick size, halves rounding
/// up, unless that leaves the 64-bit range, in which case it rounds down.
pub open spec fn normalized_price(tick_size: u64, price: u64) -> u64 {
    if tick_size == 0 {
        price
    } else {
        let up = ((price + tick_size / 2) / (tick_size as int)) * tick_size;
        if up <= u64::MAX {
            up as u64
        } else {
            ((price / tick_size) * tick_size) as u64
        }
    }
}

impl Market {
    /// Whether a price lies on this market's tick grid.
    pub fn validate_price(&self, price: u64) -> (r: bool)
        ensures
            r == on_tick(self.tick_size, price),
    {
        self.tick_size == 0 || price % self.tick_size == 0
    }

    /// Round a price to the nearest tick.
    pub fn normalize_price(&self, price: u64) -> (r: u64)
        ensures
            r == normalized_price(self.tick_size, price),
    {
        if self.tick_size == 0 {
            return price;
        }
        let t = self.tick_size as u128;
        let q: u128 = ((price as u128) + t / 2) / t;
        proof {
            assert(q <= (price as int + t / 2) / (t as int));
            assert(q * t <= price as int + t / 2) by (nonlinear_arith)
                requires q == (price as int + t / 2) / (t as int), t > 0;
        }
        let up: u128 = q * t;
        if up <= u64::MAX as u128 {
            up as u64
        } else {
            let d = price / self.tick_size;
            proof {
                let ts = self.tick_size;
                assert(d * ts <= price) by (nonlinear_arith)
                    requires d == price / ts, ts > 0;
            }
            d * self.tick_size
        }
    }

    /// The tick index of a price (`price / tick_size`).
    pub fn price_to_tick(&self, price: u64) -> (r: u64)
        ensures
            self.tick_size == 0 ==> r == 0,
            self.tick_size > 0 ==> r == price / self.tick_size,
    {
        if self.tick_size == 0 { 0 } else { price / self.tick_size }
    }

    /// The price of a tick index (`tick * tick_size`).
    pub fn tick_to_price(&self, tick: u64) -> (r: u64)
        requires
            tick * self.tick_size <= u64::MAX,
        ensures
            r == tick * self.tick_size,
    {
        tick * self.tick_size
    }
}

/// A tradeable asset.
#[derive(Debug)]
pub struct Asset {
    pub id: u32,
    pub name: String,
    pub symbol: String,
    pub decimals: u8,
    /// Whether the asset can back positions and be transferred.
    pub is_collateral: bool,
    /// Share of the asset's value that counts as collateral (basis points).
    pub collateral_weight_bps: u32,
}

impl Clone for Asset {
    fn clone(&self) -> (r: Self)
        ensures
            r == *self,
    {
        Asset {
            id: self.id,
            name: self.name.clone(),
            symbol: self.symbol.clone(),
            decimals: self.decimals,
            is_collateral: self.is_collateral,
            collateral_weight_bps: self.collateral_weight_bps,
        }
    }
}

/// Funding state of a market.
#[derive(Debug, Clone, Copy, PartialEq, Eq, Structural)]
pub struct FundingRate {
    pub rate: i64,
    pub last_update: u64,
    /// Cumulative funding index.
    pub index: i128,
    pub mark_price: u64,
    pub oracle_price: u64,
}

impl FundingRate {
    /// The funding state of a market that has never been updated.
    pub fn initial() -> (r: FundingRate)
        ensures
            r.rate == 0 && r.last_update == 0 && r.index == 0 && r.mark_price == 0 && r.oracle_price == 0,
    {
        FundingRate { rate: 0, last_update: 0, index: 0, mark_price: 0, oracle_price: 0 }
    }
}

/// How an order is priced.
#[derive(Debug, Clone, Copy, PartialEq, Eq, Structural)]
pub enum OrderType {
    Market,
    Limit,
}

/// How long an unfilled order rests.
#[derive(Debug, Clone, Copy, PartialEq, Eq, Structural)]
pub enum TimeInForce {
    /// Good till cancelled.
    GTC,
    /// Immediate or cancel.
    IOC,
    /// Fill or kill.
    FOK,
    /// Post-only (rests like GTC).
    PostOnly,
}

/// Request to place an order.
#[derive(Debug, Clone, Copy, PartialEq, Eq, Structural)]
pub struct PlaceOrderTx {
    pub market_id: u32,
    pub is_buy: bool,
    pub order_type: OrderType,
    pub price: u64,
    pub size: u64,
    pub time_in_force: TimeInForce,
    pub reduce_only: bool,
    pub post_only: bool,
}

/// Request to cancel an order.
#[derive(Debug, Clone, Copy, PartialEq, Eq, Structural)]
pub struct CancelOrderTx {
    pub order_id: u64,
}

/// Request to close (part of) a position; size 0 closes all of it.
#[derive(Debug, Clone, Copy, PartialEq, Eq, Structural)]
pub struct ClosePositionTx {
    pub market_id: u32,
    pub size: u64,
}

/// Deposit into one's own balance.
#[derive(Debug, Clone, Copy, PartialEq, Eq, Structural)]
pub struct DepositTx {
    pub amount: u128,
    pub asset_id: u32,
}

/// Withdrawal from one's own balance.
#[derive(Debug, Clone, Copy, PartialEq, Eq, Structural)]
pub struct WithdrawTx {
    pub amount: u128,
    pub asset_id: u32,
    /// Where the funds go.
    pub to: Address,
}

/// Transfer to another account.
#[derive(Debug, Clone, Copy, PartialEq, Eq, Structural)]
pub struct TransferTx {
    pub to: Address,
    pub asset_id: u32,
    pub amount: u128,
}

/// Deposit credited by a bridge operator.
#[derive(Debug, Clone, Copy, PartialEq, Eq, Structural)]
pub struct BridgeDepositTx {
    pub user: Address,
    pub asset_id: u32,
    pub amount: u128,
    pub external_tx_hash: TxHash,
}

/// Withdrawal debited by a bridge operator.
#[derive(Debug, Clone, Copy, PartialEq, Eq, Structural)]
pub struct BridgeWithdrawTx {
    pub user: Address,
    pub asset_id: u32,
    pub amount: u128,
    pub destination: Address,
    pub external_tx_hash: TxHash,
}

/// Grant an agent permissions on one's account.
#[derive(Debug, Clone, Copy, PartialEq, Eq, Structural)]
pub struct SetAgentTx {
    pub agent: Address,
    pub permissions: u64,
}

/// Revoke an agent.
#[derive(Debug, Clone, Copy, PartialEq, Eq, Structural)]
pub struct RemoveAgentTx {
    pub agent: Address,
}

/// What a transaction asks the engine to do.
#[derive(Debug, Clone, Copy, PartialEq, Eq, Structural)]
pub enum TxPayload {
    Deposit(DepositTx),
    Withdraw(WithdrawTx),
    Transfer(TransferTx),
    PlaceOrder(PlaceOrderTx),
    CancelOrder(CancelOrderTx),
    ClosePosition(ClosePositionTx),
    BridgeDeposit(BridgeDepositTx),
    BridgeWithdraw(BridgeWithdrawTx),
    SetAgent(SetAgentTx),
    RemoveAgent(RemoveAgentTx),
}

/// A signed transaction of `from` with its `nonce`, identified by the hash
/// it was signed under.
#[derive(Debug, Clone, Copy, PartialEq, Eq, Structural)]
pub struct Transaction {
    pub nonce: u64,
    pub from: Address,
    pub payload: TxPayload,
    pub tx_hash: TxHash,
}

impl Transaction {
    /// The transaction's hash.
    pub fn hash(&self) -> (r: TxHash)
        ensures
            r == self.tx_hash,
    {
        self.tx_hash
    }
}

} // verus!
