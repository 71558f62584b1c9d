use vstd::prelude::*;

verus! {

/// Errors raised by the trading engine.
#[derive(Debug, Clone, Copy, PartialEq, Eq, Structural)]
pub enum EngineError {
    MarketNotFound,
    OrderNotFound,
    PositionNotFound,
    InsufficientBalance,
    InsufficientMargin,
    Unauthorized,
    InvalidOrderParams,
    OrderNotFilled,
    SelfTrade,
    PostOnlyWouldTake,
    ReduceOnlyWouldIncrease,
    LeverageTooHigh,
    WouldBeLiquidated,
    Overflow,
    DivisionByZero,
    /// A limit price that is not a multiple of the market's tick size.
    InvalidTickPrice { price: u64, tick_size: u64 },
    /// An order smaller than the market's minimum order size.
    OrderBelowMinimum { size: u64, min_size: u64 },
    /// An order larger than the market's maximum order size.
    OrderAboveMaximum { size: u64, max_size: u64 },
    /// A liquidation was requested at a zero mark price.
    ZeroMarkPrice,
    /// A transfer whose sender and recipient coincide.
    SelfTransfer,
    /// The referenced asset does not exist.
    AssetNotFound,
    /// The asset exists but cannot be transferred.
    AssetNotTransferable,
    /// A reduction was requested on a position of size zero.
    ZeroSizedPosition,
    /// Cross margin mode is not implemented.
    CrossMarginUnsupported,
}

} // verus!
