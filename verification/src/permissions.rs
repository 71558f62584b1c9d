//! Permission bits that an account can grant an agent.
use vstd::prelude::*;

verus! {

/// Place orders.
pub const PLACE_ORDER: u64 = 1;
/// Cancel orders.
pub const CANCEL_ORDER: u64 = 2;
/// Modify orders.
pub const MODIFY_ORDER: u64 = 4;
/// Close positions.
pub const CLOSE_POSITION: u64 = 8;
/// Withdraw funds.
pub const WITHDRAW: u64 = 16;
/// Transfer funds.
pub const TRANSFER: u64 = 32;
/// Every permission.
pub const ALL: u64 = 0xffff_ffff_ffff_ffff;

} // verus!
