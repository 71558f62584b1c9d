//! Balance operations: deposits, withdrawals, transfers and bridge moves,
//! and agent bookkeeping events.
use vstd::prelude::*;
use crate::error::EngineError;
use crate::events::{BalanceChangeReason, Event, ServiceContext};
use crate::state::{StateManager, StateView};
use crate::types::{Address, BridgeDepositTx, BridgeWithdrawTx, DepositTx, RemoveAgentTx, SetAgentTx, TransferTx, WithdrawTx};

verus! {

/// Account service: balance operations.
#[derive(Debug, Clone, Copy, Default)]
pub struct AccountService;

/// Agent service: agent bookkeeping events.
#[derive(Debug, Clone, Copy, Default)]
pub struct AgentService;

/// The state after `address`'s balance of `asset_id` became `amount`.
pub open spec fn with_balance(s: StateView, address: Address, asset_id: u32, amount: u128) -> StateView {
    StateView { balances: s.balances.insert((address, asset_id), amount), ..s }
}

/// What a deposit of `from` does to state `s0` and events `c0`.
pub open spec fn deposit_outcome(s0: StateView, c0: Seq<Event>, from: Address, deposit: DepositTx, r: Result<(), EngineError>, s1: StateView, c1: Seq<Event>) -> bool {
    let b = s0.balance(from, deposit.asset_id);
    &&& b + deposit.amount > u128::MAX ==> r == Err::<(), EngineError>(EngineError::Overflow)
        && s1 == s0 && c1 == c0
    &&& b + deposit.amount <= u128::MAX ==> r is Ok
        && s1 == with_balance(s0, from, deposit.asset_id, (b + deposit.amount) as u128)
        && c1 == c0.push(Event::BalanceChanged { address: from, asset_id: deposit.asset_id,
            old_balance: b, new_balance: (b + deposit.amount) as u128, reason: BalanceChangeReason::Deposit })
}

/// What a withdrawal of `from` does.
pub open spec fn withdraw_outcome(s0: StateView, c0: Seq<Event>, from: Address, withdraw: WithdrawTx, r: Result<(), EngineError>, s1: StateView, c1: Seq<Event>) -> bool {
    let b = s0.balance(from, withdraw.asset_id);
    &&& b < withdraw.amount ==> r == Err::<(), EngineError>(EngineError::InsufficientBalance)
        && s1 == s0 && c1 == c0
    &&& b >= withdraw.amount ==> r is Ok
        && s1 == with_balance(s0, from, withdraw.asset_id, (b - withdraw.amount) as u128)
        && c1 == c0.push(Event::BalanceChanged { address: from, asset_id: withdraw.asset_id,
            old_balance: b, new_balance: (b - withdraw.amount) as u128, reason: BalanceChangeReason::Withdraw })
}

/// What a transfer from `from` does.
pub open spec fn transfer_outcome(s0: StateView, c0: Seq<Event>, from: Address, transfer: TransferTx, r: Result<(), EngineError>, s1: StateView, c1: Seq<Event>) -> bool {
    let s = s0;
    let a = transfer.asset_id;
    let sb = s.balance(from, a);
    &&& from == transfer.to ==> r == Err::<(), EngineError>(EngineError::SelfTransfer) && s1 == s && c1 == c0
    &&& from != transfer.to && s.asset(a) is None ==> r == Err::<(), EngineError>(EngineError::AssetNotFound)
        && s1 == s && c1 == c0
    &&& from != transfer.to && s.asset(a) is Some && !s.asset(a).unwrap().is_collateral
        ==> r == Err::<(), EngineError>(EngineError::AssetNotTransferable) && s1 == s && c1 == c0
    &&& from != transfer.to && s.asset(a) is Some && s.asset(a).unwrap().is_collateral && sb < transfer.amount
        ==> r == Err::<(), EngineError>(EngineError::InsufficientBalance) && s1 == s && c1 == c0
    &&& from != transfer.to && s.asset(a) is Some && s.asset(a).unwrap().is_collateral && sb >= transfer.amount ==> {
        let debited = with_balance(s, from, a, (sb - transfer.amount) as u128);
        let rb = s.balance(transfer.to, a);
        &&& rb + transfer.amount > u128::MAX ==> r == Err::<(), EngineError>(EngineError::Overflow)
            && s1 == debited && c1 == c0
        &&& rb + transfer.amount <= u128::MAX ==> r is Ok
            && s1 == with_balance(debited, transfer.to, a, (rb + transfer.amount) as u128)
            && c1 == c0.push(Event::Transfer { from, to: transfer.to, asset_id: a, amount: transfer.amount })
    }
}

/// What a bridge deposit by `operator` does.
pub open spec fn bridge_deposit_outcome(s0: StateView, c0: Seq<Event>, operator: Address, deposit: BridgeDepositTx, r: Result<(), EngineError>, s1: StateView, c1: Seq<Event>) -> bool {
    let s = s0;
    let b = s.balance(deposit.user, deposit.asset_id);
    &&& !s.bridge_operators.contains(operator) ==> r == Err::<(), EngineError>(EngineError::Unauthorized)
        && s1 == s && c1 == c0
    &&& s.bridge_operators.contains(operator) && s.asset(deposit.asset_id) is None
        ==> r == Err::<(), EngineError>(EngineError::AssetNotFound) && s1 == s && c1 == c0
    &&& s.bridge_operators.contains(operator) && s.asset(deposit.asset_id) is Some && b + deposit.amount > u128::MAX
        ==> r == Err::<(), EngineError>(EngineError::Overflow) && s1 == s && c1 == c0
    &&& s.bridge_operators.contains(operator) && s.asset(deposit.asset_id) is Some && b + deposit.amount <= u128::MAX
        ==> r is Ok && s1 == with_balance(s, deposit.user, deposit.asset_id, (b + deposit.amount) as u128)
        && c1 == c0.push(Event::BridgeDeposit { operator, user: deposit.user, asset_id: deposit.asset_id,
            amount: deposit.amount, external_tx_hash: deposit.external_tx_hash })
}

/// What a bridge withdrawal by `operator` does.
pub open spec fn bridge_withdraw_outcome(s0: StateView, c0: Seq<Event>, operator: Address, withdraw: BridgeWithdrawTx, r: Result<(), EngineError>, s1: StateView, c1: Seq<Event>) -> bool {
    let s = s0;
    let b = s.balance(withdraw.user, withdraw.asset_id);
    &&& !s.bridge_operators.contains(operator) ==> r == Err::<(), EngineError>(EngineError::Unauthorized)
        && s1 == s && c1 == c0
    &&& s.bridge_operators.contains(operator) && s.asset(withdraw.asset_id) is None
        ==> r == Err::<(), EngineError>(EngineError::AssetNotFound) && s1 == s && c1 == c0
    &&& s.bridge_operators.contains(operator) && s.asset(withdraw.asset_id) is Some && b < withdraw.amount
        ==> r == Err::<(), EngineError>(EngineError::InsufficientBalance) && s1 == s && c1 == c0
    &&& s.bridge_operators.contains(operator) && s.asset(withdraw.asset_id) is Some && b >= withdraw.amount
        ==> r is Ok && s1 == with_balance(s, withdraw.user, withdraw.asset_id, (b - withdraw.amount) as u128)
        && c1 == c0.push(Event::BridgeWithdraw { operator, user: withdraw.user, asset_id: withdraw.asset_id,
            amount: withdraw.amount, destination: withdraw.destination, external_tx_hash: withdraw.external_tx_hash })
}

/// What granting an agent records.
pub open spec fn set_agent_outcome(c0: Seq<Event>, account: Address, set_agent: SetAgentTx, r: Result<(), EngineError>, c1: Seq<Event>) -> bool {
    &&& (r is Ok)
    &&& (c1 == c0.push(Event::AgentSet { account, agent: set_agent.agent, permissions: set_agent.permissions }))
}

/// What revoking an agent records.
pub open spec fn remove_agent_outcome(c0: Seq<Event>, account: Address, remove_agent: RemoveAgentTx, r: Result<(), EngineError>, c1: Seq<Event>) -> bool {
    &&& (r is Ok)
    &&& (c1 == c0.push(Event::AgentRemoved { account, agent: remove_agent.agent }))
}

impl AccountService {
    /// Credit or debit a balance and record the change.
    fn update_balance(
        state: &mut StateManager,
        ctx: &mut ServiceContext,
        address: Address,
        asset_id: u32,
        amount: u128,
        is_credit: bool,
        reason: BalanceChangeReason,
    ) -> (r: Result<(), EngineError>)
        ensures
            ({
                let b = old(state)@.balance(address, asset_id);
                &&& is_credit && b + amount > u128::MAX ==> r == Err::<(), EngineError>(EngineError::Overflow)
                    && final(state)@ == old(state)@ && final(ctx)@ == old(ctx)@
                &&& !is_credit && b < amount ==> r == Err::<(), EngineError>(EngineError::InsufficientBalance)
                    && final(state)@ == old(state)@ && final(ctx)@ == old(ctx)@
                &&& (is_credit && b + amount <= u128::MAX) || (!is_credit && b >= amount) ==> {
                    let nb = if is_credit { (b + amount) as u128 } else { (b - amount) as u128 };
                    &&& r is Ok
                    &&& final(state)@ == with_balance(old(state)@, address, asset_id, nb)
                    &&& final(ctx)@ == old(ctx)@.push(Event::BalanceChanged {
                        address, asset_id, old_balance: b, new_balance: nb, reason })
                }
            }),
    {
        let old_balance = state.get_balance(address, asset_id);
        let new_balance = if is_credit {
            match old_balance.checked_add(amount) {
                Some(v) => v,
                None => { return Err(EngineError::Overflow); },
            }
        } else {
            if old_balance < amount {
                return Err(EngineError::InsufficientBalance);
            }
            old_balance - amount
        };
        state.set_balance(address, asset_id, new_balance);
        ctx.emit(Event::BalanceChanged { address, asset_id, old_balance, new_balance, reason });
        Ok(())
    }

    /// Deposit into the sender's own balance.
    pub fn deposit(&self, state: &mut StateManager, ctx: &mut ServiceContext, from: Address, deposit: &DepositTx) -> (r: Result<(), EngineError>)
        ensures
            deposit_outcome(old(state)@, old(ctx)@, from, *deposit, r, final(state)@, final(ctx)@),
    {
        Self::update_balance(state, ctx, from, deposit.asset_id, deposit.amount, true, BalanceChangeReason::Deposit)
    }

    /// Withdraw from the sender's own balance.
    pub fn withdraw(&self, state: &mut StateManager, ctx: &mut ServiceContext, from: Address, withdraw: &WithdrawTx) -> (r: Result<(), EngineError>)
        ensures
            withdraw_outcome(old(state)@, old(ctx)@, from, *withdraw, r, final(state)@, final(ctx)@),
    {
        Self::update_balance(state, ctx, from, withdraw.asset_id, withdraw.amount, false, BalanceChangeReason::Withdraw)
    }

    /// Transfer a collateral asset from the sender to another account.
    pub fn transfer(&self, state: &mut StateManager, ctx: &mut ServiceContext, from: Address, transfer: &TransferTx) -> (r: Result<(), EngineError>)
        ensures
            transfer_outcome(old(state)@, old(ctx)@, from, *transfer, r, final(state)@, final(ctx)@),
    {
        if from == transfer.to {
            return Err(EngineError::SelfTransfer);
        }
        let asset = match state.get_asset(transfer.asset_id) {
            Some(x) => x,
            None => { return Err(EngineError::AssetNotFound); },
        };
        if !asset.is_collateral {
            return Err(EngineError::AssetNotTransferable);
        }
        let sender_balance = state.get_balance(from, transfer.asset_id);
        if sender_balance < transfer.amount {
            return Err(EngineError::InsufficientBalance);
        }
        state.set_balance(from, transfer.asset_id, sender_balance - transfer.amount);
        let recipient_balance = state.get_balance(transfer.to, transfer.asset_id);
        let new_recipient_balance = match recipient_balance.checked_add(transfer.amount) {
            Some(v) => v,
            None => { return Err(EngineError::Overflow); },
        };
        state.set_balance(transfer.to, transfer.asset_id, new_recipient_balance);
        ctx.emit(Event::Transfer { from, to: transfer.to, asset_id: transfer.asset_id, amount: transfer.amount });
        Ok(())
    }

    /// Credit a user on behalf of a bridge operator.
    pub fn bridge_deposit(&self, state: &mut StateManager, ctx: &mut ServiceContext, operator: Address, deposit: &BridgeDepositTx) -> (r: Result<(), EngineError>)
        ensures
            bridge_deposit_outcome(old(state)@, old(ctx)@, operator, *deposit, r, final(state)@, final(ctx)@),
    {
        if !state.is_bridge_operator(operator) {
            return Err(EngineError::Unauthorized);
        }
        if state.get_asset(deposit.asset_id).is_none() {
            return Err(EngineError::AssetNotFound);
        }
        let old_balance = state.get_balance(deposit.user, deposit.asset_id);
        let new_balance = match old_balance.checked_add(deposit.amount) {
            Some(v) => v,
            None => { return Err(EngineError::Overflow); },
        };
        state.set_balance(deposit.user, deposit.asset_id, new_balance);
        ctx.emit(Event::BridgeDeposit {
            operator,
            user: deposit.user,
            asset_id: deposit.asset_id,
            amount: deposit.amount,
            external_tx_hash: deposit.external_tx_hash,
        });
        Ok(())
    }

    /// Debit a user on behalf of a bridge operator.
    pub fn bridge_withdraw(&self, state: &mut StateManager, ctx: &mut ServiceContext, operator: Address, withdraw: &BridgeWithdrawTx) -> (r: Result<(), EngineError>)
        ensures
            bridge_withdraw_outcome(old(state)@, old(ctx)@, operator, *withdraw, r, final(state)@, final(ctx)@),
    {
        if !state.is_bridge_operator(operator) {
            return Err(EngineError::Unauthorized);
        }
        if state.get_asset(withdraw.asset_id).is_none() {
            return Err(EngineError::AssetNotFound);
        }
        let old_balance = state.get_balance(withdraw.user, withdraw.asset_id);
        if old_balance < withdraw.amount {
            return Err(EngineError::InsufficientBalance);
        }
        state.set_balance(withdraw.user, withdraw.asset_id, old_balance - withdraw.amount);
        ctx.emit(Event::BridgeWithdraw {
            operator,
            user: withdraw.user,
            asset_id: withdraw.asset_id,
            amount: withdraw.amount,
            destination: withdraw.destination,
            external_tx_hash: withdraw.external_tx_hash,
        });
        Ok(())
    }
}

impl AgentService {
    /// Record that `account` granted `set_agent.agent` its permissions.
    pub fn set_agent(&self, ctx: &mut ServiceContext, account: Address, set_agent: &SetAgentTx) -> (r: Result<(), EngineError>)
        ensures
            set_agent_outcome(old(ctx)@, account, *set_agent, r, final(ctx)@),
    {
        ctx.emit(Event::AgentSet { account, agent: set_agent.agent, permissions: set_agent.permissions });
        Ok(())
    }

    /// Record that `account` revoked `remove_agent.agent`.
    pub fn remove_agent(&self, ctx: &mut ServiceContext, account: Address, remove_agent: &RemoveAgentTx) -> (r: Result<(), EngineError>)
        ensures
            remove_agent_outcome(old(ctx)@, account, *remove_agent, r, final(ctx)@),
    {
        ctx.emit(Event::AgentRemoved { account, agent: remove_agent.agent });
        Ok(())
    }
}

} // verus!
