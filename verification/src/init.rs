//! Genesis set-up of the state: the default collateral assets and the
//! authorized bridge operators.
use vstd::prelude::*;
use crate::state::{StateManager, StateView};
use crate::types::{Address, Asset};

verus! {

/// Whether `a` is the default asset with id `id`: USDC (6 decimals, full
/// weight), USDT (6 decimals, 98%) or DAI (18 decimals, 95%), all collateral.
pub open spec fn is_default_asset(a: Asset, id: u32) -> bool {
    &&& a.id == id
    &&& a.is_collateral
    &&& id == 0 ==> a.symbol@ == "USDC"@ && a.name@ == "USD Coin"@ && a.decimals == 6 && a.collateral_weight_bps == 10000
    &&& id == 1 ==> a.symbol@ == "USDT"@ && a.name@ == "Tether USD"@ && a.decimals == 6 && a.collateral_weight_bps == 9800
    &&& id == 2 ==> a.symbol@ == "DAI"@ && a.name@ == "Dai Stablecoin"@ && a.decimals == 18 && a.collateral_weight_bps == 9500
}

fn asset(id: u32, symbol: &str, name: &str, decimals: u8, collateral_weight_bps: u32) -> (r: Asset)
    ensures
        r == (Asset { id, symbol: r.symbol, name: r.name, decimals, is_collateral: true, collateral_weight_bps }),
        r.symbol@ == symbol@,
        r.name@ == name@,
{
    Asset { id, symbol: symbol.to_owned(), name: name.to_owned(), decimals, is_collateral: true, collateral_weight_bps }
}

/// The default assets, ids 0, 1 and 2 in order.
pub fn default_assets() -> (r: Vec<Asset>)
    ensures
        r@.len() == 3,
        forall|i: int| 0 <= i < 3 ==> is_default_asset(#[trigger] r@[i], i as u32),
{
    let mut v: Vec<Asset> = Vec::new();
    v.push(asset(0, "USDC", "USD Coin", 6, 10000));
    v.push(asset(1, "USDT", "Tether USD", 6, 9800));
    v.push(asset(2, "DAI", "Dai Stablecoin", 18, 9500));
    v
}

/// Store the default assets.
pub fn initialize_default_assets(state: &mut StateManager)
    ensures
        final(state)@ == (StateView { assets: final(state)@.assets, ..old(state)@ }),
        final(state)@.assets.dom() == old(state)@.assets.dom().insert(0).insert(1).insert(2),
        forall|id: u32| id < 3 ==> is_default_asset(#[trigger] final(state)@.assets[id], id),
        forall|id: u32| id >= 3 && #[trigger] old(state)@.assets.contains_key(id) ==> final(state)@.assets[id] == old(state)@.assets[id],
{
    let assets = default_assets();
    let mut i: usize = 0;
    let ghost s0 = state@;
    while i < assets.len()
        invariant
            assets@.len() == 3,
            forall|k: int| 0 <= k < 3 ==> is_default_asset(#[trigger] assets@[k], k as u32),
            i <= 3,
            state@ == (StateView { assets: state@.assets, ..s0 }),
            state@.assets.dom() == s0.assets.dom().union(Set::new(|x: u32| x < i)),
            forall|id: u32| id < i ==> is_default_asset(#[trigger] state@.assets[id], id),
            forall|id: u32| id >= i && #[trigger] s0.assets.contains_key(id) ==> state@.assets[id] == s0.assets[id],
        decreases 3 - i,
    {
        let a = assets[i].clone();
        proof { assert(is_default_asset(assets@[i as int], i as u32)); }
        state.set_asset(i as u32, a);
        proof {
            assert(state@.assets.dom() =~= s0.assets.dom().union(Set::new(|x: u32| x < i + 1)));
        }
        i += 1;
    }
    proof {
        assert(state@.assets.dom() =~= s0.assets.dom().insert(0).insert(1).insert(2));
    }
}

/// Authorize each of `operators` as a bridge operator.
pub fn initialize_bridge_operators(state: &mut StateManager, operators: &[Address])
    ensures
        final(state)@ == (StateView { bridge_operators: old(state)@.bridge_operators + operators@.to_set(), ..old(state)@ }),
{
    let ghost s0 = state@;
    let mut i: usize = 0;
    proof {
        assert(operators@.take(0) =~= Seq::<Address>::empty());
        assert(s0.bridge_operators + operators@.take(0).to_set() =~= s0.bridge_operators);
    }
    while i < operators.len()
        invariant
            i <= operators@.len(),
            state@ == (StateView { bridge_operators: s0.bridge_operators + operators@.take(i as int).to_set(), ..s0 }),
        decreases operators@.len() - i,
    {
        state.add_bridge_operator(operators[i]);
        proof {
            let y = operators@[i as int];
            assert(operators@.take(i + 1) =~= operators@.take(i as int).push(y));
            operators@.take(i as int).lemma_push_to_set_commute(y);
            assert(s0.bridge_operators + operators@.take(i + 1).to_set()
                =~= (s0.bridge_operators + operators@.take(i as int).to_set()).insert(y));
        }
        i += 1;
    }
    proof { assert(operators@.take(i as int) =~= operators@); }
}

} // verus!
