//! In-memory account and market state: balances, positions, orders, the
//! active-order index, markets, assets, bridge operators, nonces and funding.
use vstd::prelude::*;
use crate::error::EngineError;
use crate::table::{keys_unique, has_key, key_index, table_map, table_keys, lemma_key_index, lemma_table_update, lemma_table_push, lemma_table_remove, lemma_table_empty};
use crate::types::{Address, Asset, FundingRate, Market, Order, Position};

verus! {

/// The mathematical content of a [`StateManager`].
pub struct StateView {
    pub balances: Map<(Address, u32), u128>,
    pub positions: Map<(Address, u32), Position>,
    pub orders: Map<u64, Order>,
    /// Active orders as `(market_id, order_id)` pairs, in insertion order.
    pub active_orders: Seq<(u32, u64)>,
    pub markets: Map<u32, Market>,
    /// Market ids in the order the markets were first stored.
    pub market_ids: Seq<u32>,
    pub assets: Map<u32, Asset>,
    pub bridge_operators: Set<Address>,
    pub nonces: Map<Address, u64>,
    pub funding_rates: Map<u32, FundingRate>,
    pub next_order_id: u64,
    pub version: u64,
}

/// Order ids that are active in market `m`, in insertion order.
pub open spec fn active_ids_in(s: Seq<(u32, u64)>, m: u32) -> Seq<u64>
    decreases s.len(),
{
    if s.len() == 0 {
        Seq::empty()
    } else {
        let rest = active_ids_in(s.drop_last(), m);
        if s.last().0 == m { rest.push(s.last().1) } else { rest }
    }
}

impl StateView {
    /// Balance of `(owner, asset)`; zero when never set.
    pub open spec fn balance(self, owner: Address, asset_id: u32) -> u128 {
        if self.balances.contains_key((owner, asset_id)) { self.balances[(owner, asset_id)] } else { 0 }
    }

    /// Position of `trader` in `market_id`, if any.
    pub open spec fn position(self, trader: Address, market_id: u32) -> Option<Position> {
        if self.positions.contains_key((trader, market_id)) {
            Some(self.positions[(trader, market_id)])
        } else {
            None
        }
    }

    /// Stored order with id `id`, if any.
    pub open spec fn order(self, id: u64) -> Option<Order> {
        if self.orders.contains_key(id) { Some(self.orders[id]) } else { None }
    }

    /// Market with id `id`, if any.
    pub open spec fn market(self, id: u32) -> Option<Market> {
        if self.markets.contains_key(id) { Some(self.markets[id]) } else { None }
    }

    /// Asset with id `id`, if any.
    pub open spec fn asset(self, id: u32) -> Option<Asset> {
        if self.assets.contains_key(id) { Some(self.assets[id]) } else { None }
    }

    /// Next expected nonce of `a`; zero when never set.
    pub open spec fn nonce(self, a: Address) -> u64 {
        if self.nonces.contains_key(a) { self.nonces[a] } else { 0 }
    }

    /// Funding state of market `m`; the initial state when never set.
    pub open spec fn funding(self, m: u32) -> FundingRate {
        if self.funding_rates.contains_key(m) {
            self.funding_rates[m]
        } else {
            FundingRate { rate: 0, last_update: 0, index: 0, mark_price: 0, oracle_price: 0 }
        }
    }

    /// Active order ids of market `m`, in insertion order.
    pub open spec fn active_ids(self, m: u32) -> Seq<u64> {
        active_ids_in(self.active_orders, m)
    }
}

/// Exchange state held in memory.
pub struct StateManager {
    balances: Vec<((Address, u32), u128)>,
    positions: Vec<((Address, u32), Position)>,
    orders: Vec<(u64, Order)>,
    active_orders: Vec<(u32, u64)>,
    markets: Vec<(u32, Market)>,
    assets: Vec<(u32, Asset)>,
    bridge_operators: Vec<Address>,
    nonces: Vec<(Address, u64)>,
    funding_rates: Vec<(u32, FundingRate)>,
    next_order_id: u64,
    version: u64,
}

impl View for StateManager {
    type V = StateView;

    closed spec fn view(&self) -> StateView {
        StateView {
            balances: table_map(self.balances@),
            positions: table_map(self.positions@),
            orders: table_map(self.orders@),
            active_orders: self.active_orders@,
            markets: table_map(self.markets@),
            market_ids: table_keys(self.markets@),
            assets: table_map(self.assets@),
            bridge_operators: self.bridge_operators@.to_set(),
            nonces: table_map(self.nonces@),
            funding_rates: table_map(self.funding_rates@),
            next_order_id: self.next_order_id,
            version: self.version,
        }
    }
}

/// Whether `ps` lists every position of market `m` in `s`, each once, as
/// `(trader, position)`.
pub open spec fn lists_market_positions(s: StateView, m: u32, ps: Seq<(Address, Position)>) -> bool {
    &&& forall|i: int| 0 <= i < ps.len() ==> s.position(#[trigger] ps[i].0, m) == Some(ps[i].1)
    &&& forall|t: Address| #[trigger] s.positions.contains_key((t, m))
        ==> exists|i: int| 0 <= i < ps.len() && ps[i].0 == t
    &&& forall|i: int, j: int| 0 <= i < ps.len() && 0 <= j < ps.len() && i != j ==> ps[i].0 != ps[j].0
}

/// No pair occurs twice.
pub open spec fn pairs_unique(s: Seq<(u32, u64)>) -> bool {
    forall|i: int, j: int| 0 <= i < s.len() && 0 <= j < s.len() && i != j ==> s[i] != s[j]
}

/// Ids listed for a market come from pairs of that market.
pub proof fn lemma_active_ids_member(s: Seq<(u32, u64)>, m: u32, x: u64)
    requires
        active_ids_in(s, m).contains(x),
    ensures
        s.contains((m, x)),
    decreases s.len(),
{
    if s.len() > 0 {
        let rest = active_ids_in(s.drop_last(), m);
        if rest.contains(x) {
            lemma_active_ids_member(s.drop_last(), m, x);
            let j = choose|j: int| 0 <= j < s.drop_last().len() && s.drop_last()[j] == (m, x);
            assert(s[j] == (m, x));
        } else {
            assert(s.last() == (m, x));
            assert(s[s.len() - 1] == (m, x));
        }
    }
}

/// With distinct pairs, the ids listed for a market are distinct.
pub proof fn lemma_active_ids_unique(s: Seq<(u32, u64)>, m: u32)
    requires
        pairs_unique(s),
    ensures
        active_ids_in(s, m).no_duplicates(),
        forall|x: u64| #[trigger] active_ids_in(s, m).contains(x) ==> s.contains((m, x)),
    decreases s.len(),
{
    assert forall|x: u64| #[trigger] active_ids_in(s, m).contains(x) implies s.contains((m, x)) by {
        lemma_active_ids_member(s, m, x);
    }
    if s.len() > 0 {
        let d = s.drop_last();
        assert(pairs_unique(d)) by {
            assert forall|i: int, j: int| 0 <= i < d.len() && 0 <= j < d.len() && i != j implies d[i] != d[j] by {
                assert(d[i] == s[i] && d[j] == s[j]);
            }
        }
        lemma_active_ids_unique(d, m);
        let rest = active_ids_in(d, m);
        if s.last().0 == m {
            if rest.contains(s.last().1) {
                lemma_active_ids_member(d, m, s.last().1);
                let j = choose|j: int| 0 <= j < d.len() && d[j] == (m, s.last().1);
                assert(s[j] == s[s.len() - 1]);
            }
            assert(rest.push(s.last().1).no_duplicates()) by {
                let t = rest.push(s.last().1);
                assert forall|i: int, j: int| 0 <= i < t.len() && 0 <= j < t.len() && i != j implies t[i] != t[j] by {
                    if i == t.len() - 1 { assert(rest.contains(t[j]) || j == t.len() - 1); }
                    if j == t.len() - 1 { assert(rest.contains(t[i]) || i == t.len() - 1); }
                    if i < rest.len() && j < rest.len() { assert(t[i] == rest[i] && t[j] == rest[j]); }
                }
            }
        }
    }
}

impl StateManager {
    /// Active-order pairs and market ids each occur once.
    pub(crate) fn index_facts(&self)
        ensures
            pairs_unique(self@.active_orders),
            self@.market_ids.no_duplicates(),
    {
        proof { use_type_invariant(self); }
        assert forall|i: int, j: int| 0 <= i < self@.market_ids.len() && 0 <= j < self@.market_ids.len() && i != j
            implies self@.market_ids[i] != self@.market_ids[j] by {
            assert(self@.market_ids[i] == self.markets@[i].0);
            assert(self@.market_ids[j] == self.markets@[j].0);
        }
    }

    #[verifier::type_invariant]
    spec fn inv(self) -> bool {
        &&& keys_unique(self.balances@)
        &&& keys_unique(self.positions@)
        &&& keys_unique(self.orders@)
        &&& pairs_unique(self.active_orders@)
        &&& keys_unique(self.markets@)
        &&& keys_unique(self.assets@)
        &&& keys_unique(self.nonces@)
        &&& keys_unique(self.funding_rates@)
    }

    /// An empty state.
    pub fn new() -> (r: StateManager)
        ensures
            r@.balances == Map::<(Address, u32), u128>::empty(),
            r@.positions == Map::<(Address, u32), Position>::empty(),
            r@.orders == Map::<u64, Order>::empty(),
            r@.active_orders == Seq::<(u32, u64)>::empty(),
            r@.markets == Map::<u32, Market>::empty(),
            r@.market_ids == Seq::<u32>::empty(),
            r@.assets == Map::<u32, Asset>::empty(),
            r@.bridge_operators == Set::<Address>::empty(),
            r@.nonces == Map::<Address, u64>::empty(),
            r@.funding_rates == Map::<u32, FundingRate>::empty(),
            r@.next_order_id == 1,
            r@.version == 0,
    {
        let r = StateManager {
            balances: Vec::new(),
            positions: Vec::new(),
            orders: Vec::new(),
            active_orders: Vec::new(),
            markets: Vec::new(),
            assets: Vec::new(),
            bridge_operators: Vec::new(),
            nonces: Vec::new(),
            funding_rates: Vec::new(),
            next_order_id: 1,
            version: 0,
        };
        proof {
            lemma_table_empty(r.balances@);
            lemma_table_empty(r.positions@);
            lemma_table_empty(r.orders@);
            lemma_table_empty(r.markets@);
            lemma_table_empty(r.assets@);
            lemma_table_empty(r.nonces@);
            lemma_table_empty(r.funding_rates@);
            assert(r.bridge_operators@.to_set() =~= Set::<Address>::empty());
        }
        r
    }

    // ------------------------------------------------------------------
    // Balances
    // ------------------------------------------------------------------

    fn find_balance(&self, owner: Address, asset_id: u32) -> (r: Option<usize>)
        ensures
            r matches Some(i) ==> i < self.balances@.len() && self.balances@[i as int].0 == (owner, asset_id),
            r is None ==> !has_key(self.balances@, (owner, asset_id)),
    {
        let mut i: usize = 0;
        while i < self.balances.len()
            invariant
                i <= self.balances@.len(),
                forall|j: int| 0 <= j < i ==> self.balances@[j].0 != (owner, asset_id),
            decreases self.balances@.len() - i,
        {
            if self.balances[i].0.0 == owner && self.balances[i].0.1 == asset_id {
                return Some(i);
            }
            i += 1;
        }
        None
    }

    /// Balance of `owner` in `asset_id` (zero when never set).
    pub fn get_balance(&self, owner: Address, asset_id: u32) -> (r: u128)
        ensures
            r == self@.balance(owner, asset_id),
    {
        proof { use_type_invariant(self); }
        match self.find_balance(owner, asset_id) {
            Some(i) => {
                proof { lemma_key_index(self.balances@, i as int); }
                self.balances[i].1
            },
            None => 0,
        }
    }

    /// Set the balance of `owner` in `asset_id`.
    pub fn set_balance(&mut self, owner: Address, asset_id: u32, amount: u128)
        ensures
            final(self)@ == (StateView { balances: old(self)@.balances.insert((owner, asset_id), amount), ..old(self)@ }),
    {
        proof { use_type_invariant(&*self); }
        let found = self.find_balance(owner, asset_id);
        let mut t: Vec<((Address, u32), u128)> = Vec::new();
        std::mem::swap(&mut t, &mut self.balances);
        match found {
            Some(i) => {
                proof { lemma_table_update(t@, i as int, amount); }
                t.set(i, ((owner, asset_id), amount));
            },
            None => {
                proof { lemma_table_push(t@, (owner, asset_id), amount); }
                t.push(((owner, asset_id), amount));
            },
        }
        self.balances = t;
    }

    // ------------------------------------------------------------------
    // Positions
    // ------------------------------------------------------------------

    fn find_position(&self, trader: Address, market_id: u32) -> (r: Option<usize>)
        ensures
            r matches Some(i) ==> i < self.positions@.len() && self.positions@[i as int].0 == (trader, market_id),
            r is None ==> !has_key(self.positions@, (trader, market_id)),
    {
        let mut i: usize = 0;
        while i < self.positions.len()
            invariant
                i <= self.positions@.len(),
                forall|j: int| 0 <= j < i ==> self.positions@[j].0 != (trader, market_id),
            decreases self.positions@.len() - i,
        {
            if self.positions[i].0.0 == trader && self.positions[i].0.1 == market_id {
                return Some(i);
            }
            i += 1;
        }
        None
    }

    /// Position of `trader` in `market_id`, if any.
    pub fn get_position(&self, trader: Address, market_id: u32) -> (r: Option<Position>)
        ensures
            r == self@.position(trader, market_id),
    {
        proof { use_type_invariant(self); }
        match self.find_position(trader, market_id) {
            Some(i) => {
                proof { lemma_key_index(self.positions@, i as int); }
                Some(self.positions[i].1)
            },
            None => None,
        }
    }

    /// Store the position of `trader` in `market_id`.
    pub fn set_position(&mut self, trader: Address, market_id: u32, position: Position)
        ensures
            final(self)@ == (StateView { positions: old(self)@.positions.insert((trader, market_id), position), ..old(self)@ }),
    {
        proof { use_type_invariant(&*self); }
        let found = self.find_position(trader, market_id);
        let mut t: Vec<((Address, u32), Position)> = Vec::new();
        std::mem::swap(&mut t, &mut self.positions);
        match found {
            Some(i) => {
                proof { lemma_table_update(t@, i as int, position); }
                t.set(i, ((trader, market_id), position));
            },
            None => {
                proof { lemma_table_push(t@, (trader, market_id), position); }
                t.push(((trader, market_id), position));
            },
        }
        self.positions = t;
    }

    /// Remove the position of `trader` in `market_id` (if any).
    pub fn delete_position(&mut self, trader: Address, market_id: u32)
        ensures
            final(self)@ == (StateView { positions: old(self)@.positions.remove((trader, market_id)), ..old(self)@ }),
    {
        proof { use_type_invariant(&*self); }
        let found = self.find_position(trader, market_id);
        match found {
            Some(i) => {
                let mut t: Vec<((Address, u32), Position)> = Vec::new();
                std::mem::swap(&mut t, &mut self.positions);
                proof { lemma_table_remove(t@, i as int); }
                t.remove(i);
                self.positions = t;
            },
            None => {
                proof {
                    assert(table_map(self.positions@).remove((trader, market_id)) =~= table_map(self.positions@));
                }
            },
        }
    }

    /// All positions held in `market_id`, one entry per trader.
    pub fn get_all_positions_in_market(&self, market_id: u32) -> (r: Vec<(Address, Position)>)
        ensures
            lists_market_positions(self@, market_id, r@),
    {
        proof { use_type_invariant(self); }
        let mut r: Vec<(Address, Position)> = Vec::new();
        let mut i: usize = 0;
        while i < self.positions.len()
            invariant
                i <= self.positions@.len(),
                keys_unique(self.positions@),
                forall|k: int| #![trigger r@[k]] 0 <= k < r@.len() ==> exists|j: int| 0 <= j < i && #[trigger] self.positions@[j] == ((r@[k].0, market_id), r@[k].1),
                forall|j: int| 0 <= j < i && (#[trigger] self.positions@[j]).0.1 == market_id
                    ==> exists|k: int| 0 <= k < r@.len() && r@[k].0 == self.positions@[j].0.0,
                forall|a: int, b: int| 0 <= a < r@.len() && 0 <= b < r@.len() && a != b ==> r@[a].0 != r@[b].0,
            decreases self.positions@.len() - i,
        {
            let e = self.positions[i];
            let ghost r0 = r@;
            if e.0.1 == market_id {
                proof {
                    assert forall|k: int| 0 <= k < r@.len() implies r@[k].0 != e.0.0 by {
                        let j = choose|j: int| 0 <= j < i && #[trigger] self.positions@[j] == ((r@[k].0, market_id), r@[k].1);
                        assert(j != i);
                    }
                }
                r.push((e.0.0, e.1));
                proof {
                    assert(self.positions@[i as int] == ((r@[r@.len() - 1].0, market_id), r@[r@.len() - 1].1));
                }
            }
            proof {
                assert forall|j: int| 0 <= j < i + 1 && (#[trigger] self.positions@[j]).0.1 == market_id
                    implies exists|k: int| 0 <= k < r@.len() && r@[k].0 == self.positions@[j].0.0 by {
                    if j < i {
                        let k = choose|k: int| 0 <= k < r0.len() && r0[k].0 == self.positions@[j].0.0;
                        assert(r@[k] == r0[k]);
                    } else {
                        assert(r@[r@.len() - 1].0 == self.positions@[j].0.0);
                    }
                }
            }
            i += 1;
        }
        proof {
            assert forall|k: int| 0 <= k < r@.len() implies self@.position(#[trigger] r@[k].0, market_id) == Some(r@[k].1) by {
                let j = choose|j: int| 0 <= j < self.positions@.len() && #[trigger] self.positions@[j] == ((r@[k].0, market_id), r@[k].1);
                lemma_key_index(self.positions@, j);
            }
            assert forall|t: Address| #[trigger] self@.positions.contains_key((t, market_id))
                implies exists|k: int| 0 <= k < r@.len() && r@[k].0 == t by {
                let j = key_index(self.positions@, (t, market_id));
                assert(self.positions@[j].0.1 == market_id);
            }
        }
        r
    }

    // ------------------------------------------------------------------
    // Orders
    // ------------------------------------------------------------------

    fn find_order(&self, id: u64) -> (r: Option<usize>)
        ensures
            r matches Some(i) ==> i < self.orders@.len() && self.orders@[i as int].0 == id,
            r is None ==> !has_key(self.orders@, id),
    {
        let mut i: usize = 0;
        while i < self.orders.len()
            invariant
                i <= self.orders@.len(),
                forall|j: int| 0 <= j < i ==> self.orders@[j].0 != id,
            decreases self.orders@.len() - i,
        {
            if self.orders[i].0 == id {
                return Some(i);
            }
            i += 1;
        }
        None
    }

    /// Stored order with id `id`, if any.
    pub fn get_order(&self, id: u64) -> (r: Option<Order>)
        ensures
            r == self@.order(id),
    {
        proof { use_type_invariant(self); }
        match self.find_order(id) {
            Some(i) => {
                proof { lemma_key_index(self.orders@, i as int); }
                Some(self.orders[i].1)
            },
            None => None,
        }
    }

    /// Store an order under `id`.
    pub fn set_order(&mut self, id: u64, order: Order)
        ensures
            final(self)@ == (StateView { orders: old(self)@.orders.insert(id, order), ..old(self)@ }),
    {
        proof { use_type_invariant(&*self); }
        let found = self.find_order(id);
        let mut t: Vec<(u64, Order)> = Vec::new();
        std::mem::swap(&mut t, &mut self.orders);
        match found {
            Some(i) => {
                proof { lemma_table_update(t@, i as int, order); }
                t.set(i, (id, order));
            },
            None => {
                proof { lemma_table_push(t@, id, order); }
                t.push((id, order));
            },
        }
        self.orders = t;
    }

    /// Hand out the next order id and advance the counter.
    pub fn next_order_id(&mut self) -> (r: Result<u64, EngineError>)
        ensures
            old(self)@.next_order_id == u64::MAX ==> r == Err::<u64, EngineError>(EngineError::Overflow) && final(self)@ == old(self)@,
            old(self)@.next_order_id < u64::MAX ==> r == Ok::<u64, EngineError>(old(self)@.next_order_id)
                && final(self)@ == (StateView { next_order_id: (old(self)@.next_order_id + 1) as u64, ..old(self)@ }),
    {
        proof { use_type_invariant(&*self); }
        if self.next_order_id == u64::MAX {
            return Err(EngineError::Overflow);
        }
        let id = self.next_order_id;
        self.next_order_id = id + 1;
        Ok(id)
    }

    /// Current state version.
    pub fn version(&self) -> (r: u64)
        ensures
            r == self@.version,
    {
        self.version
    }

    // ------------------------------------------------------------------
    // Active orders
    // ------------------------------------------------------------------

    fn find_active(&self, market_id: u32, order_id: u64) -> (r: Option<usize>)
        ensures
            r matches Some(i) ==> i < self.active_orders@.len() && self.active_orders@[i as int] == (market_id, order_id),
            r is None ==> !self.active_orders@.contains((market_id, order_id)),
    {
        let mut i: usize = 0;
        while i < self.active_orders.len()
            invariant
                i <= self.active_orders@.len(),
                forall|j: int| 0 <= j < i ==> self.active_orders@[j] != (market_id, order_id),
            decreases self.active_orders@.len() - i,
        {
            if self.active_orders[i].0 == market_id && self.active_orders[i].1 == order_id {
                return Some(i);
            }
            i += 1;
        }
        None
    }

    /// Record `order_id` as active in `market_id` (no effect if it already is).
    pub fn add_active_order(&mut self, market_id: u32, order_id: u64)
        ensures
            old(self)@.active_orders.contains((market_id, order_id)) ==> final(self)@ == old(self)@,
            !old(self)@.active_orders.contains((market_id, order_id)) ==> final(self)@ == (StateView {
                active_orders: old(self)@.active_orders.push((market_id, order_id)), ..old(self)@ }),
    {
        proof { use_type_invariant(&*self); }
        match self.find_active(market_id, order_id) {
            Some(_) => {},
            None => {
                let mut t: Vec<(u32, u64)> = Vec::new();
                std::mem::swap(&mut t, &mut self.active_orders);
                t.push((market_id, order_id));
                proof {
                    assert forall|i: int, j: int| 0 <= i < t@.len() && 0 <= j < t@.len() && i != j implies t@[i] != t@[j] by {
                        if i == t@.len() - 1 { assert(old(self).active_orders@[j] == t@[j]); }
                        if j == t@.len() - 1 { assert(old(self).active_orders@[i] == t@[i]); }
                    }
                }
                self.active_orders = t;
            },
        }
    }

    /// Drop `order_id` from the active orders of `market_id` (if present).
    pub fn remove_active_order(&mut self, market_id: u32, order_id: u64)
        ensures
            !final(self)@.active_orders.contains((market_id, order_id)),
            !old(self)@.active_orders.contains((market_id, order_id)) ==> final(self)@ == old(self)@,
            old(self)@.active_orders.contains((market_id, order_id)) ==> exists|i: int|
                0 <= i < old(self)@.active_orders.len() && old(self)@.active_orders[i] == (market_id, order_id)
                && final(self)@ == (StateView { active_orders: old(self)@.active_orders.remove(i), ..old(self)@ }),
    {
        proof { use_type_invariant(&*self); }
        match self.find_active(market_id, order_id) {
            Some(i) => {
                let mut t: Vec<(u32, u64)> = Vec::new();
                std::mem::swap(&mut t, &mut self.active_orders);
                let ghost before = t@;
                t.remove(i);
                proof {
                    assert forall|a: int, b: int| 0 <= a < t@.len() && 0 <= b < t@.len() && a != b implies t@[a] != t@[b] by {
                        let a2 = if a < i { a } else { a + 1 };
                        let b2 = if b < i { b } else { b + 1 };
                        assert(t@[a] == before[a2]);
                        assert(t@[b] == before[b2]);
                    }
                    assert forall|k: int| 0 <= k < t@.len() implies t@[k] != (market_id, order_id) by {
                        let k2 = if k < i { k } else { k + 1 };
                        assert(t@[k] == before[k2]);
                        assert(k2 != i);
                    }
                }
                self.active_orders = t;
            },
            None => {},
        }
    }

    /// Active order ids of `market_id`, in insertion order.
    pub fn get_active_orders_by_market(&self, market_id: u32) -> (r: Vec<u64>)
        ensures
            r@ == self@.active_ids(market_id),
            r@.no_duplicates(),
            forall|x: u64| #[trigger] r@.contains(x) ==> self@.active_orders.contains((market_id, x)),
    {
        proof {
            use_type_invariant(self);
            lemma_active_ids_unique(self.active_orders@, market_id);
        }
        let mut r: Vec<u64> = Vec::new();
        let mut i: usize = 0;
        while i < self.active_orders.len()
            invariant
                i <= self.active_orders@.len(),
                r@ == active_ids_in(self.active_orders@.take(i as int), market_id),
            decreases self.active_orders@.len() - i,
        {
            proof {
                assert(self.active_orders@.take(i + 1).drop_last() =~= self.active_orders@.take(i as int));
            }
            if self.active_orders[i].0 == market_id {
                r.push(self.active_orders[i].1);
            }
            i += 1;
        }
        proof { assert(self.active_orders@.take(i as int) =~= self.active_orders@); }
        r
    }

    // ------------------------------------------------------------------
    // Markets and assets
    // ------------------------------------------------------------------

    fn find_market(&self, id: u32) -> (r: Option<usize>)
        ensures
            r matches Some(i) ==> i < self.markets@.len() && self.markets@[i as int].0 == id,
            r is None ==> !has_key(self.markets@, id),
    {
        let mut i: usize = 0;
        while i < self.markets.len()
            invariant
                i <= self.markets@.len(),
                forall|j: int| 0 <= j < i ==> self.markets@[j].0 != id,
            decreases self.markets@.len() - i,
        {
            if self.markets[i].0 == id {
                return Some(i);
            }
            i += 1;
        }
        None
    }

    /// Market with id `id`, if any.
    pub fn get_market(&self, id: u32) -> (r: Option<Market>)
        ensures
            r == self@.market(id),
    {
        proof { use_type_invariant(self); }
        match self.find_market(id) {
            Some(i) => {
                proof { lemma_key_index(self.markets@, i as int); }
                Some(self.markets[i].1.clone())
            },
            None => None,
        }
    }

    /// Store a market under `id`.
    pub fn set_market(&mut self, id: u32, market: Market)
        ensures
            final(self)@ == (StateView {
                markets: old(self)@.markets.insert(id, market),
                market_ids: if old(self)@.markets.contains_key(id) { old(self)@.market_ids } else { old(self)@.market_ids.push(id) },
                ..old(self)@ }),
    {
        proof { use_type_invariant(&*self); }
        let found = self.find_market(id);
        let mut t: Vec<(u32, Market)> = Vec::new();
        std::mem::swap(&mut t, &mut self.markets);
        match found {
            Some(i) => {
                proof { lemma_table_update(t@, i as int, market); lemma_key_index(t@, i as int); }
                t.set(i, (id, market));
            },
            None => {
                proof { lemma_table_push(t@, id, market); }
                t.push((id, market));
            },
        }
        self.markets = t;
    }

    /// Ids of all markets, in the order they were first stored.
    pub fn list_all_markets(&self) -> (r: Vec<u32>)
        ensures
            r@ == self@.market_ids,
    {
        let mut r: Vec<u32> = Vec::new();
        let mut i: usize = 0;
        while i < self.markets.len()
            invariant
                i <= self.markets@.len(),
                r@ == table_keys(self.markets@).take(i as int),
            decreases self.markets@.len() - i,
        {
            r.push(self.markets[i].0);
            proof { assert(r@ =~= table_keys(self.markets@).take(i + 1)); }
            i += 1;
        }
        proof { assert(r@ =~= table_keys(self.markets@)); }
        r
    }

    fn find_asset(&self, id: u32) -> (r: Option<usize>)
        ensures
            r matches Some(i) ==> i < self.assets@.len() && self.assets@[i as int].0 == id,
            r is None ==> !has_key(self.assets@, id),
    {
        let mut i: usize = 0;
        while i < self.assets.len()
            invariant
                i <= self.assets@.len(),
                forall|j: int| 0 <= j < i ==> self.assets@[j].0 != id,
            decreases self.assets@.len() - i,
        {
            if self.assets[i].0 == id {
                return Some(i);
            }
            i += 1;
        }
        None
    }

    /// Asset with id `id`, if any.
    pub fn get_asset(&self, id: u32) -> (r: Option<Asset>)
        ensures
            r == self@.asset(id),
    {
        proof { use_type_invariant(self); }
        match self.find_asset(id) {
            Some(i) => {
                proof { lemma_key_index(self.assets@, i as int); }
                Some(self.assets[i].1.clone())
            },
            None => None,
        }
    }

    /// Store an asset under `id`.
    pub fn set_asset(&mut self, id: u32, asset: Asset)
        ensures
            final(self)@ == (StateView { assets: old(self)@.assets.insert(id, asset), ..old(self)@ }),
    {
        proof { use_type_invariant(&*self); }
        let found = self.find_asset(id);
        let mut t: Vec<(u32, Asset)> = Vec::new();
        std::mem::swap(&mut t, &mut self.assets);
        match found {
            Some(i) => {
                proof { lemma_table_update(t@, i as int, asset); }
                t.set(i, (id, asset));
            },
            None => {
                proof { lemma_table_push(t@, id, asset); }
                t.push((id, asset));
            },
        }
        self.assets = t;
    }

    /// Ids of all assets, each once, in the order they were first stored.
    pub fn list_all_assets(&self) -> (r: Vec<u32>)
        ensures
            r@.no_duplicates(),
            forall|x: u32| #[trigger] r@.contains(x) <==> self@.assets.contains_key(x),
    {
        proof { use_type_invariant(self); }
        let mut r: Vec<u32> = Vec::new();
        let mut i: usize = 0;
        while i < self.assets.len()
            invariant
                i <= self.assets@.len(),
                keys_unique(self.assets@),
                r@ == table_keys(self.assets@).take(i as int),
            decreases self.assets@.len() - i,
        {
            r.push(self.assets[i].0);
            proof { assert(r@ =~= table_keys(self.assets@).take(i + 1)); }
            i += 1;
        }
        proof {
            assert(r@ =~= table_keys(self.assets@));
            assert forall|x: u32| #[trigger] r@.contains(x) <==> self@.assets.contains_key(x) by {
                if r@.contains(x) {
                    let j = choose|j: int| 0 <= j < r@.len() && r@[j] == x;
                    assert(self.assets@[j].0 == x);
                }
                if self@.assets.contains_key(x) {
                    let j = choose|j: int| 0 <= j < self.assets@.len() && self.assets@[j].0 == x;
                    assert(r@[j] == x);
                }
            }
            assert forall|a: int, b: int| 0 <= a < r@.len() && 0 <= b < r@.len() && a != b implies r@[a] != r@[b] by {
                assert(r@[a] == self.assets@[a].0 && r@[b] == self.assets@[b].0);
            }
        }
        r
    }

    // ------------------------------------------------------------------
    // Bridge operators
    // ------------------------------------------------------------------

    /// Whether `a` is a bridge operator.
    pub fn is_bridge_operator(&self, a: Address) -> (r: bool)
        ensures
            r == self@.bridge_operators.contains(a),
    {
        let mut i: usize = 0;
        while i < self.bridge_operators.len()
            invariant
                i <= self.bridge_operators@.len(),
                forall|j: int| 0 <= j < i ==> self.bridge_operators@[j] != a,
            decreases self.bridge_operators@.len() - i,
        {
            if self.bridge_operators[i] == a {
                proof { assert(self.bridge_operators@.contains(a)); }
                return true;
            }
            i += 1;
        }
        false
    }

    /// Register `a` as a bridge operator.
    pub fn add_bridge_operator(&mut self, a: Address)
        ensures
            final(self)@ == (StateView { bridge_operators: old(self)@.bridge_operators.insert(a), ..old(self)@ }),
    {
        proof { use_type_invariant(&*self); }
        if !self.is_bridge_operator(a) {
            let mut t: Vec<Address> = Vec::new();
            std::mem::swap(&mut t, &mut self.bridge_operators);
            let ghost before = t@;
            t.push(a);
            self.bridge_operators = t;
            proof {
                assert(self.bridge_operators@.to_set() =~= before.to_set().insert(a)) by {
                    assert forall|x: Address| self.bridge_operators@.contains(x) <==> (before.contains(x) || x == a) by {
                        if before.contains(x) {
                            let j = choose|j: int| 0 <= j < before.len() && before[j] == x;
                            assert(self.bridge_operators@[j] == x);
                        }
                        if self.bridge_operators@.contains(x) && x != a {
                            let j = choose|j: int| 0 <= j < self.bridge_operators@.len() && self.bridge_operators@[j] == x;
                            assert(before[j] == x);
                        }
                        if x == a {
                            assert(self.bridge_operators@[before.len() as int] == a);
                        }
                    }
                }
            }
        } else {
            proof { assert(self@.bridge_operators.insert(a) =~= self@.bridge_operators); }
        }
    }

    // ------------------------------------------------------------------
    // Nonces
    // ------------------------------------------------------------------

    fn find_nonce(&self, a: Address) -> (r: Option<usize>)
        ensures
            r matches Some(i) ==> i < self.nonces@.len() && self.nonces@[i as int].0 == a,
            r is None ==> !has_key(self.nonces@, a),
    {
        let mut i: usize = 0;
        while i < self.nonces.len()
            invariant
                i <= self.nonces@.len(),
                forall|j: int| 0 <= j < i ==> self.nonces@[j].0 != a,
            decreases self.nonces@.len() - i,
        {
            if self.nonces[i].0 == a {
                return Some(i);
            }
            i += 1;
        }
        None
    }

    /// Next expected nonce of `a` (zero for a fresh account).
    pub fn get_nonce(&self, a: Address) -> (r: u64)
        ensures
            r == self@.nonce(a),
    {
        proof { use_type_invariant(self); }
        match self.find_nonce(a) {
            Some(i) => {
                proof { lemma_key_index(self.nonces@, i as int); }
                self.nonces[i].1
            },
            None => 0,
        }
    }

    /// Advance the nonce of `a` by one.
    pub fn increment_nonce(&mut self, a: Address) -> (r: Result<(), EngineError>)
        ensures
            old(self)@.nonce(a) == u64::MAX ==> r == Err::<(), EngineError>(EngineError::Overflow) && final(self)@ == old(self)@,
            old(self)@.nonce(a) < u64::MAX ==> r is Ok
                && final(self)@ == (StateView { nonces: old(self)@.nonces.insert(a, (old(self)@.nonce(a) + 1) as u64), ..old(self)@ }),
    {
        proof { use_type_invariant(&*self); }
        let n = self.get_nonce(a);
        if n == u64::MAX {
            return Err(EngineError::Overflow);
        }
        let found = self.find_nonce(a);
        let mut t: Vec<(Address, u64)> = Vec::new();
        std::mem::swap(&mut t, &mut self.nonces);
        match found {
            Some(i) => {
                proof { lemma_table_update(t@, i as int, (n + 1) as u64); }
                t.set(i, (a, n + 1));
            },
            None => {
                proof { lemma_table_push(t@, a, (n + 1) as u64); }
                t.push((a, n + 1));
            },
        }
        self.nonces = t;
        Ok(())
    }

    // ------------------------------------------------------------------
    // Funding
    // ------------------------------------------------------------------

    fn find_funding(&self, m: u32) -> (r: Option<usize>)
        ensures
            r matches Some(i) ==> i < self.funding_rates@.len() && self.funding_rates@[i as int].0 == m,
            r is None ==> !has_key(self.funding_rates@, m),
    {
        let mut i: usize = 0;
        while i < self.funding_rates.len()
            invariant
                i <= self.funding_rates@.len(),
                forall|j: int| 0 <= j < i ==> self.funding_rates@[j].0 != m,
            decreases self.funding_rates@.len() - i,
        {
            if self.funding_rates[i].0 == m {
                return Some(i);
            }
            i += 1;
        }
        None
    }

    /// Funding state of market `m`.
    pub fn get_funding_rate(&self, m: u32) -> (r: FundingRate)
        ensures
            r == self@.funding(m),
    {
        proof { use_type_invariant(self); }
        match self.find_funding(m) {
            Some(i) => {
                proof { lemma_key_index(self.funding_rates@, i as int); }
                self.funding_rates[i].1
            },
            None => FundingRate::initial(),
        }
    }

    /// Store the funding state of market `m`.
    pub fn set_funding_rate(&mut self, m: u32, f: FundingRate)
        ensures
            final(self)@ == (StateView { funding_rates: old(self)@.funding_rates.insert(m, f), ..old(self)@ }),
    {
        proof { use_type_invariant(&*self); }
        let found = self.find_funding(m);
        let mut t: Vec<(u32, FundingRate)> = Vec::new();
        std::mem::swap(&mut t, &mut self.funding_rates);
        match found {
            Some(i) => {
                proof { lemma_table_update(t@, i as int, f); }
                t.set(i, (m, f));
            },
            None => {
                proof { lemma_table_push(t@, m, f); }
                t.push((m, f));
            },
        }
        self.funding_rates = t;
    }
}


/// A saved copy of the stored orders and the active-order list.
pub struct OrderRecords {
    orders: Vec<(u64, Order)>,
    active: Vec<(u32, u64)>,
}

impl OrderRecords {
    #[verifier::type_invariant]
    spec fn inv(self) -> bool {
        keys_unique(self.orders@) && pairs_unique(self.active@)
    }

    /// The orders and active-order list saved.
    pub closed spec fn records(self) -> (Map<u64, Order>, Seq<(u32, u64)>) {
        (table_map(self.orders@), self.active@)
    }
}

impl StateManager {
    /// A copy of the stored orders and the active-order list.
    pub fn save_orders(&self) -> (r: OrderRecords)
        ensures
            r.records() == (self@.orders, self@.active_orders),
    {
        proof { use_type_invariant(self); }
        let mut orders: Vec<(u64, Order)> = Vec::new();
        let mut i: usize = 0;
        while i < self.orders.len()
            invariant
                i <= self.orders@.len(),
                orders@ == self.orders@.take(i as int),
            decreases self.orders@.len() - i,
        {
            orders.push(self.orders[i]);
            i += 1;
            proof { assert(orders@ =~= self.orders@.take(i as int)); }
        }
        let mut active: Vec<(u32, u64)> = Vec::new();
        let mut j: usize = 0;
        while j < self.active_orders.len()
            invariant
                j <= self.active_orders@.len(),
                active@ == self.active_orders@.take(j as int),
            decreases self.active_orders@.len() - j,
        {
            active.push(self.active_orders[j]);
            j += 1;
            proof { assert(active@ =~= self.active_orders@.take(j as int)); }
        }
        proof {
            assert(orders@ =~= self.orders@);
            assert(active@ =~= self.active_orders@);
        }
        OrderRecords { orders, active }
    }

    /// Put back saved orders and active-order list; nothing else changes.
    pub fn restore_orders(&mut self, saved: OrderRecords)
        ensures
            final(self)@ == (StateView { orders: saved.records().0, active_orders: saved.records().1, ..old(self)@ }),
    {
        proof { use_type_invariant(&saved); use_type_invariant(&*self); }
        let ghost so = saved.orders@;
        let ghost sa = saved.active@;
        let OrderRecords { orders, active } = saved;
        proof { assert(orders@ == so && active@ == sa); assert(keys_unique(orders@)); assert(pairs_unique(active@)); }
        self.orders = orders;
        self.active_orders = active;
    }
}

} // verus!
