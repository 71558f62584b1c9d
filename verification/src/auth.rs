//! Authorization: agents acting for accounts with delegated permissions,
//! and the EIP-712 message by which an account nominates an agent.
use vstd::prelude::*;
use vstd::utf8::encode_utf8;
use crate::table::{keys_unique, has_key, table_map, lemma_key_index, lemma_table_update, lemma_table_push,
    lemma_table_remove, lemma_table_empty, lemma_table_len};
use crate::types::{Address, Transaction};
use crate::bytes::{be_bytes, be_bytes_of, push_all};
use crate::config::address_of_bytes;

verus! {

/// Authorization errors.
#[derive(Debug, Clone)]
pub enum AuthError {
    /// The signature is invalid or malformed.
    InvalidSignature(String),
    /// The signer may not act for the account.
    Unauthorized { signer: Address, account: Address },
}

impl AuthError {
    /// An invalid-signature error with `msg`.
    pub fn signature_error(msg: String) -> (r: Self)
        ensures
            r == AuthError::InvalidSignature(msg),
    {
        AuthError::InvalidSignature(msg)
    }

    /// `signer` may not act for `account`.
    pub fn unauthorized(signer: Address, account: Address) -> (r: Self)
        ensures
            r == (AuthError::Unauthorized { signer, account }),
    {
        AuthError::Unauthorized { signer, account }
    }
}

/// Whether `granted` holds every bit of `permission`.
pub open spec fn grants(granted: u64, permission: u64) -> bool {
    granted & permission == permission
}

/// The agent entries of each account as sequences.
pub open spec fn agent_seqs(v: Seq<(Address, Vec<(Address, u64)>)>) -> Seq<(Address, Seq<(Address, u64)>)> {
    v.map_values(|e: (Address, Vec<(Address, u64)>)| (e.0, e.1@))
}

/// Agents of each account with the permissions granted to them.
#[derive(Debug)]
pub struct AgentRegistry {
    agents: Vec<(Address, Vec<(Address, u64)>)>,
}

/// The registry content that a table of accounts stands for.
pub open spec fn registry_map(t: Seq<(Address, Vec<(Address, u64)>)>) -> Map<Address, Map<Address, u64>> {
    Map::new(
        |a: Address| has_key(agent_seqs(t), a),
        |a: Address| table_map(table_map(agent_seqs(t))[a]),
    )
}

proof fn lemma_registry_insert(t0: Seq<(Address, Vec<(Address, u64)>)>, t1: Seq<(Address, Vec<(Address, u64)>)>, a: Address, x: Seq<(Address, u64)>)
    requires
        table_map(agent_seqs(t1)) == table_map(agent_seqs(t0)).insert(a, x),
    ensures
        registry_map(t1) == registry_map(t0).insert(a, table_map(x)),
{
    assert forall|b: Address| has_key(agent_seqs(t1), b) <==> (has_key(agent_seqs(t0), b) || b == a) by {
        assert(table_map(agent_seqs(t1)).dom().contains(b) == has_key(agent_seqs(t1), b));
        assert(table_map(agent_seqs(t0)).dom().contains(b) == has_key(agent_seqs(t0), b));
    }
    assert(registry_map(t1) =~= registry_map(t0).insert(a, table_map(x)));
}

proof fn lemma_registry_remove(t0: Seq<(Address, Vec<(Address, u64)>)>, t1: Seq<(Address, Vec<(Address, u64)>)>, a: Address)
    requires
        table_map(agent_seqs(t1)) == table_map(agent_seqs(t0)).remove(a),
    ensures
        registry_map(t1) == registry_map(t0).remove(a),
{
    assert forall|b: Address| has_key(agent_seqs(t1), b) <==> (has_key(agent_seqs(t0), b) && b != a) by {
        assert(table_map(agent_seqs(t1)).dom().contains(b) == has_key(agent_seqs(t1), b));
        assert(table_map(agent_seqs(t0)).dom().contains(b) == has_key(agent_seqs(t0), b));
    }
    assert(registry_map(t1) =~= registry_map(t0).remove(a));
}

impl View for AgentRegistry {
    type V = Map<Address, Map<Address, u64>>;

    closed spec fn view(&self) -> Map<Address, Map<Address, u64>> {
        registry_map(self.agents@)
    }
}

/// Permissions granted by `account` to `agent` in registry content `m`.
pub open spec fn granted(m: Map<Address, Map<Address, u64>>, account: Address, agent: Address) -> Option<u64> {
    if m.contains_key(account) && m[account].contains_key(agent) { Some(m[account][agent]) } else { None }
}

impl AgentRegistry {
    #[verifier::type_invariant]
    spec fn inv(self) -> bool {
        &&& keys_unique(agent_seqs(self.agents@))
        &&& forall|i: int| 0 <= i < self.agents@.len()
            ==> (#[trigger] self.agents@[i]).1@.len() > 0 && keys_unique(self.agents@[i].1@)
    }

    /// An empty registry.
    pub fn new() -> (r: Self)
        ensures
            r@ == Map::<Address, Map<Address, u64>>::empty(),
    {
        let r = AgentRegistry { agents: Vec::new() };
        proof {
            assert(agent_seqs(r.agents@) =~= Seq::<(Address, Seq<(Address, u64)>)>::empty());
            assert(r@ =~= Map::<Address, Map<Address, u64>>::empty());
        }
        r
    }

    fn find_account(&self, account: Address) -> (r: Option<usize>)
        ensures
            r matches Some(i) ==> i < self.agents@.len() && self.agents@[i as int].0 == account,
            r is None ==> !has_key(agent_seqs(self.agents@), account),
    {
        let mut i: usize = 0;
        while i < self.agents.len()
            invariant
                i <= self.agents@.len(),
                forall|j: int| 0 <= j < i ==> self.agents@[j].0 != account,
            decreases self.agents@.len() - i,
        {
            if self.agents[i].0 == account {
                return Some(i);
            }
            i += 1;
        }
        proof {
            assert forall|j: int| 0 <= j < agent_seqs(self.agents@).len() implies agent_seqs(self.agents@)[j].0 != account by {
                assert(agent_seqs(self.agents@)[j].0 == self.agents@[j].0);
            }
        }
        None
    }

    /// The entries of `account` in the table, with what they mean.
    proof fn lemma_entry(&self, i: int)
        requires
            keys_unique(agent_seqs(self.agents@)),
            0 <= i < self.agents@.len(),
        ensures
            self@.contains_key(self.agents@[i].0),
            self@[self.agents@[i].0] == table_map(self.agents@[i].1@),
    {
        lemma_key_index(agent_seqs(self.agents@), i);
    }

    /// Grant `agent` the permissions `permissions` on `account` (replacing
    /// what it had).
    pub fn set_agent(&mut self, account: Address, agent: Address, permissions: u64)
        ensures
            final(self)@ == old(self)@.insert(account,
                (if old(self)@.contains_key(account) { old(self)@[account] } else { Map::empty() }).insert(agent, permissions)),
    {
        proof { use_type_invariant(&*self); }
        let found = self.find_account(account);
        let mut t: Vec<(Address, Vec<(Address, u64)>)> = Vec::new();
        std::mem::swap(&mut t, &mut self.agents);
        let ghost t0 = t@;
        let ghost old_view = old(self)@;
        proof {
            assert(agent_seqs(t0) == agent_seqs(old(self).agents@));
        }
        match found {
            Some(i) => {
                proof { lemma_key_index(agent_seqs(t0), i as int); }
                let (a, mut inner) = t.remove(i);
                let mut j: usize = 0;
                let mut at: Option<usize> = None;
                while j < inner.len()
                    invariant
                        j <= inner@.len(),
                        at is None ==> forall|k: int| 0 <= k < j ==> inner@[k].0 != agent,
                        at matches Some(x) ==> x < inner@.len() && inner@[x as int].0 == agent,
                    decreases inner@.len() - j,
                {
                    if at.is_none() && inner[j].0 == agent {
                        at = Some(j);
                    }
                    j += 1;
                }
                let ghost in0 = inner@;
                match at {
                    Some(x) => {
                        proof { lemma_table_update(in0, x as int, permissions); }
                        inner.set(x, (agent, permissions));
                    },
                    None => {
                        proof { lemma_table_push(in0, agent, permissions); }
                        inner.push((agent, permissions));
                    },
                }
                t.insert(i, (a, inner));
                proof {
                    assert(t@ =~= t0.update(i as int, (a, inner)));
                    assert(agent_seqs(t@) =~= agent_seqs(t0).update(i as int, (a, inner@)));
                    lemma_table_update(agent_seqs(t0), i as int, inner@);
                    assert(table_map(agent_seqs(t0))[account] == in0);
                    assert forall|k: int| 0 <= k < t@.len() implies (#[trigger] t@[k]).1@.len() > 0 && keys_unique(t@[k].1@) by {
                        if k != i { assert(t@[k] == t0[k]); }
                    }
                    lemma_registry_insert(t0, t@, account, inner@);
                    assert(old_view[account] == table_map(in0));
                }
            },
            None => {
                let mut inner: Vec<(Address, u64)> = Vec::new();
                inner.push((agent, permissions));
                t.push((account, inner));
                proof {
                    assert(agent_seqs(t@) =~= agent_seqs(t0).push((account, inner@)));
                    lemma_table_push(agent_seqs(t0), account, inner@);
                    let e = Seq::<(Address, u64)>::empty();
                    lemma_table_empty(e);
                    assert(inner@ =~= e.push((agent, permissions)));
                    lemma_table_push(e, agent, permissions);
                    assert forall|k: int| 0 <= k < t@.len() implies (#[trigger] t@[k]).1@.len() > 0 && keys_unique(t@[k].1@) by {
                        if k < t0.len() { assert(t@[k] == t0[k]); }
                    }
                    lemma_registry_insert(t0, t@, account, inner@);
                    assert(!old_view.contains_key(account));
                }
            },
        }
        self.agents = t;
    }

    /// Position of `agent` among the entries of account slot `i`.
    fn find_agent(&self, i: usize, agent: Address) -> (r: Option<usize>)
        requires
            i < self.agents@.len(),
        ensures
            r matches Some(j) ==> j < self.agents@[i as int].1@.len() && self.agents@[i as int].1@[j as int].0 == agent,
            r is None ==> !has_key(self.agents@[i as int].1@, agent),
    {
        let inner = &self.agents[i].1;
        let mut j: usize = 0;
        while j < inner.len()
            invariant
                i < self.agents@.len(),
                inner@ == self.agents@[i as int].1@,
                j <= inner@.len(),
                forall|k: int| 0 <= k < j ==> inner@[k].0 != agent,
            decreases inner@.len() - j,
        {
            if inner[j].0 == agent {
                return Some(j);
            }
            j += 1;
        }
        None
    }

    /// Revoke `agent` on `account`; the account is forgotten once it has no
    /// agent left.
    pub fn remove_agent(&mut self, account: Address, agent: Address)
        ensures
            !old(self)@.contains_key(account) ==> final(self)@ == old(self)@,
            old(self)@.contains_key(account) && old(self)@[account].remove(agent).dom().len() == 0
                ==> final(self)@ == old(self)@.remove(account),
            old(self)@.contains_key(account) && old(self)@[account].remove(agent).dom().len() > 0
                ==> final(self)@ == old(self)@.insert(account, old(self)@[account].remove(agent)),
    {
        proof { use_type_invariant(&*self); }
        let i = match self.find_account(account) {
            Some(i) => i,
            None => { return; },
        };
        proof { lemma_key_index(agent_seqs(self.agents@), i as int); }
        let found = self.find_agent(i, agent);
        let mut t: Vec<(Address, Vec<(Address, u64)>)> = Vec::new();
        std::mem::swap(&mut t, &mut self.agents);
        let ghost t0 = t@;
        let ghost old_view = old(self)@;
        let (a, mut inner) = t.remove(i);
        let ghost in0 = inner@;
        proof {
            assert(agent_seqs(t0) == agent_seqs(old(self).agents@));
            assert(old_view[account] == table_map(in0));
        }
        match found {
            Some(j) => {
                proof { lemma_table_remove(in0, j as int); }
                inner.remove(j);
            },
            None => {
                proof { assert(table_map(in0).remove(agent) =~= table_map(in0)); }
            },
        }
        proof { lemma_table_len(inner@); }
        if inner.len() == 0 {
            proof {
                assert(agent_seqs(t@) =~= agent_seqs(t0).remove(i as int));
                lemma_table_remove(agent_seqs(t0), i as int);
                lemma_registry_remove(t0, t@, account);
                assert forall|k: int| 0 <= k < t@.len() implies (#[trigger] t@[k]).1@.len() > 0 && keys_unique(t@[k].1@) by {
                    if k < i { assert(t@[k] == t0[k]); } else { assert(t@[k] == t0[k + 1]); }
                }
            }
        } else {
            t.insert(i, (a, inner));
            proof {
                assert(t@ =~= t0.update(i as int, (a, inner)));
                assert(agent_seqs(t@) =~= agent_seqs(t0).update(i as int, (a, inner@)));
                lemma_table_update(agent_seqs(t0), i as int, inner@);
                lemma_registry_insert(t0, t@, account, inner@);
                assert forall|k: int| 0 <= k < t@.len() implies (#[trigger] t@[k]).1@.len() > 0 && keys_unique(t@[k].1@) by {
                    if k != i { assert(t@[k] == t0[k]); }
                }
            }
        }
        self.agents = t;
    }

    /// The permissions `account` granted `agent`, if any.
    pub fn get_permissions(&self, account: Address, agent: Address) -> (r: Option<u64>)
        ensures
            r == granted(self@, account, agent),
    {
        proof { use_type_invariant(self); }
        let i = match self.find_account(account) {
            Some(i) => i,
            None => { return None; },
        };
        proof { self.lemma_entry(i as int); }
        match self.find_agent(i, agent) {
            Some(j) => {
                proof { lemma_key_index(self.agents@[i as int].1@, j as int); }
                Some(self.agents[i].1[j].1)
            },
            None => None,
        }
    }

    /// Whether `agent` holds every bit of `permission` on `account`.
    pub fn is_authorized(&self, account: Address, agent: Address, permission: u64) -> (r: bool)
        ensures
            r == (granted(self@, account, agent) matches Some(p) && grants(p, permission)),
    {
        match self.get_permissions(account, agent) {
            Some(p) => p & permission == permission,
            None => false,
        }
    }

    /// The agents of `account` with their permissions (each agent once).
    pub fn get_agents(&self, account: Address) -> (r: Vec<(Address, u64)>)
        ensures
            keys_unique(r@),
            table_map(r@) == if self@.contains_key(account) { self@[account] } else { Map::<Address, u64>::empty() },
    {
        proof { use_type_invariant(self); }
        let mut r: Vec<(Address, u64)> = Vec::new();
        match self.find_account(account) {
            None => {
                proof { lemma_table_empty(r@); }
            },
            Some(i) => {
                proof { self.lemma_entry(i as int); }
                let inner = &self.agents[i].1;
                let mut j: usize = 0;
                while j < inner.len()
                    invariant
                        j <= inner@.len(),
                        r@ == inner@.take(j as int),
                    decreases inner@.len() - j,
                {
                    r.push(inner[j]);
                    j += 1;
                    proof { assert(r@ =~= inner@.take(j as int)); }
                }
                proof { assert(r@ =~= inner@); }
            },
        }
        r
    }

    /// Revoke every agent of `account`.
    pub fn clear_agents(&mut self, account: Address)
        ensures
            final(self)@ == old(self)@.remove(account),
    {
        proof { use_type_invariant(&*self); }
        match self.find_account(account) {
            None => {
                proof {
                    assert(!old(self)@.contains_key(account));
                    assert(old(self)@.remove(account) =~= old(self)@);
                }
            },
            Some(i) => {
                let mut t: Vec<(Address, Vec<(Address, u64)>)> = Vec::new();
                std::mem::swap(&mut t, &mut self.agents);
                let ghost t0 = t@;
                proof { assert(agent_seqs(t0) == agent_seqs(old(self).agents@)); }
                t.remove(i);
                proof {
                    assert(agent_seqs(t@) =~= agent_seqs(t0).remove(i as int));
                    lemma_table_remove(agent_seqs(t0), i as int);
                    lemma_registry_remove(t0, t@, account);
                    assert forall|k: int| 0 <= k < t@.len() implies (#[trigger] t@[k]).1@.len() > 0 && keys_unique(t@[k].1@) by {
                        if k < i { assert(t@[k] == t0[k]); } else { assert(t@[k] == t0[k + 1]); }
                    }
                }
                self.agents = t;
            },
        }
    }

    /// Number of accounts with agents.
    pub fn account_count(&self) -> (r: usize)
        ensures
            r == self@.dom().len(),
    {
        proof {
            use_type_invariant(self);
            lemma_table_len(agent_seqs(self.agents@));
            assert(self@.dom() =~= table_map(agent_seqs(self.agents@)).dom());
        }
        self.agents.len()
    }
}

/// The `(account, agent)` pairs of registry content `m`.
pub open spec fn agent_pairs(m: Map<Address, Map<Address, u64>>) -> Set<(Address, Address)> {
    Set::new(|p: (Address, Address)| m.contains_key(p.0) && m[p.0].contains_key(p.1))
}

/// The pairs of the first `n` accounts of table `t`.
spec fn pairs_upto(t: Seq<(Address, Vec<(Address, u64)>)>, n: int) -> Set<(Address, Address)> {
    Set::new(|p: (Address, Address)| exists|k: int| 0 <= k < n && #[trigger] t[k].0 == p.0 && has_key(t[k].1@, p.1))
}

/// The pairs of one account's entries.
spec fn pairs_of(a: Address, inner: Seq<(Address, u64)>) -> Seq<(Address, Address)> {
    inner.map_values(|e: (Address, u64)| (a, e.0))
}

proof fn lemma_pairs_of_len(a: Address, inner: Seq<(Address, u64)>)
    requires
        keys_unique(inner),
    ensures
        pairs_of(a, inner).to_set().len() == inner.len(),
        pairs_of(a, inner).to_set().finite(),
        forall|p: (Address, Address)| pairs_of(a, inner).to_set().contains(p) <==> p.0 == a && has_key(inner, p.1),
{
    let ps = pairs_of(a, inner);
    assert(ps.no_duplicates()) by {
        assert forall|x: int, y: int| 0 <= x < ps.len() && 0 <= y < ps.len() && x != y implies ps[x] != ps[y] by {
            assert(ps[x] == (a, inner[x].0) && ps[y] == (a, inner[y].0));
        }
    }
    ps.unique_seq_to_set();
    vstd::seq_lib::seq_to_set_is_finite(ps);
    assert forall|p: (Address, Address)| ps.to_set().contains(p) <==> p.0 == a && has_key(inner, p.1) by {
        if ps.to_set().contains(p) {
            let x = choose|x: int| 0 <= x < ps.len() && ps[x] == p;
            assert(inner[x].0 == p.1);
        }
        if p.0 == a && has_key(inner, p.1) {
            let x = choose|x: int| 0 <= x < inner.len() && inner[x].0 == p.1;
            assert(ps[x] == p);
        }
    }
}

impl AgentRegistry {
    /// Number of `(account, agent)` pairs.
    pub fn total_agent_count(&self) -> (r: usize)
        requires
            agent_pairs(self@).len() <= usize::MAX,
        ensures
            r == agent_pairs(self@).len(),
    {
        proof { use_type_invariant(self); }
        let ghost t = self.agents@;
        let mut total: usize = 0;
        let mut i: usize = 0;
        proof {
            assert(pairs_upto(t, 0) =~= Set::<(Address, Address)>::empty());
            lemma_upto_finite(t, t.len() as int);
            assert forall|p: (Address, Address)| pairs_upto(t, t.len() as int).contains(p) <==> agent_pairs(self@).contains(p) by {
                if pairs_upto(t, t.len() as int).contains(p) {
                    let k = choose|k: int| 0 <= k < t.len() && #[trigger] t[k].0 == p.0 && has_key(t[k].1@, p.1);
                    self.lemma_entry(k);
                    let x = choose|x: int| 0 <= x < t[k].1@.len() && t[k].1@[x].0 == p.1;
                    lemma_key_index(t[k].1@, x);
                }
                if agent_pairs(self@).contains(p) {
                    let k = crate::table::key_index(agent_seqs(t), p.0);
                    self.lemma_entry(k);
                    assert(t[k].0 == p.0);
                    assert(table_map(t[k].1@).contains_key(p.1));
                }
            }
            assert(pairs_upto(t, t.len() as int) =~= agent_pairs(self@));
        }
        while i < self.agents.len()
            invariant
                t == self.agents@,
                i <= t.len(),
                keys_unique(agent_seqs(t)),
                forall|k: int| 0 <= k < t.len() ==> (#[trigger] t[k]).1@.len() > 0 && keys_unique(t[k].1@),
                pairs_upto(t, i as int).finite(),
                total == pairs_upto(t, i as int).len(),
                pairs_upto(t, i as int).len() <= pairs_upto(t, t.len() as int).len(),
                pairs_upto(t, t.len() as int) == agent_pairs(self@),
                agent_pairs(self@).len() <= usize::MAX,
            decreases t.len() - i,
        {
            let ghost a = t[i as int].0;
            let ghost inner = t[i as int].1@;
            let ghost step = pairs_of(a, inner).to_set();
            proof {
                lemma_pairs_of_len(a, inner);
                lemma_upto_step(t, i as int);
                assert(pairs_upto(t, i as int).disjoint(step)) by {
                    assert forall|p: (Address, Address)| !(pairs_upto(t, i as int).contains(p) && step.contains(p)) by {
                        if pairs_upto(t, i as int).contains(p) && step.contains(p) {
                            let k = choose|k: int| 0 <= k < i && #[trigger] t[k].0 == p.0 && has_key(t[k].1@, p.1);
                            assert(agent_seqs(t)[k].0 == agent_seqs(t)[i as int].0);
                        }
                    }
                }
                vstd::set_lib::lemma_set_disjoint_lens(pairs_upto(t, i as int), step);
                lemma_upto_finite(t, t.len() as int);
                lemma_upto_mono(t, i + 1, t.len() as int);
            }
            total = total + self.agents[i].1.len();
            i += 1;
        }
        total
    }
}

proof fn lemma_upto_step(t: Seq<(Address, Vec<(Address, u64)>)>, i: int)
    requires
        0 <= i < t.len(),
    ensures
        pairs_upto(t, i + 1) == pairs_upto(t, i) + pairs_of(t[i].0, t[i].1@).to_set(),
{
    let step = pairs_of(t[i].0, t[i].1@).to_set();
    assert forall|p: (Address, Address)| pairs_upto(t, i + 1).contains(p) <==> (pairs_upto(t, i) + step).contains(p) by {
        let ps = pairs_of(t[i].0, t[i].1@);
        if pairs_upto(t, i + 1).contains(p) {
            let k = choose|k: int| 0 <= k < i + 1 && #[trigger] t[k].0 == p.0 && has_key(t[k].1@, p.1);
            if k < i {
                assert(pairs_upto(t, i).contains(p));
            } else {
                let x = choose|x: int| 0 <= x < t[i].1@.len() && t[i].1@[x].0 == p.1;
                assert(ps[x] == p);
                assert(step.contains(p));
            }
        }
        if pairs_upto(t, i).contains(p) {
            let k = choose|k: int| 0 <= k < i && #[trigger] t[k].0 == p.0 && has_key(t[k].1@, p.1);
            assert(pairs_upto(t, i + 1).contains(p));
        }
        if step.contains(p) {
            let x = choose|x: int| 0 <= x < ps.len() && ps[x] == p;
            assert(t[i].1@[x].0 == p.1);
            assert(t[i].0 == p.0 && has_key(t[i].1@, p.1));
            assert(pairs_upto(t, i + 1).contains(p));
        }
    }
    assert(pairs_upto(t, i + 1) =~= pairs_upto(t, i) + step);
}

proof fn lemma_upto_finite(t: Seq<(Address, Vec<(Address, u64)>)>, n: int)
    requires
        0 <= n <= t.len(),
    ensures
        pairs_upto(t, n).finite(),
    decreases n,
{
    if n == 0 {
        assert(pairs_upto(t, 0) =~= Set::<(Address, Address)>::empty());
    } else {
        lemma_upto_finite(t, n - 1);
        lemma_upto_step(t, n - 1);
        vstd::seq_lib::seq_to_set_is_finite(pairs_of(t[n - 1].0, t[n - 1].1@));
        vstd::set_lib::lemma_set_union_finite_iff(pairs_upto(t, n - 1), pairs_of(t[n - 1].0, t[n - 1].1@).to_set());
    }
}

proof fn lemma_upto_mono(t: Seq<(Address, Vec<(Address, u64)>)>, a: int, b: int)
    requires
        0 <= a <= b <= t.len(),
        pairs_upto(t, b).finite(),
    ensures
        pairs_upto(t, a).len() <= pairs_upto(t, b).len(),
        pairs_upto(t, a).finite(),
{
    assert(pairs_upto(t, a).subset_of(pairs_upto(t, b))) by {
        assert forall|p: (Address, Address)| pairs_upto(t, a).contains(p) implies pairs_upto(t, b).contains(p) by {
            let k = choose|k: int| 0 <= k < a && #[trigger] t[k].0 == p.0 && has_key(t[k].1@, p.1);
        }
    }
    vstd::set_lib::lemma_len_subset(pairs_upto(t, a), pairs_upto(t, b));
}

fn copy_entries(v: &Vec<(Address, u64)>) -> (r: Vec<(Address, u64)>)
    ensures
        r@ == v@,
{
    let mut r: Vec<(Address, u64)> = Vec::new();
    let mut i: usize = 0;
    while i < v.len()
        invariant
            i <= v@.len(),
            r@ == v@.subrange(0, i as int),
        decreases v@.len() - i,
    {
        r.push(v[i]);
        i += 1;
        proof { assert(v@.subrange(0, i as int) =~= v@.subrange(0, i - 1).push(v@[i - 1])); }
    }
    proof { assert(v@.subrange(0, v@.len() as int) =~= v@); }
    r
}

impl Clone for AgentRegistry {
    fn clone(&self) -> (r: Self)
        ensures
            r@ == self@,
    {
        proof { use_type_invariant(self); }
        let mut agents: Vec<(Address, Vec<(Address, u64)>)> = Vec::new();
        let mut i: usize = 0;
        while i < self.agents.len()
            invariant
                i <= self.agents@.len(),
                agents@.len() == i,
                forall|k: int| 0 <= k < i ==> (#[trigger] agents@[k]).0 == self.agents@[k].0 && agents@[k].1@ == self.agents@[k].1@,
            decreases self.agents@.len() - i,
        {
            let inner = copy_entries(&self.agents[i].1);
            agents.push((self.agents[i].0, inner));
            i += 1;
        }
        proof {
            assert(agent_seqs(agents@) =~= agent_seqs(self.agents@));
            assert forall|k: int| 0 <= k < agents@.len() implies (#[trigger] agents@[k]).1@.len() > 0 && keys_unique(agents@[k].1@) by {
                assert(agents@[k].1@ == self.agents@[k].1@);
            }
        }
        AgentRegistry { agents }
    }
}

impl Default for AgentRegistry {
    fn default() -> (r: Self)
        ensures
            r@ == Map::<Address, Map<Address, u64>>::empty(),
    {
        AgentRegistry::new()
    }
}


/// The 20 bytes of an address, most significant first.
pub open spec fn address_bytes(a: Address) -> Seq<u8> {
    be_bytes(a.hi as nat, 16) + be_bytes(a.lo as nat, 4)
}

/// Keccak-256 digest of a byte string. What the digest is on given bytes is
/// left to the hash function; this library only fixes what is hashed.
pub uninterp spec fn keccak_bytes(data: Seq<u8>) -> Seq<u8>;

/// Calls `alloy_primitives::keccak256`; its 32 bytes are named by
/// [`keccak_bytes`] of the input.
#[verifier::external_body]
fn keccak(data: &[u8]) -> (r: [u8; 32])
    ensures
        r@ == keccak_bytes(data@),
{
    alloy_primitives::keccak256(data).0
}

/// The 20-byte address recovered from a secp256k1 signature `(r, s)` with
/// parity `y_parity` over the 32-byte digest `prehash`, if the signature is
/// valid for it.
pub uninterp spec fn recovered_address(rs: Seq<u8>, y_parity: bool, prehash: Seq<u8>) -> Option<Seq<u8>>;

/// Calls `alloy_primitives::Signature::recover_address_from_prehash` on the
/// signature made of `rs` and `y_parity`; its outcome is named by
/// [`recovered_address`]. The text of the error message is left unsaid.
#[verifier::external_body]
fn recover_from_prehash(rs: &[u8; 64], y_parity: bool, prehash: &[u8; 32]) -> (r: Result<[u8; 20], String>)
    ensures
        match r {
            Ok(a) => recovered_address(rs@, y_parity, prehash@) == Some(a@),
            Err(_) => recovered_address(rs@, y_parity, prehash@) is None,
        },
{
    let sig = alloy_primitives::Signature::from_bytes_and_parity(rs, y_parity);
    match sig.recover_address_from_prehash(&alloy_primitives::B256::from(*prehash)) {
        Ok(a) => Ok(a.0.0),
        Err(e) => Err(e.to_string()),
    }
}

/// The EIP-712 domain under which agent nominations are signed.
#[derive(Debug, Clone)]
pub struct AgentNominationDomain {
    pub name: String,
    pub version: String,
    pub chain_id: u64,
    pub verifying_contract: Address,
}

impl Default for AgentNominationDomain {
    fn default() -> (r: Self)
        ensures
            r.name@ == "PranklinPerp"@,
            r.version@ == "1"@,
            r.chain_id == 1,
            r.verifying_contract == (Address { hi: 0, lo: 0 }),
    {
        AgentNominationDomain {
            name: "PranklinPerp".to_owned(),
            version: "1".to_owned(),
            chain_id: 1,
            verifying_contract: Address::zero(),
        }
    }
}

/// A message by which `account` grants `agent` the permissions `permissions`.
#[derive(Debug, Clone, Copy)]
pub struct AgentNomination {
    pub account: Address,
    pub agent: Address,
    pub permissions: u64,
    pub nonce: u64,
}

/// The EIP-712 domain type string.
pub open spec fn domain_type_text() -> Seq<char> {
    "EIP712Domain(string name,string version,uint256 chainId,address verifyingContract)"@
}

/// The agent-nomination type string.
pub open spec fn nomination_type_text() -> Seq<char> {
    "AgentNomination(address account,address agent,uint64 permissions,uint64 nonce)"@
}

/// The domain separator: the digest of the domain type hash, the digests of
/// the name and version, the chain id (8 bytes) and the verifying contract.
pub open spec fn domain_separator(d: AgentNominationDomain) -> Seq<u8> {
    keccak_bytes(
        keccak_bytes(encode_utf8(domain_type_text()))
            + keccak_bytes(encode_utf8(d.name@))
            + keccak_bytes(encode_utf8(d.version@))
            + be_bytes(d.chain_id as nat, 8)
            + address_bytes(d.verifying_contract),
    )
}

/// The struct hash: the digest of the type hash, both addresses, the
/// permissions and the nonce (8 bytes each).
pub open spec fn nomination_struct_hash(n: AgentNomination) -> Seq<u8> {
    keccak_bytes(
        keccak_bytes(encode_utf8(nomination_type_text()))
            + address_bytes(n.account)
            + address_bytes(n.agent)
            + be_bytes(n.permissions as nat, 8)
            + be_bytes(n.nonce as nat, 8),
    )
}

/// The digest that the account signs: `0x19 0x01`, the domain separator and
/// the struct hash, hashed together.
pub open spec fn nomination_digest(n: AgentNomination, d: AgentNominationDomain) -> Seq<u8> {
    keccak_bytes(seq![0x19u8, 0x01u8] + domain_separator(d) + nomination_struct_hash(n))
}

fn address_bytes_of(a: Address) -> (r: Vec<u8>)
    ensures
        r@ == address_bytes(a),
{
    let mut v = be_bytes_of(a.hi, 16);
    let lo = be_bytes_of(a.lo as u128, 4);
    push_all(&mut v, lo.as_slice());
    v
}

/// The signer that a recovery outcome names.
pub open spec fn recovered_signer(rs: Seq<u8>, y_parity: bool, prehash: Seq<u8>) -> Option<Address> {
    match recovered_address(rs, y_parity, prehash) {
        Some(b) => Some(address_of_bytes(b)),
        None => None,
    }
}

/// The first 64 bytes (`r` and `s`) of a signature in `r ‖ s ‖ v` form.
pub open spec fn signature_rs(sig: Seq<u8>) -> Seq<u8> {
    sig.subrange(0, 64)
}

/// The parity of a signature in `r ‖ s ‖ v` form: its last byte is not zero.
pub open spec fn signature_parity(sig: Seq<u8>) -> bool {
    sig[64] != 0
}

impl AgentNomination {
    fn domain_separator(domain: &AgentNominationDomain) -> (r: [u8; 32])
        ensures
            r@ == domain_separator(*domain),
    {
        let mut pre: Vec<u8> = Vec::new();
        let type_text = "EIP712Domain(string name,string version,uint256 chainId,address verifyingContract)";
        let h0 = keccak(type_text.as_bytes());
        push_all(&mut pre, h0.as_slice());
        let h1 = keccak(domain.name.as_str().as_bytes());
        push_all(&mut pre, h1.as_slice());
        let h2 = keccak(domain.version.as_str().as_bytes());
        push_all(&mut pre, h2.as_slice());
        let c = be_bytes_of(domain.chain_id as u128, 8);
        push_all(&mut pre, c.as_slice());
        let a = address_bytes_of(domain.verifying_contract);
        push_all(&mut pre, a.as_slice());
        proof { reveal_strlit("EIP712Domain(string name,string version,uint256 chainId,address verifyingContract)"); }
        keccak(pre.as_slice())
    }

    fn struct_hash(&self) -> (r: [u8; 32])
        ensures
            r@ == nomination_struct_hash(*self),
    {
        let mut pre: Vec<u8> = Vec::new();
        let type_text = "AgentNomination(address account,address agent,uint64 permissions,uint64 nonce)";
        let h0 = keccak(type_text.as_bytes());
        push_all(&mut pre, h0.as_slice());
        let a = address_bytes_of(self.account);
        push_all(&mut pre, a.as_slice());
        let b = address_bytes_of(self.agent);
        push_all(&mut pre, b.as_slice());
        let p = be_bytes_of(self.permissions as u128, 8);
        push_all(&mut pre, p.as_slice());
        let n = be_bytes_of(self.nonce as u128, 8);
        push_all(&mut pre, n.as_slice());
        proof { reveal_strlit("AgentNomination(address account,address agent,uint64 permissions,uint64 nonce)"); }
        keccak(pre.as_slice())
    }

    /// The EIP-712 digest of this nomination under `domain`.
    pub fn eip712_hash(&self, domain: &AgentNominationDomain) -> (r: [u8; 32])
        ensures
            r@ == nomination_digest(*self, *domain),
    {
        let mut pre: Vec<u8> = Vec::new();
        pre.push(0x19u8);
        pre.push(0x01u8);
        let d = Self::domain_separator(domain);
        push_all(&mut pre, d.as_slice());
        let s = self.struct_hash();
        push_all(&mut pre, s.as_slice());
        proof { assert(pre@ =~= seq![0x19u8, 0x01u8] + domain_separator(*domain) + nomination_struct_hash(*self)); }
        keccak(pre.as_slice())
    }

    /// The signer recovered from `signature` (`r ‖ s ‖ v`, 65 bytes) over
    /// this nomination's digest, or an invalid-signature error.
    pub fn verify(&self, signature: &[u8; 65], domain: &AgentNominationDomain) -> (r: Result<Address, AuthError>)
        ensures
            match recovered_signer(signature_rs(signature@), signature_parity(signature@), nomination_digest(*self, *domain)) {
                Some(a) => r == Ok::<Address, AuthError>(a),
                None => r is Err && r->Err_0 is InvalidSignature,
            },
    {
        let digest = self.eip712_hash(domain);
        recover_signature(signature, &digest)
    }
}

/// The signer recovered from `signature` (`r ‖ s ‖ v`, 65 bytes) over the
/// 32-byte digest `prehash`, or an invalid-signature error.
fn recover_signature(signature: &[u8; 65], prehash: &[u8; 32]) -> (r: Result<Address, AuthError>)
    ensures
        match recovered_signer(signature_rs(signature@), signature_parity(signature@), prehash@) {
            Some(a) => r == Ok::<Address, AuthError>(a),
            None => r is Err && r->Err_0 is InvalidSignature,
        },
{
    let mut rs: [u8; 64] = [0u8; 64];
    let mut i: usize = 0;
    while i < 64
        invariant
            i <= 64,
            signature@.len() == 65,
            rs@.len() == 64,
            forall|k: int| 0 <= k < i ==> rs@[k] == signature@[k],
        decreases 64 - i,
    {
        rs[i] = signature[i];
        i += 1;
    }
    proof { assert(rs@ =~= signature_rs(signature@)); }
    let y_parity = signature[64] != 0;
    match recover_from_prehash(&rs, y_parity, prehash) {
        Ok(b) => Ok(Address::from_bytes(b)),
        Err(msg) => Err(AuthError::signature_error(msg)),
    }
}

/// Registry content `m` after `account` grants `agent` the permissions `p`.
pub open spec fn with_agent(m: Map<Address, Map<Address, u64>>, account: Address, agent: Address, p: u64) -> Map<Address, Map<Address, u64>> {
    m.insert(account, (if m.contains_key(account) { m[account] } else { Map::empty() }).insert(agent, p))
}

/// Registry content `m` after `account` withdraws `agent`; an account left
/// with no agent is dropped.
pub open spec fn without_agent(m: Map<Address, Map<Address, u64>>, account: Address, agent: Address) -> Map<Address, Map<Address, u64>> {
    if !m.contains_key(account) {
        m
    } else if m[account].remove(agent).dom().len() == 0 {
        m.remove(account)
    } else {
        m.insert(account, m[account].remove(agent))
    }
}

/// Whether `signer` may act for `account` with `permission` under registry
/// content `m`: it is the account itself, or an agent granted every bit.
pub open spec fn may_act(m: Map<Address, Map<Address, u64>>, account: Address, signer: Address, permission: u64) -> bool {
    signer == account || (granted(m, account, signer) matches Some(p) && grants(p, permission))
}

/// Checks transactions against their recovered signers and keeps the agent
/// registry.
#[derive(Debug)]
pub struct AuthService {
    agents: AgentRegistry,
}

impl View for AuthService {
    type V = Map<Address, Map<Address, u64>>;

    closed spec fn view(&self) -> Map<Address, Map<Address, u64>> {
        self.agents@
    }
}

impl AuthService {
    /// A service with no agents.
    pub fn new() -> (r: Self)
        ensures
            r@ == Map::<Address, Map<Address, u64>>::empty(),
    {
        AuthService { agents: AgentRegistry::new() }
    }

    /// The address that signed `signing_hash` with `signature` (`r ‖ s ‖ v`,
    /// 65 bytes, as a transaction carries them), or an invalid-signature error.
    pub fn recover_signer(&self, signature: &[u8; 65], signing_hash: &[u8; 32]) -> (r: Result<Address, AuthError>)
        ensures
            match recovered_signer(signature_rs(signature@), signature_parity(signature@), signing_hash@) {
                Some(a) => r == Ok::<Address, AuthError>(a),
                None => r is Err && r->Err_0 is InvalidSignature,
            },
    {
        recover_signature(signature, signing_hash)
    }

    /// Whether the transaction's recovered `signer` is its sender; if not,
    /// an unauthorized error naming both.
    pub fn verify_transaction(&self, tx: &Transaction, signer: Address) -> (r: Result<(), AuthError>)
        ensures
            r == if signer == tx.from {
                Ok::<(), AuthError>(())
            } else {
                Err(AuthError::Unauthorized { signer, account: tx.from })
            },
    {
        if signer == tx.from {
            Ok(())
        } else {
            Err(AuthError::unauthorized(signer, tx.from))
        }
    }

    /// The account the transaction acts for, if its recovered `signer` is the
    /// sender or an agent of the sender with every bit of `permission`.
    pub fn verify_with_agent(&self, tx: &Transaction, signer: Address, permission: u64) -> (r: Result<Address, AuthError>)
        ensures
            r == if may_act(self@, tx.from, signer, permission) {
                Ok::<Address, AuthError>(tx.from)
            } else {
                Err(AuthError::Unauthorized { signer, account: tx.from })
            },
    {
        if signer == tx.from || self.agents.is_authorized(tx.from, signer, permission) {
            Ok(tx.from)
        } else {
            Err(AuthError::unauthorized(signer, tx.from))
        }
    }

    /// Applies a nomination given the signer recovered from its signature:
    /// the account itself grants the agent; anyone else is refused, and a
    /// recovery error is passed on.
    pub fn apply_nomination(&mut self, nomination: AgentNomination, recovered: Result<Address, AuthError>) -> (r: Result<(), AuthError>)
        ensures
            match recovered {
                Err(e) => r == Err::<(), AuthError>(e) && final(self)@ == old(self)@,
                Ok(signer) => if signer == nomination.account {
                    r is Ok && final(self)@ == with_agent(old(self)@, nomination.account, nomination.agent, nomination.permissions)
                } else {
                    r == Err::<(), AuthError>(AuthError::Unauthorized { signer, account: nomination.account })
                        && final(self)@ == old(self)@
                },
            },
    {
        match recovered {
            Err(e) => Err(e),
            Ok(signer) => {
                if signer == nomination.account {
                    self.set_agent(nomination.account, nomination.agent, nomination.permissions);
                    Ok(())
                } else {
                    Err(AuthError::unauthorized(signer, nomination.account))
                }
            },
        }
    }

    /// Nominates an agent with an EIP-712 signature (`r ‖ s ‖ v`, 65 bytes)
    /// by the account over the nomination under `domain`.
    pub fn nominate_agent(&mut self, nomination: AgentNomination, signature: [u8; 65], domain: &AgentNominationDomain) -> (r: Result<(), AuthError>)
        ensures
            match recovered_signer(signature_rs(signature@), signature_parity(signature@), nomination_digest(nomination, *domain)) {
                None => r is Err && r->Err_0 is InvalidSignature && final(self)@ == old(self)@,
                Some(signer) => if signer == nomination.account {
                    r is Ok && final(self)@ == with_agent(old(self)@, nomination.account, nomination.agent, nomination.permissions)
                } else {
                    r == Err::<(), AuthError>(AuthError::Unauthorized { signer, account: nomination.account })
                        && final(self)@ == old(self)@
                },
            },
    {
        let recovered = nomination.verify(&signature, domain);
        self.apply_nomination(nomination, recovered)
    }

    /// Grant `agent` the permissions `permissions` on `account`.
    pub fn set_agent(&mut self, account: Address, agent: Address, permissions: u64)
        ensures
            final(self)@ == with_agent(old(self)@, account, agent, permissions),
    {
        self.agents.set_agent(account, agent, permissions);
    }

    /// Withdraw `agent` from `account`.
    pub fn remove_agent(&mut self, account: Address, agent: Address)
        ensures
            final(self)@ == without_agent(old(self)@, account, agent),
    {
        self.agents.remove_agent(account, agent);
    }

    /// Whether `agent` holds every bit of `permission` on `account`.
    pub fn is_authorized(&self, account: Address, agent: Address, permission: u64) -> (r: bool)
        ensures
            r == (granted(self@, account, agent) matches Some(p) && grants(p, permission)),
    {
        self.agents.is_authorized(account, agent, permission)
    }

    /// The permissions `account` granted `agent`, if any.
    pub fn agent_permissions(&self, account: Address, agent: Address) -> (r: Option<u64>)
        ensures
            r == granted(self@, account, agent),
    {
        self.agents.get_permissions(account, agent)
    }

    /// The agents of `account` with their permissions.
    pub fn agents(&self, account: Address) -> (r: Vec<(Address, u64)>)
        ensures
            keys_unique(r@),
            table_map(r@) == if self@.contains_key(account) { self@[account] } else { Map::<Address, u64>::empty() },
    {
        self.agents.get_agents(account)
    }
}

impl Clone for AuthService {
    fn clone(&self) -> (r: Self)
        ensures
            r@ == self@,
    {
        AuthService { agents: self.agents.clone() }
    }
}

impl Default for AuthService {
    fn default() -> (r: Self)
        ensures
            r@ == Map::<Address, Map<Address, u64>>::empty(),
    {
        AuthService::new()
    }
}

} // verus!
