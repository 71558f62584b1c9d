//! Scheduling a block for parallel execution: which transactions depend on
//! which through the state they declare to read and write, and the rounds
//! in which they can run.
use vstd::prelude::*;
use crate::table::{keys_unique, has_key, table_map, lemma_key_index, lemma_table_update, lemma_table_push, lemma_table_empty};

verus! {

/// How a transaction touches a piece of state.
#[derive(Debug, Clone, Copy, PartialEq, Eq, Structural)]
pub enum AccessMode {
    Read,
    Write,
}

/// Keys a transaction reads (a write reads too).
pub open spec fn reads_of(acc: Seq<(u64, AccessMode)>) -> Set<u64> {
    Set::new(|k: u64| exists|i: int| 0 <= i < acc.len() && #[trigger] acc[i].0 == k)
}

/// Keys a transaction writes.
pub open spec fn writes_of(acc: Seq<(u64, AccessMode)>) -> Set<u64> {
    Set::new(|k: u64| exists|i: int| 0 <= i < acc.len() && #[trigger] acc[i] == (k, AccessMode::Write))
}

/// Whether two key sets share a key.
pub open spec fn overlap(a: Set<u64>, b: Set<u64>) -> bool {
    exists|k: u64| a.contains(k) && b.contains(k)
}

proof fn lemma_push_contains<T>(s: Seq<T>, v: T, x: T)
    ensures
        s.push(v).contains(x) <==> (s.contains(x) || x == v),
{
    if s.push(v).contains(x) && x != v {
        let w = choose|w: int| 0 <= w < s.push(v).len() && s.push(v)[w] == x;
        assert(s[w] == x);
    }
    if s.contains(x) {
        let w = choose|w: int| 0 <= w < s.len() && s[w] == x;
        assert(s.push(v)[w] == x);
    }
    assert(s.push(v)[s.len() as int] == v);
}

/// Whether `x` is in one of the `rounds`.
pub open spec fn in_some_round(rounds: Seq<Vec<usize>>, x: usize) -> bool {
    exists|k: int| 0 <= k < rounds.len() && #[trigger] rounds[k]@.contains(x)
}

/// A transaction of a block, with the keys it reads and writes.
#[derive(Debug, Clone)]
pub struct TxNode {
    pub tx_index: usize,
    pub read_set: Vec<u64>,
    pub write_set: Vec<u64>,
}

/// Mathematical content of a [`DependencyGraph`].
pub struct DepGraphView {
    /// Keys read by each transaction.
    pub reads: Seq<Set<u64>>,
    /// Keys written by each transaction.
    pub writes: Seq<Set<u64>>,
    /// For each transaction, the earlier transactions it depends on.
    pub deps: Seq<Set<usize>>,
}

/// Dependencies between the transactions of a block.
pub struct DependencyGraph {
    nodes: Vec<TxNode>,
    dependencies: Vec<Vec<usize>>,
}

impl DependencyGraph {
    #[verifier::type_invariant]
    spec fn inv(self) -> bool {
        &&& self.dependencies@.len() == self.nodes@.len()
        &&& forall|j: int, k: int| 0 <= j < self.dependencies@.len() && 0 <= k < self.dependencies@[j]@.len()
            ==> #[trigger] self.dependencies@[j]@[k] < j
    }
}

impl View for DependencyGraph {
    type V = DepGraphView;

    closed spec fn view(&self) -> DepGraphView {
        DepGraphView {
            reads: Seq::new(self.nodes@.len(), |j: int| self.nodes@[j].read_set@.to_set()),
            writes: Seq::new(self.nodes@.len(), |j: int| self.nodes@[j].write_set@.to_set()),
            deps: Seq::new(self.dependencies@.len(), |j: int| self.dependencies@[j]@.to_set()),
        }
    }
}

fn contains_key(v: &Vec<u64>, k: u64) -> (r: bool)
    ensures
        r == v@.contains(k),
{
    let mut i: usize = 0;
    while i < v.len()
        invariant
            i <= v@.len(),
            forall|j: int| 0 <= j < i ==> v@[j] != k,
        decreases v@.len() - i,
    {
        if v[i] == k {
            return true;
        }
        i += 1;
    }
    false
}

fn shares_key(a: &Vec<u64>, b: &Vec<u64>) -> (r: bool)
    ensures
        r == overlap(a@.to_set(), b@.to_set()),
{
    let mut i: usize = 0;
    while i < a.len()
        invariant
            i <= a@.len(),
            forall|j: int| 0 <= j < i ==> !b@.contains(a@[j]),
        decreases a@.len() - i,
    {
        if contains_key(b, a[i]) {
            proof { assert(a@.to_set().contains(a@[i as int]) && b@.to_set().contains(a@[i as int])); }
            return true;
        }
        i += 1;
    }
    proof {
        assert forall|k: u64| !(a@.to_set().contains(k) && b@.to_set().contains(k)) by {
            if a@.contains(k) {
                let j = choose|j: int| 0 <= j < a@.len() && a@[j] == k;
            }
        }
    }
    false
}

impl DependencyGraph {
    /// The graph of a block whose transactions declare the accesses
    /// `accesses` (one list per transaction, in block order): transaction
    /// `j` depends on an earlier `i` when `i` writes a key that `j` reads or
    /// writes.
    pub fn build(accesses: &Vec<Vec<(u64, AccessMode)>>) -> (r: Self)
        ensures
            r@.reads.len() == accesses@.len(),
            r@.writes.len() == accesses@.len(),
            r@.deps.len() == accesses@.len(),
            forall|j: int| 0 <= j < accesses@.len() ==> r@.reads[j] == reads_of(#[trigger] accesses@[j]@)
                && r@.writes[j] == writes_of(accesses@[j]@),
            forall|j: int, i: usize| 0 <= j < accesses@.len() ==> (#[trigger] r@.deps[j].contains(i) <==> i < j
                && (overlap(writes_of(accesses@[i as int]@), reads_of(accesses@[j]@))
                    || overlap(writes_of(accesses@[i as int]@), writes_of(accesses@[j]@)))),
    {
        let mut nodes: Vec<TxNode> = Vec::new();
        let mut idx: usize = 0;
        while idx < accesses.len()
            invariant
                idx <= accesses@.len(),
                nodes@.len() == idx,
                forall|j: int| 0 <= j < idx ==> (#[trigger] nodes@[j]).read_set@.to_set() == reads_of(accesses@[j]@)
                    && nodes@[j].write_set@.to_set() == writes_of(accesses@[j]@)
                    && nodes@[j].tx_index == j,
            decreases accesses@.len() - idx,
        {
            let acc = &accesses[idx];
            let mut read_set: Vec<u64> = Vec::new();
            let mut write_set: Vec<u64> = Vec::new();
            let mut a: usize = 0;
            while a < acc.len()
                invariant
                    a <= acc@.len(),
                    forall|k: u64| read_set@.contains(k) <==> exists|i: int| 0 <= i < a && #[trigger] acc@[i].0 == k,
                    forall|k: u64| write_set@.contains(k) <==> exists|i: int| 0 <= i < a && #[trigger] acc@[i] == (k, AccessMode::Write),
                decreases acc@.len() - a,
            {
                let (key, mode) = acc[a];
                let ghost r0 = read_set@;
                let ghost w0 = write_set@;
                if !contains_key(&read_set, key) {
                    read_set.push(key);
                }
                match mode {
                    AccessMode::Write => {
                        if !contains_key(&write_set, key) {
                            write_set.push(key);
                        }
                    },
                    AccessMode::Read => {},
                }
                proof {
                    assert(acc@[a as int] == (key, mode));
                    assert forall|k: u64| read_set@.contains(k) <==> (r0.contains(k) || k == key) by {
                        if read_set@ != r0 {
                            assert(read_set@ == r0.push(key));
                            if read_set@.contains(k) && k != key {
                                let w = choose|w: int| 0 <= w < read_set@.len() && read_set@[w] == k;
                                assert(r0[w] == k);
                            }
                            if r0.contains(k) {
                                let w = choose|w: int| 0 <= w < r0.len() && r0[w] == k;
                                assert(read_set@[w] == k);
                            }
                            assert(read_set@[r0.len() as int] == key);
                        }
                    }
                    assert forall|k: u64| write_set@.contains(k) <==> (w0.contains(k) || (k == key && mode == AccessMode::Write)) by {
                        if write_set@ != w0 {
                            assert(write_set@ == w0.push(key));
                            if write_set@.contains(k) && k != key {
                                let w = choose|w: int| 0 <= w < write_set@.len() && write_set@[w] == k;
                                assert(w0[w] == k);
                            }
                            if w0.contains(k) {
                                let w = choose|w: int| 0 <= w < w0.len() && w0[w] == k;
                                assert(write_set@[w] == k);
                            }
                            assert(write_set@[w0.len() as int] == key);
                        }
                    }
                    assert forall|k: u64| read_set@.contains(k) <==> exists|i: int| 0 <= i < a + 1 && #[trigger] acc@[i].0 == k by {
                        if r0.contains(k) {
                            let i = choose|i: int| 0 <= i < a && #[trigger] acc@[i].0 == k;
                        }
                        if exists|i: int| 0 <= i < a + 1 && #[trigger] acc@[i].0 == k {
                            let i = choose|i: int| 0 <= i < a + 1 && #[trigger] acc@[i].0 == k;
                            if i < a { assert(r0.contains(k)); }
                        }
                    }
                    assert forall|k: u64| write_set@.contains(k) <==> exists|i: int| 0 <= i < a + 1 && #[trigger] acc@[i] == (k, AccessMode::Write) by {
                        if w0.contains(k) {
                            let i = choose|i: int| 0 <= i < a && #[trigger] acc@[i] == (k, AccessMode::Write);
                        }
                        if exists|i: int| 0 <= i < a + 1 && #[trigger] acc@[i] == (k, AccessMode::Write) {
                            let i = choose|i: int| 0 <= i < a + 1 && #[trigger] acc@[i] == (k, AccessMode::Write);
                            if i < a { assert(w0.contains(k)); }
                        }
                    }
                }
                a += 1;
            }
            proof {
                assert(read_set@.to_set() =~= reads_of(acc@));
                assert(write_set@.to_set() =~= writes_of(acc@));
            }
            nodes.push(TxNode { tx_index: idx, read_set, write_set });
            idx += 1;
        }
        let mut dependencies: Vec<Vec<usize>> = Vec::new();
        let mut j: usize = 0;
        while j < nodes.len()
            invariant
                j <= nodes@.len(),
                nodes@.len() == accesses@.len(),
                dependencies@.len() == j,
                forall|x: int| 0 <= x < nodes@.len() ==> (#[trigger] nodes@[x]).read_set@.to_set() == reads_of(accesses@[x]@)
                    && nodes@[x].write_set@.to_set() == writes_of(accesses@[x]@),
                forall|x: int, i: usize| 0 <= x < j ==> (#[trigger] dependencies@[x]@.contains(i) <==> i < x
                    && (overlap(writes_of(accesses@[i as int]@), reads_of(accesses@[x]@))
                        || overlap(writes_of(accesses@[i as int]@), writes_of(accesses@[x]@)))),
            decreases nodes@.len() - j,
        {
            let mut deps_j: Vec<usize> = Vec::new();
            let mut i: usize = 0;
            while i < j
                invariant
                    i <= j < nodes@.len(),
                    nodes@.len() == accesses@.len(),
                    forall|x: int| 0 <= x < nodes@.len() ==> (#[trigger] nodes@[x]).read_set@.to_set() == reads_of(accesses@[x]@)
                        && nodes@[x].write_set@.to_set() == writes_of(accesses@[x]@),
                    forall|d: usize| #[trigger] deps_j@.contains(d) <==> d < i
                        && (overlap(writes_of(accesses@[d as int]@), reads_of(accesses@[j as int]@))
                            || overlap(writes_of(accesses@[d as int]@), writes_of(accesses@[j as int]@))),
                decreases j - i,
            {
                let ghost d0 = deps_j@;
                proof {
                    assert(nodes@[i as int].write_set@.to_set() == writes_of(accesses@[i as int]@));
                    assert(nodes@[j as int].read_set@.to_set() == reads_of(accesses@[j as int]@));
                    assert(nodes@[j as int].write_set@.to_set() == writes_of(accesses@[j as int]@));
                }
                let conflict = shares_key(&nodes[i].write_set, &nodes[j].read_set)
                    || shares_key(&nodes[i].write_set, &nodes[j].write_set);
                if conflict {
                    deps_j.push(i);
                }
                proof {
                    assert forall|d: usize| #[trigger] deps_j@.contains(d) <==> (d0.contains(d) || (d == i && conflict)) by {
                        if deps_j@ != d0 {
                            if deps_j@.contains(d) && d != i {
                                let w = choose|w: int| 0 <= w < deps_j@.len() && deps_j@[w] == d;
                                assert(d0[w] == d);
                            }
                            if d0.contains(d) {
                                let w = choose|w: int| 0 <= w < d0.len() && d0[w] == d;
                                assert(deps_j@[w] == d);
                            }
                            assert(deps_j@[d0.len() as int] == i);
                        }
                    }
                    assert forall|d: usize| #[trigger] deps_j@.contains(d) <==> d < i + 1
                        && (overlap(writes_of(accesses@[d as int]@), reads_of(accesses@[j as int]@))
                            || overlap(writes_of(accesses@[d as int]@), writes_of(accesses@[j as int]@))) by {
                        if d == i {
                            assert(nodes@[i as int].write_set@.to_set() == writes_of(accesses@[i as int]@));
                        }
                    }
                }
                i += 1;
            }
            dependencies.push(deps_j);
            proof {
                assert forall|x: int, d: usize| 0 <= x < j + 1 implies (#[trigger] dependencies@[x]@.contains(d) <==> d < x
                    && (overlap(writes_of(accesses@[d as int]@), reads_of(accesses@[x]@))
                        || overlap(writes_of(accesses@[d as int]@), writes_of(accesses@[x]@)))) by {
                    if x == j {
                        assert(dependencies@[x] == deps_j);
                    }
                }
            }
            j += 1;
        }
        proof {
            assert forall|x: int, k: int| 0 <= x < dependencies@.len() && 0 <= k < dependencies@[x]@.len()
                implies #[trigger] dependencies@[x]@[k] < x by {
                assert(dependencies@[x]@.contains(dependencies@[x]@[k]));
            }
        }
        let r = DependencyGraph { nodes, dependencies };
        proof {
            assert forall|x: int, i: usize| 0 <= x < accesses@.len() implies (#[trigger] r@.deps[x].contains(i) <==> i < x
                && (overlap(writes_of(accesses@[i as int]@), reads_of(accesses@[x]@))
                    || overlap(writes_of(accesses@[i as int]@), writes_of(accesses@[x]@)))) by {
                assert(r@.deps[x] == r.dependencies@[x]@.to_set());
            }
        }
        r
    }

    /// Number of transactions in the graph.
    pub closed spec fn size(&self) -> nat {
        self.nodes@.len()
    }

    /// The transactions that depend on no other, in block order.
    pub fn ready_transactions(&self) -> (r: Vec<usize>)
        ensures
            forall|i: usize| r@.contains(i) <==> i < self@.deps.len() && self@.deps[i as int].is_empty(),
            forall|a: int, b: int| 0 <= a < b < r@.len() ==> r@[a] < r@[b],
    {
        proof { use_type_invariant(self); }
        let mut r: Vec<usize> = Vec::new();
        let mut i: usize = 0;
        while i < self.dependencies.len()
            invariant
                i <= self.dependencies@.len(),
                forall|x: usize| #[trigger] r@.contains(x) <==> x < i && self.dependencies@[x as int]@.len() == 0,
                forall|a: int, b: int| 0 <= a < b < r@.len() ==> r@[a] < r@[b],
                forall|a: int| 0 <= a < r@.len() ==> r@[a] < i,
            decreases self.dependencies@.len() - i,
        {
            let ghost r0 = r@;
            if self.dependencies[i].len() == 0 {
                r.push(i);
                proof { assert forall|x: usize| #[trigger] r@.contains(x) <==> (r0.contains(x) || x == i) by { lemma_push_contains(r0, i, x); } }
            }
            proof {
                if r0.contains(i) {
                    let a = choose|a: int| 0 <= a < r0.len() && r0[a] == i;
                }
            }
            i += 1;
        }
        proof {
            assert forall|x: usize| r@.contains(x) <==> x < self@.deps.len() && self@.deps[x as int].is_empty() by {
                if x < self.dependencies@.len() {
                    let d = self.dependencies@[x as int]@;
                    assert(self@.deps[x as int] == d.to_set());
                    if d.len() > 0 { assert(d.to_set().contains(d[0])); }
                    if d.len() == 0 { assert(d.to_set() =~= Set::<usize>::empty()); }
                }
            }
        }
        r
    }

    /// Whether every dependency of `idx` is marked executed.
    fn deps_done(&self, idx: usize, executed: &Vec<bool>) -> (r: bool)
        requires
            idx < self.dependencies@.len(),
            executed@.len() == self.dependencies@.len(),
        ensures
            r == forall|k: int| 0 <= k < self.dependencies@[idx as int]@.len()
                ==> executed@[#[trigger] self.dependencies@[idx as int]@[k] as int],
    {
        proof { use_type_invariant(self); }
        let deps = &self.dependencies[idx];
        let mut k: usize = 0;
        while k < deps.len()
            invariant
                k <= deps@.len(),
                deps@ == self.dependencies@[idx as int]@,
                executed@.len() == self.dependencies@.len(),
                forall|m: int| 0 <= m < deps@.len() ==> deps@[m] < idx,
                idx < self.dependencies@.len(),
                forall|m: int| 0 <= m < k ==> executed@[#[trigger] deps@[m] as int],
            decreases deps@.len() - k,
        {
            if !executed[deps[k]] {
                return false;
            }
            k += 1;
        }
        true
    }

    /// Rounds of transactions that can run in parallel: each round holds
    /// the transactions not yet run whose dependencies have all run.
    /// Every transaction is in exactly one round, after all rounds holding
    /// its dependencies, and right after the latest of them.
    #[verifier::loop_isolation(false)]
    pub fn independent_groups(&self) -> (r: Vec<Vec<usize>>)
        ensures
            forall|k: int| 0 <= k < r@.len() ==> (#[trigger] r@[k])@.no_duplicates() && r@[k]@.len() > 0,
            forall|k: int, x: usize| 0 <= k < r@.len() && #[trigger] r@[k]@.contains(x) ==> x < self@.deps.len(),
            forall|x: usize| x < self@.deps.len() ==> #[trigger] in_some_round(r@, x),
            forall|k1: int, k2: int, x: usize| 0 <= k1 < r@.len() && 0 <= k2 < r@.len() && #[trigger] r@[k1]@.contains(x)
                && #[trigger] r@[k2]@.contains(x) ==> k1 == k2,
            forall|k: int, x: usize, d: usize| 0 <= k < r@.len() && #[trigger] r@[k]@.contains(x) && #[trigger] self@.deps[x as int].contains(d)
                ==> exists|k2: int| 0 <= k2 < k && #[trigger] r@[k2]@.contains(d),
            forall|k: int, x: usize| 0 < k < r@.len() && #[trigger] r@[k]@.contains(x)
                ==> exists|d: usize| self@.deps[x as int].contains(d) && #[trigger] r@[k - 1]@.contains(d),
    {
        proof { use_type_invariant(self); }
        let n = self.dependencies.len();
        let ghost deps = self.dependencies@.map_values(|v: Vec<usize>| v@);
        let mut executed: Vec<bool> = Vec::new();
        let mut i: usize = 0;
        while i < n
            invariant
                i <= n,
                n == self.dependencies@.len(),
                executed@.len() == i,
                forall|x: int| 0 <= x < i ==> !executed@[x],
            decreases n - i,
        {
            executed.push(false);
            i += 1;
        }
        let ghost mut grp: Seq<int> = Seq::new(n as nat, |x: int| -1);
        let mut groups: Vec<Vec<usize>> = Vec::new();
        let mut lo: usize = 0;
        while lo < n
            invariant
                n == self.dependencies@.len(),
                deps == self.dependencies@.map_values(|v: Vec<usize>| v@),
                lo <= n,
                executed@.len() == n,
                grp.len() == n,
                forall|j: int, k: int| 0 <= j < n && 0 <= k < deps[j].len() ==> #[trigger] deps[j][k] < j,
                forall|x: int| 0 <= x < n ==> (executed@[x] <==> grp[x] >= 0),
                forall|x: int| 0 <= x < lo ==> executed@[x],
                lo < n ==> !executed@[lo as int],
                forall|x: int| 0 <= x < n ==> grp[x] < groups@.len(),
                forall|k: int| 0 <= k < groups@.len() ==> (#[trigger] groups@[k])@.no_duplicates() && groups@[k]@.len() > 0,
                forall|k: int, x: usize| 0 <= k < groups@.len() ==> (#[trigger] groups@[k]@.contains(x) <==> x < n && grp[x as int] == k),
                forall|x: int, m: int| 0 <= x < n && grp[x] >= 0 && 0 <= m < deps[x].len()
                    ==> 0 <= grp[#[trigger] deps[x][m] as int] < grp[x],
                forall|x: int| 0 <= x < n && #[trigger] grp[x] > 0 ==> exists|m: int| 0 <= m < deps[x].len()
                    && grp[#[trigger] deps[x][m] as int] == grp[x] - 1,
                forall|x: int| 0 <= x < n && #[trigger] grp[x] < 0 && groups@.len() > 0 ==> exists|m: int| 0 <= m < deps[x].len()
                    && (grp[#[trigger] deps[x][m] as int] < 0 || grp[deps[x][m] as int] == groups@.len() - 1),
            decreases n - lo,
        {
            let ghost k = groups@.len() as int;
            let ghost gs0 = groups@;
            let ghost lo0 = lo;
            let ghost grp0 = grp;
            let ghost ex0 = executed@;
            // The transactions that can run now.
            let mut ready: Vec<usize> = Vec::new();
            let mut idx: usize = 0;
            while idx < n
                invariant
                    n == self.dependencies@.len(),
                    deps == self.dependencies@.map_values(|v: Vec<usize>| v@),
                    idx <= n,
                    executed@ == ex0,
                    ex0.len() == n,
                    forall|y: usize| #[trigger] ready@.contains(y) <==> y < idx && !ex0[y as int]
                        && forall|m: int| 0 <= m < deps[y as int].len() ==> ex0[#[trigger] deps[y as int][m] as int],
                    forall|a: int, b: int| 0 <= a < b < ready@.len() ==> ready@[a] < ready@[b],
                    forall|a: int| 0 <= a < ready@.len() ==> ready@[a] < idx,
                decreases n - idx,
            {
                let ghost rd0 = ready@;
                proof { assert(deps[idx as int] == self.dependencies@[idx as int]@); }
                let free = !executed[idx] && self.deps_done(idx, &executed);
                if free {
                    ready.push(idx);
                    proof { assert forall|y: usize| #[trigger] ready@.contains(y) <==> (rd0.contains(y) || y == idx) by { lemma_push_contains(rd0, idx, y); } }
                } else {
                    proof {
                        if !ex0[idx as int] {
                            let kk = choose|kk: int| 0 <= kk < self.dependencies@[idx as int]@.len()
                                && !executed@[#[trigger] self.dependencies@[idx as int]@[kk] as int];
                            assert(!ex0[deps[idx as int][kk] as int]);
                        }
                        if rd0.contains(idx) {
                            let a = choose|a: int| 0 <= a < rd0.len() && rd0[a] == idx;
                        }
                    }
                }
                idx += 1;
            }
            proof {
                // `lo` is ready: its dependencies are below it, so they ran.
                assert forall|m: int| 0 <= m < deps[lo as int].len() implies ex0[#[trigger] deps[lo as int][m] as int] by {
                    assert(deps[lo as int][m] < lo);
                }
                assert(deps[lo as int] == self.dependencies@[lo as int]@);
                assert(!ex0[lo as int]);
                assert(ready@.contains(lo));
                assert(ready@.no_duplicates()) by {
                    assert forall|a: int, b: int| 0 <= a < ready@.len() && 0 <= b < ready@.len() && a != b implies ready@[a] != ready@[b] by {
                        if a < b { assert(ready@[a] < ready@[b]); } else { assert(ready@[b] < ready@[a]); }
                    }
                }
            }
            let mut q: usize = 0;
            while q < ready.len()
                invariant
                    n == self.dependencies@.len(),
                    q <= ready@.len(),
                    executed@.len() == n,
                    grp.len() == n,
                    forall|a: int| 0 <= a < ready@.len() ==> ready@[a] < n,
                    forall|x: int| 0 <= x < n ==> #[trigger] executed@[x] == (ex0[x] || ready@.subrange(0, q as int).contains(x as usize)),
                    forall|x: int| 0 <= x < n ==> #[trigger] grp[x] == if ready@.subrange(0, q as int).contains(x as usize) { k } else { grp0[x] },
                decreases ready@.len() - q,
            {
                let x = ready[q];
                let ghost e1 = executed@;
                let ghost g1 = grp;
                executed.set(x, true);
                proof {
                    grp = grp.update(x as int, k);
                    assert(ready@.subrange(0, q + 1) =~= ready@.subrange(0, q as int).push(x));
                    assert(executed@ == e1.update(x as int, true));
                    assert forall|y: int| 0 <= y < n implies #[trigger] executed@[y] == (ex0[y] || ready@.subrange(0, q + 1).contains(y as usize)) by {
                        lemma_push_contains(ready@.subrange(0, q as int), x, y as usize);
                        if y != x as int { assert(executed@[y] == e1[y]); }
                    }
                    assert forall|y: int| 0 <= y < n implies #[trigger] grp[y] == if ready@.subrange(0, q + 1).contains(y as usize) { k } else { grp0[y] } by {
                        lemma_push_contains(ready@.subrange(0, q as int), x, y as usize);
                    }
                }
                q += 1;
            }
            proof { assert(ready@.subrange(0, ready@.len() as int) =~= ready@); }
            groups.push(ready);
            proof {
                let g = groups@;
                assert(g[k]@ == ready@);
                assert forall|x: int| 0 <= x < n implies #[trigger] grp[x] == if ready@.contains(x as usize) { k } else { grp0[x] } by {
                    if ready@.contains(x as usize) {
                        let a = choose|a: int| 0 <= a < ready@.len() && ready@[a] == x as usize;
                    }
                }
                assert forall|kk: int, x: usize| 0 <= kk < g.len() implies (#[trigger] g[kk]@.contains(x) <==> x < n && grp[x as int] == kk) by {
                    if kk < k {
                        assert(g[kk] == gs0[kk]);
                        if gs0[kk]@.contains(x) && ready@.contains(x) {
                            assert(!ex0[x as int]);
                        }
                    }
                    if x < n {
                        assert(grp0[x as int] < k);
                        if ready@.contains(x) {
                            assert(grp[x as int] == k);
                        } else {
                            assert(grp[x as int] == grp0[x as int]);
                        }
                    }
                    if ready@.contains(x) {
                        let a = choose|a: int| 0 <= a < ready@.len() && ready@[a] == x;
                        assert(x < n);
                    }
                }
                assert forall|x: int, m: int| 0 <= x < n && grp[x] >= 0 && 0 <= m < deps[x].len()
                    implies 0 <= grp[#[trigger] deps[x][m] as int] < grp[x] by {
                    let d = deps[x][m] as int;
                    assert(deps[x][m] < x);
                    if grp0[x] < 0 {
                        assert(ready@.contains(x as usize));
                        assert(ex0[d]);
                    }
                }
                assert forall|x: int| 0 <= x < n && #[trigger] grp[x] > 0 implies exists|m: int| 0 <= m < deps[x].len()
                    && grp[#[trigger] deps[x][m] as int] == grp[x] - 1 by {
                    if grp0[x] < 0 {
                        assert(ready@.contains(x as usize));
                        let m = choose|m: int| 0 <= m < deps[x].len()
                            && (grp0[#[trigger] deps[x][m] as int] < 0 || grp0[deps[x][m] as int] == k - 1);
                        assert(ex0[deps[x][m] as int]);
                        assert(grp[deps[x][m] as int] == k - 1);
                    } else {
                        assert(!ready@.contains(x as usize));
                        assert(grp0[x] > 0);
                        let m = choose|m: int| 0 <= m < deps[x].len() && grp0[#[trigger] deps[x][m] as int] == grp0[x] - 1;
                        assert(grp[deps[x][m] as int] == grp[x] - 1);
                    }
                }
                assert forall|x: int| 0 <= x < n && #[trigger] grp[x] < 0 && g.len() > 0 implies exists|m: int| 0 <= m < deps[x].len()
                    && (grp[#[trigger] deps[x][m] as int] < 0 || grp[deps[x][m] as int] == g.len() - 1) by {
                    assert(!ready@.contains(x as usize));
                    assert(!ex0[x]);
                    let m = choose|m: int| 0 <= m < deps[x].len() && !ex0[#[trigger] deps[x][m] as int];
                    let d = deps[x][m] as int;
                    assert(grp0[d] < 0);
                }
            }
            proof {
                assert(ready@.subrange(0, ready@.len() as int).contains(lo0));
                assert(executed@[lo0 as int]);
            }
            while lo < n && executed[lo]
                invariant
                    executed@.len() == n,
                    lo0 <= lo <= n,
                    lo0 < n && executed@[lo0 as int],
                    forall|x: int| 0 <= x < lo ==> executed@[x],
                decreases n - lo,
            {
                lo += 1;
            }
        }
        proof {
            let g = groups@;
            assert forall|x: usize| x < self@.deps.len() implies #[trigger] in_some_round(g, x) by {
                assert(executed@[x as int]);
                assert(g[grp[x as int]]@.contains(x));
            }
            assert forall|kk: int, x: usize, d: usize| 0 <= kk < g.len() && #[trigger] g[kk]@.contains(x) && #[trigger] self@.deps[x as int].contains(d)
                implies exists|k2: int| 0 <= k2 < kk && #[trigger] g[k2]@.contains(d) by {
                assert(self@.deps[x as int] == deps[x as int].to_set());
                let m = choose|m: int| 0 <= m < deps[x as int].len() && deps[x as int][m] == d;
                assert(g[grp[d as int]]@.contains(d));
            }
            assert forall|kk: int, x: usize| 0 < kk < g.len() && #[trigger] g[kk]@.contains(x)
                implies exists|d: usize| self@.deps[x as int].contains(d) && #[trigger] g[kk - 1]@.contains(d) by {
                let m = choose|m: int| 0 <= m < deps[x as int].len() && grp[#[trigger] deps[x as int][m] as int] == grp[x as int] - 1;
                let d = deps[x as int][m];
                assert(self@.deps[x as int] == deps[x as int].to_set());
                assert(self@.deps[x as int].contains(d));
                assert(g[kk - 1]@.contains(d));
            }
        }
        groups
    }
}

/// Block-STM scheduler settings.
#[derive(Debug, Clone, Copy, PartialEq, Eq, Structural)]
pub struct BlockStmScheduler {
    /// Worker threads.
    pub num_workers: usize,
    /// Whether execution is optimistic.
    pub optimistic: bool,
}

/// Number of CPUs available to this process (`num_cpus::get`, documented
/// to be at least 1); it depends on the machine.
#[verifier::external_body]
fn available_cpus() -> (r: usize)
    ensures
        r >= 1,
{
    num_cpus::get()
}

impl BlockStmScheduler {
    /// A conservative (non-optimistic) scheduler with `num_workers` workers,
    /// or one per available CPU when `num_workers` is 0.
    pub fn with_workers(num_workers: usize) -> (r: Self)
        ensures
            num_workers > 0 ==> r.num_workers == num_workers,
            num_workers == 0 ==> r.num_workers >= 1,
            !r.optimistic,
    {
        let workers = if num_workers == 0 { available_cpus() } else { num_workers };
        BlockStmScheduler { num_workers: workers, optimistic: false }
    }
}

/// Writes recorded during optimistic execution, to detect conflicts.
pub struct ConflictDetector {
    writes: Vec<(u64, Vec<usize>)>,
}

/// Mathematical content of a [`ConflictDetector`]: for each key, the
/// transactions that wrote it, in recording order.
pub open spec fn writers_seqs(v: Seq<(u64, Vec<usize>)>) -> Seq<(u64, Seq<usize>)> {
    v.map_values(|e: (u64, Vec<usize>)| (e.0, e.1@))
}

impl View for ConflictDetector {
    type V = Map<u64, Seq<usize>>;

    closed spec fn view(&self) -> Map<u64, Seq<usize>> {
        table_map(writers_seqs(self.writes@))
    }
}

/// Whether some key of `reads` was written by a transaction before `tx_index`.
pub open spec fn conflicts(writes: Map<u64, Seq<usize>>, tx_index: usize, reads: Seq<u64>) -> bool {
    exists|i: int, j: int| 0 <= i < reads.len() && writes.contains_key(reads[i])
        && 0 <= j < writes[reads[i]].len() && #[trigger] writes[reads[i]][j] < tx_index
}

impl ConflictDetector {
    #[verifier::type_invariant]
    spec fn inv(self) -> bool {
        keys_unique(writers_seqs(self.writes@))
    }

    /// No writes recorded.
    pub fn new() -> (r: Self)
        ensures
            r@ == Map::<u64, Seq<usize>>::empty(),
    {
        let r = ConflictDetector { writes: Vec::new() };
        proof {
            assert(writers_seqs(r.writes@) =~= Seq::<(u64, Seq<usize>)>::empty());
            lemma_table_empty(writers_seqs(r.writes@));
        }
        r
    }

    fn find_key(&self, key: u64) -> (r: Option<usize>)
        ensures
            r matches Some(i) ==> i < self.writes@.len() && self.writes@[i as int].0 == key,
            r is None ==> !has_key(writers_seqs(self.writes@), key),
    {
        let mut i: usize = 0;
        while i < self.writes.len()
            invariant
                i <= self.writes@.len(),
                forall|j: int| 0 <= j < i ==> self.writes@[j].0 != key,
            decreases self.writes@.len() - i,
        {
            if self.writes[i].0 == key {
                return Some(i);
            }
            i += 1;
        }
        proof {
            assert forall|j: int| 0 <= j < writers_seqs(self.writes@).len() implies writers_seqs(self.writes@)[j].0 != key by {
                assert(writers_seqs(self.writes@)[j].0 == self.writes@[j].0);
            }
        }
        None
    }

    /// Record that transaction `tx_index` wrote `access`.
    pub fn record_write(&mut self, tx_index: usize, access: u64)
        ensures
            final(self)@ == old(self)@.insert(access,
                (if old(self)@.contains_key(access) { old(self)@[access] } else { Seq::empty() }).push(tx_index)),
    {
        proof { use_type_invariant(&*self); }
        let found = self.find_key(access);
        let mut t: Vec<(u64, Vec<usize>)> = Vec::new();
        std::mem::swap(&mut t, &mut self.writes);
        let ghost t0 = t@;
        match found {
            Some(i) => {
                proof { lemma_key_index(writers_seqs(t0), i as int); }
                let (k, mut v) = t.remove(i);
                v.push(tx_index);
                t.insert(i, (k, v));
                proof {
                    assert(t@ =~= t0.update(i as int, (k, v)));
                    assert(writers_seqs(t@) =~= writers_seqs(t0).update(i as int, (k, v@)));
                    lemma_table_update(writers_seqs(t0), i as int, v@);
                }
            },
            None => {
                let mut v: Vec<usize> = Vec::new();
                v.push(tx_index);
                t.push((access, v));
                proof {
                    assert(writers_seqs(t@) =~= writers_seqs(t0).push((access, v@)));
                    lemma_table_push(writers_seqs(t0), access, v@);
                    assert(v@ =~= Seq::<usize>::empty().push(tx_index));
                }
            },
        }
        self.writes = t;
    }

    /// Whether a key read by transaction `tx_index` was written by an
    /// earlier transaction.
    #[verifier::loop_isolation(false)]
    pub fn has_conflict(&self, tx_index: usize, read_set: &Vec<u64>) -> (r: bool)
        ensures
            r == conflicts(self@, tx_index, read_set@),
    {
        proof { use_type_invariant(self); }
        let mut i: usize = 0;
        while i < read_set.len()
            invariant
                i <= read_set@.len(),
                keys_unique(writers_seqs(self.writes@)),
                forall|a: int, j: int| 0 <= a < i && self@.contains_key(read_set@[a])
                    && 0 <= j < self@[read_set@[a]].len() ==> !(#[trigger] self@[read_set@[a]][j] < tx_index),
            decreases read_set@.len() - i,
        {
            let key = read_set[i];
            match self.find_key(key) {
                Some(w) => {
                    proof { lemma_key_index(writers_seqs(self.writes@), w as int); }
                    let writers = &self.writes[w].1;
                    proof {
                        assert(writers_seqs(self.writes@)[w as int].1 == writers@);
                        assert(self@.contains_key(key) && self@[key] == writers@);
                    }
                    let mut j: usize = 0;
                    while j < writers.len()
                        invariant
                            j <= writers@.len(),
                            forall|b: int| 0 <= b < j ==> !(writers@[b] < tx_index),
                        decreases writers@.len() - j,
                    {
                        if writers[j] < tx_index {
                            proof { assert(self@[read_set@[i as int]][j as int] == writers@[j as int]); }
                            return true;
                        }
                        j += 1;
                    }
                    proof {
                        assert(self@[key] == writers@);
                    }
                },
                None => {},
            }
            i += 1;
        }
        false
    }

    /// The nodes whose reads conflict with earlier writes, in order.
    pub fn get_conflicts(&self, nodes: &Vec<TxNode>) -> (r: Vec<usize>)
        ensures
            r@ == nodes@.filter(|n: TxNode| conflicts(self@, n.tx_index, n.read_set@)).map_values(|n: TxNode| n.tx_index),
    {
        let mut r: Vec<usize> = Vec::new();
        let mut i: usize = 0;
        while i < nodes.len()
            invariant
                i <= nodes@.len(),
                r@ == nodes@.take(i as int).filter(|n: TxNode| conflicts(self@, n.tx_index, n.read_set@)).map_values(|n: TxNode| n.tx_index),
            decreases nodes@.len() - i,
        {
            proof {
                assert(nodes@.take(i + 1).drop_last() =~= nodes@.take(i as int));
                reveal(Seq::filter);
            }
            if self.has_conflict(nodes[i].tx_index, &nodes[i].read_set) {
                r.push(nodes[i].tx_index);
            }
            i += 1;
            proof {
                assert(r@ =~= nodes@.take(i as int).filter(|n: TxNode| conflicts(self@, n.tx_index, n.read_set@)).map_values(|n: TxNode| n.tx_index));
            }
        }
        proof { assert(nodes@.take(nodes@.len() as int) =~= nodes@); }
        r
    }
}

impl Default for ConflictDetector {
    fn default() -> (r: Self)
        ensures
            r@ == Map::<u64, Seq<usize>>::empty(),
    {
        ConflictDetector::new()
    }
}

} // verus!
