//! Index of pending transactions by hash and, per sender, by nonce.
use vstd::prelude::*;
use crate::table::{keys_unique, has_key, table_map, lemma_key_index, lemma_table_update, lemma_table_push,
    lemma_table_remove, lemma_table_empty, lemma_table_len};
use crate::types::{Address, Transaction, TxHash};

verus! {

/// Nonces strictly increase along `s`.
pub open spec fn nonces_ascending(s: Seq<(u64, TxHash)>) -> bool {
    forall|i: int, j: int| 0 <= i < j < s.len() ==> #[trigger] s[i].0 < #[trigger] s[j].0
}

/// `s` with `(n, h)` put in nonce order, replacing an entry of nonce `n`.
pub open spec fn nonce_insert(s: Seq<(u64, TxHash)>, n: u64, h: TxHash) -> Seq<(u64, TxHash)>
    decreases s.len(),
{
    if s.len() == 0 {
        seq![(n, h)]
    } else if s.last().0 < n {
        s.push((n, h))
    } else if s.last().0 == n {
        s.drop_last().push((n, h))
    } else {
        nonce_insert(s.drop_last(), n, h).push(s.last())
    }
}

/// `s` without its entry of nonce `n`.
pub open spec fn nonce_remove(s: Seq<(u64, TxHash)>, n: u64) -> Seq<(u64, TxHash)>
    decreases s.len(),
{
    if s.len() == 0 {
        s
    } else if s.last().0 == n {
        s.drop_last()
    } else {
        nonce_remove(s.drop_last(), n).push(s.last())
    }
}

/// Number of leading entries of an ascending `s` with nonce at most `n`.
pub open spec fn count_up_to(s: Seq<(u64, TxHash)>, n: u64) -> nat
    decreases s.len(),
{
    if s.len() == 0 {
        0
    } else if s.last().0 <= n {
        s.len()
    } else {
        count_up_to(s.drop_last(), n)
    }
}

/// The transactions that the hashes of `s` name in `txs`, in order,
/// skipping hashes that name none.
pub open spec fn present_txs(s: Seq<(u64, TxHash)>, txs: Map<TxHash, Transaction>) -> Seq<Transaction>
    decreases s.len(),
{
    if s.len() == 0 {
        Seq::empty()
    } else {
        let rest = present_txs(s.drop_last(), txs);
        if txs.contains_key(s.last().1) { rest.push(txs[s.last().1]) } else { rest }
    }
}

/// Removing the hashes of `s` from `txs` one after the other: the
/// `(hash, transaction)` pairs actually removed, and the map left.
pub open spec fn remove_hashes(s: Seq<(u64, TxHash)>, txs: Map<TxHash, Transaction>) -> (Seq<(TxHash, Transaction)>, Map<TxHash, Transaction>)
    decreases s.len(),
{
    if s.len() == 0 {
        (Seq::empty(), txs)
    } else {
        let (out, m) = remove_hashes(s.drop_last(), txs);
        let h = s.last().1;
        if m.contains_key(h) { (out.push((h, m[h])), m.remove(h)) } else { (out, m) }
    }
}

/// Mathematical content of a [`TransactionIndex`]: transactions by hash,
/// and for each sender its `(nonce, hash)` entries in nonce order.
pub struct TxIndexView {
    pub txs: Map<TxHash, Transaction>,
    pub by_sender: Map<Address, Seq<(u64, TxHash)>>,
}

impl TxIndexView {
    /// The `(nonce, hash)` entries of `sender`, in nonce order.
    pub open spec fn nonces(self, sender: Address) -> Seq<(u64, TxHash)> {
        if self.by_sender.contains_key(sender) { self.by_sender[sender] } else { Seq::empty() }
    }

    /// Whether `sender` has an entry with nonce `nonce`.
    pub open spec fn has_nonce(self, sender: Address, nonce: u64) -> bool {
        exists|i: int| 0 <= i < self.nonces(sender).len() && #[trigger] self.nonces(sender)[i].0 == nonce
    }

    /// The entries of `sender` after one of them is dropped (the sender is
    /// forgotten when none is left).
    pub open spec fn with_nonces(self, sender: Address, s: Seq<(u64, TxHash)>) -> Map<Address, Seq<(u64, TxHash)>> {
        if s.len() == 0 { self.by_sender.remove(sender) } else { self.by_sender.insert(sender, s) }
    }
}

proof fn lemma_nonce_insert_at(s: Seq<(u64, TxHash)>, n: u64, h: TxHash, j: int)
    requires
        0 <= j <= s.len(),
        j == 0 || s[j - 1].0 <= n,
        forall|k: int| j <= k < s.len() ==> s[k].0 > n,
    ensures
        nonce_insert(s, n, h) == if j > 0 && s[j - 1].0 == n { s.update(j - 1, (n, h)) } else { s.insert(j, (n, h)) },
    decreases s.len(),
{
    if s.len() == 0 {
        assert(s.insert(j, (n, h)) =~= seq![(n, h)]);
    } else if j == s.len() {
        if s.last().0 == n {
            assert(s.update(j - 1, (n, h)) =~= s.drop_last().push((n, h)));
        } else {
            assert(s.insert(j, (n, h)) =~= s.push((n, h)));
        }
    } else {
        lemma_nonce_insert_at(s.drop_last(), n, h, j);
        if j > 0 && s[j - 1].0 == n {
            assert(s.update(j - 1, (n, h)) =~= s.drop_last().update(j - 1, (n, h)).push(s.last()));
        } else {
            assert(s.insert(j, (n, h)) =~= s.drop_last().insert(j, (n, h)).push(s.last()));
        }
    }
}

proof fn lemma_nonce_insert_ascending(s: Seq<(u64, TxHash)>, n: u64, h: TxHash)
    requires
        nonces_ascending(s),
    ensures
        nonces_ascending(nonce_insert(s, n, h)),
        nonce_insert(s, n, h).len() > 0,
        nonce_insert(s, n, h).contains((n, h)),
    decreases s.len(),
{
    let r = nonce_insert(s, n, h);
    if s.len() == 0 {
        assert(r[0] == (n, h));
    } else if s.last().0 < n {
        assert(r[s.len() as int] == (n, h));
    } else if s.last().0 == n {
        assert(r[s.len() - 1] == (n, h));
    } else {
        let t = nonce_insert(s.drop_last(), n, h);
        lemma_nonce_insert_ascending(s.drop_last(), n, h);
        lemma_nonce_insert_bounded(s.drop_last(), n, h, s.last().0);
        let w = choose|i: int| 0 <= i < t.len() && t[i] == (n, h);
        assert(r[w] == (n, h));
    }
}

proof fn lemma_nonce_insert_bounded(s: Seq<(u64, TxHash)>, n: u64, h: TxHash, b: u64)
    requires
        forall|i: int| 0 <= i < s.len() ==> s[i].0 < b,
        n < b,
    ensures
        forall|i: int| 0 <= i < nonce_insert(s, n, h).len() ==> nonce_insert(s, n, h)[i].0 < b,
    decreases s.len(),
{
    let r = nonce_insert(s, n, h);
    if s.len() > 0 && s.last().0 > n {
        lemma_nonce_insert_bounded(s.drop_last(), n, h, b);
        let t = nonce_insert(s.drop_last(), n, h);
        assert forall|i: int| 0 <= i < r.len() implies r[i].0 < b by {
            if i < t.len() { assert(r[i] == t[i]); } else { assert(r[i] == s.last()); }
        }
    } else if s.len() > 0 {
        assert forall|i: int| 0 <= i < r.len() implies r[i].0 < b by {
            if i < s.len() - 1 { assert(r[i] == s[i]); }
        }
    }
}

proof fn lemma_nonce_remove_at(s: Seq<(u64, TxHash)>, n: u64, i: int)
    requires
        nonces_ascending(s),
        0 <= i < s.len(),
        s[i].0 == n,
    ensures
        nonce_remove(s, n) == s.remove(i),
    decreases s.len(),
{
    if i == s.len() - 1 {
        assert(s.remove(i) =~= s.drop_last());
    } else {
        assert(s.last().0 > n);
        lemma_nonce_remove_at(s.drop_last(), n, i);
        assert(s.remove(i) =~= s.drop_last().remove(i).push(s.last()));
    }
}

proof fn lemma_nonce_remove_absent(s: Seq<(u64, TxHash)>, n: u64)
    requires
        forall|i: int| 0 <= i < s.len() ==> s[i].0 != n,
    ensures
        nonce_remove(s, n) == s,
    decreases s.len(),
{
    if s.len() > 0 {
        lemma_nonce_remove_absent(s.drop_last(), n);
        assert(s.drop_last().push(s.last()) =~= s);
    }
}

proof fn lemma_count_up_to(s: Seq<(u64, TxHash)>, n: u64, k: int)
    requires
        nonces_ascending(s),
        0 <= k <= s.len(),
        forall|i: int| 0 <= i < k ==> s[i].0 <= n,
        k == s.len() || s[k].0 > n,
    ensures
        count_up_to(s, n) == k,
    decreases s.len(),
{
    if s.len() > 0 && k < s.len() {
        lemma_count_up_to(s.drop_last(), n, k);
    }
}

proof fn lemma_present_txs_step(s: Seq<(u64, TxHash)>, txs: Map<TxHash, Transaction>, i: int)
    requires
        0 <= i < s.len(),
    ensures
        present_txs(s.take(i + 1), txs) == if txs.contains_key(s[i].1) {
            present_txs(s.take(i), txs).push(txs[s[i].1])
        } else {
            present_txs(s.take(i), txs)
        },
{
    assert(s.take(i + 1).drop_last() =~= s.take(i));
}

proof fn lemma_remove_hashes_step(s: Seq<(u64, TxHash)>, txs: Map<TxHash, Transaction>, i: int)
    requires
        0 <= i < s.len(),
    ensures
        remove_hashes(s.take(i + 1), txs) == ({
            let (out, m) = remove_hashes(s.take(i), txs);
            let h = s[i].1;
            if m.contains_key(h) { (out.push((h, m[h])), m.remove(h)) } else { (out, m) }
        }),
{
    assert(s.take(i + 1).drop_last() =~= s.take(i));
}

/// Index of pending transactions: by hash, and per sender by nonce.
pub struct TransactionIndex {
    txs: Vec<(TxHash, Transaction)>,
    by_sender: Vec<(Address, Vec<(u64, TxHash)>)>,
}

impl TransactionIndex {
    /// The per-sender table, with each sender's entries as a sequence.
    pub closed spec fn sender_table(&self) -> Seq<(Address, Seq<(u64, TxHash)>)> {
        sender_seqs(self.by_sender@)
    }

    #[verifier::type_invariant]
    spec fn inv(self) -> bool {
        &&& keys_unique(self.txs@)
        &&& keys_unique(self.sender_table())
        &&& forall|i: int| 0 <= i < self.by_sender@.len()
            ==> (#[trigger] self.by_sender@[i]).1@.len() > 0 && nonces_ascending(self.by_sender@[i].1@)
    }
}

impl View for TransactionIndex {
    type V = TxIndexView;

    closed spec fn view(&self) -> TxIndexView {
        TxIndexView { txs: table_map(self.txs@), by_sender: table_map(self.sender_table()) }
    }
}

/// The per-sender table with each sender's entries as a sequence.
pub open spec fn sender_seqs(v: Seq<(Address, Vec<(u64, TxHash)>)>) -> Seq<(Address, Seq<(u64, TxHash)>)> {
    v.map_values(|e: (Address, Vec<(u64, TxHash)>)| (e.0, e.1@))
}

/// Put `(n, h)` into an ascending list of entries, replacing nonce `n`.
fn insert_nonce(v: &mut Vec<(u64, TxHash)>, n: u64, h: TxHash)
    requires
        nonces_ascending(old(v)@),
    ensures
        final(v)@ == nonce_insert(old(v)@, n, h),
        nonces_ascending(final(v)@),
        final(v)@.len() > 0,
{
    proof { lemma_nonce_insert_ascending(v@, n, h); }
    let mut j: usize = v.len();
    while j > 0 && v[j - 1].0 > n
        invariant
            j <= v@.len(),
            forall|k: int| j <= k < v@.len() ==> v@[k].0 > n,
        decreases j,
    {
        j -= 1;
    }
    proof { lemma_nonce_insert_at(v@, n, h, j as int); }
    if j > 0 && v[j - 1].0 == n {
        v.set(j - 1, (n, h));
    } else {
        v.insert(j, (n, h));
    }
}

/// Position of the entry of nonce `n`, if any.
fn find_nonce(v: &Vec<(u64, TxHash)>, n: u64) -> (r: Option<usize>)
    ensures
        r matches Some(i) ==> i < v@.len() && v@[i as int].0 == n,
        r is None ==> forall|i: int| 0 <= i < v@.len() ==> v@[i].0 != n,
{
    let mut i: usize = 0;
    while i < v.len()
        invariant
            i <= v@.len(),
            forall|j: int| 0 <= j < i ==> v@[j].0 != n,
        decreases v@.len() - i,
    {
        if v[i].0 == n {
            return Some(i);
        }
        i += 1;
    }
    None
}

impl TransactionIndex {
    /// An empty index.
    pub fn new() -> (r: Self)
        ensures
            r@.txs == Map::<TxHash, Transaction>::empty(),
            r@.by_sender == Map::<Address, Seq<(u64, TxHash)>>::empty(),
    {
        let r = TransactionIndex { txs: Vec::new(), by_sender: Vec::new() };
        proof {
            lemma_table_empty(r.txs@);
            assert(r.sender_table() =~= Seq::<(Address, Seq<(u64, TxHash)>)>::empty());
            lemma_table_empty(r.sender_table());
        }
        r
    }

    fn find_tx(&self, h: &TxHash) -> (r: Option<usize>)
        ensures
            r matches Some(i) ==> i < self.txs@.len() && self.txs@[i as int].0 == *h,
            r is None ==> !has_key(self.txs@, *h),
    {
        let mut i: usize = 0;
        while i < self.txs.len()
            invariant
                i <= self.txs@.len(),
                forall|j: int| 0 <= j < i ==> self.txs@[j].0 != *h,
            decreases self.txs@.len() - i,
        {
            if self.txs[i].0 == *h {
                return Some(i);
            }
            i += 1;
        }
        None
    }

    fn find_sender(&self, sender: &Address) -> (r: Option<usize>)
        ensures
            r matches Some(i) ==> i < self.by_sender@.len() && self.by_sender@[i as int].0 == *sender,
            r is None ==> !has_key(self.sender_table(), *sender),
    {
        let mut i: usize = 0;
        while i < self.by_sender.len()
            invariant
                i <= self.by_sender@.len(),
                forall|j: int| 0 <= j < i ==> self.by_sender@[j].0 != *sender,
            decreases self.by_sender@.len() - i,
        {
            if self.by_sender[i].0 == *sender {
                return Some(i);
            }
            i += 1;
        }
        proof {
            assert forall|j: int| 0 <= j < self.sender_table().len() implies self.sender_table()[j].0 != *sender by {
                assert(self.sender_table()[j].0 == self.by_sender@[j].0);
            }
        }
        None
    }

    /// Store a transaction under its hash and file it under its sender and
    /// nonce (an entry of the same sender and nonce is replaced).
    pub fn insert(&mut self, tx: Transaction) -> (r: TxHash)
        ensures
            r == tx.tx_hash,
            final(self)@.txs == old(self)@.txs.insert(tx.tx_hash, tx),
            final(self)@.by_sender == old(self)@.by_sender.insert(tx.from, nonce_insert(old(self)@.nonces(tx.from), tx.nonce, tx.tx_hash)),
    {
        proof { use_type_invariant(&*self); }
        let h = tx.hash();
        let sender = tx.from;
        let nonce = tx.nonce;
        let found = self.find_tx(&h);
        let mut t: Vec<(TxHash, Transaction)> = Vec::new();
        std::mem::swap(&mut t, &mut self.txs);
        match found {
            Some(i) => {
                proof { lemma_table_update(t@, i as int, tx); }
                t.set(i, (h, tx));
            },
            None => {
                proof { lemma_table_push(t@, h, tx); }
                t.push((h, tx));
            },
        }
        self.txs = t;
        let fs = self.find_sender(&sender);
        let mut b: Vec<(Address, Vec<(u64, TxHash)>)> = Vec::new();
        std::mem::swap(&mut b, &mut self.by_sender);
        let ghost b0 = b@;
        proof { assert(sender_seqs(b0) == old(self).sender_table()); }
        match fs {
            Some(i) => {
                let (a, mut inner) = b.remove(i);
                proof { lemma_key_index(sender_seqs(b0), i as int); }
                insert_nonce(&mut inner, nonce, h);
                b.insert(i, (a, inner));
                proof {
                    assert(b@ =~= b0.update(i as int, (a, inner)));
                    assert(sender_seqs(b@) =~= sender_seqs(b0).update(i as int, (a, inner@)));
                    lemma_table_update(sender_seqs(b0), i as int, inner@);
                    assert forall|k: int| 0 <= k < b@.len() implies (#[trigger] b@[k]).1@.len() > 0 && nonces_ascending(b@[k].1@) by {
                        if k != i { assert(b@[k] == b0[k]); }
                    }
                }
            },
            None => {
                let mut inner: Vec<(u64, TxHash)> = Vec::new();
                inner.push((nonce, h));
                b.push((sender, inner));
                proof {
                    assert(sender_seqs(b@) =~= sender_seqs(b0).push((sender, inner@)));
                    lemma_table_push(sender_seqs(b0), sender, inner@);
                    assert(inner@ =~= nonce_insert(Seq::empty(), nonce, h));
                    assert forall|k: int| 0 <= k < b@.len() implies (#[trigger] b@[k]).1@.len() > 0 && nonces_ascending(b@[k].1@) by {
                        if k < b0.len() { assert(b@[k] == b0[k]); }
                    }
                }
            },
        }
        self.by_sender = b;
        h
    }

    /// Remove a transaction by hash, and its entry under its sender and
    /// nonce (the sender is forgotten once none is left).
    pub fn remove(&mut self, tx_hash: &TxHash) -> (r: Option<Transaction>)
        ensures
            !old(self)@.txs.contains_key(*tx_hash) ==> r is None && final(self)@ == old(self)@,
            old(self)@.txs.contains_key(*tx_hash) ==> ({
                let tx = old(self)@.txs[*tx_hash];
                &&& r == Some(tx)
                &&& final(self)@.txs == old(self)@.txs.remove(*tx_hash)
                &&& final(self)@.by_sender == old(self)@.with_nonces(tx.from, nonce_remove(old(self)@.nonces(tx.from), tx.nonce))
            }),
    {
        proof { use_type_invariant(&*self); }
        let found = self.find_tx(tx_hash);
        let i = match found {
            Some(i) => i,
            None => { return None; },
        };
        let tx = self.txs[i].1;
        proof { lemma_key_index(self.txs@, i as int); }
        let mut t: Vec<(TxHash, Transaction)> = Vec::new();
        std::mem::swap(&mut t, &mut self.txs);
        proof { lemma_table_remove(t@, i as int); }
        t.remove(i);
        self.txs = t;
        let fs = self.find_sender(&tx.from);
        match fs {
            None => {
                proof {
                    assert(old(self)@.with_nonces(tx.from, nonce_remove(old(self)@.nonces(tx.from), tx.nonce)) =~= old(self)@.by_sender);
                }
            },
            Some(j) => {
                let mut b: Vec<(Address, Vec<(u64, TxHash)>)> = Vec::new();
                std::mem::swap(&mut b, &mut self.by_sender);
                let ghost b0 = b@;
                proof {
                    assert(sender_seqs(b0) == old(self).sender_table());
                    lemma_key_index(sender_seqs(b0), j as int);
                }
                let (a, mut inner) = b.remove(j);
                proof { assert(inner@ == old(self)@.nonces(tx.from)); }
                match find_nonce(&inner, tx.nonce) {
                    Some(k) => {
                        proof { lemma_nonce_remove_at(inner@, tx.nonce, k as int); }
                        inner.remove(k);
                    },
                    None => {
                        proof { lemma_nonce_remove_absent(inner@, tx.nonce); }
                    },
                }
                proof {
                    assert forall|x: int, y: int| 0 <= x < y < inner@.len() implies #[trigger] inner@[x].0 < #[trigger] inner@[y].0 by {
                        let s0 = old(self)@.nonces(tx.from);
                        let r0 = nonce_remove(s0, tx.nonce);
                        assert(inner@ == r0);
                    }
                }
                if inner.len() == 0 {
                    proof {
                        assert(sender_seqs(b@) =~= sender_seqs(b0).remove(j as int));
                        lemma_table_remove(sender_seqs(b0), j as int);
                        assert forall|k: int| 0 <= k < b@.len() implies (#[trigger] b@[k]).1@.len() > 0 && nonces_ascending(b@[k].1@) by {
                            if k < j { assert(b@[k] == b0[k]); } else { assert(b@[k] == b0[k + 1]); }
                        }
                    }
                } else {
                    b.insert(j, (a, inner));
                    proof {
                        assert(b@ =~= b0.update(j as int, (a, inner)));
                        assert(sender_seqs(b@) =~= sender_seqs(b0).update(j as int, (a, inner@)));
                        lemma_table_update(sender_seqs(b0), j as int, inner@);
                        assert forall|k: int| 0 <= k < b@.len() implies (#[trigger] b@[k]).1@.len() > 0 && nonces_ascending(b@[k].1@) by {
                            if k != j { assert(b@[k] == b0[k]); }
                        }
                    }
                }
                self.by_sender = b;
            },
        }
        Some(tx)
    }

    /// The transaction stored under `tx_hash`, if any.
    pub fn get(&self, tx_hash: &TxHash) -> (r: Option<Transaction>)
        ensures
            r == if self@.txs.contains_key(*tx_hash) { Some(self@.txs[*tx_hash]) } else { None::<Transaction> },
    {
        proof { use_type_invariant(self); }
        match self.find_tx(tx_hash) {
            Some(i) => {
                proof { lemma_key_index(self.txs@, i as int); }
                Some(self.txs[i].1)
            },
            None => None,
        }
    }

    /// Whether a transaction is stored under `tx_hash`.
    pub fn contains(&self, tx_hash: &TxHash) -> (r: bool)
        ensures
            r == self@.txs.contains_key(*tx_hash),
    {
        proof { use_type_invariant(self); }
        match self.find_tx(tx_hash) {
            Some(i) => {
                proof { lemma_key_index(self.txs@, i as int); }
                true
            },
            None => false,
        }
    }

    /// Number of senders with pending transactions.
    pub fn sender_count(&self) -> (r: usize)
        ensures
            r == self@.by_sender.dom().len(),
    {
        proof { use_type_invariant(self); lemma_table_len(self.sender_table()); }
        self.by_sender.len()
    }

    /// Number of stored transactions.
    pub fn len(&self) -> (r: usize)
        ensures
            r == self@.txs.dom().len(),
            self@.txs.dom().finite(),
    {
        proof { use_type_invariant(self); lemma_table_len(self.txs@); }
        self.txs.len()
    }

    /// Whether no transaction is stored.
    pub fn is_empty(&self) -> (r: bool)
        ensures
            r == (self@.txs.dom().len() == 0),
    {
        proof { use_type_invariant(self); lemma_table_len(self.txs@); }
        self.txs.len() == 0
    }

    /// Forget every transaction.
    pub fn clear(&mut self)
        ensures
            final(self)@.txs == Map::<TxHash, Transaction>::empty(),
            final(self)@.by_sender == Map::<Address, Seq<(u64, TxHash)>>::empty(),
    {
        proof { use_type_invariant(&*self); }
        self.txs = Vec::new();
        self.by_sender = Vec::new();
        proof {
            lemma_table_empty(self.txs@);
            assert(self.sender_table() =~= Seq::<(Address, Seq<(u64, TxHash)>)>::empty());
            lemma_table_empty(self.sender_table());
        }
    }

    /// The pending transactions of `sender`, in nonce order.
    pub fn get_by_sender(&self, sender: &Address) -> (r: Vec<Transaction>)
        ensures
            r@ == present_txs(self@.nonces(*sender), self@.txs),
    {
        proof { use_type_invariant(self); }
        let mut r: Vec<Transaction> = Vec::new();
        match self.find_sender(sender) {
            None => {},
            Some(j) => {
                proof {
                    lemma_key_index(self.sender_table(), j as int);
                    assert(self.by_sender@[j as int].1@ == self@.nonces(*sender));
                }
                let inner = &self.by_sender[j].1;
                let mut i: usize = 0;
                while i < inner.len()
                    invariant
                        i <= inner@.len(),
                        r@ == present_txs(inner@.take(i as int), self@.txs),
                    decreases inner@.len() - i,
                {
                    proof { lemma_present_txs_step(inner@, self@.txs, i as int); }
                    match self.get(&inner[i].1) {
                        Some(tx) => { r.push(tx); },
                        None => {},
                    }
                    i += 1;
                }
                proof { assert(inner@.take(inner@.len() as int) =~= inner@); }
            },
        }
        r
    }

    /// Number of pending transactions of `sender`.
    pub fn sender_tx_count(&self, sender: &Address) -> (r: usize)
        ensures
            r == self@.nonces(*sender).len(),
    {
        proof { use_type_invariant(self); }
        match self.find_sender(sender) {
            None => 0,
            Some(j) => {
                proof { lemma_key_index(self.sender_table(), j as int); }
                self.by_sender[j].1.len()
            },
        }
    }

    /// Highest pending nonce of `sender`.
    pub fn get_highest_nonce(&self, sender: &Address) -> (r: Option<u64>)
        ensures
            r == if self@.nonces(*sender).len() > 0 { Some(self@.nonces(*sender).last().0) } else { None::<u64> },
    {
        proof { use_type_invariant(self); }
        match self.find_sender(sender) {
            None => None,
            Some(j) => {
                proof { lemma_key_index(self.sender_table(), j as int); }
                let inner = &self.by_sender[j].1;
                if inner.len() == 0 { None } else { Some(inner[inner.len() - 1].0) }
            },
        }
    }

    /// Lowest pending nonce of `sender`.
    pub fn get_lowest_nonce(&self, sender: &Address) -> (r: Option<u64>)
        ensures
            r == if self@.nonces(*sender).len() > 0 { Some(self@.nonces(*sender)[0].0) } else { None::<u64> },
    {
        proof { use_type_invariant(self); }
        match self.find_sender(sender) {
            None => None,
            Some(j) => {
                proof { lemma_key_index(self.sender_table(), j as int); }
                let inner = &self.by_sender[j].1;
                if inner.len() == 0 { None } else { Some(inner[0].0) }
            },
        }
    }

    /// Whether `sender` has a pending transaction with nonce `nonce`.
    pub fn has_nonce(&self, sender: &Address, nonce: u64) -> (r: bool)
        ensures
            r == self@.has_nonce(*sender, nonce),
    {
        proof { use_type_invariant(self); }
        match self.find_sender(sender) {
            None => false,
            Some(j) => {
                proof { lemma_key_index(self.sender_table(), j as int); }
                match find_nonce(&self.by_sender[j].1, nonce) {
                    Some(k) => {
                        proof { assert(self@.nonces(*sender)[k as int].0 == nonce); }
                        true
                    },
                    None => false,
                }
            },
        }
    }

    /// The senders with pending transactions, each once.
    pub fn get_all_senders(&self) -> (r: Vec<Address>)
        ensures
            r@.no_duplicates(),
            forall|a: Address| r@.contains(a) <==> self@.by_sender.contains_key(a),
    {
        proof { use_type_invariant(self); }
        let mut r: Vec<Address> = Vec::new();
        let mut i: usize = 0;
        while i < self.by_sender.len()
            invariant
                i <= self.by_sender@.len(),
                r@.len() == i,
                forall|k: int| 0 <= k < i ==> r@[k] == self.by_sender@[k].0,
                keys_unique(self.sender_table()),
            decreases self.by_sender@.len() - i,
        {
            r.push(self.by_sender[i].0);
            i += 1;
        }
        proof {
            assert forall|x: int, y: int| 0 <= x < r@.len() && 0 <= y < r@.len() && x != y implies r@[x] != r@[y] by {
                assert(self.sender_table()[x].0 == r@[x] && self.sender_table()[y].0 == r@[y]);
            }
            assert forall|a: Address| r@.contains(a) <==> self@.by_sender.contains_key(a) by {
                if r@.contains(a) {
                    let k = choose|k: int| 0 <= k < r@.len() && r@[k] == a;
                    lemma_key_index(self.sender_table(), k);
                }
                if self@.by_sender.contains_key(a) {
                    let k = crate::table::key_index(self.sender_table(), a);
                    assert(r@[k] == a);
                }
            }
        }
        r
    }

    /// The senders with pending transactions (see [`Self::get_all_senders`]).
    pub fn senders_iter(&self) -> (r: Vec<Address>)
        ensures
            r@.no_duplicates(),
            forall|a: Address| r@.contains(a) <==> self@.by_sender.contains_key(a),
    {
        self.get_all_senders()
    }

    /// The pending transactions of `sender` (see [`Self::get_by_sender`]).
    pub fn sender_txs_iter(&self, sender: &Address) -> (r: Vec<Transaction>)
        ensures
            r@ == present_txs(self@.nonces(*sender), self@.txs),
    {
        self.get_by_sender(sender)
    }

    /// All stored `(hash, transaction)` pairs, each hash once.
    pub fn iter(&self) -> (r: Vec<(TxHash, Transaction)>)
        ensures
            keys_unique(r@),
            table_map(r@) == self@.txs,
    {
        proof { use_type_invariant(self); }
        let mut r: Vec<(TxHash, Transaction)> = Vec::new();
        let mut i: usize = 0;
        while i < self.txs.len()
            invariant
                i <= self.txs@.len(),
                r@ == self.txs@.take(i as int),
            decreases self.txs@.len() - i,
        {
            r.push(self.txs[i]);
            i += 1;
            proof { assert(r@ =~= self.txs@.take(i as int)); }
        }
        proof { assert(r@ =~= self.txs@); }
        r
    }

    fn take_tx(&mut self, tx_hash: &TxHash) -> (r: Option<Transaction>)
        ensures
            r == if old(self)@.txs.contains_key(*tx_hash) { Some(old(self)@.txs[*tx_hash]) } else { None::<Transaction> },
            final(self)@.txs == old(self)@.txs.remove(*tx_hash),
            final(self).sender_table() == old(self).sender_table(),
            final(self).by_sender@ == old(self).by_sender@,
    {
        proof { use_type_invariant(&*self); }
        match self.find_tx(tx_hash) {
            Some(i) => {
                proof { lemma_key_index(self.txs@, i as int); }
                let tx = self.txs[i].1;
                let mut t: Vec<(TxHash, Transaction)> = Vec::new();
                std::mem::swap(&mut t, &mut self.txs);
                proof { lemma_table_remove(t@, i as int); }
                t.remove(i);
                self.txs = t;
                Some(tx)
            },
            None => {
                proof { assert(table_map(self.txs@).remove(*tx_hash) =~= table_map(self.txs@)); }
                None
            },
        }
    }

    /// Remove every pending transaction of `sender` with a nonce up to and
    /// including `nonce`; returns the `(hash, transaction)` pairs removed, in
    /// nonce order.
    pub fn remove_up_to_nonce(&mut self, sender: &Address, nonce: u64) -> (r: Vec<(TxHash, Transaction)>)
        ensures
            ({
                let s = old(self)@.nonces(*sender);
                let k = count_up_to(s, nonce) as int;
                let (out, m) = remove_hashes(s.take(k), old(self)@.txs);
                &&& r@ == out
                &&& final(self)@.txs == m
                &&& final(self)@.by_sender == old(self)@.with_nonces(*sender, s.skip(k))
            }),
    {
        proof { use_type_invariant(&*self); }
        let fs = self.find_sender(sender);
        let j = match fs {
            None => {
                proof {
                    assert(old(self)@.with_nonces(*sender, Seq::empty()) =~= old(self)@.by_sender);
                    assert(old(self)@.nonces(*sender).take(0) =~= Seq::<(u64, TxHash)>::empty());
                    assert(old(self)@.nonces(*sender).skip(0) =~= Seq::<(u64, TxHash)>::empty());
                }
                return Vec::new();
            },
            Some(j) => j,
        };
        let mut b: Vec<(Address, Vec<(u64, TxHash)>)> = Vec::new();
        std::mem::swap(&mut b, &mut self.by_sender);
        let ghost b0 = b@;
        proof {
            assert(sender_seqs(b0) == old(self).sender_table());
            lemma_key_index(sender_seqs(b0), j as int);
        }
        let (a, mut inner) = b.remove(j);
        let ghost s0 = inner@;
        proof { assert(s0 == old(self)@.nonces(*sender)); }
        let mut k: usize = 0;
        while k < inner.len() && inner[k].0 <= nonce
            invariant
                k <= inner@.len(),
                forall|x: int| 0 <= x < k ==> inner@[x].0 <= nonce,
            decreases inner@.len() - k,
        {
            k += 1;
        }
        proof { lemma_count_up_to(inner@, nonce, k as int); }
        let ghost txs0 = self@.txs;
        proof { assert(txs0 == old(self)@.txs); }
        let mut removed: Vec<(TxHash, Transaction)> = Vec::new();
        let mut i: usize = 0;
        while i < k
            invariant
                i <= k <= inner@.len(),
                inner@ == s0,
                (removed@, self@.txs) == remove_hashes(s0.take(i as int), txs0),
            decreases k - i,
        {
            proof { lemma_remove_hashes_step(s0, txs0, i as int); }
            let h = inner[i].1;
            match self.take_tx(&h) {
                Some(tx) => { removed.push((h, tx)); },
                None => {},
            }
            i += 1;
        }
        proof { use_type_invariant(&*self); }
        let tail = inner.split_off(k);
        proof {
            assert(tail@ =~= s0.skip(k as int));
            assert(nonces_ascending(tail@)) by {
                assert forall|x: int, y: int| 0 <= x < y < tail@.len() implies #[trigger] tail@[x].0 < #[trigger] tail@[y].0 by {
                    assert(tail@[x] == s0[x + k] && tail@[y] == s0[y + k]);
                }
            }
        }
        if tail.len() == 0 {
            proof {
                assert(sender_seqs(b@) =~= sender_seqs(b0).remove(j as int));
                lemma_table_remove(sender_seqs(b0), j as int);
                assert forall|q: int| 0 <= q < b@.len() implies (#[trigger] b@[q]).1@.len() > 0 && nonces_ascending(b@[q].1@) by {
                    if q < j { assert(b@[q] == b0[q]); } else { assert(b@[q] == b0[q + 1]); }
                }
            }
        } else {
            b.insert(j, (a, tail));
            proof {
                assert(b@ =~= b0.update(j as int, (a, tail)));
                assert(sender_seqs(b@) =~= sender_seqs(b0).update(j as int, (a, tail@)));
                lemma_table_update(sender_seqs(b0), j as int, tail@);
                assert forall|q: int| 0 <= q < b@.len() implies (#[trigger] b@[q]).1@.len() > 0 && nonces_ascending(b@[q].1@) by {
                    if q != j { assert(b@[q] == b0[q]); }
                }
            }
        }
        self.by_sender = b;
        removed
    }
}

impl Default for TransactionIndex {
    fn default() -> (r: Self)
        ensures
            r@.txs == Map::<TxHash, Transaction>::empty(),
            r@.by_sender == Map::<Address, Seq<(u64, TxHash)>>::empty(),
    {
        TransactionIndex::new()
    }
}

} // verus!
