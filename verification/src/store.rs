//! An in-memory model of the bounded file store that backs the cache: a
//! key-to-bytes map under a fixed byte budget. Inserting keeps the budget by
//! evicting the oldest entries first; reading has no side effect. The cache
//! layer wraps this store and never tracks capacity itself.

use vstd::prelude::*;

verus! {

/// The abstract contents of a store: its entries in insertion order, oldest
/// first, each a key with the raw bytes kept for it.
pub type StoreView = Seq<(Seq<char>, Seq<u8>)>;

/// Whether some entry of `s` has key `k`.
pub open spec fn seq_contains_key(s: StoreView, k: Seq<char>) -> bool {
    exists|i: int| 0 <= i < s.len() && s[i].0 == k
}

/// The index of the entry with key `k`, when one exists.
pub open spec fn index_of_key(s: StoreView, k: Seq<char>) -> int {
    choose|i: int| 0 <= i < s.len() && s[i].0 == k
}

/// The bytes kept under key `k`, when an entry with that key exists.
pub open spec fn value_of_key(s: StoreView, k: Seq<char>) -> Seq<u8> {
    s[index_of_key(s, k)].1
}

/// `s` without its entry for key `k`, order otherwise unchanged; `s` itself
/// when it has no such entry.
pub open spec fn remove_key(s: StoreView, k: Seq<char>) -> StoreView {
    if seq_contains_key(s, k) {
        s.remove(index_of_key(s, k))
    } else {
        s
    }
}

/// No two entries of `s` share a key.
pub open spec fn unique_keys(s: StoreView) -> bool {
    forall|i: int, j: int| 0 <= i < j < s.len() ==> (#[trigger] s[i]).0 != (#[trigger] s[j]).0
}

/// The bytes that `s` occupies: the sum of the lengths of its values.
pub open spec fn total_size(s: StoreView) -> nat
    decreases s.len(),
{
    if s.len() == 0 {
        0
    } else {
        s[0].1.len() + total_size(s.drop_first())
    }
}

proof fn lemma_index_of_key(s: StoreView, k: Seq<char>)
    requires
        unique_keys(s),
        seq_contains_key(s, k),
    ensures
        0 <= index_of_key(s, k) < s.len(),
        s[index_of_key(s, k)].0 == k,
        forall|j: int| 0 <= j < s.len() && (#[trigger] s[j]).0 == k ==> j == index_of_key(s, k),
{
    let i = index_of_key(s, k);
    assert(0 <= i < s.len() && s[i].0 == k);
    assert forall|j: int| 0 <= j < s.len() && (#[trigger] s[j]).0 == k implies j == i by {
        if j < i {
            assert(s[j].0 != s[i].0);
        } else if i < j {
            assert(s[i].0 != s[j].0);
        }
    }
}

proof fn lemma_total_size_skip(s: StoreView, i: int)
    requires
        0 <= i < s.len(),
    ensures
        total_size(s.skip(i)) == s[i].1.len() + total_size(s.skip(i + 1)),
{
    assert(s.skip(i)[0] == s[i]);
    assert(s.skip(i).drop_first() =~= s.skip(i + 1));
}

proof fn lemma_total_size_push(s: StoreView, e: (Seq<char>, Seq<u8>))
    ensures
        total_size(s.push(e)) == total_size(s) + e.1.len(),
    decreases s.len(),
{
    if s.len() == 0 {
        assert(s.push(e).drop_first() =~= Seq::<(Seq<char>, Seq<u8>)>::empty());
        assert(s.push(e)[0] == e);
        assert(total_size(s.push(e).drop_first()) == 0);
        assert(total_size(s.push(e)) == s.push(e)[0].1.len() + total_size(s.push(e).drop_first()));
        assert(total_size(s) == 0);
    } else {
        assert(s.push(e)[0] == s[0]);
        assert(s.push(e).drop_first() =~= s.drop_first().push(e));
        lemma_total_size_push(s.drop_first(), e);
        assert(total_size(s.push(e)) == s.push(e)[0].1.len() + total_size(s.push(e).drop_first()));
        assert(total_size(s) == s[0].1.len() + total_size(s.drop_first()));
    }
}

proof fn lemma_total_size_remove(s: StoreView, i: int)
    requires
        0 <= i < s.len(),
    ensures
        total_size(s.remove(i)) + s[i].1.len() == total_size(s),
    decreases s.len(),
{
    if i == 0 {
        assert(s.remove(0) =~= s.drop_first());
    } else {
        assert(s.remove(i)[0] == s[0]);
        assert(s.remove(i).drop_first() =~= s.drop_first().remove(i - 1));
        lemma_total_size_remove(s.drop_first(), i - 1);
    }
}

/// Eviction is idempotent on the store contents: once the entry under `k`
/// is removed its key is absent, so removing it again changes nothing.
pub proof fn lemma_remove_key_idempotent(s: StoreView, k: Seq<char>)
    requires
        unique_keys(s),
    ensures
        !seq_contains_key(remove_key(s, k), k),
        remove_key(remove_key(s, k), k) == remove_key(s, k),
{
    if seq_contains_key(s, k) {
        lemma_index_of_key(s, k);
        let i = index_of_key(s, k);
        let r = s.remove(i);
        if seq_contains_key(r, k) {
            let j = index_of_key(r, k);
            assert(0 <= j < r.len() && r[j].0 == k);
            let j0: int = if j < i { j } else { j + 1 };
            assert(r[j] == s[j0]);
            assert(s[j0].0 == s[i].0);
            assert(false);
        }
    }
}

proof fn lemma_unique_remove(s: StoreView, i: int)
    requires
        unique_keys(s),
        0 <= i < s.len(),
    ensures
        unique_keys(s.remove(i)),
{
    let r = s.remove(i);
    assert forall|a: int, b: int| 0 <= a < b < r.len() implies (#[trigger] r[a]).0 != (
    #[trigger] r[b]).0 by {
        let a0: int = if a < i { a } else { a + 1 };
        let b0: int = if b < i { b } else { b + 1 };
        assert(r[a] == s[a0] && r[b] == s[b0]);
    }
}

proof fn lemma_remove_preserves_keys(s: StoreView, i: int, k2: Seq<char>)
    requires
        unique_keys(s),
        0 <= i < s.len(),
        s[i].0 != k2,
    ensures
        unique_keys(s.remove(i)),
        seq_contains_key(s.remove(i), k2) == seq_contains_key(s, k2),
        seq_contains_key(s, k2) ==> value_of_key(s.remove(i), k2) == value_of_key(s, k2),
{
    let r = s.remove(i);
    assert(forall|j: int| 0 <= j < i ==> r[j] == s[j]);
    assert(forall|j: int| i <= j < r.len() ==> r[j] == s[j + 1]);
    assert forall|a: int, b: int| 0 <= a < b < r.len() implies (#[trigger] r[a]).0 != (#[trigger] r[b]).0 by {
        let a0: int = if a < i { a } else { a + 1 };
        let b0: int = if b < i { b } else { b + 1 };
        assert(r[a] == s[a0] && r[b] == s[b0]);
    }
    if seq_contains_key(s, k2) {
        lemma_index_of_key(s, k2);
        let j = index_of_key(s, k2);
        let j2: int = if j < i { j } else { j - 1 };
        assert(r[j2] == s[j]);
        assert(seq_contains_key(r, k2));
        lemma_index_of_key(r, k2);
        let jr = index_of_key(r, k2);
        let jr0: int = if jr < i { jr } else { jr + 1 };
        assert(r[jr] == s[jr0]);
        assert(jr0 == j);
        assert(value_of_key(r, k2) == value_of_key(s, k2));
    }
    if seq_contains_key(r, k2) {
        let jr = index_of_key(r, k2);
        assert(0 <= jr < r.len() && r[jr].0 == k2);
        let jr0: int = if jr < i { jr } else { jr + 1 };
        assert(r[jr] == s[jr0]);
        assert(seq_contains_key(s, k2));
    }
}

proof fn lemma_skip_preserves_keys(s: StoreView, n: int, k2: Seq<char>)
    requires
        unique_keys(s),
        0 <= n <= s.len(),
    ensures
        unique_keys(s.skip(n)),
        seq_contains_key(s.skip(n), k2) ==> seq_contains_key(s, k2),
        seq_contains_key(s.skip(n), k2) ==> value_of_key(s.skip(n), k2) == value_of_key(s, k2),
{
    let r = s.skip(n);
    assert(forall|j: int| 0 <= j < r.len() ==> r[j] == s[j + n]);
    if seq_contains_key(r, k2) {
        let jr = index_of_key(r, k2);
        assert(0 <= jr < r.len() && r[jr].0 == k2);
        assert(s[jr + n].0 == k2);
        assert(seq_contains_key(s, k2));
        lemma_index_of_key(s, k2);
        lemma_index_of_key(r, k2);
        assert(value_of_key(r, k2) == r[jr].1 && r[jr].1 == s[jr + n].1);
        assert(jr + n == index_of_key(s, k2));
    }
}

proof fn lemma_push_new_key(s: StoreView, k: Seq<char>, v: Seq<u8>, k2: Seq<char>)
    requires
        unique_keys(s),
        !seq_contains_key(s, k),
    ensures
        unique_keys(s.push((k, v))),
        seq_contains_key(s.push((k, v)), k),
        value_of_key(s.push((k, v)), k) == v,
        k2 != k ==> seq_contains_key(s.push((k, v)), k2) == seq_contains_key(s, k2),
        k2 != k && seq_contains_key(s, k2) ==> value_of_key(s.push((k, v)), k2) == value_of_key(
            s,
            k2,
        ),
{
    let r = s.push((k, v));
    assert(r[s.len() as int] == (k, v));
    assert(forall|j: int| 0 <= j < s.len() ==> r[j] == s[j]);
    assert forall|a: int, b: int| 0 <= a < b < r.len() implies (#[trigger] r[a]).0 != (
    #[trigger] r[b]).0 by {
        if b < s.len() {
            assert(r[a] == s[a] && r[b] == s[b]);
        } else {
            assert(r[b].0 == k && r[a] == s[a]);
        }
    }
    assert(seq_contains_key(r, k));
    lemma_index_of_key(r, k);
    assert(value_of_key(r, k) == v);
    if k2 != k {
        if seq_contains_key(s, k2) {
            lemma_index_of_key(s, k2);
            let j = index_of_key(s, k2);
            assert(r[j].0 == k2);
            assert(seq_contains_key(r, k2));
            lemma_index_of_key(r, k2);
            assert(index_of_key(r, k2) == j);
        }
        if seq_contains_key(r, k2) {
            let jr = index_of_key(r, k2);
            assert(0 <= jr < r.len() && r[jr].0 == k2);
            assert(jr < s.len());
            assert(seq_contains_key(s, k2));
        }
    }
}

/// A key-to-bytes store under a fixed byte budget. Entries sit in insertion
/// order, oldest first; inserting over budget evicts from the front.
pub struct BoundedStore {
    capacity: u64,
    entries: Vec<(String, Vec<u8>)>,
}

impl View for BoundedStore {
    type V = StoreView;

    closed spec fn view(&self) -> StoreView {
        self.entries@.map_values(|e: (String, Vec<u8>)| (e.0@, e.1@))
    }
}

impl BoundedStore {
    /// The byte budget this store was created with.
    pub closed spec fn capacity(&self) -> u64 {
        self.capacity
    }

    /// The store's invariant: keys are unique and the entries fit the budget.
    pub open spec fn wf(&self) -> bool {
        &&& unique_keys(self@)
        &&& total_size(self@) <= self.capacity()
    }

    /// An empty store with the given byte budget.
    pub fn new(capacity: u64) -> (r: Self)
        ensures
            r.wf(),
            r@ == Seq::<(Seq<char>, Seq<u8>)>::empty(),
            r.capacity() == capacity,
    {
        let r = BoundedStore { capacity, entries: Vec::new() };
        proof {
            assert(r@ =~= Seq::<(Seq<char>, Seq<u8>)>::empty());
        }
        r
    }

    fn find_index(&self, k: &String) -> (r: Option<usize>)
        ensures
            match r {
                Some(i) => 0 <= i < self@.len() && self@[i as int].0 == k@,
                None => !seq_contains_key(self@, k@),
            },
    {
        let mut i: usize = 0;
        while i < self.entries.len()
            invariant
                0 <= i <= self.entries@.len(),
                self@.len() == self.entries@.len(),
                forall|j: int| 0 <= j < i ==> (#[trigger] self@[j]).0 != k@,
            decreases self.entries@.len() - i,
        {
            if self.entries[i].0 == *k {
                return Some(i);
            }
            i = i + 1;
        }
        None
    }

    fn total_bytes(&self) -> (r: u64)
        requires
            self.wf(),
        ensures
            r as nat == total_size(self@),
    {
        let mut acc: u64 = 0;
        let mut i: usize = 0;
        proof {
            assert(self@.skip(0) =~= self@);
        }
        while i < self.entries.len()
            invariant
                0 <= i <= self.entries@.len(),
                self@.len() == self.entries@.len(),
                total_size(self@) <= self.capacity(),
                acc + total_size(self@.skip(i as int)) == total_size(self@),
            decreases self.entries@.len() - i,
        {
            proof {
                lemma_total_size_skip(self@, i as int);
                assert(self@[i as int].1 == self.entries@[i as int].1@);
            }
            let n = self.entries[i].1.len();
            acc = acc + n as u64;
            i = i + 1;
        }
        proof {
            assert(self@.skip(i as int) =~= Seq::<(Seq<char>, Seq<u8>)>::empty());
        }
        acc
    }

    /// Reads the bytes kept under `k`, copied out, with no side effect: a
    /// missing key is an ordinary miss.
    pub fn get_bytes(&self, k: &str) -> (r: Option<Vec<u8>>)
        requires
            self.wf(),
        ensures
            r is Some <==> seq_contains_key(self@, k@),
            r matches Some(v) ==> v@ == value_of_key(self@, k@),
    {
        let ks = k.to_owned();
        match self.find_index(&ks) {
            Some(i) => {
                proof {
                    assert(seq_contains_key(self@, k@));
                    lemma_index_of_key(self@, k@);
                    assert(index_of_key(self@, k@) == i as int);
                    assert(self@[i as int].1 == self.entries@[i as int].1@);
                }
                Some(vstd::slice::slice_to_vec(self.entries[i].1.as_slice()))
            },
            None => None,
        }
    }

    /// Removes the entry under `k` if one exists, reporting whether it did;
    /// the other entries keep their order and contents.
    pub fn remove(&mut self, k: &str) -> (r: bool)
        requires
            old(self).wf(),
        ensures
            final(self).wf(),
            final(self).capacity() == old(self).capacity(),
            r == seq_contains_key(old(self)@, k@),
            final(self)@ == remove_key(old(self)@, k@),
            !seq_contains_key(final(self)@, k@),
            forall|k2: Seq<char>|
                k2 != k@ ==> seq_contains_key(final(self)@, k2) == seq_contains_key(old(self)@, k2),
            forall|k2: Seq<char>|
                k2 != k@ && seq_contains_key(old(self)@, k2) ==> value_of_key(final(self)@, k2)
                    == value_of_key(old(self)@, k2),
    {
        let ks = k.to_owned();
        match self.find_index(&ks) {
            Some(i) => {
                let ghost s0 = self@;
                self.entries.remove(i);
                proof {
                    assert(self@ =~= s0.remove(i as int));
                    lemma_index_of_key(s0, k@);
                    assert(index_of_key(s0, k@) == i as int);
                    lemma_total_size_remove(s0, i as int);
                    lemma_unique_remove(s0, i as int);
                    assert forall|k2: Seq<char>| k2 != k@ implies seq_contains_key(self@, k2)
                        == seq_contains_key(s0, k2) && (seq_contains_key(s0, k2)
                        ==> value_of_key(self@, k2) == value_of_key(s0, k2)) by {
                        lemma_remove_preserves_keys(s0, i as int, k2);
                    }
                    lemma_remove_key_idempotent(s0, k@);
                }
                true
            },
            None => false,
        }
    }

    /// Inserts `v` under `k`, replacing any previous entry for `k` and
    /// evicting the oldest entries until the budget is met. Succeeds exactly
    /// when `v` alone fits the budget; a value over budget leaves the store
    /// unchanged. The surviving entries are a most-recent suffix of the rest,
    /// unchanged in order and contents.
    pub fn insert_bytes(&mut self, k: &str, v: Vec<u8>) -> (r: bool)
        requires
            old(self).wf(),
        ensures
            final(self).wf(),
            final(self).capacity() == old(self).capacity(),
            r == (v@.len() <= old(self).capacity()),
            !r ==> final(self)@ == old(self)@,
            r ==> seq_contains_key(final(self)@, k@) && value_of_key(final(self)@, k@) == v@,
            r ==> exists|i: int|
                0 <= i <= remove_key(old(self)@, k@).len() && final(self)@ == remove_key(
                    old(self)@,
                    k@,
                ).skip(i).push((k@, v@)),
            forall|k2: Seq<char>|
                k2 != k@ && seq_contains_key(final(self)@, k2) ==> seq_contains_key(old(self)@, k2)
                    && value_of_key(final(self)@, k2) == value_of_key(old(self)@, k2),
    {
        if v.len() as u64 > self.capacity {
            return false;
        }
        let ghost s0 = self@;
        let ks = k.to_owned();
        match self.find_index(&ks) {
            Some(i) => {
                self.entries.remove(i);
                proof {
                    assert(self@ =~= s0.remove(i as int));
                    lemma_index_of_key(s0, k@);
                    assert(index_of_key(s0, k@) == i as int);
                    lemma_total_size_remove(s0, i as int);
                    lemma_unique_remove(s0, i as int);
                }
            },
            None => {},
        }
        let ghost rk = remove_key(s0, k@);
        proof {
            assert(self@ == rk);
            lemma_remove_key_idempotent(s0, k@);
        }
        let mut total: u64 = self.total_bytes();
        let ghost mut evicted: int = 0;
        proof {
            assert(rk.skip(0) =~= rk);
        }
        while self.capacity - total < v.len() as u64
            invariant
                self.capacity() == old(self).capacity(),
                v@.len() <= self.capacity(),
                unique_keys(rk),
                !seq_contains_key(rk, k@),
                0 <= evicted <= rk.len(),
                self@ == rk.skip(evicted),
                total as nat == total_size(self@),
                total <= self.capacity(),
                self@.len() == self.entries@.len(),
            decreases self.entries@.len(),
        {
            proof {
                if self.entries@.len() == 0 {
                    assert(self@ =~= Seq::<(Seq<char>, Seq<u8>)>::empty());
                    assert(total == 0);
                    assert(false);
                }
                lemma_total_size_skip(self@, 0);
                assert(self@[0].1 == self.entries@[0].1@);
            }
            let ghost sb = self@;
            let front = self.entries.remove(0);
            proof {
                assert(self@ =~= sb.remove(0));
                assert(sb.remove(0) =~= sb.drop_first());
                assert(rk.skip(evicted).drop_first() =~= rk.skip(evicted + 1));
                evicted = evicted + 1;
            }
            total = total - front.1.len() as u64;
        }
        let ghost sfit = self@;
        self.entries.push((ks, v));
        proof {
            assert(self@ =~= sfit.push((k@, v@)));
            lemma_skip_preserves_keys(rk, evicted, k@);
            lemma_total_size_push(sfit, (k@, v@));
            lemma_push_new_key(sfit, k@, v@, k@);
            assert(seq_contains_key(self@, k@));
            assert(value_of_key(self@, k@) == v@);
            assert forall|k2: Seq<char>| k2 != k@ && seq_contains_key(self@, k2) implies
                seq_contains_key(s0, k2) && value_of_key(self@, k2) == value_of_key(s0, k2) by {
                lemma_push_new_key(sfit, k@, v@, k2);
                lemma_skip_preserves_keys(rk, evicted, k2);
                if seq_contains_key(s0, k@) {
                    lemma_index_of_key(s0, k@);
                    lemma_remove_preserves_keys(s0, index_of_key(s0, k@), k2);
                }
            }
        }
        true
    }
}

} // verus!
