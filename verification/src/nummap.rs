//! An ordered mapping with numeric keys, kept as a vector of entries sorted
//! in strictly increasing key order.
//!
//! Session and proposal documents are keyed by number; keeping the entries
//! sorted makes serialization a pure function of the mapping's contents.

use vstd::prelude::*;

verus! {

/// The number of leading entries of `m` whose key is below `k`.
/// For well-formed entries this is the index of `k` when present, and the
/// position where `k` would be inserted otherwise.
pub open spec fn num_key_idx<T>(m: Seq<(u32, T)>, k: u32) -> int
    decreases m.len(),
{
    if m.len() == 0 {
        0
    } else if m[0].0 < k {
        1 + num_key_idx(m.drop_first(), k)
    } else {
        0
    }
}

/// Entries are sorted by strictly increasing key: keys are unique and their
/// order does not depend on the order in which they were added.
pub open spec fn num_entries_wf<T>(m: Seq<(u32, T)>) -> bool {
    forall|i: int, j: int| 0 <= i < j < m.len() ==> (#[trigger] m[i].0) < (#[trigger] m[j].0)
}

/// Whether key `k` is present among the entries `m`.
pub open spec fn num_has_key<T>(m: Seq<(u32, T)>, k: u32) -> bool {
    let i = num_key_idx(m, k);
    i < m.len() && m[i].0 == k
}

/// The value stored for key `k` in the entries `m`.
pub open spec fn num_value_of<T>(m: Seq<(u32, T)>, k: u32) -> T {
    m[num_key_idx(m, k)].1
}

/// On well-formed entries, `num_key_idx` splits the entries into those with
/// keys below `k` and those with keys above it.
pub proof fn lemma_num_key_idx<T>(m: Seq<(u32, T)>, k: u32)
    requires
        num_entries_wf(m),
    ensures
        0 <= num_key_idx(m, k) <= m.len(),
        forall|j: int| 0 <= j < num_key_idx(m, k) ==> (#[trigger] m[j].0) < k,
        forall|j: int| num_key_idx(m, k) < j < m.len() ==> k < (#[trigger] m[j].0),
        num_key_idx(m, k) < m.len() && m[num_key_idx(m, k)].0 != k ==> k < m[num_key_idx(m, k)].0,
    decreases m.len(),
{
    if m.len() == 0 {
    } else if m[0].0 < k {
        let rest = m.drop_first();
        assert(num_entries_wf(rest)) by {
            assert(forall|i: int, j: int|
                0 <= i < j < rest.len() ==> rest[i] == m[i + 1] && rest[j] == m[j + 1]);
        }
        lemma_num_key_idx(rest, k);
        let i = num_key_idx(m, k);
        assert(forall|j: int| 0 <= j < i ==> j == 0 || rest[j - 1] == m[j]);
        assert(forall|j: int| i < j < m.len() ==> rest[j - 1] == m[j]);
    } else {
        assert(forall|j: int| 0 < j < m.len() ==> m[0].0 < (#[trigger] m[j].0));
    }
}

/// An index below which all keys are below `k` and at which the key is not,
/// is `num_key_idx`.
pub proof fn lemma_num_key_idx_from_bounds<T>(m: Seq<(u32, T)>, k: u32, i: int)
    requires
        num_entries_wf(m),
        0 <= i <= m.len(),
        forall|j: int| 0 <= j < i ==> (#[trigger] m[j].0) < k,
        i < m.len() ==> m[i].0 >= k,
    ensures
        num_key_idx(m, k) == i,
{
    lemma_num_key_idx(m, k);
    let x = num_key_idx(m, k);
    if x < i {
        assert(m[x].0 < k);
    }
    if x > i {
        assert(m[i].0 < k);
    }
}

/// One step of keyed replacement: store `v` under `k`, overwriting the value
/// already stored for `k` if any.
pub open spec fn num_set_step<T>(m: Seq<(u32, T)>, k: u32, v: T) -> Seq<(u32, T)> {
    let i = num_key_idx(m, k);
    if i < m.len() && m[i].0 == k {
        m.update(i, (k, v))
    } else {
        m.insert(i, (k, v))
    }
}

/// Keyed replacement folded over a sequence of keyed values: later values for
/// the same key overwrite earlier ones; values without a key are dropped.
pub open spec fn num_fold_set<T>(pairs: Seq<(Option<u32>, T)>) -> Seq<(u32, T)>
    decreases pairs.len(),
{
    if pairs.len() == 0 {
        Seq::empty()
    } else {
        let prev = num_fold_set(pairs.drop_last());
        match pairs.last().0 {
            Option::Some(k) => num_set_step(prev, k, pairs.last().1),
            Option::None => prev,
        }
    }
}

/// A replacement step keeps the entries well formed.
pub proof fn lemma_num_set_step_wf<T>(m: Seq<(u32, T)>, k: u32, v: T)
    requires
        num_entries_wf(m),
    ensures
        num_entries_wf(num_set_step(m, k, v)),
{
    lemma_num_key_idx(m, k);
    let i = num_key_idx(m, k);
    let r = num_set_step(m, k, v);
    if i < m.len() && m[i].0 == k {
        assert forall|p: int, q: int| 0 <= p < q < r.len() implies (#[trigger] r[p].0) < (
        #[trigger] r[q].0) by {
            assert(m[p].0 == r[p].0 && m[q].0 == r[q].0);
        }
    } else {
        assert forall|p: int, q: int| 0 <= p < q < r.len() implies (#[trigger] r[p].0) < (
        #[trigger] r[q].0) by {
            if p < i && q == i {
                assert(r[p].0 == m[p].0);
            } else if p == i {
                assert(r[q].0 == m[q - 1].0);
            } else if p < i && q > i {
                assert(r[p].0 == m[p].0 && r[q].0 == m[q - 1].0);
            } else if p > i {
                assert(r[p].0 == m[p - 1].0 && r[q].0 == m[q - 1].0);
            } else {
                assert(r[p].0 == m[p].0 && r[q].0 == m[q].0);
            }
        }
    }
}

/// The whole replacement fold yields well-formed entries.
pub proof fn lemma_num_fold_set_wf<T>(pairs: Seq<(Option<u32>, T)>)
    ensures
        num_entries_wf(num_fold_set(pairs)),
    decreases pairs.len(),
{
    if pairs.len() > 0 {
        lemma_num_fold_set_wf(pairs.drop_last());
        match pairs.last().0 {
            Option::Some(k) => {
                lemma_num_set_step_wf(num_fold_set(pairs.drop_last()), k, pairs.last().1);
            },
            Option::None => {},
        }
    }
}

/// The values contributed under key `k` by a sequence of keyed values, in
/// sequence order.
pub open spec fn num_values_for<T>(pairs: Seq<(Option<u32>, T)>, k: u32) -> Seq<T> {
    pairs.filter(|p: (Option<u32>, T)| p.0 == Option::Some(k)).map_values(
        |p: (Option<u32>, T)| p.1,
    )
}

/// In a replacement fold a key is present exactly when some pair contributes
/// it, and its entry then carries the value contributed last.
pub proof fn lemma_num_fold_set_last<T>(pairs: Seq<(Option<u32>, T)>, k: u32)
    ensures
        num_has_key(num_fold_set(pairs), k) <==> num_values_for(pairs, k).len() > 0,
        num_has_key(num_fold_set(pairs), k) ==> num_value_of(num_fold_set(pairs), k)
            == num_values_for(pairs, k).last(),
    decreases pairs.len(),
{
    let m = num_fold_set(pairs);
    let pred = |p: (Option<u32>, T)| p.0 == Option::Some(k);
    let proj = |p: (Option<u32>, T)| p.1;
    if pairs.len() == 0 {
        assert(pairs.filter(pred) =~= Seq::<(Option<u32>, T)>::empty());
    } else {
        let rest = pairs.drop_last();
        let last = pairs.last();
        let prev = num_fold_set(rest);
        lemma_num_fold_set_last(rest, k);
        lemma_num_fold_set_wf(rest);
        lemma_num_key_idx(prev, k);
        reveal(Seq::filter);
        assert(pairs.drop_last() == rest);
        if pred(last) {
            let i = num_key_idx(prev, k);
            lemma_num_set_step_wf(prev, k, last.1);
            assert forall|j: int| 0 <= j < i implies (#[trigger] m[j].0) < k by {
                if i < prev.len() && prev[i].0 == k {
                    assert(m[j] == prev[j]);
                } else {
                    assert(m[j] == prev[j]);
                }
            }
            lemma_num_key_idx_from_bounds(m, k, i);
            assert(rest.filter(pred).push(last).map_values(proj) =~= rest.filter(pred).map_values(
                proj,
            ).push(last.1));
        } else {
            match last.0 {
                Option::Some(k2) => {
                    let i2 = num_key_idx(prev, k2);
                    lemma_num_key_idx(prev, k2);
                    lemma_num_set_step_wf(prev, k2, last.1);
                    let i = num_key_idx(prev, k);
                    if i2 < prev.len() && prev[i2].0 == k2 {
                        assert forall|j: int| 0 <= j < i implies (#[trigger] m[j].0) < k by {
                            assert(m[j].0 == prev[j].0);
                        }
                        if i < m.len() {
                            assert(m[i].0 == prev[i].0);
                        }
                        lemma_num_key_idx_from_bounds(m, k, i);
                        if i < m.len() && i != i2 {
                            assert(m[i] == prev[i]);
                        }
                        if i < m.len() && i == i2 {
                            assert(m[i].0 == k2 && prev[i].0 == k2);
                        }
                    } else {
                        if k2 < k {
                            assert(i2 <= i) by {
                                if i < i2 {
                                    assert(prev[i].0 < k2);
                                    assert(prev[i].0 >= k || k < prev[i].0 || prev[i].0 == k);
                                }
                            }
                            assert forall|j: int| 0 <= j < i + 1 implies (#[trigger] m[j].0)
                                < k by {
                                if j < i2 {
                                    assert(m[j].0 == prev[j].0);
                                } else if j == i2 {
                                    assert(m[j].0 == k2);
                                } else {
                                    assert(m[j].0 == prev[j - 1].0);
                                }
                            }
                            if i + 1 < m.len() {
                                assert(m[i + 1].0 == prev[i].0);
                            }
                            lemma_num_key_idx_from_bounds(m, k, i + 1);
                            if i + 1 < m.len() {
                                assert(m[i + 1] == prev[i]);
                            }
                        } else {
                            assert(k < k2);
                            assert(i <= i2) by {
                                if i2 < i {
                                    assert(prev[i2].0 < k);
                                    assert(prev[i2].0 >= k2);
                                }
                            }
                            assert forall|j: int| 0 <= j < i implies (#[trigger] m[j].0) < k by {
                                assert(m[j].0 == prev[j].0);
                            }
                            if i < m.len() {
                                if i == i2 {
                                    assert(m[i].0 == k2);
                                } else {
                                    assert(m[i].0 == prev[i].0);
                                }
                            }
                            lemma_num_key_idx_from_bounds(m, k, i);
                            if i < m.len() && i != i2 {
                                assert(m[i] == prev[i]);
                            }
                            if i == i2 && i < prev.len() {
                                assert(m[i].0 == k2 && k2 != k);
                                assert(prev[i].0 >= k2 && prev[i].0 != k);
                            }
                        }
                    }
                },
                Option::None => {},
            }
        }
    }
}

/// An ordered mapping from numeric keys to values; entries are kept in
/// strictly increasing key order, so two mappings with the same contents are
/// laid out identically.
pub struct NumMap<V> {
    entries: Vec<(u32, V)>,
}

impl<V: DeepView> View for NumMap<V> {
    type V = Seq<(u32, <V as DeepView>::V)>;

    closed spec fn view(&self) -> Seq<(u32, <V as DeepView>::V)> {
        Seq::new(self.entries@.len(), |i: int| (self.entries@[i].0, self.entries@[i].1.deep_view()))
    }
}

impl<V: DeepView> DeepView for NumMap<V> {
    type V = Seq<(u32, <V as DeepView>::V)>;

    open spec fn deep_view(&self) -> Seq<(u32, <V as DeepView>::V)> {
        self.view()
    }
}

impl<V: DeepView> NumMap<V> {
    /// The entries are sorted by strictly increasing key.
    pub open spec fn wf(&self) -> bool {
        num_entries_wf(self@)
    }

    /// Creates an empty mapping.
    pub fn new() -> (r: Self)
        ensures
            r@ == Seq::<(u32, <V as DeepView>::V)>::empty(),
            r.wf(),
    {
        let r = NumMap { entries: Vec::new() };
        proof {
            assert(r@ =~= Seq::<(u32, <V as DeepView>::V)>::empty());
        }
        r
    }

    /// The number of entries.
    pub fn len(&self) -> (n: usize)
        ensures
            n == self@.len(),
    {
        self.entries.len()
    }

    /// The key of the entry at position `i`.
    pub fn key_at(&self, i: usize) -> (k: u32)
        requires
            i < self@.len(),
        ensures
            k == self@[i as int].0,
    {
        self.entries[i].0
    }

    /// The value of the entry at position `i`.
    pub fn val_at(&self, i: usize) -> (v: &V)
        requires
            i < self@.len(),
        ensures
            v.deep_view() == self@[i as int].1,
    {
        &self.entries[i].1
    }

    /// Finds the position of `k`: its index when present, otherwise the
    /// position where it would be inserted.
    pub fn locate(&self, k: u32) -> (r: (bool, usize))
        requires
            self.wf(),
        ensures
            r.1 == num_key_idx(self@, k),
            r.0 == num_has_key(self@, k),
    {
        let mut i: usize = 0;
        while i < self.entries.len() && self.entries[i].0 < k
            invariant
                i <= self@.len(),
                self@.len() == self.entries@.len(),
                forall|j: int| 0 <= j < i ==> (#[trigger] self@[j].0) < k,
            decreases self@.len() - i,
        {
            i = i + 1;
        }
        proof {
            lemma_num_key_idx_from_bounds(self@, k, i as int);
        }
        if i < self.entries.len() {
            (self.entries[i].0 == k, i)
        } else {
            (false, i)
        }
    }

    /// Looks up the value stored for `k`.
    pub fn get(&self, k: u32) -> (r: Option<&V>)
        requires
            self.wf(),
        ensures
            match r {
                Option::Some(v) => num_has_key(self@, k) && v.deep_view() == num_value_of(self@, k),
                Option::None => !num_has_key(self@, k),
            },
    {
        let (found, i) = self.locate(k);
        if found {
            Some(&self.entries[i].1)
        } else {
            None
        }
    }

    /// Inserts a new entry for a key not yet present, at its sorted position.
    pub fn insert_at(&mut self, i: usize, k: u32, v: V)
        requires
            old(self).wf(),
            i == num_key_idx(old(self)@, k),
            !num_has_key(old(self)@, k),
        ensures
            final(self)@ == old(self)@.insert(i as int, (k, v.deep_view())),
            final(self).wf(),
    {
        proof {
            lemma_num_key_idx(self@, k);
        }
        let ghost old_view = self@;
        self.entries.insert(i, (k, v));
        proof {
            assert(self@ =~= old_view.insert(i as int, (k, v.deep_view())));
            let m = self@;
            assert forall|p: int, q: int| 0 <= p < q < m.len() implies (#[trigger] m[p].0) < (
            #[trigger] m[q].0) by {
                if p < i && q == i {
                    assert(m[p] == old_view[p]);
                } else if p == i && q > i {
                    assert(m[q] == old_view[q - 1]);
                } else if p < i && q > i {
                    assert(m[p] == old_view[p] && m[q] == old_view[q - 1]);
                } else if p > i {
                    assert(m[p] == old_view[p - 1] && m[q] == old_view[q - 1]);
                } else {
                    assert(m[p] == old_view[p] && m[q] == old_view[q]);
                }
            }
        }
    }

    /// Replaces the value of the entry at position `i`.
    pub fn set_at(&mut self, i: usize, v: V)
        requires
            i < old(self)@.len(),
        ensures
            final(self)@ == old(self)@.update(i as int, (old(self)@[i as int].0, v.deep_view())),
            old(self).wf() ==> final(self).wf(),
    {
        let ghost old_view = self@;
        let kv = self.entries.remove(i);
        self.entries.insert(i, (kv.0, v));
        proof {
            let m = self@;
            assert(m =~= old_view.update(i as int, (old_view[i as int].0, v.deep_view())));
            if num_entries_wf(old_view) {
                assert forall|p: int, q: int| 0 <= p < q < m.len() implies (#[trigger] m[p].0) < (
                #[trigger] m[q].0) by {
                    assert(m[p].0 == old_view[p].0 && m[q].0 == old_view[q].0);
                }
            }
        }
    }

    /// Removes the entry at position `i` and hands it out.
    pub fn take_at(&mut self, i: usize) -> (kv: (u32, V))
        requires
            i < old(self)@.len(),
        ensures
            kv.0 == old(self)@[i as int].0,
            kv.1.deep_view() == old(self)@[i as int].1,
            final(self)@ == old(self)@.remove(i as int),
            old(self).wf() ==> final(self).wf(),
    {
        let ghost old_view = self@;
        let kv = self.entries.remove(i);
        proof {
            assert(self@ =~= old_view.remove(i as int));
            if num_entries_wf(old_view) {
                let m = self@;
                assert forall|p: int, q: int| 0 <= p < q < m.len() implies (#[trigger] m[p].0) < (
                #[trigger] m[q].0) by {
                    let p0 = if p < i { p } else { p + 1 };
                    let q0 = if q < i { q } else { q + 1 };
                    assert(m[p] == old_view[p0] && m[q] == old_view[q0]);
                }
            }
        }
        kv
    }
}

/// The views of a sequence of numerically keyed values.
pub open spec fn num_pair_views<F: DeepView>(pairs: Seq<(Option<u32>, F)>) -> Seq<
    (Option<u32>, <F as DeepView>::V),
> {
    Seq::new(pairs.len(), |i: int| (pairs[i].0, pairs[i].1.deep_view()))
}

/// Folds a sequence of keyed values into an ordered mapping where the value
/// contributed last for each key wins; values without a key are dropped.
pub fn fold_set<F: DeepView>(pairs: Vec<(Option<u32>, F)>) -> (r: NumMap<F>)
    ensures
        r@ == num_fold_set(num_pair_views(pairs@)),
        r.wf(),
{
    let ghost orig = num_pair_views(pairs@);
    let mut pairs = pairs;
    let mut m: NumMap<F> = NumMap::new();
    let ghost mut done: Seq<(Option<u32>, <F as DeepView>::V)> = Seq::empty();
    proof {
        assert(num_fold_set(done) =~= m@);
        assert(orig =~= done + num_pair_views(pairs@));
    }
    while pairs.len() > 0
        invariant
            orig == done + num_pair_views(pairs@),
            m@ == num_fold_set(done),
            m.wf(),
        decreases pairs@.len(),
    {
        let ghost prev_pairs = pairs@;
        let p = pairs.remove(0);
        let ghost pv = (p.0, p.1.deep_view());
        proof {
            assert(num_pair_views(prev_pairs)[0] == pv);
            assert(done.push(pv) + num_pair_views(pairs@) =~= done + num_pair_views(prev_pairs));
            assert((done.push(pv)).drop_last() =~= done);
        }
        match p.0 {
            Option::None => {},
            Option::Some(k) => {
                let (found, i) = m.locate(k);
                if found {
                    m.set_at(i, p.1);
                    proof {
                        assert(m@ =~= num_set_step(num_fold_set(done), k, pv.1));
                    }
                } else {
                    m.insert_at(i, k, p.1);
                    proof {
                        assert(m@ =~= num_set_step(num_fold_set(done), k, pv.1));
                    }
                }
            },
        }
        proof {
            done = done.push(pv);
        }
    }
    proof {
        assert(num_pair_views(pairs@) =~= Seq::<(Option<u32>, <F as DeepView>::V)>::empty());
        assert(done =~= orig);
    }
    m
}

} // verus!

verus! {

impl NumMap<u32> {
    /// The entries as a plain vector of key and value pairs.
    pub fn entries_vec(&self) -> (v: &Vec<(u32, u32)>)
        ensures
            v@ == self@,
    {
        proof {
            assert(self.entries@ =~= self@);
        }
        &self.entries
    }
}

} // verus!

verus! {

/// After inserting under `k`, the entry for `k` holds exactly the inserted
/// value.
pub proof fn lemma_num_insert_same<T>(m: Seq<(u32, T)>, k: u32, v: T)
    requires
        num_entries_wf(m),
    ensures
        num_has_key(num_set_step(m, k, v), k),
        num_value_of(num_set_step(m, k, v), k) == v,
{
    lemma_num_key_idx(m, k);
    lemma_num_set_step_wf(m, k, v);
    let i = num_key_idx(m, k);
    let r = num_set_step(m, k, v);
    assert forall|j: int| 0 <= j < i implies (#[trigger] r[j].0) < k by {
        assert(r[j] == m[j]);
    }
    lemma_num_key_idx_from_bounds(r, k, i);
}

/// Inserting under one key leaves every other key's presence and value
/// unchanged.
pub proof fn lemma_num_insert_frame<T>(m: Seq<(u32, T)>, k2: u32, v: T, k: u32)
    requires
        num_entries_wf(m),
        k != k2,
    ensures
        num_has_key(num_set_step(m, k2, v), k) == num_has_key(m, k),
        num_has_key(m, k) ==> num_value_of(num_set_step(m, k2, v), k) == num_value_of(m, k),
{
    lemma_num_key_idx(m, k);
    lemma_num_key_idx(m, k2);
    lemma_num_set_step_wf(m, k2, v);
    let i2 = num_key_idx(m, k2);
    let i = num_key_idx(m, k);
    let r = num_set_step(m, k2, v);
    if i2 < m.len() && m[i2].0 == k2 {
        assert forall|j: int| 0 <= j < i implies (#[trigger] r[j].0) < k by {
            assert(r[j].0 == m[j].0);
        }
        if i < m.len() {
            assert(r[i].0 == m[i].0);
        }
        lemma_num_key_idx_from_bounds(r, k, i);
        if num_has_key(m, k) || num_has_key(r, k) {
            assert(i != i2);
            assert(r[i] == m[i]);
        }
    } else {
        if k2 < k {
            assert(i2 <= i) by {
                if i < i2 {
                    assert(m[i].0 < k2);
                    assert(m[i].0 == k || k < m[i].0);
                }
            }
            assert forall|j: int| 0 <= j < i + 1 implies (#[trigger] r[j].0) < k by {
                if j < i2 {
                    assert(r[j].0 == m[j].0);
                } else if j == i2 {
                    assert(r[j].0 == k2);
                } else {
                    assert(r[j].0 == m[j - 1].0);
                }
            }
            if i + 1 < r.len() {
                assert(r[i + 1].0 == m[i].0);
            }
            lemma_num_key_idx_from_bounds(r, k, i + 1);
            if i < m.len() {
                assert(r[i + 1] == m[i]);
            }
        } else {
            assert(k < k2);
            assert(i <= i2) by {
                if i2 < i {
                    assert(m[i2].0 < k);
                    assert(m[i2].0 >= k2);
                }
            }
            assert forall|j: int| 0 <= j < i implies (#[trigger] r[j].0) < k by {
                assert(r[j].0 == m[j].0);
            }
            if i < r.len() {
                if i == i2 {
                    assert(r[i].0 == k2);
                } else {
                    assert(r[i].0 == m[i].0);
                }
            }
            lemma_num_key_idx_from_bounds(r, k, i);
            if i < m.len() && i != i2 {
                assert(r[i] == m[i]);
            }
            if i == i2 && i < m.len() {
                assert(r[i].0 == k2 && k2 != k);
                assert(m[i].0 >= k2);
            }
        }
    }
}

} // verus!
