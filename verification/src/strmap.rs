//! An ordered mapping with byte-string keys, kept as a vector of entries
//! sorted in strictly increasing key order.
//!
//! Entity documents are such mappings; keeping the entries sorted makes
//! serialization a pure function of the mapping's contents.

use vstd::prelude::*;
use crate::order::{lex_lt, bytes_lt, bytes_eq, lemma_lex_trichotomy, lemma_lex_trans};

verus! {

/// The number of leading entries of `m` whose key comes before `k`.
/// For well-formed entries this is the index of `k` when present, and the
/// position where `k` would be inserted otherwise.
pub open spec fn key_idx<T>(m: Seq<(Seq<u8>, T)>, k: Seq<u8>) -> int
    decreases m.len(),
{
    if m.len() == 0 {
        0
    } else if lex_lt(m[0].0, k) {
        1 + key_idx(m.drop_first(), k)
    } else {
        0
    }
}

/// Entries are sorted by strictly increasing key: keys are unique and their
/// order does not depend on the order in which they were added.
pub open spec fn entries_wf<T>(m: Seq<(Seq<u8>, T)>) -> bool {
    forall|i: int, j: int| 0 <= i < j < m.len() ==> #[trigger] lex_lt(m[i].0, m[j].0)
}

/// Whether key `k` is present among the entries `m`.
pub open spec fn has_key<T>(m: Seq<(Seq<u8>, T)>, k: Seq<u8>) -> bool {
    let i = key_idx(m, k);
    i < m.len() && m[i].0 == k
}

/// The value stored for key `k` in the entries `m`.
pub open spec fn value_of<T>(m: Seq<(Seq<u8>, T)>, k: Seq<u8>) -> T {
    m[key_idx(m, k)].1
}

/// On well-formed entries, `key_idx` splits the entries into those with keys
/// before `k` and those with keys after it.
pub proof fn lemma_key_idx<T>(m: Seq<(Seq<u8>, T)>, k: Seq<u8>)
    requires
        entries_wf(m),
    ensures
        0 <= key_idx(m, k) <= m.len(),
        forall|j: int| 0 <= j < key_idx(m, k) ==> #[trigger] lex_lt(m[j].0, k),
        forall|j: int| key_idx(m, k) < j < m.len() ==> #[trigger] lex_lt(k, m[j].0),
        key_idx(m, k) < m.len() && m[key_idx(m, k)].0 != k ==> lex_lt(k, m[key_idx(m, k)].0),
    decreases m.len(),
{
    if m.len() == 0 {
    } else if lex_lt(m[0].0, k) {
        let rest = m.drop_first();
        assert(entries_wf(rest)) by {
            assert(forall|i: int, j: int|
                0 <= i < j < rest.len() ==> rest[i] == m[i + 1] && rest[j] == m[j + 1]);
        }
        lemma_key_idx(rest, k);
        let i = key_idx(m, k);
        assert(forall|j: int| 0 <= j < i ==> j == 0 || rest[j - 1] == m[j]);
        assert(forall|j: int| i < j < m.len() ==> rest[j - 1] == m[j]);
    } else {
        lemma_lex_trichotomy(m[0].0, k);
        if m[0].0 != k {
            assert(lex_lt(k, m[0].0));
        }
        assert forall|j: int| 0 < j < m.len() implies lex_lt(k, m[j].0) by {
            assert(lex_lt(m[0].0, m[j].0));
            if m[0].0 == k {
            } else {
                lemma_lex_trans(k, m[0].0, m[j].0);
            }
        }
    }
}

/// An index below which all keys come before `k` and at which the key does
/// not, is `key_idx`.
pub proof fn lemma_key_idx_from_bounds<T>(m: Seq<(Seq<u8>, T)>, k: Seq<u8>, i: int)
    requires
        entries_wf(m),
        0 <= i <= m.len(),
        forall|j: int| 0 <= j < i ==> #[trigger] lex_lt(m[j].0, k),
        i < m.len() ==> !lex_lt(m[i].0, k),
    ensures
        key_idx(m, k) == i,
{
    lemma_key_idx(m, k);
    let x = key_idx(m, k);
    if x < i {
        assert(lex_lt(m[x].0, k));
        lemma_lex_trichotomy(m[x].0, k);
    }
    if x > i {
        assert(lex_lt(m[i].0, k));
    }
}

/// One step of aggregation: record the fact `f` under key `k`, appending to
/// the facts already recorded for `k`, or creating the entry if `k` is new.
pub open spec fn fold_step<T>(m: Seq<(Seq<u8>, Seq<T>)>, k: Seq<u8>, f: T) -> Seq<(Seq<u8>, Seq<T>)> {
    let i = key_idx(m, k);
    if i < m.len() && m[i].0 == k {
        m.update(i, (k, m[i].1.push(f)))
    } else {
        m.insert(i, (k, seq![f]))
    }
}

/// Aggregation of keyed facts into sorted entries: facts are folded in
/// sequence order; a pair without a key contributes nothing.
pub open spec fn fold_entries<T>(pairs: Seq<(Option<Seq<u8>>, T)>) -> Seq<(Seq<u8>, Seq<T>)>
    decreases pairs.len(),
{
    if pairs.len() == 0 {
        Seq::empty()
    } else {
        let prev = fold_entries(pairs.drop_last());
        match pairs.last().0 {
            Option::Some(k) => fold_step(prev, k, pairs.last().1),
            Option::None => prev,
        }
    }
}

/// A fold step keeps the entries well formed.
pub proof fn lemma_fold_step_wf<T>(m: Seq<(Seq<u8>, Seq<T>)>, k: Seq<u8>, f: T)
    requires
        entries_wf(m),
    ensures
        entries_wf(fold_step(m, k, f)),
{
    lemma_key_idx(m, k);
    let i = key_idx(m, k);
    let r = fold_step(m, k, f);
    if i < m.len() && m[i].0 == k {
        assert forall|p: int, q: int| 0 <= p < q < r.len() implies lex_lt(r[p].0, r[q].0) by {
            assert(m[p].0 == r[p].0 && m[q].0 == r[q].0);
        }
    } else {
        assert forall|p: int, q: int| 0 <= p < q < r.len() implies lex_lt(r[p].0, r[q].0) by {
            if p < i && q == i {
                assert(r[p].0 == m[p].0);
            } else if p == i {
                assert(r[q].0 == m[q - 1].0);
            } else if p < i && q > i {
                assert(r[p].0 == m[p].0 && r[q].0 == m[q - 1].0);
            } else if p > i {
                assert(r[p].0 == m[p - 1].0 && r[q].0 == m[q - 1].0);
            } else {
                assert(r[p].0 == m[p].0 && r[q].0 == m[q].0);
            }
        }
    }
}

/// The whole aggregation yields well-formed entries.
pub proof fn lemma_fold_entries_wf<T>(pairs: Seq<(Option<Seq<u8>>, T)>)
    ensures
        entries_wf(fold_entries(pairs)),
    decreases pairs.len(),
{
    if pairs.len() > 0 {
        lemma_fold_entries_wf(pairs.drop_last());
        match pairs.last().0 {
            Option::Some(k) => {
                lemma_fold_step_wf(fold_entries(pairs.drop_last()), k, pairs.last().1);
            },
            Option::None => {},
        }
    }
}

/// The facts contributed under key `k` by a sequence of keyed facts, in
/// sequence order.
pub open spec fn facts_for<T>(pairs: Seq<(Option<Seq<u8>>, T)>, k: Seq<u8>) -> Seq<T> {
    pairs.filter(|p: (Option<Seq<u8>>, T)| p.0 == Option::Some(k)).map_values(
        |p: (Option<Seq<u8>>, T)| p.1,
    )
}

/// Aggregation unions all facts for one key under a single entry: a key is
/// present exactly when some pair contributes it, and its entry then carries
/// every contributed fact, in contribution order.
pub proof fn lemma_fold_entries_facts<T>(pairs: Seq<(Option<Seq<u8>>, T)>, k: Seq<u8>)
    ensures
        has_key(fold_entries(pairs), k) <==> facts_for(pairs, k).len() > 0,
        has_key(fold_entries(pairs), k) ==> value_of(fold_entries(pairs), k) == facts_for(pairs, k),
    decreases pairs.len(),
{
    let m = fold_entries(pairs);
    let pred = |p: (Option<Seq<u8>>, T)| p.0 == Option::Some(k);
    let proj = |p: (Option<Seq<u8>>, T)| p.1;
    if pairs.len() == 0 {
        assert(pairs.filter(pred) =~= Seq::<(Option<Seq<u8>>, T)>::empty());
    } else {
        let rest = pairs.drop_last();
        let last = pairs.last();
        let prev = fold_entries(rest);
        lemma_fold_entries_facts(rest, k);
        lemma_fold_entries_wf(rest);
        lemma_key_idx(prev, k);
        reveal(Seq::filter);
        assert(pairs.filter(pred) == if pred(last) {
            rest.filter(pred).push(last)
        } else {
            rest.filter(pred)
        }) by {
            assert(pairs.drop_last() == rest);
        }
        if pred(last) {
            let kl = last.0->Some_0;
            assert(kl == k);
            let i = key_idx(prev, k);
            lemma_fold_step_wf(prev, k, last.1);
            if i < prev.len() && prev[i].0 == k {
                assert(m == prev.update(i, (k, prev[i].1.push(last.1))));
                assert forall|j: int| 0 <= j < i implies #[trigger] lex_lt(m[j].0, k) by {
                    assert(m[j] == prev[j]);
                }
                lemma_lex_trichotomy(k, k);
                lemma_key_idx_from_bounds(m, k, i);
                assert(rest.filter(pred).push(last).map_values(proj) =~= rest.filter(pred)
                    .map_values(proj).push(last.1));
                assert(value_of(m, k) == facts_for(pairs, k));
            } else {
                assert(m == prev.insert(i, (k, seq![last.1])));
                assert forall|j: int| 0 <= j < i implies #[trigger] lex_lt(m[j].0, k) by {
                    assert(m[j] == prev[j]);
                }
                lemma_lex_trichotomy(k, k);
                lemma_key_idx_from_bounds(m, k, i);
                assert(facts_for(rest, k).len() == 0);
                assert(rest.filter(pred).push(last).map_values(proj) =~= rest.filter(pred)
                    .map_values(proj).push(last.1));
                assert(rest.filter(pred).map_values(proj).push(last.1) =~= seq![last.1]);
                assert(value_of(m, k) == facts_for(pairs, k));
            }
        } else {
            match last.0 {
                Option::Some(k2) => {
                    assert(k2 != k);
                    let i2 = key_idx(prev, k2);
                    lemma_key_idx(prev, k2);
                    lemma_fold_step_wf(prev, k2, last.1);
                    let i = key_idx(prev, k);
                    if i2 < prev.len() && prev[i2].0 == k2 {
                        assert(m == prev.update(i2, (k2, prev[i2].1.push(last.1))));
                        assert forall|j: int| 0 <= j < i implies #[trigger] lex_lt(m[j].0, k) by {
                            assert(m[j].0 == prev[j].0);
                        }
                        if i < m.len() {
                            assert(m[i].0 == prev[i].0);
                            lemma_lex_trichotomy(prev[i].0, k);
                        }
                        lemma_key_idx_from_bounds(m, k, i);
                        if has_key(m, k) {
                            assert(m[i].0 == k);
                            assert(i != i2);
                            assert(m[i] == prev[i]);
                        }
                        if has_key(prev, k) {
                            assert(prev[i].0 == k);
                            assert(i != i2);
                            assert(m[i] == prev[i]);
                        }
                    } else {
                        assert(m == prev.insert(i2, (k2, seq![last.1])));
                        lemma_lex_trichotomy(k2, k);
                        if lex_lt(k2, k) {
                            // the new entry sits before k's position
                            assert(i2 <= i) by {
                                if i < i2 {
                                    assert(lex_lt(k, prev[i].0) || prev[i].0 == k);
                                    assert(lex_lt(prev[i].0, k2));
                                    if prev[i].0 == k {
                                        assert(lex_lt(k, k2)) by {
                                            assert(lex_lt(prev[i].0, k2));
                                        }
                                        lemma_lex_trichotomy(k, k2);
                                    } else {
                                        lemma_lex_trans(k, prev[i].0, k2);
                                        lemma_lex_trichotomy(k, k2);
                                    }
                                }
                            }
                            assert forall|j: int| 0 <= j < i + 1 implies lex_lt(
                                #[trigger] m[j].0,
                                k,
                            ) by {
                                if j < i2 {
                                    assert(m[j].0 == prev[j].0);
                                } else if j == i2 {
                                    assert(m[j].0 == k2);
                                } else {
                                    assert(m[j].0 == prev[j - 1].0);
                                }
                            }
                            if i + 1 < m.len() {
                                assert(m[i + 1].0 == prev[i].0);
                                lemma_lex_trichotomy(prev[i].0, k);
                            }
                            lemma_key_idx_from_bounds(m, k, i + 1);
                            if i + 1 < m.len() {
                                assert(m[i + 1] == prev[i]);
                            }
                        } else {
                            assert(lex_lt(k, k2));
                            // the new entry sits at or after k's position
                            assert(i <= i2) by {
                                if i2 < i {
                                    assert(lex_lt(prev[i2].0, k));
                                    assert(lex_lt(k2, prev[i2].0) || prev[i2].0 == k2);
                                    if prev[i2].0 == k2 {
                                    } else {
                                        lemma_lex_trans(k2, prev[i2].0, k);
                                        lemma_lex_trichotomy(k, k2);
                                    }
                                }
                            }
                            assert forall|j: int| 0 <= j < i implies lex_lt(
                                #[trigger] m[j].0,
                                k,
                            ) by {
                                assert(m[j].0 == prev[j].0);
                            }
                            if i < m.len() {
                                if i == i2 {
                                    assert(m[i].0 == k2);
                                } else {
                                    assert(m[i].0 == prev[i].0);
                                    lemma_lex_trichotomy(prev[i].0, k);
                                }
                            }
                            lemma_key_idx_from_bounds(m, k, i);
                            if i < m.len() && i != i2 {
                                assert(m[i] == prev[i]);
                            }
                            if i == i2 && i < prev.len() {
                                assert(m[i].0 == k2 && k2 != k);
                                assert(has_key(m, k) == has_key(prev, k)) by {
                                    lemma_lex_trichotomy(prev[i].0, k);
                                }
                            }
                        }
                    }
                },
                Option::None => {},
            }
        }
    }
}

} // verus!

use vstd::prelude::*;

verus! {

/// The mathematical contents of a vector of entries: each key and value seen
/// through its view.
pub open spec fn entries_view<V: DeepView>(es: Seq<(Vec<u8>, V)>) -> Seq<
    (Seq<u8>, <V as DeepView>::V),
> {
    Seq::new(es.len(), |i: int| (es[i].0@, es[i].1.deep_view()))
}

/// The views of a sequence of keyed facts: each optional key and each fact
/// seen through its view.
pub open spec fn pair_views<F: DeepView>(pairs: Seq<(Option<Vec<u8>>, F)>) -> Seq<
    (Option<Seq<u8>>, <F as DeepView>::V),
> {
    Seq::new(
        pairs.len(),
        |i: int|
            (
                match pairs[i].0 {
                    Option::Some(k) => Option::Some(k@),
                    Option::None => Option::None,
                },
                pairs[i].1.deep_view(),
            ),
    )
}

/// An ordered mapping from byte-string keys to values; entries are kept in
/// strictly increasing key order, so two mappings with the same contents are
/// laid out identically.
pub struct StrMap<V> {
    entries: Vec<(Vec<u8>, V)>,
}

impl<V: DeepView> View for StrMap<V> {
    type V = Seq<(Seq<u8>, <V as DeepView>::V)>;

    closed spec fn view(&self) -> Seq<(Seq<u8>, <V as DeepView>::V)> {
        entries_view(self.entries@)
    }
}

impl<V: DeepView> StrMap<V> {
    /// The entries are sorted by strictly increasing key.
    pub open spec fn wf(&self) -> bool {
        entries_wf(self@)
    }

    /// Creates an empty mapping.
    pub fn new() -> (r: Self)
        ensures
            r@ == Seq::<(Seq<u8>, <V as DeepView>::V)>::empty(),
            r.wf(),
    {
        let r = StrMap { entries: Vec::new() };
        proof {
            assert(r@ =~= Seq::<(Seq<u8>, <V as DeepView>::V)>::empty());
        }
        r
    }

    /// The number of entries.
    pub fn len(&self) -> (n: usize)
        ensures
            n == self@.len(),
    {
        self.entries.len()
    }

    /// The key of the entry at position `i`.
    pub fn key_at(&self, i: usize) -> (k: &Vec<u8>)
        requires
            i < self@.len(),
        ensures
            k@ == self@[i as int].0,
    {
        &self.entries[i].0
    }

    /// The value of the entry at position `i`.
    pub fn val_at(&self, i: usize) -> (v: &V)
        requires
            i < self@.len(),
        ensures
            v.deep_view() == self@[i as int].1,
    {
        &self.entries[i].1
    }

    /// Finds the position of `k`: its index when present, otherwise the
    /// position where it would be inserted.
    pub fn locate(&self, k: &Vec<u8>) -> (r: (bool, usize))
        requires
            self.wf(),
        ensures
            r.1 == key_idx(self@, k@),
            r.0 == has_key(self@, k@),
    {
        let mut i: usize = 0;
        while i < self.entries.len() && bytes_lt(&self.entries[i].0, k)
            invariant
                i <= self@.len(),
                self@.len() == self.entries@.len(),
                forall|j: int| 0 <= j < i ==> #[trigger] lex_lt(self@[j].0, k@),
            decreases self@.len() - i,
        {
            i = i + 1;
        }
        proof {
            lemma_key_idx_from_bounds(self@, k@, i as int);
        }
        if i < self.entries.len() {
            let eq = bytes_eq(&self.entries[i].0, k);
            proof {
                if eq {
                    assert(self@[i as int].0 == k@);
                } else {
                    assert(self@[i as int].0 != k@) by {
                        if self@[i as int].0 == k@ {
                            assert(self.entries@[i as int].0@ =~= k@);
                        }
                    }
                }
            }
            (eq, i)
        } else {
            (false, i)
        }
    }

    /// Looks up the value stored for `k`.
    pub fn get(&self, k: &Vec<u8>) -> (r: Option<&V>)
        requires
            self.wf(),
        ensures
            match r {
                Option::Some(v) => has_key(self@, k@) && v.deep_view() == value_of(self@, k@),
                Option::None => !has_key(self@, k@),
            },
    {
        let (found, i) = self.locate(k);
        if found {
            Some(&self.entries[i].1)
        } else {
            None
        }
    }

    /// Inserts a new entry for a key not yet present, at its sorted position.
    pub fn insert_at(&mut self, i: usize, k: Vec<u8>, v: V)
        requires
            old(self).wf(),
            i == key_idx(old(self)@, k@),
            !has_key(old(self)@, k@),
        ensures
            final(self)@ == old(self)@.insert(i as int, (k@, v.deep_view())),
            final(self).wf(),
    {
        proof {
            lemma_key_idx(self@, k@);
        }
        let ghost old_view = self@;
        self.entries.insert(i, (k, v));
        proof {
            assert(self@ =~= old_view.insert(i as int, (k@, v.deep_view())));
            let m = self@;
            assert forall|p: int, q: int| 0 <= p < q < m.len() implies #[trigger] lex_lt(
                m[p].0,
                m[q].0,
            ) by {
                lemma_lex_trichotomy(k@, old_view[key_idx(old_view, k@)].0);
                if p < i && q == i {
                    assert(m[p] == old_view[p]);
                } else if p == i && q > i {
                    assert(m[q] == old_view[q - 1]);
                } else if p < i && q > i {
                    assert(m[p] == old_view[p] && m[q] == old_view[q - 1]);
                } else if p > i {
                    assert(m[p] == old_view[p - 1] && m[q] == old_view[q - 1]);
                } else {
                    assert(m[p] == old_view[p] && m[q] == old_view[q]);
                }
            }
        }
    }

    /// Removes the entry at position `i` and hands it out.
    pub fn take_at(&mut self, i: usize) -> (kv: (Vec<u8>, V))
        requires
            i < old(self)@.len(),
        ensures
            kv.0@ == old(self)@[i as int].0,
            kv.1.deep_view() == old(self)@[i as int].1,
            final(self)@ == old(self)@.remove(i as int),
            old(self).wf() ==> final(self).wf(),
    {
        let ghost old_view = self@;
        let kv = self.entries.remove(i);
        proof {
            assert(self@ =~= old_view.remove(i as int));
            if entries_wf(old_view) {
                let m = self@;
                assert forall|p: int, q: int| 0 <= p < q < m.len() implies #[trigger] lex_lt(
                    m[p].0,
                    m[q].0,
                ) by {
                    let p0 = if p < i { p } else { p + 1 };
                    let q0 = if q < i { q } else { q + 1 };
                    assert(m[p] == old_view[p0] && m[q] == old_view[q0]);
                }
            }
        }
        kv
    }
}

impl<F: DeepView> StrMap<Vec<F>> {
    /// Appends one fact to the entry at position `i`.
    pub fn push_at(&mut self, i: usize, f: F)
        requires
            i < old(self)@.len(),
        ensures
            final(self)@ == old(self)@.update(
                i as int,
                (old(self)@[i as int].0, old(self)@[i as int].1.push(f.deep_view())),
            ),
            old(self).wf() ==> final(self).wf(),
    {
        let ghost old_view = self@;
        let ghost fv = f.deep_view();
        let mut kv = self.entries.remove(i);
        kv.1.push(f);
        self.entries.insert(i, kv);
        proof {
            let m = self@;
            assert(m =~= old_view.update(i as int, (old_view[i as int].0, old_view[i as int].1.push(fv)))) by {
                assert forall|j: int| 0 <= j < m.len() implies m[j] == old_view.update(
                    i as int,
                    (old_view[i as int].0, old_view[i as int].1.push(fv)),
                )[j] by {
                    if j == i {
                        assert(kv.1.deep_view() =~= old_view[i as int].1.push(fv));
                    }
                }
            }
            if entries_wf(old_view) {
                assert forall|p: int, q: int| 0 <= p < q < m.len() implies #[trigger] lex_lt(
                    m[p].0,
                    m[q].0,
                ) by {
                    assert(m[p].0 == old_view[p].0 && m[q].0 == old_view[q].0);
                }
            }
        }
    }
}

/// Aggregates a sequence of keyed facts into an ordered mapping from key to
/// the list of facts contributed for that key, in contribution order; facts
/// without a key are dropped.
pub fn fold_push<F: DeepView>(pairs: Vec<(Option<Vec<u8>>, F)>) -> (r: StrMap<Vec<F>>)
    ensures
        r@ == fold_entries(pair_views(pairs@)),
        r.wf(),
{
    let ghost orig = pair_views(pairs@);
    let mut pairs = pairs;
    let mut m: StrMap<Vec<F>> = StrMap::new();
    let ghost mut done: Seq<(Option<Seq<u8>>, <F as DeepView>::V)> = Seq::empty();
    proof {
        assert(fold_entries(done) =~= m@);
        assert(orig =~= done + pair_views(pairs@));
    }
    while pairs.len() > 0
        invariant
            orig == done + pair_views(pairs@),
            m@ == fold_entries(done),
            m.wf(),
        decreases pairs@.len(),
    {
        let ghost prev_pairs = pairs@;
        let p = pairs.remove(0);
        let ghost pv = (
            match p.0 {
                Option::Some(ref k) => Option::Some(k@),
                Option::None => Option::None,
            },
            p.1.deep_view(),
        );
        proof {
            assert(pair_views(prev_pairs)[0] == pv);
            assert(done.push(pv) + pair_views(pairs@) =~= done + pair_views(prev_pairs));
            assert((done.push(pv)).drop_last() =~= done);
            assert((done.push(pv)).last() == pv);
        }
        match p.0 {
            Option::None => {},
            Option::Some(k) => {
                let (found, i) = m.locate(&k);
                if found {
                    m.push_at(i, p.1);
                    proof {
                        assert(m@ =~= fold_step(fold_entries(done), k@, pv.1));
                    }
                } else {
                    let mut v: Vec<F> = Vec::new();
                    v.push(p.1);
                    proof {
                        assert(v.deep_view() =~= seq![pv.1]);
                    }
                    m.insert_at(i, k, v);
                    proof {
                        assert(m@ =~= fold_step(fold_entries(done), pv.0->Some_0, pv.1));
                    }
                }
            },
        }
        proof {
            done = done.push(pv);
        }
    }
    proof {
        assert(pair_views(pairs@) =~= Seq::<(Option<Seq<u8>>, <F as DeepView>::V)>::empty());
        assert(done =~= orig);
    }
    m
}

} // verus!

verus! {

/// Keyed insertion at the spec level: replace the value of an existing key
/// or insert a new entry at its sorted position.
pub open spec fn str_insert<T>(m: Seq<(Seq<u8>, T)>, k: Seq<u8>, v: T) -> Seq<(Seq<u8>, T)> {
    let i = key_idx(m, k);
    if i < m.len() && m[i].0 == k {
        m.update(i, (k, v))
    } else {
        m.insert(i, (k, v))
    }
}

impl<V: DeepView> StrMap<V> {
    /// Stores `v` under `k`: an existing entry for `k` is overwritten, a
    /// new key takes its sorted position.
    pub fn insert(&mut self, k: Vec<u8>, v: V)
        requires
            old(self).wf(),
        ensures
            final(self)@ == str_insert(old(self)@, k@, v.deep_view()),
            final(self).wf(),
    {
        let ghost prev = self@;
        let (found, i) = self.locate(&k);
        if found {
            let (k2, _old) = self.take_at(i);
            proof {
                lemma_key_idx(prev, k@);
                assert(k2@ == prev[i as int].0);
                assert forall|j: int| 0 <= j < i implies #[trigger] lex_lt(self@[j].0, k2@) by {
                    assert(self@[j] == prev[j]);
                }
                if i < self@.len() {
                    assert(self@[i as int] == prev[i + 1]);
                    assert(lex_lt(k2@, self@[i as int].0));
                    lemma_lex_trichotomy(k2@, self@[i as int].0);
                }
                lemma_key_idx_from_bounds(self@, k2@, i as int);
            }
            self.insert_at(i, k2, v);
            proof {
                assert(self@ =~= str_insert(prev, k@, v.deep_view()));
            }
        } else {
            self.insert_at(i, k, v);
            proof {
                assert(self@ =~= str_insert(prev, k@, v.deep_view()));
            }
        }
    }
}

} // verus!

verus! {

/// Keyed insertion keeps the entries well formed.
pub proof fn lemma_str_insert_wf<T>(m: Seq<(Seq<u8>, T)>, k: Seq<u8>, v: T)
    requires
        entries_wf(m),
    ensures
        entries_wf(str_insert(m, k, v)),
{
    lemma_key_idx(m, k);
    let i = key_idx(m, k);
    let r = str_insert(m, k, v);
    lemma_lex_trichotomy(k, k);
    if i < m.len() && m[i].0 == k {
        assert forall|p: int, q: int| 0 <= p < q < r.len() implies #[trigger] lex_lt(
            r[p].0,
            r[q].0,
        ) by {
            assert(m[p].0 == r[p].0 && m[q].0 == r[q].0);
        }
    } else {
        assert forall|p: int, q: int| 0 <= p < q < r.len() implies #[trigger] lex_lt(
            r[p].0,
            r[q].0,
        ) by {
            if p < i && q == i {
                assert(r[p].0 == m[p].0);
            } else if p == i {
                assert(r[q].0 == m[q - 1].0);
            } else if p < i && q > i {
                assert(r[p].0 == m[p].0 && r[q].0 == m[q - 1].0);
            } else if p > i {
                assert(r[p].0 == m[p - 1].0 && r[q].0 == m[q - 1].0);
            } else {
                assert(r[p].0 == m[p].0 && r[q].0 == m[q].0);
            }
        }
    }
}

/// After inserting under `k`, the entry for `k` holds exactly the inserted
/// value.
pub proof fn lemma_str_insert_same<T>(m: Seq<(Seq<u8>, T)>, k: Seq<u8>, v: T)
    requires
        entries_wf(m),
    ensures
        has_key(str_insert(m, k, v), k),
        value_of(str_insert(m, k, v), k) == v,
{
    lemma_key_idx(m, k);
    lemma_str_insert_wf(m, k, v);
    let i = key_idx(m, k);
    let r = str_insert(m, k, v);
    lemma_lex_trichotomy(k, k);
    assert forall|j: int| 0 <= j < i implies #[trigger] lex_lt(r[j].0, k) by {
        assert(r[j] == m[j]);
    }
    lemma_key_idx_from_bounds(r, k, i);
}

/// Inserting under one key leaves every other key's presence and value
/// unchanged.
pub proof fn lemma_str_insert_frame<T>(m: Seq<(Seq<u8>, T)>, k2: Seq<u8>, v: T, k: Seq<u8>)
    requires
        entries_wf(m),
        k != k2,
    ensures
        has_key(str_insert(m, k2, v), k) == has_key(m, k),
        has_key(m, k) ==> value_of(str_insert(m, k2, v), k) == value_of(m, k),
{
    lemma_key_idx(m, k);
    lemma_key_idx(m, k2);
    lemma_str_insert_wf(m, k2, v);
    let i2 = key_idx(m, k2);
    let i = key_idx(m, k);
    let r = str_insert(m, k2, v);
    if i2 < m.len() && m[i2].0 == k2 {
        assert forall|j: int| 0 <= j < i implies #[trigger] lex_lt(r[j].0, k) by {
            assert(r[j].0 == m[j].0);
        }
        if i < m.len() {
            assert(r[i].0 == m[i].0);
            lemma_lex_trichotomy(m[i].0, k);
        }
        lemma_key_idx_from_bounds(r, k, i);
        if has_key(m, k) || has_key(r, k) {
            assert(i != i2);
            assert(r[i] == m[i]);
        }
    } else {
        lemma_lex_trichotomy(k2, k);
        if lex_lt(k2, k) {
            assert(i2 <= i) by {
                if i < i2 {
                    assert(lex_lt(m[i].0, k2));
                    if m[i].0 == k {
                        lemma_lex_trichotomy(k, k2);
                    } else {
                        assert(lex_lt(k, m[i].0));
                        lemma_lex_trans(k, m[i].0, k2);
                        lemma_lex_trichotomy(k, k2);
                    }
                }
            }
            assert forall|j: int| 0 <= j < i + 1 implies #[trigger] lex_lt(r[j].0, k) by {
                if j < i2 {
                    assert(r[j].0 == m[j].0);
                } else if j == i2 {
                    assert(r[j].0 == k2);
                } else {
                    assert(r[j].0 == m[j - 1].0);
                }
            }
            if i + 1 < r.len() {
                assert(r[i + 1].0 == m[i].0);
                lemma_lex_trichotomy(m[i].0, k);
            }
            lemma_key_idx_from_bounds(r, k, i + 1);
            if i < m.len() {
                assert(r[i + 1] == m[i]);
            }
        } else {
            assert(lex_lt(k, k2));
            assert(i <= i2) by {
                if i2 < i {
                    assert(lex_lt(m[i2].0, k));
                    assert(m[i2].0 == k2 || lex_lt(k2, m[i2].0));
                    if m[i2].0 == k2 {
                        lemma_lex_trichotomy(k, k2);
                    } else {
                        lemma_lex_trans(k2, m[i2].0, k);
                        lemma_lex_trichotomy(k, k2);
                    }
                }
            }
            assert forall|j: int| 0 <= j < i implies #[trigger] lex_lt(r[j].0, k) by {
                assert(r[j].0 == m[j].0);
            }
            if i < r.len() {
                if i == i2 {
                    assert(r[i].0 == k2);
                    lemma_lex_trichotomy(k2, k);
                } else {
                    assert(r[i].0 == m[i].0);
                    lemma_lex_trichotomy(m[i].0, k);
                }
            }
            lemma_key_idx_from_bounds(r, k, i);
            if i < m.len() && i != i2 {
                assert(r[i] == m[i]);
            }
            if i == i2 && i < m.len() {
                assert(r[i].0 == k2 && k2 != k);
                lemma_lex_trichotomy(m[i].0, k);
            }
        }
    }
}

/// Relates presence and value of a key before and after dropping the last
/// entry of well-formed entries.
pub proof fn lemma_wf_drop_last<T>(m: Seq<(Seq<u8>, T)>, k: Seq<u8>)
    requires
        entries_wf(m),
        m.len() > 0,
    ensures
        entries_wf(m.drop_last()),
        m.last().0 == k ==> has_key(m, k) && value_of(m, k) == m.last().1 && !has_key(
            m.drop_last(),
            k,
        ),
        m.last().0 != k ==> has_key(m.drop_last(), k) == has_key(m, k) && (has_key(m, k)
            ==> value_of(m.drop_last(), k) == value_of(m, k)),
{
    let dl = m.drop_last();
    let n = m.len() - 1;
    assert forall|p: int, q: int| 0 <= p < q < dl.len() implies #[trigger] lex_lt(
        dl[p].0,
        dl[q].0,
    ) by {
        assert(dl[p] == m[p] && dl[q] == m[q]);
    }
    lemma_key_idx(m, k);
    let i = key_idx(m, k);
    if m.last().0 == k {
        assert forall|j: int| 0 <= j < n implies #[trigger] lex_lt(m[j].0, k) by {
            assert(lex_lt(m[j].0, m[n].0));
        }
        lemma_lex_trichotomy(k, k);
        lemma_key_idx_from_bounds(m, k, n);
        assert forall|j: int| 0 <= j < dl.len() implies #[trigger] lex_lt(dl[j].0, k) by {
            assert(dl[j] == m[j]);
        }
        lemma_key_idx_from_bounds(dl, k, dl.len() as int);
    } else {
        if i < n {
            assert forall|j: int| 0 <= j < i implies #[trigger] lex_lt(dl[j].0, k) by {
                assert(dl[j] == m[j]);
            }
            assert(dl[i] == m[i]);
            lemma_lex_trichotomy(m[i].0, k);
            lemma_key_idx_from_bounds(dl, k, i);
        } else {
            // every remaining key comes before k
            assert forall|j: int| 0 <= j < dl.len() implies #[trigger] lex_lt(dl[j].0, k) by {
                assert(dl[j] == m[j]);
                assert(lex_lt(m[j].0, k));
            }
            lemma_key_idx_from_bounds(dl, k, dl.len() as int);
        }
    }
}

} // verus!

verus! {

/// Two entry sequences with the same keys position any key identically.
pub proof fn lemma_key_idx_congruent<A, B>(a: Seq<(Seq<u8>, A)>, b: Seq<(Seq<u8>, B)>, k: Seq<u8>)
    requires
        a.len() == b.len(),
        forall|j: int| 0 <= j < a.len() ==> (#[trigger] a[j]).0 == (#[trigger] b[j]).0,
    ensures
        key_idx(a, k) == key_idx(b, k),
    decreases a.len(),
{
    if a.len() > 0 {
        let ra = a.drop_first();
        let rb = b.drop_first();
        assert forall|j: int| 0 <= j < ra.len() implies (#[trigger] ra[j]).0 == (
        #[trigger] rb[j]).0 by {
            assert(ra[j] == a[j + 1] && rb[j] == b[j + 1]);
        }
        lemma_key_idx_congruent(ra, rb, k);
    }
}

} // verus!
