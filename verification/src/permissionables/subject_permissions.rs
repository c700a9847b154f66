//! A mapping of subjects to their permissions, via roles.

use vstd::prelude::*;
use crate::strmap::{StrMap, fold_push, fold_entries, pair_views, entries_wf, has_key, value_of};
use crate::order::lemma_bytes_deep;

verus! {

broadcast use lemma_bytes_deep;

/// A row from the source detailing a permission a subject has been given.
#[derive(Debug)]
pub struct PermissionRow {
    /// The unique identifier of the subject; may be null in the source.
    pub subject: Option<Vec<u8>>,
    /// The permission the subject has been given.
    pub permission: Vec<u8>,
}

/// The key a row contributes under: its subject, when present.
pub open spec fn row_key(r: PermissionRow) -> Option<Seq<u8>> {
    r.subject.deep_view()
}

/// The fact a row contributes: its permission name.
pub open spec fn row_fact(r: PermissionRow) -> Seq<u8> {
    r.permission@
}

/// The keyed facts of a sequence of rows.
pub open spec fn rows_pairs(rows: Seq<PermissionRow>) -> Seq<(Option<Seq<u8>>, Seq<u8>)> {
    rows.map_values(|r: PermissionRow| (row_key(r), row_fact(r)))
}

/// A mapping of subjects to their permissions via roles, ordered by subject.
pub struct SubjectPermissions {
    map: StrMap<Vec<Vec<u8>>>,
}

impl View for SubjectPermissions {
    type V = Seq<(Seq<u8>, Seq<Seq<u8>>)>;

    closed spec fn view(&self) -> Seq<(Seq<u8>, Seq<Seq<u8>>)> {
        self.map@
    }
}

impl SubjectPermissions {
    /// The entries are sorted by strictly increasing subject.
    pub open spec fn wf(&self) -> bool {
        entries_wf(self@)
    }

    /// Aggregates raw rows: each row with a subject appends its permission
    /// to that subject's entry, in row order; rows without a subject are
    /// dropped.
    pub fn from_rows(rows: Vec<PermissionRow>) -> (r: Self)
        ensures
            r@ == fold_entries(rows_pairs(rows@)),
            r.wf(),
    {
        let ghost orig = rows@;
        let mut rows = rows;
        let mut pairs: Vec<(Option<Vec<u8>>, Vec<u8>)> = Vec::new();
        while rows.len() > 0
            invariant
                orig.len() == pairs@.len() + rows@.len(),
                rows@ =~= orig.skip(pairs@.len() as int),
                pair_views(pairs@) =~= rows_pairs(orig.take(pairs@.len() as int)),
            decreases rows@.len(),
        {
            let ghost n = pairs@.len() as int;
            let ghost old_pairs = pairs@;
            let row = rows.remove(0);
            let ghost rowv = row;
            proof {
                assert(rowv == orig[n]);
            }
            pairs.push((row.subject, row.permission));
            proof {
                assert(rows@ =~= orig.skip(n + 1));
                assert(pairs@ == old_pairs.push((rowv.subject, rowv.permission)));
                assert forall|j: int| 0 <= j < n + 1 implies pair_views(pairs@)[j] == rows_pairs(
                    orig.take(n + 1),
                )[j] by {
                    assert(orig.take(n + 1)[j] == orig[j]);
                    if j < n {
                        assert(pairs@[j] == old_pairs[j]);
                        assert(pair_views(old_pairs)[j] == rows_pairs(orig.take(n))[j]);
                        assert(orig.take(n)[j] == orig[j]);
                    } else {
                        assert(pairs@[n] == (rowv.subject, rowv.permission));
                        if rowv.subject is Some {
                            let k = rowv.subject->Some_0;
                            assert(k.deep_view() == k@);
                        }
                    }
                }
                assert(pair_views(pairs@) =~= rows_pairs(orig.take(n + 1)));
            }
        }
        proof {
            assert(orig.take(pairs@.len() as int) =~= orig);
        }
        let map = fold_push(pairs);
        SubjectPermissions { map }
    }

    /// The number of subjects.
    pub fn len(&self) -> (n: usize)
        ensures
            n == self@.len(),
    {
        self.map.len()
    }

    /// The subject of the entry at position `i`.
    pub fn key_at(&self, i: usize) -> (k: &Vec<u8>)
        requires
            i < self@.len(),
        ensures
            k@ == self@[i as int].0,
    {
        self.map.key_at(i)
    }

    /// The permissions of the entry at position `i`.
    pub fn val_at(&self, i: usize) -> (v: &Vec<Vec<u8>>)
        requires
            i < self@.len(),
        ensures
            v.deep_view() == self@[i as int].1,
    {
        self.map.val_at(i)
    }

    /// The permissions recorded for a subject.
    pub fn get(&self, subject: &Vec<u8>) -> (r: Option<&Vec<Vec<u8>>>)
        requires
            self.wf(),
        ensures
            match r {
                Option::Some(v) => has_key(self@, subject@) && v.deep_view() == value_of(
                    self@,
                    subject@,
                ),
                Option::None => !has_key(self@, subject@),
            },
    {
        self.map.get(subject)
    }

    /// Removes the entry at position `i` and hands out its subject and
    /// permissions.
    pub fn take_at(&mut self, i: usize) -> (kv: (Vec<u8>, Vec<Vec<u8>>))
        requires
            i < old(self)@.len(),
        ensures
            kv.0@ == old(self)@[i as int].0,
            kv.1.deep_view() == old(self)@[i as int].1,
            final(self)@ == old(self)@.remove(i as int),
            old(self).wf() ==> final(self).wf(),
    {
        self.map.take_at(i)
    }
}

} // verus!
