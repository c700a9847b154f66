//! A mapping of users to their permissions via groups.

use vstd::prelude::*;
use crate::strmap::{StrMap, fold_push, fold_entries, pair_views, entries_wf, has_key, value_of};
use crate::order::lemma_bytes_deep;

verus! {

broadcast use lemma_bytes_deep;

/// A row from the source detailing a permission a user has been given.
#[derive(Debug)]
pub struct PermissionRow {
    /// The FedID of the user; may be null in the source.
    pub fed_id: Option<Vec<u8>>,
    /// The permission the user has been given.
    pub permission: Vec<u8>,
}

/// The key a row contributes under: its FedID, when present.
pub open spec fn row_key(r: PermissionRow) -> Option<Seq<u8>> {
    r.fed_id.deep_view()
}

/// The fact a row contributes: its permission name.
pub open spec fn row_fact(r: PermissionRow) -> Seq<u8> {
    r.permission@
}

/// The keyed facts of a sequence of rows.
pub open spec fn rows_pairs(rows: Seq<PermissionRow>) -> Seq<(Option<Seq<u8>>, Seq<u8>)> {
    rows.map_values(|r: PermissionRow| (row_key(r), row_fact(r)))
}

/// A mapping of users to their permissions via groups, ordered by FedID.
pub struct Permissions {
    map: StrMap<Vec<Vec<u8>>>,
}

impl View for Permissions {
    type V = Seq<(Seq<u8>, Seq<Seq<u8>>)>;

    closed spec fn view(&self) -> Seq<(Seq<u8>, Seq<Seq<u8>>)> {
        self.map@
    }
}

impl Permissions {
    /// The entries are sorted by strictly increasing FedID.
    pub open spec fn wf(&self) -> bool {
        entries_wf(self@)
    }

    /// Aggregates raw rows: each row with a FedID appends its permission to
    /// that user's entry, in row order; rows without a FedID are dropped.
    pub fn from_rows(rows: Vec<PermissionRow>) -> (r: Self)
        ensures
            r@ == fold_entries(rows_pairs(rows@)),
            r.wf(),
    {
        let ghost orig = rows@;
        let mut rows = rows;
        let mut pairs: Vec<(Option<Vec<u8>>, Vec<u8>)> = Vec::new();
        while rows.len() > 0
            invariant
                orig.len() == pairs@.len() + rows@.len(),
                rows@ =~= orig.skip(pairs@.len() as int),
                pair_views(pairs@) =~= rows_pairs(orig.take(pairs@.len() as int)),
            decreases rows@.len(),
        {
            let ghost n = pairs@.len() as int;
            let ghost old_pairs = pairs@;
            let row = rows.remove(0);
            let ghost rowv = row;
            proof {
                assert(rowv == orig[n]);
            }
            pairs.push((row.fed_id, row.permission));
            proof {
                assert(rows@ =~= orig.skip(n + 1));
                assert forall|j: int| 0 <= j < n + 1 implies pair_views(pairs@)[j] == rows_pairs(
                    orig.take(n + 1),
                )[j] by {
                    assert(orig.take(n + 1)[j] == orig[j]);
                    if j < n {
                        assert(pairs@[j] == old_pairs[j]);
                        assert(pair_views(old_pairs)[j] == rows_pairs(orig.take(n))[j]);
                        assert(orig.take(n)[j] == orig[j]);
                    } else {
                        assert(pairs@[n] == (rowv.fed_id, rowv.permission));
                        if rowv.fed_id is Some {
                            let k = rowv.fed_id->Some_0;
                            assert(k.deep_view() == k@);
                        }
                    }
                }
                assert(pair_views(pairs@) =~= rows_pairs(orig.take(n + 1)));
            }
        }
        proof {
            assert(orig.take(pairs@.len() as int) =~= orig);
        }
        let map = fold_push(pairs);
        Permissions { map }
    }

    /// The number of users.
    pub fn len(&self) -> (n: usize)
        ensures
            n == self@.len(),
    {
        self.map.len()
    }

    /// The FedID of the entry at position `i`.
    pub fn key_at(&self, i: usize) -> (k: &Vec<u8>)
        requires
            i < self@.len(),
        ensures
            k@ == self@[i as int].0,
    {
        self.map.key_at(i)
    }

    /// The permissions of the entry at position `i`.
    pub fn val_at(&self, i: usize) -> (v: &Vec<Vec<u8>>)
        requires
            i < self@.len(),
        ensures
            v.deep_view() == self@[i as int].1,
    {
        self.map.val_at(i)
    }

    /// The permissions recorded for a user.
    pub fn get(&self, fed_id: &Vec<u8>) -> (r: Option<&Vec<Vec<u8>>>)
        requires
            self.wf(),
        ensures
            match r {
                Option::Some(v) => has_key(self@, fed_id@) && v.deep_view() == value_of(
                    self@,
                    fed_id@,
                ),
                Option::None => !has_key(self@, fed_id@),
            },
    {
        self.map.get(fed_id)
    }
}

} // verus!
