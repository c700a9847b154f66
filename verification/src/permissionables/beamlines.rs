//! A mapping of beamlines to their various attributes.

use vstd::prelude::*;
use crate::strmap::{
    StrMap, fold_push, fold_entries, pair_views, entries_wf, has_key, value_of, key_idx,
    lemma_key_idx_from_bounds,
};
use crate::order::{lex_lt, lemma_bytes_deep};

verus! {

broadcast use lemma_bytes_deep;

/// A row from the source detailing a session on a beamline.
#[derive(Debug)]
pub struct RawBeamlineRow {
    /// The beamline name; may be null in the source.
    pub beamline: Option<Vec<u8>>,
    /// An opaque identifier of the session.
    pub session_id: u32,
}

/// The key a row contributes under: its beamline name, when present.
pub open spec fn row_key(r: RawBeamlineRow) -> Option<Seq<u8>> {
    r.beamline.deep_view()
}

/// The fact a row contributes: its session identifier.
pub open spec fn row_fact(r: RawBeamlineRow) -> u32 {
    r.session_id
}

/// The keyed facts of a sequence of rows.
pub open spec fn rows_pairs(rows: Seq<RawBeamlineRow>) -> Seq<(Option<Seq<u8>>, u32)> {
    rows.map_values(|r: RawBeamlineRow| (row_key(r), row_fact(r)))
}

/// The various attributes of a beamline.
#[derive(Debug)]
pub struct Beamline {
    /// The sessions which occurred on this beamline, in contribution order.
    pub sessions: Vec<u32>,
}

impl DeepView for Beamline {
    type V = Seq<u32>;

    open spec fn deep_view(&self) -> Seq<u32> {
        self.sessions.deep_view()
    }
}

/// A mapping of beamlines to their attributes, ordered by beamline name.
pub struct Beamlines {
    map: StrMap<Beamline>,
}

impl View for Beamlines {
    type V = Seq<(Seq<u8>, Seq<u32>)>;

    closed spec fn view(&self) -> Seq<(Seq<u8>, Seq<u32>)> {
        self.map@
    }
}

impl Beamlines {
    /// The entries are sorted by strictly increasing beamline name.
    pub open spec fn wf(&self) -> bool {
        entries_wf(self@)
    }

    /// Aggregates raw rows: each row with a beamline name appends its
    /// session to that beamline's entry, in row order; rows without a name
    /// are dropped.
    pub fn from_rows(rows: Vec<RawBeamlineRow>) -> (r: Self)
        ensures
            r@ == fold_entries(rows_pairs(rows@)),
            r.wf(),
    {
        let ghost orig = rows@;
        let mut rows = rows;
        let mut pairs: Vec<(Option<Vec<u8>>, u32)> = Vec::new();
        while rows.len() > 0
            invariant
                orig.len() == pairs@.len() + rows@.len(),
                rows@ =~= orig.skip(pairs@.len() as int),
                pair_views(pairs@) =~= rows_pairs(orig.take(pairs@.len() as int)),
            decreases rows@.len(),
        {
            let ghost n = pairs@.len() as int;
            let ghost old_pairs = pairs@;
            let row = rows.remove(0);
            let ghost rowv = row;
            proof {
                assert(rowv == orig[n]);
            }
            pairs.push((row.beamline, row.session_id));
            proof {
                assert(rows@ =~= orig.skip(n + 1));
                assert forall|j: int| 0 <= j < n + 1 implies pair_views(pairs@)[j] == rows_pairs(
                    orig.take(n + 1),
                )[j] by {
                    assert(orig.take(n + 1)[j] == orig[j]);
                    if j < n {
                        assert(pairs@[j] == old_pairs[j]);
                        assert(pair_views(old_pairs)[j] == rows_pairs(orig.take(n))[j]);
                        assert(orig.take(n)[j] == orig[j]);
                    } else {
                        assert(pairs@[n] == (rowv.beamline, rowv.session_id));
                        if rowv.beamline is Some {
                            let k = rowv.beamline->Some_0;
                            assert(k.deep_view() == k@);
                        }
                    }
                }
                assert(pair_views(pairs@) =~= rows_pairs(orig.take(n + 1)));
            }
        }
        proof {
            assert(orig.take(pairs@.len() as int) =~= orig);
        }
        let mut raw: StrMap<Vec<u32>> = fold_push(pairs);
        let ghost folded = raw@;
        let total = raw.len();
        proof {
            assert(folded.len() == total);
        }
        let mut map: StrMap<Beamline> = StrMap::new();
        let mut i: usize = 0;
        while raw.len() > 0
            invariant
                folded.len() <= usize::MAX,
                i + raw@.len() == folded.len(),
                raw@ =~= folded.skip(i as int),
                map@ =~= folded.take(i as int),
                entries_wf(folded),
                map.wf(),
            decreases raw@.len(),
        {
            let ghost old_map = map@;
            let kv = raw.take_at(0);
            proof {
                assert(kv.0@ == folded[i as int].0);
                assert(raw@ =~= folded.skip(i + 1));
                assert forall|j: int| 0 <= j < old_map.len() implies #[trigger] lex_lt(
                    old_map[j].0,
                    kv.0@,
                ) by {
                    assert(old_map[j] == folded[j]);
                    assert(lex_lt(folded[j].0, folded[i as int].0));
                }
                lemma_key_idx_from_bounds(old_map, kv.0@, i as int);
            }
            let bl = Beamline { sessions: kv.1 };
            proof {
                assert(bl.deep_view() =~= folded[i as int].1);
            }
            map.insert_at(i, kv.0, bl);
            proof {
                assert(map@ =~= folded.take(i + 1));
            }
            i = i + 1;
        }
        proof {
            assert(folded.take(i as int) =~= folded);
        }
        Beamlines { map }
    }

    /// The number of beamlines.
    pub fn len(&self) -> (n: usize)
        ensures
            n == self@.len(),
    {
        self.map.len()
    }

    /// The beamline name of the entry at position `i`.
    pub fn key_at(&self, i: usize) -> (k: &Vec<u8>)
        requires
            i < self@.len(),
        ensures
            k@ == self@[i as int].0,
    {
        self.map.key_at(i)
    }

    /// The attributes of the beamline at position `i`.
    pub fn val_at(&self, i: usize) -> (v: &Beamline)
        requires
            i < self@.len(),
        ensures
            v.deep_view() == self@[i as int].1,
    {
        self.map.val_at(i)
    }

    /// The attributes recorded for a beamline.
    pub fn get(&self, beamline: &Vec<u8>) -> (r: Option<&Beamline>)
        requires
            self.wf(),
        ensures
            match r {
                Option::Some(v) => has_key(self@, beamline@) && v.deep_view() == value_of(
                    self@,
                    beamline@,
                ),
                Option::None => !has_key(self@, beamline@),
            },
    {
        self.map.get(beamline)
    }
}

} // verus!

use vstd::string::StringSliceAdditionalSpecFns;
use crate::json::{json_str, u32_array, push_json_str, push_u32_array, push_byte, push_bytes};

verus! {

/// One beamline as a JSON object entry: its quoted name, then its
/// attributes.
pub open spec fn beamline_entry_json(e: (Seq<u8>, Seq<u32>)) -> Seq<u8> {
    json_str(e.0) + ":{\"sessions\":".spec_bytes() + u32_array(e.1) + seq![0x7du8]
}

/// The comma-separated entries of the beamlines document.
pub open spec fn beamlines_items(m: Seq<(Seq<u8>, Seq<u32>)>) -> Seq<u8>
    decreases m.len(),
{
    if m.len() == 0 {
        Seq::empty()
    } else if m.len() == 1 {
        beamline_entry_json(m.last())
    } else {
        beamlines_items(m.drop_last()) + seq![0x2cu8] + beamline_entry_json(m.last())
    }
}

/// The beamlines document: one JSON object keyed by beamline name.
pub open spec fn beamlines_json(m: Seq<(Seq<u8>, Seq<u32>)>) -> Seq<u8> {
    seq![0x7bu8] + beamlines_items(m) + seq![0x7du8]
}

impl Beamlines {
    /// Serializes the document as canonical JSON, entries in key order.
    #[verifier::rlimit(60)]
    pub fn to_json(&self) -> (r: Vec<u8>)
        ensures
            r@ == beamlines_json(self@),
    {
        let mut out: Vec<u8> = Vec::new();
        push_byte(&mut out, 0x7b);
        let mut i: usize = 0;
        let n = self.len();
        while i < n
            invariant
                i <= n == self@.len(),
                out@ == seq![0x7bu8] + beamlines_items(self@.take(i as int)),
            decreases n - i,
        {
            if i > 0 {
                push_byte(&mut out, 0x2c);
            }
            push_json_str(&mut out, self.key_at(i));
            push_bytes(&mut out, ":{\"sessions\":".as_bytes());
            let v = self.val_at(i);
            proof {
                assert(v.sessions.deep_view() =~= v.sessions@);
            }
            push_u32_array(&mut out, &v.sessions);
            push_byte(&mut out, 0x7d);
            proof {
                assert(self@.take(i + 1).drop_last() =~= self@.take(i as int));
                assert(self@.take(i + 1).last() == self@[i as int]);
                assert(out@ == seq![0x7bu8] + beamlines_items(self@.take(i + 1)));
            }
            i = i + 1;
        }
        push_byte(&mut out, 0x7d);
        proof {
            assert(self@.take(self@.len() as int) =~= self@);
        }
        out
    }
}

} // verus!
