//! A mapping of subjects to their sessions, possibly via proposals.

use vstd::prelude::*;
use crate::strmap::{StrMap, fold_push, fold_entries, pair_views, entries_wf, has_key, value_of};
use crate::order::lemma_bytes_deep;
use crate::parse::{parse_u32, parse_u32_ok, parse_u32_val};
use crate::permissionables::ValidationError;

verus! {

broadcast use lemma_bytes_deep;

/// A row from the source detailing a session a subject is associated with.
#[derive(Debug)]
pub struct RawSessionRow {
    /// The unique identifier of the subject; may be null in the source.
    pub subject: Option<Vec<u8>>,
    /// The proposal number of the visit, stored as text; may be null.
    pub proposal_number: Option<Vec<u8>>,
    /// The number of the visit within the proposal; may be null.
    pub visit_number: Option<u32>,
}

/// A validated row: required fields present and parsed, the visit number
/// defaulted to zero when null.
#[derive(Debug)]
pub struct SessionRow {
    /// The unique identifier of the subject.
    pub subject: Vec<u8>,
    /// The proposal number of the visit.
    pub proposal_number: u32,
    /// The number of the visit within the proposal.
    pub visit_number: u32,
}

/// Whether a raw row passes validation: subject and proposal number present,
/// and the proposal number parses. A null visit number is not a failure.
pub open spec fn row_ok(r: RawSessionRow) -> bool {
    &&& r.subject is Some
    &&& r.proposal_number is Some
    &&& parse_u32_ok(r.proposal_number->Some_0@)
}

/// The error a failing row is rejected with, checking the subject first.
pub open spec fn row_err(r: RawSessionRow) -> ValidationError {
    if r.subject is None {
        ValidationError::NullSubject
    } else if r.proposal_number is None {
        ValidationError::NullProposal
    } else {
        ValidationError::BadNumber
    }
}

/// The key a row contributes under: its subject, when the row validates.
pub open spec fn row_key(r: RawSessionRow) -> Option<Seq<u8>> {
    if row_ok(r) {
        Option::Some(r.subject->Some_0@)
    } else {
        Option::None
    }
}

/// The fact a row contributes: its parsed proposal number and its visit
/// number, zero when null.
pub open spec fn row_fact(r: RawSessionRow) -> (u32, u32) {
    if row_ok(r) {
        (
            parse_u32_val(r.proposal_number->Some_0@) as u32,
            match r.visit_number {
                Option::Some(v) => v,
                Option::None => 0,
            },
        )
    } else {
        (0, 0)
    }
}

/// The keyed facts of a sequence of rows.
pub open spec fn rows_pairs(rows: Seq<RawSessionRow>) -> Seq<(Option<Seq<u8>>, (u32, u32))> {
    rows.map_values(|r: RawSessionRow| (row_key(r), row_fact(r)))
}

impl SessionRow {
    /// Validates a raw row, accepting exactly the rows whose required fields
    /// are present and parse; a null visit number becomes zero.
    pub fn validate(raw: RawSessionRow) -> (r: Result<SessionRow, ValidationError>)
        ensures
            match r {
                Result::Ok(v) => row_ok(raw) && v.subject@ == raw.subject->Some_0@ && (
                v.proposal_number,
                v.visit_number,
                ) == row_fact(raw),
                Result::Err(e) => !row_ok(raw) && e == row_err(raw),
            },
    {
        match raw.subject {
            Option::None => Err(ValidationError::NullSubject),
            Option::Some(subject) => match raw.proposal_number {
                Option::None => Err(ValidationError::NullProposal),
                Option::Some(p) => match parse_u32(&p) {
                    Option::None => Err(ValidationError::BadNumber),
                    Option::Some(n) => Ok(
                        SessionRow {
                            subject,
                            proposal_number: n,
                            visit_number: match raw.visit_number {
                                Option::Some(v) => v,
                                Option::None => 0,
                            },
                        },
                    ),
                },
            },
        }
    }
}

/// A mapping of subjects to their sessions, each a proposal and visit pair,
/// ordered by subject.
pub struct SubjectSessions {
    map: StrMap<Vec<(u32, u32)>>,
}

impl View for SubjectSessions {
    type V = Seq<(Seq<u8>, Seq<(u32, u32)>)>;

    closed spec fn view(&self) -> Seq<(Seq<u8>, Seq<(u32, u32)>)> {
        self.map@
    }
}

impl SubjectSessions {
    /// The entries are sorted by strictly increasing subject.
    pub open spec fn wf(&self) -> bool {
        entries_wf(self@)
    }

    /// Aggregates raw rows: each validated row appends its proposal and
    /// visit pair to its subject's entry, in row order; rows failing
    /// validation are dropped.
    pub fn from_rows(rows: Vec<RawSessionRow>) -> (r: Self)
        ensures
            r@ == fold_entries(rows_pairs(rows@)),
            r.wf(),
    {
        let ghost orig = rows@;
        let mut rows = rows;
        let mut pairs: Vec<(Option<Vec<u8>>, (u32, u32))> = Vec::new();
        while rows.len() > 0
            invariant
                orig.len() == pairs@.len() + rows@.len(),
                rows@ =~= orig.skip(pairs@.len() as int),
                pair_views(pairs@) =~= rows_pairs(orig.take(pairs@.len() as int)),
            decreases rows@.len(),
        {
            let ghost n = pairs@.len() as int;
            let ghost old_pairs = pairs@;
            let row = rows.remove(0);
            let ghost rowv = row;
            proof {
                assert(rowv == orig[n]);
            }
            match SessionRow::validate(row) {
                Ok(v) => pairs.push((Some(v.subject), (v.proposal_number, v.visit_number))),
                Err(_) => pairs.push((None, (0, 0))),
            }
            proof {
                assert(rows@ =~= orig.skip(n + 1));
                assert forall|j: int| 0 <= j < n + 1 implies pair_views(pairs@)[j] == rows_pairs(
                    orig.take(n + 1),
                )[j] by {
                    assert(orig.take(n + 1)[j] == orig[j]);
                    if j < n {
                        assert(pairs@[j] == old_pairs[j]);
                        assert(pair_views(old_pairs)[j] == rows_pairs(orig.take(n))[j]);
                        assert(orig.take(n)[j] == orig[j]);
                    }
                }
                assert(pair_views(pairs@) =~= rows_pairs(orig.take(n + 1)));
            }
        }
        proof {
            assert(orig.take(pairs@.len() as int) =~= orig);
        }
        let map = fold_push(pairs);
        SubjectSessions { map }
    }

    /// The number of subjects.
    pub fn len(&self) -> (n: usize)
        ensures
            n == self@.len(),
    {
        self.map.len()
    }

    /// The subject of the entry at position `i`.
    pub fn key_at(&self, i: usize) -> (k: &Vec<u8>)
        requires
            i < self@.len(),
        ensures
            k@ == self@[i as int].0,
    {
        self.map.key_at(i)
    }

    /// The sessions of the entry at position `i`.
    pub fn val_at(&self, i: usize) -> (v: &Vec<(u32, u32)>)
        requires
            i < self@.len(),
        ensures
            v@ == self@[i as int].1,
    {
        let v = self.map.val_at(i);
        proof {
            assert(v.deep_view() =~= v@);
        }
        v
    }

    /// The sessions recorded for a subject.
    pub fn get(&self, subject: &Vec<u8>) -> (r: Option<&Vec<(u32, u32)>>)
        requires
            self.wf(),
        ensures
            match r {
                Option::Some(v) => has_key(self@, subject@) && v@ == value_of(self@, subject@),
                Option::None => !has_key(self@, subject@),
            },
    {
        let r = self.map.get(subject);
        proof {
            if r is Some {
                assert(r->Some_0.deep_view() =~= r->Some_0@);
            }
        }
        r
    }

    /// Removes the entry at position `i` and hands out its subject and
    /// sessions.
    pub fn take_at(&mut self, i: usize) -> (kv: (Vec<u8>, Vec<(u32, u32)>))
        requires
            i < old(self)@.len(),
        ensures
            kv.0@ == old(self)@[i as int].0,
            kv.1@ == old(self)@[i as int].1,
            final(self)@ == old(self)@.remove(i as int),
            old(self).wf() ==> final(self).wf(),
    {
        let kv = self.map.take_at(i);
        proof {
            assert(kv.1.deep_view() =~= kv.1@);
        }
        kv
    }
}

} // verus!

verus! {

/// Null handling: a row missing a required identifying field contributes
/// under no key, so it is excluded from the aggregate; a row whose optional
/// visit number is null is included with the visit number read as zero.
pub proof fn lemma_null_handling(r: RawSessionRow)
    ensures
        r.subject is None || r.proposal_number is None ==> row_key(r) is None,
        row_ok(r) && r.visit_number is None ==> row_fact(r).1 == 0,
{
}

} // verus!
