//! A mapping of subjects to their proposals.

use vstd::prelude::*;
use crate::strmap::{StrMap, fold_push, fold_entries, pair_views, entries_wf, has_key, value_of};
use crate::order::lemma_bytes_deep;
use crate::parse::{parse_u32, parse_u32_ok, parse_u32_val};
use crate::permissionables::ValidationError;

verus! {

broadcast use lemma_bytes_deep;

/// A row from the source detailing a proposal a subject is associated with.
#[derive(Debug)]
pub struct RawProposalRow {
    /// The unique identifier of the subject; may be null in the source.
    pub subject: Option<Vec<u8>>,
    /// The proposal number, stored as text; may be null in the source.
    pub proposal_number: Option<Vec<u8>>,
}

/// A validated row: all required fields present and parsed.
#[derive(Debug)]
pub struct ProposalRow {
    /// The unique identifier of the subject.
    pub subject: Vec<u8>,
    /// The proposal number.
    pub proposal_number: u32,
}

/// Whether a raw row passes validation: subject and proposal number present,
/// and the proposal number parses.
pub open spec fn row_ok(r: RawProposalRow) -> bool {
    &&& r.subject is Some
    &&& r.proposal_number is Some
    &&& parse_u32_ok(r.proposal_number->Some_0@)
}

/// The error a failing row is rejected with, checking the subject first.
pub open spec fn row_err(r: RawProposalRow) -> ValidationError {
    if r.subject is None {
        ValidationError::NullSubject
    } else if r.proposal_number is None {
        ValidationError::NullProposal
    } else {
        ValidationError::BadNumber
    }
}

/// The key a row contributes under: its subject, when the row validates.
pub open spec fn row_key(r: RawProposalRow) -> Option<Seq<u8>> {
    if row_ok(r) {
        Option::Some(r.subject->Some_0@)
    } else {
        Option::None
    }
}

/// The fact a row contributes: its parsed proposal number.
pub open spec fn row_fact(r: RawProposalRow) -> u32 {
    if row_ok(r) {
        parse_u32_val(r.proposal_number->Some_0@) as u32
    } else {
        0
    }
}

/// The keyed facts of a sequence of rows.
pub open spec fn rows_pairs(rows: Seq<RawProposalRow>) -> Seq<(Option<Seq<u8>>, u32)> {
    rows.map_values(|r: RawProposalRow| (row_key(r), row_fact(r)))
}

impl ProposalRow {
    /// Validates a raw row, accepting exactly the rows whose required fields
    /// are present and parse.
    pub fn validate(raw: RawProposalRow) -> (r: Result<ProposalRow, ValidationError>)
        ensures
            match r {
                Result::Ok(v) => row_ok(raw) && v.subject@ == raw.subject->Some_0@
                    && v.proposal_number == row_fact(raw),
                Result::Err(e) => !row_ok(raw) && e == row_err(raw),
            },
    {
        match raw.subject {
            Option::None => Err(ValidationError::NullSubject),
            Option::Some(subject) => match raw.proposal_number {
                Option::None => Err(ValidationError::NullProposal),
                Option::Some(p) => match parse_u32(&p) {
                    Option::None => Err(ValidationError::BadNumber),
                    Option::Some(n) => Ok(ProposalRow { subject, proposal_number: n }),
                },
            },
        }
    }
}

/// A mapping of subjects to their proposals, ordered by subject.
pub struct SubjectProposals {
    map: StrMap<Vec<u32>>,
}

impl View for SubjectProposals {
    type V = Seq<(Seq<u8>, Seq<u32>)>;

    closed spec fn view(&self) -> Seq<(Seq<u8>, Seq<u32>)> {
        self.map@
    }
}

impl SubjectProposals {
    /// The entries are sorted by strictly increasing subject.
    pub open spec fn wf(&self) -> bool {
        entries_wf(self@)
    }

    /// Aggregates raw rows: each validated row appends its proposal number
    /// to its subject's entry, in row order; rows failing validation are
    /// dropped.
    pub fn from_rows(rows: Vec<RawProposalRow>) -> (r: Self)
        ensures
            r@ == fold_entries(rows_pairs(rows@)),
            r.wf(),
    {
        let ghost orig = rows@;
        let mut rows = rows;
        let mut pairs: Vec<(Option<Vec<u8>>, u32)> = Vec::new();
        while rows.len() > 0
            invariant
                orig.len() == pairs@.len() + rows@.len(),
                rows@ =~= orig.skip(pairs@.len() as int),
                pair_views(pairs@) =~= rows_pairs(orig.take(pairs@.len() as int)),
            decreases rows@.len(),
        {
            let ghost n = pairs@.len() as int;
            let ghost old_pairs = pairs@;
            let row = rows.remove(0);
            let ghost rowv = row;
            proof {
                assert(rowv == orig[n]);
            }
            match ProposalRow::validate(row) {
                Ok(v) => pairs.push((Some(v.subject), v.proposal_number)),
                Err(_) => pairs.push((None, 0)),
            }
            proof {
                assert(rows@ =~= orig.skip(n + 1));
                assert forall|j: int| 0 <= j < n + 1 implies pair_views(pairs@)[j] == rows_pairs(
                    orig.take(n + 1),
                )[j] by {
                    assert(orig.take(n + 1)[j] == orig[j]);
                    if j < n {
                        assert(pairs@[j] == old_pairs[j]);
                        assert(pair_views(old_pairs)[j] == rows_pairs(orig.take(n))[j]);
                        assert(orig.take(n)[j] == orig[j]);
                    }
                }
                assert(pair_views(pairs@) =~= rows_pairs(orig.take(n + 1)));
            }
        }
        proof {
            assert(orig.take(pairs@.len() as int) =~= orig);
        }
        let map = fold_push(pairs);
        SubjectProposals { map }
    }

    /// The number of subjects.
    pub fn len(&self) -> (n: usize)
        ensures
            n == self@.len(),
    {
        self.map.len()
    }

    /// The subject of the entry at position `i`.
    pub fn key_at(&self, i: usize) -> (k: &Vec<u8>)
        requires
            i < self@.len(),
        ensures
            k@ == self@[i as int].0,
    {
        self.map.key_at(i)
    }

    /// The proposals of the entry at position `i`.
    pub fn val_at(&self, i: usize) -> (v: &Vec<u32>)
        requires
            i < self@.len(),
        ensures
            v.deep_view() == self@[i as int].1,
    {
        self.map.val_at(i)
    }

    /// The proposals recorded for a subject.
    pub fn get(&self, subject: &Vec<u8>) -> (r: Option<&Vec<u32>>)
        requires
            self.wf(),
        ensures
            match r {
                Option::Some(v) => has_key(self@, subject@) && v.deep_view() == value_of(
                    self@,
                    subject@,
                ),
                Option::None => !has_key(self@, subject@),
            },
    {
        self.map.get(subject)
    }

    /// Removes the entry at position `i` and hands out its subject and
    /// proposals.
    pub fn take_at(&mut self, i: usize) -> (kv: (Vec<u8>, Vec<u32>))
        requires
            i < old(self)@.len(),
        ensures
            kv.0@ == old(self)@[i as int].0,
            kv.1.deep_view() == old(self)@[i as int].1,
            final(self)@ == old(self)@.remove(i as int),
            old(self).wf() ==> final(self).wf(),
    {
        self.map.take_at(i)
    }
}

} // verus!
