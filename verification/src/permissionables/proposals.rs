//! A mapping of proposals to their various attributes.

use vstd::prelude::*;
use crate::nummap::{
    NumMap, num_key_idx, num_entries_wf, num_has_key, num_value_of, num_set_step,
    lemma_num_key_idx, lemma_num_key_idx_from_bounds,
};
use crate::parse::{parse_u32, parse_u32_ok, parse_u32_val};
use crate::permissionables::ValidationError;

verus! {

/// A row from the source detailing one session of a proposal.
#[derive(Debug)]
pub struct RawProposalRow {
    /// The proposal number, stored as text; may be null in the source.
    pub proposal_number: Option<Vec<u8>>,
    /// The number of the visit on the proposal; may be null.
    pub visit_number: Option<u32>,
    /// An opaque identifier of the session.
    pub session_id: u32,
}

/// A validated row: the proposal number parsed, the visit number defaulted
/// to zero when null.
#[derive(Debug)]
pub struct ProposalRow {
    /// The proposal number.
    pub proposal_number: u32,
    /// The number of the visit on the proposal.
    pub visit_number: u32,
    /// An opaque identifier of the session.
    pub session_id: u32,
}

/// The various attributes of a proposal.
pub struct Proposal {
    /// The sessions which took place within the proposal, keyed by visit
    /// number.
    sessions: NumMap<u32>,
}

impl DeepView for Proposal {
    type V = Seq<(u32, u32)>;

    closed spec fn deep_view(&self) -> Seq<(u32, u32)> {
        self.sessions@
    }
}

impl Proposal {
    /// The sessions of the proposal, keyed by visit number.
    pub fn sessions(&self) -> (s: &NumMap<u32>)
        ensures
            s@ == self.deep_view(),
    {
        &self.sessions
    }
}

/// Whether a raw row passes validation: proposal number present and parsed.
/// A null visit number is not a failure.
pub open spec fn row_ok(r: RawProposalRow) -> bool {
    &&& r.proposal_number is Some
    &&& parse_u32_ok(r.proposal_number->Some_0@)
}

/// The error a failing row is rejected with.
pub open spec fn row_err(r: RawProposalRow) -> ValidationError {
    if r.proposal_number is None {
        ValidationError::NullProposal
    } else {
        ValidationError::BadNumber
    }
}

/// The key a row contributes under: its parsed proposal number.
pub open spec fn row_key(r: RawProposalRow) -> Option<u32> {
    if row_ok(r) {
        Option::Some(parse_u32_val(r.proposal_number->Some_0@) as u32)
    } else {
        Option::None
    }
}

/// The fact a row contributes: its visit number (zero when null) and its
/// session identifier.
pub open spec fn row_fact(r: RawProposalRow) -> (u32, u32) {
    if row_ok(r) {
        (
            match r.visit_number {
                Option::Some(v) => v,
                Option::None => 0,
            },
            r.session_id,
        )
    } else {
        (0, 0)
    }
}

/// The keyed facts of a sequence of rows.
pub open spec fn rows_pairs(rows: Seq<RawProposalRow>) -> Seq<(Option<u32>, (u32, u32))> {
    rows.map_values(|r: RawProposalRow| (row_key(r), row_fact(r)))
}

impl ProposalRow {
    /// Validates a raw row, accepting exactly the rows whose proposal number
    /// is present and parses; a null visit number becomes zero.
    pub fn validate(raw: RawProposalRow) -> (r: Result<ProposalRow, ValidationError>)
        ensures
            match r {
                Result::Ok(v) => row_ok(raw) && Option::Some(v.proposal_number) == row_key(raw) && (
                v.visit_number,
                v.session_id,
                ) == row_fact(raw),
                Result::Err(e) => !row_ok(raw) && e == row_err(raw),
            },
    {
        match raw.proposal_number {
            Option::None => Err(ValidationError::NullProposal),
            Option::Some(p) => match parse_u32(&p) {
                Option::None => Err(ValidationError::BadNumber),
                Option::Some(n) => Ok(
                    ProposalRow {
                        proposal_number: n,
                        visit_number: match raw.visit_number {
                            Option::Some(v) => v,
                            Option::None => 0,
                        },
                        session_id: raw.session_id,
                    },
                ),
            },
        }
    }
}

/// One step of the nested aggregation: store session `f.1` under visit `f.0`
/// of proposal `k`, creating the proposal's entry if it is new; a later
/// session for the same visit overwrites an earlier one.
pub open spec fn prop_step(m: Seq<(u32, Seq<(u32, u32)>)>, k: u32, f: (u32, u32)) -> Seq<
    (u32, Seq<(u32, u32)>),
> {
    let i = num_key_idx(m, k);
    if i < m.len() && m[i].0 == k {
        m.update(i, (k, num_set_step(m[i].1, f.0, f.1)))
    } else {
        m.insert(i, (k, num_set_step(Seq::empty(), f.0, f.1)))
    }
}

/// The nested aggregation folded over a sequence of keyed facts.
pub open spec fn prop_fold(pairs: Seq<(Option<u32>, (u32, u32))>) -> Seq<(u32, Seq<(u32, u32)>)>
    decreases pairs.len(),
{
    if pairs.len() == 0 {
        Seq::empty()
    } else {
        let prev = prop_fold(pairs.drop_last());
        match pairs.last().0 {
            Option::Some(k) => prop_step(prev, k, pairs.last().1),
            Option::None => prev,
        }
    }
}

/// Outer and inner entries are all sorted by strictly increasing key.
pub open spec fn props_wf(m: Seq<(u32, Seq<(u32, u32)>)>) -> bool {
    num_entries_wf(m) && forall|i: int| 0 <= i < m.len() ==> num_entries_wf(#[trigger] m[i].1)
}

/// A mapping of proposals to their attributes, ordered by proposal number.
pub struct Proposals {
    map: NumMap<Proposal>,
}

impl View for Proposals {
    type V = Seq<(u32, Seq<(u32, u32)>)>;

    closed spec fn view(&self) -> Seq<(u32, Seq<(u32, u32)>)> {
        self.map@
    }
}

impl Proposals {
    /// Outer entries are sorted by proposal number and each proposal's
    /// sessions are sorted by visit number.
    pub open spec fn wf(&self) -> bool {
        props_wf(self@)
    }

    /// Aggregates raw rows: each validated row stores its session under its
    /// visit number within its proposal's entry, a later row for the same
    /// visit winning; rows failing validation are dropped.
    pub fn from_rows(rows: Vec<RawProposalRow>) -> (r: Self)
        ensures
            r@ == prop_fold(rows_pairs(rows@)),
            r.wf(),
    {
        let ghost orig = rows@;
        let mut rows = rows;
        let mut m: NumMap<Proposal> = NumMap::new();
        let ghost mut done: Seq<(Option<u32>, (u32, u32))> = Seq::empty();
        proof {
            assert(prop_fold(done) =~= m@);
            assert(rows_pairs(orig) =~= done + rows_pairs(rows@));
        }
        while rows.len() > 0
            invariant
                rows_pairs(orig) == done + rows_pairs(rows@),
                m@ == prop_fold(done),
                props_wf(m@),
            decreases rows@.len(),
        {
            let ghost prev_rows = rows@;
            let row = rows.remove(0);
            let ghost rowv = row;
            let ghost pv = (row_key(rowv), row_fact(rowv));
            proof {
                assert(rows_pairs(prev_rows)[0] == pv);
                assert(done.push(pv) + rows_pairs(rows@) =~= done + rows_pairs(prev_rows)) by {
                    assert(rows@ =~= prev_rows.drop_first());
                    assert forall|j: int| 0 <= j < rows@.len() implies rows_pairs(rows@)[j]
                        == rows_pairs(prev_rows)[j + 1] by {
                        assert(rows@[j] == prev_rows[j + 1]);
                    }
                }
                assert((done.push(pv)).drop_last() =~= done);
            }
            match ProposalRow::validate(row) {
                Err(_) => {},
                Ok(v) => {
                    let ghost prev = m@;
                    let k = v.proposal_number;
                    let f = (v.visit_number, v.session_id);
                    let (found, i) = m.locate(k);
                    if found {
                        let (k2, mut prop) = m.take_at(i);
                        proof {
                            assert(prop.deep_view() == prev[i as int].1);
                            assert(num_entries_wf(prop.sessions@));
                            lemma_num_key_idx(prev, k);
                            assert forall|j: int| 0 <= j < i implies (#[trigger] m@[j].0) < k by {
                                assert(m@[j] == prev[j]);
                            }
                            if i < m@.len() {
                                assert(m@[i as int] == prev[i + 1]);
                            }
                            lemma_num_key_idx_from_bounds(m@, k, i as int);
                        }
                        let ghost inner_prev = prop.sessions@;
                        let (ifound, j) = prop.sessions.locate(f.0);
                        if ifound {
                            prop.sessions.set_at(j, f.1);
                        } else {
                            prop.sessions.insert_at(j, f.0, f.1);
                        }
                        proof {
                            assert(prop.sessions@ =~= num_set_step(inner_prev, f.0, f.1));
                        }
                        m.insert_at(i, k2, prop);
                        proof {
                            assert(m@ =~= prop_step(prev, k, f)) by {
                                assert(m@ =~= prev.update(
                                    i as int,
                                    (k, num_set_step(inner_prev, f.0, f.1)),
                                ));
                            }
                            assert forall|x: int| 0 <= x < m@.len() implies num_entries_wf(
                                #[trigger] m@[x].1,
                            ) by {
                                if x != i {
                                    assert(m@[x] == prev[x]);
                                }
                            }
                        }
                    } else {
                        let mut s: NumMap<u32> = NumMap::new();
                        s.insert_at(0, f.0, f.1);
                        proof {
                            assert(s@ =~= num_set_step(Seq::empty(), f.0, f.1));
                        }
                        m.insert_at(i, k, Proposal { sessions: s });
                        proof {
                            lemma_num_key_idx(prev, k);
                            assert(m@ =~= prop_step(prev, k, f));
                            assert forall|x: int| 0 <= x < m@.len() implies num_entries_wf(
                                #[trigger] m@[x].1,
                            ) by {
                                if x < i {
                                    assert(m@[x] == prev[x]);
                                } else if x > i {
                                    assert(m@[x] == prev[x - 1]);
                                }
                            }
                        }
                    }
                },
            }
            proof {
                done = done.push(pv);
            }
        }
        proof {
            assert(rows_pairs(rows@) =~= Seq::<(Option<u32>, (u32, u32))>::empty());
            assert(done =~= rows_pairs(orig));
        }
        Proposals { map: m }
    }

    /// The number of proposals.
    pub fn len(&self) -> (n: usize)
        ensures
            n == self@.len(),
    {
        self.map.len()
    }

    /// The proposal number of the entry at position `i`.
    pub fn key_at(&self, i: usize) -> (k: u32)
        requires
            i < self@.len(),
        ensures
            k == self@[i as int].0,
    {
        self.map.key_at(i)
    }

    /// The attributes of the proposal at position `i`.
    pub fn val_at(&self, i: usize) -> (v: &Proposal)
        requires
            i < self@.len(),
        ensures
            v.deep_view() == self@[i as int].1,
    {
        self.map.val_at(i)
    }

    /// The attributes recorded for a proposal.
    pub fn get(&self, proposal_number: u32) -> (r: Option<&Proposal>)
        requires
            self.wf(),
        ensures
            match r {
                Option::Some(v) => num_has_key(self@, proposal_number) && v.deep_view()
                    == num_value_of(self@, proposal_number),
                Option::None => !num_has_key(self@, proposal_number),
            },
    {
        self.map.get(proposal_number)
    }
}

} // verus!

use vstd::string::StringSliceAdditionalSpecFns;
use crate::json::{dec_nat, num_obj, push_dec_u32, push_num_obj, push_byte, push_bytes};

verus! {

/// One proposal as a JSON object entry: its number quoted as a string, then
/// its sessions keyed by visit number.
pub open spec fn proposal_entry_json(e: (u32, Seq<(u32, u32)>)) -> Seq<u8> {
    seq![0x22u8] + dec_nat(e.0 as nat) + "\":{\"sessions\":".spec_bytes() + num_obj(e.1) + seq![
        0x7du8,
    ]
}

/// The comma-separated entries of the proposals document.
pub open spec fn proposals_items(m: Seq<(u32, Seq<(u32, u32)>)>) -> Seq<u8>
    decreases m.len(),
{
    if m.len() == 0 {
        Seq::empty()
    } else if m.len() == 1 {
        proposal_entry_json(m.last())
    } else {
        proposals_items(m.drop_last()) + seq![0x2cu8] + proposal_entry_json(m.last())
    }
}

/// The proposals document: one JSON object keyed by proposal number.
pub open spec fn proposals_json(m: Seq<(u32, Seq<(u32, u32)>)>) -> Seq<u8> {
    seq![0x7bu8] + proposals_items(m) + seq![0x7du8]
}

impl Proposals {
    /// Serializes the document as canonical JSON, entries in key order.
    #[verifier::rlimit(60)]
    pub fn to_json(&self) -> (r: Vec<u8>)
        ensures
            r@ == proposals_json(self@),
    {
        let mut out: Vec<u8> = Vec::new();
        push_byte(&mut out, 0x7b);
        let mut i: usize = 0;
        let n = self.len();
        while i < n
            invariant
                i <= n == self@.len(),
                out@ == seq![0x7bu8] + proposals_items(self@.take(i as int)),
            decreases n - i,
        {
            if i > 0 {
                push_byte(&mut out, 0x2c);
            }
            push_byte(&mut out, 0x22);
            push_dec_u32(&mut out, self.key_at(i));
            push_bytes(&mut out, "\":{\"sessions\":".as_bytes());
            let v = self.val_at(i);
            let s = v.sessions();
            push_num_obj(&mut out, s.entries_vec());
            push_byte(&mut out, 0x7d);
            proof {
                assert(self@.take(i + 1).drop_last() =~= self@.take(i as int));
                assert(self@.take(i + 1).last() == self@[i as int]);
                assert(out@ == seq![0x7bu8] + proposals_items(self@.take(i + 1)));
            }
            i = i + 1;
        }
        push_byte(&mut out, 0x7d);
        proof {
            assert(self@.take(self@.len() as int) =~= self@);
        }
        out
    }
}

} // verus!

use crate::nummap::{num_values_for, lemma_num_insert_same, lemma_num_insert_frame, num_fold_set};

verus! {

/// The sessions of one proposal: the visit and session pairs contributed
/// for it, folded in contribution order with a later pair for the same
/// visit winning.
pub open spec fn inner_sessions(facts: Seq<(u32, u32)>) -> Seq<(u32, u32)> {
    num_fold_set(facts.map_values(|f: (u32, u32)| (Option::Some(f.0), f.1)))
}

/// The nested aggregation unions all facts for one proposal under a single
/// entry: a proposal is present exactly when some pair contributes it, and
/// its entry then carries the replace-fold of every contributed visit and
/// session pair.
pub proof fn lemma_prop_fold_lookup(pairs: Seq<(Option<u32>, (u32, u32))>, k: u32)
    ensures
        props_wf(prop_fold(pairs)),
        num_has_key(prop_fold(pairs), k) <==> num_values_for(pairs, k).len() > 0,
        num_has_key(prop_fold(pairs), k) ==> num_value_of(prop_fold(pairs), k) == inner_sessions(
            num_values_for(pairs, k),
        ),
    decreases pairs.len(),
{
    let m = prop_fold(pairs);
    let pred = |p: (Option<u32>, (u32, u32))| p.0 == Option::Some(k);
    let proj = |p: (Option<u32>, (u32, u32))| p.1;
    let to_inner = |f: (u32, u32)| (Option::Some(f.0), f.1);
    reveal(Seq::filter);
    if pairs.len() == 0 {
        assert(pairs.filter(pred) =~= Seq::<(Option<u32>, (u32, u32))>::empty());
        assert(num_values_for(pairs, k).map_values(to_inner) =~= Seq::<
            (Option<u32>, u32),
        >::empty());
    } else {
        let rest = pairs.drop_last();
        let last = pairs.last();
        let prev = prop_fold(rest);
        lemma_prop_fold_lookup(rest, k);
        assert(pairs.drop_last() == rest);
        match last.0 {
            Option::None => {},
            Option::Some(kl) => {
                lemma_prop_fold_lookup(rest, kl);
                let f = last.1;
                crate::nummap::lemma_num_key_idx(prev, kl);
                let i = num_key_idx(prev, kl);
                let inner_prev: Seq<(u32, u32)> = if i < prev.len() && prev[i].0 == kl {
                    prev[i].1
                } else {
                    Seq::empty()
                };
                let ins = num_set_step(inner_prev, f.0, f.1);
                assert(m == num_set_step(prev, kl, ins));
                crate::nummap::lemma_num_set_step_wf(prev, kl, ins);
                assert(num_entries_wf(inner_prev)) by {
                    if i < prev.len() && prev[i].0 == kl {
                        assert(num_entries_wf(prev[i].1));
                    }
                }
                crate::nummap::lemma_num_set_step_wf(inner_prev, f.0, f.1);
                lemma_num_insert_same(prev, kl, ins);
                assert forall|x: int| 0 <= x < m.len() implies num_entries_wf(
                    #[trigger] m[x].1,
                ) by {
                    if i < prev.len() && prev[i].0 == kl {
                        if x != i {
                            assert(m[x] == prev[x]);
                        }
                    } else {
                        if x < i {
                            assert(m[x] == prev[x]);
                        } else if x > i {
                            assert(m[x] == prev[x - 1]);
                        }
                    }
                }
                if kl == k {
                    assert(pairs.filter(pred) == rest.filter(pred).push(last));
                    let facts = num_values_for(rest, k);
                    assert(num_values_for(pairs, k) =~= facts.push(f)) by {
                        assert(rest.filter(pred).push(last).map_values(proj) =~= rest.filter(
                            pred,
                        ).map_values(proj).push(f));
                    }
                    assert(inner_sessions(facts.push(f)) == num_set_step(
                        inner_sessions(facts),
                        f.0,
                        f.1,
                    )) by {
                        assert(facts.push(f).map_values(to_inner) =~= facts.map_values(
                            to_inner,
                        ).push((Option::Some(f.0), f.1)));
                        assert(facts.map_values(to_inner).push(
                            (Option::Some(f.0), f.1),
                        ).drop_last() =~= facts.map_values(to_inner));
                    }
                    assert(inner_prev == inner_sessions(facts)) by {
                        if i < prev.len() && prev[i].0 == kl {
                        } else {
                            assert(facts.len() == 0);
                            assert(facts.map_values(to_inner) =~= Seq::<
                                (Option<u32>, u32),
                            >::empty());
                            assert(inner_sessions(facts) =~= Seq::<(u32, u32)>::empty());
                        }
                    }
                } else {
                    assert(pairs.filter(pred) == rest.filter(pred));
                    lemma_num_insert_frame(prev, kl, ins, k);
                }
            },
        }
    }
}

} // verus!
