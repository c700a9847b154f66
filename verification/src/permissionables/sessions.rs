//! A mapping of sessions to their various attributes.

use vstd::prelude::*;
use crate::nummap::{
    NumMap, fold_set, num_fold_set, num_pair_views, num_entries_wf, num_has_key, num_value_of,
};
use crate::parse::{parse_u32, parse_u32_ok, parse_u32_val};
use crate::permissionables::ValidationError;

verus! {

/// A row from the source detailing one session.
#[derive(Debug)]
pub struct RawSessionRow {
    /// An opaque identifier of the session.
    pub session_id: u32,
    /// The proposal number, stored as text; may be null in the source.
    pub proposal_number: Option<Vec<u8>>,
    /// The number of the visit within the proposal; may be null.
    pub visit_number: Option<u32>,
    /// The beamline the session took place on; may be null.
    pub beamline: Option<Vec<u8>>,
}

/// The various attributes of a session.
#[derive(Debug)]
pub struct Session {
    /// The number of the proposal this session belongs to.
    pub proposal_number: u32,
    /// The number of the visit within the proposal this session belongs to.
    pub visit_number: u32,
    /// The beamline the session took place on.
    pub beamline: Vec<u8>,
}

impl DeepView for Session {
    type V = (u32, u32, Seq<u8>);

    open spec fn deep_view(&self) -> (u32, u32, Seq<u8>) {
        (self.proposal_number, self.visit_number, self.beamline@)
    }
}

/// A validated row: required fields present and parsed, the visit number
/// defaulted to zero when null.
#[derive(Debug)]
pub struct SessionRow {
    /// An opaque identifier of the session.
    pub session_id: u32,
    /// The number of the proposal this session belongs to.
    pub proposal_number: u32,
    /// The number of the visit within the proposal.
    pub visit_number: u32,
    /// The beamline the session took place on.
    pub beamline: Vec<u8>,
}

/// Whether a raw row passes validation: proposal number present and parsed,
/// beamline present. A null visit number is not a failure.
pub open spec fn row_ok(r: RawSessionRow) -> bool {
    &&& r.proposal_number is Some
    &&& parse_u32_ok(r.proposal_number->Some_0@)
    &&& r.beamline is Some
}

/// The error a failing row is rejected with, checking the proposal first.
pub open spec fn row_err(r: RawSessionRow) -> ValidationError {
    if r.proposal_number is None {
        ValidationError::NullProposal
    } else if !parse_u32_ok(r.proposal_number->Some_0@) {
        ValidationError::BadNumber
    } else {
        ValidationError::NullBeamline
    }
}

/// The key a row contributes under: its session identifier, when the row
/// validates.
pub open spec fn row_key(r: RawSessionRow) -> Option<u32> {
    if row_ok(r) {
        Option::Some(r.session_id)
    } else {
        Option::None
    }
}

/// The attributes a row contributes: proposal number, visit number (zero
/// when null) and beamline.
pub open spec fn row_fact(r: RawSessionRow) -> (u32, u32, Seq<u8>) {
    if row_ok(r) {
        (
            parse_u32_val(r.proposal_number->Some_0@) as u32,
            match r.visit_number {
                Option::Some(v) => v,
                Option::None => 0,
            },
            r.beamline->Some_0@,
        )
    } else {
        (0, 0, Seq::empty())
    }
}

/// The keyed attributes of a sequence of rows.
pub open spec fn rows_pairs(rows: Seq<RawSessionRow>) -> Seq<(Option<u32>, (u32, u32, Seq<u8>))> {
    rows.map_values(|r: RawSessionRow| (row_key(r), row_fact(r)))
}

impl SessionRow {
    /// Validates a raw row, accepting exactly the rows whose required fields
    /// are present and parse; a null visit number becomes zero.
    pub fn validate(raw: RawSessionRow) -> (r: Result<SessionRow, ValidationError>)
        ensures
            match r {
                Result::Ok(v) => row_ok(raw) && v.session_id == raw.session_id && (
                v.proposal_number,
                v.visit_number,
                v.beamline@,
                ) == row_fact(raw),
                Result::Err(e) => !row_ok(raw) && e == row_err(raw),
            },
    {
        match raw.proposal_number {
            Option::None => Err(ValidationError::NullProposal),
            Option::Some(p) => match parse_u32(&p) {
                Option::None => Err(ValidationError::BadNumber),
                Option::Some(n) => match raw.beamline {
                    Option::None => Err(ValidationError::NullBeamline),
                    Option::Some(beamline) => Ok(
                        SessionRow {
                            session_id: raw.session_id,
                            proposal_number: n,
                            visit_number: match raw.visit_number {
                                Option::Some(v) => v,
                                Option::None => 0,
                            },
                            beamline,
                        },
                    ),
                },
            },
        }
    }
}

/// A mapping of sessions to their attributes, ordered by session identifier.
pub struct Sessions {
    map: NumMap<Session>,
}

impl View for Sessions {
    type V = Seq<(u32, (u32, u32, Seq<u8>))>;

    closed spec fn view(&self) -> Seq<(u32, (u32, u32, Seq<u8>))> {
        self.map@
    }
}

impl Sessions {
    /// The entries are sorted by strictly increasing session identifier.
    pub open spec fn wf(&self) -> bool {
        num_entries_wf(self@)
    }

    /// Aggregates raw rows: each validated row stores its attributes under
    /// its session identifier, a later row for the same session winning;
    /// rows failing validation are dropped.
    pub fn from_rows(rows: Vec<RawSessionRow>) -> (r: Self)
        ensures
            r@ == num_fold_set(rows_pairs(rows@)),
            r.wf(),
    {
        let ghost orig = rows@;
        let mut rows = rows;
        let mut pairs: Vec<(Option<u32>, Session)> = Vec::new();
        while rows.len() > 0
            invariant
                orig.len() == pairs@.len() + rows@.len(),
                rows@ =~= orig.skip(pairs@.len() as int),
                num_pair_views(pairs@) =~= rows_pairs(orig.take(pairs@.len() as int)),
            decreases rows@.len(),
        {
            let ghost n = pairs@.len() as int;
            let ghost old_pairs = pairs@;
            let row = rows.remove(0);
            let ghost rowv = row;
            proof {
                assert(rowv == orig[n]);
            }
            match SessionRow::validate(row) {
                Ok(v) => pairs.push(
                    (
                        Some(v.session_id),
                        Session {
                            proposal_number: v.proposal_number,
                            visit_number: v.visit_number,
                            beamline: v.beamline,
                        },
                    ),
                ),
                Err(_) => pairs.push(
                    (None, Session { proposal_number: 0, visit_number: 0, beamline: Vec::new() }),
                ),
            }
            proof {
                assert(rows@ =~= orig.skip(n + 1));
                assert forall|j: int| 0 <= j < n + 1 implies num_pair_views(pairs@)[j]
                    == rows_pairs(orig.take(n + 1))[j] by {
                    assert(orig.take(n + 1)[j] == orig[j]);
                    if j < n {
                        assert(pairs@[j] == old_pairs[j]);
                        assert(num_pair_views(old_pairs)[j] == rows_pairs(orig.take(n))[j]);
                        assert(orig.take(n)[j] == orig[j]);
                    }
                }
                assert(num_pair_views(pairs@) =~= rows_pairs(orig.take(n + 1)));
            }
        }
        proof {
            assert(orig.take(pairs@.len() as int) =~= orig);
        }
        let map = fold_set(pairs);
        Sessions { map }
    }

    /// The number of sessions.
    pub fn len(&self) -> (n: usize)
        ensures
            n == self@.len(),
    {
        self.map.len()
    }

    /// The session identifier of the entry at position `i`.
    pub fn key_at(&self, i: usize) -> (k: u32)
        requires
            i < self@.len(),
        ensures
            k == self@[i as int].0,
    {
        self.map.key_at(i)
    }

    /// The attributes of the session at position `i`.
    pub fn val_at(&self, i: usize) -> (v: &Session)
        requires
            i < self@.len(),
        ensures
            v.deep_view() == self@[i as int].1,
    {
        self.map.val_at(i)
    }

    /// The attributes recorded for a session.
    pub fn get(&self, session_id: u32) -> (r: Option<&Session>)
        requires
            self.wf(),
        ensures
            match r {
                Option::Some(v) => num_has_key(self@, session_id) && v.deep_view() == num_value_of(
                    self@,
                    session_id,
                ),
                Option::None => !num_has_key(self@, session_id),
            },
    {
        self.map.get(session_id)
    }
}

} // verus!

use vstd::string::StringSliceAdditionalSpecFns;
use crate::json::{json_str, dec_nat, push_json_str, push_dec_u32, push_byte, push_bytes};

verus! {

/// One session as a JSON object entry: its identifier quoted as a string,
/// then its attributes.
pub open spec fn session_entry_json(e: (u32, (u32, u32, Seq<u8>))) -> Seq<u8> {
    seq![0x22u8] + dec_nat(e.0 as nat) + "\":{\"proposal_number\":".spec_bytes() + dec_nat(
        e.1.0 as nat,
    ) + ",\"visit_number\":".spec_bytes() + dec_nat(e.1.1 as nat) + ",\"beamline\":".spec_bytes()
        + json_str(e.1.2) + seq![0x7du8]
}

/// The comma-separated entries of the sessions document.
pub open spec fn sessions_items(m: Seq<(u32, (u32, u32, Seq<u8>))>) -> Seq<u8>
    decreases m.len(),
{
    if m.len() == 0 {
        Seq::empty()
    } else if m.len() == 1 {
        session_entry_json(m.last())
    } else {
        sessions_items(m.drop_last()) + seq![0x2cu8] + session_entry_json(m.last())
    }
}

/// The sessions document: one JSON object keyed by session identifier.
pub open spec fn sessions_json(m: Seq<(u32, (u32, u32, Seq<u8>))>) -> Seq<u8> {
    seq![0x7bu8] + sessions_items(m) + seq![0x7du8]
}

impl Sessions {
    /// Serializes the document as canonical JSON, entries in key order.
    #[verifier::rlimit(60)]
    pub fn to_json(&self) -> (r: Vec<u8>)
        ensures
            r@ == sessions_json(self@),
    {
        let mut out: Vec<u8> = Vec::new();
        push_byte(&mut out, 0x7b);
        let mut i: usize = 0;
        let n = self.len();
        while i < n
            invariant
                i <= n == self@.len(),
                out@ == seq![0x7bu8] + sessions_items(self@.take(i as int)),
            decreases n - i,
        {
            if i > 0 {
                push_byte(&mut out, 0x2c);
            }
            push_byte(&mut out, 0x22);
            push_dec_u32(&mut out, self.key_at(i));
            push_bytes(&mut out, "\":{\"proposal_number\":".as_bytes());
            let v = self.val_at(i);
            push_dec_u32(&mut out, v.proposal_number);
            push_bytes(&mut out, ",\"visit_number\":".as_bytes());
            push_dec_u32(&mut out, v.visit_number);
            push_bytes(&mut out, ",\"beamline\":".as_bytes());
            push_json_str(&mut out, &v.beamline);
            push_byte(&mut out, 0x7d);
            proof {
                assert(self@.take(i + 1).drop_last() =~= self@.take(i as int));
                assert(self@.take(i + 1).last() == self@[i as int]);
                assert(out@ == seq![0x7bu8] + sessions_items(self@.take(i + 1)));
            }
            i = i + 1;
        }
        push_byte(&mut out, 0x7d);
        proof {
            assert(self@.take(self@.len() as int) =~= self@);
        }
        out
    }
}

} // verus!
