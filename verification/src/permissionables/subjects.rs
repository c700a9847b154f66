//! A mapping of subjects to their various attributes, combined from the
//! permission, proposal and session relations.

use vstd::prelude::*;
use crate::strmap::{
    StrMap, entries_wf, has_key, value_of, key_idx, lemma_key_idx, lemma_key_idx_from_bounds,
};
use crate::order::{lex_lt, lemma_bytes_deep, lemma_lex_trichotomy};
use crate::permissionables::subject_permissions::SubjectPermissions;
use crate::permissionables::subject_proposals::SubjectProposals;
use crate::permissionables::subject_sessions::SubjectSessions;

verus! {

broadcast use lemma_bytes_deep;

/// The attributes of one subject: permissions, proposals and sessions.
#[derive(Debug)]
pub struct Subject {
    /// The permissions given to the subject.
    pub permissions: Vec<Vec<u8>>,
    /// The proposals the subject is associated with.
    pub proposals: Vec<u32>,
    /// The sessions the subject is associated with, each a proposal and
    /// visit pair.
    pub sessions: Vec<(u32, u32)>,
}

impl DeepView for Subject {
    type V = (Seq<Seq<u8>>, Seq<u32>, Seq<(u32, u32)>);

    open spec fn deep_view(&self) -> (Seq<Seq<u8>>, Seq<u32>, Seq<(u32, u32)>) {
        (self.permissions.deep_view(), self.proposals.deep_view(), self.sessions@)
    }
}

/// Entries seeded from the permission relation alone: every subject with
/// permissions, with empty proposals and sessions.
pub open spec fn base_entries(pm: Seq<(Seq<u8>, Seq<Seq<u8>>)>) -> Seq<
    (Seq<u8>, (Seq<Seq<u8>>, Seq<u32>, Seq<(u32, u32)>)),
> {
    pm.map_values(
        |e: (Seq<u8>, Seq<Seq<u8>>)|
            (e.0, (e.1, Seq::<u32>::empty(), Seq::<(u32, u32)>::empty())),
    )
}

/// One step of merging proposals in: set the proposals of subject `k`,
/// creating the subject's entry if it is new.
pub open spec fn add_props_step(
    m: Seq<(Seq<u8>, (Seq<Seq<u8>>, Seq<u32>, Seq<(u32, u32)>))>,
    k: Seq<u8>,
    props: Seq<u32>,
) -> Seq<(Seq<u8>, (Seq<Seq<u8>>, Seq<u32>, Seq<(u32, u32)>))> {
    let i = key_idx(m, k);
    if i < m.len() && m[i].0 == k {
        m.update(i, (k, (m[i].1.0, props, m[i].1.2)))
    } else {
        m.insert(i, (k, (Seq::empty(), props, Seq::empty())))
    }
}

/// Merges the proposal relation in, subject by subject.
pub open spec fn add_props(
    m: Seq<(Seq<u8>, (Seq<Seq<u8>>, Seq<u32>, Seq<(u32, u32)>))>,
    pr: Seq<(Seq<u8>, Seq<u32>)>,
) -> Seq<(Seq<u8>, (Seq<Seq<u8>>, Seq<u32>, Seq<(u32, u32)>))>
    decreases pr.len(),
{
    if pr.len() == 0 {
        m
    } else {
        add_props_step(add_props(m, pr.drop_last()), pr.last().0, pr.last().1)
    }
}

/// One step of merging sessions in: set the sessions of subject `k`,
/// creating the subject's entry if it is new.
pub open spec fn add_sess_step(
    m: Seq<(Seq<u8>, (Seq<Seq<u8>>, Seq<u32>, Seq<(u32, u32)>))>,
    k: Seq<u8>,
    sess: Seq<(u32, u32)>,
) -> Seq<(Seq<u8>, (Seq<Seq<u8>>, Seq<u32>, Seq<(u32, u32)>))> {
    let i = key_idx(m, k);
    if i < m.len() && m[i].0 == k {
        m.update(i, (k, (m[i].1.0, m[i].1.1, sess)))
    } else {
        m.insert(i, (k, (Seq::empty(), Seq::empty(), sess)))
    }
}

/// Merges the session relation in, subject by subject.
pub open spec fn add_sess(
    m: Seq<(Seq<u8>, (Seq<Seq<u8>>, Seq<u32>, Seq<(u32, u32)>))>,
    sn: Seq<(Seq<u8>, Seq<(u32, u32)>)>,
) -> Seq<(Seq<u8>, (Seq<Seq<u8>>, Seq<u32>, Seq<(u32, u32)>))>
    decreases sn.len(),
{
    if sn.len() == 0 {
        m
    } else {
        add_sess_step(add_sess(m, sn.drop_last()), sn.last().0, sn.last().1)
    }
}

/// The merge of the three relations: every subject named by any of them,
/// with its permissions, proposals and sessions.
pub open spec fn merged(
    pm: Seq<(Seq<u8>, Seq<Seq<u8>>)>,
    pr: Seq<(Seq<u8>, Seq<u32>)>,
    sn: Seq<(Seq<u8>, Seq<(u32, u32)>)>,
) -> Seq<(Seq<u8>, (Seq<Seq<u8>>, Seq<u32>, Seq<(u32, u32)>))> {
    add_sess(add_props(base_entries(pm), pr), sn)
}

/// A mapping of subjects to their attributes, ordered by subject.
pub struct Subjects {
    map: StrMap<Subject>,
}

impl View for Subjects {
    type V = Seq<(Seq<u8>, (Seq<Seq<u8>>, Seq<u32>, Seq<(u32, u32)>))>;

    closed spec fn view(&self) -> Seq<(Seq<u8>, (Seq<Seq<u8>>, Seq<u32>, Seq<(u32, u32)>))> {
        self.map@
    }
}

impl Subjects {
    /// The entries are sorted by strictly increasing subject.
    pub open spec fn wf(&self) -> bool {
        entries_wf(self@)
    }

    /// Combines the three relations: every subject named by any of them gets
    /// one entry holding its permissions, proposals and sessions, each empty
    /// where the corresponding relation does not name the subject.
    pub fn build(
        permissions: SubjectPermissions,
        proposals: SubjectProposals,
        sessions: SubjectSessions,
    ) -> (r: Self)
        requires
            permissions.wf(),
            proposals.wf(),
            sessions.wf(),
        ensures
            r@ == merged(permissions@, proposals@, sessions@),
            r.wf(),
    {
        let ghost pmv = permissions@;
        let ghost prv = proposals@;
        let ghost snv = sessions@;
        let mut permissions = permissions;
        let mut proposals = proposals;
        let mut sessions = sessions;
        let mut m: StrMap<Subject> = StrMap::new();

        // seed from permissions, whose entries are already sorted
        let mut i: usize = 0;
        let total = permissions.len();
        while permissions.len() > 0
            invariant
                pmv.len() == total <= usize::MAX,
                i + permissions@.len() == pmv.len(),
                permissions@ =~= pmv.skip(i as int),
                entries_wf(pmv),
                m@ =~= base_entries(pmv.take(i as int)),
                m.wf(),
            decreases permissions@.len(),
        {
            let ghost old_m = m@;
            let kv = permissions.take_at(0);
            let subject = Subject { permissions: kv.1, proposals: Vec::new(), sessions: Vec::new() };
            proof {
                assert(kv.0@ == pmv[i as int].0);
                assert(permissions@ =~= pmv.skip(i + 1));
                assert forall|j: int| 0 <= j < old_m.len() implies #[trigger] lex_lt(
                    old_m[j].0,
                    kv.0@,
                ) by {
                    assert(old_m[j].0 == pmv[j].0);
                    assert(lex_lt(pmv[j].0, pmv[i as int].0));
                }
                lemma_key_idx_from_bounds(old_m, kv.0@, i as int);
                assert(subject.deep_view() == (
                    pmv[i as int].1,
                    Seq::<u32>::empty(),
                    Seq::<(u32, u32)>::empty(),
                )) by {
                    assert(subject.proposals.deep_view() =~= Seq::<u32>::empty());
                    assert(subject.sessions@ =~= Seq::<(u32, u32)>::empty());
                }
            }
            m.insert_at(i, kv.0, subject);
            proof {
                assert(m@ =~= base_entries(pmv.take(i + 1)));
            }
            i = i + 1;
        }
        proof {
            assert(pmv.take(i as int) =~= pmv);
        }

        // merge proposals in
        let ghost base = m@;
        let ghost mut done_pr: Seq<(Seq<u8>, Seq<u32>)> = Seq::empty();
        proof {
            assert(add_props(base, done_pr) =~= m@);
            assert(prv =~= done_pr + proposals@);
        }
        while proposals.len() > 0
            invariant
                prv == done_pr + proposals@,
                m@ == add_props(base, done_pr),
                m.wf(),
            decreases proposals@.len(),
        {
            let ghost prev = m@;
            let ghost prev_pr = proposals@;
            let kv = proposals.take_at(0);
            let ghost e = (kv.0@, prev_pr[0].1);
            proof {
                assert(kv.1.deep_view() == prev_pr[0].1);
                assert(done_pr.push(e) + proposals@ =~= done_pr + prev_pr);
                assert((done_pr.push(e)).drop_last() =~= done_pr);
            }
            let (found, idx) = m.locate(&kv.0);
            if found {
                let (k2, subject) = m.take_at(idx);
                let updated = Subject {
                    permissions: subject.permissions,
                    proposals: kv.1,
                    sessions: subject.sessions,
                };
                proof {
                    lemma_key_idx(prev, kv.0@);
                    assert forall|j: int| 0 <= j < idx implies #[trigger] lex_lt(
                        m@[j].0,
                        k2@,
                    ) by {
                        assert(m@[j] == prev[j]);
                    }
                    assert(k2@ == prev[idx as int].0);
                    if idx < m@.len() {
                        assert(m@[idx as int] == prev[idx + 1]);
                        assert(lex_lt(k2@, m@[idx as int].0));
                        lemma_lex_trichotomy(k2@, m@[idx as int].0);
                    }
                    lemma_key_idx_from_bounds(m@, k2@, idx as int);
                }
                m.insert_at(idx, k2, updated);
                proof {
                    assert(m@ =~= add_props_step(prev, e.0, e.1));
                }
            } else {
                let subject = Subject {
                    permissions: Vec::new(),
                    proposals: kv.1,
                    sessions: Vec::new(),
                };
                proof {
                    assert(subject.permissions.deep_view() =~= Seq::<Seq<u8>>::empty());
                    assert(subject.sessions@ =~= Seq::<(u32, u32)>::empty());
                }
                m.insert_at(idx, kv.0, subject);
                proof {
                    assert(m@ =~= add_props_step(prev, e.0, e.1));
                }
            }
            proof {
                done_pr = done_pr.push(e);
            }
        }
        proof {
            assert(proposals@ =~= Seq::<(Seq<u8>, Seq<u32>)>::empty());
            assert(done_pr =~= prv);
        }

        // merge sessions in
        let ghost based = m@;
        let ghost mut done_sn: Seq<(Seq<u8>, Seq<(u32, u32)>)> = Seq::empty();
        proof {
            assert(add_sess(based, done_sn) =~= m@);
            assert(snv =~= done_sn + sessions@);
        }
        while sessions.len() > 0
            invariant
                snv == done_sn + sessions@,
                m@ == add_sess(based, done_sn),
                m.wf(),
            decreases sessions@.len(),
        {
            let ghost prev = m@;
            let ghost prev_sn = sessions@;
            let kv = sessions.take_at(0);
            let ghost e = (kv.0@, prev_sn[0].1);
            proof {
                assert(kv.1@ == prev_sn[0].1);
                assert(done_sn.push(e) + sessions@ =~= done_sn + prev_sn);
                assert((done_sn.push(e)).drop_last() =~= done_sn);
            }
            let (found, idx) = m.locate(&kv.0);
            if found {
                let (k2, subject) = m.take_at(idx);
                let updated = Subject {
                    permissions: subject.permissions,
                    proposals: subject.proposals,
                    sessions: kv.1,
                };
                proof {
                    lemma_key_idx(prev, kv.0@);
                    assert forall|j: int| 0 <= j < idx implies #[trigger] lex_lt(
                        m@[j].0,
                        k2@,
                    ) by {
                        assert(m@[j] == prev[j]);
                    }
                    assert(k2@ == prev[idx as int].0);
                    if idx < m@.len() {
                        assert(m@[idx as int] == prev[idx + 1]);
                        assert(lex_lt(k2@, m@[idx as int].0));
                        lemma_lex_trichotomy(k2@, m@[idx as int].0);
                    }
                    lemma_key_idx_from_bounds(m@, k2@, idx as int);
                }
                m.insert_at(idx, k2, updated);
                proof {
                    assert(m@ =~= add_sess_step(prev, e.0, e.1));
                }
            } else {
                let subject = Subject {
                    permissions: Vec::new(),
                    proposals: Vec::new(),
                    sessions: kv.1,
                };
                proof {
                    assert(subject.permissions.deep_view() =~= Seq::<Seq<u8>>::empty());
                    assert(subject.proposals.deep_view() =~= Seq::<u32>::empty());
                }
                m.insert_at(idx, kv.0, subject);
                proof {
                    assert(m@ =~= add_sess_step(prev, e.0, e.1));
                }
            }
            proof {
                done_sn = done_sn.push(e);
            }
        }
        proof {
            assert(sessions@ =~= Seq::<(Seq<u8>, Seq<(u32, u32)>)>::empty());
            assert(done_sn =~= snv);
        }

        Subjects { map: m }
    }

    /// The number of subjects.
    pub fn len(&self) -> (n: usize)
        ensures
            n == self@.len(),
    {
        self.map.len()
    }

    /// The subject of the entry at position `i`.
    pub fn key_at(&self, i: usize) -> (k: &Vec<u8>)
        requires
            i < self@.len(),
        ensures
            k@ == self@[i as int].0,
    {
        self.map.key_at(i)
    }

    /// The attributes of the subject at position `i`.
    pub fn val_at(&self, i: usize) -> (v: &Subject)
        requires
            i < self@.len(),
        ensures
            v.deep_view() == self@[i as int].1,
    {
        self.map.val_at(i)
    }

    /// The attributes recorded for a subject.
    pub fn get(&self, subject: &Vec<u8>) -> (r: Option<&Subject>)
        requires
            self.wf(),
        ensures
            match r {
                Option::Some(v) => has_key(self@, subject@) && v.deep_view() == value_of(
                    self@,
                    subject@,
                ),
                Option::None => !has_key(self@, subject@),
            },
    {
        self.map.get(subject)
    }
}

} // verus!

use vstd::string::StringSliceAdditionalSpecFns;
use crate::json::{
    json_str, str_array, u32_array, pair_array, push_json_str, push_str_array, push_u32_array,
    push_pair_array, push_byte, push_bytes,
};

verus! {

/// One subject as a JSON object entry: its quoted name, then its
/// attributes.
pub open spec fn subject_entry_json(e: (Seq<u8>, (Seq<Seq<u8>>, Seq<u32>, Seq<(u32, u32)>))) -> Seq<
    u8,
> {
    json_str(e.0) + ":{\"permissions\":".spec_bytes() + str_array(e.1.0)
        + ",\"proposals\":".spec_bytes() + u32_array(e.1.1) + ",\"sessions\":".spec_bytes()
        + pair_array(e.1.2) + seq![0x7du8]
}

/// The comma-separated entries of the subjects document.
pub open spec fn subjects_items(
    m: Seq<(Seq<u8>, (Seq<Seq<u8>>, Seq<u32>, Seq<(u32, u32)>))>,
) -> Seq<u8>
    decreases m.len(),
{
    if m.len() == 0 {
        Seq::empty()
    } else if m.len() == 1 {
        subject_entry_json(m.last())
    } else {
        subjects_items(m.drop_last()) + seq![0x2cu8] + subject_entry_json(m.last())
    }
}

/// The subjects document: one JSON object keyed by subject.
pub open spec fn subjects_json(m: Seq<(Seq<u8>, (Seq<Seq<u8>>, Seq<u32>, Seq<(u32, u32)>))>) -> Seq<
    u8,
> {
    seq![0x7bu8] + subjects_items(m) + seq![0x7du8]
}

impl Subjects {
    /// Serializes the document as canonical JSON, entries in key order.
    #[verifier::rlimit(60)]
    pub fn to_json(&self) -> (r: Vec<u8>)
        ensures
            r@ == subjects_json(self@),
    {
        let mut out: Vec<u8> = Vec::new();
        push_byte(&mut out, 0x7b);
        let mut i: usize = 0;
        let n = self.len();
        while i < n
            invariant
                i <= n == self@.len(),
                out@ == seq![0x7bu8] + subjects_items(self@.take(i as int)),
            decreases n - i,
        {
            if i > 0 {
                push_byte(&mut out, 0x2c);
            }
            push_json_str(&mut out, self.key_at(i));
            push_bytes(&mut out, ":{\"permissions\":".as_bytes());
            let v = self.val_at(i);
            push_str_array(&mut out, &v.permissions);
            push_bytes(&mut out, ",\"proposals\":".as_bytes());
            proof {
                assert(v.proposals.deep_view() =~= v.proposals@);
            }
            push_u32_array(&mut out, &v.proposals);
            push_bytes(&mut out, ",\"sessions\":".as_bytes());
            push_pair_array(&mut out, &v.sessions);
            push_byte(&mut out, 0x7d);
            proof {
                assert(self@.take(i + 1).drop_last() =~= self@.take(i as int));
                assert(self@.take(i + 1).last() == self@[i as int]);
                assert(out@ == seq![0x7bu8] + subjects_items(self@.take(i + 1)));
            }
            i = i + 1;
        }
        push_byte(&mut out, 0x7d);
        proof {
            assert(self@.take(self@.len() as int) =~= self@);
        }
        out
    }
}

} // verus!

use crate::strmap::{
    str_insert, lemma_str_insert_wf, lemma_str_insert_same, lemma_str_insert_frame,
    lemma_wf_drop_last, lemma_key_idx_congruent,
};

verus! {

/// Seeding from permissions keeps keys and positions, giving each subject
/// its permissions and empty proposals and sessions.
proof fn lemma_base_lookup(pm: Seq<(Seq<u8>, Seq<Seq<u8>>)>, k: Seq<u8>)
    requires
        entries_wf(pm),
    ensures
        entries_wf(base_entries(pm)),
        has_key(base_entries(pm), k) == has_key(pm, k),
        has_key(pm, k) ==> value_of(base_entries(pm), k) == (
            value_of(pm, k),
            Seq::<u32>::empty(),
            Seq::<(u32, u32)>::empty(),
        ),
{
    let base = base_entries(pm);
    assert(base.len() == pm.len());
    assert forall|j: int| 0 <= j < pm.len() implies #[trigger] base[j] == (
        pm[j].0,
        (pm[j].1, Seq::<u32>::empty(), Seq::<(u32, u32)>::empty()),
    ) by {
        assert(base[j] == (pm[j].0, (pm[j].1, Seq::<u32>::empty(), Seq::<(u32, u32)>::empty())));
    }
    assert(forall|j: int| 0 <= j < pm.len() ==> (#[trigger] base[j]).0 == (#[trigger] pm[j]).0);
    lemma_key_idx_congruent(base, pm, k);
    lemma_key_idx(pm, k);
    let i = key_idx(pm, k);
    if i < pm.len() {
        assert(base[i].0 == pm[i].0);
    }
    assert forall|p: int, q: int| 0 <= p < q < base.len() implies #[trigger] lex_lt(
        base[p].0,
        base[q].0,
    ) by {
        assert(base[p].0 == pm[p].0 && base[q].0 == pm[q].0);
    }
}

/// Merging the proposal relation in: a subject is present afterwards when
/// either side named it; its proposals come from the proposal relation and
/// its other attributes are untouched.
proof fn lemma_add_props_lookup(
    m: Seq<(Seq<u8>, (Seq<Seq<u8>>, Seq<u32>, Seq<(u32, u32)>))>,
    pr: Seq<(Seq<u8>, Seq<u32>)>,
    k: Seq<u8>,
)
    requires
        entries_wf(m),
        entries_wf(pr),
    ensures
        entries_wf(add_props(m, pr)),
        has_key(add_props(m, pr), k) == (has_key(m, k) || has_key(pr, k)),
        has_key(pr, k) ==> value_of(add_props(m, pr), k) == (
            if has_key(m, k) {
                value_of(m, k).0
            } else {
                Seq::<Seq<u8>>::empty()
            },
            value_of(pr, k),
            if has_key(m, k) {
                value_of(m, k).2
            } else {
                Seq::<(u32, u32)>::empty()
            },
        ),
        !has_key(pr, k) && has_key(m, k) ==> value_of(add_props(m, pr), k) == value_of(m, k),
    decreases pr.len(),
{
    if pr.len() == 0 {
    } else {
        let dl = pr.drop_last();
        let kl = pr.last().0;
        let vl = pr.last().1;
        lemma_wf_drop_last(pr, k);
        lemma_wf_drop_last(pr, kl);
        lemma_add_props_lookup(m, dl, k);
        lemma_add_props_lookup(m, dl, kl);
        let prev = add_props(m, dl);
        let ins = if has_key(prev, kl) {
            (value_of(prev, kl).0, vl, value_of(prev, kl).2)
        } else {
            (Seq::<Seq<u8>>::empty(), vl, Seq::<(u32, u32)>::empty())
        };
        assert(add_props(m, pr) == str_insert(prev, kl, ins));
        lemma_str_insert_wf(prev, kl, ins);
        lemma_str_insert_same(prev, kl, ins);
        if k == kl {
        } else {
            lemma_str_insert_frame(prev, kl, ins, k);
        }
    }
}

/// Merging the session relation in: a subject is present afterwards when
/// either side named it; its sessions come from the session relation and
/// its other attributes are untouched.
proof fn lemma_add_sess_lookup(
    m: Seq<(Seq<u8>, (Seq<Seq<u8>>, Seq<u32>, Seq<(u32, u32)>))>,
    sn: Seq<(Seq<u8>, Seq<(u32, u32)>)>,
    k: Seq<u8>,
)
    requires
        entries_wf(m),
        entries_wf(sn),
    ensures
        entries_wf(add_sess(m, sn)),
        has_key(add_sess(m, sn), k) == (has_key(m, k) || has_key(sn, k)),
        has_key(sn, k) ==> value_of(add_sess(m, sn), k) == (
            if has_key(m, k) {
                value_of(m, k).0
            } else {
                Seq::<Seq<u8>>::empty()
            },
            if has_key(m, k) {
                value_of(m, k).1
            } else {
                Seq::<u32>::empty()
            },
            value_of(sn, k),
        ),
        !has_key(sn, k) && has_key(m, k) ==> value_of(add_sess(m, sn), k) == value_of(m, k),
    decreases sn.len(),
{
    if sn.len() == 0 {
    } else {
        let dl = sn.drop_last();
        let kl = sn.last().0;
        let vl = sn.last().1;
        lemma_wf_drop_last(sn, k);
        lemma_wf_drop_last(sn, kl);
        lemma_add_sess_lookup(m, dl, k);
        lemma_add_sess_lookup(m, dl, kl);
        let prev = add_sess(m, dl);
        let ins = if has_key(prev, kl) {
            (value_of(prev, kl).0, value_of(prev, kl).1, vl)
        } else {
            (Seq::<Seq<u8>>::empty(), Seq::<u32>::empty(), vl)
        };
        assert(add_sess(m, sn) == str_insert(prev, kl, ins));
        lemma_str_insert_wf(prev, kl, ins);
        lemma_str_insert_same(prev, kl, ins);
        if k == kl {
        } else {
            lemma_str_insert_frame(prev, kl, ins, k);
        }
    }
}

/// The merged document unions the three relations: a subject has an entry
/// exactly when some relation names it, and the entry carries that
/// subject's permissions, proposals and sessions, each empty where its
/// relation does not name the subject.
pub proof fn lemma_merged_lookup(
    pm: Seq<(Seq<u8>, Seq<Seq<u8>>)>,
    pr: Seq<(Seq<u8>, Seq<u32>)>,
    sn: Seq<(Seq<u8>, Seq<(u32, u32)>)>,
    k: Seq<u8>,
)
    requires
        entries_wf(pm),
        entries_wf(pr),
        entries_wf(sn),
    ensures
        entries_wf(merged(pm, pr, sn)),
        has_key(merged(pm, pr, sn), k) == (has_key(pm, k) || has_key(pr, k) || has_key(sn, k)),
        has_key(merged(pm, pr, sn), k) ==> value_of(merged(pm, pr, sn), k) == (
            if has_key(pm, k) {
                value_of(pm, k)
            } else {
                Seq::<Seq<u8>>::empty()
            },
            if has_key(pr, k) {
                value_of(pr, k)
            } else {
                Seq::<u32>::empty()
            },
            if has_key(sn, k) {
                value_of(sn, k)
            } else {
                Seq::<(u32, u32)>::empty()
            },
        ),
{
    lemma_base_lookup(pm, k);
    lemma_add_props_lookup(base_entries(pm), pr, k);
    lemma_add_sess_lookup(add_props(base_entries(pm), pr), sn, k);
}

} // verus!
