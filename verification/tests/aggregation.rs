//! Aggregation of raw source rows into the entity documents.

use bundler::permissionables::beamlines::{Beamlines, RawBeamlineRow};
use bundler::permissionables::permissions::{PermissionRow, Permissions};
use bundler::permissionables::proposals::{Proposals, RawProposalRow};
use bundler::permissionables::sessions::{RawSessionRow, Sessions};
use bundler::permissionables::subject_permissions::SubjectPermissions;
use bundler::permissionables::subject_permissions::PermissionRow as SubjectPermissionRow;
use bundler::permissionables::subject_proposals::SubjectProposals;
use bundler::permissionables::subject_proposals::RawProposalRow as RawSubjectProposalRow;
use bundler::permissionables::subject_sessions::SubjectSessions;
use bundler::permissionables::subject_sessions::RawSessionRow as RawSubjectSessionRow;

fn b(s: &str) -> Vec<u8> {
    s.as_bytes().to_vec()
}

fn sorted<T: Ord + Clone>(v: &[T]) -> Vec<T> {
    let mut v = v.to_vec();
    v.sort();
    v
}

#[test]
fn beamlines_fetch_empty() {
    let beamlines = Beamlines::from_rows(Vec::new());
    assert_eq!(beamlines.len(), 0);
}

#[test]
fn beamlines_fetch_some() {
    let rows = vec![
        RawBeamlineRow { beamline: Some(b("i12")), session_id: 40 },
        RawBeamlineRow { beamline: Some(b("i22")), session_id: 41 },
        RawBeamlineRow { beamline: Some(b("b13")), session_id: 42 },
        RawBeamlineRow { beamline: Some(b("p99")), session_id: 43 },
        RawBeamlineRow { beamline: Some(b("i22")), session_id: 44 },
    ];
    let beamlines = Beamlines::from_rows(rows);
    assert_eq!(beamlines.len(), 4);
    assert_eq!(beamlines.get(&b("i12")).unwrap().sessions, vec![40]);
    assert_eq!(beamlines.get(&b("i22")).unwrap().sessions, vec![41, 44]);
    assert_eq!(beamlines.get(&b("b13")).unwrap().sessions, vec![42]);
    assert_eq!(beamlines.get(&b("p99")).unwrap().sessions, vec![43]);
}

#[test]
fn permissions_fetch_empty() {
    let permissions = Permissions::from_rows(Vec::new());
    assert_eq!(permissions.len(), 0);
}

#[test]
fn permissions_fetch_some() {
    let rows = vec![
        PermissionRow { fed_id: Some(b("foo")), permission: b("read_data") },
        PermissionRow { fed_id: Some(b("foo")), permission: b("write_data") },
        PermissionRow { fed_id: Some(b("foo")), permission: b("read_proc") },
        PermissionRow { fed_id: Some(b("bar")), permission: b("read_data") },
        PermissionRow { fed_id: Some(b("bar")), permission: b("write_data") },
    ];
    let permissions = Permissions::from_rows(rows);
    assert_eq!(permissions.len(), 2);
    assert_eq!(
        sorted(permissions.get(&b("foo")).unwrap()),
        vec![b("read_data"), b("read_proc"), b("write_data")]
    );
    assert_eq!(
        sorted(permissions.get(&b("bar")).unwrap()),
        vec![b("read_data"), b("write_data")]
    );
}

#[test]
fn subject_permissions_fetch_empty() {
    let permissions = SubjectPermissions::from_rows(Vec::new());
    assert_eq!(permissions.len(), 0);
}

#[test]
fn subject_permissions_fetch_some() {
    let rows = vec![
        SubjectPermissionRow { subject: Some(b("foo")), permission: b("read_data") },
        SubjectPermissionRow { subject: Some(b("foo")), permission: b("write_data") },
        SubjectPermissionRow { subject: Some(b("foo")), permission: b("read_proc") },
        SubjectPermissionRow { subject: Some(b("bar")), permission: b("read_data") },
        SubjectPermissionRow { subject: Some(b("bar")), permission: b("write_data") },
    ];
    let permissions = SubjectPermissions::from_rows(rows);
    assert_eq!(permissions.len(), 2);
    assert_eq!(
        sorted(permissions.get(&b("foo")).unwrap()),
        vec![b("read_data"), b("read_proc"), b("write_data")]
    );
    assert_eq!(
        sorted(permissions.get(&b("bar")).unwrap()),
        vec![b("read_data"), b("write_data")]
    );
}

#[test]
fn proposals_fetch_empty() {
    let proposals = Proposals::from_rows(Vec::new());
    assert_eq!(proposals.len(), 0);
}

#[test]
fn proposals_fetch_some() {
    let rows = vec![
        RawProposalRow { proposal_number: Some(b("10030")), visit_number: Some(10), session_id: 40 },
        RawProposalRow { proposal_number: Some(b("10030")), visit_number: Some(11), session_id: 41 },
        RawProposalRow { proposal_number: Some(b("10030")), visit_number: Some(12), session_id: 42 },
        RawProposalRow { proposal_number: Some(b("10031")), visit_number: Some(10), session_id: 43 },
        RawProposalRow { proposal_number: Some(b("10031")), visit_number: Some(11), session_id: 44 },
    ];
    let proposals = Proposals::from_rows(rows);
    assert_eq!(proposals.len(), 2);
    assert_eq!(
        proposals.get(10030).unwrap().sessions().entries_vec(),
        &vec![(10, 40), (11, 41), (12, 42)]
    );
    assert_eq!(
        proposals.get(10031).unwrap().sessions().entries_vec(),
        &vec![(10, 43), (11, 44)]
    );
}

#[test]
fn sessions_fetch_empty() {
    let sessions = Sessions::from_rows(Vec::new());
    assert_eq!(sessions.len(), 0);
}

#[test]
fn sessions_fetch_some() {
    let rows = vec![
        RawSessionRow {
            session_id: 40,
            proposal_number: Some(b("10030")),
            visit_number: Some(10),
            beamline: Some(b("i12")),
        },
        RawSessionRow {
            session_id: 41,
            proposal_number: Some(b("10030")),
            visit_number: Some(11),
            beamline: Some(b("i22")),
        },
        RawSessionRow {
            session_id: 42,
            proposal_number: Some(b("10030")),
            visit_number: Some(12),
            beamline: Some(b("b13")),
        },
        RawSessionRow {
            session_id: 43,
            proposal_number: Some(b("10031")),
            visit_number: Some(10),
            beamline: Some(b("p99")),
        },
        RawSessionRow {
            session_id: 44,
            proposal_number: Some(b("10031")),
            visit_number: Some(11),
            beamline: Some(b("i22")),
        },
    ];
    let sessions = Sessions::from_rows(rows);
    assert_eq!(sessions.len(), 5);
    let s = sessions.get(40).unwrap();
    assert_eq!((s.proposal_number, s.visit_number, s.beamline.clone()), (10030, 10, b("i12")));
    let s = sessions.get(41).unwrap();
    assert_eq!((s.proposal_number, s.visit_number, s.beamline.clone()), (10030, 11, b("i22")));
    let s = sessions.get(42).unwrap();
    assert_eq!((s.proposal_number, s.visit_number, s.beamline.clone()), (10030, 12, b("b13")));
    let s = sessions.get(43).unwrap();
    assert_eq!((s.proposal_number, s.visit_number, s.beamline.clone()), (10031, 10, b("p99")));
    let s = sessions.get(44).unwrap();
    assert_eq!((s.proposal_number, s.visit_number, s.beamline.clone()), (10031, 11, b("i22")));
}

#[test]
fn subject_proposals_fetch_empty() {
    let proposals = SubjectProposals::from_rows(Vec::new());
    assert_eq!(proposals.len(), 0);
}

#[test]
fn subject_proposals_fetch_some() {
    let rows = vec![
        RawSubjectProposalRow { subject: Some(b("foo")), proposal_number: Some(b("10030")) },
        RawSubjectProposalRow { subject: Some(b("foo")), proposal_number: Some(b("10031")) },
        RawSubjectProposalRow { subject: Some(b("foo")), proposal_number: Some(b("10032")) },
        RawSubjectProposalRow { subject: Some(b("bar")), proposal_number: Some(b("10030")) },
    ];
    let proposals = SubjectProposals::from_rows(rows);
    assert_eq!(proposals.len(), 2);
    assert_eq!(sorted(proposals.get(&b("foo")).unwrap()), vec![10030, 10031, 10032]);
    assert_eq!(sorted(proposals.get(&b("bar")).unwrap()), vec![10030]);
}

#[test]
fn subject_sessions_fetch_empty() {
    let sessions = SubjectSessions::from_rows(Vec::new());
    assert_eq!(sessions.len(), 0);
}

#[test]
fn fetch_direct() {
    let rows = vec![
        RawSubjectSessionRow {
            subject: Some(b("foo")),
            proposal_number: Some(b("10030")),
            visit_number: Some(10),
        },
        RawSubjectSessionRow {
            subject: Some(b("foo")),
            proposal_number: Some(b("10030")),
            visit_number: Some(11),
        },
        RawSubjectSessionRow {
            subject: Some(b("bar")),
            proposal_number: Some(b("10031")),
            visit_number: Some(10),
        },
    ];
    let sessions = SubjectSessions::from_rows(rows);
    assert_eq!(sessions.len(), 2);
    assert_eq!(sessions.get(&b("foo")).unwrap(), &vec![(10030, 10), (10030, 11)]);
    assert_eq!(sessions.get(&b("bar")).unwrap(), &vec![(10031, 10)]);
}

#[test]
fn fetch_indirect() {
    let mut rows = Vec::new();
    for (proposal, visit) in [(10030, 10), (10030, 11), (10030, 12), (10031, 10), (10031, 11)] {
        rows.push(RawSubjectSessionRow {
            subject: Some(b("foo")),
            proposal_number: Some(b(&proposal.to_string())),
            visit_number: Some(visit),
        });
    }
    for (proposal, visit) in [(10030, 10), (10030, 11), (10030, 12)] {
        rows.push(RawSubjectSessionRow {
            subject: Some(b("bar")),
            proposal_number: Some(b(&proposal.to_string())),
            visit_number: Some(visit),
        });
    }
    let sessions = SubjectSessions::from_rows(rows);
    assert_eq!(sessions.len(), 2);
    assert_eq!(
        sorted(sessions.get(&b("foo")).unwrap()),
        vec![(10030, 10), (10030, 11), (10030, 12), (10031, 10), (10031, 11)]
    );
    assert_eq!(
        sorted(sessions.get(&b("bar")).unwrap()),
        vec![(10030, 10), (10030, 11), (10030, 12)]
    );
}

#[test]
fn fetch_both() {
    let mut rows = Vec::new();
    for (proposal, visit) in [(10030, 10), (10030, 11), (10030, 12), (10031, 10), (10031, 11)] {
        rows.push(RawSubjectSessionRow {
            subject: Some(b("foo")),
            proposal_number: Some(b(&proposal.to_string())),
            visit_number: Some(visit),
        });
    }
    for (proposal, visit) in [(10030, 10), (10030, 11), (10030, 12), (10031, 10)] {
        rows.push(RawSubjectSessionRow {
            subject: Some(b("bar")),
            proposal_number: Some(b(&proposal.to_string())),
            visit_number: Some(visit),
        });
    }
    let sessions = SubjectSessions::from_rows(rows);
    assert_eq!(sessions.len(), 2);
    assert_eq!(
        sorted(sessions.get(&b("foo")).unwrap()),
        vec![(10030, 10), (10030, 11), (10030, 12), (10031, 10), (10031, 11)]
    );
    assert_eq!(
        sorted(sessions.get(&b("bar")).unwrap()),
        vec![(10030, 10), (10030, 11), (10030, 12), (10031, 10)]
    );
}

#[test]
fn aggregation_unions_facts_under_one_key() {
    let rows = vec![
        RawSubjectProposalRow { subject: Some(b("alice")), proposal_number: Some(b("1")) },
        RawSubjectProposalRow { subject: Some(b("alice")), proposal_number: Some(b("2")) },
    ];
    let proposals = SubjectProposals::from_rows(rows);
    assert_eq!(proposals.len(), 1);
    assert_eq!(proposals.get(&b("alice")).unwrap(), &vec![1, 2]);
}

#[test]
fn sessions_later_row_wins() {
    let rows = vec![
        RawSessionRow {
            session_id: 7,
            proposal_number: Some(b("1")),
            visit_number: Some(1),
            beamline: Some(b("i01")),
        },
        RawSessionRow {
            session_id: 7,
            proposal_number: Some(b("2")),
            visit_number: Some(2),
            beamline: Some(b("i02")),
        },
    ];
    let sessions = Sessions::from_rows(rows);
    assert_eq!(sessions.len(), 1);
    let s = sessions.get(7).unwrap();
    assert_eq!((s.proposal_number, s.visit_number, s.beamline.clone()), (2, 2, b("i02")));
}

#[test]
fn proposals_later_visit_row_wins() {
    let rows = vec![
        RawProposalRow { proposal_number: Some(b("7")), visit_number: Some(1), session_id: 100 },
        RawProposalRow { proposal_number: Some(b("7")), visit_number: Some(1), session_id: 200 },
        RawProposalRow { proposal_number: Some(b("7")), visit_number: Some(2), session_id: 300 },
    ];
    let proposals = Proposals::from_rows(rows);
    assert_eq!(proposals.len(), 1);
    assert_eq!(
        proposals.get(7).unwrap().sessions().entries_vec(),
        &vec![(1, 200), (2, 300)]
    );
}
