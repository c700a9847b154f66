//! Row validation: required fields, numeric text parsing and defaults.

use bundler::parse::parse_u32;
use bundler::permissionables::beamlines::{Beamlines, RawBeamlineRow};
use bundler::permissionables::ValidationError;
use bundler::permissionables::sessions::{RawSessionRow, SessionRow, Sessions};
use bundler::permissionables::subject_sessions::RawSessionRow as RawSubjectSessionRow;
use bundler::permissionables::subject_sessions::SessionRow as SubjectSessionRow;
use bundler::permissionables::subject_proposals::{ProposalRow, RawProposalRow};
use bundler::permissionables::subject_sessions::SubjectSessions;

fn b(s: &str) -> Vec<u8> {
    s.as_bytes().to_vec()
}

#[test]
fn parse_accepts_plain_numbers() {
    assert_eq!(parse_u32(&b("0")), Some(0));
    assert_eq!(parse_u32(&b("123")), Some(123));
    assert_eq!(parse_u32(&b("+7")), Some(7));
    assert_eq!(parse_u32(&b("0010")), Some(10));
    assert_eq!(parse_u32(&b("4294967295")), Some(u32::MAX));
}

#[test]
fn parse_rejects_malformed_numbers() {
    assert_eq!(parse_u32(&b("")), None);
    assert_eq!(parse_u32(&b("+")), None);
    assert_eq!(parse_u32(&b("-1")), None);
    assert_eq!(parse_u32(&b("12a")), None);
    assert_eq!(parse_u32(&b(" 1")), None);
    assert_eq!(parse_u32(&b("4294967296")), None);
}

#[test]
fn null_subject_is_rejected() {
    let err = SubjectSessionRow::validate(RawSubjectSessionRow {
        subject: None,
        proposal_number: Some(b("1")),
        visit_number: Some(1),
    })
    .unwrap_err();
    assert_eq!(err, ValidationError::NullSubject);
}

#[test]
fn null_proposal_is_rejected() {
    let err = ProposalRow::validate(RawProposalRow { subject: Some(b("x")), proposal_number: None })
        .unwrap_err();
    assert_eq!(err, ValidationError::NullProposal);
}

#[test]
fn unparsable_proposal_is_rejected() {
    let err = ProposalRow::validate(RawProposalRow {
        subject: Some(b("x")),
        proposal_number: Some(b("12ab")),
    })
    .unwrap_err();
    assert_eq!(err, ValidationError::BadNumber);
}

#[test]
fn null_beamline_is_rejected() {
    let err = SessionRow::validate(RawSessionRow {
        session_id: 1,
        proposal_number: Some(b("1")),
        visit_number: Some(1),
        beamline: None,
    })
    .unwrap_err();
    assert_eq!(err, ValidationError::NullBeamline);
}

#[test]
fn null_visit_number_defaults_to_zero() {
    let row = SessionRow::validate(RawSessionRow {
        session_id: 1,
        proposal_number: Some(b("9")),
        visit_number: None,
        beamline: Some(b("i03")),
    })
    .unwrap();
    assert_eq!(row.visit_number, 0);
}

#[test]
fn invalid_rows_are_dropped_from_the_aggregate() {
    let rows = vec![
        RawSubjectSessionRow {
            subject: None,
            proposal_number: Some(b("1")),
            visit_number: Some(1),
        },
        RawSubjectSessionRow {
            subject: Some(b("alice")),
            proposal_number: None,
            visit_number: Some(1),
        },
        RawSubjectSessionRow {
            subject: Some(b("alice")),
            proposal_number: Some(b("nope")),
            visit_number: Some(1),
        },
        RawSubjectSessionRow {
            subject: Some(b("alice")),
            proposal_number: Some(b("5")),
            visit_number: None,
        },
    ];
    let sessions = SubjectSessions::from_rows(rows);
    assert_eq!(sessions.len(), 1);
    assert_eq!(sessions.get(&b("alice")).unwrap(), &vec![(5, 0)]);
}

#[test]
fn sessions_document_drops_invalid_rows() {
    let rows = vec![
        RawSessionRow {
            session_id: 1,
            proposal_number: None,
            visit_number: Some(1),
            beamline: Some(b("i03")),
        },
        RawSessionRow {
            session_id: 2,
            proposal_number: Some(b("8")),
            visit_number: Some(2),
            beamline: Some(b("i03")),
        },
    ];
    let sessions = Sessions::from_rows(rows);
    assert_eq!(sessions.len(), 1);
    assert!(sessions.get(1).is_none());
    assert!(sessions.get(2).is_some());
}

#[test]
fn parse_accepts_signed_zero() {
    assert_eq!(parse_u32(&b("+0")), Some(0));
}

#[test]
fn json_escapes_control_bytes() {
    let rows = vec![RawBeamlineRow { beamline: Some(vec![0x01, 0x41]), session_id: 1 }];
    let beamlines = Beamlines::from_rows(rows);
    let json = String::from_utf8(beamlines.to_json()).unwrap();
    assert_eq!(json, "{\"\\u0001A\":{\"sessions\":[1]}}");
}
