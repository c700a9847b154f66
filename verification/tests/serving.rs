//! The serving path: conditional retrieval, the revision cache, the
//! bearer-token requirement and the refresh cadence.

use bundler::bundle::{Bundle, NoMetadata};
use bundler::cache::{BundleFile, RevisionCache};
use bundler::endpoint::{bundle_endpoint, fallback_endpoint, health_endpoint};
use bundler::permissionables::beamlines::Beamlines;
use bundler::permissionables::proposals::Proposals;
use bundler::permissionables::sessions::Sessions;
use bundler::permissionables::subject_permissions::SubjectPermissions;
use bundler::permissionables::subject_proposals::{RawProposalRow, SubjectProposals};
use bundler::permissionables::subject_sessions::SubjectSessions;
use bundler::permissionables::subjects::Subjects;
use bundler::refresh::{is_due, next_deadline};
use bundler::require_bearer::RequireBearerLayer;
use bundler::strmap::StrMap;

fn b(s: &str) -> Vec<u8> {
    s.as_bytes().to_vec()
}

fn bundle_with_proposal(proposal: &str) -> Bundle {
    Bundle::new(
        NoMetadata,
        Subjects::build(
            SubjectPermissions::from_rows(Vec::new()),
            SubjectProposals::from_rows(vec![RawProposalRow {
                subject: Some(b("alice")),
                proposal_number: Some(b(proposal)),
            }]),
            SubjectSessions::from_rows(Vec::new()),
        ),
        Sessions::from_rows(Vec::new()),
        Proposals::from_rows(Vec::new()),
        Beamlines::from_rows(Vec::new()),
        StrMap::new(),
    )
}

fn snapshot(proposal: &str) -> BundleFile {
    BundleFile::build(bundle_with_proposal(proposal)).unwrap()
}

#[test]
fn matching_conditional_request_gets_not_modified() {
    let file = snapshot("1001");
    let mut etag = vec![0x22];
    etag.extend_from_slice(file.bundle().revision());
    etag.push(0x22);
    let response = bundle_endpoint(&file, Some(&etag));
    assert_eq!(response.status, 304);
    assert!(response.body.is_empty());
    assert_eq!(response.etag, etag);
}

#[test]
fn stale_conditional_request_gets_full_archive() {
    let file = snapshot("1001");
    let stale = b("\"0.1.0:0\"");
    let response = bundle_endpoint(&file, Some(&stale));
    assert_eq!(response.status, 200);
    assert_eq!(&response.body, file.file());
}

#[test]
fn unconditional_request_gets_full_archive() {
    let file = snapshot("1001");
    let response = bundle_endpoint(&file, None);
    assert_eq!(response.status, 200);
    assert_eq!(&response.body, file.file());
    let mut expected_etag = vec![0x22];
    expected_etag.extend_from_slice(file.bundle().revision());
    expected_etag.push(0x22);
    assert_eq!(response.etag, expected_etag);
}

#[test]
fn health_and_fallback_statuses() {
    assert_eq!(health_endpoint(), 200);
    assert_eq!(fallback_endpoint(), 404);
}

#[test]
fn cache_replace_installs_new_snapshot_whole() {
    let old_file = snapshot("1001");
    let old_revision = old_file.bundle().revision().clone();
    let mut cache = RevisionCache::new(old_file);
    assert_eq!(cache.read().bundle().revision(), &old_revision);

    let new_file = snapshot("2002");
    let new_revision = new_file.bundle().revision().clone();
    let new_bytes = new_file.file().clone();
    cache.replace(new_file);
    let seen = cache.read();
    assert_eq!(seen.bundle().revision(), &new_revision);
    assert_eq!(seen.file(), &new_bytes);
    assert_ne!(old_revision, new_revision);
}

#[test]
fn refresh_cadence_is_measured_from_cycle_start() {
    let start = 1_000;
    let deadline = next_deadline(start, 60);
    assert_eq!(deadline, 1_060);
    assert!(!is_due(1_059, deadline));
    assert!(is_due(1_060, deadline));
    // an overrunning cycle leaves the next deadline in the past
    assert!(is_due(1_200, deadline));
    assert_eq!(next_deadline(u64::MAX - 10, 60), u64::MAX);
}

#[test]
fn bearer_requirement_decides_requests() {
    let permissive = RequireBearerLayer::new(None).layer(());
    assert!(permissive.token_accepted(None));
    assert!(permissive.token_accepted(Some(&"anything".to_string())));

    let guarded = RequireBearerLayer::new(Some("letmein".to_string())).layer(());
    assert!(guarded.token_accepted(Some(&"letmein".to_string())));
    assert!(!guarded.token_accepted(Some(&"wrong".to_string())));
    assert!(!guarded.token_accepted(None));
}
