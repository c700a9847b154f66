//! Assembly determinism, revisioning and the serialized archive.

use bundler::bundle::{Bundle, NoMetadata};
use bundler::cache::BundleFile;
use bundler::permissionables::beamlines::{Beamlines, RawBeamlineRow};
use bundler::permissionables::permissions::Permissions;
use bundler::permissionables::proposals::Proposals;
use bundler::permissionables::sessions::Sessions;
use bundler::permissionables::subject_permissions::SubjectPermissions;
use bundler::permissionables::subject_proposals::{RawProposalRow, SubjectProposals};
use bundler::permissionables::subject_sessions::{RawSessionRow, SubjectSessions};
use bundler::permissionables::subjects::Subjects;
use bundler::strmap::StrMap;
use std::io::Read;

fn b(s: &str) -> Vec<u8> {
    s.as_bytes().to_vec()
}

fn example_subjects() -> Subjects {
    let session_rows = vec![RawSessionRow {
        subject: Some(b("alice")),
        proposal_number: Some(b("1001")),
        visit_number: Some(1),
    }];
    let proposal_rows = vec![RawProposalRow {
        subject: Some(b("alice")),
        proposal_number: Some(b("1001")),
    }];
    Subjects::build(
        SubjectPermissions::from_rows(Vec::new()),
        SubjectProposals::from_rows(proposal_rows),
        SubjectSessions::from_rows(session_rows),
    )
}

fn example_bundle() -> Bundle {
    Bundle::new(
        NoMetadata,
        example_subjects(),
        Sessions::from_rows(Vec::new()),
        Proposals::from_rows(Vec::new()),
        Beamlines::from_rows(Vec::new()),
        StrMap::new(),
    )
}

fn gunzip(data: &[u8]) -> Vec<u8> {
    let mut decoder = flate2::read::GzDecoder::new(data);
    let mut out = Vec::new();
    decoder.read_to_end(&mut out).unwrap();
    out
}

/// Reads every entry of an uncompressed tape archive: name and contents.
fn tar_entries(data: &[u8]) -> Vec<(String, Vec<u8>)> {
    let mut entries = Vec::new();
    let mut pos = 0;
    while pos + 512 <= data.len() {
        let header = &data[pos..pos + 512];
        if header.iter().all(|&x| x == 0) {
            break;
        }
        let name_end = header[..100].iter().position(|&x| x == 0).unwrap_or(100);
        let name = String::from_utf8(header[..name_end].to_vec()).unwrap();
        let size_field = &header[124..135];
        let mut size: usize = 0;
        for &d in size_field {
            assert!((0x30..=0x37).contains(&d));
            size = size * 8 + (d - 0x30) as usize;
        }
        let chksum_field = &header[148..154];
        let mut chksum: u32 = 0;
        for &d in chksum_field {
            chksum = chksum * 8 + (d - 0x30) as u32;
        }
        let mut computed: u32 = 0;
        for (i, &x) in header.iter().enumerate() {
            if (148..156).contains(&i) {
                computed += 0x20;
            } else {
                computed += x as u32;
            }
        }
        assert_eq!(chksum, computed, "header checksum mismatch for {name}");
        pos += 512;
        entries.push((name, data[pos..pos + size].to_vec()));
        pos += size.div_ceil(512) * 512;
    }
    entries
}

#[test]
fn assembly_is_deterministic() {
    let first = example_bundle();
    let second = example_bundle();
    assert_eq!(first.revision(), second.revision());
    assert_eq!(first.to_tar_gz().unwrap(), second.to_tar_gz().unwrap());
}

#[test]
fn changed_content_changes_revision() {
    let first = example_bundle();
    let changed = Bundle::new(
        NoMetadata,
        Subjects::build(
            SubjectPermissions::from_rows(Vec::new()),
            SubjectProposals::from_rows(vec![RawProposalRow {
                subject: Some(b("alice")),
                proposal_number: Some(b("1002")),
            }]),
            SubjectSessions::from_rows(Vec::new()),
        ),
        Sessions::from_rows(Vec::new()),
        Proposals::from_rows(Vec::new()),
        Beamlines::from_rows(Vec::new()),
        StrMap::new(),
    );
    assert_ne!(first.revision(), changed.revision());
}

#[test]
fn revision_carries_build_version() {
    let bundle = example_bundle();
    assert!(bundle.revision().starts_with(b"0.1.0:"));
    assert!(bundle.revision()[6..].iter().all(|x| x.is_ascii_digit()));
}

#[test]
fn archive_holds_manifest_and_documents() {
    let bundle = example_bundle();
    let revision = bundle.revision().clone();
    let archive = gunzip(&bundle.to_tar_gz().unwrap());
    let entries = tar_entries(&archive);
    let names: Vec<&str> = entries.iter().map(|(n, _)| n.as_str()).collect();
    assert_eq!(
        names,
        vec![
            ".manifest",
            "diamond/data/subjects/data.json",
            "diamond/data/sessions/data.json",
            "diamond/data/proposals/data.json",
            "diamond/data/beamlines/data.json",
        ]
    );
    let manifest = String::from_utf8(entries[0].1.clone()).unwrap();
    let expected_manifest = format!(
        "{{\"revision\":\"{}\",\"roots\":[\"diamond/data\"],\"wasm\":[],\"metadata\":null}}",
        String::from_utf8(revision).unwrap()
    );
    assert_eq!(manifest, expected_manifest);
    let subjects = String::from_utf8(entries[1].1.clone()).unwrap();
    assert_eq!(
        subjects,
        "{\"alice\":{\"permissions\":[],\"proposals\":[1001],\"sessions\":[[1001,1]]}}"
    );
}

#[test]
fn subjects_document_merges_relations() {
    let subjects = example_subjects();
    assert_eq!(subjects.len(), 1);
    let alice = subjects.get(&b("alice")).unwrap();
    assert_eq!(alice.permissions, Vec::<Vec<u8>>::new());
    assert_eq!(alice.proposals, vec![1001]);
    assert_eq!(alice.sessions, vec![(1001, 1)]);
}

#[test]
fn static_documents_serialize_in_name_order() {
    let mut statics: StrMap<Vec<u8>> = StrMap::new();
    statics.insert(b("zeta"), b("{\"z\":1}"));
    statics.insert(b("alpha"), b("{\"a\":1}"));
    let bundle = Bundle::new(
        NoMetadata,
        Subjects::build(
            SubjectPermissions::from_rows(Vec::new()),
            SubjectProposals::from_rows(Vec::new()),
            SubjectSessions::from_rows(Vec::new()),
        ),
        Sessions::from_rows(Vec::new()),
        Proposals::from_rows(Vec::new()),
        Beamlines::from_rows(Vec::new()),
        statics,
    );
    let archive = gunzip(&bundle.to_tar_gz().unwrap());
    let entries = tar_entries(&archive);
    let names: Vec<&str> = entries.iter().map(|(n, _)| n.as_str()).collect();
    assert_eq!(names[5], "diamond/data/alpha/data.json");
    assert_eq!(names[6], "diamond/data/zeta/data.json");
    assert_eq!(entries[5].1, b("{\"a\":1}"));
    assert_eq!(entries[6].1, b("{\"z\":1}"));

    // the same pair inserted in the other order yields identical bytes
    let mut statics2: StrMap<Vec<u8>> = StrMap::new();
    statics2.insert(b("alpha"), b("{\"a\":1}"));
    statics2.insert(b("zeta"), b("{\"z\":1}"));
    let bundle2 = Bundle::new(
        NoMetadata,
        Subjects::build(
            SubjectPermissions::from_rows(Vec::new()),
            SubjectProposals::from_rows(Vec::new()),
            SubjectSessions::from_rows(Vec::new()),
        ),
        Sessions::from_rows(Vec::new()),
        Proposals::from_rows(Vec::new()),
        Beamlines::from_rows(Vec::new()),
        statics2,
    );
    assert_eq!(bundle.revision(), bundle2.revision());
    assert_eq!(bundle.to_tar_gz().unwrap(), bundle2.to_tar_gz().unwrap());
}

#[test]
fn bundle_file_pairs_bundle_with_its_bytes() {
    let file = BundleFile::build(example_bundle()).unwrap();
    let direct = example_bundle().to_tar_gz().unwrap();
    assert_eq!(file.file(), &direct);
    assert_eq!(file.bundle().revision(), example_bundle().revision());
}

#[test]
fn json_escapes_special_bytes() {
    let rows = vec![RawBeamlineRow { beamline: Some(b("a\"b\\c\n")), session_id: 1 }];
    let beamlines = Beamlines::from_rows(rows);
    let json = String::from_utf8(beamlines.to_json()).unwrap();
    assert_eq!(json, "{\"a\\\"b\\\\c\\n\":{\"sessions\":[1]}}");
}
