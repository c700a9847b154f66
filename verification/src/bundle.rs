//! The bundle: the aggregated entity documents plus optional static
//! documents, revisioned by a content hash and serialized into one
//! deterministic archive.

use vstd::prelude::*;
use vstd::string::StringSliceAdditionalSpecFns;
use vstd::string::StrSliceExecFns;
use crate::json::{json_str, dec_nat, push_json_str, push_bytes, push_dec_u64};
use crate::hash::{hash_of, framed, push_framed};
use crate::archive::{tar_entry, tar_end, gzip_of, push_tar_entry, push_tar_end, gzip};
use crate::strmap::{StrMap, entries_wf};
use crate::nummap::num_entries_wf;
use crate::permissionables::subjects::{Subjects, subjects_json};
use crate::permissionables::sessions::{Sessions, sessions_json};
use crate::permissionables::proposals::{Proposals, proposals_json, props_wf};
use crate::permissionables::beamlines::{Beamlines, beamlines_json};
use crate::order::lemma_bytes_deep;

verus! {

broadcast use lemma_bytes_deep, vstd::string::is_ascii_spec_bytes;

/// A placeholder to be used when no metadata is required.
pub struct NoMetadata;

/// The encoding of the absent metadata.
pub open spec fn metadata_json() -> Seq<u8> {
    "null".spec_bytes()
}

/// The manifest document: the revision, the single root prefix, no
/// WebAssembly modules, and the metadata.
pub open spec fn manifest_json(rev: Seq<u8>) -> Seq<u8> {
    "{\"revision\":".spec_bytes() + json_str(rev)
        + ",\"roots\":[\"diamond/data\"],\"wasm\":[],\"metadata\":null}".spec_bytes()
}

/// The hash feed of the static documents, in name order: each name and each
/// content, framed by its length.
pub open spec fn statics_feed(st: Seq<(Seq<u8>, Seq<u8>)>) -> Seq<u8>
    decreases st.len(),
{
    if st.len() == 0 {
        Seq::empty()
    } else {
        statics_feed(st.drop_last()) + framed(st.last().0) + framed(st.last().1)
    }
}

/// The hash feed of a bundle: the metadata, then each entity document in a
/// fixed order, then the static documents in name order, each part framed
/// by its length.
pub open spec fn bundle_feed(
    subj: Seq<(Seq<u8>, (Seq<Seq<u8>>, Seq<u32>, Seq<(u32, u32)>))>,
    sess: Seq<(u32, (u32, u32, Seq<u8>))>,
    prop: Seq<(u32, Seq<(u32, u32)>)>,
    beam: Seq<(Seq<u8>, Seq<u32>)>,
    st: Seq<(Seq<u8>, Seq<u8>)>,
) -> Seq<u8> {
    framed(metadata_json()) + framed(subjects_json(subj)) + framed(sessions_json(sess)) + framed(
        proposals_json(prop),
    ) + framed(beamlines_json(beam)) + statics_feed(st)
}

/// The revision of a bundle: the build version, a colon, and the decimal
/// content hash of the feed.
pub open spec fn revision_of(
    subj: Seq<(Seq<u8>, (Seq<Seq<u8>>, Seq<u32>, Seq<(u32, u32)>))>,
    sess: Seq<(u32, (u32, u32, Seq<u8>))>,
    prop: Seq<(u32, Seq<(u32, u32)>)>,
    beam: Seq<(Seq<u8>, Seq<u32>)>,
    st: Seq<(Seq<u8>, Seq<u8>)>,
) -> Seq<u8> {
    "0.1.0:".spec_bytes() + dec_nat(hash_of(bundle_feed(subj, sess, prop, beam, st)) as nat)
}

/// The archive path of a static document.
pub open spec fn static_path(name: Seq<u8>) -> Seq<u8> {
    "diamond/data/".spec_bytes() + name + "/data.json".spec_bytes()
}

/// The archive entries of the static documents, in name order.
pub open spec fn statics_entries(st: Seq<(Seq<u8>, Seq<u8>)>) -> Seq<u8>
    decreases st.len(),
{
    if st.len() == 0 {
        Seq::empty()
    } else {
        statics_entries(st.drop_last()) + tar_entry(static_path(st.last().0), st.last().1)
    }
}

/// The mathematical contents of a bundle.
pub ghost struct BundleV {
    /// The subjects document.
    pub subjects: Seq<(Seq<u8>, (Seq<Seq<u8>>, Seq<u32>, Seq<(u32, u32)>))>,
    /// The sessions document.
    pub sessions: Seq<(u32, (u32, u32, Seq<u8>))>,
    /// The proposals document.
    pub proposals: Seq<(u32, Seq<(u32, u32)>)>,
    /// The beamlines document.
    pub beamlines: Seq<(Seq<u8>, Seq<u32>)>,
    /// The static documents, keyed by name.
    pub statics: Seq<(Seq<u8>, Seq<u8>)>,
    /// The revision string.
    pub revision: Seq<u8>,
}

/// The archive entries of the manifest and the entity documents, each at
/// its fixed path.
pub open spec fn fixed_entries(b: BundleV) -> Seq<u8> {
    tar_entry(".manifest".spec_bytes(), manifest_json(b.revision)) + tar_entry(
        "diamond/data/subjects/data.json".spec_bytes(),
        subjects_json(b.subjects),
    ) + tar_entry("diamond/data/sessions/data.json".spec_bytes(), sessions_json(b.sessions))
        + tar_entry("diamond/data/proposals/data.json".spec_bytes(), proposals_json(b.proposals))
        + tar_entry("diamond/data/beamlines/data.json".spec_bytes(), beamlines_json(b.beamlines))
}

/// The uncompressed archive of a bundle: the manifest, each entity document
/// at its fixed path, the static documents in name order, and the closing
/// blocks.
pub open spec fn archive_of(b: BundleV) -> Seq<u8> {
    fixed_entries(b) + statics_entries(b.statics) + tar_end()
}

/// Whether every archive entry's content fits the size field of its header.
pub open spec fn sizes_ok(b: BundleV) -> bool {
    &&& manifest_json(b.revision).len() < 0x200000000
    &&& subjects_json(b.subjects).len() < 0x200000000
    &&& sessions_json(b.sessions).len() < 0x200000000
    &&& proposals_json(b.proposals).len() < 0x200000000
    &&& beamlines_json(b.beamlines).len() < 0x200000000
    &&& forall|i: int| 0 <= i < b.statics.len() ==> (#[trigger] b.statics[i].1).len() < 0x200000000
}

/// A bundle's contents are well formed: the documents are ordered, static
/// names fit the archive's name field, and the revision is the content hash
/// of the documents.
pub open spec fn bundle_wf(b: BundleV) -> bool {
    &&& entries_wf(b.subjects)
    &&& num_entries_wf(b.sessions)
    &&& props_wf(b.proposals)
    &&& entries_wf(b.beamlines)
    &&& entries_wf(b.statics)
    &&& forall|i: int| 0 <= i < b.statics.len() ==> (#[trigger] b.statics[i].0).len() <= 77
    &&& b.revision == revision_of(b.subjects, b.sessions, b.proposals, b.beamlines, b.statics)
}

/// Why serializing a bundle failed.
#[derive(Clone, Copy, Debug, PartialEq, Eq, Structural)]
pub enum ArchiveError {
    /// A document is too large for its archive entry header.
    TooLarge,
    /// The compression crate reported a failure.
    Compression,
}

/// The contents of the bundle served to the policy consumer.
pub struct Bundle {
    /// The metadata recorded in the manifest.
    metadata: NoMetadata,
    /// The revision: build version and content hash.
    revision: Vec<u8>,
    /// A mapping of subjects to their various attributes.
    subjects: Subjects,
    /// A mapping of sessions to their various attributes.
    sessions: Sessions,
    /// A mapping of proposals to their various attributes.
    proposals: Proposals,
    /// A mapping of beamlines to their various attributes.
    beamlines: Beamlines,
    /// Static documents to include in the bundle, keyed by name.
    static_data: StrMap<Vec<u8>>,
}

impl View for Bundle {
    type V = BundleV;

    closed spec fn view(&self) -> BundleV {
        BundleV {
            subjects: self.subjects@,
            sessions: self.sessions@,
            proposals: self.proposals@,
            beamlines: self.beamlines@,
            statics: self.static_data@,
            revision: self.revision@,
        }
    }
}

impl Bundle {
    /// The documents are ordered, static names fit the archive's name field,
    /// and the revision is the content hash of the documents.
    pub open spec fn wf(&self) -> bool {
        bundle_wf(self@)
    }

    /// Assembles a bundle: the revision is computed by feeding the metadata,
    /// every entity document in a fixed order, and the static documents in
    /// name order into the content hash.
    pub fn new(
        metadata: NoMetadata,
        subjects: Subjects,
        sessions: Sessions,
        proposals: Proposals,
        beamlines: Beamlines,
        static_data: StrMap<Vec<u8>>,
    ) -> (r: Self)
        requires
            subjects.wf(),
            sessions.wf(),
            proposals.wf(),
            beamlines.wf(),
            static_data.wf(),
            forall|i: int| 0 <= i < static_data@.len() ==> (#[trigger] static_data@[i].0).len()
                <= 77,
        ensures
            r@ == (BundleV {
                subjects: subjects@,
                sessions: sessions@,
                proposals: proposals@,
                beamlines: beamlines@,
                statics: static_data@,
                revision: revision_of(
                    subjects@,
                    sessions@,
                    proposals@,
                    beamlines@,
                    static_data@,
                ),
            }),
            r.wf(),
    {
        let meta_json = "null".as_bytes_vec();
        let subj_json = subjects.to_json();
        let sess_json = sessions.to_json();
        let prop_json = proposals.to_json();
        let beam_json = beamlines.to_json();
        let mut feed: Vec<u8> = Vec::new();
        push_framed(&mut feed, &meta_json);
        push_framed(&mut feed, &subj_json);
        push_framed(&mut feed, &sess_json);
        push_framed(&mut feed, &prop_json);
        push_framed(&mut feed, &beam_json);
        let ghost head = feed@;
        let mut i: usize = 0;
        let n = static_data.len();
        while i < n
            invariant
                i <= n == static_data@.len(),
                feed@ == head + statics_feed(static_data@.take(i as int)),
            decreases n - i,
        {
            push_framed(&mut feed, static_data.key_at(i));
            let v = static_data.val_at(i);
            proof {
                assert(v.deep_view() =~= v@);
            }
            push_framed(&mut feed, v);
            proof {
                assert(static_data@.take(i + 1).drop_last() =~= static_data@.take(i as int));
                assert(static_data@.take(i + 1).last() == static_data@[i as int]);
            }
            i = i + 1;
        }
        proof {
            assert(static_data@.take(static_data@.len() as int) =~= static_data@);
        }
        let h = crate::hash::hash_bytes(&feed);
        let mut revision = "0.1.0:".as_bytes_vec();
        push_dec_u64(&mut revision, h);
        Bundle { metadata, revision, subjects, sessions, proposals, beamlines, static_data }
    }

    /// The current revision of the bundle, as recorded in the manifest.
    pub fn revision(&self) -> (r: &Vec<u8>)
        ensures
            r@ == self@.revision,
    {
        &self.revision
    }

    /// The manifest document.
    fn manifest_to_json(&self) -> (r: Vec<u8>)
        ensures
            r@ == manifest_json(self@.revision),
    {
        let mut out = "{\"revision\":".as_bytes_vec();
        push_json_str(&mut out, &self.revision);
        push_bytes(&mut out, ",\"roots\":[\"diamond/data\"],\"wasm\":[],\"metadata\":null}".as_bytes());
        out
    }

    /// Serializes the bundle as a compressed archive. Fails only when a
    /// document does not fit an archive entry or the compression crate
    /// reports a failure; a well-formed bundle of ordinary size succeeds
    /// whenever compression does.
    pub fn to_tar_gz(&self) -> (r: Result<Vec<u8>, ArchiveError>)
        requires
            self.wf(),
        ensures
            match r {
                Result::Ok(v) => sizes_ok(self@) && v@ == gzip_of(archive_of(self@)),
                Result::Err(e) => e is Compression || !sizes_ok(self@),
            },
    {
        let tar = match self.archive_bytes() {
            Ok(t) => t,
            Err(e) => {
                return Err(e);
            },
        };
        match gzip(&tar) {
            Some(v) => Ok(v),
            None => Err(ArchiveError::Compression),
        }
    }

    /// Lays the bundle out as an uncompressed archive. Fails exactly when a
    /// document does not fit an archive entry's size field.
    fn archive_bytes(&self) -> (r: Result<Vec<u8>, ArchiveError>)
        requires
            self.wf(),
        ensures
            match r {
                Result::Ok(v) => sizes_ok(self@) && v@ == archive_of(self@),
                Result::Err(e) => e is TooLarge && !sizes_ok(self@),
            },
    {
        let mut tar: Vec<u8> = match self.fixed_entry_bytes() {
            Ok(t) => t,
            Err(e) => {
                return Err(e);
            },
        };
        let ghost head = tar@;
        let mut i: usize = 0;
        let n = self.static_data.len();
        while i < n
            invariant
                i <= n == self@.statics.len(),
                tar@ == head + statics_entries(self@.statics.take(i as int)),
                self.wf(),
                forall|j: int| 0 <= j < i ==> (#[trigger] self@.statics[j].1).len() < 0x200000000,
            decreases n - i,
        {
            let name = self.static_data.key_at(i);
            let data = self.static_data.val_at(i);
            proof {
                assert(data.deep_view() =~= data@);
            }
            if (data.len() as u64) >= 0x200000000 {
                return Err(ArchiveError::TooLarge);
            }
            let p = static_path_vec(name);
            push_tar_entry(&mut tar, &p, data);
            proof {
                assert(self@.statics.take(i + 1).drop_last() =~= self@.statics.take(i as int));
                assert(self@.statics.take(i + 1).last() == self@.statics[i as int]);
            }
            i = i + 1;
        }
        proof {
            assert(self@.statics.take(self@.statics.len() as int) =~= self@.statics);
        }
        push_tar_end(&mut tar);
        proof {
            assert(tar@ == archive_of(self@));
        }
        Ok(tar)
    }

    /// Lays out the manifest and the entity documents. Fails exactly when
    /// one of them does not fit an archive entry's size field.
    #[verifier::rlimit(100)]
    fn fixed_entry_bytes(&self) -> (r: Result<Vec<u8>, ArchiveError>)
        requires
            self.wf(),
        ensures
            match r {
                Result::Ok(v) => v@ == fixed_entries(self@) && manifest_json(self@.revision).len()
                    < 0x200000000 && subjects_json(self@.subjects).len() < 0x200000000
                    && sessions_json(self@.sessions).len() < 0x200000000 && proposals_json(
                    self@.proposals,
                ).len() < 0x200000000 && beamlines_json(self@.beamlines).len() < 0x200000000,
                Result::Err(e) => e is TooLarge && !sizes_ok(self@),
            },
    {
        let manifest = self.manifest_to_json();
        let subj_json = self.subjects.to_json();
        let sess_json = self.sessions.to_json();
        let prop_json = self.proposals.to_json();
        let beam_json = self.beamlines.to_json();
        if (manifest.len() as u64) >= 0x200000000 || (subj_json.len() as u64) >= 0x200000000 || (
        sess_json.len() as u64) >= 0x200000000 || (prop_json.len() as u64) >= 0x200000000 || (
        beam_json.len() as u64) >= 0x200000000 {
            return Err(ArchiveError::TooLarge);
        }
        let mut tar: Vec<u8> = Vec::new();
        let p = fixed_path(".manifest");
        push_tar_entry(&mut tar, &p, &manifest);
        let p = fixed_path("diamond/data/subjects/data.json");
        push_tar_entry(&mut tar, &p, &subj_json);
        let p = fixed_path("diamond/data/sessions/data.json");
        push_tar_entry(&mut tar, &p, &sess_json);
        let p = fixed_path("diamond/data/proposals/data.json");
        push_tar_entry(&mut tar, &p, &prop_json);
        let p = fixed_path("diamond/data/beamlines/data.json");
        push_tar_entry(&mut tar, &p, &beam_json);
        proof {
            assert(tar@ =~= fixed_entries(self@));
        }
        Ok(tar)
    }

}

/// A fixed archive path as bytes.
fn fixed_path(s: &str) -> (p: Vec<u8>)
    ensures
        p@ == s.spec_bytes(),
{
    s.as_bytes_vec()
}

/// The archive path of a static document.
fn static_path_vec(name: &Vec<u8>) -> (p: Vec<u8>)
    ensures
        p@ == static_path(name@),
{
    let mut p = "diamond/data/".as_bytes_vec();
    push_bytes(&mut p, name.as_slice());
    push_bytes(&mut p, "/data.json".as_bytes());
    p
}

} // verus!

verus! {

/// Determinism of assembly: two bundles holding the same documents and
/// static data carry the same revision and serialize to the same archive
/// bytes, however and whenever each was assembled.
pub proof fn lemma_assembly_deterministic(a: BundleV, b: BundleV)
    requires
        a.subjects == b.subjects,
        a.sessions == b.sessions,
        a.proposals == b.proposals,
        a.beamlines == b.beamlines,
        a.statics == b.statics,
        a.revision == revision_of(a.subjects, a.sessions, a.proposals, a.beamlines, a.statics),
        b.revision == revision_of(b.subjects, b.sessions, b.proposals, b.beamlines, b.statics),
    ensures
        a.revision == b.revision,
        archive_of(a) == archive_of(b),
        gzip_of(archive_of(a)) == gzip_of(archive_of(b)),
{
    assert(a == b);
}

} // verus!
