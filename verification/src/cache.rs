//! The revision cache: one slot holding the latest serialized bundle,
//! replaced whole by each refresh and never observed in part.

use vstd::prelude::*;
use crate::bundle::{Bundle, BundleV, ArchiveError, bundle_wf, sizes_ok, archive_of};
use crate::archive::gzip_of;

verus! {

/// An immutable pairing of a bundle and its serialized archive; once
/// constructed, never mutated.
pub struct BundleFile {
    /// The bundle the archive is based on.
    bundle: Bundle,
    /// The serialized bundle, a compressed archive.
    file: Vec<u8>,
}

impl BundleFile {
    /// The bundle the archive is based on.
    pub closed spec fn spec_bundle(&self) -> BundleV {
        self.bundle@
    }

    /// The serialized archive bytes.
    pub closed spec fn spec_file(&self) -> Seq<u8> {
        self.file@
    }

    /// The bundle is well formed and the bytes are exactly its archive:
    /// the pairing can never present documents of one bundle with the bytes
    /// of another.
    pub open spec fn wf(&self) -> bool {
        &&& bundle_wf(self.spec_bundle())
        &&& sizes_ok(self.spec_bundle())
        &&& self.spec_file() == gzip_of(archive_of(self.spec_bundle()))
    }

    /// Serializes a bundle and pairs it with the resulting bytes. Fails
    /// only when serialization does.
    pub fn build(bundle: Bundle) -> (r: Result<BundleFile, ArchiveError>)
        requires
            bundle.wf(),
        ensures
            match r {
                Result::Ok(f) => f.wf() && f.spec_bundle() == bundle@,
                Result::Err(e) => e is Compression || !sizes_ok(bundle@),
            },
    {
        match bundle.to_tar_gz() {
            Ok(file) => Ok(BundleFile { bundle, file }),
            Err(e) => Err(e),
        }
    }

    /// The bundle the archive is based on.
    pub fn bundle(&self) -> (b: &Bundle)
        ensures
            b@ == self.spec_bundle(),
    {
        &self.bundle
    }

    /// The serialized archive bytes.
    pub fn file(&self) -> (f: &Vec<u8>)
        ensures
            f@ == self.spec_file(),
    {
        &self.file
    }
}

/// The one shared slot holding the current bundle. Readers borrow the
/// current snapshot; the single writer replaces it whole, so no reader ever
/// observes a mixture of two bundles.
pub struct RevisionCache {
    current: BundleFile,
}

impl RevisionCache {
    /// The snapshot the cache holds.
    pub closed spec fn spec_current(&self) -> BundleFile {
        self.current
    }

    /// The held snapshot is internally consistent.
    pub open spec fn wf(&self) -> bool {
        self.spec_current().wf()
    }

    /// Creates the cache around the initial snapshot, which must exist
    /// before anything can be served.
    pub fn new(initial: BundleFile) -> (r: Self)
        requires
            initial.wf(),
        ensures
            r.spec_current() == initial,
            r.wf(),
    {
        RevisionCache { current: initial }
    }

    /// The fast read path: borrows the current snapshot whole.
    pub fn read(&self) -> (r: &BundleFile)
        ensures
            *r == self.spec_current(),
    {
        &self.current
    }

    /// The single-writer replace: installs a new snapshot whole. All the
    /// expensive work of producing the snapshot happens before this call.
    pub fn replace(&mut self, new: BundleFile)
        requires
            new.wf(),
        ensures
            final(self).spec_current() == new,
            final(self).wf(),
    {
        self.current = new;
    }
}

/// Swap atomicity: a snapshot read from a well-formed cache is whole — its
/// bytes are exactly the archive of its own documents, so a reader can
/// never see the documents of one refresh paired with the bytes of
/// another. Together with the contract of `replace`, which installs a new
/// well-formed snapshot in one assignment, a reader observes either the old
/// or the new snapshot in full, never a mixture.
pub proof fn lemma_swap_atomic(c: RevisionCache)
    requires
        c.wf(),
    ensures
        c.spec_current().spec_file() == gzip_of(archive_of(c.spec_current().spec_bundle())),
{
}

} // verus!
