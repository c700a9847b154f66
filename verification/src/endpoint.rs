//! The bundle endpoint: serves the cached archive with conditional
//! retrieval keyed on the revision, plus the liveness and fallback
//! responses.

use vstd::prelude::*;
use crate::cache::BundleFile;
use crate::order::bytes_eq;
use crate::json::{push_byte, push_bytes};

verus! {

/// The entity tag of a revision: the revision string between double
/// quotes.
pub open spec fn etag_of(rev: Seq<u8>) -> Seq<u8> {
    seq![0x22u8] + rev + seq![0x22u8]
}

/// A response of the bundle endpoint: a status code, the entity tag, and
/// the body.
pub struct BundleResponse {
    /// The HTTP status code.
    pub status: u16,
    /// The entity tag of the current revision, always present.
    pub etag: Vec<u8>,
    /// The body: the archive bytes, or empty for a conditional hit.
    pub body: Vec<u8>,
}

/// Copies a byte vector.
fn copy_bytes(v: &Vec<u8>) -> (r: Vec<u8>)
    ensures
        r@ == v@,
{
    let mut r: Vec<u8> = Vec::new();
    push_bytes(&mut r, v.as_slice());
    r
}

/// Serves the current snapshot: a request whose conditional header equals
/// the current entity tag gets "not modified" with an empty body; any
/// other request gets the full archive bytes. The entity tag is always
/// returned.
pub fn bundle_endpoint(current: &BundleFile, if_none_match: Option<&Vec<u8>>) -> (r: BundleResponse)
    ensures
        r.etag@ == etag_of(current.spec_bundle().revision),
        match if_none_match {
            Option::Some(h) => {
                if h@ == etag_of(current.spec_bundle().revision) {
                    r.status == 304 && r.body@ == Seq::<u8>::empty()
                } else {
                    r.status == 200 && r.body@ == current.spec_file()
                }
            },
            Option::None => r.status == 200 && r.body@ == current.spec_file(),
        },
{
    let mut etag: Vec<u8> = Vec::new();
    push_byte(&mut etag, 0x22);
    push_bytes(&mut etag, current.bundle().revision().as_slice());
    push_byte(&mut etag, 0x22);
    proof {
        assert(etag@ =~= etag_of(current.spec_bundle().revision));
    }
    match if_none_match {
        Some(h) => {
            if bytes_eq(h, &etag) {
                BundleResponse { status: 304, etag, body: Vec::new() }
            } else {
                let body = copy_bytes(current.file());
                BundleResponse { status: 200, etag, body }
            }
        },
        None => {
            let body = copy_bytes(current.file());
            BundleResponse { status: 200, etag, body }
        },
    }
}

/// The liveness probe: succeeds unconditionally while the process is
/// alive. A fatal refresh failure ends the process, so reachability of
/// this response stands in for a healthy refresh loop.
pub fn health_endpoint() -> (status: u16)
    ensures
        status == 200,
{
    200
}

/// The response to an unmatched route.
pub fn fallback_endpoint() -> (status: u16)
    ensures
        status == 404,
{
    404
}

} // verus!
