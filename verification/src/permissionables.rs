//! Permission-relevant relations, each aggregated from raw source rows into
//! an ordered entity document.

use vstd::prelude::*;

pub mod beamlines;
pub mod permissions;
pub mod proposals;
pub mod sessions;
pub mod subject_permissions;
pub mod subject_proposals;
pub mod subject_sessions;
pub mod subjects;

verus! {

/// Why a raw row was rejected during validation; rejected rows are dropped
/// from the aggregate, never admitted in part.
#[derive(Clone, Copy, Debug, PartialEq, Eq, Structural)]
pub enum ValidationError {
    /// The subject identifier column was null.
    NullSubject,
    /// The proposal number column was null.
    NullProposal,
    /// The beamline name column was null.
    NullBeamline,
    /// A numeric column held text that does not parse as a 32-bit unsigned
    /// number.
    BadNumber,
}

} // verus!
