//! Error taxonomy of the valuation engine.

use vstd::prelude::*;

verus! {

/// Everything that can go wrong while a report is computed.
///
/// `MissingField` and `MalformedNumber` name the source field concerned;
/// whether they are fatal depends on whether the field is portfolio-level
/// or per-asset (see the report aggregator). `DivisionByZero` marks a
/// degenerate denominator in a ratio; `VenueUnavailable` a single liquidity
/// venue whose data could not be retrieved; `UpstreamUnavailable` a
/// collaborator whose answer never arrived.
#[derive(Debug, PartialEq, Eq)]
pub enum Error {
    /// A required key was absent from a source payload.
    MissingField { expected_field: String },
    /// A field was present but could not be read as a number, or its value
    /// does not fit the engine's magnitude bounds.
    MalformedNumber { expected_field: String },
    /// A ratio was asked of a zero-valued denominator.
    DivisionByZero,
    /// One liquidity venue's figures could not be retrieved.
    VenueUnavailable { venue: String },
    /// A collaborator transport failure.
    UpstreamUnavailable,
}

} // verus!
