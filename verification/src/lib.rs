//! Attestation verification and worker authorization.
//!
//! The crate verifies trusted-execution-environment evidence (a hardware
//! quote, its collateral, and a measured event log), replays the platform's
//! measurement-register chain, extracts the deployed image digest from the
//! manifest, and gates worker registration and signing requests on an
//! owner-controlled allow-list of approved codehashes.

use vstd::prelude::*;

pub mod collateral;
pub mod digest;
pub mod extract;
pub mod hexcode;
pub mod jsondoc;
pub mod quote;
pub mod registry;
pub mod replay;
pub mod rta;

verus! {

/// Failure taxonomy shared by every entry point. Each error aborts the whole
/// call; no partial state change survives a failed operation.
#[derive(Clone, Copy, PartialEq, Eq, Structural, Debug)]
pub enum Error {
    /// The evidence bundle or TCB-info document is syntactically invalid or
    /// is missing a required field.
    MalformedCollateral,
    /// The quote is not the supported TD-style report shape.
    UnsupportedReportType,
    /// The quote body cannot be decoded as a quote at all.
    VerificationFailure,
    /// A replayed digest disagrees with a claimed digest, or the claimed
    /// compose-hash event is absent.
    IntegrityMismatch,
    /// The manifest lacks the image markers, or the extracted codehash is
    /// not a 64-character lowercase hex string.
    ManifestParseError,
    /// Caller is not the owner, not a registered worker, asserts an identity
    /// the quote does not attest, or runs an unapproved codehash.
    Unauthorized,
    /// No record exists for the given principal.
    NotFound,
}

} // verus!
