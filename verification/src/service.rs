//! The JAM programs this library serves, and the errors their entry points report.

use vstd::prelude::*;

verus! {

/// The Parachain Service itself: `refine` validates candidates, `accumulate`
/// handles inclusion and service state.
pub struct ParachainService;

/// parasim: a JAM service that accepts a parachain work package without
/// running its PVF and applies the head it carries.
pub struct ParasimService;

/// A stand-in transfer destination used to size the gas of a `TransferOut`.
pub struct MockDestService;

/// Structured reason parasim's `refine` failed to produce a head.
#[derive(Clone, Copy, Debug, PartialEq, Eq, Structural)]
pub enum ParasimRefineError {
    /// The work-item payload is not a decodable `ParachainCandidate`.
    MalformedPayload,
    /// The PoV is zstd-compressed; parasim does not decompress.
    CompressedPoV,
    /// The PoV is not a parseable `ParachainBlockData`.
    MalformedPoV,
    /// The extracted head exceeds `MAX_HEAD_DATA_SIZE`.
    HeadTooLarge,
    /// The PoV carries no `jam/anchor_state_proof` entry.
    MissingProof,
    /// The proof entry is not a decodable `(state_root, StateProof)`.
    MalformedProof,
    /// The proof was built against a different state root than the package's anchor.
    ProofNotAtAnchor,
    /// The proof does not verify against the anchor state root.
    InvalidProof,
    /// The authorizer config pins no `ParaId` for this work item.
    NoParaId,
    /// A `sudo`-lane payload does not decode as a list of upward messages.
    MalformedControl,
}

} // verus!
