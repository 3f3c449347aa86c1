//! Identifiers and small value types shared across the service.

use vstd::prelude::*;

verus! {

/// Largest head data a parachain may hold, in octets.
pub const MAX_HEAD_DATA_SIZE: u32 = 4096;

/// A state-balance amount (balances are `u64`).
pub type Balance = u64;

/// A JAM timeslot.
pub type Timeslot = u32;

/// The para id of Asset Hub, the one parachain allowed to hold the
/// service-global items (validator-key staging, the transfer queue).
pub const ASSET_HUB_PARA_ID: u32 = 1000;

/// The hash of a validation-code blob.
#[derive(Clone, Copy, Debug, PartialEq, Eq)]
pub struct ValidationCodeHash(pub [u8; 32]);

/// A validation code, as the preimage registry keys it: its hash and length.
#[derive(Clone, Copy, Debug, PartialEq, Eq)]
pub struct ValidationCodeRef {
    pub hash: ValidationCodeHash,
    pub len: u32,
}

impl ValidationCodeRef {
    /// Is this the code `(hash, len)`?
    pub fn is(&self, hash: &[u8; 32], len: u32) -> (r: bool)
        ensures
            r == (self.hash.0@ == hash@ && self.len == len),
    {
        self.len == len && crate::hashing::hash_eq(&self.hash.0, hash)
    }
}

/// Unique identifier of a parachain.
#[derive(Clone, Copy, Debug, PartialEq, Eq, PartialOrd, Ord, Hash, Structural)]
pub struct ParaId(pub u32);

impl From<u32> for ParaId {
    fn from(id: u32) -> (r: Self) {
        ParaId(id)
    }
}

impl vstd::std_specs::convert::FromSpecImpl<u32> for ParaId {
    open spec fn obeys_from_spec() -> bool {
        true
    }

    open spec fn from_spec(id: u32) -> Self {
        ParaId(id)
    }
}

impl From<ParaId> for u32 {
    fn from(id: ParaId) -> (r: u32) {
        id.0
    }
}

impl vstd::std_specs::convert::FromSpecImpl<ParaId> for u32 {
    open spec fn obeys_from_spec() -> bool {
        true
    }

    open spec fn from_spec(id: ParaId) -> u32 {
        id.0
    }
}

} // verus!
