//! The bounded byte vectors the per-parachain log stores, from
//! `bounded_collections`: the truncated auth trace (at most 256 octets) and a
//! PVF's opaque error report (at most 1024 octets).

use bounded_collections::{BoundedVec, ConstU32};
use vstd::prelude::*;

verus! {

#[verifier::external_type_specification]
#[verifier::external_body]
#[verifier::reject_recursive_types(T)]
#[verifier::reject_recursive_types(S)]
pub struct ExBoundedVec<T, S>(BoundedVec<T, S>);

#[verifier::external_type_specification]
#[verifier::external_body]
pub struct ExConstU32<const N: u32>(ConstU32<N>);

/// `Clone for BoundedVec<T, S>` (clones the inner `Vec`). Nothing is claimed of
/// the copy; it lets types holding a bounded vector derive `Clone`.
pub assume_specification<T, S>[ <BoundedVec<T, S> as Clone>::clone ](v: &BoundedVec<T, S>) -> BoundedVec<T, S>
    where
        T: Clone,
;

/// The auth trace stored with a Refine failure, truncated to 256 bytes.
pub type StoredAuthTrace = BoundedVec<u8, ConstU32<256>>;

/// The payload a PVF reports through `report_error`, at most 1024 bytes.
pub type OpaquePayload = BoundedVec<u8, ConstU32<1024>>;

/// The octets a stored auth trace holds.
pub uninterp spec fn auth_trace_bytes(v: BoundedVec<u8, ConstU32<256>>) -> Seq<u8>;

/// The octets an opaque payload holds.
pub uninterp spec fn opaque_bytes(v: BoundedVec<u8, ConstU32<1024>>) -> Seq<u8>;

/// `BoundedVec::<u8, ConstU32<256>>::try_from(Vec<u8>)`: claimed to succeed
/// exactly when the vector holds at most 256 octets, keeping them.
#[verifier::external_body]
pub(crate) fn auth_trace_from_vec(v: Vec<u8>) -> (r: Option<StoredAuthTrace>)
    ensures
        r is Some <==> v@.len() <= 256,
        r matches Some(t) ==> auth_trace_bytes(t) == v@,
{
    match StoredAuthTrace::try_from(v) {
        Ok(t) => Some(t),
        Err(_) => None,
    }
}

/// The octets of a stored auth trace, through `BoundedVec`'s `Deref` to its
/// inner `Vec`: claimed to be what it holds, never more than its 256 bound.
#[verifier::external_body]
pub(crate) fn auth_trace_as_slice(t: &StoredAuthTrace) -> (r: &[u8])
    ensures
        r@ == auth_trace_bytes(*t),
        r@.len() <= 256,
{
    t.as_slice()
}

/// `BoundedVec::<u8, ConstU32<1024>>::try_from(Vec<u8>)`: claimed to succeed
/// exactly when the vector holds at most 1024 octets, keeping them.
#[verifier::external_body]
pub(crate) fn opaque_from_vec(v: Vec<u8>) -> (r: Option<OpaquePayload>)
    ensures
        r is Some <==> v@.len() <= 1024,
        r matches Some(t) ==> opaque_bytes(t) == v@,
{
    match OpaquePayload::try_from(v) {
        Ok(t) => Some(t),
        Err(_) => None,
    }
}

/// The octets of an opaque payload, through `BoundedVec`'s `Deref` to its
/// inner `Vec`: claimed to be what it holds, never more than its 1024 bound.
#[verifier::external_body]
pub(crate) fn opaque_as_slice(t: &OpaquePayload) -> (r: &[u8])
    ensures
        r@ == opaque_bytes(*t),
        r@.len() <= 1024,
{
    t.as_slice()
}

} // verus!
