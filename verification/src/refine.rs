//! What `refine` decides around the PVF run: which para a
//! work item speaks for, whether its payload is a candidate, and the digest
//! it reports. The lookups and the inner PVM run are the caller's.

use crate::hashing::Hash32;
use crate::log::RefineLog;
use crate::pov::compact_at;
use crate::scale::{decode_compact_u32_at, le_u32_at};
use crate::types::{ParaId, ValidationCodeHash, ValidationCodeRef};
use parity_scale_codec::Decode;
use vstd::prelude::*;

verus! {

/// The para ids a SCALE `Vec<ParaId>` at the front of `s` holds (octets after
/// it are not read), or `None` where it does not decode.
pub open spec fn para_ids_at(s: Seq<u8>) -> Option<Seq<ParaId>> {
    match compact_at(s, 0) {
        Some((n, q)) => if q + 4 * n <= s.len() {
            Some(Seq::new(n, |i: int| ParaId(le_u32_at(s, q + 4 * i) as u32)))
        } else {
            None
        },
        None => None,
    }
}

/// `<Vec<u32> as Decode>::decode` of `parity_scale_codec` on a byte slice, each
/// `u32` taken as a `ParaId` (which encodes as its `u32`). Claimed: it
/// succeeds exactly where `para_ids_at` says, with those ids; octets after
/// the vector are left unread.
#[verifier::external_body]
fn codec_decode_para_ids(input: &[u8]) -> (r: Option<Vec<ParaId>>)
    ensures
        match para_ids_at(input@) {
            Some(ids) => r matches Some(v) && v@ == ids,
            None => r is None,
        },
{
    match Vec::<u32>::decode(&mut &input[..]) {
        Ok(ids) => Some(ids.into_iter().map(ParaId).collect()),
        Err(_) => None,
    }
}

/// Decode the `Vec<ParaId>` an authorizer config starts with.
pub fn decode_para_ids(config: &[u8]) -> (r: Option<Vec<ParaId>>)
    ensures
        match para_ids_at(config@) {
            Some(ids) => r matches Some(v) && v@ == ids,
            None => r is None,
        },
{
    codec_decode_para_ids(config)
}

/// The para the authorizer config pins for work item `item_index`, if the
/// config decodes and names one.
pub fn work_package_para_id(config: &[u8], item_index: usize) -> (r: Option<ParaId>)
    ensures
        r == (match para_ids_at(config@) {
            Some(ids) => if item_index < ids.len() {
                Some(ids[item_index as int])
            } else {
                None
            },
            None => None,
        }),
{
    match decode_para_ids(config) {
        Some(ids) => if item_index < ids.len() {
            Some(ids[item_index])
        } else {
            None
        },
        None => None,
    }
}

/// The validation-code hash a `ParachainCandidate` payload names: 32 octets,
/// then the PoV as a length-prefixed byte string, and nothing after it.
pub open spec fn candidate_code_hash(s: Seq<u8>) -> Option<Seq<u8>> {
    if s.len() >= 32 {
        match compact_at(s, 32) {
            Some((n, q)) => if q + n == s.len() {
                Some(s.subrange(0, 32))
            } else {
                None
            },
            None => None,
        }
    } else {
        None
    }
}

/// Decode a work-item payload as a `ParachainCandidate`: its code hash, and
/// where its PoV lies in the payload.
pub fn decode_candidate(payload: &[u8]) -> (r: Option<(ValidationCodeHash, usize)>)
    ensures
        match candidate_code_hash(payload@) {
            Some(h) => r matches Some((hash, pov_start)) && hash.0@ == h && (compact_at(
                payload@,
                32,
            ) matches Some((_, q)) && pov_start == q),
            None => r is None,
        },
{
    if payload.len() < 32 {
        return None;
    }
    let (n, q) = match decode_compact_u32_at(payload, 32) {
        Some(v) => v,
        None => return None,
    };
    if payload.len() - q != n as usize {
        return None;
    }
    let mut hash = [0u8; 32];
    let mut i: usize = 0;
    while i < 32
        invariant
            i <= 32,
            32 <= payload@.len(),
            forall|j: int| 0 <= j < i ==> hash@[j] == payload@[j],
        decreases 32 - i,
    {
        hash[i] = payload[i];
        i = i + 1;
    }
    proof {
        assert(hash@ =~= payload@.subrange(0, 32));
    }
    Some((ValidationCodeHash(hash), q))
}

/// What a work item is refined as before its PVF runs.
#[derive(Clone, Debug, PartialEq, Eq)]
pub enum RefineStart {
    /// Look the code up and run it, for this para.
    Run { para_id: ParaId, code_hash: ValidationCodeHash },
    /// The digest is this failure.
    Fail { para_id: ParaId, error: RefineLog },
}

/// The para is the one the authorizer config pins for the item; an
/// authorizer trace that does not decode, or a payload that is not a
/// candidate, fails the digest. Work packages carry exactly one item, one
/// para per item (anything else never reaches refine).
pub fn refine_start(
    para_ids: &Vec<ParaId>,
    item_index: usize,
    item_count: usize,
    auth_trace_ok: bool,
    payload: &[u8],
) -> (r: RefineStart)
    requires
        item_index < item_count,
        item_count == para_ids@.len(),
        item_count == 1,
    ensures
        ({
            let para_id = para_ids@[item_index as int];
            if !auth_trace_ok {
                r == RefineStart::Fail { para_id, error: RefineLog::MalformedAuthTrace }
            } else {
                match candidate_code_hash(payload@) {
                    None => r == RefineStart::Fail { para_id, error: RefineLog::MalformedPayload },
                    Some(h) => r matches RefineStart::Run { para_id: p, code_hash } && p == para_id
                        && code_hash.0@ == h,
                }
            }
        }),
{
    let para_id = para_ids[item_index];
    if !auth_trace_ok {
        return RefineStart::Fail { para_id, error: RefineLog::MalformedAuthTrace };
    }
    match decode_candidate(payload) {
        None => RefineStart::Fail { para_id, error: RefineLog::MalformedPayload },
        Some((code_hash, _)) => RefineStart::Run { para_id, code_hash },
    }
}

/// What refine reports for one work item.
#[derive(Clone, Debug, PartialEq, Eq)]
pub enum ParachainWorkDigest {
    Success {
        para_id: ParaId,
        validation_code: ValidationCodeRef,
        parent_head_hash: Hash32,
        head_data: Vec<u8>,
        /// The upward messages, each SCALE-encoded, in emission order.
        upward_messages: Vec<Vec<u8>>,
        lookup_anchor: u32,
    },
    Failure { para_id: ParaId, error: RefineLog },
}

impl ParachainWorkDigest {
    /// The para the digest is for.
    pub fn para_id(&self) -> (r: ParaId)
        ensures
            r == (match self {
                ParachainWorkDigest::Success { para_id, .. } => *para_id,
                ParachainWorkDigest::Failure { para_id, .. } => *para_id,
            }),
    {
        match self {
            ParachainWorkDigest::Success { para_id, .. } => *para_id,
            ParachainWorkDigest::Failure { para_id, .. } => *para_id,
        }
    }

    /// The refine failure a digest reports; `Err(())` for a successful one.
    pub fn try_into_log(self) -> (r: Result<RefineLog, ()>)
        ensures
            match self {
                ParachainWorkDigest::Success { .. } => r is Err,
                ParachainWorkDigest::Failure { error, .. } => r == Ok::<RefineLog, ()>(error),
            },
    {
        match self {
            ParachainWorkDigest::Success { .. } => Err(()),
            ParachainWorkDigest::Failure { error, .. } => Ok(error),
        }
    }
}

/// The digest after the code was looked up (`None`: not
/// available at the lookup anchor) and, if it was, run.
pub fn refine_finish(
    para_id: ParaId,
    code_hash: ValidationCodeHash,
    code_len: Option<usize>,
    run: Result<(Hash32, Vec<u8>, Vec<Vec<u8>>), RefineLog>,
    lookup_anchor: u32,
) -> (r: ParachainWorkDigest)
    requires
        code_len matches Some(n) ==> n <= u32::MAX,
    ensures
        match code_len {
            None => r == ParachainWorkDigest::Failure { para_id, error: RefineLog::InvalidCodeHash },
            Some(n) => match run {
                Err(e) => r == ParachainWorkDigest::Failure { para_id, error: e },
                Ok((parent, head, messages)) => r == ParachainWorkDigest::Success {
                    para_id,
                    validation_code: ValidationCodeRef { hash: code_hash, len: n as u32 },
                    parent_head_hash: parent,
                    head_data: head,
                    upward_messages: messages,
                    lookup_anchor,
                },
            },
        },
{
    let n = match code_len {
        None => return ParachainWorkDigest::Failure { para_id, error: RefineLog::InvalidCodeHash },
        Some(n) => n,
    };
    match run {
        Err(e) => ParachainWorkDigest::Failure { para_id, error: e },
        Ok((parent, head, messages)) => ParachainWorkDigest::Success {
            para_id,
            validation_code: ValidationCodeRef { hash: code_hash, len: n as u32 },
            parent_head_hash: parent,
            head_data: head,
            upward_messages: messages,
            lookup_anchor,
        },
    }
}


/// The largest refine output plus authorizer trace JAM accepts (48 KiB).
pub const MAX_REFINE_OUTPUT_SIZE: usize = 48 * 1024;

/// A digest whose encoding plus the authorizer trace exceeds the
/// result budget is replaced by `RefineOutputTooLarge` for its para.
pub fn output_too_large(encoded_len: usize, auth_trace_len: usize) -> (r: bool)
    ensures
        r == (encoded_len + auth_trace_len > MAX_REFINE_OUTPUT_SIZE),
{
    encoded_len.saturating_add(auth_trace_len) > MAX_REFINE_OUTPUT_SIZE
}

} // verus!
