//! Per-work-package accumulation: which candidates are
//! accepted, and what the replay of their upward messages checks.

use crate::hashing::{blake2_256, blake2b_256, hash_eq, Hash32};
use crate::head_commitment::{touched_from, HeadTracker};
use crate::log::AccumulateLog;
use crate::para_info::ParaInfo;
use crate::state_balance::LookupStatus;
use crate::types::{ParaId, ValidationCodeRef, ASSET_HUB_PARA_ID};
use vstd::prelude::*;

verus! {

/// A candidate is accepted iff its
/// para is registered and not deregistering, it builds on the stored head,
/// it ran the active code (hash and length), and every upward message it
/// carries is allowed for its para.
pub open spec fn candidate_accepted(
    pi: Option<ParaInfo>,
    parent_head_hash: Seq<u8>,
    code: ValidationCodeRef,
    messages_allowed: bool,
) -> bool {
    &&& pi matches Some(p)
    &&& !p.is_deregistering
    &&& parent_head_hash == blake2b_256(p.head_data@)
    &&& p.validation_code matches Some(vc) && vc.hash.0@ == code.hash.0@ && vc.len == code.len
    &&& messages_allowed
}

/// A candidate is accepted only for a registered para that is not
/// deregistering, on top of its stored head, when it ran the para's active
/// validation code (the same hash and the same length) and carries only
/// allowed messages; a candidate that ran any other code is rejected.
pub proof fn lemma_accepted_candidate(
    pi: Option<ParaInfo>,
    parent_head_hash: Seq<u8>,
    code: ValidationCodeRef,
    messages_allowed: bool,
)
    ensures
        candidate_accepted(pi, parent_head_hash, code, messages_allowed) ==> ({
            &&& pi matches Some(p)
            &&& !p.is_deregistering
            &&& parent_head_hash == blake2b_256(p.head_data@)
            &&& p.validation_code matches Some(vc)
            &&& vc.hash.0@ == code.hash.0@
            &&& vc.len == code.len
            &&& messages_allowed
        }),
        (pi matches Some(p) && p.validation_code matches Some(vc) && vc.hash.0@ != code.hash.0@)
            ==> !candidate_accepted(pi, parent_head_hash, code, messages_allowed),
        (pi matches Some(p) && p.validation_code is None) ==> !candidate_accepted(
            pi,
            parent_head_hash,
            code,
            messages_allowed,
        ),
{
}

/// Process an `Ok` work digest against the para's record: reject the
/// candidate (nothing changes, nothing is logged) unless
/// `candidate_accepted`; otherwise touch the para with its pre-update head
/// and install the new head (step 5). Returns whether it was accepted; the
/// caller then prunes the log, writes the record (logging a backstop
/// failure) and replays the upward messages (step 6).
pub fn process(
    para_id: ParaId,
    pi: &mut Option<ParaInfo>,
    parent_head_hash: &Hash32,
    code: ValidationCodeRef,
    messages_allowed: bool,
    head_data: Vec<u8>,
    heads: &mut HeadTracker,
) -> (accepted: bool)
    ensures
        accepted == candidate_accepted(*old(pi), parent_head_hash@, code, messages_allowed),
        accepted ==> (*old(pi) matches Some(p) && *final(pi) == Some(ParaInfo { head_data, ..p })
            && touched_from(
            old(heads).snapshots(),
            final(heads).snapshots(),
            para_id,
            Some(p.head_data@),
        )),
        !accepted ==> *final(pi) == *old(pi) && final(heads).snapshots() == old(heads).snapshots(),
        accepted ==> ({
            &&& *old(pi) matches Some(p)
            &&& !p.is_deregistering
            &&& parent_head_hash@ == blake2b_256(p.head_data@)
            &&& p.validation_code matches Some(vc)
            &&& vc.hash.0@ == code.hash.0@
            &&& vc.len == code.len
            &&& messages_allowed
        }),
{
    proof {
        lemma_accepted_candidate(*pi, parent_head_hash@, code, messages_allowed);
    }
    let accepted = match pi {
        None => false,
        Some(p) => {
            if p.is_deregistering {
                false
            } else {
                let stored = blake2_256(p.head_data.as_slice());
                if !hash_eq(parent_head_hash, &stored) {
                    false
                } else {
                    let active = match p.validation_code {
                        Some(vc) => vc.is(&code.hash.0, code.len),
                        None => false,
                    };
                    active && messages_allowed
                }
            }
        },
    };
    if !accepted {
        return false;
    }
    match pi {
        Some(p) => {
            heads.touch(para_id, Some(p.head_data.as_slice()));
            p.head_data = head_data;
        },
        None => {},
    }
    true
}

/// A `Forget` naming the target's active or announced validation code
/// (hash and length) is refused, with this entry logged.
pub fn forget_refusal(pi: &ParaInfo, hash: &Hash32, len: u32) -> (r: Option<AccumulateLog>)
    ensures
        ((pi.validation_code matches Some(vc) && vc.hash.0@ == hash@ && vc.len == len) || (
        pi.announced_upgrade matches Some(vc) && vc.hash.0@ == hash@ && vc.len == len)) ==> r
            == Some(AccumulateLog::CanNotForgetValidationCode { hash: *hash, len }),
        !((pi.validation_code matches Some(vc) && vc.hash.0@ == hash@ && vc.len == len) || (
        pi.announced_upgrade matches Some(vc) && vc.hash.0@ == hash@ && vc.len == len)) ==> r
            is None,
{
    let active = match &pi.validation_code {
        Some(vc) => vc.is(hash, len),
        None => false,
    };
    let announced = match &pi.announced_upgrade {
        Some(vc) => vc.is(hash, len),
        None => false,
    };
    if active || announced {
        Some(AccumulateLog::CanNotForgetValidationCode { hash: *hash, len })
    } else {
        None
    }
}

/// A live target: registered and not deregistering. A `Solicit`, `Forget` or
/// `RemoveKV` naming any other para is a no-op.
pub fn is_live_target(pi: &Option<ParaInfo>) -> (r: bool)
    ensures
        r == (pi matches Some(p) && !p.is_deregistering),
{
    match pi {
        Some(p) => !p.is_deregistering,
        None => false,
    }
}

/// Whether a preimage with this request status can be looked up at `slot`:
/// provided at or before it and not unrequested by then, or requested again
/// by then.
pub open spec fn available_at(status: LookupStatus, slot: u32) -> bool {
    match status {
        LookupStatus::Unprovided => false,
        LookupStatus::Provided { since } => since <= slot,
        LookupStatus::Unrequested { provided_since, unrequested_since } => provided_since <= slot
            && slot < unrequested_since,
        LookupStatus::Rerequested { provided_since, unrequested_at, rerequested_since } => (
        provided_since <= slot && slot < unrequested_at) || rerequested_since <= slot,
    }
}

/// Is the code with this request status available for lookup at the
/// work report's lookup anchor? No request is no availability.
pub fn is_available_at(status: Option<LookupStatus>, slot: u32) -> (r: bool)
    ensures
        r == (status matches Some(st) && available_at(st, slot)),
{
    match status {
        None => false,
        Some(LookupStatus::Unprovided) => false,
        Some(LookupStatus::Provided { since }) => since <= slot,
        Some(LookupStatus::Unrequested { provided_since, unrequested_since }) => provided_since
            <= slot && slot < unrequested_since,
        Some(LookupStatus::Rerequested { provided_since, unrequested_at, rerequested_since }) => (
        provided_since <= slot && slot < unrequested_at) || rerequested_since <= slot,
    }
}


/// What a para-targeted `Forget` does.
#[derive(Clone, Debug, PartialEq, Eq)]
pub enum ForgetDecision {
    /// Nothing: the running service code, or a para that does not exist.
    Ignore,
    /// Refused, with the entry logged: the para's validation code.
    Refuse(AccumulateLog),
    /// Release the para's reference (`remove_referencer`).
    Release,
}

/// A `Forget { target: Parachain(para_id), hash, len }`: Asset Hub cannot
/// forget the service's own running code (that would stop accumulation); a
/// dead target is a no-op; a para's active or announced validation code is
/// refused; anything else is released.
pub fn forget_decision(
    para_id: ParaId,
    hash: &Hash32,
    len: u32,
    service_code_hash: &Hash32,
    pi: &Option<ParaInfo>,
) -> (r: ForgetDecision)
    ensures
        para_id.0 == ASSET_HUB_PARA_ID && hash@ == service_code_hash@ ==> r == ForgetDecision::Ignore,
        !(para_id.0 == ASSET_HUB_PARA_ID && hash@ == service_code_hash@) ==> match pi {
            None => r == ForgetDecision::Ignore,
            Some(p) => if (p.validation_code matches Some(vc) && vc.hash.0@ == hash@ && vc.len == len)
                || (p.announced_upgrade matches Some(vc) && vc.hash.0@ == hash@ && vc.len == len) {
                r == ForgetDecision::Refuse(
                    AccumulateLog::CanNotForgetValidationCode { hash: *hash, len },
                )
            } else {
                r == ForgetDecision::Release
            },
        },
{
    if para_id.0 == ASSET_HUB_PARA_ID && hash_eq(hash, service_code_hash) {
        return ForgetDecision::Ignore;
    }
    match pi {
        None => ForgetDecision::Ignore,
        Some(p) => match forget_refusal(p, hash, len) {
            Some(log) => ForgetDecision::Refuse(log),
            None => ForgetDecision::Release,
        },
    }
}

/// An `UpgradeService` goes to JAM only when the new code's preimage
/// is actually available; otherwise this entry is logged.
pub fn service_upgrade_refusal(available: bool, code_hash: &Hash32) -> (r: Option<AccumulateLog>)
    ensures
        available ==> r is None,
        !available ==> r == Some(AccumulateLog::ServiceUpgradePreimageMissing { code_hash: *code_hash }),
{
    if available {
        None
    } else {
        Some(AccumulateLog::ServiceUpgradePreimageMissing { code_hash: *code_hash })
    }
}

} // verus!
