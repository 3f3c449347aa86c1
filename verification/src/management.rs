//! The parachain lifecycle calls only the Coretime chain may make,
//! and the code-upgrade lifecycle a parachain drives itself, as
//! decisions over the para's record. The caller reads the record, applies
//! the decision and writes the record back; a failed write of the record is
//! logged as `InsufficientStateBalance { reason: ParaInfo }`.

use crate::head_commitment::{touched_from, HeadTracker};
use crate::log::{AccumulateLog, InsufficientBalanceReason, StateBalanceRejection};
use crate::para_info::ParaInfo;
use crate::state_balance::{baseline_for, baseline_of, clean_up_allowed_balance};
use crate::types::{Balance, ParaId, ValidationCodeHash, ValidationCodeRef, ASSET_HUB_PARA_ID};
use vstd::prelude::*;

verus! {

/// The log entry of a para-record write that hit the state-balance backstop.
pub fn para_info_write_failed() -> (r: AccumulateLog)
    ensures
        r == (AccumulateLog::InsufficientStateBalance { reason: InsufficientBalanceReason::ParaInfo }),
{
    AccumulateLog::InsufficientStateBalance { reason: InsufficientBalanceReason::ParaInfo }
}

/// What `parachain_set_state_balance` decided.
pub enum StateBalancePlan {
    /// Refused: nothing is written, the entry is logged.
    Reject(AccumulateLog),
    /// Write this record: a registration, or the new total.
    Write(ParaInfo),
}

/// The sole creator of a para's record. On an unused ParaId
/// (`existing` is `None`) the record is created with the baseline footprint
/// pre-charged, unless `new_total` is below it; registration gives the para
/// its first head, so it is touched. On an existing para the total is
/// overwritten iff the para is not deregistering and `new_total` covers what
/// it already uses.
pub fn set_state_balance(
    para_id: ParaId,
    new_total: Balance,
    existing: Option<ParaInfo>,
    heads: &mut HeadTracker,
) -> (r: StateBalancePlan)
    ensures
        match existing {
            None => if new_total < baseline_of(para_id) {
                r == StateBalancePlan::Reject(
                    AccumulateLog::StateBalanceUpdateRejected {
                        para_id,
                        attempted: new_total,
                        reason: StateBalanceRejection::BelowUsed {
                            current_total: 0,
                            current_used: baseline_of(para_id) as u64,
                        },
                    },
                ) && final(heads).snapshots() == old(heads).snapshots()
            } else {
                (r matches StateBalancePlan::Write(pi) && pi.head_data@.len() == 0
                    && pi.validation_code is None && pi.announced_upgrade is None
                    && pi.total_state_balance == new_total && pi.used_state_balance
                    == baseline_of(para_id) && !pi.is_deregistering) && touched_from(
                    old(heads).snapshots(),
                    final(heads).snapshots(),
                    para_id,
                    None,
                )
            },
            Some(pi) => final(heads).snapshots() == old(heads).snapshots() && if pi.is_deregistering {
                r == StateBalancePlan::Reject(
                    AccumulateLog::StateBalanceUpdateRejected {
                        para_id,
                        attempted: new_total,
                        reason: StateBalanceRejection::ParachainIsDeregistering,
                    },
                )
            } else if new_total < pi.used_state_balance {
                r == StateBalancePlan::Reject(
                    AccumulateLog::StateBalanceUpdateRejected {
                        para_id,
                        attempted: new_total,
                        reason: StateBalanceRejection::BelowUsed {
                            current_total: pi.total_state_balance,
                            current_used: pi.used_state_balance,
                        },
                    },
                )
            } else {
                r == StateBalancePlan::Write(ParaInfo { total_state_balance: new_total, ..pi })
            },
        },
{
    match existing {
        None => {
            let baseline = baseline_for(para_id);
            if new_total < baseline {
                return StateBalancePlan::Reject(
                    AccumulateLog::StateBalanceUpdateRejected {
                        para_id,
                        attempted: new_total,
                        reason: StateBalanceRejection::BelowUsed {
                            current_total: 0,
                            current_used: baseline,
                        },
                    },
                );
            }
            heads.touch(para_id, None);
            StateBalancePlan::Write(
                ParaInfo {
                    head_data: Vec::new(),
                    validation_code: None,
                    announced_upgrade: None,
                    total_state_balance: new_total,
                    used_state_balance: baseline,
                    is_deregistering: false,
                },
            )
        },
        Some(mut pi) => {
            if pi.is_deregistering {
                return StateBalancePlan::Reject(
                    AccumulateLog::StateBalanceUpdateRejected {
                        para_id,
                        attempted: new_total,
                        reason: StateBalanceRejection::ParachainIsDeregistering,
                    },
                );
            }
            if new_total < pi.used_state_balance {
                return StateBalancePlan::Reject(
                    AccumulateLog::StateBalanceUpdateRejected {
                        para_id,
                        attempted: new_total,
                        reason: StateBalanceRejection::BelowUsed {
                            current_total: pi.total_state_balance,
                            current_used: pi.used_state_balance,
                        },
                    },
                );
            }
            pi.total_state_balance = new_total;
            StateBalancePlan::Write(pi)
        },
    }
}

/// Replace the head of a registered para (`pi` is its record).
/// A deregistering para is left alone; otherwise the para is touched with its
/// pre-update head and the record takes `new_head`. Returns whether the
/// record changed and must be written.
pub fn set_head(para_id: ParaId, pi: &mut ParaInfo, new_head: Vec<u8>, heads: &mut HeadTracker) -> (write:
    bool)
    ensures
        write == !old(pi).is_deregistering,
        write ==> *final(pi) == (ParaInfo { head_data: new_head, ..*old(pi) }) && touched_from(
            old(heads).snapshots(),
            final(heads).snapshots(),
            para_id,
            Some(old(pi).head_data@),
        ),
        !write ==> *final(pi) == *old(pi) && final(heads).snapshots() == old(heads).snapshots(),
{
    if pi.is_deregistering {
        return false;
    }
    heads.touch(para_id, Some(pi.head_data.as_slice()));
    pi.head_data = new_head;
    true
}

/// Does `code` have hash `hash` (whatever its length)?
pub open spec fn has_hash(code: Option<ValidationCodeRef>, hash: ValidationCodeHash) -> bool {
    code matches Some(vc) && vc.hash.0@ == hash.0@
}

/// A forced code replacement displaces the para's active and announced
/// codes, each unless it has the new code's hash; these are released, in
/// that order. `None` for a deregistering para, which is left alone.
pub fn set_validation_code(pi: &ParaInfo, new_hash: &ValidationCodeHash) -> (r: Option<
    Vec<ValidationCodeRef>,
>)
    ensures
        pi.is_deregistering ==> r is None,
        !pi.is_deregistering ==> (r matches Some(codes) && codes@ == (match pi.validation_code {
            Some(vc) if !has_hash(pi.validation_code, *new_hash) => seq![vc],
            _ => Seq::<ValidationCodeRef>::empty(),
        }) + (match pi.announced_upgrade {
            Some(vc) if !has_hash(pi.announced_upgrade, *new_hash) => seq![vc],
            _ => Seq::<ValidationCodeRef>::empty(),
        })),
{
    if pi.is_deregistering {
        return None;
    }
    let mut codes: Vec<ValidationCodeRef> = Vec::new();
    if let Some(vc) = pi.validation_code {
        if !crate::hashing::hash_eq(&vc.hash.0, &new_hash.0) {
            codes.push(vc);
        }
    }
    let ghost first = codes@;
    if let Some(vc) = pi.announced_upgrade {
        if !crate::hashing::hash_eq(&vc.hash.0, &new_hash.0) {
            codes.push(vc);
        }
    }
    proof {
        assert(codes@ =~= first + (match pi.announced_upgrade {
            Some(vc) if !has_hash(pi.announced_upgrade, *new_hash) => seq![vc],
            _ => Seq::<ValidationCodeRef>::empty(),
        }));
    }
    Some(codes)
}

/// The record after a forced code replacement: `new_code` is active and no
/// announcement stands.
pub fn force_validation_code(pi: &mut ParaInfo, new_code: ValidationCodeRef)
    ensures
        *final(pi) == (ParaInfo {
            validation_code: Some(new_code),
            announced_upgrade: None,
            ..*old(pi)
        }),
{
    pi.validation_code = Some(new_code);
    pi.announced_upgrade = None;
}

/// The codes a para holds, active first, then announced.
pub open spec fn held_codes(pi: ParaInfo) -> Seq<ValidationCodeRef> {
    (match pi.validation_code {
        Some(vc) => seq![vc],
        None => Seq::<ValidationCodeRef>::empty(),
    }) + (match pi.announced_upgrade {
        Some(vc) => seq![vc],
        None => Seq::<ValidationCodeRef>::empty(),
    })
}

/// The start of a deregistration: refused with `TooMuchStateHeld`
/// unless the para holds only its baseline plus its code(s); otherwise the
/// codes to release, active first.
pub fn clean_up(para_id: ParaId, pi: &ParaInfo) -> (r: Result<Vec<ValidationCodeRef>, AccumulateLog>)
    ensures
        ({
            let allowed = baseline_of(para_id) + (match pi.validation_code {
                Some(vc) => 187 + vc.len,
                None => 0,
            }) + (match pi.announced_upgrade {
                Some(vc) => 187 + vc.len,
                None => 0,
            });
            if pi.used_state_balance > allowed {
                r == Err::<Vec<ValidationCodeRef>, AccumulateLog>(AccumulateLog::TooMuchStateHeld)
            } else {
                r matches Ok(codes) && codes@ == held_codes(*pi)
            }
        }),
{
    if pi.used_state_balance > clean_up_allowed_balance(pi, para_id) {
        return Err(AccumulateLog::TooMuchStateHeld);
    }
    let mut codes: Vec<ValidationCodeRef> = Vec::new();
    if let Some(vc) = pi.validation_code {
        codes.push(vc);
    }
    let ghost first = codes@;
    if let Some(vc) = pi.announced_upgrade {
        codes.push(vc);
    }
    proof {
        assert(codes@ =~= held_codes(*pi));
    }
    Ok(codes)
}

/// How a deregistration ends once its codes were released.
#[derive(Clone, Copy, Debug, PartialEq, Eq, Structural)]
pub enum CleanUpEnd {
    /// Some code awaits its second, expunging forget: the record (now marked
    /// deregistering) is written back and the para stays until then.
    Deregistering,
    /// Every code is gone: drop the para's record and log, and the staged
    /// validator keys too for Asset Hub.
    Remove { clear_staged_keys: bool },
}

/// The end of a deregistration, given the para's record as it now
/// stands and whether any code release was retained. A full removal touches
/// the para with its last head, so a re-registration later in the block does
/// not mistake the prior head for absent.
pub fn finish_clean_up(para_id: ParaId, pi: &mut ParaInfo, retained: bool, heads: &mut HeadTracker) -> (r:
    CleanUpEnd)
    ensures
        retained ==> r == CleanUpEnd::Deregistering && *final(pi) == (ParaInfo {
            is_deregistering: true,
            ..*old(pi)
        }) && final(heads).snapshots() == old(heads).snapshots(),
        !retained ==> r == (CleanUpEnd::Remove { clear_staged_keys: para_id.0 == ASSET_HUB_PARA_ID })
            && *final(pi) == *old(pi) && touched_from(
            old(heads).snapshots(),
            final(heads).snapshots(),
            para_id,
            Some(old(pi).head_data@),
        ),
{
    if retained {
        pi.is_deregistering = true;
        return CleanUpEnd::Deregistering;
    }
    heads.touch(para_id, Some(pi.head_data.as_slice()));
    CleanUpEnd::Remove { clear_staged_keys: para_id.0 == ASSET_HUB_PARA_ID }
}

/// Is `code` exactly `target` (hash and length)?
fn same_code(code: &Option<ValidationCodeRef>, target: &ValidationCodeRef) -> (r: bool)
    ensures
        r == (code matches Some(vc) && vc.hash.0@ == target.hash.0@ && vc.len == target.len),
{
    match code {
        Some(vc) => vc.is(&target.hash.0, target.len),
        None => false,
    }
}

/// What a code-upgrade message did to the record.
#[derive(Clone, Debug, PartialEq, Eq)]
pub enum UpgradeOutcome {
    /// Nothing to do.
    Unchanged,
    /// Refused: the entry is logged, the record unchanged.
    Rejected(AccumulateLog),
    /// The record changed and must be written.
    Changed,
}

/// `announceCodeUpgrade`: declare the code a later `Apply` may switch
/// to. Announcing the running code is a no-op; the code must be referenced
/// by the para and available at the work report's lookup anchor; a standing
/// announcement is superseded.
pub fn announce_code_upgrade(
    pi: &mut ParaInfo,
    new_code: ValidationCodeRef,
    referenced: bool,
    available: bool,
) -> (r: UpgradeOutcome)
    ensures
        (old(pi).validation_code matches Some(vc) && vc.hash.0@ == new_code.hash.0@ && vc.len
            == new_code.len) ==> r == UpgradeOutcome::Unchanged && *final(pi) == *old(pi),
        !(old(pi).validation_code matches Some(vc) && vc.hash.0@ == new_code.hash.0@ && vc.len
            == new_code.len) ==> if !referenced || !available {
            r == UpgradeOutcome::Rejected(
                AccumulateLog::CodeUpgradeNotAvailable { hash: new_code.hash.0, len: new_code.len },
            ) && *final(pi) == *old(pi)
        } else {
            r == UpgradeOutcome::Changed && *final(pi) == (ParaInfo {
                announced_upgrade: Some(new_code),
                ..*old(pi)
            })
        },
{
    if same_code(&pi.validation_code, &new_code) {
        return UpgradeOutcome::Unchanged;
    }
    if !referenced || !available {
        return UpgradeOutcome::Rejected(
            AccumulateLog::CodeUpgradeNotAvailable { hash: new_code.hash.0, len: new_code.len },
        );
    }
    pi.announced_upgrade = Some(new_code);
    UpgradeOutcome::Changed
}

/// `applyCodeUpgrade`: switch the active code to the announced one; any
/// other code is refused with `CodeUpgradeNotAnnounced`.
pub fn apply_code_upgrade(pi: &mut ParaInfo, new_code: ValidationCodeRef) -> (r: UpgradeOutcome)
    ensures
        (old(pi).announced_upgrade matches Some(vc) && vc.hash.0@ == new_code.hash.0@ && vc.len
            == new_code.len) ==> r == UpgradeOutcome::Changed && *final(pi) == (ParaInfo {
            validation_code: Some(new_code),
            announced_upgrade: None,
            ..*old(pi)
        }),
        !(old(pi).announced_upgrade matches Some(vc) && vc.hash.0@ == new_code.hash.0@ && vc.len
            == new_code.len) ==> r == UpgradeOutcome::Rejected(
            AccumulateLog::CodeUpgradeNotAnnounced { hash: new_code.hash.0, len: new_code.len },
        ) && *final(pi) == *old(pi),
{
    if !same_code(&pi.announced_upgrade, &new_code) {
        return UpgradeOutcome::Rejected(
            AccumulateLog::CodeUpgradeNotAnnounced { hash: new_code.hash.0, len: new_code.len },
        );
    }
    pi.validation_code = Some(new_code);
    pi.announced_upgrade = None;
    UpgradeOutcome::Changed
}

} // verus!
