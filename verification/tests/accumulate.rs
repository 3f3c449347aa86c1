use parachain_service::hashing::blake2_256;
use parachain_service::head_commitment::HeadTracker;
use parachain_service::log::{
    AccumulateLog, InsufficientBalanceReason, StateBalanceRejection,
};
use parachain_service::management::{
    announce_code_upgrade, apply_code_upgrade, clean_up, finish_clean_up, force_validation_code,
    para_info_write_failed, set_head, set_state_balance, set_validation_code, CleanUpEnd,
    StateBalancePlan, UpgradeOutcome,
};
use parachain_service::package::{forget_refusal, is_available_at, is_live_target, process};
use parachain_service::para_info::ParaInfo;
use parachain_service::parasim::ParaInfoLite;
use parachain_service::state_balance::{
    add_referencer, apply_remove_kv, apply_set_kv, baseline_for, due_after_unrequest,
    forget_implication, release_last, remove_referencer, undo_kv_adjustment, AddReferencer,
    ForgetEffect, KvAdjustment, LookupStatus, ReleaseLast, RemoveReferencer, BASELINE_FOOTPRINT,
};
use parachain_service::constants::EXPUNGE_PERIOD;
use parachain_service::types::{ParaId, ValidationCodeHash, ValidationCodeRef, ASSET_HUB_PARA_ID};

fn code(tag: u8, len: u32) -> ValidationCodeRef {
    ValidationCodeRef { hash: ValidationCodeHash([tag; 32]), len }
}

fn para(head: Vec<u8>, total: u64, used: u64) -> ParaInfo {
    ParaInfo {
        head_data: head,
        validation_code: None,
        announced_upgrade: None,
        total_state_balance: total,
        used_state_balance: used,
        is_deregistering: false,
    }
}

// --- Lifecycle -------------------------------------------------------------

#[test]
fn registration_below_baseline_errors() {
    let mut heads = HeadTracker::new();
    let baseline = baseline_for(ParaId(7));
    match set_state_balance(ParaId(7), baseline - 1, None, &mut heads) {
        StateBalancePlan::Reject(log) => assert_eq!(
            log,
            AccumulateLog::StateBalanceUpdateRejected {
                para_id: ParaId(7),
                attempted: baseline - 1,
                reason: StateBalanceRejection::BelowUsed { current_total: 0, current_used: baseline },
            }
        ),
        StateBalancePlan::Write(_) => panic!("a registration below the baseline is refused"),
    }
    assert!(heads.touched().is_empty());
}

#[test]
fn registration_precharges_baseline_works() {
    let mut heads = HeadTracker::new();
    match set_state_balance(ParaId(7), BASELINE_FOOTPRINT + 5, None, &mut heads) {
        StateBalancePlan::Write(pi) => {
            assert!(pi.head_data.is_empty());
            assert_eq!(pi.total_state_balance, BASELINE_FOOTPRINT + 5);
            assert_eq!(pi.used_state_balance, BASELINE_FOOTPRINT);
            assert!(!pi.is_deregistering);
        },
        StateBalancePlan::Reject(_) => panic!("registration with headroom is accepted"),
    }
    // Registration gives the para its first head, which the commitment counts.
    assert_eq!(heads.touched(), vec![ParaId(7)]);
}

#[test]
fn state_balance_update_works() {
    let mut heads = HeadTracker::new();
    let existing = para(vec![1], 100, 40);
    match set_state_balance(ParaId(3), 40, Some(existing.clone()), &mut heads) {
        StateBalancePlan::Write(pi) => {
            assert_eq!(pi.total_state_balance, 40);
            assert_eq!(pi.used_state_balance, 40);
            assert_eq!(pi.head_data, vec![1]);
        },
        StateBalancePlan::Reject(_) => panic!("a total covering what is used is accepted"),
    }
    match set_state_balance(ParaId(3), 39, Some(existing), &mut heads) {
        StateBalancePlan::Reject(log) => assert_eq!(
            log,
            AccumulateLog::StateBalanceUpdateRejected {
                para_id: ParaId(3),
                attempted: 39,
                reason: StateBalanceRejection::BelowUsed { current_total: 100, current_used: 40 },
            }
        ),
        StateBalancePlan::Write(_) => panic!("stranding paid-for state is refused"),
    }
    let mut leaving = para(vec![1], 100, 40);
    leaving.is_deregistering = true;
    match set_state_balance(ParaId(3), 500, Some(leaving), &mut heads) {
        StateBalancePlan::Reject(log) => assert_eq!(
            log,
            AccumulateLog::StateBalanceUpdateRejected {
                para_id: ParaId(3),
                attempted: 500,
                reason: StateBalanceRejection::ParachainIsDeregistering,
            }
        ),
        StateBalancePlan::Write(_) => panic!("a deregistering para is left alone"),
    }
    assert!(heads.touched().is_empty());
}

#[test]
fn set_head_works() {
    let mut heads = HeadTracker::new();
    let mut pi = para(vec![1, 2], 10, 0);
    assert!(set_head(ParaId(4), &mut pi, vec![3], &mut heads));
    assert_eq!(pi.head_data, vec![3]);
    assert_eq!(heads.touched(), vec![ParaId(4)]);

    let mut leaving = para(vec![1, 2], 10, 0);
    leaving.is_deregistering = true;
    assert!(!set_head(ParaId(5), &mut leaving, vec![3], &mut heads));
    assert_eq!(leaving.head_data, vec![1, 2]);
    assert_eq!(heads.touched(), vec![ParaId(4)]);
}

#[test]
fn forced_code_releases_displaced_works() {
    let mut pi = para(vec![], 10, 0);
    pi.validation_code = Some(code(1, 10));
    pi.announced_upgrade = Some(code(2, 20));
    // The new code shares the active code's hash: only the announcement is released.
    assert_eq!(set_validation_code(&pi, &ValidationCodeHash([1; 32])), Some(vec![code(2, 20)]));
    assert_eq!(
        set_validation_code(&pi, &ValidationCodeHash([3; 32])),
        Some(vec![code(1, 10), code(2, 20)])
    );
    force_validation_code(&mut pi, code(3, 30));
    assert_eq!(pi.validation_code, Some(code(3, 30)));
    assert_eq!(pi.announced_upgrade, None);
    pi.is_deregistering = true;
    assert_eq!(set_validation_code(&pi, &ValidationCodeHash([4; 32])), None);
}

#[test]
fn clean_up_too_much_state_errors() {
    let mut pi = para(vec![], u64::MAX, BASELINE_FOOTPRINT + 187 + 10 + 1);
    pi.validation_code = Some(code(1, 10));
    assert_eq!(clean_up(ParaId(9), &pi), Err(AccumulateLog::TooMuchStateHeld));
    pi.used_state_balance -= 1;
    assert_eq!(clean_up(ParaId(9), &pi), Ok(vec![code(1, 10)]));
}

#[test]
fn clean_up_end_works() {
    let mut heads = HeadTracker::new();
    let mut pi = para(vec![8], 10, 0);
    assert_eq!(finish_clean_up(ParaId(2), &mut pi, true, &mut heads), CleanUpEnd::Deregistering);
    assert!(pi.is_deregistering);
    assert!(heads.touched().is_empty());
    let mut gone = para(vec![8], 10, 0);
    assert_eq!(
        finish_clean_up(ParaId(ASSET_HUB_PARA_ID), &mut gone, false, &mut heads),
        CleanUpEnd::Remove { clear_staged_keys: true }
    );
    assert_eq!(
        finish_clean_up(ParaId(2), &mut gone, false, &mut heads),
        CleanUpEnd::Remove { clear_staged_keys: false }
    );
    assert_eq!(heads.touched(), vec![ParaId(ASSET_HUB_PARA_ID), ParaId(2)]);
}

#[test]
fn code_upgrade_lifecycle_works() {
    let mut pi = para(vec![], 10, 0);
    pi.validation_code = Some(code(1, 10));
    // Announcing the running code is a no-op.
    assert_eq!(announce_code_upgrade(&mut pi, code(1, 10), true, true), UpgradeOutcome::Unchanged);
    // Not referenced, or not available: refused.
    assert_eq!(
        announce_code_upgrade(&mut pi, code(2, 20), false, true),
        UpgradeOutcome::Rejected(AccumulateLog::CodeUpgradeNotAvailable { hash: [2; 32], len: 20 })
    );
    assert_eq!(
        announce_code_upgrade(&mut pi, code(2, 20), true, false),
        UpgradeOutcome::Rejected(AccumulateLog::CodeUpgradeNotAvailable { hash: [2; 32], len: 20 })
    );
    assert_eq!(pi.announced_upgrade, None);
    assert_eq!(announce_code_upgrade(&mut pi, code(2, 20), true, true), UpgradeOutcome::Changed);
    assert_eq!(pi.announced_upgrade, Some(code(2, 20)));
    // Same hash, other length: another code, not the announced one.
    assert_eq!(
        apply_code_upgrade(&mut pi, code(2, 21)),
        UpgradeOutcome::Rejected(AccumulateLog::CodeUpgradeNotAnnounced { hash: [2; 32], len: 21 })
    );
    assert_eq!(apply_code_upgrade(&mut pi, code(2, 20)), UpgradeOutcome::Changed);
    assert_eq!(pi.validation_code, Some(code(2, 20)));
    assert_eq!(pi.announced_upgrade, None);
}

#[test]
fn para_info_write_failed_works() {
    assert_eq!(
        para_info_write_failed(),
        AccumulateLog::InsufficientStateBalance { reason: InsufficientBalanceReason::ParaInfo }
    );
}

/// The parasim record is the real record's layout, byte for byte.
#[test]
fn parasim_para_info_is_byte_compatible() {
    let head = vec![1u8, 2, 3, 4];
    let real = ParaInfo {
        head_data: head.clone(),
        validation_code: None,
        announced_upgrade: None,
        total_state_balance: 0,
        used_state_balance: 0,
        is_deregistering: false,
    };
    let lite = ParaInfoLite::with_head(head);
    assert_eq!(lite.encode(), real.encode());
}

#[test]
fn para_info_encoding_works() {
    let mut pi = para(vec![5, 6], 64, 1);
    pi.validation_code = Some(code(9, 70));
    pi.is_deregistering = true;
    let mut expected = vec![8u8, 5, 6, 1];
    expected.extend_from_slice(&[9; 32]);
    expected.extend_from_slice(&[0x19, 0x01]); // compact 70
    expected.push(0);
    expected.extend_from_slice(&[0x01, 0x01]); // compact 64
    expected.push(4); // compact 1
    expected.push(1);
    assert_eq!(pi.encode(), expected);
}

// --- Referencers -------------------------------------------------------------

#[test]
fn first_referencer_solicits_works() {
    let pi = para(vec![], 1_000, 0);
    match add_referencer(ParaId(1), &[7; 32], 13, None, &vec![], &pi) {
        AddReferencer::Charge(plan) => {
            assert_eq!(plan.delta, 200);
            assert_eq!(plan.entry, vec![ParaId(1)]);
            assert!(plan.solicit);
            assert!(plan.ghosts.is_empty());
            assert_eq!(plan.rescued_entry, None);
        },
        _ => panic!("a para with headroom is charged"),
    }
    // A second referencer pays too, but the request is already live.
    match add_referencer(ParaId(2), &[7; 32], 13, Some(LookupStatus::Provided { since: 1 }), &vec![ParaId(1)], &pi) {
        AddReferencer::Charge(plan) => {
            assert_eq!(plan.entry, vec![ParaId(1), ParaId(2)]);
            assert!(!plan.solicit);
        },
        _ => panic!("a para with headroom is charged"),
    }
}

#[test]
fn referencer_without_headroom_errors() {
    let pi = para(vec![], 199, 0);
    match add_referencer(ParaId(1), &[7; 32], 13, None, &vec![], &pi) {
        AddReferencer::Rejected(log) => assert_eq!(
            log,
            AccumulateLog::InsufficientStateBalance {
                reason: InsufficientBalanceReason::Solicit { hash: [7; 32], len: 13 },
            }
        ),
        _ => panic!("no headroom, no reference"),
    }
}

#[test]
fn rescue_drops_ghosts_works() {
    let pi = para(vec![], 1_000, 0);
    let unrequested = Some(LookupStatus::Unrequested { provided_since: 1, unrequested_since: 5 });
    match add_referencer(ParaId(3), &[7; 32], 13, unrequested, &vec![ParaId(1), ParaId(2)], &pi) {
        AddReferencer::Charge(plan) => {
            assert_eq!(plan.ghosts, vec![ParaId(1), ParaId(2)]);
            assert_eq!(plan.rescued_entry, Some(vec![ParaId(3)]));
            assert!(plan.solicit);
        },
        _ => panic!("a rescue with headroom is charged"),
    }
    // Already a referencer: no charge, but a rescue still solicits.
    match add_referencer(ParaId(1), &[7; 32], 13, unrequested, &vec![ParaId(1)], &pi) {
        AddReferencer::Already { solicit } => assert!(solicit),
        _ => panic!("an existing referencer is not charged again"),
    }
    match add_referencer(ParaId(1), &[7; 32], 13, None, &vec![ParaId(1)], &pi) {
        AddReferencer::Already { solicit } => assert!(!solicit),
        _ => panic!("an existing referencer is not charged again"),
    }
}

#[test]
fn remove_referencer_works() {
    assert!(matches!(remove_referencer(ParaId(1), 5, None), RemoveReferencer::NotReferencer));
    assert!(matches!(
        remove_referencer(ParaId(1), 5, Some(&vec![ParaId(2)])),
        RemoveReferencer::NotReferencer
    ));
    match remove_referencer(ParaId(2), 5, Some(&vec![ParaId(1), ParaId(2), ParaId(3)])) {
        RemoveReferencer::Leave { entry, delta } => {
            assert_eq!(entry, vec![ParaId(1), ParaId(3)]);
            assert_eq!(delta, 192);
        },
        _ => panic!("a non-last referencer leaves at once"),
    }
    match remove_referencer(ParaId(2), 5, Some(&vec![ParaId(2)])) {
        RemoveReferencer::Last { delta } => assert_eq!(delta, 192),
        _ => panic!("the last referencer goes through JAM's forget"),
    }
}

#[test]
fn forget_implication_works() {
    let t = 100;
    assert_eq!(forget_implication(LookupStatus::Unprovided, 5, t), ForgetEffect::Drop);
    assert_eq!(forget_implication(LookupStatus::Provided { since: 1 }, 5, t), ForgetEffect::Unrequest);
    let unrequested = LookupStatus::Unrequested { provided_since: 1, unrequested_since: 10 };
    assert_eq!(
        forget_implication(unrequested, 110, t),
        ForgetEffect::NotYetExpunge { success_after: 110 }
    );
    assert_eq!(forget_implication(unrequested, 111, t), ForgetEffect::Drop);
    let rerequested =
        LookupStatus::Rerequested { provided_since: 1, unrequested_at: 10, rerequested_since: 20 };
    assert_eq!(
        forget_implication(rerequested, 50, t),
        ForgetEffect::NotYetUnrequest { success_after: 110 }
    );
    assert_eq!(forget_implication(rerequested, 111, t), ForgetEffect::Unrequest);
}

#[test]
fn release_last_works() {
    let t = 100;
    assert_eq!(release_last(None, 5, t), ReleaseLast::Expunge);
    assert_eq!(release_last(Some(LookupStatus::Unprovided), 5, t), ReleaseLast::ForgetAndExpunge);
    assert_eq!(release_last(Some(LookupStatus::Provided { since: 1 }), 5, t), ReleaseLast::ForgetAndRetain);
    let unrequested = LookupStatus::Unrequested { provided_since: 1, unrequested_since: 10 };
    assert_eq!(release_last(Some(unrequested), 50, t), ReleaseLast::Retain { due: 110 });
    assert_eq!(due_after_unrequest(Some(unrequested), 50, t), 110);
    assert_eq!(due_after_unrequest(None, 50, t), 50 + EXPUNGE_PERIOD);
}

#[test]
fn set_kv_charges_and_refunds_works() {
    // A fresh entry pays its full footprint.
    let mut pi = para(vec![], 1_000, 0);
    let adj = apply_set_kv(&mut pi, &[1, 2, 3], 5, None).unwrap();
    assert_eq!(adj, KvAdjustment { grow: true, amount: 49 + 1 + 3 + 1 + 5 });
    assert_eq!(pi.used_state_balance, 59);
    // An overwrite pays only the value-size difference; a smaller value refunds.
    let adj = apply_set_kv(&mut pi, &[1, 2, 3], 2, Some(5)).unwrap();
    assert_eq!(adj, KvAdjustment { grow: false, amount: 3 });
    assert_eq!(pi.used_state_balance, 56);
    // A failed entry write undoes the adjustment.
    undo_kv_adjustment(&mut pi, adj);
    assert_eq!(pi.used_state_balance, 59);
    assert_eq!(apply_remove_kv(3, Some(5)), Some(59));
    assert_eq!(apply_remove_kv(3, None), None);
}

#[test]
fn set_kv_without_headroom_errors() {
    let mut pi = para(vec![], 58, 0);
    let r = apply_set_kv(&mut pi, &[1, 2, 3], 5, None);
    assert_eq!(
        r,
        Err(AccumulateLog::InsufficientStateBalance {
            reason: InsufficientBalanceReason::SetKV { key_hash: blake2_256(&[1, 2, 3]) },
        })
    );
    assert_eq!(pi.used_state_balance, 0);
}

// --- Packages ----------------------------------------------------------------

#[test]
fn candidate_acceptance_works() {
    let head = vec![1u8, 2, 3];
    let parent = blake2_256(&head);
    let mut pi = para(head.clone(), 10, 0);
    pi.validation_code = Some(code(4, 40));
    let mut heads = HeadTracker::new();

    // Built on another head, or run with another code, or carrying a restricted message.
    let mut stored = Some(pi.clone());
    assert!(!process(ParaId(1), &mut stored, &[0; 32], code(4, 40), true, vec![9], &mut heads));
    assert!(!process(ParaId(1), &mut stored, &parent, code(4, 41), true, vec![9], &mut heads));
    assert!(!process(ParaId(1), &mut stored, &parent, code(4, 40), false, vec![9], &mut heads));
    let mut none: Option<ParaInfo> = None;
    assert!(!process(ParaId(1), &mut none, &parent, code(4, 40), true, vec![9], &mut heads));
    assert!(heads.touched().is_empty());

    assert!(process(ParaId(1), &mut stored, &parent, code(4, 40), true, vec![9], &mut heads));
    assert_eq!(stored.unwrap().head_data, vec![9]);
    assert_eq!(heads.touched(), vec![ParaId(1)]);

    let mut leaving = pi.clone();
    leaving.is_deregistering = true;
    let mut leaving = Some(leaving);
    assert!(!process(ParaId(2), &mut leaving, &parent, code(4, 40), true, vec![9], &mut heads));
}

#[test]
fn forget_of_validation_code_errors() {
    let mut pi = para(vec![], 10, 0);
    pi.validation_code = Some(code(4, 40));
    pi.announced_upgrade = Some(code(5, 50));
    assert_eq!(
        forget_refusal(&pi, &[4; 32], 40),
        Some(AccumulateLog::CanNotForgetValidationCode { hash: [4; 32], len: 40 })
    );
    assert_eq!(
        forget_refusal(&pi, &[5; 32], 50),
        Some(AccumulateLog::CanNotForgetValidationCode { hash: [5; 32], len: 50 })
    );
    assert_eq!(forget_refusal(&pi, &[4; 32], 41), None);
    assert!(is_live_target(&Some(pi.clone())));
    assert!(!is_live_target(&None));
    pi.is_deregistering = true;
    assert!(!is_live_target(&Some(pi)));
}

#[test]
fn availability_at_anchor_works() {
    assert!(!is_available_at(None, 5));
    assert!(!is_available_at(Some(LookupStatus::Unprovided), 5));
    assert!(is_available_at(Some(LookupStatus::Provided { since: 5 }), 5));
    assert!(!is_available_at(Some(LookupStatus::Provided { since: 6 }), 5));
    let unrequested = LookupStatus::Unrequested { provided_since: 2, unrequested_since: 8 };
    assert!(is_available_at(Some(unrequested), 7));
    assert!(!is_available_at(Some(unrequested), 8));
    let rerequested =
        LookupStatus::Rerequested { provided_since: 2, unrequested_at: 8, rerequested_since: 12 };
    assert!(!is_available_at(Some(rerequested), 10));
    assert!(is_available_at(Some(rerequested), 12));
}

// --- Logs and foreign services -------------------------------------------------

use parachain_service::foreign_services::{
    create, creation_logged, eject, set_supervisor, solicit, store_op, CreateAnswer,
};
use parachain_service::log::{
    append_accumulate, append_refine, prune_below, truncate_auth_trace, LogEntry, RefineLog,
    ServiceCreationResult, ServiceEjectError, ServiceSolicitError, ServiceStoreError,
    ServiceSupervisorError,
};
use parachain_service::package::{forget_decision, service_upgrade_refusal, ForgetDecision};

#[test]
fn log_append_and_prune_works() {
    let mut log = Vec::new();
    assert!(!append_refine(&mut log, false, 5, RefineLog::InvalidCodeHash, truncate_auth_trace(&[])));
    assert!(log.is_empty());
    assert!(append_refine(&mut log, true, 5, RefineLog::InvalidCodeHash, truncate_auth_trace(&[1])));
    assert!(!append_accumulate(&mut log, true, 6, vec![]));
    assert!(!append_accumulate(&mut log, false, 6, vec![AccumulateLog::TooMuchStateHeld]));
    assert!(append_accumulate(&mut log, true, 7, vec![AccumulateLog::TooMuchStateHeld]));
    assert_eq!(log.len(), 2);
    assert!(prune_below(&mut log, 6));
    assert_eq!(log.len(), 1);
    assert!(matches!(log[0].1, LogEntry::Accumulate { .. }));
    let mut empty = Vec::new();
    assert!(!prune_below(&mut empty, 6));
}

#[test]
fn foreign_service_refusals_errors() {
    assert_eq!(
        store_op(3, true),
        AccumulateLog::ServiceStoreFailed { service: 3, error: ServiceStoreError::NotSupervised }
    );
    assert_eq!(
        store_op(3, false),
        AccumulateLog::ServiceStoreFailed { service: 3, error: ServiceStoreError::UnknownService }
    );
    assert_eq!(
        solicit(3, false),
        AccumulateLog::ServiceSolicitFailed { service: 3, error: ServiceSolicitError::UnknownService }
    );
    assert_eq!(
        eject(3, 3, false),
        AccumulateLog::ServiceEjectFailed { service: 3, error: ServiceEjectError::TargetIsSelf }
    );
    assert_eq!(
        eject(3, 4, true),
        AccumulateLog::ServiceEjectFailed { service: 3, error: ServiceEjectError::NotSupervised }
    );
    assert_eq!(
        set_supervisor(3, true, false),
        AccumulateLog::ServiceSupervisorFailed {
            service: 3,
            error: ServiceSupervisorError::UnknownNewSupervisor,
        }
    );
    assert_eq!(
        create(9, true, false),
        Some(AccumulateLog::ServiceCreation { id: 9, result: ServiceCreationResult::CannotAfford })
    );
    assert_eq!(create(9, false, false), None);
    assert_eq!(
        creation_logged(9, CreateAnswer::Created(44)),
        AccumulateLog::ServiceCreation { id: 9, result: ServiceCreationResult::Created(44) }
    );
    assert_eq!(
        creation_logged(9, CreateAnswer::StorageFull),
        AccumulateLog::ServiceCreation { id: 9, result: ServiceCreationResult::IdTaken }
    );
}

#[test]
fn forget_targets_works() {
    let mut pi = para(vec![], 10, 0);
    pi.validation_code = Some(code(4, 40));
    let live = Some(pi);
    // Asset Hub cannot forget the service's own code.
    assert_eq!(
        forget_decision(ParaId(ASSET_HUB_PARA_ID), &[9; 32], 1, &[9; 32], &live),
        ForgetDecision::Ignore
    );
    assert_eq!(forget_decision(ParaId(2), &[9; 32], 1, &[9; 32], &None), ForgetDecision::Ignore);
    assert_eq!(
        forget_decision(ParaId(2), &[4; 32], 40, &[9; 32], &live),
        ForgetDecision::Refuse(AccumulateLog::CanNotForgetValidationCode { hash: [4; 32], len: 40 })
    );
    assert_eq!(forget_decision(ParaId(2), &[9; 32], 1, &[9; 32], &live), ForgetDecision::Release);
    assert_eq!(service_upgrade_refusal(true, &[1; 32]), None);
    assert_eq!(
        service_upgrade_refusal(false, &[1; 32]),
        Some(AccumulateLog::ServiceUpgradePreimageMissing { code_hash: [1; 32] })
    );
}
