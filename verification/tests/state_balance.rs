use parachain_service::constants::MAX_INCOMING_TRANSFERS;
use parachain_service::para_info::ParaInfo;
use parachain_service::state_balance::{
    baseline_for, clean_up_allowed_balance, compact_len, excess_transfer_footprint,
    kv_entry_footprint, preimage_footprint, reattribute_transfer_queue, transfer_covers_own_slot,
    ASSET_HUB_GLOBAL_ITEMS_FOOTPRINT, BASELINE_FOOTPRINT, INCOMING_TRANSFER_ENTRY_FOOTPRINT,
    PARA_INFO_FOOTPRINT, PARA_LOG_FOOTPRINT,
};
use parachain_service::types::{ParaId, ValidationCodeHash, ValidationCodeRef, ASSET_HUB_PARA_ID};

#[test]
fn preimage_footprint_works() {
    assert_eq!(preimage_footprint(0), 187);
    assert_eq!(preimage_footprint(1000), 1187);
}

#[test]
fn kv_entry_footprint_works() {
    assert_eq!(kv_entry_footprint(3, 5), 49 + 1 + 3 + 1 + 5);
    assert_eq!(kv_entry_footprint(100, 20_000), 49 + 2 + 100 + 4 + 20_000);
}

#[test]
fn baseline_footprint_works() {
    assert_eq!(PARA_INFO_FOOTPRINT, 4_262 - 16);
    assert_eq!(PARA_LOG_FOOTPRINT, 65_585);
    assert_eq!(BASELINE_FOOTPRINT, 69_847 - 16);
}

#[test]
fn asset_hub_footprint_works() {
    assert_eq!(INCOMING_TRANSFER_ENTRY_FOOTPRINT, 195);
    assert_eq!(
        ASSET_HUB_GLOBAL_ITEMS_FOOTPRINT,
        1_237_308 + (MAX_INCOMING_TRANSFERS as u64) * 195
    );
}

#[test]
fn compact_len_works() {
    assert_eq!(compact_len(0), 1);
    assert_eq!(compact_len(63), 1);
    assert_eq!(compact_len(64), 2);
    assert_eq!(compact_len(16383), 2);
    assert_eq!(compact_len(16384), 4);
    assert_eq!(compact_len((1 << 30) - 1), 4);
    assert_eq!(compact_len(1 << 30), 5);
    assert_eq!(compact_len(u64::MAX), 9);
}

#[test]
fn excess_transfer_footprint_works() {
    assert_eq!(excess_transfer_footprint(0), 0);
    assert_eq!(excess_transfer_footprint(1000), 0);
    assert_eq!(excess_transfer_footprint(1003), 3 * 195);
    assert!(transfer_covers_own_slot(195));
    assert!(!transfer_covers_own_slot(194));
}

fn info(total: u64, used: u64) -> ParaInfo {
    ParaInfo {
        head_data: vec![1, 2, 3],
        validation_code: None,
        announced_upgrade: None,
        total_state_balance: total,
        used_state_balance: used,
        is_deregistering: false,
    }
}

#[test]
fn reattribute_transfer_queue_moves_both_balances_works() {
    let mut pi = info(10_000, 4_000);
    assert!(reattribute_transfer_queue(&mut pi, 999, 1002));
    assert_eq!((pi.total_state_balance, pi.used_state_balance), (10_000 + 390, 4_000 + 390));
    assert!(reattribute_transfer_queue(&mut pi, 1002, 0));
    assert_eq!((pi.total_state_balance, pi.used_state_balance), (10_000, 4_000));
    assert!(!reattribute_transfer_queue(&mut pi, 5, 900));
}

#[test]
fn head_room_charge_refund_works() {
    let mut pi = info(1_000, 900);
    assert!(pi.has_headroom(100));
    assert!(!pi.has_headroom(101));
    pi.charge(100);
    assert_eq!(pi.used_state_balance, 1_000);
    pi.refund(2_000);
    assert_eq!(pi.used_state_balance, 0);
    pi.charge(u64::MAX);
    pi.charge(5);
    assert_eq!(pi.used_state_balance, u64::MAX);
}

#[test]
fn clean_up_allowed_balance_works() {
    let mut pi = info(0, 0);
    assert_eq!(clean_up_allowed_balance(&pi, ParaId(7)), BASELINE_FOOTPRINT);
    pi.validation_code = Some(ValidationCodeRef { hash: ValidationCodeHash([1; 32]), len: 100 });
    pi.announced_upgrade = Some(ValidationCodeRef { hash: ValidationCodeHash([2; 32]), len: 13 });
    assert_eq!(
        clean_up_allowed_balance(&pi, ParaId(ASSET_HUB_PARA_ID)),
        BASELINE_FOOTPRINT + ASSET_HUB_GLOBAL_ITEMS_FOOTPRINT + 287 + 200
    );
    assert_eq!(baseline_for(ParaId(7)), BASELINE_FOOTPRINT);
}
