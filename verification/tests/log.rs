use parachain_service::bounded::StoredAuthTrace;
use parachain_service::constants::{PARACHAIN_LOG_BYTE_CAP, STORED_AUTH_TRACE_CAP};
use parachain_service::log::{
    entry_rank, log_encoded_size, prune_log_below, push_log_entry, truncate_auth_trace,
    AccumulateLog, InsufficientBalanceReason, LogEntry, ParachainLog, RefineLog, TransferError,
};

fn size(log: &ParachainLog) -> usize {
    log_encoded_size(log).expect("fits")
}

fn refine_entry(trace_len: usize) -> LogEntry {
    LogEntry::Refine {
        error: RefineLog::InvalidCodeHash,
        auth_trace: truncate_auth_trace(&vec![0xAB; trace_len]),
    }
}

fn accumulate_entry() -> LogEntry {
    LogEntry::Accumulate { entries: vec![AccumulateLog::TooMuchStateHeld] }
}

fn big_accumulate_entry(events: usize) -> LogEntry {
    LogEntry::Accumulate { entries: vec![AccumulateLog::TooMuchStateHeld; events] }
}

fn opaque_entry(payload_len: usize) -> LogEntry {
    LogEntry::Refine {
        error: RefineLog::Opaque(vec![0xCD; payload_len].try_into().expect("within the 1024 bound; qed")),
        auth_trace: truncate_auth_trace(&[]),
    }
}

fn count_rank(log: &ParachainLog, rank: u8) -> usize {
    log.iter().filter(|e| entry_rank(e) == rank).count()
}

#[test]
fn entry_rank_order_works() {
    assert_eq!(entry_rank(&(0, refine_entry(4))), 0);
    assert_eq!(entry_rank(&(0, opaque_entry(8))), 1);
    assert_eq!(entry_rank(&(0, accumulate_entry())), 2);
}

#[test]
fn spam_cannot_evict_opaque_works() {
    let mut log = ParachainLog::new();
    let mut slot = 0;
    while size(&log) < PARACHAIN_LOG_BYTE_CAP - 2_000 {
        slot += 1;
        push_log_entry(&mut log, (slot, opaque_entry(1014)));
    }
    let opaques_before = count_rank(&log, 1);
    assert!(opaques_before > 0);

    for _ in 0..40 {
        slot += 1;
        push_log_entry(&mut log, (slot, refine_entry(256)));
    }

    assert_eq!(count_rank(&log, 1), opaques_before);
    assert!(size(&log) <= PARACHAIN_LOG_BYTE_CAP);
}

#[test]
fn higher_rank_evicts_lower_works() {
    let mut log = ParachainLog::new();
    let mut slot = 0;
    while size(&log) <= PARACHAIN_LOG_BYTE_CAP - 300 {
        slot += 1;
        push_log_entry(&mut log, (slot, refine_entry(256)));
    }
    let spam_before = count_rank(&log, 0);
    assert!(spam_before > 0);

    push_log_entry(&mut log, (slot + 1, big_accumulate_entry(500)));

    assert_eq!(count_rank(&log, 2), 1);
    assert!(count_rank(&log, 0) < spam_before);
    assert!(size(&log) <= PARACHAIN_LOG_BYTE_CAP);
}

#[test]
fn incoming_dropped_when_outranked_works() {
    let mut log = ParachainLog::new();
    let mut slot = 0;
    while size(&log) < PARACHAIN_LOG_BYTE_CAP - 2_000 {
        slot += 1;
        push_log_entry(&mut log, (slot, opaque_entry(1014)));
    }
    while size(&log) + 8 <= PARACHAIN_LOG_BYTE_CAP {
        slot += 1;
        push_log_entry(&mut log, (slot, accumulate_entry()));
    }
    let before = log.clone();
    assert!(count_rank(&before, 1) > 0);

    push_log_entry(&mut log, (slot + 1, refine_entry(256)));

    assert_eq!(log, before);
    assert_eq!(count_rank(&log, 0), 0);
    assert!(size(&log) <= PARACHAIN_LOG_BYTE_CAP);
}

#[test]
fn log_trivial_works() {
    let mut log = ParachainLog::new();
    push_log_entry(&mut log, (5, refine_entry(10)));
    assert_eq!(log.len(), 1);
}

#[test]
fn eviction_prefers_refine_entries_works() {
    let mut log = ParachainLog::new();
    while size(&log) < PARACHAIN_LOG_BYTE_CAP - 600 {
        push_log_entry(&mut log, (1, refine_entry(256)));
        push_log_entry(&mut log, (1, accumulate_entry()));
    }
    let accumulates_before =
        log.iter().filter(|(_, e)| matches!(e, LogEntry::Accumulate { .. })).count();
    push_log_entry(&mut log, (2, refine_entry(256)));
    push_log_entry(&mut log, (2, refine_entry(256)));
    let accumulates_after =
        log.iter().filter(|(_, e)| matches!(e, LogEntry::Accumulate { .. })).count();
    assert_eq!(accumulates_before, accumulates_after);
    assert!(size(&log) <= PARACHAIN_LOG_BYTE_CAP);
}

#[test]
fn eviction_drops_oldest_overall_when_no_refine_works() {
    let mut log = ParachainLog::new();
    while size(&log) <= PARACHAIN_LOG_BYTE_CAP {
        let slot = log.len() as u32;
        log.push((slot, accumulate_entry()));
    }
    push_log_entry(&mut log, (u32::MAX, accumulate_entry()));

    assert!(size(&log) <= PARACHAIN_LOG_BYTE_CAP);
    assert_ne!(log[0].0, 0);
    assert_eq!(log.last().expect("non-empty; qed").0, u32::MAX);
}

#[test]
fn prune_below_works() {
    let mut log = ParachainLog::new();
    push_log_entry(&mut log, (1, refine_entry(1)));
    push_log_entry(&mut log, (5, refine_entry(1)));
    push_log_entry(&mut log, (9, refine_entry(1)));
    prune_log_below(&mut log, 5);
    assert_eq!(log.iter().map(|(t, _)| *t).collect::<Vec<_>>(), vec![5, 9]);
}

#[test]
fn truncate_auth_trace_works() {
    assert_eq!(truncate_auth_trace(&[1u8; 300]).len(), STORED_AUTH_TRACE_CAP);
    assert_eq!(truncate_auth_trace(&[1u8; 3]).len(), 3);
    assert_eq!(truncate_auth_trace(&[1, 2, 3, 4]).to_vec(), vec![1, 2, 3, 4]);
}

#[test]
fn entry_sizes_match_scale_works() {
    // An empty log is a single compact zero.
    assert_eq!(size(&ParachainLog::new()), 1);
    // (u32 slot, Refine { InvalidCodeHash, trace of 10 }): 4 + 1 + 1 + (1 + 10).
    assert_eq!(size(&vec![(7, refine_entry(10))]), 1 + 4 + 1 + 1 + 1 + 10);
    // Opaque(100 bytes): discriminant 1 + compact 2 + 100, empty trace 1.
    assert_eq!(size(&vec![(7, opaque_entry(100))]), 1 + 4 + 1 + (1 + 2 + 100) + 1);
    // An accumulate entry with a compact id of 2^30 (five octets) and a forget reminder.
    let entries = vec![
        AccumulateLog::TransferFailed { id: 1 << 30, error: TransferError::UnknownSource },
        AccumulateLog::ForgetAgainAt { hash: [0; 32], len: 100, due: 9 },
        AccumulateLog::InsufficientStateBalance {
            reason: InsufficientBalanceReason::SetKV { key_hash: [1; 32] },
        },
    ];
    assert_eq!(
        size(&vec![(1, LogEntry::Accumulate { entries })]),
        1 + 4 + 1 + 1 + (1 + 5 + 1) + (1 + 32 + 2 + 4) + (1 + 1 + 32)
    );
}

#[test]
fn auth_trace_type_is_bounded_works() {
    let trace: StoredAuthTrace = truncate_auth_trace(&[9u8; 1000]);
    assert_eq!(trace.len(), 256);
}
