use parachain_service::assigns::{
    advance_queue, after_assign, due_assigns, expand_queue, fills_directly, rearm_after_flush,
    remove, schedule, upsert, well_formed, AfterAssign, AssignResult, ScheduleAction,
};
use parachain_service::log::{AccumulateLog, TransferError};
use parachain_service::transfers::{
    clean_up_buckets_up_to, encode_queue, queue_after_clean_up, record_incoming, transfer_out,
    IncomingTransfer, IncomingTransferBuckets, TransferOutArgs, TransferOutcome,
};
use parachain_service::validator_keys::{append_keys, apply, KeysAction};

fn incoming(n: usize, amount: u64) -> Vec<IncomingTransfer> {
    (0..n).map(|i| IncomingTransfer { source: i as u32, amount, memo: [i as u8; 128] }).collect()
}

#[test]
fn endpoint_encoding_works() {
    let endpoints = IncomingTransferBuckets { first_bucket: 1, last_bucket: 2, count: 3 };
    assert_eq!(endpoints.encode().len(), 8 + 8 + 4);
    assert_eq!(encode_queue(Some(endpoints)).len(), 1 + 8 + 8 + 4);
    assert_eq!(encode_queue(None), vec![0]);
}

#[test]
fn incoming_fills_whole_buckets_works() {
    // An empty queue: 1030 reserved transfers fill buckets 0 and 1 and six go into bucket 2...
    // but only the first 1000 are inside the reservation; the rest need to cover their slot.
    let plan = record_incoming(None, &incoming(1030, 195));
    assert_eq!(plan.old_count, 0);
    assert_eq!(plan.new_count, 1030);
    let sizes: Vec<usize> = plan.buckets.iter().map(|(_, b)| b.len()).collect();
    assert_eq!(sizes, vec![512, 512, 6]);
    let ids: Vec<u64> = plan.buckets.iter().map(|(id, _)| *id).collect();
    assert_eq!(ids, vec![0, 1, 2]);
    assert_eq!(plan.buckets[2].1[5].from, 1029);
    assert_eq!(
        plan.endpoints,
        Some(IncomingTransferBuckets { first_bucket: 0, last_bucket: 2, count: 1030 })
    );
}

#[test]
fn unreserved_transfer_below_its_cost_is_dropped_works() {
    // 998 already queued: two more fit the reservation, the third must pay its way.
    let queue = IncomingTransferBuckets { first_bucket: 4, last_bucket: 5, count: 998 };
    let mut ts = incoming(4, 1);
    ts[3].amount = 195;
    let plan = record_incoming(Some(queue), &ts);
    assert_eq!(plan.new_count, 1001);
    assert_eq!(plan.buckets.len(), 1);
    assert_eq!(plan.buckets[0].0, 6);
    let from: Vec<u32> = plan.buckets[0].1.iter().map(|t| t.from).collect();
    assert_eq!(from, vec![0, 1, 3]);
    assert_eq!(
        plan.endpoints,
        Some(IncomingTransferBuckets { first_bucket: 4, last_bucket: 6, count: 1001 })
    );
}

#[test]
fn nothing_admitted_writes_nothing_works() {
    let queue = IncomingTransferBuckets { first_bucket: 0, last_bucket: 1, count: 1000 };
    let plan = record_incoming(Some(queue), &incoming(3, 194));
    assert!(plan.buckets.is_empty());
    assert_eq!(plan.endpoints, None);
    assert_eq!(plan.new_count, 1000);
}

#[test]
fn clean_up_buckets_works() {
    let queue = IncomingTransferBuckets { first_bucket: 3, last_bucket: 6, count: 40 };
    assert_eq!(clean_up_buckets_up_to(None, 4), None);
    assert_eq!(clean_up_buckets_up_to(Some(queue), 2), None);
    assert_eq!(clean_up_buckets_up_to(Some(queue), 4), Some((3, 4)));
    assert_eq!(clean_up_buckets_up_to(Some(queue), 9), Some((3, 6)));
    assert_eq!(
        queue_after_clean_up(queue, 4, &vec![10, 15]),
        Some(IncomingTransferBuckets { first_bucket: 5, last_bucket: 6, count: 15 })
    );
    // Everything removed: the endpoints go, so ids restart from zero.
    assert_eq!(queue_after_clean_up(queue, 6, &vec![10, 15, 10, 5]), None);
    // Counts saturate rather than wrap.
    assert_eq!(
        queue_after_clean_up(queue, 4, &vec![30, 30]),
        Some(IncomingTransferBuckets { first_bucket: 5, last_bucket: 6, count: 0 })
    );
}

fn args(dest: u32, amount: u64, deferred: Option<([u8; 128], u64)>) -> TransferOutArgs {
    TransferOutArgs {
        source: None,
        dest,
        amount,
        id: 77,
        source_supervisor_balance: false,
        dest_supervisor_balance: false,
        deferred,
    }
}

fn failure(outcome: TransferOutcome) -> Option<TransferError> {
    match outcome {
        TransferOutcome::Fail(e) => Some(e),
        _ => None,
    }
}

#[test]
fn transfer_out_refusals_errors() {
    let me = 10;
    let memo = [0u8; 128];
    let mut foreign = args(20, 5, Some((memo, 100)));
    foreign.source = Some(30);
    assert_eq!(failure(transfer_out(me, &foreign, false, Some(1))), Some(TransferError::UnknownSource));
    assert_eq!(failure(transfer_out(me, &foreign, true, None)), Some(TransferError::UnknownDestination));
    assert_eq!(failure(transfer_out(me, &foreign, true, Some(1))), Some(TransferError::SourceNotSupervised));
    let low_gas = args(20, 5, Some((memo, 0)));
    assert_eq!(
        failure(transfer_out(me, &low_gas, true, Some(1))),
        Some(TransferError::GasBelowDestinationMinimum)
    );
    // A plain move to another service needs control of it.
    assert_eq!(
        failure(transfer_out(me, &args(20, 5, None), true, Some(1))),
        Some(TransferError::DestinationNotSupervised)
    );
    let mut own = args(me, 5, None);
    own.source_supervisor_balance = true;
    assert_eq!(failure(transfer_out(me, &own, true, Some(1))), Some(TransferError::InsufficientServiceBalance));
    own.amount = 0;
    assert!(matches!(transfer_out(me, &own, true, Some(1)), TransferOutcome::Skip));
}

#[test]
fn transfer_out_deferred_works() {
    let memo = [3u8; 128];
    let mut a = args(20, 5, Some((memo, 100)));
    a.source = Some(10);
    match transfer_out(10, &a, false, Some(100)) {
        TransferOutcome::Transfer { dest, amount, gas, memo: m } => {
            assert_eq!((dest, amount, gas), (20, 5, 100));
            assert_eq!(m, memo);
        },
        _ => panic!("a deferred transfer from this service goes to JAM"),
    }
}

#[test]
fn assign_queue_shape_works() {
    assert!(well_formed(1, None));
    assert!(well_formed(80, None));
    assert!(!well_formed(0, None));
    assert!(!well_formed(81, None));
    assert!(well_formed(80, Some(5)));
    assert!(!well_formed(79, Some(5)));
    assert!(fills_directly(16, 80));
    assert!(!fills_directly(3, 80));
    assert_eq!(schedule(10, 0, None, 5), ScheduleAction::Ignore);
    assert_eq!(schedule(10, 3, None, 10), ScheduleAction::AssignNow);
    assert_eq!(schedule(10, 3, None, 11), ScheduleAction::Cache);
}

#[test]
fn short_queue_advances_works() {
    let (a, b, c) = ([1u8; 32], [2u8; 32], [3u8; 32]);
    // 80 % 3 == 2: the next cycle starts at the third hash.
    assert_eq!(advance_queue(vec![a, b, c], 80), vec![c, a, b]);
    let expanded = expand_queue(&vec![a, b, c], 80);
    assert_eq!(expanded.len(), 80);
    assert_eq!(expanded[0], a);
    assert_eq!(expanded[4], b);
    assert_eq!(expanded[79], b);
}

#[test]
fn after_assign_works() {
    let q = vec![[1u8; 32], [2u8; 32], [3u8; 32]];
    match after_assign(4, AssignResult::Assigned, q.clone(), 100, 80) {
        AfterAssign::Rearm { queue, due } => {
            assert_eq!(queue, vec![[3u8; 32], [1u8; 32], [2u8; 32]]);
            assert_eq!(due, 180);
        },
        _ => panic!("a non-tiling queue is re-armed"),
    }
    assert!(matches!(
        after_assign(4, AssignResult::Assigned, vec![[1u8; 32]; 16], 100, 80),
        AfterAssign::Remove
    ));
    match after_assign(4, AssignResult::ActionInvalid, q.clone(), 100, 80) {
        AfterAssign::HandedAway(log) => assert_eq!(log, AccumulateLog::CoreNotAssignable { core: 4 }),
        _ => panic!("a core handed away is dropped"),
    }
    assert!(matches!(after_assign(4, AssignResult::Failed, q, 100, 80), AfterAssign::Retry));
}

#[test]
fn dirty_core_index_works() {
    let mut cores = vec![(1u16, 10u32), (2, 20)];
    upsert(&mut cores, 2, 25);
    upsert(&mut cores, 3, 5);
    assert_eq!(cores, vec![(1, 10), (2, 25), (3, 5)]);
    remove(&mut cores, 1);
    assert_eq!(cores, vec![(2, 25), (3, 5)]);
    let (due, mut next) = due_assigns(10, &cores);
    assert_eq!(due, vec![(3, 5)]);
    assert_eq!(next, vec![(2, 25)]);
    rearm_after_flush(&mut next, 3, 5, &AfterAssign::Retry);
    rearm_after_flush(&mut next, 7, 5, &AfterAssign::Rearm { queue: vec![], due: 90 });
    rearm_after_flush(&mut next, 8, 5, &AfterAssign::Remove);
    assert_eq!(next, vec![(2, 25), (3, 5), (7, 90)]);
}

#[test]
fn validator_key_chunks_works() {
    assert_eq!(apply(10, 0, true), KeysAction::Discard);
    assert_eq!(apply(10, 5, true), KeysAction::Designate { len: 15 });
    assert_eq!(apply(1020, 4, false), KeysAction::Overflow(AccumulateLog::StagedValidatorKeysOverflow));
    assert_eq!(apply(1019, 4, false), KeysAction::Append);
    let mut staged = vec![[1u8; 336]];
    append_keys(&mut staged, &vec![[2u8; 336], [3u8; 336]]);
    assert_eq!(staged.len(), 3);
    assert_eq!(staged[2][0], 3);
}
