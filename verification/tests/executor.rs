use parachain_service::executor::{
    fresh_pages, relay_len, report_error_len, ChildCall, ExecutorState, Heap, MessageKind,
    MessageLimits, Reply, ABSENT,
};
use parachain_service::log::RefineLog;
use parachain_service::types::ParaId;

const LIMITS: MessageLimits = MessageLimits { max_messages: 2, max_bytes: 10, max_keys: 30 };

fn executor() -> ExecutorState {
    ExecutorState::new(ParaId(1), Heap::new(4096, 0x2_0000, 0x2_0000, 0x1000, 0x10_0000), LIMITS)
}

const NONE: Reply = Reply { a0: None, map_pages: None, copy_out: None };

#[test]
fn heads_are_declared_once_errors() {
    let mut exe = executor();
    assert_eq!(exe.dispatch(ChildCall::SetParentHeadHash { hash: [1; 32] }), Ok(NONE));
    assert_eq!(
        exe.dispatch(ChildCall::SetParentHeadHash { hash: [2; 32] }),
        Err(RefineLog::MissingHeadDeclaration)
    );
    assert_eq!(
        exe.dispatch(ChildCall::SetHead { head: vec![0; 4097] }),
        Err(RefineLog::HeadDataTooLarge)
    );
    assert_eq!(exe.dispatch(ChildCall::SetHead { head: vec![7; 3] }), Ok(NONE));
    assert_eq!(exe.dispatch(ChildCall::SetHead { head: vec![7; 3] }), Err(RefineLog::MissingHeadDeclaration));
    let (parent, head, messages) = exe.finish().unwrap();
    assert_eq!(parent, [1; 32]);
    assert_eq!(head, vec![7; 3]);
    assert!(messages.is_empty());
}

#[test]
fn missing_head_errors() {
    let mut exe = executor();
    exe.dispatch(ChildCall::SetParentHeadHash { hash: [1; 32] }).unwrap();
    assert_eq!(exe.finish().err(), Some(RefineLog::MissingHeadDeclaration));
}

#[test]
fn upward_message_rules_errors() {
    let mut exe = executor();
    let send = |kind, allowed, len: usize| ChildCall::SendUpwardMessage { kind, allowed, encoded: vec![0; len] };
    assert_eq!(exe.dispatch(send(MessageKind::Other, false, 1)), Err(RefineLog::RestrictedHostFunction));
    assert_eq!(
        exe.dispatch(send(MessageKind::AssignCore { queue_len: 0, hands_off: false }, true, 1)),
        Err(RefineLog::InvalidAuthorizerQueue)
    );
    assert_eq!(
        exe.dispatch(send(MessageKind::AssignCore { queue_len: 3, hands_off: true }, true, 1)),
        Err(RefineLog::InvalidAuthorizerQueue)
    );
    assert_eq!(
        exe.dispatch(send(MessageKind::SetValidatorKeys { keys: 31 }, true, 1)),
        Err(RefineLog::TooManyValidatorKeys)
    );
    assert_eq!(exe.dispatch(send(MessageKind::SetValidatorKeys { keys: 30 }, true, 4)), Ok(NONE));
    assert_eq!(
        exe.dispatch(send(MessageKind::SetValidatorKeys { keys: 1 }, true, 1)),
        Err(RefineLog::SetValidatorKeysRepeated)
    );
    assert_eq!(exe.dispatch(send(MessageKind::Other, true, 7)), Err(RefineLog::UpwardMessagesTooLarge));
    assert_eq!(exe.dispatch(send(MessageKind::Other, true, 6)), Ok(NONE));
    assert_eq!(exe.dispatch(send(MessageKind::Other, true, 0)), Err(RefineLog::TooManyUpwardMessages));
    exe.dispatch(ChildCall::SetParentHeadHash { hash: [1; 32] }).unwrap();
    exe.dispatch(ChildCall::SetHead { head: vec![] }).unwrap();
    let (_, _, messages) = exe.finish().unwrap();
    assert_eq!(messages, vec![vec![0; 4], vec![0; 6]]);
}

#[test]
fn report_error_truncates_works() {
    let mut exe = executor();
    assert_eq!(report_error_len(5000), 1024);
    assert_eq!(report_error_len(12), 12);
    match exe.dispatch(ChildCall::ReportError { payload: vec![9; 2000] }) {
        Err(RefineLog::Opaque(p)) => assert_eq!(p.len(), 1024),
        other => panic!("report_error fails the digest with its payload, got {other:?}"),
    }
}

#[test]
fn forwarded_results_works() {
    let mut exe = executor();
    assert_eq!(
        exe.dispatch(ChildCall::Forwarded { full: 100, cap: 40 }),
        Ok(Reply { a0: Some(100), map_pages: None, copy_out: Some(40) })
    );
    assert_eq!(relay_len(ABSENT, 40), None);
    assert_eq!(relay_len(10, 0), None);
    assert_eq!(relay_len(10, 40), Some(10));
    assert_eq!(
        exe.dispatch(ChildCall::Gas { remaining: 9 }),
        Ok(Reply { a0: Some(9), map_pages: None, copy_out: None })
    );
    assert_eq!(exe.dispatch(ChildCall::Log), Ok(NONE));
}

#[test]
fn grow_heap_maps_pages_works() {
    let mut exe = executor();
    // delta 0 queries the break.
    assert_eq!(
        exe.dispatch(ChildCall::GrowHeap { delta: 0 }),
        Ok(Reply { a0: Some(0x2_0000), map_pages: None, copy_out: None })
    );
    // Growing past the mapped RW pages maps whole fresh pages behind the new break.
    assert_eq!(
        exe.dispatch(ChildCall::GrowHeap { delta: 0x1800 }),
        Ok(Reply { a0: Some(0x2_0000), map_pages: Some((0x21, 1)), copy_out: None })
    );
    assert_eq!(exe.heap().top, 0x2_1800);
    assert_eq!(exe.heap().mapped_until, 0x2_2000);
    // Beyond the limit: refused with 0, nothing changes.
    assert_eq!(
        exe.dispatch(ChildCall::GrowHeap { delta: 0x10_0000 }),
        Ok(Reply { a0: Some(0), map_pages: None, copy_out: None })
    );
    assert_eq!(fresh_pages(0x2_2000, 0x2_1800, 4096), None);
}
