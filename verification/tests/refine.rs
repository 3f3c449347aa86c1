use parachain_service::executor::{after_invoke, page_span, ChildOutcome, InvokeStep};
use parachain_service::log::RefineLog;
use parachain_service::mock_dest::{handle_transfer, next_count};
use parachain_service::parasim::{
    arriving, assign_core, refine_pov, refined_head, store_buffer, BufferWrite, RefinedHead,
};
use parachain_service::buffer::{BufferedCandidate, ReorderBuffer};
use parachain_service::pov::{PoV, ANCHOR_STATE_PROOF_KEY, V3_VERSION, VERSIONED_PREFIX, ZSTD_PREFIX};
use parachain_service::refine::{
    decode_candidate, decode_para_ids, output_too_large, refine_finish, refine_start,
    work_package_para_id, ParachainWorkDigest, RefineStart, MAX_REFINE_OUTPUT_SIZE,
};
use parachain_service::pvf::{parse_pvf, PvfParseError, PVF_ENTRY_POINT, PVF_PAGE_SIZE};
use parachain_service::service::ParasimRefineError;
use parachain_service::types::{ParaId, ValidationCodeHash, ValidationCodeRef};
use parity_scale_codec::{Compact, Encode};

/// A SCALE `Vec<ParaId>`: a compact count, then four little-endian octets each.
fn para_ids(ids: &[u32]) -> Vec<u8> {
    let mut bytes = Compact::from(ids.len() as u32).encode();
    for id in ids {
        bytes.extend_from_slice(&id.to_le_bytes());
    }
    bytes
}

fn candidate(code_hash: [u8; 32], pov: Vec<u8>) -> Vec<u8> {
    let mut bytes = code_hash.to_vec();
    pov.encode_to(&mut bytes);
    bytes
}

fn header_bytes(parent: [u8; 32], number: u32) -> Vec<u8> {
    let mut header = parent.to_vec();
    Compact::from(number).encode_to(&mut header);
    header.extend_from_slice(&[0u8; 64]);
    header.push(0);
    header
}

fn v3_pov(header: &[u8]) -> Vec<u8> {
    let mut pov = VERSIONED_PREFIX.to_vec();
    pov.push(V3_VERSION);
    Compact::from(1u32).encode_to(&mut pov);
    pov.extend_from_slice(header);
    Compact::from(0u32).encode_to(&mut pov); // no extrinsics
    Compact::from(0u32).encode_to(&mut pov); // empty compact proof
    pov.push(0x00);
    pov.extend_from_slice(&header_bytes([0u8; 32], 0));
    pov.push(0x00);
    Compact::from(1u32).encode_to(&mut pov);
    pov.push(0x01);
    Compact::from(1u32).encode_to(&mut pov);
    ANCHOR_STATE_PROOF_KEY.to_vec().encode_to(&mut pov);
    vec![0xaau8, 0xbb].encode_to(&mut pov);
    pov
}

#[test]
fn para_ids_decode_works() {
    let config = para_ids(&[7, 1000]);
    assert_eq!(decode_para_ids(&config), Some(vec![ParaId(7), ParaId(1000)]));
    // Octets after the list are not read.
    let mut longer = config.clone();
    longer.push(9);
    assert_eq!(decode_para_ids(&longer), Some(vec![ParaId(7), ParaId(1000)]));
    assert_eq!(decode_para_ids(&config[..config.len() - 1]), None);
    assert_eq!(decode_para_ids(&[]), None);
    assert_eq!(work_package_para_id(&config, 1), Some(ParaId(1000)));
    assert_eq!(work_package_para_id(&config, 2), None);
}

#[test]
fn candidate_decode_works() {
    let payload = candidate([3; 32], vec![1, 2, 3]);
    let (hash, start) = decode_candidate(&payload).expect("a candidate decodes");
    assert_eq!(hash, ValidationCodeHash([3; 32]));
    assert_eq!(&payload[start..], &[1, 2, 3]);
    let mut trailing = payload.clone();
    trailing.push(0);
    assert_eq!(decode_candidate(&trailing), None);
    assert_eq!(decode_candidate(&[0; 31]), None);
}

#[test]
fn refine_start_works() {
    let ids = vec![ParaId(5)];
    let payload = candidate([3; 32], vec![]);
    assert_eq!(
        refine_start(&ids, 0, 1, true, &payload),
        RefineStart::Run { para_id: ParaId(5), code_hash: ValidationCodeHash([3; 32]) }
    );
    assert_eq!(
        refine_start(&ids, 0, 1, false, &payload),
        RefineStart::Fail { para_id: ParaId(5), error: RefineLog::MalformedAuthTrace }
    );
    assert_eq!(
        refine_start(&ids, 0, 1, true, &[1, 2]),
        RefineStart::Fail { para_id: ParaId(5), error: RefineLog::MalformedPayload }
    );
}

#[test]
fn refine_finish_works() {
    let hash = ValidationCodeHash([3; 32]);
    let missing = refine_finish(ParaId(5), hash, None, Ok(([1; 32], vec![2], vec![])), 9);
    assert_eq!(missing.para_id(), ParaId(5));
    assert_eq!(missing.try_into_log(), Ok(RefineLog::InvalidCodeHash));
    let failed = refine_finish(ParaId(5), hash, Some(10), Err(RefineLog::ValidationFailed), 9);
    assert_eq!(failed.try_into_log(), Ok(RefineLog::ValidationFailed));
    let ok = refine_finish(ParaId(5), hash, Some(10), Ok(([1; 32], vec![2], vec![vec![4]])), 9);
    assert_eq!(
        ok,
        ParachainWorkDigest::Success {
            para_id: ParaId(5),
            validation_code: ValidationCodeRef { hash, len: 10 },
            parent_head_hash: [1; 32],
            head_data: vec![2],
            upward_messages: vec![vec![4]],
            lookup_anchor: 9,
        }
    );
    assert_eq!(ok.try_into_log(), Err(()));
    assert!(!output_too_large(MAX_REFINE_OUTPUT_SIZE - 10, 10));
    assert!(output_too_large(MAX_REFINE_OUTPUT_SIZE - 10, 11));
    assert!(output_too_large(usize::MAX, 1));
}

#[test]
fn invoke_outcomes_works() {
    assert_eq!(after_invoke(ChildOutcome::Halt), InvokeStep::Done);
    assert_eq!(after_invoke(ChildOutcome::HostCall(4)), InvokeStep::Dispatch(4));
    for failed in [ChildOutcome::PageFault, ChildOutcome::Panic, ChildOutcome::OutOfGas, ChildOutcome::InvokeFailed] {
        assert_eq!(after_invoke(failed), InvokeStep::Fail(RefineLog::ValidationFailed));
    }
    assert_eq!(page_span(0x1_0000, 0, 4096), None);
    assert_eq!(page_span(0x1_0000, 1, 4096), Some((16, 1)));
    assert_eq!(page_span(0x1_0000, 8193, 4096), Some((16, 3)));
}

#[test]
fn parasim_refine_head_works() {
    let header = header_bytes([7; 32], 12);
    let config = para_ids(&[4]);
    let payload = candidate([3; 32], v3_pov(&header));
    let (para_id, pov) = refine_pov(&config, 0, &payload).expect("a V3 PoV decodes");
    assert_eq!(para_id, ParaId(4));
    assert_eq!(pov.number, 12);
    assert_eq!(pov.anchor_state_proof, &[0xaa, 0xbb]);
    let head = refined_head(para_id, &pov).expect("the head fits");
    assert_eq!(
        head,
        RefinedHead { para_id: ParaId(4), head_data: header.clone(), parent_head_hash: [7; 32], number: 12 }
    );
    let parked = arriving(head, 30);
    assert_eq!(parked.arrived_slot, 30);
    assert_eq!(parked.head_data, header);
}

#[test]
fn parasim_refine_refusals_errors() {
    let config = para_ids(&[4]);
    let header = header_bytes([7; 32], 12);
    assert_eq!(refine_pov(&config, 1, &candidate([3; 32], v3_pov(&header))).err(), Some(ParasimRefineError::NoParaId));
    assert_eq!(refine_pov(&config, 0, &[1, 2, 3]).err(), Some(ParasimRefineError::MalformedPayload));
    let mut compressed = ZSTD_PREFIX.to_vec();
    compressed.extend_from_slice(&[0; 8]);
    assert_eq!(
        refine_pov(&config, 0, &candidate([3; 32], compressed)).err(),
        Some(ParasimRefineError::CompressedPoV)
    );
    assert_eq!(
        refine_pov(&config, 0, &candidate([3; 32], vec![1, 2, 3])).err(),
        Some(ParasimRefineError::MalformedPoV)
    );
    // A header beyond the head bound does not even decode as a block.
    let mut big = header_bytes([7; 32], 12);
    big.pop(); // drop the empty digest
    Compact::from(1u32).encode_to(&mut big);
    big.push(0); // an `Other` item
    vec![0u8; 4100].encode_to(&mut big);
    let payload = candidate([3; 32], v3_pov(&big));
    assert_eq!(refine_pov(&config, 0, &payload).err(), Some(ParasimRefineError::MalformedPoV));
    // An oversized head is refused by `refined_head` itself.
    let head = vec![0u8; 4097];
    let pov = PoV { head: &head, number: 1, parent_hash: [0; 32], anchor_state_proof: &[] };
    assert_eq!(refined_head(ParaId(4), &pov).err(), Some(ParasimRefineError::HeadTooLarge));
}

#[test]
fn buffer_store_works() {
    let empty = ReorderBuffer::new();
    assert_eq!(store_buffer(&empty, None), BufferWrite::Keep);
    assert_eq!(store_buffer(&empty, Some(&[1][..])), BufferWrite::Remove);
    let one = ReorderBuffer::from_parked(vec![BufferedCandidate {
        parent_head_hash: [1; 32],
        head_data: vec![2],
        number: 3,
        arrived_slot: 4,
    }]);
    let encoded = one.encode();
    assert_eq!(store_buffer(&one, Some(&encoded[..])), BufferWrite::Keep);
    assert_eq!(store_buffer(&one, None), BufferWrite::Write(encoded.clone()));
    assert_eq!(store_buffer(&one, Some(&[0][..])), BufferWrite::Write(encoded));
}

#[test]
fn parasim_assign_core_works() {
    let queue = vec![[1u8; 32], [2u8; 32]];
    let plan = assign_core(10, Some(11), &queue, 80);
    assert_eq!(plan.overridden, Some(11));
    let q = plan.queue.expect("a non-empty queue is written");
    assert_eq!(q.len(), 80);
    assert_eq!(q[1], [2u8; 32]);
    assert_eq!(q[2], [1u8; 32]);
    assert_eq!(assign_core(10, Some(10), &queue, 80).overridden, None);
    assert_eq!(assign_core(10, None, &vec![], 80).queue, None);
}

#[test]
fn mock_destination_index_works() {
    let mut memo = [0u8; 128];
    memo[..32].copy_from_slice(&[5u8; 32]);
    let index = handle_transfer(0x0102_0304, 7, &memo);
    let mut fwd_key = vec![b'f'];
    fwd_key.extend_from_slice(&[5u8; 32]);
    assert_eq!(index.forward_key, fwd_key);
    let mut fwd_val = 0x0102_0304u32.to_le_bytes().to_vec();
    fwd_val.extend_from_slice(&7u64.to_le_bytes());
    assert_eq!(index.forward_value, fwd_val);
    let mut bwd_key = vec![b'b'];
    bwd_key.extend_from_slice(&0x0102_0304u32.to_le_bytes());
    assert_eq!(index.backward_key, bwd_key);
    assert_eq!(index.backward_value, vec![5u8; 32]);
    assert_eq!(next_count(None), 1u64.to_le_bytes().to_vec());
    assert_eq!(next_count(Some(&41u64.to_le_bytes()[..])), 42u64.to_le_bytes().to_vec());
}

#[test]
fn parse_pvf_refuses_bytes_that_are_no_program_errors() {
    assert_eq!(parse_pvf(&[]).err(), Some(PvfParseError::InvalidCodeBytes));
    assert_eq!(parse_pvf(&[0xff; 64]).err(), Some(PvfParseError::InvalidCodeBytes));
}

#[test]
fn pvf_entry_point_spells_validate_block_works() {
    assert_eq!(&PVF_ENTRY_POINT[..], b"jam_validate_block");
    assert_eq!(PVF_PAGE_SIZE, 4096);
}
