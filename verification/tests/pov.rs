use parachain_service::pov::{
    decode_pov, header_number, PoVError, ANCHOR_STATE_PROOF_KEY, V3_VERSION, VERSIONED_PREFIX,
    ZSTD_PREFIX,
};
use parity_scale_codec::{Compact, Encode};

const EMPTY_DIGEST: &[u8] = &[0x00];

fn anchor_key() -> &'static str {
    std::str::from_utf8(&ANCHOR_STATE_PROOF_KEY).expect("the key is ASCII")
}

/// Encode a substrate `Header<u32>`.
fn header_bytes(parent: [u8; 32], number: u32, digest: &[u8]) -> Vec<u8> {
    let mut header = parent.to_vec();
    Compact::from(number).encode_to(&mut header);
    header.extend_from_slice(&[0u8; 32]); // state_root
    header.extend_from_slice(&[0u8; 32]); // extrinsics_root
    header.extend_from_slice(digest);
    header
}

/// Encode a substrate `Block`: header + `Vec<OpaqueExtrinsic>`.
fn block_with(header: Vec<u8>, extrinsics: Vec<Vec<u8>>) -> Vec<u8> {
    let mut block = header;
    Compact::from(extrinsics.len() as u32).encode_to(&mut block);
    for extrinsic in extrinsics {
        extrinsic.encode_to(&mut block);
    }
    block
}

/// An empty `SchedulingProof`: no ancestry, a default relay header, no signed scheduling info.
fn empty_scheduling_proof() -> Vec<u8> {
    let mut proof = vec![0x00];
    proof.extend_from_slice(&header_bytes([0u8; 32], 0, EMPTY_DIGEST));
    proof.push(0x00);
    proof
}

/// Build a V3 PoV carrying `additional_data` entries for its single slot.
fn v3_pov(blocks: Vec<Vec<u8>>, entries: Vec<(&str, Vec<u8>)>) -> Vec<u8> {
    let mut pov = VERSIONED_PREFIX.to_vec();
    pov.push(V3_VERSION);
    Compact::from(blocks.len() as u32).encode_to(&mut pov);
    for block in &blocks {
        pov.extend_from_slice(block);
    }
    Compact::from(0u32).encode_to(&mut pov);
    pov.extend_from_slice(&empty_scheduling_proof());
    Compact::from(1u32).encode_to(&mut pov);
    pov.push(0x01);
    Compact::from(entries.len() as u32).encode_to(&mut pov);
    for (key, value) in entries {
        key.as_bytes().to_vec().encode_to(&mut pov);
        value.encode_to(&mut pov);
    }
    pov
}

fn proof_entry() -> Vec<(&'static str, Vec<u8>)> {
    vec![(anchor_key(), vec![0xaa, 0xbb, 0xcc])]
}

#[test]
fn single_block_works() {
    let header = header_bytes([7u8; 32], 1, EMPTY_DIGEST);
    let pov = v3_pov(vec![block_with(header.clone(), vec![])], proof_entry());

    let decoded = decode_pov(&pov).expect("valid V3 parses");
    assert_eq!(decoded.head, &header[..]);
    assert_eq!(decoded.parent_hash, [7u8; 32]);
    assert_eq!(decoded.anchor_state_proof, &[0xaa, 0xbb, 0xcc]);
}

#[test]
fn many_blocks_takes_last_head_and_first_parent_works() {
    let first = header_bytes([1u8; 32], 1, EMPTY_DIGEST);
    let last = header_bytes([2u8; 32], 2, EMPTY_DIGEST);
    let pov = v3_pov(
        vec![
            block_with(first, vec![vec![9u8; 3]]),
            block_with(last.clone(), vec![vec![8u8; 5]]),
        ],
        proof_entry(),
    );

    let decoded = decode_pov(&pov).expect("valid V3 parses");
    assert_eq!(decoded.head, &last[..]);
    assert_eq!(decoded.parent_hash, [1u8; 32]);
}

#[test]
fn real_digest_tags_works() {
    let mut digest = Vec::new();
    Compact::from(3u32).encode_to(&mut digest);
    digest.push(6); // PreRuntime
    digest.extend_from_slice(b"aura");
    vec![1u8; 8].encode_to(&mut digest);
    digest.push(8); // RuntimeEnvironmentUpdated
    digest.push(5); // Seal
    digest.extend_from_slice(b"aura");
    vec![2u8; 64].encode_to(&mut digest);

    let header = header_bytes([3u8; 32], 4, &digest);
    let pov = v3_pov(vec![block_with(header.clone(), vec![])], proof_entry());

    let decoded = decode_pov(&pov).expect("digest walker parses real tags");
    assert_eq!(decoded.head, &header[..]);
}

#[test]
fn v1_pov_errors() {
    let mut pov = VERSIONED_PREFIX.to_vec();
    pov.push(1);
    Compact::from(1u32).encode_to(&mut pov);
    pov.extend_from_slice(&block_with(header_bytes([0u8; 32], 1, EMPTY_DIGEST), vec![]));
    Compact::from(0u32).encode_to(&mut pov);

    assert_eq!(decode_pov(&pov), Err(PoVError::Malformed));
}

#[test]
fn v0_pov_errors() {
    let v0 = block_with(header_bytes([0u8; 32], 1, EMPTY_DIGEST), vec![]);
    assert_eq!(decode_pov(&v0), Err(PoVError::Malformed));
}

#[test]
fn missing_proof_entry_errors() {
    let pov = v3_pov(
        vec![block_with(header_bytes([0u8; 32], 1, EMPTY_DIGEST), vec![])],
        vec![("polkadot/relay_proof", vec![1, 2, 3])],
    );
    assert_eq!(decode_pov(&pov), Err(PoVError::MissingProof));
}

#[test]
fn compressed_pov_errors() {
    let mut pov = ZSTD_PREFIX.to_vec();
    pov.extend_from_slice(b"whatever");
    assert_eq!(decode_pov(&pov), Err(PoVError::Compressed));
}

#[test]
fn malformed_pov_errors() {
    assert_eq!(decode_pov(&[]), Err(PoVError::Malformed));
    assert_eq!(decode_pov(b"VERSIONEDPBD"), Err(PoVError::Malformed));
    assert_eq!(decode_pov(b"VERSIONEDPBD\x03"), Err(PoVError::Malformed));
}

#[test]
fn no_blocks_errors() {
    let pov = v3_pov(vec![], proof_entry());
    assert_eq!(decode_pov(&pov), Err(PoVError::Malformed));
}

#[test]
fn truncated_pov_errors() {
    let pov = v3_pov(
        vec![block_with(header_bytes([0u8; 32], 1, EMPTY_DIGEST), vec![])],
        proof_entry(),
    );
    for cut in 1..pov.len() {
        assert!(decode_pov(&pov[..cut]).is_err(), "truncated at {cut} must not parse");
    }
}

#[test]
fn pov_reports_last_block_number_works() {
    let first = header_bytes([1u8; 32], 70, EMPTY_DIGEST);
    let last = header_bytes([2u8; 32], 20_000, EMPTY_DIGEST);
    let pov = v3_pov(
        vec![block_with(first, vec![]), block_with(last, vec![])],
        proof_entry(),
    );
    assert_eq!(decode_pov(&pov).expect("valid V3 parses").number, 20_000);
}

#[test]
fn first_matching_proof_entry_wins_works() {
    let pov = v3_pov(
        vec![block_with(header_bytes([0u8; 32], 1, EMPTY_DIGEST), vec![])],
        vec![
            ("other", vec![9]),
            (anchor_key(), vec![1, 2]),
            (anchor_key(), vec![3, 4]),
        ],
    );
    assert_eq!(decode_pov(&pov).expect("valid V3 parses").anchor_state_proof, &[1, 2]);
}

#[test]
fn unknown_digest_tag_errors() {
    let mut digest = Vec::new();
    Compact::from(1u32).encode_to(&mut digest);
    digest.push(7);
    let pov = v3_pov(
        vec![block_with(header_bytes([0u8; 32], 1, &digest), vec![])],
        proof_entry(),
    );
    assert_eq!(decode_pov(&pov), Err(PoVError::Malformed));
}

#[test]
fn oversized_header_errors() {
    let mut digest = Vec::new();
    Compact::from(1u32).encode_to(&mut digest);
    digest.push(0);
    vec![0u8; 5000].encode_to(&mut digest);
    let pov = v3_pov(
        vec![block_with(header_bytes([0u8; 32], 1, &digest), vec![])],
        proof_entry(),
    );
    assert_eq!(decode_pov(&pov), Err(PoVError::Malformed));
}

#[test]
fn header_number_works() {
    assert_eq!(header_number(&header_bytes([5u8; 32], 7, EMPTY_DIGEST)), Some(7));
    assert_eq!(header_number(&header_bytes([5u8; 32], 1 << 20, EMPTY_DIGEST)), Some(1 << 20));
    assert_eq!(header_number(&[0u8; 31]), None);
    // A two-octet compact for a value that fits one octet is refused by the codec.
    let mut bad = vec![0u8; 32];
    bad.extend_from_slice(&[0b0000_0101, 0]);
    assert_eq!(header_number(&bad), None);
}
