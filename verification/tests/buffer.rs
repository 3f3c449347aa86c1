use parachain_service::buffer::{
    BufferedCandidate, DropReason, EvictReason, HeadStore, ReorderBuffer, StoredHead, BUFFER_CAP,
};
use parachain_service::hashing::blake2_256;
use parachain_service::parasim::{buffer_key, para_head_key, ParaInfoLite};
use parachain_service::types::ParaId;
use parity_scale_codec::{Compact, Encode};

/// A generous age backstop, so the tests that are not about it are unaffected by it.
const MAX_AGE: u32 = 600;
const HASH_LEN: usize = 32;

/// A head store backed by a plain field, standing in for the service's storage.
#[derive(Default)]
struct TestStore {
    head: Option<BufferedCandidate>,
    /// Every head written, in order.
    writes: Vec<u32>,
    /// Makes the next `set_head` fail, as a full storage write would.
    fail_next_write: bool,
    /// Every `set_head` call, with its answer.
    attempts: Vec<(BufferedCandidate, bool)>,
}

impl HeadStore for TestStore {
    fn stored(&self) -> StoredHead {
        self.head()
    }

    fn writes(&self) -> Vec<(BufferedCandidate, bool)> {
        self.attempts.clone()
    }

    fn head(&self) -> StoredHead {
        match &self.head {
            None => StoredHead::Empty,
            Some(candidate) => {
                StoredHead::At { hash: candidate.head_hash(), number: candidate.number }
            },
        }
    }

    fn set_head(&mut self, candidate: &BufferedCandidate) -> bool {
        if std::mem::take(&mut self.fail_next_write) {
            self.attempts.push((candidate.clone(), false));
            return false;
        }
        self.attempts.push((candidate.clone(), true));
        self.writes.push(candidate.number);
        self.head = Some(candidate.clone());
        true
    }
}

fn candidate(tag: u8, parent: [u8; HASH_LEN], number: u32, arrived_slot: u32) -> BufferedCandidate {
    BufferedCandidate { parent_head_hash: parent, head_data: vec![tag; 8], number, arrived_slot }
}

fn chain(tags: &[u8], root_parent: [u8; HASH_LEN], number: u32) -> Vec<BufferedCandidate> {
    let mut parent = root_parent;
    let mut built = Vec::new();
    for (offset, tag) in tags.iter().enumerate() {
        let next = candidate(*tag, parent, number + offset as u32, 0);
        parent = next.head_hash();
        built.push(next);
    }
    built
}

fn store_at(candidate: &BufferedCandidate) -> TestStore {
    TestStore { head: Some(candidate.clone()), ..Default::default() }
}

/// The base case the buffer must not disturb: heads arriving in order are applied straight
/// away and nothing is ever parked.
#[test]
fn in_order_chain_works() {
    let blocks = chain(&[1, 2, 3], [0u8; HASH_LEN], 1);
    let mut store = store_at(&blocks[0]);
    let mut buffer = ReorderBuffer::new();

    for block in &blocks[1..] {
        let outcome = buffer.accept(&mut store, block.clone(), 0, MAX_AGE);
        assert_eq!(outcome.applied, vec![block.clone()]);
        assert!(buffer.is_empty());
    }
    assert_eq!(store.writes, vec![2, 3]);
}

/// The point of the phase: a child that arrives before its parent waits instead of being
/// dropped, and the parent's arrival then applies both — in chain order, not arrival order.
#[test]
fn child_before_parent_drains_works() {
    let blocks = chain(&[1, 2, 3], [0u8; HASH_LEN], 1);
    let mut store = store_at(&blocks[0]);
    let mut buffer = ReorderBuffer::new();

    let buffered = buffer.accept(&mut store, blocks[2].clone(), 0, MAX_AGE);
    assert_eq!(buffered.buffered, Some(blocks[2].clone()));
    assert!(buffered.applied.is_empty());
    assert_eq!(buffer.depth(), 1);

    let drained = buffer.accept(&mut store, blocks[1].clone(), 0, MAX_AGE);
    assert_eq!(drained.applied, vec![blocks[1].clone(), blocks[2].clone()]);
    assert!(buffer.is_empty());
    assert_eq!(store.writes, vec![2, 3]);
}

/// Two siblings of the stored head: the first is applied, and the second cannot be parked —
/// its number is one the stored head has now reached, so no future parent can accept it.
#[test]
fn same_parent_sibling_tie_errors() {
    let parent = candidate(1, [0u8; HASH_LEN], 1, 0);
    let winner = candidate(2, parent.head_hash(), 2, 0);
    let loser = candidate(3, parent.head_hash(), 2, 0);
    let mut store = store_at(&parent);
    let mut buffer = ReorderBuffer::new();

    assert_eq!(buffer.accept(&mut store, winner.clone(), 0, MAX_AGE).applied, vec![winner]);
    let dropped = buffer.accept(&mut store, loser.clone(), 0, MAX_AGE);
    assert_eq!(dropped.dropped, Some((loser, DropReason::OutsideNumberWindow)));
    assert!(buffer.is_empty());
}

/// The shape that made height eviction necessary: children of a fork that loses are parked
/// while it is still plausible, and swept as soon as the winning fork passes their heights.
/// Without this they would sit there until the age backstop, holding slots against the para.
#[test]
fn losing_fork_children_are_swept_works() {
    let root = candidate(1, [0u8; HASH_LEN], 1, 0);
    let losing = chain(&[10, 11], root.head_hash(), 2);
    let winning = chain(&[20, 21], root.head_hash(), 2);
    let mut store = store_at(&root);
    let mut buffer = ReorderBuffer::new();

    // The losing fork's grandchild arrives first, with no parent to attach to: parked.
    assert_eq!(
        buffer.accept(&mut store, losing[1].clone(), 0, MAX_AGE).buffered,
        Some(losing[1].clone())
    );
    // The winning fork then takes both heights.
    assert_eq!(
        buffer.accept(&mut store, winning[0].clone(), 0, MAX_AGE).applied,
        vec![winning[0].clone()]
    );
    assert_eq!(buffer.depth(), 1, "still plausible: number 3 is ahead of the stored head");
    let sweep = buffer.accept(&mut store, winning[1].clone(), 0, MAX_AGE);
    assert_eq!(sweep.evicted, vec![(losing[1].clone(), EvictReason::Overtaken)]);
    assert!(buffer.is_empty());
}

/// The cap bounds what one para can park, and the overflow is dropped with a reason rather
/// than displacing a head that may still be about to drain.
#[test]
fn buffer_cap_errors() {
    let root = candidate(1, [0u8; HASH_LEN], 1, 0);
    let mut store = store_at(&root);
    let mut buffer = ReorderBuffer::new();

    // Numbers 2..=5 are the whole window, and all four have unknown parents.
    for number in 2..=1 + BUFFER_CAP as u32 {
        let orphan = candidate(number as u8 + 100, [9u8; HASH_LEN], number, 0);
        assert!(buffer.accept(&mut store, orphan, 0, MAX_AGE).buffered.is_some());
    }
    assert_eq!(buffer.depth(), BUFFER_CAP);

    let overflow = candidate(200, [9u8; HASH_LEN], 5, 0);
    let dropped = buffer.accept(&mut store, overflow.clone(), 0, MAX_AGE);
    assert_eq!(dropped.dropped, Some((overflow, DropReason::BufferFull)));
    assert_eq!(buffer.depth(), BUFFER_CAP);
}

/// The window, not the cap, is what makes buffer spam pointless: a head too far ahead to be a
/// plausible arrival never occupies a slot in the first place.
#[test]
fn number_window_errors() {
    let root = candidate(1, [0u8; HASH_LEN], 10, 0);
    let mut store = store_at(&root);
    let mut buffer = ReorderBuffer::new();

    let too_far = candidate(2, [9u8; HASH_LEN], 10 + BUFFER_CAP as u32 + 1, 0);
    assert_eq!(
        buffer.accept(&mut store, too_far.clone(), 0, MAX_AGE).dropped,
        Some((too_far, DropReason::OutsideNumberWindow))
    );
    let already_reached = candidate(3, [9u8; HASH_LEN], 10, 0);
    assert_eq!(
        buffer.accept(&mut store, already_reached.clone(), 0, MAX_AGE).dropped,
        Some((already_reached, DropReason::OutsideNumberWindow))
    );
    assert!(buffer.is_empty());
}

/// The same head arriving twice — a resubmission, or the same package reported on two cores —
/// must not take two of the four slots.
#[test]
fn duplicate_errors() {
    let root = candidate(1, [0u8; HASH_LEN], 1, 0);
    let orphan = candidate(2, [9u8; HASH_LEN], 3, 0);
    let mut store = store_at(&root);
    let mut buffer = ReorderBuffer::new();

    assert!(buffer.accept(&mut store, orphan.clone(), 0, MAX_AGE).buffered.is_some());
    assert_eq!(
        buffer.accept(&mut store, orphan.clone(), 0, MAX_AGE).dropped,
        Some((orphan, DropReason::Duplicate))
    );
    assert_eq!(buffer.depth(), 1);
}

/// A parent that never lands leaves its descendants unreachable, and height eviction cannot
/// see them because they are ahead of the stored head. The age backstop is the only thing
/// that frees their slots.
#[test]
fn age_backstop_works() {
    let root = candidate(1, [0u8; HASH_LEN], 1, 0);
    let orphan = candidate(2, [9u8; HASH_LEN], 3, 100);
    let mut store = store_at(&root);
    let mut buffer = ReorderBuffer::new();

    assert!(buffer.accept(&mut store, orphan.clone(), 100, MAX_AGE).buffered.is_some());
    // One slot short of the backstop: still parked.
    let unaffected = candidate(3, [9u8; HASH_LEN], 4, 100 + MAX_AGE);
    buffer.accept(&mut store, unaffected, 100 + MAX_AGE, MAX_AGE);
    assert_eq!(buffer.depth(), 2);

    let later = candidate(4, [9u8; HASH_LEN], 5, 100 + MAX_AGE + 1);
    let outcome = buffer.accept(&mut store, later, 100 + MAX_AGE + 1, MAX_AGE);
    assert_eq!(outcome.evicted, vec![(orphan, EvictReason::TooOld)]);
}

/// Nothing stored is the para's first block: it has no parent to be fresh against, so it is
/// applied whatever it names.
#[test]
fn empty_store_applies_works() {
    let first = candidate(1, [7u8; HASH_LEN], 1, 0);
    let mut store = TestStore::default();
    let mut buffer = ReorderBuffer::new();

    assert_eq!(buffer.accept(&mut store, first.clone(), 0, MAX_AGE).applied, vec![first]);
}

/// Stored bytes that are not a readable head are not an empty store: overwriting them is the
/// papering-over the freshness check exists to prevent.
#[test]
fn unreadable_stored_head_errors() {
    struct Unreadable;
    impl HeadStore for Unreadable {
        fn stored(&self) -> StoredHead {
            self.head()
        }
        fn writes(&self) -> Vec<(BufferedCandidate, bool)> {
            Vec::new()
        }
        fn head(&self) -> StoredHead {
            StoredHead::Unreadable
        }
        fn set_head(&mut self, _candidate: &BufferedCandidate) -> bool {
            panic!("an unreadable head must never be overwritten")
        }
    }

    let arriving = candidate(1, [0u8; HASH_LEN], 1, 0);
    let outcome =
        ReorderBuffer::new().accept(&mut Unreadable, arriving.clone(), 0, MAX_AGE);
    assert_eq!(outcome.dropped, Some((arriving, DropReason::UnreadableStoredHead)));
}

/// A drain that cannot write stops there and leaves the rest parked, which is the same shape
/// gas exhaustion produces: the heads already written stay applied (the service checkpoints
/// after each one) and the remainder drains on a later invocation.
#[test]
fn interrupted_drain_resumes_works() {
    let blocks = chain(&[1, 2, 3, 4], [0u8; HASH_LEN], 1);
    let mut store = store_at(&blocks[0]);
    let mut buffer = ReorderBuffer::new();

    for block in &blocks[2..] {
        assert!(buffer.accept(&mut store, block.clone(), 0, MAX_AGE).buffered.is_some());
    }
    store.fail_next_write = true;
    let interrupted = buffer.accept(&mut store, blocks[1].clone(), 0, MAX_AGE);
    assert!(interrupted.applied.is_empty());
    assert_eq!(store.writes, Vec::<u32>::new());
    assert_eq!(buffer.depth(), 2, "the parked descendants are untouched");

    let resumed = buffer.accept(&mut store, blocks[1].clone(), 0, MAX_AGE);
    assert_eq!(resumed.applied, blocks[1..].to_vec());
    assert_eq!(store.writes, vec![2, 3, 4]);
}

/// The buffer survives a round trip through storage: the drain state is only useful across
/// accumulate invocations, so an encoding change that loses it would be silent otherwise.
#[test]
fn storage_round_trip_works() {
    let mut buffer = ReorderBuffer::new();
    let root = candidate(1, [0u8; HASH_LEN], 1, 0);
    let orphan = candidate(2, [9u8; HASH_LEN], 3, 5);
    buffer.accept(&mut store_at(&root), orphan, 0, MAX_AGE);

    assert_eq!(ReorderBuffer::decode_or_empty(Some(&buffer.encode()[..])), buffer);
    assert!(ReorderBuffer::decode_or_empty(Some(&[0xff, 0xff])).is_empty());
    assert!(ReorderBuffer::decode_or_empty(None).is_empty());
}

/// Encode a substrate `Header<u32>` with an empty digest.
fn header_bytes(parent: [u8; HASH_LEN], number: u32) -> Vec<u8> {
    let mut header = parent.to_vec();
    Compact::from(number).encode_to(&mut header);
    header.extend_from_slice(&[0u8; HASH_LEN]); // state_root
    header.extend_from_slice(&[0u8; HASH_LEN]); // extrinsics_root
    header.push(0); // empty Digest
    header
}

/// The buffer's rules are all measured against the stored head, so reading it wrong would
/// silently change every one of them.
#[test]
fn stored_head_works() {
    let head = header_bytes([1u8; HASH_LEN], 7);
    let stored = ParaInfoLite::with_head(head.clone()).encode();

    assert_eq!(
        StoredHead::read(Some(&stored[..])),
        StoredHead::At { hash: blake2_256(&head), number: 7 }
    );
    // Nothing stored yet: the para's first block has no parent to be fresh against.
    assert_eq!(StoredHead::read(None), StoredHead::Empty);
    // Bytes that are not a `ParaInfo`, and a `ParaInfo` whose head is not a header, are both
    // something other than an empty store.
    assert_eq!(StoredHead::read(Some(&[0xffu8; 3][..])), StoredHead::Unreadable);
    let junk = ParaInfoLite::with_head(vec![0xffu8; 40]);
    assert_eq!(StoredHead::read(Some(&junk.encode()[..])), StoredHead::Unreadable);
}

/// The head map and the buffer must never collide: they are keyed by the same `ParaId`, and
/// the buffer's tag is the one thing in this service that is not the real layout.
#[test]
fn storage_keys_are_distinct_works() {
    assert_eq!(para_head_key(ParaId(3)), vec![0x00, 3, 0, 0, 0]);
    assert_eq!(buffer_key(ParaId(3)), vec![0xf0, 3, 0, 0, 0]);
}

/// The stored record is the real `ParaInfo` layout: the head, two empty options, two zero
/// compact balances and the flag, and it reads back as itself.
#[test]
fn para_info_lite_layout_works() {
    let info = ParaInfoLite::with_head(vec![1, 2, 3, 4]);
    let encoded = info.encode();
    assert_eq!(encoded, vec![16, 1, 2, 3, 4, 0, 0, 0, 0, 0]);
    assert_eq!(ParaInfoLite::decode_all(&encoded), Some(info));
    // Trailing bytes, a bad option tag and a bad flag are all refused.
    assert_eq!(ParaInfoLite::decode_all(&[16, 1, 2, 3, 4, 0, 0, 0, 0, 0, 0]), None);
    assert_eq!(ParaInfoLite::decode_all(&[16, 1, 2, 3, 4, 2, 0, 0, 0, 0]), None);
    assert_eq!(ParaInfoLite::decode_all(&[16, 1, 2, 3, 4, 0, 0, 0, 0, 2]), None);
    // Wide balances round-trip through the codec's compact integers.
    let mut wide = ParaInfoLite::with_head(vec![9]);
    wide.total_state_balance = u64::MAX;
    wide.used_state_balance = 1 << 40;
    assert_eq!(ParaInfoLite::decode_all(&wide.encode()), Some(wide));
}

/// A head longer than the head type allows is refused before it is read.
#[test]
fn oversized_head_errors() {
    let mut bytes = Vec::new();
    Compact::from(4097u32).encode_to(&mut bytes);
    bytes.extend_from_slice(&[0u8; 4097]);
    bytes.extend_from_slice(&[0, 0, 0, 0, 0]);
    assert_eq!(ParaInfoLite::decode_all(&bytes), None);
}

/// Several parked heads survive the round trip, in arrival order.
#[test]
fn storage_round_trip_keeps_order_works() {
    let root = candidate(1, [0u8; HASH_LEN], 1, 0);
    let mut store = store_at(&root);
    let mut buffer = ReorderBuffer::new();
    for number in 2..=4u32 {
        let orphan = candidate(number as u8 + 50, [9u8; HASH_LEN], number, number * 7);
        assert!(buffer.accept(&mut store, orphan, 0, MAX_AGE).buffered.is_some());
    }
    let decoded = ReorderBuffer::decode_or_empty(Some(&buffer.encode()[..]));
    assert_eq!(decoded, buffer);
    assert_eq!(decoded.depth(), 3);
    // A truncated encoding is not a buffer.
    let encoded = buffer.encode();
    assert!(ReorderBuffer::decode_or_empty(Some(&encoded[..encoded.len() - 1])).is_empty());
}

/// Every head write a drain asks for is in the store's log, in chain order, with its answer:
/// the refused one ends the drain, and the retry writes the whole chain.
#[test]
fn drain_write_log_works() {
    let blocks = chain(&[1, 2, 3, 4], [0u8; HASH_LEN], 1);
    let mut store = store_at(&blocks[0]);
    let mut buffer = ReorderBuffer::new();
    for block in &blocks[2..] {
        buffer.accept(&mut store, block.clone(), 0, MAX_AGE);
    }
    assert!(store.writes().is_empty(), "parking writes nothing");

    store.fail_next_write = true;
    buffer.accept(&mut store, blocks[1].clone(), 0, MAX_AGE);
    assert_eq!(store.writes(), vec![(blocks[1].clone(), false)]);

    buffer.accept(&mut store, blocks[1].clone(), 0, MAX_AGE);
    assert_eq!(
        store.writes(),
        vec![
            (blocks[1].clone(), false),
            (blocks[1].clone(), true),
            (blocks[2].clone(), true),
            (blocks[3].clone(), true),
        ]
    );
}
