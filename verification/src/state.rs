//! The Parachain Service's on-chain state layout.
//!
//! Each top-level storage item is assigned a 1-byte tag; the full JAM storage
//! key is `[tag] || SCALE(logical key)` (the tag alone for singletons). The
//! functions here compute those keys and the storage operations the service
//! asks JAM to perform; the host calls themselves are made by the caller.

use crate::hashing::Hash32;
use crate::types::ParaId;
use vstd::prelude::*;

verus! {

/// Storage-item tags.
#[derive(Clone, Copy, Debug, PartialEq, Eq, Structural)]
pub enum Tag {
    Parachains,
    ParachainLog,
    PendingAssigns,
    PendingAssignCores,
    PreimageRegistry,
    StagedValidatorKeys,
    IncomingTransfers,
    IncomingTransferBuckets,
    KeyValueStorage,
}

/// The byte a tag is stored under.
pub open spec fn tag_value(tag: Tag) -> u8 {
    match tag {
        Tag::Parachains => 0x00,
        Tag::ParachainLog => 0x01,
        Tag::PendingAssigns => 0x02,
        Tag::PendingAssignCores => 0x03,
        Tag::PreimageRegistry => 0x04,
        Tag::StagedValidatorKeys => 0x05,
        Tag::IncomingTransfers => 0x06,
        Tag::IncomingTransferBuckets => 0x07,
        Tag::KeyValueStorage => 0x08,
    }
}

impl Tag {
    /// The byte this tag is stored under.
    pub fn byte(self) -> (b: u8)
        ensures
            b == tag_value(self),
    {
        match self {
            Tag::Parachains => 0x00,
            Tag::ParachainLog => 0x01,
            Tag::PendingAssigns => 0x02,
            Tag::PendingAssignCores => 0x03,
            Tag::PreimageRegistry => 0x04,
            Tag::StagedValidatorKeys => 0x05,
            Tag::IncomingTransfers => 0x06,
            Tag::IncomingTransferBuckets => 0x07,
            Tag::KeyValueStorage => 0x08,
        }
    }
}

/// The `n` little-endian octets of `v` (SCALE's fixed-width integers).
pub open spec fn le_bytes(v: nat, n: nat) -> Seq<u8>
    decreases n,
{
    if n == 0 {
        Seq::empty()
    } else {
        seq![(v % 256) as u8] + le_bytes(v / 256, (n - 1) as nat)
    }
}

/// `le_bytes(v, n)` holds `n` octets.
pub proof fn lemma_le_bytes_len(v: nat, n: nat)
    ensures
        le_bytes(v, n).len() == n,
    decreases n,
{
    if n > 0 {
        lemma_le_bytes_len(v / 256, (n - 1) as nat);
    }
}

/// Append the `n` little-endian octets of `v`.
pub fn push_le(out: &mut Vec<u8>, v: u64, n: usize)
    ensures
        final(out)@ == old(out)@ + le_bytes(v as nat, n as nat),
{
    let ghost start = out@;
    let mut cur = v;
    let mut i: usize = 0;
    proof {
        assert(out@ + le_bytes(v as nat, n as nat) =~= start + le_bytes(v as nat, n as nat));
    }
    while i < n
        invariant
            i <= n,
            start + le_bytes(v as nat, n as nat) == out@ + le_bytes(cur as nat, (n - i) as nat),
        decreases n - i,
    {
        let ghost before = out@;
        let ghost c = cur;
        out.push((cur % 256) as u8);
        cur = cur / 256;
        i = i + 1;
        proof {
            assert(le_bytes(c as nat, (n - i + 1) as nat) =~= seq![(c % 256) as u8] + le_bytes(
                cur as nat,
                (n - i) as nat,
            ));
            assert(before + le_bytes(c as nat, (n - i + 1) as nat) =~= out@ + le_bytes(
                cur as nat,
                (n - i) as nat,
            ));
        }
    }
    proof {
        assert(out@ + le_bytes(cur as nat, 0) =~= out@);
    }
}

/// The full JAM storage key for a map entry: `[tag] || key`, where `key` is
/// the SCALE encoding of the logical key.
pub fn storage_key(tag: Tag, encoded_key: &[u8]) -> (k: Vec<u8>)
    ensures
        k@ == seq![tag_value(tag)] + encoded_key@,
{
    let mut k: Vec<u8> = Vec::new();
    k.push(tag.byte());
    let mut i: usize = 0;
    while i < encoded_key.len()
        invariant
            i <= encoded_key@.len(),
            k@ == seq![tag_value(tag)] + encoded_key@.subrange(0, i as int),
        decreases encoded_key@.len() - i,
    {
        k.push(encoded_key[i]);
        i = i + 1;
        proof {
            assert(k@ =~= seq![tag_value(tag)] + encoded_key@.subrange(0, i as int));
        }
    }
    proof {
        assert(encoded_key@.subrange(0, encoded_key@.len() as int) =~= encoded_key@);
    }
    k
}

/// A storage operation the service asks JAM to perform.
#[derive(Clone, Debug, PartialEq, Eq)]
pub enum StorageOp {
    /// Write `value` under `key`.
    Write { key: Vec<u8>, value: Vec<u8> },
    /// Remove the entry under `key` (a no-op if absent).
    Remove { key: Vec<u8> },
}

/// The key a removal targets, if `op` is one.
pub open spec fn removes(op: StorageOp, key: Seq<u8>) -> bool {
    op matches StorageOp::Remove { key: k } && k@ == key
}

/// Remove a singleton (the tag alone is the key).
pub fn clear_singleton(tag: Tag) -> (op: StorageOp)
    ensures
        removes(op, seq![tag_value(tag)]),
{
    let mut key: Vec<u8> = Vec::new();
    key.push(tag.byte());
    StorageOp::Remove { key }
}

/// Storage accessors for the `parachains` map (tag `0x00`), keyed by `ParaId`.
pub struct Parachains;

impl Parachains {
    /// `[0x00] || para_id` (4 octets, little-endian).
    pub fn key(para_id: ParaId) -> (k: Vec<u8>)
        ensures
            k@ == seq![0u8] + le_bytes(para_id.0 as nat, 4),
    {
        let mut k: Vec<u8> = Vec::new();
        k.push(Tag::Parachains.byte());
        push_le(&mut k, para_id.0 as u64, 4);
        k
    }
}

/// Storage accessors for the `parachain_log` map (tag `0x01`), keyed by `ParaId`.
pub struct ParachainLogs;

impl ParachainLogs {
    /// `[0x01] || para_id`.
    pub fn key(para_id: ParaId) -> (k: Vec<u8>)
        ensures
            k@ == seq![1u8] + le_bytes(para_id.0 as nat, 4),
    {
        let mut k: Vec<u8> = Vec::new();
        k.push(Tag::ParachainLog.byte());
        push_le(&mut k, para_id.0 as u64, 4);
        k
    }
}

/// Storage accessors for the `pending_assigns` map (tag `0x02`), keyed by core.
pub struct PendingAssigns;

impl PendingAssigns {
    /// `[0x02] || core` (2 octets, little-endian).
    pub fn key(core: u16) -> (k: Vec<u8>)
        ensures
            k@ == seq![2u8] + le_bytes(core as nat, 2),
    {
        let mut k: Vec<u8> = Vec::new();
        k.push(Tag::PendingAssigns.byte());
        push_le(&mut k, core as u64, 2);
        k
    }
}

/// Storage accessors for the `pending_assign_cores` singleton (tag `0x03`).
pub struct DirtyCores;

impl DirtyCores {
    /// The tag alone.
    pub fn key() -> (k: Vec<u8>)
        ensures
            k@ == seq![3u8],
    {
        let mut k: Vec<u8> = Vec::new();
        k.push(Tag::PendingAssignCores.byte());
        k
    }
}

/// Storage accessors for the `preimage_registry` map (tag `0x04`), keyed by
/// `(hash, len)`: `|key| = 37` with the tag.
pub struct PreimageRegistry;

impl PreimageRegistry {
    /// `[0x04] || hash || len` (4 octets, little-endian).
    pub fn key(hash: &Hash32, len: u32) -> (k: Vec<u8>)
        ensures
            k@ == seq![4u8] + hash@ + le_bytes(len as nat, 4),
            k@.len() == 37,
    {
        let k0 = storage_key(Tag::PreimageRegistry, hash);
        let mut k = k0;
        push_le(&mut k, len as u64, 4);
        proof {
            lemma_le_bytes_len(len as nat, 4);
        }
        k
    }
}

/// Storage accessors for the `staged_validator_keys` singleton (tag `0x05`).
pub struct StagedValidatorKeys;

impl StagedValidatorKeys {
    /// The singleton's key: the tag alone.
    pub fn key() -> (k: Vec<u8>)
        ensures
            k@ == seq![5u8],
    {
        let mut k: Vec<u8> = Vec::new();
        k.push(Tag::StagedValidatorKeys.byte());
        k
    }

    /// Discard the staging buffer.
    pub fn clear() -> (op: StorageOp)
        ensures
            removes(op, seq![5u8]),
    {
        clear_singleton(Tag::StagedValidatorKeys)
    }
}

/// Storage accessors for the `incoming_transfers` map (tag `0x06`), keyed by
/// bucket id.
pub struct TransferBuckets;

impl TransferBuckets {
    /// `[0x06] || bucket_id` (8 octets, little-endian).
    pub fn key(bucket_id: u64) -> (k: Vec<u8>)
        ensures
            k@ == seq![6u8] + le_bytes(bucket_id as nat, 8),
    {
        let mut k: Vec<u8> = Vec::new();
        k.push(Tag::IncomingTransfers.byte());
        push_le(&mut k, bucket_id, 8);
        k
    }
}

/// Storage accessors for the `incoming_transfer_buckets` singleton (tag `0x07`).
/// A missing entry is the empty queue, which is how ids restart at `0`.
pub struct TransferQueue;

impl TransferQueue {
    /// The singleton's key: the tag alone.
    pub fn key() -> (k: Vec<u8>)
        ensures
            k@ == seq![7u8],
    {
        let mut k: Vec<u8> = Vec::new();
        k.push(Tag::IncomingTransferBuckets.byte());
        k
    }

    /// Remove the endpoint pointer.
    pub fn clear() -> (op: StorageOp)
        ensures
            removes(op, seq![7u8]),
    {
        clear_singleton(Tag::IncomingTransferBuckets)
    }
}

/// Storage accessors for the `key_value_storage` map (tag `0x08`), keyed
/// `(ParaId, user_key)`: `para_id` (4 B) then the SCALE `Vec<u8>` user key.
pub struct KeyValueStorage;

impl KeyValueStorage {
    /// `[0x08] || para_id || compact(len) || user_key`.
    pub fn key(para_id: ParaId, user_key: &[u8]) -> (k: Vec<u8>)
        requires
            user_key@.len() <= u32::MAX,
        ensures
            k@ == seq![8u8] + le_bytes(para_id.0 as nat, 4) + crate::scale::compact_encoding(
                user_key@.len(),
            ) + user_key@,
    {
        let mut k: Vec<u8> = Vec::new();
        k.push(Tag::KeyValueStorage.byte());
        push_le(&mut k, para_id.0 as u64, 4);
        crate::scale::push_compact_u32(&mut k, user_key.len() as u32);
        let ghost prefix = k@;
        let mut i: usize = 0;
        while i < user_key.len()
            invariant
                i <= user_key@.len(),
                k@ == prefix + user_key@.subrange(0, i as int),
            decreases user_key@.len() - i,
        {
            k.push(user_key[i]);
            i = i + 1;
            proof {
                assert(k@ =~= prefix + user_key@.subrange(0, i as int));
            }
        }
        proof {
            assert(user_key@.subrange(0, user_key@.len() as int) =~= user_key@);
        }
        k
    }
}

} // verus!
