//! Decode a parasim PoV into the para head, its claimed parent, and its anchor
//! state proof.
//!
//! parasim accepts a work package without running a PVF, so the PoV is the
//! `ParachainBlockData` a collator produces and the walker here follows its
//! SCALE layout. Only `ParachainBlockData::V3` is accepted:
//! `b"VERSIONEDPBD"` + byte `3` + `Vec<Block>` + `CompactProof` +
//! `SchedulingProof` + `Vec<Option<AdditionalData>>`.
//!
//! - `Block` = `Header + Vec<OpaqueExtrinsic>`; the para head is the encoded
//!   header alone, returned as the original byte range.
//! - `Header` = `parent_hash(32) + compact number + state_root(32) +
//!   extrinsics_root(32) + Digest`, and each `DigestItem` starts with a tag
//!   byte: Other=0 (`Vec<u8>`), Consensus=4/Seal=5/PreRuntime=6 (`[u8;4]` +
//!   `Vec<u8>`), RuntimeEnvironmentUpdated=8 (unit).
//! - `CompactProof` (`Vec<Vec<u8>>`) and `SchedulingProof` are skipped; a
//!   zstd-compressed PoV is refused.

use crate::scale::{compact_u32_prefix, decode_compact_u32_at};
use crate::types::MAX_HEAD_DATA_SIZE;
use vstd::prelude::*;

verus! {

/// Magic prefix a cumulus collator prepends to a zstd-compressed PoV.
pub const ZSTD_PREFIX: [u8; 8] = [82, 188, 83, 118, 70, 219, 142, 5];

/// Literal prefix of a versioned `ParachainBlockData` (`b"VERSIONEDPBD"`).
pub const VERSIONED_PREFIX: [u8; 12] = [86, 69, 82, 83, 73, 79, 78, 69, 68, 80, 66, 68];

/// Version byte of `ParachainBlockData::V3`.
pub const V3_VERSION: u8 = 3;

/// `AdditionalData` key under which the collator puts the JAM anchor state
/// proof: the bytes of `"jam/anchor_state_proof"`.
pub const ANCHOR_STATE_PROOF_KEY: [u8; 22] = [
    106, 97, 109, 47, 97, 110, 99, 104, 111, 114, 95, 115, 116, 97, 116, 101, 95, 112, 114, 111,
    111, 102,
];

/// Length of a substrate hash, and so of a header's leading `parent_hash`.
pub const HASH_LEN: usize = 32;

/// Why a PoV could not be turned into a para head.
#[derive(Clone, Copy, Debug, PartialEq, Eq, Structural)]
pub enum PoVError {
    /// The PoV carries the zstd magic: compressed PoVs are not accepted.
    Compressed,
    /// The PoV is not a parseable `ParachainBlockData::V3`.
    Malformed,
    /// A V3 PoV that carries no `jam/anchor_state_proof` entry.
    MissingProof,
}

/// What refine needs out of a PoV.
#[derive(Debug, PartialEq, Eq)]
pub struct PoV<'a> {
    /// The last block's encoded header — the new para head.
    pub head: &'a [u8],
    /// The last block's number, read out of its header.
    pub number: u32,
    /// The first block's `parent_hash`: the head this PoV claims to build on.
    pub parent_hash: [u8; 32],
    /// The SCALE-encoded `(anchor_state_root, StateProof)` the collator attached.
    pub anchor_state_proof: &'a [u8],
}

// ---------------------------------------------------------------------------
// The grammar, as positions into the PoV bytes `s`.
// ---------------------------------------------------------------------------

/// A `Compact<u32>` at `p`: its value and the position after it.
pub open spec fn compact_at(s: Seq<u8>, p: nat) -> Option<(nat, nat)> {
    if p <= s.len() {
        match compact_u32_prefix(s.skip(p as int)) {
            Some((v, n)) => Some((v as nat, p + n)),
            None => None,
        }
    } else {
        None
    }
}

/// `n` raw octets at `p`: the position after them.
pub open spec fn octets_at(s: Seq<u8>, p: nat, n: nat) -> Option<nat> {
    if p + n <= s.len() {
        Some(p + n)
    } else {
        None
    }
}

/// A length-prefixed byte string at `p`: the `(start, end)` of its contents.
pub open spec fn bytes_at(s: Seq<u8>, p: nat) -> Option<(nat, nat)> {
    match compact_at(s, p) {
        Some((n, q)) => if q + n <= s.len() {
            Some((q, q + n))
        } else {
            None
        },
        None => None,
    }
}

/// `count` consecutive length-prefixed byte strings from `p`: the end.
pub open spec fn byte_strings(s: Seq<u8>, p: nat, count: nat) -> Option<nat>
    decreases count,
{
    if count == 0 {
        Some(p)
    } else {
        match byte_strings(s, p, (count - 1) as nat) {
            Some(q) => match bytes_at(s, q) {
                Some((_, e)) => Some(e),
                None => None,
            },
            None => None,
        }
    }
}

/// One `DigestItem` at `p`: the position after it.
pub open spec fn digest_item(s: Seq<u8>, p: nat) -> Option<nat> {
    if p < s.len() {
        let tag = s[p as int];
        if tag == 0 {
            match bytes_at(s, p + 1) {
                Some((_, e)) => Some(e),
                None => None,
            }
        } else if tag == 4 || tag == 5 || tag == 6 {
            match octets_at(s, p + 1, 4) {
                Some(q) => match bytes_at(s, q) {
                    Some((_, e)) => Some(e),
                    None => None,
                },
                None => None,
            }
        } else if tag == 8 {
            Some(p + 1)
        } else {
            None
        }
    } else {
        None
    }
}

/// `count` consecutive digest items from `p`.
pub open spec fn digest_items(s: Seq<u8>, p: nat, count: nat) -> Option<nat>
    decreases count,
{
    if count == 0 {
        Some(p)
    } else {
        match digest_items(s, p, (count - 1) as nat) {
            Some(q) => digest_item(s, q),
            None => None,
        }
    }
}

/// A `Digest` (`Vec<DigestItem>`) at `p`.
pub open spec fn digest_at(s: Seq<u8>, p: nat) -> Option<nat> {
    match compact_at(s, p) {
        Some((count, q)) => digest_items(s, q, count),
        None => None,
    }
}

/// A substrate `Header` at `p`: the position after it.
pub open spec fn header_at(s: Seq<u8>, p: nat) -> Option<nat> {
    match octets_at(s, p, 32) {
        Some(a) => match compact_at(s, a) {
            Some((_, b)) => match octets_at(s, b, 64) {
                Some(c) => digest_at(s, c),
                None => None,
            },
            None => None,
        },
        None => None,
    }
}

/// `count` consecutive headers from `p`.
pub open spec fn headers(s: Seq<u8>, p: nat, count: nat) -> Option<nat>
    decreases count,
{
    if count == 0 {
        Some(p)
    } else {
        match headers(s, p, (count - 1) as nat) {
            Some(q) => header_at(s, q),
            None => None,
        }
    }
}

/// A substrate `Block` at `p`: the end of its header and the end of the
/// block. A header longer than `MAX_HEAD_DATA_SIZE` is refused.
pub open spec fn block_at(s: Seq<u8>, p: nat) -> Option<(nat, nat)> {
    match header_at(s, p) {
        Some(h) => if h - p > MAX_HEAD_DATA_SIZE {
            None
        } else {
            match compact_at(s, h) {
                Some((n, q)) => match byte_strings(s, q, n) {
                    Some(e) => Some((h, e)),
                    None => None,
                },
                None => None,
            }
        },
        None => None,
    }
}

/// `count` consecutive blocks from `p`: the end, and the start and header end
/// of the last block walked (`(p, p)` when `count` is zero).
pub open spec fn blocks(s: Seq<u8>, p: nat, count: nat) -> Option<(nat, nat, nat)>
    decreases count,
{
    if count == 0 {
        Some((p, p, p))
    } else {
        match blocks(s, p, (count - 1) as nat) {
            Some((q, _, _)) => match block_at(s, q) {
                Some((h, e)) => Some((e, q, h)),
                None => None,
            },
            None => None,
        }
    }
}

/// A `CompactProof` (`Vec<Vec<u8>>`) at `p`.
pub open spec fn compact_proof_at(s: Seq<u8>, p: nat) -> Option<nat> {
    match compact_at(s, p) {
        Some((n, q)) => byte_strings(s, q, n),
        None => None,
    }
}

/// A `SchedulingProof` at `p`: a header chain, one more header, and a `None`
/// signed-scheduling-info byte (a `Some` is refused).
pub open spec fn scheduling_proof_at(s: Seq<u8>, p: nat) -> Option<nat> {
    match compact_at(s, p) {
        Some((n, q)) => match headers(s, q, n) {
            Some(r) => match header_at(s, r) {
                Some(t) => if t < s.len() && s[t as int] == 0 {
                    Some(t + 1)
                } else {
                    None
                },
                None => None,
            },
            None => None,
        },
        None => None,
    }
}

/// The key under which the anchor state proof travels.
pub open spec fn anchor_key() -> Seq<u8> {
    ANCHOR_STATE_PROOF_KEY@
}

/// One `(key, value)` entry of an `AdditionalData` map at `p`, given the
/// proof found so far: the position after it and the proof found after it
/// (the first matching entry wins).
pub open spec fn additional_entry(s: Seq<u8>, p: nat, found: Option<(nat, nat)>) -> Option<
    (nat, Option<(nat, nat)>),
> {
    match bytes_at(s, p) {
        Some((ks, ke)) => match bytes_at(s, ke) {
            Some((vs, ve)) => if s.subrange(ks as int, ke as int) == anchor_key() && found is None {
                Some((ve, Some((vs, ve))))
            } else {
                Some((ve, found))
            },
            None => None,
        },
        None => None,
    }
}

/// `count` consecutive `AdditionalData` entries from `p`.
pub open spec fn additional_entries(
    s: Seq<u8>,
    p: nat,
    count: nat,
    found: Option<(nat, nat)>,
) -> Option<(nat, Option<(nat, nat)>)>
    decreases count,
{
    if count == 0 {
        Some((p, found))
    } else {
        match additional_entries(s, p, (count - 1) as nat, found) {
            Some((q, f)) => additional_entry(s, q, f),
            None => None,
        }
    }
}

/// One `Option<AdditionalData>` slot at `p`.
pub open spec fn additional_slot(s: Seq<u8>, p: nat, found: Option<(nat, nat)>) -> Option<
    (nat, Option<(nat, nat)>),
> {
    if p < s.len() {
        if s[p as int] == 0 {
            Some((p + 1, found))
        } else {
            match compact_at(s, p + 1) {
                Some((n, q)) => additional_entries(s, q, n, found),
                None => None,
            }
        }
    } else {
        None
    }
}

/// `count` consecutive slots from `p`.
pub open spec fn additional_slots(
    s: Seq<u8>,
    p: nat,
    count: nat,
    found: Option<(nat, nat)>,
) -> Option<(nat, Option<(nat, nat)>)>
    decreases count,
{
    if count == 0 {
        Some((p, found))
    } else {
        match additional_slots(s, p, (count - 1) as nat, found) {
            Some((q, f)) => additional_slot(s, q, f),
            None => None,
        }
    }
}

/// The `Vec<Option<AdditionalData>>` at `p`: the position after it and the
/// range of the first anchor-state-proof value, if any.
pub open spec fn additional_data_at(s: Seq<u8>, p: nat) -> Option<(nat, Option<(nat, nat)>)> {
    match compact_at(s, p) {
        Some((n, q)) => additional_slots(s, q, n, None),
        None => None,
    }
}

/// `s` starts with `prefix`.
pub open spec fn has_prefix(s: Seq<u8>, prefix: Seq<u8>) -> bool {
    prefix.len() <= s.len() && s.subrange(0, prefix.len() as int) == prefix
}

/// Where a valid V3 PoV keeps what refine needs: the start of the first block
/// (whose first 32 octets are its parent hash), the last block's header range,
/// and the range of the anchor state proof — or why the PoV is refused.
pub open spec fn pov_layout(s: Seq<u8>) -> Result<(nat, nat, nat, nat, nat), PoVError> {
    if has_prefix(s, ZSTD_PREFIX@) {
        Err(PoVError::Compressed)
    } else if !has_prefix(s, VERSIONED_PREFIX@) || s.len() <= 12 || s[12] != V3_VERSION {
        Err(PoVError::Malformed)
    } else {
        match compact_at(s, 13) {
            None => Err(PoVError::Malformed),
            Some((count, first)) => match blocks(s, first, count) {
                None => Err(PoVError::Malformed),
                Some((after_blocks, last_start, last_end)) => if count == 0 {
                    Err(PoVError::Malformed)
                } else {
                    match compact_proof_at(s, after_blocks) {
                        None => Err(PoVError::Malformed),
                        Some(a) => match scheduling_proof_at(s, a) {
                            None => Err(PoVError::Malformed),
                            Some(b) => match additional_data_at(s, b) {
                                None => Err(PoVError::Malformed),
                                Some((_, None)) => Err(PoVError::MissingProof),
                                Some((_, Some((ps, pe)))) => Ok(
                                    (first, last_start, last_end, ps, pe),
                                ),
                            },
                        },
                    }
                },
            },
        }
    }
}

/// The block number inside an encoded header: the compact integer after its
/// 32-octet parent hash.
pub open spec fn number_in_header(h: Seq<u8>) -> Option<u32> {
    if h.len() < 32 {
        None
    } else {
        match compact_u32_prefix(h.skip(32)) {
            Some((v, _)) => Some(v),
            None => None,
        }
    }
}

// ---------------------------------------------------------------------------
// The walker.
// ---------------------------------------------------------------------------

fn read_compact_len(input: &[u8], pos: usize) -> (r: Result<(u32, usize), PoVError>)
    requires
        pos <= input@.len(),
    ensures
        r matches Ok((v, q)) ==> compact_at(input@, pos as nat) == Some((v as nat, q as nat)),
        r matches Err(e) ==> e == PoVError::Malformed && compact_at(input@, pos as nat) is None,
{
    match decode_compact_u32_at(input, pos) {
        Some((v, q)) => Ok((v, q)),
        None => Err(PoVError::Malformed),
    }
}

fn skip(input: &[u8], pos: usize, len: usize) -> (r: Result<usize, PoVError>)
    requires
        pos <= input@.len(),
    ensures
        r matches Ok(q) ==> octets_at(input@, pos as nat, len as nat) == Some(q as nat),
        r matches Err(e) ==> e == PoVError::Malformed && octets_at(
            input@,
            pos as nat,
            len as nat,
        ) is None,
{
    if input.len() - pos < len {
        Err(PoVError::Malformed)
    } else {
        Ok(pos + len)
    }
}

/// A length-prefixed byte string (`Vec<u8>`, or a SCALE `String`).
fn read_bytes(input: &[u8], pos: usize) -> (r: Result<(usize, usize), PoVError>)
    requires
        pos <= input@.len(),
    ensures
        r matches Ok((a, b)) ==> bytes_at(input@, pos as nat) == Some((a as nat, b as nat)),
        r matches Err(e) ==> e == PoVError::Malformed && bytes_at(input@, pos as nat) is None,
{
    let (len, q) = match read_compact_len(input, pos) {
        Ok(v) => v,
        Err(e) => return Err(e),
    };
    if input.len() - q < len as usize {
        return Err(PoVError::Malformed);
    }
    Ok((q, q + len as usize))
}

fn skip_byte_strings(input: &[u8], pos: usize, count: u32) -> (r: Result<usize, PoVError>)
    requires
        pos <= input@.len(),
    ensures
        r matches Ok(q) ==> byte_strings(input@, pos as nat, count as nat) == Some(q as nat),
        r matches Err(e) ==> e == PoVError::Malformed && byte_strings(
            input@,
            pos as nat,
            count as nat,
        ) is None,
{
    let mut p = pos;
    let mut i: u32 = 0;
    while i < count
        invariant
            i <= count,
            p <= input@.len(),
            byte_strings(input@, pos as nat, i as nat) == Some(p as nat),
        ensures
            byte_strings(input@, pos as nat, count as nat) == Some(p as nat),
        decreases count - i,
    {
        match read_bytes(input, p) {
            Ok((_, e)) => {
                p = e;
            },
            Err(e) => {
                proof {
                    lemma_byte_strings_fail(input@, pos as nat, (i + 1) as nat, count as nat);
                }
                return Err(e);
            },
        }
        i = i + 1;
    }
    Ok(p)
}

proof fn lemma_byte_strings_fail(s: Seq<u8>, p: nat, i: nat, n: nat)
    requires
        i <= n,
        byte_strings(s, p, i) is None,
    ensures
        byte_strings(s, p, n) is None,
    decreases n - i,
{
    if i < n {
        lemma_byte_strings_fail(s, p, i + 1, n);
    }
}

proof fn lemma_digest_items_fail(s: Seq<u8>, p: nat, i: nat, n: nat)
    requires
        i <= n,
        digest_items(s, p, i) is None,
    ensures
        digest_items(s, p, n) is None,
    decreases n - i,
{
    if i < n {
        lemma_digest_items_fail(s, p, i + 1, n);
    }
}

proof fn lemma_headers_fail(s: Seq<u8>, p: nat, i: nat, n: nat)
    requires
        i <= n,
        headers(s, p, i) is None,
    ensures
        headers(s, p, n) is None,
    decreases n - i,
{
    if i < n {
        lemma_headers_fail(s, p, i + 1, n);
    }
}

proof fn lemma_blocks_fail(s: Seq<u8>, p: nat, i: nat, n: nat)
    requires
        i <= n,
        blocks(s, p, i) is None,
    ensures
        blocks(s, p, n) is None,
    decreases n - i,
{
    if i < n {
        lemma_blocks_fail(s, p, i + 1, n);
    }
}

proof fn lemma_entries_fail(s: Seq<u8>, p: nat, i: nat, n: nat, f: Option<(nat, nat)>)
    requires
        i <= n,
        additional_entries(s, p, i, f) is None,
    ensures
        additional_entries(s, p, n, f) is None,
    decreases n - i,
{
    if i < n {
        lemma_entries_fail(s, p, i + 1, n, f);
    }
}

proof fn lemma_slots_fail(s: Seq<u8>, p: nat, i: nat, n: nat, f: Option<(nat, nat)>)
    requires
        i <= n,
        additional_slots(s, p, i, f) is None,
    ensures
        additional_slots(s, p, n, f) is None,
    decreases n - i,
{
    if i < n {
        lemma_slots_fail(s, p, i + 1, n, f);
    }
}

fn read_byte(input: &[u8], pos: usize) -> (r: Result<u8, PoVError>)
    requires
        pos <= input@.len(),
    ensures
        r matches Ok(b) ==> pos < input@.len() <= usize::MAX && b == input@[pos as int],
        r matches Err(e) ==> e == PoVError::Malformed && pos == input@.len(),
{
    if pos < input.len() {
        Ok(input[pos])
    } else {
        Err(PoVError::Malformed)
    }
}

fn skip_digest_item(input: &[u8], pos: usize) -> (r: Result<usize, PoVError>)
    requires
        pos <= input@.len(),
    ensures
        r matches Ok(q) ==> digest_item(input@, pos as nat) == Some(q as nat),
        r matches Err(e) ==> e == PoVError::Malformed && digest_item(input@, pos as nat) is None,
{
    let tag = match read_byte(input, pos) {
        Ok(v) => v,
        Err(e) => return Err(e),
    };
    if tag == 0 {
        let (_, e) = match read_bytes(input, pos + 1) {
        Ok(v) => v,
        Err(e) => return Err(e),
    };
        Ok(e)
    } else if tag == 4 || tag == 5 || tag == 6 {
        let q = match skip(input, pos + 1, 4) {
        Ok(v) => v,
        Err(e) => return Err(e),
    };
        let (_, e) = match read_bytes(input, q) {
        Ok(v) => v,
        Err(e) => return Err(e),
    };
        Ok(e)
    } else if tag == 8 {
        Ok(pos + 1)
    } else {
        Err(PoVError::Malformed)
    }
}

/// Skip a substrate `Digest` (`Vec<DigestItem>`).
fn skip_digest(input: &[u8], pos: usize) -> (r: Result<usize, PoVError>)
    requires
        pos <= input@.len(),
    ensures
        r matches Ok(q) ==> digest_at(input@, pos as nat) == Some(q as nat),
        r matches Err(e) ==> e == PoVError::Malformed && digest_at(input@, pos as nat) is None,
{
    let (count, start) = match read_compact_len(input, pos) {
        Ok(v) => v,
        Err(e) => return Err(e),
    };
    let mut p = start;
    let mut i: u32 = 0;
    while i < count
        invariant
            i <= count,
            start <= p <= input@.len(),
            compact_at(input@, pos as nat) == Some((count as nat, start as nat)),
            digest_items(input@, start as nat, i as nat) == Some(p as nat),
        ensures
            digest_items(input@, start as nat, count as nat) == Some(p as nat),
        decreases count - i,
    {
        match skip_digest_item(input, p) {
            Ok(q) => {
                p = q;
            },
            Err(e) => {
                proof {
                    lemma_digest_items_fail(input@, start as nat, (i + 1) as nat, count as nat);
                }
                return Err(e);
            },
        }
        i = i + 1;
    }
    Ok(p)
}

/// Skip a substrate `Header<u32, BlakeTwo256>`.
fn skip_header(input: &[u8], pos: usize) -> (r: Result<usize, PoVError>)
    requires
        pos <= input@.len(),
    ensures
        r matches Ok(q) ==> header_at(input@, pos as nat) == Some(q as nat),
        r matches Err(e) ==> e == PoVError::Malformed && header_at(input@, pos as nat) is None,
{
    let a = match skip(input, pos, HASH_LEN) {
        Ok(v) => v,
        Err(e) => return Err(e),
    };
    let (_, b) = match read_compact_len(input, a) {
        Ok(v) => v,
        Err(e) => return Err(e),
    };
    let c = match skip(input, b, 2 * HASH_LEN) {
        Ok(v) => v,
        Err(e) => return Err(e),
    };
    skip_digest(input, c)
}

proof fn lemma_header_end(s: Seq<u8>, p: nat)
    requires
        header_at(s, p) is Some,
    ensures
        p + 32 <= header_at(s, p)->0 <= s.len(),
{
    let a = octets_at(s, p, 32)->0;
    let b = compact_at(s, a).unwrap().1;
    let c = octets_at(s, b, 64)->0;
    let cnt = compact_at(s, c).unwrap().0;
    let q = compact_at(s, c).unwrap().1;
    lemma_digest_items_bounds(s, q, cnt);
}

proof fn lemma_blocks_first(s: Seq<u8>, p: nat, n: nat)
    requires
        n >= 1,
        blocks(s, p, n) is Some,
    ensures
        block_at(s, p) is Some,
    decreases n,
{
    assert(blocks(s, p, 0) == Some((p, p, p)));
    if n > 1 {
        lemma_blocks_first(s, p, (n - 1) as nat);
    }
}

proof fn lemma_digest_items_bounds(s: Seq<u8>, p: nat, n: nat)
    requires
        p <= s.len(),
        digest_items(s, p, n) is Some,
    ensures
        p <= digest_items(s, p, n)->0 <= s.len(),
    decreases n,
{
    if n > 0 {
        lemma_digest_items_bounds(s, p, (n - 1) as nat);
    }
}

/// The prefix decoder reads only the octets it takes.
proof fn lemma_compact_prefix_local(x: Seq<u8>, y: Seq<u8>)
    requires
        compact_u32_prefix(x) is Some,
        compact_u32_prefix(x).unwrap().1 <= y.len(),
        forall|i: int| 0 <= i < compact_u32_prefix(x).unwrap().1 ==> x[i] == y[i],
    ensures
        compact_u32_prefix(y) == compact_u32_prefix(x),
{
    assert(x[0] == y[0]);
    let n = compact_u32_prefix(x).unwrap().1;
    if n >= 2 {
        assert(x[1] == y[1]);
    }
    if n >= 4 {
        assert(x[2] == y[2]);
        assert(x[3] == y[3]);
    }
    if n >= 5 {
        assert(x[4] == y[4]);
    }
}

/// A parsed header holds its number right after the parent hash.
proof fn lemma_header_has_number(s: Seq<u8>, p: nat)
    requires
        header_at(s, p) is Some,
    ensures
        number_in_header(s.subrange(p as int, header_at(s, p)->0 as int)) == Some(
            compact_at(s, p + 32).unwrap().0 as u32,
        ),
{
    let h = header_at(s, p)->0;
    lemma_header_end(s, p);
    let hd = s.subrange(p as int, h as int);
    let x = s.skip((p + 32) as int);
    let y = hd.skip(32);
    let n = compact_u32_prefix(x).unwrap().1;
    let b = compact_at(s, p + 32).unwrap().1;
    let c = octets_at(s, b, 64)->0;
    let q = compact_at(s, c).unwrap().1;
    lemma_digest_items_bounds(s, q, compact_at(s, c).unwrap().0);
    assert(p + 32 + n <= h);
    assert forall|i: int| 0 <= i < n implies x[i] == y[i] by {}
    lemma_compact_prefix_local(x, y);
}

/// Walk one substrate `Block`, returning the end of its header and of the block.
fn skip_block(input: &[u8], pos: usize) -> (r: Result<(usize, usize), PoVError>)
    requires
        pos <= input@.len(),
    ensures
        r matches Ok((h, e)) ==> block_at(input@, pos as nat) == Some((h as nat, e as nat)),
        r matches Err(err) ==> err == PoVError::Malformed && block_at(input@, pos as nat) is None,
{
    let h = match skip_header(input, pos) {
        Ok(v) => v,
        Err(e) => return Err(e),
    };
    proof {
        lemma_header_end(input@, pos as nat);
    }
    if h - pos > MAX_HEAD_DATA_SIZE as usize {
        return Err(PoVError::Malformed);
    }
    let (n, q) = match read_compact_len(input, h) {
        Ok(v) => v,
        Err(e) => return Err(e),
    };
    let e = match skip_byte_strings(input, q, n) {
        Ok(v) => v,
        Err(e) => return Err(e),
    };
    Ok((h, e))
}

/// Skip a `CompactProof { encoded_nodes: Vec<Vec<u8>> }`.
fn skip_compact_proof(input: &[u8], pos: usize) -> (r: Result<usize, PoVError>)
    requires
        pos <= input@.len(),
    ensures
        r matches Ok(q) ==> compact_proof_at(input@, pos as nat) == Some(q as nat),
        r matches Err(e) ==> e == PoVError::Malformed && compact_proof_at(input@, pos as nat) is None,
{
    let (n, q) = match read_compact_len(input, pos) {
        Ok(v) => v,
        Err(e) => return Err(e),
    };
    skip_byte_strings(input, q, n)
}

/// Skip a `SchedulingProof { header_chain, internal_scheduling_parent_header,
/// signed_scheduling_info }`; a `Some` scheduling info is refused.
fn skip_scheduling_proof(input: &[u8], pos: usize) -> (r: Result<usize, PoVError>)
    requires
        pos <= input@.len(),
    ensures
        r matches Ok(q) ==> scheduling_proof_at(input@, pos as nat) == Some(q as nat),
        r matches Err(e) ==> e == PoVError::Malformed && scheduling_proof_at(input@, pos as nat)
            is None,
{
    let (count, start) = match read_compact_len(input, pos) {
        Ok(v) => v,
        Err(e) => return Err(e),
    };
    let mut p = start;
    let mut i: u32 = 0;
    while i < count
        invariant
            i <= count,
            p <= input@.len(),
            compact_at(input@, pos as nat) == Some((count as nat, start as nat)),
            headers(input@, start as nat, i as nat) == Some(p as nat),
        ensures
            headers(input@, start as nat, count as nat) == Some(p as nat),
        decreases count - i,
    {
        match skip_header(input, p) {
            Ok(q) => {
                proof {
                    lemma_header_end(input@, p as nat);
                }
                p = q;
            },
            Err(e) => {
                proof {
                    lemma_headers_fail(input@, start as nat, (i + 1) as nat, count as nat);
                }
                return Err(e);
            },
        }
        i = i + 1;
    }
    let t = match skip_header(input, p) {
        Ok(v) => v,
        Err(e) => return Err(e),
    };
    proof {
        lemma_header_end(input@, p as nat);
    }
    let b = match read_byte(input, t) {
        Ok(v) => v,
        Err(e) => return Err(e),
    };
    if b == 0 {
        Ok(t + 1)
    } else {
        Err(PoVError::Malformed)
    }
}

/// Does `input[a..b]` hold the anchor-state-proof key?
fn is_anchor_key(input: &[u8], a: usize, b: usize) -> (r: bool)
    requires
        a <= b <= input@.len(),
    ensures
        r == (input@.subrange(a as int, b as int) == anchor_key()),
{
    if b - a != 22 {
        proof {
            assert(input@.subrange(a as int, b as int).len() != anchor_key().len());
        }
        return false;
    }
    let mut i: usize = 0;
    while i < 22
        invariant
            i <= 22,
            b - a == 22,
            a <= b <= input@.len(),
            forall|j: int| 0 <= j < i ==> input@[a + j] == ANCHOR_STATE_PROOF_KEY@[j],
        decreases 22 - i,
    {
        if input[a + i] != ANCHOR_STATE_PROOF_KEY[i] {
            proof {
                assert(input@.subrange(a as int, b as int)[i as int] != anchor_key()[i as int]);
            }
            return false;
        }
        i = i + 1;
    }
    proof {
        assert(input@.subrange(a as int, b as int) =~= anchor_key());
    }
    true
}

/// One `(key, value)` entry of an `AdditionalData` map.
fn read_additional_entry(input: &[u8], pos: usize, found: Option<(usize, usize)>) -> (r: Result<
    (usize, Option<(usize, usize)>),
    PoVError,
>)
    requires
        pos <= input@.len(),
        found matches Some((x, y)) ==> x <= y <= input@.len(),
    ensures
        r matches Ok((q, f)) ==> additional_entry(input@, pos as nat, opt_nat(found)) == Some(
            (q as nat, opt_nat(f)),
        ) && q <= input@.len() && (f matches Some((x, y)) ==> x <= y <= input@.len()),
        r matches Err(e) ==> e == PoVError::Malformed && additional_entry(
            input@,
            pos as nat,
            opt_nat(found),
        ) is None,
{
    let (ks, ke) = match read_bytes(input, pos) {
        Ok(v) => v,
        Err(e) => return Err(e),
    };
    let (vs, ve) = match read_bytes(input, ke) {
        Ok(v) => v,
        Err(e) => return Err(e),
    };
    if found.is_none() && is_anchor_key(input, ks, ke) {
        Ok((ve, Some((vs, ve))))
    } else {
        Ok((ve, found))
    }
}

/// A found range, as positions.
pub open spec fn opt_nat(f: Option<(usize, usize)>) -> Option<(nat, nat)> {
    match f {
        Some((a, b)) => Some((a as nat, b as nat)),
        None => None,
    }
}

/// One `Option<AdditionalData>` slot.
fn read_additional_slot(input: &[u8], pos: usize, found: Option<(usize, usize)>) -> (r: Result<
    (usize, Option<(usize, usize)>),
    PoVError,
>)
    requires
        pos <= input@.len(),
        found matches Some((x, y)) ==> x <= y <= input@.len(),
    ensures
        r matches Ok((q, f)) ==> additional_slot(input@, pos as nat, opt_nat(found)) == Some(
            (q as nat, opt_nat(f)),
        ) && q <= input@.len() && (f matches Some((x, y)) ==> x <= y <= input@.len()),
        r matches Err(e) ==> e == PoVError::Malformed && additional_slot(
            input@,
            pos as nat,
            opt_nat(found),
        ) is None,
{
    let tag = match read_byte(input, pos) {
        Ok(v) => v,
        Err(e) => return Err(e),
    };
    if tag == 0 {
        return Ok((pos + 1, found));
    }
    let (count, start) = match read_compact_len(input, pos + 1) {
        Ok(v) => v,
        Err(e) => return Err(e),
    };
    let mut p = start;
    let mut f = found;
    let mut i: u32 = 0;
    while i < count
        invariant
            i <= count,
            p <= input@.len(),
            f matches Some((x, y)) ==> x <= y <= input@.len(),
            pos < input@.len(),
            input@[pos as int] != 0,
            compact_at(input@, (pos + 1) as nat) == Some((count as nat, start as nat)),
            additional_entries(input@, start as nat, i as nat, opt_nat(found)) == Some(
                (p as nat, opt_nat(f)),
            ),
        ensures
            p <= input@.len(),
            f matches Some((x, y)) ==> x <= y <= input@.len(),
            additional_entries(input@, start as nat, count as nat, opt_nat(found)) == Some(
                (p as nat, opt_nat(f)),
            ),
        decreases count - i,
    {
        match read_additional_entry(input, p, f) {
            Ok((q, nf)) => {
                p = q;
                f = nf;
            },
            Err(e) => {
                proof {
                    lemma_entries_fail(
                        input@,
                        start as nat,
                        (i + 1) as nat,
                        count as nat,
                        opt_nat(found),
                    );
                }
                return Err(e);
            },
        }
        i = i + 1;
    }
    Ok((p, f))
}

/// Find the `jam/anchor_state_proof` entry in `Vec<Option<AdditionalData>>`;
/// the first entry carrying it wins.
fn read_anchor_state_proof(input: &[u8], pos: usize) -> (r: Result<(usize, usize), PoVError>)
    requires
        pos <= input@.len(),
    ensures
        r matches Ok((a, b)) ==> additional_data_at(input@, pos as nat) matches Some(
            (_, Some((x, y))),
        ) && x == a && y == b && a <= b <= input@.len(),
        r matches Err(e) ==> (e == PoVError::Malformed && additional_data_at(input@, pos as nat)
            is None) || (e == PoVError::MissingProof && additional_data_at(input@, pos as nat)
            matches Some((_, None))),
{
    let (count, start) = match read_compact_len(input, pos) {
        Ok(v) => v,
        Err(e) => return Err(e),
    };
    let mut p = start;
    let mut f: Option<(usize, usize)> = None;
    let mut i: u32 = 0;
    while i < count
        invariant
            i <= count,
            p <= input@.len(),
            f matches Some((x, y)) ==> x <= y <= input@.len(),
            compact_at(input@, pos as nat) == Some((count as nat, start as nat)),
            additional_slots(input@, start as nat, i as nat, None) == Some((p as nat, opt_nat(f))),
        ensures
            f matches Some((x, y)) ==> x <= y <= input@.len(),
            additional_slots(input@, start as nat, count as nat, None) == Some(
                (p as nat, opt_nat(f)),
            ),
        decreases count - i,
    {
        match read_additional_slot(input, p, f) {
            Ok((q, nf)) => {
                p = q;
                f = nf;
            },
            Err(e) => {
                proof {
                    lemma_slots_fail(input@, start as nat, (i + 1) as nat, count as nat, None);
                }
                return Err(e);
            },
        }
        i = i + 1;
    }
    match f {
        Some((a, b)) => Ok((a, b)),
        None => Err(PoVError::MissingProof),
    }
}

/// Does `input` start with `prefix`?
fn starts_with(input: &[u8], prefix: &[u8]) -> (r: bool)
    ensures
        r == has_prefix(input@, prefix@),
{
    if prefix.len() > input.len() {
        return false;
    }
    let mut i: usize = 0;
    while i < prefix.len()
        invariant
            i <= prefix@.len() <= input@.len(),
            forall|j: int| 0 <= j < i ==> input@[j] == prefix@[j],
        decreases prefix@.len() - i,
    {
        if input[i] != prefix[i] {
            proof {
                assert(input@.subrange(0, prefix@.len() as int)[i as int] != prefix@[i as int]);
            }
            return false;
        }
        i = i + 1;
    }
    proof {
        assert(input@.subrange(0, prefix@.len() as int) =~= prefix@);
    }
    true
}

/// The block number an encoded header carries: the compact integer after its
/// 32-octet parent hash. `None` when the bytes are too short or the number
/// does not decode.
pub fn header_number(head: &[u8]) -> (r: Option<u32>)
    ensures
        r == number_in_header(head@),
{
    if head.len() < HASH_LEN {
        return None;
    }
    match decode_compact_u32_at(head, HASH_LEN) {
        Some((v, _)) => Some(v),
        None => None,
    }
}

/// Walk the blocks of a V3 PoV from `start`: the end of the walk, and the
/// start and header end of the last block.
fn walk_blocks(input: &[u8], start: usize, count: u32) -> (r: Result<(usize, usize, usize), PoVError>)
    requires
        start <= input@.len(),
    ensures
        r matches Ok((e, ls, le)) ==> blocks(input@, start as nat, count as nat) == Some(
            (e as nat, ls as nat, le as nat),
        ) && ls <= le <= e <= input@.len(),
        r matches Err(err) ==> err == PoVError::Malformed && blocks(
            input@,
            start as nat,
            count as nat,
        ) is None,
{
    let mut p = start;
    let mut last_start = start;
    let mut last_end = start;
    let mut i: u32 = 0;
    while i < count
        invariant
            i <= count,
            last_start <= last_end <= p <= input@.len(),
            blocks(input@, start as nat, i as nat) == Some(
                (p as nat, last_start as nat, last_end as nat),
            ),
        ensures
            last_start <= last_end <= p <= input@.len(),
            blocks(input@, start as nat, count as nat) == Some(
                (p as nat, last_start as nat, last_end as nat),
            ),
        decreases count - i,
    {
        match skip_block(input, p) {
            Ok((h, e)) => {
                proof {
                    lemma_header_end(input@, p as nat);
                    lemma_byte_strings_bounds(
                        input@,
                        compact_at(input@, h as nat).unwrap().1,
                        compact_at(input@, h as nat).unwrap().0,
                    );
                }
                last_start = p;
                last_end = h;
                p = e;
            },
            Err(err) => {
                proof {
                    lemma_blocks_fail(input@, start as nat, (i + 1) as nat, count as nat);
                }
                return Err(err);
            },
        }
        i = i + 1;
    }
    Ok((p, last_start, last_end))
}

proof fn lemma_byte_strings_bounds(s: Seq<u8>, p: nat, n: nat)
    requires
        byte_strings(s, p, n) is Some,
    ensures
        p <= byte_strings(s, p, n)->0,
    decreases n,
{
    if n > 0 {
        lemma_byte_strings_bounds(s, p, (n - 1) as nat);
    }
}

/// Walk a V3 PoV, borrowing the head and proof out of it.
#[verifier::spinoff_prover]
#[verifier::rlimit(60)]
pub fn decode_pov(pov: &[u8]) -> (r: Result<PoV<'_>, PoVError>)
    ensures
        r matches Err(e) ==> pov_layout(pov@) == Err::<(nat, nat, nat, nat, nat), _>(e),
        r matches Ok(p) ==> (pov_layout(pov@) matches Ok((first, hs, he, ps, pe)) && p.head@
            == pov@.subrange(hs as int, he as int) && p.parent_hash@ == pov@.subrange(
            first as int,
            first + 32int,
        ) && p.anchor_state_proof@ == pov@.subrange(ps as int, pe as int) && number_in_header(
            p.head@,
        ) == Some(p.number)),
{
    if starts_with(pov, &ZSTD_PREFIX) {
        return Err(PoVError::Compressed);
    }
    if !starts_with(pov, &VERSIONED_PREFIX) {
        return Err(PoVError::Malformed);
    }
    let version = match read_byte(pov, 12) {
        Ok(v) => v,
        Err(e) => return Err(e),
    };
    if version != V3_VERSION {
        return Err(PoVError::Malformed);
    }
    let (count, first) = match read_compact_len(pov, 13) {
        Ok(v) => v,
        Err(e) => return Err(e),
    };
    let (after_blocks, last_start, last_end) = match walk_blocks(pov, first, count) {
        Ok(v) => v,
        Err(e) => return Err(e),
    };
    if count == 0 {
        // A PoV with no blocks moves no head.
        return Err(PoVError::Malformed);
    }
    let a = match skip_compact_proof(pov, after_blocks) {
        Ok(v) => v,
        Err(e) => return Err(e),
    };
    proof {
        lemma_byte_strings_bounds(
            pov@,
            compact_at(pov@, after_blocks as nat).unwrap().1,
            compact_at(pov@, after_blocks as nat).unwrap().0,
        );
    }
    let b = match skip_scheduling_proof(pov, a) {
        Ok(v) => v,
        Err(e) => return Err(e),
    };
    let (ps, pe) = match read_anchor_state_proof(pov, b) {
        Ok(v) => v,
        Err(e) => return Err(e),
    };
    proof {
        // The first block starts at `first`, so its header holds a parent hash.
        lemma_blocks_first(pov@, first as nat, count as nat);
        lemma_header_end(pov@, first as nat);
        lemma_header_end(pov@, last_start as nat);
        lemma_header_has_number(pov@, last_start as nat);
    }
    let head = &pov[last_start..last_end];
    let mut parent_hash = [0u8; 32];
    let mut i: usize = 0;
    while i < 32
        invariant
            i <= 32,
            first + 32 <= pov@.len() <= usize::MAX,
            forall|j: int| 0 <= j < i ==> parent_hash@[j] == pov@[first + j],
        decreases 32 - i,
    {
        parent_hash[i] = pov[first + i];
        i = i + 1;
    }
    proof {
        assert(parent_hash@ =~= pov@.subrange(first as int, first + 32));
    }
    let number = match header_number(head) {
        Some(n) => n,
        None => {
            proof {
                assert(false);
            }
            return Err(PoVError::Malformed);
        },
    };
    Ok(PoV { head, number, parent_hash, anchor_state_proof: &pov[ps..pe] })
}


// ---------------------------------------------------------------------------
// Truncation: every step of the grammar reads only up to where it ends, so
// a prefix gives the same result where the step ends within it, and refuses
// it otherwise.
// ---------------------------------------------------------------------------

/// The compact decoder on a prefix: the same where it fits, refused where not.
proof fn lemma_compact_prefix_cut(w: Seq<u8>, m: nat)
    requires
        compact_u32_prefix(w) is Some,
        m <= w.len(),
    ensures
        compact_u32_prefix(w).unwrap().1 >= 1,
        compact_u32_prefix(w.take(m as int)) == (if compact_u32_prefix(w).unwrap().1 <= m {
            compact_u32_prefix(w)
        } else {
            None
        }),
{
    let u = w.take(m as int);
    let n = compact_u32_prefix(w).unwrap().1;
    if n <= m {
        lemma_compact_prefix_local(w, u);
    } else if m > 0 {
        assert(u[0] == w[0]);
    }
}

proof fn lemma_compact_at_cut(s: Seq<u8>, c: nat, p: nat)
    requires
        c <= s.len(),
        compact_at(s, p) is Some,
    ensures
        p < compact_at(s, p).unwrap().1,
        compact_at(s.take(c as int), p) == (if compact_at(s, p).unwrap().1 <= c {
            compact_at(s, p)
        } else {
            None
        }),
{
    let w = s.skip(p as int);
    if p <= c {
        lemma_compact_prefix_cut(w, (c - p) as nat);
        assert(s.take(c as int).skip(p as int) =~= w.take((c - p) as int));
    } else {
        lemma_compact_prefix_cut(w, 0);
    }
}

proof fn lemma_bytes_at_cut(s: Seq<u8>, c: nat, p: nat)
    requires
        c <= s.len(),
        bytes_at(s, p) is Some,
    ensures
        p < bytes_at(s, p).unwrap().1,
        bytes_at(s.take(c as int), p) == (if bytes_at(s, p).unwrap().1 <= c {
            bytes_at(s, p)
        } else {
            None
        }),
{
    lemma_compact_at_cut(s, c, p);
}

proof fn lemma_byte_strings_cut(s: Seq<u8>, c: nat, p: nat, n: nat)
    requires
        c <= s.len(),
        byte_strings(s, p, n) is Some,
    ensures
        p <= byte_strings(s, p, n).unwrap(),
        p <= c ==> byte_strings(s.take(c as int), p, n) == (if byte_strings(s, p, n).unwrap() <= c {
            byte_strings(s, p, n)
        } else {
            None
        }),
    decreases n,
{
    if n > 0 {
        let q = byte_strings(s, p, (n - 1) as nat).unwrap();
        lemma_byte_strings_cut(s, c, p, (n - 1) as nat);
        lemma_bytes_at_cut(s, c, q);
    }
}

proof fn lemma_digest_item_cut(s: Seq<u8>, c: nat, p: nat)
    requires
        c <= s.len(),
        digest_item(s, p) is Some,
    ensures
        p < digest_item(s, p).unwrap(),
        digest_item(s.take(c as int), p) == (if digest_item(s, p).unwrap() <= c {
            digest_item(s, p)
        } else {
            None
        }),
{
    let t = s.take(c as int);
    let tag = s[p as int];
    if p < c {
        assert(t[p as int] == tag);
    }
    if tag == 0 {
        lemma_bytes_at_cut(s, c, p + 1);
    } else if tag == 4 || tag == 5 || tag == 6 {
        lemma_bytes_at_cut(s, c, p + 5);
    }
}

proof fn lemma_digest_items_cut(s: Seq<u8>, c: nat, p: nat, n: nat)
    requires
        c <= s.len(),
        digest_items(s, p, n) is Some,
    ensures
        p <= digest_items(s, p, n).unwrap(),
        p <= c ==> digest_items(s.take(c as int), p, n) == (if digest_items(s, p, n).unwrap() <= c {
            digest_items(s, p, n)
        } else {
            None
        }),
    decreases n,
{
    if n > 0 {
        let q = digest_items(s, p, (n - 1) as nat).unwrap();
        lemma_digest_items_cut(s, c, p, (n - 1) as nat);
        lemma_digest_item_cut(s, c, q);
    }
}

proof fn lemma_digest_at_cut(s: Seq<u8>, c: nat, p: nat)
    requires
        c <= s.len(),
        digest_at(s, p) is Some,
    ensures
        p < digest_at(s, p).unwrap(),
        digest_at(s.take(c as int), p) == (if digest_at(s, p).unwrap() <= c {
            digest_at(s, p)
        } else {
            None
        }),
{
    let (count, q) = compact_at(s, p).unwrap();
    lemma_compact_at_cut(s, c, p);
    lemma_digest_items_cut(s, c, q, count);
}

proof fn lemma_header_at_cut(s: Seq<u8>, c: nat, p: nat)
    requires
        c <= s.len(),
        header_at(s, p) is Some,
    ensures
        p < header_at(s, p).unwrap(),
        header_at(s.take(c as int), p) == (if header_at(s, p).unwrap() <= c {
            header_at(s, p)
        } else {
            None
        }),
{
    let a = p + 32;
    lemma_compact_at_cut(s, c, a);
    let b = compact_at(s, a).unwrap().1;
    lemma_digest_at_cut(s, c, b + 64);
}

proof fn lemma_headers_cut(s: Seq<u8>, c: nat, p: nat, n: nat)
    requires
        c <= s.len(),
        headers(s, p, n) is Some,
    ensures
        p <= headers(s, p, n).unwrap(),
        p <= c ==> headers(s.take(c as int), p, n) == (if headers(s, p, n).unwrap() <= c {
            headers(s, p, n)
        } else {
            None
        }),
    decreases n,
{
    if n > 0 {
        let q = headers(s, p, (n - 1) as nat).unwrap();
        lemma_headers_cut(s, c, p, (n - 1) as nat);
        lemma_header_at_cut(s, c, q);
    }
}

proof fn lemma_block_at_cut(s: Seq<u8>, c: nat, p: nat)
    requires
        c <= s.len(),
        block_at(s, p) is Some,
    ensures
        p < block_at(s, p).unwrap().1,
        block_at(s.take(c as int), p) == (if block_at(s, p).unwrap().1 <= c {
            block_at(s, p)
        } else {
            None
        }),
{
    lemma_header_at_cut(s, c, p);
    let h = header_at(s, p).unwrap();
    lemma_compact_at_cut(s, c, h);
    let (n, q) = compact_at(s, h).unwrap();
    lemma_byte_strings_cut(s, c, q, n);
}

proof fn lemma_blocks_cut(s: Seq<u8>, c: nat, p: nat, n: nat)
    requires
        c <= s.len(),
        blocks(s, p, n) is Some,
    ensures
        p <= blocks(s, p, n).unwrap().0,
        p <= c ==> blocks(s.take(c as int), p, n) == (if blocks(s, p, n).unwrap().0 <= c {
            blocks(s, p, n)
        } else {
            None
        }),
    decreases n,
{
    if n > 0 {
        let q = blocks(s, p, (n - 1) as nat).unwrap().0;
        lemma_blocks_cut(s, c, p, (n - 1) as nat);
        lemma_block_at_cut(s, c, q);
    }
}

proof fn lemma_compact_proof_at_cut(s: Seq<u8>, c: nat, p: nat)
    requires
        c <= s.len(),
        compact_proof_at(s, p) is Some,
    ensures
        p < compact_proof_at(s, p).unwrap(),
        compact_proof_at(s.take(c as int), p) == (if compact_proof_at(s, p).unwrap() <= c {
            compact_proof_at(s, p)
        } else {
            None
        }),
{
    lemma_compact_at_cut(s, c, p);
    let (n, q) = compact_at(s, p).unwrap();
    lemma_byte_strings_cut(s, c, q, n);
}

proof fn lemma_scheduling_proof_at_cut(s: Seq<u8>, c: nat, p: nat)
    requires
        c <= s.len(),
        scheduling_proof_at(s, p) is Some,
    ensures
        p < scheduling_proof_at(s, p).unwrap(),
        scheduling_proof_at(s.take(c as int), p) == (if scheduling_proof_at(s, p).unwrap() <= c {
            scheduling_proof_at(s, p)
        } else {
            None
        }),
{
    let t = s.take(c as int);
    lemma_compact_at_cut(s, c, p);
    let (n, q) = compact_at(s, p).unwrap();
    lemma_headers_cut(s, c, q, n);
    let r = headers(s, q, n).unwrap();
    lemma_header_at_cut(s, c, r);
    let e = header_at(s, r).unwrap();
    if e < c {
        assert(t[e as int] == s[e as int]);
    }
}

proof fn lemma_additional_entry_cut(s: Seq<u8>, c: nat, p: nat, f: Option<(nat, nat)>)
    requires
        c <= s.len(),
        additional_entry(s, p, f) is Some,
    ensures
        p < additional_entry(s, p, f).unwrap().0,
        additional_entry(s.take(c as int), p, f) == (if additional_entry(s, p, f).unwrap().0 <= c {
            additional_entry(s, p, f)
        } else {
            None
        }),
{
    let t = s.take(c as int);
    lemma_bytes_at_cut(s, c, p);
    let (ks, ke) = bytes_at(s, p).unwrap();
    lemma_bytes_at_cut(s, c, ke);
    let ve = bytes_at(s, ke).unwrap().1;
    if ve <= c {
        assert(t.subrange(ks as int, ke as int) =~= s.subrange(ks as int, ke as int));
    }
}

proof fn lemma_additional_entries_cut(s: Seq<u8>, c: nat, p: nat, n: nat, f: Option<(nat, nat)>)
    requires
        c <= s.len(),
        additional_entries(s, p, n, f) is Some,
    ensures
        p <= additional_entries(s, p, n, f).unwrap().0,
        p <= c ==> additional_entries(s.take(c as int), p, n, f) == (if additional_entries(s, p, n, f).unwrap().0
            <= c {
            additional_entries(s, p, n, f)
        } else {
            None
        }),
    decreases n,
{
    if n > 0 {
        let (q, g) = additional_entries(s, p, (n - 1) as nat, f).unwrap();
        lemma_additional_entries_cut(s, c, p, (n - 1) as nat, f);
        lemma_additional_entry_cut(s, c, q, g);
    }
}

proof fn lemma_additional_slot_cut(s: Seq<u8>, c: nat, p: nat, f: Option<(nat, nat)>)
    requires
        c <= s.len(),
        additional_slot(s, p, f) is Some,
    ensures
        p < additional_slot(s, p, f).unwrap().0,
        additional_slot(s.take(c as int), p, f) == (if additional_slot(s, p, f).unwrap().0 <= c {
            additional_slot(s, p, f)
        } else {
            None
        }),
{
    let t = s.take(c as int);
    if p < c {
        assert(t[p as int] == s[p as int]);
    }
    if s[p as int] != 0 {
        lemma_compact_at_cut(s, c, p + 1);
        let (n, q) = compact_at(s, p + 1).unwrap();
        lemma_additional_entries_cut(s, c, q, n, f);
    }
}

proof fn lemma_additional_slots_cut(s: Seq<u8>, c: nat, p: nat, n: nat, f: Option<(nat, nat)>)
    requires
        c <= s.len(),
        additional_slots(s, p, n, f) is Some,
    ensures
        p <= additional_slots(s, p, n, f).unwrap().0,
        p <= c ==> additional_slots(s.take(c as int), p, n, f) == (if additional_slots(s, p, n, f).unwrap().0
            <= c {
            additional_slots(s, p, n, f)
        } else {
            None
        }),
    decreases n,
{
    if n > 0 {
        let (q, g) = additional_slots(s, p, (n - 1) as nat, f).unwrap();
        lemma_additional_slots_cut(s, c, p, (n - 1) as nat, f);
        lemma_additional_slot_cut(s, c, q, g);
    }
}

/// Where a V3 PoV's structure ends: after its additional data.
pub open spec fn pov_end(s: Seq<u8>) -> Option<nat> {
    match compact_at(s, 13) {
        Some((count, first)) => match blocks(s, first, count) {
            Some((after_blocks, _, _)) => match compact_proof_at(s, after_blocks) {
                Some(a) => match scheduling_proof_at(s, a) {
                    Some(b) => match additional_data_at(s, b) {
                        Some((e, _)) => Some(e),
                        None => None,
                    },
                    None => None,
                },
                None => None,
            },
            None => None,
        },
        None => None,
    }
}

/// A PoV accepted with its structure filling it exactly is refused as
/// malformed once cut short, wherever it is cut: a truncated PoV is caught,
/// never read past its end.
pub proof fn lemma_truncated_pov_refused(s: Seq<u8>, cut: nat)
    requires
        pov_layout(s) is Ok,
        pov_end(s) == Some(s.len()),
        1 <= cut < s.len(),
    ensures
        pov_layout(s.take(cut as int)) == Err::<(nat, nat, nat, nat, nat), PoVError>(
            PoVError::Malformed,
        ),
{
    let t = s.take(cut as int);
    let c = cut;
    // `s` starts with the versioned prefix, which the zstd prefix does not.
    assert(s[0] == VERSIONED_PREFIX@[0]);
    assert(t[0] == s[0]);
    if ZSTD_PREFIX@.len() <= t.len() {
        assert(t.subrange(0, ZSTD_PREFIX@.len() as int)[0] != ZSTD_PREFIX@[0]);
    }
    if c > 12 {
        assert(t.subrange(0, VERSIONED_PREFIX@.len() as int) =~= s.subrange(
            0,
            VERSIONED_PREFIX@.len() as int,
        ));
        assert(t[12] == s[12]);
        lemma_compact_at_cut(s, c, 13);
        let (count, first) = compact_at(s, 13).unwrap();
        lemma_blocks_cut(s, c, first, count);
        let after_blocks = blocks(s, first, count).unwrap().0;
        lemma_compact_proof_at_cut(s, c, after_blocks);
        let a = compact_proof_at(s, after_blocks).unwrap();
        lemma_scheduling_proof_at_cut(s, c, a);
        let b = scheduling_proof_at(s, a).unwrap();
        lemma_compact_at_cut(s, c, b);
        let (n, q) = compact_at(s, b).unwrap();
        lemma_additional_slots_cut(s, c, q, n, None);
    }
}

} // verus!
