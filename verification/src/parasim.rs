//! The parasim service's storage: the para-head map it shares with the real
//! service (tag `0x00` + SCALE(`ParaId`) → a byte-exact `ParaInfo` whose only
//! meaningful field is `head_data`), and the reorder buffer's own entry.
//!
//! Both values are SCALE; their encodings and decoders are written out here,
//! over the codec's compact integers.

use crate::buffer::{views, BufferedCandidate, CandidateView, ReorderBuffer, StoredHead};
use crate::hashing::{blake2_256, blake2b_256, bytes_eq, Hash32};
use crate::pov::{compact_at, decode_pov, header_number, number_in_header, pov_layout, PoV, PoVError};
use crate::refine::{candidate_code_hash, decode_candidate, para_ids_at, work_package_para_id};
use crate::service::ParasimRefineError;
use crate::scale::{
    compact_encoding, compact_u64_encoding, compact_u64_prefix, compact_width,
    decode_compact_u32_at, decode_compact_u64_at, le_u32_at, lemma_compact_u32_roundtrip,
    lemma_compact_u64_roundtrip, push_compact_u32, push_compact_u64,
};
use crate::state::{le_bytes, lemma_le_bytes_len, push_le};
use crate::types::{ParaId, MAX_HEAD_DATA_SIZE};
use vstd::prelude::*;

verus! {

/// Storage tag of the para-head map (the real service's `Tag::Parachains`).
pub const PARA_HEAD_TAG: u8 = 0x00;

/// Storage tag of the reorder buffer: outside the real service's
/// `0x00..=0x08` range, since the buffer is parasim-only scratch state.
pub const BUFFER_TAG: u8 = 0xf0;

/// `[tag] || SCALE(para_id)`.
fn storage_key(tag: u8, para_id: ParaId) -> (k: Vec<u8>)
    ensures
        k@ == seq![tag] + le_bytes(para_id.0 as nat, 4),
{
    let mut k: Vec<u8> = Vec::new();
    k.push(tag);
    push_le(&mut k, para_id.0 as u64, 4);
    k
}

/// The storage key of a para's head: tag `0x00` + SCALE(`ParaId`), the real
/// service's `parachains` map layout.
pub fn para_head_key(para_id: ParaId) -> (k: Vec<u8>)
    ensures
        k@ == seq![PARA_HEAD_TAG] + le_bytes(para_id.0 as nat, 4),
{
    storage_key(PARA_HEAD_TAG, para_id)
}

/// The storage key of a para's reorder buffer.
pub fn buffer_key(para_id: ParaId) -> (k: Vec<u8>)
    ensures
        k@ == seq![BUFFER_TAG] + le_bytes(para_id.0 as nat, 4),
{
    storage_key(BUFFER_TAG, para_id)
}

/// A `ParaInfo` whose only meaningful field is `head_data`; its SCALE layout
/// is the real record's byte for byte, so the trailing fields are carried
/// explicitly with their default values.
#[derive(Debug, Clone, PartialEq, Eq)]
pub struct ParaInfoLite {
    pub head_data: Vec<u8>,
    /// Always `None` (real field: `Option<ValidationCode>`).
    pub validation_code: Option<()>,
    /// Always `None` (real field: the pending upgrade).
    pub pending_upgrade: Option<()>,
    /// Compact-encoded.
    pub total_state_balance: u64,
    /// Compact-encoded.
    pub used_state_balance: u64,
    pub is_deregistering: bool,
}

/// A `ParaInfoLite` as the decoder sees it.
pub struct ParaInfoLiteView {
    pub head_data: Seq<u8>,
    pub validation_code: Option<()>,
    pub pending_upgrade: Option<()>,
    pub total_state_balance: u64,
    pub used_state_balance: u64,
    pub is_deregistering: bool,
}

impl View for ParaInfoLite {
    type V = ParaInfoLiteView;

    open spec fn view(&self) -> ParaInfoLiteView {
        ParaInfoLiteView {
            head_data: self.head_data@,
            validation_code: self.validation_code,
            pending_upgrade: self.pending_upgrade,
            total_state_balance: self.total_state_balance,
            used_state_balance: self.used_state_balance,
            is_deregistering: self.is_deregistering,
        }
    }
}

// ---------------------------------------------------------------------------
// Encodings.
// ---------------------------------------------------------------------------

/// A bounded head: its compact length, then its octets.
pub open spec fn head_encoding(h: Seq<u8>) -> Seq<u8> {
    compact_encoding(h.len()) + h
}

/// An `Option<()>`: one octet, `0` for `None` and `1` for `Some`.
pub open spec fn unit_option_encoding(o: Option<()>) -> Seq<u8> {
    match o {
        None => seq![0u8],
        Some(_) => seq![1u8],
    }
}

/// A `bool`: one octet, `0` or `1`.
pub open spec fn bool_encoding(b: bool) -> Seq<u8> {
    if b {
        seq![1u8]
    } else {
        seq![0u8]
    }
}

/// The SCALE encoding of a `ParaInfoLite`.
pub open spec fn para_info_lite_encoding(v: ParaInfoLiteView) -> Seq<u8> {
    head_encoding(v.head_data) + unit_option_encoding(v.validation_code) + unit_option_encoding(
        v.pending_upgrade,
    ) + compact_u64_encoding(v.total_state_balance as nat) + compact_u64_encoding(
        v.used_state_balance as nat,
    ) + bool_encoding(v.is_deregistering)
}

/// The SCALE encoding of a parked head.
pub open spec fn candidate_encoding(c: CandidateView) -> Seq<u8> {
    c.parent_head_hash + head_encoding(c.head_data) + le_bytes(c.number as nat, 4) + le_bytes(
        c.arrived_slot as nat,
        4,
    )
}

/// The encodings of `cs`, one after another.
pub open spec fn candidates_encoding(cs: Seq<CandidateView>) -> Seq<u8>
    decreases cs.len(),
{
    if cs.len() == 0 {
        Seq::empty()
    } else {
        candidates_encoding(cs.drop_last()) + candidate_encoding(cs.last())
    }
}

/// The SCALE encoding of a reorder buffer: a compact count, then the heads.
pub open spec fn buffer_encoding(cs: Seq<CandidateView>) -> Seq<u8> {
    compact_encoding(cs.len()) + candidates_encoding(cs)
}

// ---------------------------------------------------------------------------
// The decoder, as positions into the bytes `s`.
// ---------------------------------------------------------------------------

/// A `u32` (four octets, little-endian) at `p`, and the position after it.
pub open spec fn u32_at(s: Seq<u8>, p: nat) -> Option<(u32, nat)> {
    if p + 4 <= s.len() {
        Some((le_u32_at(s, p as int) as u32, p + 4))
    } else {
        None
    }
}

/// A `Compact<u64>` at `p`, and the position after it.
#[verifier::opaque]
pub open spec fn compact_u64_at(s: Seq<u8>, p: nat) -> Option<(u64, nat)> {
    if p <= s.len() {
        match compact_u64_prefix(s.skip(p as int)) {
            Some((v, n)) => Some((v, p + n)),
            None => None,
        }
    } else {
        None
    }
}

/// A head of at most `MAX_HEAD_DATA_SIZE` octets at `p`, and the position
/// after it. A longer length is refused before any octet is read.
#[verifier::opaque]
pub open spec fn head_at(s: Seq<u8>, p: nat) -> Option<(Seq<u8>, nat)> {
    match compact_at(s, p) {
        Some((n, q)) => if n <= MAX_HEAD_DATA_SIZE && q + n <= s.len() {
            Some((s.subrange(q as int, (q + n) as int), q + n))
        } else {
            None
        },
        None => None,
    }
}

/// An `Option<()>` at `p`: any octet but `0` or `1` is refused.
pub open spec fn unit_option_at(s: Seq<u8>, p: nat) -> Option<(Option<()>, nat)> {
    if p < s.len() && s[p as int] == 0 {
        Some((None, p + 1))
    } else if p < s.len() && s[p as int] == 1 {
        Some((Some(()), p + 1))
    } else {
        None
    }
}

/// A `bool` at `p`: any octet but `0` or `1` is refused.
pub open spec fn bool_at(s: Seq<u8>, p: nat) -> Option<(bool, nat)> {
    if p < s.len() && s[p as int] == 0 {
        Some((false, p + 1))
    } else if p < s.len() && s[p as int] == 1 {
        Some((true, p + 1))
    } else {
        None
    }
}

/// A `ParaInfoLite` at `p`, and the position after it.
pub open spec fn para_info_lite_at(s: Seq<u8>, p: nat) -> Option<(ParaInfoLiteView, nat)> {
    match head_at(s, p) {
        None => None,
        Some((head, p1)) => match unit_option_at(s, p1) {
            None => None,
            Some((vc, p2)) => match unit_option_at(s, p2) {
                None => None,
                Some((pu, p3)) => match compact_u64_at(s, p3) {
                    None => None,
                    Some((total, p4)) => match compact_u64_at(s, p4) {
                        None => None,
                        Some((used, p5)) => match bool_at(s, p5) {
                            None => None,
                            Some((dereg, p6)) => Some(
                                (
                                    ParaInfoLiteView {
                                        head_data: head,
                                        validation_code: vc,
                                        pending_upgrade: pu,
                                        total_state_balance: total,
                                        used_state_balance: used,
                                        is_deregistering: dereg,
                                    },
                                    p6,
                                ),
                            ),
                        },
                    },
                },
            },
        },
    }
}

/// What `decode_all` makes of `s`: a `ParaInfoLite` that takes every octet.
pub open spec fn para_info_lite_of(s: Seq<u8>) -> Option<ParaInfoLiteView> {
    match para_info_lite_at(s, 0) {
        Some((v, e)) => if e == s.len() {
            Some(v)
        } else {
            None
        },
        None => None,
    }
}

/// A parked head at `p`, and the position after it.
pub open spec fn candidate_at(s: Seq<u8>, p: nat) -> Option<(CandidateView, nat)> {
    if p + 32 <= s.len() {
        match head_at(s, p + 32) {
            None => None,
            Some((head, q)) => match u32_at(s, q) {
                None => None,
                Some((number, r)) => match u32_at(s, r) {
                    None => None,
                    Some((slot, e)) => Some(
                        (
                            CandidateView {
                                parent_head_hash: s.subrange(p as int, (p + 32) as int),
                                head_data: head,
                                number,
                                arrived_slot: slot,
                            },
                            e,
                        ),
                    ),
                },
            },
        }
    } else {
        None
    }
}

/// `count` parked heads one after another from `p`, and the position after
/// the last.
pub open spec fn candidates_at(s: Seq<u8>, p: nat, count: nat) -> Option<
    (Seq<CandidateView>, nat),
>
    decreases count,
{
    if count == 0 {
        Some((Seq::empty(), p))
    } else {
        match candidates_at(s, p, (count - 1) as nat) {
            Some((cs, q)) => match candidate_at(s, q) {
                Some((c, e)) => Some((cs.push(c), e)),
                None => None,
            },
            None => None,
        }
    }
}

/// What `decode_all` makes of `s`: a reorder buffer that takes every octet.
pub open spec fn buffer_of(s: Seq<u8>) -> Option<Seq<CandidateView>> {
    match compact_at(s, 0) {
        Some((n, q)) => match candidates_at(s, q, n) {
            Some((cs, e)) => if e == s.len() {
                Some(cs)
            } else {
                None
            },
            None => None,
        },
        None => None,
    }
}

/// Every head in `cs` fits `MAX_HEAD_DATA_SIZE`, as the head type bounds it.
pub open spec fn heads_bounded(cs: Seq<CandidateView>) -> bool {
    forall|i: int| 0 <= i < cs.len() ==> #[trigger] cs[i].head_data.len() <= MAX_HEAD_DATA_SIZE
}

// ---------------------------------------------------------------------------
// Readers.
// ---------------------------------------------------------------------------

fn read_u32(input: &[u8], pos: usize) -> (r: Option<(u32, usize)>)
    requires
        pos <= input@.len(),
    ensures
        r is None <==> u32_at(input@, pos as nat) is None,
        r matches Some((v, q)) ==> u32_at(input@, pos as nat) == Some((v, q as nat)) && q <= input@.len(),
{
    if input.len() - pos < 4 {
        return None;
    }
    let v: u32 = input[pos] as u32 + 0x100 * (input[pos + 1] as u32) + 0x1_0000 * (input[pos
        + 2] as u32) + 0x100_0000 * (input[pos + 3] as u32);
    Some((v, pos + 4))
}

fn read_head(input: &[u8], pos: usize) -> (r: Option<(Vec<u8>, usize)>)
    requires
        pos <= input@.len(),
    ensures
        r is None <==> head_at(input@, pos as nat) is None,
        r matches Some((h, q)) ==> head_at(input@, pos as nat) == Some((h@, q as nat)) && q
            <= input@.len(),
{
    reveal(head_at);
    let (n, q) = match decode_compact_u32_at(input, pos) {
        Some(v) => v,
        None => return None,
    };
    if n > MAX_HEAD_DATA_SIZE || input.len() - q < n as usize {
        return None;
    }
    let end = q + n as usize;
    let mut head: Vec<u8> = Vec::new();
    let mut i: usize = q;
    while i < end
        invariant
            q <= i <= end <= input@.len(),
            head@ == input@.subrange(q as int, i as int),
        decreases end - i,
    {
        head.push(input[i]);
        i = i + 1;
        proof {
            assert(head@ =~= input@.subrange(q as int, i as int));
        }
    }
    Some((head, end))
}

fn read_unit_option(input: &[u8], pos: usize) -> (r: Option<(Option<()>, usize)>)
    requires
        pos <= input@.len(),
    ensures
        r is None <==> unit_option_at(input@, pos as nat) is None,
        r matches Some((v, q)) ==> unit_option_at(input@, pos as nat) == Some((v, q as nat)) && q <= input@.len(),
{
    if pos < input.len() && input[pos] == 0 {
        Some((None, pos + 1))
    } else if pos < input.len() && input[pos] == 1 {
        Some((Some(()), pos + 1))
    } else {
        None
    }
}

fn read_bool(input: &[u8], pos: usize) -> (r: Option<(bool, usize)>)
    requires
        pos <= input@.len(),
    ensures
        r is None <==> bool_at(input@, pos as nat) is None,
        r matches Some((v, q)) ==> bool_at(input@, pos as nat) == Some((v, q as nat)) && q <= input@.len(),
{
    if pos < input.len() && input[pos] == 0 {
        Some((false, pos + 1))
    } else if pos < input.len() && input[pos] == 1 {
        Some((true, pos + 1))
    } else {
        None
    }
}

fn read_compact_u64(input: &[u8], pos: usize) -> (r: Option<(u64, usize)>)
    requires
        pos <= input@.len(),
    ensures
        r is None <==> compact_u64_at(input@, pos as nat) is None,
        r matches Some((v, q)) ==> compact_u64_at(input@, pos as nat) == Some((v, q as nat)) && q <= input@.len(),
{
    reveal(compact_u64_at);
    decode_compact_u64_at(input, pos)
}

impl ParaInfoLite {
    /// The record for a para at `head_data`, every other field at its default.
    pub fn with_head(head_data: Vec<u8>) -> (r: Self)
        ensures
            r@ == (ParaInfoLiteView {
                head_data: head_data@,
                validation_code: None,
                pending_upgrade: None,
                total_state_balance: 0,
                used_state_balance: 0,
                is_deregistering: false,
            }),
    {
        ParaInfoLite {
            head_data,
            validation_code: None,
            pending_upgrade: None,
            total_state_balance: 0,
            used_state_balance: 0,
            is_deregistering: false,
        }
    }

    /// The SCALE encoding of this record.
    pub fn encode(&self) -> (r: Vec<u8>)
        requires
            self.head_data@.len() <= MAX_HEAD_DATA_SIZE,
        ensures
            r@ == para_info_lite_encoding(self@),
    {
        let mut out: Vec<u8> = Vec::new();
        push_head(&mut out, self.head_data.as_slice());
        out.push(
            match self.validation_code {
                None => 0u8,
                Some(_) => 1u8,
            },
        );
        out.push(
            match self.pending_upgrade {
                None => 0u8,
                Some(_) => 1u8,
            },
        );
        push_compact_u64(&mut out, self.total_state_balance);
        push_compact_u64(&mut out, self.used_state_balance);
        out.push(
            if self.is_deregistering {
                1u8
            } else {
                0u8
            },
        );
        proof {
            assert(out@ =~= para_info_lite_encoding(self@));
        }
        out
    }

    /// Decode a stored record that must take every octet of `bytes`.
    pub fn decode_all(bytes: &[u8]) -> (r: Option<ParaInfoLite>)
        ensures
            r is None <==> para_info_lite_of(bytes@) is None,
            r matches Some(p) ==> para_info_lite_of(bytes@) == Some(p@),
    {
        let (head_data, p1) = match read_head(bytes, 0) {
            Some(v) => v,
            None => return None,
        };
        let (validation_code, p2) = match read_unit_option(bytes, p1) {
            Some(v) => v,
            None => return None,
        };
        let (pending_upgrade, p3) = match read_unit_option(bytes, p2) {
            Some(v) => v,
            None => return None,
        };
        let (total_state_balance, p4) = match read_compact_u64(bytes, p3) {
            Some(v) => v,
            None => return None,
        };
        let (used_state_balance, p5) = match read_compact_u64(bytes, p4) {
            Some(v) => v,
            None => return None,
        };
        let (is_deregistering, p6) = match read_bool(bytes, p5) {
            Some(v) => v,
            None => return None,
        };
        if p6 != bytes.len() {
            return None;
        }
        Some(
            ParaInfoLite {
                head_data,
                validation_code,
                pending_upgrade,
                total_state_balance,
                used_state_balance,
                is_deregistering,
            },
        )
    }
}

/// Append a bounded head: its compact length, then its octets.
pub fn push_head(out: &mut Vec<u8>, head: &[u8])
    requires
        head@.len() <= MAX_HEAD_DATA_SIZE,
    ensures
        final(out)@ == old(out)@ + head_encoding(head@),
{
    push_compact_u32(out, head.len() as u32);
    let ghost start = out@;
    let mut i: usize = 0;
    while i < head.len()
        invariant
            i <= head@.len(),
            out@ == start + head@.subrange(0, i as int),
        decreases head@.len() - i,
    {
        out.push(head[i]);
        i = i + 1;
        proof {
            assert(out@ =~= start + head@.subrange(0, i as int));
        }
    }
    proof {
        assert(head@.subrange(0, head@.len() as int) =~= head@);
        assert(out@ =~= old(out)@ + head_encoding(head@));
    }
}


// ---------------------------------------------------------------------------
// What is stored for a para, as the ordering rules read it.
// ---------------------------------------------------------------------------

/// The head a stored value carries, if it decodes as a `ParaInfoLite`.
pub open spec fn stored_head_data(b: Seq<u8>) -> Option<Seq<u8>> {
    match para_info_lite_of(b) {
        Some(info) => Some(info.head_data),
        None => None,
    }
}

impl StoredHead {
    /// Read what this service has stored for a para: nothing stored is
    /// `Empty`; a record whose head is a header gives that head's hash and
    /// number; anything else is `Unreadable`.
    pub fn read(stored: Option<&[u8]>) -> (r: StoredHead)
        ensures
            stored is None <==> r is Empty,
            r is At <==> (stored matches Some(b) && stored_head_data(b@) matches Some(h)
                && number_in_header(h) is Some),
            r matches StoredHead::At { hash, number } ==> (stored matches Some(b)
                && stored_head_data(b@) matches Some(h) && number_in_header(h) == Some(number)
                && hash@ == blake2b_256(h)),
    {
        let stored = match stored {
            None => return StoredHead::Empty,
            Some(b) => b,
        };
        let info = match ParaInfoLite::decode_all(stored) {
            None => return StoredHead::Unreadable,
            Some(i) => i,
        };
        match header_number(info.head_data.as_slice()) {
            Some(number) => StoredHead::At { hash: blake2_256(info.head_data.as_slice()), number },
            None => StoredHead::Unreadable,
        }
    }
}

// ---------------------------------------------------------------------------
// The reorder buffer's stored form.
// ---------------------------------------------------------------------------

fn read_candidate(input: &[u8], pos: usize) -> (r: Option<(BufferedCandidate, usize)>)
    requires
        pos <= input@.len(),
    ensures
        r is None <==> candidate_at(input@, pos as nat) is None,
        r matches Some((c, q)) ==> candidate_at(input@, pos as nat) == Some((c@, q as nat)) && q
            <= input@.len(),
{
    if input.len() - pos < 32 {
        return None;
    }
    let mut parent_head_hash = [0u8; 32];
    let mut i: usize = 0;
    while i < 32
        invariant
            i <= 32,
            pos + 32 <= input@.len() <= usize::MAX,
            forall|j: int| 0 <= j < i ==> parent_head_hash@[j] == input@[pos + j],
        decreases 32 - i,
    {
        parent_head_hash[i] = input[pos + i];
        i = i + 1;
    }
    proof {
        assert(parent_head_hash@ =~= input@.subrange(pos as int, pos + 32));
    }
    let (head_data, q) = match read_head(input, pos + 32) {
        Some(v) => v,
        None => return None,
    };
    let (number, r) = match read_u32(input, q) {
        Some(v) => v,
        None => return None,
    };
    let (arrived_slot, e) = match read_u32(input, r) {
        Some(v) => v,
        None => return None,
    };
    Some((BufferedCandidate { parent_head_hash, head_data, number, arrived_slot }, e))
}

/// Once a head fails to decode, no longer run of heads decodes.
proof fn lemma_candidates_fail(s: Seq<u8>, p: nat, i: nat, n: nat)
    requires
        candidates_at(s, p, i) is None,
        i <= n,
    ensures
        candidates_at(s, p, n) is None,
    decreases n - i,
{
    if i < n {
        lemma_candidates_fail(s, p, i + 1, n);
    }
}

/// Append the encoding of one parked head.
fn push_candidate(out: &mut Vec<u8>, c: &BufferedCandidate)
    requires
        c.head_data@.len() <= MAX_HEAD_DATA_SIZE,
    ensures
        final(out)@ == old(out)@ + candidate_encoding(c@),
{
    let ghost start = out@;
    let mut i: usize = 0;
    while i < 32
        invariant
            i <= 32,
            out@ == start + c.parent_head_hash@.subrange(0, i as int),
        decreases 32 - i,
    {
        out.push(c.parent_head_hash[i]);
        i = i + 1;
        proof {
            assert(out@ =~= start + c.parent_head_hash@.subrange(0, i as int));
        }
    }
    proof {
        assert(c.parent_head_hash@.subrange(0, 32) =~= c.parent_head_hash@);
    }
    push_head(out, c.head_data.as_slice());
    push_le(out, c.number as u64, 4);
    push_le(out, c.arrived_slot as u64, 4);
    proof {
        assert(out@ =~= old(out)@ + candidate_encoding(c@));
    }
}

impl ReorderBuffer {
    /// The SCALE encoding of the buffer, as it is stored.
    pub fn encode(&self) -> (r: Vec<u8>)
        requires
            self@.len() <= u32::MAX,
            heads_bounded(self@),
        ensures
            r@ == buffer_encoding(self@),
    {
        let parked = self.parked();
        let ghost cs = self@;
        let mut out: Vec<u8> = Vec::new();
        push_compact_u32(&mut out, parked.len() as u32);
        let ghost start = out@;
        proof {
            assert(cs.take(0) =~= Seq::<CandidateView>::empty());
            assert(out@ =~= start + candidates_encoding(cs.take(0)));
        }
        let mut i: usize = 0;
        while i < parked.len()
            invariant
                i <= parked@.len(),
                views(parked@) == cs,
                heads_bounded(cs),
                out@ == start + candidates_encoding(cs.take(i as int)),
            decreases parked@.len() - i,
        {
            proof {
                assert(cs[i as int] == parked@[i as int]@);
                assert(cs[i as int].head_data.len() <= MAX_HEAD_DATA_SIZE);
            }
            push_candidate(&mut out, &parked[i]);
            proof {
                let t = cs.take(i + 1);
                assert(t.drop_last() =~= cs.take(i as int));
                assert(t.last() == cs[i as int]);
            }
            i = i + 1;
        }
        proof {
            assert(cs.take(cs.len() as int) =~= cs);
        }
        out
    }

    /// Decode a stored buffer. Bytes that do not decode, or nothing stored,
    /// are an empty buffer: the buffer is scratch state, so losing it delays
    /// heads rather than corrupting the para's head.
    pub fn decode_or_empty(stored: Option<&[u8]>) -> (r: ReorderBuffer)
        ensures
            r@ == (match stored {
                Some(b) => match buffer_of(b@) {
                    Some(cs) => cs,
                    None => Seq::empty(),
                },
                None => Seq::<CandidateView>::empty(),
            }),
    {
        let bytes = match stored {
            Some(b) => b,
            None => return ReorderBuffer::new(),
        };
        let (n, q0) = match decode_compact_u32_at(bytes, 0) {
            Some(v) => v,
            None => return ReorderBuffer::new(),
        };
        proof {
            assert(bytes@.skip(0) =~= bytes@);
            assert(compact_at(bytes@, 0) == Some((n as nat, q0 as nat)));
        }
        let mut out: Vec<BufferedCandidate> = Vec::new();
        let mut pos = q0;
        let mut i: u32 = 0;
        proof {
            assert(views(out@) =~= Seq::<CandidateView>::empty());
        }
        while i < n
            invariant
                i <= n,
                pos <= bytes@.len(),
                stored == Some(bytes),
                compact_at(bytes@, 0) == Some((n as nat, q0 as nat)),
                candidates_at(bytes@, q0 as nat, i as nat) == Some((views(out@), pos as nat)),
            decreases n - i,
        {
            match read_candidate(bytes, pos) {
                None => {
                    proof {
                        lemma_candidates_fail(bytes@, q0 as nat, (i + 1) as nat, n as nat);
                    }
                    return ReorderBuffer::new();
                },
                Some((c, e)) => {
                    let ghost before = out@;
                    out.push(c);
                    proof {
                        assert(views(out@) =~= views(before).push(c@));
                    }
                    pos = e;
                    i = i + 1;
                },
            }
        }
        if pos != bytes.len() {
            return ReorderBuffer::new();
        }
        ReorderBuffer::from_parked(out)
    }
}

// ---------------------------------------------------------------------------
// Round trips.
// ---------------------------------------------------------------------------

/// Where `s` holds `t` from `p`, it holds each piece of `t` at the matching place.
proof fn lemma_subrange_within(s: Seq<u8>, p: int, t: Seq<u8>, a: int, b: int)
    requires
        0 <= p,
        p + t.len() <= s.len(),
        s.subrange(p, p + t.len()) == t,
        0 <= a <= b <= t.len(),
    ensures
        s.subrange(p + a, p + b) == t.subrange(a, b),
{
    assert forall|k: int| 0 <= k < b - a implies #[trigger] s.subrange(p + a, p + b)[k] == t.subrange(
        a,
        b,
    )[k] by {
        assert(s.subrange(p, p + t.len())[a + k] == s[p + a + k]);
    }
    assert(s.subrange(p + a, p + b) =~= t.subrange(a, b));
}

/// A `Compact<u64>` decodes off its own encoding.
proof fn lemma_compact_u64_at_encoding(s: Seq<u8>, p: nat, n: u64)
    requires
        p + compact_u64_encoding(n as nat).len() <= s.len(),
        s.subrange(p as int, (p + compact_u64_encoding(n as nat).len()) as int) == compact_u64_encoding(
            n as nat,
        ),
    ensures
        compact_u64_at(s, p) == Some((n, p + compact_u64_encoding(n as nat).len())),
{
    reveal(compact_u64_at);
    let e = compact_u64_encoding(n as nat);
    lemma_compact_u64_encoding_len(n);
    assert(s.skip(p as int) =~= e + s.skip((p + e.len()) as int));
    lemma_compact_u64_roundtrip(n, s.skip((p + e.len()) as int));
}

/// Four octets written by `le_bytes` read back as the value.
proof fn lemma_u32_at_le_bytes(s: Seq<u8>, q: nat, v: u32)
    requires
        q + 4 <= s.len(),
        s.subrange(q as int, (q + 4) as int) == le_bytes(v as nat, 4),
    ensures
        u32_at(s, q) == Some((v, q + 4)),
{
    assert(crate::scale::pow256(4) == 0x1_0000_0000) by {
        reveal_with_fuel(crate::scale::pow256, 5);
    }
    crate::scale::lemma_le_value_of_le_bytes(v as nat, 4);
    let t = le_bytes(v as nat, 4);
    assert(crate::scale::le_value(t) == t[0] + 256 * (t[1] + 256 * (t[2] + 256 * t[3]))) by {
        reveal_with_fuel(crate::scale::le_value, 5);
        assert(t.skip(1).skip(1).skip(1).skip(1) =~= Seq::<u8>::empty());
    }
    assert(s[q as int] == t[0] && s[(q + 1) as int] == t[1] && s[(q + 2) as int] == t[2] && s[(q + 3) as int] == t[3]);
}

/// A head decodes off its own encoding.
proof fn lemma_head_at_encoding(s: Seq<u8>, p: nat, h: Seq<u8>)
    requires
        h.len() <= MAX_HEAD_DATA_SIZE,
        p + head_encoding(h).len() <= s.len(),
        s.subrange(p as int, (p + head_encoding(h).len()) as int) == head_encoding(h),
    ensures
        head_at(s, p) == Some((h, p + head_encoding(h).len())),
{
    reveal(head_at);
    let w = compact_encoding(h.len());
    let e = head_encoding(h);
    assert(w.len() == compact_width(h.len())) by {
        lemma_compact_u32_roundtrip(h.len() as u32, Seq::empty());
        lemma_compact_encoding_len(h.len());
    }
    assert(s.skip(p as int) =~= w + s.skip((p + w.len()) as int)) by {
        lemma_subrange_within(s, p as int, e, 0, w.len() as int);
        assert(e.subrange(0, w.len() as int) =~= w);
    }
    lemma_compact_u32_roundtrip(h.len() as u32, s.skip((p + w.len()) as int));
    lemma_subrange_within(s, p as int, e, w.len() as int, e.len() as int);
    assert(e.subrange(w.len() as int, e.len() as int) =~= h);
}

/// The compact encoding of a `u32` holds its width in octets.
proof fn lemma_compact_encoding_len(n: nat)
    requires
        n <= u32::MAX,
    ensures
        compact_encoding(n).len() == compact_width(n),
{
}

/// A parked head decodes off its own encoding.
proof fn lemma_candidate_at_encoding(s: Seq<u8>, p: nat, c: CandidateView)
    requires
        c.parent_head_hash.len() == 32,
        c.head_data.len() <= MAX_HEAD_DATA_SIZE,
        p + candidate_encoding(c).len() <= s.len(),
        s.subrange(p as int, (p + candidate_encoding(c).len()) as int) == candidate_encoding(c),
    ensures
        candidate_at(s, p) == Some((c, p + candidate_encoding(c).len())),
{
    let he = head_encoding(c.head_data);
    let e = candidate_encoding(c);
    lemma_le_bytes_len(c.number as nat, 4);
    lemma_le_bytes_len(c.arrived_slot as nat, 4);
    let q = p + 32 + he.len();
    let k: int = 32 + he.len() as int;
    lemma_subrange_within(s, p as int, e, 0, 32);
    assert(e.subrange(0, 32) =~= c.parent_head_hash);
    lemma_subrange_within(s, p as int, e, 32, k);
    assert(e.subrange(32, k) =~= he);
    lemma_head_at_encoding(s, p + 32, c.head_data);
    lemma_subrange_within(s, p as int, e, k, k + 4);
    assert(e.subrange(k, k + 4) =~= le_bytes(c.number as nat, 4));
    lemma_u32_at_le_bytes(s, q, c.number);
    lemma_subrange_within(s, p as int, e, k + 4, k + 8);
    assert(e.subrange(k + 4, k + 8) =~= le_bytes(c.arrived_slot as nat, 4));
    lemma_u32_at_le_bytes(s, q + 4, c.arrived_slot);
}

/// The first `i` heads decode off the encoding of all of them.
proof fn lemma_candidates_at_encoding(s: Seq<u8>, p: nat, cs: Seq<CandidateView>, i: nat)
    requires
        i <= cs.len(),
        forall|j: int| 0 <= j < cs.len() ==> #[trigger] cs[j].parent_head_hash.len() == 32,
        heads_bounded(cs),
        p + candidates_encoding(cs).len() <= s.len(),
        s.subrange(p as int, (p + candidates_encoding(cs).len()) as int) == candidates_encoding(cs),
    ensures
        candidates_at(s, p, i) == Some((cs.take(i as int), p + candidates_encoding(cs.take(i as int)).len())),
    decreases i,
{
    if i == 0 {
        assert(cs.take(0) =~= Seq::<CandidateView>::empty());
    } else {
        lemma_candidates_at_encoding(s, p, cs, (i - 1) as nat);
        let prev = cs.take(i - 1);
        let cur = cs.take(i as int);
        assert(cur.drop_last() =~= prev);
        assert(cur.last() == cs[i - 1]);
        lemma_encoding_prefix(cs, i);
        let q = p + candidates_encoding(prev).len();
        let ce = candidate_encoding(cs[i - 1]);
        assert(s.subrange(q as int, (q + ce.len()) as int) =~= ce) by {
            let ea = candidates_encoding(prev);
            let eb = candidates_encoding(cur);
            let all = candidates_encoding(cs);
            lemma_subrange_within(all, 0, eb, ea.len() as int, eb.len() as int);
            assert(eb.subrange(ea.len() as int, eb.len() as int) =~= ce);
            lemma_subrange_within(s, p as int, all, ea.len() as int, eb.len() as int);
        }
        lemma_candidate_at_encoding(s, q, cs[i - 1]);
        assert(prev.push(cs[i - 1]) =~= cur);
    }
}

/// The encoding of the first `i` heads is a prefix of the encoding of all.
proof fn lemma_encoding_prefix(cs: Seq<CandidateView>, i: nat)
    requires
        i <= cs.len(),
    ensures
        candidates_encoding(cs.take(i as int)).len() <= candidates_encoding(cs).len(),
        candidates_encoding(cs).subrange(0, candidates_encoding(cs.take(i as int)).len() as int)
            == candidates_encoding(cs.take(i as int)),
    decreases cs.len() - i,
{
    if i == cs.len() {
        assert(cs.take(i as int) =~= cs);
        assert(candidates_encoding(cs).subrange(0, candidates_encoding(cs).len() as int)
            =~= candidates_encoding(cs));
    } else {
        lemma_encoding_prefix(cs, i + 1);
        let a = cs.take(i as int);
        let b = cs.take((i + 1) as int);
        assert(b.drop_last() =~= a);
        let eb = candidates_encoding(b);
        let ea = candidates_encoding(a);
        assert(eb.subrange(0, ea.len() as int) =~= ea);
        assert(candidates_encoding(cs).subrange(0, ea.len() as int) =~= eb.subrange(0, ea.len() as int));
    }
}

/// A reorder buffer read back from its own stored form is the same buffer:
/// the drain state survives the round trip through storage.
#[verifier::rlimit(40)]
pub proof fn lemma_buffer_round_trip(cs: Seq<CandidateView>)
    requires
        cs.len() <= u32::MAX,
        forall|j: int| 0 <= j < cs.len() ==> #[trigger] cs[j].parent_head_hash.len() == 32,
        heads_bounded(cs),
    ensures
        buffer_of(buffer_encoding(cs)) == Some(cs),
{
    let s = buffer_encoding(cs);
    let w = compact_encoding(cs.len());
    lemma_compact_encoding_len(cs.len());
    lemma_compact_u32_roundtrip(cs.len() as u32, candidates_encoding(cs));
    assert(s.skip(0) =~= s);
    assert(s.subrange(w.len() as int, s.len() as int) =~= candidates_encoding(cs));
    lemma_candidates_at_encoding(s, w.len(), cs, cs.len());
    assert(cs.take(cs.len() as int) =~= cs);
}

/// A `ParaInfoLite` read back from its own stored form is the same record.
pub proof fn lemma_para_info_lite_round_trip(v: ParaInfoLiteView)
    requires
        v.head_data.len() <= MAX_HEAD_DATA_SIZE,
    ensures
        para_info_lite_of(para_info_lite_encoding(v)) == Some(v),
{
    let s = para_info_lite_encoding(v);
    let he = head_encoding(v.head_data);
    let ta = compact_u64_encoding(v.total_state_balance as nat);
    let ua = compact_u64_encoding(v.used_state_balance as nat);
    let p1 = he.len();
    let p3 = p1 + 2;
    let p4 = p3 + ta.len();
    let p5 = p4 + ua.len();
    assert(s.len() == p5 + 1);
    assert(s.subrange(0, p1 as int) =~= he);
    lemma_head_at_encoding(s, 0, v.head_data);
    assert(unit_option_at(s, p1) == Some((v.validation_code, p1 + 1)));
    assert(unit_option_at(s, p1 + 1) == Some((v.pending_upgrade, p3)));
    assert(s.subrange(p3 as int, p4 as int) =~= ta);
    lemma_compact_u64_at_encoding(s, p3, v.total_state_balance);
    assert(s.subrange(p4 as int, p5 as int) =~= ua);
    lemma_compact_u64_at_encoding(s, p4, v.used_state_balance);
    assert(bool_at(s, p5) == Some((v.is_deregistering, p5 + 1)));
}

/// The compact encoding of a `u64` holds its width in octets.
proof fn lemma_compact_u64_encoding_len(n: u64)
    ensures
        compact_u64_encoding(n as nat).len() == compact_width(n as nat),
{
    if n >= 0x4000_0000 {
        lemma_le_bytes_len(n as nat, (compact_width(n as nat) - 1) as nat);
    }
}


// ---------------------------------------------------------------------------
// parasim's refine and accumulate decisions.
// ---------------------------------------------------------------------------

/// A parachain block's new head, and what accumulate needs to place it in
/// the para's lineage.
#[derive(Debug, Clone, PartialEq, Eq)]
pub struct RefinedHead {
    pub para_id: ParaId,
    pub head_data: Vec<u8>,
    /// blake2b-256 of the head this block was refined against.
    pub parent_head_hash: Hash32,
    /// The new head's block number, which bounds the reorder buffer.
    pub number: u32,
}

/// How a PoV decoding failure is reported.
pub open spec fn pov_refusal(e: PoVError) -> ParasimRefineError {
    match e {
        PoVError::Compressed => ParasimRefineError::CompressedPoV,
        PoVError::Malformed => ParasimRefineError::MalformedPoV,
        PoVError::MissingProof => ParasimRefineError::MissingProof,
    }
}

/// parasim's `refine` for an ordinary work item, up to the anchor proof:
/// the para comes from the authorizer config and nowhere else, the payload
/// must be a `ParachainCandidate`, and its PoV is decoded.
pub fn refine_pov<'a>(config: &[u8], item_index: usize, payload: &'a [u8]) -> (r: Result<
    (ParaId, PoV<'a>),
    ParasimRefineError,
>)
    ensures
        match para_ids_at(config@) {
            Some(ids) if item_index < ids.len() => match candidate_code_hash(payload@) {
                None => r == Err::<(ParaId, PoV<'a>), ParasimRefineError>(
                    ParasimRefineError::MalformedPayload,
                ),
                Some(_) => compact_at(payload@, 32) matches Some((_, q)) && ({
                    let s = payload@.subrange(q as int, payload@.len() as int);
                    match pov_layout(s) {
                        Err(e) => r == Err::<(ParaId, PoV<'a>), ParasimRefineError>(pov_refusal(e)),
                        Ok((first, hs, he, ps, pe)) => r matches Ok((p, pv)) && p == ids[item_index as int]
                            && pv.head@ == s.subrange(hs as int, he as int) && pv.parent_hash@
                            == s.subrange(first as int, first + 32int) && pv.anchor_state_proof@
                            == s.subrange(ps as int, pe as int) && number_in_header(pv.head@) == Some(
                            pv.number,
                        ),
                    }
                }),
            },
            _ => r == Err::<(ParaId, PoV<'a>), ParasimRefineError>(ParasimRefineError::NoParaId),
        },
{
    let para_id = match work_package_para_id(config, item_index) {
        Some(p) => p,
        None => return Err(ParasimRefineError::NoParaId),
    };
    let (_, pov_start) = match decode_candidate(payload) {
        Some(c) => c,
        None => return Err(ParasimRefineError::MalformedPayload),
    };
    let pov = &payload[pov_start..payload.len()];
    match decode_pov(pov) {
        Ok(p) => Ok((para_id, p)),
        Err(PoVError::Compressed) => Err(ParasimRefineError::CompressedPoV),
        Err(PoVError::Malformed) => Err(ParasimRefineError::MalformedPoV),
        Err(PoVError::MissingProof) => Err(ParasimRefineError::MissingProof),
    }
}

/// The head refine reports, once the anchor proof checked out: refused with
/// `HeadTooLarge` beyond `MAX_HEAD_DATA_SIZE`.
pub fn refined_head(para_id: ParaId, pov: &PoV) -> (r: Result<RefinedHead, ParasimRefineError>)
    ensures
        pov.head@.len() > MAX_HEAD_DATA_SIZE ==> r == Err::<RefinedHead, ParasimRefineError>(
            ParasimRefineError::HeadTooLarge,
        ),
        pov.head@.len() <= MAX_HEAD_DATA_SIZE ==> (r matches Ok(h) && h.para_id == para_id
            && h.head_data@ == pov.head@ && h.parent_head_hash == pov.parent_hash && h.number
            == pov.number),
{
    if pov.head.len() > MAX_HEAD_DATA_SIZE as usize {
        return Err(ParasimRefineError::HeadTooLarge);
    }
    let mut head_data: Vec<u8> = Vec::new();
    let mut i: usize = 0;
    while i < pov.head.len()
        invariant
            i <= pov.head@.len(),
            head_data@ == pov.head@.subrange(0, i as int),
        decreases pov.head@.len() - i,
    {
        head_data.push(pov.head[i]);
        i = i + 1;
        proof {
            assert(head_data@ =~= pov.head@.subrange(0, i as int));
        }
    }
    proof {
        assert(pov.head@.subrange(0, pov.head@.len() as int) =~= pov.head@);
    }
    Ok(RefinedHead { para_id, head_data, parent_head_hash: pov.parent_hash, number: pov.number })
}

/// The parked head a refined head arrives as, in slot `slot`.
pub fn arriving(head: RefinedHead, slot: u32) -> (c: BufferedCandidate)
    ensures
        c@ == (CandidateView {
            parent_head_hash: head.parent_head_hash@,
            head_data: head.head_data@,
            number: head.number,
            arrived_slot: slot,
        }),
{
    BufferedCandidate {
        parent_head_hash: head.parent_head_hash,
        head_data: head.head_data,
        number: head.number,
        arrived_slot: slot,
    }
}

/// What to do with the buffer's storage entry after an arrival.
#[derive(Debug, Clone, PartialEq, Eq)]
pub enum BufferWrite {
    /// The entry already says this: no write.
    Keep,
    /// The buffer emptied: remove the entry.
    Remove,
    /// Write this encoding.
    Write(Vec<u8>),
}

/// Persist the buffer, skipping the write when the stored entry (`stored`)
/// already says the same: an empty buffer removes the entry if there is
/// one; otherwise its encoding is written unless identical.
pub fn store_buffer(buffer: &ReorderBuffer, stored: Option<&[u8]>) -> (r: BufferWrite)
    requires
        buffer@.len() <= u32::MAX,
        heads_bounded(buffer@),
    ensures
        buffer@.len() == 0 ==> r == (if stored is Some {
            BufferWrite::Remove
        } else {
            BufferWrite::Keep
        }),
        buffer@.len() > 0 ==> (if stored matches Some(b) && b@ == buffer_encoding(buffer@) {
            r == BufferWrite::Keep
        } else {
            r matches BufferWrite::Write(e) && e@ == buffer_encoding(buffer@)
        }),
{
    if buffer.is_empty() {
        return match stored {
            Some(_) => BufferWrite::Remove,
            None => BufferWrite::Keep,
        };
    }
    let encoded = buffer.encode();
    match stored {
        Some(b) => if bytes_eq(b, encoded.as_slice()) {
            BufferWrite::Keep
        } else {
            BufferWrite::Write(encoded)
        },
        None => BufferWrite::Write(encoded),
    }
}


/// What parasim does with an `AssignCore` it was sent.
#[derive(Clone, Debug, PartialEq, Eq)]
pub struct CoreAssignment {
    /// The assigner the message asked for, when it was not this service: it
    /// is overridden (and said so), since handing the core away is for good.
    pub overridden: Option<u32>,
    /// The queue to `assign`, cycle-repeated to JAM's length; `None` for an
    /// empty queue, which there is nothing to write for.
    pub queue: Option<Vec<Hash32>>,
}

/// parasim's `AssignCore`: it always keeps itself (`me`) as the core's
/// assigner, writes immediately, and cycle-repeats a short queue to JAM's
/// `auth_len`.
pub fn assign_core(me: u32, new_assigner: Option<u32>, queue: &Vec<Hash32>, auth_len: usize) -> (r:
    CoreAssignment)
    ensures
        r.overridden == (match new_assigner {
            Some(a) if a != me => Some(a),
            _ => None,
        }),
        queue@.len() == 0 ==> r.queue is None,
        queue@.len() > 0 ==> (r.queue matches Some(q) && q@.len() == auth_len && forall|i: int|
            0 <= i < auth_len ==> #[trigger] q@[i] == queue@[i % queue@.len() as int]),
{
    let overridden = match new_assigner {
        Some(a) => if a != me {
            Some(a)
        } else {
            None
        },
        None => None,
    };
    if queue.len() == 0 {
        return CoreAssignment { overridden, queue: None };
    }
    CoreAssignment { overridden, queue: Some(crate::assigns::expand_queue(queue, auth_len)) }
}

} // verus!
