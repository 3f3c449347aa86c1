//! SCALE compact integers, through `parity_scale_codec`.
//!
//! The service's storage values, log entries and the PoV wire format all use
//! SCALE; the compact-integer width and the compact `u32` prefix decoder are
//! taken from the codec crate itself, with their behaviour stated here.

use parity_scale_codec::{Compact, Decode, Encode};
use vstd::prelude::*;

verus! {

/// Octets of a SCALE compact-encoded integer `n` (`Compact<u64>`, and the
/// same widths for `Compact<u32>`): one byte below 2^6, two below 2^14, four
/// below 2^30, else a prefix byte plus the octets `n` needs.
pub open spec fn compact_width(n: nat) -> nat {
    if n < 0x40 {
        1
    } else if n < 0x4000 {
        2
    } else if n < 0x4000_0000 {
        4
    } else if n < 0x1_0000_0000 {
        5
    } else if n < 0x100_0000_0000 {
        6
    } else if n < 0x1_0000_0000_0000 {
        7
    } else if n < 0x100_0000_0000_0000 {
        8
    } else {
        9
    }
}

/// Wider values never encode shorter.
pub proof fn lemma_compact_width_monotone(a: nat, b: nat)
    requires
        a <= b,
    ensures
        compact_width(a) <= compact_width(b),
{
}

/// Little-endian value of the four octets `s[p..p + 4]`.
pub open spec fn le_u32_at(s: Seq<u8>, p: int) -> nat {
    (s[p] + 0x100 * s[p + 1] + 0x1_0000 * s[p + 2] + 0x100_0000 * s[p + 3]) as nat
}

/// What decoding a `Compact<u32>` off the front of `s` yields: the value and
/// the octets it took, or `None` where the codec refuses (input too short, or
/// a value encoded in a wider mode than it needs).
pub open spec fn compact_u32_prefix(s: Seq<u8>) -> Option<(u32, nat)> {
    if s.len() == 0 {
        None
    } else if s[0] % 4 == 0 {
        Some(((s[0] / 4) as u32, 1))
    } else if s[0] % 4 == 1 {
        if s.len() < 2 {
            None
        } else {
            let x = (s[0] + 0x100 * s[1]) / 4;
            if 0x40 <= x {
                Some((x as u32, 2))
            } else {
                None
            }
        }
    } else if s[0] % 4 == 2 {
        if s.len() < 4 {
            None
        } else {
            let x = le_u32_at(s, 0) / 4;
            if 0x4000 <= x {
                Some((x as u32, 4))
            } else {
                None
            }
        }
    } else {
        if s[0] / 4 != 0 || s.len() < 5 {
            None
        } else {
            let x = le_u32_at(s, 1);
            if 0x4000_0000 <= x {
                Some((x as u32, 5))
            } else {
                None
            }
        }
    }
}

/// `Compact(n).encoded_size()` of `parity_scale_codec`: claimed to be the
/// width its `CompactLen<u64>` table gives, stated as `compact_width`.
#[verifier::external_body]
fn codec_compact_len(n: u64) -> (r: usize)
    ensures
        r == compact_width(n as nat),
{
    Compact(n).encoded_size()
}

/// Byte width of a SCALE compact-encoded integer.
pub fn compact_len(n: u64) -> (r: u64)
    ensures
        r == compact_width(n as nat),
        1 <= r <= 9,
{
    codec_compact_len(n) as u64
}

/// `<Compact<u32> as Decode>::decode` of `parity_scale_codec` on a byte
/// slice. Claimed: it succeeds exactly where `compact_u32_prefix` says, with
/// that value, and leaves the slice just past the octets it took.
#[verifier::external_body]
fn codec_decode_compact_u32(input: &[u8]) -> (r: Option<(u32, &[u8])>)
    ensures
        r is None <==> compact_u32_prefix(input@) is None,
        r matches Some((v, rest)) ==> (compact_u32_prefix(input@) matches Some((w, n)) && v == w
            && rest@ == input@.skip(n as int)),
{
    let mut rest = input;
    match Compact::<u32>::decode(&mut rest) {
        Ok(c) => Some((c.0, rest)),
        Err(_) => None,
    }
}

/// The SCALE compact encoding of `n` (for `n` within `u32`): the low two bits
/// of the first octet select the width, the value sits above them.
pub open spec fn compact_encoding(n: nat) -> Seq<u8> {
    if n < 0x40 {
        seq![(n * 4) as u8]
    } else if n < 0x4000 {
        let v = n * 4 + 1;
        seq![(v % 256) as u8, (v / 256) as u8]
    } else if n < 0x4000_0000 {
        let v = n * 4 + 2;
        seq![(v % 256) as u8, ((v / 256) % 256) as u8, ((v / 0x1_0000) % 256) as u8, (v / 0x100_0000) as u8]
    } else {
        seq![3u8, (n % 256) as u8, ((n / 256) % 256) as u8, ((n / 0x1_0000) % 256) as u8, (n / 0x100_0000) as u8]
    }
}

/// `Compact(n).encode()` of `parity_scale_codec` for a `u32`. Claimed: the
/// octets are `compact_encoding(n)`, as its `Encode for CompactRef<u32>` writes
/// them.
#[verifier::external_body]
fn codec_compact_encode(n: u32) -> (r: Vec<u8>)
    ensures
        r@ == compact_encoding(n as nat),
{
    Compact(n).encode()
}

/// Append the SCALE compact encoding of `n`.
pub fn push_compact_u32(out: &mut Vec<u8>, n: u32)
    ensures
        final(out)@ == old(out)@ + compact_encoding(n as nat),
{
    let enc = codec_compact_encode(n);
    let ghost start = out@;
    let mut i: usize = 0;
    while i < enc.len()
        invariant
            i <= enc@.len(),
            enc@ == compact_encoding(n as nat),
            out@ == start + enc@.subrange(0, i as int),
        decreases enc@.len() - i,
    {
        out.push(enc[i]);
        i = i + 1;
        proof {
            assert(out@ =~= start + enc@.subrange(0, i as int));
        }
    }
    proof {
        assert(enc@.subrange(0, enc@.len() as int) =~= enc@);
    }
}

/// Decode a `Compact<u32>` starting at `pos`: the value and the position just
/// past it.
pub fn decode_compact_u32_at(input: &[u8], pos: usize) -> (r: Option<(u32, usize)>)
    requires
        pos <= input@.len(),
    ensures
        r is None <==> compact_u32_prefix(input@.skip(pos as int)) is None,
        r matches Some((v, q)) ==> (compact_u32_prefix(input@.skip(pos as int)) matches Some((w, n))
            && v == w && q == pos + n && q <= input@.len()),
{
    let tail = &input[pos..input.len()];
    assert(tail@ =~= input@.skip(pos as int));
    match codec_decode_compact_u32(tail) {
        Some((v, rest)) => {
            let q = input.len() - rest.len();
            Some((v, q))
        },
        None => None,
    }
}


/// `256^n`.
pub open spec fn pow256(n: nat) -> nat
    decreases n,
{
    if n == 0 {
        1
    } else {
        256 * pow256((n - 1) as nat)
    }
}

/// The little-endian value of the octets `s`.
pub open spec fn le_value(s: Seq<u8>) -> nat
    decreases s.len(),
{
    if s.len() == 0 {
        0
    } else {
        (s[0] + 256 * le_value(s.skip(1))) as nat
    }
}

/// What decoding a `Compact<u64>` off the front of `s` yields: the value and
/// the octets it took, or `None` where the codec refuses (input too short, a
/// prefix announcing more than eight octets, or a value encoded in a wider
/// mode than it needs).
pub open spec fn compact_u64_prefix(s: Seq<u8>) -> Option<(u64, nat)> {
    if s.len() == 0 {
        None
    } else if s[0] % 4 != 3 {
        match compact_u32_prefix(s) {
            Some((v, n)) => Some((v as u64, n)),
            None => None,
        }
    } else {
        let n = s[0] / 4 + 4;
        if n > 8 || s.len() < 1 + n {
            None
        } else {
            let x = le_value(s.subrange(1, 1 + n));
            let least = if n == 4 {
                0x4000_0000
            } else {
                pow256((n - 1) as nat)
            };
            if x >= least {
                Some((x as u64, (1 + n) as nat))
            } else {
                None
            }
        }
    }
}

/// `<Compact<u64> as Decode>::decode` of `parity_scale_codec` on a byte
/// slice. Claimed: it succeeds exactly where `compact_u64_prefix` says, with
/// that value, and leaves the slice just past the octets it took.
#[verifier::external_body]
fn codec_decode_compact_u64(input: &[u8]) -> (r: Option<(u64, &[u8])>)
    ensures
        r is None <==> compact_u64_prefix(input@) is None,
        r matches Some((v, rest)) ==> (compact_u64_prefix(input@) matches Some((w, n)) && v == w
            && rest@ == input@.skip(n as int)),
{
    let mut rest = input;
    match Compact::<u64>::decode(&mut rest) {
        Ok(c) => Some((c.0, rest)),
        Err(_) => None,
    }
}

/// Decode a `Compact<u64>` starting at `pos`: the value and the position just
/// past it.
pub fn decode_compact_u64_at(input: &[u8], pos: usize) -> (r: Option<(u64, usize)>)
    requires
        pos <= input@.len(),
    ensures
        r is None <==> compact_u64_prefix(input@.skip(pos as int)) is None,
        r matches Some((v, q)) ==> (compact_u64_prefix(input@.skip(pos as int)) matches Some((w, n))
            && v == w && q == pos + n && q <= input@.len()),
{
    let tail = &input[pos..input.len()];
    assert(tail@ =~= input@.skip(pos as int));
    match codec_decode_compact_u64(tail) {
        Some((v, rest)) => {
            let q = input.len() - rest.len();
            Some((v, q))
        },
        None => None,
    }
}

/// The SCALE compact encoding of a `u64`: as for a `u32` below 2^30, else a
/// prefix octet naming the number of value octets, then those octets,
/// little-endian.
pub open spec fn compact_u64_encoding(n: nat) -> Seq<u8> {
    if n < 0x4000_0000 {
        compact_encoding(n)
    } else {
        let b = (compact_width(n) - 1) as nat;
        seq![(3 + 4 * (b - 4)) as u8] + crate::state::le_bytes(n, b)
    }
}

/// `Compact(n).encode()` of `parity_scale_codec` for a `u64`. Claimed: the
/// octets are `compact_u64_encoding(n)`, as its `Encode for CompactRef<u64>`
/// writes them.
#[verifier::external_body]
fn codec_compact_encode_u64(n: u64) -> (r: Vec<u8>)
    ensures
        r@ == compact_u64_encoding(n as nat),
{
    Compact(n).encode()
}

/// Append the SCALE compact encoding of a `u64`.
pub fn push_compact_u64(out: &mut Vec<u8>, n: u64)
    ensures
        final(out)@ == old(out)@ + compact_u64_encoding(n as nat),
{
    let enc = codec_compact_encode_u64(n);
    let ghost start = out@;
    let mut i: usize = 0;
    while i < enc.len()
        invariant
            i <= enc@.len(),
            enc@ == compact_u64_encoding(n as nat),
            out@ == start + enc@.subrange(0, i as int),
        decreases enc@.len() - i,
    {
        out.push(enc[i]);
        i = i + 1;
        proof {
            assert(out@ =~= start + enc@.subrange(0, i as int));
        }
    }
    proof {
        assert(enc@.subrange(0, enc@.len() as int) =~= enc@);
    }
}

/// The little-endian value of `le_bytes(v, n)` is `v`, when `v` fits.
pub proof fn lemma_le_value_of_le_bytes(v: nat, n: nat)
    requires
        v < pow256(n),
    ensures
        le_value(crate::state::le_bytes(v, n)) == v,
        crate::state::le_bytes(v, n).len() == n,
    decreases n,
{
    crate::state::lemma_le_bytes_len(v, n);
    if n > 0 {
        let t = crate::state::le_bytes(v / 256, (n - 1) as nat);
        assert(v / 256 < pow256((n - 1) as nat)) by (nonlinear_arith)
            requires
                v < 256 * pow256((n - 1) as nat),
        ;
        lemma_le_value_of_le_bytes(v / 256, (n - 1) as nat);
        assert(crate::state::le_bytes(v, n).skip(1) =~= t);
    }
}

/// Decoding a compact integer below 2^30 off its own encoding gives it back.
proof fn lemma_compact_small_roundtrip(n: nat, rest: Seq<u8>)
    requires
        n < 0x4000_0000,
    ensures
        compact_u32_prefix(compact_encoding(n) + rest) == Some((n as u32, compact_width(n))),
{
    let s = compact_encoding(n) + rest;
    if n < 0x40 {
        assert(s[0] == (n * 4) as u8);
    } else if n < 0x4000 {
        let v = n * 4 + 1;
        assert(s[0] == (v % 256) as u8 && s[1] == (v / 256) as u8);
        assert((s[0] + 0x100 * s[1]) == v);
    } else {
        let v = n * 4 + 2;
        assert(s[0] == (v % 256) as u8);
        assert(s[1] == ((v / 256) % 256) as u8);
        assert(s[2] == ((v / 0x1_0000) % 256) as u8);
        assert(s[3] == (v / 0x100_0000) as u8);
        assert(le_u32_at(s, 0) == v);
    }
}

/// Decoding a `Compact<u32>` off its own encoding gives the value back, and
/// takes exactly its width.
pub proof fn lemma_compact_u32_roundtrip(n: u32, rest: Seq<u8>)
    ensures
        compact_u32_prefix(compact_encoding(n as nat) + rest) == Some((n, compact_width(n as nat))),
{
    if n < 0x4000_0000 {
        lemma_compact_small_roundtrip(n as nat, rest);
    } else {
        let s = compact_encoding(n as nat) + rest;
        assert(s[1] == (n % 256) as u8);
        assert(s[2] == ((n / 256) % 256) as u8);
        assert(s[3] == ((n / 0x1_0000) % 256) as u8);
        assert(s[4] == (n / 0x100_0000) as u8);
        assert(le_u32_at(s, 1) == n);
    }
}

/// Decoding a `Compact<u64>` off its own encoding gives the value back, and
/// takes exactly its width.
pub proof fn lemma_compact_u64_roundtrip(n: u64, rest: Seq<u8>)
    ensures
        compact_u64_prefix(compact_u64_encoding(n as nat) + rest) == Some((n, compact_width(n as nat))),
{
    if n < 0x4000_0000 {
        lemma_compact_small_roundtrip(n as nat, rest);
        let s = compact_u64_encoding(n as nat) + rest;
        assert(s[0] % 4 != 3);
    } else {
        let b = (compact_width(n as nat) - 1) as nat;
        let s = compact_u64_encoding(n as nat) + rest;
        let body = crate::state::le_bytes(n as nat, b);
        assert(pow256(4) == 0x1_0000_0000) by {
            reveal_with_fuel(pow256, 5);
        }
        assert(pow256(5) == 0x100_0000_0000) by {
            reveal_with_fuel(pow256, 6);
        }
        assert(pow256(6) == 0x1_0000_0000_0000) by {
            reveal_with_fuel(pow256, 7);
        }
        assert(pow256(7) == 0x100_0000_0000_0000) by {
            reveal_with_fuel(pow256, 8);
        }
        assert(pow256(8) == 0x1_0000_0000_0000_0000) by {
            reveal_with_fuel(pow256, 9);
        }
        lemma_le_value_of_le_bytes(n as nat, b);
        assert(s.subrange(1, 1 + b as int) =~= body);
        assert(s[0] == (3 + 4 * (b - 4)) as u8);
    }
}

} // verus!
