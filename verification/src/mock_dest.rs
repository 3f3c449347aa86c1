//! A mock transfer-destination service for gas benchmarks: its memo handler
//! indexes each transfer by the sender-chosen reference in its memo, both
//! ways, and bumps a received-counter.

use crate::state::{le_bytes, push_le};
use crate::transfers::Memo;
use vstd::prelude::*;

verus! {

/// The key of the received-counter.
pub const COUNT_KEY: [u8; 1] = [99];

/// The storage writes one received transfer makes.
pub struct TransferIndex {
    /// `b'f' ‖ reference` → `source ‖ amount` (little-endian).
    pub forward_key: Vec<u8>,
    pub forward_value: Vec<u8>,
    /// `b'b' ‖ source` → `reference`.
    pub backward_key: Vec<u8>,
    pub backward_value: Vec<u8>,
}

/// Index a transfer from `source` of `amount`: the first 32 memo octets are
/// the deposit reference.
pub fn handle_transfer(source: u32, amount: u64, memo: &Memo) -> (r: TransferIndex)
    ensures
        r.forward_key@ == seq![102u8] + memo@.subrange(0, 32),
        r.forward_value@ == le_bytes(source as nat, 4) + le_bytes(amount as nat, 8),
        r.backward_key@ == seq![98u8] + le_bytes(source as nat, 4),
        r.backward_value@ == memo@.subrange(0, 32),
{
    let mut reference: Vec<u8> = Vec::new();
    let mut i: usize = 0;
    while i < 32
        invariant
            i <= 32,
            reference@ == memo@.subrange(0, i as int),
        decreases 32 - i,
    {
        reference.push(memo[i]);
        i = i + 1;
        proof {
            assert(reference@ =~= memo@.subrange(0, i as int));
        }
    }
    let mut forward_key: Vec<u8> = Vec::new();
    forward_key.push(102);
    let mut j: usize = 0;
    while j < 32
        invariant
            j <= 32,
            reference@ == memo@.subrange(0, 32),
            forward_key@ == seq![102u8] + reference@.subrange(0, j as int),
        decreases 32 - j,
    {
        forward_key.push(reference[j]);
        j = j + 1;
        proof {
            assert(forward_key@ =~= seq![102u8] + reference@.subrange(0, j as int));
        }
    }
    proof {
        assert(reference@.subrange(0, 32) =~= reference@);
    }
    let mut forward_value: Vec<u8> = Vec::new();
    push_le(&mut forward_value, source as u64, 4);
    push_le(&mut forward_value, amount, 8);
    let mut backward_key: Vec<u8> = Vec::new();
    backward_key.push(98);
    push_le(&mut backward_key, source as u64, 4);
    proof {
        assert(forward_value@ =~= le_bytes(source as nat, 4) + le_bytes(amount as nat, 8));
    }
    TransferIndex { forward_key, forward_value, backward_key, backward_value: reference }
}

/// The counter after one more transfer, given what is stored under
/// `COUNT_KEY` (absent is zero; the first eight octets, little-endian).
pub fn next_count(stored: Option<&[u8]>) -> (r: Vec<u8>)
    requires
        stored matches Some(b) ==> b@.len() >= 8 && crate::scale::le_value(b@.subrange(0, 8)) < u64::MAX,
    ensures
        r@ == le_bytes(
            (match stored {
                Some(b) => crate::scale::le_value(b@.subrange(0, 8)),
                None => 0,
            }) + 1,
            8,
        ),
{
    let count: u64 = match stored {
        None => 0,
        Some(b) => {
            let mut v: u64 = 0;
            let mut k: usize = 8;
            proof {
                assert(b@.subrange(8, 8) =~= Seq::<u8>::empty());
            }
            while k > 0
                invariant
                    k <= 8,
                    b@.len() >= 8,
                    v == crate::scale::le_value(b@.subrange(k as int, 8)),
                    v < crate::scale::pow256((8 - k) as nat),
                decreases k,
            {
                let ghost old_v = v;
                proof {
                    assert(b@.subrange(k - 1, 8).skip(1) =~= b@.subrange(k as int, 8));
                    assert(crate::scale::pow256((8 - k + 1) as nat) == 256 * crate::scale::pow256(
                        (8 - k) as nat,
                    ));
                    assert(crate::scale::pow256(8) == 0x1_0000_0000_0000_0000) by {
                        reveal_with_fuel(crate::scale::pow256, 9);
                    }
                    lemma_pow256_monotone((8 - k + 1) as nat, 8);
                    assert(old_v * 256 + 255 < crate::scale::pow256((8 - k + 1) as nat)) by (nonlinear_arith)
                        requires
                            old_v < crate::scale::pow256((8 - k) as nat),
                            crate::scale::pow256((8 - k + 1) as nat) == 256 * crate::scale::pow256(
                                (8 - k) as nat,
                            ),
                    ;
                }
                v = b[k - 1] as u64 + 256 * v;
                k = k - 1;
            }
            proof {
                assert(b@.subrange(0, 8) =~= b@.subrange(k as int, 8));
            }
            v
        },
    };
    let mut out: Vec<u8> = Vec::new();
    push_le(&mut out, count + 1, 8);
    out
}

/// `256^a <= 256^b` for `a <= b`.
proof fn lemma_pow256_monotone(a: nat, b: nat)
    requires
        a <= b,
    ensures
        crate::scale::pow256(a) <= crate::scale::pow256(b),
    decreases b - a,
{
    if a < b {
        lemma_pow256_monotone(a, (b - 1) as nat);
    }
}

} // verus!
