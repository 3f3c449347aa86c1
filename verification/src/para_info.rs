//! Per-parachain record.

use crate::parasim::{
    bool_encoding, head_encoding, para_info_lite_encoding, push_head, unit_option_encoding,
    ParaInfoLiteView,
};
use crate::scale::{compact_encoding, compact_u64_encoding, push_compact_u32, push_compact_u64};
use crate::types::{Balance, ValidationCodeRef, MAX_HEAD_DATA_SIZE};
use vstd::prelude::*;

verus! {

/// Per-parachain metadata.
#[derive(Clone, Debug, PartialEq, Eq)]
pub struct ParaInfo {
    /// Current head data (output of last included block).
    pub head_data: Vec<u8>,
    /// Currently active validation code, or `None` for a freshly-registered
    /// parachain.
    pub validation_code: Option<ValidationCodeRef>,
    /// Code announced for upgrade, awaiting an `Apply`.
    pub announced_upgrade: Option<ValidationCodeRef>,
    /// Total state balance allocated to this parachain.
    pub total_state_balance: Balance,
    /// State balance currently consumed by this parachain's footprint.
    pub used_state_balance: Balance,
    /// Set once `parachain_clean_up` has begun deregistering this parachain
    /// but some preimage still awaits its second, expunging `forget`.
    pub is_deregistering: bool,
}

/// `x + y`, saturating at `u64::MAX`.
pub open spec fn sat_add(x: u64, y: u64) -> u64 {
    if x + y > u64::MAX {
        u64::MAX
    } else {
        (x + y) as u64
    }
}

/// `x - y`, saturating at `0`.
pub open spec fn sat_sub(x: u64, y: u64) -> u64 {
    if x < y {
        0
    } else {
        (x - y) as u64
    }
}

impl ParaInfo {
    /// The write-time invariant: `true` iff growing `used_state_balance` by
    /// `delta` stays within `total_state_balance`.
    pub fn has_headroom(&self, delta: Balance) -> (r: bool)
        ensures
            r == (sat_add(self.used_state_balance, delta) <= self.total_state_balance),
    {
        self.used_state_balance.saturating_add(delta) <= self.total_state_balance
    }

    /// Grow `used_state_balance`; the caller must have checked headroom.
    pub fn charge(&mut self, delta: Balance)
        ensures
            *final(self) == (ParaInfo {
                used_state_balance: sat_add(old(self).used_state_balance, delta),
                ..*old(self)
            }),
    {
        self.used_state_balance = self.used_state_balance.saturating_add(delta);
    }

    /// Shrink `used_state_balance` (a release/refund).
    pub fn refund(&mut self, delta: Balance)
        ensures
            *final(self) == (ParaInfo {
                used_state_balance: sat_sub(old(self).used_state_balance, delta),
                ..*old(self)
            }),
    {
        self.used_state_balance = self.used_state_balance.saturating_sub(delta);
    }
}

/// A charge that passed the headroom check, rolled back by a refund of the
/// same amount, leaves the record as it was.
pub proof fn lemma_charge_then_refund(pi: ParaInfo, delta: Balance)
    requires
        pi.used_state_balance + delta <= pi.total_state_balance,
    ensures
        (ParaInfo {
            used_state_balance: sat_sub(sat_add(pi.used_state_balance, delta), delta),
            ..pi
        }) == pi,
{
}


/// The SCALE encoding of an optional code reference: `0`, or `1`, the
/// 32-octet hash and the compact length.
pub open spec fn code_ref_encoding(o: Option<ValidationCodeRef>) -> Seq<u8> {
    match o {
        None => seq![0u8],
        Some(vc) => seq![1u8] + vc.hash.0@ + compact_encoding(vc.len as nat),
    }
}

/// The SCALE encoding of a para's record, as it is stored.
pub open spec fn para_info_encoding(pi: ParaInfo) -> Seq<u8> {
    head_encoding(pi.head_data@) + code_ref_encoding(pi.validation_code) + code_ref_encoding(
        pi.announced_upgrade,
    ) + compact_u64_encoding(pi.total_state_balance as nat) + compact_u64_encoding(
        pi.used_state_balance as nat,
    ) + bool_encoding(pi.is_deregistering)
}

/// Append an optional code reference.
fn push_code_ref(out: &mut Vec<u8>, o: &Option<ValidationCodeRef>)
    ensures
        final(out)@ == old(out)@ + code_ref_encoding(*o),
{
    match o {
        None => {
            out.push(0);
        },
        Some(vc) => {
            out.push(1);
            let ghost start = out@;
            let mut i: usize = 0;
            while i < 32
                invariant
                    i <= 32,
                    out@ == start + vc.hash.0@.subrange(0, i as int),
                decreases 32 - i,
            {
                out.push(vc.hash.0[i]);
                i = i + 1;
                proof {
                    assert(out@ =~= start + vc.hash.0@.subrange(0, i as int));
                }
            }
            proof {
                assert(vc.hash.0@.subrange(0, 32) =~= vc.hash.0@);
            }
            push_compact_u32(out, vc.len);
        },
    }
    proof {
        assert(out@ =~= old(out)@ + code_ref_encoding(*o));
    }
}

impl ParaInfo {
    /// The SCALE encoding of this record, as it is stored.
    pub fn encode(&self) -> (r: Vec<u8>)
        requires
            self.head_data@.len() <= MAX_HEAD_DATA_SIZE,
        ensures
            r@ == para_info_encoding(*self),
    {
        let mut out: Vec<u8> = Vec::new();
        push_head(&mut out, self.head_data.as_slice());
        push_code_ref(&mut out, &self.validation_code);
        push_code_ref(&mut out, &self.announced_upgrade);
        push_compact_u64(&mut out, self.total_state_balance);
        push_compact_u64(&mut out, self.used_state_balance);
        out.push(
            if self.is_deregistering {
                1u8
            } else {
                0u8
            },
        );
        proof {
            assert(out@ =~= para_info_encoding(*self));
        }
        out
    }
}

/// The parasim record is byte-compatible with the real one: a record with no
/// code, zero balances and no deregistration encodes exactly as the
/// `ParaInfoLite` carrying the same head.
pub proof fn lemma_para_info_lite_compatible(pi: ParaInfo)
    requires
        pi.validation_code is None,
        pi.announced_upgrade is None,
        pi.total_state_balance == 0,
        pi.used_state_balance == 0,
        !pi.is_deregistering,
    ensures
        para_info_encoding(pi) == para_info_lite_encoding(
            ParaInfoLiteView {
                head_data: pi.head_data@,
                validation_code: None,
                pending_upgrade: None,
                total_state_balance: 0,
                used_state_balance: 0,
                is_deregistering: false,
            },
        ),
{
    assert(code_ref_encoding(None) == unit_option_encoding(None));
}

} // verus!
