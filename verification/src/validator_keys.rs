//! The chunked JAM `designate` flow: Asset Hub sends its
//! validator keys in chunks across blocks; the service buffers them and
//! hands the assembled set to JAM on the last chunk.

use crate::constants::MAX_STAGED_VALIDATOR_KEYS;
use crate::log::{AccumulateLog, InsufficientBalanceReason};
use vstd::prelude::*;

verus! {

/// One validator's keys: bandersnatch 32 ‖ ed25519 32 ‖ bls 144 ‖ metadata 128.
pub type ValidatorKey = [u8; 336];

/// What a `SetValidatorKeys` chunk calls for.
#[derive(Clone, Debug, PartialEq, Eq)]
pub enum KeysAction {
    /// The final chunk is empty: Asset Hub's abort. The buffer is cleared and
    /// `designate` is not called.
    Discard,
    /// The final chunk: clear the buffer and hand the `len` staged-then-chunk
    /// keys to `designate`; a refusal is logged as `DesignateRejected`.
    Designate { len: usize },
    /// A partial chunk that would overflow the buffer: refused and logged.
    Overflow(AccumulateLog),
    /// A partial chunk: append it to the buffer (a failed write is logged as
    /// `InsufficientStateBalance { reason: StagedValidatorKeys }`).
    Append,
}

/// Replay of `SetValidatorKeys { keys, is_last }` (Asset Hub only),
/// given how many keys are staged.
pub fn apply(staged_len: usize, chunk_len: usize, is_last: bool) -> (r: KeysAction)
    requires
        staged_len + chunk_len <= usize::MAX,
    ensures
        is_last && chunk_len == 0 ==> r == KeysAction::Discard,
        is_last && chunk_len > 0 ==> r == (KeysAction::Designate { len: (staged_len + chunk_len) as usize }),
        !is_last && staged_len + chunk_len > MAX_STAGED_VALIDATOR_KEYS ==> r == KeysAction::Overflow(
            AccumulateLog::StagedValidatorKeysOverflow,
        ),
        !is_last && staged_len + chunk_len <= MAX_STAGED_VALIDATOR_KEYS ==> r == KeysAction::Append,
{
    if is_last {
        if chunk_len == 0 {
            return KeysAction::Discard;
        }
        return KeysAction::Designate { len: staged_len + chunk_len };
    }
    if staged_len + chunk_len > MAX_STAGED_VALIDATOR_KEYS {
        return KeysAction::Overflow(AccumulateLog::StagedValidatorKeysOverflow);
    }
    KeysAction::Append
}

/// The buffer after a partial chunk: the staged keys, then the chunk's.
pub fn append_keys(staged: &mut Vec<ValidatorKey>, chunk: &Vec<ValidatorKey>)
    ensures
        final(staged)@ == old(staged)@ + chunk@,
{
    let ghost start = staged@;
    let mut i: usize = 0;
    while i < chunk.len()
        invariant
            i <= chunk@.len(),
            staged@ == start + chunk@.subrange(0, i as int),
        decreases chunk@.len() - i,
    {
        staged.push(chunk[i]);
        i = i + 1;
        proof {
            assert(staged@ =~= start + chunk@.subrange(0, i as int));
        }
    }
    proof {
        assert(chunk@.subrange(0, chunk@.len() as int) =~= chunk@);
    }
}

/// The log entry of a failed append.
pub fn append_failed() -> (r: AccumulateLog)
    ensures
        r == (AccumulateLog::InsufficientStateBalance {
            reason: InsufficientBalanceReason::StagedValidatorKeys,
        }),
{
    AccumulateLog::InsufficientStateBalance { reason: InsufficientBalanceReason::StagedValidatorKeys }
}

/// The log entry of a `designate` JAM refused, for a set of `len` keys.
pub fn designate_rejected(len: usize) -> (r: AccumulateLog)
    requires
        len <= u32::MAX,
    ensures
        r == (AccumulateLog::DesignateRejected { len: len as u32 }),
{
    AccumulateLog::DesignateRejected { len: len as u32 }
}

} // verus!
