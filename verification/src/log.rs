//! Per-parachain log: entry types, exact-size accounting,
//! eviction, and pruning.
//!
//! Sizes are the exact SCALE encoded size of the stored value, so the 64 KiB
//! cap is enforced against real bytes.

use crate::bounded::{
    auth_trace_as_slice, auth_trace_bytes, auth_trace_from_vec, opaque_as_slice, opaque_bytes,
    OpaquePayload, StoredAuthTrace,
};
use crate::constants::{PARACHAIN_LOG_BYTE_CAP, STORED_AUTH_TRACE_CAP};
use crate::hashing::Hash32;
use crate::scale::compact_width;
use crate::state_balance::compact_len;
use crate::types::{Balance, ParaId, Timeslot};
use vstd::prelude::*;

verus! {

/// Structured reason a `refine` invocation failed.
#[derive(Clone, Debug, PartialEq, Eq)]
pub enum RefineLog {
    /// The validation code preimage is not available at the lookup-anchor.
    InvalidCodeHash,
    /// Opaque payload supplied by the PVF via `report_error(data)` (max 1024 bytes).
    Opaque(OpaquePayload),
    /// A `set_validator_keys` chunk contained more than 30 keys, or it was
    /// called more than once in a single Refine invocation.
    SetValidatorKeysTooManyKeys,
    /// The PVF emitted more than 1024 upward messages.
    TooManyUpwardMessages,
    /// The PVF invoked a host function restricted to another parachain.
    RestrictedHostFunction,
    /// An `assign_core` queue outside 1..=`AUTHORIZER_QUEUE_LEN` hashes, or not
    /// exactly `AUTHORIZER_QUEUE_LEN` when handing the core away.
    InvalidAuthorizerQueue,
    /// The work package payload failed to be decoded.
    MalformedPayload,
    /// The encoded digest would exceed the 48 KiB result + auth-trace budget.
    RefineOutputTooLarge,
    /// The PVF exited without calling `set_parent_head_hash` and `set_head`
    /// exactly once.
    MissingHeadDeclaration,
    /// The work report's authorizer trace does not decode.
    MalformedAuthTrace,
    /// The validation code is not a runnable PVM program.
    InvalidCode,
    /// The PVF page-faulted, panicked or ran out of gas.
    ValidationFailed,
    /// The declared head exceeds `MAX_HEAD_DATA_SIZE`.
    HeadDataTooLarge,
    /// A `SetValidatorKeys` message carried more keys than one chunk may.
    TooManyValidatorKeys,
    /// `SetValidatorKeys` was sent more than once in one Refine.
    SetValidatorKeysRepeated,
    /// The encoded upward messages exceed their budget.
    UpwardMessagesTooLarge,
}

/// Why a state-balance reservation failed.
#[derive(Clone, Debug, PartialEq, Eq)]
pub enum InsufficientBalanceReason {
    /// A `solicit` of the preimage with `hash` and `len` (compact-encoded).
    Solicit { hash: Hash32, len: u32 },
    /// A `kv_set(key, value)` write; only the hash of `key` is recorded.
    SetKV { key_hash: Hash32 },
    /// A write of the para's own record (a head, code or balance update).
    ParaInfo,
    /// A write of the incoming-transfer queue (Asset Hub).
    IncomingTransfer,
    /// A write of the staged validator keys (Asset Hub).
    StagedValidatorKeys,
}

/// Why a supervisor-driven storage operation on a foreign service failed.
#[derive(Clone, Copy, Debug, PartialEq, Eq, Structural)]
pub enum ServiceStoreError {
    UnknownService,
    NotSupervised,
}

/// Why a supervisor-driven `solicit` for a foreign service failed.
#[derive(Clone, Copy, Debug, PartialEq, Eq, Structural)]
pub enum ServiceSolicitError {
    UnknownService,
    NotSupervised,
}

/// Why an `eject_service` failed.
#[derive(Clone, Copy, Debug, PartialEq, Eq, Structural)]
pub enum ServiceEjectError {
    TargetIsSelf,
    UnknownService,
    NotSupervised,
}

/// Why a `set_service_supervisor` failed.
#[derive(Clone, Copy, Debug, PartialEq, Eq, Structural)]
pub enum ServiceSupervisorError {
    UnknownService,
    UnknownNewSupervisor,
    NotSupervised,
}

/// What a `create_service` came to.
#[derive(Clone, Copy, Debug, PartialEq, Eq, Structural)]
pub enum ServiceCreationResult {
    /// Created, with this service id.
    Created(u32),
    /// The desired id is taken.
    IdTaken,
    /// The service cannot fund the new one.
    CannotAfford,
}

/// Why `parachain_set_state_balance` was refused.
#[derive(Clone, Copy, Debug, PartialEq, Eq, Structural)]
pub enum StateBalanceRejection {
    /// The new total is below what the para already uses (both compact).
    BelowUsed { current_total: Balance, current_used: Balance },
    /// The para is being deregistered.
    ParachainIsDeregistering,
}

/// Why a JAM `transfer` replaying a `TransferOut` failed.
#[derive(Clone, Copy, Debug, PartialEq, Eq, Structural)]
pub enum TransferError {
    /// `source` is not a known service.
    UnknownSource,
    /// `dest` is not a known service.
    UnknownDestination,
    /// The service is not `source`'s effective supervisor.
    SourceNotSupervised,
    /// A plain move to another service needs the service to be `dest`'s
    /// effective supervisor; also covers an identity write.
    DestinationNotSupervised,
    /// The supplied gas is below `dest`'s `min_memo_gas`.
    GasBelowDestinationMinimum,
    /// The transfer would leave the Parachain Service below its threshold balance.
    InsufficientServiceBalance,
}

/// Events recorded while Accumulating for a parachain. Integer
/// fields documented as compact are SCALE compact-encoded.
#[derive(Clone, Debug, PartialEq, Eq)]
pub enum AccumulateLog {
    /// Available state balance insufficient for the operation.
    InsufficientStateBalance { reason: InsufficientBalanceReason },
    /// `parachain_set_state_balance` rejected (`attempted` compact).
    StateBalanceUpdateRejected { para_id: ParaId, attempted: Balance, reason: StateBalanceRejection },
    /// JAM `designate` was not called: the assembled key set's length (compact)
    /// is not in `valcount`.
    DesignateRejected { len: u32 },
    /// A `set_validator_keys` chunk would overflow `staged_validator_keys`.
    StagedValidatorKeysOverflow,
    /// `parachain_service_upgrade` rejected: new code's preimage missing.
    ServiceUpgradePreimageMissing { code_hash: Hash32 },
    /// The JAM `transfer` replaying a `TransferOut` failed; `id` (compact) is
    /// the caller-supplied identifier.
    TransferFailed { id: u64, error: TransferError },
    /// A `forget` removed the last referencer without expunging the preimage;
    /// `forget` again once strictly past `due` (`len` compact).
    ForgetAgainAt { hash: Hash32, len: u32, due: Timeslot },
    /// `parachain_clean_up` rejected: state held beyond baseline + codes.
    TooMuchStateHeld,
    /// JAM refused an `assign`: the service is no longer the core's assigner.
    CoreNotAssignable { core: u16 },
    /// A code-upgrade announcement named code that is not referenced by the
    /// para or not available at the lookup anchor (`len` compact).
    CodeUpgradeNotAvailable { hash: Hash32, len: u32 },
    /// An `Apply` named code that is not the announced one (`len` compact).
    CodeUpgradeNotAnnounced { hash: Hash32, len: u32 },
    /// A `forget` named the para's active or announced validation code
    /// (`len` compact).
    CanNotForgetValidationCode { hash: Hash32, len: u32 },
    /// A `Service`-targeted `forget`, or a `remove_service_storage`, failed.
    ServiceStoreFailed { service: u32, error: ServiceStoreError },
    /// A `Service`-targeted `solicit` failed.
    ServiceSolicitFailed { service: u32, error: ServiceSolicitError },
    /// An `eject_service` failed.
    ServiceEjectFailed { service: u32, error: ServiceEjectError },
    /// A `set_service_supervisor` failed.
    ServiceSupervisorFailed { service: u32, error: ServiceSupervisorError },
    /// A `create_service` with caller identifier `id` (compact) came to
    /// `result`.
    ServiceCreation { id: u64, result: ServiceCreationResult },
}

/// One log entry.
#[derive(Clone, Debug, PartialEq, Eq)]
pub enum LogEntry {
    /// What went wrong during Refine, with the work-report's auth trace.
    Refine { error: RefineLog, auth_trace: StoredAuthTrace },
    /// Events recorded while Accumulating a work digest.
    Accumulate { entries: Vec<AccumulateLog> },
}

/// A parachain's full log value: `(timeslot, entry)` pairs in append order.
pub type ParachainLog = Vec<(Timeslot, LogEntry)>;

// ---------------------------------------------------------------------------
// Exact encoded sizes.
// ---------------------------------------------------------------------------

/// Encoded size of a `RefineLog`.
pub open spec fn refine_log_size(e: RefineLog) -> nat {
    match e {
        RefineLog::Opaque(p) => 1 + compact_width(opaque_bytes(p).len()) + opaque_bytes(p).len(),
        _ => 1,
    }
}

/// Encoded size of an `AccumulateLog`.
pub open spec fn accumulate_log_size(a: AccumulateLog) -> nat {
    match a {
        AccumulateLog::InsufficientStateBalance { reason } => match reason {
            InsufficientBalanceReason::Solicit { len, .. } => 1 + 1 + 32 + compact_width(len as nat),
            InsufficientBalanceReason::SetKV { .. } => 1 + 1 + 32,
            _ => 1 + 1,
        },
        AccumulateLog::StateBalanceUpdateRejected { attempted, reason, .. } => 1 + 4
            + compact_width(attempted as nat) + match reason {
            StateBalanceRejection::BelowUsed { current_total, current_used } => 1 + compact_width(
                current_total as nat,
            ) + compact_width(current_used as nat),
            StateBalanceRejection::ParachainIsDeregistering => 1,
        },
        AccumulateLog::DesignateRejected { len } => 1 + compact_width(len as nat),
        AccumulateLog::StagedValidatorKeysOverflow => 1,
        AccumulateLog::ServiceUpgradePreimageMissing { .. } => 1 + 32,
        AccumulateLog::TransferFailed { id, .. } => 1 + compact_width(id as nat) + 1,
        AccumulateLog::ForgetAgainAt { len, .. } => 1 + 32 + compact_width(len as nat) + 4,
        AccumulateLog::TooMuchStateHeld => 1,
        AccumulateLog::CoreNotAssignable { .. } => 1 + 2,
        AccumulateLog::CodeUpgradeNotAvailable { len, .. } => 1 + 32 + compact_width(len as nat),
        AccumulateLog::CodeUpgradeNotAnnounced { len, .. } => 1 + 32 + compact_width(len as nat),
        AccumulateLog::CanNotForgetValidationCode { len, .. } => 1 + 32 + compact_width(
            len as nat,
        ),
        AccumulateLog::ServiceStoreFailed { .. } => 1 + 4 + 1,
        AccumulateLog::ServiceSolicitFailed { .. } => 1 + 4 + 1,
        AccumulateLog::ServiceEjectFailed { .. } => 1 + 4 + 1,
        AccumulateLog::ServiceSupervisorFailed { .. } => 1 + 4 + 1,
        AccumulateLog::ServiceCreation { id, result } => 1 + compact_width(id as nat) + match result {
            ServiceCreationResult::Created(_) => 1 + 4,
            _ => 1,
        },
    }
}

/// Total encoded size of a sequence of accumulate events (without the length prefix).
pub open spec fn events_size(s: Seq<AccumulateLog>) -> nat
    decreases s.len(),
{
    if s.len() == 0 {
        0
    } else {
        events_size(s.drop_last()) + accumulate_log_size(s.last())
    }
}

/// Encoded size of a `LogEntry`.
pub open spec fn entry_size(e: LogEntry) -> nat {
    match e {
        LogEntry::Refine { error, auth_trace } => 1 + refine_log_size(error) + compact_width(
            auth_trace_bytes(auth_trace).len(),
        ) + auth_trace_bytes(auth_trace).len(),
        LogEntry::Accumulate { entries } => 1 + compact_width(entries@.len()) + events_size(
            entries@,
        ),
    }
}

/// Total encoded size of a sequence of `(timeslot, entry)` pairs, without the
/// length prefix.
pub open spec fn items_size(s: Seq<(Timeslot, LogEntry)>) -> nat
    decreases s.len(),
{
    if s.len() == 0 {
        0
    } else {
        items_size(s.drop_last()) + 4 + entry_size(s.last().1)
    }
}

/// Exact encoded size of a parachain log.
pub open spec fn log_size(s: Seq<(Timeslot, LogEntry)>) -> nat {
    compact_width(s.len()) + items_size(s)
}

fn refine_log_encoded_size(e: &RefineLog) -> (r: usize)
    ensures
        r == refine_log_size(*e),
        r <= 1 + 3 + 1024,
{
    match e {
        RefineLog::Opaque(p) => {
            let bytes = opaque_as_slice(p);
            1 + compact_len(bytes.len() as u64) as usize + bytes.len()
        },
        _ => 1,
    }
}

fn accumulate_log_encoded_size(a: &AccumulateLog) -> (r: usize)
    ensures
        r == accumulate_log_size(*a),
        r <= 64,
{
    match a {
        AccumulateLog::InsufficientStateBalance { reason } => match reason {
            InsufficientBalanceReason::Solicit { len, .. } => 34 + compact_len(*len as u64) as usize,
            InsufficientBalanceReason::SetKV { .. } => 34,
            _ => 2,
        },
        AccumulateLog::StateBalanceUpdateRejected { attempted, reason, .. } => 5 + compact_len(
            *attempted,
        ) as usize + match reason {
            StateBalanceRejection::BelowUsed { current_total, current_used } => 1 + compact_len(
                *current_total,
            ) as usize + compact_len(*current_used) as usize,
            StateBalanceRejection::ParachainIsDeregistering => 1,
        },
        AccumulateLog::DesignateRejected { len } => 1 + compact_len(*len as u64) as usize,
        AccumulateLog::StagedValidatorKeysOverflow => 1,
        AccumulateLog::ServiceUpgradePreimageMissing { .. } => 33,
        AccumulateLog::TransferFailed { id, .. } => 2 + compact_len(*id) as usize,
        AccumulateLog::ForgetAgainAt { len, .. } => 37 + compact_len(*len as u64) as usize,
        AccumulateLog::TooMuchStateHeld => 1,
        AccumulateLog::CoreNotAssignable { .. } => 3,
        AccumulateLog::CodeUpgradeNotAvailable { len, .. } => 33 + compact_len(*len as u64) as usize,
        AccumulateLog::CodeUpgradeNotAnnounced { len, .. } => 33 + compact_len(*len as u64) as usize,
        AccumulateLog::CanNotForgetValidationCode { len, .. } => 33 + compact_len(*len as u64)
            as usize,
        AccumulateLog::ServiceStoreFailed { .. } => 6,
        AccumulateLog::ServiceSolicitFailed { .. } => 6,
        AccumulateLog::ServiceEjectFailed { .. } => 6,
        AccumulateLog::ServiceSupervisorFailed { .. } => 6,
        AccumulateLog::ServiceCreation { id, result } => 1 + compact_len(*id) as usize + match result {
            ServiceCreationResult::Created(_) => 5,
            _ => 1,
        },
    }
}

/// The encoded size of one entry; `None` if it does not fit a `usize`.
fn entry_encoded_size(e: &LogEntry) -> (r: Option<usize>)
    ensures
        r matches Some(n) ==> n == entry_size(*e),
        r is None ==> entry_size(*e) > usize::MAX,
{
    match e {
        LogEntry::Refine { error, auth_trace } => {
            let t = auth_trace_as_slice(auth_trace);
            Some(
                1 + refine_log_encoded_size(error) + compact_len(t.len() as u64) as usize
                    + t.len(),
            )
        },
        LogEntry::Accumulate { entries } => {
            let mut total: usize = 1 + compact_len(entries.len() as u64) as usize;
            let mut i: usize = 0;
            while i < entries.len()
                invariant
                    i <= entries@.len(),
                    entry_size(*e) == 1 + compact_width(entries@.len()) + events_size(entries@),
                    total == 1 + compact_width(entries@.len()) + events_size(
                        entries@.subrange(0, i as int),
                    ),
                decreases entries@.len() - i,
            {
                let s = accumulate_log_encoded_size(&entries[i]);
                proof {
                    assert(entries@.subrange(0, i + 1).drop_last() =~= entries@.subrange(
                        0,
                        i as int,
                    ));
                }
                if total > usize::MAX - s {
                    proof {
                        lemma_events_size_prefix(entries@, i + 1);
                    }
                    return None;
                }
                total = total + s;
                i = i + 1;
            }
            proof {
                assert(entries@.subrange(0, entries@.len() as int) =~= entries@);
            }
            Some(total)
        },
    }
}

proof fn lemma_events_size_prefix(s: Seq<AccumulateLog>, i: int)
    requires
        0 <= i <= s.len(),
    ensures
        events_size(s.subrange(0, i)) <= events_size(s),
    decreases s.len() - i,
{
    if i < s.len() {
        lemma_events_size_prefix(s, i + 1);
        assert(s.subrange(0, i + 1).drop_last() =~= s.subrange(0, i));
    } else {
        assert(s.subrange(0, i) =~= s);
    }
}

/// The exact encoded size of a log; `None` if it does not fit a `usize`.
pub fn log_encoded_size(log: &ParachainLog) -> (r: Option<usize>)
    ensures
        r matches Some(n) ==> n == log_size(log@),
        r is None ==> log_size(log@) > usize::MAX,
{
    let mut total: usize = compact_len(log.len() as u64) as usize;
    let mut i: usize = 0;
    while i < log.len()
        invariant
            i <= log@.len(),
            total == compact_width(log@.len()) + items_size(log@.subrange(0, i as int)),
        decreases log@.len() - i,
    {
        proof {
            assert(log@.subrange(0, i + 1).drop_last() =~= log@.subrange(0, i as int));
        }
        let s = match entry_encoded_size(&log[i].1) {
            Some(s) => s,
            None => {
                proof {
                    lemma_items_size_prefix(log@, i + 1);
                }
                return None;
            },
        };
        if s > usize::MAX - 4 || total > usize::MAX - 4 - s {
            proof {
                lemma_items_size_prefix(log@, i + 1);
            }
            return None;
        }
        total = total + 4 + s;
        i = i + 1;
    }
    proof {
        assert(log@.subrange(0, log@.len() as int) =~= log@);
    }
    Some(total)
}

proof fn lemma_items_size_prefix(s: Seq<(Timeslot, LogEntry)>, i: int)
    requires
        0 <= i <= s.len(),
    ensures
        items_size(s.subrange(0, i)) <= items_size(s),
    decreases s.len() - i,
{
    if i < s.len() {
        lemma_items_size_prefix(s, i + 1);
        assert(s.subrange(0, i + 1).drop_last() =~= s.subrange(0, i));
    } else {
        assert(s.subrange(0, i) =~= s);
    }
}

// ---------------------------------------------------------------------------
// Ranks and eviction.
// ---------------------------------------------------------------------------

/// Eviction rank of a log entry; lower ranks are discarded first:
/// 0 — a refine error other than `Opaque`; 1 — `Opaque`, the payload the
/// parachain's own PVF chose to report; 2 — an accumulate event.
pub open spec fn rank_of(e: (Timeslot, LogEntry)) -> u8 {
    match e.1 {
        LogEntry::Refine { error: RefineLog::Opaque(_), .. } => 1,
        LogEntry::Refine { .. } => 0,
        LogEntry::Accumulate { .. } => 2,
    }
}

/// Eviction rank of a log entry.
pub fn entry_rank(entry: &(Timeslot, LogEntry)) -> (r: u8)
    ensures
        r == rank_of(*entry),
{
    match &entry.1 {
        LogEntry::Refine { error: RefineLog::Opaque(_), .. } => 1,
        LogEntry::Refine { .. } => 0,
        LogEntry::Accumulate { .. } => 2,
    }
}

/// Entry `a` goes before entry `b` in eviction order: lower rank first, then
/// the older timeslot.
pub open spec fn evicts_before(a: (Timeslot, LogEntry), b: (Timeslot, LogEntry)) -> bool {
    rank_of(a) < rank_of(b) || (rank_of(a) == rank_of(b) && a.0 < b.0)
}

/// `log[i]` is the eviction candidate for a newcomer of rank `rank`: the
/// first entry of the lowest occupied rank at or below `rank`, oldest first.
pub open spec fn is_victim(log: Seq<(Timeslot, LogEntry)>, rank: u8, i: int) -> bool {
    &&& 0 <= i < log.len()
    &&& rank_of(log[i]) <= rank
    &&& forall|j: int|
        0 <= j < log.len() && rank_of(#[trigger] log[j]) <= rank ==> !evicts_before(log[j], log[i])
    &&& forall|j: int| 0 <= j < i && rank_of(#[trigger] log[j]) <= rank ==> evicts_before(log[i], log[j])
}

/// The eviction candidate, if any entry is at or below `rank`.
pub open spec fn victim(log: Seq<(Timeslot, LogEntry)>, rank: u8) -> Option<int> {
    if exists|i: int| is_victim(log, rank, i) {
        Some(choose|i: int| is_victim(log, rank, i))
    } else {
        None
    }
}

/// The log after evicting, by rank, until it fits the cap or nothing at or
/// below `rank` is left.
pub open spec fn settle(log: Seq<(Timeslot, LogEntry)>, rank: u8) -> Seq<(Timeslot, LogEntry)>
    decreases log.len(),
{
    if log_size(log) > PARACHAIN_LOG_BYTE_CAP {
        match victim(log, rank) {
            Some(i) => if 0 <= i < log.len() {
                settle(log.remove(i), rank)
            } else {
                log
            },
            None => log,
        }
    } else {
        log
    }
}

proof fn lemma_victim_unique(log: Seq<(Timeslot, LogEntry)>, rank: u8, i: int)
    requires
        is_victim(log, rank, i),
    ensures
        victim(log, rank) == Some(i),
{
    let k = choose|k: int| is_victim(log, rank, k);
    assert(is_victim(log, rank, k));
    if k < i {
        assert(evicts_before(log[i], log[k]));
        assert(!evicts_before(log[i], log[k]));
    } else if k > i {
        assert(evicts_before(log[k], log[i]));
        assert(!evicts_before(log[k], log[i]));
    }
}

/// Drop the single best eviction candidate on behalf of an incoming entry of
/// rank `rank`: the oldest entry of the lowest occupied rank at or below
/// `rank`. `false` when every entry present outranks it.
fn evict_one_for(log: &mut ParachainLog, rank: u8) -> (r: bool)
    ensures
        match victim(old(log)@, rank) {
            Some(i) => r && final(log)@ == old(log)@.remove(i),
            None => !r && final(log)@ == old(log)@,
        },
{
    let mut best: Option<usize> = None;
    let mut i: usize = 0;
    while i < log.len()
        invariant
            i <= log@.len(),
            best matches Some(b) ==> is_victim(log@.subrange(0, i as int), rank, b as int),
            best is None ==> forall|j: int| 0 <= j < i ==> rank_of(#[trigger] log@[j]) > rank,
        decreases log@.len() - i,
    {
        let r = entry_rank(&log[i]);
        if r <= rank {
            match best {
                None => {
                    best = Some(i);
                },
                Some(b) => {
                    let rb = entry_rank(&log[b]);
                    if r < rb || (r == rb && log[i].0 < log[b].0) {
                        best = Some(i);
                    }
                },
            }
        }
        proof {
            let s = log@.subrange(0, i + 1);
            assert forall|j: int| 0 <= j < i implies #[trigger] s[j] == log@.subrange(0, i as int)[j] by {}
            match best {
                Some(b) => {
                    assert(s[b as int] == log@[b as int]);
                },
                None => {},
            }
        }
        i = i + 1;
    }
    proof {
        assert(log@.subrange(0, log@.len() as int) =~= log@);
    }
    match best {
        Some(b) => {
            proof {
                lemma_victim_unique(log@, rank, b as int);
            }
            log.remove(b);
            true
        },
        None => {
            proof {
                assert(!exists|j: int| is_victim(log@, rank, j));
            }
            false
        },
    }
}

/// Append `entry`, then evict by rank until the log's exact encoded size fits
/// the 64 KiB cap. The newcomer is itself a candidate at its own rank
/// and carries the highest timeslot, so it is dropped only once every other
/// entry at or below its rank is gone.
pub fn push_log_entry(log: &mut ParachainLog, entry: (Timeslot, LogEntry))
    requires
        log_size(old(log)@.push(entry)) <= usize::MAX,
    ensures
        final(log)@ == settle(old(log)@.push(entry), rank_of(entry)),
{
    let rank = entry_rank(&entry);
    log.push(entry);
    loop
        invariant
            settle(log@, rank) == settle(old(log)@.push(entry), rank),
            log_size(log@) <= usize::MAX,
        ensures
            log@ == settle(old(log)@.push(entry), rank),
        decreases log@.len(),
    {
        let size = match log_encoded_size(log) {
            Some(n) => n,
            None => {
                proof {
                    assert(false);
                }
                return;
            },
        };
        if size <= PARACHAIN_LOG_BYTE_CAP {
            break;
        }
        let ghost before = log@;
        if !evict_one_for(log, rank) {
            break;
        }
        proof {
            lemma_log_size_remove(before, victim(before, rank).unwrap());
        }
    }
}

/// Removing an entry shrinks the encoded size of a log.
pub proof fn lemma_log_size_remove(s: Seq<(Timeslot, LogEntry)>, i: int)
    requires
        0 <= i < s.len(),
    ensures
        log_size(s.remove(i)) + 4 + entry_size(s[i].1) <= log_size(s),
        items_size(s.remove(i)) + 4 + entry_size(s[i].1) == items_size(s),
{
    lemma_items_size_remove(s, i);
    crate::scale::lemma_compact_width_monotone((s.len() - 1) as nat, s.len());
}

proof fn lemma_items_size_remove(s: Seq<(Timeslot, LogEntry)>, i: int)
    requires
        0 <= i < s.len(),
    ensures
        items_size(s.remove(i)) + 4 + entry_size(s[i].1) == items_size(s),
    decreases s.len(),
{
    if i == s.len() - 1 {
        assert(s.remove(i) =~= s.drop_last());
    } else {
        lemma_items_size_remove(s.drop_last(), i);
        assert(s.remove(i).drop_last() =~= s.drop_last().remove(i));
        assert(s.remove(i).last() == s.last());
    }
}

// ---------------------------------------------------------------------------
// What eviction guarantees.
// ---------------------------------------------------------------------------

/// The entries a newcomer of rank `rank` can never displace.
pub open spec fn outranks(rank: u8) -> spec_fn((Timeslot, LogEntry)) -> bool {
    |e: (Timeslot, LogEntry)| rank_of(e) > rank
}

proof fn lemma_filter_remove<A>(s: Seq<A>, i: int, p: spec_fn(A) -> bool)
    requires
        0 <= i < s.len(),
        !p(s[i]),
    ensures
        s.remove(i).filter(p) == s.filter(p),
{
    let a = s.take(i);
    let b = s.skip(i + 1);
    assert(s =~= (a + seq![s[i]]) + b);
    assert(s.remove(i) =~= a + b);
    Seq::filter_distributes_over_add(a + seq![s[i]], b, p);
    Seq::filter_distributes_over_add(a, seq![s[i]], p);
    Seq::filter_distributes_over_add(a, b, p);
    Seq::<A>::empty().lemma_filter_push(s[i], p);
    reveal(Seq::filter);
    assert(Seq::<A>::empty().push(s[i]) =~= seq![s[i]]);
    assert(seq![s[i]].filter(p) =~= Seq::<A>::empty());
    assert(a.filter(p) + Seq::<A>::empty() =~= a.filter(p));
}

/// A victim always sits at or below the newcomer's rank.
proof fn lemma_victim_in_range(log: Seq<(Timeslot, LogEntry)>, rank: u8)
    requires
        victim(log, rank) is Some,
    ensures
        is_victim(log, rank, victim(log, rank).unwrap()),
{
}

/// Whenever some entry sits at or below `rank`, there is a victim.
proof fn lemma_victim_exists(log: Seq<(Timeslot, LogEntry)>, rank: u8, j: int)
    requires
        0 <= j < log.len(),
        rank_of(log[j]) <= rank,
    ensures
        exists|i: int| is_victim(log, rank, i),
    decreases log.len(),
{
    let n = log.len() as int;
    let p = log.drop_last();
    let last = log[n - 1];
    if exists|k: int| 0 <= k < n - 1 && rank_of(#[trigger] log[k]) <= rank {
        let k = choose|k: int| 0 <= k < n - 1 && rank_of(#[trigger] log[k]) <= rank;
        assert(p[k] == log[k]);
        lemma_victim_exists(p, rank, k);
        let i = choose|i: int| is_victim(p, rank, i);
        assert(p[i] == log[i]);
        if rank_of(last) <= rank && evicts_before(last, log[i]) {
            assert forall|m: int| 0 <= m < n && rank_of(#[trigger] log[m]) <= rank implies !evicts_before(
                log[m],
                last,
            ) by {
                if m < n - 1 {
                    assert(p[m] == log[m]);
                }
            }
            assert forall|m: int| 0 <= m < n - 1 && rank_of(#[trigger] log[m]) <= rank implies evicts_before(
                last,
                log[m],
            ) by {
                assert(p[m] == log[m]);
            }
            assert(is_victim(log, rank, n - 1));
        } else {
            assert forall|m: int| 0 <= m < n && rank_of(#[trigger] log[m]) <= rank implies !evicts_before(
                log[m],
                log[i],
            ) by {
                if m < n - 1 {
                    assert(p[m] == log[m]);
                }
            }
            assert forall|m: int| 0 <= m < i && rank_of(#[trigger] log[m]) <= rank implies evicts_before(
                log[i],
                log[m],
            ) by {
                assert(p[m] == log[m]);
            }
            assert(is_victim(log, rank, i));
        }
    } else {
        assert(j == n - 1);
        assert(is_victim(log, rank, n - 1));
    }
}

/// Eviction never displaces an entry that outranks the newcomer: whatever
/// the settled log lost, it lost at or below the newcomer's rank.
pub proof fn lemma_settle_keeps_outranking(log: Seq<(Timeslot, LogEntry)>, rank: u8)
    ensures
        settle(log, rank).filter(outranks(rank)) == log.filter(outranks(rank)),
    decreases log.len(),
{
    if log_size(log) > PARACHAIN_LOG_BYTE_CAP {
        match victim(log, rank) {
            Some(i) => {
                lemma_victim_in_range(log, rank);
                if 0 <= i < log.len() {
                    lemma_filter_remove(log, i, outranks(rank));
                    lemma_settle_keeps_outranking(log.remove(i), rank);
                }
            },
            None => {},
        }
    }
}

/// The log holding a newcomer `e` (last) over a prefix that fits the cap
/// settles within the cap.
proof fn lemma_settle_fits(log: Seq<(Timeslot, LogEntry)>, e: (Timeslot, LogEntry))
    requires
        log_size(log) <= PARACHAIN_LOG_BYTE_CAP || (log.len() > 0 && log.last() == e && log_size(
            log.drop_last(),
        ) <= PARACHAIN_LOG_BYTE_CAP),
    ensures
        log_size(settle(log, rank_of(e))) <= PARACHAIN_LOG_BYTE_CAP,
    decreases log.len(),
{
    let rank = rank_of(e);
    if log_size(log) > PARACHAIN_LOG_BYTE_CAP {
        let n = log.len() as int;
        lemma_victim_exists(log, rank, n - 1);
        let i = choose|i: int| is_victim(log, rank, i);
        lemma_victim_unique(log, rank, i);
        if i == n - 1 {
            assert(log.remove(i) =~= log.drop_last());
            lemma_settle_fits(log.remove(i), e);
        } else {
            let next = log.remove(i);
            assert(next.drop_last() =~= log.drop_last().remove(i));
            assert(next.last() == e);
            lemma_log_size_remove(log.drop_last(), i);
            lemma_settle_fits(next, e);
        }
    }
}

/// Pushing onto a log within the 64 KiB cap leaves it within the cap.
pub proof fn lemma_push_stays_within_cap(log: Seq<(Timeslot, LogEntry)>, e: (Timeslot, LogEntry))
    requires
        log_size(log) <= PARACHAIN_LOG_BYTE_CAP,
    ensures
        log_size(settle(log.push(e), rank_of(e))) <= PARACHAIN_LOG_BYTE_CAP,
{
    assert(log.push(e).drop_last() =~= log);
    lemma_settle_fits(log.push(e), e);
}

/// An entry is never evicted to make room for something of lower rank
/// — when every entry present outranks the newcomer and it does not fit, the
/// newcomer is dropped and the log is left as it was.
pub proof fn lemma_outranked_newcomer_dropped(log: Seq<(Timeslot, LogEntry)>, e: (Timeslot, LogEntry))
    requires
        forall|j: int| 0 <= j < log.len() ==> rank_of(#[trigger] log[j]) > rank_of(e),
        log_size(log.push(e)) > PARACHAIN_LOG_BYTE_CAP,
    ensures
        settle(log.push(e), rank_of(e)) == log,
{
    let rank = rank_of(e);
    let pushed = log.push(e);
    let n = log.len() as int;
    assert forall|j: int| 0 <= j < pushed.len() && rank_of(#[trigger] pushed[j]) <= rank implies j == n by {
        if j < n {
            assert(pushed[j] == log[j]);
        }
    }
    assert(is_victim(pushed, rank, n));
    lemma_victim_unique(pushed, rank, n);
    assert(pushed.remove(n) =~= log);
    assert(settle(pushed, rank) == settle(log, rank));
    if log_size(log) > PARACHAIN_LOG_BYTE_CAP {
        assert forall|i: int| !is_victim(log, rank, i) by {
            if 0 <= i < log.len() {
                assert(rank_of(log[i]) > rank);
            }
        }
        assert(victim(log, rank) is None);
    }
    assert(settle(log, rank) == log);
}

/// Log pruning: the entries whose timeslot is at or above `threshold`.
pub open spec fn pruned(log: Seq<(Timeslot, LogEntry)>, threshold: Timeslot) -> Seq<
    (Timeslot, LogEntry),
> {
    log.filter(|e: (Timeslot, LogEntry)| e.0 >= threshold)
}

/// Log pruning: drop entries whose inline timeslot is strictly below the
/// candidate's lookup-anchor `threshold`.
pub fn prune_log_below(log: &mut ParachainLog, threshold: Timeslot)
    ensures
        final(log)@ == pruned(old(log)@, threshold),
{
    let ghost orig = log@;
    let mut rest: ParachainLog = Vec::new();
    core::mem::swap(&mut rest, log);
    let n = rest.len();
    let mut kept: ParachainLog = Vec::new();
    let mut i: usize = 0;
    let ghost f = |e: (Timeslot, LogEntry)| e.0 >= threshold;
    proof {
        assert(orig.subrange(0, 0) =~= Seq::<(Timeslot, LogEntry)>::empty());
        reveal(Seq::filter);
        assert(orig.subrange(0, 0).filter(f) =~= Seq::<(Timeslot, LogEntry)>::empty());
    }
    while rest.len() > 0
        invariant
            i <= orig.len(),
            orig.len() == n,
            f == (|e: (Timeslot, LogEntry)| e.0 >= threshold),
            rest@ == orig.subrange(i as int, orig.len() as int),
            kept@ == orig.subrange(0, i as int).filter(f),
        decreases rest@.len(),
    {
        let e = rest.remove(0);
        proof {
            assert(orig.subrange(0, i + 1).drop_last() =~= orig.subrange(0, i as int));
            assert(orig.subrange(0, i + 1).last() == e);
            assert(rest@ =~= orig.subrange(i + 1, orig.len() as int));
        }
        if e.0 >= threshold {
            kept.push(e);
        }
        i = i + 1;
        proof {
            reveal(Seq::filter);
            assert(orig.subrange(0, i as int).drop_last() =~= orig.subrange(0, i - 1));
            assert(orig.subrange(0, i as int).last() == e);
        }
    }
    proof {
        assert(orig.subrange(0, orig.len() as int) =~= orig);
    }
    *log = kept;
}

/// Truncate a work-report auth trace to the stored cap.
pub fn truncate_auth_trace(trace: &[u8]) -> (r: StoredAuthTrace)
    ensures
        auth_trace_bytes(r) == trace@.subrange(
            0,
            if trace@.len() < STORED_AUTH_TRACE_CAP {
                trace@.len() as int
            } else {
                STORED_AUTH_TRACE_CAP as int
            },
        ),
{
    let end = if trace.len() < STORED_AUTH_TRACE_CAP {
        trace.len()
    } else {
        STORED_AUTH_TRACE_CAP
    };
    let mut bytes: Vec<u8> = Vec::new();
    let mut i: usize = 0;
    while i < end
        invariant
            i <= end <= trace@.len(),
            end <= 256,
            bytes@ == trace@.subrange(0, i as int),
        decreases end - i,
    {
        bytes.push(trace[i]);
        i = i + 1;
        proof {
            assert(bytes@ =~= trace@.subrange(0, i as int));
        }
    }
    match auth_trace_from_vec(bytes) {
        Some(t) => t,
        None => {
            proof {
                assert(false);
            }
            vstd::pervasive::unreached()
        },
    }
}


/// Append a Refine failure to a para's log: nothing for an
/// unregistered para, which has no log. Returns whether the log changed and
/// must be written.
pub fn append_refine(
    log: &mut ParachainLog,
    live: bool,
    now: Timeslot,
    error: RefineLog,
    auth_trace: StoredAuthTrace,
) -> (write: bool)
    requires
        live ==> log_size(old(log)@.push((now, LogEntry::Refine { error, auth_trace }))) <= usize::MAX,
    ensures
        write == live,
        live ==> final(log)@ == settle(
            old(log)@.push((now, LogEntry::Refine { error, auth_trace })),
            rank_of((now, LogEntry::Refine { error, auth_trace })),
        ),
        !live ==> final(log)@ == old(log)@,
{
    if !live {
        return false;
    }
    push_log_entry(log, (now, LogEntry::Refine { error, auth_trace }));
    true
}

/// Append one batched Accumulate entry to a para's log: nothing for
/// an unregistered para or an empty batch. Returns whether the log changed.
pub fn append_accumulate(log: &mut ParachainLog, live: bool, now: Timeslot, entries: Vec<AccumulateLog>) -> (write:
    bool)
    requires
        live && entries@.len() > 0 ==> log_size(old(log)@.push((now, LogEntry::Accumulate { entries })))
            <= usize::MAX,
    ensures
        write == (live && entries@.len() > 0),
        write ==> final(log)@ == settle(
            old(log)@.push((now, LogEntry::Accumulate { entries })),
            rank_of((now, LogEntry::Accumulate { entries })),
        ),
        !write ==> final(log)@ == old(log)@,
{
    if !live || entries.len() == 0 {
        return false;
    }
    push_log_entry(log, (now, LogEntry::Accumulate { entries }));
    true
}

/// Pruning of a para's log against a candidate's lookup anchor: nothing
/// to do without a log. Returns whether the log must be written.
pub fn prune_below(log: &mut ParachainLog, threshold: Timeslot) -> (write: bool)
    ensures
        write == (old(log)@.len() > 0),
        write ==> final(log)@ == pruned(old(log)@, threshold),
        !write ==> final(log)@ == old(log)@,
{
    if log.len() == 0 {
        return false;
    }
    prune_log_below(log, threshold);
    true
}

} // verus!
