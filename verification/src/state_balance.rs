//! State-balance accounting.
//!
//! JAM bills the service for everything it holds in state; the service
//! re-attributes that per parachain via `used_state_balance`, using the "as if
//! sole user" rule: each referencer pays the full encoded cost of a
//! `(key, value)` pair containing only its own contribution. All balances are
//! `u64`, so the worst-case compact-encoded balance is 9 B.

use crate::constants::{
    AUTHORIZER_QUEUE_LEN, CORE_COUNT, EXPUNGE_PERIOD, MAX_INCOMING_TRANSFERS,
    MAX_STAGED_VALIDATOR_KEYS,
};
use crate::hashing::{blake2_256, blake2b_256, Hash32};
use crate::log::{AccumulateLog, InsufficientBalanceReason};
use crate::para_info::{sat_add, sat_sub, ParaInfo};
use crate::scale::compact_width;
use crate::types::{Balance, ParaId, ASSET_HUB_PARA_ID};
use vstd::prelude::*;

verus! {

/// Gray Paper `C_itemdeposit`.
pub const ITEM_DEPOSIT: u64 = 10;

/// Gray Paper per-entry octet overhead (each storage entry carries 34 overhead octets).
pub const ENTRY_OVERHEAD: u64 = 34;

/// Byte width of a SCALE compact-encoded integer.
pub fn compact_len(n: u64) -> (r: u64)
    ensures
        r == compact_width(n as nat),
        1 <= r <= 9,
{
    crate::scale::compact_len(n)
}

/// The single-referencer footprint a parachain pays for a solicited preimage
/// of length `len`: the JAM preimage request (2 items = 20, octets 81 +
/// len) plus the sole-user `preimage_registry` entry (1 item = 10, octets 34 +
/// 5 + 37). Total: `187 + len` balance units.
pub fn preimage_footprint(len: u32) -> (r: Balance)
    ensures
        r == 187 + len,
{
    (20 + 81 + len as u64) + (10 + ENTRY_OVERHEAD + 5 + 37)
}

/// Per-entry footprint of a `key_value_storage` write: item 10 +
/// overhead 34 + value (compact len + bytes) + key (1 B tag + 4 B ParaId +
/// compact len + bytes) = `49 + compactLen(k) + k + compactLen(v) + v`.
pub fn kv_entry_footprint(key_len: usize, value_len: usize) -> (r: Balance)
    requires
        key_len + value_len + 67 <= u64::MAX,
    ensures
        r == 49 + compact_width(key_len as nat) + key_len + compact_width(value_len as nat)
            + value_len,
{
    let (k, v) = (key_len as u64, value_len as u64);
    ITEM_DEPOSIT + ENTRY_OVERHEAD + 5 + compact_len(k) + k + compact_len(v) + v
}

/// SCALE size of a `Vec<u8>` value of length `len`: compact prefix + bytes.
pub open spec fn vec_size(len: nat) -> nat {
    compact_width(len) + len
}

/// SCALE size of a `Vec<u8>` value: compact length prefix + bytes.
fn vec_bytes(len: usize) -> (r: u64)
    requires
        len + 9 <= u64::MAX,
    ensures
        r == vec_size(len as nat),
{
    compact_len(len as u64) + len as u64
}

/// Worst-case octets of the `(ParaId, ParaInfo)` entry (with 9 B
/// `Compact<u64>` balances): overhead 34 + tag 1 + key 4 + head 4 098 +
/// validation_code 38 + pending_upgrade 42 + balances 9 + 9 + flag 1, plus 1 item.
pub const PARA_INFO_FOOTPRINT: Balance = ENTRY_OVERHEAD + 1 + 4 + (2 + 4096) + 38 + 42 + 9 + 9 + 1
    + ITEM_DEPOSIT;

/// The flat `parachain_log` reserve: overhead 34 + key 5 +
/// 64 KiB value cap, plus 1 item.
pub const PARA_LOG_FOOTPRINT: Balance = ENTRY_OVERHEAD + 5 + 65536 + ITEM_DEPOSIT;

/// Per-para baseline footprint: the worst-case state cost of an empty parachain.
pub const BASELINE_FOOTPRINT: Balance = PARA_INFO_FOOTPRINT + PARA_LOG_FOOTPRINT;

/// Value octets of one queued transfer: ServiceId 4 + amount 9 (worst
/// case) + memo 128.
pub const INCOMING_TRANSFER_VALUE_OCTETS: u64 = 4 + 9 + 128;

/// Full cost of one worst-case `incoming_transfers` bucket — a bucket holding
/// a single transfer: 1 item + overhead 34 + key (1 B tag + 8 B id) + `Vec`
/// prefix 1 + the transfer.
pub const INCOMING_TRANSFER_ENTRY_FOOTPRINT: Balance = ITEM_DEPOSIT + ENTRY_OVERHEAD + 9 + 1
    + INCOMING_TRANSFER_VALUE_OCTETS;

/// Asset Hub's service-global reservation ("Asset Hub baseline
/// footprint"), pre-provisioned at registration: the staged validator keys
/// (34 + 1 + 2 + 1023 × 336), the pending assigns (per core 34 + 3 + 2 + 80 ×
/// 32 + 5), the dirty-core index (34 + 1 + 2 + 341 × 6), the transfer-queue
/// endpoints (34 + 1 + 1 + 8 + 8 + 4), one item per fixed entry (3 + 341), and
/// the pre-provisioned part of the transfer queue.
pub const ASSET_HUB_GLOBAL_ITEMS_FOOTPRINT: Balance = (ENTRY_OVERHEAD + 1 + 2 + 1023 * 336) + 341
    * (ENTRY_OVERHEAD + 3 + 2 + 80 * 32 + 5) + (ENTRY_OVERHEAD + 1 + 2 + 341 * 6) + (ENTRY_OVERHEAD
    + 1 + 1 + 8 + 8 + 4) + (3 + 341) * ITEM_DEPOSIT + 1000 * INCOMING_TRANSFER_ENTRY_FOOTPRINT;

/// The reservation above, spelled out in the terms the constants give.
pub proof fn lemma_asset_hub_footprint_terms()
    ensures
        ASSET_HUB_GLOBAL_ITEMS_FOOTPRINT == (ENTRY_OVERHEAD + 1 + 2 + (MAX_STAGED_VALIDATOR_KEYS as u64)
            * 336) + (CORE_COUNT as u64) * (ENTRY_OVERHEAD + 3 + 2 + (AUTHORIZER_QUEUE_LEN as u64)
            * 32 + 5) + (ENTRY_OVERHEAD + 1 + 2 + (CORE_COUNT as u64) * 6) + (ENTRY_OVERHEAD + 1 + 1
            + 8 + 8 + 4) + (3 + CORE_COUNT as u64) * ITEM_DEPOSIT + (MAX_INCOMING_TRANSFERS as u64)
            * INCOMING_TRANSFER_ENTRY_FOOTPRINT,
{
}

/// What Asset Hub is charged for the unreserved part of the transfer
/// queue, priced per worst-case bucket.
pub open spec fn excess_charge(count: nat) -> nat {
    if count <= MAX_INCOMING_TRANSFERS {
        0
    } else {
        ((count - MAX_INCOMING_TRANSFERS) * INCOMING_TRANSFER_ENTRY_FOOTPRINT) as nat
    }
}

/// What Asset Hub is charged for the unreserved part of the transfer queue.
pub fn excess_transfer_footprint(count: u64) -> (r: Balance)
    requires
        count <= u32::MAX,
    ensures
        r == excess_charge(count as nat),
{
    if count <= MAX_INCOMING_TRANSFERS as u64 {
        0
    } else {
        assert(INCOMING_TRANSFER_ENTRY_FOOTPRINT == 195);
        (count - MAX_INCOMING_TRANSFERS as u64) * INCOMING_TRANSFER_ENTRY_FOOTPRINT
    }
}

/// Asset Hub's record once the queue's count moved from `old_count` to
/// `new_count`: used and total balances move together by the change in the
/// excess charge, each saturating.
pub open spec fn reattributed(pi: ParaInfo, old_count: nat, new_count: nat) -> ParaInfo {
    let a = excess_charge(old_count);
    let b = excess_charge(new_count);
    if b >= a {
        ParaInfo {
            used_state_balance: sat_add(pi.used_state_balance, (b - a) as u64),
            total_state_balance: sat_add(pi.total_state_balance, (b - a) as u64),
            ..pi
        }
    } else {
        ParaInfo {
            used_state_balance: sat_sub(pi.used_state_balance, (a - b) as u64),
            total_state_balance: sat_sub(pi.total_state_balance, (a - b) as u64),
            ..pi
        }
    }
}

/// Apply the change in that charge to Asset Hub's record after the
/// queue's `count` moved from `old_count` to `new_count`. Asset Hub's used
/// and total balances move together by the per-bucket cost and nothing else,
/// so its available balance is unchanged by queue admission and draining.
/// Returns whether the record changed (and so must be written back).
pub fn reattribute_transfer_queue(pi: &mut ParaInfo, old_count: u64, new_count: u64) -> (changed:
    bool)
    requires
        old_count <= u32::MAX,
        new_count <= u32::MAX,
    ensures
        changed == (excess_charge(old_count as nat) != excess_charge(new_count as nat)),
        *final(pi) == reattributed(*old(pi), old_count as nat, new_count as nat),
{
    let before = excess_transfer_footprint(old_count);
    let after = excess_transfer_footprint(new_count);
    if after == before {
        return false;
    }
    if after > before {
        let d = after - before;
        pi.used_state_balance = pi.used_state_balance.saturating_add(d);
        pi.total_state_balance = pi.total_state_balance.saturating_add(d);
    } else {
        let d = before - after;
        pi.used_state_balance = pi.used_state_balance.saturating_sub(d);
        pi.total_state_balance = pi.total_state_balance.saturating_sub(d);
    }
    true
}

/// The registration baseline of `para_id`.
pub open spec fn baseline_of(para_id: ParaId) -> int {
    if para_id.0 == ASSET_HUB_PARA_ID {
        BASELINE_FOOTPRINT + ASSET_HUB_GLOBAL_ITEMS_FOOTPRINT
    } else {
        BASELINE_FOOTPRINT as int
    }
}

/// Registration baseline for a para: Asset Hub reserves its service-global
/// items on top of the generic baseline.
pub fn baseline_for(para_id: ParaId) -> (r: Balance)
    ensures
        r == baseline_of(para_id),
{
    if para_id.0 == ASSET_HUB_PARA_ID {
        BASELINE_FOOTPRINT + ASSET_HUB_GLOBAL_ITEMS_FOOTPRINT
    } else {
        BASELINE_FOOTPRINT
    }
}

/// The exact `used_state_balance` a para may hold at clean-up: its
/// baseline plus the footprints of its active and announced validation code.
pub fn clean_up_allowed_balance(pi: &ParaInfo, para_id: ParaId) -> (r: Balance)
    ensures
        r == (if para_id.0 == ASSET_HUB_PARA_ID {
            BASELINE_FOOTPRINT + ASSET_HUB_GLOBAL_ITEMS_FOOTPRINT
        } else {
            BASELINE_FOOTPRINT as int
        }) + (match pi.validation_code {
            Some(vc) => 187 + vc.len,
            None => 0,
        }) + (match pi.announced_upgrade {
            Some(vc) => 187 + vc.len,
            None => 0,
        }),
{
    let active = match &pi.validation_code {
        Some(vc) => preimage_footprint(vc.len),
        None => 0,
    };
    let announced = match &pi.announced_upgrade {
        Some(vc) => preimage_footprint(vc.len),
        None => 0,
    };
    baseline_for(para_id) + active + announced
}

/// A transfer past the reserved portion is recorded only if its amount
/// covers the cost of its own worst-case queue entry.
pub fn transfer_covers_own_slot(amount: Balance) -> (r: bool)
    ensures
        r == (amount >= INCOMING_TRANSFER_ENTRY_FOOTPRINT),
{
    amount >= INCOMING_TRANSFER_ENTRY_FOOTPRINT
}


// ---------------------------------------------------------------------------
// Preimage-registry referencer multiplexing.
// ---------------------------------------------------------------------------

/// A JAM preimage request's status, as `query` reports it.
#[derive(Clone, Copy, Debug, PartialEq, Eq, Structural)]
pub enum LookupStatus {
    /// Never provided.
    Unprovided,
    /// Provided since `since`.
    Provided { since: u32 },
    /// Provided, then unrequested at `unrequested_since`.
    Unrequested { provided_since: u32, unrequested_since: u32 },
    /// Provided, unrequested at `unrequested_at`, and requested again.
    Rerequested { provided_since: u32, unrequested_at: u32, rerequested_since: u32 },
}

/// What a JAM `forget` of a request would do.
#[derive(Clone, Copy, Debug, PartialEq, Eq, Structural)]
pub enum ForgetEffect {
    /// The request is dropped altogether; its deposit is lifted.
    Drop,
    /// The preimage is unrequested; no change in deposit.
    Unrequest,
    /// The preimage is expunged; its deposit is lifted.
    Expunge,
    /// Invalid now; after `success_after` it would unrequest.
    NotYetUnrequest { success_after: u32 },
    /// Invalid now; after `success_after` it would drop the request.
    NotYetExpunge { success_after: u32 },
}

/// JAM's forget rules at `now`, for a chain whose minimum turnaround period
/// is `turnaround`.
pub open spec fn forget_effect(status: LookupStatus, now: u32, turnaround: u32) -> ForgetEffect {
    match status {
        LookupStatus::Unprovided => ForgetEffect::Drop,
        LookupStatus::Provided { .. } => ForgetEffect::Unrequest,
        LookupStatus::Unrequested { unrequested_since, .. } => if now > unrequested_since
            + turnaround {
            ForgetEffect::Drop
        } else {
            ForgetEffect::NotYetExpunge { success_after: (unrequested_since + turnaround) as u32 }
        },
        LookupStatus::Rerequested { unrequested_at, .. } => if now > unrequested_at + turnaround {
            ForgetEffect::Unrequest
        } else {
            ForgetEffect::NotYetUnrequest { success_after: (unrequested_at + turnaround) as u32 }
        },
    }
}

/// The slot a status's turnaround is counted from, if it has one.
pub open spec fn turnaround_base(status: LookupStatus) -> u32 {
    match status {
        LookupStatus::Unrequested { unrequested_since, .. } => unrequested_since,
        LookupStatus::Rerequested { unrequested_at, .. } => unrequested_at,
        _ => 0,
    }
}

/// What a JAM `forget` would do now (`LookupRequestStatus::forget_implication`
/// of `jam_pvm_common`, for the chain's minimum turnaround period).
pub fn forget_implication(status: LookupStatus, now: u32, turnaround: u32) -> (r: ForgetEffect)
    requires
        turnaround_base(status) + turnaround <= u32::MAX,
    ensures
        r == forget_effect(status, now, turnaround),
{
    match status {
        LookupStatus::Unprovided => ForgetEffect::Drop,
        LookupStatus::Provided { .. } => ForgetEffect::Unrequest,
        LookupStatus::Unrequested { unrequested_since, .. } => if now > unrequested_since
            + turnaround {
            ForgetEffect::Drop
        } else {
            ForgetEffect::NotYetExpunge { success_after: unrequested_since + turnaround }
        },
        LookupStatus::Rerequested { unrequested_at, .. } => if now > unrequested_at + turnaround {
            ForgetEffect::Unrequest
        } else {
            ForgetEffect::NotYetUnrequest { success_after: unrequested_at + turnaround }
        },
    }
}

/// Is `para_id` among `referencers`?
pub fn holds_referencer(referencers: &Vec<ParaId>, para_id: ParaId) -> (r: bool)
    ensures
        r == referencers@.contains(para_id),
{
    let mut i: usize = 0;
    while i < referencers.len()
        invariant
            i <= referencers@.len(),
            forall|j: int| 0 <= j < i ==> referencers@[j] != para_id,
        decreases referencers@.len() - i,
    {
        if referencers[i].0 == para_id.0 {
            return true;
        }
        i = i + 1;
    }
    false
}

/// What adding a referencer does.
pub enum AddReferencer {
    /// Already a referencer: no charge. `solicit` says whether JAM `solicit`
    /// must still fire, to rescue an unrequested request.
    Already { solicit: bool },
    /// Refused for want of headroom: nothing changes, the entry is logged.
    Rejected(AccumulateLog),
    /// Charge the para `delta` and record it as a referencer.
    Charge(ChargePlan),
}

/// The writes of an accepted `add_referencer`, in order.
pub struct ChargePlan {
    /// Charged to the para first; refunded again if the registry write fails.
    pub delta: Balance,
    /// The registry entry with the para added.
    pub entry: Vec<ParaId>,
    /// On a rescue, the retained ghosts, each refunded `delta`; the entry is
    /// then rewritten to `rescued_entry`.
    pub ghosts: Vec<ParaId>,
    pub rescued_entry: Option<Vec<ParaId>>,
    /// Whether JAM `solicit` fires at the end.
    pub solicit: bool,
    /// What a failed write is logged as.
    pub rejection: AccumulateLog,
}

/// Add `para_id` as a referencer of `(hash, len)`, given JAM's
/// request status, the registry entry's referencers and the para's record:
/// already a referencer is no charge (but a rescue still solicits); otherwise
/// the footprint `187 + len` is charged if the para has the headroom, the
/// para joins the entry, a rescue drops and refunds every retained ghost, and
/// JAM `solicit` fires on the empty→non-empty transition or a rescue.
pub fn add_referencer(
    para_id: ParaId,
    hash: &Hash32,
    len: u32,
    status: Option<LookupStatus>,
    referencers: &Vec<ParaId>,
    pi: &ParaInfo,
) -> (r: AddReferencer)
    ensures
        ({
            let rescue = status matches Some(LookupStatus::Unrequested { .. });
            let log = AccumulateLog::InsufficientStateBalance {
                reason: InsufficientBalanceReason::Solicit { hash: *hash, len },
            };
            if referencers@.contains(para_id) {
                r == AddReferencer::Already { solicit: rescue }
            } else if sat_add(pi.used_state_balance, (187 + len) as u64) > pi.total_state_balance {
                r == AddReferencer::Rejected(log)
            } else {
                r matches AddReferencer::Charge(plan) && plan.delta == 187 + len && plan.entry@
                    == referencers@.push(para_id) && plan.solicit == (referencers@.len() == 0
                    || rescue) && plan.rejection == log && (if rescue {
                    plan.ghosts@ == referencers@ && (plan.rescued_entry matches Some(e) && e@
                        == seq![para_id])
                } else {
                    plan.ghosts@.len() == 0 && plan.rescued_entry is None
                })
            }
        }),
{
    let rescue = match status {
        Some(LookupStatus::Unrequested { .. }) => true,
        _ => false,
    };
    if holds_referencer(referencers, para_id) {
        return AddReferencer::Already { solicit: rescue };
    }
    let delta = preimage_footprint(len);
    let log = AccumulateLog::InsufficientStateBalance {
        reason: InsufficientBalanceReason::Solicit { hash: *hash, len },
    };
    if !pi.has_headroom(delta) {
        return AddReferencer::Rejected(log);
    }
    let was_empty = referencers.len() == 0;
    let mut entry: Vec<ParaId> = referencers.clone();
    proof {
        assert(entry@ =~= referencers@);
    }
    entry.push(para_id);
    let (ghosts, rescued_entry) = if rescue {
        let g = referencers.clone();
        proof {
            assert(g@ =~= referencers@);
        }
        let mut e: Vec<ParaId> = Vec::new();
        e.push(para_id);
        proof {
            assert(e@ =~= seq![para_id]);
        }
        (g, Some(e))
    } else {
        (Vec::new(), None)
    };
    AddReferencer::Charge(
        ChargePlan {
            delta,
            entry,
            ghosts,
            rescued_entry,
            solicit: was_empty || rescue,
            rejection: log,
        },
    )
}

/// What releasing a reference starts with.
pub enum RemoveReferencer {
    /// Not a referencer: nothing to do.
    NotReferencer,
    /// A non-last referencer leaves at once: write `entry` (the rest) and
    /// refund `delta`; no JAM `forget`.
    Leave { entry: Vec<ParaId>, delta: Balance },
    /// The last referencer: what follows depends on JAM's request status
    /// (`release_last`).
    Last { delta: Balance },
}

/// `referencers` without `para_id`.
pub open spec fn without(referencers: Seq<ParaId>, para_id: ParaId) -> Seq<ParaId> {
    referencers.filter(|x: ParaId| x != para_id)
}

/// Release `para_id`'s reference on a preimage of length `len` whose registry
/// entry holds `referencers` (`None`: no entry).
pub fn remove_referencer(para_id: ParaId, len: u32, referencers: Option<&Vec<ParaId>>) -> (r:
    RemoveReferencer)
    ensures
        match referencers {
            Some(rs) if rs@.contains(para_id) => if rs@.len() > 1 {
                r matches RemoveReferencer::Leave { entry, delta } && entry@ == without(
                    rs@,
                    para_id,
                ) && delta == 187 + len
            } else {
                r == RemoveReferencer::Last { delta: (187 + len) as u64 }
            },
            _ => r is NotReferencer,
        },
{
    let rs = match referencers {
        Some(rs) => rs,
        None => return RemoveReferencer::NotReferencer,
    };
    if !holds_referencer(rs, para_id) {
        return RemoveReferencer::NotReferencer;
    }
    let delta = preimage_footprint(len);
    if rs.len() > 1 {
        let mut entry: Vec<ParaId> = Vec::new();
        let mut i: usize = 0;
        while i < rs.len()
            invariant
                i <= rs@.len(),
                entry@ == without(rs@.subrange(0, i as int), para_id),
            decreases rs@.len() - i,
        {
            let ghost before = entry@;
            if rs[i].0 != para_id.0 {
                entry.push(rs[i]);
            }
            proof {
                let t = rs@.subrange(0, i + 1);
                assert(t.drop_last() =~= rs@.subrange(0, i as int));
                reveal(Seq::filter);
                assert(entry@ =~= without(t, para_id));
            }
            i = i + 1;
        }
        proof {
            assert(rs@.subrange(0, rs@.len() as int) =~= rs@);
        }
        return RemoveReferencer::Leave { entry, delta };
    }
    RemoveReferencer::Last { delta }
}

/// What the last referencer's release does, given JAM's request status.
#[derive(Clone, Copy, Debug, PartialEq, Eq, Structural)]
pub enum ReleaseLast {
    /// JAM knows no request: drop the registry entry and refund; nothing to
    /// forget.
    Expunge,
    /// JAM's `forget` drops or expunges the request: forget, then drop the
    /// entry and refund.
    ForgetAndExpunge,
    /// JAM's `forget` only unrequests: forget, and keep the (still charged)
    /// referencer until the second, expunging forget.
    ForgetAndRetain,
    /// Too early for any `forget`: keep the referencer; retry strictly after
    /// `due`.
    Retain { due: u32 },
}

/// The last referencer's release, per JAM's forget rules.
pub fn release_last(status: Option<LookupStatus>, now: u32, turnaround: u32) -> (r: ReleaseLast)
    requires
        status matches Some(st) ==> turnaround_base(st) + turnaround <= u32::MAX,
    ensures
        r == (match status {
            None => ReleaseLast::Expunge,
            Some(st) => match forget_effect(st, now, turnaround) {
                ForgetEffect::Drop | ForgetEffect::Expunge => ReleaseLast::ForgetAndExpunge,
                ForgetEffect::Unrequest => ReleaseLast::ForgetAndRetain,
                ForgetEffect::NotYetUnrequest { success_after } => ReleaseLast::Retain {
                    due: success_after,
                },
                ForgetEffect::NotYetExpunge { success_after } => ReleaseLast::Retain {
                    due: success_after,
                },
            },
        }),
{
    let st = match status {
        None => return ReleaseLast::Expunge,
        Some(st) => st,
    };
    match forget_implication(st, now, turnaround) {
        ForgetEffect::Drop | ForgetEffect::Expunge => ReleaseLast::ForgetAndExpunge,
        ForgetEffect::Unrequest => ReleaseLast::ForgetAndRetain,
        ForgetEffect::NotYetUnrequest { success_after } => ReleaseLast::Retain { due: success_after },
        ForgetEffect::NotYetExpunge { success_after } => ReleaseLast::Retain { due: success_after },
    }
}

/// When the expunging second `forget` becomes due after an unrequesting one,
/// given the request's status re-read after it: the turnaround JAM reports,
/// else `now + EXPUNGE_PERIOD`.
pub fn due_after_unrequest(status: Option<LookupStatus>, now: u32, turnaround: u32) -> (r: u32)
    requires
        status matches Some(st) ==> turnaround_base(st) + turnaround <= u32::MAX,
        now + EXPUNGE_PERIOD <= u32::MAX,
    ensures
        r == (match status {
            Some(st) => match forget_effect(st, now, turnaround) {
                ForgetEffect::NotYetExpunge { success_after } => success_after,
                _ => (now + EXPUNGE_PERIOD) as u32,
            },
            None => (now + EXPUNGE_PERIOD) as u32,
        }),
{
    match status {
        Some(st) => match forget_implication(st, now, turnaround) {
            ForgetEffect::NotYetExpunge { success_after } => success_after,
            _ => now + EXPUNGE_PERIOD,
        },
        None => now + EXPUNGE_PERIOD,
    }
}

// ---------------------------------------------------------------------------
// Parachain KV accounting.
// ---------------------------------------------------------------------------

/// The signed change in a para's footprint from writing a value of
/// `value_len` octets under a key of `key_len` octets: a fresh entry pays the
/// full footprint, an overwrite only the value-size difference.
pub open spec fn kv_delta(key_len: nat, value_len: nat, old_len: Option<nat>) -> int {
    match old_len {
        None => (49 + compact_width(key_len) + key_len + compact_width(value_len) + value_len) as int,
        Some(o) => vec_size(value_len) - vec_size(o),
    }
}

/// A `SetKV`'s adjustment of the para's footprint: `grow` by `amount`, or
/// shrink by it.
#[derive(Clone, Copy, Debug, PartialEq, Eq, Structural)]
pub struct KvAdjustment {
    pub grow: bool,
    pub amount: Balance,
}

/// Replay a `SetKV` against the para's record: a positive delta that
/// exceeds the headroom is refused (the record unchanged, the key's hash
/// logged); otherwise the record is adjusted by the delta, and the
/// adjustment is returned so a failed entry write can undo it.
pub fn apply_set_kv(pi: &mut ParaInfo, key: &[u8], value_len: usize, old_len: Option<usize>) -> (r:
    Result<KvAdjustment, AccumulateLog>)
    requires
        key@.len() + value_len + 67 <= u64::MAX,
        old_len matches Some(o) ==> o + 9 <= u64::MAX,
    ensures
        ({
            let d = kv_delta(
                key@.len(),
                value_len as nat,
                match old_len {
                    Some(o) => Some(o as nat),
                    None => None,
                },
            );
            if d > 0 && sat_add(old(pi).used_state_balance, d as u64) > old(pi).total_state_balance {
                *final(pi) == *old(pi) && (r matches Err(
                    AccumulateLog::InsufficientStateBalance {
                        reason: InsufficientBalanceReason::SetKV { key_hash },
                    },
                ) && key_hash@ == blake2b_256(key@))
            } else if d >= 0 {
                r == Ok::<KvAdjustment, AccumulateLog>(KvAdjustment { grow: true, amount: d as u64 })
                    && *final(pi) == (ParaInfo {
                    used_state_balance: sat_add(old(pi).used_state_balance, d as u64),
                    ..*old(pi)
                })
            } else {
                r == Ok::<KvAdjustment, AccumulateLog>(KvAdjustment { grow: false, amount: (-d) as u64 })
                    && *final(pi) == (ParaInfo {
                    used_state_balance: sat_sub(old(pi).used_state_balance, (-d) as u64),
                    ..*old(pi)
                })
            }
        }),
{
    let adj = match old_len {
        None => KvAdjustment { grow: true, amount: kv_entry_footprint(key.len(), value_len) },
        Some(o) => {
            let new_size = vec_bytes(value_len);
            let old_size = vec_bytes(o);
            if new_size >= old_size {
                KvAdjustment { grow: true, amount: new_size - old_size }
            } else {
                KvAdjustment { grow: false, amount: old_size - new_size }
            }
        },
    };
    if adj.grow && adj.amount > 0 && !pi.has_headroom(adj.amount) {
        return Err(
            AccumulateLog::InsufficientStateBalance {
                reason: InsufficientBalanceReason::SetKV { key_hash: blake2_256(key) },
            },
        );
    }
    if adj.grow {
        pi.charge(adj.amount);
    } else {
        pi.refund(adj.amount);
    }
    Ok(adj)
}

/// Undo a `SetKV` adjustment after its entry write failed.
pub fn undo_kv_adjustment(pi: &mut ParaInfo, adj: KvAdjustment)
    ensures
        *final(pi) == (ParaInfo {
            used_state_balance: if adj.grow {
                sat_sub(old(pi).used_state_balance, adj.amount)
            } else {
                sat_add(old(pi).used_state_balance, adj.amount)
            },
            ..*old(pi)
        }),
{
    if adj.grow {
        pi.refund(adj.amount);
    } else {
        pi.charge(adj.amount);
    }
}

/// Replay a `RemoveKV`: the refund for dropping an entry of `key_len` and
/// `value_len` octets (none for an absent key).
pub fn apply_remove_kv(key_len: usize, value_len: Option<usize>) -> (r: Option<Balance>)
    requires
        value_len matches Some(v) ==> key_len + v + 67 <= u64::MAX,
    ensures
        r == (match value_len {
            Some(v) => Some(
                (49 + compact_width(key_len as nat) + key_len + compact_width(v as nat) + v) as u64,
            ),
            None => None,
        }),
{
    match value_len {
        Some(v) => Some(kv_entry_footprint(key_len, v)),
        None => None,
    }
}


/// Queue admission and draining leave Asset Hub's available balance
/// (total − used) unchanged, when its used balance carries the charge for
/// the queue as it was and neither balance saturates.
pub proof fn lemma_reattribute_keeps_available(pi: ParaInfo, old_count: u32, new_count: u32)
    requires
        pi.used_state_balance <= pi.total_state_balance,
        pi.used_state_balance >= excess_charge(old_count as nat),
        pi.total_state_balance + excess_charge(new_count as nat) <= u64::MAX,
    ensures
        ({
            let r = reattributed(pi, old_count as nat, new_count as nat);
            &&& r.total_state_balance - r.used_state_balance == pi.total_state_balance
                - pi.used_state_balance
            &&& r.used_state_balance == pi.used_state_balance - excess_charge(old_count as nat)
                + excess_charge(new_count as nat)
        }),
{
}

/// Admission and draining go through the same re-attribution, so two
/// steps `a → b → c` charge exactly what one step `a → c` does, in whatever
/// order the queue moved.
pub proof fn lemma_reattribute_composes(pi: ParaInfo, a: u32, b: u32, c: u32)
    requires
        pi.used_state_balance <= pi.total_state_balance,
        pi.used_state_balance >= excess_charge(a as nat),
        pi.total_state_balance + excess_charge(b as nat) + excess_charge(c as nat) <= u64::MAX,
    ensures
        reattributed(reattributed(pi, a as nat, b as nat), b as nat, c as nat) == reattributed(
            pi,
            a as nat,
            c as nat,
        ),
{
}

} // verus!
