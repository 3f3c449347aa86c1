//! Scheduled JAM `assign`s: which messages are well
//! formed, when a cached assign fires, how its queue is presented to JAM,
//! and what becomes of it afterwards. The dirty-core index pairs each core
//! with a pending assign with its next due slot.

use crate::constants::{AUTHORIZER_QUEUE_LEN, CORE_COUNT};
use crate::hashing::Hash32;
use crate::log::AccumulateLog;
use vstd::prelude::*;

verus! {

/// A queue holds 1 to `AUTHORIZER_QUEUE_LEN` hashes, and one handing
/// the core to another service holds exactly `AUTHORIZER_QUEUE_LEN`.
pub fn well_formed(queue_len: usize, new_assigner: Option<u32>) -> (r: bool)
    ensures
        r == (match new_assigner {
            None => 1 <= queue_len <= AUTHORIZER_QUEUE_LEN,
            Some(_) => queue_len == AUTHORIZER_QUEUE_LEN,
        }),
{
    match new_assigner {
        None => 1 <= queue_len && queue_len <= AUTHORIZER_QUEUE_LEN,
        Some(_) => queue_len == AUTHORIZER_QUEUE_LEN,
    }
}

/// A queue of `queue_len` hashes tiles JAM's queue of `auth_len` exactly, so
/// it is self-sufficient once written.
pub fn fills_directly(queue_len: usize, auth_len: usize) -> (r: bool)
    requires
        queue_len > 0,
    ensures
        r == (auth_len % queue_len == 0),
{
    auth_len % queue_len == 0
}

/// `s` rotated left by `by`.
pub open spec fn rotated(s: Seq<Hash32>, by: int) -> Seq<Hash32> {
    s.subrange(by, s.len() as int) + s.subrange(0, by)
}

/// Advance a short, non-tiling queue so its endless sequence resumes one JAM
/// queue (`auth_len` slots) later: rotate it left by `auth_len % len`.
pub fn advance_queue(queue: Vec<Hash32>, auth_len: usize) -> (r: Vec<Hash32>)
    requires
        queue@.len() > 0,
    ensures
        r@ == rotated(queue@, ((auth_len as nat) % queue@.len()) as int),
{
    let by = auth_len % queue.len();
    let mut r: Vec<Hash32> = Vec::new();
    let mut i: usize = by;
    while i < queue.len()
        invariant
            by <= i <= queue@.len(),
            r@ == queue@.subrange(by as int, i as int),
        decreases queue@.len() - i,
    {
        r.push(queue[i]);
        i = i + 1;
        proof {
            assert(r@ =~= queue@.subrange(by as int, i as int));
        }
    }
    let mut j: usize = 0;
    while j < by
        invariant
            j <= by < queue@.len(),
            r@ == queue@.subrange(by as int, queue@.len() as int) + queue@.subrange(0, j as int),
        decreases by - j,
    {
        r.push(queue[j]);
        j = j + 1;
        proof {
            assert(r@ =~= queue@.subrange(by as int, queue@.len() as int) + queue@.subrange(
                0,
                j as int,
            ));
        }
    }
    r
}

/// The queue JAM's `assign` is given: exactly `auth_len` hashes, a shorter
/// queue cycle-repeated (`queue[i mod len]`).
pub fn expand_queue(queue: &Vec<Hash32>, auth_len: usize) -> (r: Vec<Hash32>)
    requires
        queue@.len() > 0,
    ensures
        r@.len() == auth_len,
        forall|i: int| 0 <= i < auth_len ==> #[trigger] r@[i] == queue@[i % queue@.len() as int],
{
    let mut r: Vec<Hash32> = Vec::new();
    let mut i: usize = 0;
    while i < auth_len
        invariant
            i <= auth_len,
            queue@.len() > 0,
            r@.len() == i,
            forall|k: int| 0 <= k < i ==> #[trigger] r@[k] == queue@[k % queue@.len() as int],
        decreases auth_len - i,
    {
        r.push(queue[i % queue.len()]);
        i = i + 1;
    }
    r
}

/// What an `AssignCore` message calls for.
#[derive(Clone, Copy, Debug, PartialEq, Eq, Structural)]
pub enum ScheduleAction {
    /// A malformed queue (refused in refine already): a defensive no-op.
    Ignore,
    /// The slot is due: assign now (always-accumulate has run this block).
    AssignNow,
    /// Cache the assign and arm the dirty-core index for `jam_slot`.
    Cache,
}

/// Replay an `AssignCore` message (Coretime only).
pub fn schedule(now: u32, queue_len: usize, new_assigner: Option<u32>, jam_slot: u32) -> (r:
    ScheduleAction)
    ensures
        r == (if !(match new_assigner {
            None => 1 <= queue_len <= AUTHORIZER_QUEUE_LEN,
            Some(_) => queue_len == AUTHORIZER_QUEUE_LEN,
        }) {
            ScheduleAction::Ignore
        } else if jam_slot <= now {
            ScheduleAction::AssignNow
        } else {
            ScheduleAction::Cache
        }),
{
    if !well_formed(queue_len, new_assigner) {
        return ScheduleAction::Ignore;
    }
    if jam_slot <= now {
        ScheduleAction::AssignNow
    } else {
        ScheduleAction::Cache
    }
}

/// What JAM answered an `assign`.
#[derive(Clone, Copy, Debug, PartialEq, Eq, Structural)]
pub enum AssignResult {
    Assigned,
    /// This service is no longer the core's assigner.
    ActionInvalid,
    /// Any other refusal.
    Failed,
}

/// What becomes of a core's pending assign after JAM answered.
#[derive(Clone, Debug)]
pub enum AfterAssign {
    /// Drop the pending entry (and, for an inline assign, its dirty-core
    /// slot).
    Remove,
    /// Keep the entry with this advanced queue, re-armed for `due`.
    Rearm { queue: Vec<Hash32>, due: u32 },
    /// The core was handed away: drop the entry and its slot, log the entry.
    HandedAway(AccumulateLog),
    /// Any other refusal: keep the entry and try again at its slot.
    Retry,
}

/// A self-sufficient queue is dropped after it fires; a short
/// non-tiling one is advanced and re-armed `auth_len` slots later; a core
/// handed away is dropped with `CoreNotAssignable`; any other refusal is
/// retried.
pub fn after_assign(core: u16, result: AssignResult, queue: Vec<Hash32>, now: u32, auth_len: usize) -> (r:
    AfterAssign)
    requires
        queue@.len() > 0,
        now + auth_len <= u32::MAX,
    ensures
        match result {
            AssignResult::Assigned => if (auth_len as nat) % queue@.len() == 0 {
                r is Remove
            } else {
                r matches AfterAssign::Rearm { queue: q, due } && q@ == rotated(
                    queue@,
                    ((auth_len as nat) % queue@.len()) as int,
                ) && due == now + auth_len
            },
            AssignResult::ActionInvalid => r matches AfterAssign::HandedAway(log) && log
                == AccumulateLog::CoreNotAssignable { core },
            AssignResult::Failed => r is Retry,
        },
{
    match result {
        AssignResult::Assigned => if fills_directly(queue.len(), auth_len) {
            AfterAssign::Remove
        } else {
            let due = now + auth_len as u32;
            AfterAssign::Rearm { queue: advance_queue(queue, auth_len), due }
        },
        AssignResult::ActionInvalid => AfterAssign::HandedAway(
            AccumulateLog::CoreNotAssignable { core },
        ),
        AssignResult::Failed => AfterAssign::Retry,
    }
}

/// The index with `core` due at `jam_slot`: its entry updated if present,
/// else appended.
pub open spec fn upserted(cores: Seq<(u16, u32)>, core: u16, jam_slot: u32) -> Seq<(u16, u32)> {
    if exists|i: int| 0 <= i < cores.len() && #[trigger] cores[i].0 == core {
        let i = choose|i: int|
            0 <= i < cores.len() && #[trigger] cores[i].0 == core && forall|j: int|
                0 <= j < i ==> #[trigger] cores[j].0 != core;
        cores.update(i, (core, jam_slot))
    } else {
        cores.push((core, jam_slot))
    }
}

/// Arm (or re-arm) `core` for `jam_slot` in the dirty-core index. The index
/// is keyed by core, so at most `CORE_COUNT` cores are ever in it.
pub fn upsert(cores: &mut Vec<(u16, u32)>, core: u16, jam_slot: u32)
    requires
        old(cores)@.len() < CORE_COUNT || exists|i: int|
            0 <= i < old(cores)@.len() && #[trigger] old(cores)@[i].0 == core,
    ensures
        final(cores)@ == upserted(old(cores)@, core, jam_slot),
        final(cores)@.len() <= CORE_COUNT || final(cores)@.len() == old(cores)@.len(),
{
    let mut i: usize = 0;
    while i < cores.len()
        invariant
            i <= cores@.len(),
            cores@ == old(cores)@,
            forall|j: int| 0 <= j < i ==> #[trigger] cores@[j].0 != core,
        decreases cores@.len() - i,
    {
        if cores[i].0 == core {
            proof {
                let w = choose|w: int|
                    0 <= w < cores@.len() && #[trigger] cores@[w].0 == core && forall|j: int|
                        0 <= j < w ==> #[trigger] cores@[j].0 != core;
                assert(0 <= i < cores@.len() && cores@[i as int].0 == core && forall|j: int|
                    0 <= j < i ==> #[trigger] cores@[j].0 != core);
                if w < i {
                    assert(cores@[w].0 != core);
                } else if w > i {
                    assert(cores@[i as int].0 != core);
                }
            }
            cores.set(i, (core, jam_slot));
            return;
        }
        i = i + 1;
    }
    cores.push((core, jam_slot));
}

/// The index without `core`.
pub open spec fn without_core(cores: Seq<(u16, u32)>, core: u16) -> Seq<(u16, u32)> {
    cores.filter(|e: (u16, u32)| e.0 != core)
}

/// Disarm `core` in the dirty-core index.
pub fn remove(cores: &mut Vec<(u16, u32)>, core: u16)
    ensures
        final(cores)@ == without_core(old(cores)@, core),
{
    let mut kept: Vec<(u16, u32)> = Vec::new();
    let mut i: usize = 0;
    while i < cores.len()
        invariant
            i <= cores@.len(),
            cores@ == old(cores)@,
            kept@ == without_core(cores@.subrange(0, i as int), core),
        decreases cores@.len() - i,
    {
        if cores[i].0 != core {
            kept.push(cores[i]);
        }
        proof {
            let t = cores@.subrange(0, i + 1);
            assert(t.drop_last() =~= cores@.subrange(0, i as int));
            reveal(Seq::filter);
        }
        i = i + 1;
        proof {
            assert(kept@ =~= without_core(cores@.subrange(0, i as int), core));
        }
    }
    proof {
        assert(cores@.subrange(0, cores@.len() as int) =~= cores@);
    }
    *cores = kept;
}

/// The always-accumulate flush, first half: the cores due at `now`
/// (their slot reached), in index order, and the index of those not due,
/// which the flush starts from.
pub fn due_assigns(now: u32, cores: &Vec<(u16, u32)>) -> (r: (Vec<(u16, u32)>, Vec<(u16, u32)>))
    ensures
        r.0@ == cores@.filter(|e: (u16, u32)| now >= e.1),
        r.1@ == cores@.filter(|e: (u16, u32)| now < e.1),
{
    let mut due: Vec<(u16, u32)> = Vec::new();
    let mut next: Vec<(u16, u32)> = Vec::new();
    let mut i: usize = 0;
    while i < cores.len()
        invariant
            i <= cores@.len(),
            due@ == cores@.subrange(0, i as int).filter(|e: (u16, u32)| now >= e.1),
            next@ == cores@.subrange(0, i as int).filter(|e: (u16, u32)| now < e.1),
        decreases cores@.len() - i,
    {
        if now < cores[i].1 {
            next.push(cores[i]);
        } else {
            due.push(cores[i]);
        }
        proof {
            let t = cores@.subrange(0, i + 1);
            assert(t.drop_last() =~= cores@.subrange(0, i as int));
            reveal(Seq::filter);
        }
        i = i + 1;
        proof {
            assert(due@ =~= cores@.subrange(0, i as int).filter(|e: (u16, u32)| now >= e.1));
            assert(next@ =~= cores@.subrange(0, i as int).filter(|e: (u16, u32)| now < e.1));
        }
    }
    proof {
        assert(cores@.subrange(0, cores@.len() as int) =~= cores@);
    }
    (due, next)
}

/// The flush, second half, for one due core at `jam_slot`: a re-armed entry
/// goes back into `next` at its new slot, a retried one at its old slot.
pub fn rearm_after_flush(next: &mut Vec<(u16, u32)>, core: u16, jam_slot: u32, after: &AfterAssign)
    ensures
        match after {
            AfterAssign::Rearm { due, .. } => final(next)@ == old(next)@.push((core, *due)),
            AfterAssign::Retry => final(next)@ == old(next)@.push((core, jam_slot)),
            _ => final(next)@ == old(next)@,
        },
{
    match after {
        AfterAssign::Rearm { due, .. } => next.push((core, *due)),
        AfterAssign::Retry => next.push((core, jam_slot)),
        _ => {},
    }
}


/// A re-armed short queue resumes its endless sequence — the hash the
/// advanced queue presents at any position is the one the original cycle
/// presents `auth_len` positions later.
pub proof fn lemma_advance_resumes(q: Seq<Hash32>, auth_len: nat, i: nat)
    requires
        q.len() > 0,
    ensures
        rotated(q, (auth_len % q.len()) as int)[(i % q.len()) as int] == q[((auth_len + i)
            % q.len()) as int],
{
    let n = q.len() as int;
    let by = (auth_len % q.len()) as int;
    let j = (i % q.len()) as int;
    vstd::arithmetic::div_mod::lemma_add_mod_noop(auth_len as int, i as int, n);
    vstd::arithmetic::div_mod::lemma_mod_bound(auth_len as int, n);
    vstd::arithmetic::div_mod::lemma_mod_bound(i as int, n);
    let r = rotated(q, by);
    let t = ((auth_len + i) % q.len()) as int;
    assert(t == (by + j) % n);
    assert(r.len() == n);
    if by + j < n {
        vstd::arithmetic::div_mod::lemma_small_mod((by + j) as nat, n as nat);
        assert(t == by + j);
        assert(r[j] == q.subrange(by, n)[j]);
        assert(q.subrange(by, n)[j] == q[by + j]);
    } else {
        vstd::arithmetic::div_mod::lemma_mod_sub_multiples_vanish(by + j, n);
        vstd::arithmetic::div_mod::lemma_small_mod((by + j - n) as nat, n as nat);
        assert(t == by + j - n);
        assert(r[j] == q.subrange(0, by)[j - (n - by)]);
        assert(q.subrange(0, by)[j - (n - by)] == q[by + j - n]);
    }
}

} // verus!
