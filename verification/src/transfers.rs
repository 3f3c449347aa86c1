//! Incoming-transfer processing and outbound-transfer replay.
//!
//! The queue is fixed-size buckets keyed by contiguous ids, so Asset Hub can
//! enumerate it from its two endpoints alone.

use crate::constants::{MAX_INCOMING_TRANSFERS, MAX_TRANSFERS_PER_BUCKET};
use crate::log::TransferError;
use crate::state::{le_bytes, push_le};
use crate::state_balance::INCOMING_TRANSFER_ENTRY_FOOTPRINT;
use vstd::prelude::*;

verus! {

/// A transfer's 128-octet memo.
pub type Memo = [u8; 128];

/// A transfer JAM credited to the service this block.
#[derive(Clone, Copy, Debug)]
pub struct IncomingTransfer {
    pub source: u32,
    pub amount: u64,
    pub memo: Memo,
}

/// One queued transfer, as a bucket stores it (`amount` compact-encoded).
#[derive(Clone, Copy, Debug, PartialEq, Eq)]
pub struct QueuedTransfer {
    pub from: u32,
    pub amount: u64,
    pub memo: Memo,
}

/// Endpoints of the queue: the occupied ids are exactly
/// `first_bucket ..= last_bucket`, holding `count` transfers in all.
#[derive(Clone, Copy, Debug, PartialEq, Eq, Structural)]
pub struct IncomingTransferBuckets {
    pub first_bucket: u64,
    pub last_bucket: u64,
    pub count: u32,
}

/// How a transfer is queued.
pub open spec fn queued_of(t: IncomingTransfer) -> QueuedTransfer {
    QueuedTransfer { from: t.source, amount: t.amount, memo: t.memo }
}

/// Admission, in arrival order, with `queued` transfers already held:
/// within the reservation every transfer is recorded; beyond it only one
/// whose amount covers its own worst-case queue entry.
pub open spec fn admitted(ts: Seq<IncomingTransfer>, queued: nat) -> Seq<QueuedTransfer>
    decreases ts.len(),
{
    if ts.len() == 0 {
        Seq::empty()
    } else if queued >= MAX_INCOMING_TRANSFERS && ts[0].amount < INCOMING_TRANSFER_ENTRY_FOOTPRINT {
        admitted(ts.skip(1), queued)
    } else {
        seq![queued_of(ts[0])] + admitted(ts.skip(1), queued + 1)
    }
}

/// `q` is queued from one of the incoming transfers `ts`: same sender, same
/// amount, same memo.
pub open spec fn from_incoming(q: QueuedTransfer, ts: Seq<IncomingTransfer>) -> bool {
    exists|i: int|
        0 <= i < ts.len() && #[trigger] ts[i].source == q.from && ts[i].amount == q.amount
            && ts[i].memo == q.memo
}

/// Admission keeps each transfer as it came: every queued transfer carries
/// the sender, the amount and the memo of an incoming transfer, and no more
/// are queued than arrived.
pub proof fn lemma_admitted_from_incoming(ts: Seq<IncomingTransfer>, queued: nat)
    ensures
        admitted(ts, queued).len() <= ts.len(),
        forall|j: int|
            0 <= j < admitted(ts, queued).len() ==> from_incoming(
                #[trigger] admitted(ts, queued)[j],
                ts,
            ),
    decreases ts.len(),
{
    if ts.len() > 0 {
        let rest = ts.skip(1);
        let skipped = queued >= MAX_INCOMING_TRANSFERS && ts[0].amount
            < INCOMING_TRANSFER_ENTRY_FOOTPRINT;
        let q1: nat = if skipped { queued } else { queued + 1 };
        lemma_admitted_from_incoming(rest, q1);
        let a = admitted(ts, queued);
        let ar = admitted(rest, q1);
        assert forall|j: int| 0 <= j < a.len() implies from_incoming(#[trigger] a[j], ts) by {
            if skipped {
                assert(a[j] == ar[j]);
                let i = choose|i: int|
                    0 <= i < rest.len() && #[trigger] rest[i].source == ar[j].from && rest[i].amount
                        == ar[j].amount && rest[i].memo == ar[j].memo;
                assert(ts[i + 1] == rest[i]);
            } else if j == 0 {
                assert(a[0] == queued_of(ts[0]));
                assert(ts[0].source == a[0].from);
            } else {
                assert(a[j] == ar[j - 1]);
                let i = choose|i: int|
                    0 <= i < rest.len() && #[trigger] rest[i].source == ar[j - 1].from
                        && rest[i].amount == ar[j - 1].amount && rest[i].memo == ar[j - 1].memo;
                assert(ts[i + 1] == rest[i]);
            }
        }
    }
}

/// Nothing is turned away while the queue stays within Asset Hub's
/// reservation, nor a transfer whose amount covers its own queue entry: then
/// every incoming transfer is queued, in arrival order, with its sender,
/// amount and memo.
pub proof fn lemma_admitted_all(ts: Seq<IncomingTransfer>, queued: nat)
    requires
        queued + ts.len() <= MAX_INCOMING_TRANSFERS || forall|i: int|
            0 <= i < ts.len() ==> #[trigger] ts[i].amount >= INCOMING_TRANSFER_ENTRY_FOOTPRINT,
    ensures
        admitted(ts, queued).len() == ts.len(),
        forall|j: int|
            0 <= j < ts.len() ==> (#[trigger] admitted(ts, queued)[j]).from == ts[j].source
                && admitted(ts, queued)[j].amount == ts[j].amount && admitted(ts, queued)[j].memo
                == ts[j].memo,
    decreases ts.len(),
{
    if ts.len() > 0 {
        let rest = ts.skip(1);
        if !(queued + ts.len() <= MAX_INCOMING_TRANSFERS) {
            assert(ts[0].amount >= INCOMING_TRANSFER_ENTRY_FOOTPRINT);
            assert forall|i: int| 0 <= i < rest.len() implies #[trigger] rest[i].amount
                >= INCOMING_TRANSFER_ENTRY_FOOTPRINT by {
                assert(rest[i] == ts[i + 1]);
            }
        }
        lemma_admitted_all(rest, queued + 1);
        let a = admitted(ts, queued);
        let ar = admitted(rest, queued + 1);
        assert(a == seq![queued_of(ts[0])] + ar);
        assert forall|j: int| 0 <= j < ts.len() implies (#[trigger] a[j]).from == ts[j].source
            && a[j].amount == ts[j].amount && a[j].memo == ts[j].memo by {
            if j > 0 {
                assert(a[j] == ar[j - 1]);
                assert(rest[j - 1] == ts[j]);
            }
        }
    }
}

/// The number of buckets `n` transfers fill.
pub open spec fn bucket_count(n: nat) -> nat {
    ((n + MAX_TRANSFERS_PER_BUCKET - 1) / (MAX_TRANSFERS_PER_BUCKET as int)) as nat
}

/// The `k`-th bucket of `a`: the next `MAX_TRANSFERS_PER_BUCKET` transfers.
pub open spec fn bucket_of(a: Seq<QueuedTransfer>, k: nat) -> Seq<QueuedTransfer> {
    let start = k * MAX_TRANSFERS_PER_BUCKET;
    let end = start + MAX_TRANSFERS_PER_BUCKET;
    a.subrange(start as int, if end <= a.len() { end as int } else { a.len() as int })
}

/// The writes one invocation's incoming transfers call for.
pub struct RecordPlan {
    /// Whole buckets to write, with their ids, in order.
    pub buckets: Vec<(u64, Vec<QueuedTransfer>)>,
    /// The new endpoints, written after every bucket landed; `None` when no
    /// transfer was admitted, so nothing is written at all.
    pub endpoints: Option<IncomingTransferBuckets>,
    /// The queue's count before and after, for Asset Hub's charge.
    pub old_count: u32,
    pub new_count: u32,
}

/// Incoming-transfer processing against the queue's endpoints (`None`
/// is the empty queue): the admitted transfers fill fresh buckets, in order
/// and `MAX_TRANSFERS_PER_BUCKET` to a bucket, numbered from the id after
/// the queue's last (or `0`); the endpoints then span the old first bucket
/// (or the first new one) to the last new one.
#[verifier::spinoff_prover]
pub fn record_incoming(queue: Option<IncomingTransferBuckets>, transfers: &Vec<IncomingTransfer>) -> (r:
    RecordPlan)
    requires
        queue matches Some(q) ==> q.count + transfers@.len() <= u32::MAX && q.last_bucket
            + transfers@.len() + 1 <= u64::MAX,
        transfers@.len() <= u32::MAX,
    ensures
        ({
            let q0: nat = match queue {
                Some(q) => q.count as nat,
                None => 0,
            };
            let next0: nat = match queue {
                Some(q) => (q.last_bucket + 1) as nat,
                None => 0,
            };
            let a = admitted(transfers@, q0);
            let nb = bucket_count(a.len());
            &&& r.old_count == q0
            &&& r.new_count == q0 + a.len()
            &&& r.buckets@.len() == nb
            &&& forall|k: int|
                0 <= k < nb ==> #[trigger] r.buckets@[k].0 == next0 + k && r.buckets@[k].1@
                    == bucket_of(a, k as nat)
            &&& if a.len() == 0 {
                r.endpoints is None
            } else {
                r.endpoints == Some(
                    IncomingTransferBuckets {
                        first_bucket: match queue {
                            Some(q) => q.first_bucket,
                            None => next0 as u64,
                        },
                        last_bucket: (next0 + nb - 1) as u64,
                        count: (q0 + a.len()) as u32,
                    },
                )
            }
        }),
        (r.old_count + transfers@.len() <= MAX_INCOMING_TRANSFERS || forall|i: int|
            0 <= i < transfers@.len() ==> #[trigger] transfers@[i].amount
                >= INCOMING_TRANSFER_ENTRY_FOOTPRINT) ==> r.new_count == r.old_count
            + transfers@.len(),
        forall|k: int, j: int|
            0 <= k < r.buckets@.len() && 0 <= j < r.buckets@[k].1@.len() ==> from_incoming(
                #[trigger] r.buckets@[k].1@[j],
                transfers@,
            ),
{
    let q0: u32 = match queue {
        Some(q) => q.count,
        None => 0,
    };
    let next0: u64 = match queue {
        Some(q) => q.last_bucket + 1,
        None => 0,
    };
    // Admission, in arrival order.
    let mut adm: Vec<QueuedTransfer> = Vec::new();
    let mut queued: u32 = q0;
    let mut i: usize = 0;
    proof {
        assert(transfers@.skip(0) =~= transfers@);
    }
    while i < transfers.len()
        invariant
            i <= transfers@.len(),
            queued == q0 + adm@.len(),
            adm@.len() <= i,
            q0 + transfers@.len() <= u32::MAX,
            adm@ + admitted(transfers@.skip(i as int), queued as nat) == admitted(
                transfers@,
                q0 as nat,
            ),
        decreases transfers@.len() - i,
    {
        let t = transfers[i];
        let ghost rest = transfers@.skip(i as int);
        proof {
            assert(rest[0] == t);
            assert(rest.skip(1) =~= transfers@.skip(i + 1));
        }
        if (queued as usize) >= MAX_INCOMING_TRANSFERS && t.amount < INCOMING_TRANSFER_ENTRY_FOOTPRINT {
            i = i + 1;
        } else {
            let ghost before = adm@;
            adm.push(QueuedTransfer { from: t.source, amount: t.amount, memo: t.memo });
            proof {
                assert(adm@ + admitted(transfers@.skip(i + 1), (queued + 1) as nat) =~= before + (
                seq![queued_of(t)] + admitted(rest.skip(1), (queued + 1) as nat)));
            }
            queued = queued + 1;
            i = i + 1;
        }
    }
    proof {
        assert(transfers@.skip(transfers@.len() as int) =~= Seq::<IncomingTransfer>::empty());
        assert(adm@ =~= admitted(transfers@, q0 as nat));
    }
    // Chunking into buckets.
    assert(adm@.len() <= transfers@.len());
    let ghost a = adm@;
    let n = adm.len();
    let mut buckets: Vec<(u64, Vec<QueuedTransfer>)> = Vec::new();
    let mut start: usize = 0;
    let mut id: u64 = next0;
    while start < n
        invariant
            n == a.len(),
            adm@ == a,
            start <= n,
            start == n || start == buckets@.len() * MAX_TRANSFERS_PER_BUCKET,
            buckets@.len() * MAX_TRANSFERS_PER_BUCKET >= start,
            buckets@.len() == 0 || (buckets@.len() - 1) * MAX_TRANSFERS_PER_BUCKET < start,
            buckets@.len() == 0 ==> start == 0,
            buckets@.len() <= start,
            id == next0 + buckets@.len(),
            next0 + n <= u64::MAX,
            forall|k: int|
                0 <= k < buckets@.len() ==> #[trigger] buckets@[k].0 == next0 + k
                    && buckets@[k].1@ == bucket_of(a, k as nat),
        decreases n - start,
    {
        let end: usize = if n - start > MAX_TRANSFERS_PER_BUCKET as usize {
            start + MAX_TRANSFERS_PER_BUCKET as usize
        } else {
            n
        };
        let mut bucket: Vec<QueuedTransfer> = Vec::new();
        let mut j: usize = start;
        while j < end
            invariant
                start <= j <= end <= n,
                adm@ == a,
                n == a.len(),
                bucket@ == a.subrange(start as int, j as int),
            decreases end - j,
        {
            bucket.push(adm[j]);
            j = j + 1;
            proof {
                assert(bucket@ =~= a.subrange(start as int, j as int));
            }
        }
        let ghost k = buckets@.len();
        proof {
            assert(bucket@ =~= bucket_of(a, k as nat));
        }
        let ghost prior = buckets@;
        let ghost bv = bucket@;
        let ghost idv = id;
        buckets.push((id, bucket));
        proof {
            assert forall|k2: int| 0 <= k2 < buckets@.len() implies #[trigger] buckets@[k2].0 == next0
                + k2 && buckets@[k2].1@ == bucket_of(a, k2 as nat) by {
                if k2 < k {
                    assert(buckets@[k2] == prior[k2]);
                } else {
                    assert(k2 == k);
                    assert(buckets@[k2].0 == idv);
                    assert(buckets@[k2].1@ == bv);
                }
            }
        }
        id = id + 1;
        start = end;
    }
    proof {
        let nb = buckets@.len();
        assert(nb == bucket_count(n as nat)) by (nonlinear_arith)
            requires
                (nb - 1) * 512 < n || nb == 0,
                nb * 512 >= n,
                n == 0 ==> nb == 0,
        ;
    }
    let endpoints = if n == 0 {
        None
    } else {
        Some(
            IncomingTransferBuckets {
                first_bucket: match queue {
                    Some(q) => q.first_bucket,
                    None => next0,
                },
                last_bucket: id - 1,
                count: queued,
            },
        )
    };
    proof {
        if q0 + transfers@.len() <= MAX_INCOMING_TRANSFERS || forall|i: int|
            0 <= i < transfers@.len() ==> #[trigger] transfers@[i].amount
                >= INCOMING_TRANSFER_ENTRY_FOOTPRINT {
            lemma_admitted_all(transfers@, q0 as nat);
        }
        lemma_admitted_from_incoming(transfers@, q0 as nat);
        assert forall|k: int, j: int|
            0 <= k < buckets@.len() && 0 <= j < buckets@[k].1@.len() implies from_incoming(
                #[trigger] buckets@[k].1@[j],
                transfers@,
            ) by {
            let b = bucket_of(a, k as nat);
            assert(buckets@[k].0 == next0 + k);
            assert(buckets@[k].1@ == b);
            assert(b[j] == a[k * MAX_TRANSFERS_PER_BUCKET + j]);
        }
    }
    RecordPlan { buckets, endpoints, old_count: q0, new_count: queued }
}

/// `clean_up_buckets_up_to(bucket_id)`: the ids to remove,
/// `first_bucket ..= min(bucket_id, last_bucket)`; `None` when the queue is
/// empty or `bucket_id` names an already-removed bucket.
pub fn clean_up_buckets_up_to(queue: Option<IncomingTransferBuckets>, bucket_id: u64) -> (r: Option<
    (u64, u64),
>)
    ensures
        match queue {
            Some(q) if bucket_id >= q.first_bucket => r == Some(
                (
                    q.first_bucket,
                    if bucket_id <= q.last_bucket {
                        bucket_id
                    } else {
                        q.last_bucket
                    },
                ),
            ),
            _ => r is None,
        },
{
    match queue {
        Some(q) => if bucket_id < q.first_bucket {
            None
        } else if bucket_id <= q.last_bucket {
            Some((q.first_bucket, bucket_id))
        } else {
            Some((q.first_bucket, q.last_bucket))
        },
        None => None,
    }
}

/// The count after removing buckets of the given sizes, each removal
/// saturating at zero.
pub open spec fn count_after(count: u32, removed: Seq<u32>) -> u32
    decreases removed.len(),
{
    if removed.len() == 0 {
        count
    } else {
        count_after(
            if count >= removed.last() {
                (count - removed.last()) as u32
            } else {
                0
            },
            removed.drop_last(),
        )
    }
}

/// The queue after its buckets up to `last_removed` were removed, their
/// sizes being `removed`: `None` (the endpoint entry is cleared, so ids
/// restart from `0`) once nothing remains, else the survivors from
/// `last_removed + 1` with the count reduced.
pub fn queue_after_clean_up(q: IncomingTransferBuckets, last_removed: u64, removed: &Vec<u32>) -> (r:
    Option<IncomingTransferBuckets>)
    requires
        q.first_bucket <= last_removed <= q.last_bucket,
    ensures
        last_removed >= q.last_bucket ==> r is None,
        last_removed < q.last_bucket ==> r == Some(
            IncomingTransferBuckets {
                first_bucket: (last_removed + 1) as u64,
                last_bucket: q.last_bucket,
                count: count_after(q.count, removed@.reverse()),
            },
        ),
{
    let mut count = q.count;
    let mut i: usize = 0;
    proof {
        assert(removed@.subrange(0, removed@.len() as int) =~= removed@);
    }
    while i < removed.len()
        invariant
            i <= removed@.len(),
            count_after(count, removed@.subrange(i as int, removed@.len() as int).reverse())
                == count_after(q.count, removed@.reverse()),
        decreases removed@.len() - i,
    {
        proof {
            let tail = removed@.subrange(i as int, removed@.len() as int);
            assert(tail.reverse().last() == removed@[i as int]);
            assert(tail.reverse().drop_last() =~= removed@.subrange(i + 1, removed@.len() as int).reverse());
        }
        count = count.saturating_sub(removed[i]);
        i = i + 1;
    }
    proof {
        assert(removed@.subrange(i as int, removed@.len() as int).reverse() =~= Seq::<u32>::empty());
    }
    if last_removed >= q.last_bucket {
        None
    } else {
        Some(
            IncomingTransferBuckets { first_bucket: last_removed + 1, last_bucket: q.last_bucket, count },
        )
    }
}

/// A `TransferOut` message (Asset Hub only).
#[derive(Clone, Copy, Debug)]
pub struct TransferOutArgs {
    /// The service debited; `None` is this service.
    pub source: Option<u32>,
    pub dest: u32,
    pub amount: u64,
    /// The caller's identifier, echoed in a failure's log entry.
    pub id: u64,
    pub source_supervisor_balance: bool,
    pub dest_supervisor_balance: bool,
    /// A deferred transfer's memo and gas limit.
    pub deferred: Option<(Memo, u64)>,
}

/// What replaying a `TransferOut` does.
#[derive(Clone, Copy, Debug)]
pub enum TransferOutcome {
    /// Refused; logged as `TransferFailed { id, error }`.
    Fail(TransferError),
    /// Nothing moves and nothing is logged.
    Skip,
    /// Call JAM `transfer`; its failure is `InsufficientServiceBalance`.
    Transfer { dest: u32, amount: u64, gas: u64, memo: Memo },
}

/// Refuse in the order JAM checks (source, destination, control
/// of the source, a plain move's target, the destination's gas minimum, the
/// source's funds). This service controls only itself and its supervisor
/// balance is always empty. `source_known` says whether a foreign source is
/// a known service; `dest_min_memo_gas` is the destination's minimum memo
/// gas, `None` when it is unknown.
pub open spec fn transfer_outcome(
    service_id: u32,
    args: TransferOutArgs,
    source_known: bool,
    dest_min_memo_gas: Option<u64>,
) -> TransferOutcome {
    let foreign = args.source matches Some(s) && s != service_id;
    let moves = args.amount > 0;
    if foreign && !source_known {
        TransferOutcome::Fail(TransferError::UnknownSource)
    } else if dest_min_memo_gas is None {
        TransferOutcome::Fail(TransferError::UnknownDestination)
    } else if foreign {
        TransferOutcome::Fail(TransferError::SourceNotSupervised)
    } else {
        match args.deferred {
            None => if args.dest != service_id || args.source_supervisor_balance
                == args.dest_supervisor_balance {
                TransferOutcome::Fail(TransferError::DestinationNotSupervised)
            } else if moves {
                TransferOutcome::Fail(
                    if args.source_supervisor_balance {
                        TransferError::InsufficientServiceBalance
                    } else {
                        TransferError::DestinationNotSupervised
                    },
                )
            } else {
                TransferOutcome::Skip
            },
            Some((memo, gas)) => if gas < dest_min_memo_gas->0 {
                TransferOutcome::Fail(TransferError::GasBelowDestinationMinimum)
            } else if moves && args.source_supervisor_balance {
                TransferOutcome::Fail(TransferError::InsufficientServiceBalance)
            } else if moves && args.dest_supervisor_balance {
                TransferOutcome::Fail(TransferError::DestinationNotSupervised)
            } else {
                TransferOutcome::Transfer { dest: args.dest, amount: args.amount, gas, memo }
            },
        }
    }
}

/// What JAM is asked to transfer: only from this service, to a known
/// destination with its memo gas met, exactly the amount and memo asked for;
/// and nothing that moves is ever taken from or credited to a supervisor
/// balance — a deferred transfer moving a non-zero amount into the
/// destination's supervisor balance is refused with `DestinationNotSupervised`.
pub proof fn lemma_transfer_out_supervisor_balances(
    service_id: u32,
    args: TransferOutArgs,
    source_known: bool,
    dest_min_memo_gas: Option<u64>,
)
    ensures
        transfer_outcome(service_id, args, source_known, dest_min_memo_gas) is Skip ==> args.amount
            == 0 && args.deferred is None,
        transfer_outcome(service_id, args, source_known, dest_min_memo_gas) matches
            TransferOutcome::Transfer { dest, amount, gas, memo } ==> ({
            &&& dest == args.dest
            &&& amount == args.amount
            &&& args.deferred == Some((memo, gas))
            &&& (args.source matches Some(s) ==> s == service_id)
            &&& dest_min_memo_gas matches Some(g) && g <= gas
            &&& amount > 0 ==> !args.source_supervisor_balance && !args.dest_supervisor_balance
        }),
        ({
            &&& args.source matches Some(s) ==> s == service_id
            &&& dest_min_memo_gas matches Some(g)
            &&& args.deferred matches Some((_, gas))
            &&& g <= gas
            &&& args.amount > 0
            &&& !args.source_supervisor_balance
            &&& args.dest_supervisor_balance
        }) ==> transfer_outcome(
            service_id,
            args,
            source_known,
            dest_min_memo_gas,
        ) == TransferOutcome::Fail(TransferError::DestinationNotSupervised),
{
}

/// Replay a `TransferOut`: the decision `transfer_outcome`.
pub fn transfer_out(
    service_id: u32,
    args: &TransferOutArgs,
    source_known: bool,
    dest_min_memo_gas: Option<u64>,
) -> (r: TransferOutcome)
    ensures
        r == transfer_outcome(service_id, *args, source_known, dest_min_memo_gas),
        r is Skip ==> args.amount == 0 && args.deferred is None,
        r matches TransferOutcome::Transfer { dest, amount, gas, memo } ==> ({
            &&& dest == args.dest
            &&& amount == args.amount
            &&& args.deferred == Some((memo, gas))
            &&& (args.source matches Some(s) ==> s == service_id)
            &&& dest_min_memo_gas matches Some(g) && g <= gas
            &&& amount > 0 ==> !args.source_supervisor_balance && !args.dest_supervisor_balance
        }),
        ({
            &&& args.source matches Some(s) ==> s == service_id
            &&& dest_min_memo_gas matches Some(g)
            &&& args.deferred matches Some((_, gas))
            &&& g <= gas
            &&& args.amount > 0
            &&& !args.source_supervisor_balance
            &&& args.dest_supervisor_balance
        }) ==> r
            == TransferOutcome::Fail(TransferError::DestinationNotSupervised),
{
    proof {
        lemma_transfer_out_supervisor_balances(service_id, *args, source_known, dest_min_memo_gas);
    }
    let foreign = match args.source {
        Some(s) => s != service_id,
        None => false,
    };
    let moves = args.amount > 0;
    if foreign && !source_known {
        return TransferOutcome::Fail(TransferError::UnknownSource);
    }
    let min_gas = match dest_min_memo_gas {
        Some(g) => g,
        None => return TransferOutcome::Fail(TransferError::UnknownDestination),
    };
    if foreign {
        return TransferOutcome::Fail(TransferError::SourceNotSupervised);
    }
    match args.deferred {
        None => {
            if args.dest != service_id || args.source_supervisor_balance
                == args.dest_supervisor_balance {
                TransferOutcome::Fail(TransferError::DestinationNotSupervised)
            } else if moves {
                TransferOutcome::Fail(
                    if args.source_supervisor_balance {
                        TransferError::InsufficientServiceBalance
                    } else {
                        TransferError::DestinationNotSupervised
                    },
                )
            } else {
                TransferOutcome::Skip
            }
        },
        Some((memo, gas)) => {
            if gas < min_gas {
                TransferOutcome::Fail(TransferError::GasBelowDestinationMinimum)
            } else if moves && args.source_supervisor_balance {
                TransferOutcome::Fail(TransferError::InsufficientServiceBalance)
            } else if moves && args.dest_supervisor_balance {
                TransferOutcome::Fail(TransferError::DestinationNotSupervised)
            } else {
                TransferOutcome::Transfer { dest: args.dest, amount: args.amount, gas, memo }
            }
        },
    }
}


/// The SCALE encoding of the endpoints: two 8-octet ids and a 4-octet count.
pub open spec fn endpoints_encoding(e: IncomingTransferBuckets) -> Seq<u8> {
    le_bytes(e.first_bucket as nat, 8) + le_bytes(e.last_bucket as nat, 8) + le_bytes(
        e.count as nat,
        4,
    )
}

/// The SCALE encoding of the stored queue pointer: `0` for none, else `1`
/// and the endpoints.
pub open spec fn queue_encoding(q: Option<IncomingTransferBuckets>) -> Seq<u8> {
    match q {
        None => seq![0u8],
        Some(e) => seq![1u8] + endpoints_encoding(e),
    }
}

impl IncomingTransferBuckets {
    /// The SCALE encoding of the endpoints.
    pub fn encode(&self) -> (r: Vec<u8>)
        ensures
            r@ == endpoints_encoding(*self),
    {
        let mut out: Vec<u8> = Vec::new();
        push_le(&mut out, self.first_bucket, 8);
        push_le(&mut out, self.last_bucket, 8);
        push_le(&mut out, self.count as u64, 4);
        proof {
            assert(out@ =~= endpoints_encoding(*self));
        }
        out
    }
}

/// The SCALE encoding of the queue pointer.
pub fn encode_queue(q: Option<IncomingTransferBuckets>) -> (r: Vec<u8>)
    ensures
        r@ == queue_encoding(q),
{
    match q {
        None => {
            let mut out: Vec<u8> = Vec::new();
            out.push(0);
            proof {
                assert(out@ =~= seq![0u8]);
            }
            out
        },
        Some(e) => {
            let mut out: Vec<u8> = Vec::new();
            out.push(1);
            let body = e.encode();
            let ghost start = out@;
            let mut i: usize = 0;
            while i < body.len()
                invariant
                    i <= body@.len(),
                    out@ == start + body@.subrange(0, i as int),
                decreases body@.len() - i,
            {
                out.push(body[i]);
                i = i + 1;
                proof {
                    assert(out@ =~= start + body@.subrange(0, i as int));
                }
            }
            proof {
                assert(body@.subrange(0, body@.len() as int) =~= body@);
            }
            out
        },
    }
}


/// The buckets partition the admitted transfers, in order: transfer `j` is
/// entry `j % MAX_TRANSFERS_PER_BUCKET` of bucket `j / MAX_TRANSFERS_PER_BUCKET`,
/// and no bucket holds more than `MAX_TRANSFERS_PER_BUCKET` or is empty.
pub proof fn lemma_buckets_partition(a: Seq<QueuedTransfer>, j: nat, k: nat)
    ensures
        j < a.len() ==> {
            let b = bucket_of(a, j / (MAX_TRANSFERS_PER_BUCKET as nat));
            &&& (j % (MAX_TRANSFERS_PER_BUCKET as nat)) < b.len()
            &&& b[(j % (MAX_TRANSFERS_PER_BUCKET as nat)) as int] == a[j as int]
        },
        k < bucket_count(a.len()) ==> 0 < bucket_of(a, k).len() <= MAX_TRANSFERS_PER_BUCKET,
{
    let m = MAX_TRANSFERS_PER_BUCKET as int;
    if j < a.len() {
        vstd::arithmetic::div_mod::lemma_fundamental_div_mod(j as int, m);
        vstd::arithmetic::div_mod::lemma_mod_bound(j as int, m);
        let q = (j as int) / m;
        let start = q * m;
        assert(start + (j as int) % m == j);
    }
    if k < bucket_count(a.len()) {
        assert(k * m < a.len()) by (nonlinear_arith)
            requires
                k < (a.len() + m - 1) / m,
                m == 512,
        ;
    }
}

} // verus!
