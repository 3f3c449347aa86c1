//! The reorder buffer: heads whose parent has not been accumulated yet wait here.
//!
//! A head can only be applied once its parent is the head that is stored.
//! Under pipelining reports do not arrive in the order the blocks were built,
//! so accumulate parks such a head here and applies it when its parent lands.
//! A head is only parked if its number falls in `(stored, stored + BUFFER_CAP]`,
//! and every call evicts entries the stored head has reached, which sweeps a
//! losing fork's children once the winning fork passes their heights.
//!
//! The head store is a trait the accumulate-side glue implements, so the
//! ordering rules perform no host calls.

use crate::hashing::{blake2_256, blake2b_256, bytes_eq, hash_eq, Hash32};
use vstd::prelude::*;

verus! {

/// How many out-of-order heads one para may park at once.
pub const BUFFER_CAP: usize = 4;

/// A head waiting for its parent to be accumulated.
#[derive(Debug, Clone, PartialEq, Eq)]
pub struct BufferedCandidate {
    /// blake2b-256 of the head this block was built on.
    pub parent_head_hash: Hash32,
    pub head_data: Vec<u8>,
    pub number: u32,
    /// The slot the head arrived in, which the age backstop measures against.
    pub arrived_slot: u32,
}

/// A candidate as the ordering rules see it.
pub struct CandidateView {
    pub parent_head_hash: Seq<u8>,
    pub head_data: Seq<u8>,
    pub number: u32,
    pub arrived_slot: u32,
}

impl View for BufferedCandidate {
    type V = CandidateView;

    open spec fn view(&self) -> CandidateView {
        CandidateView {
            parent_head_hash: self.parent_head_hash@,
            head_data: self.head_data@,
            number: self.number,
            arrived_slot: self.arrived_slot,
        }
    }
}

/// The hash a child of `c` names as its parent.
pub open spec fn head_hash_of(c: CandidateView) -> Seq<u8> {
    blake2b_256(c.head_data)
}

impl BufferedCandidate {
    /// The hash a child of this head would name as its parent.
    pub fn head_hash(&self) -> (h: Hash32)
        ensures
            h@ == head_hash_of(self@),
    {
        blake2_256(self.head_data.as_slice())
    }

    /// A copy of this candidate.
    pub fn duplicate(&self) -> (r: Self)
        ensures
            r@ == self@,
    {
        let head_data = self.head_data.clone();
        proof {
            assert(head_data@ =~= self.head_data@);
        }
        BufferedCandidate {
            parent_head_hash: self.parent_head_hash,
            head_data,
            number: self.number,
            arrived_slot: self.arrived_slot,
        }
    }
}

/// What the para's stored head says, as the ordering rules need it.
#[derive(Debug, Clone, Copy, PartialEq, Eq)]
pub enum StoredHead {
    /// Nothing stored: the para's first block, which has no parent to be fresh against.
    Empty,
    At { hash: Hash32, number: u32 },
    /// Bytes are stored, but they are not a record carrying a readable header.
    Unreadable,
}

/// `stored` holds the head `c`: its hash and its number.
pub open spec fn holds_head_of(stored: StoredHead, c: CandidateView) -> bool {
    stored matches StoredHead::At { hash, number } && hash@ == head_hash_of(c) && number
        == c.number
}

/// The views of a store's writes.
pub open spec fn write_views(s: Seq<(BufferedCandidate, bool)>) -> Seq<(CandidateView, bool)> {
    s.map_values(|w: (BufferedCandidate, bool)| (w.0@, w.1))
}

/// The writes a drain makes: each head it applied, stored, then the head it
/// stopped at (if any), refused.
pub open spec fn drain_writes(
    dr: (Seq<CandidateView>, Seq<CandidateView>, Option<CandidateView>),
) -> Seq<(CandidateView, bool)> {
    dr.0.map_values(|c: CandidateView| (c, true)) + match dr.2 {
        Some(c) => seq![(c, false)],
        None => Seq::empty(),
    }
}

/// Where accumulate keeps a para's head.
///
/// Implemented over the storage host calls by the service, and over a plain
/// field by tests. An implementation reports what it holds through `head`, and
/// `set_head` either stores the candidate's head (returning `true`) or fails
/// leaving what it held (returning `false`); whether a write fails is the
/// storage's answer. Every write asked for joins the store's `writes`.
pub trait HeadStore {
    /// What the store holds.
    spec fn stored(&self) -> StoredHead;

    /// The head the para is at.
    fn head(&self) -> (h: StoredHead)
        ensures
            h == self.stored(),
    ;

    /// The head writes asked of this store so far, in order, each with
    /// whether it was stored.
    spec fn writes(&self) -> Vec<(BufferedCandidate, bool)>;

    /// Store `candidate`'s head. `false` if the write failed; either way the
    /// attempt joins the store's writes.
    fn set_head(&mut self, candidate: &BufferedCandidate) -> (ok: bool)
        ensures
            write_views(final(self).writes()@) == write_views(old(self).writes()@).push(
                (candidate@, ok),
            ),
            ok ==> holds_head_of(final(self).stored(), candidate@),
            !ok ==> final(self).stored() == old(self).stored(),
    ;
}

/// What accumulate should do with an arriving head.
#[derive(Debug, Clone, Copy, PartialEq, Eq, Structural)]
pub enum Decision {
    Apply,
    Buffer,
    Drop(DropReason),
}

/// Why an arriving head is neither applied nor parked.
#[derive(Debug, Clone, Copy, PartialEq, Eq, Structural)]
pub enum DropReason {
    /// The number is outside `(stored, stored + BUFFER_CAP]`.
    OutsideNumberWindow,
    /// The same head is already parked.
    Duplicate,
    BufferFull,
    /// The stored head cannot be read, so neither lineage nor height can be judged.
    UnreadableStoredHead,
}

/// Why a parked head was thrown away.
#[derive(Debug, Clone, Copy, PartialEq, Eq, Structural)]
pub enum EvictReason {
    /// The stored head has reached the parked head's number.
    Overtaken,
    /// Parked longer than the age backstop allows.
    TooOld,
}

/// Everything one arriving head did, for the caller to log.
#[derive(Debug, PartialEq, Eq)]
pub struct Outcome {
    /// Heads written, in order: the arriving head, then the parked ones that chained onto it.
    pub applied: Vec<BufferedCandidate>,
    pub buffered: Option<BufferedCandidate>,
    pub dropped: Option<(BufferedCandidate, DropReason)>,
    pub evicted: Vec<(BufferedCandidate, EvictReason)>,
}

/// One para's parked heads, in arrival order.
#[derive(Debug, Clone, PartialEq, Eq)]
pub struct ReorderBuffer(Vec<BufferedCandidate>);

impl View for ReorderBuffer {
    type V = Seq<CandidateView>;

    closed spec fn view(&self) -> Seq<CandidateView> {
        self.0@.map_values(|c: BufferedCandidate| c@)
    }
}

/// The views of a sequence of candidates.
pub open spec fn views(s: Seq<BufferedCandidate>) -> Seq<CandidateView> {
    s.map_values(|c: BufferedCandidate| c@)
}

/// The views of a sequence of evictions.
pub open spec fn eviction_views(s: Seq<(BufferedCandidate, EvictReason)>) -> Seq<
    (CandidateView, EvictReason),
> {
    s.map_values(|e: (BufferedCandidate, EvictReason)| (e.0@, e.1))
}

// ---------------------------------------------------------------------------
// The rules, stated over views.
// ---------------------------------------------------------------------------

/// What to do with `arriving`, given what is parked and the head the para is at.
pub open spec fn decision_for(
    parked: Seq<CandidateView>,
    stored: StoredHead,
    arriving: CandidateView,
) -> Decision {
    match stored {
        StoredHead::Empty => Decision::Apply,
        StoredHead::Unreadable => Decision::Drop(DropReason::UnreadableStoredHead),
        StoredHead::At { hash, number } => if arriving.parent_head_hash == hash@ {
            Decision::Apply
        } else if arriving.number <= number || arriving.number > number.saturating_add(
            BUFFER_CAP as u32,
        ) {
            Decision::Drop(DropReason::OutsideNumberWindow)
        } else if exists|i: int|
            0 <= i < parked.len() && #[trigger] parked[i].head_data == arriving.head_data {
            Decision::Drop(DropReason::Duplicate)
        } else if parked.len() >= BUFFER_CAP {
            Decision::Drop(DropReason::BufferFull)
        } else {
            Decision::Buffer
        },
    }
}

/// `parked[i]` is the first-arrived parked head whose parent is `hash`.
pub open spec fn is_first_child(parked: Seq<CandidateView>, hash: Seq<u8>, i: int) -> bool {
    &&& 0 <= i < parked.len()
    &&& parked[i].parent_head_hash == hash
    &&& forall|j: int| 0 <= j < i ==> #[trigger] parked[j].parent_head_hash != hash
}

/// The index of the first-arrived parked head whose parent is `hash`.
pub open spec fn first_child(parked: Seq<CandidateView>, hash: Seq<u8>) -> Option<int> {
    if exists|i: int| is_first_child(parked, hash, i) {
        Some(choose|i: int| is_first_child(parked, hash, i))
    } else {
        None
    }
}

/// The drain after `k` successful head writes, starting from `first`: the
/// heads written, what is still parked, and the head to write next (taken out
/// of the buffer already), if any.
pub open spec fn drain(parked: Seq<CandidateView>, first: CandidateView, k: nat) -> (
    Seq<CandidateView>,
    Seq<CandidateView>,
    Option<CandidateView>,
)
    decreases k,
{
    if k == 0 {
        (Seq::empty(), parked, Some(first))
    } else {
        let prev = drain(parked, first, (k - 1) as nat);
        match prev.2 {
            None => prev,
            Some(c) => match first_child(prev.1, head_hash_of(c)) {
                Some(i) => (prev.0.push(c), prev.1.remove(i), Some(prev.1[i])),
                None => (prev.0.push(c), prev.1, None),
            },
        }
    }
}

/// Why `c` should leave the buffer, given the head the para is at.
pub open spec fn eviction_reason_for(c: CandidateView, stored: StoredHead, now: u32, max_age: u32) -> Option<
    EvictReason,
> {
    if stored matches StoredHead::At { number, .. } && c.number <= number {
        Some(EvictReason::Overtaken)
    } else if now.saturating_sub(c.arrived_slot) > max_age {
        Some(EvictReason::TooOld)
    } else {
        None
    }
}

/// The parked heads that stay, in order.
pub open spec fn kept(parked: Seq<CandidateView>, stored: StoredHead, now: u32, max_age: u32) -> Seq<
    CandidateView,
>
    decreases parked.len(),
{
    if parked.len() == 0 {
        Seq::empty()
    } else {
        let rest = kept(parked.skip(1), stored, now, max_age);
        if eviction_reason_for(parked[0], stored, now, max_age) is Some {
            rest
        } else {
            seq![parked[0]] + rest
        }
    }
}

/// The parked heads that leave, in order, each with its reason.
pub open spec fn evicted(parked: Seq<CandidateView>, stored: StoredHead, now: u32, max_age: u32) -> Seq<
    (CandidateView, EvictReason),
>
    decreases parked.len(),
{
    if parked.len() == 0 {
        Seq::empty()
    } else {
        let rest = evicted(parked.skip(1), stored, now, max_age);
        match eviction_reason_for(parked[0], stored, now, max_age) {
            Some(r) => seq![(parked[0], r)] + rest,
            None => rest,
        }
    }
}

// ---------------------------------------------------------------------------
// The buffer.
// ---------------------------------------------------------------------------

impl ReorderBuffer {
    /// An empty buffer.
    pub fn new() -> (b: Self)
        ensures
            b@ == Seq::<CandidateView>::empty(),
    {
        let b = ReorderBuffer(Vec::new());
        proof {
            assert(b@ =~= Seq::<CandidateView>::empty());
        }
        b
    }

    /// The parked heads, in arrival order.
    pub fn parked(&self) -> (r: &Vec<BufferedCandidate>)
        ensures
            views(r@) == self@,
    {
        &self.0
    }

    /// A buffer holding `parked`, in that order.
    pub fn from_parked(parked: Vec<BufferedCandidate>) -> (b: Self)
        ensures
            b@ == views(parked@),
    {
        ReorderBuffer(parked)
    }

    pub fn depth(&self) -> (r: usize)
        ensures
            r == self@.len(),
    {
        self.0.len()
    }

    pub fn is_empty(&self) -> (r: bool)
        ensures
            r == (self@.len() == 0),
    {
        self.0.len() == 0
    }

    /// Apply an arriving head and everything parked that chains onto it, or
    /// park it, or drop it; then evict what the stored head has overtaken or
    /// what has waited too long.
    pub fn accept<S: HeadStore>(
        &mut self,
        store: &mut S,
        arriving: BufferedCandidate,
        now: u32,
        max_age: u32,
    ) -> (outcome: Outcome)
        ensures
            old(self)@.len() <= BUFFER_CAP ==> final(self)@.len() <= BUFFER_CAP,
            distinct_heads(old(self)@) ==> distinct_heads(final(self)@),
            forall|i: int|
                0 <= i < final(self)@.len() ==> (#[trigger] eviction_reason_for(
                    final(self)@[i],
                    final(store).stored(),
                    now,
                    max_age,
                )) is None,
            chains_from(views(outcome.applied@), arriving@),
            ({
                let d = decision_for(old(self)@, old(store).stored(), arriving@);
                match d {
                    Decision::Apply => exists|k: nat|
                        #![trigger drain(old(self)@, arriving@, k)]
                        {
                            let dr = drain(old(self)@, arriving@, k);
                            &&& views(outcome.applied@) == dr.0
                            &&& write_views(final(store).writes()@) == write_views(
                                old(store).writes()@,
                            ) + drain_writes(dr)
                            &&& outcome.buffered is None
                            &&& outcome.dropped is None
                            &&& (k == 0 ==> final(store).stored() == old(store).stored())
                            &&& (k > 0 ==> holds_head_of(final(store).stored(), dr.0.last()))
                            &&& final(self)@ == kept(dr.1, final(store).stored(), now, max_age)
                            &&& eviction_views(outcome.evicted@) == evicted(
                                dr.1,
                                final(store).stored(),
                                now,
                                max_age,
                            )
                        },
                    Decision::Buffer => {
                        &&& outcome.applied@.len() == 0
                        &&& outcome.buffered matches Some(b) && b@ == arriving@
                        &&& outcome.dropped is None
                        &&& final(store).stored() == old(store).stored()
                        &&& final(store).writes() == old(store).writes()
                        &&& final(self)@ == kept(
                            old(self)@.push(arriving@),
                            old(store).stored(),
                            now,
                            max_age,
                        )
                        &&& eviction_views(outcome.evicted@) == evicted(
                            old(self)@.push(arriving@),
                            old(store).stored(),
                            now,
                            max_age,
                        )
                    },
                    Decision::Drop(reason) => {
                        &&& outcome.applied@.len() == 0
                        &&& outcome.buffered is None
                        &&& outcome.dropped matches Some((c, r)) && c@ == arriving@ && r == reason
                        &&& final(store).stored() == old(store).stored()
                        &&& final(store).writes() == old(store).writes()
                        &&& final(self)@ == kept(old(self)@, old(store).stored(), now, max_age)
                        &&& eviction_views(outcome.evicted@) == evicted(
                            old(self)@,
                            old(store).stored(),
                            now,
                            max_age,
                        )
                    },
                }
            }),
    {
        let ghost parked0 = self@;
        let stored0 = store.head();
        let mut applied: Vec<BufferedCandidate> = Vec::new();
        let mut buffered: Option<BufferedCandidate> = None;
        let mut dropped: Option<(BufferedCandidate, DropReason)> = None;
        let ghost mut k: nat = 0;
        match self.decide(stored0, &arriving) {
            Decision::Apply => {
                let ghost s0 = store.stored();
                let ghost w0 = store.writes()@;
                let mut next: Option<BufferedCandidate> = Some(arriving);
                proof {
                    assert(views(applied@) =~= Seq::<CandidateView>::empty());
                }
                loop
                    invariant_except_break
                        write_views(store.writes()@) == write_views(w0) + drain(
                            parked0,
                            arriving@,
                            k,
                        ).0.map_values(|c: CandidateView| (c, true)),
                    invariant
                        self@ == drain(parked0, arriving@, k).1,
                        views(applied@) == drain(parked0, arriving@, k).0,
                        k == applied@.len(),
                        drain(parked0, arriving@, k).2 == (match next {
                            Some(c) => Some(c@),
                            None => None::<CandidateView>,
                        }),
                        k == 0 ==> store.stored() == s0,
                        k > 0 ==> holds_head_of(store.stored(), views(applied@).last()),
                    ensures
                        self@ == drain(parked0, arriving@, k).1,
                        views(applied@) == drain(parked0, arriving@, k).0,
                        write_views(store.writes()@) == write_views(w0) + drain_writes(
                            drain(parked0, arriving@, k),
                        ),
                        k == 0 ==> store.stored() == s0,
                        k > 0 ==> holds_head_of(store.stored(), views(applied@).last()),
                    decreases self@.len() + (if next is Some {
                        1int
                    } else {
                        0int
                    }),
                {
                    let candidate = match next {
                        Some(c) => c,
                        None => {
                            proof {
                                assert(drain_writes(drain(parked0, arriving@, k)) =~= drain(
                                    parked0,
                                    arriving@,
                                    k,
                                ).0.map_values(|c: CandidateView| (c, true)));
                            }
                            break;
                        },
                    };
                    let ghost trues = drain(parked0, arriving@, k).0.map_values(
                        |c: CandidateView| (c, true),
                    );
                    if !store.set_head(&candidate) {
                        proof {
                            assert(drain_writes(drain(parked0, arriving@, k)) =~= trues.push(
                                (candidate@, false),
                            ));
                        }
                        break;
                    }
                    let ghost before = self@;
                    let hash = candidate.head_hash();
                    next = self.take_child_of(&hash);
                    let ghost old_applied = applied@;
                    let ghost cv = candidate@;
                    applied.push(candidate);
                    proof {
                        assert(views(applied@) =~= views(old_applied).push(cv));
                        k = k + 1;
                        assert(views(applied@).last() == cv);
                        assert(drain(parked0, arriving@, k).0.map_values(|c: CandidateView| (c, true))
                            =~= trues.push((cv, true)));
                    }
                }
            },
            Decision::Buffer => {
                let copy = arriving.duplicate();
                let ghost before = self.0@;
                self.0.push(copy);
                proof {
                    assert(self@ =~= parked0.push(arriving@));
                }
                buffered = Some(arriving);
            },
            Decision::Drop(reason) => {
                dropped = Some((arriving, reason));
            },
        }
        let stored1 = store.head();
        let ghost before_evict = self@;
        let evicted_now = self.evict(stored1, now, max_age);
        proof {
            lemma_kept_len(before_evict, stored1, now, max_age);
            lemma_kept_not_evictable(before_evict, stored1, now, max_age);
            lemma_drain_chains(parked0, arriving@, k);
            if distinct_heads(parked0) {
                if decision_for(parked0, stored0, arriving@) is Apply {
                    lemma_drain_distinct(parked0, arriving@, k);
                } else if decision_for(parked0, stored0, arriving@) is Buffer {
                    let pushed = parked0.push(arriving@);
                    assert forall|i: int, j: int| 0 <= i < j < pushed.len() implies #[trigger] pushed[i].head_data
                        != #[trigger] pushed[j].head_data by {
                        assert(pushed[i] == parked0[i]);
                        if j < parked0.len() {
                            assert(pushed[j] == parked0[j]);
                        }
                    }
                }
                lemma_kept_distinct(before_evict, stored1, now, max_age);
            }
            if !(decision_for(parked0, stored0, arriving@) is Apply) {
                assert(views(applied@) =~= Seq::<CandidateView>::empty());
            }
        }
        Outcome { applied, buffered, dropped, evicted: evicted_now }
    }

    /// What to do with `arriving`, given the head the para is at.
    fn decide(&self, stored: StoredHead, arriving: &BufferedCandidate) -> (d: Decision)
        ensures
            d == decision_for(self@, stored, arriving@),
    {
        let (hash, number) = match stored {
            StoredHead::Empty => return Decision::Apply,
            StoredHead::Unreadable => return Decision::Drop(DropReason::UnreadableStoredHead),
            StoredHead::At { hash, number } => (hash, number),
        };
        if hash_eq(&arriving.parent_head_hash, &hash) {
            return Decision::Apply;
        }
        if arriving.number <= number || arriving.number > number.saturating_add(
            BUFFER_CAP as u32,
        ) {
            return Decision::Drop(DropReason::OutsideNumberWindow);
        }
        if self.holds_head_data(arriving.head_data.as_slice()) {
            return Decision::Drop(DropReason::Duplicate);
        }
        if self.0.len() >= BUFFER_CAP {
            return Decision::Drop(DropReason::BufferFull);
        }
        Decision::Buffer
    }

    /// Is a head with these bytes already parked?
    fn holds_head_data(&self, head: &[u8]) -> (r: bool)
        ensures
            r == exists|i: int| 0 <= i < self@.len() && #[trigger] self@[i].head_data == head@,
    {
        let mut i: usize = 0;
        while i < self.0.len()
            invariant
                i <= self@.len(),
                self@.len() == self.0@.len(),
                forall|j: int| 0 <= j < i ==> #[trigger] self@[j].head_data != head@,
            decreases self@.len() - i,
        {
            proof {
                assert(self@[i as int] == self.0@[i as int]@);
            }
            if bytes_eq(self.0[i].head_data.as_slice(), head) {
                proof {
                    assert(self@[i as int].head_data == head@);
                }
                return true;
            }
            i = i + 1;
        }
        false
    }

    /// Take the first-arrived parked head whose parent is `head_hash`.
    fn take_child_of(&mut self, head_hash: &Hash32) -> (r: Option<BufferedCandidate>)
        ensures
            match first_child(old(self)@, head_hash@) {
                Some(i) => r matches Some(c) && c@ == old(self)@[i] && final(self)@ == old(
                    self,
                )@.remove(i),
                None => r is None && final(self)@ == old(self)@,
            },
    {
        let ghost h = head_hash@;
        let mut i: usize = 0;
        while i < self.0.len()
            invariant
                i <= self@.len(),
                self@.len() == self.0@.len(),
                h == head_hash@,
                self@ == old(self)@,
                forall|j: int| 0 <= j < i ==> #[trigger] self@[j].parent_head_hash != h,
            decreases self@.len() - i,
        {
            proof {
                assert(self@[i as int] == self.0@[i as int]@);
            }
            if hash_eq(&self.0[i].parent_head_hash, head_hash) {
                proof {
                    assert(is_first_child(self@, h, i as int));
                    lemma_first_child_unique(self@, h, i as int);
                }
                let ghost before = self@;
                let ghost before0 = self.0@;
                let c = self.0.remove(i);
                proof {
                    assert(self@ =~= before.remove(i as int));
                    assert(c@ == before[i as int]);
                }
                return Some(c);
            }
            i = i + 1;
        }
        proof {
            assert(!exists|j: int| is_first_child(self@, h, j));
        }
        None
    }

    fn evict(&mut self, stored: StoredHead, now: u32, max_age: u32) -> (ev: Vec<
        (BufferedCandidate, EvictReason),
    >)
        ensures
            final(self)@ == kept(old(self)@, stored, now, max_age),
            eviction_views(ev@) == evicted(old(self)@, stored, now, max_age),
    {
        let ghost orig = self@;
        let mut rest: Vec<BufferedCandidate> = Vec::new();
        core::mem::swap(&mut rest, &mut self.0);
        let mut kept_now: Vec<BufferedCandidate> = Vec::new();
        let mut evicted_now: Vec<(BufferedCandidate, EvictReason)> = Vec::new();
        proof {
            assert(views(rest@) == orig);
            assert(views(kept_now@) + kept(views(rest@), stored, now, max_age) =~= kept(
                orig,
                stored,
                now,
                max_age,
            ));
            assert(eviction_views(evicted_now@) + evicted(views(rest@), stored, now, max_age)
                =~= evicted(orig, stored, now, max_age));
        }
        while rest.len() > 0
            invariant
                views(kept_now@) + kept(views(rest@), stored, now, max_age) == kept(
                    orig,
                    stored,
                    now,
                    max_age,
                ),
                eviction_views(evicted_now@) + evicted(views(rest@), stored, now, max_age)
                    == evicted(orig, stored, now, max_age),
            decreases rest@.len(),
        {
            let ghost rv = views(rest@);
            let candidate = rest.remove(0);
            proof {
                assert(views(rest@) =~= rv.skip(1));
                assert(rv[0] == candidate@);
            }
            match eviction_reason(&candidate, stored, now, max_age) {
                Some(reason) => {
                    let ghost e0 = evicted_now@;
                    evicted_now.push((candidate, reason));
                    proof {
                        assert(eviction_views(evicted_now@) =~= eviction_views(e0).push(
                            (candidate@, reason),
                        ));
                        assert(eviction_views(evicted_now@) + evicted(
                            views(rest@),
                            stored,
                            now,
                            max_age,
                        ) =~= eviction_views(e0) + evicted(rv, stored, now, max_age));
                        assert(views(kept_now@) + kept(views(rest@), stored, now, max_age)
                            =~= views(kept_now@) + kept(rv, stored, now, max_age));
                    }
                },
                None => {
                    let ghost k0 = kept_now@;
                    kept_now.push(candidate);
                    proof {
                        assert(views(kept_now@) =~= views(k0).push(candidate@));
                        assert(views(kept_now@) + kept(views(rest@), stored, now, max_age)
                            =~= views(k0) + kept(rv, stored, now, max_age));
                        assert(eviction_views(evicted_now@) + evicted(
                            views(rest@),
                            stored,
                            now,
                            max_age,
                        ) =~= eviction_views(evicted_now@) + evicted(rv, stored, now, max_age));
                    }
                },
            }
        }
        proof {
            assert(views(kept_now@) =~= kept(orig, stored, now, max_age));
            assert(eviction_views(evicted_now@) =~= evicted(orig, stored, now, max_age));
        }
        self.0 = kept_now;
        evicted_now
    }
}

/// Why a parked head should leave the buffer, if it should.
fn eviction_reason(
    candidate: &BufferedCandidate,
    stored: StoredHead,
    now: u32,
    max_age: u32,
) -> (r: Option<EvictReason>)
    ensures
        r == eviction_reason_for(candidate@, stored, now, max_age),
{
    if let StoredHead::At { number, .. } = stored {
        if candidate.number <= number {
            return Some(EvictReason::Overtaken);
        }
    }
    if now.saturating_sub(candidate.arrived_slot) > max_age {
        Some(EvictReason::TooOld)
    } else {
        None
    }
}

proof fn lemma_first_child_unique(parked: Seq<CandidateView>, hash: Seq<u8>, i: int)
    requires
        is_first_child(parked, hash, i),
    ensures
        first_child(parked, hash) == Some(i),
{
    let k = choose|k: int| is_first_child(parked, hash, k);
    assert(is_first_child(parked, hash, k));
    if k < i {
        assert(parked[k].parent_head_hash != hash);
    } else if k > i {
        assert(parked[i].parent_head_hash != hash);
    }
}


// ---------------------------------------------------------------------------
// Laws of the buffer.
// ---------------------------------------------------------------------------

/// The heads `s` hold form a chain from `first`: the first is `first` and
/// each names the previous one's head as its parent.
pub open spec fn chains_from(s: Seq<CandidateView>, first: CandidateView) -> bool {
    &&& s.len() > 0 ==> s[0] == first
    &&& forall|i: int| 1 <= i < s.len() ==> #[trigger] s[i].parent_head_hash == head_hash_of(s[i - 1])
}

/// No two heads along `s` hold the same head data.
pub open spec fn distinct_heads(s: Seq<CandidateView>) -> bool {
    forall|i: int, j: int|
        0 <= i < j < s.len() ==> #[trigger] s[i].head_data != #[trigger] s[j].head_data
}

proof fn lemma_distinct_remove(s: Seq<CandidateView>, r: int)
    requires
        distinct_heads(s),
        0 <= r < s.len(),
    ensures
        distinct_heads(s.remove(r)),
{
    let t = s.remove(r);
    assert forall|i: int, j: int| 0 <= i < j < t.len() implies #[trigger] t[i].head_data
        != #[trigger] t[j].head_data by {
        let i2 = if i < r { i } else { i + 1 };
        let j2 = if j < r { j } else { j + 1 };
        assert(t[i] == s[i2] && t[j] == s[j2]);
    }
}

proof fn lemma_drain_distinct(parked: Seq<CandidateView>, first: CandidateView, k: nat)
    requires
        distinct_heads(parked),
    ensures
        distinct_heads(drain(parked, first, k).1),
    decreases k,
{
    if k > 0 {
        lemma_drain_distinct(parked, first, (k - 1) as nat);
        let prev = drain(parked, first, (k - 1) as nat);
        if let Some(c) = prev.2 {
            if let Some(i) = first_child(prev.1, head_hash_of(c)) {
                assert(is_first_child(prev.1, head_hash_of(c), i));
                lemma_distinct_remove(prev.1, i);
            }
        }
    }
}

proof fn lemma_kept_distinct(parked: Seq<CandidateView>, stored: StoredHead, now: u32, max_age: u32)
    requires
        distinct_heads(parked),
    ensures
        distinct_heads(kept(parked, stored, now, max_age)),
        forall|a: int|
            0 <= a < kept(parked, stored, now, max_age).len() ==> parked.contains(
                #[trigger] kept(parked, stored, now, max_age)[a],
            ),
    decreases parked.len(),
{
    if parked.len() > 0 {
        let tail = parked.skip(1);
        assert forall|i: int, j: int| 0 <= i < j < tail.len() implies #[trigger] tail[i].head_data
            != #[trigger] tail[j].head_data by {
            assert(tail[i] == parked[i + 1] && tail[j] == parked[j + 1]);
        }
        lemma_kept_distinct(tail, stored, now, max_age);
        let rest = kept(tail, stored, now, max_age);
        assert forall|a: int| 0 <= a < rest.len() implies parked.contains(#[trigger] rest[a])
            && rest[a].head_data != parked[0].head_data by {
            assert(tail.contains(rest[a]));
            let m = choose|m: int| 0 <= m < tail.len() && tail[m] == rest[a];
            assert(parked[m + 1] == rest[a]);
        }
        if eviction_reason_for(parked[0], stored, now, max_age) is None {
            let k = seq![parked[0]] + rest;
            assert forall|i: int, j: int| 0 <= i < j < k.len() implies #[trigger] k[i].head_data
                != #[trigger] k[j].head_data by {
                assert(k[j] == rest[j - 1]);
                if i > 0 {
                    assert(k[i] == rest[i - 1]);
                }
            }
            assert forall|a: int| 0 <= a < k.len() implies parked.contains(#[trigger] k[a]) by {
                if a > 0 {
                    assert(k[a] == rest[a - 1]);
                } else {
                    assert(parked[0] == k[0]);
                }
            }
        }
    }
}

/// Eviction keeps no more than it was given.
pub proof fn lemma_kept_len(parked: Seq<CandidateView>, stored: StoredHead, now: u32, max_age: u32)
    ensures
        kept(parked, stored, now, max_age).len() <= parked.len(),
    decreases parked.len(),
{
    if parked.len() > 0 {
        lemma_kept_len(parked.skip(1), stored, now, max_age);
    }
}

/// Nothing eviction keeps is itself evictable: every kept head is ahead of
/// the stored head and young enough.
pub proof fn lemma_kept_not_evictable(
    parked: Seq<CandidateView>,
    stored: StoredHead,
    now: u32,
    max_age: u32,
)
    ensures
        forall|i: int|
            0 <= i < kept(parked, stored, now, max_age).len() ==> (#[trigger] eviction_reason_for(
                kept(parked, stored, now, max_age)[i],
                stored,
                now,
                max_age,
            )) is None,
    decreases parked.len(),
{
    if parked.len() > 0 {
        lemma_kept_not_evictable(parked.skip(1), stored, now, max_age);
        let rest = kept(parked.skip(1), stored, now, max_age);
        if eviction_reason_for(parked[0], stored, now, max_age) is None {
            let k = seq![parked[0]] + rest;
            assert forall|i: int| 0 <= i < k.len() implies (#[trigger] eviction_reason_for(
                k[i],
                stored,
                now,
                max_age,
            )) is None by {
                if i > 0 {
                    assert(k[i] == rest[i - 1]);
                }
            }
        }
    }
}

/// A drain takes heads out of the buffer, never puts any in; the heads it
/// writes chain from the arriving one, and the next to write (if any) is a
/// child of the last written.
pub proof fn lemma_drain_chains(parked: Seq<CandidateView>, first: CandidateView, k: nat)
    ensures
        drain(parked, first, k).1.len() <= parked.len(),
        chains_from(drain(parked, first, k).0, first),
        drain(parked, first, k).2 matches Some(c) ==> (if drain(parked, first, k).0.len() == 0 {
            c == first
        } else {
            c.parent_head_hash == head_hash_of(drain(parked, first, k).0.last())
        }),
    decreases k,
{
    if k > 0 {
        lemma_drain_chains(parked, first, (k - 1) as nat);
        let prev = drain(parked, first, (k - 1) as nat);
        match prev.2 {
            None => {},
            Some(c) => {
                let applied = prev.0.push(c);
                assert(applied.last() == c);
                assert forall|i: int| 1 <= i < applied.len() implies #[trigger] applied[i].parent_head_hash
                    == head_hash_of(applied[i - 1]) by {
                    if i < prev.0.len() {
                        assert(applied[i] == prev.0[i] && applied[i - 1] == prev.0[i - 1]);
                    } else {
                        assert(applied[i] == c && applied[i - 1] == prev.0.last());
                    }
                }
                match first_child(prev.1, head_hash_of(c)) {
                    Some(i) => {
                        let w = choose|w: int| is_first_child(prev.1, head_hash_of(c), w);
                        assert(is_first_child(prev.1, head_hash_of(c), w));
                        assert(prev.1[w].parent_head_hash == head_hash_of(c));
                    },
                    None => {},
                }
            },
        }
    }
}

} // verus!
