//! The child PVF's heap, as the refine executor tracks it.
//!
//! The service drives the inner PVM's memory itself, so it tracks the break
//! the guest grows and the pages mapped behind it, mirroring JAM's own
//! `grow_heap` bounds: the break starts at the heap base and may grow up to
//! the address-space limit `heap_base + max_heap_size`.

use crate::bounded::{opaque_bytes, opaque_from_vec};
use crate::constants::AUTHORIZER_QUEUE_LEN;
use crate::hashing::Hash32;
use crate::log::RefineLog;
use crate::types::{ParaId, MAX_HEAD_DATA_SIZE};
use vstd::prelude::*;

verus! {

/// Returned in `A0` by buffer-returning calls when the value does not exist.
pub const ABSENT: u64 = u64::MAX;

/// The most a `report_error` payload may hold; longer ones are truncated.
pub const MAX_REPORT_ERROR_PAYLOAD: u64 = 1024;

/// The child PVF's heap: a byte break plus the pages backing it.
#[derive(Clone, Copy, Debug, PartialEq, Eq, Structural)]
pub struct Heap {
    /// The page size of the inner PVM's memory map.
    pub page_size: u64,
    /// The current break: the byte end of the region the guest has grown to.
    pub top: u64,
    /// The byte end of the pages mapped (zeroed) so far; always page-aligned.
    pub mapped_until: u64,
    /// The address-space limit `heap_base + max_heap_size`.
    pub limit: u64,
}

/// The first multiple of `page_size` at or above `addr`.
pub open spec fn page_end(addr: nat, page_size: nat) -> nat
    recommends
        page_size > 0,
{
    if addr % page_size == 0 {
        addr
    } else {
        (addr / page_size + 1) * page_size
    }
}

/// A page end lies in `[addr, addr + page_size)`.
pub proof fn lemma_page_end_bounds(addr: nat, page_size: nat)
    requires
        page_size > 0,
    ensures
        addr <= page_end(addr, page_size) < addr + page_size,
{
    let q = addr / page_size;
    let r = addr % page_size;
    vstd::arithmetic::div_mod::lemma_fundamental_div_mod(addr as int, page_size as int);
    vstd::arithmetic::div_mod::lemma_mod_bound(addr as int, page_size as int);
    assert(addr == page_size * q + r);
    assert((q + 1) * page_size == page_size * q + page_size) by (nonlinear_arith);
}

impl Heap {
    /// The heap is laid out as a 32-bit memory map yields it: a non-zero page
    /// size and addresses within what two 32-bit quantities can sum to.
    pub open spec fn wf(&self) -> bool {
        &&& 0 < self.page_size <= u32::MAX
        &&& self.top <= self.limit
        &&& self.limit <= 2 * (u32::MAX as int)
        &&& self.mapped_until <= 2 * (u32::MAX as int) + u32::MAX
    }

    /// Lay out the heap of an inner PVM with this memory map: the break starts
    /// at the heap base, the pages up to the end of the initialised RW data
    /// are already mapped, and growth is bounded by `heap_base + max_heap_size`.
    pub fn new(
        page_size: u32,
        heap_base: u32,
        rw_data_address: u32,
        rw_data_size: u32,
        max_heap_size: u32,
    ) -> (h: Self)
        requires
            page_size > 0,
        ensures
            h.wf(),
            h.page_size == page_size,
            h.top == heap_base,
            h.mapped_until == rw_data_address + rw_data_size,
            h.limit == heap_base + max_heap_size,
    {
        Heap {
            page_size: page_size as u64,
            top: heap_base as u64,
            mapped_until: rw_data_address as u64 + rw_data_size as u64,
            limit: heap_base as u64 + max_heap_size as u64,
        }
    }

    /// The new break after growing by `delta` bytes, or `None` if it would
    /// overflow or exceed the address-space limit.
    pub fn grow_to(&self, delta: u64) -> (r: Option<u64>)
        ensures
            r == (if self.top + delta <= self.limit {
                Some((self.top + delta) as u64)
            } else {
                None
            }),
    {
        match self.top.checked_add(delta) {
            Some(new_top) => if new_top <= self.limit {
                Some(new_top)
            } else {
                None
            },
            None => None,
        }
    }

    /// Serve a `grow_heap(delta)` child host call: the value returned to the
    /// guest (the previous break, the current one for `delta == 0`, or `0` when
    /// refused) and the `(page, count)` range that must be zero-mapped first.
    pub fn grow(&mut self, delta: u64) -> (r: (u64, Option<(u64, u64)>))
        requires
            old(self).wf(),
        ensures
            final(self).wf(),
            final(self).page_size == old(self).page_size,
            final(self).limit == old(self).limit,
            delta == 0 ==> r == (old(self).top, None::<(u64, u64)>) && *final(self) == *old(
                self,
            ),
            delta != 0 && old(self).top + delta > old(self).limit ==> r == (0u64, None::<
                (u64, u64),
            >) && *final(self) == *old(self),
            delta != 0 && old(self).top + delta <= old(self).limit ==> {
                &&& r.0 == old(self).top
                &&& final(self).top == old(self).top + delta
                &&& r.1 == fresh_pages_spec(
                    old(self).mapped_until,
                    final(self).top,
                    old(self).page_size,
                )
                &&& final(self).mapped_until == match r.1 {
                    Some(_) => page_end(final(self).top as nat, old(self).page_size as nat),
                    None => old(self).mapped_until as nat,
                }
            },
            old(self).mapped_until % old(self).page_size == 0 ==> (r.1 matches Some((page, count))
                ==> page * old(self).page_size == old(self).mapped_until && (page + count) * old(
                self,
            ).page_size == final(self).mapped_until && final(self).top <= final(self).mapped_until),
    {
        if delta == 0 {
            return (self.top, None);
        }
        let new_top = match self.grow_to(delta) {
            Some(t) => t,
            None => return (0, None),
        };
        proof {
            lemma_page_end_bounds(new_top as nat, self.page_size as nat);
        }
        let mut pages: Option<(u64, u64)> = None;
        match fresh_pages(self.mapped_until, new_top, self.page_size) {
            Some((page, count, end)) => {
                proof {
                    assert((page + count) * self.page_size == page * self.page_size + count
                        * self.page_size) by (nonlinear_arith);
                }
                self.mapped_until = end;
                pages = Some((page, count));
            },
            None => {},
        }
        proof {
            lemma_page_end_bounds(new_top as nat, self.page_size as nat);
        }
        let old_top = self.top;
        self.top = new_top;
        (old_top, pages)
    }
}

/// The `(page, count)` of pages in `[mapped_until, page_end(new_top))`, if any.
pub open spec fn fresh_pages_spec(mapped_until: u64, new_top: u64, page_size: u64) -> Option<
    (u64, u64),
> {
    let end = page_end(new_top as nat, page_size as nat);
    if end > mapped_until {
        Some(((mapped_until / page_size) as u64, ((end - mapped_until) / page_size as int) as u64))
    } else {
        None
    }
}

/// A page end is itself on a page boundary.
proof fn lemma_page_end_aligned(addr: nat, page_size: nat)
    requires
        page_size > 0,
    ensures
        page_end(addr, page_size) % page_size == 0,
{
    if addr % page_size != 0 {
        let q = addr / page_size;
        vstd::arithmetic::div_mod::lemma_mod_multiples_basic((q + 1) as int, page_size as int);
    }
}

/// Whatever the mapped boundary, the first page to map is the one holding it.
pub proof fn lemma_fresh_pages_first_page(mapped_until: u64, new_top: u64, page_size: u64)
    requires
        page_size > 0,
    ensures
        fresh_pages_spec(mapped_until, new_top, page_size) matches Some((page, _)) ==> page
            * page_size <= mapped_until < page * page_size + page_size,
{
    let m = mapped_until as int;
    let ps = page_size as int;
    vstd::arithmetic::div_mod::lemma_fundamental_div_mod(m, ps);
    vstd::arithmetic::div_mod::lemma_mod_bound(m, ps);
    let q = m / ps;
    assert(q * ps == ps * q) by (nonlinear_arith);
    assert(0 <= q <= m) by (nonlinear_arith)
        requires
            m == ps * q + m % ps,
            0 <= m % ps < ps,
            m >= 0,
            ps > 0,
    ;
    assert((mapped_until / page_size) as u64 == q);
}

/// The pages to zero-map begin at the first unmapped page and end at the
/// page boundary just above the new break: when the mapped region ends on a
/// page boundary, the range is exactly `[mapped_until, e)` with `e` the
/// first page boundary at or above `new_top`; nothing is mapped when
/// `new_top` is already covered.
pub proof fn lemma_fresh_pages_cover(mapped_until: u64, new_top: u64, page_size: u64)
    requires
        page_size > 0,
        mapped_until % page_size == 0,
        page_end(new_top as nat, page_size as nat) <= u64::MAX,
    ensures
        fresh_pages_spec(mapped_until, new_top, page_size) matches Some((page, count)) ==> {
            let e = mapped_until + count * page_size;
            &&& page * page_size == mapped_until
            &&& count >= 1
            &&& new_top <= e < new_top + page_size
            &&& e % (page_size as int) == 0
            &&& e == page_end(new_top as nat, page_size as nat)
        },
        fresh_pages_spec(mapped_until, new_top, page_size) is None ==> new_top <= mapped_until,
{
    let m = mapped_until as int;
    let ps = page_size as int;
    let end = page_end(new_top as nat, page_size as nat) as int;
    lemma_page_end_bounds(new_top as nat, page_size as nat);
    lemma_page_end_aligned(new_top as nat, page_size as nat);
    if end > m {
        vstd::arithmetic::div_mod::lemma_fundamental_div_mod(m, ps);
        vstd::arithmetic::div_mod::lemma_fundamental_div_mod(end, ps);
        let mq = m / ps;
        let eq = end / ps;
        assert(m == ps * mq);
        assert(end == ps * eq);
        assert(end - m == ps * (eq - mq)) by (nonlinear_arith)
            requires
                m == ps * mq,
                end == ps * eq,
        ;
        assert(eq - mq >= 1) by (nonlinear_arith)
            requires
                end - m == ps * (eq - mq),
                end > m,
                ps > 0,
        ;
        vstd::arithmetic::div_mod::lemma_div_multiples_vanish(eq - mq, ps);
        assert((end - m) / ps == eq - mq);
        assert(0 <= mq <= m && 0 <= eq - mq <= end) by (nonlinear_arith)
            requires
                m == ps * mq,
                end - m == ps * (eq - mq),
                ps > 0,
                m >= 0,
                end > m,
        ;
        assert(mapped_until / page_size == mq);
        assert(((end - m) / ps) as u64 == eq - mq);
        assert(mq * ps == m) by (nonlinear_arith)
            requires
                m == ps * mq,
        ;
        assert((eq - mq) * ps == end - m) by (nonlinear_arith)
            requires
                end - m == ps * (eq - mq),
        ;
    }
}

/// The `(page, count, end)` range of pages in `[mapped_until, new_top)` that are
/// not yet mapped and must be zero-mapped to back the growth; `None` if
/// `new_top` is already within the mapped pages. Whole pages are mapped,
/// including the one containing `new_top`.
pub fn fresh_pages(mapped_until: u64, new_top: u64, page_size: u64) -> (r: Option<(u64, u64, u64)>)
    requires
        page_size > 0,
        page_end(new_top as nat, page_size as nat) <= u64::MAX,
    ensures
        match r {
            Some((page, count, end)) => fresh_pages_spec(mapped_until, new_top, page_size) == Some(
                (page, count),
            ) && end == page_end(new_top as nat, page_size as nat),
            None => fresh_pages_spec(mapped_until, new_top, page_size) is None,
        },
        r matches Some((page, _, _)) ==> page * page_size <= mapped_until < page * page_size
            + page_size,
        mapped_until % page_size == 0 ==> match r {
            Some((page, count, end)) => page * page_size == mapped_until && mapped_until + count
                * page_size == end && new_top <= end < new_top + page_size,
            None => new_top <= mapped_until,
        },
{
    let q = new_top / page_size;
    let end = if new_top % page_size == 0 {
        new_top
    } else {
        proof {
            assert(page_size > 1);
            assert(q < u64::MAX) by (nonlinear_arith)
                requires
                    q == new_top / page_size,
                    page_size > 1,
            ;
            assert((q + 1) * page_size == page_end(new_top as nat, page_size as nat));
        }
        let next = q + 1;
        next * page_size
    };
    proof {
        lemma_fresh_pages_first_page(mapped_until, new_top, page_size);
        if mapped_until % page_size == 0 {
            lemma_fresh_pages_cover(mapped_until, new_top, page_size);
            lemma_page_end_bounds(new_top as nat, page_size as nat);
        }
    }
    if end > mapped_until {
        Some((mapped_until / page_size, (end - mapped_until) / page_size, end))
    } else {
        None
    }
}


// ---------------------------------------------------------------------------
// The executor's side-effect buffer.
// ---------------------------------------------------------------------------

/// The bounds of the upward-message vocabulary, as its definition sets them.
#[derive(Clone, Copy, Debug, PartialEq, Eq, Structural)]
pub struct MessageLimits {
    /// How many messages one Refine may emit.
    pub max_messages: usize,
    /// The budget of their encoded octets, all together.
    pub max_bytes: usize,
    /// How many keys one `SetValidatorKeys` may carry.
    pub max_keys: usize,
}

/// What the upward-message rules need to know of one upward message.
#[derive(Clone, Copy, Debug, PartialEq, Eq, Structural)]
pub enum MessageKind {
    /// An `AssignCore` with a queue of `queue_len` hashes, handing the core
    /// away iff `hands_off`.
    AssignCore { queue_len: usize, hands_off: bool },
    /// A `SetValidatorKeys` carrying `keys` keys.
    SetValidatorKeys { keys: usize },
    /// Any other message.
    Other,
}

/// The executor's state during one Refine, as the rules see it.
pub struct ExecutorView {
    pub para_id: ParaId,
    /// The encoded upward messages, in emission order.
    pub messages: Seq<Seq<u8>>,
    pub parent_head_hash: Option<Seq<u8>>,
    pub head_data: Option<Seq<u8>>,
    pub set_validator_keys_called: bool,
    pub heap: Heap,
    pub limits: MessageLimits,
}

/// The total length of `ms`.
pub open spec fn total_len(ms: Seq<Seq<u8>>) -> nat
    decreases ms.len(),
{
    if ms.len() == 0 {
        0
    } else {
        total_len(ms.drop_last()) + ms.last().len()
    }
}

/// Side-effect buffer during the refine invoke-PVM loop.
pub struct ExecutorState {
    /// The para this work item speaks for; restricted messages are checked
    /// against it.
    para_id: ParaId,
    /// Upward messages in emission order, encoded.
    umps: Vec<Vec<u8>>,
    /// From the mandatory `set_parent_head_hash`.
    parent_head_hash: Option<Hash32>,
    /// From the mandatory `set_head`.
    head_data: Option<Vec<u8>>,
    /// `SetValidatorKeys` may be sent at most once per Refine.
    set_validator_keys_called: bool,
    /// Running encoded size of `umps`, against the message budget.
    umps_bytes: usize,
    /// The child's heap.
    heap: Heap,
    limits: MessageLimits,
}

/// The encoded messages of `v`.
pub open spec fn encodings(v: Seq<Vec<u8>>) -> Seq<Seq<u8>> {
    v.map_values(|m: Vec<u8>| m@)
}

impl View for ExecutorState {
    type V = ExecutorView;

    closed spec fn view(&self) -> ExecutorView {
        ExecutorView {
            para_id: self.para_id,
            messages: encodings(self.umps@),
            parent_head_hash: match self.parent_head_hash {
                Some(h) => Some(h@),
                None => None,
            },
            head_data: match self.head_data {
                Some(h) => Some(h@),
                None => None,
            },
            set_validator_keys_called: self.set_validator_keys_called,
            heap: self.heap,
            limits: self.limits,
        }
    }
}

/// What the executor answers a child host call with.
#[derive(Clone, Copy, Debug, PartialEq, Eq)]
pub struct Reply {
    /// The new value of `A0`, if the call sets it.
    pub a0: Option<u64>,
    /// Pages `(page, count)` to zero-map into the child before returning.
    pub map_pages: Option<(u64, u64)>,
    /// How many octets of a forwarded result to copy into the child.
    pub copy_out: Option<u64>,
}

/// A child host call, with what the service read for it.
pub enum ChildCall {
    /// `gas()`: the remaining gas.
    Gas { remaining: u64 },
    /// `grow_heap(delta)`.
    GrowHeap { delta: u64 },
    /// A forwarded `fetch` or `historical_lookup`: JAM's full length (or
    /// `ABSENT`) and the child's buffer capacity.
    Forwarded { full: u64, cap: u64 },
    /// `export`: the index JAM assigned the segment.
    Export { index: u64 },
    /// `set_parent_head_hash`, with the hash read from the child.
    SetParentHeadHash { hash: Hash32 },
    /// `set_head`, with the head read from the child.
    SetHead { head: Vec<u8> },
    /// `send_upward_message`: the decoded message's kind, whether it is
    /// allowed for the para, and its encoding.
    SendUpwardMessage { kind: MessageKind, allowed: bool, encoded: Vec<u8> },
    /// `log`: diagnostics only.
    Log,
    /// `report_error`, with the (truncated) payload read from the child.
    ReportError { payload: Vec<u8> },
}

/// How many octets of a forwarded result reach the child: `min(full, cap)`,
/// nothing when the value is absent or the buffer empty.
pub open spec fn copy_len(full: u64, cap: u64) -> Option<u64> {
    if full == ABSENT || cap == 0 {
        None
    } else if full <= cap {
        Some(full)
    } else {
        Some(cap)
    }
}

/// The check of one more message on top of `v`: `Ok` with the new
/// `set_validator_keys_called` flag, or the refusal.
pub open spec fn message_check(v: ExecutorView, kind: MessageKind, allowed: bool, size: nat) -> Result<
    bool,
    RefineLog,
> {
    if !allowed {
        Err(RefineLog::RestrictedHostFunction)
    } else {
        let flag = match kind {
            MessageKind::AssignCore { queue_len, hands_off } => if !(1 <= queue_len
                <= AUTHORIZER_QUEUE_LEN) || (hands_off && queue_len != AUTHORIZER_QUEUE_LEN) {
                Err(RefineLog::InvalidAuthorizerQueue)
            } else {
                Ok(v.set_validator_keys_called)
            },
            MessageKind::SetValidatorKeys { keys } => if keys > v.limits.max_keys {
                Err(RefineLog::TooManyValidatorKeys)
            } else if v.set_validator_keys_called {
                Err(RefineLog::SetValidatorKeysRepeated)
            } else {
                Ok(true)
            },
            MessageKind::Other => Ok(v.set_validator_keys_called),
        };
        match flag {
            Err(e) => Err(e),
            Ok(f) => if total_len(v.messages) + size > v.limits.max_bytes {
                Err(RefineLog::UpwardMessagesTooLarge)
            } else if v.messages.len() >= v.limits.max_messages {
                Err(RefineLog::TooManyUpwardMessages)
            } else {
                Ok(f)
            },
        }
    }
}

/// A message is buffered only when it is allowed for the para and fits: one
/// more message stays within the count and the octet budget, and a
/// `SetValidatorKeys` carries at most `max_keys` keys and is the first of its
/// Refine (after which it counts as sent).
pub proof fn lemma_message_check_limits(v: ExecutorView, kind: MessageKind, allowed: bool, size: nat)
    ensures
        !allowed ==> message_check(v, kind, allowed, size) == Err::<bool, RefineLog>(
            RefineLog::RestrictedHostFunction,
        ),
        message_check(v, kind, allowed, size) matches Ok(flag) ==> ({
            &&& allowed
            &&& v.messages.len() < v.limits.max_messages
            &&& total_len(v.messages) + size <= v.limits.max_bytes
            &&& kind matches MessageKind::SetValidatorKeys { keys } ==> keys <= v.limits.max_keys
                && !v.set_validator_keys_called && flag
            &&& !(kind is SetValidatorKeys) ==> flag == v.set_validator_keys_called
        }),
{
}

/// An `AssignCore` message is buffered only with a queue of 1 to
/// `AUTHORIZER_QUEUE_LEN` hashes, exactly `AUTHORIZER_QUEUE_LEN` when it hands
/// the core away; an allowed message with any other queue is refused with
/// `InvalidAuthorizerQueue`, whatever the executor already holds.
pub proof fn lemma_assign_core_queue(
    v: ExecutorView,
    queue_len: usize,
    hands_off: bool,
    allowed: bool,
    size: nat,
)
    ensures
        message_check(v, MessageKind::AssignCore { queue_len, hands_off }, allowed, size) is Ok
            ==> allowed && 1 <= queue_len <= AUTHORIZER_QUEUE_LEN && (hands_off ==> queue_len
            == AUTHORIZER_QUEUE_LEN),
        allowed && (queue_len == 0 || queue_len > AUTHORIZER_QUEUE_LEN || (hands_off && queue_len
            != AUTHORIZER_QUEUE_LEN)) ==> message_check(
            v,
            MessageKind::AssignCore { queue_len, hands_off },
            allowed,
            size,
        ) == Err::<bool, RefineLog>(RefineLog::InvalidAuthorizerQueue),
{
}

impl ExecutorState {
    /// The executor is consistent: the running size is the messages' total,
    /// within budget, and the heap is well formed.
    pub closed spec fn wf(&self) -> bool {
        &&& self.umps_bytes == total_len(encodings(self.umps@))
        &&& self.umps_bytes <= self.limits.max_bytes
        &&& self.heap.wf()
    }

    /// A fresh executor for `para_id`'s PVF, over the child's heap.
    pub fn new(para_id: ParaId, heap: Heap, limits: MessageLimits) -> (r: Self)
        requires
            heap.wf(),
        ensures
            r.wf(),
            r@.para_id == para_id,
            r@.messages == Seq::<Seq<u8>>::empty(),
            r@.parent_head_hash is None,
            r@.head_data is None,
            !r@.set_validator_keys_called,
            r@.heap == heap,
            r@.limits == limits,
    {
        let r = ExecutorState {
            para_id,
            umps: Vec::new(),
            parent_head_hash: None,
            head_data: None,
            set_validator_keys_called: false,
            umps_bytes: 0,
            heap,
            limits,
        };
        proof {
            assert(encodings(r.umps@) =~= Seq::<Seq<u8>>::empty());
        }
        r
    }

    /// The child's heap state.
    pub fn heap(&self) -> (h: &Heap)
        ensures
            *h == self@.heap,
    {
        &self.heap
    }

    /// Consume the state after the PVF halted: both head declarations are
    /// mandatory.
    pub fn finish(self) -> (r: Result<(Hash32, Vec<u8>, Vec<Vec<u8>>), RefineLog>)
        ensures
            match (self@.parent_head_hash, self@.head_data) {
                (Some(p), Some(h)) => r matches Ok((parent, head, ms)) && parent@ == p && head@
                    == h && encodings(ms@) == self@.messages,
                _ => r == Err::<(Hash32, Vec<u8>, Vec<Vec<u8>>), RefineLog>(
                    RefineLog::MissingHeadDeclaration,
                ),
            },
    {
        match (self.parent_head_hash, self.head_data) {
            (Some(parent), Some(head)) => Ok((parent, head, self.umps)),
            _ => Err(RefineLog::MissingHeadDeclaration),
        }
    }

    /// Buffer an upward message, applying every upward-message rule: the para
    /// restriction, an `AssignCore`'s queue shape, a `SetValidatorKeys`'s key
    /// count and once-only rule, the encoded budget and the message cap. A
    /// refusal leaves the buffer as it was.
    pub fn push(&mut self, kind: MessageKind, allowed: bool, encoded: Vec<u8>) -> (r: Result<
        (),
        RefineLog,
    >)
        requires
            old(self).wf(),
        ensures
            final(self).wf(),
            match message_check(old(self)@, kind, allowed, encoded@.len()) {
                Err(e) => r == Err::<(), RefineLog>(e) && final(self)@ == old(self)@,
                Ok(flag) => r is Ok && final(self)@ == (ExecutorView {
                    messages: old(self)@.messages.push(encoded@),
                    set_validator_keys_called: flag,
                    ..old(self)@
                }),
            },
            !allowed ==> r == Err::<(), RefineLog>(RefineLog::RestrictedHostFunction),
            r is Ok ==> allowed && final(self)@.messages.len() <= old(self)@.limits.max_messages
                && total_len(final(self)@.messages) <= old(self)@.limits.max_bytes,
            kind matches MessageKind::SetValidatorKeys { keys } ==> (r is Ok ==> keys
                <= old(self)@.limits.max_keys && !old(self)@.set_validator_keys_called
                && final(self)@.set_validator_keys_called),
            kind matches MessageKind::AssignCore { queue_len, hands_off } ==> (r is Ok ==> 1
                <= queue_len <= AUTHORIZER_QUEUE_LEN && (hands_off ==> queue_len
                == AUTHORIZER_QUEUE_LEN)),
            kind matches MessageKind::AssignCore { queue_len, hands_off } ==> (allowed && (
            queue_len == 0 || queue_len > AUTHORIZER_QUEUE_LEN || (hands_off && queue_len
                != AUTHORIZER_QUEUE_LEN)) ==> r == Err::<(), RefineLog>(
                RefineLog::InvalidAuthorizerQueue,
            )),
    {
        proof {
            if let MessageKind::AssignCore { queue_len, hands_off } = kind {
                lemma_assign_core_queue(old(self)@, queue_len, hands_off, allowed, encoded@.len());
            }
        }
        if !allowed {
            return Err(RefineLog::RestrictedHostFunction);
        }
        let mut flag = self.set_validator_keys_called;
        match kind {
            MessageKind::AssignCore { queue_len, hands_off } => {
                let len_ok = 1 <= queue_len && queue_len <= AUTHORIZER_QUEUE_LEN;
                let handoff_ok = !hands_off || queue_len == AUTHORIZER_QUEUE_LEN;
                if !len_ok || !handoff_ok {
                    return Err(RefineLog::InvalidAuthorizerQueue);
                }
            },
            MessageKind::SetValidatorKeys { keys } => {
                if keys > self.limits.max_keys {
                    return Err(RefineLog::TooManyValidatorKeys);
                }
                if self.set_validator_keys_called {
                    return Err(RefineLog::SetValidatorKeysRepeated);
                }
                flag = true;
            },
            MessageKind::Other => {},
        }
        let size = encoded.len();
        if size > self.limits.max_bytes - self.umps_bytes {
            return Err(RefineLog::UpwardMessagesTooLarge);
        }
        if self.umps.len() >= self.limits.max_messages {
            return Err(RefineLog::TooManyUpwardMessages);
        }
        let ghost before = self.umps@;
        let ghost e = encoded@;
        self.umps.push(encoded);
        self.umps_bytes = self.umps_bytes + size;
        self.set_validator_keys_called = flag;
        proof {
            assert(encodings(self.umps@) =~= encodings(before).push(e));
            assert(encodings(self.umps@).drop_last() =~= encodings(before));
        }
        Ok(())
    }

    /// Handle one child host call: update the state and say what to
    /// hand back to the child, or fail the digest with a `RefineLog`.
    pub fn dispatch(&mut self, call: ChildCall) -> (r: Result<Reply, RefineLog>)
        requires
            old(self).wf(),
        ensures
            final(self).wf(),
            call matches ChildCall::SendUpwardMessage {
                kind: MessageKind::AssignCore { queue_len, hands_off },
                allowed,
                ..
            } ==> (r is Ok ==> 1 <= queue_len <= AUTHORIZER_QUEUE_LEN && (hands_off ==> queue_len
                == AUTHORIZER_QUEUE_LEN)) && (allowed && (queue_len == 0 || queue_len
                > AUTHORIZER_QUEUE_LEN || (hands_off && queue_len != AUTHORIZER_QUEUE_LEN)) ==> r
                == Err::<Reply, RefineLog>(RefineLog::InvalidAuthorizerQueue)),
            match call {
                ChildCall::Gas { remaining } => r == Ok::<Reply, RefineLog>(
                    Reply { a0: Some(remaining), map_pages: None, copy_out: None },
                ) && final(self)@ == old(self)@,
                ChildCall::GrowHeap { delta } => r matches Ok(reply) && reply.copy_out is None
                    && final(self)@ == (ExecutorView { heap: final(self)@.heap, ..old(self)@ })
                    && grow_result(old(self)@.heap, final(self)@.heap, delta, reply),
                ChildCall::Forwarded { full, cap } => r == Ok::<Reply, RefineLog>(
                    Reply { a0: Some(full), map_pages: None, copy_out: copy_len(full, cap) },
                ) && final(self)@ == old(self)@,
                ChildCall::Export { index } => r == Ok::<Reply, RefineLog>(
                    Reply { a0: Some(index), map_pages: None, copy_out: None },
                ) && final(self)@ == old(self)@,
                ChildCall::SetParentHeadHash { hash } => if old(self)@.parent_head_hash is Some {
                    r == Err::<Reply, RefineLog>(RefineLog::MissingHeadDeclaration)
                        && final(self)@ == old(self)@
                } else {
                    r == Ok::<Reply, RefineLog>(Reply { a0: None, map_pages: None, copy_out: None })
                        && final(self)@ == (ExecutorView {
                        parent_head_hash: Some(hash@),
                        ..old(self)@
                    })
                },
                ChildCall::SetHead { head } => if old(self)@.head_data is Some {
                    r == Err::<Reply, RefineLog>(RefineLog::MissingHeadDeclaration)
                        && final(self)@ == old(self)@
                } else if head@.len() > MAX_HEAD_DATA_SIZE {
                    r == Err::<Reply, RefineLog>(RefineLog::HeadDataTooLarge) && final(self)@
                        == old(self)@
                } else {
                    r == Ok::<Reply, RefineLog>(Reply { a0: None, map_pages: None, copy_out: None })
                        && final(self)@ == (ExecutorView { head_data: Some(head@), ..old(self)@ })
                },
                ChildCall::SendUpwardMessage { kind, allowed, encoded } => match message_check(
                    old(self)@,
                    kind,
                    allowed,
                    encoded@.len(),
                ) {
                    Err(e) => r == Err::<Reply, RefineLog>(e) && final(self)@ == old(self)@,
                    Ok(flag) => r == Ok::<Reply, RefineLog>(
                        Reply { a0: None, map_pages: None, copy_out: None },
                    ) && final(self)@ == (ExecutorView {
                        messages: old(self)@.messages.push(encoded@),
                        set_validator_keys_called: flag,
                        ..old(self)@
                    }),
                },
                ChildCall::Log => r == Ok::<Reply, RefineLog>(
                    Reply { a0: None, map_pages: None, copy_out: None },
                ) && final(self)@ == old(self)@,
                ChildCall::ReportError { payload } => final(self)@ == old(self)@ && (r matches Err(
                    RefineLog::Opaque(p),
                ) && opaque_bytes(p) == (if payload@.len() <= MAX_REPORT_ERROR_PAYLOAD {
                    payload@
                } else {
                    payload@.take(MAX_REPORT_ERROR_PAYLOAD as int)
                })),
            },
    {
        let none = Reply { a0: None, map_pages: None, copy_out: None };
        match call {
            ChildCall::Gas { remaining } => Ok(Reply { a0: Some(remaining), map_pages: None, copy_out: None }),
            ChildCall::GrowHeap { delta } => {
                let (a0, pages) = self.heap.grow(delta);
                Ok(Reply { a0: Some(a0), map_pages: pages, copy_out: None })
            },
            ChildCall::Forwarded { full, cap } => {
                Ok(Reply { a0: Some(full), map_pages: None, copy_out: relay_len(full, cap) })
            },
            ChildCall::Export { index } => Ok(Reply { a0: Some(index), map_pages: None, copy_out: None }),
            ChildCall::SetParentHeadHash { hash } => {
                if self.parent_head_hash.is_some() {
                    return Err(RefineLog::MissingHeadDeclaration);
                }
                self.parent_head_hash = Some(hash);
                Ok(none)
            },
            ChildCall::SetHead { head } => {
                if self.head_data.is_some() {
                    return Err(RefineLog::MissingHeadDeclaration);
                }
                if head.len() > MAX_HEAD_DATA_SIZE as usize {
                    return Err(RefineLog::HeadDataTooLarge);
                }
                self.head_data = Some(head);
                Ok(none)
            },
            ChildCall::SendUpwardMessage { kind, allowed, encoded } => {
                match self.push(kind, allowed, encoded) {
                    Ok(()) => Ok(none),
                    Err(e) => Err(e),
                }
            },
            ChildCall::Log => Ok(none),
            ChildCall::ReportError { payload } => {
                let kept = truncate(payload, MAX_REPORT_ERROR_PAYLOAD as usize);
                match opaque_from_vec(kept) {
                    Some(p) => Err(RefineLog::Opaque(p)),
                    None => {
                        proof {
                            assert(false);
                        }
                        Err(RefineLog::ValidationFailed)
                    },
                }
            },
        }
    }
}

/// The heap `after` is `before` grown by `delta` as `Heap::grow` does it,
/// answering with `reply`.
pub open spec fn grow_result(before: Heap, after: Heap, delta: u64, reply: Reply) -> bool {
    &&& after.wf()
    &&& after.page_size == before.page_size
    &&& after.limit == before.limit
    &&& delta == 0 ==> reply.a0 == Some(before.top) && reply.map_pages is None && after == before
    &&& delta != 0 && before.top + delta > before.limit ==> reply.a0 == Some(0u64)
        && reply.map_pages is None && after == before
    &&& delta != 0 && before.top + delta <= before.limit ==> {
        &&& reply.a0 == Some(before.top)
        &&& after.top == before.top + delta
        &&& reply.map_pages == fresh_pages_spec(before.mapped_until, after.top, before.page_size)
        &&& after.mapped_until == match reply.map_pages {
            Some(_) => page_end(after.top as nat, before.page_size as nat),
            None => before.mapped_until as nat,
        }
    }
}

/// How many octets of a forwarded result to copy into the child.
pub fn relay_len(full: u64, cap: u64) -> (r: Option<u64>)
    ensures
        r == copy_len(full, cap),
{
    if full == ABSENT || cap == 0 {
        None
    } else if full <= cap {
        Some(full)
    } else {
        Some(cap)
    }
}

/// The first `n` octets of `v` (all of it if shorter).
fn truncate(v: Vec<u8>, n: usize) -> (r: Vec<u8>)
    ensures
        v@.len() <= n ==> r@ == v@,
        v@.len() > n ==> r@ == v@.take(n as int),
{
    if v.len() <= n {
        return v;
    }
    let mut r: Vec<u8> = Vec::new();
    let mut i: usize = 0;
    while i < n
        invariant
            i <= n < v@.len(),
            r@ == v@.take(i as int),
        decreases n - i,
    {
        r.push(v[i]);
        i = i + 1;
        proof {
            assert(r@ =~= v@.take(i as int));
        }
    }
    r
}

/// How many octets of a `report_error` payload the service reads: `len`,
/// truncated to `MAX_REPORT_ERROR_PAYLOAD`.
pub fn report_error_len(len: u64) -> (r: u64)
    ensures
        r == (if len <= MAX_REPORT_ERROR_PAYLOAD {
            len
        } else {
            MAX_REPORT_ERROR_PAYLOAD
        }),
{
    if len <= MAX_REPORT_ERROR_PAYLOAD {
        len
    } else {
        MAX_REPORT_ERROR_PAYLOAD
    }
}


/// The `(page, count)` of pages spanning `[addr, addr + len)`, for an `addr`
/// on a page boundary; `None` for an empty range.
pub fn page_span(addr: u32, len: u32, page_size: u32) -> (r: Option<(u64, u64)>)
    requires
        page_size > 0,
    ensures
        len == 0 ==> r is None,
        len > 0 ==> r == Some(
            (
                (addr / page_size) as u64,
                ((len + page_size - 1) / (page_size as int)) as u64,
            ),
        ),
{
    if len == 0 {
        return None;
    }
    let page = (addr / page_size) as u64;
    let count = (len as u64 + page_size as u64 - 1) / page_size as u64;
    Some((page, count))
}

/// How an invocation of the child PVM came back.
#[derive(Clone, Copy, Debug, PartialEq, Eq, Structural)]
pub enum ChildOutcome {
    Halt,
    /// A host call with this index.
    HostCall(u64),
    PageFault,
    Panic,
    OutOfGas,
    /// The `invoke` host call itself failed.
    InvokeFailed,
}

/// What the invoke loop does next.
#[derive(Clone, Debug, PartialEq, Eq)]
pub enum InvokeStep {
    /// The PVF halted: finish the digest.
    Done,
    /// Dispatch this host call, then invoke again.
    Dispatch(u64),
    /// The PVF failed to validate the candidate.
    Fail(RefineLog),
}

/// A halt ends the run, a host call is dispatched, and a page fault,
/// a panic, running out of gas or a failed invocation fails validation.
pub fn after_invoke(outcome: ChildOutcome) -> (r: InvokeStep)
    ensures
        r == (match outcome {
            ChildOutcome::Halt => InvokeStep::Done,
            ChildOutcome::HostCall(index) => InvokeStep::Dispatch(index),
            _ => InvokeStep::Fail(RefineLog::ValidationFailed),
        }),
{
    match outcome {
        ChildOutcome::Halt => InvokeStep::Done,
        ChildOutcome::HostCall(index) => InvokeStep::Dispatch(index),
        _ => InvokeStep::Fail(RefineLog::ValidationFailed),
    }
}

} // verus!
