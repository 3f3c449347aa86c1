//! Parachain head commitment.
//!
//! `accumulate` returns a commitment to the parachain heads that changed
//! during the block: a binary Merkle tree over one leaf per changed head,
//! ordered by ascending `para_id`, with the root returned. No head changed
//! means no hash.

use crate::hashing::{blake2_256, blake2b_256, hash_eq, keccak_256, keccak_256_of, Hash32};
use crate::state::{le_bytes, push_le};
use crate::types::ParaId;
use vstd::prelude::*;

verus! {

/// An element of the commitment tree.
///
/// Element hashes are keccak-256 over the SCALE encoding, so the variant
/// discriminant is covered and a leaf hash can never collide with a node
/// hash. A `Leaf` encodes to 37 octets (discriminant, 4-octet `para_id`,
/// 32-octet `head_hash`) and a `Node` to 65 (discriminant, two hashes).
#[derive(Clone, Copy, Debug, PartialEq, Eq)]
pub enum MerkleTree {
    Node(Hash32, Hash32),
    Leaf { para_id: ParaId, head_hash: Hash32 },
}

/// The SCALE encoding of a tree element.
pub open spec fn element_encoding(t: MerkleTree) -> Seq<u8> {
    match t {
        MerkleTree::Node(l, r) => seq![0u8] + l@ + r@,
        MerkleTree::Leaf { para_id, head_hash } => seq![1u8] + le_bytes(para_id.0 as nat, 4)
            + head_hash@,
    }
}

/// The hash of a leaf.
pub open spec fn leaf_of(para_id: ParaId, head_hash: Seq<u8>) -> Seq<u8> {
    keccak_256_of(seq![1u8] + le_bytes(para_id.0 as nat, 4) + head_hash)
}

/// The hash of an inner node.
pub open spec fn node_of(l: Seq<u8>, r: Seq<u8>) -> Seq<u8> {
    keccak_256_of(seq![0u8] + l + r)
}

impl MerkleTree {
    /// The SCALE encoding of this element.
    pub fn encode(&self) -> (r: Vec<u8>)
        ensures
            r@ == element_encoding(*self),
    {
        let mut out: Vec<u8> = Vec::new();
        match self {
            MerkleTree::Node(l, r) => {
                out.push(0);
                append_hash(&mut out, l);
                append_hash(&mut out, r);
            },
            MerkleTree::Leaf { para_id, head_hash } => {
                out.push(1);
                push_le(&mut out, para_id.0 as u64, 4);
                append_hash(&mut out, head_hash);
            },
        }
        proof {
            assert(out@ =~= element_encoding(*self));
        }
        out
    }

    /// keccak-256 over the encoding.
    pub fn hash(&self) -> (h: Hash32)
        ensures
            h@ == keccak_256_of(element_encoding(*self)),
    {
        let bytes = self.encode();
        keccak_256(bytes.as_slice())
    }
}

fn append_hash(out: &mut Vec<u8>, h: &Hash32)
    ensures
        final(out)@ == old(out)@ + h@,
{
    let ghost start = out@;
    let mut i: usize = 0;
    while i < 32
        invariant
            i <= 32,
            out@ == start + h@.subrange(0, i as int),
        decreases 32 - i,
    {
        out.push(h[i]);
        i = i + 1;
        proof {
            assert(out@ =~= start + h@.subrange(0, i as int));
        }
    }
    proof {
        assert(h@.subrange(0, 32) =~= h@);
    }
}

/// The hash of a leaf for `para_id` with head hash `head_hash`.
pub fn leaf_hash(para_id: ParaId, head_hash: Hash32) -> (h: Hash32)
    ensures
        h@ == leaf_of(para_id, head_hash@),
{
    MerkleTree::Leaf { para_id, head_hash }.hash()
}

/// The hash of the node over `l` and `r`.
pub fn node_hash(l: Hash32, r: Hash32) -> (h: Hash32)
    ensures
        h@ == node_of(l@, r@),
{
    MerkleTree::Node(l, r).hash()
}

/// The views of a sequence of hashes.
pub open spec fn hash_views(s: Seq<Hash32>) -> Seq<Seq<u8>> {
    s.map_values(|h: Hash32| h@)
}

/// One level up: adjacent pairs hashed, a trailing odd element promoted unchanged.
pub open spec fn paired(level: Seq<Seq<u8>>) -> Seq<Seq<u8>>
    decreases level.len(),
{
    if level.len() >= 2 {
        seq![node_of(level[0], level[1])] + paired(level.skip(2))
    } else {
        level
    }
}

/// `paired` halves a level, rounding up.
pub proof fn lemma_paired_len(level: Seq<Seq<u8>>)
    ensures
        paired(level).len() == (level.len() + 1) / 2,
    decreases level.len(),
{
    if level.len() >= 2 {
        lemma_paired_len(level.skip(2));
    }
}

/// The Merkle root over `leaves`: none for no leaves, a single leaf is its own
/// root, otherwise the root of the level above.
pub open spec fn root_of(leaves: Seq<Seq<u8>>) -> Option<Seq<u8>>
    decreases leaves.len(),
{
    if leaves.len() == 0 {
        None
    } else if leaves.len() == 1 {
        Some(leaves[0])
    } else {
        proof {
            lemma_paired_len(leaves);
        }
        root_of(paired(leaves))
    }
}

/// Collapse one level: hash adjacent pairs, promoting a trailing odd element
/// to the next level unchanged rather than duplicating it.
pub fn pair_up(level: &[Hash32]) -> (out: Vec<Hash32>)
    ensures
        hash_views(out@) == paired(hash_views(level@)),
{
    let ghost all = hash_views(level@);
    let mut out: Vec<Hash32> = Vec::new();
    let mut i: usize = 0;
    proof {
        assert(all.skip(0) =~= all);
        assert(hash_views(out@) + paired(all.skip(0)) =~= paired(all));
    }
    while level.len() - i >= 2
        invariant
            i <= level@.len(),
            all == hash_views(level@),
            hash_views(out@) + paired(all.skip(i as int)) == paired(all),
        decreases level@.len() - i,
    {
        let h = node_hash(level[i], level[i + 1]);
        let ghost before = out@;
        out.push(h);
        proof {
            let rest = all.skip(i as int);
            assert(rest[0] == level@[i as int]@);
            assert(rest[1] == level@[i + 1]@);
            assert(rest.skip(2) =~= all.skip(i + 2));
            assert(hash_views(out@) =~= hash_views(before).push(h@));
            assert(hash_views(out@) + paired(all.skip(i + 2)) =~= hash_views(before) + paired(
                rest,
            ));
        }
        i = i + 2;
    }
    if i < level.len() {
        let ghost before = out@;
        out.push(level[i]);
        proof {
            assert(all.skip(i as int) =~= seq![level@[i as int]@]);
            assert(hash_views(out@) =~= hash_views(before) + all.skip(i as int));
        }
    } else {
        proof {
            assert(all.skip(i as int) =~= Seq::<Seq<u8>>::empty());
            assert(hash_views(out@) + Seq::<Seq<u8>>::empty() =~= hash_views(out@));
        }
    }
    out
}

/// Root over `leaves`: no leaves yields no hash at all, and a single leaf is
/// its own root rather than being hashed again.
pub fn merkle_root(leaves: Vec<Hash32>) -> (r: Option<Hash32>)
    ensures
        match r {
            Some(h) => root_of(hash_views(leaves@)) == Some(h@),
            None => root_of(hash_views(leaves@)) is None,
        },
{
    let mut level = leaves;
    if level.len() == 0 {
        return None;
    }
    while level.len() > 1
        invariant
            level@.len() >= 1,
            root_of(hash_views(level@)) == root_of(hash_views(leaves@)),
        decreases level@.len(),
    {
        let next = pair_up(level.as_slice());
        proof {
            lemma_paired_len(hash_views(level@));
        }
        level = next;
    }
    Some(level[0])
}

// ---------------------------------------------------------------------------
// Changed heads.
// ---------------------------------------------------------------------------

/// A touched para: its id, its pre-block head hash (`None` when it did not
/// yet exist), and its end-of-block `(blake2 head hash, keccak leaf head)`
/// (`None` when it no longer exists).
pub type Touched = (ParaId, Option<Hash32>, Option<(Hash32, Hash32)>);

/// Insert `t` after every entry whose para id is not above its own.
pub open spec fn insert_by_para(sorted: Seq<Touched>, t: Touched) -> Seq<Touched>
    decreases sorted.len(),
{
    if sorted.len() == 0 {
        seq![t]
    } else if sorted.last().0.0 <= t.0.0 {
        sorted.push(t)
    } else {
        insert_by_para(sorted.drop_last(), t).push(sorted.last())
    }
}

/// `touched` stably sorted by ascending para id.
pub open spec fn sort_by_para(touched: Seq<Touched>) -> Seq<Touched>
    decreases touched.len(),
{
    if touched.len() == 0 {
        touched
    } else {
        insert_by_para(sort_by_para(touched.drop_last()), touched.last())
    }
}

/// The leaf a touched para contributes: one iff it still exists and its
/// head hash moved (a newly registered para counts as moved).
pub open spec fn leaf_for(t: Touched) -> Option<Seq<u8>> {
    match t.2 {
        Some((current, leaf_head)) => if t.1 is Some && t.1.unwrap()@ == current@ {
            None
        } else {
            Some(leaf_of(t.0, leaf_head@))
        },
        None => None,
    }
}

/// The leaves of a sequence of touched paras, in order.
pub open spec fn leaves_in_order(s: Seq<Touched>) -> Seq<Seq<u8>>
    decreases s.len(),
{
    if s.len() == 0 {
        Seq::empty()
    } else {
        match leaf_for(s.last()) {
            Some(l) => leaves_in_order(s.drop_last()).push(l),
            None => leaves_in_order(s.drop_last()),
        }
    }
}

/// Para ids ascend along `s`.
pub open spec fn para_ids_ascend(s: Seq<Touched>) -> bool {
    forall|i: int, j: int| 0 <= i < j < s.len() ==> #[trigger] s[i].0.0 <= #[trigger] s[j].0.0
}

proof fn lemma_insert_by_para(sorted: Seq<Touched>, t: Touched)
    requires
        para_ids_ascend(sorted),
    ensures
        para_ids_ascend(insert_by_para(sorted, t)),
        insert_by_para(sorted, t).to_multiset() == sorted.to_multiset().insert(t),
        insert_by_para(sorted, t).len() == sorted.len() + 1,
        forall|i: int|
            0 <= i < insert_by_para(sorted, t).len() ==> (#[trigger] insert_by_para(sorted, t)[i]
                == t || sorted.contains(insert_by_para(sorted, t)[i])),
    decreases sorted.len(),
{
    broadcast use vstd::seq_lib::group_to_multiset_ensures;

    if sorted.len() == 0 {
        assert(seq![t] =~= Seq::<Touched>::empty().push(t));
    } else if sorted.last().0.0 <= t.0.0 {
        let r = sorted.push(t);
        assert forall|i: int, j: int| 0 <= i < j < r.len() implies #[trigger] r[i].0.0 <= #[trigger] r[j].0.0 by {
            if j == r.len() - 1 && i < sorted.len() - 1 {
                assert(sorted[i].0.0 <= sorted[sorted.len() - 1].0.0);
            }
        }
        assert forall|i: int| 0 <= i < r.len() implies (#[trigger] r[i] == t || sorted.contains(r[i])) by {
            if i < sorted.len() {
                assert(sorted[i] == r[i]);
            }
        }
    } else {
        let init = sorted.drop_last();
        let last = sorted.last();
        assert forall|i: int, j: int| 0 <= i < j < init.len() implies #[trigger] init[i].0.0 <= #[trigger] init[j].0.0 by {
            assert(init[i] == sorted[i]);
            assert(init[j] == sorted[j]);
        }
        lemma_insert_by_para(init, t);
        let mid = insert_by_para(init, t);
        let r = mid.push(last);
        assert forall|i: int| 0 <= i < mid.len() implies #[trigger] mid[i].0.0 <= last.0.0 by {
            if mid[i] == t {
            } else {
                assert(init.contains(mid[i]));
                let k = choose|k: int| 0 <= k < init.len() && init[k] == mid[i];
                assert(init[k] == sorted[k]);
            }
        }
        assert forall|i: int, j: int| 0 <= i < j < r.len() implies #[trigger] r[i].0.0 <= #[trigger] r[j].0.0 by {
            if j == r.len() - 1 {
                assert(r[i] == mid[i]);
            } else {
                assert(r[i] == mid[i]);
                assert(r[j] == mid[j]);
            }
        }
        assert forall|i: int| 0 <= i < r.len() implies (#[trigger] r[i] == t || sorted.contains(r[i])) by {
            if i < mid.len() {
                assert(r[i] == mid[i]);
                if mid[i] != t {
                    assert(init.contains(mid[i]));
                    let k = choose|k: int| 0 <= k < init.len() && init[k] == mid[i];
                    assert(sorted[k] == init[k]);
                }
            } else {
                assert(sorted[sorted.len() - 1] == last);
            }
        }
        assert(sorted =~= init.push(last));
        assert(r.to_multiset() =~= sorted.to_multiset().insert(t));
    }
}

/// The leaves are taken in ascending para-id order, over exactly the
/// touched paras, whatever order they were touched in.
pub proof fn lemma_sort_by_para(touched: Seq<Touched>)
    ensures
        para_ids_ascend(sort_by_para(touched)),
        sort_by_para(touched).to_multiset() == touched.to_multiset(),
        sort_by_para(touched).len() == touched.len(),
    decreases touched.len(),
{
    broadcast use vstd::seq_lib::group_to_multiset_ensures;

    if touched.len() > 0 {
        lemma_sort_by_para(touched.drop_last());
        lemma_insert_by_para(sort_by_para(touched.drop_last()), touched.last());
        assert(touched =~= touched.drop_last().push(touched.last()));
    }
}

/// No para appears twice along `s`.
pub open spec fn para_ids_distinct(s: Seq<Touched>) -> bool {
    forall|i: int, j: int| 0 <= i < j < s.len() ==> #[trigger] s[i].0.0 != #[trigger] s[j].0.0
}

/// Inserting by para id puts `t` at one position and keeps the rest in order.
proof fn lemma_insert_by_para_position(sorted: Seq<Touched>, t: Touched) -> (p: int)
    ensures
        0 <= p <= sorted.len(),
        insert_by_para(sorted, t) == sorted.insert(p, t),
    decreases sorted.len(),
{
    if sorted.len() == 0 {
        assert(seq![t] =~= sorted.insert(0, t));
        0
    } else if sorted.last().0.0 <= t.0.0 {
        assert(sorted.push(t) =~= sorted.insert(sorted.len() as int, t));
        sorted.len() as int
    } else {
        let init = sorted.drop_last();
        let p = lemma_insert_by_para_position(init, t);
        assert(init.insert(p, t).push(sorted.last()) =~= sorted.insert(p, t));
        p
    }
}

/// Sorting a list with no para twice gives a list with no para twice, of
/// entries of the list.
proof fn lemma_sort_distinct(a: Seq<Touched>)
    requires
        para_ids_distinct(a),
    ensures
        para_ids_distinct(sort_by_para(a)),
        forall|i: int| 0 <= i < sort_by_para(a).len() ==> a.contains(#[trigger] sort_by_para(a)[i]),
    decreases a.len(),
{
    if a.len() > 0 {
        let a0 = a.drop_last();
        let t = a.last();
        assert forall|i: int, j: int| 0 <= i < j < a0.len() implies #[trigger] a0[i].0.0
            != #[trigger] a0[j].0.0 by {
            assert(a0[i] == a[i] && a0[j] == a[j]);
        }
        lemma_sort_distinct(a0);
        let s0 = sort_by_para(a0);
        let p = lemma_insert_by_para_position(s0, t);
        let r = s0.insert(p, t);
        assert(sort_by_para(a) == r);
        assert forall|k: int| 0 <= k < s0.len() implies #[trigger] s0[k].0.0 != t.0.0 && a.contains(
            s0[k],
        ) by {
            assert(a0.contains(s0[k]));
            let m = choose|m: int| 0 <= m < a0.len() && a0[m] == s0[k];
            assert(a[m] == s0[k]);
            assert(a[m].0.0 != a[a.len() - 1].0.0);
        }
        assert forall|i: int, j: int| 0 <= i < j < r.len() implies #[trigger] r[i].0.0
            != #[trigger] r[j].0.0 by {
            if i < p && j < p {
                assert(r[i] == s0[i] && r[j] == s0[j]);
            } else if i < p && j == p {
                assert(r[i] == s0[i]);
            } else if i < p {
                assert(r[i] == s0[i] && r[j] == s0[j - 1]);
            } else if i == p {
                assert(r[j] == s0[j - 1]);
            } else {
                assert(r[i] == s0[i - 1] && r[j] == s0[j - 1]);
            }
        }
        assert forall|i: int| 0 <= i < r.len() implies a.contains(#[trigger] r[i]) by {
            if i < p {
                assert(r[i] == s0[i]);
            } else if i == p {
                assert(a[a.len() - 1] == t);
            } else {
                assert(r[i] == s0[i - 1]);
            }
        }
    }
}

/// Two para-ordered lists with the same entries, one with no para twice,
/// are the same list.
proof fn lemma_sorted_unique(x: Seq<Touched>, y: Seq<Touched>)
    requires
        para_ids_ascend(x),
        para_ids_ascend(y),
        para_ids_distinct(x),
        x.to_multiset() == y.to_multiset(),
    ensures
        x == y,
    decreases x.len(),
{
    broadcast use vstd::seq_lib::group_to_multiset_ensures;

    assert(x.to_multiset().len() == x.len());
    assert(y.to_multiset().len() == y.len());
    if x.len() == 0 {
        assert(x =~= y);
    } else {
        let n = x.len() - 1;
        let lx = x.last();
        let ly = y.last();
        assert(x.contains(lx));
        assert(y.to_multiset().count(lx) > 0);
        assert(y.contains(lx));
        let j = choose|j: int| 0 <= j < y.len() && y[j] == lx;
        assert(y[j].0.0 <= y[n].0.0);
        assert(y.contains(ly));
        assert(x.to_multiset().count(ly) > 0);
        assert(x.contains(ly));
        let k = choose|k: int| 0 <= k < x.len() && x[k] == ly;
        assert(x[k].0.0 <= x[n].0.0);
        if k < n {
            assert(x[k].0.0 != x[n].0.0);
        }
        assert(lx == ly);
        let x0 = x.drop_last();
        let y0 = y.drop_last();
        assert(x =~= x0.push(lx));
        assert(y =~= y0.push(lx));
        assert(x0.to_multiset().insert(lx) == y0.to_multiset().insert(lx));
        assert(x0.to_multiset() =~= y0.to_multiset()) by {
            assert forall|e: Touched| x0.to_multiset().count(e) == y0.to_multiset().count(e) by {
                assert(x0.to_multiset().insert(lx).count(e) == y0.to_multiset().insert(lx).count(e));
            }
        }
        assert forall|i: int, j2: int| 0 <= i < j2 < x0.len() implies #[trigger] x0[i].0.0
            <= #[trigger] x0[j2].0.0 by {
            assert(x0[i] == x[i] && x0[j2] == x[j2]);
        }
        assert forall|i: int, j2: int| 0 <= i < j2 < y0.len() implies #[trigger] y0[i].0.0
            <= #[trigger] y0[j2].0.0 by {
            assert(y0[i] == y[i] && y0[j2] == y[j2]);
        }
        assert forall|i: int, j2: int| 0 <= i < j2 < x0.len() implies #[trigger] x0[i].0.0
            != #[trigger] x0[j2].0.0 by {
            assert(x0[i] == x[i] && x0[j2] == x[j2]);
        }
        lemma_sorted_unique(x0, y0);
    }
}

/// The leaves do not depend on the order the paras were touched in: two
/// touch lists holding the same entries, no para twice, sort alike and so
/// give the same leaves.
pub proof fn lemma_touch_order_irrelevant(a: Seq<Touched>, b: Seq<Touched>)
    requires
        para_ids_distinct(a),
        a.to_multiset() == b.to_multiset(),
    ensures
        sort_by_para(a) == sort_by_para(b),
        leaves_in_order(sort_by_para(a)) == leaves_in_order(sort_by_para(b)),
{
    lemma_sort_by_para(a);
    lemma_sort_by_para(b);
    lemma_sort_distinct(a);
    lemma_sorted_unique(sort_by_para(a), sort_by_para(b));
}

/// A leaf's and a node's encodings differ in their first octet and in
/// their length, so a leaf hash is never a node hash over the same bytes.
pub proof fn lemma_element_encodings_disjoint(para_id: ParaId, head_hash: Hash32, l: Hash32, r: Hash32)
    ensures
        element_encoding(MerkleTree::Leaf { para_id, head_hash }).len() == 37,
        element_encoding(MerkleTree::Node(l, r)).len() == 65,
        element_encoding(MerkleTree::Leaf { para_id, head_hash })[0] == 1,
        element_encoding(MerkleTree::Node(l, r))[0] == 0,
{
    crate::state::lemma_le_bytes_len(para_id.0 as nat, 4);
}

fn insert_sorted(sorted: &mut Vec<Touched>, t: Touched)
    ensures
        final(sorted)@ == insert_by_para(old(sorted)@, t),
    decreases old(sorted)@.len(),
{
    let n = sorted.len();
    if n == 0 {
        sorted.push(t);
        proof {
            assert(sorted@ =~= seq![t]);
        }
        return;
    }
    if sorted[n - 1].0.0 <= t.0.0 {
        sorted.push(t);
        return;
    }
    let last = sorted.pop().unwrap();
    insert_sorted(sorted, t);
    sorted.push(last);
}

/// Leaves for the block: one per para whose head actually changed, ordered by
/// ascending `para_id` so every verifier builds the same tree. A para
/// touched but left on its original value contributes nothing, as does one
/// removed by `parachain_clean_up`; a newly registered para counts as changed.
pub fn changed_leaves(touched: Vec<Touched>) -> (leaves: Vec<Hash32>)
    ensures
        hash_views(leaves@) == leaves_in_order(sort_by_para(touched@)),
{
    let mut sorted: Vec<Touched> = Vec::new();
    let mut i: usize = 0;
    while i < touched.len()
        invariant
            i <= touched@.len(),
            sorted@ == sort_by_para(touched@.subrange(0, i as int)),
        decreases touched@.len() - i,
    {
        proof {
            assert(touched@.subrange(0, i + 1).drop_last() =~= touched@.subrange(0, i as int));
        }
        insert_sorted(&mut sorted, touched[i]);
        i = i + 1;
    }
    proof {
        assert(touched@.subrange(0, touched@.len() as int) =~= touched@);
    }
    let mut leaves: Vec<Hash32> = Vec::new();
    let mut k: usize = 0;
    while k < sorted.len()
        invariant
            k <= sorted@.len(),
            hash_views(leaves@) == leaves_in_order(sorted@.subrange(0, k as int)),
        decreases sorted@.len() - k,
    {
        let (para_id, prior, current) = sorted[k];
        let ghost before = leaves@;
        proof {
            assert(sorted@.subrange(0, k + 1).drop_last() =~= sorted@.subrange(0, k as int));
            assert(sorted@.subrange(0, k + 1).last() == sorted@[k as int]);
        }
        match current {
            Some((current_head, leaf_head)) => {
                let unchanged = match prior {
                    Some(p) => hash_eq(&p, &current_head),
                    None => false,
                };
                if !unchanged {
                    leaves.push(leaf_hash(para_id, leaf_head));
                    proof {
                        assert(hash_views(leaves@) =~= hash_views(before).push(
                            leaf_of(para_id, leaf_head@),
                        ));
                    }
                }
            },
            None => {},
        }
        k = k + 1;
    }
    proof {
        assert(sorted@.subrange(0, sorted@.len() as int) =~= sorted@);
    }
    leaves
}

/// Tracks the parachains whose head this block may have moved, so the head
/// commitment can be taken as a diff against their pre-block values.
pub struct HeadTracker {
    /// Pre-block head hash per touched para; `None` when it did not yet exist.
    prior: Vec<(ParaId, Option<Hash32>)>,
}

/// The para ids a tracker has seen, in touch order.
pub open spec fn touched_ids(prior: Seq<(ParaId, Option<Hash32>)>) -> Seq<ParaId> {
    prior.map_values(|p: (ParaId, Option<Hash32>)| p.0)
}

/// `after` is `before` once `para_id` has been touched with pre-block head
/// `head`: unchanged if it was already snapshotted, else one snapshot more
/// carrying the head's hash.
pub open spec fn touched_from(
    before: Seq<(ParaId, Option<Hash32>)>,
    after: Seq<(ParaId, Option<Hash32>)>,
    para_id: ParaId,
    head: Option<Seq<u8>>,
) -> bool {
    &&& (exists|i: int| 0 <= i < before.len() && #[trigger] before[i].0 == para_id) ==> after
        == before
    &&& !(exists|i: int| 0 <= i < before.len() && #[trigger] before[i].0 == para_id) ==> {
        &&& after.len() == before.len() + 1
        &&& after.drop_last() == before
        &&& after.last().0 == para_id
        &&& match head {
            Some(h) => after.last().1 matches Some(x) && x@ == blake2b_256(h),
            None => after.last().1 is None,
        }
    }
}

impl HeadTracker {
    /// The pre-block snapshots taken so far, in touch order.
    pub closed spec fn snapshots(&self) -> Seq<(ParaId, Option<Hash32>)> {
        self.prior@
    }

    /// A tracker that has seen nothing.
    pub fn new() -> (t: Self)
        ensures
            t.snapshots() == Seq::<(ParaId, Option<Hash32>)>::empty(),
    {
        HeadTracker { prior: Vec::new() }
    }

    /// Snapshot `para_id`'s pre-block head (`head` is its stored head data, if
    /// the para exists), before its first mutation this block. Later touches
    /// are no-ops, so a head written repeatedly still yields a single leaf
    /// carrying the value the block ended with.
    pub fn touch(&mut self, para_id: ParaId, head: Option<&[u8]>)
        ensures
            touched_from(
                old(self).snapshots(),
                final(self).snapshots(),
                para_id,
                match head {
                    Some(h) => Some(h@),
                    None => None,
                },
            ),
    {
        let mut i: usize = 0;
        while i < self.prior.len()
            invariant
                i <= self.prior@.len(),
                forall|j: int| 0 <= j < i ==> #[trigger] self.prior@[j].0 != para_id,
            decreases self.prior@.len() - i,
        {
            if self.prior[i].0.0 == para_id.0 {
                return;
            }
            i = i + 1;
        }
        let snapshot = match head {
            Some(h) => Some(blake2_256(h)),
            None => None,
        };
        let ghost before = self.prior@;
        self.prior.push((para_id, snapshot));
        proof {
            assert(self.prior@.drop_last() =~= before);
        }
    }

    /// The touched para ids, in touch order: the paras whose current head the
    /// commitment needs.
    pub fn touched(&self) -> (ids: Vec<ParaId>)
        ensures
            ids@ == touched_ids(self.snapshots()),
    {
        let mut ids: Vec<ParaId> = Vec::new();
        let mut i: usize = 0;
        while i < self.prior.len()
            invariant
                i <= self.prior@.len(),
                ids@ == touched_ids(self.prior@.subrange(0, i as int)),
            decreases self.prior@.len() - i,
        {
            ids.push(self.prior[i].0);
            i = i + 1;
            proof {
                assert(ids@ =~= touched_ids(self.prior@.subrange(0, i as int)));
            }
        }
        proof {
            assert(self.prior@.subrange(0, self.prior@.len() as int) =~= self.prior@);
        }
        ids
    }

    /// The block's head commitment, given the end-of-block head data of
    /// each touched para in touch order (`None` for a para no longer
    /// registered): the Merkle root over the heads that actually changed, or
    /// `None` when none did.
    pub fn commitment(self, current: &Vec<Option<Vec<u8>>>) -> (r: Option<Hash32>)
        requires
            current@.len() == self.snapshots().len(),
        ensures
            match r {
                Some(h) => root_of(leaves_in_order(sort_by_para(touched_view(self.snapshots(), current@))))
                    == Some(h@),
                None => root_of(leaves_in_order(sort_by_para(touched_view(self.snapshots(), current@))))
                    is None,
            },
    {
        let mut touched: Vec<Touched> = Vec::new();
        let mut i: usize = 0;
        while i < self.prior.len()
            invariant
                i <= self.prior@.len(),
                current@.len() == self.prior@.len(),
                touched_matches(touched@, self.prior@, current@, i as int),
            decreases self.prior@.len() - i,
        {
            let (para_id, prior) = self.prior[i];
            let now = match &current[i] {
                Some(h) => Some((blake2_256(h.as_slice()), keccak_256(h.as_slice()))),
                None => None,
            };
            touched.push((para_id, prior, now));
            i = i + 1;
        }
        let ghost tv = touched@;
        proof {
            lemma_touched_view_unique(tv, self.prior@, current@);
        }
        merkle_root(changed_leaves(touched))
    }
}

/// `t` agrees with the snapshots and the end-of-block heads on its first `n`
/// entries and has exactly `n` entries.
pub open spec fn touched_matches(
    t: Seq<Touched>,
    prior: Seq<(ParaId, Option<Hash32>)>,
    current: Seq<Option<Vec<u8>>>,
    n: int,
) -> bool {
    &&& t.len() == n
    &&& forall|j: int|
        0 <= j < n ==> {
            &&& (#[trigger] t[j]).0 == prior[j].0
            &&& t[j].1 == prior[j].1
            &&& match current[j] {
                Some(h) => t[j].2 matches Some((a, b)) && a@ == blake2b_256(h@) && b@
                    == keccak_256_of(h@),
                None => t[j].2 is None,
            }
        }
}

/// The leaf a touched para contributes, read from its snapshot and its
/// end-of-block head.
pub open spec fn touched_leaf(
    snapshot: (ParaId, Option<Hash32>),
    current: Option<Vec<u8>>,
) -> Option<Seq<u8>> {
    match current {
        Some(h) => if snapshot.1 is Some && snapshot.1.unwrap()@ == blake2b_256(h@) {
            None
        } else {
            Some(leaf_of(snapshot.0, keccak_256_of(h@)))
        },
        None => None,
    }
}

/// The touched triples a tracker's snapshots and the end-of-block heads
/// determine (any triples agreeing with them, which all give the same leaves).
pub open spec fn touched_view(
    prior: Seq<(ParaId, Option<Hash32>)>,
    current: Seq<Option<Vec<u8>>>,
) -> Seq<Touched> {
    choose|t: Seq<Touched>| touched_matches(t, prior, current, prior.len() as int)
}

proof fn lemma_touched_view_unique(
    t: Seq<Touched>,
    prior: Seq<(ParaId, Option<Hash32>)>,
    current: Seq<Option<Vec<u8>>>,
)
    requires
        current.len() == prior.len(),
        touched_matches(t, prior, current, prior.len() as int),
    ensures
        leaves_in_order(sort_by_para(t)) == leaves_in_order(sort_by_para(touched_view(prior, current))),
{
    let u = touched_view(prior, current);
    assert(touched_matches(u, prior, current, prior.len() as int));
    assert forall|j: int| 0 <= j < t.len() implies t[j] == u[j] by {
        match current[j] {
            Some(h) => {
                let (a, b) = t[j].2.unwrap();
                let (c, d) = u[j].2.unwrap();
                assert(a =~= c);
                assert(b =~= d);
            },
            None => {},
        }
    }
    assert(t =~= u);
}

} // verus!
