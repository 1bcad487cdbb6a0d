//! A binary trie over 128-bit keys ("critbit" trie). Every internal node
//! records the index of the first bit at which its two subtrees diverge,
//! counted from the most significant bit; keys with a zero at that bit sit in
//! the left subtree and keys with a one sit in the right. Lookup, insertion
//! and removal all walk one root-to-leaf path, so every operation takes at
//! most 128 steps.
use vstd::prelude::*;

use crate::ErrorCode;

verus! {

/// Bit `i` of `k`, counting from the most significant bit (`i == 0`) down to
/// the least significant (`i == 127`).
pub open spec fn bit(k: u128, i: int) -> bool {
    (k >> ((127 - i) as u128)) & 1 == 1
}

/// The two keys carry the same bits everywhere above position `n`.
pub open spec fn agree(a: u128, b: u128, n: int) -> bool {
    forall|i: int| 0 <= i < n ==> bit(a, i) == bit(b, i)
}

pub fn get_bit(k: u128, i: u32) -> (r: bool)
    requires
        i < 128,
    ensures
        r == bit(k, i as int),
{
    let sh: u128 = (127 - i) as u128;
    (k >> sh) & 1 == 1
}

/// Two keys that agree on every bit at or below the shift `j` of the top of
/// the word remain equal once both are shifted right by `j`.
proof fn lemma_highbits_eq(a: u128, b: u128, j: u128)
    requires
        j <= 127,
        forall|i: int| 0 <= i < 128 - j ==> bit(a, i) == bit(b, i),
    ensures
        a >> j == b >> j,
    decreases 127 - j,
{
    assert((a >> j) & 1 <= 1 && (b >> j) & 1 <= 1) by (bit_vector);
    assert(bit(a, 127 - j) == ((a >> j) & 1 == 1)) by {
        assert(((127 - (127 - (j as int))) as u128) == j);
    }
    assert(bit(b, 127 - j) == ((b >> j) & 1 == 1)) by {
        assert(((127 - (127 - (j as int))) as u128) == j);
    }
    assert(bit(a, 127 - j) == bit(b, 127 - j));
    assert((a >> j) & 1 == (b >> j) & 1);
    if j == 127 {
        assert(a >> 127u128 == (a >> 127u128) & 1) by (bit_vector);
        assert(b >> 127u128 == (b >> 127u128) & 1) by (bit_vector);
    } else {
        lemma_highbits_eq(a, b, (j + 1) as u128);
        assert(j <= 126 ==> a >> j == ((a >> (j + 1)) << 1) | ((a >> j) & 1)) by (bit_vector);
        assert(j <= 126 ==> b >> j == ((b >> (j + 1)) << 1) | ((b >> j) & 1)) by (bit_vector);
    }
}

/// Keys that agree on all 128 bit positions are the same key.
pub proof fn lemma_agree_full(a: u128, b: u128)
    requires
        agree(a, b, 128),
    ensures
        a == b,
{
    lemma_highbits_eq(a, b, 0);
    assert(a >> 0u128 == a) by (bit_vector);
    assert(b >> 0u128 == b) by (bit_vector);
}

/// The first position at or after `i` where the keys' bits differ
/// (128 when they agree everywhere from `i` on).
pub open spec fn first_diff_from(a: u128, b: u128, i: int) -> int
    decreases 128 - i,
{
    if i < 0 || i >= 128 {
        128
    } else if bit(a, i) != bit(b, i) {
        i
    } else {
        first_diff_from(a, b, i + 1)
    }
}

/// The most significant position at which the two keys differ.
pub open spec fn first_diff(a: u128, b: u128) -> int {
    first_diff_from(a, b, 0)
}

proof fn lemma_first_diff_from_props(a: u128, b: u128, i: int)
    requires
        0 <= i <= 128,
    ensures
        i <= first_diff_from(a, b, i) <= 128,
        forall|j: int| i <= j < first_diff_from(a, b, i) ==> bit(a, j) == bit(b, j),
        first_diff_from(a, b, i) < 128 ==> bit(a, first_diff_from(a, b, i)) != bit(
            b,
            first_diff_from(a, b, i),
        ),
    decreases 128 - i,
{
    if i < 128 {
        if bit(a, i) == bit(b, i) {
            lemma_first_diff_from_props(a, b, i + 1);
        }
    }
}

/// On distinct keys, `first_diff` names a real position: the keys agree on
/// everything above it and differ exactly there.
pub proof fn lemma_first_diff_props(a: u128, b: u128)
    requires
        a != b,
    ensures
        0 <= first_diff(a, b) < 128,
        bit(a, first_diff(a, b)) != bit(b, first_diff(a, b)),
        agree(a, b, first_diff(a, b)),
{
    lemma_first_diff_from_props(a, b, 0);
    if first_diff(a, b) == 128 {
        lemma_agree_full(a, b);
    }
}

proof fn lemma_first_diff_char(a: u128, b: u128, i: int, lo: int)
    requires
        0 <= lo <= i < 128,
        forall|j: int| lo <= j < i ==> bit(a, j) == bit(b, j),
        bit(a, i) != bit(b, i),
    ensures
        first_diff_from(a, b, lo) == i,
    decreases i - lo,
{
    if lo < i {
        lemma_first_diff_char(a, b, i, lo + 1);
    }
}

/// Finds the first position at which two distinct keys diverge.
pub fn find_crit_bit(a: u128, b: u128) -> (r: u32)
    requires
        a != b,
    ensures
        r < 128,
        r as int == first_diff(a, b),
        bit(a, r as int) != bit(b, r as int),
        agree(a, b, r as int),
{
    let mut i: u32 = 0;
    while i < 128
        invariant
            i <= 128,
            agree(a, b, i as int),
        decreases 128 - i,
    {
        if get_bit(a, i) != get_bit(b, i) {
            proof {
                lemma_first_diff_char(a, b, i as int, 0);
            }
            return i;
        }
        i = i + 1;
    }
    proof {
        lemma_agree_full(a, b);
    }
    unreached()
}

/// A stored leaf: the 128-bit key, the identity it was recorded for, and the
/// slot index of the grant record it binds to.
#[derive(Clone, Copy, Debug)]
pub struct LeafNode {
    pub key: u128,
    pub owner: [u8; 32],
    pub slot: u32,
}

impl LeafNode {
    pub fn new(key: u128, slot: u32, owner: &[u8; 32]) -> (r: LeafNode)
        ensures
            r.key == key,
            r.slot == slot,
            r.owner == *owner,
    {
        LeafNode { key, owner: *owner, slot }
    }

    pub fn owner(&self) -> (r: [u8; 32])
        ensures
            r == self.owner,
    {
        self.owner
    }

    pub fn slot(&self) -> (r: u32)
        ensures
            r == self.slot,
    {
        self.slot
    }
}

pub(crate) enum TreeNode {
    Leaf(LeafNode),
    /// `crit` is the split-bit position; `pivot` is a witness key recording
    /// the bit prefix every key below this node shares above `crit`.
    Inner { crit: u32, pivot: u128, left: Box<TreeNode>, right: Box<TreeNode> },
}

/// The partial map from keys to leaves that a subtree holds.
pub(crate) open spec fn tn_model(t: TreeNode) -> Map<u128, LeafNode>
    decreases t,
{
    match t {
        TreeNode::Leaf(l) => Map::empty().insert(l.key, l),
        TreeNode::Inner { left, right, .. } => tn_model(*left).union_prefer_right(
            tn_model(*right),
        ),
    }
}

/// The trie invariant: below an internal node, every key shares the pivot's
/// bits above the split position, left keys carry a zero at the split
/// position and right keys a one.
pub(crate) open spec fn tn_wf(t: TreeNode) -> bool
    decreases t,
{
    match t {
        TreeNode::Leaf(_) => true,
        TreeNode::Inner { crit, pivot, left, right } => {
            &&& crit < 128
            &&& tn_wf(*left)
            &&& tn_wf(*right)
            &&& forall|k: u128| #[trigger]
                tn_model(*left).dom().contains(k) ==> agree(k, pivot, crit as int) && !bit(
                    k,
                    crit as int,
                )
            &&& forall|k: u128| #[trigger]
                tn_model(*right).dom().contains(k) ==> agree(k, pivot, crit as int) && bit(
                    k,
                    crit as int,
                )
        },
    }
}

pub(crate) proof fn lemma_model_finite(t: TreeNode)
    ensures
        tn_model(t).dom().finite(),
        tn_model(t).dom().len() >= 1,
    decreases t,
{
    match t {
        TreeNode::Leaf(l) => {
            assert(tn_model(t).dom() =~= Set::empty().insert(l.key));
            broadcast use vstd::set::axiom_set_empty_len;

            vstd::set::axiom_set_insert_len(Set::<u128>::empty(), l.key);
        },
        TreeNode::Inner { left, right, .. } => {
            lemma_model_finite(*left);
            lemma_model_finite(*right);
            assert(tn_model(t).dom() =~= tn_model(*left).dom().union(tn_model(*right).dom()));
            vstd::set::axiom_set_union_finite(tn_model(*left).dom(), tn_model(*right).dom());
            vstd::set_lib::lemma_len_subset(tn_model(*left).dom(), tn_model(t).dom());
        },
    }
}

fn find_leaf(t: &TreeNode, key: u128) -> (r: Option<LeafNode>)
    requires
        tn_wf(*t),
    ensures
        match r {
            Some(l) => tn_model(*t).dom().contains(key) && l == tn_model(*t)[key],
            None => !tn_model(*t).dom().contains(key),
        },
    decreases *t,
{
    match t {
        TreeNode::Leaf(l) => {
            if l.key == key {
                Some(*l)
            } else {
                None
            }
        },
        TreeNode::Inner { crit, pivot, left, right } => {
            if get_bit(key, *crit) {
                let r = find_leaf(right, key);
                proof {
                    if tn_model(**left).dom().contains(key) {
                        assert(!bit(key, *crit as int));
                    }
                }
                r
            } else {
                let r = find_leaf(left, key);
                proof {
                    if tn_model(**right).dom().contains(key) {
                        assert(bit(key, *crit as int));
                    }
                }
                r
            }
        },
    }
}

/// The tree that results from splicing `leaf` into `t`. New keys descend
/// while they share the pivot's prefix above each split bit, and otherwise
/// force a new internal node at the first divergent position.
pub(crate) open spec fn spec_insert(t: TreeNode, leaf: LeafNode) -> TreeNode
    decreases t,
{
    match t {
        TreeNode::Leaf(l2) => {
            let d = first_diff(leaf.key, l2.key);
            if bit(leaf.key, d) {
                TreeNode::Inner {
                    crit: d as u32,
                    pivot: l2.key,
                    left: Box::new(TreeNode::Leaf(l2)),
                    right: Box::new(TreeNode::Leaf(leaf)),
                }
            } else {
                TreeNode::Inner {
                    crit: d as u32,
                    pivot: l2.key,
                    left: Box::new(TreeNode::Leaf(leaf)),
                    right: Box::new(TreeNode::Leaf(l2)),
                }
            }
        },
        TreeNode::Inner { crit, pivot, left, right } => {
            if leaf.key == pivot || first_diff(leaf.key, pivot) >= crit {
                if bit(leaf.key, crit as int) {
                    TreeNode::Inner { crit, pivot, left, right: Box::new(spec_insert(*right, leaf)) }
                } else {
                    TreeNode::Inner { crit, pivot, left: Box::new(spec_insert(*left, leaf)), right }
                }
            } else {
                let d = first_diff(leaf.key, pivot);
                if bit(leaf.key, d) {
                    TreeNode::Inner {
                        crit: d as u32,
                        pivot,
                        left: Box::new(TreeNode::Inner { crit, pivot, left, right }),
                        right: Box::new(TreeNode::Leaf(leaf)),
                    }
                } else {
                    TreeNode::Inner {
                        crit: d as u32,
                        pivot,
                        left: Box::new(TreeNode::Leaf(leaf)),
                        right: Box::new(TreeNode::Inner { crit, pivot, left, right }),
                    }
                }
            }
        },
    }
}

/// The tree that results from splicing the leaf holding `key` out of `t`;
/// `None` when the tree was that single leaf. The removed leaf's parent is
/// replaced by the leaf's sibling subtree.
pub(crate) open spec fn spec_remove(t: TreeNode, key: u128) -> Option<TreeNode>
    decreases t,
{
    match t {
        TreeNode::Leaf(_) => None,
        TreeNode::Inner { crit, pivot, left, right } => {
            if bit(key, crit as int) {
                match spec_remove(*right, key) {
                    None => Some(*left),
                    Some(r2) => Some(TreeNode::Inner { crit, pivot, left, right: Box::new(r2) }),
                }
            } else {
                match spec_remove(*left, key) {
                    None => Some(*right),
                    Some(l2) => Some(TreeNode::Inner { crit, pivot, left: Box::new(l2), right }),
                }
            }
        },
    }
}

/// Inserting a fresh key keeps the trie invariant and adds exactly that
/// binding to the subtree's map.
pub(crate) proof fn lemma_insert_props(t: TreeNode, leaf: LeafNode)
    requires
        tn_wf(t),
        !tn_model(t).dom().contains(leaf.key),
    ensures
        tn_wf(spec_insert(t, leaf)),
        tn_model(spec_insert(t, leaf)) =~= tn_model(t).insert(leaf.key, leaf),
    decreases t,
{
    match t {
        TreeNode::Leaf(l2) => {
            assert(tn_model(t).dom().contains(l2.key));
            lemma_first_diff_props(leaf.key, l2.key);
            let d = first_diff(leaf.key, l2.key);
            assert(leaf.key != l2.key);
            assert(0 <= d < 128);
            assert((d as u32) as int == d);
            assert(bit(leaf.key, d) != bit(l2.key, d));
            let nt = spec_insert(t, leaf);
            assert(tn_model(TreeNode::Leaf(l2)).dom() =~= Set::<u128>::empty().insert(l2.key));
            assert(tn_model(TreeNode::Leaf(leaf)).dom() =~= Set::<u128>::empty().insert(leaf.key));
            assert(agree(l2.key, l2.key, d));
            assert(agree(leaf.key, l2.key, d));
            assert(tn_wf(TreeNode::Leaf(l2)));
            assert(tn_wf(TreeNode::Leaf(leaf)));
            assert(tn_wf(nt));
            assert(tn_model(nt) =~= tn_model(t).insert(leaf.key, leaf));
        },
        TreeNode::Inner { crit, pivot, left, right } => {
            lemma_model_finite(*left);
            lemma_model_finite(*right);
            if leaf.key == pivot || first_diff(leaf.key, pivot) >= crit {
                if leaf.key != pivot {
                    lemma_first_diff_props(leaf.key, pivot);
                }
                assert(agree(leaf.key, pivot, crit as int));
                if bit(leaf.key, crit as int) {
                    assert(!tn_model(*right).dom().contains(leaf.key));
                    lemma_insert_props(*right, leaf);
                    let nr = spec_insert(*right, leaf);
                    assert forall|k: u128| #[trigger] tn_model(nr).dom().contains(k) implies agree(
                        k,
                        pivot,
                        crit as int,
                    ) && bit(k, crit as int) by {
                        if k != leaf.key {
                            assert(tn_model(*right).dom().contains(k));
                        }
                    }
                    assert(tn_wf(spec_insert(t, leaf)));
                    assert(tn_model(spec_insert(t, leaf)) =~= tn_model(t).insert(leaf.key, leaf));
                } else {
                    assert(!tn_model(*left).dom().contains(leaf.key));
                    lemma_insert_props(*left, leaf);
                    let nl = spec_insert(*left, leaf);
                    assert forall|k: u128| #[trigger] tn_model(nl).dom().contains(k) implies agree(
                        k,
                        pivot,
                        crit as int,
                    ) && !bit(k, crit as int) by {
                        if k != leaf.key {
                            assert(tn_model(*left).dom().contains(k));
                        }
                    }
                    assert(tn_wf(spec_insert(t, leaf)));
                    assert(tn_model(spec_insert(t, leaf)) =~= tn_model(t).insert(leaf.key, leaf));
                }
            } else {
                let d = first_diff(leaf.key, pivot);
                lemma_first_diff_props(leaf.key, pivot);
                assert((d as u32) as int == d);
                assert forall|k: u128| #[trigger] tn_model(t).dom().contains(k) implies agree(
                    k,
                    pivot,
                    d,
                ) && bit(k, d) == bit(pivot, d) by {
                    assert(tn_model(*left).dom().contains(k) || tn_model(*right).dom().contains(k));
                    assert(agree(k, pivot, crit as int));
                }
                assert(tn_wf(TreeNode::Leaf(leaf)));
                assert(tn_model(TreeNode::Leaf(leaf)).dom() =~= Set::<u128>::empty().insert(
                    leaf.key,
                ));
                assert(tn_model(TreeNode::Inner { crit, pivot, left, right }) == tn_model(t));
                assert(tn_wf(TreeNode::Inner { crit, pivot, left, right }));
                assert(agree(leaf.key, pivot, d));
                assert(tn_wf(spec_insert(t, leaf)));
                assert(tn_model(spec_insert(t, leaf)) =~= tn_model(t).insert(leaf.key, leaf));
            }
        },
    }
}

/// Removing a present key keeps the trie invariant and deletes exactly that
/// binding; the subtree collapses to nothing only when that key was its
/// whole contents.
pub(crate) proof fn lemma_remove_props(t: TreeNode, key: u128)
    requires
        tn_wf(t),
        tn_model(t).dom().contains(key),
    ensures
        match spec_remove(t, key) {
            None => tn_model(t).dom() =~= Set::empty().insert(key),
            Some(t2) => tn_wf(t2) && tn_model(t2) =~= tn_model(t).remove(key),
        },
    decreases t,
{
    match t {
        TreeNode::Leaf(l) => {
        },
        TreeNode::Inner { crit, pivot, left, right } => {
            if bit(key, crit as int) {
                assert(!tn_model(*left).dom().contains(key));
                assert(tn_model(*right).dom().contains(key));
                lemma_remove_props(*right, key);
                match spec_remove(*right, key) {
                    None => {
                        assert(tn_model(t).remove(key) =~= tn_model(*left));
                    },
                    Some(r2) => {
                    },
                }
            } else {
                assert(!tn_model(*right).dom().contains(key));
                assert(tn_model(*left).dom().contains(key));
                lemma_remove_props(*left, key);
                match spec_remove(*left, key) {
                    None => {
                        assert(tn_model(t).remove(key) =~= tn_model(*right));
                    },
                    Some(l2) => {
                    },
                }
            }
        },
    }
}

/// Splicing a fresh leaf in and then splicing the same key out returns the
/// identical tree, node for node.
pub(crate) proof fn lemma_remove_insert(t: TreeNode, leaf: LeafNode)
    requires
        tn_wf(t),
        !tn_model(t).dom().contains(leaf.key),
    ensures
        spec_remove(spec_insert(t, leaf), leaf.key) == Some(t),
    decreases t,
{
    match t {
        TreeNode::Leaf(l2) => {
            assert(tn_model(t).dom().contains(l2.key));
            lemma_first_diff_props(leaf.key, l2.key);
            let d = first_diff(leaf.key, l2.key);
            assert((d as u32) as int == d);
            assert(spec_remove(TreeNode::Leaf(leaf), leaf.key) is None);
            assert(spec_remove(spec_insert(t, leaf), leaf.key) == Some(t));
        },
        TreeNode::Inner { crit, pivot, left, right } => {
            if leaf.key == pivot || first_diff(leaf.key, pivot) >= crit {
                if bit(leaf.key, crit as int) {
                    assert(!tn_model(*right).dom().contains(leaf.key));
                    lemma_remove_insert(*right, leaf);
                    assert(spec_remove(spec_insert(*right, leaf), leaf.key) == Some(*right));
                    assert(spec_remove(spec_insert(t, leaf), leaf.key) == Some(t));
                } else {
                    assert(!tn_model(*left).dom().contains(leaf.key));
                    lemma_remove_insert(*left, leaf);
                    assert(spec_remove(spec_insert(*left, leaf), leaf.key) == Some(*left));
                    assert(spec_remove(spec_insert(t, leaf), leaf.key) == Some(t));
                }
            } else {
                let d = first_diff(leaf.key, pivot);
                lemma_first_diff_props(leaf.key, pivot);
                assert((d as u32) as int == d);
                assert(spec_remove(TreeNode::Leaf(leaf), leaf.key) is None);
                assert(spec_remove(spec_insert(t, leaf), leaf.key) == Some(t));
            }
        },
    }
}

fn insert_node(t: Box<TreeNode>, leaf: LeafNode) -> (r: Box<TreeNode>)
    requires
        tn_wf(*t),
        !tn_model(*t).dom().contains(leaf.key),
    ensures
        *r == spec_insert(*t, leaf),
    decreases *t,
{
    match *t {
        TreeNode::Leaf(l2) => {
            proof {
                assert(tn_model(TreeNode::Leaf(l2)).dom().contains(l2.key));
            }
            let d = find_crit_bit(leaf.key, l2.key);
            if get_bit(leaf.key, d) {
                Box::new(
                    TreeNode::Inner {
                        crit: d,
                        pivot: l2.key,
                        left: Box::new(TreeNode::Leaf(l2)),
                        right: Box::new(TreeNode::Leaf(leaf)),
                    },
                )
            } else {
                Box::new(
                    TreeNode::Inner {
                        crit: d,
                        pivot: l2.key,
                        left: Box::new(TreeNode::Leaf(leaf)),
                        right: Box::new(TreeNode::Leaf(l2)),
                    },
                )
            }
        },
        TreeNode::Inner { crit, pivot, left, right } => {
            let descend: bool = if leaf.key == pivot {
                true
            } else {
                find_crit_bit(leaf.key, pivot) >= crit
            };
            if descend {
                if get_bit(leaf.key, crit) {
                    proof {
                        assert(!tn_model(*right).dom().contains(leaf.key));
                    }
                    let nr = insert_node(right, leaf);
                    Box::new(TreeNode::Inner { crit, pivot, left, right: nr })
                } else {
                    proof {
                        assert(!tn_model(*left).dom().contains(leaf.key));
                    }
                    let nl = insert_node(left, leaf);
                    Box::new(TreeNode::Inner { crit, pivot, left: nl, right })
                }
            } else {
                let d = find_crit_bit(leaf.key, pivot);
                let old_node = Box::new(TreeNode::Inner { crit, pivot, left, right });
                if get_bit(leaf.key, d) {
                    Box::new(
                        TreeNode::Inner {
                            crit: d,
                            pivot,
                            left: old_node,
                            right: Box::new(TreeNode::Leaf(leaf)),
                        },
                    )
                } else {
                    Box::new(
                        TreeNode::Inner {
                            crit: d,
                            pivot,
                            left: Box::new(TreeNode::Leaf(leaf)),
                            right: old_node,
                        },
                    )
                }
            }
        },
    }
}

fn remove_node(t: Box<TreeNode>, key: u128) -> (r: Option<Box<TreeNode>>)
    requires
        tn_wf(*t),
        tn_model(*t).dom().contains(key),
    ensures
        match r {
            None => spec_remove(*t, key) is None,
            Some(b) => spec_remove(*t, key) == Some(*b),
        },
    decreases *t,
{
    match *t {
        TreeNode::Leaf(_) => None,
        TreeNode::Inner { crit, pivot, left, right } => {
            if get_bit(key, crit) {
                proof {
                    assert(!tn_model(*left).dom().contains(key));
                    assert(tn_model(*right).dom().contains(key));
                }
                match remove_node(right, key) {
                    None => Some(left),
                    Some(r2) => Some(Box::new(TreeNode::Inner { crit, pivot, left, right: r2 })),
                }
            } else {
                proof {
                    assert(!tn_model(*right).dom().contains(key));
                    assert(tn_model(*left).dom().contains(key));
                }
                match remove_node(left, key) {
                    None => Some(right),
                    Some(l2) => Some(Box::new(TreeNode::Inner { crit, pivot, left: l2, right })),
                }
            }
        },
    }
}

/// A bounded critbit index from 128-bit keys to leaves. The capacity is
/// fixed at construction; a full index refuses further distinct keys.
pub struct CritMap {
    root: Option<Box<TreeNode>>,
    count: u32,
    capacity: u32,
}

impl View for CritMap {
    type V = Map<u128, LeafNode>;

    closed spec fn view(&self) -> Map<u128, LeafNode> {
        match self.root {
            None => Map::empty(),
            Some(r) => tn_model(*r),
        }
    }
}

impl CritMap {
    /// The structure is a valid critbit trie and the stored count equals the
    /// number of keys held.
    pub closed spec fn wf(self) -> bool {
        &&& match self.root {
            None => self.count == 0,
            Some(r) => tn_wf(*r) && self.count == tn_model(*r).dom().len(),
        }
        &&& self.count <= self.capacity
    }

    pub closed spec fn cap(self) -> u32 {
        self.capacity
    }

    pub closed spec fn spec_count(self) -> u32 {
        self.count
    }

    pub proof fn lemma_wf_facts(self)
        requires
            self.wf(),
        ensures
            self@.dom().finite(),
            self@.dom().len() == self.spec_count(),
            self.spec_count() <= self.cap(),
    {
        match self.root {
            None => {
                broadcast use vstd::set::axiom_set_empty_len;

                assert(self@.dom() =~= Set::empty());
            },
            Some(r) => {
                lemma_model_finite(*r);
            },
        }
    }

    pub fn new(capacity: u32) -> (m: CritMap)
        ensures
            m.wf(),
            m@ == Map::<u128, LeafNode>::empty(),
            m.cap() == capacity,
            m.spec_count() == 0,
    {
        CritMap { root: None, count: 0, capacity }
    }

    /// Number of keys currently held.
    pub fn count(&self) -> (r: u32)
        requires
            self.wf(),
        ensures
            r == self.spec_count(),
            r == self@.dom().len(),
    {
        proof {
            self.lemma_wf_facts();
        }
        self.count
    }

    /// Capacity fixed at construction.
    pub fn capacity(&self) -> (r: u32)
        requires
            self.wf(),
        ensures
            r == self.cap(),
    {
        self.capacity
    }

    /// Deterministic bitwise descent from the root; the leaf stored for
    /// `key`, or `None` when the key is absent.
    pub fn get_key(&self, key: u128) -> (r: Option<LeafNode>)
        requires
            self.wf(),
        ensures
            match r {
                Some(l) => self@.dom().contains(key) && l == self@[key],
                None => !self@.dom().contains(key),
            },
    {
        match &self.root {
            None => None,
            Some(r) => find_leaf(r, key),
        }
    }
}

/// The index that results from adding a fresh leaf to `m`.
pub closed spec fn cm_insert(m: CritMap, leaf: LeafNode) -> CritMap {
    match m.root {
        None => CritMap {
            root: Some(Box::new(TreeNode::Leaf(leaf))),
            count: (m.count + 1) as u32,
            capacity: m.capacity,
        },
        Some(r) => CritMap {
            root: Some(Box::new(spec_insert(*r, leaf))),
            count: (m.count + 1) as u32,
            capacity: m.capacity,
        },
    }
}

/// The index that results from deleting a present key from `m`.
pub closed spec fn cm_remove(m: CritMap, key: u128) -> CritMap {
    match m.root {
        None => m,
        Some(r) => match spec_remove(*r, key) {
            None => CritMap { root: None, count: (m.count - 1) as u32, capacity: m.capacity },
            Some(t2) => CritMap {
                root: Some(Box::new(t2)),
                count: (m.count - 1) as u32,
                capacity: m.capacity,
            },
        },
    }
}

impl CritMap {
    /// Splices a new leaf into the trie at its key's divergence point.
    /// Capacity is enforced here: a full index refuses a fresh key with
    /// `OutOfSpace`. Callers are expected to look the key up first; a key
    /// already present is refused as `InternalError` and nothing changes.
    pub fn insert_leaf(&mut self, leaf: &LeafNode) -> (r: Result<(), ErrorCode>)
        requires
            old(self).wf(),
        ensures
            old(self)@.dom().contains(leaf.key) ==> r == Err::<(), ErrorCode>(
                ErrorCode::InternalError,
            ) && *final(self) == *old(self),
            !old(self)@.dom().contains(leaf.key) && old(self).spec_count() == old(self).cap()
                ==> r == Err::<(), ErrorCode>(ErrorCode::OutOfSpace) && *final(self) == *old(self),
            !old(self)@.dom().contains(leaf.key) && old(self).spec_count() < old(self).cap() ==> {
                &&& r == Ok::<(), ErrorCode>(())
                &&& *final(self) == cm_insert(*old(self), *leaf)
                &&& final(self).wf()
                &&& final(self)@ == old(self)@.insert(leaf.key, *leaf)
                &&& final(self).spec_count() == old(self).spec_count() + 1
                &&& final(self).cap() == old(self).cap()
            },
    {
        proof {
            self.lemma_wf_facts();
        }
        if self.get_key(leaf.key).is_some() {
            return Err(ErrorCode::InternalError);
        }
        if self.count == self.capacity {
            return Err(ErrorCode::OutOfSpace);
        }
        match self.root.take() {
            None => {
                self.root = Some(Box::new(TreeNode::Leaf(*leaf)));
                self.count = self.count + 1;
                proof {
                    assert(tn_model(TreeNode::Leaf(*leaf)) =~= old(self)@.insert(
                        leaf.key,
                        *leaf,
                    ));
                    assert(tn_model(TreeNode::Leaf(*leaf)).dom() =~= Set::<u128>::empty().insert(
                        leaf.key,
                    ));
                    vstd::set::axiom_set_insert_len(Set::<u128>::empty(), leaf.key);
                    broadcast use vstd::set::axiom_set_empty_len;

                }
            },
            Some(b) => {
                proof {
                    lemma_insert_props(*b, *leaf);
                    lemma_model_finite(*b);
                    vstd::set::axiom_set_insert_len(tn_model(*b).dom(), leaf.key);
                }
                let nb = insert_node(b, *leaf);
                self.root = Some(nb);
                self.count = self.count + 1;
                proof {
                    assert(tn_model(*nb).dom() =~= tn_model(*b).dom().insert(leaf.key));
                }
            },
        }
        Ok(())
    }

    /// Locates the leaf for `key`, splices it out, and promotes its sibling
    /// subtree into the removed pair's place; `NotFound` when the key is
    /// absent, in which case nothing changes.
    pub fn remove_by_key(&mut self, key: u128) -> (r: Result<LeafNode, ErrorCode>)
        requires
            old(self).wf(),
        ensures
            !old(self)@.dom().contains(key) ==> r == Err::<LeafNode, ErrorCode>(
                ErrorCode::NotFound,
            ) && *final(self) == *old(self),
            old(self)@.dom().contains(key) ==> {
                &&& r == Ok::<LeafNode, ErrorCode>(old(self)@[key])
                &&& *final(self) == cm_remove(*old(self), key)
                &&& final(self).wf()
                &&& final(self)@ == old(self)@.remove(key)
                &&& final(self).spec_count() == old(self).spec_count() - 1
                &&& final(self).cap() == old(self).cap()
            },
    {
        proof {
            self.lemma_wf_facts();
        }
        let found = match self.get_key(key) {
            None => {
                return Err(ErrorCode::NotFound);
            },
            Some(l) => l,
        };
        match self.root.take() {
            None => {
                proof {
                    assert(false);
                }
                Err(ErrorCode::NotFound)
            },
            Some(b) => {
                proof {
                    lemma_remove_props(*b, key);
                    lemma_model_finite(*b);
                    vstd::set::axiom_set_remove_len(tn_model(*b).dom(), key);
                }
                match remove_node(b, key) {
                    None => {
                        self.root = None;
                        self.count = self.count - 1;
                        proof {
                            assert(tn_model(*b).remove(key) =~= Map::<u128, LeafNode>::empty());
                            broadcast use vstd::set::axiom_set_empty_len;

                            assert(Map::<u128, LeafNode>::empty().dom() =~= Set::empty());
                        }
                        Ok(found)
                    },
                    Some(nb) => {
                        self.root = Some(nb);
                        self.count = self.count - 1;
                        proof {
                            assert(tn_model(*nb).dom() =~= tn_model(*b).dom().remove(key));
                        }
                        Ok(found)
                    },
                }
            },
        }
    }
}

/// A fresh insert below capacity gives a well-formed index holding exactly
/// the old bindings plus the new leaf.
pub proof fn lemma_cm_insert_props(m: CritMap, leaf: LeafNode)
    requires
        m.wf(),
        !m@.dom().contains(leaf.key),
        m.spec_count() < m.cap(),
    ensures
        cm_insert(m, leaf).wf(),
        cm_insert(m, leaf)@ == m@.insert(leaf.key, leaf),
        cm_insert(m, leaf).spec_count() == m.spec_count() + 1,
        cm_insert(m, leaf).cap() == m.cap(),
{
    m.lemma_wf_facts();
    match m.root {
        None => {
            broadcast use vstd::set::axiom_set_empty_len;

            vstd::set::axiom_set_insert_len(Set::<u128>::empty(), leaf.key);
            assert(tn_model(TreeNode::Leaf(leaf)).dom() =~= Set::<u128>::empty().insert(leaf.key));
            assert(cm_insert(m, leaf)@ =~= m@.insert(leaf.key, leaf));
        },
        Some(r) => {
            lemma_insert_props(*r, leaf);
            lemma_model_finite(*r);
            vstd::set::axiom_set_insert_len(tn_model(*r).dom(), leaf.key);
            assert(tn_model(spec_insert(*r, leaf)).dom() =~= tn_model(*r).dom().insert(leaf.key));
            assert(cm_insert(m, leaf)@ =~= m@.insert(leaf.key, leaf));
        },
    }
}

/// Removing a present key gives a well-formed index holding exactly the
/// old bindings less that key.
pub proof fn lemma_cm_remove_props(m: CritMap, key: u128)
    requires
        m.wf(),
        m@.dom().contains(key),
    ensures
        cm_remove(m, key).wf(),
        cm_remove(m, key)@ == m@.remove(key),
        cm_remove(m, key).spec_count() == m.spec_count() - 1,
        cm_remove(m, key).cap() == m.cap(),
{
    m.lemma_wf_facts();
    match m.root {
        None => {
            assert(false);
        },
        Some(r) => {
            lemma_remove_props(*r, key);
            lemma_model_finite(*r);
            vstd::set::axiom_set_remove_len(tn_model(*r).dom(), key);
            match spec_remove(*r, key) {
                None => {
                    broadcast use vstd::set::axiom_set_empty_len;

                    vstd::set::axiom_set_insert_len(Set::<u128>::empty(), key);
                    assert(tn_model(*r).dom() =~= Set::<u128>::empty().insert(key));
                    assert(cm_remove(m, key)@ =~= m@.remove(key));
                    assert(Map::<u128, LeafNode>::empty().dom() =~= Set::empty());
                },
                Some(t2) => {
                    assert(tn_model(t2).dom() =~= tn_model(*r).dom().remove(key));
                    assert(cm_remove(m, key)@ =~= m@.remove(key));
                },
            }
        },
    }
}

/// Inserting a fresh key and then removing it restores the index exactly:
/// the same trie, node for node, and the same count and capacity.
pub proof fn lemma_cm_insert_remove_restores(m: CritMap, leaf: LeafNode)
    requires
        m.wf(),
        !m@.dom().contains(leaf.key),
        m.spec_count() < m.cap(),
    ensures
        cm_remove(cm_insert(m, leaf), leaf.key) == m,
{
    match m.root {
        None => {
            assert(spec_remove(TreeNode::Leaf(leaf), leaf.key) is None);
            let mi = cm_insert(m, leaf);
            assert(mi.root == Some(Box::new(TreeNode::Leaf(leaf))));
            let mr = cm_remove(mi, leaf.key);
            assert(mr.root is None);
            assert(mr.count == m.count);
            assert(mr.capacity == m.capacity);
            assert(mr == m);
        },
        Some(r) => {
            lemma_remove_insert(*r, leaf);
            let mi = cm_insert(m, leaf);
            let mr = cm_remove(mi, leaf.key);
            assert(mr.root == Some(Box::new(*r)));
            assert(mr.count == m.count);
            assert(mr == m);
        },
    }
}

} // verus!
