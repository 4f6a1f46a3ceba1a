use vstd::prelude::*;
use vstd::seq_lib::*;
use rand::Rng;

verus! {

broadcast use {vstd::seq_lib::group_to_multiset_ensures, vstd::multiset::group_multiset_axioms};

/// Order keys of the lower corner of a surface's bounding box, one per axis.
/// Along each axis the keys are ordered as the corner's coordinates are.
#[derive(Clone, Copy, Debug, PartialEq, Eq)]
pub struct LowerCorner {
    pub x: u64,
    pub y: u64,
    pub z: u64,
}

impl LowerCorner {
    pub open spec fn axis(&self, axis: int) -> u64 {
        if axis == 0 {
            self.x
        } else if axis == 1 {
            self.y
        } else {
            self.z
        }
    }

    /// The key along axis 0, 1 or 2.
    pub fn get_axis(&self, axis: usize) -> (r: u64)
        requires
            axis < 3,
        ensures
            r == self.axis(axis as int),
    {
        if axis == 0 {
            self.x
        } else if axis == 1 {
            self.y
        } else {
            self.z
        }
    }
}

/// A surface as the builder sees it: its index in the scene's surface list
/// and the keys of its bounding box's lower corner.
#[derive(Clone, Copy, Debug, PartialEq, Eq)]
pub struct BvhItem {
    pub id: usize,
    pub corner: LowerCorner,
}

pub open spec fn key(item: BvhItem, axis: int) -> u64 {
    item.corner.axis(axis)
}

/// `s` is in ascending key order along `axis`.
pub open spec fn sorted_on(s: Seq<BvhItem>, axis: int) -> bool {
    forall|i: int, j: int| 0 <= i <= j < s.len() ==> key(s[i], axis) <= key(s[j], axis)
}

/// Every item of `a` has a key along `axis` no greater than any item of `b`.
pub open spec fn keys_ordered(a: Seq<BvhItem>, b: Seq<BvhItem>, axis: int) -> bool {
    forall|i: int, j: int|
        0 <= i < a.len() && 0 <= j < b.len() ==> key(a[i], axis) <= key(b[j], axis)
}

/// Sorts the items by their key along `axis`.
pub fn sort_on_axis(items: Vec<BvhItem>, axis: usize) -> (r: Vec<BvhItem>)
    requires
        axis < 3,
    ensures
        sorted_on(r@, axis as int),
        r@.to_multiset() == items@.to_multiset(),
{
    let mut out: Vec<BvhItem> = Vec::new();
    let mut i: usize = 0;
    while i < items.len()
        invariant
            i <= items.len(),
            axis < 3,
            sorted_on(out@, axis as int),
            out@.to_multiset() == items@.subrange(0, i as int).to_multiset(),
        decreases items.len() - i,
    {
        let item = items[i];
        let k = item.corner.get_axis(axis);
        let mut p: usize = 0;
        while p < out.len() && out[p].corner.get_axis(axis) <= k
            invariant
                p <= out.len(),
                axis < 3,
                forall|q: int| 0 <= q < p ==> key(#[trigger] out@[q], axis as int) <= k,
            decreases out.len() - p,
        {
            p = p + 1;
        }
        let ghost before = out@;
        out.insert(p, item);
        proof {
            assert forall|a: int, b: int| 0 <= a <= b < out@.len() implies key(out@[a], axis as int)
                <= key(out@[b], axis as int) by {
                if a < p && b > p {
                    assert(out@[b] == before[b - 1]);
                }
                if a == p && b > p {
                    assert(out@[b] == before[b - 1]);
                    assert(key(before[p as int], axis as int) > k);
                }
            }
            assert(items@.subrange(0, i + 1) =~= items@.subrange(0, i as int).push(item));
        }
        i = i + 1;
    }
    proof {
        assert(items@.subrange(0, items@.len() as int) =~= items@);
    }
    out
}

/// Relies on rand's `thread_rng().gen_range(0..3)`: a value drawn from 0, 1, 2.
#[verifier::external_body]
fn random_axis() -> (r: usize)
    ensures
        r < 3,
{
    rand::thread_rng().gen_range(0..3)
}

/// Why a hierarchy could not be built.
#[derive(Clone, Copy, Debug, PartialEq, Eq)]
pub enum BvhError {
    /// No surface was given.
    EmptyScene,
    /// A node was asked to hold neither or both of {two children, one surface}.
    InvalidNode,
}

/// A node of the bounding volume hierarchy: either a leaf holding one surface,
/// or an inner node holding two children. This is the tree's shape; the
/// bounding box of each node is a floating-point value that the caller keeps
/// beside it.
#[derive(Debug)]
pub struct BVHNode {
    pub left: Option<Box<BVHNode>>,
    pub right: Option<Box<BVHNode>>,
    pub obj: Option<BvhItem>,
}

/// The combinations of parts that make a node.
pub open spec fn valid_parts(
    left: Option<Box<BVHNode>>,
    right: Option<Box<BVHNode>>,
    obj: Option<BvhItem>,
) -> bool {
    ||| left is Some && right is Some && obj is None
    ||| left is None && right is None && obj is Some
}

impl BVHNode {
    pub open spec fn is_branch(&self) -> bool {
        self.left is Some && self.right is Some && self.obj is None
    }

    pub open spec fn is_leaf(&self) -> bool {
        self.left is None && self.right is None && self.obj is Some
    }

    /// Every node of the tree is a leaf or a branch.
    pub open spec fn wf(&self) -> bool
        decreases self,
    {
        if self.is_branch() {
            self.left->0.wf() && self.right->0.wf()
        } else {
            self.is_leaf()
        }
    }

    /// The surfaces of the tree, left to right.
    pub open spec fn leaves(&self) -> Seq<BvhItem>
        decreases self,
    {
        if self.is_branch() {
            self.left->0.leaves() + self.right->0.leaves()
        } else {
            match self.obj {
                Some(item) => seq![item],
                None => Seq::empty(),
            }
        }
    }

    /// Every branch gives its left child the lower half of its surfaces (rounded
    /// down), and along some axis no surface on the left has a greater key than
    /// one on the right.
    pub open spec fn median_split(&self) -> bool
        decreases self,
    {
        if self.is_branch() {
            &&& self.left->0.leaves().len() == self.leaves().len() / 2
            &&& exists|axis: int|
                0 <= axis < 3 && keys_ordered(
                    self.left->0.leaves(),
                    self.right->0.leaves(),
                    axis,
                )
            &&& self.left->0.median_split()
            &&& self.right->0.median_split()
        } else {
            true
        }
    }

    /// Makes a node from its parts, which must be two children and no surface,
    /// or one surface and no children.
    pub fn new(
        left: Option<Box<BVHNode>>,
        right: Option<Box<BVHNode>>,
        obj: Option<BvhItem>,
    ) -> (r: Result<BVHNode, BvhError>)
        ensures
            r is Ok <==> valid_parts(left, right, obj),
            r is Err ==> r->Err_0 == BvhError::InvalidNode,
            r matches Ok(n) ==> n.left == left && n.right == right && n.obj == obj,
    {
        let valid = match (&left, &right, &obj) {
            (Some(_), Some(_), None) => true,
            (None, None, Some(_)) => true,
            _ => false,
        };
        if valid {
            Ok(BVHNode { left, right, obj })
        } else {
            Err(BvhError::InvalidNode)
        }
    }

    /// Builds the hierarchy over `items`: each node sorts its surfaces along a
    /// randomly chosen axis and hands the lower half to its left child and the
    /// rest to its right child; a single surface becomes a leaf.
    pub fn new_from_vec(items: Vec<BvhItem>) -> (r: Result<BVHNode, BvhError>)
        ensures
            r is Err <==> items@.len() == 0,
            r is Err ==> r->Err_0 == BvhError::EmptyScene,
            r matches Ok(n) ==> {
                &&& n.wf()
                &&& n.leaves().to_multiset() == items@.to_multiset()
                &&& n.median_split()
            },
        decreases items@.len(),
    {
        if items.len() == 0 {
            return Err(BvhError::EmptyScene);
        }
        let axis = random_axis();
        let mut sorted = sort_on_axis(items, axis);
        let length = sorted.len();
        proof {
            assert(sorted@.to_multiset().len() == items@.to_multiset().len());
        }
        if length == 1 {
            let item = sorted[0];
            proof {
                assert(sorted@ =~= seq![item]);
            }
            return Ok(BVHNode { left: None, right: None, obj: Some(item) });
        }
        let ghost whole = sorted@;
        let right_items = sorted.split_off(length / 2);
        proof {
            assert(whole =~= sorted@ + right_items@);
            lemma_multiset_commutative(sorted@, right_items@);
            let pivot = key(whole[(length / 2) as int], axis as int);
            assert forall|i: int| 0 <= i < sorted@.len() implies key(
                #[trigger] sorted@[i],
                axis as int,
            ) <= pivot by {
                assert(sorted@[i] == whole[i]);
            }
            assert forall|j: int| 0 <= j < right_items@.len() implies pivot <= key(
                #[trigger] right_items@[j],
                axis as int,
            ) by {
                assert(right_items@[j] == whole[(length / 2) as int + j]);
            }
        }
        let left = Self::new_from_vec(sorted);
        let right = Self::new_from_vec(right_items);
        match (left, right) {
            (Ok(l), Ok(r)) => {
                let node = BVHNode { left: Some(Box::new(l)), right: Some(Box::new(r)), obj: None };
                proof {
                    let pivot = key(whole[(length / 2) as int], axis as int);
                    lemma_multiset_commutative(l.leaves(), r.leaves());
                    lemma_to_multiset_len(l.leaves());
                    lemma_to_multiset_len(sorted@);
                    lemma_keys_bounded_above(l.leaves(), sorted@, axis as int, pivot);
                    lemma_keys_bounded_below(r.leaves(), right_items@, axis as int, pivot);
                    assert(keys_ordered(l.leaves(), r.leaves(), axis as int));
                    assert(node.leaves() == l.leaves() + r.leaves());
                }
                Ok(node)
            },
            _ => Err(BvhError::EmptyScene),
        }
    }
}

proof fn lemma_to_multiset_len(s: Seq<BvhItem>)
    ensures
        s.to_multiset().len() == s.len(),
{
}

/// A bound on the keys of `b` holds of every permutation `a` of it.
proof fn lemma_keys_bounded_above(a: Seq<BvhItem>, b: Seq<BvhItem>, axis: int, bound: u64)
    requires
        a.to_multiset() == b.to_multiset(),
        forall|j: int| 0 <= j < b.len() ==> key(#[trigger] b[j], axis) <= bound,
    ensures
        forall|i: int| 0 <= i < a.len() ==> key(#[trigger] a[i], axis) <= bound,
{
    assert forall|i: int| 0 <= i < a.len() implies key(#[trigger] a[i], axis) <= bound by {
        assert(a.contains(a[i]));
        assert(a.to_multiset().count(a[i]) > 0);
        assert(b.contains(a[i]));
    }
}

proof fn lemma_keys_bounded_below(a: Seq<BvhItem>, b: Seq<BvhItem>, axis: int, bound: u64)
    requires
        a.to_multiset() == b.to_multiset(),
        forall|j: int| 0 <= j < b.len() ==> bound <= key(#[trigger] b[j], axis),
    ensures
        forall|i: int| 0 <= i < a.len() ==> bound <= key(#[trigger] a[i], axis),
{
    assert forall|i: int| 0 <= i < a.len() implies bound <= key(#[trigger] a[i], axis) by {
        assert(a.contains(a[i]));
        assert(a.to_multiset().count(a[i]) > 0);
        assert(b.contains(a[i]));
    }
}

} // verus!
