use crate::rtweekend::random_i32;
use crate::seqs::{lemma_swap_keeps_multiset, swap_entries};
use vstd::prelude::*;

verus! {

/// Sort key of a geometry node: the order of the minimum corner of its bound
/// along x, y and z, each given as an integer that orders as the coordinates do.
pub type BoundKey = (u64, u64, u64);

/// Component `axis` (0 for x, 1 for y, 2 for z) of a key.
pub open spec fn axis_key(k: BoundKey, axis: int) -> int {
    if axis == 0 {
        k.0 as int
    } else if axis == 1 {
        k.1 as int
    } else {
        k.2 as int
    }
}

/// Key along `axis` of the node listed at position `p` of `s`.
pub open spec fn key_at(keys: Seq<BoundKey>, s: Seq<usize>, p: int, axis: int) -> int {
    axis_key(keys[s[p] as int], axis)
}

/// Every index of `s` names a key.
pub open spec fn indexes_keys(s: Seq<usize>, keys: Seq<BoundKey>) -> bool {
    forall|p: int| 0 <= p < s.len() ==> #[trigger] s[p] < keys.len()
}

/// The first `n` entries of `s` are in ascending key order along `axis`.
pub open spec fn sorted_prefix(s: Seq<usize>, keys: Seq<BoundKey>, axis: int, n: int) -> bool {
    forall|p: int, q: int| 0 <= p < q < n ==> key_at(keys, s, p, axis) <= key_at(keys, s, q, axis)
}

/// `s` lists nodes in ascending key order along `axis`.
pub open spec fn sorted_on(s: Seq<usize>, keys: Seq<BoundKey>, axis: int) -> bool {
    sorted_prefix(s, keys, axis, s.len() as int)
}

/// No node of `a` has a larger key along `axis` than a node of `b`.
pub open spec fn keys_below(a: Seq<usize>, b: Seq<usize>, keys: Seq<BoundKey>, axis: int) -> bool {
    forall|p: int, q: int|
        0 <= p < a.len() && 0 <= q < b.len() ==> key_at(keys, a, p, axis) <= key_at(keys, b, q, axis)
}

/// Shape of a bounding-volume hierarchy over nodes named by index. Each inner
/// node records the axis along which its children were ordered.
pub enum BvhLayout {
    /// A lone node, which stands as both children of its parent.
    Single(usize),
    /// Two nodes, the one with the smaller key on the left.
    Pair { axis: usize, left: usize, right: usize },
    /// The lower half of the nodes on the left, the upper half on the right.
    Split { axis: usize, left: Box<BvhLayout>, right: Box<BvhLayout> },
}

impl BvhLayout {
    /// The nodes at the leaves, left to right.
    pub open spec fn leaves(self) -> Seq<usize>
        decreases self,
    {
        match self {
            BvhLayout::Single(i) => seq![i],
            BvhLayout::Pair { left, right, .. } => seq![left, right],
            BvhLayout::Split { left, right, .. } => left.leaves() + right.leaves(),
        }
    }

    /// Each inner node separates its children along its axis: all keys on the
    /// left are at most all keys on the right, and a split puts half of the
    /// nodes, rounded down, on the left.
    pub open spec fn is_partitioned(self, keys: Seq<BoundKey>) -> bool
        decreases self,
    {
        match self {
            BvhLayout::Single(i) => true,
            BvhLayout::Pair { axis, left, right } => {
                &&& axis < 3
                &&& axis_key(keys[left as int], axis as int) <= axis_key(keys[right as int], axis as int)
            },
            BvhLayout::Split { axis, left, right } => {
                &&& axis < 3
                &&& left.is_partitioned(keys)
                &&& right.is_partitioned(keys)
                &&& left.leaves().len() == (left.leaves().len() + right.leaves().len()) / 2
                &&& keys_below(left.leaves(), right.leaves(), keys, axis as int)
            },
        }
    }
}

/// The key of `k` along `axis`.
fn key_on(k: BoundKey, axis: usize) -> (r: u64)
    requires
        axis < 3,
    ensures
        r == axis_key(k, axis as int),
{
    if axis == 0 {
        k.0
    } else if axis == 1 {
        k.1
    } else {
        k.2
    }
}

/// Sorts `items` by key along `axis` (insertion sort), keeping its multiset.
fn sort_by_axis(items: &mut Vec<usize>, keys: &Vec<BoundKey>, axis: usize)
    requires
        axis < 3,
        indexes_keys(old(items)@, keys@),
    ensures
        final(items)@.to_multiset() == old(items)@.to_multiset(),
        final(items)@.len() == old(items)@.len(),
        indexes_keys(final(items)@, keys@),
        sorted_on(final(items)@, keys@, axis as int),
{
    let n = items.len();
    let mut i: usize = 1;
    if n == 0 {
        return;
    }
    while i < n
        invariant
            1 <= i <= n,
            n == items@.len(),
            axis < 3,
            items@.to_multiset() == old(items)@.to_multiset(),
            indexes_keys(items@, keys@),
            sorted_prefix(items@, keys@, axis as int, i as int),
        decreases n - i,
    {
        let mut j: usize = i;
        while j > 0 && key_on(keys[items[j - 1]], axis) > key_on(keys[items[j]], axis)
            invariant
                0 <= j <= i < n,
                n == items@.len(),
                axis < 3,
                items@.to_multiset() == old(items)@.to_multiset(),
                indexes_keys(items@, keys@),
                forall|p: int, q: int|
                    0 <= p < q <= i && p != j && q != j ==> key_at(keys@, items@, p, axis as int)
                        <= key_at(keys@, items@, q, axis as int),
                forall|q: int|
                    j < q <= i ==> key_at(keys@, items@, j as int, axis as int) <= key_at(
                        keys@,
                        items@,
                        q,
                        axis as int,
                    ),
            decreases j,
        {
            proof {
                lemma_swap_keeps_multiset(items@, j - 1, j as int);
            }
            let ghost s = items@;
            swap_entries(items, j - 1, j);
            proof {
                let t = items@;
                let ax = axis as int;
                assert forall|p: int, q: int|
                    0 <= p < q <= i && p != j - 1 && q != j - 1 implies key_at(keys@, t, p, ax)
                    <= key_at(keys@, t, q, ax) by {
                    if q == j {
                        assert(key_at(keys@, s, p, ax) <= key_at(keys@, s, j - 1, ax));
                    } else if p == j {
                        assert(key_at(keys@, s, j - 1, ax) <= key_at(keys@, s, q, ax));
                    } else {
                        assert(key_at(keys@, s, p, ax) <= key_at(keys@, s, q, ax));
                    }
                }
                assert forall|q: int| j - 1 < q <= i implies key_at(keys@, t, j - 1, ax) <= #[trigger] key_at(
                    keys@,
                    t,
                    q,
                    ax,
                ) by {
                    if q > j {
                        assert(key_at(keys@, s, j as int, ax) <= key_at(keys@, s, q, ax));
                    }
                }
            }
            j -= 1;
        }
        proof {
            let ax = axis as int;
            assert forall|p: int, q: int| 0 <= p < q <= i implies key_at(keys@, items@, p, ax)
                <= key_at(keys@, items@, q, ax) by {
                if q == j && p < j - 1 {
                    assert(key_at(keys@, items@, p, ax) <= key_at(keys@, items@, j - 1, ax));
                }
            }
        }
        i += 1;
    }
}

/// Ordering between two groups of nodes survives rearranging either group.
proof fn lemma_keys_below_rearranged(
    a: Seq<usize>,
    a2: Seq<usize>,
    b: Seq<usize>,
    b2: Seq<usize>,
    keys: Seq<BoundKey>,
    axis: int,
)
    requires
        keys_below(a, b, keys, axis),
        a2.to_multiset() == a.to_multiset(),
        b2.to_multiset() == b.to_multiset(),
    ensures
        keys_below(a2, b2, keys, axis),
{
    broadcast use vstd::seq_lib::to_multiset_contains;

    assert forall|p: int, q: int| 0 <= p < a2.len() && 0 <= q < b2.len() implies key_at(
        keys,
        a2,
        p,
        axis,
    ) <= key_at(keys, b2, q, axis) by {
        assert(a2.contains(a2[p]));
        assert(a2.to_multiset().count(a2[p]) > 0);
        assert(a.contains(a2[p]));
        let pp = choose|pp: int| 0 <= pp < a.len() && a[pp] == a2[p];
        assert(b2.contains(b2[q]));
        assert(b2.to_multiset().count(b2[q]) > 0);
        assert(b.contains(b2[q]));
        let qq = choose|qq: int| 0 <= qq < b.len() && b[qq] == b2[q];
        assert(key_at(keys, a, pp, axis) <= key_at(keys, b, qq, axis));
    }
}

impl BvhLayout {
    /// Builds the hierarchy over the nodes `items`: draws an axis at random,
    /// orders the nodes by their keys along it, and either stops (one or two
    /// nodes) or splits the ordered nodes at the midpoint and builds each half.
    pub fn build(items: Vec<usize>, keys: &Vec<BoundKey>) -> (r: BvhLayout)
        requires
            items@.len() >= 1,
            indexes_keys(items@, keys@),
        ensures
            r.leaves().to_multiset() == items@.to_multiset(),
            r.is_partitioned(keys@),
        decreases items@.len(),
    {
        broadcast use vstd::seq_lib::lemma_multiset_commutative;
        broadcast use vstd::seq_lib::to_multiset_len;

        let axis: usize = random_i32(0, 2) as usize;
        let n = items.len();
        if n == 1 {
            let r = BvhLayout::Single(items[0]);
            assert(r.leaves() =~= items@);
            r
        } else if n == 2 {
            let a = items[0];
            let b = items[1];
            assert(items@ =~= seq![a] + seq![b]);
            if key_on(keys[a], axis) < key_on(keys[b], axis) {
                let r = BvhLayout::Pair { axis, left: a, right: b };
                assert(r.leaves() =~= seq![a] + seq![b]);
                r
            } else {
                let r = BvhLayout::Pair { axis, left: b, right: a };
                assert(r.leaves() =~= seq![b] + seq![a]);
                r
            }
        } else {
            let mut lower = items;
            sort_by_axis(&mut lower, keys, axis);
            let ghost sorted = lower@;
            let mid: usize = n / 2;
            let upper = lower.split_off(mid);
            proof {
                assert(sorted =~= lower@ + upper@);
                assert(indexes_keys(lower@, keys@));
                assert(indexes_keys(upper@, keys@)) by {
                    assert forall|p: int| 0 <= p < upper@.len() implies #[trigger] upper@[p]
                        < keys@.len() by {
                        assert(upper@[p] == sorted[mid + p]);
                    }
                }
                assert(keys_below(lower@, upper@, keys@, axis as int)) by {
                    assert forall|p: int, q: int| 0 <= p < lower@.len() && 0 <= q < upper@.len() implies key_at(
                        keys@,
                        lower@,
                        p,
                        axis as int,
                    ) <= key_at(keys@, upper@, q, axis as int) by {
                        assert(lower@[p] == sorted[p]);
                        assert(upper@[q] == sorted[mid + q]);
                        assert(key_at(keys@, sorted, p, axis as int) <= key_at(
                            keys@,
                            sorted,
                            mid + q,
                            axis as int,
                        ));
                    }
                }
            }
            let ghost lo = lower@;
            let ghost hi = upper@;
            let left = Self::build(lower, keys);
            let right = Self::build(upper, keys);
            proof {
                lemma_keys_below_rearranged(
                    lo,
                    left.leaves(),
                    hi,
                    right.leaves(),
                    keys@,
                    axis as int,
                );
                assert(left.leaves().len() == lo.len()) by {
                    assert(left.leaves().to_multiset().len() == lo.to_multiset().len());
                }
                assert(right.leaves().len() == hi.len()) by {
                    assert(right.leaves().to_multiset().len() == hi.to_multiset().len());
                }
                assert((left.leaves() + right.leaves()).to_multiset() =~= (lo + hi).to_multiset());
            }
            BvhLayout::Split { axis, left: Box::new(left), right: Box::new(right) }
        }
    }
}

} // verus!
