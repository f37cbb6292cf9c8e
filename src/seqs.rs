use vstd::prelude::*;

verus! {

/// `s` lists each of `0, 1, ..., n - 1` exactly once.
pub open spec fn is_permutation_of_range(s: Seq<i32>, n: nat) -> bool {
    &&& s.len() == n
    &&& forall|i: int| 0 <= i < n ==> 0 <= #[trigger] s[i] < n
    &&& forall|i: int, j: int| 0 <= i < j < n ==> s[i] != s[j]
}

/// The sequence with the entries at `i` and `j` exchanged.
pub open spec fn swapped<A>(s: Seq<A>, i: int, j: int) -> Seq<A> {
    s.update(i, s[j]).update(j, s[i])
}

/// Exchanging two entries keeps the multiset of values.
pub proof fn lemma_swap_keeps_multiset<A>(s: Seq<A>, i: int, j: int)
    requires
        0 <= i < s.len(),
        0 <= j < s.len(),
    ensures
        swapped(s, i, j).to_multiset() =~= s.to_multiset(),
        swapped(s, i, j).len() == s.len(),
{
    broadcast use vstd::seq_lib::to_multiset_update;
    broadcast use vstd::seq_lib::to_multiset_contains;
    broadcast use vstd::multiset::group_multiset_axioms;

    let m = s.to_multiset();
    let s1 = s.update(i, s[j]);
    assert(s.contains(s[i]));
    assert(s1[j] == s[j]);
    let m1 = m.insert(s[j]).remove(s[i]);
    assert(s1.to_multiset() == m1);
    assert(m1.insert(s[i]).remove(s[j]) =~= m);
}

/// Exchanging two entries in a vector.
pub fn swap_entries<A: Copy>(v: &mut Vec<A>, i: usize, j: usize)
    requires
        i < old(v)@.len(),
        j < old(v)@.len(),
    ensures
        final(v)@ == swapped(old(v)@, i as int, j as int),
{
    let a = v[i];
    let b = v[j];
    v.set(i, b);
    v.set(j, a);
}

} // verus!

verus! {

/// The sequence `0, 1, ..., n - 1`.
pub open spec fn range_seq(n: nat) -> Seq<i32> {
    Seq::new(n, |k: int| k as i32)
}

/// A sequence with the same multiset of values as `0, 1, ..., n - 1` lists
/// each of them exactly once.
pub proof fn lemma_same_values_as_range(s: Seq<i32>, n: nat)
    requires
        n <= i32::MAX,
        s.to_multiset() == range_seq(n).to_multiset(),
    ensures
        is_permutation_of_range(s, n),
{
    broadcast use vstd::seq_lib::to_multiset_contains;
    broadcast use vstd::seq_lib::to_multiset_len;
    broadcast use vstd::multiset::group_multiset_axioms;

    let r = range_seq(n);
    assert(s.len() == n) by {
        assert(s.len() == s.to_multiset().len());
        assert(r.len() == r.to_multiset().len());
    }
    assert forall|i: int| 0 <= i < n implies 0 <= #[trigger] s[i] < n by {
        assert(s.contains(s[i]));
        assert(s.to_multiset().count(s[i]) > 0);
        assert(r.to_multiset().count(s[i]) > 0);
        assert(r.contains(s[i]));
        let k = choose|k: int| 0 <= k < r.len() && r[k] == s[i];
        assert(s[i] == k as i32);
    }
    assert(r.no_duplicates());
    r.lemma_multiset_has_no_duplicates();
    s.lemma_multiset_has_no_duplicates_conv();
}

} // verus!
