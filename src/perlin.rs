use crate::rtweekend::random_i32;
use crate::seqs::{
    is_permutation_of_range, lemma_same_values_as_range, lemma_swap_keeps_multiset, range_seq,
    swap_entries,
};
use vstd::arithmetic::div_mod::{lemma_add_mod_noop, lemma_mod_multiples_vanish, lemma_small_mod};
use vstd::prelude::*;

verus! {

/// Number of lattice gradients, and the period of the lattice hash.
pub const POINT_COUNT: usize = 256;

/// The three permutation tables that hash integer lattice points of Perlin
/// noise to one of `POINT_COUNT` gradient slots.
pub struct PerlinLattice {
    perm_x: Vec<i32>,
    perm_y: Vec<i32>,
    perm_z: Vec<i32>,
}

/// Position of lattice coordinate `c` within one period of the tables.
pub open spec fn lattice_slot(c: int) -> int {
    c % (POINT_COUNT as int)
}

/// Gradient slot of the lattice point `(a, b, c)` under tables `t`.
pub open spec fn lattice_hash(t: (Seq<i32>, Seq<i32>, Seq<i32>), a: int, b: int, c: int) -> int {
    (t.0[lattice_slot(a)] ^ t.1[lattice_slot(b)] ^ t.2[lattice_slot(c)]) as int
}

impl View for PerlinLattice {
    type V = (Seq<i32>, Seq<i32>, Seq<i32>);

    closed spec fn view(&self) -> Self::V {
        (self.perm_x@, self.perm_y@, self.perm_z@)
    }
}

impl PerlinLattice {
    #[verifier::type_invariant]
    spec fn inv(&self) -> bool {
        &&& is_permutation_of_range(self.perm_x@, POINT_COUNT as nat)
        &&& is_permutation_of_range(self.perm_y@, POINT_COUNT as nat)
        &&& is_permutation_of_range(self.perm_z@, POINT_COUNT as nat)
    }

    /// Shuffles the first `n` entries of `p` in place (Fisher-Yates), leaving
    /// the values themselves and the entries from `n` on untouched.
    fn permute(p: &mut Vec<i32>, n: i32)
        requires
            0 < n,
            n as int <= old(p)@.len(),
        ensures
            final(p)@.len() == old(p)@.len(),
            final(p)@.to_multiset() == old(p)@.to_multiset(),
            forall|k: int| n <= k < old(p)@.len() ==> final(p)@[k] == old(p)@[k],
    {
        let mut i: usize = (n - 1) as usize;
        while i > 0
            invariant
                i < n,
                n as int <= old(p)@.len(),
                p@.len() == old(p)@.len(),
                p@.to_multiset() == old(p)@.to_multiset(),
                forall|k: int| n <= k < old(p)@.len() ==> p@[k] == old(p)@[k],
            decreases i,
        {
            let target: usize = random_i32(0, i as i32) as usize;
            proof {
                lemma_swap_keeps_multiset(p@, i as int, target as int);
            }
            swap_entries(p, i, target);
            i -= 1;
        }
    }

    /// A uniformly shuffled table of `0, 1, ..., POINT_COUNT - 1`.
    fn perlin_generate_perm() -> (r: Vec<i32>)
        ensures
            is_permutation_of_range(r@, POINT_COUNT as nat),
    {
        let mut p: Vec<i32> = Vec::new();
        let mut i: usize = 0;
        while i < POINT_COUNT
            invariant
                i <= POINT_COUNT,
                p@ == range_seq(i as nat),
            decreases POINT_COUNT - i,
        {
            p.push(i as i32);
            i += 1;
            assert(p@ =~= range_seq(i as nat));
        }
        Self::permute(&mut p, POINT_COUNT as i32);
        proof {
            lemma_same_values_as_range(p@, POINT_COUNT as nat);
        }
        p
    }

    /// Position of `c + d` within one period of the tables, computed without
    /// overflow for every `c`.
    fn slot(c: i32, d: u32) -> (r: usize)
        requires
            d < 2,
        ensures
            r as int == lattice_slot(c + d),
            r < POINT_COUNT,
    {
        let w: u64 = (c as i64 + 0x8000_0000i64) as u64;
        let r: u64 = (w % 256 + d as u64) % 256;
        proof {
            lemma_small_mod(d as nat, 256);
            lemma_add_mod_noop(w as int, d as int, 256);
            assert(w + d == 256 * 0x80_0000 + (c + d));
            lemma_mod_multiples_vanish(0x80_0000, c + d, 256);
        }
        r as usize
    }

    /// Gradient slot of the lattice point `(i + di, j + dj, k + dk)`.
    pub fn corner(&self, i: i32, j: i32, k: i32, di: u32, dj: u32, dk: u32) -> (r: usize)
        requires
            di < 2,
            dj < 2,
            dk < 2,
        ensures
            r as int == lattice_hash(self@, i + di, j + dj, k + dk),
            r < POINT_COUNT,
    {
        proof {
            use_type_invariant(self);
        }
        let a: i32 = self.perm_x[Self::slot(i, di)];
        let b: i32 = self.perm_y[Self::slot(j, dj)];
        let c: i32 = self.perm_z[Self::slot(k, dk)];
        let h: i32 = a ^ b ^ c;
        assert(0 <= a < 256 && 0 <= b < 256 && 0 <= c < 256 ==> 0 <= a ^ b ^ c < 256)
            by (bit_vector);
        h as usize
    }

    /// Three independently shuffled tables.
    pub fn new() -> (r: Self)
        ensures
            is_permutation_of_range(r@.0, POINT_COUNT as nat),
            is_permutation_of_range(r@.1, POINT_COUNT as nat),
            is_permutation_of_range(r@.2, POINT_COUNT as nat),
    {
        PerlinLattice {
            perm_x: Self::perlin_generate_perm(),
            perm_y: Self::perlin_generate_perm(),
            perm_z: Self::perlin_generate_perm(),
        }
    }
}

} // verus!
