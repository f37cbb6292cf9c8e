use raytracer::perlin::{PerlinLattice, POINT_COUNT};
use raytracer::rtweekend::random_i32;

#[test]
fn random_i32_stays_in_closed_range() {
    for _ in 0..2000 {
        let r = random_i32(-3, 4);
        assert!((-3..=4).contains(&r));
    }
}

#[test]
fn random_i32_single_value_range() {
    for _ in 0..50 {
        assert_eq!(random_i32(7, 7), 7);
    }
}

#[test]
fn random_i32_reaches_both_ends() {
    let mut seen = [false; 3];
    for _ in 0..3000 {
        seen[random_i32(0, 2) as usize] = true;
    }
    assert!(seen.iter().all(|s| *s));
}

#[test]
fn random_i32_full_range_does_not_panic() {
    for _ in 0..100 {
        let _ = random_i32(i32::MIN, i32::MAX);
    }
}

#[test]
fn lattice_corner_is_a_gradient_slot() {
    let lattice = PerlinLattice::new();
    for i in -300..300 {
        for d in 0..2u32 {
            assert!(lattice.corner(i, 2 * i, -i, d, 1 - d, d) < POINT_COUNT);
        }
    }
}

#[test]
fn lattice_rows_are_permutations() {
    // With y and z fixed the hash is one table xor a constant, so the 256
    // slots of one period along x are all different.
    let lattice = PerlinLattice::new();
    let mut seen = vec![false; POINT_COUNT];
    for i in 0..POINT_COUNT as i32 {
        let h = lattice.corner(i, 5, -9, 0, 0, 0);
        assert!(!seen[h]);
        seen[h] = true;
    }
    assert!(seen.iter().all(|s| *s));
}

#[test]
fn lattice_hash_has_period_256() {
    let lattice = PerlinLattice::new();
    for i in -20..20 {
        let a = lattice.corner(i, i + 1, i + 2, 0, 0, 0);
        assert_eq!(lattice.corner(i + 256, i + 1 - 512, i + 2 + 768, 0, 0, 0), a);
    }
}

#[test]
fn lattice_offset_moves_to_next_point() {
    let lattice = PerlinLattice::new();
    assert_eq!(lattice.corner(3, 4, 5, 1, 1, 1), lattice.corner(4, 5, 6, 0, 0, 0));
    assert_eq!(lattice.corner(255, 0, 0, 1, 0, 0), lattice.corner(0, 0, 0, 0, 0, 0));
    assert_eq!(lattice.corner(-1, -1, -1, 1, 1, 1), lattice.corner(0, 0, 0, 0, 0, 0));
}

#[test]
fn lattice_extreme_coordinates_do_not_overflow() {
    let lattice = PerlinLattice::new();
    // i32::MAX + 1 is 2^31, a multiple of 256.
    assert_eq!(
        lattice.corner(i32::MAX, i32::MAX, i32::MAX, 1, 1, 1),
        lattice.corner(0, 0, 0, 0, 0, 0)
    );
    assert_eq!(
        lattice.corner(i32::MIN, i32::MIN, i32::MIN, 0, 0, 0),
        lattice.corner(0, 0, 0, 0, 0, 0)
    );
}
