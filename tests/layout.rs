use raytracer::bvh::{BoundKey, BvhLayout};
use raytracer::tiles::row_band;

fn key(k: BoundKey, axis: usize) -> u64 {
    match axis {
        0 => k.0,
        1 => k.1,
        _ => k.2,
    }
}

fn leaves(l: &BvhLayout, out: &mut Vec<usize>) {
    match l {
        BvhLayout::Single(i) => out.push(*i),
        BvhLayout::Pair { left, right, .. } => {
            out.push(*left);
            out.push(*right);
        }
        BvhLayout::Split { left, right, .. } => {
            leaves(left, out);
            leaves(right, out);
        }
    }
}

fn assert_partitioned(l: &BvhLayout, keys: &[BoundKey]) {
    match l {
        BvhLayout::Single(_) => {}
        BvhLayout::Pair { axis, left, right } => {
            assert!(*axis < 3);
            assert!(key(keys[*left], *axis) <= key(keys[*right], *axis));
        }
        BvhLayout::Split { axis, left, right } => {
            assert!(*axis < 3);
            let (mut a, mut b) = (Vec::new(), Vec::new());
            leaves(left, &mut a);
            leaves(right, &mut b);
            assert_eq!(a.len(), (a.len() + b.len()) / 2);
            for x in &a {
                for y in &b {
                    assert!(key(keys[*x], *axis) <= key(keys[*y], *axis));
                }
            }
            assert_partitioned(left, keys);
            assert_partitioned(right, keys);
        }
    }
}

fn sample_keys(n: usize) -> Vec<BoundKey> {
    (0..n as u64)
        .map(|i| ((i * 7919) % 101, (i * 31) % 17, 1000 - i))
        .collect()
}

#[test]
fn single_node_layout() {
    let keys = sample_keys(10);
    let l = BvhLayout::build(vec![4], &keys);
    assert!(matches!(l, BvhLayout::Single(4)));
}

#[test]
fn pair_layout_orders_by_key() {
    // Node 1 is below node 0 on every axis.
    let keys: Vec<BoundKey> = vec![(5, 5, 5), (1, 1, 1)];
    for _ in 0..20 {
        let l = BvhLayout::build(vec![0, 1], &keys);
        assert!(matches!(l, BvhLayout::Pair { left: 1, right: 0, .. }));
    }
}

#[test]
fn layout_holds_every_node_once() {
    let keys = sample_keys(57);
    let items: Vec<usize> = (0..57).rev().collect();
    let l = BvhLayout::build(items, &keys);
    let mut out = Vec::new();
    leaves(&l, &mut out);
    out.sort();
    assert_eq!(out, (0..57).collect::<Vec<usize>>());
}

#[test]
fn layout_is_partitioned() {
    let keys = sample_keys(40);
    for n in 1..40 {
        let l = BvhLayout::build((0..n).collect(), &keys);
        assert_partitioned(&l, &keys);
    }
}

#[test]
fn layout_with_equal_keys() {
    let keys: Vec<BoundKey> = vec![(3, 3, 3); 9];
    let l = BvhLayout::build((0..9).collect(), &keys);
    let mut out = Vec::new();
    leaves(&l, &mut out);
    out.sort();
    assert_eq!(out, (0..9).collect::<Vec<usize>>());
}

#[test]
fn three_nodes_split_one_and_two() {
    let keys: Vec<BoundKey> = vec![(9, 9, 9), (1, 1, 1), (5, 5, 5)];
    let l = BvhLayout::build(vec![0, 1, 2], &keys);
    match l {
        BvhLayout::Split { left, right, .. } => {
            assert!(matches!(*left, BvhLayout::Single(1)));
            assert!(matches!(*right, BvhLayout::Pair { left: 2, right: 0, .. }));
        }
        _ => panic!("three nodes are split"),
    }
}

#[test]
fn row_bands_for_six_hundred_rows() {
    assert_eq!(row_band(600, 32, 0), (0, 18));
    assert_eq!(row_band(600, 32, 1), (18, 37));
    assert_eq!(row_band(600, 32, 31), (581, 600));
}

#[test]
fn row_bands_tile_the_image() {
    for height in [0usize, 1, 7, 600] {
        for jobs in 1..40usize {
            let mut next = 0;
            for job in 0..jobs {
                let (b, e) = row_band(height, jobs, job);
                assert_eq!(b, next);
                assert!(b <= e && e <= height);
                next = e;
            }
            assert_eq!(next, height);
        }
    }
}

#[test]
fn more_workers_than_rows() {
    assert_eq!(row_band(2, 4, 0), (0, 0));
    assert_eq!(row_band(2, 4, 1), (0, 1));
    assert_eq!(row_band(2, 4, 3), (1, 2));
}
