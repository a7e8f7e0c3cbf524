//! Tests for the sorted-list utilities.

use inferrust::{bucket_sort_pairs, first_pair, merge_sort, Pair};

fn pairs(v: &[(u64, u64)]) -> Vec<Pair> {
    v.iter().map(|&(s, o)| Pair { s, o }).collect()
}

#[test]
fn test_merge_sort() {
    assert_eq!(
        merge_sort(vec![1, 3, 5, 6, 7], vec![2, 3, 4, 8]),
        vec![1, 2, 3, 4, 5, 6, 7, 8],
    );
    assert_eq!(merge_sort(vec![1, 3, 5, 6, 7], vec![]), vec![1, 3, 5, 6, 7]);
    assert_eq!(merge_sort(vec![], vec![1, 3, 5, 6, 7]), vec![1, 3, 5, 6, 7]);
}

#[test]
fn test_sort() {
    let mut p = pairs(&[(2, 1), (1, 3)]);
    bucket_sort_pairs(&mut p);
    assert_eq!(p, pairs(&[(1, 3), (2, 1)]));
    let mut p = pairs(&[(2, 1), (1, 3), (2, 1)]);
    bucket_sort_pairs(&mut p);
    assert_eq!(p, pairs(&[(1, 3), (2, 1)]));
    let mut p = pairs(&[(2, 1), (1, 3), (1, 3)]);
    bucket_sort_pairs(&mut p);
    assert_eq!(p, pairs(&[(1, 3), (2, 1)]));
    let mut p = pairs(&[(2, 3), (2, 1)]);
    bucket_sort_pairs(&mut p);
    assert_eq!(p, pairs(&[(2, 1), (2, 3)]));
}

#[test]
fn first_pair_finds_first_match() {
    let p = pairs(&[(1, 2), (2, 1), (2, 5), (4, 0)]);
    assert_eq!(first_pair(&p, 2), 1);
    assert_eq!(first_pair(&p, 1), 0);
    assert_eq!(first_pair(&p, 4), 3);
    assert_eq!(first_pair(&p, 3), 4);
    assert_eq!(first_pair(&p, 9), 4);
}

#[test]
fn bucket_sort_empty() {
    let mut p: Vec<Pair> = Vec::new();
    let n = bucket_sort_pairs(&mut p);
    assert_eq!(n, 0);
    assert!(p.is_empty());
}

#[test]
fn test_bucket_sort() {
    let mut p = pairs(&[(2, 1), (1, 3)]);
    bucket_sort_pairs(&mut p);
    assert_eq!(p, pairs(&[(1, 3), (2, 1)]));
    let mut p = pairs(&[(2, 1), (1, 3), (2, 1)]);
    bucket_sort_pairs(&mut p);
    assert_eq!(p, pairs(&[(1, 3), (2, 1)]));
    let mut p = pairs(&[(2, 1), (1, 3), (1, 3)]);
    bucket_sort_pairs(&mut p);
    assert_eq!(p, pairs(&[(1, 3), (2, 1)]));
    let mut p = pairs(&[(2, 3), (2, 1)]);
    bucket_sort_pairs(&mut p);
    assert_eq!(p, pairs(&[(2, 1), (2, 3)]));
}
