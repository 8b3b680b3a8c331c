use chartml::labels::strategic_indices;

#[test]
fn strategic_indices_basic() {
    let indices = strategic_indices(10, 5);
    assert!(indices.contains(&0), "Should include first index");
    assert!(indices.contains(&9), "Should include last index");
    assert!(indices.len() <= 5, "Should have at most 5 indices");
}

#[test]
fn strategic_indices_all() {
    let indices = strategic_indices(5, 10);
    assert_eq!(indices, vec![0, 1, 2, 3, 4]);
}

fn float_reference(total: usize, target: usize) -> Vec<usize> {
    if total == 0 {
        return vec![];
    }
    if target >= total {
        return (0..total).collect();
    }
    if target <= 1 {
        return if total == 1 { vec![0] } else { vec![0, total - 1] };
    }
    if target == 2 {
        return vec![0, total - 1];
    }
    let step = (total - 1) as f64 / (target - 1) as f64;
    let mut indices: Vec<usize> = (0..target)
        .map(|i| ((i as f64 * step).round() as usize).min(total - 1))
        .collect();
    indices.dedup();
    indices
}

#[test]
fn sampling_matches_double_precision_arithmetic() {
    for total in 0..160usize {
        for target in 0..(total + 3) {
            assert_eq!(strategic_indices(total, target), float_reference(total, target), "{} {}", total, target);
        }
    }
    // Ties that double rounding decides one way or the other.
    for &(total, target) in &[(50usize, 23usize), (54, 39), (62, 15), (1000, 7), (4097, 33)] {
        assert_eq!(strategic_indices(total, target), float_reference(total, target));
    }
    assert_eq!(strategic_indices(50, 23)[11], 24);
}

#[test]
fn sampling_huge_counts_matches_double_precision_arithmetic() {
    let big = [
        (1usize << 53) + 1,
        (1usize << 53) + 3,
        (1usize << 60) + 12345,
        usize::MAX,
        usize::MAX - 1,
    ];
    for &total in &big {
        for &target in &[3usize, 4, 7, 10, 13, 100] {
            assert_eq!(strategic_indices(total, target), float_reference(total, target), "{} {}", total, target);
        }
    }
    assert_eq!(strategic_indices(usize::MAX, 3), float_reference(usize::MAX, 3));
}

#[test]
fn sampling_keeps_ends_and_order() {
    for &(total, target) in &[(10usize, 5usize), (100, 7), (3, 2), (7, 1), (1, 0), (2, 0)] {
        let s = strategic_indices(total, target);
        assert_eq!(s[0], 0);
        assert_eq!(*s.last().unwrap(), total - 1);
        assert!(s.windows(2).all(|w| w[0] < w[1]));
    }
    assert_eq!(strategic_indices(10, 1), vec![0, 9]);
    assert_eq!(strategic_indices(1, 0), vec![0]);
    assert!(strategic_indices(0, 4).is_empty());
}

#[test]
fn very_large_counts_can_miss_the_last_label() {
    // Above 2^52 labels the rounding of the step can land the last sample
    // one short of the last label, as double arithmetic does.
    let total = 7_498_253_455_822_012usize;
    let target = 179_958usize;
    let s = strategic_indices(total, target);
    assert_eq!(s, float_reference(total, target));
    assert!(*s.last().unwrap() < total - 1);
}

#[test]
fn sampled_count_is_the_smaller_of_total_and_target() {
    assert_eq!(strategic_indices(0, 5).len(), 0);
    assert_eq!(strategic_indices(1, 0).len(), 1);
    assert_eq!(strategic_indices(5, 1).len(), 2);
    assert_eq!(strategic_indices(5, 2).len(), 2);
    assert_eq!(strategic_indices(10, 10).len(), 10);
    assert_eq!(strategic_indices(100, 7).len(), 7);
    for target in 3..200 {
        assert_eq!(strategic_indices(200, target).len(), target);
        assert_eq!(strategic_indices(target + 1, target).len(), target);
    }
    assert_eq!(strategic_indices(1_000_001, 999_999).len(), 999_999);
}
