use banded_align::bits::{Bits, NEG_INF_BITS, ONE};
use banded_align::dp_matrix::DpMatrix;
use banded_align::posterior_bounded::posterior_bounded;
use banded_align::profile::{Profile, SPECIAL_B, SPECIAL_C, SPECIAL_E, SPECIAL_J, SPECIAL_N};
use banded_align::row_bounds::RowBoundParams;

fn b(v: i64) -> Bits {
    Bits { value: v }
}

fn neg_inf() -> Bits {
    b(NEG_INF_BITS)
}

fn flat_profile(length: usize, special: i64) -> Profile<Bits> {
    Profile {
        length,
        transitions: vec![vec![b(-1); length + 1]; 8],
        transition_deltas: vec![vec![b(ONE); length + 1]; 8],
        match_scores: vec![vec![b(0); length + 1]; 2],
        insert_scores: vec![vec![b(0); length + 1]; 2],
        special_transitions: vec![vec![b(special); 2]; 5],
        special_transition_deltas: vec![vec![b(ONE); 2]; 5],
    }
}

fn band(target_start: usize, target_end: usize, rows: &[(usize, usize)]) -> RowBoundParams {
    let mut left_row_bounds = vec![0; target_start];
    let mut right_row_bounds = vec![0; target_start];
    for &(l, r) in rows {
        left_row_bounds.push(l);
        right_row_bounds.push(r);
    }
    RowBoundParams { target_start, target_end, left_row_bounds, right_row_bounds }
}

/// Forward and backward matrices with small distinct log scores.
fn matrices(target_length: usize, profile_length: usize) -> (DpMatrix<Bits>, DpMatrix<Bits>) {
    let mut forward = DpMatrix::new(target_length, profile_length, b(-3));
    let mut backward = DpMatrix::new(target_length, profile_length, b(-4));
    for i in 0..target_length + 2 {
        for j in 0..profile_length + 2 {
            forward.set_match(i, j, b(-((i + j) as i64 % 3)));
            backward.set_match(i, j, b(-((2 * i + j) as i64 % 4)));
            forward.set_insert(i, j, b(-4 - (j as i64 % 2)));
            backward.set_insert(i, j, b(-3));
        }
        for s in 0..5 {
            forward.set_special(i, s, b(-2 - s as i64));
            backward.set_special(i, s, b(-1 - (i as i64 % 2)));
        }
    }
    (forward, backward)
}

fn row_sum(p: &DpMatrix<Bits>, params: &RowBoundParams, i: usize) -> i64 {
    let (l, r) = (params.left_row_bounds[i], params.right_row_bounds[i]);
    let mut sum = 0;
    for j in l..=r {
        sum += p.get_match(i, j).value + p.get_insert(i, j).value;
    }
    sum + p.get_special(i, SPECIAL_N).value + p.get_special(i, SPECIAL_J).value
        + p.get_special(i, SPECIAL_C).value
}

#[test]
fn posterior_rows_sum_to_one() {
    let profile = flat_profile(3, -1);
    let params = band(1, 3, &[(1, 2), (1, 3), (2, 3)]);
    let (forward, backward) = matrices(3, 3);
    let mut posterior = DpMatrix::new(3, 3, b(99));
    posterior_bounded(&profile, &forward, &backward, &mut posterior, &params);
    for i in 1..=3 {
        let sum = row_sum(&posterior, &params, i);
        // rounding in sixteen fractional bits: well within 1/256
        assert!((sum - ONE).abs() <= ONE / 256, "row {} sums to {}", i, sum);
    }
}

#[test]
fn posterior_delete_is_zero() {
    let profile = flat_profile(3, -1);
    let params = band(1, 3, &[(1, 2), (1, 3), (2, 3)]);
    let (forward, backward) = matrices(3, 3);
    let mut posterior = DpMatrix::new(3, 3, b(99));
    posterior_bounded(&profile, &forward, &backward, &mut posterior, &params);
    for i in 0..=3usize {
        let (l, r) = if i == 0 { (0, 4) } else { (params.left_row_bounds[i], params.right_row_bounds[i]) };
        for j in l..=r {
            assert_eq!(posterior.get_delete(i, j), b(0), "delete {} {}", i, j);
        }
    }
}

#[test]
fn posterior_exact_values() {
    // overall = forward C at row 1 (-2 - 3) + C move (-1) = -6
    let profile = flat_profile(1, -1);
    let params = band(1, 1, &[(1, 1)]);
    let mut forward = DpMatrix::new(1, 1, neg_inf());
    let mut backward = DpMatrix::new(1, 1, neg_inf());
    forward.set_special(1, SPECIAL_C, b(-5));
    forward.set_match(1, 1, b(-3));
    backward.set_match(1, 1, b(-3));
    forward.set_special(0, SPECIAL_N, b(-4));
    backward.set_special(1, SPECIAL_N, b(-1));
    let mut posterior = DpMatrix::new(1, 1, b(99));
    posterior_bounded(&profile, &forward, &backward, &mut posterior, &params);
    // Match: exp(-3 + -3 - -6) = 2^0 = ONE; N: exp(-4 + -1 + -1 - -6) = ONE;
    // J and C: exp(-inf) = 0; the sum is 2 * ONE, so each half
    assert_eq!(posterior.get_match(1, 1), b(ONE / 2));
    assert_eq!(posterior.get_special(1, SPECIAL_N), b(ONE / 2));
    assert_eq!(posterior.get_special(1, SPECIAL_J), b(0));
    assert_eq!(posterior.get_special(1, SPECIAL_C), b(0));
    assert_eq!(posterior.get_special(1, SPECIAL_B), b(0));
    assert_eq!(posterior.get_special(1, SPECIAL_E), b(0));
    assert_eq!(posterior.get_insert(1, 1), b(0));
    for s in 0..5 {
        assert_eq!(posterior.get_special(0, s), b(0));
    }
    for j in 0..=2 {
        assert_eq!(posterior.get_match(0, j), b(0));
        assert_eq!(posterior.get_insert(0, j), b(0));
    }
}

#[test]
fn posterior_zero_row_stays_zero() {
    let profile = flat_profile(2, -1);
    let params = band(1, 2, &[(1, 2), (1, 2)]);
    let mut forward = DpMatrix::new(2, 2, neg_inf());
    let backward = DpMatrix::new(2, 2, neg_inf());
    forward.set_special(2, SPECIAL_C, b(0));
    let mut posterior = DpMatrix::new(2, 2, b(99));
    posterior_bounded(&profile, &forward, &backward, &mut posterior, &params);
    for i in 1..=2 {
        for j in 1..=2 {
            assert_eq!(posterior.get_match(i, j), b(0));
            assert_eq!(posterior.get_insert(i, j), b(0));
        }
        assert_eq!(posterior.get_special(i, SPECIAL_N), b(0));
        assert_eq!(posterior.get_special(i, SPECIAL_J), b(0));
        assert_eq!(posterior.get_special(i, SPECIAL_C), b(0));
    }
}
