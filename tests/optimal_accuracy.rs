use banded_align::bits::{Bits, NEG_INF_BITS, ONE};
use banded_align::dp_matrix::DpMatrix;
use banded_align::optimal_accuracy_bounded::optimal_accuracy_bounded;
use banded_align::profile::{Profile, SPECIAL_B, SPECIAL_C, SPECIAL_E, SPECIAL_J, SPECIAL_N};
use banded_align::row_bounds::RowBoundParams;

fn b(v: i64) -> Bits {
    Bits { value: v }
}

fn neg_inf() -> Bits {
    b(NEG_INF_BITS)
}

fn open_profile(length: usize) -> Profile<Bits> {
    Profile {
        length,
        transitions: vec![vec![b(-1); length + 1]; 8],
        transition_deltas: vec![vec![b(ONE); length + 1]; 8],
        match_scores: vec![vec![b(0); length + 1]; 2],
        insert_scores: vec![vec![b(0); length + 1]; 2],
        special_transitions: vec![vec![b(-1); 2]; 5],
        special_transition_deltas: vec![vec![b(ONE); 2]; 5],
    }
}

fn band(target_start: usize, target_end: usize, rows: &[(usize, usize)]) -> RowBoundParams {
    let mut left_row_bounds = vec![0; target_start];
    let mut right_row_bounds = vec![0; target_start];
    for &(l, r) in rows {
        left_row_bounds.push(l);
        right_row_bounds.push(r);
    }
    RowBoundParams { target_start, target_end, left_row_bounds, right_row_bounds }
}

fn posterior_of(target_length: usize, profile_length: usize, value: i64) -> DpMatrix<Bits> {
    let mut p = DpMatrix::new(target_length, profile_length, b(0));
    for i in 1..=target_length {
        for j in 1..=profile_length {
            p.set_match(i, j, b(value));
            p.set_insert(i, j, b(value / 4));
        }
        p.set_special(i, SPECIAL_N, b(value / 8));
        p.set_special(i, SPECIAL_J, b(value / 8));
        p.set_special(i, SPECIAL_C, b(value / 8));
    }
    p
}

#[test]
fn optimal_boundary_row() {
    let profile = open_profile(2);
    let params = band(1, 2, &[(1, 2), (1, 2)]);
    let posterior = posterior_of(2, 2, ONE / 2);
    let mut optimal = DpMatrix::new(2, 2, b(5));
    optimal_accuracy_bounded(&profile, &posterior, &mut optimal, &params);
    assert_eq!(optimal.get_special(0, SPECIAL_N), b(0));
    assert_eq!(optimal.get_special(0, SPECIAL_B), b(0));
    assert_eq!(optimal.get_special(0, SPECIAL_E), neg_inf());
    assert_eq!(optimal.get_special(0, SPECIAL_C), neg_inf());
    assert_eq!(optimal.get_special(0, SPECIAL_J), neg_inf());
    for j in 0..=2 {
        assert_eq!(optimal.get_match(0, j), neg_inf());
        assert_eq!(optimal.get_insert(0, j), neg_inf());
        assert_eq!(optimal.get_delete(0, j), neg_inf());
    }
}

#[test]
fn optimal_exact_values() {
    let profile = open_profile(2);
    let params = band(1, 2, &[(1, 2), (1, 2)]);
    let half = ONE / 2;
    let posterior = posterior_of(2, 2, half);
    let mut optimal = DpMatrix::new(2, 2, b(5));
    optimal_accuracy_bounded(&profile, &posterior, &mut optimal, &params);
    // row 1: Match enters from B = 0 and earns its posterior
    assert_eq!(optimal.get_match(1, 1), b(half));
    assert_eq!(optimal.get_match(1, 2), b(half));
    // Delete(1, 2) follows Match(1, 1) with no credit
    assert_eq!(optimal.get_delete(1, 2), b(half));
    assert_eq!(optimal.get_delete(1, 1), neg_inf());
    assert_eq!(optimal.get_special(1, SPECIAL_E), b(half));
    // N(1) = N(0) + posterior N; B(1) = max(N, J)
    assert_eq!(optimal.get_special(1, SPECIAL_N), b(half / 8));
    assert_eq!(optimal.get_special(1, SPECIAL_J), b(half));
    assert_eq!(optimal.get_special(1, SPECIAL_C), b(half));
    assert_eq!(optimal.get_special(1, SPECIAL_B), b(half));
    // row 2: Match(2, 2) extends Match(1, 1) or B(1), both worth half
    assert_eq!(optimal.get_match(2, 2), b(2 * half));
    assert_eq!(optimal.get_match(2, 1), b(2 * half));
    assert_eq!(optimal.get_insert(2, 1), b(half + half / 4));
    assert_eq!(optimal.get_insert(2, 2), neg_inf());
    assert_eq!(optimal.get_special(2, SPECIAL_C), b(2 * half));
}

#[test]
fn optimal_scores_never_fall_along_paths() {
    let profile = open_profile(3);
    let params = band(1, 4, &[(1, 2), (1, 3), (2, 3), (2, 3)]);
    let posterior = posterior_of(4, 3, ONE / 3);
    let mut optimal = DpMatrix::new(4, 3, neg_inf());
    optimal_accuracy_bounded(&profile, &posterior, &mut optimal, &params);
    let in_band = |i: usize, j: usize| {
        i >= 1 && i <= 4 && j >= params.left_row_bounds[i] && j <= params.right_row_bounds[i]
    };
    for i in 2..=4usize {
        for j in 1..=3usize {
            if in_band(i, j) && in_band(i - 1, j - 1) {
                assert!(optimal.get_match(i, j).value >= optimal.get_match(i - 1, j - 1).value);
            }
            if in_band(i, j) && j < params.right_row_bounds[i] && in_band(i - 1, j) {
                assert!(optimal.get_insert(i, j).value >= optimal.get_insert(i - 1, j).value);
            }
        }
        assert!(optimal.get_special(i, SPECIAL_N).value >= optimal.get_special(i - 1, SPECIAL_N).value);
    }
    for i in 1..=4usize {
        for j in params.left_row_bounds[i] + 1..=params.right_row_bounds[i] {
            assert!(optimal.get_delete(i, j).value >= optimal.get_match(i, j - 1).value);
        }
    }
}

#[test]
fn optimal_masked_transition_is_not_taken() {
    let mut profile = open_profile(2);
    // forbid entering Match 2 from Match 1
    profile.transition_deltas[0][1] = b(0);
    profile.transition_deltas[7][1] = b(0);
    profile.transition_deltas[3][1] = b(0);
    profile.transition_deltas[5][1] = b(0);
    let params = band(1, 2, &[(1, 2), (1, 2)]);
    let posterior = posterior_of(2, 2, ONE);
    let mut optimal = DpMatrix::new(2, 2, neg_inf());
    optimal_accuracy_bounded(&profile, &posterior, &mut optimal, &params);
    assert_eq!(optimal.get_match(2, 2), b(0));
    assert_eq!(optimal.get_match(2, 1), b(2 * ONE));
}

#[test]
fn optimal_single_row_band() {
    let profile = open_profile(3);
    let params = band(2, 2, &[(2, 3)]);
    let posterior = posterior_of(3, 3, ONE / 4);
    let mut optimal = DpMatrix::new(3, 3, b(5));
    optimal_accuracy_bounded(&profile, &posterior, &mut optimal, &params);
    assert_eq!(optimal.get_special(1, SPECIAL_N), b(0));
    assert_eq!(optimal.get_special(1, SPECIAL_B), b(0));
    for j in 1..=3 {
        assert_eq!(optimal.get_match(1, j), neg_inf());
    }
    assert_eq!(optimal.get_match(2, 1), neg_inf());
    assert_eq!(optimal.get_match(2, 2), b(ONE / 4));
    assert_eq!(optimal.get_match(2, 3), b(ONE / 4));
    assert_eq!(optimal.get_special(2, SPECIAL_E), b(ONE / 4));
    // rows outside the band keep what they held
    assert_eq!(optimal.get_match(3, 2), b(5));
}
