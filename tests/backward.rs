use banded_align::backward_bounded::backward_bounded;
use banded_align::bits::{Bits, NEG_INF_BITS};
use banded_align::dp_matrix::DpMatrix;
use banded_align::profile::{
    Profile, PROFILE_BEGIN_TO_MATCH, PROFILE_DELETE_TO_DELETE, PROFILE_DELETE_TO_MATCH,
    PROFILE_INSERT_TO_INSERT, PROFILE_INSERT_TO_MATCH, PROFILE_MATCH_TO_DELETE,
    PROFILE_MATCH_TO_INSERT, PROFILE_MATCH_TO_MATCH, SPECIAL_B, SPECIAL_C, SPECIAL_E, SPECIAL_J,
    SPECIAL_LOOP, SPECIAL_MOVE, SPECIAL_N,
};
use banded_align::row_bounds::RowBoundParams;
use banded_align::score::Score;
use banded_align::sequence::Sequence;

fn b(v: i64) -> Bits {
    Bits { value: v }
}

fn neg_inf() -> Bits {
    b(NEG_INF_BITS)
}

/// A profile of `length` positions over two residues whose scores differ by
/// kind and position, so that a wrong index shows.
fn test_profile(length: usize) -> Profile<Bits> {
    let mut transitions = Vec::new();
    for kind in 0..8 {
        let mut row = Vec::new();
        for pos in 0..=length {
            row.push(b(-1 - (kind as i64) - 2 * (pos as i64)));
        }
        transitions.push(row);
    }
    let ones = vec![vec![b(65536); length + 1]; 8];
    let mut match_scores = Vec::new();
    let mut insert_scores = Vec::new();
    for residue in 0..2 {
        match_scores.push((0..=length).map(|p| b(2 + residue as i64 + p as i64)).collect());
        insert_scores.push((0..=length).map(|p| b(-(residue as i64) - (p as i64))).collect());
    }
    let special_transitions = vec![
        vec![b(-1), b(-2)],
        vec![b(-3), b(-4)],
        vec![b(-5), b(-6)],
        vec![b(-7), b(-8)],
        vec![b(-9), b(-10)],
    ];
    Profile {
        length,
        transitions,
        transition_deltas: ones,
        match_scores,
        insert_scores,
        special_transitions,
        special_transition_deltas: vec![vec![b(65536); 2]; 5],
    }
}

fn test_target(residues: &[u8]) -> Sequence {
    let mut digital_bytes = vec![0u8];
    digital_bytes.extend_from_slice(residues);
    Sequence { length: residues.len(), digital_bytes }
}

fn band(target_start: usize, target_end: usize, rows: &[(usize, usize)]) -> RowBoundParams {
    let mut left_row_bounds = vec![0; target_start];
    let mut right_row_bounds = vec![0; target_start];
    for &(l, r) in rows {
        left_row_bounds.push(l);
        right_row_bounds.push(r);
    }
    RowBoundParams { target_start, target_end, left_row_bounds, right_row_bounds }
}

/// The backward recursion over every cell of a full matrix, written without a
/// band.
struct FullBackward {
    m: Vec<Vec<Bits>>,
    i: Vec<Vec<Bits>>,
    d: Vec<Vec<Bits>>,
    sp: Vec<Vec<Bits>>,
}

fn full_backward(p: &Profile<Bits>, t: &Sequence) -> FullBackward {
    let n = t.length;
    let l = p.length;
    let mut m = vec![vec![neg_inf(); l + 2]; n + 2];
    let mut ins = vec![vec![neg_inf(); l + 2]; n + 2];
    let mut d = vec![vec![neg_inf(); l + 2]; n + 2];
    let mut sp = vec![vec![neg_inf(); 5]; n + 2];
    let tsc = |k: usize, j: usize| p.transitions[k][j];
    let xsc = |s: usize, u: usize| p.special_transitions[s][u];
    sp[n][SPECIAL_C] = xsc(SPECIAL_C, SPECIAL_MOVE);
    sp[n][SPECIAL_E] = Bits::add(xsc(SPECIAL_C, SPECIAL_MOVE), xsc(SPECIAL_E, SPECIAL_MOVE));
    let e = sp[n][SPECIAL_E];
    m[n][l] = e;
    d[n][l] = e;
    for j in (1..l).rev() {
        m[n][j] = Bits::log_sum(e, Bits::add(d[n][j + 1], tsc(PROFILE_MATCH_TO_DELETE, j)));
        d[n][j] = Bits::log_sum(e, Bits::add(d[n][j + 1], tsc(PROFILE_DELETE_TO_DELETE, j)));
    }
    for row in (0..n).rev() {
        let y = t.digital_bytes[row + 1] as usize;
        let msc = |j: usize| p.match_scores[y][j];
        let isc = |j: usize| p.insert_scores[y][j];
        let mut bb = neg_inf();
        for j in 1..=l {
            let term = Bits::add(Bits::add(m[row + 1][j], tsc(PROFILE_BEGIN_TO_MATCH, j - 1)), msc(j));
            bb = if j == 1 { term } else { Bits::log_sum(bb, term) };
        }
        sp[row][SPECIAL_B] = bb;
        if row == 0 {
            sp[row][SPECIAL_N] = Bits::log_sum(
                Bits::add(sp[1][SPECIAL_N], xsc(SPECIAL_N, SPECIAL_LOOP)),
                Bits::add(bb, xsc(SPECIAL_N, SPECIAL_MOVE)),
            );
            break;
        }
        let jj = Bits::log_sum(
            Bits::add(sp[row + 1][SPECIAL_J], xsc(SPECIAL_J, SPECIAL_LOOP)),
            Bits::add(bb, xsc(SPECIAL_J, SPECIAL_MOVE)),
        );
        let c = Bits::add(sp[row + 1][SPECIAL_C], xsc(SPECIAL_C, SPECIAL_LOOP));
        let e = Bits::log_sum(
            Bits::add(jj, xsc(SPECIAL_E, SPECIAL_LOOP)),
            Bits::add(c, xsc(SPECIAL_E, SPECIAL_MOVE)),
        );
        let nn = Bits::log_sum(
            Bits::add(sp[row + 1][SPECIAL_N], xsc(SPECIAL_N, SPECIAL_LOOP)),
            Bits::add(bb, xsc(SPECIAL_N, SPECIAL_MOVE)),
        );
        sp[row][SPECIAL_J] = jj;
        sp[row][SPECIAL_C] = c;
        sp[row][SPECIAL_E] = e;
        sp[row][SPECIAL_N] = nn;
        m[row][l] = e;
        d[row][l] = e;
        for j in (1..l).rev() {
            let mm = Bits::add(Bits::add(m[row + 1][j + 1], tsc(PROFILE_MATCH_TO_MATCH, j)), msc(j + 1));
            let mi = Bits::add(Bits::add(ins[row + 1][j], tsc(PROFILE_MATCH_TO_INSERT, j)), isc(j));
            m[row][j] = Bits::log_sum(
                Bits::log_sum(Bits::log_sum(mm, mi), e),
                Bits::add(d[row][j + 1], tsc(PROFILE_MATCH_TO_DELETE, j)),
            );
            ins[row][j] = Bits::log_sum(
                Bits::add(Bits::add(m[row + 1][j + 1], tsc(PROFILE_INSERT_TO_MATCH, j)), msc(j + 1)),
                Bits::add(Bits::add(ins[row + 1][j], tsc(PROFILE_INSERT_TO_INSERT, j)), isc(j)),
            );
            d[row][j] = Bits::log_sum(
                Bits::log_sum(
                    Bits::add(Bits::add(m[row + 1][j + 1], tsc(PROFILE_DELETE_TO_MATCH, j)), msc(j + 1)),
                    Bits::add(d[row][j + 1], tsc(PROFILE_DELETE_TO_DELETE, j)),
                ),
                e,
            );
        }
    }
    FullBackward { m, i: ins, d, sp }
}

#[test]
fn backward_seeds_c_with_c_move() {
    let profile = test_profile(2);
    let target = test_target(&[0, 1, 0]);
    let params = band(1, 3, &[(1, 2), (1, 2), (1, 2)]);
    let mut dp = DpMatrix::new(3, 2, b(12345));
    backward_bounded(&profile, &target, &mut dp, &params);
    assert_eq!(dp.get_special(3, SPECIAL_C), b(-8));
    assert_eq!(dp.get_special(3, SPECIAL_E), b(-14));
    assert_eq!(dp.get_special(3, SPECIAL_J), neg_inf());
    assert_eq!(dp.get_special(3, SPECIAL_B), neg_inf());
    assert_eq!(dp.get_special(3, SPECIAL_N), neg_inf());
    assert_eq!(dp.get_match(3, 2), b(-14));
    assert_eq!(dp.get_delete(3, 2), b(-14));
    assert_eq!(dp.get_insert(3, 2), neg_inf());
    assert_eq!(dp.get_insert(3, 1), neg_inf());
}

#[test]
fn backward_last_row_exact_values() {
    let profile = test_profile(2);
    let target = test_target(&[0, 1, 0]);
    let params = band(1, 3, &[(1, 2), (1, 2), (1, 2)]);
    let mut dp = DpMatrix::new(3, 2, neg_inf());
    backward_bounded(&profile, &target, &mut dp, &params);
    // Match(3, 1) = logsum(E, D(3, 2) + MD(1)) = logsum(-14, -14 + -5) = -14
    assert_eq!(dp.get_match(3, 1), b(-14));
    // Delete(3, 1) = logsum(E, D(3, 2) + DD(1)) = logsum(-14, -23) = -14
    assert_eq!(dp.get_delete(3, 1), b(-14));
    // C(2) = C(3) + C loop
    assert_eq!(dp.get_special(2, SPECIAL_C), b(-15));
}

#[test]
fn backward_full_band_matches_full_matrix() {
    let profile = test_profile(2);
    let target = test_target(&[0, 1, 0]);
    let params = band(1, 3, &[(1, 2), (1, 2), (1, 2)]);
    let mut dp = DpMatrix::new(3, 2, neg_inf());
    backward_bounded(&profile, &target, &mut dp, &params);
    let full = full_backward(&profile, &target);
    for row in 1..=3 {
        for j in 1..=2 {
            assert_eq!(dp.get_match(row, j), full.m[row][j], "match {} {}", row, j);
            assert_eq!(dp.get_insert(row, j), full.i[row][j], "insert {} {}", row, j);
            assert_eq!(dp.get_delete(row, j), full.d[row][j], "delete {} {}", row, j);
        }
        for s in [SPECIAL_N, SPECIAL_B, SPECIAL_E, SPECIAL_C, SPECIAL_J] {
            assert_eq!(dp.get_special(row, s), full.sp[row][s], "special {} {}", row, s);
        }
    }
    assert_eq!(dp.get_special(0, SPECIAL_B), full.sp[0][SPECIAL_B]);
    assert_eq!(dp.get_special(0, SPECIAL_N), full.sp[0][SPECIAL_N]);
    assert_eq!(dp.get_special(0, SPECIAL_J), neg_inf());
    assert_eq!(dp.get_special(0, SPECIAL_C), neg_inf());
    assert_eq!(dp.get_special(0, SPECIAL_E), neg_inf());
    assert_eq!(dp.get_match(0, 1), neg_inf());
}

#[test]
fn backward_single_row_band_seeds_both_boundaries() {
    let profile = test_profile(3);
    let target = test_target(&[1, 0, 1, 1]);
    let params = band(2, 2, &[(1, 3)]);
    let mut dp = DpMatrix::new(4, 3, b(777));
    backward_bounded(&profile, &target, &mut dp, &params);
    let e = b(-14);
    assert_eq!(dp.get_special(2, SPECIAL_C), b(-8));
    assert_eq!(dp.get_special(2, SPECIAL_E), e);
    assert_eq!(dp.get_special(2, SPECIAL_N), neg_inf());
    assert_eq!(dp.get_match(2, 3), e);
    for j in 1..=3 {
        assert_eq!(dp.get_match(1, j), neg_inf());
        assert_eq!(dp.get_insert(1, j), neg_inf());
        assert_eq!(dp.get_delete(1, j), neg_inf());
    }
    // B(1) sums Match(2, j) + BM(j - 1) + emission of residue 2 (code 0)
    let mut expected_b = neg_inf();
    for j in 1..=3usize {
        let term = Bits::add(
            Bits::add(dp.get_match(2, j), profile.transitions[PROFILE_BEGIN_TO_MATCH][j - 1]),
            profile.match_scores[0][j],
        );
        expected_b = if j == 1 { term } else { Bits::log_sum(expected_b, term) };
    }
    assert_eq!(dp.get_special(1, SPECIAL_B), expected_b);
    let expected_n = Bits::log_sum(
        Bits::add(neg_inf(), b(-1)),
        Bits::add(expected_b, b(-2)),
    );
    assert_eq!(dp.get_special(1, SPECIAL_N), expected_n);
    assert_eq!(dp.get_special(1, SPECIAL_J), neg_inf());
    // nothing outside the band and its boundary row was written
    assert_eq!(dp.get_match(3, 1), b(777));
    assert_eq!(dp.get_special(3, SPECIAL_C), b(777));
}

#[test]
fn backward_offset_band_ignores_padding_contents() {
    let profile = test_profile(4);
    let target = test_target(&[0, 1, 1]);
    let params = band(1, 3, &[(1, 2), (2, 3), (3, 4)]);
    let mut clean = DpMatrix::new(3, 4, neg_inf());
    let mut dirty = DpMatrix::new(3, 4, b(1_000_000));
    backward_bounded(&profile, &target, &mut clean, &params);
    backward_bounded(&profile, &target, &mut dirty, &params);
    for row in 1..=3usize {
        let (l, r) = (params.left_row_bounds[row], params.right_row_bounds[row]);
        for j in l..=r {
            assert_eq!(clean.get_match(row, j), dirty.get_match(row, j));
            assert_eq!(clean.get_insert(row, j), dirty.get_insert(row, j));
            assert_eq!(clean.get_delete(row, j), dirty.get_delete(row, j));
            assert!(clean.get_match(row, j).value < 1_000_000);
        }
        for s in 0..5 {
            assert_eq!(clean.get_special(row, s), dirty.get_special(row, s));
        }
    }
    assert_eq!(clean.get_special(0, SPECIAL_N), dirty.get_special(0, SPECIAL_N));
    // Insert(1, 1) reads Insert(2, 1), outside row 2's band: that term is
    // -inf and only the Match(2, 2) term is left
    let expected = Bits::add(
        Bits::add(clean.get_match(2, 2), profile.transitions[PROFILE_INSERT_TO_MATCH][1]),
        profile.match_scores[1][2],
    );
    assert_eq!(clean.get_insert(1, 1), expected);
}
