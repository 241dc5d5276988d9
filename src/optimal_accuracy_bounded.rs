use vstd::prelude::*;
use crate::dp_matrix::DpMatrix;
use crate::profile::{
    Profile, PROFILE_BEGIN_TO_MATCH, PROFILE_DELETE_TO_DELETE, PROFILE_DELETE_TO_MATCH,
    PROFILE_INSERT_TO_INSERT, PROFILE_INSERT_TO_MATCH, PROFILE_MATCH_TO_DELETE,
    PROFILE_MATCH_TO_INSERT, PROFILE_MATCH_TO_MATCH, SPECIAL_B, SPECIAL_C, SPECIAL_E, SPECIAL_J,
    SPECIAL_LOOP, SPECIAL_MOVE, SPECIAL_N,
};
use crate::row_bounds::RowBoundParams;
use crate::bits::{Bits, MAX_BITS, NEG_INF_BITS, ONE};
use crate::score::Score;

verus! {

/// The inputs of one optimal accuracy pass fit each other.
pub open spec fn optimal_inputs<S: Score>(
    profile: &Profile<S>,
    posterior: &DpMatrix<S>,
    optimal: &DpMatrix<S>,
    params: &RowBoundParams,
) -> bool {
    &&& profile.wf()
    &&& posterior.wf()
    &&& optimal.wf()
    &&& posterior.same_shape(optimal)
    &&& optimal.profile_length == profile.length
    &&& params.valid(optimal.target_length as nat, optimal.profile_length as nat)
}

/// A masked step: `delta` (one where the transition is allowed, zero where it
/// is not) times the value it leads to.
pub open spec fn masked<S: Score>(delta: S, value: S) -> S {
    S::spec_mul(delta, value)
}

/// Match at `(i, j)`: the best way in from the previous row's Match, Insert,
/// Delete at `j - 1` or its begin state, plus the Match posterior.
pub open spec fn optimal_match_eq<S: Score>(
    profile: &Profile<S>,
    posterior: &DpMatrix<S>,
    optimal: &DpMatrix<S>,
    params: &RowBoundParams,
    i: int,
    j: int,
) -> S {
    let p = posterior.m(i, j);
    S::spec_max(
        S::spec_max(
            S::spec_max(
                masked(
                    profile.tsc_delta(PROFILE_MATCH_TO_MATCH as int, j - 1),
                    S::spec_add(optimal.band_m(params, i - 1, j - 1), p),
                ),
                masked(
                    profile.tsc_delta(PROFILE_INSERT_TO_MATCH as int, j - 1),
                    S::spec_add(optimal.band_ins(params, i - 1, j - 1), p),
                ),
            ),
            masked(
                profile.tsc_delta(PROFILE_DELETE_TO_MATCH as int, j - 1),
                S::spec_add(optimal.band_del(params, i - 1, j - 1), p),
            ),
        ),
        masked(
            profile.tsc_delta(PROFILE_BEGIN_TO_MATCH as int, j - 1),
            S::spec_add(optimal.sp(i - 1, SPECIAL_B as int), p),
        ),
    )
}

/// Insert at `(i, j)`: the best way in from the previous row's Match or
/// Insert at `j`, plus the Insert posterior.
pub open spec fn optimal_insert_eq<S: Score>(
    profile: &Profile<S>,
    posterior: &DpMatrix<S>,
    optimal: &DpMatrix<S>,
    params: &RowBoundParams,
    i: int,
    j: int,
) -> S {
    let p = posterior.ins(i, j);
    S::spec_max(
        masked(
            profile.tsc_delta(PROFILE_MATCH_TO_INSERT as int, j),
            S::spec_add(optimal.band_m(params, i - 1, j), p),
        ),
        masked(
            profile.tsc_delta(PROFILE_INSERT_TO_INSERT as int, j),
            S::spec_add(optimal.band_ins(params, i - 1, j), p),
        ),
    )
}

/// Delete at `(i, j)`: the best way in from Match or Delete at `j - 1` of the
/// same row, with no posterior credit.
pub open spec fn optimal_delete_eq<S: Score>(
    profile: &Profile<S>,
    optimal: &DpMatrix<S>,
    params: &RowBoundParams,
    i: int,
    j: int,
) -> S {
    S::spec_max(
        masked(
            profile.tsc_delta(PROFILE_MATCH_TO_DELETE as int, j - 1),
            optimal.band_m(params, i, j - 1),
        ),
        masked(
            profile.tsc_delta(PROFILE_DELETE_TO_DELETE as int, j - 1),
            optimal.band_del(params, i, j - 1),
        ),
    )
}

/// The running maximum of Match over the columns of row `i` from its left
/// bound up to, not including, `k`; negative infinity when there are none.
/// Ending the match scales Match by a unit end score, so E takes it unchanged.
pub open spec fn match_max<S: Score>(
    optimal: &DpMatrix<S>,
    params: &RowBoundParams,
    i: int,
    k: int,
) -> S
    decreases k - params.left(i),
{
    if k <= params.left(i) {
        S::spec_neg_inf()
    } else {
        S::spec_max(match_max(optimal, params, i, k - 1), optimal.m(i, k - 1))
    }
}

/// Row `i` of the band as the optimal accuracy recursion fills it.
pub open spec fn optimal_row_done<S: Score>(
    profile: &Profile<S>,
    posterior: &DpMatrix<S>,
    optimal: &DpMatrix<S>,
    params: &RowBoundParams,
    i: int,
) -> bool {
    let l = params.left(i);
    let r = params.right(i);
    let e = optimal.sp(i, SPECIAL_E as int);
    let jj = optimal.sp(i, SPECIAL_J as int);
    let n = optimal.sp(i, SPECIAL_N as int);
    &&& optimal.m(i, l - 1) == S::spec_neg_inf()
    &&& optimal.ins(i, l - 1) == S::spec_neg_inf()
    &&& optimal.del(i, l - 1) == S::spec_neg_inf()
    &&& forall|j: int|
        l <= j <= r ==> #[trigger] optimal.m(i, j) == optimal_match_eq(
            profile,
            posterior,
            optimal,
            params,
            i,
            j,
        )
    &&& forall|j: int|
        l <= j < r ==> #[trigger] optimal.ins(i, j) == optimal_insert_eq(
            profile,
            posterior,
            optimal,
            params,
            i,
            j,
        )
    &&& optimal.ins(i, r) == S::spec_neg_inf()
    &&& forall|j: int|
        l <= j <= r ==> #[trigger] optimal.del(i, j) == optimal_delete_eq(
            profile,
            optimal,
            params,
            i,
            j,
        )
    &&& e == S::spec_max(
        S::spec_max(match_max(optimal, params, i, r), optimal.m(i, r)),
        optimal.del(i, r),
    )
    &&& jj == S::spec_max(
        masked(
            profile.xsc_delta(SPECIAL_J as int, SPECIAL_LOOP as int),
            S::spec_add(optimal.sp(i - 1, SPECIAL_J as int), posterior.sp(i, SPECIAL_J as int)),
        ),
        masked(profile.xsc_delta(SPECIAL_E as int, SPECIAL_LOOP as int), e),
    )
    &&& optimal.sp(i, SPECIAL_C as int) == S::spec_max(
        masked(
            profile.xsc_delta(SPECIAL_C as int, SPECIAL_LOOP as int),
            S::spec_add(optimal.sp(i - 1, SPECIAL_C as int), posterior.sp(i, SPECIAL_C as int)),
        ),
        masked(profile.xsc_delta(SPECIAL_E as int, SPECIAL_MOVE as int), e),
    )
    &&& n == masked(
        profile.xsc_delta(SPECIAL_N as int, SPECIAL_LOOP as int),
        S::spec_add(optimal.sp(i - 1, SPECIAL_N as int), posterior.sp(i, SPECIAL_N as int)),
    )
    &&& optimal.sp(i, SPECIAL_B as int) == S::spec_max(
        masked(profile.xsc_delta(SPECIAL_N as int, SPECIAL_MOVE as int), n),
        masked(profile.xsc_delta(SPECIAL_J as int, SPECIAL_MOVE as int), jj),
    )
}

/// Row `target_start - 1`: N and B zero, everything else negative infinity.
pub open spec fn optimal_boundary_done<S: Score>(
    optimal: &DpMatrix<S>,
    params: &RowBoundParams,
) -> bool {
    let s = params.target_start as int;
    let i = s - 1;
    &&& optimal.sp(i, SPECIAL_N as int) == S::spec_zero()
    &&& optimal.sp(i, SPECIAL_B as int) == S::spec_zero()
    &&& optimal.sp(i, SPECIAL_E as int) == S::spec_neg_inf()
    &&& optimal.sp(i, SPECIAL_C as int) == S::spec_neg_inf()
    &&& optimal.sp(i, SPECIAL_J as int) == S::spec_neg_inf()
    &&& forall|j: int|
        params.left(s) - 1 <= j <= params.right(s) ==> #[trigger] optimal.m(i, j)
            == S::spec_neg_inf() && optimal.ins(i, j) == S::spec_neg_inf() && optimal.del(i, j)
            == S::spec_neg_inf()
}

/// `match_max` reads only the Match cells it ranges over.
proof fn lemma_match_max_kept<S: Score>(
    before: &DpMatrix<S>,
    after: &DpMatrix<S>,
    params: &RowBoundParams,
    i: int,
    k: int,
)
    requires
        forall|t: int| params.left(i) <= t < k ==> #[trigger] after.m(i, t) == before.m(i, t),
    ensures
        match_max(after, params, i, k) == match_max(before, params, i, k),
    decreases k - params.left(i),
{
    if k > params.left(i) {
        lemma_match_max_kept(before, after, params, i, k - 1);
    }
}

/// Writing row `written` keeps the boundary row and every row of the band
/// above it as they were.
proof fn lemma_optimal_rows_kept<S: Score>(
    profile: &Profile<S>,
    posterior: &DpMatrix<S>,
    before: &DpMatrix<S>,
    after: &DpMatrix<S>,
    params: &RowBoundParams,
    written: int,
)
    requires
        optimal_inputs(profile, posterior, before, params),
        after.same_shape(before),
        after.agrees_outside_row(before, written),
        params.target_start <= written <= params.target_end,
        optimal_boundary_done(before, params),
        forall|r: int|
            params.target_start <= r < written ==> #[trigger] optimal_row_done(
                profile,
                posterior,
                before,
                params,
                r,
            ),
    ensures
        optimal_boundary_done(after, params),
        forall|r: int|
            params.target_start <= r < written ==> #[trigger] optimal_row_done(
                profile,
                posterior,
                after,
                params,
                r,
            ),
{
    let s = params.target_start as int;
    assert(1 <= params.left(s) <= params.right(s) <= before.profile_length);
    assert forall|j: int| params.left(s) - 1 <= j <= params.right(s) implies #[trigger] after.m(
        s - 1,
        j,
    ) == S::spec_neg_inf() && after.ins(s - 1, j) == S::spec_neg_inf() && after.del(s - 1, j)
        == S::spec_neg_inf() by {
        assert(after.in_range(s - 1, j));
    }
    assert forall|r: int|
        params.target_start <= r < written implies #[trigger] optimal_row_done(
        profile,
        posterior,
        after,
        params,
        r,
    ) by {
        assert(optimal_row_done(profile, posterior, before, params, r));
        assert(1 <= params.left(r) <= params.right(r) <= before.profile_length);
        assert(after.in_range(r, params.left(r) - 1));
        assert(after.in_range(r, params.right(r)));
        assert forall|t: int| params.left(r) <= t < params.right(r) implies #[trigger] after.m(r, t)
            == before.m(r, t) by {
            assert(after.in_range(r, t));
        }
        lemma_match_max_kept(before, after, params, r, params.right(r));
    }
}

fn optimal_match<S: Score>(
    profile: &Profile<S>,
    posterior_matrix: &DpMatrix<S>,
    optimal_matrix: &DpMatrix<S>,
    params: &RowBoundParams,
    i: usize,
    j: usize,
) -> (r: S)
    requires
        optimal_inputs(profile, posterior_matrix, optimal_matrix, params),
        params.in_band(i as int, j as int),
    ensures
        r == optimal_match_eq(profile, posterior_matrix, optimal_matrix, params, i as int, j as int),
{
    assert(1 <= params.left(i as int) <= params.right(i as int) <= profile.length);
    let p = posterior_matrix.get_match(i, j);
    S::max(
        S::max(
            S::max(
                S::mul(
                    profile.transition_score_delta(PROFILE_MATCH_TO_MATCH, j - 1),
                    S::add(optimal_matrix.get_band_match(params, i - 1, j - 1), p),
                ),
                S::mul(
                    profile.transition_score_delta(PROFILE_INSERT_TO_MATCH, j - 1),
                    S::add(optimal_matrix.get_band_insert(params, i - 1, j - 1), p),
                ),
            ),
            S::mul(
                profile.transition_score_delta(PROFILE_DELETE_TO_MATCH, j - 1),
                S::add(optimal_matrix.get_band_delete(params, i - 1, j - 1), p),
            ),
        ),
        S::mul(
            profile.transition_score_delta(PROFILE_BEGIN_TO_MATCH, j - 1),
            S::add(optimal_matrix.get_special(i - 1, SPECIAL_B), p),
        ),
    )
}

fn optimal_insert<S: Score>(
    profile: &Profile<S>,
    posterior_matrix: &DpMatrix<S>,
    optimal_matrix: &DpMatrix<S>,
    params: &RowBoundParams,
    i: usize,
    j: usize,
) -> (r: S)
    requires
        optimal_inputs(profile, posterior_matrix, optimal_matrix, params),
        params.in_band(i as int, j as int),
    ensures
        r == optimal_insert_eq(profile, posterior_matrix, optimal_matrix, params, i as int, j as int),
{
    assert(1 <= params.left(i as int) <= params.right(i as int) <= profile.length);
    let p = posterior_matrix.get_insert(i, j);
    S::max(
        S::mul(
            profile.transition_score_delta(PROFILE_MATCH_TO_INSERT, j),
            S::add(optimal_matrix.get_band_match(params, i - 1, j), p),
        ),
        S::mul(
            profile.transition_score_delta(PROFILE_INSERT_TO_INSERT, j),
            S::add(optimal_matrix.get_band_insert(params, i - 1, j), p),
        ),
    )
}

fn optimal_delete<S: Score>(
    profile: &Profile<S>,
    optimal_matrix: &DpMatrix<S>,
    params: &RowBoundParams,
    i: usize,
    j: usize,
) -> (r: S)
    requires
        profile.wf(),
        optimal_matrix.wf(),
        optimal_matrix.profile_length == profile.length,
        params.valid(optimal_matrix.target_length as nat, optimal_matrix.profile_length as nat),
        params.in_band(i as int, j as int),
    ensures
        r == optimal_delete_eq(profile, optimal_matrix, params, i as int, j as int),
{
    assert(1 <= params.left(i as int) <= params.right(i as int) <= profile.length);
    S::max(
        S::mul(
            profile.transition_score_delta(PROFILE_MATCH_TO_DELETE, j - 1),
            optimal_matrix.get_band_match(params, i, j - 1),
        ),
        S::mul(
            profile.transition_score_delta(PROFILE_DELETE_TO_DELETE, j - 1),
            optimal_matrix.get_band_delete(params, i, j - 1),
        ),
    )
}

/// Fills row `i` of the band, left to right, from row `i - 1`.
fn optimal_row<S: Score>(
    profile: &Profile<S>,
    posterior_matrix: &DpMatrix<S>,
    optimal_matrix: &mut DpMatrix<S>,
    params: &RowBoundParams,
    i: usize,
)
    requires
        optimal_inputs(profile, posterior_matrix, old(optimal_matrix), params),
        params.in_rows(i as int),
    ensures
        optimal_inputs(profile, posterior_matrix, final(optimal_matrix), params),
        final(optimal_matrix).same_shape(old(optimal_matrix)),
        final(optimal_matrix).agrees_outside_row(old(optimal_matrix), i as int),
        optimal_row_done(profile, posterior_matrix, final(optimal_matrix), params, i as int),
{
    let neg_inf = S::neg_inf();
    let left = params.left_row_bounds[i];
    let right = params.right_row_bounds[i];
    assert(1 <= params.left(i as int) <= params.right(i as int) <= profile.length);
    optimal_matrix.set_match(i, left - 1, neg_inf);
    optimal_matrix.set_insert(i, left - 1, neg_inf);
    optimal_matrix.set_delete(i, left - 1, neg_inf);

    let mut e = neg_inf;
    let mut j: usize = left;
    while j < right
        invariant
            optimal_inputs(profile, posterior_matrix, optimal_matrix, params),
            optimal_matrix.same_shape(old(optimal_matrix)),
            optimal_matrix.agrees_outside_row(old(optimal_matrix), i as int),
            params.in_rows(i as int),
            left == params.left(i as int),
            right == params.right(i as int),
            1 <= left <= j <= right <= profile.length,
            neg_inf == S::spec_neg_inf(),
            optimal_matrix.m(i as int, left - 1) == neg_inf,
            optimal_matrix.ins(i as int, left - 1) == neg_inf,
            optimal_matrix.del(i as int, left - 1) == neg_inf,
            e == match_max(optimal_matrix, params, i as int, j as int),
            forall|t: int|
                left <= t < j ==> #[trigger] optimal_matrix.m(i as int, t) == optimal_match_eq(
                    profile,
                    posterior_matrix,
                    optimal_matrix,
                    params,
                    i as int,
                    t,
                ),
            forall|t: int|
                left <= t < j ==> #[trigger] optimal_matrix.ins(i as int, t) == optimal_insert_eq(
                    profile,
                    posterior_matrix,
                    optimal_matrix,
                    params,
                    i as int,
                    t,
                ),
            forall|t: int|
                left <= t < j ==> #[trigger] optimal_matrix.del(i as int, t) == optimal_delete_eq(
                    profile,
                    optimal_matrix,
                    params,
                    i as int,
                    t,
                ),
        decreases right - j,
    {
        let ghost before = *optimal_matrix;
        let m = optimal_match(profile, posterior_matrix, optimal_matrix, params, i, j);
        optimal_matrix.set_match(i, j, m);
        e = S::max(e, m);
        let ins = optimal_insert(profile, posterior_matrix, optimal_matrix, params, i, j);
        optimal_matrix.set_insert(i, j, ins);
        let d = optimal_delete(profile, optimal_matrix, params, i, j);
        optimal_matrix.set_delete(i, j, d);
        proof {
            lemma_match_max_kept(&before, optimal_matrix, params, i as int, j as int);
        }
        j = j + 1;
    }

    let ghost after_interior = *optimal_matrix;
    let m = optimal_match(profile, posterior_matrix, optimal_matrix, params, i, right);
    optimal_matrix.set_match(i, right, m);
    let d = optimal_delete(profile, optimal_matrix, params, i, right);
    optimal_matrix.set_delete(i, right, d);
    optimal_matrix.set_insert(i, right, neg_inf);
    e = S::max(S::max(e, m), d);

    let jj = S::max(
        S::mul(
            profile.special_transition_score_delta(SPECIAL_J, SPECIAL_LOOP),
            S::add(
                optimal_matrix.get_special(i - 1, SPECIAL_J),
                posterior_matrix.get_special(i, SPECIAL_J),
            ),
        ),
        S::mul(profile.special_transition_score_delta(SPECIAL_E, SPECIAL_LOOP), e),
    );
    let c = S::max(
        S::mul(
            profile.special_transition_score_delta(SPECIAL_C, SPECIAL_LOOP),
            S::add(
                optimal_matrix.get_special(i - 1, SPECIAL_C),
                posterior_matrix.get_special(i, SPECIAL_C),
            ),
        ),
        S::mul(profile.special_transition_score_delta(SPECIAL_E, SPECIAL_MOVE), e),
    );
    let n = S::mul(
        profile.special_transition_score_delta(SPECIAL_N, SPECIAL_LOOP),
        S::add(
            optimal_matrix.get_special(i - 1, SPECIAL_N),
            posterior_matrix.get_special(i, SPECIAL_N),
        ),
    );
    let b = S::max(
        S::mul(profile.special_transition_score_delta(SPECIAL_N, SPECIAL_MOVE), n),
        S::mul(profile.special_transition_score_delta(SPECIAL_J, SPECIAL_MOVE), jj),
    );
    optimal_matrix.set_special(i, SPECIAL_E, e);
    optimal_matrix.set_special(i, SPECIAL_J, jj);
    optimal_matrix.set_special(i, SPECIAL_C, c);
    optimal_matrix.set_special(i, SPECIAL_N, n);
    optimal_matrix.set_special(i, SPECIAL_B, b);
    proof {
        lemma_match_max_kept(&after_interior, optimal_matrix, params, i as int, right as int);
    }
}

/// Fills `optimal_matrix` with the maximum expected number of correctly
/// aligned residues over every path into each cell of the band.
///
/// Row `target_start - 1` has N and B zero and everything else negative
/// infinity. Each row of the band is filled left to right: Match and Insert
/// take the best masked predecessor plus the cell's posterior, Delete the best
/// masked predecessor on the same row; then E, J, C, N and B in that order.
pub fn optimal_accuracy_bounded<S: Score>(
    profile: &Profile<S>,
    posterior_matrix: &DpMatrix<S>,
    optimal_matrix: &mut DpMatrix<S>,
    params: &RowBoundParams,
)
    requires
        optimal_inputs(profile, posterior_matrix, old(optimal_matrix), params),
    ensures
        optimal_inputs(profile, posterior_matrix, final(optimal_matrix), params),
        final(optimal_matrix).same_shape(old(optimal_matrix)),
        optimal_boundary_done(final(optimal_matrix), params),
        forall|i: int|
            params.in_rows(i) ==> #[trigger] optimal_row_done(
                profile,
                posterior_matrix,
                final(optimal_matrix),
                params,
                i,
            ),
{
    let neg_inf = S::neg_inf();
    let zero = S::zero();
    let ts = params.target_start;
    let boundary = ts - 1;
    optimal_matrix.set_special(boundary, SPECIAL_N, zero);
    optimal_matrix.set_special(boundary, SPECIAL_B, zero);
    optimal_matrix.set_special(boundary, SPECIAL_E, neg_inf);
    optimal_matrix.set_special(boundary, SPECIAL_C, neg_inf);
    optimal_matrix.set_special(boundary, SPECIAL_J, neg_inf);

    let left = params.left_row_bounds[ts];
    let right = params.right_row_bounds[ts];
    assert(1 <= params.left(ts as int) <= params.right(ts as int) <= profile.length);
    let mut j: usize = left - 1;
    while j <= right
        invariant
            optimal_inputs(profile, posterior_matrix, optimal_matrix, params),
            optimal_matrix.same_shape(old(optimal_matrix)),
            ts == params.target_start,
            boundary == ts - 1,
            left == params.left(ts as int),
            right == params.right(ts as int),
            1 <= left,
            left - 1 <= j <= right + 1,
            right <= profile.length,
            neg_inf == S::spec_neg_inf(),
            zero == S::spec_zero(),
            optimal_matrix.sp(boundary as int, SPECIAL_N as int) == zero,
            optimal_matrix.sp(boundary as int, SPECIAL_B as int) == zero,
            optimal_matrix.sp(boundary as int, SPECIAL_E as int) == neg_inf,
            optimal_matrix.sp(boundary as int, SPECIAL_C as int) == neg_inf,
            optimal_matrix.sp(boundary as int, SPECIAL_J as int) == neg_inf,
            forall|t: int|
                left - 1 <= t < j ==> #[trigger] optimal_matrix.m(boundary as int, t) == neg_inf,
            forall|t: int|
                left - 1 <= t < j ==> #[trigger] optimal_matrix.ins(boundary as int, t) == neg_inf,
            forall|t: int|
                left - 1 <= t < j ==> #[trigger] optimal_matrix.del(boundary as int, t) == neg_inf,
        decreases right + 1 - j,
    {
        optimal_matrix.set_match(boundary, j, neg_inf);
        optimal_matrix.set_insert(boundary, j, neg_inf);
        optimal_matrix.set_delete(boundary, j, neg_inf);
        j = j + 1;
    }

    let mut i: usize = ts;
    while i <= params.target_end
        invariant
            optimal_inputs(profile, posterior_matrix, optimal_matrix, params),
            optimal_matrix.same_shape(old(optimal_matrix)),
            ts == params.target_start,
            ts <= i <= params.target_end + 1,
            optimal_boundary_done(optimal_matrix, params),
            forall|r: int|
                ts <= r < i ==> #[trigger] optimal_row_done(
                    profile,
                    posterior_matrix,
                    optimal_matrix,
                    params,
                    r,
                ),
        decreases params.target_end + 1 - i,
    {
        let ghost before = *optimal_matrix;
        optimal_row(profile, posterior_matrix, optimal_matrix, params, i);
        proof {
            lemma_optimal_rows_kept(
                profile,
                posterior_matrix,
                &before,
                optimal_matrix,
                params,
                i as int,
            );
        }
        i = i + 1;
    }
}

/// An allowed step (mask one) that adds a nonnegative posterior to a score
/// leads to a score no lower than the one it left.
proof fn lemma_allowed_step_not_lower(x: Bits, p: Bits)
    requires
        NEG_INF_BITS <= x.value <= MAX_BITS,
        0 <= p.value,
    ensures
        masked(Bits { value: ONE }, Bits::spec_add(x, p)).value >= x.value,
        masked(Bits { value: ONE }, x).value == x.value,
{
    let y = Bits::spec_add(x, p);
    assert(y.value >= x.value);
    lemma_unit_mul(y.value as int);
    lemma_unit_mul(x.value as int);
}

/// Multiplying by the fixed-point one changes nothing.
proof fn lemma_unit_mul(v: int)
    ensures
        crate::bits::fixed_mul(ONE as int, v) == v,
{
    if v >= 0 {
        assert((ONE * v) / (ONE as int) == v) by (nonlinear_arith)
            requires
                v >= 0,
        ;
    } else {
        assert((-(ONE * v)) / (ONE as int) == -v) by (nonlinear_arith)
            requires
                v < 0,
        ;
    }
}

/// Optimal accuracy never decreases along an allowed Match-to-Match step when
/// the Match posterior is nonnegative: Match at `(i, j)` is at least Match at
/// `(i - 1, j - 1)`.
pub proof fn lemma_match_step_not_lower(
    profile: &Profile<Bits>,
    posterior: &DpMatrix<Bits>,
    optimal: &DpMatrix<Bits>,
    params: &RowBoundParams,
    i: int,
    j: int,
)
    requires
        optimal_inputs(profile, posterior, optimal, params),
        optimal_row_done(profile, posterior, optimal, params, i),
        params.in_band(i, j),
        params.in_band(i - 1, j - 1),
        profile.tsc_delta(PROFILE_MATCH_TO_MATCH as int, j - 1) == (Bits { value: ONE }),
        0 <= posterior.m(i, j).value,
        NEG_INF_BITS <= optimal.m(i - 1, j - 1).value <= MAX_BITS,
    ensures
        optimal.m(i, j).value >= optimal.m(i - 1, j - 1).value,
{
    lemma_allowed_step_not_lower(optimal.m(i - 1, j - 1), posterior.m(i, j));
}

/// Optimal accuracy never decreases along an allowed Insert-to-Insert step
/// when the Insert posterior is nonnegative: Insert at `(i, j)`, short of the
/// row's right bound, is at least Insert at `(i - 1, j)`.
pub proof fn lemma_insert_step_not_lower(
    profile: &Profile<Bits>,
    posterior: &DpMatrix<Bits>,
    optimal: &DpMatrix<Bits>,
    params: &RowBoundParams,
    i: int,
    j: int,
)
    requires
        optimal_inputs(profile, posterior, optimal, params),
        optimal_row_done(profile, posterior, optimal, params, i),
        params.in_band(i, j),
        j < params.right(i),
        params.in_band(i - 1, j),
        profile.tsc_delta(PROFILE_INSERT_TO_INSERT as int, j) == (Bits { value: ONE }),
        0 <= posterior.ins(i, j).value,
        NEG_INF_BITS <= optimal.ins(i - 1, j).value <= MAX_BITS,
    ensures
        optimal.ins(i, j).value >= optimal.ins(i - 1, j).value,
{
    lemma_allowed_step_not_lower(optimal.ins(i - 1, j), posterior.ins(i, j));
}

/// Optimal accuracy never decreases along an allowed Match-to-Delete step:
/// Delete at `(i, j)` is at least Match at `(i, j - 1)`.
pub proof fn lemma_delete_step_not_lower(
    profile: &Profile<Bits>,
    posterior: &DpMatrix<Bits>,
    optimal: &DpMatrix<Bits>,
    params: &RowBoundParams,
    i: int,
    j: int,
)
    requires
        optimal_inputs(profile, posterior, optimal, params),
        optimal_row_done(profile, posterior, optimal, params, i),
        params.in_band(i, j),
        params.in_band(i, j - 1),
        profile.tsc_delta(PROFILE_MATCH_TO_DELETE as int, j - 1) == (Bits { value: ONE }),
        NEG_INF_BITS <= optimal.m(i, j - 1).value <= MAX_BITS,
    ensures
        optimal.del(i, j).value >= optimal.m(i, j - 1).value,
{
    lemma_allowed_step_not_lower(optimal.m(i, j - 1), Bits { value: 0 });
}

/// Optimal accuracy never decreases along an allowed N loop when the N
/// posterior is nonnegative: N on row `i` is at least N on row `i - 1`.
pub proof fn lemma_n_loop_not_lower(
    profile: &Profile<Bits>,
    posterior: &DpMatrix<Bits>,
    optimal: &DpMatrix<Bits>,
    params: &RowBoundParams,
    i: int,
)
    requires
        optimal_inputs(profile, posterior, optimal, params),
        optimal_row_done(profile, posterior, optimal, params, i),
        params.in_rows(i),
        profile.xsc_delta(SPECIAL_N as int, SPECIAL_LOOP as int) == (Bits { value: ONE }),
        0 <= posterior.sp(i, SPECIAL_N as int).value,
        NEG_INF_BITS <= optimal.sp(i - 1, SPECIAL_N as int).value <= MAX_BITS,
    ensures
        optimal.sp(i, SPECIAL_N as int).value >= optimal.sp(i - 1, SPECIAL_N as int).value,
{
    lemma_allowed_step_not_lower(optimal.sp(i - 1, SPECIAL_N as int), posterior.sp(i, SPECIAL_N as int));
}

} // verus!
