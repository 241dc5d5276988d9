use vstd::prelude::*;
use crate::dp_matrix::DpMatrix;
use crate::profile::{
    Profile, SPECIAL_B, SPECIAL_C, SPECIAL_E, SPECIAL_J, SPECIAL_LOOP, SPECIAL_MOVE, SPECIAL_N,
};
use crate::row_bounds::RowBoundParams;
use crate::bits::{Bits, MAX_BITS, ONE};
use crate::score::Score;

verus! {

/// The total log-probability of the target: forward C at the last row of the
/// band, followed by C's move transition.
pub open spec fn overall_score<S: Score>(
    profile: &Profile<S>,
    forward: &DpMatrix<S>,
    params: &RowBoundParams,
) -> S {
    S::spec_add(
        forward.sp(params.target_end as int, SPECIAL_C as int),
        profile.xsc(SPECIAL_C as int, SPECIAL_MOVE as int),
    )
}

/// The posterior of Match at `(i, j)` before the row is renormalised.
pub open spec fn raw_match_posterior<S: Score>(
    forward: &DpMatrix<S>,
    backward: &DpMatrix<S>,
    overall: S,
    i: int,
    j: int,
) -> S {
    S::spec_exp(S::spec_sub(S::spec_add(forward.m(i, j), backward.m(i, j)), overall))
}

/// The posterior of Insert at `(i, j)` before the row is renormalised.
pub open spec fn raw_insert_posterior<S: Score>(
    forward: &DpMatrix<S>,
    backward: &DpMatrix<S>,
    overall: S,
    i: int,
    j: int,
) -> S {
    S::spec_exp(S::spec_sub(S::spec_add(forward.ins(i, j), backward.ins(i, j)), overall))
}

/// The posterior of emitting residue `i` on the loop of special state `s`,
/// before the row is renormalised.
pub open spec fn raw_special_posterior<S: Score>(
    profile: &Profile<S>,
    forward: &DpMatrix<S>,
    backward: &DpMatrix<S>,
    overall: S,
    i: int,
    s: int,
) -> S {
    S::spec_exp(
        S::spec_sub(
            S::spec_add(
                S::spec_add(forward.sp(i - 1, s), backward.sp(i, s)),
                profile.xsc(s, SPECIAL_LOOP as int),
            ),
            overall,
        ),
    )
}

/// The sum, in column order, of the raw Match and Insert posteriors of row `i`
/// over the columns from the row's left bound up to, not including, `k`.
pub open spec fn band_posterior_sum<S: Score>(
    forward: &DpMatrix<S>,
    backward: &DpMatrix<S>,
    params: &RowBoundParams,
    overall: S,
    i: int,
    k: int,
) -> S
    decreases k - params.left(i),
{
    if k <= params.left(i) {
        S::spec_zero()
    } else {
        S::spec_add(
            S::spec_add(
                band_posterior_sum(forward, backward, params, overall, i, k - 1),
                raw_match_posterior(forward, backward, overall, i, k - 1),
            ),
            raw_insert_posterior(forward, backward, overall, i, k - 1),
        )
    }
}

/// The sum of every value that row `i` retains: in-band Match, in-band Insert
/// short of the right bound (whose Insert is zero), then N, J and C.
pub open spec fn row_denominator<S: Score>(
    profile: &Profile<S>,
    forward: &DpMatrix<S>,
    backward: &DpMatrix<S>,
    params: &RowBoundParams,
    i: int,
) -> S {
    let overall = overall_score(profile, forward, params);
    let r = params.right(i);
    S::spec_add(
        S::spec_add(
            S::spec_add(
                S::spec_add(
                    band_posterior_sum(forward, backward, params, overall, i, r),
                    raw_match_posterior(forward, backward, overall, i, r),
                ),
                raw_special_posterior(profile, forward, backward, overall, i, SPECIAL_N as int),
            ),
            raw_special_posterior(profile, forward, backward, overall, i, SPECIAL_J as int),
        ),
        raw_special_posterior(profile, forward, backward, overall, i, SPECIAL_C as int),
    )
}

/// `x` divided by the row's denominator; a row whose denominator is zero is
/// set to zero throughout.
pub open spec fn rescaled<S: Score>(x: S, denominator: S) -> S {
    if S::spec_is_zero(denominator) {
        S::spec_zero()
    } else {
        S::spec_mul(x, S::spec_recip(denominator))
    }
}

/// The renormalised Match posterior of `(i, j)`.
pub open spec fn match_posterior<S: Score>(
    profile: &Profile<S>,
    forward: &DpMatrix<S>,
    backward: &DpMatrix<S>,
    params: &RowBoundParams,
    i: int,
    j: int,
) -> S {
    rescaled(
        raw_match_posterior(forward, backward, overall_score(profile, forward, params), i, j),
        row_denominator(profile, forward, backward, params, i),
    )
}

/// The renormalised Insert posterior of `(i, j)`.
pub open spec fn insert_posterior<S: Score>(
    profile: &Profile<S>,
    forward: &DpMatrix<S>,
    backward: &DpMatrix<S>,
    params: &RowBoundParams,
    i: int,
    j: int,
) -> S {
    rescaled(
        raw_insert_posterior(forward, backward, overall_score(profile, forward, params), i, j),
        row_denominator(profile, forward, backward, params, i),
    )
}

/// The renormalised posterior of special state `s` on row `i`.
pub open spec fn special_posterior<S: Score>(
    profile: &Profile<S>,
    forward: &DpMatrix<S>,
    backward: &DpMatrix<S>,
    params: &RowBoundParams,
    i: int,
    s: int,
) -> S {
    rescaled(
        raw_special_posterior(
            profile,
            forward,
            backward,
            overall_score(profile, forward, params),
            i,
            s,
        ),
        row_denominator(profile, forward, backward, params, i),
    )
}

/// The two passes were run over the same band of the same task.
pub open spec fn posterior_inputs<S: Score>(
    profile: &Profile<S>,
    forward: &DpMatrix<S>,
    backward: &DpMatrix<S>,
    posterior: &DpMatrix<S>,
    params: &RowBoundParams,
) -> bool {
    &&& profile.wf()
    &&& forward.wf()
    &&& backward.wf()
    &&& posterior.wf()
    &&& forward.same_shape(backward)
    &&& forward.same_shape(posterior)
    &&& profile.length == forward.profile_length
    &&& params.valid(forward.target_length as nat, forward.profile_length as nat)
}

/// What `posterior_bounded` leaves in row `i` of the posterior matrix.
pub open spec fn posterior_row_done<S: Score>(
    profile: &Profile<S>,
    forward: &DpMatrix<S>,
    backward: &DpMatrix<S>,
    posterior: &DpMatrix<S>,
    params: &RowBoundParams,
    i: int,
) -> bool {
    &&& forall|j: int|
        params.left(i) <= j <= params.right(i) ==> #[trigger] posterior.m(i, j) == match_posterior(
            profile,
            forward,
            backward,
            params,
            i,
            j,
        )
    &&& forall|j: int|
        params.left(i) <= j < params.right(i) ==> #[trigger] posterior.ins(i, j)
            == insert_posterior(profile, forward, backward, params, i, j)
    &&& posterior.ins(i, params.right(i)) == S::spec_zero()
    &&& forall|j: int|
        params.left(i) <= j <= params.right(i) ==> #[trigger] posterior.del(i, j) == S::spec_zero()
    &&& posterior.sp(i, SPECIAL_N as int) == special_posterior(
        profile,
        forward,
        backward,
        params,
        i,
        SPECIAL_N as int,
    )
    &&& posterior.sp(i, SPECIAL_J as int) == special_posterior(
        profile,
        forward,
        backward,
        params,
        i,
        SPECIAL_J as int,
    )
    &&& posterior.sp(i, SPECIAL_C as int) == special_posterior(
        profile,
        forward,
        backward,
        params,
        i,
        SPECIAL_C as int,
    )
    &&& posterior.sp(i, SPECIAL_B as int) == S::spec_zero()
    &&& posterior.sp(i, SPECIAL_E as int) == S::spec_zero()
}

/// Row `target_start - 1` of the posterior matrix is zero everywhere.
pub open spec fn posterior_boundary_done<S: Score>(
    posterior: &DpMatrix<S>,
    params: &RowBoundParams,
) -> bool {
    let b = params.target_start - 1;
    &&& forall|j: int|
        0 <= j < posterior.width() ==> #[trigger] posterior.m(b, j) == S::spec_zero()
            && posterior.ins(b, j) == S::spec_zero() && posterior.del(b, j) == S::spec_zero()
    &&& forall|s: int| 0 <= s < 5 ==> #[trigger] posterior.sp(b, s) == S::spec_zero()
}

proof fn lemma_posterior_rows_kept<S: Score>(
    profile: &Profile<S>,
    forward: &DpMatrix<S>,
    backward: &DpMatrix<S>,
    before: &DpMatrix<S>,
    after: &DpMatrix<S>,
    params: &RowBoundParams,
    i: int,
)
    requires
        posterior_inputs(profile, forward, backward, before, params),
        after.same_shape(before),
        after.agrees_outside_row(before, i),
        params.target_start <= i <= params.target_end,
        posterior_boundary_done(before, params),
        forall|r: int|
            params.target_start <= r < i ==> #[trigger] posterior_row_done(
                profile,
                forward,
                backward,
                before,
                params,
                r,
            ),
    ensures
        posterior_boundary_done(after, params),
        forall|r: int|
            params.target_start <= r < i ==> #[trigger] posterior_row_done(
                profile,
                forward,
                backward,
                after,
                params,
                r,
            ),
{
    let b = params.target_start - 1;
    assert forall|j: int| 0 <= j < after.width() implies #[trigger] after.m(b, j) == S::spec_zero()
        && after.ins(b, j) == S::spec_zero() && after.del(b, j) == S::spec_zero() by {
        assert(after.in_range(b, j));
        assert(before.m(b, j) == S::spec_zero());
    }
    assert forall|r: int|
        params.target_start <= r < i implies #[trigger] posterior_row_done(
        profile,
        forward,
        backward,
        after,
        params,
        r,
    ) by {
        assert(posterior_row_done(profile, forward, backward, before, params, r));
        assert(1 <= params.left(r) <= params.right(r) <= forward.profile_length);
        assert forall|j: int|
            params.left(r) <= j <= params.right(r) implies after.in_range(r, j) by {}
        assert(after.in_range(r, params.right(r)));
    }
}

/// Fills `posterior_matrix` with the posterior probability of every in-band
/// state, from a forward and a backward matrix over the same band.
///
/// Row `target_start - 1` is zero everywhere. On each row of the band, Match
/// and Insert take `exp(forward + backward - overall)`, N, J and C take
/// `exp(forward[i - 1] + backward[i] + loop - overall)`, and Delete, B and E
/// are zero; then every retained value is divided by the row's sum, so that
/// the row sums to one. A row whose sum is zero is left all zero.
pub fn posterior_bounded<S: Score>(
    profile: &Profile<S>,
    forward_matrix: &DpMatrix<S>,
    backward_matrix: &DpMatrix<S>,
    posterior_matrix: &mut DpMatrix<S>,
    params: &RowBoundParams,
)
    requires
        posterior_inputs(profile, forward_matrix, backward_matrix, old(posterior_matrix), params),
    ensures
        final(posterior_matrix).wf(),
        final(posterior_matrix).same_shape(old(posterior_matrix)),
        posterior_boundary_done(final(posterior_matrix), params),
        forall|i: int|
            params.in_rows(i) ==> #[trigger] posterior_row_done(
                profile,
                forward_matrix,
                backward_matrix,
                final(posterior_matrix),
                params,
                i,
            ),
        forall|i: int, j: int|
            params.in_band(i, j) ==> #[trigger] final(posterior_matrix).del(i, j) == S::spec_zero(),
{
    let target_start = params.target_start;
    let target_end = params.target_end;
    let overall = S::add(
        forward_matrix.get_special(target_end, SPECIAL_C),
        profile.special_transition_score(SPECIAL_C, SPECIAL_MOVE),
    );
    let zero = S::zero();
    let boundary = target_start - 1;

    let mut s: usize = 0;
    while s < 5
        invariant
            s <= 5,
            boundary == params.target_start - 1,
            posterior_inputs(profile, forward_matrix, backward_matrix, posterior_matrix, params),
            posterior_matrix.same_shape(old(posterior_matrix)),
            zero == S::spec_zero(),
            forall|t: int| 0 <= t < s ==> #[trigger] posterior_matrix.sp(boundary as int, t) == zero,
        decreases 5 - s,
    {
        posterior_matrix.set_special(boundary, s, zero);
        s = s + 1;
    }
    let width = posterior_matrix.profile_length + 2;
    let mut j: usize = 0;
    while j < width
        invariant
            j <= width,
            width == posterior_matrix.width(),
            boundary == params.target_start - 1,
            posterior_inputs(profile, forward_matrix, backward_matrix, posterior_matrix, params),
            posterior_matrix.same_shape(old(posterior_matrix)),
            zero == S::spec_zero(),
            forall|t: int| 0 <= t < 5 ==> #[trigger] posterior_matrix.sp(boundary as int, t) == zero,
            forall|t: int|
                0 <= t < j ==> #[trigger] posterior_matrix.m(boundary as int, t) == zero
                    && posterior_matrix.ins(boundary as int, t) == zero && posterior_matrix.del(
                    boundary as int,
                    t,
                ) == zero,
        decreases width - j,
    {
        posterior_matrix.set_match(boundary, j, zero);
        posterior_matrix.set_insert(boundary, j, zero);
        posterior_matrix.set_delete(boundary, j, zero);
        j = j + 1;
    }

    let mut i: usize = target_start;
    while i <= target_end
        invariant
            target_start <= i <= target_end + 1,
            target_start == params.target_start,
            target_end == params.target_end,
            posterior_inputs(profile, forward_matrix, backward_matrix, posterior_matrix, params),
            posterior_matrix.same_shape(old(posterior_matrix)),
            zero == S::spec_zero(),
            overall == overall_score(profile, forward_matrix, params),
            posterior_boundary_done(posterior_matrix, params),
            forall|r: int|
                target_start <= r < i ==> #[trigger] posterior_row_done(
                    profile,
                    forward_matrix,
                    backward_matrix,
                    posterior_matrix,
                    params,
                    r,
                ),
        decreases target_end + 1 - i,
    {
        let ghost before = *posterior_matrix;
        let left = params.left_row_bounds[i];
        let right = params.right_row_bounds[i];
        assert(1 <= params.left(i as int) <= params.right(i as int) <= profile.length);

        // raw posteriors of the row, and their sum
        let mut raw_match: Vec<S> = Vec::new();
        let mut raw_insert: Vec<S> = Vec::new();
        let mut denominator = zero;
        let mut j: usize = left;
        while j < right
            invariant
                left <= j <= right,
                left == params.left(i as int),
                right == params.right(i as int),
                1 <= left <= right <= forward_matrix.profile_length,
                target_start <= i <= target_end,
                target_end == params.target_end,
                posterior_inputs(profile, forward_matrix, backward_matrix, posterior_matrix, params),
                zero == S::spec_zero(),
                overall == overall_score(profile, forward_matrix, params),
                raw_match@.len() == j - left,
                raw_insert@.len() == j - left,
                forall|k: int|
                    0 <= k < j - left ==> #[trigger] raw_match@[k] == raw_match_posterior(
                        forward_matrix,
                        backward_matrix,
                        overall,
                        i as int,
                        left + k,
                    ) && raw_insert@[k] == raw_insert_posterior(
                        forward_matrix,
                        backward_matrix,
                        overall,
                        i as int,
                        left + k,
                    ),
                denominator == band_posterior_sum(
                    forward_matrix,
                    backward_matrix,
                    params,
                    overall,
                    i as int,
                    j as int,
                ),
            decreases right - j,
        {
            let m = S::exp(
                S::sub(S::add(forward_matrix.get_match(i, j), backward_matrix.get_match(i, j)), overall),
            );
            let ins = S::exp(
                S::sub(
                    S::add(forward_matrix.get_insert(i, j), backward_matrix.get_insert(i, j)),
                    overall,
                ),
            );
            raw_match.push(m);
            raw_insert.push(ins);
            denominator = S::add(S::add(denominator, m), ins);
            j = j + 1;
        }
        let m_right = S::exp(
            S::sub(
                S::add(forward_matrix.get_match(i, right), backward_matrix.get_match(i, right)),
                overall,
            ),
        );
        let n = S::exp(
            S::sub(
                S::add(
                    S::add(
                        forward_matrix.get_special(i - 1, SPECIAL_N),
                        backward_matrix.get_special(i, SPECIAL_N),
                    ),
                    profile.special_transition_score(SPECIAL_N, SPECIAL_LOOP),
                ),
                overall,
            ),
        );
        let jj = S::exp(
            S::sub(
                S::add(
                    S::add(
                        forward_matrix.get_special(i - 1, SPECIAL_J),
                        backward_matrix.get_special(i, SPECIAL_J),
                    ),
                    profile.special_transition_score(SPECIAL_J, SPECIAL_LOOP),
                ),
                overall,
            ),
        );
        let c = S::exp(
            S::sub(
                S::add(
                    S::add(
                        forward_matrix.get_special(i - 1, SPECIAL_C),
                        backward_matrix.get_special(i, SPECIAL_C),
                    ),
                    profile.special_transition_score(SPECIAL_C, SPECIAL_LOOP),
                ),
                overall,
            ),
        );
        denominator = S::add(S::add(S::add(S::add(denominator, m_right), n), jj), c);
        let ghost denominator_spec = row_denominator(
            profile,
            forward_matrix,
            backward_matrix,
            params,
            i as int,
        );
        assert(denominator == denominator_spec);
        let zero_row = S::is_zero(denominator);
        let scale = S::recip(denominator);

        // renormalised values
        let mut j: usize = left;
        while j < right
            invariant
                left <= j <= right,
                left == params.left(i as int),
                right == params.right(i as int),
                1 <= left <= right <= forward_matrix.profile_length,
                target_start <= i <= target_end,
                target_start == params.target_start,
                target_end == params.target_end,
                posterior_inputs(profile, forward_matrix, backward_matrix, posterior_matrix, params),
                posterior_matrix.same_shape(old(posterior_matrix)),
                zero == S::spec_zero(),
                overall == overall_score(profile, forward_matrix, params),
                denominator_spec == row_denominator(
                    profile,
                    forward_matrix,
                    backward_matrix,
                    params,
                    i as int,
                ),
                zero_row == S::spec_is_zero(denominator_spec),
                m_right == raw_match_posterior(
                    forward_matrix,
                    backward_matrix,
                    overall,
                    i as int,
                    right as int,
                ),
                n == raw_special_posterior(
                    profile,
                    forward_matrix,
                    backward_matrix,
                    overall,
                    i as int,
                    SPECIAL_N as int,
                ),
                jj == raw_special_posterior(
                    profile,
                    forward_matrix,
                    backward_matrix,
                    overall,
                    i as int,
                    SPECIAL_J as int,
                ),
                c == raw_special_posterior(
                    profile,
                    forward_matrix,
                    backward_matrix,
                    overall,
                    i as int,
                    SPECIAL_C as int,
                ),
                scale == S::spec_recip(denominator_spec),
                raw_match@.len() == right - left,
                raw_insert@.len() == right - left,
                forall|k: int|
                    0 <= k < right - left ==> #[trigger] raw_match@[k] == raw_match_posterior(
                        forward_matrix,
                        backward_matrix,
                        overall,
                        i as int,
                        left + k,
                    ) && raw_insert@[k] == raw_insert_posterior(
                        forward_matrix,
                        backward_matrix,
                        overall,
                        i as int,
                        left + k,
                    ),
                posterior_matrix.agrees_outside_row(&before, i as int),
                posterior_inputs(profile, forward_matrix, backward_matrix, &before, params),
                posterior_matrix.same_shape(&before),
                posterior_boundary_done(&before, params),
                forall|r: int|
                    target_start <= r < i ==> #[trigger] posterior_row_done(
                        profile,
                        forward_matrix,
                        backward_matrix,
                        &before,
                        params,
                        r,
                    ),
                forall|t: int|
                    left <= t < j ==> #[trigger] posterior_matrix.m(i as int, t) == match_posterior(
                        profile,
                        forward_matrix,
                        backward_matrix,
                        params,
                        i as int,
                        t,
                    ),
                forall|t: int|
                    left <= t < j ==> #[trigger] posterior_matrix.ins(i as int, t) == insert_posterior(
                        profile,
                        forward_matrix,
                        backward_matrix,
                        params,
                        i as int,
                        t,
                    ),
                forall|t: int| left <= t < j ==> #[trigger] posterior_matrix.del(i as int, t) == zero,
            decreases right - j,
        {
            let m = if zero_row {
                zero
            } else {
                S::mul(raw_match[j - left], scale)
            };
            let ins = if zero_row {
                zero
            } else {
                S::mul(raw_insert[j - left], scale)
            };
            posterior_matrix.set_match(i, j, m);
            posterior_matrix.set_insert(i, j, ins);
            posterior_matrix.set_delete(i, j, zero);
            j = j + 1;
        }
        let m = if zero_row {
            zero
        } else {
            S::mul(m_right, scale)
        };
        posterior_matrix.set_match(i, right, m);
        posterior_matrix.set_insert(i, right, zero);
        posterior_matrix.set_delete(i, right, zero);
        let n = if zero_row {
            zero
        } else {
            S::mul(n, scale)
        };
        let jj = if zero_row {
            zero
        } else {
            S::mul(jj, scale)
        };
        let c = if zero_row {
            zero
        } else {
            S::mul(c, scale)
        };
        posterior_matrix.set_special(i, SPECIAL_N, n);
        posterior_matrix.set_special(i, SPECIAL_J, jj);
        posterior_matrix.set_special(i, SPECIAL_C, c);
        posterior_matrix.set_special(i, SPECIAL_B, zero);
        posterior_matrix.set_special(i, SPECIAL_E, zero);
        assert(posterior_row_done(
            profile,
            forward_matrix,
            backward_matrix,
            posterior_matrix,
            params,
            i as int,
        ));
        proof {
            lemma_posterior_rows_kept(
                profile,
                forward_matrix,
                backward_matrix,
                &before,
                posterior_matrix,
                params,
                i as int,
            );
        }
        i = i + 1;
    }
    assert forall|i: int, j: int| params.in_band(i, j) implies #[trigger] posterior_matrix.del(
        i,
        j,
    ) == S::spec_zero() by {
        assert(posterior_row_done(
            profile,
            forward_matrix,
            backward_matrix,
            posterior_matrix,
            params,
            i,
        ));
    }
}

/// The sum, as an integer, of the retained Match and Insert values of row `i`
/// over the columns from its left bound up to, not including, `k`.
pub open spec fn retained_band_sum(posterior: &DpMatrix<Bits>, params: &RowBoundParams, i: int, k: int) -> int
    decreases k - params.left(i),
{
    if k <= params.left(i) {
        0
    } else {
        retained_band_sum(posterior, params, i, k - 1) + posterior.m(i, k - 1).value
            + posterior.ins(i, k - 1).value
    }
}

/// The sum, as an integer, of every value that row `i` retains: in-band Match
/// and Insert, N, J and C.
pub open spec fn retained_row_sum(posterior: &DpMatrix<Bits>, params: &RowBoundParams, i: int) -> int {
    let r = params.right(i);
    retained_band_sum(posterior, params, i, r) + posterior.m(i, r).value + posterior.ins(i, r).value
        + posterior.sp(i, SPECIAL_N as int).value + posterior.sp(i, SPECIAL_J as int).value
        + posterior.sp(i, SPECIAL_C as int).value
}

/// The raw band posteriors of row `i` summed as integers.
pub open spec fn raw_band_total(
    forward: &DpMatrix<Bits>,
    backward: &DpMatrix<Bits>,
    params: &RowBoundParams,
    overall: Bits,
    i: int,
    k: int,
) -> int
    decreases k - params.left(i),
{
    if k <= params.left(i) {
        0
    } else {
        raw_band_total(forward, backward, params, overall, i, k - 1) + raw_match_posterior(
            forward,
            backward,
            overall,
            i,
            k - 1,
        ).value + raw_insert_posterior(forward, backward, overall, i, k - 1).value
    }
}

proof fn lemma_exp_in_range(a: Bits)
    ensures
        0 <= Bits::spec_exp(a).value <= MAX_BITS,
{
    let k = a.value as int;
    if !(crate::bits::is_neg_inf(k) || k < -crate::bits::FRACTION_BITS) && !(k > 40
        - crate::bits::FRACTION_BITS) {
        crate::bits::lemma_pow2_range((k + crate::bits::FRACTION_BITS) as nat);
    }
}

/// The running denominator is the integer sum, saturated at `MAX_BITS`.
proof fn lemma_band_sum_saturated(
    forward: &DpMatrix<Bits>,
    backward: &DpMatrix<Bits>,
    params: &RowBoundParams,
    overall: Bits,
    i: int,
    k: int,
)
    ensures
        band_posterior_sum(forward, backward, params, overall, i, k).value == min_bits(
            raw_band_total(forward, backward, params, overall, i, k),
        ),
        0 <= raw_band_total(forward, backward, params, overall, i, k),
    decreases k - params.left(i),
{
    if k > params.left(i) {
        lemma_exp_in_range(match_log_ratio(forward, backward, overall, i, k - 1));
        lemma_exp_in_range(insert_log_ratio(forward, backward, overall, i, k - 1));
        lemma_band_sum_saturated(forward, backward, params, overall, i, k - 1);
    }
}

/// `x` held at most at `MAX_BITS`.
pub open spec fn min_bits(x: int) -> int {
    if x < MAX_BITS {
        x
    } else {
        MAX_BITS as int
    }
}

/// The log-odds whose exponential is the raw Match posterior.
spec fn match_log_ratio(forward: &DpMatrix<Bits>, backward: &DpMatrix<Bits>, overall: Bits, i: int, j: int) -> Bits {
    Bits::spec_sub(Bits::spec_add(forward.m(i, j), backward.m(i, j)), overall)
}

/// The log-odds whose exponential is the raw Insert posterior.
spec fn insert_log_ratio(forward: &DpMatrix<Bits>, backward: &DpMatrix<Bits>, overall: Bits, i: int, j: int) -> Bits {
    Bits::spec_sub(Bits::spec_add(forward.ins(i, j), backward.ins(i, j)), overall)
}

/// Rescaling `x` by a positive, unsaturated denominator `d` rounds
/// `x * floor(ONE * ONE / d) / ONE` down, and never goes past `ONE`.
proof fn lemma_rescaled_bounds(x: Bits, d: Bits)
    requires
        0 <= x.value <= d.value,
        0 < d.value < MAX_BITS,
    ensures
        0 <= rescaled(x, d).value <= ONE,
        ONE * rescaled(x, d).value <= x.value * ((ONE * ONE) / (d.value as int)),
        ONE * rescaled(x, d).value > x.value * ((ONE * ONE) / (d.value as int)) - ONE,
{
    let dv = d.value as int;
    let xv = x.value as int;
    let r = (ONE * ONE) / dv;
    assert(0 <= r <= ONE * ONE) by (nonlinear_arith)
        requires
            dv > 0,
            r == (ONE * ONE) / dv,
    ;
    assert(dv * r <= ONE * ONE) by (nonlinear_arith)
        requires
            dv > 0,
            r == (ONE * ONE) / dv,
    ;
    assert(0 <= xv * r <= ONE * ONE) by (nonlinear_arith)
        requires
            0 <= xv <= dv,
            dv * r <= ONE * ONE,
            0 <= r,
    ;
    let q = (xv * r) / (ONE as int);
    assert(ONE * q <= xv * r && xv * r < ONE * q + ONE && q <= ONE) by (nonlinear_arith)
        requires
            q == (xv * r) / (ONE as int),
            0 <= xv * r <= ONE * ONE,
    ;
    assert(Bits::spec_recip(d).value == r);
    assert(rescaled(x, d).value == q);
}

proof fn lemma_raw_total_monotone(
    forward: &DpMatrix<Bits>,
    backward: &DpMatrix<Bits>,
    params: &RowBoundParams,
    overall: Bits,
    i: int,
    k: int,
    m: int,
)
    requires
        params.left(i) <= k <= m,
    ensures
        raw_band_total(forward, backward, params, overall, i, k) <= raw_band_total(
            forward,
            backward,
            params,
            overall,
            i,
            m,
        ),
    decreases m - k,
{
    if k < m {
        lemma_exp_in_range(match_log_ratio(forward, backward, overall, i, m - 1));
        lemma_exp_in_range(insert_log_ratio(forward, backward, overall, i, m - 1));
        lemma_raw_total_monotone(forward, backward, params, overall, i, k, m - 1);
    }
}

/// The retained band values of a row against the raw ones, column by column.
proof fn lemma_retained_band_bounds(
    profile: &Profile<Bits>,
    forward: &DpMatrix<Bits>,
    backward: &DpMatrix<Bits>,
    posterior: &DpMatrix<Bits>,
    params: &RowBoundParams,
    i: int,
    k: int,
)
    requires
        posterior_row_done(profile, forward, backward, posterior, params, i),
        params.left(i) <= k <= params.right(i),
        raw_band_total(
            forward,
            backward,
            params,
            overall_score(profile, forward, params),
            i,
            params.right(i),
        ) <= row_denominator(profile, forward, backward, params, i).value,
        0 < row_denominator(profile, forward, backward, params, i).value < MAX_BITS,
    ensures
        ({
            let overall = overall_score(profile, forward, params);
            let d = row_denominator(profile, forward, backward, params, i).value;
            let r = (ONE * ONE) / (d as int);
            let t = raw_band_total(forward, backward, params, overall, i, k);
            let s = retained_band_sum(posterior, params, i, k);
            ONE * s <= r * t && ONE * s >= r * t - 2 * ONE * (k - params.left(i))
        }),
    decreases k - params.left(i),
{
    if k > params.left(i) {
        let overall = overall_score(profile, forward, params);
        let d = row_denominator(profile, forward, backward, params, i);
        lemma_retained_band_bounds(profile, forward, backward, posterior, params, i, k - 1);
        let xm = raw_match_posterior(forward, backward, overall, i, k - 1);
        let xi = raw_insert_posterior(forward, backward, overall, i, k - 1);
        lemma_exp_in_range(match_log_ratio(forward, backward, overall, i, k - 1));
        lemma_exp_in_range(insert_log_ratio(forward, backward, overall, i, k - 1));
        lemma_raw_total_monotone(forward, backward, params, overall, i, k, params.right(i));
        lemma_band_sum_saturated(forward, backward, params, overall, i, k - 1);
        lemma_rescaled_bounds(xm, d);
        lemma_rescaled_bounds(xi, d);
        assert(posterior.m(i, k - 1) == rescaled(xm, d));
        assert(posterior.ins(i, k - 1) == rescaled(xi, d));
        let r = (ONE * ONE) / (d.value as int);
        let t0 = raw_band_total(forward, backward, params, overall, i, k - 1);
        assert(r * (t0 + xm.value + xi.value) == r * t0 + r * xm.value + r * xi.value) by (
        nonlinear_arith);
    }
}

/// Renormalisation makes each row of the posterior sum to one, up to rounding.
///
/// In the integer domain, when the row's raw posteriors sum to `d` with
/// `0 < d < MAX_BITS` (the row is not all zero and nothing saturated), the
/// retained values of the row (in-band Match and Insert, N, J and C) sum to at
/// most `ONE`, and to less than `ONE` by at most `d / ONE` plus one unit per
/// retained value.
pub proof fn lemma_posterior_row_sums_to_one(
    profile: &Profile<Bits>,
    forward: &DpMatrix<Bits>,
    backward: &DpMatrix<Bits>,
    posterior: &DpMatrix<Bits>,
    params: &RowBoundParams,
    i: int,
)
    requires
        posterior_inputs(profile, forward, backward, posterior, params),
        params.in_rows(i),
        posterior_row_done(profile, forward, backward, posterior, params, i),
        0 < row_denominator(profile, forward, backward, params, i).value < MAX_BITS,
    ensures
        retained_row_sum(posterior, params, i) <= ONE,
        ONE * retained_row_sum(posterior, params, i) >= ONE * ONE - row_denominator(
            profile,
            forward,
            backward,
            params,
            i,
        ).value - ONE * (2 * (params.right(i) - params.left(i)) + 4),
{
    let overall = overall_score(profile, forward, params);
    let d = row_denominator(profile, forward, backward, params, i);
    let l = params.left(i);
    let rt = params.right(i);
    assert(l <= rt);
    let t = raw_band_total(forward, backward, params, overall, i, rt);
    let xm = raw_match_posterior(forward, backward, overall, i, rt);
    let xn = raw_special_posterior(profile, forward, backward, overall, i, SPECIAL_N as int);
    let xj = raw_special_posterior(profile, forward, backward, overall, i, SPECIAL_J as int);
    let xc = raw_special_posterior(profile, forward, backward, overall, i, SPECIAL_C as int);
    lemma_band_sum_saturated(forward, backward, params, overall, i, rt);
    lemma_exp_in_range(match_log_ratio(forward, backward, overall, i, rt));
    lemma_exp_in_range(
        Bits::spec_sub(
            Bits::spec_add(
                Bits::spec_add(forward.sp(i - 1, SPECIAL_N as int), backward.sp(i, SPECIAL_N as int)),
                profile.xsc(SPECIAL_N as int, SPECIAL_LOOP as int),
            ),
            overall,
        ),
    );
    lemma_exp_in_range(
        Bits::spec_sub(
            Bits::spec_add(
                Bits::spec_add(forward.sp(i - 1, SPECIAL_J as int), backward.sp(i, SPECIAL_J as int)),
                profile.xsc(SPECIAL_J as int, SPECIAL_LOOP as int),
            ),
            overall,
        ),
    );
    lemma_exp_in_range(
        Bits::spec_sub(
            Bits::spec_add(
                Bits::spec_add(forward.sp(i - 1, SPECIAL_C as int), backward.sp(i, SPECIAL_C as int)),
                profile.xsc(SPECIAL_C as int, SPECIAL_LOOP as int),
            ),
            overall,
        ),
    );
    let total = t + xm.value + xn.value + xj.value + xc.value;
    assert(d.value == min_bits(total));
    assert(d.value == total);
    lemma_retained_band_bounds(profile, forward, backward, posterior, params, i, rt);
    lemma_rescaled_bounds(xm, d);
    lemma_rescaled_bounds(xn, d);
    lemma_rescaled_bounds(xj, d);
    lemma_rescaled_bounds(xc, d);
    let r = (ONE * ONE) / (d.value as int);
    assert(r * total == r * t + r * xm.value + r * xn.value + r * xj.value + r * xc.value) by (
    nonlinear_arith)
        requires
            total == t + xm.value + xn.value + xj.value + xc.value,
    ;
    assert(r * total <= ONE * ONE && r * total > ONE * ONE - total) by (nonlinear_arith)
        requires
            total > 0,
            r == (ONE * ONE) / total,
    ;
}

} // verus!
