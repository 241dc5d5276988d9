use vstd::prelude::*;
use crate::dp_matrix::DpMatrix;
use crate::profile::{
    Profile, PROFILE_BEGIN_TO_MATCH, PROFILE_DELETE_TO_DELETE, PROFILE_DELETE_TO_MATCH,
    PROFILE_INSERT_TO_INSERT, PROFILE_INSERT_TO_MATCH, PROFILE_MATCH_TO_DELETE,
    PROFILE_MATCH_TO_INSERT, PROFILE_MATCH_TO_MATCH, SPECIAL_B, SPECIAL_C, SPECIAL_E, SPECIAL_J,
    SPECIAL_LOOP, SPECIAL_MOVE, SPECIAL_N,
};
use crate::row_bounds::RowBoundParams;
use crate::score::Score;
use crate::sequence::Sequence;

verus! {

/// The inputs of one backward pass fit each other.
pub open spec fn backward_inputs<S: Score>(
    profile: &Profile<S>,
    target: &Sequence,
    dp: &DpMatrix<S>,
    params: &RowBoundParams,
) -> bool {
    &&& profile.wf()
    &&& target.wf(profile.alphabet_size())
    &&& dp.wf()
    &&& dp.target_length == target.length
    &&& dp.profile_length == profile.length
    &&& params.valid(dp.target_length as nat, dp.profile_length as nat)
}

/// Entering Match `j` from the begin state of row `i`: the next row's Match,
/// the begin transition and the emission of residue `i + 1`.
pub open spec fn begin_term<S: Score>(
    profile: &Profile<S>,
    target: &Sequence,
    dp: &DpMatrix<S>,
    params: &RowBoundParams,
    i: int,
    j: int,
) -> S {
    S::spec_add(
        S::spec_add(
            dp.band_m(params, i + 1, j),
            profile.tsc(PROFILE_BEGIN_TO_MATCH as int, j - 1),
        ),
        profile.msc(target.residue(i + 1), j),
    )
}

/// The log-sum of `begin_term(i, j)` over `j` from `left` up to `k`, taken in
/// column order.
pub open spec fn begin_sum<S: Score>(
    profile: &Profile<S>,
    target: &Sequence,
    dp: &DpMatrix<S>,
    params: &RowBoundParams,
    i: int,
    left: int,
    k: int,
) -> S
    decreases k - left,
{
    if k <= left {
        begin_term(profile, target, dp, params, i, left)
    } else {
        S::spec_log_sum(
            begin_sum(profile, target, dp, params, i, left, k - 1),
            begin_term(profile, target, dp, params, i, k),
        )
    }
}

/// Reaching Match `j + 1` of the next row by transition `kind` out of `(i, j)`.
pub open spec fn next_match_term<S: Score>(
    profile: &Profile<S>,
    target: &Sequence,
    dp: &DpMatrix<S>,
    params: &RowBoundParams,
    kind: int,
    i: int,
    j: int,
) -> S {
    S::spec_add(
        S::spec_add(dp.band_m(params, i + 1, j + 1), profile.tsc(kind, j)),
        profile.msc(target.residue(i + 1), j + 1),
    )
}

/// Reaching Insert `j` of the next row by transition `kind` out of `(i, j)`.
pub open spec fn next_insert_term<S: Score>(
    profile: &Profile<S>,
    target: &Sequence,
    dp: &DpMatrix<S>,
    params: &RowBoundParams,
    kind: int,
    i: int,
    j: int,
) -> S {
    S::spec_add(
        S::spec_add(dp.band_ins(params, i + 1, j), profile.tsc(kind, j)),
        profile.isc(target.residue(i + 1), j),
    )
}

/// Reaching Delete `j + 1` of the same row by transition `kind` out of `(i, j)`.
pub open spec fn next_delete_term<S: Score>(
    profile: &Profile<S>,
    dp: &DpMatrix<S>,
    kind: int,
    i: int,
    j: int,
) -> S {
    S::spec_add(dp.del(i, j + 1), profile.tsc(kind, j))
}

/// The seeded last row of the band.
pub open spec fn backward_last_row_done<S: Score>(
    profile: &Profile<S>,
    dp: &DpMatrix<S>,
    params: &RowBoundParams,
) -> bool {
    let i = params.target_end as int;
    let r = params.right(i);
    let e = dp.sp(i, SPECIAL_E as int);
    &&& dp.sp(i, SPECIAL_C as int) == profile.xsc(SPECIAL_C as int, SPECIAL_MOVE as int)
    &&& e == S::spec_add(
        profile.xsc(SPECIAL_C as int, SPECIAL_MOVE as int),
        profile.xsc(SPECIAL_E as int, SPECIAL_MOVE as int),
    )
    &&& dp.sp(i, SPECIAL_J as int) == S::spec_neg_inf()
    &&& dp.sp(i, SPECIAL_B as int) == S::spec_neg_inf()
    &&& dp.sp(i, SPECIAL_N as int) == S::spec_neg_inf()
    &&& dp.m(i, r) == e
    &&& dp.del(i, r) == e
    &&& forall|j: int| params.left(i) <= j <= r ==> #[trigger] dp.ins(i, j) == S::spec_neg_inf()
    &&& forall|j: int|
        params.left(i) <= j < r ==> #[trigger] dp.m(i, j) == S::spec_log_sum(
            e,
            next_delete_term(profile, dp, PROFILE_MATCH_TO_DELETE as int, i, j),
        )
    &&& forall|j: int|
        params.left(i) <= j < r ==> #[trigger] dp.del(i, j) == S::spec_log_sum(
            e,
            next_delete_term(profile, dp, PROFILE_DELETE_TO_DELETE as int, i, j),
        )
}

/// The special states of row `i`, in the order they depend on each other.
pub open spec fn backward_specials_done<S: Score>(
    profile: &Profile<S>,
    target: &Sequence,
    dp: &DpMatrix<S>,
    params: &RowBoundParams,
    i: int,
) -> bool {
    let b = dp.sp(i, SPECIAL_B as int);
    let jj = dp.sp(i, SPECIAL_J as int);
    let c = dp.sp(i, SPECIAL_C as int);
    &&& b == begin_sum(profile, target, dp, params, i, params.left(i), params.right(i))
    &&& jj == S::spec_log_sum(
        S::spec_add(dp.sp(i + 1, SPECIAL_J as int), profile.xsc(SPECIAL_J as int, SPECIAL_LOOP as int)),
        S::spec_add(b, profile.xsc(SPECIAL_J as int, SPECIAL_MOVE as int)),
    )
    &&& c == S::spec_add(
        dp.sp(i + 1, SPECIAL_C as int),
        profile.xsc(SPECIAL_C as int, SPECIAL_LOOP as int),
    )
    &&& dp.sp(i, SPECIAL_E as int) == S::spec_log_sum(
        S::spec_add(jj, profile.xsc(SPECIAL_E as int, SPECIAL_LOOP as int)),
        S::spec_add(c, profile.xsc(SPECIAL_E as int, SPECIAL_MOVE as int)),
    )
    &&& dp.sp(i, SPECIAL_N as int) == S::spec_log_sum(
        S::spec_add(dp.sp(i + 1, SPECIAL_N as int), profile.xsc(SPECIAL_N as int, SPECIAL_LOOP as int)),
        S::spec_add(b, profile.xsc(SPECIAL_N as int, SPECIAL_MOVE as int)),
    )
}

/// Match at `(i, j)` short of the row's right bound. Ending the match from
/// here contributes E unchanged: the end score is zero in log space.
pub open spec fn backward_match_eq<S: Score>(
    profile: &Profile<S>,
    target: &Sequence,
    dp: &DpMatrix<S>,
    params: &RowBoundParams,
    i: int,
    j: int,
) -> S {
    S::spec_log_sum(
        S::spec_log_sum(
            S::spec_log_sum(
                next_match_term(profile, target, dp, params, PROFILE_MATCH_TO_MATCH as int, i, j),
                next_insert_term(profile, target, dp, params, PROFILE_MATCH_TO_INSERT as int, i, j),
            ),
            dp.sp(i, SPECIAL_E as int),
        ),
        next_delete_term(profile, dp, PROFILE_MATCH_TO_DELETE as int, i, j),
    )
}

/// Insert at `(i, j)` short of the row's right bound.
pub open spec fn backward_insert_eq<S: Score>(
    profile: &Profile<S>,
    target: &Sequence,
    dp: &DpMatrix<S>,
    params: &RowBoundParams,
    i: int,
    j: int,
) -> S {
    S::spec_log_sum(
        next_match_term(profile, target, dp, params, PROFILE_INSERT_TO_MATCH as int, i, j),
        next_insert_term(profile, target, dp, params, PROFILE_INSERT_TO_INSERT as int, i, j),
    )
}

/// Delete at `(i, j)` short of the row's right bound.
pub open spec fn backward_delete_eq<S: Score>(
    profile: &Profile<S>,
    target: &Sequence,
    dp: &DpMatrix<S>,
    params: &RowBoundParams,
    i: int,
    j: int,
) -> S {
    S::spec_log_sum(
        S::spec_log_sum(
            next_match_term(profile, target, dp, params, PROFILE_DELETE_TO_MATCH as int, i, j),
            next_delete_term(profile, dp, PROFILE_DELETE_TO_DELETE as int, i, j),
        ),
        dp.sp(i, SPECIAL_E as int),
    )
}

/// Row `i` of the band, short of the last, as the backward recursion fills it.
pub open spec fn backward_row_done<S: Score>(
    profile: &Profile<S>,
    target: &Sequence,
    dp: &DpMatrix<S>,
    params: &RowBoundParams,
    i: int,
) -> bool {
    let r = params.right(i);
    let e = dp.sp(i, SPECIAL_E as int);
    &&& backward_specials_done(profile, target, dp, params, i)
    &&& dp.m(i, r) == e
    &&& dp.ins(i, r) == S::spec_neg_inf()
    &&& dp.del(i, r) == e
    &&& forall|j: int|
        params.left(i) <= j < r ==> #[trigger] dp.m(i, j) == backward_match_eq(
            profile,
            target,
            dp,
            params,
            i,
            j,
        )
    &&& forall|j: int|
        params.left(i) <= j < r ==> #[trigger] dp.ins(i, j) == backward_insert_eq(
            profile,
            target,
            dp,
            params,
            i,
            j,
        )
    &&& forall|j: int|
        params.left(i) <= j < r ==> #[trigger] dp.del(i, j) == backward_delete_eq(
            profile,
            target,
            dp,
            params,
            i,
            j,
        )
}

/// Row `target_start - 1`: the begin and N states over the first row's band,
/// everything else negative infinity.
pub open spec fn backward_boundary_done<S: Score>(
    profile: &Profile<S>,
    target: &Sequence,
    dp: &DpMatrix<S>,
    params: &RowBoundParams,
) -> bool {
    let s = params.target_start as int;
    let i = s - 1;
    let b = dp.sp(i, SPECIAL_B as int);
    &&& b == begin_sum(profile, target, dp, params, i, params.left(s), params.right(s))
    &&& dp.sp(i, SPECIAL_J as int) == S::spec_neg_inf()
    &&& dp.sp(i, SPECIAL_C as int) == S::spec_neg_inf()
    &&& dp.sp(i, SPECIAL_E as int) == S::spec_neg_inf()
    &&& dp.sp(i, SPECIAL_N as int) == S::spec_log_sum(
        S::spec_add(dp.sp(s, SPECIAL_N as int), profile.xsc(SPECIAL_N as int, SPECIAL_LOOP as int)),
        S::spec_add(b, profile.xsc(SPECIAL_N as int, SPECIAL_MOVE as int)),
    )
    &&& forall|j: int|
        params.left(s) <= j <= params.right(s) ==> #[trigger] dp.m(i, j) == S::spec_neg_inf()
            && dp.ins(i, j) == S::spec_neg_inf() && dp.del(i, j) == S::spec_neg_inf()
}

/// `begin_sum` reads only row `i + 1`, so it is the same on two matrices that
/// agree outside another row.
proof fn lemma_begin_sum_kept<S: Score>(
    profile: &Profile<S>,
    target: &Sequence,
    before: &DpMatrix<S>,
    after: &DpMatrix<S>,
    params: &RowBoundParams,
    written: int,
    i: int,
    left: int,
    k: int,
)
    requires
        backward_inputs(profile, target, before, params),
        after.same_shape(before),
        after.agrees_outside_row(before, written),
        written != i + 1,
        0 <= i,
        i + 1 < before.rows(),
    ensures
        begin_sum(profile, target, after, params, i, left, k) == begin_sum(
            profile,
            target,
            before,
            params,
            i,
            left,
            k,
        ),
    decreases k - left,
{
    assert forall|j: int| params.in_band(i + 1, j) implies #[trigger] after.m(i + 1, j) == before.m(
        i + 1,
        j,
    ) by {
        assert(after.in_range(i + 1, j));
    }
    assert(begin_term(profile, target, after, params, i, left) == begin_term(
        profile,
        target,
        before,
        params,
        i,
        left,
    ));
    assert(begin_term(profile, target, after, params, i, k) == begin_term(
        profile,
        target,
        before,
        params,
        i,
        k,
    ));
    if k > left {
        lemma_begin_sum_kept(profile, target, before, after, params, written, i, left, k - 1);
    }
}

/// The log-sum over the band `left..=right` of entering Match `j` of row
/// `i + 1` from the begin state of row `i`.
fn begin_score<S: Score>(
    profile: &Profile<S>,
    target: &Sequence,
    dp_matrix: &DpMatrix<S>,
    params: &RowBoundParams,
    i: usize,
    left: usize,
    right: usize,
) -> (r: S)
    requires
        backward_inputs(profile, target, dp_matrix, params),
        i < params.target_end,
        1 <= left <= right <= profile.length,
    ensures
        r == begin_sum(profile, target, dp_matrix, params, i as int, left as int, right as int),
{
    let residue = target.digital_bytes[i + 1] as usize;
    let mut b = S::add(
        S::add(
            dp_matrix.get_band_match(params, i + 1, left),
            profile.transition_score(PROFILE_BEGIN_TO_MATCH, left - 1),
        ),
        profile.match_score(residue, left),
    );
    let mut j: usize = left;
    while j < right
        invariant
            backward_inputs(profile, target, dp_matrix, params),
            i < params.target_end,
            1 <= left <= j <= right <= profile.length,
            residue == target.residue(i + 1),
            b == begin_sum(profile, target, dp_matrix, params, i as int, left as int, j as int),
        decreases right - j,
    {
        j = j + 1;
        let term = S::add(
            S::add(
                dp_matrix.get_band_match(params, i + 1, j),
                profile.transition_score(PROFILE_BEGIN_TO_MATCH, j - 1),
            ),
            profile.match_score(residue, j),
        );
        b = S::log_sum(b, term);
    }
    b
}

/// Fills row `i` of the band, `target_start <= i < target_end`, from row
/// `i + 1`.
fn backward_row<S: Score>(
    profile: &Profile<S>,
    target: &Sequence,
    dp_matrix: &mut DpMatrix<S>,
    params: &RowBoundParams,
    i: usize,
)
    requires
        backward_inputs(profile, target, old(dp_matrix), params),
        params.target_start <= i < params.target_end,
    ensures
        backward_inputs(profile, target, final(dp_matrix), params),
        final(dp_matrix).same_shape(old(dp_matrix)),
        final(dp_matrix).agrees_outside_row(old(dp_matrix), i as int),
        backward_row_done(profile, target, final(dp_matrix), params, i as int),
{
    let neg_inf = S::neg_inf();
    let left = params.left_row_bounds[i];
    let right = params.right_row_bounds[i];
    assert(1 <= params.left(i as int) <= params.right(i as int) <= profile.length);
    let residue = target.digital_bytes[i + 1] as usize;

    let b = begin_score(profile, target, dp_matrix, params, i, left, right);
    let jj = S::log_sum(
        S::add(
            dp_matrix.get_special(i + 1, SPECIAL_J),
            profile.special_transition_score(SPECIAL_J, SPECIAL_LOOP),
        ),
        S::add(b, profile.special_transition_score(SPECIAL_J, SPECIAL_MOVE)),
    );
    let c = S::add(
        dp_matrix.get_special(i + 1, SPECIAL_C),
        profile.special_transition_score(SPECIAL_C, SPECIAL_LOOP),
    );
    let e = S::log_sum(
        S::add(jj, profile.special_transition_score(SPECIAL_E, SPECIAL_LOOP)),
        S::add(c, profile.special_transition_score(SPECIAL_E, SPECIAL_MOVE)),
    );
    let n = S::log_sum(
        S::add(
            dp_matrix.get_special(i + 1, SPECIAL_N),
            profile.special_transition_score(SPECIAL_N, SPECIAL_LOOP),
        ),
        S::add(b, profile.special_transition_score(SPECIAL_N, SPECIAL_MOVE)),
    );
    dp_matrix.set_special(i, SPECIAL_B, b);
    dp_matrix.set_special(i, SPECIAL_J, jj);
    dp_matrix.set_special(i, SPECIAL_C, c);
    dp_matrix.set_special(i, SPECIAL_E, e);
    dp_matrix.set_special(i, SPECIAL_N, n);

    dp_matrix.set_match(i, right, e);
    dp_matrix.set_insert(i, right, neg_inf);
    dp_matrix.set_delete(i, right, e);

    let mut j: usize = right;
    while j > left
        invariant
            backward_inputs(profile, target, dp_matrix, params),
            dp_matrix.same_shape(old(dp_matrix)),
            dp_matrix.agrees_outside_row(old(dp_matrix), i as int),
            params.target_start <= i < params.target_end,
            left == params.left(i as int),
            right == params.right(i as int),
            1 <= left <= j <= right <= profile.length,
            residue == target.residue(i + 1),
            neg_inf == S::spec_neg_inf(),
            e == dp_matrix.sp(i as int, SPECIAL_E as int),
            b == begin_sum(profile, target, old(dp_matrix), params, i as int, left as int, right as int),
            dp_matrix.sp(i as int, SPECIAL_B as int) == b,
            dp_matrix.sp(i as int, SPECIAL_J as int) == jj,
            dp_matrix.sp(i as int, SPECIAL_C as int) == c,
            dp_matrix.sp(i as int, SPECIAL_N as int) == n,
            jj == S::spec_log_sum(
                S::spec_add(
                    dp_matrix.sp(i + 1, SPECIAL_J as int),
                    profile.xsc(SPECIAL_J as int, SPECIAL_LOOP as int),
                ),
                S::spec_add(b, profile.xsc(SPECIAL_J as int, SPECIAL_MOVE as int)),
            ),
            c == S::spec_add(
                dp_matrix.sp(i + 1, SPECIAL_C as int),
                profile.xsc(SPECIAL_C as int, SPECIAL_LOOP as int),
            ),
            e == S::spec_log_sum(
                S::spec_add(jj, profile.xsc(SPECIAL_E as int, SPECIAL_LOOP as int)),
                S::spec_add(c, profile.xsc(SPECIAL_E as int, SPECIAL_MOVE as int)),
            ),
            n == S::spec_log_sum(
                S::spec_add(
                    dp_matrix.sp(i + 1, SPECIAL_N as int),
                    profile.xsc(SPECIAL_N as int, SPECIAL_LOOP as int),
                ),
                S::spec_add(b, profile.xsc(SPECIAL_N as int, SPECIAL_MOVE as int)),
            ),
            dp_matrix.m(i as int, right as int) == e,
            dp_matrix.ins(i as int, right as int) == neg_inf,
            dp_matrix.del(i as int, right as int) == e,
            forall|t: int|
                j <= t < right ==> #[trigger] dp_matrix.m(i as int, t) == backward_match_eq(
                    profile,
                    target,
                    dp_matrix,
                    params,
                    i as int,
                    t,
                ),
            forall|t: int|
                j <= t < right ==> #[trigger] dp_matrix.ins(i as int, t) == backward_insert_eq(
                    profile,
                    target,
                    dp_matrix,
                    params,
                    i as int,
                    t,
                ),
            forall|t: int|
                j <= t < right ==> #[trigger] dp_matrix.del(i as int, t) == backward_delete_eq(
                    profile,
                    target,
                    dp_matrix,
                    params,
                    i as int,
                    t,
                ),
        decreases j,
    {
        j = j - 1;
        let next_match = dp_matrix.get_band_match(params, i + 1, j + 1);
        let next_insert = dp_matrix.get_band_insert(params, i + 1, j);
        let next_delete = dp_matrix.get_delete(i, j + 1);
        let emit_match = profile.match_score(residue, j + 1);
        let emit_insert = profile.insert_score(residue, j);
        let m = S::log_sum(
            S::log_sum(
                S::log_sum(
                    S::add(
                        S::add(next_match, profile.transition_score(PROFILE_MATCH_TO_MATCH, j)),
                        emit_match,
                    ),
                    S::add(
                        S::add(next_insert, profile.transition_score(PROFILE_MATCH_TO_INSERT, j)),
                        emit_insert,
                    ),
                ),
                e,
            ),
            S::add(next_delete, profile.transition_score(PROFILE_MATCH_TO_DELETE, j)),
        );
        let ins = S::log_sum(
            S::add(
                S::add(next_match, profile.transition_score(PROFILE_INSERT_TO_MATCH, j)),
                emit_match,
            ),
            S::add(
                S::add(next_insert, profile.transition_score(PROFILE_INSERT_TO_INSERT, j)),
                emit_insert,
            ),
        );
        let d = S::log_sum(
            S::log_sum(
                S::add(
                    S::add(next_match, profile.transition_score(PROFILE_DELETE_TO_MATCH, j)),
                    emit_match,
                ),
                S::add(next_delete, profile.transition_score(PROFILE_DELETE_TO_DELETE, j)),
            ),
            e,
        );
        dp_matrix.set_match(i, j, m);
        dp_matrix.set_insert(i, j, ins);
        dp_matrix.set_delete(i, j, d);
    }
    proof {
        lemma_begin_sum_kept(
            profile,
            target,
            old(dp_matrix),
            dp_matrix,
            params,
            i as int,
            i as int,
            left as int,
            right as int,
        );
    }
}

/// Writing row `written` keeps every row of the band below it as it was.
proof fn lemma_backward_rows_kept<S: Score>(
    profile: &Profile<S>,
    target: &Sequence,
    before: &DpMatrix<S>,
    after: &DpMatrix<S>,
    params: &RowBoundParams,
    written: int,
)
    requires
        backward_inputs(profile, target, before, params),
        after.same_shape(before),
        after.agrees_outside_row(before, written),
        written < params.target_end,
        backward_last_row_done(profile, before, params),
        forall|r: int|
            written < r < params.target_end && params.target_start <= r ==> #[trigger] backward_row_done(
                profile,
                target,
                before,
                params,
                r,
            ),
    ensures
        backward_last_row_done(profile, after, params),
        forall|r: int|
            written < r < params.target_end && params.target_start <= r ==> #[trigger] backward_row_done(
                profile,
                target,
                after,
                params,
                r,
            ),
{
    let te = params.target_end as int;
    assert(1 <= params.left(te) <= params.right(te) <= before.profile_length);
    assert forall|r: int|
        written < r < params.target_end && params.target_start <= r implies #[trigger] backward_row_done(
        profile,
        target,
        after,
        params,
        r,
    ) by {
        assert(backward_row_done(profile, target, before, params, r));
        assert(1 <= params.left(r) <= params.right(r) <= before.profile_length);
        assert(1 <= params.left(r + 1) <= params.right(r + 1) <= before.profile_length);
        lemma_begin_sum_kept(
            profile,
            target,
            before,
            after,
            params,
            written,
            r,
            params.left(r),
            params.right(r),
        );
    }
}

/// Seeds the last row of the band from the terminal transitions.
fn backward_last_row<S: Score>(
    profile: &Profile<S>,
    target: &Sequence,
    dp_matrix: &mut DpMatrix<S>,
    params: &RowBoundParams,
)
    requires
        backward_inputs(profile, target, old(dp_matrix), params),
    ensures
        backward_inputs(profile, target, final(dp_matrix), params),
        final(dp_matrix).same_shape(old(dp_matrix)),
        final(dp_matrix).agrees_outside_row(old(dp_matrix), params.target_end as int),
        backward_last_row_done(profile, final(dp_matrix), params),
{
    let neg_inf = S::neg_inf();
    let te = params.target_end;
    let c_move = profile.special_transition_score(SPECIAL_C, SPECIAL_MOVE);
    let e = S::add(c_move, profile.special_transition_score(SPECIAL_E, SPECIAL_MOVE));
    dp_matrix.set_special(te, SPECIAL_J, neg_inf);
    dp_matrix.set_special(te, SPECIAL_B, neg_inf);
    dp_matrix.set_special(te, SPECIAL_N, neg_inf);
    dp_matrix.set_special(te, SPECIAL_C, c_move);
    dp_matrix.set_special(te, SPECIAL_E, e);

    let left = params.left_row_bounds[te];
    let right = params.right_row_bounds[te];
    assert(1 <= params.left(te as int) <= params.right(te as int) <= profile.length);
    dp_matrix.set_match(te, right, e);
    dp_matrix.set_delete(te, right, e);
    dp_matrix.set_insert(te, right, neg_inf);

    let mut j: usize = right;
    while j > left
        invariant
            backward_inputs(profile, target, dp_matrix, params),
            dp_matrix.same_shape(old(dp_matrix)),
            dp_matrix.agrees_outside_row(old(dp_matrix), te as int),
            te == params.target_end,
            left == params.left(te as int),
            right == params.right(te as int),
            1 <= left <= j <= right <= profile.length,
            neg_inf == S::spec_neg_inf(),
            c_move == profile.xsc(SPECIAL_C as int, SPECIAL_MOVE as int),
            e == S::spec_add(c_move, profile.xsc(SPECIAL_E as int, SPECIAL_MOVE as int)),
            dp_matrix.sp(te as int, SPECIAL_C as int) == c_move,
            dp_matrix.sp(te as int, SPECIAL_E as int) == e,
            dp_matrix.sp(te as int, SPECIAL_J as int) == neg_inf,
            dp_matrix.sp(te as int, SPECIAL_B as int) == neg_inf,
            dp_matrix.sp(te as int, SPECIAL_N as int) == neg_inf,
            dp_matrix.m(te as int, right as int) == e,
            dp_matrix.del(te as int, right as int) == e,
            forall|t: int| j <= t <= right ==> #[trigger] dp_matrix.ins(te as int, t) == neg_inf,
            forall|t: int|
                j <= t < right ==> #[trigger] dp_matrix.m(te as int, t) == S::spec_log_sum(
                    e,
                    next_delete_term(profile, dp_matrix, PROFILE_MATCH_TO_DELETE as int, te as int, t),
                ),
            forall|t: int|
                j <= t < right ==> #[trigger] dp_matrix.del(te as int, t) == S::spec_log_sum(
                    e,
                    next_delete_term(profile, dp_matrix, PROFILE_DELETE_TO_DELETE as int, te as int, t),
                ),
        decreases j,
    {
        j = j - 1;
        let next_delete = dp_matrix.get_delete(te, j + 1);
        let m = S::log_sum(
            e,
            S::add(next_delete, profile.transition_score(PROFILE_MATCH_TO_DELETE, j)),
        );
        let d = S::log_sum(
            e,
            S::add(next_delete, profile.transition_score(PROFILE_DELETE_TO_DELETE, j)),
        );
        dp_matrix.set_match(te, j, m);
        dp_matrix.set_insert(te, j, neg_inf);
        dp_matrix.set_delete(te, j, d);
    }
}

/// Fills row `target_start - 1`: the begin and N states over the first row's
/// band, negative infinity everywhere else.
fn backward_boundary_row<S: Score>(
    profile: &Profile<S>,
    target: &Sequence,
    dp_matrix: &mut DpMatrix<S>,
    params: &RowBoundParams,
)
    requires
        backward_inputs(profile, target, old(dp_matrix), params),
    ensures
        backward_inputs(profile, target, final(dp_matrix), params),
        final(dp_matrix).same_shape(old(dp_matrix)),
        final(dp_matrix).agrees_outside_row(old(dp_matrix), params.target_start - 1),
        backward_boundary_done(profile, target, final(dp_matrix), params),
{
    let neg_inf = S::neg_inf();
    let ts = params.target_start;
    let boundary = ts - 1;
    let left = params.left_row_bounds[ts];
    let right = params.right_row_bounds[ts];
    assert(1 <= params.left(ts as int) <= params.right(ts as int) <= profile.length);
    let b = begin_score(profile, target, dp_matrix, params, boundary, left, right);
    let n = S::log_sum(
        S::add(
            dp_matrix.get_special(ts, SPECIAL_N),
            profile.special_transition_score(SPECIAL_N, SPECIAL_LOOP),
        ),
        S::add(b, profile.special_transition_score(SPECIAL_N, SPECIAL_MOVE)),
    );
    dp_matrix.set_special(boundary, SPECIAL_B, b);
    dp_matrix.set_special(boundary, SPECIAL_J, neg_inf);
    dp_matrix.set_special(boundary, SPECIAL_C, neg_inf);
    dp_matrix.set_special(boundary, SPECIAL_E, neg_inf);
    dp_matrix.set_special(boundary, SPECIAL_N, n);

    let mut j: usize = right + 1;
    while j > left
        invariant
            backward_inputs(profile, target, dp_matrix, params),
            dp_matrix.same_shape(old(dp_matrix)),
            dp_matrix.agrees_outside_row(old(dp_matrix), boundary as int),
            ts == params.target_start,
            boundary == ts - 1,
            left == params.left(ts as int),
            right == params.right(ts as int),
            1 <= left <= j <= right + 1,
            right <= profile.length,
            neg_inf == S::spec_neg_inf(),
            b == begin_sum(profile, target, old(dp_matrix), params, boundary as int, left as int, right as int),
            dp_matrix.sp(boundary as int, SPECIAL_B as int) == b,
            dp_matrix.sp(boundary as int, SPECIAL_J as int) == neg_inf,
            dp_matrix.sp(boundary as int, SPECIAL_C as int) == neg_inf,
            dp_matrix.sp(boundary as int, SPECIAL_E as int) == neg_inf,
            dp_matrix.sp(boundary as int, SPECIAL_N as int) == n,
            n == S::spec_log_sum(
                S::spec_add(
                    dp_matrix.sp(ts as int, SPECIAL_N as int),
                    profile.xsc(SPECIAL_N as int, SPECIAL_LOOP as int),
                ),
                S::spec_add(b, profile.xsc(SPECIAL_N as int, SPECIAL_MOVE as int)),
            ),
            forall|t: int|
                j <= t <= right ==> #[trigger] dp_matrix.m(boundary as int, t) == neg_inf
                    && dp_matrix.ins(boundary as int, t) == neg_inf && dp_matrix.del(
                    boundary as int,
                    t,
                ) == neg_inf,
        decreases j,
    {
        j = j - 1;
        dp_matrix.set_match(boundary, j, neg_inf);
        dp_matrix.set_insert(boundary, j, neg_inf);
        dp_matrix.set_delete(boundary, j, neg_inf);
    }
    proof {
        lemma_begin_sum_kept(
            profile,
            target,
            old(dp_matrix),
            dp_matrix,
            params,
            boundary as int,
            boundary as int,
            left as int,
            right as int,
        );
    }
}

/// Fills `dp_matrix` with backward log-probabilities over the band.
///
/// The last row is seeded from the terminal transitions (C takes C's move
/// score, E that plus E's move score, and the rightmost Match and Delete take
/// E); rows `target_end - 1` down to `target_start` follow the backward
/// recursion, specials first (B, J, C, E, N) and cells right to left; row
/// `target_start - 1` gets B and N. A read outside the band counts as negative
/// infinity.
pub fn backward_bounded<S: Score>(
    profile: &Profile<S>,
    target: &Sequence,
    dp_matrix: &mut DpMatrix<S>,
    params: &RowBoundParams,
)
    requires
        backward_inputs(profile, target, old(dp_matrix), params),
    ensures
        backward_inputs(profile, target, final(dp_matrix), params),
        final(dp_matrix).same_shape(old(dp_matrix)),
        backward_last_row_done(profile, final(dp_matrix), params),
        forall|i: int|
            params.target_start <= i < params.target_end ==> #[trigger] backward_row_done(
                profile,
                target,
                final(dp_matrix),
                params,
                i,
            ),
        backward_boundary_done(profile, target, final(dp_matrix), params),
        final(dp_matrix).sp(params.target_end as int, SPECIAL_C as int) == profile.xsc(
            SPECIAL_C as int,
            SPECIAL_MOVE as int,
        ),
{
    backward_last_row(profile, target, dp_matrix, params);
    let mut i: usize = params.target_end;
    while i > params.target_start
        invariant
            backward_inputs(profile, target, dp_matrix, params),
            dp_matrix.same_shape(old(dp_matrix)),
            params.target_start <= i <= params.target_end,
            backward_last_row_done(profile, dp_matrix, params),
            forall|r: int|
                i <= r < params.target_end ==> #[trigger] backward_row_done(
                    profile,
                    target,
                    dp_matrix,
                    params,
                    r,
                ),
        decreases i,
    {
        i = i - 1;
        let ghost before = *dp_matrix;
        backward_row(profile, target, dp_matrix, params, i);
        proof {
            lemma_backward_rows_kept(profile, target, &before, dp_matrix, params, i as int);
        }
    }
    let ghost before = *dp_matrix;
    backward_boundary_row(profile, target, dp_matrix, params);
    proof {
        lemma_backward_rows_kept(
            profile,
            target,
            &before,
            dp_matrix,
            params,
            params.target_start - 1,
        );
    }
}

} // verus!
