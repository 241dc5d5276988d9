use vstd::prelude::*;
use crate::row_bounds::RowBoundParams;
use crate::score::Score;

verus! {

/// A dense score table for a target of `target_length` residues and a
/// profile of `profile_length` positions.
///
/// Rows `0..=target_length + 1` and columns `0..=profile_length + 1` are
/// addressable, so a band may be padded by one row and one column on each
/// side. Each cell holds a Match, an Insert and a Delete score; each row holds
/// one score per special state.
pub struct DpMatrix<S> {
    pub target_length: usize,
    pub profile_length: usize,
    pub match_cells: Vec<S>,
    pub insert_cells: Vec<S>,
    pub delete_cells: Vec<S>,
    pub special_cells: Vec<S>,
}

/// `i * w + j` is in range and determines `(i, j)` for `j < w`.
proof fn lemma_cell_index(i: int, j: int, a: int, b: int, w: int, rows: int)
    requires
        0 <= i < rows,
        0 <= j < w,
        0 <= a < rows,
        0 <= b < w,
    ensures
        0 <= i * w + j < rows * w,
        i * w + j == a * w + b ==> i == a && j == b,
{
    assert(0 <= i * w + j < rows * w) by (nonlinear_arith)
        requires
            0 <= i < rows,
            0 <= j < w,
    ;
    if i < a {
        assert(i * w + j < a * w + b) by (nonlinear_arith)
            requires
                0 <= i < a,
                0 <= j < w,
                0 <= b,
        ;
    } else if a < i {
        assert(a * w + b < i * w + j) by (nonlinear_arith)
            requires
                0 <= a < i,
                0 <= b < w,
                0 <= j,
        ;
    }
}

impl<S: Score> DpMatrix<S> {
    pub open spec fn rows(&self) -> int {
        self.target_length + 2
    }

    pub open spec fn width(&self) -> int {
        self.profile_length + 2
    }

    pub open spec fn match_view(&self) -> Seq<S> {
        self.match_cells@
    }

    pub open spec fn insert_view(&self) -> Seq<S> {
        self.insert_cells@
    }

    pub open spec fn delete_view(&self) -> Seq<S> {
        self.delete_cells@
    }

    pub open spec fn special_view(&self) -> Seq<S> {
        self.special_cells@
    }

    pub open spec fn cell_index(&self, i: int, j: int) -> int {
        i * self.width() + j
    }

    pub open spec fn m(&self, i: int, j: int) -> S {
        self.match_view()[self.cell_index(i, j)]
    }

    pub open spec fn ins(&self, i: int, j: int) -> S {
        self.insert_view()[self.cell_index(i, j)]
    }

    pub open spec fn del(&self, i: int, j: int) -> S {
        self.delete_view()[self.cell_index(i, j)]
    }

    pub open spec fn sp(&self, i: int, s: int) -> S {
        self.special_view()[i * 5 + s]
    }

    pub open spec fn in_range(&self, i: int, j: int) -> bool {
        0 <= i < self.rows() && 0 <= j < self.width()
    }

    pub open spec fn same_shape(&self, other: &Self) -> bool {
        self.target_length == other.target_length && self.profile_length == other.profile_length
    }

    /// Match at `(i, j)` as the band reads it: negative infinity outside the band.
    pub open spec fn band_m(&self, params: &RowBoundParams, i: int, j: int) -> S {
        if params.in_band(i, j) {
            self.m(i, j)
        } else {
            S::spec_neg_inf()
        }
    }

    /// Insert at `(i, j)` as the band reads it: negative infinity outside the band.
    pub open spec fn band_ins(&self, params: &RowBoundParams, i: int, j: int) -> S {
        if params.in_band(i, j) {
            self.ins(i, j)
        } else {
            S::spec_neg_inf()
        }
    }

    /// Delete at `(i, j)` as the band reads it: negative infinity outside the band.
    pub open spec fn band_del(&self, params: &RowBoundParams, i: int, j: int) -> S {
        if params.in_band(i, j) {
            self.del(i, j)
        } else {
            S::spec_neg_inf()
        }
    }

    /// `self` and `other` hold the same scores on every row but row `i`.
    pub open spec fn agrees_outside_row(&self, other: &Self, i: int) -> bool {
        &&& forall|r: int, j: int|
            self.in_range(r, j) && r != i ==> #[trigger] self.m(r, j) == other.m(r, j)
        &&& forall|r: int, j: int|
            self.in_range(r, j) && r != i ==> #[trigger] self.ins(r, j) == other.ins(r, j)
        &&& forall|r: int, j: int|
            self.in_range(r, j) && r != i ==> #[trigger] self.del(r, j) == other.del(r, j)
        &&& forall|r: int, s: int|
            0 <= r < self.rows() && 0 <= s < 5 && r != i ==> #[trigger] self.sp(r, s) == other.sp(
                r,
                s,
            )
    }

    pub open spec fn wf(&self) -> bool {
        &&& self.match_cells@.len() == self.rows() * self.width()
        &&& self.insert_cells@.len() == self.rows() * self.width()
        &&& self.delete_cells@.len() == self.rows() * self.width()
        &&& self.special_cells@.len() == self.rows() * 5
        &&& self.rows() * self.width() <= usize::MAX
        &&& self.rows() * 5 <= usize::MAX
        &&& self.target_length + 2 <= usize::MAX
        &&& self.profile_length + 2 <= usize::MAX
    }

    /// A table whose every score is `fill`.
    pub fn new(target_length: usize, profile_length: usize, fill: S) -> (r: Self)
        requires
            (target_length + 2) * (profile_length + 2) <= usize::MAX,
            (target_length + 2) * 5 <= usize::MAX,
        ensures
            r.wf(),
            r.target_length == target_length,
            r.profile_length == profile_length,
            forall|i: int, j: int| #[trigger] r.in_range(i, j) ==> r.m(i, j) == fill && r.ins(i, j) == fill
                && r.del(i, j) == fill,
            forall|i: int, s: int| 0 <= i < r.rows() && 0 <= s < 5 ==> #[trigger] r.sp(i, s) == fill,
    {
        assert(target_length + 2 <= usize::MAX && profile_length + 2 <= usize::MAX) by (nonlinear_arith)
            requires
                (target_length + 2) * (profile_length + 2) <= usize::MAX,
        ;
        let rows: usize = target_length + 2;
        let width: usize = profile_length + 2;
        let n: usize = rows * width;
        let ns: usize = rows * 5;
        let mut match_cells: Vec<S> = Vec::new();
        let mut insert_cells: Vec<S> = Vec::new();
        let mut delete_cells: Vec<S> = Vec::new();
        let mut k: usize = 0;
        while k < n
            invariant
                k <= n,
                match_cells@.len() == k,
                insert_cells@.len() == k,
                delete_cells@.len() == k,
                forall|t: int|
                    0 <= t < k ==> match_cells@[t] == fill && insert_cells@[t] == fill
                        && delete_cells@[t] == fill,
            decreases n - k,
        {
            match_cells.push(fill);
            insert_cells.push(fill);
            delete_cells.push(fill);
            k = k + 1;
        }
        let mut specials: Vec<S> = Vec::new();
        k = 0;
        while k < ns
            invariant
                k <= ns,
                specials@.len() == k,
                forall|t: int| 0 <= t < k ==> specials@[t] == fill,
            decreases ns - k,
        {
            specials.push(fill);
            k = k + 1;
        }
        let r = DpMatrix {
            target_length,
            profile_length,
            match_cells,
            insert_cells,
            delete_cells,
            special_cells: specials,
        };
        assert forall|i: int, j: int| #[trigger] r.in_range(i, j) implies r.m(i, j) == fill && r.ins(
            i,
            j,
        ) == fill && r.del(i, j) == fill by {
            lemma_cell_index(i, j, i, j, r.width(), r.rows());
        }
        assert forall|i: int, s: int| 0 <= i < r.rows() && 0 <= s < 5 implies #[trigger] r.sp(i, s)
            == fill by {
            lemma_cell_index(i, s, i, s, 5, r.rows());
        }
        r
    }

    pub fn get_match(&self, i: usize, j: usize) -> (r: S)
        requires
            self.wf(),
            self.in_range(i as int, j as int),
        ensures
            r == self.m(i as int, j as int),
    {
        proof {
            lemma_cell_index(i as int, j as int, i as int, j as int, self.width(), self.rows());
        }
        self.match_cells[i * (self.profile_length + 2) + j]
    }

    pub fn get_insert(&self, i: usize, j: usize) -> (r: S)
        requires
            self.wf(),
            self.in_range(i as int, j as int),
        ensures
            r == self.ins(i as int, j as int),
    {
        proof {
            lemma_cell_index(i as int, j as int, i as int, j as int, self.width(), self.rows());
        }
        self.insert_cells[i * (self.profile_length + 2) + j]
    }

    pub fn get_delete(&self, i: usize, j: usize) -> (r: S)
        requires
            self.wf(),
            self.in_range(i as int, j as int),
        ensures
            r == self.del(i as int, j as int),
    {
        proof {
            lemma_cell_index(i as int, j as int, i as int, j as int, self.width(), self.rows());
        }
        self.delete_cells[i * (self.profile_length + 2) + j]
    }

    pub fn get_special(&self, i: usize, s: usize) -> (r: S)
        requires
            self.wf(),
            i < self.rows(),
            s < 5,
        ensures
            r == self.sp(i as int, s as int),
    {
        proof {
            lemma_cell_index(i as int, s as int, i as int, s as int, 5, self.rows());
        }
        self.special_cells[i * 5 + s]
    }

    /// Reads Match at `(i, j)` through the band: a cell outside it reads as
    /// negative infinity and is never touched.
    pub fn get_band_match(&self, params: &RowBoundParams, i: usize, j: usize) -> (r: S)
        requires
            self.wf(),
            params.valid(self.target_length as nat, self.profile_length as nat),
        ensures
            r == self.band_m(params, i as int, j as int),
    {
        if params.target_start <= i && i <= params.target_end && params.left_row_bounds[i] <= j
            && j <= params.right_row_bounds[i] {
            assert(params.left(i as int) <= params.right(i as int) <= self.profile_length);
            self.get_match(i, j)
        } else {
            S::neg_inf()
        }
    }

    /// Reads Insert at `(i, j)` through the band.
    pub fn get_band_insert(&self, params: &RowBoundParams, i: usize, j: usize) -> (r: S)
        requires
            self.wf(),
            params.valid(self.target_length as nat, self.profile_length as nat),
        ensures
            r == self.band_ins(params, i as int, j as int),
    {
        if params.target_start <= i && i <= params.target_end && params.left_row_bounds[i] <= j
            && j <= params.right_row_bounds[i] {
            assert(params.left(i as int) <= params.right(i as int) <= self.profile_length);
            self.get_insert(i, j)
        } else {
            S::neg_inf()
        }
    }

    /// Reads Delete at `(i, j)` through the band.
    pub fn get_band_delete(&self, params: &RowBoundParams, i: usize, j: usize) -> (r: S)
        requires
            self.wf(),
            params.valid(self.target_length as nat, self.profile_length as nat),
        ensures
            r == self.band_del(params, i as int, j as int),
    {
        if params.target_start <= i && i <= params.target_end && params.left_row_bounds[i] <= j
            && j <= params.right_row_bounds[i] {
            assert(params.left(i as int) <= params.right(i as int) <= self.profile_length);
            self.get_delete(i, j)
        } else {
            S::neg_inf()
        }
    }

    pub fn set_match(&mut self, i: usize, j: usize, v: S)
        requires
            old(self).wf(),
            old(self).in_range(i as int, j as int),
        ensures
            final(self).wf(),
            final(self).same_shape(old(self)),
            final(self).m(i as int, j as int) == v,
            forall|a: int, b: int|
                old(self).in_range(a, b) && (a != i || b != j) ==> #[trigger] final(self).m(a, b)
                    == old(self).m(a, b),
            final(self).insert_view() == old(self).insert_view(),
            forall|a: int, b: int| #[trigger] final(self).ins(a, b) == old(self).ins(a, b),
            final(self).delete_view() == old(self).delete_view(),
            forall|a: int, b: int| #[trigger] final(self).del(a, b) == old(self).del(a, b),
            final(self).special_view() == old(self).special_view(),
            forall|a: int, b: int| #[trigger] final(self).sp(a, b) == old(self).sp(a, b),
    {
        proof {
            lemma_cell_index(i as int, j as int, i as int, j as int, self.width(), self.rows());
        }
        let k = i * (self.profile_length + 2) + j;
        self.match_cells.set(k, v);
        proof {
            assert forall|a: int, b: int|
                old(self).in_range(a, b) && (a != i || b != j) implies #[trigger] self.m(a, b)
                == old(self).m(a, b) by {
                lemma_cell_index(i as int, j as int, a, b, self.width(), self.rows());
                lemma_cell_index(a, b, a, b, self.width(), self.rows());
            }
        }
    }

    pub fn set_insert(&mut self, i: usize, j: usize, v: S)
        requires
            old(self).wf(),
            old(self).in_range(i as int, j as int),
        ensures
            final(self).wf(),
            final(self).same_shape(old(self)),
            final(self).ins(i as int, j as int) == v,
            forall|a: int, b: int|
                old(self).in_range(a, b) && (a != i || b != j) ==> #[trigger] final(self).ins(a, b)
                    == old(self).ins(a, b),
            final(self).match_view() == old(self).match_view(),
            forall|a: int, b: int| #[trigger] final(self).m(a, b) == old(self).m(a, b),
            final(self).delete_view() == old(self).delete_view(),
            forall|a: int, b: int| #[trigger] final(self).del(a, b) == old(self).del(a, b),
            final(self).special_view() == old(self).special_view(),
            forall|a: int, b: int| #[trigger] final(self).sp(a, b) == old(self).sp(a, b),
    {
        proof {
            lemma_cell_index(i as int, j as int, i as int, j as int, self.width(), self.rows());
        }
        let k = i * (self.profile_length + 2) + j;
        self.insert_cells.set(k, v);
        proof {
            assert forall|a: int, b: int|
                old(self).in_range(a, b) && (a != i || b != j) implies #[trigger] self.ins(a, b)
                == old(self).ins(a, b) by {
                lemma_cell_index(i as int, j as int, a, b, self.width(), self.rows());
                lemma_cell_index(a, b, a, b, self.width(), self.rows());
            }
        }
    }

    pub fn set_delete(&mut self, i: usize, j: usize, v: S)
        requires
            old(self).wf(),
            old(self).in_range(i as int, j as int),
        ensures
            final(self).wf(),
            final(self).same_shape(old(self)),
            final(self).del(i as int, j as int) == v,
            forall|a: int, b: int|
                old(self).in_range(a, b) && (a != i || b != j) ==> #[trigger] final(self).del(a, b)
                    == old(self).del(a, b),
            final(self).match_view() == old(self).match_view(),
            forall|a: int, b: int| #[trigger] final(self).m(a, b) == old(self).m(a, b),
            final(self).insert_view() == old(self).insert_view(),
            forall|a: int, b: int| #[trigger] final(self).ins(a, b) == old(self).ins(a, b),
            final(self).special_view() == old(self).special_view(),
            forall|a: int, b: int| #[trigger] final(self).sp(a, b) == old(self).sp(a, b),
    {
        proof {
            lemma_cell_index(i as int, j as int, i as int, j as int, self.width(), self.rows());
        }
        let k = i * (self.profile_length + 2) + j;
        self.delete_cells.set(k, v);
        proof {
            assert forall|a: int, b: int|
                old(self).in_range(a, b) && (a != i || b != j) implies #[trigger] self.del(a, b)
                == old(self).del(a, b) by {
                lemma_cell_index(i as int, j as int, a, b, self.width(), self.rows());
                lemma_cell_index(a, b, a, b, self.width(), self.rows());
            }
        }
    }

    pub fn set_special(&mut self, i: usize, s: usize, v: S)
        requires
            old(self).wf(),
            i < old(self).rows(),
            s < 5,
        ensures
            final(self).wf(),
            final(self).same_shape(old(self)),
            final(self).sp(i as int, s as int) == v,
            forall|a: int, b: int|
                0 <= a < old(self).rows() && 0 <= b < 5 && (a != i || b != s)
                    ==> #[trigger] final(self).sp(a, b) == old(self).sp(a, b),
            final(self).match_view() == old(self).match_view(),
            forall|a: int, b: int| #[trigger] final(self).m(a, b) == old(self).m(a, b),
            final(self).insert_view() == old(self).insert_view(),
            forall|a: int, b: int| #[trigger] final(self).ins(a, b) == old(self).ins(a, b),
            final(self).delete_view() == old(self).delete_view(),
            forall|a: int, b: int| #[trigger] final(self).del(a, b) == old(self).del(a, b),
    {
        proof {
            lemma_cell_index(i as int, s as int, i as int, s as int, 5, self.rows());
        }
        let k = i * 5 + s;
        self.special_cells.set(k, v);
        proof {
            assert forall|a: int, b: int|
                0 <= a < old(self).rows() && 0 <= b < 5 && (a != i || b != s) implies #[trigger] self.sp(
                a,
                b,
            ) == old(self).sp(a, b) by {
                lemma_cell_index(i as int, s as int, a, b, 5, self.rows());
            }
        }
    }
}

} // verus!
