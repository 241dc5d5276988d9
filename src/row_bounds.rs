use vstd::prelude::*;

verus! {

/// The band: rows `target_start..=target_end` of the target, and on each row
/// `i` the inclusive profile range `left_row_bounds[i]..=right_row_bounds[i]`.
pub struct RowBoundParams {
    pub target_start: usize,
    pub target_end: usize,
    pub left_row_bounds: Vec<usize>,
    pub right_row_bounds: Vec<usize>,
}

impl RowBoundParams {
    pub open spec fn left(&self, i: int) -> int {
        self.left_row_bounds@[i] as int
    }

    pub open spec fn right(&self, i: int) -> int {
        self.right_row_bounds@[i] as int
    }

    pub open spec fn in_rows(&self, i: int) -> bool {
        self.target_start <= i <= self.target_end
    }

    /// Whether cell `(i, j)` lies in the band.
    pub open spec fn in_band(&self, i: int, j: int) -> bool {
        self.in_rows(i) && self.left(i) <= j <= self.right(i)
    }

    /// The band fits a target of `target_length` residues and a profile of
    /// `profile_length` positions, and no row of it is empty.
    pub open spec fn valid(&self, target_length: nat, profile_length: nat) -> bool {
        &&& 1 <= self.target_start <= self.target_end <= target_length
        &&& self.left_row_bounds@.len() > self.target_end
        &&& self.right_row_bounds@.len() > self.target_end
        &&& forall|i: int|
            #![trigger self.left_row_bounds@[i]]
            #![trigger self.right_row_bounds@[i]]
            self.target_start <= i <= self.target_end ==> 1 <= self.left(i) && self.left(i)
                <= self.right(i) && self.right(i) <= profile_length
    }
}

} // verus!
