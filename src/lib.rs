/// The numeric domain the dynamic programs compute in.
pub mod score;
/// An exact integer instance of that domain.
pub mod bits;
/// The query model.
pub mod profile;
/// The digitized target.
pub mod sequence;
/// The band of cells the dynamic programs fill.
pub mod row_bounds;
/// The banded score table.
pub mod dp_matrix;
/// Backward log-probabilities over the band.
pub mod backward_bounded;
/// Posterior probabilities from matched forward and backward matrices.
pub mod posterior_bounded;
/// Maximum expected accuracy scores from posterior probabilities.
pub mod optimal_accuracy_bounded;
