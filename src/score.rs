use vstd::prelude::*;

verus! {

/// The numeric domain the dynamic programs compute in.
///
/// Each executable operation is tied to a spec function of the same role, so
/// that the contracts of the dynamic programs state exactly which operations
/// produced every cell, in which order and on which operands. Log-space passes
/// use `add` as the product of probabilities and `log_sum` as their sum;
/// linear-space passes use `add`, `mul`, `recip` and `max` directly.
pub trait Score: Copy + Sized {
    /// The log of probability zero (negative infinity).
    spec fn spec_neg_inf() -> Self;

    /// The additive identity.
    spec fn spec_zero() -> Self;

    spec fn spec_add(a: Self, b: Self) -> Self;

    spec fn spec_sub(a: Self, b: Self) -> Self;

    spec fn spec_mul(a: Self, b: Self) -> Self;

    /// The multiplicative inverse, `1 / a`.
    spec fn spec_recip(a: Self) -> Self;

    spec fn spec_max(a: Self, b: Self) -> Self;

    /// `log(exp(a) + exp(b))`.
    spec fn spec_log_sum(a: Self, b: Self) -> Self;

    /// `exp(a)`: from log space to linear space.
    spec fn spec_exp(a: Self) -> Self;

    spec fn spec_is_zero(a: Self) -> bool;

    fn neg_inf() -> (r: Self)
        ensures
            r == Self::spec_neg_inf(),
    ;

    fn zero() -> (r: Self)
        ensures
            r == Self::spec_zero(),
    ;

    fn add(a: Self, b: Self) -> (r: Self)
        ensures
            r == Self::spec_add(a, b),
    ;

    fn sub(a: Self, b: Self) -> (r: Self)
        ensures
            r == Self::spec_sub(a, b),
    ;

    fn mul(a: Self, b: Self) -> (r: Self)
        ensures
            r == Self::spec_mul(a, b),
    ;

    fn recip(a: Self) -> (r: Self)
        ensures
            r == Self::spec_recip(a),
    ;

    fn max(a: Self, b: Self) -> (r: Self)
        ensures
            r == Self::spec_max(a, b),
    ;

    fn log_sum(a: Self, b: Self) -> (r: Self)
        ensures
            r == Self::spec_log_sum(a, b),
    ;

    fn exp(a: Self) -> (r: Self)
        ensures
            r == Self::spec_exp(a),
    ;

    fn is_zero(a: Self) -> (r: bool)
        ensures
            r == Self::spec_is_zero(a),
    ;
}

} // verus!
