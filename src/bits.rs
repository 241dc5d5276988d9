use vstd::prelude::*;
use crate::score::Score;

verus! {

/// The value standing for negative infinity; every value at or below it reads
/// as negative infinity.
pub const NEG_INF_BITS: i64 = -1099511627776;

/// The largest value; results above it saturate to it.
pub const MAX_BITS: i64 = 1099511627776;

/// The number of fractional bits of a linear-space value.
pub const FRACTION_BITS: i64 = 16;

/// The linear-space value one.
pub const ONE: i64 = 65536;

/// An exact integer score domain.
///
/// In log space a value is a log-probability in whole bits (log base 2): the
/// log-sum of two values is `floor(log2(2^a + 2^b))`, which is their maximum,
/// plus one when they are equal. In linear space a value is a probability in
/// fixed point, `ONE` standing for 1.0. `exp` takes a log-space value `k` to
/// `2^k` in fixed point, rounded down. Every result is held within
/// `NEG_INF_BITS..=MAX_BITS`.
#[derive(Clone, Copy, PartialEq, Eq, Debug)]
pub struct Bits {
    pub value: i64,
}

pub open spec fn clamp(x: int) -> int {
    if x <= NEG_INF_BITS {
        NEG_INF_BITS as int
    } else if x >= MAX_BITS {
        MAX_BITS as int
    } else {
        x
    }
}

pub open spec fn is_neg_inf(x: int) -> bool {
    x <= NEG_INF_BITS
}

pub open spec fn pow2(k: nat) -> int
    decreases k,
{
    if k == 0 {
        1
    } else {
        2 * pow2((k - 1) as nat)
    }
}

/// `a * b / ONE`, rounded toward zero.
pub open spec fn fixed_mul(a: int, b: int) -> int {
    if a * b >= 0 {
        (a * b) / (ONE as int)
    } else {
        -((-(a * b)) / (ONE as int))
    }
}

/// `ONE / a` in fixed point, rounded toward zero; the largest value for zero.
pub open spec fn fixed_recip(a: int) -> int {
    if a > 0 {
        (ONE * ONE) / a
    } else if a == 0 {
        MAX_BITS as int
    } else {
        -((ONE * ONE) / (-a))
    }
}

/// `2^k` in fixed point, rounded down; zero for negative infinity.
pub open spec fn fixed_exp(k: int) -> int {
    if is_neg_inf(k) || k < -FRACTION_BITS {
        0
    } else if k > 40 - FRACTION_BITS {
        MAX_BITS as int
    } else {
        pow2((k + FRACTION_BITS) as nat)
    }
}

pub open spec fn bits_log_sum(a: int, b: int) -> int {
    if is_neg_inf(a) {
        clamp(b)
    } else if is_neg_inf(b) {
        clamp(a)
    } else if a == b {
        clamp(a + 1)
    } else if a > b {
        clamp(a)
    } else {
        clamp(b)
    }
}

fn clamp_exec(x: i128) -> (r: i64)
    ensures
        r == clamp(x as int),
{
    if x <= NEG_INF_BITS as i128 {
        NEG_INF_BITS
    } else if x >= MAX_BITS as i128 {
        MAX_BITS
    } else {
        x as i64
    }
}

fn pow2_exec(k: i64) -> (r: i64)
    requires
        0 <= k <= 40,
    ensures
        r == pow2(k as nat),
{
    proof {
        lemma_pow2_40();
        lemma_pow2_mono(0, 40);
    }
    let mut r: i64 = 1;
    let mut i: i64 = 0;
    while i < k
        invariant
            0 <= i <= k <= 40,
            r == pow2(i as nat),
            pow2(40) == MAX_BITS,
        decreases k - i,
    {
        proof {
            lemma_pow2_mono((i + 1) as nat, 40);
        }
        r = r * 2;
        i = i + 1;
    }
    r
}

proof fn lemma_pow2_40()
    ensures
        pow2(40) == MAX_BITS,
{
    reveal_with_fuel(pow2, 41);
}

pub proof fn lemma_pow2_range(k: nat)
    requires
        k <= 40,
    ensures
        1 <= pow2(k) <= MAX_BITS,
{
    lemma_pow2_40();
    lemma_pow2_mono(k, 40);
}

proof fn lemma_pow2_mono(a: nat, b: nat)
    requires
        a <= b,
    ensures
        1 <= pow2(a) <= pow2(b),
    decreases b,
{
    if b > 0 {
        if a < b {
            lemma_pow2_mono(a, (b - 1) as nat);
        }
        lemma_pow2_mono(0, (b - 1) as nat);
    }
}

impl Score for Bits {
    open spec fn spec_neg_inf() -> Self {
        Bits { value: NEG_INF_BITS }
    }

    open spec fn spec_zero() -> Self {
        Bits { value: 0 }
    }

    open spec fn spec_add(a: Self, b: Self) -> Self {
        if is_neg_inf(a.value as int) || is_neg_inf(b.value as int) {
            Bits { value: NEG_INF_BITS }
        } else {
            Bits { value: clamp(a.value + b.value) as i64 }
        }
    }

    open spec fn spec_sub(a: Self, b: Self) -> Self {
        if is_neg_inf(a.value as int) {
            Bits { value: NEG_INF_BITS }
        } else if is_neg_inf(b.value as int) {
            Bits { value: MAX_BITS }
        } else {
            Bits { value: clamp(a.value - b.value) as i64 }
        }
    }

    open spec fn spec_mul(a: Self, b: Self) -> Self {
        if is_neg_inf(a.value as int) || is_neg_inf(b.value as int) {
            Bits { value: NEG_INF_BITS }
        } else {
            Bits { value: clamp(fixed_mul(a.value as int, b.value as int)) as i64 }
        }
    }

    open spec fn spec_recip(a: Self) -> Self {
        Bits { value: clamp(fixed_recip(a.value as int)) as i64 }
    }

    open spec fn spec_max(a: Self, b: Self) -> Self {
        if a.value >= b.value {
            a
        } else {
            b
        }
    }

    open spec fn spec_log_sum(a: Self, b: Self) -> Self {
        Bits { value: bits_log_sum(a.value as int, b.value as int) as i64 }
    }

    open spec fn spec_exp(a: Self) -> Self {
        Bits { value: fixed_exp(a.value as int) as i64 }
    }

    open spec fn spec_is_zero(a: Self) -> bool {
        a.value == 0
    }

    fn neg_inf() -> (r: Self) {
        Bits { value: NEG_INF_BITS }
    }

    fn zero() -> (r: Self) {
        Bits { value: 0 }
    }

    fn add(a: Self, b: Self) -> (r: Self) {
        if a.value <= NEG_INF_BITS || b.value <= NEG_INF_BITS {
            Bits { value: NEG_INF_BITS }
        } else {
            Bits { value: clamp_exec(a.value as i128 + b.value as i128) }
        }
    }

    fn sub(a: Self, b: Self) -> (r: Self) {
        if a.value <= NEG_INF_BITS {
            Bits { value: NEG_INF_BITS }
        } else if b.value <= NEG_INF_BITS {
            Bits { value: MAX_BITS }
        } else {
            Bits { value: clamp_exec(a.value as i128 - b.value as i128) }
        }
    }

    fn mul(a: Self, b: Self) -> (r: Self) {
        if a.value <= NEG_INF_BITS || b.value <= NEG_INF_BITS {
            Bits { value: NEG_INF_BITS }
        } else {
            let x = a.value as i128;
            let y = b.value as i128;
            assert(-0x8000_0000_0000_0000 * 0x8000_0000_0000_0000 <= x * y <= 0x8000_0000_0000_0000
                * 0x8000_0000_0000_0000) by (nonlinear_arith)
                requires
                    -0x8000_0000_0000_0000 <= x < 0x8000_0000_0000_0000,
                    -0x8000_0000_0000_0000 <= y < 0x8000_0000_0000_0000,
            ;
            let p = x * y;
            let q = if p >= 0 {
                p / (ONE as i128)
            } else {
                -((-p) / (ONE as i128))
            };
            Bits { value: clamp_exec(q) }
        }
    }

    fn recip(a: Self) -> (r: Self) {
        let one_squared: i128 = (ONE as i128) * (ONE as i128);
        let q: i128 = if a.value > 0 {
            one_squared / (a.value as i128)
        } else if a.value == 0 {
            MAX_BITS as i128
        } else {
            -(one_squared / (-(a.value as i128)))
        };
        Bits { value: clamp_exec(q) }
    }

    fn max(a: Self, b: Self) -> (r: Self) {
        if a.value >= b.value {
            a
        } else {
            b
        }
    }

    fn log_sum(a: Self, b: Self) -> (r: Self) {
        let x = a.value as i128;
        let y = b.value as i128;
        let v = if a.value <= NEG_INF_BITS {
            clamp_exec(y)
        } else if b.value <= NEG_INF_BITS {
            clamp_exec(x)
        } else if x == y {
            clamp_exec(x + 1)
        } else if x > y {
            clamp_exec(x)
        } else {
            clamp_exec(y)
        };
        Bits { value: v }
    }

    fn exp(a: Self) -> (r: Self) {
        let v = if a.value <= NEG_INF_BITS || a.value < -FRACTION_BITS {
            0
        } else if a.value > 40 - FRACTION_BITS {
            MAX_BITS
        } else {
            pow2_exec(a.value + FRACTION_BITS)
        };
        Bits { value: v }
    }

    fn is_zero(a: Self) -> (r: bool) {
        a.value == 0
    }
}

} // verus!
