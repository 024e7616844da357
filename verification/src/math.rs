//! Q32 fixed-point arithmetic: the number `v` is stored as the integer
//! `v * FX_ONE` truncated toward zero.  Sine and the negative exponential are
//! evaluated by polynomials in this format, so every signal value the library
//! produces is an exact function of its integer inputs.

use vstd::arithmetic::div_mod::{lemma_div_is_ordered, lemma_div_of0, lemma_div_pos_is_pos};
use vstd::arithmetic::mul::{
    lemma_mul_is_commutative, lemma_mul_left_inequality, lemma_mul_nonnegative,
    lemma_mul_upper_bound,
};
use vstd::prelude::*;

verus! {

/// One unit in the Q32 fixed-point format.
pub const FX_ONE: u128 = 4294967296;

/// One half in the Q32 fixed-point format.
pub const FX_HALF: u128 = 2147483648;

/// pi / 2 in Q32.
pub const FX_PI_HALF: u128 = 6746518852;

/// 1 / e in Q32.
pub const FX_INV_E: u128 = 1580030170;

/// Largest first factor `mul_div` accepts (2^80).
pub const MD_X_MAX: u128 = 1208925819614629174706176;

/// Largest second factor `mul_div` accepts (2^40).
pub const MD_Y_MAX: u128 = 1099511627776;

/// The product of two nonnegative numbers below their bounds stays below the
/// product of the bounds, also after division.
pub proof fn lemma_mul_div_bounds(x: int, y: int, xb: int, yb: int, d: int)
    requires
        0 <= x <= xb,
        0 <= y <= yb,
        1 <= d,
    ensures
        0 <= x * y / d,
        x * y / d <= xb * yb / d,
{
    lemma_mul_nonnegative(x, y);
    lemma_mul_upper_bound(x, xb, y, yb);
    lemma_div_pos_is_pos(x * y, d);
    lemma_div_is_ordered(x * y, xb * yb, d);
}

/// Multiplying by a factor of at most one unit, then rescaling, shrinks.
pub proof fn lemma_mul_div_shrink(x: int, y: int, d: int)
    requires
        0 <= x,
        0 <= y <= d,
        1 <= d,
    ensures
        0 <= x * y / d <= x,
{
    lemma_mul_nonnegative(x, y);
    lemma_div_pos_is_pos(x * y, d);
    if x == 0 {
        assert(x * y == 0);
        lemma_div_of0(d);
    } else {
        lemma_mul_left_inequality(x, y, d);
        lemma_div_is_ordered(x * y, x * d, d);
        lemma_mul_is_commutative(x, d);
        vstd::arithmetic::div_mod::lemma_div_multiples_vanish(x, d);
    }
}

/// `x * y / d` without overflow, for a first factor below 2^80 and a second
/// below 2^40.
pub fn mul_div(x: u128, y: u128, d: u128) -> (r: u128)
    requires
        x <= MD_X_MAX,
        y <= MD_Y_MAX,
        1 <= d,
    ensures
        r == x * y / (d as int),
        r == y * x / (d as int),
{
    proof {
        lemma_mul_upper_bound(x as int, MD_X_MAX as int, y as int, MD_Y_MAX as int);
        lemma_mul_is_commutative(x as int, y as int);
    }
    x * y / d
}

/// Quarter-wave sine in Q32: for `v` in `[0, FX_ONE]` standing for `z` in
/// `[0, 1]`, the odd Taylor polynomial of `sin(z * pi/2)` through degree 11.
pub open spec fn fx_sin_quarter(v: int) -> int {
    let one: int = FX_ONE as int;
    let w: int = v * (FX_PI_HALF as int) / one;
    let w2: int = w * w / one;
    let g5: int = one - w2 / 110;
    let g4: int = one - w2 * g5 / (72 * one);
    let g3: int = one - w2 * g4 / (42 * one);
    let g2: int = one - w2 * g3 / (20 * one);
    let g1: int = one - w2 * g2 / (6 * one);
    w * g1 / one
}

/// Evaluates `fx_sin_quarter` on a quarter-wave position.
pub fn sin_quarter(v: u128) -> (r: u128)
    requires
        v <= FX_ONE,
    ensures
        r == fx_sin_quarter(v as int),
        r <= FX_PI_HALF,
{
    let w: u128 = mul_div(v, FX_PI_HALF, FX_ONE);
    proof {
        lemma_mul_div_bounds(v as int, FX_PI_HALF as int, FX_ONE as int, FX_PI_HALF as int,
            FX_ONE as int);
    }
    let w2: u128 = mul_div(w, w, FX_ONE);
    proof {
        lemma_mul_div_bounds(w as int, w as int, FX_PI_HALF as int, FX_PI_HALF as int,
            FX_ONE as int);
    }
    let g5: u128 = FX_ONE - w2 / 110;
    let t4: u128 = mul_div(w2, g5, 72 * FX_ONE);
    proof {
        lemma_mul_div_bounds(w2 as int, g5 as int, (FX_PI_HALF as int) * (FX_PI_HALF as int) / (FX_ONE as int),
            FX_ONE as int, 72 * (FX_ONE as int));
    }
    let g4: u128 = FX_ONE - t4;
    let t3: u128 = mul_div(w2, g4, 42 * FX_ONE);
    proof {
        lemma_mul_div_bounds(w2 as int, g4 as int, (FX_PI_HALF as int) * (FX_PI_HALF as int) / (FX_ONE as int),
            FX_ONE as int, 42 * (FX_ONE as int));
    }
    let g3: u128 = FX_ONE - t3;
    let t2: u128 = mul_div(w2, g3, 20 * FX_ONE);
    proof {
        lemma_mul_div_bounds(w2 as int, g3 as int, (FX_PI_HALF as int) * (FX_PI_HALF as int) / (FX_ONE as int),
            FX_ONE as int, 20 * (FX_ONE as int));
    }
    let g2: u128 = FX_ONE - t2;
    let t1: u128 = mul_div(w2, g2, 6 * FX_ONE);
    proof {
        lemma_mul_div_bounds(w2 as int, g2 as int, (FX_PI_HALF as int) * (FX_PI_HALF as int) / (FX_ONE as int),
            FX_ONE as int, 6 * (FX_ONE as int));
    }
    let g1: u128 = FX_ONE - t1;
    let s: u128 = mul_div(w, g1, FX_ONE);
    proof {
        lemma_mul_div_shrink(w as int, g1 as int, FX_ONE as int);
    }
    s
}

/// The quarter-wave sine vanishes at phase zero.
pub proof fn lemma_sin_quarter_zero()
    ensures
        fx_sin_quarter(0) == 0,
{
    let one: int = FX_ONE as int;
    assert(0 * (FX_PI_HALF as int) == 0);
    assert(0int / one == 0);
    assert(fx_sin_quarter(0) == 0);
}

/// Signed value of a sign-magnitude pair.
pub open spec fn sgn_val(neg: bool, mag: int) -> int {
    if neg {
        -mag
    } else {
        mag
    }
}

/// Full-cycle sine in Q32: for `u` in `[0, FX_ONE)` standing for a phase of
/// `u / FX_ONE` cycles, approximates `sin(2 * pi * u / FX_ONE)` by quarter-wave
/// symmetry.
pub open spec fn fx_sin_cycle(u: int) -> int {
    let one: int = FX_ONE as int;
    let x4: int = u * 4;
    let q: int = x4 / one;
    let r: int = x4 % one;
    if q == 0 {
        fx_sin_quarter(r)
    } else if q == 1 {
        fx_sin_quarter(one - r)
    } else if q == 2 {
        -fx_sin_quarter(r)
    } else {
        -fx_sin_quarter(one - r)
    }
}

/// Evaluates `fx_sin_cycle`, returning sign and magnitude.
pub fn sin_cycle(u: u128) -> (s: (bool, u128))
    requires
        u < FX_ONE,
    ensures
        sgn_val(s.0, s.1 as int) == fx_sin_cycle(u as int),
        s.1 <= FX_PI_HALF,
{
    let x4: u128 = u * 4;
    let q: u128 = x4 / FX_ONE;
    let r: u128 = x4 % FX_ONE;
    if q == 0 {
        (false, sin_quarter(r))
    } else if q == 1 {
        (false, sin_quarter(FX_ONE - r))
    } else if q == 2 {
        (true, sin_quarter(r))
    } else {
        (true, sin_quarter(FX_ONE - r))
    }
}

/// Taylor polynomial of `exp(-z / FX_ONE)` through degree 9, for `z` in
/// `[0, FX_ONE)`, in Q32.
pub open spec fn fx_exp_frac(z: int) -> int {
    let one: int = FX_ONE as int;
    let h8: int = one - z / 9;
    let h7: int = one - z * h8 / (8 * one);
    let h6: int = one - z * h7 / (7 * one);
    let h5: int = one - z * h6 / (6 * one);
    let h4: int = one - z * h5 / (5 * one);
    let h3: int = one - z * h4 / (4 * one);
    let h2: int = one - z * h3 / (3 * one);
    let h1: int = one - z * h2 / (2 * one);
    one - z * h1 / one
}

/// `n` successive multiplications of `start` by `1 / e` in Q32.
pub open spec fn fx_exp_steps(n: nat, start: int) -> int
    decreases n,
{
    if n == 0 {
        start
    } else {
        fx_exp_steps((n - 1) as nat, start) * (FX_INV_E as int) / (FX_ONE as int)
    }
}

/// `exp(-x / FX_ONE)` in Q32; zero once the true value is below one unit.
pub open spec fn fx_exp_neg(x: int) -> int {
    if x >= 32 * (FX_ONE as int) {
        0
    } else {
        fx_exp_steps((x / (FX_ONE as int)) as nat, fx_exp_frac(x % (FX_ONE as int)))
    }
}

/// Evaluates `fx_exp_neg`.
pub fn exp_neg(x: u128) -> (r: u128)
    ensures
        r == fx_exp_neg(x as int),
        r <= FX_ONE,
{
    if x >= 32 * FX_ONE {
        return 0;
    }
    let n: u128 = x / FX_ONE;
    let z: u128 = x % FX_ONE;
    let h8: u128 = FX_ONE - z / 9;
    let s7: u128 = mul_div(z, h8, 8 * FX_ONE);
    proof {
        lemma_mul_div_bounds(z as int, h8 as int, FX_ONE as int, FX_ONE as int, 8 * (FX_ONE as int));
    }
    let h7: u128 = FX_ONE - s7;
    let s6: u128 = mul_div(z, h7, 7 * FX_ONE);
    proof {
        lemma_mul_div_bounds(z as int, h7 as int, FX_ONE as int, FX_ONE as int, 7 * (FX_ONE as int));
    }
    let h6: u128 = FX_ONE - s6;
    let s5: u128 = mul_div(z, h6, 6 * FX_ONE);
    proof {
        lemma_mul_div_bounds(z as int, h6 as int, FX_ONE as int, FX_ONE as int, 6 * (FX_ONE as int));
    }
    let h5: u128 = FX_ONE - s5;
    let s4: u128 = mul_div(z, h5, 5 * FX_ONE);
    proof {
        lemma_mul_div_bounds(z as int, h5 as int, FX_ONE as int, FX_ONE as int, 5 * (FX_ONE as int));
    }
    let h4: u128 = FX_ONE - s4;
    let s3: u128 = mul_div(z, h4, 4 * FX_ONE);
    proof {
        lemma_mul_div_bounds(z as int, h4 as int, FX_ONE as int, FX_ONE as int, 4 * (FX_ONE as int));
    }
    let h3: u128 = FX_ONE - s3;
    let s2: u128 = mul_div(z, h3, 3 * FX_ONE);
    proof {
        lemma_mul_div_bounds(z as int, h3 as int, FX_ONE as int, FX_ONE as int, 3 * (FX_ONE as int));
    }
    let h2: u128 = FX_ONE - s2;
    let s1: u128 = mul_div(z, h2, 2 * FX_ONE);
    proof {
        lemma_mul_div_bounds(z as int, h2 as int, FX_ONE as int, FX_ONE as int, 2 * (FX_ONE as int));
    }
    let h1: u128 = FX_ONE - s1;
    let s0: u128 = mul_div(z, h1, FX_ONE);
    proof {
        lemma_mul_div_shrink(z as int, h1 as int, FX_ONE as int);
        lemma_mul_div_bounds(z as int, h1 as int, FX_ONE as int, FX_ONE as int, FX_ONE as int);
    }
    let frac: u128 = FX_ONE - s0;
    let ghost zi: int = (x as int) % (FX_ONE as int);
    assert(frac == fx_exp_frac(zi));
    let mut acc: u128 = frac;
    let mut i: u128 = 0;
    while i < n
        invariant
            i <= n,
            n < 32,
            acc <= FX_ONE,
            acc == fx_exp_steps(i as nat, fx_exp_frac(zi)),
        decreases n - i,
    {
        let next: u128 = mul_div(acc, FX_INV_E, FX_ONE);
        proof {
            lemma_mul_div_shrink(acc as int, FX_INV_E as int, FX_ONE as int);
        }
        acc = next;
        i = i + 1;
    }
    acc
}

} // verus!
