//! The wave synthesizer: a pure function from elapsed time and a set of
//! frequencies to one normalized amplitude sample.
//!
//! Per frequency `f` (milli-hertz) at `t = ticks / rate` seconds, the signal
//! is the cube of a decaying two-harmonic tone,
//! `(0.6 sin(2 pi f t) + 0.4 sin(4 pi f t)) * exp(-0.0015 f t)`, shaped by the
//! percussive envelope `1 + 16 t exp(-6 t)`; the contributions of all
//! frequencies add, and the mix `y` is rescaled to `y / 2 + 1/2` and clamped
//! to `[0, 1]`.  Everything is computed in Q32 fixed point, so the result is
//! an exact, deterministic function of the integer inputs.

use crate::math::{
    exp_neg, fx_exp_neg, fx_sin_cycle, lemma_mul_div_bounds, lemma_mul_div_shrink, mul_div,
    sgn_val, sin_cycle, FX_HALF, FX_ONE, FX_PI_HALF, MD_X_MAX, MD_Y_MAX,
};
use vstd::arithmetic::div_mod::{lemma_div_nonincreasing, lemma_div_of0, lemma_div_pos_is_pos};
use vstd::arithmetic::mul::{
    lemma_mul_cancels_negatives, lemma_mul_is_associative, lemma_mul_is_commutative,
    lemma_mul_nonnegative, lemma_mul_unary_negation, lemma_mul_upper_bound,
};
use vstd::prelude::*;

verus! {

/// Largest sample rate, in hertz, that the synthesizer accepts.
pub const MAX_RATE: u64 = 4294967296;

/// Largest sample-clock value the synthesizer accepts (more than a day of
/// audio at the largest rate the hardware in scope offers).
pub const MAX_TICKS: u64 = 4294967296;

/// Largest number of simultaneous frequencies the synthesizer accepts.
pub const MAX_VOICES: usize = 16;

/// Amplitude of one unit, as the sample type the library hands out.
pub const AMP_ONE: u64 = 4294967296;

/// The amplitude of a silent signal after rescaling.
pub const AMP_HALF: u64 = 2147483648;

/// Weight of the fundamental, 0.6 in Q32.
pub const FX_W_FUND: u64 = 2576980378;

/// Weight of the second harmonic, 0.4 in Q32.
pub const FX_W_SECOND: u64 = 1717986918;

/// Magnitude bound for one tone's contribution to the mix (2^80).
pub const TONE_MAG_MAX: u128 = 1208925819614629174706176;

/// Division truncated toward zero, the rounding every fixed-point product
/// uses.
pub open spec fn tdiv(x: int, d: int) -> int {
    if x >= 0 {
        x / d
    } else {
        -((-x) / d)
    }
}

/// Fixed-point product of two signed Q32 values.
pub open spec fn fx_mul(x: int, y: int) -> int {
    tdiv(x * y, FX_ONE as int)
}

/// Oscillator phase after `ticks` samples: the fractional part of
/// `f * ticks / (1000 * rate)` cycles, in Q32.
pub open spec fn fx_phase(f: int, ticks: int, rate: int) -> int {
    let m: int = 1000 * rate;
    (f * ticks) % m * (FX_ONE as int) / m
}

/// Argument of the per-tone decay `exp(-0.0015 * (f / 1000) * t)`, in Q32.
pub open spec fn fx_decay_arg(f: int, ticks: int, rate: int) -> int {
    3 * (f * ticks) * (FX_ONE as int) / (2000000 * rate)
}

/// The percussive envelope `1 + 16 t exp(-6 t)`, in Q32.
pub open spec fn fx_envelope(ticks: int, rate: int) -> int {
    let one: int = FX_ONE as int;
    let six_t: int = (6 * ticks) * one / rate;
    let sixteen_t: int = (16 * ticks) * one / rate;
    one + sixteen_t * fx_exp_neg(six_t) / one
}

/// One tone's contribution to the mix at `t = ticks / rate`: the enveloped
/// cube of its decaying two-harmonic signal, signed, in Q32.
#[verifier::opaque]
pub open spec fn fx_tone(f: int, ticks: int, rate: int) -> int {
    let e: int = fx_exp_neg(fx_decay_arg(f, ticks, rate));
    let s1: int = fx_sin_cycle(fx_phase(f, ticks, rate));
    let s2: int = fx_sin_cycle(fx_phase(2 * f, ticks, rate));
    let a: int = fx_mul(fx_mul(s1, e), FX_W_FUND as int);
    let bt: int = fx_mul(fx_mul(s2, e), FX_W_SECOND as int);
    let b: int = a + bt;
    let c: int = fx_mul(fx_mul(b, b), b);
    fx_mul(fx_envelope(ticks, rate), c)
}

/// The additive mix of all tones, signed, in Q32.
pub open spec fn fx_mix(freqs: Seq<u64>, ticks: int, rate: int) -> int
    decreases freqs.len(),
{
    if freqs.len() == 0 {
        0
    } else {
        fx_mix(freqs.drop_last(), ticks, rate) + fx_tone(freqs.last() as int, ticks, rate)
    }
}

/// The amplitude handed to the sink: the mix rescaled by `y / 2 + 1/2` and
/// clamped to `[0, 1]`, in Q32.
pub open spec fn fx_amplitude(freqs: Seq<u64>, ticks: int, rate: int) -> int {
    let raw: int = (FX_HALF as int) + tdiv(fx_mix(freqs, ticks, rate), 2);
    if raw < 0 {
        0
    } else if raw > FX_ONE {
        FX_ONE as int
    } else {
        raw
    }
}

/// Range policy: whatever the mix, the clamped amplitude lies between
/// silence and one unit, so it always fits the destination sample range.
pub proof fn lemma_amplitude_in_range(freqs: Seq<u64>, ticks: int, rate: int)
    ensures
        0 <= fx_amplitude(freqs, ticks, rate) <= FX_ONE,
{
}

/// Sign-magnitude product of two signed Q32 values.
fn fx_smul(x: (bool, u128), y: (bool, u128)) -> (r: (bool, u128))
    requires
        x.1 <= MD_X_MAX,
        y.1 <= MD_Y_MAX,
    ensures
        sgn_val(r.0, r.1 as int) == fx_mul(sgn_val(x.0, x.1 as int), sgn_val(y.0, y.1 as int)),
        r.1 == x.1 * y.1 / (FX_ONE as int),
{
    let m: u128 = mul_div(x.1, y.1, FX_ONE);
    proof {
        lemma_mul_nonnegative(x.1 as int, y.1 as int);
        lemma_div_pos_is_pos((x.1 as int) * (y.1 as int), FX_ONE as int);
        lemma_mul_unary_negation(x.1 as int, y.1 as int);
        lemma_mul_cancels_negatives(x.1 as int, y.1 as int);
        lemma_mul_is_commutative(x.1 as int, y.1 as int);
    }
    (x.0 != y.0, m)
}

/// Sign-magnitude sum of two signed Q32 values; exact.
fn fx_sadd(x: (bool, u128), y: (bool, u128)) -> (r: (bool, u128))
    requires
        x.1 <= 16 * (MD_X_MAX as int),
        y.1 <= 16 * (MD_X_MAX as int),
    ensures
        sgn_val(r.0, r.1 as int) == sgn_val(x.0, x.1 as int) + sgn_val(y.0, y.1 as int),
        r.1 <= x.1 + y.1,
{
    if x.0 == y.0 {
        (x.0, x.1 + y.1)
    } else if x.1 >= y.1 {
        (x.0, x.1 - y.1)
    } else {
        (y.0, y.1 - x.1)
    }
}

/// Phase positions stay strictly below one cycle.
proof fn lemma_phase_lt_one(s: int, m: int)
    requires
        0 <= s < m,
        1 <= m,
    ensures
        0 <= s * (FX_ONE as int) / m < FX_ONE,
{
    lemma_mul_nonnegative(s, FX_ONE as int);
    lemma_div_pos_is_pos(s * (FX_ONE as int), m);
    assert(s * (FX_ONE as int) / m < FX_ONE) by (nonlinear_arith)
        requires
            0 <= s < m,
            1 <= m,
    ;
}

/// One tone of the chord, evaluated in sign-magnitude Q32.
fn tone_value(f: u64, ticks: u64, rate: u64) -> (r: (bool, u128))
    requires
        f <= crate::scale::MAX_FREQ_MILLIHZ,
        ticks <= MAX_TICKS,
        1 <= rate <= MAX_RATE,
    ensures
        sgn_val(r.0, r.1 as int) == fx_tone(f as int, ticks as int, rate as int),
        r.1 <= TONE_MAG_MAX,
{
    proof {
        reveal(fx_tone);
    }
    let fu: u128 = f as u128;
    let tu: u128 = ticks as u128;
    let ru: u128 = rate as u128;
    let m: u128 = 1000 * ru;
    // phases of the fundamental and the second harmonic
    let ft: u128 = mul_div(fu, tu, 1);
    proof {
        lemma_mul_div_bounds(fu as int, tu as int, crate::scale::MAX_FREQ_MILLIHZ as int,
            MAX_TICKS as int, 1);
    }
    let ph1: u128 = mul_div(ft % m, FX_ONE, m);
    proof {
        lemma_phase_lt_one((ft % m) as int, m as int);
    }
    let f2t: u128 = 2 * ft;
    proof {
        lemma_mul_is_associative(2, fu as int, tu as int);
    }
    let ph2: u128 = mul_div(f2t % m, FX_ONE, m);
    proof {
        lemma_phase_lt_one((f2t % m) as int, m as int);
    }
    let s1: (bool, u128) = sin_cycle(ph1);
    let s2: (bool, u128) = sin_cycle(ph2);
    // shared per-tone decay
    let darg: u128 = mul_div(3 * ft, FX_ONE, 2000000 * ru);
    let e: u128 = exp_neg(darg);
    // envelope 1 + 16 t exp(-6 t)
    let six_t: u128 = mul_div(6 * tu, FX_ONE, ru);
    let e6: u128 = exp_neg(six_t);
    let sixteen_t: u128 = mul_div(16 * tu, FX_ONE, ru);
    proof {
        lemma_mul_upper_bound(16 * (tu as int), 16 * (MAX_TICKS as int), FX_ONE as int,
            FX_ONE as int);
        lemma_mul_nonnegative(16 * (tu as int), FX_ONE as int);
        lemma_div_nonincreasing(16 * (tu as int) * (FX_ONE as int), ru as int);
        lemma_div_pos_is_pos(16 * (tu as int) * (FX_ONE as int), ru as int);
    }
    let swell: u128 = mul_div(sixteen_t, e6, FX_ONE);
    proof {
        lemma_mul_div_bounds(sixteen_t as int, e6 as int, 16 * (MAX_TICKS as int) * (
        FX_ONE as int), FX_ONE as int, FX_ONE as int);
    }
    let env: u128 = FX_ONE + swell;
    // the two weighted harmonics
    let s1e: (bool, u128) = fx_smul(s1, (false, e));
    proof {
        lemma_mul_div_bounds(s1.1 as int, e as int, FX_PI_HALF as int, FX_ONE as int,
            FX_ONE as int);
    }
    let a: (bool, u128) = fx_smul(s1e, (false, FX_W_FUND as u128));
    proof {
        lemma_mul_div_bounds(s1e.1 as int, FX_W_FUND as int, FX_PI_HALF as int, FX_ONE as int,
            FX_ONE as int);
    }
    let s2e: (bool, u128) = fx_smul(s2, (false, e));
    proof {
        lemma_mul_div_bounds(s2.1 as int, e as int, FX_PI_HALF as int, FX_ONE as int,
            FX_ONE as int);
    }
    let bt: (bool, u128) = fx_smul(s2e, (false, FX_W_SECOND as u128));
    proof {
        lemma_mul_div_bounds(s2e.1 as int, FX_W_SECOND as int, FX_PI_HALF as int, FX_ONE as int,
            FX_ONE as int);
    }
    let b: (bool, u128) = fx_sadd(a, bt);
    // the cube, sign preserved
    let bb: (bool, u128) = fx_smul(b, b);
    proof {
        lemma_mul_div_bounds(b.1 as int, b.1 as int, 4 * (FX_ONE as int), 4 * (FX_ONE as int),
            FX_ONE as int);
    }
    let c: (bool, u128) = fx_smul(bb, b);
    proof {
        lemma_mul_div_bounds(bb.1 as int, b.1 as int, 16 * (FX_ONE as int), 4 * (FX_ONE as int),
            FX_ONE as int);
    }
    // enveloped contribution
    let r: (bool, u128) = fx_smul((false, env), c);
    proof {
        lemma_mul_div_bounds(env as int, c.1 as int, (FX_ONE as int) + 16 * (MAX_TICKS as int) * (
        FX_ONE as int), 64 * (FX_ONE as int), FX_ONE as int);
    }
    r
}

/// At `ticks == 0` a tone contributes nothing: every sine vanishes at phase
/// zero, so the enveloped cube is zero too.
proof fn lemma_tone_at_zero(f: int, rate: int)
    requires
        rate >= 1,
    ensures
        fx_tone(f, 0, rate) == 0,
{
    reveal(fx_tone);
    let m: int = 1000 * rate;
    assert(f * 0 == 0);
    assert((2 * f) * 0 == 0);
    lemma_div_of0(m);
    assert(fx_phase(f, 0, rate) == 0);
    assert(fx_phase(2 * f, 0, rate) == 0);
    assert(3 * (f * 0) * (FX_ONE as int) == 0);
    lemma_div_of0(2000000 * rate);
    assert(fx_decay_arg(f, 0, rate) == 0);
    assert((6 * 0) * (FX_ONE as int) == 0);
    assert((16 * 0) * (FX_ONE as int) == 0);
    lemma_div_of0(rate);
    crate::math::lemma_sin_quarter_zero();
    assert(0int / (FX_ONE as int) == 0);
    assert(0int % (FX_ONE as int) == 0);
    assert(fx_sin_cycle(0) == 0);
    let e0: int = fx_exp_neg(0);
    assert(fx_mul(0, e0) == 0);
    assert(fx_mul(fx_mul(0, e0), FX_W_FUND as int) == 0);
    assert(fx_mul(fx_mul(0, e0), FX_W_SECOND as int) == 0);
    let env0: int = fx_envelope(0, rate);
    assert(env0 * 0 == 0);
    assert(fx_mul(env0, 0) == 0);
}

/// At `ticks == 0` the mix of any frequency set is zero.
pub proof fn lemma_mix_at_zero(freqs: Seq<u64>, rate: int)
    requires
        rate >= 1,
    ensures
        fx_mix(freqs, 0, rate) == 0,
    decreases freqs.len(),
{
    if freqs.len() > 0 {
        lemma_mix_at_zero(freqs.drop_last(), rate);
        lemma_tone_at_zero(freqs.last() as int, rate);
    }
}

/// One normalized amplitude sample of the chord `freqs` at
/// `t = ticks / rate` seconds.
///
/// The result is a pure function of the arguments: two calls with the same
/// inputs return the same value.  It always lies in `[0, AMP_ONE]`, and it is
/// exactly `AMP_HALF` — the rescaled zero signal — at `ticks == 0` and for an
/// empty frequency set.
pub fn sample_at(ticks: u64, rate: u64, freqs: &Vec<u64>) -> (amp: u64)
    requires
        1 <= rate <= MAX_RATE,
        ticks <= MAX_TICKS,
        freqs@.len() <= MAX_VOICES,
        forall|i: int| 0 <= i < freqs@.len() ==> freqs@[i] <= crate::scale::MAX_FREQ_MILLIHZ,
    ensures
        amp == fx_amplitude(freqs@, ticks as int, rate as int),
        amp <= AMP_ONE,
        ticks == 0 ==> amp == AMP_HALF,
        freqs@.len() == 0 ==> amp == AMP_HALF,
{
    let mut y: (bool, u128) = (false, 0);
    let mut i: usize = 0;
    while i < freqs.len()
        invariant
            i <= freqs@.len(),
            freqs@.len() <= MAX_VOICES,
            1 <= rate <= MAX_RATE,
            ticks <= MAX_TICKS,
            forall|k: int| 0 <= k < freqs@.len() ==> freqs@[k] <= crate::scale::MAX_FREQ_MILLIHZ,
            sgn_val(y.0, y.1 as int) == fx_mix(freqs@.take(i as int), ticks as int, rate as int),
            y.1 <= (i as int) * TONE_MAG_MAX,
        decreases freqs@.len() - i,
    {
        let tone: (bool, u128) = tone_value(freqs[i], ticks, rate);
        let next: (bool, u128) = fx_sadd(y, tone);
        proof {
            assert(freqs@.take(i + 1).drop_last() =~= freqs@.take(i as int));
            assert(freqs@.take(i + 1).last() == freqs@[i as int]);
            lemma_mul_upper_bound(i as int, MAX_VOICES as int, TONE_MAG_MAX as int,
                TONE_MAG_MAX as int);
        }
        y = next;
        i = i + 1;
    }
    proof {
        assert(freqs@.take(freqs@.len() as int) =~= freqs@);
        if ticks == 0 {
            lemma_mix_at_zero(freqs@, rate as int);
        }
    }
    let amp128: u128 = if y.0 {
        let d: u128 = y.1 / 2;
        if d >= FX_HALF {
            0
        } else {
            FX_HALF - d
        }
    } else {
        let s: u128 = FX_HALF + y.1 / 2;
        if s > FX_ONE {
            FX_ONE
        } else {
            s
        }
    };
    amp128 as u64
}

} // verus!
