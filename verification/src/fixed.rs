//! Fixed-point sample arithmetic.
//!
//! Samples and control values carry 16 fractional bits: `Q_ONE` stands for
//! the real number 1.0. All signal arithmetic is exact integer arithmetic
//! over this representation, with divisions truncating toward zero.
use vstd::prelude::*;

verus! {

/// Fixed-point one: 1.0 is represented as 65536.
pub const Q_ONE: i64 = 65536;

/// Largest magnitude accepted for one input sample of one channel.
pub const SAMPLE_LIMIT: i64 = 0x1_0000_0000;

/// Most channels one block may carry.
pub const MAX_CHANNELS: usize = 256;

/// Largest magnitude of a stored (downmixed) sample:
/// `MAX_CHANNELS * SAMPLE_LIMIT`.
pub const MONO_LIMIT: i64 = 0x100_0000_0000;

/// Largest magnitude of a wet accumulator: `MAX_GRAINS * MONO_LIMIT`.
pub const WET_LIMIT: i64 = 0x1900_0000_0000;

/// Division by `Q_ONE` truncating toward zero, as the scaling steps below
/// perform it.
pub open spec fn div_q(v: int) -> int {
    if v >= 0 {
        v / 65536
    } else {
        -((-v) / 65536)
    }
}

/// The fixed-point product of a sample `v` and a gain `w`.
pub open spec fn mul_q(v: int, w: int) -> int {
    div_q(v * w)
}

/// Multiplies a sample by a gain in `[0, Q_ONE]`; the result never grows in
/// magnitude.
pub fn scale_q(v: i64, w: i64) -> (r: i64)
    requires
        -MONO_LIMIT <= v <= MONO_LIMIT,
        0 <= w <= Q_ONE,
    ensures
        r == mul_q(v as int, w as int),
        v >= 0 ==> 0 <= r <= v,
        v < 0 ==> v <= r <= 0,
{
    let av: u64 = if v >= 0 {
        v as u64
    } else {
        (-v) as u64
    };
    proof {
        assert(av * w <= 0x100_0000_0000 * 65536) by (nonlinear_arith)
            requires
                0 <= av <= 0x100_0000_0000,
                0 <= w <= 65536,
        ;
    }
    let prod: u64 = av * (w as u64);
    let q: u64 = prod / 65536;
    proof {
        assert(q <= av) by (nonlinear_arith)
            requires
                0 <= w <= 65536,
                prod == av * w,
                q == prod / 65536,
        ;
    }
    let qi: i64 = q as i64;
    if v >= 0 {
        proof {
            assert(v * w >= 0) by (nonlinear_arith)
                requires
                    v >= 0,
                    w >= 0,
            ;
        }
        qi
    } else {
        proof {
            assert(v * w <= 0) by (nonlinear_arith)
                requires
                    v < 0,
                    w >= 0,
            ;
            assert((-(v * w)) == av * w) by (nonlinear_arith)
                requires
                    av == -v,
            ;
        }
        -qi
    }
}

/// Clamps a raw cosine value into `[0, Q_ONE]`.
pub open spec fn clamp01_q(x: int) -> int {
    if x < 0 {
        0
    } else if x > 65536 {
        65536
    } else {
        x
    }
}

/// Fixed-point cosine over the first quarter turn. The argument `t` is a
/// fraction of a full turn in Q16 (`t = 16384` is a quarter turn); the
/// result approximates `cos(2*pi*t/65536) * Q_ONE` by a truncated power
/// series, clamped into `[0, Q_ONE]`. `t = 0` yields exactly `Q_ONE`.
pub open spec fn cos_quarter(t: int) -> int {
    let th = (t * 411775) / 65536;
    let x2 = (th * th) / 65536;
    let x4 = (x2 * x2) / 65536;
    let x6 = (x4 * x2) / 65536;
    clamp01_q(65536 - x2 / 2 + x4 / 24 - x6 / 720)
}

/// Fixed-point cosine over the first half turn, by quarter-wave symmetry.
pub open spec fn cos_q(t: int) -> int {
    if t <= 16384 {
        cos_quarter(t)
    } else {
        -cos_quarter(32768 - t)
    }
}

pub proof fn lemma_cos_q_bounds(t: int)
    ensures
        -65536 <= cos_q(t) <= 65536,
{
}

pub proof fn lemma_cos_q_zero()
    ensures
        cos_q(0) == 65536,
{
    vstd::arithmetic::div_mod::lemma_div_of0(65536);
    vstd::arithmetic::div_mod::lemma_div_of0(2);
    vstd::arithmetic::div_mod::lemma_div_of0(24);
    vstd::arithmetic::div_mod::lemma_div_of0(720);
    assert((0int * 411775) / 65536 == 0);
    assert((0int * 0) / 65536 == 0);
    assert(cos_quarter(0) == clamp01_q(65536 - 0int / 2 + 0int / 24 - 0int / 720));
}

fn cos_quarter_exec(t: i64) -> (r: i64)
    requires
        0 <= t <= 16384,
    ensures
        r == cos_quarter(t as int),
        0 <= r <= 65536,
{
    let tu: u64 = t as u64;
    let th: u64 = (tu * 411775) / 65536;
    proof {
        assert(tu * 411775 <= 16384 * 411775) by (nonlinear_arith)
            requires
                0 <= tu <= 16384,
        ;
        assert(th <= 102943) by {
            vstd::arithmetic::div_mod::lemma_multiply_divide_lt(
                (tu * 411775) as int,
                65536,
                102944,
            );
        }
        assert(th * th <= 102943 * 102943) by (nonlinear_arith)
            requires
                0 <= th <= 102943,
        ;
    }
    let x2: u64 = (th * th) / 65536;
    proof {
        assert(x2 <= 161705) by {
            vstd::arithmetic::div_mod::lemma_multiply_divide_lt((th * th) as int, 65536, 161706);
        }
        assert(x2 * x2 <= 161705 * 161705) by (nonlinear_arith)
            requires
                0 <= x2 <= 161705,
        ;
    }
    let x4: u64 = (x2 * x2) / 65536;
    proof {
        assert(x4 <= 398994) by {
            vstd::arithmetic::div_mod::lemma_multiply_divide_lt((x2 * x2) as int, 65536, 398995);
        }
        assert(x4 * x2 <= 398994 * 161705) by (nonlinear_arith)
            requires
                0 <= x4 <= 398994,
                0 <= x2 <= 161705,
        ;
    }
    let x6: u64 = (x4 * x2) / 65536;
    proof {
        assert(x6 <= 984499) by {
            vstd::arithmetic::div_mod::lemma_multiply_divide_lt((x4 * x2) as int, 65536, 984500);
        }
    }
    let pos: u64 = 65536 + x4 / 24;
    let neg: u64 = x2 / 2 + x6 / 720;
    proof {
        assert(x4 / 24 <= 16624) by {
            vstd::arithmetic::div_mod::lemma_multiply_divide_lt(x4 as int, 24, 16625);
        }
        assert(x2 / 2 <= 80852) by {
            vstd::arithmetic::div_mod::lemma_multiply_divide_lt(x2 as int, 2, 80853);
        }
        assert(x6 / 720 <= 1367) by {
            vstd::arithmetic::div_mod::lemma_multiply_divide_lt(x6 as int, 720, 1368);
        }
    }
    let raw: i64 = (pos as i64) - (neg as i64);
    let c: i64 = if raw < 0 {
        0
    } else if raw > 65536 {
        65536
    } else {
        raw
    };
    c
}

/// Computes `cos_q` on the first half turn.
pub fn cos_q_exec(t: i64) -> (r: i64)
    requires
        0 <= t <= 32768,
    ensures
        r == cos_q(t as int),
        -65536 <= r <= 65536,
{
    if t <= 16384 {
        cos_quarter_exec(t)
    } else {
        -cos_quarter_exec(32768 - t)
    }
}

} // verus!
