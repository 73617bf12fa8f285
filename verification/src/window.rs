//! The Tukey (tapered cosine) window.
//!
//! For a buffer of length `n` and a taper fraction `alpha` (in Q16), the
//! window is flat in the middle and fades each edge with a raised cosine
//! over `edge = floor(alpha * (n - 1) / 2)` samples. Weights are Q16 gains
//! in `[0, Q_ONE]`; a buffer is windowed by scaling each sample with its
//! weight.
use vstd::prelude::*;

use crate::fixed::cos_q;
use crate::fixed::cos_q_exec;
use crate::fixed::mul_q;
use crate::fixed::scale_q;
use crate::fixed::MONO_LIMIT;

verus! {

/// Number of tapered samples at each end of a window of length `n`.
pub open spec fn tukey_edge(n: int, alpha_q: int) -> int {
    (alpha_q * (n - 1)) / 131072
}

/// Phase (as a Q16 fraction of a full turn) of tapered sample `m`,
/// counted from the nearer end: `m / (alpha * (n - 1))` scaled into Q16.
pub open spec fn tukey_phase(n: int, alpha_q: int, m: int) -> int {
    (m * 0x1_0000_0000) / (alpha_q * (n - 1))
}

/// The window weight of sample `k` in a window of length `n`: a raised
/// cosine over the tapered edges, `Q_ONE` on the plateau. The weight
/// depends on `k` only through its distance to the nearer end, so the
/// window is symmetric by construction.
pub open spec fn tukey_weight(n: int, alpha_q: int, k: int) -> int {
    let m = if k <= n - 1 - k {
        k
    } else {
        n - 1 - k
    };
    if m < tukey_edge(n, alpha_q) {
        (65536 - cos_q(tukey_phase(n, alpha_q, m))) / 2
    } else {
        65536
    }
}

/// Every window weight is a gain in `[0, Q_ONE]`.
pub proof fn lemma_tukey_weight_bounds(n: int, alpha_q: int, k: int)
    ensures
        0 <= tukey_weight(n, alpha_q, k) <= 65536,
{
    let m = if k <= n - 1 - k {
        k
    } else {
        n - 1 - k
    };
    if m < tukey_edge(n, alpha_q) {
        crate::fixed::lemma_cos_q_bounds(tukey_phase(n, alpha_q, m));
        let num = 65536 - cos_q(tukey_phase(n, alpha_q, m));
        assert(0 <= num <= 131072);
        assert(0 <= num / 2 <= 65536) by {
            vstd::arithmetic::div_mod::lemma_div_pos_is_pos(num, 2);
            vstd::arithmetic::div_mod::lemma_multiply_divide_le(num, 2, 65536);
        }
    }
}

/// The window is symmetric: sample `k` and its mirror `n - 1 - k` share
/// one weight.
pub proof fn lemma_tukey_weight_symmetric(n: int, alpha_q: int, k: int)
    ensures
        tukey_weight(n, alpha_q, k) == tukey_weight(n, alpha_q, n - 1 - k),
{
}

/// With a positive taper and at least one tapered sample per edge, both
/// endpoints of the window carry weight exactly zero.
pub proof fn lemma_tukey_endpoints_zero(n: int, alpha_q: int)
    requires
        n > 1,
        alpha_q * (n - 1) >= 131072,
    ensures
        tukey_weight(n, alpha_q, 0) == 0,
        tukey_weight(n, alpha_q, n - 1) == 0,
{
    assert(tukey_edge(n, alpha_q) >= 1) by {
        vstd::arithmetic::div_mod::lemma_div_is_ordered(131072, alpha_q * (n - 1), 131072);
        vstd::arithmetic::div_mod::lemma_div_by_self(131072);
    }
    assert(tukey_phase(n, alpha_q, 0) == 0) by {
        assert(0int * 0x1_0000_0000 == 0);
        vstd::arithmetic::div_mod::lemma_div_of0(alpha_q * (n - 1));
    }
    crate::fixed::lemma_cos_q_zero();
    assert((65536int - 65536) / 2 == 0) by {
        vstd::arithmetic::div_mod::lemma_div_of0(2);
    }
}

/// With taper zero the window is rectangular: every weight is `Q_ONE`,
/// and scaling by it returns each sample unchanged.
pub proof fn lemma_tukey_alpha_zero_identity(n: int, k: int, v: int)
    requires
        0 <= k < n,
    ensures
        tukey_weight(n, 0, k) == 65536,
        mul_q(v, tukey_weight(n, 0, k)) == v,
{
    assert(tukey_edge(n, 0) == 0) by {
        assert(0int * (n - 1) == 0);
        vstd::arithmetic::div_mod::lemma_div_of0(131072);
    }
    lemma_scale_by_one(v);
}

/// Scaling by the unit gain `Q_ONE` is the identity.
pub proof fn lemma_scale_by_one(v: int)
    ensures
        mul_q(v, 65536) == v,
{
    if v >= 0 {
        vstd::arithmetic::div_mod::lemma_div_by_multiple(v, 65536);
        assert(v * 65536 == 65536 * v) by (nonlinear_arith);
    } else {
        assert(-(v * 65536) == (-v) * 65536) by (nonlinear_arith);
        vstd::arithmetic::div_mod::lemma_div_by_multiple(-v, 65536);
        assert((-v) * 65536 == 65536 * (-v)) by (nonlinear_arith);
    }
}

/// The weight of one sample, in executable form.
pub fn tukey_weight_at(n: usize, alpha_q: i64, k: usize) -> (w: i64)
    requires
        k < n,
        n <= 0x100_0000,
        0 <= alpha_q <= 65536,
    ensures
        w == tukey_weight(n as int, alpha_q as int, k as int),
        0 <= w <= 65536,
{
    proof {
        lemma_tukey_weight_bounds(n as int, alpha_q as int, k as int);
    }
    let m: u64 = if k <= n - 1 - k {
        k as u64
    } else {
        (n - 1 - k) as u64
    };
    let a: u64 = alpha_q as u64;
    proof {
        assert(a * ((n - 1) as u64) <= 65536 * 0x100_0000) by (nonlinear_arith)
            requires
                0 <= a <= 65536,
                0 <= (n - 1) as u64 <= 0x100_0000,
        ;
    }
    let denom: u64 = a * ((n - 1) as u64);
    let edge: u64 = denom / 131072;
    if m < edge {
        proof {
            assert(edge >= 1);
            assert(denom >= 131072 * edge) by {
                vstd::arithmetic::div_mod::lemma_fundamental_div_mod(denom as int, 131072);
                vstd::arithmetic::div_mod::lemma_mod_division_less_than_divisor(
                    denom as int,
                    131072,
                );
            }
            assert(m * 0x1_0000_0000 < denom * 32768) by (nonlinear_arith)
                requires
                    m < edge,
                    denom >= 131072 * edge,
                    edge >= 1,
            ;
            assert(m * 0x1_0000_0000 <= 0x100_0000 * 0x1_0000_0000) by (nonlinear_arith)
                requires
                    0 <= m <= 0x100_0000,
            ;
        }
        let phase: u64 = (m * 0x1_0000_0000) / denom;
        proof {
            assert(phase < 32768) by {
                vstd::arithmetic::div_mod::lemma_multiply_divide_lt(
                    (m * 0x1_0000_0000) as int,
                    denom as int,
                    32768,
                );
                assert(denom as int * 32768 == 32768 * denom as int) by (nonlinear_arith);
            }
        }
        let c: i64 = cos_q_exec(phase as i64);
        let num: u64 = (65536 - c) as u64;
        proof {
            vstd::arithmetic::div_mod::lemma_div_pos_is_pos(num as int, 2);
            vstd::arithmetic::div_mod::lemma_multiply_divide_le(num as int, 2, 65536);
        }
        (num / 2) as i64
    } else {
        65536
    }
}

/// Multiplies each sample of `x` by its Tukey weight, in place. Samples
/// never grow in magnitude, so any bound on the input carries over.
pub fn apply_tukey(x: &mut Vec<i64>, alpha_q: i64)
    requires
        0 <= alpha_q <= 65536,
        old(x)@.len() <= 0x100_0000,
        forall|i: int| 0 <= i < old(x)@.len() ==> -MONO_LIMIT <= #[trigger] old(x)@[i] <= MONO_LIMIT,
    ensures
        final(x)@.len() == old(x)@.len(),
        forall|i: int|
            0 <= i < old(x)@.len() ==> #[trigger] final(x)@[i] == mul_q(
                old(x)@[i] as int,
                tukey_weight(old(x)@.len() as int, alpha_q as int, i),
            ),
        forall|i: int|
            0 <= i < old(x)@.len() ==> -MONO_LIMIT <= #[trigger] final(x)@[i] <= MONO_LIMIT,
{
    let n = x.len();
    let mut i: usize = 0;
    while i < n
        invariant
            i <= n,
            n == old(x)@.len(),
            n <= 0x100_0000,
            0 <= alpha_q <= 65536,
            x@.len() == n,
            forall|j: int| i <= j < n ==> #[trigger] x@[j] == old(x)@[j],
            forall|j: int|
                0 <= j < n ==> -MONO_LIMIT <= #[trigger] old(x)@[j] <= MONO_LIMIT,
            forall|j: int|
                0 <= j < i ==> #[trigger] x@[j] == mul_q(
                    old(x)@[j] as int,
                    tukey_weight(n as int, alpha_q as int, j),
                ),
            forall|j: int| 0 <= j < i ==> -MONO_LIMIT <= #[trigger] x@[j] <= MONO_LIMIT,
        decreases n - i,
    {
        let w = tukey_weight_at(n, alpha_q, i);
        let v = x[i];
        let scaled = scale_q(v, w);
        x[i] = scaled;
        i = i + 1;
    }
}

} // verus!
