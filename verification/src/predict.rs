//! Timeout predictor.
//!
//! Computes, analytically, the minimum number of whole frames until any
//! core's indicator is about to flip, so the process can sleep exactly that
//! long instead of polling every animation frame.
use vstd::prelude::*;
use vstd::arithmetic::div_mod::*;
use crate::engine::CpuState;
use crate::engine::advanced;
use crate::engine::step_of;

verus! {

/// Mathematical ceiling division.
pub open spec fn ceil_div(a: int, b: int) -> int {
    (a + b - 1) / b
}

/// Rounding-up division.
pub fn div_ceil(a: u64, b: u64) -> (r: u64)
    requires
        1 <= b,
    ensures
        r == ceil_div(a as int, b as int),
        1 <= a ==> 1 <= r <= a,
{
    let q = a / b;
    proof {
        let ai = a as int;
        let bi = b as int;
        let qi = q as int;
        let r = ai % bi;
        lemma_fundamental_div_mod(ai, bi);
        lemma_ceil_div(ai, bi);
        if a >= 1 {
            if r == 0 {
                assert(1 <= qi <= ai) by (nonlinear_arith)
                    requires
                        ai == bi * qi + 0,
                        1 <= ai,
                        1 <= bi,
                        0 <= qi,
                ;
            } else {
                assert(qi + 1 <= ai) by (nonlinear_arith)
                    requires
                        ai == bi * qi + r,
                        1 <= r,
                        1 <= bi,
                        0 <= qi,
                ;
            }
        }
    }
    if a % b != 0 {
        q + 1
    } else {
        q
    }
}

/// How ceiling division rounds: one above the floor exactly when the
/// division has a remainder.
pub proof fn lemma_ceil_div(a: int, b: int)
    requires
        0 <= a,
        1 <= b,
    ensures
        a % b == 0 ==> ceil_div(a, b) == a / b,
        a % b != 0 ==> ceil_div(a, b) == a / b + 1,
{
    let q = a / b;
    let r = a % b;
    lemma_fundamental_div_mod(a, b);
    if r == 0 {
        assert(q * b == b * q) by (nonlinear_arith);
        lemma_fundamental_div_mod_converse(a + b - 1, b, q, b - 1);
    } else {
        assert((q + 1) * b == b * q + b) by (nonlinear_arith);
        lemma_fundamental_div_mod_converse(a + b - 1, b, q + 1, r - 1);
    }
}

/// The state reached from `c` by `n` single-frame advances.
pub open spec fn stepped(c: CpuState, n: nat) -> CpuState
    decreases n,
{
    if n == 0 {
        c
    } else {
        advanced(stepped(c, (n - 1) as nat), 1)
    }
}

/// The number of single-frame advances from state `c` after which the phase
/// accumulator first wraps: `ceil((2^32 - charge) / rate)`.
pub open spec fn frames_to_wrap(c: CpuState) -> int {
    ceil_div(0x1_0000_0000 - c.charge, c.rate as int)
}

/// Single-frame advances accumulate the rate into the phase linearly until
/// the first wrap: below `frames_to_wrap(c)` the phase after `n` frames is
/// `charge + n*rate` and the indicator stays off; at `n == frames_to_wrap(c)`
/// the accumulator wraps, the indicator turns on, and the new phase is below
/// the rate again.
pub proof fn lemma_first_wrap(c: CpuState, n: int)
    requires
        1 <= c.rate,
        0 <= n <= frames_to_wrap(c),
    ensures
        1 <= frames_to_wrap(c),
        stepped(c, n as nat).rate == c.rate,
        n < frames_to_wrap(c) ==> stepped(c, n as nat).charge == c.charge + n * c.rate,
        1 <= n < frames_to_wrap(c) ==> !stepped(c, n as nat).lit,
        n == frames_to_wrap(c) ==> stepped(c, n as nat).lit && stepped(c, n as nat).charge
            == c.charge + n * c.rate - 0x1_0000_0000 && stepped(c, n as nat).charge < c.rate,
    decreases n,
{
    let rt = c.rate as int;
    let d = 0x1_0000_0000 - c.charge;
    let k = frames_to_wrap(c);
    let rr = (d + rt - 1) % rt;
    lemma_fundamental_div_mod(d + rt - 1, rt);
    assert(d + rt - 1 == rt * k + rr);
    assert(1 <= k && rt * k >= d && rt * (k - 1) <= d - 1) by (nonlinear_arith)
        requires
            d + rt - 1 == rt * k + rr,
            0 <= rr < rt,
            1 <= rt,
            1 <= d,
    ;
    if n == 0 {
        assert(stepped(c, 0) == c);
        assert(n * c.rate == 0) by (nonlinear_arith)
            requires
                n == 0,
        ;
    } else {
        lemma_first_wrap(c, n - 1);
        let prev = stepped(c, (n - 1) as nat);
        assert(stepped(c, n as nat) == advanced(prev, 1));
        assert(prev.charge == c.charge + (n - 1) * rt);
        assert((n - 1) * rt + rt == n * rt && (n - 1) * rt <= (k - 1) * rt && (k - 1) * rt == rt * (
        k - 1)) by (nonlinear_arith)
            requires
                n - 1 <= k - 1,
                0 <= rt,
        ;
        assert(prev.charge + rt == c.charge + n * rt);
        assert(step_of(prev.rate, 1) == rt);
        if n < k {
            assert(n * rt <= (k - 1) * rt) by (nonlinear_arith)
                requires
                    n <= k - 1,
                    0 <= rt,
            ;
            assert(c.charge + n * rt <= c.charge + d - 1);
            lemma_fundamental_div_mod_converse(
                c.charge + n * rt,
                0x1_0000_0000,
                0,
                c.charge + n * rt,
            );
        } else {
            assert(n * rt == rt * k) by (nonlinear_arith)
                requires
                    n == k,
            ;
            assert(c.charge + n * rt >= c.charge + d);
            lemma_fundamental_div_mod_converse(
                c.charge + n * rt,
                0x1_0000_0000,
                1,
                c.charge + n * rt - 0x1_0000_0000,
            );
        }
    }
}

/// Steady-state blink period: right after a wrap the phase is below the
/// rate, and from every such phase the next wrap comes after
/// `ceil(2^32 / rate)` single-frame advances, within one frame of boundary
/// rounding.
pub proof fn lemma_steady_state_period(c: CpuState)
    requires
        1 <= c.rate,
        c.charge < c.rate,
    ensures
        ceil_div(0x1_0000_0000, c.rate as int) - 1 <= frames_to_wrap(c) <= ceil_div(
            0x1_0000_0000,
            c.rate as int,
        ),
{
    let rt = c.rate as int;
    let d = 0x1_0000_0000 - c.charge;
    lemma_div_is_ordered(d + rt - 1, 0x1_0000_0000 + rt - 1, rt);
    lemma_ceil_div(0x1_0000_0000, rt);
    lemma_div_is_ordered(0x1_0000_0000, d + rt - 1, rt);
}

/// For a core that is off at a positive phase and rate, the prediction is
/// exact: it names precisely the single-frame advance at which the phase
/// first wraps and the indicator turns on.
pub proof fn lemma_prediction_is_first_wrap(c: CpuState)
    requires
        !c.lit,
        1 <= c.rate,
        1 <= c.charge,
    ensures
        spec_frames_until_flip(c) == Some(frames_to_wrap(c) as u32),
{
}

/// A single core at a positive rate, starting off with zero phase: the first
/// predicted change comes at frame `ceil(2^32 / rate)`, for every rate that
/// does not divide `2^32 - 1` (at such a divisor the prediction rounds one
/// frame earlier).
pub proof fn lemma_first_prediction(rate: u32)
    requires
        1 <= rate,
        0xffff_ffff as int % (rate as int) != 0,
    ensures
        spec_frames_until_flip(CpuState { charge: 0, rate, lit: false }) == Some(
            ceil_div(0x1_0000_0000, rate as int) as u32,
        ),
{
    let rt = rate as int;
    let q = 0xffff_ffff as int / rt;
    let s = 0xffff_ffff as int % rt;
    lemma_fundamental_div_mod(0xffff_ffff, rt);
    lemma_ceil_div(0xffff_ffff, rt);
    lemma_ceil_div(0x1_0000_0000, rt);
    if s + 1 < rt {
        assert(q * rt == rt * q) by (nonlinear_arith);
        lemma_fundamental_div_mod_converse(0x1_0000_0000, rt, q, s + 1);
    } else {
        assert((q + 1) * rt == rt * q + rt) by (nonlinear_arith);
        lemma_fundamental_div_mod_converse(0x1_0000_0000, rt, q + 1, 0);
    }
}

/// The predicted number of whole frames until the indicator of a core in
/// state `c` next changes, or `None` for a core at rate zero, whose indicator
/// never changes and which the predictor skips.
///
/// For a core that is off, this is the number of frames until the phase first
/// wraps: `ceil((2^32 - max(charge, 1)) / rate)`. For a core that is on, it
/// is the guess `charge / (2^32 - rate) + 1`, saturated to the maximum
/// representable value: the number of frames over which the phase, stepping
/// down by the rate's additive inverse modulo `2^32`, stays above zero.
pub open spec fn spec_frames_until_flip(c: CpuState) -> Option<u32> {
    if c.rate == 0 {
        None
    } else if c.lit {
        if c.charge as int / (0x1_0000_0000 - c.rate) + 1 > u32::MAX {
            Some(u32::MAX)
        } else {
            Some((c.charge as int / (0x1_0000_0000 - c.rate) + 1) as u32)
        }
    } else {
        if c.charge >= 1 {
            Some(ceil_div(0x1_0000_0000 - c.charge, c.rate as int) as u32)
        } else {
            Some(ceil_div(0xffff_ffff, c.rate as int) as u32)
        }
    }
}

/// Predicts the number of whole frames until `c`'s indicator next changes;
/// `None` for a core at rate zero. A predicted distance is never zero.
pub fn frames_until_flip(c: &CpuState) -> (r: Option<u32>)
    ensures
        r == spec_frames_until_flip(*c),
        r matches Some(f) ==> 1 <= f,
{
    if c.rate == 0 {
        None
    } else if c.lit {
        let antirate: u64 = 0x1_0000_0000u64 - (c.rate as u64);
        let q: u64 = (c.charge as u64) / antirate;
        if q >= u32::MAX as u64 {
            Some(u32::MAX)
        } else {
            Some((q + 1) as u32)
        }
    } else {
        let m: u64 = if c.charge >= 1 {
            c.charge as u64
        } else {
            1
        };
        let remaining: u64 = 0x1_0000_0000u64 - m;
        let f = div_ceil(remaining, c.rate as u64);
        Some(f as u32)
    }
}

} // verus!
