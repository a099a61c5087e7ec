//! Blink accumulator engine.
//!
//! Each core's load fraction is encoded as a fixed-point per-frame `rate`.
//! Every elapsed frame adds `rate` to a 32-bit phase accumulator, and the
//! indicator state is the carry flag of the most recent accumulation step: a
//! core blinks once per phase wrap, so the wrap frequency is exactly
//! proportional to the load, with no floating-point drift and no per-core
//! duty-cycle timer.
use vstd::prelude::*;

verus! {

/// Animation state of one processor core.
#[derive(Debug, Clone, Copy, PartialEq, Eq, Structural)]
pub struct CpuState {
    /// Fixed-point phase accumulator; wraps modulo `2^32`.
    pub charge: u32,
    /// Per-frame phase increment: the core's load fraction in fixed point.
    pub rate: u32,
    /// Whether this core's indicator is on for the current frame: the carry
    /// flag produced by the most recent accumulation step.
    pub lit: bool,
}

impl CpuState {
    /// The state of a core before any measurement: zero phase, zero rate,
    /// indicator off.
    pub fn idle() -> (c: CpuState)
        ensures
            c == (CpuState { charge: 0, rate: 0, lit: false }),
    {
        CpuState { charge: 0, rate: 0, lit: false }
    }
}

/// The total phase increment for `frames` elapsed frames: `rate * frames`,
/// saturated to the maximum representable 32-bit value so that the carry
/// semantics of the following addition stay well-defined.
pub open spec fn step_of(rate: u32, frames: u32) -> int {
    if rate * frames > u32::MAX {
        u32::MAX as int
    } else {
        rate * frames
    }
}

/// The state reached from `c` after `frames` elapsed frames: the saturated
/// total increment is added to the phase modulo `2^32`, and the indicator is
/// set to the carry of that addition. Zero elapsed frames leave the state
/// untouched.
pub open spec fn advanced(c: CpuState, frames: u32) -> CpuState {
    if frames == 0 {
        c
    } else {
        CpuState {
            charge: ((c.charge + step_of(c.rate, frames)) % 0x1_0000_0000) as u32,
            rate: c.rate,
            lit: c.charge + step_of(c.rate, frames) >= 0x1_0000_0000,
        }
    }
}

/// Advances one core's state by `frames` elapsed frames.
pub fn advance(c: &mut CpuState, frames: u32)
    ensures
        *final(c) == advanced(*old(c), frames),
{
    if frames > 0 {
        proof {
            assert((c.rate as int) * (frames as int) <= u64::MAX) by (nonlinear_arith)
                requires
                    c.rate <= u32::MAX,
                    frames <= u32::MAX,
            ;
        }
        let prod: u64 = (c.rate as u64) * (frames as u64);
        let step: u32 = if prod > u32::MAX as u64 {
            u32::MAX
        } else {
            prod as u32
        };
        let sum: u64 = (c.charge as u64) + (step as u64);
        if sum >= 0x1_0000_0000u64 {
            c.charge = (sum - 0x1_0000_0000) as u32;
            c.lit = true;
        } else {
            c.charge = sum as u32;
            c.lit = false;
        }
    }
}

/// The fixed-point encoding of the load fraction `active / total`: the
/// fraction times `2^32`, rounded half-up, and clamped into the representable
/// range, so that a fully loaded core gets the maximum rate and an idle one
/// gets zero.
pub open spec fn rate_of_fraction(active: int, total: int) -> u32 {
    let rounded = (2 * active * 0x1_0000_0000 + total) / (2 * total);
    if rounded > 0xffff_ffff {
        u32::MAX
    } else {
        rounded as u32
    }
}

/// Converts a load fraction, given as the pair of active and total counter
/// deltas, into the per-frame rate: `round(active/total * 2^32)`, clamped to
/// the maximum representable value.
pub fn rate_from_delta(active: u64, total: u64) -> (r: u32)
    requires
        total > 0,
        active <= total,
    ensures
        r == rate_of_fraction(active as int, total as int),
{
    proof {
        assert(2 * (active as int) * 0x1_0000_0000 + total <= u128::MAX) by (nonlinear_arith)
            requires
                active <= u64::MAX,
                total <= u64::MAX,
        ;
        assert((2 * (active as int) * 0x1_0000_0000 + total) / (2 * (total as int)) >= 0) by (
        nonlinear_arith)
            requires
                0 <= active,
                1 <= total,
        ;
    }
    let num: u128 = 2 * (active as u128) * 0x1_0000_0000 + (total as u128);
    let den: u128 = 2 * (total as u128);
    let wide: u128 = num / den;
    if wide > 0xffff_ffff {
        u32::MAX
    } else {
        wide as u32
    }
}

/// A core at rate zero never blinks: accumulation never moves its phase and
/// never produces a carry. From the indicator-off state any number of elapsed
/// frames leaves the whole state unchanged, so the indicator never
/// transitions however many wake-ups pass.
pub proof fn lemma_zero_rate_never_lights(c: CpuState, frames: u32)
    requires
        c.rate == 0,
    ensures
        advanced(c, frames).charge == c.charge,
        advanced(c, frames).rate == 0,
        frames > 0 ==> !advanced(c, frames).lit,
        !c.lit ==> advanced(c, frames) == c,
{
}

/// A core at the maximum rate wraps its phase on every single-frame advance —
/// the blink period is one frame — from every phase except the single value
/// zero, and the phase steps down by exactly one each frame.
pub proof fn lemma_max_rate_period_one(c: CpuState)
    requires
        c.rate == u32::MAX,
    ensures
        advanced(c, 1).lit == (c.charge >= 1),
        c.charge >= 1 ==> advanced(c, 1).charge == c.charge - 1,
        c.charge == 0 ==> advanced(c, 1).charge == u32::MAX,
{
}

} // verus!
