use cpulamp::engine::advance;
use cpulamp::engine::rate_from_delta;
use cpulamp::engine::CpuState;
use cpulamp::predict::div_ceil;
use cpulamp::predict::frames_until_flip;

#[test]
fn zero_rate_never_lights() {
    let mut c = CpuState { charge: 7, rate: 0, lit: false };
    for frames in [1u32, 5, 1000, u32::MAX] {
        advance(&mut c, frames);
        assert_eq!(c.charge, 7);
        assert!(!c.lit);
    }
}

#[test]
fn max_rate_wraps_every_frame() {
    let mut c = CpuState { charge: 0, rate: u32::MAX, lit: false };
    advance(&mut c, 1);
    assert_eq!(c.charge, u32::MAX);
    assert!(!c.lit);
    for expect in [u32::MAX - 1, u32::MAX - 2, u32::MAX - 3] {
        advance(&mut c, 1);
        assert_eq!(c.charge, expect);
        assert!(c.lit);
    }
}

#[test]
fn half_rate_blinks_every_second_frame() {
    // rate 2^31: the phase wraps every ceil(2^32 / 2^31) == 2 frames.
    let mut c = CpuState { charge: 0, rate: 0x8000_0000, lit: false };
    let mut pattern = Vec::new();
    for _ in 0..8 {
        advance(&mut c, 1);
        pattern.push(c.lit);
    }
    assert_eq!(pattern, vec![false, true, false, true, false, true, false, true]);
}

#[test]
fn advance_saturates_big_steps() {
    // 2 * u32::MAX frames would overflow; the step saturates to u32::MAX.
    let mut c = CpuState { charge: 5, rate: 2, lit: false };
    advance(&mut c, u32::MAX);
    assert_eq!(c.charge, 4);
    assert!(c.lit);
}

#[test]
fn rate_from_fraction() {
    // round(active/total * 2^32), clamped into the representable range.
    assert_eq!(rate_from_delta(100, 100), u32::MAX);
    assert_eq!(rate_from_delta(0, 100), 0);
    assert_eq!(rate_from_delta(50, 100), 0x8000_0000);
    assert_eq!(rate_from_delta(1, 2), 0x8000_0000);
    assert_eq!(rate_from_delta(1, 3), 0x5555_5555);
    assert_eq!(rate_from_delta(2, 3), 0xaaaa_aaab);
    // A fraction that rounds to 2^32 itself is clamped.
    assert_eq!(rate_from_delta((1 << 40) - 1, 1 << 40), u32::MAX);
}

#[test]
fn div_ceil_rounds_up() {
    assert_eq!(div_ceil(10, 3), 4);
    assert_eq!(div_ceil(9, 3), 3);
    assert_eq!(div_ceil(1, 1), 1);
    assert_eq!(div_ceil(0, 7), 0);
}

#[test]
fn prediction_distances() {
    // A core at rate zero never changes and is skipped.
    assert_eq!(frames_until_flip(&CpuState { charge: 3, rate: 0, lit: false }), None);
    // Off at zero phase: the first change comes at ceil((2^32 - 1) / rate).
    assert_eq!(
        frames_until_flip(&CpuState { charge: 0, rate: 0x8000_0000, lit: false }),
        Some(2)
    );
    assert_eq!(
        frames_until_flip(&CpuState { charge: 0, rate: 3, lit: false }),
        Some((0xffff_ffffu64 / 3) as u32)
    );
    // On: the guess counts the frames until the additive inverse of the rate
    // drains the phase.
    assert_eq!(
        frames_until_flip(&CpuState { charge: 0x1000, rate: 0xffff_ff00, lit: true }),
        Some(0x1000 / 0x100 + 1)
    );
    // A predicted distance is never zero.
    for rate in [1u32, 2, 3, 0x8000_0000, u32::MAX] {
        for lit in [false, true] {
            let f = frames_until_flip(&CpuState { charge: 0, rate, lit }).unwrap();
            assert!(f >= 1);
        }
    }
}
