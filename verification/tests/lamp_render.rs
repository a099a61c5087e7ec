use cpulamp::engine::CpuState;
use cpulamp::lamp::Lamp;
use cpulamp::lamp::FRAME_INTERVAL_US;
use cpulamp::render::render_grid;
use cpulamp::slist::Entry;
use cpulamp::sysinfo::Sampler;

#[test]
fn sparse_mode_at_exact_fit() {
    // With exactly one cell per core the sparse layout is chosen.
    let lits = vec![true, true, true, true];
    let out = render_grid(&lits, 2, 2);
    assert_eq!(out, "\u{2022}\u{2022}\n\u{2022}\u{2022}");
}

#[test]
fn sparse_mode_pads_missing_cores() {
    let lits = vec![true, false, true];
    assert_eq!(render_grid(&lits, 1, 4), "\u{2022} \u{2022} ");
    assert_eq!(render_grid(&lits, 2, 2), "\u{2022} \n\u{2022} ");
}

#[test]
fn dense_mode_packs_groups() {
    // Five cores on four cells: dense, one core per group bit.
    let lits = vec![true, false, false, false, false];
    assert_eq!(render_grid(&lits, 2, 2), "\u{2801}\u{2800}\n\u{2800}\u{2800}");
    // Nine cores on one cell: groups of two, the first five bits on.
    assert_eq!(render_grid(&vec![true; 9], 1, 1), "\u{281f}");
    // Sixteen cores, every other one busy: every group has a busy member.
    let alternating: Vec<bool> = (0..16).map(|i| i % 2 == 0).collect();
    assert_eq!(render_grid(&alternating, 1, 1), "\u{28ff}");
}

#[test]
fn idle_lamp_sleeps_to_next_measurement() {
    let mut lamp = Lamp::new();
    let due = lamp.begin_wake(0);
    assert!(due, "the first wake-up measures immediately");
    // No cores known: the sleep runs to the next measurement, five frames on,
    // landing exactly on the frame boundary.
    let timeout_us = lamp.finish_wake();
    assert_eq!(timeout_us, 5 * FRAME_INTERVAL_US);
}

#[test]
fn sleep_runs_to_the_first_predicted_flip() {
    // One core at half rate, phase zero, indicator off: the first flip is
    // predicted two frames out, sooner than the next measurement.
    let lamp_cpus = Some(Box::new(Entry {
        data: CpuState { charge: 0, rate: 0x8000_0000, lit: false },
        next: None,
    }));
    let mut lamp = Lamp {
        elapsed_since_last_frame_us: 0,
        elapsed_since_last_measure_f: 0,
        pending_frames: 0,
        cpus: lamp_cpus,
        sampler: Sampler::new(),
    };
    let timeout_us = lamp.finish_wake();
    assert_eq!(timeout_us, 2 * FRAME_INTERVAL_US);
}

#[test]
fn blink_frequencies_rank_by_load() {
    let text = b"cpu0 100 0 0 0 0\ncpu1 50 0 0 50 0\ncpu2 0 0 0 100 0\ncpu3 25 0 0 75 0\n";
    let mut lamp = Lamp::new();
    let mut on_counts = [0u32; 4];
    for wake in 0..64 {
        let elapsed = if wake == 0 { 0 } else { FRAME_INTERVAL_US };
        let due = lamp.begin_wake(elapsed);
        if due {
            // Later refreshes see no counter movement and fail; the last
            // committed rates then stay in force.
            let _ = lamp.measure(text);
        }
        let timeout_us = lamp.finish_wake();
        assert!(timeout_us >= 1);
        for (i, lit) in lamp.lit_flags().into_iter().enumerate() {
            if lit {
                on_counts[i] += 1;
            }
        }
    }
    // Fractions 1.0, 0.5, 0.0, 0.25: blink frequency ranks in load order.
    assert!(on_counts[0] > on_counts[1]);
    assert!(on_counts[1] > on_counts[3]);
    assert!(on_counts[3] > on_counts[2]);
    // The idle core is never lit.
    assert_eq!(on_counts[2], 0);
}

#[test]
fn failed_measure_keeps_the_display() {
    let text = b"cpu0 100 0 0 0 0\ncpu1 50 0 0 50 0\n";
    let mut lamp = Lamp::new();
    assert!(lamp.begin_wake(0));
    assert!(lamp.measure(text).is_ok());
    lamp.finish_wake();
    let before = lamp.lit_flags();
    assert!(lamp.measure(b"garbage\n").is_err());
    assert_eq!(lamp.lit_flags(), before);
}
