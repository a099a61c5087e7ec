//! The wake-up engine: timing state and the per-wake transitions.
//!
//! A host scheduler calls back at the times this engine itself requests. On
//! every wake-up the elapsed wall-clock time is folded into whole frames plus
//! a sub-frame remainder carried forward, so rounding error never compounds;
//! every few frames a fresh load measurement is taken; every core's phase is
//! advanced by the elapsed frames; and the next sleep is computed so that the
//! process wakes exactly when some indicator is due to flip or a measurement
//! is due, never polling every frame.
use vstd::prelude::*;
use crate::engine::CpuState;
use crate::engine::advance;
use crate::engine::advanced;
use crate::engine::rate_from_delta;
use crate::engine::rate_of_fraction;
use crate::predict::frames_until_flip;
use crate::predict::spec_frames_until_flip;
use crate::slist::Entry;
use crate::slist::Link;
use crate::slist::iter;
use crate::slist::iter_mut;
use crate::slist::resize_with;
use crate::slist::seq_of;
use crate::sysinfo::Cpu;
use crate::sysinfo::CpuStats;
use crate::sysinfo::SampleError;
use crate::sysinfo::Sampler;
use crate::sysinfo::delta_of;
use crate::sysinfo::refresh_commits;
use crate::sysinfo::refresh_rejects;

verus! {

/// The fixed scheduling quantum: accumulation advances in 200 ms frames.
pub const FRAME_INTERVAL_US: u32 = 200_000;

/// A fresh load measurement is due every five frames.
pub const MEASURE_INTERVAL_F: u32 = 5;

/// Saturation to the 32-bit range.
pub open spec fn sat32(x: int) -> u32 {
    if x > u32::MAX {
        u32::MAX
    } else if x < 0 {
        0
    } else {
        x as u32
    }
}

/// The rate of a core whose counters advanced by `d` over the last
/// measurement interval: the load fraction `active/total` times `2^32`,
/// rounded and clamped to the representable range, so a fraction at or above
/// one gets the maximum rate.
pub open spec fn rate_of_delta(d: CpuStats) -> u32 {
    if d.active >= d.total {
        u32::MAX
    } else {
        rate_of_fraction(d.active as int, d.total as int)
    }
}

/// The smallest predicted flip distance over `cs`, starting from the
/// candidate `acc`; cores whose indicator never changes are skipped.
pub open spec fn min_candidate(cs: Seq<CpuState>, acc: u32) -> u32
    decreases cs.len(),
{
    if cs.len() == 0 {
        acc
    } else {
        let acc2 = match spec_frames_until_flip(cs[0]) {
            Some(f) => if f < acc {
                f
            } else {
                acc
            },
            None => acc,
        };
        min_candidate(cs.drop_first(), acc2)
    }
}

/// The whole indicator engine: the timing state, one animation record per
/// core, and the load sampler.
pub struct Lamp {
    /// Sub-frame remainder of wall-clock time, carried to the next wake-up.
    pub elapsed_since_last_frame_us: u32,
    /// Whole frames since the last measurement was begun.
    pub elapsed_since_last_measure_f: u32,
    /// Frames absorbed by the current wake-up and not yet applied.
    pub pending_frames: u32,
    /// One animation record per core, in the sampler's order.
    pub cpus: Link<CpuState>,
    /// The load sampler and its committed snapshots.
    pub sampler: Sampler,
}

impl Lamp {
    /// The per-core animation states, in order.
    pub open spec fn cpu_states(self) -> Seq<CpuState> {
        seq_of(self.cpus)
    }

    /// The timing fields stay inside one scheduling quantum and the record
    /// count stays addressable.
    pub open spec fn wf(self) -> bool {
        &&& self.elapsed_since_last_frame_us <= FRAME_INTERVAL_US
        &&& self.elapsed_since_last_measure_f <= MEASURE_INTERVAL_F
        &&& seq_of(self.cpus).len() <= usize::MAX
        &&& self.sampler.wf()
    }

    /// A lamp that starts a new frame and takes a measurement at its first
    /// wake-up.
    pub fn new() -> (l: Lamp)
        ensures
            l.wf(),
            l.elapsed_since_last_frame_us == FRAME_INTERVAL_US,
            l.elapsed_since_last_measure_f == MEASURE_INTERVAL_F,
            l.pending_frames == 0,
            l.cpu_states() == Seq::<CpuState>::empty(),
            l.sampler@ == Seq::<Cpu>::empty(),
    {
        Lamp {
            elapsed_since_last_frame_us: FRAME_INTERVAL_US,
            elapsed_since_last_measure_f: MEASURE_INTERVAL_F,
            pending_frames: 0,
            cpus: None,
            sampler: Sampler::new(),
        }
    }

    /// Absorbs the wall-clock time elapsed since the last wake-up: whole
    /// frames are split off and held pending, the sub-frame remainder is
    /// carried forward, the frames are counted toward the next measurement,
    /// and the return value says whether a fresh measurement is now due (the
    /// measurement counter then restarts).
    pub fn begin_wake(&mut self, elapsed_us: u32) -> (due: bool)
        requires
            old(self).wf(),
        ensures
            final(self).wf(),
            final(self).elapsed_since_last_frame_us < FRAME_INTERVAL_US,
            final(self).elapsed_since_last_measure_f < MEASURE_INTERVAL_F,
            ({
                let total = sat32(old(self).elapsed_since_last_frame_us + elapsed_us);
                let frames = total / FRAME_INTERVAL_US;
                let cnt = sat32(old(self).elapsed_since_last_measure_f + frames);
                &&& final(self).elapsed_since_last_frame_us == total % FRAME_INTERVAL_US
                &&& final(self).pending_frames == frames
                &&& due == (cnt >= MEASURE_INTERVAL_F)
                &&& final(self).elapsed_since_last_measure_f == (if due {
                    0u32
                } else {
                    cnt
                })
            }),
            final(self).cpus == old(self).cpus,
            final(self).sampler == old(self).sampler,
    {
        let total = self.elapsed_since_last_frame_us.saturating_add(elapsed_us);
        let frames = total / FRAME_INTERVAL_US;
        self.elapsed_since_last_frame_us = total % FRAME_INTERVAL_US;
        self.pending_frames = frames;
        let cnt = self.elapsed_since_last_measure_f.saturating_add(frames);
        if cnt >= MEASURE_INTERVAL_F {
            self.elapsed_since_last_measure_f = 0;
            true
        } else {
            self.elapsed_since_last_measure_f = cnt;
            false
        }
    }

    /// Takes a fresh measurement from a newly read stat text: refreshes the
    /// sampler, resizes the per-core records to the new core count, and
    /// recomputes every rate from the new counter deltas. Phases and
    /// indicators survive for the cores that remain; a newly seen core starts
    /// idle. On a failed refresh the whole engine is left exactly as it was,
    /// so the display keeps showing the last known state.
    pub fn measure(&mut self, text: &[u8]) -> (r: Result<(), SampleError>)
        requires
            old(self).wf(),
            text@.len() < usize::MAX,
        ensures
            final(self).wf(),
            final(self).elapsed_since_last_frame_us == old(self).elapsed_since_last_frame_us,
            final(self).elapsed_since_last_measure_f == old(self).elapsed_since_last_measure_f,
            final(self).pending_frames == old(self).pending_frames,
            r matches Ok(()) ==> {
                &&& refresh_commits(text@, old(self).sampler@, final(self).sampler@)
                &&& final(self).cpu_states().len() == final(self).sampler@.len()
                &&& forall|i: int|
                    0 <= i < final(self).cpu_states().len() ==> (#[trigger] final(self).cpu_states()[i]).rate == rate_of_delta(delta_of(final(self).sampler@[i]))
                &&& forall|i: int|
                    0 <= i < final(self).cpu_states().len() && i < old(self).cpu_states().len()
                        ==> (#[trigger] final(self).cpu_states()[i]).charge == old(self).cpu_states()[i].charge && final(self).cpu_states()[i].lit == old(self).cpu_states()[i].lit
                &&& forall|i: int|
                    old(self).cpu_states().len() <= i < final(self).cpu_states().len() ==> (
                    #[trigger] final(self).cpu_states()[i]).charge == 0 && !final(self).cpu_states()[i].lit
            },
            r matches Err(e) ==> *final(self) == *old(self) && refresh_rejects(
                text@,
                old(self).sampler@,
                e,
            ),
    {
        match self.sampler.refresh_from_text(text) {
            Err(e) => Err(e),
            Ok(()) => {
                let n = self.sampler.num_cpus();
                let f = |idx: usize| -> (c: CpuState)
                    ensures
                        c == (CpuState { charge: 0, rate: 0, lit: false }),
                    { CpuState::idle() };
                resize_with(&mut self.cpus, n, &f);
                let deltas = self.sampler.deltas();
                let l = self.cpus.take();
                self.cpus = retune(l, &deltas, 0);
                Ok(())
            },
        }
    }

    /// Advances every core's phase by the pending frames and computes the
    /// sleep, in microseconds, until the earliest frame at which either some
    /// indicator is predicted to flip or the next measurement falls due —
    /// landing exactly on a frame boundary by discounting the sub-frame time
    /// already elapsed. The predicted frame distance is never zero, and the
    /// sleep never is either.
    pub fn finish_wake(&mut self) -> (timeout_us: u32)
        requires
            old(self).wf(),
            old(self).elapsed_since_last_frame_us < FRAME_INTERVAL_US,
            old(self).elapsed_since_last_measure_f < MEASURE_INTERVAL_F,
        ensures
            final(self).wf(),
            final(self).elapsed_since_last_frame_us == old(self).elapsed_since_last_frame_us,
            final(self).elapsed_since_last_measure_f == old(self).elapsed_since_last_measure_f,
            final(self).pending_frames == 0,
            final(self).sampler == old(self).sampler,
            final(self).cpu_states().len() == old(self).cpu_states().len(),
            forall|i: int|
                0 <= i < old(self).cpu_states().len() ==> #[trigger] final(self).cpu_states()[i]
                    == advanced(old(self).cpu_states()[i], old(self).pending_frames),
            ({
                let tf = min_candidate(
                    final(self).cpu_states(),
                    (MEASURE_INTERVAL_F - old(self).elapsed_since_last_measure_f) as u32,
                );
                &&& 1 <= tf
                &&& timeout_us == (tf - 1) * FRAME_INTERVAL_US + (FRAME_INTERVAL_US - old(self).elapsed_since_last_frame_us)
            }),
            1 <= timeout_us,
    {
        let frames = self.pending_frames;
        let g = |c: CpuState| -> (r: CpuState)
            ensures
                r == advanced(c, frames),
            {
                let mut d = c;
                advance(&mut d, frames);
                d
            };
        iter_mut(&mut self.cpus, &g);
        self.pending_frames = 0;
        let base: u32 = MEASURE_INTERVAL_F - self.elapsed_since_last_measure_f;
        let states: Vec<CpuState> = iter(&self.cpus);
        let mut tf: u32 = base;
        let mut i: usize = 0;
        proof {
            assert(states@.skip(0) =~= states@);
        }
        while i < states.len()
            invariant
                i <= states@.len(),
                1 <= tf <= base,
                min_candidate(states@, base) == min_candidate(states@.skip(i as int), tf),
            decreases states@.len() - i,
        {
            proof {
                assert(states@.skip(i as int).drop_first() =~= states@.skip(i as int + 1));
                assert(states@.skip(i as int)[0] == states@[i as int]);
            }
            match frames_until_flip(&states[i]) {
                Some(f) => {
                    if f < tf {
                        tf = f;
                    }
                },
                None => {},
            }
            i += 1;
        }
        proof {
            assert(states@.skip(i as int) =~= Seq::<CpuState>::empty());
        }
        (tf - 1) * FRAME_INTERVAL_US + (FRAME_INTERVAL_US - self.elapsed_since_last_frame_us)
    }

    /// The current indicator states, one per core in order.
    pub fn lit_flags(&self) -> (v: Vec<bool>)
        ensures
            v@.len() == self.cpu_states().len(),
            forall|i: int| 0 <= i < v@.len() ==> v@[i] == self.cpu_states()[i].lit,
    {
        let states: Vec<CpuState> = iter(&self.cpus);
        let mut v: Vec<bool> = Vec::new();
        let mut i: usize = 0;
        while i < states.len()
            invariant
                i <= states@.len(),
                states@ == self.cpu_states(),
                v@.len() == i,
                forall|j: int| 0 <= j < i ==> v@[j] == self.cpu_states()[j].lit,
            decreases states@.len() - i,
        {
            v.push(states[i].lit);
            i += 1;
        }
        v
    }
}

/// Recomputes every record's rate from its core's counter delta, in order,
/// leaving phases and indicators untouched.
fn retune(l: Link<CpuState>, deltas: &Vec<CpuStats>, i: usize) -> (r: Link<CpuState>)
    requires
        i <= deltas@.len(),
        seq_of(l).len() == deltas@.len() - i,
    ensures
        seq_of(r).len() == seq_of(l).len(),
        forall|k: int|
            0 <= k < seq_of(l).len() ==> (#[trigger] seq_of(r)[k]).rate == rate_of_delta(
                deltas@[i + k],
            ) && seq_of(r)[k].charge == seq_of(l)[k].charge && seq_of(r)[k].lit == seq_of(l)[k].lit,
    decreases seq_of(l).len(),
{
    let ghost s = seq_of(l);
    match l {
        None => None,
        Some(e) => {
            let entry = *e;
            proof {
                assert(s == seq![entry.data] + seq_of(entry.next));
            }
            let nd = deltas.len();
            proof {
                assert(i < nd);
            }
            let d = deltas[i];
            let rate: u32 = if d.active >= d.total {
                u32::MAX
            } else {
                rate_from_delta(d.active, d.total)
            };
            let next = retune(entry.next, deltas, i + 1);
            Some(
                Box::new(
                    Entry {
                        data: CpuState { charge: entry.data.charge, rate, lit: entry.data.lit },
                        next,
                    },
                ),
            )
        },
    }
}

} // verus!
