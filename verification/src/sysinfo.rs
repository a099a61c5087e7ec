//! Load sampler: parses per-core counter lines and commits snapshots.
//!
//! The platform hands over a text in the format of a Linux kernel stat table:
//! one line per core, starting with `cpu` and the core number, followed by
//! space-separated tick counters. Only the delta between two consecutive
//! snapshots is meaningful, so the sampler keeps the prior snapshot per core
//! and commits a new one only after every core's line parsed successfully: a
//! failed refresh leaves all committed state untouched.
use vstd::prelude::*;
use vstd::arithmetic::div_mod::*;

verus! {

/// Cumulative work counters of one core, in clock ticks: everything the core
/// did (`total`) and the non-idle share of it (`active`).
#[derive(Debug, Clone, Copy, PartialEq, Eq, Structural)]
pub struct CpuStats {
    pub total: u64,
    pub active: u64,
}

impl CpuStats {
    /// Counters before any snapshot.
    pub fn zero() -> (s: CpuStats)
        ensures
            s == (CpuStats { total: 0, active: 0 }),
    {
        CpuStats { total: 0, active: 0 }
    }
}

/// Why a refresh was rejected. A failed refresh commits nothing.
#[derive(Debug, Clone, Copy, PartialEq, Eq, Structural)]
pub enum SampleError {
    /// A per-core line of the source text has no field separator.
    Unparsable,
    /// The source text holds no per-core line.
    NoCpus,
    /// Some core's total counter did not advance since the last committed
    /// snapshot, which would leave that core's load fraction undefined.
    ZeroTotalDelta,
}

/// An ASCII decimal digit.
pub open spec fn is_digit(b: u8) -> bool {
    0x30 <= b <= 0x39
}

/// The numeric value of a digit string, read in base ten.
pub open spec fn digits_value(s: Seq<u8>) -> int
    decreases s.len(),
{
    if s.len() == 0 {
        0
    } else {
        digits_value(s.drop_last()) * 10 + (s.last() - 0x30)
    }
}

/// A counter field parses as an unsigned 64-bit number exactly when it is
/// nonempty, all digits, and its value fits.
pub open spec fn spec_parse_u64(s: Seq<u8>) -> Option<u64> {
    if s.len() >= 1 && (forall|i: int| 0 <= i < s.len() ==> is_digit(s[i])) && digits_value(s)
        <= u64::MAX {
        Some(digits_value(s) as u64)
    } else {
        None
    }
}

proof fn lemma_digits_value_nonneg(s: Seq<u8>)
    requires
        forall|i: int| 0 <= i < s.len() ==> is_digit(s[i]),
    ensures
        digits_value(s) >= 0,
    decreases s.len(),
{
    if s.len() > 0 {
        lemma_digits_value_nonneg(s.drop_last());
    }
}

proof fn lemma_digits_value_grows(s: Seq<u8>, n: int)
    requires
        0 <= n <= s.len(),
        forall|i: int| 0 <= i < s.len() ==> is_digit(s[i]),
    ensures
        digits_value(s.take(n)) <= digits_value(s),
    decreases s.len() - n,
{
    if n < s.len() {
        assert(s.take(n + 1).drop_last() =~= s.take(n));
        assert(forall|i: int| 0 <= i < s.take(n).len() ==> is_digit(s.take(n)[i]));
        lemma_digits_value_nonneg(s.take(n));
        lemma_digits_value_grows(s, n + 1);
    } else {
        assert(s.take(n) =~= s);
    }
}

/// Saturation to the 64-bit range.
pub open spec fn sat64(x: int) -> u64 {
    if x > u64::MAX {
        u64::MAX
    } else if x < 0 {
        0
    } else {
        x as u64
    }
}

/// The position of the first `c` in `s` at or after `i`, or the length of
/// `s` when there is none.
pub open spec fn next_ch(s: Seq<u8>, i: int, c: u8) -> int
    decreases s.len() - i,
{
    if i < 0 || i >= s.len() {
        s.len() as int
    } else if s[i] == c {
        i
    } else {
        next_ch(s, i + 1, c)
    }
}

proof fn lemma_next_ch(s: Seq<u8>, i: int, c: u8)
    requires
        0 <= i <= s.len(),
    ensures
        i <= next_ch(s, i, c) <= s.len(),
        forall|j: int| i <= j < next_ch(s, i, c) ==> s[j] != c,
        next_ch(s, i, c) < s.len() ==> s[next_ch(s, i, c)] == c,
    decreases s.len() - i,
{
    if i < s.len() && s[i] != c {
        lemma_next_ch(s, i + 1, c);
    }
}

/// The position of the first `c` in `s` at or after `from`, or `s.len()`.
pub fn find_byte(s: &[u8], from: usize, c: u8) -> (r: usize)
    requires
        from <= s@.len(),
    ensures
        r == next_ch(s@, from as int, c),
        from <= r <= s@.len(),
        r < s@.len() ==> s@[r as int] == c,
{
    let mut i = from;
    while i < s.len()
        invariant
            from <= i <= s@.len(),
            next_ch(s@, from as int, c) == next_ch(s@, i as int, c),
        decreases s@.len() - i,
    {
        if s[i] == c {
            return i;
        }
        i += 1;
    }
    s.len()
}

/// The counter accumulation over the space-separated fields of `s` starting
/// at position `i`, for field indices `j` up to ten: the running sum of the
/// fields that parse, and the values of the fourth and fifth fields (the idle
/// and I/O-wait ticks), zero where missing or unparsable.
pub open spec fn scan_fields(s: Seq<u8>, i: int, j: int) -> (int, int, int)
    decreases 10 - j,
{
    if j >= 10 || i > s.len() {
        (0, 0, 0)
    } else {
        let e0 = next_ch(s, i, 32);
        let e = if e0 < i {
            i
        } else if e0 > s.len() {
            s.len() as int
        } else {
            e0
        };
        let fv = spec_parse_u64(s.subrange(i, e));
        let v: int = match fv {
            Some(x) => x as int,
            None => 0,
        };
        let rest = scan_fields(s, e + 1, j + 1);
        (
            rest.0 + v,
            if j == 3 {
                v
            } else {
                rest.1
            },
            if j == 4 {
                v
            } else {
                rest.2
            },
        )
    }
}

/// The counters of one per-core line: everything after the first separator is
/// read as up to ten space-separated fields; unparsable fields contribute
/// nothing. The total is the saturating sum of the fields, and the active
/// share is the total less the idle and I/O-wait ticks, saturating at zero.
/// A line with no separator at all has no counters.
pub open spec fn line_stats(line: Seq<u8>) -> Option<CpuStats> {
    let sp = next_ch(line, 0, 32);
    if sp == line.len() {
        None
    } else {
        let t = scan_fields(line, sp + 1, 0);
        let total = sat64(t.0);
        let idle = sat64(t.1 + t.2);
        Some(CpuStats { total, active: sat64(total - idle) })
    }
}

/// A line that reports one core's counters: `cpu` followed directly by a core
/// number.
pub open spec fn is_cpu_line(line: Seq<u8>) -> bool {
    line.len() >= 4 && line[0] == 0x63 && line[1] == 0x70 && line[2] == 0x75 && is_digit(line[3])
}

/// The per-core counters parsed from a whole stat text, reading the
/// newline-separated lines from position `i` on: the counters of every
/// per-core line in order, or `None` as soon as one such line has no field
/// separator.
pub open spec fn text_samples(s: Seq<u8>, i: int) -> Option<Seq<CpuStats>>
    decreases s.len() - i + 1,
{
    if i < 0 || i >= s.len() {
        Some(Seq::empty())
    } else {
        let e0 = next_ch(s, i, 10);
        let e = if e0 < i {
            i
        } else if e0 > s.len() {
            s.len() as int
        } else {
            e0
        };
        let line = s.subrange(i, e);
        let rest = text_samples(s, e + 1);
        if is_cpu_line(line) {
            match line_stats(line) {
                None => None,
                Some(st) => match rest {
                    None => None,
                    Some(r) => Some(seq![st] + r),
                },
            }
        } else {
            rest
        }
    }
}

proof fn lemma_scan_fields_nonneg(s: Seq<u8>, i: int, j: int)
    ensures
        scan_fields(s, i, j).0 >= 0,
        0 <= scan_fields(s, i, j).1 <= u64::MAX,
        0 <= scan_fields(s, i, j).2 <= u64::MAX,
    decreases 10 - j,
{
    if !(j >= 10 || i > s.len()) {
        let e0 = next_ch(s, i, 32);
        let e = if e0 < i {
            i
        } else if e0 > s.len() {
            s.len() as int
        } else {
            e0
        };
        lemma_scan_fields_nonneg(s, e + 1, j + 1);
    }
}

/// Parses one line's counters, as [`line_stats`] describes.
pub fn parse_cpu_line(line: &[u8]) -> (r: Option<CpuStats>)
    requires
        line@.len() < usize::MAX,
    ensures
        r == line_stats(line@),
{
    proof {
        lemma_next_ch(line@, 0, 32);
    }
    let sp = find_byte(line, 0, 32);
    if sp == line.len() {
        return None;
    }
    let mut i: usize = sp + 1;
    let mut j: usize = 0;
    let mut sum: u64 = 0;
    let mut idle: u64 = 0;
    let mut iowait: u64 = 0;
    let ghost whole = scan_fields(line@, sp as int + 1, 0);
    proof {
        lemma_scan_fields_nonneg(line@, sp as int + 1, 0);
    }
    while j < 10 && i <= line.len()
        invariant
            line@.len() < usize::MAX,
            sp < i <= line@.len() + 1,
            0 <= j <= 10,
            whole == scan_fields(line@, sp as int + 1, 0),
            sum == sat64(whole.0 - scan_fields(line@, i as int, j as int).0),
            whole.0 >= scan_fields(line@, i as int, j as int).0 >= 0,
            idle == (if j <= 3 {
                0u64
            } else {
                sat64(whole.1)
            }),
            iowait == (if j <= 4 {
                0u64
            } else {
                sat64(whole.2)
            }),
            j <= 3 ==> whole.1 == scan_fields(line@, i as int, j as int).1,
            j <= 4 ==> whole.2 == scan_fields(line@, i as int, j as int).2,
        decreases 10 - j,
    {
        proof {
            lemma_next_ch(line@, i as int, 32);
        }
        let e = find_byte(line, i, 32);
        let fv = parse_u64_field(line, i, e);
        let v: u64 = match fv {
            Some(x) => x,
            None => 0,
        };
        proof {
            let cur = scan_fields(line@, i as int, j as int);
            let tail = scan_fields(line@, e as int + 1, j as int + 1);
            lemma_scan_fields_nonneg(line@, e as int + 1, j as int + 1);
            assert(cur.0 == tail.0 + v);
            assert(cur.1 == if j == 3 {
                v as int
            } else {
                tail.1
            });
            assert(cur.2 == if j == 4 {
                v as int
            } else {
                tail.2
            });
        }
        sum = sum.saturating_add(v);
        if j == 3 {
            idle = v;
        }
        if j == 4 {
            iowait = v;
        }
        i = e + 1;
        j += 1;
    }
    proof {
        assert(scan_fields(line@, i as int, j as int) == (0int, 0int, 0int));
        lemma_scan_fields_nonneg(line@, sp as int + 1, 0);
    }
    let total = sum;
    let idleiow = idle.saturating_add(iowait);
    Some(CpuStats { total, active: total.saturating_sub(idleiow) })
}

/// Parses the field `line[start..end]` as a base-ten 64-bit counter.
pub fn parse_u64_field(line: &[u8], start: usize, end: usize) -> (r: Option<u64>)
    requires
        start <= end <= line@.len(),
    ensures
        r == spec_parse_u64(line@.subrange(start as int, end as int)),
{
    let ghost fseq = line@.subrange(start as int, end as int);
    if start == end {
        return None;
    }
    let mut value: u64 = 0;
    let mut i = start;
    while i < end
        invariant
            start <= i <= end <= line@.len(),
            fseq == line@.subrange(start as int, end as int),
            start < end,
            forall|j: int| 0 <= j < i - start ==> is_digit(fseq[j]),
            value == digits_value(fseq.take(i - start)),
        decreases end - i,
    {
        let b = line[i];
        assert(b == fseq[i - start]);
        if b < 0x30 || b > 0x39 {
            return None;
        }
        let d: u64 = (b - 0x30) as u64;
        proof {
            assert(fseq.take(i - start + 1).drop_last() =~= fseq.take(i - start));
            lemma_fundamental_div_mod((u64::MAX - d) as int, 10);
        }
        if value > (u64::MAX - d) / 10 {
            proof {
                if forall|j: int| 0 <= j < fseq.len() ==> is_digit(fseq[j]) {
                    lemma_digits_value_grows(fseq, i - start + 1);
                }
            }
            return None;
        }
        value = value * 10 + d;
        i += 1;
    }
    proof {
        assert(fseq.take(end - start) =~= fseq);
        lemma_digits_value_nonneg(fseq);
    }
    Some(value)
}

/// Parses every per-core line of a whole stat text, as [`text_samples`]
/// describes: the counters of each core in order, or the first line whose
/// fields could not be separated.
pub fn parse_stat_text(text: &[u8]) -> (r: Result<Vec<CpuStats>, SampleError>)
    requires
        text@.len() < usize::MAX,
    ensures
        text_samples(text@, 0) is None ==> r == Err::<Vec<CpuStats>, SampleError>(
            SampleError::Unparsable,
        ),
        text_samples(text@, 0) matches Some(samples) ==> r matches Ok(v) && v@ == samples,
{
    let mut out: Vec<CpuStats> = Vec::new();
    let mut i: usize = 0;
    while i < text.len()
        invariant
            text@.len() < usize::MAX,
            i <= text@.len() + 1,
            match text_samples(text@, i as int) {
                Some(rest) => text_samples(text@, 0) == Some(out@ + rest),
                None => text_samples(text@, 0) is None,
            },
        decreases text@.len() + 1 - i,
    {
        proof {
            lemma_next_ch(text@, i as int, 10);
        }
        let e = find_byte(text, i, 10);
        let ghost lseq = text@.subrange(i as int, e as int);
        let is_cpu = e - i >= 4 && text[i] == 0x63 && text[i + 1] == 0x70 && text[i + 2] == 0x75
            && text[i + 3] >= 0x30 && text[i + 3] <= 0x39;
        proof {
            if e - i >= 4 {
                assert(lseq[0] == text@[i as int] && lseq[1] == text@[i as int + 1] && lseq[2]
                    == text@[i as int + 2] && lseq[3] == text@[i as int + 3]);
            }
            assert(is_cpu == is_cpu_line(lseq));
        }
        if is_cpu {
            let line = vstd::slice::slice_subrange(text, i, e);
            match parse_cpu_line(line) {
                Some(st) => {
                    out.push(st);
                    proof {
                        match text_samples(text@, e as int + 1) {
                            Some(rest) => {
                                assert(out@ + rest =~= out@.drop_last() + (seq![st] + rest));
                            },
                            None => {},
                        }
                    }
                },
                None => {
                    return Err(SampleError::Unparsable);
                },
            }
        }
        i = e + 1;
    }
    proof {
        assert(text_samples(text@, i as int) == Some(Seq::<CpuStats>::empty()));
        assert(out@ + Seq::<CpuStats>::empty() =~= out@);
    }
    Ok(out)
}

/// One core's committed snapshots: the counters of the most recent successful
/// refresh and the ones committed just before it.
#[derive(Debug, Clone, Copy, PartialEq, Eq, Structural)]
pub struct Cpu {
    pub stats: CpuStats,
    pub last_stats: CpuStats,
}

impl Cpu {
    /// A core before any snapshot.
    pub fn idle() -> (c: Cpu)
        ensures
            c == (Cpu {
                stats: CpuStats { total: 0, active: 0 },
                last_stats: CpuStats { total: 0, active: 0 },
            }),
    {
        Cpu { stats: CpuStats::zero(), last_stats: CpuStats::zero() }
    }
}

/// The counter deltas between a core's two committed snapshots, each
/// saturating at zero. The core's load fraction over the last refresh
/// interval is `active / total` of this delta.
pub open spec fn delta_of(c: Cpu) -> CpuStats {
    CpuStats {
        total: sat64(c.stats.total - c.last_stats.total),
        active: sat64(c.stats.active - c.last_stats.active),
    }
}

/// Some parsed sample's total counter is no further along than the
/// corresponding committed one (a missing record counts from zero), so that
/// core's total delta would be zero.
pub open spec fn some_total_stalled(samples: Seq<CpuStats>, pre: Seq<Cpu>) -> bool {
    exists|i: int|
        0 <= i < samples.len() && #[trigger] samples[i].total <= (if i < pre.len() {
            pre[i].stats.total
        } else {
            0
        })
}

/// A successful refresh: the text parsed into at least one per-core sample,
/// every sample's counters were committed as the new snapshot with the prior
/// snapshot retired beside it (a newly seen core retires zero counters), and
/// every core's total delta is positive.
pub open spec fn refresh_commits(text: Seq<u8>, pre: Seq<Cpu>, post: Seq<Cpu>) -> bool {
    text_samples(text, 0) matches Some(samples) && {
        &&& samples.len() >= 1
        &&& post.len() == samples.len()
        &&& forall|i: int| 0 <= i < samples.len() ==> (#[trigger] post[i]).stats == samples[i]
        &&& forall|i: int|
            0 <= i < samples.len() ==> (#[trigger] post[i]).last_stats == (if i < pre.len() {
                pre[i].stats
            } else {
                CpuStats { total: 0, active: 0 }
            })
        &&& forall|i: int| 0 <= i < samples.len() ==> delta_of(#[trigger] post[i]).total > 0
    }
}

/// Why a refresh was rejected, for each error: an unparsable per-core line, a
/// text without per-core lines, or a sample whose total counter did not
/// advance past the committed one.
pub open spec fn refresh_rejects(text: Seq<u8>, pre: Seq<Cpu>, e: SampleError) -> bool {
    match e {
        SampleError::Unparsable => text_samples(text, 0) is None,
        SampleError::NoCpus => text_samples(text, 0) == Some(Seq::<CpuStats>::empty()),
        SampleError::ZeroTotalDelta => text_samples(text, 0) matches Some(samples)
            && samples.len() >= 1 && some_total_stalled(samples, pre),
    }
}

/// The per-core load sampler: one record per core of the most recent
/// successful refresh, in stable order.
pub struct Sampler {
    cpus: crate::slist::Link<Cpu>,
}

impl View for Sampler {
    type V = Seq<Cpu>;

    closed spec fn view(&self) -> Seq<Cpu> {
        crate::slist::seq_of(self.cpus)
    }
}

impl Sampler {
    /// The record count stays addressable.
    pub open spec fn wf(self) -> bool {
        self@.len() <= usize::MAX
    }

    /// A sampler with no committed snapshot.
    pub fn new() -> (s: Sampler)
        ensures
            s@ == Seq::<Cpu>::empty(),
            s.wf(),
    {
        Sampler { cpus: None }
    }

    /// The number of cores of the last successfully committed refresh.
    pub fn num_cpus(&self) -> (n: usize)
        requires
            self.wf(),
        ensures
            n == self@.len(),
    {
        crate::slist::len(&self.cpus)
    }

    /// The committed per-core counter deltas, one per core in stable order.
    pub fn deltas(&self) -> (v: Vec<CpuStats>)
        ensures
            v@.len() == self@.len(),
            forall|i: int| 0 <= i < self@.len() ==> v@[i] == delta_of(self@[i]),
    {
        let cur: Vec<Cpu> = crate::slist::iter(&self.cpus);
        let mut v: Vec<CpuStats> = Vec::new();
        let mut i: usize = 0;
        while i < cur.len()
            invariant
                i <= cur@.len(),
                cur@ == self@,
                v@.len() == i,
                forall|j: int| 0 <= j < i ==> v@[j] == delta_of(self@[j]),
            decreases cur@.len() - i,
        {
            let c = cur[i];
            v.push(
                CpuStats {
                    total: c.stats.total.saturating_sub(c.last_stats.total),
                    active: c.stats.active.saturating_sub(c.last_stats.active),
                },
            );
            i += 1;
        }
        v
    }

    /// Re-reads the per-core counters from a freshly read stat text and
    /// commits them, all or nothing: on success every core's previous
    /// snapshot is retired to `last_stats` (a newly seen core retires zero
    /// counters), the parsed counters become `stats`, and every core's total
    /// delta is positive. On any failure — an unparsable per-core line, a
    /// text with no per-core line, or a core whose total counter did not
    /// advance — the sampler is left exactly as it was.
    pub fn refresh_from_text(&mut self, text: &[u8]) -> (r: Result<(), SampleError>)
        requires
            old(self).wf(),
            text@.len() < usize::MAX,
        ensures
            final(self).wf(),
            r matches Ok(()) ==> refresh_commits(text@, old(self)@, final(self)@),
            r matches Err(e) ==> *final(self) == *old(self) && refresh_rejects(
                text@,
                old(self)@,
                e,
            ),
    {
        let samples = match parse_stat_text(text) {
            Ok(v) => v,
            Err(e) => {
                return Err(e);
            },
        };
        proof {
            assert(text_samples(text@, 0) == Some(samples@));
        }
        if samples.len() == 0 {
            proof {
                assert(samples@ =~= Seq::<CpuStats>::empty());
            }
            return Err(SampleError::NoCpus);
        }
        let cur: Vec<Cpu> = crate::slist::iter(&self.cpus);
        let mut i: usize = 0;
        while i < samples.len()
            invariant
                i <= samples@.len(),
                *self == *old(self),
                cur@ == self@,
                text_samples(text@, 0) == Some(samples@),
                samples@.len() >= 1,
                forall|j: int|
                    0 <= j < i ==> #[trigger] samples@[j].total > (if j < cur@.len() {
                        cur@[j].stats.total
                    } else {
                        0
                    }),
            decreases samples@.len() - i,
        {
            let prev_total: u64 = if i < cur.len() {
                cur[i].stats.total
            } else {
                0
            };
            if samples[i].total <= prev_total {
                proof {
                    assert(0 <= i < samples@.len() && samples@[i as int].total <= (if i < old(
                        self,
                    )@.len() {
                        old(self)@[i as int].stats.total
                    } else {
                        0
                    }));
                    assert(some_total_stalled(samples@, old(self)@));
                }
                return Err(SampleError::ZeroTotalDelta);
            }
            i += 1;
        }
        let ghost pre = self@;
        let new_fn = |s: CpuStats| -> (c: Cpu)
            ensures
                c == (Cpu {
                    stats: CpuStats { total: 0, active: 0 },
                    last_stats: CpuStats { total: 0, active: 0 },
                }),
            { Cpu::idle() };
        let mut_fn = |t: Cpu, s: CpuStats| -> (r: Result<Cpu, SampleError>)
            ensures
                r == Ok::<Cpu, SampleError>(Cpu { last_stats: t.stats, stats: s }),
            { Ok(Cpu { last_stats: t.stats, stats: s }) };
        let outcome = crate::slist::try_for_each_and_resize(
            &mut self.cpus,
            &samples,
            &new_fn,
            &mut_fn,
        );
        proof {
            match outcome {
                Err(e) => {
                    let k = choose|k: int|
                        {
                            &&& 0 <= k < samples@.len()
                            &&& #[trigger] crate::slist::lockstep_failed(
                                pre,
                                samples@,
                                new_fn,
                                mut_fn,
                                k,
                                e,
                            )
                            &&& forall|j: int|
                                0 <= j < k ==> #[trigger] crate::slist::lockstep_update_succeeds(
                                    pre,
                                    samples@,
                                    new_fn,
                                    mut_fn,
                                    j,
                                )
                        };
                    assert(false);
                },
                Ok(_) => {},
            }
        }
        match outcome {
            Ok(()) => {
                proof {
                    assert forall|i: int| 0 <= i < samples@.len() implies self@[i] == (Cpu {
                        last_stats: (if i < pre.len() {
                            pre[i].stats
                        } else {
                            CpuStats { total: 0, active: 0 }
                        }),
                        stats: samples@[i],
                    }) by {
                        assert(crate::slist::lockstep_updated(
                            pre,
                            samples@,
                            new_fn,
                            mut_fn,
                            i,
                            self@[i],
                        ));
                    }
                }
                proof {
                    assert(refresh_commits(text@, pre, self@));
                }
                Ok(())
            },
            Err(_) => {
                proof {
                    assert(false);
                }
                Err(SampleError::NoCpus)
            },
        }
    }
}

} // verus!
