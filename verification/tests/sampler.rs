use cpulamp::sysinfo::parse_stat_text;
use cpulamp::sysinfo::CpuStats;
use cpulamp::sysinfo::SampleError;
use cpulamp::sysinfo::Sampler;

#[test]
fn parses_per_core_lines() {
    let text = b"cpu  14 0 0 11 0\ncpu0 10 0 0 5 0\ncpu1 4 0 0 6 0\nintr 12345\n";
    let samples = parse_stat_text(text).unwrap();
    assert_eq!(
        samples,
        vec![
            CpuStats { total: 15, active: 10 },
            CpuStats { total: 10, active: 4 },
        ]
    );
}

#[test]
fn unparsable_fields_are_skipped() {
    // A field that is not a number contributes nothing; only a line without
    // any separator is an error.
    let samples = parse_stat_text(b"cpu0 10 x 5 0 0\n").unwrap();
    assert_eq!(samples, vec![CpuStats { total: 15, active: 15 }]);
}

#[test]
fn refresh_commits_snapshots() {
    let mut s = Sampler::new();
    assert_eq!(s.num_cpus(), 0);
    assert!(s.refresh_from_text(b"cpu0 10 0 0 5 0\ncpu1 4 0 0 6 0\n").is_ok());
    assert_eq!(s.num_cpus(), 2);
    assert_eq!(
        s.deltas(),
        vec![
            CpuStats { total: 15, active: 10 },
            CpuStats { total: 10, active: 4 },
        ]
    );
    assert!(s.refresh_from_text(b"cpu0 30 0 0 5 0\ncpu1 8 0 0 8 0\n").is_ok());
    assert_eq!(
        s.deltas(),
        vec![
            CpuStats { total: 20, active: 20 },
            CpuStats { total: 6, active: 4 },
        ]
    );
}

#[test]
fn refresh_error_variants() {
    let mut s = Sampler::new();
    // A per-core line without any field separator.
    assert_eq!(
        s.refresh_from_text(b"cpu0\n"),
        Err(SampleError::Unparsable)
    );
    // A text with no per-core line at all.
    assert_eq!(
        s.refresh_from_text(b"intr 5\nctxt 9\n"),
        Err(SampleError::NoCpus)
    );
    // A core whose total counter did not advance.
    assert!(s.refresh_from_text(b"cpu0 10 0 0 5 0\n").is_ok());
    assert_eq!(
        s.refresh_from_text(b"cpu0 10 0 0 5 0\n"),
        Err(SampleError::ZeroTotalDelta)
    );
}

#[test]
fn failed_refresh_commits_nothing() {
    let mut s = Sampler::new();
    assert!(s.refresh_from_text(b"cpu0 10 0 0 5 0\ncpu1 4 0 0 6 0\n").is_ok());
    let count = s.num_cpus();
    let deltas = s.deltas();
    // Each failure leaves the committed count and fractions untouched.
    assert!(s.refresh_from_text(b"cpu0\ncpu1 9 9 9 9 9\n").is_err());
    assert_eq!(s.num_cpus(), count);
    assert_eq!(s.deltas(), deltas);
    assert!(s.refresh_from_text(b"nothing here\n").is_err());
    assert_eq!(s.num_cpus(), count);
    assert_eq!(s.deltas(), deltas);
    assert!(s.refresh_from_text(b"cpu0 10 0 0 5 0\ncpu1 4 0 0 6 0\n").is_err());
    assert_eq!(s.num_cpus(), count);
    assert_eq!(s.deltas(), deltas);
}
