use freq_domain::domain::{ApplyOutcome, BypassFlags, ControlFile, DomainError, Info, WriteCommand};
use nix::sched::CpuSet;

const PATH: &str = "/sys/devices/system/cpu/cpufreq/policy3";

fn table_flags(policy: i32, bypassed: bool) -> BypassFlags {
    BypassFlags { entries: vec![(policy, bypassed)] }
}

fn demo_domain() -> Info {
    Info::new(PATH.to_string(), b"400 100 300 200", b"2 3", 0).unwrap()
}

fn empty_set() -> CpuSet {
    CpuSet::new()
}

fn busy_set(core: usize) -> CpuSet {
    let mut s = CpuSet::new();
    s.set(core).unwrap();
    s
}

#[test]
fn construction_sorts_and_initializes() {
    let d = demo_domain();
    assert_eq!(d.policy, 3);
    assert_eq!(d.freqs, vec![100, 200, 300, 400]);
    assert_eq!(d.affected_cpus, vec![2, 3]);
    assert_eq!(d.cur_fas_freq, 400);
    assert_eq!(d.last_verify_target, None);
    assert!(!d.freqs.is_empty());
    assert!(d.freqs.windows(2).all(|w| w[0] <= w[1]));
}

#[test]
fn construction_rejects_empty_table() {
    let r = Info::new(PATH.to_string(), b"  \n", b"0 1", 0);
    assert_eq!(r.unwrap_err(), DomainError::EmptyFrequencyTable);
}

#[test]
fn construction_rejects_unparseable_table() {
    let r = Info::new(PATH.to_string(), b"100 abc", b"0 1", 0);
    assert_eq!(r.unwrap_err(), DomainError::UnreadableFrequencyTable);
}

#[test]
fn construction_rejects_bad_identifier() {
    let r = Info::new("/sys/devices/system/cpu/cpufreq/pol".to_string(), b"100", b"0", 0);
    assert_eq!(r.unwrap_err(), DomainError::InvalidIdentifier);
    let r = Info::new("/sys/devices/system/cpu/cpufreq/policyX".to_string(), b"100", b"0", 0);
    assert_eq!(r.unwrap_err(), DomainError::InvalidIdentifier);
    let r = Info::new("policy".to_string(), b"100", b"0", 0);
    assert_eq!(r.unwrap_err(), DomainError::InvalidIdentifier);
}

#[test]
fn construction_rejects_bad_cores() {
    let r = Info::new(PATH.to_string(), b"100 200", b"0 x", 0);
    assert_eq!(r.unwrap_err(), DomainError::InvalidCoreIndex);
    let r = Info::new(PATH.to_string(), b"100 200", b"5000", 0);
    assert_eq!(r.unwrap_err(), DomainError::InvalidCoreIndex);
    let r = Info::new(PATH.to_string(), b"100 200", b"-1", 0);
    assert_eq!(r.unwrap_err(), DomainError::InvalidCoreIndex);
}

#[test]
fn apply_noncritical_caps_ceiling() {
    let mut d = demo_domain();
    let flags = table_flags(3, false);
    let out = d.write_freq(empty_set(), 350, Some(&flags), 0, 0).unwrap();
    assert_eq!(d.cur_fas_freq, 350);
    assert_eq!(
        out.writes,
        vec![
            WriteCommand { file: ControlFile::Floor, value: 100 },
            WriteCommand { file: ControlFile::Ceiling, value: 350 },
        ]
    );
    assert_eq!(out.mismatch, None);
}

#[test]
fn apply_critical_clamps_and_pins() {
    let mut d = demo_domain();
    let flags = table_flags(3, false);
    let out = d.write_freq(busy_set(2), 500, Some(&flags), 0, 0).unwrap();
    assert_eq!(d.cur_fas_freq, 400);
    assert_eq!(
        out.writes,
        vec![
            WriteCommand { file: ControlFile::Ceiling, value: 400 },
            WriteCommand { file: ControlFile::Floor, value: 400 },
        ]
    );
}

#[test]
fn apply_bypassed_updates_target_only() {
    let mut d = demo_domain();
    let flags = table_flags(3, true);
    let out = d.write_freq(busy_set(2), 250, Some(&flags), 0, 0).unwrap();
    assert_eq!(d.cur_fas_freq, 250);
    assert!(out.writes.is_empty());
    assert_eq!(out.mismatch, None);
}

#[test]
fn apply_clamps_below_minimum() {
    let mut d = demo_domain();
    let flags = table_flags(3, false);
    let out = d.write_freq(empty_set(), 50, Some(&flags), 0, 0).unwrap();
    assert_eq!(d.cur_fas_freq, 100);
    assert_eq!(out.writes[1], WriteCommand { file: ControlFile::Ceiling, value: 100 });
}

#[test]
fn bypass_table_errors_still_track_intent() {
    let mut d = demo_domain();
    let r = d.write_freq(empty_set(), 350, None, 0, 0);
    assert_eq!(r.unwrap_err(), DomainError::BypassTableUninitialized);
    assert_eq!(d.cur_fas_freq, 350);

    let unrelated = table_flags(7, false);
    let r = d.write_freq(empty_set(), 300, Some(&unrelated), 0, 0);
    assert_eq!(r.unwrap_err(), DomainError::BypassFlagMissing);
    assert_eq!(d.cur_fas_freq, 300);
}

#[test]
fn ignore_write_reads_the_flag() {
    let d = demo_domain();
    assert_eq!(d.ignore_write(Some(&table_flags(3, true))), Ok(true));
    assert_eq!(d.ignore_write(Some(&table_flags(3, false))), Ok(false));
    assert_eq!(d.ignore_write(None), Err(DomainError::BypassTableUninitialized));
    assert_eq!(
        d.ignore_write(Some(&table_flags(9, true))),
        Err(DomainError::BypassFlagMissing)
    );
}

#[test]
fn verification_flags_drift_outside_band() {
    let mut d = demo_domain();
    let flags = table_flags(3, false);
    // First critical apply only records the baseline: the window opened at
    // construction (0 ms) has not elapsed yet.
    let out = d.write_freq(busy_set(2), 300, Some(&flags), 0, 0).unwrap();
    assert_eq!(out.mismatch, None);
    assert_eq!(d.last_verify_target, Some(300));
    // 3 s later the hardware reports 150 while the previous target was 300:
    // outside the band, reported, and the call still succeeds.
    let out = d.write_freq(busy_set(2), 300, Some(&flags), 3000, 150).unwrap();
    let m = out.mismatch.unwrap();
    assert_eq!(m.policy, 3);
    assert_eq!(m.expected_min, 300);
    assert_eq!(m.expected_max, 300);
    assert_eq!(m.actual, 150);
    assert_eq!(
        out.writes,
        vec![
            WriteCommand { file: ControlFile::Ceiling, value: 300 },
            WriteCommand { file: ControlFile::Floor, value: 300 },
        ]
    );
}

#[test]
fn verification_accepts_in_band_reading() {
    let mut d = demo_domain();
    let flags = table_flags(3, false);
    d.write_freq(busy_set(2), 300, Some(&flags), 0, 0).unwrap();
    let out = d.write_freq(busy_set(2), 300, Some(&flags), 3000, 300).unwrap();
    assert_eq!(out.mismatch, None);
}

#[test]
fn verification_debounces_to_one_check_per_window() {
    let mut d = demo_domain();
    let flags = table_flags(3, false);
    d.write_freq(busy_set(2), 300, Some(&flags), 0, 0).unwrap();
    // Window elapsed: evaluation runs and restarts the window at 3000 ms.
    let out = d.write_freq(busy_set(2), 300, Some(&flags), 3000, 150).unwrap();
    assert!(out.mismatch.is_some());
    // 1 s into the new window: the same bad reading is not judged.
    let out = d.write_freq(busy_set(2), 300, Some(&flags), 4000, 150).unwrap();
    assert_eq!(out.mismatch, None);
    // Once the new window has elapsed, it is judged again.
    let out = d.write_freq(busy_set(2), 300, Some(&flags), 6000, 150).unwrap();
    assert!(out.mismatch.is_some());
}

#[test]
fn verification_skipped_for_noncritical_domains() {
    let mut d = demo_domain();
    let flags = table_flags(3, false);
    d.write_freq(busy_set(2), 300, Some(&flags), 0, 0).unwrap();
    // Due and drifted, but the domain is idle: no evaluation runs.
    let out = d.write_freq(empty_set(), 300, Some(&flags), 3000, 150).unwrap();
    assert_eq!(out.mismatch, None);
    assert_eq!(d.last_verify_target, Some(300));
}

#[test]
fn verify_freq_uses_previous_target_as_baseline() {
    let mut d = demo_domain();
    assert_eq!(d.verify_freq(200, 0, 0), None);
    // The evaluation at 3500 ms judges against 200, not against 400.
    let m = d.verify_freq(400, 3500, 100).unwrap();
    assert_eq!(m.expected_min, 200);
    assert_eq!(m.expected_max, 200);
    assert_eq!(m.actual, 100);
    assert_eq!(d.last_verify_target, Some(400));
}

#[test]
fn reset_restores_full_range_and_clears_baseline() {
    let mut d = demo_domain();
    let flags = table_flags(3, false);
    d.write_freq(busy_set(2), 300, Some(&flags), 0, 0).unwrap();
    let writes = d.reset().unwrap();
    assert_eq!(
        writes,
        vec![
            WriteCommand { file: ControlFile::Ceiling, value: 400 },
            WriteCommand { file: ControlFile::Floor, value: 100 },
        ]
    );
    assert_eq!(d.last_verify_target, None);
    // With the baseline gone, a due evaluation has nothing to judge.
    let out = d.write_freq(busy_set(2), 300, Some(&flags), 10_000, 150).unwrap();
    assert_eq!(out.mismatch, None);
}

#[test]
fn empty_table_is_fatal_to_apply_and_reset() {
    let mut d = demo_domain();
    d.freqs = Vec::new();
    let flags = table_flags(3, false);
    let before = d.cur_fas_freq;
    let r = d.write_freq(empty_set(), 300, Some(&flags), 0, 0);
    assert_eq!(r.unwrap_err(), DomainError::NoFrequenciesAvailable);
    assert_eq!(d.cur_fas_freq, before);
    assert_eq!(d.reset().unwrap_err(), DomainError::NoFrequenciesAvailable);
}

#[test]
fn critical_policy_reads_the_busy_set() {
    let d = demo_domain();
    assert!(d.critical_policy(busy_set(2)));
    assert!(d.critical_policy(busy_set(3)));
    assert!(!d.critical_policy(busy_set(5)));
    assert!(!d.critical_policy(empty_set()));
}

#[test]
fn control_file_paths() {
    let d = demo_domain();
    assert_eq!(d.max_freq_path(), format!("{PATH}/scaling_max_freq"));
    assert_eq!(d.min_freq_path(), format!("{PATH}/scaling_min_freq"));
}
