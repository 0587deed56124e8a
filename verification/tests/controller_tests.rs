use memory_tracker::controller::{Controller, RunConfig, RunState};
use memory_tracker::status::ReadError;

fn config(max_duration_ms: Option<u64>) -> RunConfig {
    RunConfig {
        pid: 1234,
        interval_ms: 1000,
        max_duration_ms,
        chart_path: String::from("memory_usage.png"),
        csv_path: None,
    }
}

#[test]
fn a_run_starts_running_and_empty() {
    let c = Controller::new(config(None));
    assert!(c.is_running());
    assert_eq!(c.state, RunState::Running);
    assert_eq!(c.stats.len(), 0);
}

#[test]
fn duration_cutoff_stops_without_a_final_sample() {
    let mut c = Controller::new(config(Some(5000)));
    // ticks before the deadline sample normally
    assert!(!c.check_duration(0));
    c.record_reading(0, Ok(100));
    assert!(!c.check_duration(1000));
    c.record_reading(1000, Ok(200));
    // once the deadline has elapsed the run stops and no sample is taken
    assert!(c.check_duration(6000));
    assert_eq!(c.state, RunState::StoppedByDuration);
    assert!(!c.is_running());
    assert_eq!(c.stats.len(), 2);
}

#[test]
fn duration_cutoff_fires_exactly_at_the_deadline() {
    let mut c = Controller::new(config(Some(5000)));
    assert!(!c.check_duration(4999));
    assert!(c.check_duration(5000));
    assert_eq!(c.state, RunState::StoppedByDuration);
}

#[test]
fn unbounded_runs_never_stop_by_duration() {
    let mut c = Controller::new(config(None));
    assert!(!c.check_duration(0));
    assert!(!c.check_duration(u64::MAX));
    assert!(c.is_running());
}

#[test]
fn target_gone_on_third_read_leaves_two_samples() {
    let mut c = Controller::new(config(None));
    c.record_reading(0, Ok(100));
    c.record_reading(1000, Ok(300));
    c.record_reading(2000, Err(ReadError::TargetUnavailable));
    assert_eq!(c.state, RunState::StoppedByTargetGone);
    assert!(!c.is_running());
    assert_eq!(c.stats.len(), 2);
    // statistics over the two collected samples are still valid
    let r = c.finish();
    assert_eq!(r.count, 2);
    assert!(r.mean.equals_int(200));
    assert!(r.median.equals_int(200));
    assert_eq!(r.max_kb, 300);
    assert_eq!(r.min_kb, 100);
}

#[test]
fn malformed_data_is_collapsed_into_the_same_transition() {
    let mut c = Controller::new(config(None));
    c.record_reading(0, Ok(64));
    c.record_reading(1000, Err(ReadError::MalformedStatusData));
    assert_eq!(c.state, RunState::StoppedByTargetGone);
    assert_eq!(c.stats.len(), 1);
}

#[test]
fn finishing_with_zero_samples_reports_zeros() {
    let mut c = Controller::new(config(None));
    c.record_reading(0, Err(ReadError::TargetUnavailable));
    let r = c.finish();
    assert_eq!(r.count, 0);
    assert!(r.mean.equals_int(0));
    assert!(r.median.equals_int(0));
    assert_eq!(r.max_kb, 0);
    assert_eq!(r.min_kb, 0);
}
