use memory_tracker::stats::MemoryStats;

#[test]
fn empty_series_reductions_are_zero() {
    let s = MemoryStats::new();
    let mean = s.mean();
    assert!(mean.equals_int(0));
    assert_eq!(mean.num, 0);
    assert_eq!(mean.den, 1);
    let median = s.median();
    assert!(median.equals_int(0));
    assert_eq!(median.num, 0);
    assert_eq!(median.den, 1);
    assert_eq!(s.max(), 0);
    assert_eq!(s.min(), 0);
    assert_eq!(s.len(), 0);
    assert!(s.is_empty());
    assert_eq!(s.last_elapsed_ms(), 0);
}

#[test]
fn single_sample_statistics() {
    let mut s = MemoryStats::new();
    s.add_sample(0, 500);
    assert!(s.mean().equals_int(500));
    assert!(s.median().equals_int(500));
    assert_eq!(s.max(), 500);
    assert_eq!(s.min(), 500);
    assert_eq!(s.len(), 1);
}

#[test]
fn even_count_statistics() {
    let mut s = MemoryStats::new();
    s.add_sample(0, 100);
    s.add_sample(1000, 300);
    s.add_sample(2000, 200);
    s.add_sample(3000, 400);
    assert!(s.mean().equals_int(250));
    // average of the sorted middles 200 and 300
    let median = s.median();
    assert!(median.equals_int(250));
    assert_eq!(median.num, 500);
    assert_eq!(median.den, 2);
    assert_eq!(s.max(), 400);
    assert_eq!(s.min(), 100);
    // the time-ordered series is untouched by the median's sorted copy
    assert_eq!(s.sample_at(0).memory_kb, 100);
    assert_eq!(s.sample_at(1).memory_kb, 300);
    assert_eq!(s.sample_at(2).memory_kb, 200);
    assert_eq!(s.sample_at(3).memory_kb, 400);
}

#[test]
fn odd_count_median() {
    let mut s = MemoryStats::new();
    s.add_sample(0, 100);
    s.add_sample(1000, 200);
    s.add_sample(2000, 300);
    let median = s.median();
    assert!(median.equals_int(200));
    assert_eq!(median.num, 200);
    assert_eq!(median.den, 1);
}

#[test]
fn median_can_be_a_half_integer() {
    let mut s = MemoryStats::new();
    s.add_sample(0, 1);
    s.add_sample(1000, 2);
    let median = s.median();
    assert_eq!(median.num, 3);
    assert_eq!(median.den, 2);
    assert!(!median.equals_int(1));
    assert!(!median.equals_int(2));
}

#[test]
fn appended_samples_keep_time_order() {
    let mut s = MemoryStats::new();
    s.add_sample(0, 10);
    s.add_sample(250, 30);
    s.add_sample(1700, 20);
    let mut previous = 0;
    for i in 0..s.len() {
        let p = s.sample_at(i);
        assert!(p.time_ms >= previous);
        previous = p.time_ms;
    }
    assert_eq!(s.last_elapsed_ms(), 1700);
}

#[test]
fn mean_of_identical_values_is_exact() {
    let mut s = MemoryStats::new();
    s.add_sample(0, 7);
    s.add_sample(1, 7);
    s.add_sample(2, 7);
    let mean = s.mean();
    assert_eq!(mean.num, 21);
    assert_eq!(mean.den, 3);
    assert!(mean.equals_int(7));
}

#[test]
fn summary_collects_every_reduction() {
    let mut s = MemoryStats::new();
    s.add_sample(0, 111);
    s.add_sample(500, 333);
    let r = s.summary();
    assert_eq!(r.count, 2);
    assert!(r.mean.equals_int(222));
    assert!(r.median.equals_int(222));
    assert_eq!(r.max_kb, 333);
    assert_eq!(r.min_kb, 111);
}
