use memory_tracker::stats::MemoryStats;

#[test]
fn csv_export_is_one_value_per_line_in_time_order() {
    let mut s = MemoryStats::new();
    s.add_sample(0, 111);
    s.add_sample(1000, 222);
    s.add_sample(2000, 333);
    let out = s.csv_bytes();
    assert_eq!(out, b"111\n222\n333\n".to_vec());
    let text = String::from_utf8(out).unwrap();
    let lines: Vec<&str> = text.lines().collect();
    assert_eq!(lines, vec!["111", "222", "333"]);
}

#[test]
fn csv_export_of_an_empty_series_is_empty() {
    let s = MemoryStats::new();
    assert_eq!(s.csv_bytes(), Vec::<u8>::new());
}

#[test]
fn csv_export_writes_zero_as_a_single_digit() {
    let mut s = MemoryStats::new();
    s.add_sample(0, 0);
    assert_eq!(s.csv_bytes(), b"0\n".to_vec());
}

#[test]
fn csv_export_handles_the_largest_value() {
    let mut s = MemoryStats::new();
    s.add_sample(0, u64::MAX);
    assert_eq!(s.csv_bytes(), b"18446744073709551615\n".to_vec());
}

#[test]
fn single_sample_chart_range_is_degenerate_but_valid() {
    let mut s = MemoryStats::new();
    s.add_sample(4000, 2048);
    let b = s.chart_bounds();
    // the margin is zero, so the pre-margin range collapses to one point
    assert_eq!(b.y_low_tenth_kb, b.y_high_tenth_kb);
    assert_eq!(b.y_low_tenth_kb, 20480);
    assert_eq!(b.x_max_ms, 4000);
}

#[test]
fn chart_range_adds_a_tenth_of_the_spread_each_way() {
    let mut s = MemoryStats::new();
    s.add_sample(0, 100);
    s.add_sample(1000, 400);
    let b = s.chart_bounds();
    // spread 300 KB: low is 1000 - 300, high is 4000 + 300, in tenth-KB
    assert_eq!(b.y_low_tenth_kb, 700);
    assert_eq!(b.y_high_tenth_kb, 4300);
    assert_eq!(b.x_max_ms, 1000);
}

#[test]
fn chart_range_is_clamped_at_zero() {
    let mut s = MemoryStats::new();
    s.add_sample(0, 1);
    s.add_sample(1000, 100);
    let b = s.chart_bounds();
    // 10 * 1 is less than the spread of 99, so the lower bound clamps to 0
    assert_eq!(b.y_low_tenth_kb, 0);
    assert_eq!(b.y_high_tenth_kb, 1099);
}
