use tuff::report::decimal_string;
use tuff::report::fmt::metric_text;
use tuff::{
    Column, Columns, Counter, Duration, MetricType, ProfileBlock, ProfileMetric, Profiler,
};

#[test]
fn decimal_rendering_exact() {
    assert_eq!(decimal_string(0), "0");
    assert_eq!(decimal_string(7), "7");
    assert_eq!(decimal_string(42), "42");
    assert_eq!(decimal_string(1234567890), "1234567890");
    assert_eq!(decimal_string(u64::MAX), "18446744073709551615");
}

#[test]
fn metric_text_exact() {
    assert_eq!(
        metric_text(ProfileMetric::OsClock(Duration::from_nanos(123))),
        "OsClock(Duration(123))"
    );
    assert_eq!(
        metric_text(ProfileMetric::CpuCounter(Counter::from_cycles(456))),
        "CpuCounter(Counter(456))"
    );
}

#[test]
fn csv_lists_every_active_anchor_once_in_order() {
    let mut p = Profiler::new();
    p.start_global(MetricType::OsClock);
    for _ in 0..3 {
        let a = ProfileBlock::new(&mut p, "alpha", 1);
        a.close(&mut p);
        let b = ProfileBlock::new(&mut p, "beta", 2);
        b.close(&mut p);
    }
    p.stop_global();
    let report = p.report().unwrap();
    let lines = report.csv_lines();
    let rows = report.measurements();
    assert_eq!(lines.len(), 1 + rows.len());
    assert_eq!(lines[0], "label,elapsed_exc,elapsed_inc,minimum,maximum");
    for (k, meas) in rows.iter().enumerate() {
        let expected = format!(
            "{},{},{},{},{}",
            meas.label,
            metric_text(meas.elapsed_exclusive),
            metric_text(meas.elapsed_inclusive),
            metric_text(meas.elapsed_min),
            metric_text(meas.elapsed_max)
        );
        assert_eq!(lines[k + 1], expected);
        let count = lines
            .iter()
            .filter(|l| l.starts_with(&format!("{},", meas.label)))
            .count();
        assert_eq!(count, 1);
    }
}

#[test]
fn column_tracks_bounds() {
    let mut col = Column::new();
    assert_eq!(col.len(), 0);
    col.insert_value(5);
    col.insert_value(2);
    col.insert_value(9);
    assert_eq!(col.len(), 3);
    assert_eq!(col.min_value, 2);
    assert_eq!(col.max_value, 9);
    assert_eq!(col.values, vec![5, 2, 9]);
}

#[test]
fn columns_start_empty() {
    let cols = Columns::new();
    assert_eq!(cols.len(), 0);
}

#[test]
fn transpose_has_one_entry_per_measurement() {
    let mut p = Profiler::new();
    p.start_global(MetricType::CpuCounter);
    let a = ProfileBlock::new(&mut p, "work", 1);
    let b = ProfileBlock::new(&mut p, "inner", 2);
    b.close(&mut p);
    a.close(&mut p);
    p.stop_global();
    let report = p.report().unwrap();
    let cols = report.calculate_transpose();
    let n = report.measurements().len();
    assert_eq!(cols.len(), n);
    assert_eq!(cols.hit_count.values.len(), n);
    assert_eq!(cols.range.values.len(), n);
    for k in 0..n {
        assert!(cols.proportion_exclusive.values[k] <= 100);
        assert!(cols.proportion_inclusive.values[k] <= 100);
        assert_eq!(
            cols.range.values[k],
            cols.elapsed_max.values[k] - cols.elapsed_min.values[k]
        );
    }
    let total = report.total_metric();
    for k in 0..n {
        assert!(cols.elapsed_exclusive.values[k] <= total);
        assert!(cols.elapsed_inclusive.values[k] <= total);
    }
}

#[test]
fn empty_session_report() {
    let mut p = Profiler::new();
    p.start_global(MetricType::OsClock);
    p.stop_global();
    let report = p.report().unwrap();
    assert_eq!(report.measurements().len(), 0);
    let lines = report.csv_lines();
    assert_eq!(lines.len(), 1);
    assert_eq!(lines[0], "label,elapsed_exc,elapsed_inc,minimum,maximum");
    let cols = report.calculate_transpose();
    assert_eq!(cols.len(), 0);
}
