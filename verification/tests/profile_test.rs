use tuff::{MetricType, ProfileBlock, ProfileError, Profiler};

#[test]
fn test_simple() {
    let mut profiler = Profiler::new();
    profiler.start_global(MetricType::OsClock);
    let mut v = Vec::new();
    for i in 1..10 {
        v.push(i);
    }
    profiler.stop_global();
    println!("{}", profiler.report().unwrap().total_metric());

    let mut profiler = Profiler::new();
    profiler.start_global(MetricType::OsClock);
    let mut v = Vec::new();
    for i in 1..100000 {
        v.push(i);
    }
    profiler.stop_global();
    println!("{}", profiler.report().unwrap().total_metric());
}

#[test]
fn single_region_inclusive_equals_exclusive() {
    let mut p = Profiler::new();
    p.start_global(MetricType::CpuCounter);
    let b = ProfileBlock::new(&mut p, "only", 1);
    b.close(&mut p);
    p.stop_global();
    let report = p.report().unwrap();
    let rows = report.measurements();
    assert_eq!(rows.len(), 1);
    assert_eq!(rows[0].label, "only");
    assert_eq!(rows[0].hit_count, 1);
    assert_eq!(
        rows[0].elapsed_inclusive.raw(),
        rows[0].elapsed_exclusive.raw()
    );
    assert_eq!(rows[0].elapsed_min.raw(), rows[0].elapsed_max.raw());
}

#[test]
fn nesting_splits_parent_time() {
    let mut p = Profiler::new();
    p.start_global(MetricType::OsClock);
    let outer = ProfileBlock::new(&mut p, "parent", 1);
    let inner = ProfileBlock::new(&mut p, "child", 2);
    inner.close(&mut p);
    outer.close(&mut p);
    p.stop_global();
    let report = p.report().unwrap();
    let rows = report.measurements();
    assert_eq!(rows.len(), 2);
    let parent = rows[0];
    let child = rows[1];
    assert_eq!(parent.label, "parent");
    assert_eq!(child.label, "child");
    assert_eq!(parent.hit_count, 1);
    assert_eq!(child.hit_count, 1);
    assert_eq!(
        parent.elapsed_inclusive.raw(),
        child.elapsed_inclusive.raw() + parent.elapsed_exclusive.raw()
    );
}

#[test]
fn repeated_hits_accumulate() {
    let mut p = Profiler::new();
    p.start_global(MetricType::OsClock);
    for _ in 0..100 {
        let b = ProfileBlock::new(&mut p, "loop", 1);
        b.close(&mut p);
    }
    p.stop_global();
    let report = p.report().unwrap();
    let rows = report.measurements();
    assert_eq!(rows.len(), 1);
    assert_eq!(rows[0].hit_count, 100);
    assert!(rows[0].elapsed_min.raw() <= rows[0].elapsed_max.raw());
    assert!(rows[0].elapsed_max.raw() <= rows[0].elapsed_inclusive.raw());
}

fn recurse(p: &mut Profiler, depth: u32) {
    let b = ProfileBlock::new(p, "recursive", 3);
    if depth > 1 {
        recurse(p, depth - 1);
    }
    b.close(p);
}

#[test]
fn recursive_region_unwinds_correctly() {
    let mut p = Profiler::new();
    p.start_global(MetricType::OsClock);
    recurse(&mut p, 5);
    p.stop_global();
    let report = p.report().unwrap();
    let rows = report.measurements();
    assert_eq!(rows.len(), 1);
    assert_eq!(rows[0].hit_count, 5);
    // A pure self-recursive chain owns its whole window.
    assert_eq!(
        rows[0].elapsed_exclusive.raw(),
        rows[0].elapsed_inclusive.raw()
    );
}

#[test]
fn report_totals_cover_exclusive_sum() {
    let mut p = Profiler::new();
    p.start_global(MetricType::OsClock);
    for _ in 0..10 {
        let a = ProfileBlock::new(&mut p, "a", 1);
        let b = ProfileBlock::new(&mut p, "b", 2);
        b.close(&mut p);
        let c = ProfileBlock::new(&mut p, "c", 3);
        c.close(&mut p);
        a.close(&mut p);
    }
    p.stop_global();
    let report = p.report().unwrap();
    let total = report.total_metric();
    let mut sum: u64 = 0;
    for m in report.measurements() {
        sum += m.elapsed_exclusive.raw();
    }
    assert!(sum <= total);
}

#[test]
fn sibling_scenario_accumulates_hits() {
    let mut p = Profiler::new();
    p.start_global(MetricType::CpuCounter);
    for _ in 0..1000 {
        let a = ProfileBlock::new(&mut p, "A", 1);
        let b = ProfileBlock::new(&mut p, "B", 2);
        b.close(&mut p);
        a.close(&mut p);
    }
    p.stop_global();
    let report = p.report().unwrap();
    let rows = report.measurements();
    assert_eq!(rows.len(), 2);
    let a = rows[0];
    let b = rows[1];
    assert_eq!(a.label, "A");
    assert_eq!(b.label, "B");
    assert_eq!(a.hit_count, 1000);
    assert_eq!(b.hit_count, 1000);
    assert_eq!(
        a.elapsed_exclusive.raw(),
        a.elapsed_inclusive.raw() - b.elapsed_inclusive.raw()
    );
}

#[test]
fn report_before_start_fails_not_started() {
    let p = Profiler::new();
    let err = p.report().unwrap_err();
    assert_eq!(err, ProfileError::NotStarted);
    assert_eq!(err.message(), "Profiler not started");
}

#[test]
fn report_before_stop_fails_not_finished() {
    let mut p = Profiler::new();
    p.start_global(MetricType::OsClock);
    let err = p.report().unwrap_err();
    assert_eq!(err, ProfileError::NotFinished);
    assert_eq!(err.message(), "Profiler not finished");
}

#[test]
fn next_id_counts_up_from_one() {
    let mut p = Profiler::new();
    assert_eq!(p.next_id(), 1);
    assert_eq!(p.next_id(), 2);
    assert_eq!(p.next_id(), 3);
}

#[test]
fn labels_are_kept_from_first_hit() {
    let mut p = Profiler::new();
    p.start_global(MetricType::OsClock);
    let b = ProfileBlock::new(&mut p, "first", 7);
    b.close(&mut p);
    let b = ProfileBlock::new(&mut p, "second", 7);
    b.close(&mut p);
    p.stop_global();
    let report = p.report().unwrap();
    let rows = report.measurements();
    assert_eq!(rows.len(), 1);
    assert_eq!(rows[0].label, "first");
    assert_eq!(rows[0].hit_count, 2);
}

#[test]
fn current_metric_never_decreases() {
    let mut p = Profiler::new();
    let r1 = p.read_current_metric();
    let r2 = p.read_current_metric();
    let r3 = p.read_current_metric();
    assert!(r1 <= r2 && r2 <= r3);
}
