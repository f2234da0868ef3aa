use tuff::{
    has_counter_support, read_cpu_counter, read_cpu_counter_frequency, read_os_time, CallSite,
    Counter, Duration, Frequency, Instant, ProfileError,
};

#[test]
fn test_tsc_monotonic() {
    let t1 = read_cpu_counter();
    let t2 = read_cpu_counter();
    assert!(t2 >= t1, "TSC should be monotonic");
}

#[test]
fn test_tsc_not_zero() {
    let t = read_cpu_counter();
    assert!(t > 0, "TSC should return a positive value");
}

#[test]
fn test_tsc_frequency_constant() {
    let freq = read_cpu_counter_frequency();
    let freq2 = read_cpu_counter_frequency();
    assert_eq!(freq, freq2, "TSC frequency should remain constant");
}

#[test]
fn test_tsc_frequency_not_zero() {
    let freq = read_cpu_counter_frequency();
    assert!(freq > 0, "TSC frequency should return a positive value");
}

#[test]
fn test_os_timer() {
    let time_1 = read_os_time();
    let time_2 = read_os_time();
    assert!(time_2 >= time_1, "OS timer should be monotonic");
}

#[test]
fn test_os_timer_not_zero() {
    let time = read_os_time();
    assert!(time > 0, "OS timer should return a positive value");
}

#[test]
fn test_aarch64_has_counter_support() {
    assert!(has_counter_support());
}

#[test]
fn frequency_conversions() {
    let f = Frequency::from_hertz(2_500_000_000);
    assert_eq!(f.in_hertz(), 2_500_000_000);
    assert_eq!(f.in_megas(), 2_500);
    assert_eq!(f.in_gigas(), 2);
    let g = Frequency::from_gigas(3);
    assert_eq!(g.in_hertz(), 3_000_000_000);
}

#[test]
fn frequency_read_is_nanosecond_rate() {
    let f = Frequency::read();
    assert_eq!(f.in_hertz(), 1_000_000_000);
    assert_eq!(f, Frequency::read());
}

#[test]
fn counter_round_trip() {
    let c = Counter::from_cycles(12345);
    assert_eq!(c.cycles(), 12345);
    let read = Counter::read();
    assert!(read.cycles() > 0);
}

#[test]
fn counter_serializing_fails_closed() {
    let r = Counter::read_serializing();
    assert_eq!(r, Err(ProfileError::NotImplemented));
    assert_eq!(ProfileError::NotImplemented.message(), "Metric not implemented");
}

#[test]
fn duration_conversions() {
    let d = Duration::from_nanos(1_500_000_000);
    assert_eq!(d.as_nanos(), 1_500_000_000);
    assert_eq!(d.as_micros(), 1_500_000);
    assert_eq!(d.as_millis(), 1_500);
    assert_eq!(d.as_secs(), 1);
    assert_eq!(Duration::from_nsecs(42).as_nanos(), 42);
}

#[test]
fn instant_durations() {
    let i1 = Instant::now();
    let i2 = Instant::now();
    let d = i2.duration_since(i1);
    assert!(d.as_nanos() <= i2.duration_since(i1).as_nanos() + 1);
}

#[test]
fn call_site_identity() {
    let c = CallSite::new("lib.rs", 10, 4);
    assert_eq!(c.file, "lib.rs");
    assert_eq!(c.line, 10);
    assert_eq!(c.column, 4);
    assert_eq!(c, CallSite::new("lib.rs", 10, 4));
}
