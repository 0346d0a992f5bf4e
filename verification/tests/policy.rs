use weather_station::clock::MonotonicTime;
use weather_station::manager_w1::policy::ReportPolicy;
use weather_station::manager_w1::policy::REPORT_FLOOR_SECS;

fn at(secs: u64) -> MonotonicTime {
    MonotonicTime::from_secs(secs)
}

#[test]
fn nothing_to_evaluate_gives_nothing() {
    let mut p = ReportPolicy::new(500, at(0));
    assert_eq!(p.evaluate(None, at(10_000)), None);
    assert_eq!(p.last_reported_value(), 0);
    assert_eq!(p.last_report_time(), at(0));
}

#[test]
fn first_evaluation_reports_a_reading_away_from_zero() {
    let mut p = ReportPolicy::new(500, at(0));
    assert_eq!(p.evaluate(Some(200), at(2)), Some(200));
    assert_eq!(p.last_reported_value(), 200);
    assert_eq!(p.last_report_time(), at(2));
}

#[test]
fn first_evaluation_reports_after_the_floor() {
    let mut p = ReportPolicy::new(500, at(100));
    assert_eq!(p.evaluate(Some(2), at(400)), Some(2));
    assert_eq!(p.last_report_time(), at(400));
}

#[test]
fn first_evaluation_near_zero_before_the_floor_is_silent() {
    let mut p = ReportPolicy::new(500, at(0));
    assert_eq!(p.evaluate(Some(2), at(2)), None);
    assert_eq!(p.last_reported_value(), 0);
    assert_eq!(p.last_report_time(), at(0));
}

#[test]
fn threshold_is_inclusive() {
    let mut p = ReportPolicy::new(500, at(0));
    assert_eq!(p.evaluate(Some(200), at(1)), Some(200));
    assert_eq!(p.evaluate(Some(204), at(2)), None);
    assert_eq!(p.evaluate(Some(205), at(3)), Some(205));
    assert_eq!(p.evaluate(Some(201), at(4)), None);
    assert_eq!(p.evaluate(Some(200), at(5)), Some(200));
}

#[test]
fn threshold_between_two_tenths_needs_the_next_tenth() {
    // 0.25 degrees: a change of 0.2 is too little, one of 0.3 is enough.
    let mut p = ReportPolicy::new(250, at(0));
    assert_eq!(p.evaluate(Some(100), at(1)), Some(100));
    assert_eq!(p.evaluate(Some(102), at(2)), None);
    assert_eq!(p.evaluate(Some(103), at(3)), Some(103));
}

#[test]
fn floor_is_inclusive() {
    let mut p = ReportPolicy::new(500, at(0));
    assert_eq!(p.evaluate(Some(200), at(10)), Some(200));
    let just_before = MonotonicTime::from_nanos(310 * 1_000_000_000 - 1);
    assert_eq!(p.evaluate(Some(200), just_before), None);
    assert_eq!(p.evaluate(Some(200), at(10 + REPORT_FLOOR_SECS)), Some(200));
    assert_eq!(p.last_report_time(), at(310));
}

#[test]
fn unchanged_value_is_not_reported_again() {
    let mut p = ReportPolicy::new(100, at(0));
    assert_eq!(p.evaluate(Some(215), at(60)), Some(215));
    for tick in 2..=5 {
        assert_eq!(p.evaluate(Some(215), at(60 * tick)), None);
        assert_eq!(p.last_reported_value(), 215);
        assert_eq!(p.last_report_time(), at(60));
    }
    assert_eq!(p.evaluate(Some(215), at(360)), Some(215));
}

#[test]
fn threshold_of_zero_reports_every_reading() {
    let mut p = ReportPolicy::new(0, at(0));
    assert_eq!(p.evaluate(Some(0), at(1)), Some(0));
    assert_eq!(p.evaluate(Some(0), at(2)), Some(0));
    assert_eq!(p.last_report_time(), at(2));
}

#[test]
fn reports_are_spaced_by_floor_or_threshold() {
    let mut p = ReportPolicy::new(300, at(0));
    let readings = [200i64, 201, 202, 203, 203, 204, 205, 206, 206, 206, 206, 206, 206];
    let mut last: Option<(i64, u64)> = None;
    for (i, r) in readings.iter().enumerate() {
        let now = 60 * (i as u64 + 1);
        if let Some(v) = p.evaluate(Some(*r), at(now)) {
            assert_eq!(v, *r);
            if let Some((value, time)) = last {
                assert!(now - time >= 300 || (v - value).abs() * 100 >= 300);
            }
            last = Some((v, now));
        }
    }
    assert_eq!(last, Some((206, 780)));
}

#[test]
fn report_time_never_moves_back() {
    let mut p = ReportPolicy::new(100, at(500));
    // A clock reading older than the construction: the change still reports.
    assert_eq!(p.evaluate(Some(50), at(400)), Some(50));
    assert_eq!(p.last_reported_value(), 50);
    assert_eq!(p.last_report_time(), at(500));
    assert_eq!(p.evaluate(Some(50), at(450)), None);
    assert_eq!(p.evaluate(Some(50), at(800)), Some(50));
    assert_eq!(p.last_report_time(), at(800));
}

#[test]
fn distance_of_extreme_readings_does_not_overflow() {
    let mut p = ReportPolicy::new(u64::MAX, at(0));
    assert_eq!(p.evaluate(Some(i64::MAX), at(1)), Some(i64::MAX));
    assert_eq!(p.evaluate(Some(i64::MIN), at(2)), Some(i64::MIN));
    assert_eq!(p.evaluate(Some(i64::MIN + 5), at(3)), None);
    assert_eq!(p.threshold_millis(), u64::MAX);
}

#[test]
fn clock_readings_compare_in_whole_seconds() {
    let a = MonotonicTime::from_nanos(1_500_000_000);
    let b = MonotonicTime::from_nanos(4_499_999_999);
    assert_eq!(b.whole_secs_since(a), 2);
    assert_eq!(a.whole_secs_since(b), 0);
    assert_eq!(a.latest(b), b);
    assert_eq!(b.latest(a), b);
    assert_eq!(MonotonicTime::from_secs(u64::MAX).nanos, u64::MAX as u128 * 1_000_000_000);
}
