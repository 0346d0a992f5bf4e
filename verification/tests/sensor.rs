use weather_station::clock::MonotonicTime;
use weather_station::manager_logger::Reply;
use weather_station::manager_logger::WeatherLogger;
use weather_station::manager_w1::errors::W1ErrorKind;
use weather_station::manager_w1::reader::Decode;
use weather_station::manager_w1::W1Therm;

fn at(secs: u64) -> MonotonicTime {
    MonotonicTime::from_secs(secs)
}

fn content(code: i64) -> String {
    format!("72 01 4b 46 7f ff 0e 10 57 : crc=57 YES\n72 01 4b 46 7f ff 0e 10 57 t={}\n", code)
}

fn reading(w1: &mut W1Therm, code: i64, secs: u64) -> Option<i64> {
    let data = content(code);
    let (name, report) = w1.measure(Ok(data.as_str()), at(secs)).unwrap();
    assert_eq!(name, w1.sensor());
    report
}

#[test]
fn small_change_within_the_floor_is_not_reported() {
    let mut w1 = W1Therm::new("outside", "/sys/bus/w1/devices/28-01/w1_slave", 3, 500, at(0));
    let outputs: Vec<Option<i64>> = [20_000i64, 20_000, 20_000, 20_300]
        .iter()
        .enumerate()
        .map(|(i, code)| reading(&mut w1, *code, i as u64))
        .collect();
    assert_eq!(outputs, vec![None, None, Some(200), None]);
    assert_eq!(w1.last_reading(), 200);
    assert_eq!(w1.last_report(), at(2));
}

#[test]
fn change_of_a_third_of_a_degree_over_the_window() {
    let mut w1 = W1Therm::new("outside", "w1_slave", 3, 500, at(0));
    assert_eq!(reading(&mut w1, 20_000, 0), None);
    assert_eq!(reading(&mut w1, 20_000, 1), None);
    assert_eq!(reading(&mut w1, 20_000, 2), Some(200));
    // The window is now 20.0, 20.0, 21.0: its mean of 20.3 is less than half a
    // degree from the 20.0 that was reported.
    assert_eq!(reading(&mut w1, 21_000, 3), None);
    // 20.0, 21.0, 21.0 average to 20.7.
    assert_eq!(reading(&mut w1, 21_000, 4), Some(207));
    assert_eq!(w1.last_reading(), 207);
}

#[test]
fn change_of_a_third_of_a_degree_reports_at_a_lower_threshold() {
    let mut w1 = W1Therm::new("outside", "w1_slave", 3, 300, at(0));
    assert_eq!(reading(&mut w1, 20_000, 0), None);
    assert_eq!(reading(&mut w1, 20_000, 1), None);
    assert_eq!(reading(&mut w1, 20_000, 2), Some(200));
    assert_eq!(reading(&mut w1, 21_000, 3), Some(203));
    assert_eq!(w1.last_reading(), 203);
    assert_eq!(w1.last_report(), at(3));
}

#[test]
fn corrupt_source_leaves_the_sensor_as_it_was() {
    let mut w1 = W1Therm::new("cellar", "w1_slave", 2, 500, at(0));
    assert_eq!(reading(&mut w1, 12_000, 60), None);
    assert_eq!(reading(&mut w1, 12_000, 120), Some(120));
    let e = w1.measure(Ok("00 00 00 00 00 00 00 00 00 : crc=00 NO\n"), at(180)).unwrap_err();
    assert_eq!(e.kind, W1ErrorKind::CorruptSource);
    assert_eq!(e.message, "corrupt w1 file: 00 00 00 00 00 00 00 00 00 : crc=00 NO\n");
    assert_eq!(w1.last_reading(), 120);
    assert_eq!(w1.last_report(), at(120));
    // The window still holds 12.0 and 12.0: the next reading averages with
    // the last good one.
    assert_eq!(reading(&mut w1, 14_000, 240), Some(130));
    assert_eq!(w1.last_report(), at(240));
}

#[test]
fn parse_error_leaves_the_sensor_as_it_was() {
    let mut w1 = W1Therm::new("cellar", "w1_slave", 2, 500, at(0));
    assert_eq!(reading(&mut w1, 12_000, 60), None);
    let e = w1.measure(Ok("t=12x00"), at(120)).unwrap_err();
    assert_eq!(e.kind, W1ErrorKind::Parse);
    assert_eq!(e.message, "invalid temperature code: 12x00");
    assert_eq!(w1.last_reading(), 0);
    assert_eq!(w1.last_report(), at(0));
    assert_eq!(reading(&mut w1, 14_000, 180), Some(130));
}

#[test]
fn unreadable_source_leaves_the_sensor_as_it_was() {
    let mut w1 = W1Therm::new("cellar", "w1_slave", 1, 500, at(0));
    assert_eq!(reading(&mut w1, 12_000, 60), Some(120));
    let e = w1.measure(Err("Permission denied (os error 13)"), at(500)).unwrap_err();
    assert_eq!(e.kind, W1ErrorKind::Io);
    assert_eq!(e.message, "Permission denied (os error 13)");
    assert_eq!(e.to_string(), "W1Error: Permission denied (os error 13)");
    assert_eq!(w1.last_reading(), 120);
    assert_eq!(w1.last_report(), at(60));
}

#[test]
fn refused_report_leaves_the_decision_standing() {
    let mut w1 = W1Therm::new("attic", "w1_slave", 1, 500, at(0));
    let logger = WeatherLogger::new("http://logger.local/report");
    let data = content(31_480);
    let (name, report) = w1.measure(Ok(data.as_str()), at(60)).unwrap();
    assert_eq!(report, Some(315));
    assert!(logger.request(name, report).is_some());
    let e = logger.report(Some(Reply::Status(503))).unwrap_err();
    assert_eq!(e.0, "503");
    assert_eq!(w1.last_reading(), 315);
    assert_eq!(w1.last_report(), at(60));
    // The same reading a minute later is not reported again.
    assert_eq!(reading(&mut w1, 31_480, 120), None);
}

#[test]
fn first_full_window_after_the_floor_reports_even_near_zero() {
    let mut w1 = W1Therm::new("freezer", "w1_slave", 6, 500, at(0));
    for tick in 1..=5 {
        assert_eq!(reading(&mut w1, 200, 60 * tick), None);
    }
    assert_eq!(reading(&mut w1, 200, 360), Some(2));
}

#[test]
fn sensor_keeps_its_name_and_path() {
    let w1 = W1Therm::new("outside", "/sys/bus/w1/devices/28-01/w1_slave", 0, 500, at(7));
    assert_eq!(w1.sensor(), "outside");
    assert_eq!(w1.path(), "/sys/bus/w1/devices/28-01/w1_slave");
    assert_eq!(w1.last_reading(), 0);
    assert_eq!(w1.last_report(), at(7));
}

#[test]
fn decoding_does_not_change_what_is_reported() {
    let mut plain = W1Therm::new("a", "w1_slave", 2, 100, at(0));
    let mut rounded = W1Therm::new("b", "w1_slave", 2, 100, at(0)).with_decode(Decode::RoundedTenths);
    let codes = [20_049i64, 20_050, 20_151, -349, -350, -351, 125, 31_999];
    for (i, code) in codes.iter().enumerate() {
        let a = reading(&mut plain, *code, 60 * i as u64);
        let b = reading(&mut rounded, *code, 60 * i as u64);
        assert_eq!(a, b);
    }
    assert_eq!(plain.last_reading(), rounded.last_reading());
}
