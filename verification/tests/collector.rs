use weather_station::manager_logger::errors::WeatherLoggerError;
use weather_station::manager_logger::Reply;
use weather_station::manager_logger::WeatherLogger;
use weather_station::manager_logger::STATUS_OK;
use weather_station::manager_logger::TIMEOUT_SECS;

fn pairs(query: &[(String, String)]) -> Vec<(&str, &str)> {
    query.iter().map(|(k, v)| (k.as_str(), v.as_str())).collect()
}

#[test]
fn nothing_to_report_makes_no_request() {
    let logger = WeatherLogger::new("http://logger.local/report");
    assert!(logger.request("outside", None).is_none());
    assert!(logger.report(None).is_ok());
}

#[test]
fn request_carries_sensor_temperature_and_humidity() {
    let logger = WeatherLogger::new("http://logger.local/report");
    let request = logger.request("outside", Some(203)).unwrap();
    assert_eq!(request.url, "http://logger.local/report");
    assert_eq!(pairs(&request.query), vec![("id", "outside"), ("temp", "20.3"), ("hum", "0")]);
}

#[test]
fn temperature_is_written_as_the_shortest_decimal() {
    let logger = WeatherLogger::new("http://logger.local/report");
    for (tenths, text) in [
        (200i64, "20"),
        (0, "0"),
        (5, "0.5"),
        (-5, "-0.5"),
        (-200, "-20"),
        (-1234, "-123.4"),
        (1000, "100"),
        (i64::MAX, "922337203685477580.7"),
        (i64::MIN, "-922337203685477580.8"),
    ] {
        let request = logger.request("s", Some(tenths)).unwrap();
        assert_eq!(request.query[1].1, text);
    }
    for tenths in -1500i64..=1500 {
        let request = logger.request("s", Some(tenths)).unwrap();
        let degrees = if tenths == 0 { 0.0 } else { tenths as f64 / 10.0 };
        assert_eq!(request.query[1].1, format!("{}", degrees));
    }
}

#[test]
fn success_is_the_status_200_alone() {
    let logger = WeatherLogger::new("http://logger.local/report");
    assert_eq!(STATUS_OK, 200);
    assert!(logger.report(Some(Reply::Status(200))).is_ok());
    for code in [0u16, 100, 199, 201, 204, 301, 404, 500, 503, 65535] {
        let e = logger.report(Some(Reply::Status(code))).unwrap_err();
        assert_eq!(e.0, code.to_string());
    }
}

#[test]
fn failed_exchange_carries_its_cause() {
    let logger = WeatherLogger::new("http://logger.local/report");
    let e = logger.report(Some(Reply::Failed("timeout: global".to_string()))).unwrap_err();
    assert_eq!(e.0, "timeout: global");
    assert_eq!(e.to_string(), "WeatherLoggerError: timeout: global");
}

#[test]
fn logger_errors_show_type_and_message() {
    assert_eq!(WeatherLoggerError::status(503).to_string(), "WeatherLoggerError: 503");
    assert_eq!(WeatherLoggerError::transport("io: Connection refused").0, "io: Connection refused");
}

#[test]
fn logger_keeps_its_url_and_timeout() {
    let logger = WeatherLogger::new("http://10.0.0.7:8080/");
    assert_eq!(logger.url(), "http://10.0.0.7:8080/");
    assert_eq!(TIMEOUT_SECS, 30);
}
