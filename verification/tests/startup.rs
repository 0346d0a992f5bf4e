use weather_station::clock::MonotonicTime;
use weather_station::dispatcher::measure_failed;
use weather_station::dispatcher::measured;
use weather_station::dispatcher::report_failed;
use weather_station::dispatcher::sensors;
use weather_station::dispatcher::Level;
use weather_station::dispatcher::TICK_SECS;
use weather_station::errors::ConfigError;
use weather_station::errors::UnrecoverableError;
use weather_station::initialization::config_path;
use weather_station::initialization::SensorW1;
use weather_station::logging::appenders;
use weather_station::logging::PATTERN;
use weather_station::manager_logger::errors::WeatherLoggerError;
use weather_station::manager_w1::errors::W1Error;

fn args(list: &[&str]) -> Vec<String> {
    list.iter().map(|a| a.to_string()).collect()
}

#[test]
fn config_path_follows_the_flag() {
    let found = config_path(&args(&["weather", "--verbose", "--config=/etc/weather.toml"]));
    assert_eq!(found.unwrap(), "/etc/weather.toml");
}

#[test]
fn first_config_argument_wins() {
    let found = config_path(&args(&["weather", "--config=a.toml", "--config=b.toml"]));
    assert_eq!(found.unwrap(), "a.toml");
}

#[test]
fn config_path_may_be_empty_or_hold_the_separator() {
    assert_eq!(config_path(&args(&["--config="])).unwrap(), "");
    assert_eq!(config_path(&args(&["--config=a=b"])).unwrap(), "a=b");
    assert_eq!(config_path(&args(&["--config=/srv/wetter/k\u{f6}ln.toml"])).unwrap(), "/srv/wetter/k\u{f6}ln.toml");
}

#[test]
fn missing_config_argument_is_an_error() {
    for list in [
        vec![],
        vec!["weather"],
        vec!["weather", "--config", "a.toml"],
        vec!["weather", "-config=a.toml"],
        vec!["weather", " --config=a.toml"],
        vec!["weather", "--Config=a.toml"],
    ] {
        let e = config_path(&args(&list)).unwrap_err();
        assert_eq!(e.0, "missing --config=<config_path>");
    }
}

#[test]
fn start_up_errors_show_type_and_message() {
    let e = ConfigError::from("missing --config=<config_path>");
    assert_eq!(e.to_string(), "ConfigError: missing --config=<config_path>");
    let fatal = UnrecoverableError::from(e);
    assert_eq!(fatal.0, "ConfigError: missing --config=<config_path>");
    assert_eq!(
        fatal.to_string(),
        "UnrecoverableError: ConfigError: missing --config=<config_path>"
    );
}

#[test]
fn sensors_come_in_configuration_order() {
    let config = SensorW1 {
        thermometer: vec![
            ("outside".to_string(), "/sys/bus/w1/devices/28-01/w1_slave".to_string(), 3, 500),
            ("cellar".to_string(), "/sys/bus/w1/devices/28-02/w1_slave".to_string(), 0, 0),
        ],
    };
    let now = MonotonicTime::from_secs(5);
    let mut w1_sensors = sensors(&config, now);
    assert_eq!(w1_sensors.len(), 2);
    assert_eq!(w1_sensors[0].sensor(), "outside");
    assert_eq!(w1_sensors[0].path(), "/sys/bus/w1/devices/28-01/w1_slave");
    assert_eq!(w1_sensors[1].sensor(), "cellar");
    assert_eq!(w1_sensors[1].path(), "/sys/bus/w1/devices/28-02/w1_slave");
    assert_eq!(w1_sensors[0].last_report(), now);
    // A window of three stays silent at first, one of zero counts as one.
    let t = MonotonicTime::from_secs(6);
    assert_eq!(w1_sensors[0].measure(Ok("t=20000"), t).unwrap(), ("outside", None));
    assert_eq!(w1_sensors[1].measure(Ok("t=20000"), t).unwrap(), ("cellar", Some(200)));
    assert!(sensors(&SensorW1 { thermometer: vec![] }, now).is_empty());
}

#[test]
fn measurement_is_logged_with_one_decimal() {
    let line = measured("outside", Some(200));
    assert_eq!(line.level, Level::Info);
    assert_eq!(line.text, "sensor \"outside\" measured: Some(20.0)");
    assert_eq!(line.text, format!("sensor \"{}\" measured: {:?}", "outside", Some(20.0f64)));
    assert_eq!(measured("outside", Some(-5)).text, "sensor \"outside\" measured: Some(-0.5)");
    assert_eq!(measured("outside", Some(1007)).text, "sensor \"outside\" measured: Some(100.7)");
    assert_eq!(measured("cellar", None).text, "sensor \"cellar\" measured: None");
}

#[test]
fn failures_are_logged_as_errors() {
    let line = measure_failed("outside", &W1Error::io("Permission denied (os error 13)"));
    assert_eq!(line.level, Level::Error);
    assert_eq!(
        line.text,
        "error while measure from sensor \"outside\": W1Error: Permission denied (os error 13)"
    );
    let line = report_failed("outside", &WeatherLoggerError::status(503));
    assert_eq!(line.level, Level::Error);
    assert_eq!(
        line.text,
        "error while reporting sensor \"outside\" to logger: WeatherLoggerError: 503"
    );
}

#[test]
fn log_goes_to_file_and_to_stdout_on_request() {
    assert_eq!(appenders(false), vec!["file"]);
    assert_eq!(appenders(true), vec!["file", "stdout"]);
    assert!(PATTERN.ends_with("{m}{n}"));
    assert_eq!(TICK_SECS, 60);
}
