//! The shared pieces: the canonical record, the retry schedule, and the
//! fixed-point parser underneath the sources.

use ch170_display::fixed::parse_milli;
use ch170_display::readings::{SensorReadings, TemperatureUnit};
use ch170_display::retry::{RetryDecision, RetrySchedule};

#[test]
fn temperature_unit_names() {
    assert_eq!(TemperatureUnit::Celsius.to_str(), "C");
    assert_eq!(TemperatureUnit::Fahrenheit.to_str(), "F");
}

#[test]
fn fresh_readings_are_neutral() {
    let r = SensorReadings::new(1000);
    assert_eq!(r.cpu_temp, 0);
    assert_eq!(r.gpu_freq, 0);
    assert_eq!(r.elapsed_time_ms, 0);
    assert_eq!(r.polling_period, 1000);
    assert_eq!(r.all_temperature_unit, TemperatureUnit::Celsius);
}

#[test]
fn polling_period_never_drops_below_the_floor() {
    let mut r = SensorReadings::new(1000);
    assert_eq!(r.polling_period(), 1000);
    r.polling_period = 100;
    assert_eq!(r.polling_period(), 250);
    r.polling_period = 0;
    assert_eq!(r.polling_period(), 250);
}

#[test]
fn retry_schedule_retries_then_gives_up() {
    // three attempts at most, as the connection paths use it
    let mut schedule = RetrySchedule::new(3, 5);
    assert_eq!(schedule.on_failure(), RetryDecision::RetryAfter(5));
    assert_eq!(schedule.on_failure(), RetryDecision::RetryAfter(5));
    assert_eq!(schedule.on_failure(), RetryDecision::GiveUp(3));
    assert_eq!(schedule.attempts, 3);
}

#[test]
fn retry_schedule_with_one_attempt_gives_up_at_once() {
    let mut schedule = RetrySchedule::new(1, 5);
    assert_eq!(schedule.on_failure(), RetryDecision::GiveUp(1));
}

#[test]
fn parse_milli_accepts_plain_decimals() {
    assert_eq!(parse_milli("41"), Some(41_000));
    assert_eq!(parse_milli("73.2"), Some(73_200));
    assert_eq!(parse_milli("-0.25"), Some(-250));
    assert_eq!(parse_milli("0"), Some(0));
    assert_eq!(parse_milli("999999999999999"), Some(999_999_999_999_999_000));
}

#[test]
fn parse_milli_rejects_everything_else() {
    assert_eq!(parse_milli(""), None);
    assert_eq!(parse_milli("-"), None);
    assert_eq!(parse_milli("."), None);
    assert_eq!(parse_milli("4 8"), None);
    assert_eq!(parse_milli("12a"), None);
    assert_eq!(parse_milli("1.2.3"), None);
    assert_eq!(parse_milli("1e3"), None);
    assert_eq!(parse_milli("NaN"), None);
    assert_eq!(parse_milli("1234567890123456"), None);
}
