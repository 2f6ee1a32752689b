//! The HTTP variant: unit-suffixed value parsing and the snapshot walk.

use ch170_display::lhm::{
    apply_snapshot, parse_sensor_value, LhmValue, SensorNode, SnapshotError, ValueError,
};
use ch170_display::readings::{SensorReadings, TemperatureUnit};

fn leaf(sensor_id: &str, value: &str) -> SensorNode {
    SensorNode {
        hardware_id: None,
        sensor_id: Some(String::from(sensor_id)),
        value: String::from(value),
        children: Vec::new(),
    }
}

fn group(children: Vec<SensorNode>) -> SensorNode {
    SensorNode {
        hardware_id: None,
        sensor_id: None,
        value: String::new(),
        children,
    }
}

fn hardware(hardware_id: &str, children: Vec<SensorNode>) -> SensorNode {
    SensorNode {
        hardware_id: Some(String::from(hardware_id)),
        sensor_id: None,
        value: String::new(),
        children,
    }
}

#[test]
fn usage_string_parses_to_41_percent() {
    assert_eq!(parse_sensor_value("41 %"), Ok(LhmValue::Usage(41_000)));
}

#[test]
fn power_string_parses_to_120_watts() {
    assert_eq!(parse_sensor_value("120 W"), Ok(LhmValue::Power(120_000)));
}

#[test]
fn remaining_unit_suffixes_parse() {
    assert_eq!(
        parse_sensor_value("73.2 °C"),
        Ok(LhmValue::Temperature(73_200, TemperatureUnit::Celsius))
    );
    assert_eq!(
        parse_sensor_value("98.6 °F"),
        Ok(LhmValue::Temperature(98_600, TemperatureUnit::Fahrenheit))
    );
    assert_eq!(
        parse_sensor_value("4800 MHz"),
        Ok(LhmValue::Frequency(4_800_000))
    );
    assert_eq!(parse_sensor_value("1500 RPM"), Ok(LhmValue::Rpm(1_500_000)));
}

#[test]
fn unknown_suffix_yields_no_change_not_an_error() {
    assert_eq!(parse_sensor_value("5 XYZ"), Ok(LhmValue::Unknown));
    assert_eq!(parse_sensor_value("1 2 3"), Ok(LhmValue::Unknown));
    assert_eq!(parse_sensor_value("nounit"), Ok(LhmValue::Unknown));
    assert_eq!(parse_sensor_value(""), Ok(LhmValue::Unknown));
}

#[test]
fn known_suffix_with_malformed_number_is_an_error() {
    assert_eq!(parse_sensor_value("abc W"), Err(ValueError::InvalidNumber));
    assert_eq!(
        parse_sensor_value("12.5.3 %"),
        Err(ValueError::InvalidNumber)
    );
    assert_eq!(parse_sensor_value(". RPM"), Err(ValueError::InvalidNumber));
}

#[test]
fn negative_and_fractional_values_parse_exactly() {
    assert_eq!(
        parse_sensor_value("-12.5 °C"),
        Ok(LhmValue::Temperature(-12_500, TemperatureUnit::Celsius))
    );
    assert_eq!(parse_sensor_value("0.0005 W"), Ok(LhmValue::Power(0)));
    assert_eq!(parse_sensor_value("1.2345 W"), Ok(LhmValue::Power(1_234)));
    assert_eq!(parse_sensor_value("+7 W"), Ok(LhmValue::Power(7_000)));
    assert_eq!(parse_sensor_value("41. %"), Ok(LhmValue::Usage(41_000)));
    assert_eq!(parse_sensor_value(".5 %"), Ok(LhmValue::Usage(500)));
}

#[test]
fn out_of_range_and_exponent_numbers_are_errors() {
    assert_eq!(
        parse_sensor_value("1234567890123456 W"),
        Err(ValueError::InvalidNumber)
    );
    assert_eq!(parse_sensor_value("1e3 W"), Err(ValueError::InvalidNumber));
}

fn sample_tree() -> SensorNode {
    let cpu = hardware(
        "/amdcpu/0",
        vec![group(vec![
            leaf("/amdcpu/0/temperature/2", "73.2 °C"),
            leaf("/amdcpu/0/power/0", "120 W"),
            leaf("/amdcpu/0/load/0", "41 %"),
            leaf("/amdcpu/0/clock/2", "4800 MHz"),
        ])],
    );
    let gpu = hardware(
        "/gpu-nvidia/0",
        vec![group(vec![
            leaf("/gpu-nvidia/0/temperature/0", "70 °C"),
            leaf("/gpu-nvidia/0/power/0", "250 W"),
            leaf("/gpu-nvidia/0/load/0", "80 %"),
            leaf("/gpu-nvidia/0/clock/0", "2400 MHz"),
        ])],
    );
    let motherboard = hardware(
        "/motherboard",
        vec![group(vec![
            group(vec![]),
            group(vec![]),
            group(vec![leaf("/lpc/nct6701d/0/fan/1", "1500 RPM")]),
        ])],
    );
    let computer = group(vec![cpu, gpu, motherboard]);
    group(vec![computer])
}

#[test]
fn snapshot_walk_fills_every_metric() {
    let mut readings = SensorReadings::new(1000);
    let r = apply_snapshot(&mut readings, &sample_tree(), 9);
    assert_eq!(r, Ok(()));
    assert_eq!(readings.cpu_temp, 73_200);
    assert_eq!(readings.cpu_power, 120_000);
    assert_eq!(readings.cpu_usage, 41_000);
    assert_eq!(readings.cpu_freq, 4_800_000);
    assert_eq!(readings.cpu_cooler_rpm, 1_500_000);
    assert_eq!(readings.gpu_temp, 70_000);
    assert_eq!(readings.gpu_power, 250_000);
    assert_eq!(readings.gpu_usage, 80_000);
    assert_eq!(readings.gpu_freq, 2_400_000);
    assert_eq!(readings.elapsed_time_ms, 9);
    assert_eq!(readings.all_temperature_unit, TemperatureUnit::Celsius);
}

#[test]
fn empty_root_is_the_one_snapshot_error() {
    let mut readings = SensorReadings::new(1000);
    let before = readings;
    let r = apply_snapshot(&mut readings, &group(vec![]), 9);
    assert_eq!(r, Err(SnapshotError::NoComputerNode));
    assert_eq!(readings, before);
}

#[test]
fn unmatched_nodes_leave_previous_values() {
    let mut readings = SensorReadings::new(1000);
    readings.cpu_temp = 60_000;
    // a malformed temperature and an unknown suffix: both skipped
    let tree = group(vec![group(vec![hardware(
        "/amdcpu/0",
        vec![group(vec![
            leaf("/amdcpu/0/temperature/2", "bad °C"),
            leaf("/amdcpu/0/power/0", "120 Watts"),
        ])],
    )])]);
    assert_eq!(apply_snapshot(&mut readings, &tree, 0), Ok(()));
    assert_eq!(readings.cpu_temp, 60_000);
    assert_eq!(readings.cpu_power, 0);
}

#[test]
fn fahrenheit_reading_switches_the_unit() {
    let mut readings = SensorReadings::new(1000);
    let tree = group(vec![group(vec![hardware(
        "/amdcpu/0",
        vec![group(vec![leaf("/amdcpu/0/temperature/2", "167.9 °F")])],
    )])]);
    assert_eq!(apply_snapshot(&mut readings, &tree, 0), Ok(()));
    assert_eq!(readings.cpu_temp, 167_900);
    assert_eq!(readings.all_temperature_unit, TemperatureUnit::Fahrenheit);
}

#[test]
fn later_readings_overwrite_earlier_ones() {
    let mut readings = SensorReadings::new(1000);
    let tree = group(vec![group(vec![hardware(
        "/amdcpu/0",
        vec![group(vec![
            leaf("/amdcpu/0/power/0", "100 W"),
            leaf("/amdcpu/0/power/0", "110 W"),
        ])],
    )])]);
    assert_eq!(apply_snapshot(&mut readings, &tree, 0), Ok(()));
    assert_eq!(readings.cpu_power, 110_000);
}
