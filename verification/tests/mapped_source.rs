//! The shared-memory variant: header validation, the bounds-checked sweep,
//! per-core clock averaging, and the staleness heuristic.

use ch170_display::mapped::{
    reading_table_offset, validate_header, MappedSource, ReadingRecord, RegionHeader, SensorInfo,
    SourceError,
};

fn header(sensor_count: u32) -> RegionHeader {
    RegionHeader {
        signature: 0x53_69_57_48,
        version: 4,
        revision: 2,
        last_poll_time: 0,
        sensor_section_offset: 88,
        sensor_element_size: 660,
        sensor_count,
        reading_section_offset: 748,
        reading_element_size: 1100,
        reading_count: 0,
        polling_period: 1000,
    }
}

fn cpu_sensor() -> SensorInfo {
    SensorInfo {
        id: 1,
        instance: 0,
        name: String::from("CPU [#0]: AMD Ryzen 9 9950X: Enhanced"),
    }
}

fn source_with(sensors: Vec<SensorInfo>) -> MappedSource {
    MappedSource::init(&header(sensors.len() as u32), sensors).unwrap()
}

fn reading(index: usize, label: &str, value_milli: i64) -> ReadingRecord {
    ReadingRecord {
        sensor_index: index,
        label: String::from(label),
        value_milli,
    }
}

#[test]
fn header_with_zero_sensors_is_rejected() {
    assert_eq!(validate_header(&header(0)), Err(SourceError::ZeroSensors));
}

#[test]
fn header_with_implausible_sensor_count_is_rejected() {
    assert_eq!(
        validate_header(&header(100_000)),
        Err(SourceError::SensorCountTooLarge)
    );
    assert_eq!(validate_header(&header(40)), Ok(()));
}

#[test]
fn init_rejects_sensor_table_shorter_than_promised() {
    let r = MappedSource::init(&header(2), vec![cpu_sensor()]);
    assert!(matches!(r, Err(SourceError::SensorTableMismatch)));
}

#[test]
fn reading_table_follows_sensor_table() {
    assert_eq!(reading_table_offset(&header(40)), 88 + 40 * 660);
}

#[test]
fn named_cpu_temperature_reading_fills_cpu_temp() {
    let mut source = source_with(vec![cpu_sensor()]);
    let table = vec![reading(0, "CPU (Tctl/Tdie)", 75_500)];
    source.apply_readings(&table, 3);
    assert_eq!(source.readings.cpu_temp, 75_500);
    assert_eq!(source.readings.elapsed_time_ms, 3);
}

#[test]
fn per_core_clocks_average_into_cpu_freq() {
    let mut source = source_with(vec![cpu_sensor()]);
    let table = vec![
        reading(0, "Core 0 Clock", 4_700_000),
        reading(0, "Core 1 Clock", 4_900_000),
    ];
    source.apply_readings(&table, 0);
    assert_eq!(source.readings.cpu_freq, 4_800_000);
}

#[test]
fn clock_average_rounds_to_nearest_milli() {
    let mut source = source_with(vec![cpu_sensor()]);
    let table = vec![
        reading(0, "Core 0 Clock", 4_700_001),
        reading(0, "Core 1 Clock", 4_700_002),
        reading(0, "Core 2 Clock", 4_700_002),
    ];
    source.apply_readings(&table, 0);
    // mean 4_700_001.66... rounds to 4_700_002
    assert_eq!(source.readings.cpu_freq, 4_700_002);
}

#[test]
fn out_of_bounds_sensor_index_is_skipped() {
    let mut source = source_with(vec![cpu_sensor()]);
    let before = source.readings;
    let table = vec![
        reading(7, "CPU (Tctl/Tdie)", 99_000),
        reading(usize::MAX, "CPU Package Power", 99_000),
    ];
    source.apply_readings(&table, 1);
    assert_eq!(source.readings.cpu_temp, before.cpu_temp);
    assert_eq!(source.readings.cpu_power, before.cpu_power);
}

#[test]
fn a_bad_index_does_not_abort_the_rest_of_the_sweep() {
    let mut source = source_with(vec![cpu_sensor()]);
    let table = vec![
        reading(9, "CPU (Tctl/Tdie)", 11_000),
        reading(0, "CPU (Tctl/Tdie)", 75_500),
    ];
    source.apply_readings(&table, 0);
    assert_eq!(source.readings.cpu_temp, 75_500);
}

#[test]
fn full_reading_table_fills_every_metric() {
    let gpu = SensorInfo {
        id: 2,
        instance: 0,
        name: String::from("GPU [#0]: NVIDIA GeForce RTX 4080"),
    };
    let board = SensorInfo {
        id: 3,
        instance: 0,
        name: String::from("ASUS ROG STRIX B650E-F"),
    };
    let mut source = source_with(vec![cpu_sensor(), gpu, board]);
    let table = vec![
        reading(0, "CPU (Tctl/Tdie)", 75_500),
        reading(0, "CPU Package Power", 120_000),
        reading(0, "Total CPU Usage", 65_000),
        reading(0, "Core 0 Clock", 4_800_000),
        reading(2, "CPU Fan", 1_500_000),
        reading(1, "GPU Temperature", 70_000),
        reading(1, "GPU Power", 250_000),
        reading(1, "GPU Core Load", 80_000),
        reading(1, "GPU Clock", 2_400_000),
        reading(0, "Something Unknown", 1),
    ];
    source.apply_readings(&table, 12);
    let r = &source.readings;
    assert_eq!(
        (r.cpu_temp, r.cpu_power, r.cpu_usage, r.cpu_freq, r.cpu_cooler_rpm),
        (75_500, 120_000, 65_000, 4_800_000, 1_500_000)
    );
    assert_eq!(
        (r.gpu_temp, r.gpu_power, r.gpu_usage, r.gpu_freq),
        (70_000, 250_000, 80_000, 2_400_000)
    );
    assert_eq!(r.elapsed_time_ms, 12);
}

#[test]
fn five_unchanged_polls_demand_a_reconnect() {
    let mut source = source_with(vec![cpu_sensor()]);
    let frozen = vec![reading(0, "CPU (Tctl/Tdie)", 75_500)];
    // the first poll changes the record (zero -> 75.5), later ones do not
    source.apply_readings(&frozen, 0);
    assert_eq!(source.stale_polls, 0);
    for n in 1..=4 {
        source.apply_readings(&frozen, n);
        assert_eq!(source.stale_polls, n as u32);
        assert!(!source.needs_reconnect());
    }
    source.apply_readings(&frozen, 5);
    assert_eq!(source.stale_polls, 5);
    assert!(source.needs_reconnect());
}

#[test]
fn metric_movement_resets_the_staleness_counter() {
    let mut source = source_with(vec![cpu_sensor()]);
    let frozen: Vec<ReadingRecord> = vec![];
    for _ in 0..3 {
        source.apply_readings(&frozen, 0);
    }
    assert_eq!(source.stale_polls, 3);
    source.apply_readings(&vec![reading(0, "CPU (Tctl/Tdie)", 60_000)], 0);
    assert_eq!(source.stale_polls, 0);
    assert!(!source.needs_reconnect());
}

#[test]
fn elapsed_time_alone_does_not_mask_staleness() {
    let mut source = source_with(vec![cpu_sensor()]);
    source.apply_readings(&vec![], 1);
    source.apply_readings(&vec![], 2);
    // a changing acquisition time is not metric movement
    assert_eq!(source.stale_polls, 2);
}
