//! The display encoder: packet shape, checksum, group isolation,
//! determinism, and the binary32 temperature fields.

use ch170_display::binary32::milli_to_f32_bits;
use ch170_display::display::{DisplayMode, DisplayState};
use ch170_display::readings::{SensorReadings, TemperatureUnit};

fn sample_readings() -> SensorReadings {
    SensorReadings {
        cpu_temp: 75_500,
        cpu_power: 120_000,
        cpu_usage: 65_000,
        cpu_freq: 4_800_000,
        cpu_cooler_rpm: 1_500_000,
        gpu_temp: 70_000,
        gpu_power: 250_000,
        gpu_usage: 80_000,
        gpu_freq: 2_400_000,
        elapsed_time_ms: 7,
        polling_period: 1000,
        all_temperature_unit: TemperatureUnit::Celsius,
    }
}

fn checksum(packet: &[u8]) -> u8 {
    let sum: u32 = packet[1..40].iter().map(|&b| b as u32).sum();
    (sum % 256) as u8
}

#[test]
fn packet_is_64_bytes_with_checksum_in_every_mode() {
    let readings = sample_readings();
    let mut state = DisplayState::new();
    for _ in 0..3 {
        let packet = state.update(&readings);
        assert_eq!(packet.len(), 64);
        assert_eq!(packet[0], 16);
        assert_eq!(packet[40], checksum(&packet));
        assert_eq!(packet[41], 22);
        assert!(packet[42..].iter().all(|&b| b == 0));
        state.switch_mode();
    }
}

#[test]
fn packet_bytes_match_wire_layout() {
    let readings = sample_readings();
    let mut state = DisplayState::new();
    // mode cycle starts at CpuFrequency: only the CPU group is written
    let packet = state.update(&readings);
    let mut expected = vec![16u8, 104, 1, 6, 35, 1, 2];
    expected.extend_from_slice(&120u16.to_be_bytes());
    expected.push(0); // Celsius flag
    expected.extend_from_slice(&75.5f32.to_be_bytes());
    expected.push(65);
    expected.extend_from_slice(&4800u16.to_be_bytes());
    expected.extend_from_slice(&1500u16.to_be_bytes());
    // GPU group still zero: nothing wrote it yet
    expected.extend_from_slice(&[0; 9]);
    // auxiliary group and filler
    expected.extend_from_slice(&[0; 12]);
    let ck: u32 = expected[1..].iter().map(|&b| b as u32).sum();
    expected.push((ck % 256) as u8);
    expected.push(22);
    expected.extend_from_slice(&[0; 22]);
    assert_eq!(packet, expected);
}

#[test]
fn cpu_mode_update_leaves_gpu_bytes_identical() {
    let mut state = DisplayState::new();
    state.mode = DisplayMode::Gpu;
    let first = state.update(&sample_readings());
    // move to a CPU-only mode and update with different GPU metrics
    state.mode = DisplayMode::CpuFan;
    let mut changed = sample_readings();
    changed.gpu_temp = 99_000;
    changed.gpu_power = 1_000;
    changed.gpu_usage = 1_000;
    changed.gpu_freq = 1_000;
    changed.cpu_usage = 10_000;
    let second = state.update(&changed);
    assert_eq!(second[19..28], first[19..28]);
    // the CPU usage byte did change
    assert_eq!(second[14], 10);
}

#[test]
fn gpu_mode_update_leaves_cpu_bytes_identical() {
    let mut state = DisplayState::new();
    state.mode = DisplayMode::CpuFrequency;
    let first = state.update(&sample_readings());
    state.mode = DisplayMode::Gpu;
    let mut changed = sample_readings();
    changed.cpu_temp = 1_000;
    changed.cpu_power = 1_000;
    changed.cpu_usage = 1_000;
    changed.cpu_freq = 1_000;
    changed.cpu_cooler_rpm = 1_000;
    let second = state.update(&changed);
    assert_eq!(second[7..19], first[7..19]);
    // the GPU usage byte did change
    assert_eq!(second[25], 80);
}

#[test]
fn update_is_deterministic() {
    let readings = sample_readings();
    let mut state = DisplayState::new();
    let first = state.update(&readings);
    let second = state.update(&readings);
    assert_eq!(first, second);

    let mut other = DisplayState::new();
    assert_eq!(other.update(&readings), first);
}

#[test]
fn mode_cycle_is_fixed() {
    let mut mode = DisplayMode::CpuFrequency;
    assert!(mode.includes_cpu());
    assert!(!mode.includes_gpu());
    mode.next();
    assert_eq!(mode, DisplayMode::Gpu);
    assert!(!mode.includes_cpu());
    assert!(mode.includes_gpu());
    mode.next();
    assert_eq!(mode, DisplayMode::CpuFan);
    assert!(mode.includes_cpu());
    mode.next();
    assert_eq!(mode, DisplayMode::CpuFrequency);
    assert_eq!(DisplayMode::default(), DisplayMode::CpuFrequency);
}

#[test]
fn mode_tags_match_protocol() {
    assert_eq!(DisplayMode::CpuFrequency.tag(), 2);
    assert_eq!(DisplayMode::CpuFan.tag(), 3);
    assert_eq!(DisplayMode::Gpu.tag(), 4);
}

#[test]
fn binary32_bits_match_ieee() {
    for &m in &[
        0i64, 1, -1, 500, -500, 75_500, 70_000, 73_200, 98_600, 123_456, 999_999,
        1_000_000, -1_000_000, 2_000_000_000, 123_456_789_012,
    ] {
        let expected = ((m as f64) / 1000.0) as f32;
        assert_eq!(
            milli_to_f32_bits(m),
            expected.to_bits(),
            "wrong bits for {} milli",
            m
        );
    }
    assert_eq!(milli_to_f32_bits(75_500), 75.5f32.to_bits());
    assert_eq!(milli_to_f32_bits(0), 0);
}

#[test]
fn rounding_into_wire_fields_saturates() {
    let mut state = DisplayState::new();
    let mut readings = sample_readings();
    readings.cpu_power = 99_999_000; // beyond the u16 field
    readings.cpu_usage = -5_000; // negative usage saturates at zero
    readings.cpu_freq = 1_499; // rounds to 1
    readings.cpu_cooler_rpm = 1_500; // rounds half away from zero to 2
    let packet = state.update(&readings);
    assert_eq!(&packet[7..9], &0xffffu16.to_be_bytes());
    assert_eq!(packet[14], 0);
    assert_eq!(&packet[15..17], &1u16.to_be_bytes());
    assert_eq!(&packet[17..19], &2u16.to_be_bytes());
}
