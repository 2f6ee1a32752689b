//! The canonical telemetry record shared by every source and the display
//! encoder.

use vstd::prelude::*;

verus! {

/// Temperature scale reported by a telemetry source.
#[derive(Debug, Clone, Copy, PartialEq, Eq, Structural)]
pub enum TemperatureUnit {
    Celsius,
    Fahrenheit,
}

/// The letter printed after a degree sign for the given scale.
pub open spec fn spec_unit_str(u: TemperatureUnit) -> Seq<char> {
    match u {
        TemperatureUnit::Celsius => "C"@,
        TemperatureUnit::Fahrenheit => "F"@,
    }
}

impl TemperatureUnit {
    /// Short name of the scale, as printed after a degree sign.
    pub fn to_str(&self) -> (r: &'static str)
        ensures
            r@ == spec_unit_str(*self),
    {
        match self {
            TemperatureUnit::Celsius => "C",
            TemperatureUnit::Fahrenheit => "F",
        }
    }
}

/// Canonical, provider-agnostic metric record.
///
/// Real-valued metrics are stored as exact fixed-point integers in
/// thousandths of the metric's unit (milli-degrees, milli-watts,
/// milli-percent, milli-megahertz, milli-rpm), so that comparing, averaging
/// and encoding stay exact integer work.
///
/// Every metric field holds the last successfully observed value; a metric a
/// source never reports keeps its previous value.  A source creates the
/// record once with neutral defaults and overwrites it in place on every
/// poll.
#[derive(Debug, Clone, Copy, PartialEq, Eq, Structural)]
pub struct SensorReadings {
    pub cpu_temp: i64,
    pub cpu_power: i64,
    pub cpu_usage: i64,
    pub cpu_freq: i64,
    pub cpu_cooler_rpm: i64,
    pub gpu_temp: i64,
    pub gpu_power: i64,
    pub gpu_usage: i64,
    pub gpu_freq: i64,
    pub elapsed_time_ms: u64,
    pub polling_period: u32,
    pub all_temperature_unit: TemperatureUnit,
}

/// The slowest polling rate a source may impose, in milliseconds: a reported
/// period below this is raised to it, so a corrupt or unreasonable source
/// value cannot make the polling loop spin arbitrarily fast.
pub const MIN_POLLING_PERIOD_MS: u32 = 250;

/// True when the two records agree on every observed metric and on the
/// temperature scale.  The acquisition time and the polling period are left
/// out: they describe the poll, not the sensors, and must not hide a frozen
/// upstream source.
pub open spec fn same_metrics(a: SensorReadings, b: SensorReadings) -> bool {
    &&& a.cpu_temp == b.cpu_temp
    &&& a.cpu_power == b.cpu_power
    &&& a.cpu_usage == b.cpu_usage
    &&& a.cpu_freq == b.cpu_freq
    &&& a.cpu_cooler_rpm == b.cpu_cooler_rpm
    &&& a.gpu_temp == b.gpu_temp
    &&& a.gpu_power == b.gpu_power
    &&& a.gpu_usage == b.gpu_usage
    &&& a.gpu_freq == b.gpu_freq
    &&& a.all_temperature_unit == b.all_temperature_unit
}

/// The polling period offered to the orchestrator: the source-reported value,
/// raised to `MIN_POLLING_PERIOD_MS` when the source reports less.
pub open spec fn spec_clamped_period(p: u32) -> u32 {
    if p < MIN_POLLING_PERIOD_MS {
        MIN_POLLING_PERIOD_MS
    } else {
        p
    }
}

impl SensorReadings {
    /// The neutral record a source starts from: every metric zero, Celsius,
    /// and the period the source reports.
    pub open spec fn spec_initial(polling_period: u32) -> SensorReadings {
        SensorReadings {
            cpu_temp: 0,
            cpu_power: 0,
            cpu_usage: 0,
            cpu_freq: 0,
            cpu_cooler_rpm: 0,
            gpu_temp: 0,
            gpu_power: 0,
            gpu_usage: 0,
            gpu_freq: 0,
            elapsed_time_ms: 0,
            polling_period,
            all_temperature_unit: TemperatureUnit::Celsius,
        }
    }

    /// The neutral record a source starts from.
    pub fn new(polling_period: u32) -> (r: SensorReadings)
        ensures
            r == SensorReadings::spec_initial(polling_period),
    {
        SensorReadings {
            cpu_temp: 0,
            cpu_power: 0,
            cpu_usage: 0,
            cpu_freq: 0,
            cpu_cooler_rpm: 0,
            gpu_temp: 0,
            gpu_power: 0,
            gpu_usage: 0,
            gpu_freq: 0,
            elapsed_time_ms: 0,
            polling_period,
            all_temperature_unit: TemperatureUnit::Celsius,
        }
    }

    /// True when `other` agrees with `self` on every metric and on the
    /// temperature scale (acquisition time and polling period excluded).
    pub fn metrics_equal(&self, other: &SensorReadings) -> (r: bool)
        ensures
            r == same_metrics(*self, *other),
    {
        self.cpu_temp == other.cpu_temp && self.cpu_power == other.cpu_power
            && self.cpu_usage == other.cpu_usage && self.cpu_freq == other.cpu_freq
            && self.cpu_cooler_rpm == other.cpu_cooler_rpm && self.gpu_temp == other.gpu_temp
            && self.gpu_power == other.gpu_power && self.gpu_usage == other.gpu_usage
            && self.gpu_freq == other.gpu_freq
            && self.all_temperature_unit == other.all_temperature_unit
    }

    /// The interval the orchestrator should sleep between polls, never below
    /// the safety floor.
    pub fn polling_period(&self) -> (r: u32)
        ensures
            r == spec_clamped_period(self.polling_period),
    {
        if self.polling_period < MIN_POLLING_PERIOD_MS {
            MIN_POLLING_PERIOD_MS
        } else {
            self.polling_period
        }
    }
}

} // verus!
