//! The HTTP-polling telemetry variant.
//!
//! A local monitoring service answers a GET with a JSON tree of hardware
//! nodes; the shell that issues the request parses the document into plain
//! `SensorNode` values — identifier paths and raw value strings — and hands
//! the tree here.  This module owns the walk: the fixed identifier paths
//! that route a node's value into the canonical record, and the parsing of
//! the unit-suffixed value strings.  An individual node that fails to match
//! or parse leaves its field unchanged and never aborts the sweep; only a
//! document with no computer node at all fails the call.

use crate::fixed::{decimal_milli, valid_decimal};
use crate::readings::{SensorReadings, TemperatureUnit};
use crate::text::{char_index, find_first, str_eq};
use vstd::prelude::*;
use vstd::string::StrSliceExecFns;

verus! {

/// A sensor value as the monitoring service writes it: a number and a unit
/// suffix, the unit telling which kind of metric the value is.
#[derive(Debug, Clone, Copy, PartialEq, Eq, Structural)]
pub enum LhmValue {
    Temperature(i64, TemperatureUnit),
    Power(i64),
    Usage(i64),
    Frequency(i64),
    Rpm(i64),
    /// No unit suffix, or one the table does not know: the value updates
    /// nothing.
    Unknown,
}

/// A value string with a known unit suffix but an unreadable number.
#[derive(Debug, Clone, Copy, PartialEq, Eq, Structural)]
pub enum ValueError {
    InvalidNumber,
}

/// What `parse_sensor_value` returns: the string split at its first space;
/// a known unit suffix selects the metric kind and demands a well-formed
/// decimal number, an unknown or missing suffix yields `Unknown`.
pub open spec fn spec_parse_value(s: Seq<char>) -> Result<LhmValue, ValueError> {
    let sp = char_index(s, ' ');
    if sp >= s.len() {
        Ok(LhmValue::Unknown)
    } else {
        let num = s.take(sp);
        let unit = s.skip(sp + 1);
        if unit == "°C"@ {
            if valid_decimal(num) {
                Ok(LhmValue::Temperature(decimal_milli(num) as i64, TemperatureUnit::Celsius))
            } else {
                Err(ValueError::InvalidNumber)
            }
        } else if unit == "°F"@ {
            if valid_decimal(num) {
                Ok(LhmValue::Temperature(decimal_milli(num) as i64, TemperatureUnit::Fahrenheit))
            } else {
                Err(ValueError::InvalidNumber)
            }
        } else if unit == "W"@ {
            if valid_decimal(num) {
                Ok(LhmValue::Power(decimal_milli(num) as i64))
            } else {
                Err(ValueError::InvalidNumber)
            }
        } else if unit == "%"@ {
            if valid_decimal(num) {
                Ok(LhmValue::Usage(decimal_milli(num) as i64))
            } else {
                Err(ValueError::InvalidNumber)
            }
        } else if unit == "MHz"@ {
            if valid_decimal(num) {
                Ok(LhmValue::Frequency(decimal_milli(num) as i64))
            } else {
                Err(ValueError::InvalidNumber)
            }
        } else if unit == "RPM"@ {
            if valid_decimal(num) {
                Ok(LhmValue::Rpm(decimal_milli(num) as i64))
            } else {
                Err(ValueError::InvalidNumber)
            }
        } else {
            Ok(LhmValue::Unknown)
        }
    }
}

/// Parse one unit-suffixed sensor value, exactly as `spec_parse_value`
/// says.
pub fn parse_sensor_value(s: &str) -> (r: Result<LhmValue, ValueError>)
    ensures
        r == spec_parse_value(s@),
{
    let n = s.unicode_len();
    let sp = find_first(s, ' ');
    if sp >= n {
        return Ok(LhmValue::Unknown);
    }
    let num = s.substring_char(0, sp);
    let unit = s.substring_char(sp + 1, n);
    proof {
        assert(num@ =~= s@.take(char_index(s@, ' ')));
        assert(unit@ =~= s@.skip(char_index(s@, ' ') + 1));
    }
    if str_eq(unit, "°C") {
        match crate::fixed::parse_milli(num) {
            Some(v) => Ok(LhmValue::Temperature(v, TemperatureUnit::Celsius)),
            None => Err(ValueError::InvalidNumber),
        }
    } else if str_eq(unit, "°F") {
        match crate::fixed::parse_milli(num) {
            Some(v) => Ok(LhmValue::Temperature(v, TemperatureUnit::Fahrenheit)),
            None => Err(ValueError::InvalidNumber),
        }
    } else if str_eq(unit, "W") {
        match crate::fixed::parse_milli(num) {
            Some(v) => Ok(LhmValue::Power(v)),
            None => Err(ValueError::InvalidNumber),
        }
    } else if str_eq(unit, "%") {
        match crate::fixed::parse_milli(num) {
            Some(v) => Ok(LhmValue::Usage(v)),
            None => Err(ValueError::InvalidNumber),
        }
    } else if str_eq(unit, "MHz") {
        match crate::fixed::parse_milli(num) {
            Some(v) => Ok(LhmValue::Frequency(v)),
            None => Err(ValueError::InvalidNumber),
        }
    } else if str_eq(unit, "RPM") {
        match crate::fixed::parse_milli(num) {
            Some(v) => Ok(LhmValue::Rpm(v)),
            None => Err(ValueError::InvalidNumber),
        }
    } else {
        Ok(LhmValue::Unknown)
    }
}

/// One node of the service's JSON tree, as plain values: the identifier
/// paths that route it, its raw value string, and its children.
#[derive(Debug)]
pub struct SensorNode {
    pub hardware_id: Option<String>,
    pub sensor_id: Option<String>,
    pub value: String,
    pub children: Vec<SensorNode>,
}

/// The walk found no computer node under the document root.
#[derive(Debug, Clone, Copy, PartialEq, Eq, Structural)]
pub enum SnapshotError {
    NoComputerNode,
}

/// What one CPU sensor node contributes: the field its identifier path
/// selects, when its value parses to the matching metric kind.
pub open spec fn apply_cpu_sensor(r: SensorReadings, node: SensorNode) -> SensorReadings {
    match node.sensor_id {
        Some(id) => {
            let pv = spec_parse_value(node.value@);
            if id@ == "/amdcpu/0/temperature/2"@ {
                match pv {
                    Ok(LhmValue::Temperature(v, u)) => SensorReadings {
                        cpu_temp: v,
                        all_temperature_unit: u,
                        ..r
                    },
                    _ => r,
                }
            } else if id@ == "/amdcpu/0/clock/2"@ {
                match pv {
                    Ok(LhmValue::Frequency(v)) => SensorReadings { cpu_freq: v, ..r },
                    _ => r,
                }
            } else if id@ == "/amdcpu/0/power/0"@ {
                match pv {
                    Ok(LhmValue::Power(v)) => SensorReadings { cpu_power: v, ..r },
                    _ => r,
                }
            } else if id@ == "/amdcpu/0/load/0"@ {
                match pv {
                    Ok(LhmValue::Usage(v)) => SensorReadings { cpu_usage: v, ..r },
                    _ => r,
                }
            } else {
                r
            }
        },
        None => r,
    }
}

/// A run of CPU sensor nodes, applied in order.
pub open spec fn apply_cpu_sensors(r: SensorReadings, nodes: Seq<SensorNode>) -> SensorReadings
    decreases nodes.len(),
{
    if nodes.len() == 0 {
        r
    } else {
        apply_cpu_sensor(apply_cpu_sensors(r, nodes.drop_last()), nodes.last())
    }
}

/// The CPU hardware node: every sensor of every subnode, in order.
pub open spec fn apply_cpu_group(r: SensorReadings, subs: Seq<SensorNode>) -> SensorReadings
    decreases subs.len(),
{
    if subs.len() == 0 {
        r
    } else {
        apply_cpu_sensors(apply_cpu_group(r, subs.drop_last()), subs.last().children@)
    }
}

/// What one GPU sensor node contributes.
pub open spec fn apply_gpu_sensor(r: SensorReadings, node: SensorNode) -> SensorReadings {
    match node.sensor_id {
        Some(id) => {
            let pv = spec_parse_value(node.value@);
            if id@ == "/gpu-nvidia/0/temperature/0"@ {
                match pv {
                    Ok(LhmValue::Temperature(v, u)) => SensorReadings {
                        gpu_temp: v,
                        all_temperature_unit: u,
                        ..r
                    },
                    _ => r,
                }
            } else if id@ == "/gpu-nvidia/0/clock/0"@ {
                match pv {
                    Ok(LhmValue::Frequency(v)) => SensorReadings { gpu_freq: v, ..r },
                    _ => r,
                }
            } else if id@ == "/gpu-nvidia/0/power/0"@ {
                match pv {
                    Ok(LhmValue::Power(v)) => SensorReadings { gpu_power: v, ..r },
                    _ => r,
                }
            } else if id@ == "/gpu-nvidia/0/load/0"@ {
                match pv {
                    Ok(LhmValue::Usage(v)) => SensorReadings { gpu_usage: v, ..r },
                    _ => r,
                }
            } else {
                r
            }
        },
        None => r,
    }
}

/// A run of GPU sensor nodes, applied in order.
pub open spec fn apply_gpu_sensors(r: SensorReadings, nodes: Seq<SensorNode>) -> SensorReadings
    decreases nodes.len(),
{
    if nodes.len() == 0 {
        r
    } else {
        apply_gpu_sensor(apply_gpu_sensors(r, nodes.drop_last()), nodes.last())
    }
}

/// The GPU hardware node: every sensor of every subnode, in order.
pub open spec fn apply_gpu_group(r: SensorReadings, subs: Seq<SensorNode>) -> SensorReadings
    decreases subs.len(),
{
    if subs.len() == 0 {
        r
    } else {
        apply_gpu_sensors(apply_gpu_group(r, subs.drop_last()), subs.last().children@)
    }
}

/// What one motherboard fan sensor contributes: the CPU cooler speed, when
/// the fixed fan path matches and the value is a fan speed.
pub open spec fn apply_mb_sensor(r: SensorReadings, node: SensorNode) -> SensorReadings {
    match node.sensor_id {
        Some(id) => {
            if id@ == "/lpc/nct6701d/0/fan/1"@ {
                match spec_parse_value(node.value@) {
                    Ok(LhmValue::Rpm(v)) => SensorReadings { cpu_cooler_rpm: v, ..r },
                    _ => r,
                }
            } else {
                r
            }
        },
        None => r,
    }
}

/// A run of motherboard fan sensors, applied in order.
pub open spec fn apply_mb_sensors(r: SensorReadings, nodes: Seq<SensorNode>) -> SensorReadings
    decreases nodes.len(),
{
    if nodes.len() == 0 {
        r
    } else {
        apply_mb_sensor(apply_mb_sensors(r, nodes.drop_last()), nodes.last())
    }
}

/// The motherboard hardware node: the fan block sits under the first child,
/// as its third child; a tree without that shape contributes nothing.
pub open spec fn apply_motherboard(r: SensorReadings, hw: SensorNode) -> SensorReadings {
    if hw.children@.len() == 0 {
        r
    } else if hw.children@[0].children@.len() <= 2 {
        r
    } else {
        apply_mb_sensors(r, hw.children@[0].children@[2].children@)
    }
}

/// What one hardware node contributes, routed by its identifier path.
pub open spec fn apply_hardware(r: SensorReadings, hw: SensorNode) -> SensorReadings {
    match hw.hardware_id {
        Some(id) => {
            if id@ == "/motherboard"@ {
                apply_motherboard(r, hw)
            } else if id@ == "/amdcpu/0"@ {
                apply_cpu_group(r, hw.children@)
            } else if id@ == "/gpu-nvidia/0"@ {
                apply_gpu_group(r, hw.children@)
            } else {
                r
            }
        },
        None => r,
    }
}

/// The computer node's hardware list, applied in order.
pub open spec fn apply_hardware_list(r: SensorReadings, hws: Seq<SensorNode>) -> SensorReadings
    decreases hws.len(),
{
    if hws.len() == 0 {
        r
    } else {
        apply_hardware(apply_hardware_list(r, hws.drop_last()), hws.last())
    }
}

/// What one snapshot does to the record: the whole walk under the first
/// child of the root — the computer node — and the acquisition time; a
/// root without children is the one failure.
pub open spec fn spec_apply_snapshot(
    prev: SensorReadings,
    root: SensorNode,
    elapsed_ms: u64,
) -> Result<SensorReadings, SnapshotError> {
    if root.children@.len() == 0 {
        Err(SnapshotError::NoComputerNode)
    } else {
        Ok(
            SensorReadings {
                elapsed_time_ms: elapsed_ms,
                ..apply_hardware_list(prev, root.children@[0].children@)
            },
        )
    }
}

/// Walk one snapshot of the service's tree and fill the canonical record,
/// exactly as `spec_apply_snapshot` says.  A node that fails to match or
/// parse leaves its field unchanged; on the one failure — no computer node
/// — the record is left untouched.
#[verifier::rlimit(60)]
pub fn apply_snapshot(readings: &mut SensorReadings, root: &SensorNode, elapsed_ms: u64) -> (r:
    Result<(), SnapshotError>)
    ensures
        spec_apply_snapshot(*old(readings), *root, elapsed_ms) matches Ok(next) ==> r is Ok
            && *final(readings) == next,
        spec_apply_snapshot(*old(readings), *root, elapsed_ms) is Err ==> r
            == Result::<(), SnapshotError>::Err(SnapshotError::NoComputerNode) && *final(readings)
            == *old(readings),
{
    if root.children.len() == 0 {
        return Err(SnapshotError::NoComputerNode);
    }
    let computer = &root.children[0];
    let mut cur = *readings;
    let mut h: usize = 0;
    while h < computer.children.len()
        invariant
            h <= computer.children@.len(),
            computer == &root.children@[0],
            cur == apply_hardware_list(*old(readings), computer.children@.take(h as int)),
        decreases computer.children@.len() - h,
    {
        proof {
            assert(computer.children@.take(h + 1).drop_last() =~= computer.children@.take(
                h as int,
            ));
            assert(computer.children@.take(h + 1).last() == computer.children@[h as int]);
        }
        let ghost before = cur;
        let hw = &computer.children[h];
        match &hw.hardware_id {
            Some(id) => {
                if str_eq(id.as_str(), "/motherboard") {
                    if hw.children.len() > 0 {
                        let mb = &hw.children[0];
                        if mb.children.len() > 2 {
                            let fans = &mb.children[2];
                            let mut s: usize = 0;
                            while s < fans.children.len()
                                invariant
                                    s <= fans.children@.len(),
                                    fans == &hw.children@[0].children@[2],
                                    cur == apply_mb_sensors(
                                        before,
                                        fans.children@.take(s as int),
                                    ),
                                decreases fans.children@.len() - s,
                            {
                                proof {
                                    assert(fans.children@.take(s + 1).drop_last()
                                        =~= fans.children@.take(s as int));
                                    assert(fans.children@.take(s + 1).last()
                                        == fans.children@[s as int]);
                                }
                                let sensor = &fans.children[s];
                                match &sensor.sensor_id {
                                    Some(sid) => {
                                        if str_eq(sid.as_str(), "/lpc/nct6701d/0/fan/1") {
                                            match parse_sensor_value(sensor.value.as_str()) {
                                                Ok(LhmValue::Rpm(v)) => {
                                                    cur.cpu_cooler_rpm = v;
                                                },
                                                _ => {},
                                            }
                                        }
                                    },
                                    None => {},
                                }
                                s = s + 1;
                            }
                            proof {
                                assert(fans.children@.take(fans.children@.len() as int)
                                    =~= fans.children@);
                            }
                        }
                    }
                    assert(cur == apply_motherboard(before, *hw));
                } else if str_eq(id.as_str(), "/amdcpu/0") {
                    let mut u: usize = 0;
                    while u < hw.children.len()
                        invariant
                            u <= hw.children@.len(),
                            hw == &computer.children@[h as int],
                            h < computer.children@.len(),
                            computer == &root.children@[0],
                            cur == apply_cpu_group(before, hw.children@.take(u as int)),
                        decreases hw.children@.len() - u,
                    {
                        proof {
                            assert(hw.children@.take(u + 1).drop_last() =~= hw.children@.take(
                                u as int,
                            ));
                            assert(hw.children@.take(u + 1).last() == hw.children@[u as int]);
                        }
                        let ghost group_base = cur;
                        let sub = &hw.children[u];
                        let mut s: usize = 0;
                        while s < sub.children.len()
                            invariant
                                s <= sub.children@.len(),
                                sub == &hw.children@[u as int],
                                u < hw.children@.len(),
                                cur == apply_cpu_sensors(group_base, sub.children@.take(s as int)),
                            decreases sub.children@.len() - s,
                        {
                            proof {
                                assert(sub.children@.take(s + 1).drop_last()
                                    =~= sub.children@.take(s as int));
                                assert(sub.children@.take(s + 1).last()
                                    == sub.children@[s as int]);
                            }
                            let sensor = &sub.children[s];
                            match &sensor.sensor_id {
                                Some(sid) => {
                                    let sids = sid.as_str();
                                    if str_eq(sids, "/amdcpu/0/temperature/2") {
                                        match parse_sensor_value(sensor.value.as_str()) {
                                            Ok(LhmValue::Temperature(v, unit)) => {
                                                cur.cpu_temp = v;
                                                cur.all_temperature_unit = unit;
                                            },
                                            _ => {},
                                        }
                                    } else if str_eq(sids, "/amdcpu/0/clock/2") {
                                        match parse_sensor_value(sensor.value.as_str()) {
                                            Ok(LhmValue::Frequency(v)) => {
                                                cur.cpu_freq = v;
                                            },
                                            _ => {},
                                        }
                                    } else if str_eq(sids, "/amdcpu/0/power/0") {
                                        match parse_sensor_value(sensor.value.as_str()) {
                                            Ok(LhmValue::Power(v)) => {
                                                cur.cpu_power = v;
                                            },
                                            _ => {},
                                        }
                                    } else if str_eq(sids, "/amdcpu/0/load/0") {
                                        match parse_sensor_value(sensor.value.as_str()) {
                                            Ok(LhmValue::Usage(v)) => {
                                                cur.cpu_usage = v;
                                            },
                                            _ => {},
                                        }
                                    }
                                },
                                None => {},
                            }
                            s = s + 1;
                        }
                        proof {
                            assert(sub.children@.take(sub.children@.len() as int)
                                =~= sub.children@);
                        }
                        u = u + 1;
                    }
                    proof {
                        assert(hw.children@.take(hw.children@.len() as int) =~= hw.children@);
                    }
                    assert(cur == apply_cpu_group(before, hw.children@));
                } else if str_eq(id.as_str(), "/gpu-nvidia/0") {
                    let mut u: usize = 0;
                    while u < hw.children.len()
                        invariant
                            u <= hw.children@.len(),
                            hw == &computer.children@[h as int],
                            h < computer.children@.len(),
                            computer == &root.children@[0],
                            cur == apply_gpu_group(before, hw.children@.take(u as int)),
                        decreases hw.children@.len() - u,
                    {
                        proof {
                            assert(hw.children@.take(u + 1).drop_last() =~= hw.children@.take(
                                u as int,
                            ));
                            assert(hw.children@.take(u + 1).last() == hw.children@[u as int]);
                        }
                        let ghost group_base = cur;
                        let sub = &hw.children[u];
                        let mut s: usize = 0;
                        while s < sub.children.len()
                            invariant
                                s <= sub.children@.len(),
                                sub == &hw.children@[u as int],
                                u < hw.children@.len(),
                                cur == apply_gpu_sensors(group_base, sub.children@.take(s as int)),
                            decreases sub.children@.len() - s,
                        {
                            proof {
                                assert(sub.children@.take(s + 1).drop_last()
                                    =~= sub.children@.take(s as int));
                                assert(sub.children@.take(s + 1).last()
                                    == sub.children@[s as int]);
                            }
                            let sensor = &sub.children[s];
                            match &sensor.sensor_id {
                                Some(sid) => {
                                    let sids = sid.as_str();
                                    if str_eq(sids, "/gpu-nvidia/0/temperature/0") {
                                        match parse_sensor_value(sensor.value.as_str()) {
                                            Ok(LhmValue::Temperature(v, unit)) => {
                                                cur.gpu_temp = v;
                                                cur.all_temperature_unit = unit;
                                            },
                                            _ => {},
                                        }
                                    } else if str_eq(sids, "/gpu-nvidia/0/clock/0") {
                                        match parse_sensor_value(sensor.value.as_str()) {
                                            Ok(LhmValue::Frequency(v)) => {
                                                cur.gpu_freq = v;
                                            },
                                            _ => {},
                                        }
                                    } else if str_eq(sids, "/gpu-nvidia/0/power/0") {
                                        match parse_sensor_value(sensor.value.as_str()) {
                                            Ok(LhmValue::Power(v)) => {
                                                cur.gpu_power = v;
                                            },
                                            _ => {},
                                        }
                                    } else if str_eq(sids, "/gpu-nvidia/0/load/0") {
                                        match parse_sensor_value(sensor.value.as_str()) {
                                            Ok(LhmValue::Usage(v)) => {
                                                cur.gpu_usage = v;
                                            },
                                            _ => {},
                                        }
                                    }
                                },
                                None => {},
                            }
                            s = s + 1;
                        }
                        proof {
                            assert(sub.children@.take(sub.children@.len() as int)
                                =~= sub.children@);
                        }
                        u = u + 1;
                    }
                    proof {
                        assert(hw.children@.take(hw.children@.len() as int) =~= hw.children@);
                    }
                    assert(cur == apply_gpu_group(before, hw.children@));
                }
            },
            None => {},
        }
        assert(cur == apply_hardware(before, *hw));
        h = h + 1;
    }
    proof {
        assert(computer.children@.take(computer.children@.len() as int) =~= computer.children@);
    }
    cur.elapsed_time_ms = elapsed_ms;
    *readings = cur;
    Ok(())
}

} // verus!
