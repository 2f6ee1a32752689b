//! The shared-memory telemetry variant.
//!
//! An external monitoring process publishes a header, a sensor-descriptor
//! table and a reading table in a shared region it owns.  The shell that
//! holds the read-only mapping copies those records out as plain values —
//! never retaining a mapped pointer — and hands them here.  This module owns
//! everything that can go wrong with that data: the header sanity check, the
//! bounds check on every reading's sensor index, the fixed label table that
//! routes a reading into the canonical record, the averaging of the
//! per-core clock readings, and the staleness counter that infers a dead
//! upstream process from data that stops moving.

use crate::fixed::rounded_div;
use crate::readings::{same_metrics, SensorReadings};
use crate::text::{spec_ends_with, spec_starts_with, str_ends_with, str_eq, str_starts_with};
use vstd::prelude::*;

verus! {

/// A sensor descriptor copied out of the mapped region: its numeric
/// identity and the display name the reading table is matched against.
#[derive(Debug)]
pub struct SensorInfo {
    pub id: u64,
    pub instance: u64,
    pub name: String,
}

/// A reading descriptor copied out of the mapped region: the index of the
/// sensor it belongs to — untrusted, checked against the sensor table on
/// every sweep — its label, and its current value in milli-units.
#[derive(Debug)]
pub struct ReadingRecord {
    pub sensor_index: usize,
    pub label: String,
    pub value_milli: i64,
}

/// The header of the mapped region, as plain values.
#[derive(Debug, Clone, Copy, PartialEq, Eq, Structural)]
pub struct RegionHeader {
    pub signature: u32,
    pub version: u32,
    pub revision: u32,
    pub last_poll_time: u64,
    pub sensor_section_offset: u32,
    pub sensor_element_size: u32,
    pub sensor_count: u32,
    pub reading_section_offset: u32,
    pub reading_element_size: u32,
    pub reading_count: u32,
    pub polling_period: u32,
}

/// Why a mapped region was rejected: its header fails the sanity check, or
/// the copied sensor table does not match the count the header promised.
/// Either means the mapping is corrupt or incompatible, which is fatal for
/// the connection attempt — never silently tolerated.
#[derive(Debug, Clone, Copy, PartialEq, Eq, Structural)]
pub enum SourceError {
    ZeroSensors,
    SensorCountTooLarge,
    SensorTableMismatch,
}

/// The most sensors a plausible mapping reports; more means the header is
/// corrupt.
pub const MAX_SENSOR_COUNT: u32 = 4096;

/// Consecutive polls without any metric moving before the upstream link is
/// declared dead and reconnected.
pub const STALE_POLL_LIMIT: u32 = 5;

/// A header is taken only when its sensor count is neither zero nor beyond
/// the sanity ceiling.
pub open spec fn header_acceptable(h: RegionHeader) -> bool {
    0 < h.sensor_count <= MAX_SENSOR_COUNT
}

/// Check the header before anything built on its counts is trusted.
pub fn validate_header(h: &RegionHeader) -> (r: Result<(), SourceError>)
    ensures
        r is Ok <==> header_acceptable(*h),
        h.sensor_count == 0 ==> r == Result::<(), SourceError>::Err(SourceError::ZeroSensors),
        h.sensor_count > MAX_SENSOR_COUNT ==> r == Result::<(), SourceError>::Err(
            SourceError::SensorCountTooLarge,
        ),
{
    if h.sensor_count == 0 {
        Err(SourceError::ZeroSensors)
    } else if h.sensor_count > MAX_SENSOR_COUNT {
        Err(SourceError::SensorCountTooLarge)
    } else {
        Ok(())
    }
}

/// Where the reading table starts: just past the sensor table, whose offset
/// and element stride the header gives.
pub fn reading_table_offset(h: &RegionHeader) -> (r: u64)
    ensures
        r == h.sensor_section_offset + h.sensor_count * h.sensor_element_size,
{
    proof {
        assert((h.sensor_count as int) * (h.sensor_element_size as int) + h.sensor_section_offset
            < 0x1_0000_0000_0000_0000) by (nonlinear_arith)
            requires
                h.sensor_count <= 0xffff_ffff,
                h.sensor_element_size <= 0xffff_ffff,
                h.sensor_section_offset <= 0xffff_ffff,
        ;
    }
    (h.sensor_section_offset as u64) + (h.sensor_count as u64) * (h.sensor_element_size as u64)
}

/// The sensor display name of the CPU node.
pub open spec fn cpu_sensor_prefix() -> Seq<char> {
    "CPU [#0]"@
}

/// The sensor display name of the GPU node.
pub open spec fn gpu_sensor_prefix() -> Seq<char> {
    "GPU [#0]"@
}

/// A sensor under the CPU node.
pub open spec fn is_cpu_sensor_name(n: Seq<char>) -> bool {
    spec_starts_with(n, cpu_sensor_prefix())
}

/// A sensor under the GPU node.
pub open spec fn is_gpu_sensor_name(n: Seq<char>) -> bool {
    spec_starts_with(n, gpu_sensor_prefix())
}

/// A per-core clock reading, such as `Core 0 Clock`: all such readings
/// under the CPU node are averaged into the one canonical frequency.
pub open spec fn is_core_clock_label(l: Seq<char>) -> bool {
    l.len() >= 11 && spec_starts_with(l, "Core "@) && spec_ends_with(l, " Clock"@)
}

/// Whether a label names a per-core clock reading.
fn is_core_clock(label: &str) -> (r: bool)
    ensures
        r == is_core_clock_label(label@),
{
    let n = label.unicode_len();
    if n < 11 {
        return false;
    }
    str_starts_with(label, "Core ") && str_ends_with(label, " Clock")
}

/// The sweep in flight: the record being filled and the sum and count of
/// the per-core clock readings seen so far.
pub struct SweepAcc {
    pub readings: SensorReadings,
    pub clock_sum: int,
    pub clock_count: int,
}

/// What one reading contributes: nothing when its sensor index is out of
/// bounds or no table entry matches; otherwise the field its
/// `(sensor display name, label)` pair selects, or one summand of the
/// per-core clock average.
pub open spec fn sweep_step(acc: SweepAcc, sensors: Seq<SensorInfo>, rec: ReadingRecord) -> SweepAcc {
    if rec.sensor_index >= sensors.len() {
        acc
    } else {
        let name = sensors[rec.sensor_index as int].name@;
        let l = rec.label@;
        let r = acc.readings;
        if is_cpu_sensor_name(name) && l == "CPU (Tctl/Tdie)"@ {
            SweepAcc { readings: SensorReadings { cpu_temp: rec.value_milli, ..r }, ..acc }
        } else if is_cpu_sensor_name(name) && l == "CPU Package Power"@ {
            SweepAcc { readings: SensorReadings { cpu_power: rec.value_milli, ..r }, ..acc }
        } else if is_cpu_sensor_name(name) && l == "Total CPU Usage"@ {
            SweepAcc { readings: SensorReadings { cpu_usage: rec.value_milli, ..r }, ..acc }
        } else if is_cpu_sensor_name(name) && is_core_clock_label(l) {
            SweepAcc {
                clock_sum: acc.clock_sum + rec.value_milli,
                clock_count: acc.clock_count + 1,
                ..acc
            }
        } else if l == "CPU Fan"@ {
            SweepAcc { readings: SensorReadings { cpu_cooler_rpm: rec.value_milli, ..r }, ..acc }
        } else if is_gpu_sensor_name(name) && l == "GPU Temperature"@ {
            SweepAcc { readings: SensorReadings { gpu_temp: rec.value_milli, ..r }, ..acc }
        } else if is_gpu_sensor_name(name) && l == "GPU Power"@ {
            SweepAcc { readings: SensorReadings { gpu_power: rec.value_milli, ..r }, ..acc }
        } else if is_gpu_sensor_name(name) && l == "GPU Core Load"@ {
            SweepAcc { readings: SensorReadings { gpu_usage: rec.value_milli, ..r }, ..acc }
        } else if is_gpu_sensor_name(name) && l == "GPU Clock"@ {
            SweepAcc { readings: SensorReadings { gpu_freq: rec.value_milli, ..r }, ..acc }
        } else {
            acc
        }
    }
}

/// The whole reading table folded through `sweep_step`, in table order.
pub open spec fn sweep_fold(
    acc: SweepAcc,
    sensors: Seq<SensorInfo>,
    table: Seq<ReadingRecord>,
) -> SweepAcc
    decreases table.len(),
{
    if table.len() == 0 {
        acc
    } else {
        sweep_step(sweep_fold(acc, sensors, table.drop_last()), sensors, table.last())
    }
}

/// The record after one sweep: every matched field overwritten by the last
/// matching reading, the canonical frequency set to the rounded mean of the
/// per-core clocks when any were seen, and everything else left as it was.
pub open spec fn sweep_result(
    prev: SensorReadings,
    sensors: Seq<SensorInfo>,
    table: Seq<ReadingRecord>,
) -> SensorReadings {
    let acc = sweep_fold(
        SweepAcc { readings: prev, clock_sum: 0, clock_count: 0 },
        sensors,
        table,
    );
    if acc.clock_count > 0 {
        SensorReadings {
            cpu_freq: rounded_div(acc.clock_sum, acc.clock_count) as i64,
            ..acc.readings
        }
    } else {
        acc.readings
    }
}

/// A reading whose sensor index lies outside the sensor table contributes
/// nothing to the sweep.
pub proof fn lemma_out_of_bounds_reading_skipped(
    acc: SweepAcc,
    sensors: Seq<SensorInfo>,
    rec: ReadingRecord,
)
    requires
        rec.sensor_index >= sensors.len(),
    ensures
        sweep_step(acc, sensors, rec) == acc,
{
}

/// A fold over nothing but out-of-bounds readings is the identity.
proof fn lemma_fold_all_out_of_bounds(
    acc: SweepAcc,
    sensors: Seq<SensorInfo>,
    table: Seq<ReadingRecord>,
)
    requires
        forall|i: int|
            0 <= i < table.len() ==> (#[trigger] table[i].sensor_index) >= sensors.len(),
    ensures
        sweep_fold(acc, sensors, table) == acc,
    decreases table.len(),
{
    if table.len() > 0 {
        assert(forall|i: int|
            0 <= i < table.len() - 1 ==> #[trigger] table.drop_last()[i] == table[i]);
        lemma_fold_all_out_of_bounds(acc, sensors, table.drop_last());
        assert(table.last().sensor_index >= sensors.len());
    }
}

/// A reading table whose every entry carries an out-of-bounds sensor index
/// is swept to completion and changes no metric: each bad entry is skipped,
/// none aborts the sweep.
pub proof fn lemma_all_out_of_bounds_changes_nothing(
    prev: SensorReadings,
    sensors: Seq<SensorInfo>,
    table: Seq<ReadingRecord>,
    elapsed_ms: u64,
)
    requires
        forall|i: int|
            0 <= i < table.len() ==> (#[trigger] table[i].sensor_index) >= sensors.len(),
    ensures
        spec_apply(prev, sensors, table, elapsed_ms) == (SensorReadings {
            elapsed_time_ms: elapsed_ms,
            ..prev
        }),
{
    lemma_fold_all_out_of_bounds(
        SweepAcc { readings: prev, clock_sum: 0, clock_count: 0 },
        sensors,
        table,
    );
}

/// Five consecutive updates in which no metric moved leave the staleness
/// counter at the reconnect limit: the next poll must tear the source down
/// and reconnect before it parses anything.  `s0` through `s5` are the
/// source states around five updates whose outcomes all carried the same
/// metrics as their predecessor.
pub proof fn lemma_five_stale_polls_force_reconnect(
    s0: MappedSource,
    s1: MappedSource,
    s2: MappedSource,
    s3: MappedSource,
    s4: MappedSource,
    s5: MappedSource,
)
    requires
        s0.stale_polls == 0,
        s1.stale_polls == spec_next_stale(s0.readings, s1.readings, s0.stale_polls),
        s2.stale_polls == spec_next_stale(s1.readings, s2.readings, s1.stale_polls),
        s3.stale_polls == spec_next_stale(s2.readings, s3.readings, s2.stale_polls),
        s4.stale_polls == spec_next_stale(s3.readings, s4.readings, s3.stale_polls),
        s5.stale_polls == spec_next_stale(s4.readings, s5.readings, s4.stale_polls),
        same_metrics(s1.readings, s0.readings),
        same_metrics(s2.readings, s1.readings),
        same_metrics(s3.readings, s2.readings),
        same_metrics(s4.readings, s3.readings),
        same_metrics(s5.readings, s4.readings),
    ensures
        s5.stale_polls >= STALE_POLL_LIMIT,
{
}

/// The connected source: the sensor table copied out at connection time,
/// the canonical record, and the staleness counter.
#[derive(Debug)]
pub struct MappedSource {
    pub sensors: Vec<SensorInfo>,
    pub readings: SensorReadings,
    pub stale_polls: u32,
}

/// The record after one `update`: the sweep's outcome with the acquisition
/// time stamped in.
pub open spec fn spec_apply(
    prev: SensorReadings,
    sensors: Seq<SensorInfo>,
    table: Seq<ReadingRecord>,
    elapsed_ms: u64,
) -> SensorReadings {
    SensorReadings { elapsed_time_ms: elapsed_ms, ..sweep_result(prev, sensors, table) }
}

/// The staleness counter after one `update`: reset by any metric movement,
/// otherwise advanced (saturating).
pub open spec fn spec_next_stale(prev: SensorReadings, next: SensorReadings, stale: u32) -> u32 {
    if same_metrics(next, prev) {
        if stale < u32::MAX {
            (stale + 1) as u32
        } else {
            u32::MAX
        }
    } else {
        0
    }
}

impl MappedSource {
    /// Take a validated header and the copied sensor table; reject anything
    /// a sane mapping cannot have produced.
    pub fn init(header: &RegionHeader, sensors: Vec<SensorInfo>) -> (r: Result<
        MappedSource,
        SourceError,
    >)
        ensures
            r matches Ok(s) ==> {
                &&& header_acceptable(*header)
                &&& sensors@.len() == header.sensor_count
                &&& s.sensors@ == sensors@
                &&& s.readings == SensorReadings::spec_initial(header.polling_period)
                &&& s.stale_polls == 0
            },
            r is Err ==> !(header_acceptable(*header) && sensors@.len() == header.sensor_count),
            header_acceptable(*header) && sensors@.len() == header.sensor_count ==> r is Ok,
    {
        match validate_header(header) {
            Err(e) => Err(e),
            Ok(()) => {
                if sensors.len() != header.sensor_count as usize {
                    Err(SourceError::SensorTableMismatch)
                } else {
                    Ok(MappedSource {
                        sensors,
                        readings: SensorReadings::new(header.polling_period),
                        stale_polls: 0,
                    })
                }
            },
        }
    }

    /// Whether the staleness counter says the upstream link is dead: the
    /// caller must then tear the source down and reconnect before parsing
    /// anything further.
    pub fn needs_reconnect(&self) -> (r: bool)
        ensures
            r == (self.stale_polls >= STALE_POLL_LIMIT),
    {
        self.stale_polls >= STALE_POLL_LIMIT
    }

    /// One `update` sweep over the copied reading table: fill the canonical
    /// record as `spec_apply` says and account for staleness.  A reading
    /// whose sensor index lies outside the sensor table is skipped without
    /// aborting the sweep.
    #[verifier::rlimit(60)]
    pub fn apply_readings(&mut self, table: &Vec<ReadingRecord>, elapsed_ms: u64)
        ensures
            final(self).sensors@ == old(self).sensors@,
            final(self).readings == spec_apply(
                old(self).readings,
                old(self).sensors@,
                table@,
                elapsed_ms,
            ),
            final(self).stale_polls == spec_next_stale(
                old(self).readings,
                final(self).readings,
                old(self).stale_polls,
            ),
    {
        let ghost sensors = self.sensors@;
        let ghost acc0 = SweepAcc { readings: self.readings, clock_sum: 0, clock_count: 0 };
        let mut next = self.readings;
        let mut sum: i128 = 0;
        let mut count: usize = 0;
        let mut k: usize = 0;
        while k < table.len()
            invariant
                k <= table@.len(),
                sensors == self.sensors@,
                *self == *old(self),
                count <= k,
                -(count as int) * 0x8000_0000_0000_0000 <= sum <= (count as int)
                    * 0x7fff_ffff_ffff_ffff,
                sweep_fold(acc0, sensors, table@.take(k as int)) == (SweepAcc {
                    readings: next,
                    clock_sum: sum as int,
                    clock_count: count as int,
                }),
                acc0 == (SweepAcc {
                    readings: old(self).readings,
                    clock_sum: 0int,
                    clock_count: 0int,
                }),
            decreases table@.len() - k,
        {
            proof {
                assert(table@.take(k + 1).drop_last() =~= table@.take(k as int));
                assert(table@.take(k + 1).last() == table@[k as int]);
            }
            let rec = &table[k];
            if rec.sensor_index < self.sensors.len() {
                let name: &str = self.sensors[rec.sensor_index].name.as_str();
                let label: &str = rec.label.as_str();
                let cpu_node = str_starts_with(name, "CPU [#0]");
                let gpu_node = str_starts_with(name, "GPU [#0]");
                if cpu_node && str_eq(label, "CPU (Tctl/Tdie)") {
                    next.cpu_temp = rec.value_milli;
                } else if cpu_node && str_eq(label, "CPU Package Power") {
                    next.cpu_power = rec.value_milli;
                } else if cpu_node && str_eq(label, "Total CPU Usage") {
                    next.cpu_usage = rec.value_milli;
                } else if cpu_node && is_core_clock(label) {
                    proof {
                        assert(-((count + 1) as int) * 0x8000_0000_0000_0000 <= sum
                            + rec.value_milli <= ((count + 1) as int) * 0x7fff_ffff_ffff_ffff)
                            by (nonlinear_arith)
                            requires
                                -(count as int) * 0x8000_0000_0000_0000 <= sum <= (count as int)
                                    * 0x7fff_ffff_ffff_ffff,
                                -0x8000_0000_0000_0000 <= rec.value_milli
                                    <= 0x7fff_ffff_ffff_ffff,
                        ;
                        assert(((count + 1) as int) * 0x8000_0000_0000_0000 <= (
                        0x1_0000_0000_0000_0000int) * 0x8000_0000_0000_0000) by (nonlinear_arith)
                            requires
                                count + 1 <= 0x1_0000_0000_0000_0000int,
                        ;
                    }
                    sum = sum + (rec.value_milli as i128);
                    count = count + 1;
                } else if str_eq(label, "CPU Fan") {
                    next.cpu_cooler_rpm = rec.value_milli;
                } else if gpu_node && str_eq(label, "GPU Temperature") {
                    next.gpu_temp = rec.value_milli;
                } else if gpu_node && str_eq(label, "GPU Power") {
                    next.gpu_power = rec.value_milli;
                } else if gpu_node && str_eq(label, "GPU Core Load") {
                    next.gpu_usage = rec.value_milli;
                } else if gpu_node && str_eq(label, "GPU Clock") {
                    next.gpu_freq = rec.value_milli;
                }
            }
            k = k + 1;
        }
        proof {
            assert(table@.take(table@.len() as int) =~= table@);
        }
        if count > 0 {
            let c: i128 = count as i128;
            proof {
                assert(-0x8000_0000_0000_0000_0000_0000_0000_0000 < sum + (c as int) / 2
                    < 0x8000_0000_0000_0000_0000_0000_0000_0000 && -(sum as int) + (c as int) / 2
                    < 0x8000_0000_0000_0000_0000_0000_0000_0000) by (nonlinear_arith)
                    requires
                        0 < c as int <= 0xffff_ffff_ffff_ffffint,
                        -(c as int) * 0x8000_0000_0000_0000 <= sum <= (c as int)
                            * 0x7fff_ffff_ffff_ffff,
                ;
            }
            let mean: i128 = if sum >= 0 {
                (sum + c / 2) / c
            } else {
                -((-sum + c / 2) / c)
            };
            proof {
                assert(mean == rounded_div(sum as int, c as int) && -0x8000_0000_0000_0000 <= mean
                    <= 0x7fff_ffff_ffff_ffff) by (nonlinear_arith)
                    requires
                        c == count as int,
                        0 < c as int <= 0xffff_ffff_ffff_ffffint,
                        -(c as int) * 0x8000_0000_0000_0000 <= sum <= (c as int)
                            * 0x7fff_ffff_ffff_ffff,
                        mean == if sum >= 0 {
                            ((sum as int) + (c as int) / 2) / (c as int)
                        } else {
                            -(((-(sum as int)) + (c as int) / 2) / (c as int))
                        },
                        rounded_div(sum as int, c as int) == if sum as int >= 0 {
                            ((sum as int) + (c as int) / 2) / (c as int)
                        } else {
                            -(((-(sum as int)) + (c as int) / 2) / (c as int))
                        },
                ;
            }
            next.cpu_freq = mean as i64;
        }
        next.elapsed_time_ms = elapsed_ms;
        assert(next == spec_apply(old(self).readings, sensors, table@, elapsed_ms));
        if next.metrics_equal(&self.readings) {
            if self.stale_polls < u32::MAX {
                self.stale_polls = self.stale_polls + 1;
            }
        } else {
            self.stale_polls = 0;
        }
        self.readings = next;
    }
}

} // verus!
