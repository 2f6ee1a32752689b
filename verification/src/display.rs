//! The display protocol: mode cycle and the fixed 64-byte report.
//!
//! The device expects one output report per update: a report id, a fixed
//! five-byte header, a mode tag, big-endian metric fields at fixed offsets,
//! reserved auxiliary fields that are always zero, a checksum over the data
//! block, a terminator, and zero padding to exactly 64 bytes.  The encoder
//! keeps the metric fields between updates and only overwrites the group the
//! current mode selects, so an unselected group shows its last written
//! values.

use crate::binary32::{f32_bits_represent_milli, lemma_f32_bits_unique, milli_to_f32_bits};
use crate::fixed::{clamp_to, milli_round, milli_to_u16, milli_to_u8};
use crate::readings::SensorReadings;
use vstd::arithmetic::div_mod::lemma_add_mod_noop;
use vstd::prelude::*;

verus! {

/// The report id in byte 0 of every packet.
pub const DISPLAY_REPORT_ID: u8 = 16;

/// The terminator byte that follows the checksum.
pub const DISPLAY_TERMINATOR: u8 = 22;

/// The whole report is exactly this long.
pub const DISPLAY_PAYLOAD_SIZE: usize = 64;

/// Which metric group the display shows.  The cycle is
/// `CpuFrequency -> Gpu -> CpuFan -> CpuFrequency`.
#[derive(Debug, Clone, Copy, PartialEq, Eq, Structural)]
pub enum DisplayMode {
    CpuFrequency,
    CpuFan,
    Gpu,
}

impl DisplayMode {
    /// The mode shown after this one.
    pub open spec fn spec_next(self) -> DisplayMode {
        match self {
            DisplayMode::CpuFrequency => DisplayMode::Gpu,
            DisplayMode::Gpu => DisplayMode::CpuFan,
            DisplayMode::CpuFan => DisplayMode::CpuFrequency,
        }
    }

    /// Whether this mode writes the CPU metric group.
    pub open spec fn spec_includes_cpu(self) -> bool {
        self == DisplayMode::CpuFrequency || self == DisplayMode::CpuFan
    }

    /// Whether this mode writes the GPU metric group.
    pub open spec fn spec_includes_gpu(self) -> bool {
        self == DisplayMode::Gpu
    }

    /// The tag byte the packet carries for this mode.
    pub open spec fn spec_tag(self) -> u8 {
        match self {
            DisplayMode::CpuFrequency => 2,
            DisplayMode::CpuFan => 3,
            DisplayMode::Gpu => 4,
        }
    }

    /// Advance to the next mode of the fixed cycle.
    pub fn next(&mut self)
        ensures
            *final(self) == old(self).spec_next(),
    {
        *self = match *self {
            DisplayMode::CpuFrequency => DisplayMode::Gpu,
            DisplayMode::Gpu => DisplayMode::CpuFan,
            DisplayMode::CpuFan => DisplayMode::CpuFrequency,
        };
    }

    /// Whether this mode writes the CPU metric group.
    pub fn includes_cpu(&self) -> (r: bool)
        ensures
            r == self.spec_includes_cpu(),
    {
        match self {
            DisplayMode::CpuFrequency | DisplayMode::CpuFan => true,
            DisplayMode::Gpu => false,
        }
    }

    /// Whether this mode writes the GPU metric group.
    pub fn includes_gpu(&self) -> (r: bool)
        ensures
            r == self.spec_includes_gpu(),
    {
        match self {
            DisplayMode::Gpu => true,
            _ => false,
        }
    }

    /// The tag byte the packet carries for this mode.
    pub fn tag(&self) -> (r: u8)
        ensures
            r == self.spec_tag(),
    {
        match self {
            DisplayMode::CpuFrequency => 2,
            DisplayMode::CpuFan => 3,
            DisplayMode::Gpu => 4,
        }
    }
}

impl Default for DisplayMode {
    /// The cycle starts at the CPU frequency screen.
    fn default() -> (d: Self)
        ensures
            d == DisplayMode::CpuFrequency,
    {
        DisplayMode::CpuFrequency
    }
}

/// The metric fields of the data block, kept between updates.
/// Temperatures are binary32 bit patterns; the other metrics are already
/// rounded and saturated to their wire width.
#[derive(Debug, Clone, Copy, PartialEq, Eq, Structural)]
pub struct DisplayData {
    pub cpu_power: u16,
    pub unit_fahrenheit: bool,
    pub cpu_temp_bits: u32,
    pub cpu_usage: u8,
    pub cpu_freq: u16,
    pub cpu_fan: u16,
    pub gpu_power: u16,
    pub gpu_temp_bits: u32,
    pub gpu_usage: u8,
    pub gpu_freq: u16,
}

/// A `u16` wire field: the milli value rounded to whole units, saturated.
pub open spec fn u16_of_milli(m: i64) -> u16 {
    clamp_to(milli_round(m as int), 0, 0xffff) as u16
}

/// A `u8` wire field: the milli value rounded to whole units, saturated.
pub open spec fn u8_of_milli(m: i64) -> u8 {
    clamp_to(milli_round(m as int), 0, 0xff) as u8
}

/// `bits` is the binary32 wire form of the milli-unit temperature `m`.
pub open spec fn temp_bits_of(bits: u32, m: i64) -> bool {
    if m == 0 {
        bits == 0
    } else {
        f32_bits_represent_milli(bits, m as int)
    }
}

/// The two big-endian bytes of `x`.
pub open spec fn be16(x: u16) -> Seq<u8> {
    seq![(x / 256) as u8, (x % 256) as u8]
}

/// The four big-endian bytes of `x`.
pub open spec fn be32(x: u32) -> Seq<u8> {
    seq![
        (x / 0x100_0000) as u8,
        ((x / 0x1_0000) % 256) as u8,
        ((x / 256) % 256) as u8,
        (x % 256) as u8,
    ]
}

/// The 39-byte data block: fixed header, mode tag, CPU group, GPU group,
/// zeroed auxiliary group, filler.
pub open spec fn spec_data_block(mode: DisplayMode, d: DisplayData) -> Seq<u8> {
    seq![104u8, 1u8, 6u8, 35u8, 1u8] + seq![mode.spec_tag()] + be16(d.cpu_power) + seq![
        if d.unit_fahrenheit {
            1u8
        } else {
            0u8
        },
    ] + be32(d.cpu_temp_bits) + seq![d.cpu_usage] + be16(d.cpu_freq) + be16(d.cpu_fan) + be16(
        d.gpu_power,
    ) + be32(d.gpu_temp_bits) + seq![d.gpu_usage] + be16(d.gpu_freq) + seq![
        0u8,
        0u8,
        0u8,
        0u8,
        0u8,
        0u8,
        0u8,
        0u8,
        0u8,
        0u8,
        0u8,
        0u8,
    ]
}

/// The sum of a byte string, as an unbounded integer.
pub open spec fn byte_sum(s: Seq<u8>) -> int
    decreases s.len(),
{
    if s.len() == 0 {
        0
    } else {
        byte_sum(s.drop_last()) + s.last()
    }
}

/// The checksum byte: the low byte of the data-block sum.
pub open spec fn spec_checksum(block: Seq<u8>) -> u8 {
    (byte_sum(block) % 256) as u8
}

/// The full 64-byte report for the given mode and data fields.
pub open spec fn spec_packet(mode: DisplayMode, d: DisplayData) -> Seq<u8> {
    let block = spec_data_block(mode, d);
    seq![DISPLAY_REPORT_ID] + block + seq![spec_checksum(block), DISPLAY_TERMINATOR] + Seq::new(
        22,
        |k: int| 0u8,
    )
}

/// The CPU group of `post` holds the wire form of `r`'s CPU metrics.
pub open spec fn cpu_fields_set(post: DisplayData, r: SensorReadings) -> bool {
    &&& post.cpu_power == u16_of_milli(r.cpu_power)
    &&& temp_bits_of(post.cpu_temp_bits, r.cpu_temp)
    &&& post.cpu_usage == u8_of_milli(r.cpu_usage)
    &&& post.cpu_freq == u16_of_milli(r.cpu_freq)
    &&& post.cpu_fan == u16_of_milli(r.cpu_cooler_rpm)
}

/// The CPU group of `post` is byte-identical to `pre`'s.
pub open spec fn cpu_fields_kept(pre: DisplayData, post: DisplayData) -> bool {
    &&& post.cpu_power == pre.cpu_power
    &&& post.cpu_temp_bits == pre.cpu_temp_bits
    &&& post.cpu_usage == pre.cpu_usage
    &&& post.cpu_freq == pre.cpu_freq
    &&& post.cpu_fan == pre.cpu_fan
}

/// The GPU group of `post` holds the wire form of `r`'s GPU metrics.
pub open spec fn gpu_fields_set(post: DisplayData, r: SensorReadings) -> bool {
    &&& post.gpu_power == u16_of_milli(r.gpu_power)
    &&& temp_bits_of(post.gpu_temp_bits, r.gpu_temp)
    &&& post.gpu_usage == u8_of_milli(r.gpu_usage)
    &&& post.gpu_freq == u16_of_milli(r.gpu_freq)
}

/// The GPU group of `post` is byte-identical to `pre`'s.
pub open spec fn gpu_fields_kept(pre: DisplayData, post: DisplayData) -> bool {
    &&& post.gpu_power == pre.gpu_power
    &&& post.gpu_temp_bits == pre.gpu_temp_bits
    &&& post.gpu_usage == pre.gpu_usage
    &&& post.gpu_freq == pre.gpu_freq
}

/// What one update does to the data fields: the groups the mode selects take
/// the readings' wire form, every other field keeps its previous value.
pub open spec fn data_updated(
    pre: DisplayData,
    post: DisplayData,
    mode: DisplayMode,
    r: SensorReadings,
) -> bool {
    &&& post.unit_fahrenheit == pre.unit_fahrenheit
    &&& if mode.spec_includes_cpu() {
        cpu_fields_set(post, r)
    } else {
        cpu_fields_kept(pre, post)
    }
    &&& if mode.spec_includes_gpu() {
        gpu_fields_set(post, r)
    } else {
        gpu_fields_kept(pre, post)
    }
}

impl DisplayData {
    /// The fields the encoder starts from: everything zero, Celsius flag.
    pub open spec fn spec_initial() -> DisplayData {
        DisplayData {
            cpu_power: 0,
            unit_fahrenheit: false,
            cpu_temp_bits: 0,
            cpu_usage: 0,
            cpu_freq: 0,
            cpu_fan: 0,
            gpu_power: 0,
            gpu_temp_bits: 0,
            gpu_usage: 0,
            gpu_freq: 0,
        }
    }

    /// Overwrite the CPU group with the wire form of `r`'s CPU metrics.
    pub fn set_cpu_data(&mut self, r: &SensorReadings)
        ensures
            cpu_fields_set(*final(self), *r),
            gpu_fields_kept(*old(self), *final(self)),
            final(self).unit_fahrenheit == old(self).unit_fahrenheit,
    {
        self.cpu_temp_bits = milli_to_f32_bits(r.cpu_temp);
        self.cpu_power = milli_to_u16(r.cpu_power);
        self.cpu_usage = milli_to_u8(r.cpu_usage);
        self.cpu_freq = milli_to_u16(r.cpu_freq);
        self.cpu_fan = milli_to_u16(r.cpu_cooler_rpm);
    }

    /// Overwrite the GPU group with the wire form of `r`'s GPU metrics.
    pub fn set_gpu_data(&mut self, r: &SensorReadings)
        ensures
            gpu_fields_set(*final(self), *r),
            cpu_fields_kept(*old(self), *final(self)),
            final(self).unit_fahrenheit == old(self).unit_fahrenheit,
    {
        self.gpu_temp_bits = milli_to_f32_bits(r.gpu_temp);
        self.gpu_power = milli_to_u16(r.gpu_power);
        self.gpu_usage = milli_to_u8(r.gpu_usage);
        self.gpu_freq = milli_to_u16(r.gpu_freq);
    }
}

/// Append the two big-endian bytes of `x`.
fn push_be16(v: &mut Vec<u8>, x: u16)
    ensures
        final(v)@ == old(v)@ + be16(x),
{
    v.push((x / 256) as u8);
    v.push((x % 256) as u8);
    proof {
        assert(v@ =~= old(v)@ + be16(x));
    }
}

/// Append the four big-endian bytes of `x`.
fn push_be32(v: &mut Vec<u8>, x: u32)
    ensures
        final(v)@ == old(v)@ + be32(x),
{
    v.push((x / 0x100_0000) as u8);
    v.push(((x / 0x1_0000) % 256) as u8);
    v.push(((x / 256) % 256) as u8);
    v.push((x % 256) as u8);
    proof {
        assert(v@ =~= old(v)@ + be32(x));
    }
}

/// The sum of the bytes seen so far never leaves the low byte wrong.
proof fn lemma_byte_sum_take_step(s: Seq<u8>, k: int)
    requires
        0 <= k < s.len(),
    ensures
        byte_sum(s.take(k + 1)) == byte_sum(s.take(k)) + s[k],
{
    assert(s.take(k + 1).drop_last() =~= s.take(k));
    assert(s.take(k + 1).last() == s[k]);
}

/// The low byte of the data-block sum, computed in one sweep.
fn checksum_of(block: &Vec<u8>) -> (c: u8)
    ensures
        c as int == byte_sum(block@) % 256,
{
    let mut sum: u32 = 0;
    let mut k: usize = 0;
    while k < block.len()
        invariant
            k <= block.len(),
            sum < 256,
            sum as int == byte_sum(block@.take(k as int)) % 256,
        decreases block.len() - k,
    {
        proof {
            lemma_byte_sum_take_step(block@, k as int);
            lemma_add_mod_noop(byte_sum(block@.take(k as int)), block@[k as int] as int, 256);
        }
        sum = (sum + block[k] as u32) % 256;
        k = k + 1;
    }
    assert(block@.take(block@.len() as int) =~= block@);
    sum as u8
}

/// Build the full 64-byte report for the given mode and data fields.
#[verifier::rlimit(60)]
pub fn encode_packet(mode: DisplayMode, data: &DisplayData) -> (packet: Vec<u8>)
    ensures
        packet@ == spec_packet(mode, *data),
        packet@.len() == DISPLAY_PAYLOAD_SIZE,
        packet@[40] as int == byte_sum(spec_data_block(mode, *data)) % 256,
{
    let mut block: Vec<u8> = Vec::new();
    block.push(104);
    block.push(1);
    block.push(6);
    block.push(35);
    block.push(1);
    block.push(mode.tag());
    push_be16(&mut block, data.cpu_power);
    block.push(if data.unit_fahrenheit {
        1
    } else {
        0
    });
    push_be32(&mut block, data.cpu_temp_bits);
    block.push(data.cpu_usage);
    push_be16(&mut block, data.cpu_freq);
    push_be16(&mut block, data.cpu_fan);
    push_be16(&mut block, data.gpu_power);
    push_be32(&mut block, data.gpu_temp_bits);
    block.push(data.gpu_usage);
    push_be16(&mut block, data.gpu_freq);
    proof {
        assert(block@ =~= spec_data_block(mode, *data).take(27));
    }
    let mut z: usize = 0;
    while z < 12
        invariant
            z <= 12,
            block@ == spec_data_block(mode, *data).take(27 + z as int),
        decreases 12 - z,
    {
        block.push(0);
        z = z + 1;
        proof {
            assert(block@ =~= spec_data_block(mode, *data).take(27 + z as int));
        }
    }
    proof {
        assert(block@ =~= spec_data_block(mode, *data));
    }
    let ck = checksum_of(&block);
    let mut packet: Vec<u8> = Vec::new();
    packet.push(DISPLAY_REPORT_ID);
    let mut k: usize = 0;
    while k < block.len()
        invariant
            k <= block.len(),
            block@ == spec_data_block(mode, *data),
            packet@ == seq![DISPLAY_REPORT_ID] + block@.take(k as int),
        decreases block.len() - k,
    {
        packet.push(block[k]);
        k = k + 1;
        proof {
            assert(packet@ =~= seq![DISPLAY_REPORT_ID] + block@.take(k as int));
        }
    }
    proof {
        assert(block@.take(block@.len() as int) =~= block@);
    }
    packet.push(ck);
    packet.push(DISPLAY_TERMINATOR);
    let mut p: usize = 0;
    while p < 22
        invariant
            p <= 22,
            block@ == spec_data_block(mode, *data),
            ck as int == byte_sum(block@) % 256,
            packet@ == seq![DISPLAY_REPORT_ID] + block@ + seq![ck, DISPLAY_TERMINATOR] + Seq::new(
                p as nat,
                |j: int| 0u8,
            ),
        decreases 22 - p,
    {
        packet.push(0);
        p = p + 1;
        proof {
            assert(packet@ =~= seq![DISPLAY_REPORT_ID] + block@ + seq![ck, DISPLAY_TERMINATOR]
                + Seq::new(p as nat, |j: int| 0u8));
        }
    }
    proof {
        assert(packet@ =~= spec_packet(mode, *data));
    }
    packet
}

/// Every packet, whatever the mode and fields, is exactly 64 bytes in the
/// fixed frame: report id, header, checksum and terminator at their
/// offsets, the auxiliary channel fields zero at theirs, and zero padding
/// to the end.
pub proof fn lemma_packet_well_formed(mode: DisplayMode, d: DisplayData)
    ensures
        spec_packet(mode, d).len() == 64,
        spec_packet(mode, d)[0] == DISPLAY_REPORT_ID,
        spec_packet(mode, d).subrange(1, 6) == seq![104u8, 1u8, 6u8, 35u8, 1u8],
        spec_packet(mode, d)[6] == mode.spec_tag(),
        spec_packet(mode, d)[40] == spec_checksum(spec_data_block(mode, d)),
        spec_packet(mode, d)[41] == DISPLAY_TERMINATOR,
        forall|k: int| 28 <= k < 40 ==> spec_packet(mode, d)[k] == 0,
        forall|k: int| 42 <= k < 64 ==> spec_packet(mode, d)[k] == 0,
{
    assert(spec_packet(mode, d).subrange(1, 6) =~= seq![104u8, 1u8, 6u8, 35u8, 1u8]);
    assert forall|k: int| 28 <= k < 40 implies spec_packet(mode, d)[k] == 0 by {
        assert(spec_packet(mode, d)[k] == spec_data_block(mode, d)[k - 1]);
    }
    assert forall|k: int| 42 <= k < 64 implies spec_packet(mode, d)[k] == 0 by {
        assert(spec_packet(mode, d)[k] == Seq::new(22, |j: int| 0u8)[k - 42]);
    }
}

/// An update in a mode without the GPU group leaves the packet's GPU field
/// bytes — offsets 19 through 27 — byte-identical to any packet encoded
/// from the prior fields, whatever mode that packet carried.
pub proof fn lemma_cpu_update_keeps_gpu_bytes(
    pre: DisplayData,
    post: DisplayData,
    m0: DisplayMode,
    m1: DisplayMode,
    r: SensorReadings,
)
    requires
        !m1.spec_includes_gpu(),
        data_updated(pre, post, m1, r),
    ensures
        spec_packet(m1, post).subrange(19, 28) == spec_packet(m0, pre).subrange(19, 28),
{
    assert(spec_packet(m1, post).subrange(19, 28) =~= spec_packet(m0, pre).subrange(19, 28));
}

/// An update in a mode without the CPU group leaves the packet's CPU field
/// bytes — offsets 7 through 18, the temperature-unit flag included —
/// byte-identical to any packet encoded from the prior fields.
pub proof fn lemma_gpu_update_keeps_cpu_bytes(
    pre: DisplayData,
    post: DisplayData,
    m0: DisplayMode,
    m1: DisplayMode,
    r: SensorReadings,
)
    requires
        !m1.spec_includes_cpu(),
        data_updated(pre, post, m1, r),
    ensures
        spec_packet(m1, post).subrange(7, 19) == spec_packet(m0, pre).subrange(7, 19),
{
    assert(spec_packet(m1, post).subrange(7, 19) =~= spec_packet(m0, pre).subrange(7, 19));
}

/// Encoding is deterministic: from one starting state, two updates with the
/// same mode and the same readings settle on the same fields, and so on
/// byte-identical packets.
pub proof fn lemma_update_deterministic(
    pre: DisplayData,
    post1: DisplayData,
    post2: DisplayData,
    mode: DisplayMode,
    r: SensorReadings,
)
    requires
        data_updated(pre, post1, mode, r),
        data_updated(pre, post2, mode, r),
    ensures
        post1 == post2,
        spec_packet(mode, post1) == spec_packet(mode, post2),
{
    if mode.spec_includes_cpu() && r.cpu_temp != 0 {
        lemma_f32_bits_unique(post1.cpu_temp_bits, post2.cpu_temp_bits, r.cpu_temp as int);
    }
    if mode.spec_includes_gpu() && r.gpu_temp != 0 {
        lemma_f32_bits_unique(post1.gpu_temp_bits, post2.gpu_temp_bits, r.gpu_temp as int);
    }
}

/// Updating twice with the same mode and readings changes nothing the
/// second time: the fields, and so the packet, are reproduced byte for
/// byte.
pub proof fn lemma_update_idempotent(
    pre: DisplayData,
    post1: DisplayData,
    post2: DisplayData,
    mode: DisplayMode,
    r: SensorReadings,
)
    requires
        data_updated(pre, post1, mode, r),
        data_updated(post1, post2, mode, r),
    ensures
        post2 == post1,
        spec_packet(mode, post2) == spec_packet(mode, post1),
{
    lemma_update_deterministic(post1, post1, post2, mode, r);
}

/// The encoder state: the current mode of the cycle and the metric fields
/// written so far.
#[derive(Debug, Clone, Copy, PartialEq, Eq, Structural)]
pub struct DisplayState {
    pub mode: DisplayMode,
    pub data: DisplayData,
}

impl DisplayState {
    /// A fresh encoder: cycle at its start, all metric fields zero, Celsius.
    pub fn new() -> (s: DisplayState)
        ensures
            s.mode == DisplayMode::CpuFrequency,
            s.data == DisplayData::spec_initial(),
    {
        DisplayState {
            mode: DisplayMode::CpuFrequency,
            data: DisplayData {
                cpu_power: 0,
                unit_fahrenheit: false,
                cpu_temp_bits: 0,
                cpu_usage: 0,
                cpu_freq: 0,
                cpu_fan: 0,
                gpu_power: 0,
                gpu_temp_bits: 0,
                gpu_usage: 0,
                gpu_freq: 0,
            },
        }
    }

    /// Advance the mode cycle; takes effect on the next update.
    pub fn switch_mode(&mut self)
        ensures
            final(self).mode == old(self).mode.spec_next(),
            final(self).data == old(self).data,
    {
        self.mode.next();
    }

    /// Write the groups the current mode selects and build the report to
    /// send: the data fields change exactly as `data_updated` says, and the
    /// packet is the 64-byte wire form of the new fields, checksummed over
    /// the data block.
    pub fn update(&mut self, readings: &SensorReadings) -> (packet: Vec<u8>)
        ensures
            final(self).mode == old(self).mode,
            data_updated(old(self).data, final(self).data, old(self).mode, *readings),
            packet@ == spec_packet(final(self).mode, final(self).data),
            packet@.len() == DISPLAY_PAYLOAD_SIZE,
            packet@[40] as int == byte_sum(
                spec_data_block(final(self).mode, final(self).data),
            ) % 256,
    {
        if self.mode.includes_cpu() {
            self.data.set_cpu_data(readings);
        }
        if self.mode.includes_gpu() {
            self.data.set_gpu_data(readings);
        }
        encode_packet(self.mode, &self.data)
    }
}

} // verus!
