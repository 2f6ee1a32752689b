//! Controller library for a small USB status display fed by hardware
//! telemetry.
//!
//! The library owns the logic of the system: the canonical telemetry record,
//! the two source sweeps that fill it (a walk over a snapshot of a local
//! monitoring service's JSON tree, and a sweep over descriptor tables copied
//! out of a shared-memory region), the staleness heuristic that infers a dead
//! upstream link, the bounded-retry schedule, and the encoder that builds the
//! fixed 64-byte report the display device expects.  Everything that touches
//! the outside world — HTTP, HID, shared memory, signals, timers — stays in
//! the thin shell around the library, which only hands plain values in and
//! out.
//!
//! Real-valued metrics are carried as exact fixed-point integers in
//! thousandths of the metric's unit, so sweeping, averaging and encoding are
//! exact; the device's binary32 temperature fields are produced by an integer
//! conversion with a round-to-nearest-even contract.

pub mod binary32;
pub mod display;
pub mod fixed;
pub mod lhm;
pub mod mapped;
pub mod readings;
pub mod retry;
pub mod text;
