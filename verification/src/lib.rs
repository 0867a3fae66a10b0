//! Counter-delta telemetry for Linux servers.
//!
//! Raw snapshots of the kernel's monotonic counters (per block device, per
//! network interface, system-wide CPU time) and of its memory gauges are
//! turned into time-normalised metrics, one per interval and entity:
//!
//! - `snapshot`: raw snapshots and the keys of the entities they are taken of;
//! - `store`: for each entity, the snapshot last seen of it;
//! - `delta`: the metric of the interval between two snapshots;
//! - `series`: the metrics of each entity, in order of arrival;
//! - `engine`: store, delta and series put together;
//! - `summary`: mean and peak of a metric over a series, and rankings;
//! - `aggregate`: the paths of a multipath device rolled up into totals;
//! - `record`, `capture`: the capture file format, written and read;
//! - `playback`, `analysis`: whole captures, played back and analysed;
//! - `source`, `collectl`, `mpath`, `procstat`: the texts that snapshots,
//!   multipath topology and per-process statistics are read from;
//! - `ratio`, `clock`, `text`: exact quotients, times of day, and text.
//!
//! Metrics are kept as exact quotients of integers. Where a single number is
//! called for, as in summaries, a quotient is read in thousandths, rounded
//! down.

pub mod aggregate;
pub mod analysis;
pub mod capture;
pub mod clock;
pub mod collectl;
pub mod delta;
pub mod engine;
pub mod mpath;
pub mod playback;
pub mod procstat;
pub mod ratio;
pub mod record;
pub mod series;
pub mod snapshot;
pub mod source;
pub mod store;
pub mod summary;
pub mod text;
