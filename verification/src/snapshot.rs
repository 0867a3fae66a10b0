//! Raw counter snapshots and the keys that tell independent counter streams
//! apart.

use vstd::prelude::*;

verus! {

/// The identity of one counter stream: a block device, a network interface,
/// or one of the two system-wide streams.
#[derive(Debug, PartialEq, Eq, Hash)]
pub enum EntityKey {
    Disk { major: u32, minor: u32, name: String },
    Net { iface: String },
    Cpu,
    Mem,
}

/// The mathematical value of an `EntityKey`.
pub enum KeyModel {
    Disk { major: u32, minor: u32, name: Seq<char> },
    Net { iface: Seq<char> },
    Cpu,
    Mem,
}

impl View for EntityKey {
    type V = KeyModel;

    open spec fn view(&self) -> KeyModel {
        match *self {
            EntityKey::Disk { major, minor, name } => KeyModel::Disk { major, minor, name: name@ },
            EntityKey::Net { iface } => KeyModel::Net { iface: iface@ },
            EntityKey::Cpu => KeyModel::Cpu,
            EntityKey::Mem => KeyModel::Mem,
        }
    }
}

impl Clone for EntityKey {
    fn clone(&self) -> (r: Self)
        ensures
            r == *self,
    {
        match self {
            EntityKey::Disk { major, minor, name } => EntityKey::Disk {
                major: *major,
                minor: *minor,
                name: name.clone(),
            },
            EntityKey::Net { iface } => EntityKey::Net { iface: iface.clone() },
            EntityKey::Cpu => EntityKey::Cpu,
            EntityKey::Mem => EntityKey::Mem,
        }
    }
}

impl EntityKey {
    /// Whether two keys name the same entity.
    pub fn same(&self, other: &EntityKey) -> (b: bool)
        ensures
            b == (self@ == other@),
    {
        match (self, other) {
            (
                EntityKey::Disk { major: a, minor: b, name: n },
                EntityKey::Disk { major: c, minor: d, name: m },
            ) => *a == *c && *b == *d && *n == *m,
            (EntityKey::Net { iface: n }, EntityKey::Net { iface: m }) => *n == *m,
            (EntityKey::Cpu, EntityKey::Cpu) => true,
            (EntityKey::Mem, EntityKey::Mem) => true,
            _ => false,
        }
    }
}

/// One sample of the kernel's per-device I/O counters, in the order in which
/// the kernel lists them.
#[derive(Debug, PartialEq, Eq)]
pub struct DiskStat {
    /// Device major number.
    pub major: u32,
    /// Device minor number.
    pub minor: u32,
    /// Device name, such as `sda` or `nvme0n1`.
    pub name: String,
    /// Reads completed.
    pub reads: u64,
    /// Reads merged.
    pub reads_merged: u64,
    /// Sectors read.
    pub sectors_read: u64,
    /// Milliseconds spent reading.
    pub read_time_ms: u64,
    /// Writes completed.
    pub writes: u64,
    /// Writes merged.
    pub writes_merged: u64,
    /// Sectors written.
    pub sectors_written: u64,
    /// Milliseconds spent writing.
    pub write_time_ms: u64,
    /// I/Os in flight right now: a gauge, not a counter.
    pub io_in_progress: u64,
    /// Milliseconds during which any I/O was in flight.
    pub io_time_ms: u64,
    /// Milliseconds of I/O time, weighted by the number of I/Os in flight.
    pub weighted_io_time_ms: u64,
    /// Discards completed.
    pub discards: u64,
    /// Discards merged.
    pub discards_merged: u64,
    /// Sectors discarded.
    pub sectors_discarded: u64,
    /// Milliseconds spent discarding.
    pub discard_time_ms: u64,
}

/// The mathematical value of a `DiskStat`.
pub struct DiskModel {
    pub major: u32,
    pub minor: u32,
    pub name: Seq<char>,
    pub reads: u64,
    pub reads_merged: u64,
    pub sectors_read: u64,
    pub read_time_ms: u64,
    pub writes: u64,
    pub writes_merged: u64,
    pub sectors_written: u64,
    pub write_time_ms: u64,
    pub io_in_progress: u64,
    pub io_time_ms: u64,
    pub weighted_io_time_ms: u64,
    pub discards: u64,
    pub discards_merged: u64,
    pub sectors_discarded: u64,
    pub discard_time_ms: u64,
}

impl View for DiskStat {
    type V = DiskModel;

    open spec fn view(&self) -> DiskModel {
        DiskModel {
            major: self.major,
            minor: self.minor,
            name: self.name@,
            reads: self.reads,
            reads_merged: self.reads_merged,
            sectors_read: self.sectors_read,
            read_time_ms: self.read_time_ms,
            writes: self.writes,
            writes_merged: self.writes_merged,
            sectors_written: self.sectors_written,
            write_time_ms: self.write_time_ms,
            io_in_progress: self.io_in_progress,
            io_time_ms: self.io_time_ms,
            weighted_io_time_ms: self.weighted_io_time_ms,
            discards: self.discards,
            discards_merged: self.discards_merged,
            sectors_discarded: self.sectors_discarded,
            discard_time_ms: self.discard_time_ms,
        }
    }
}

impl Clone for DiskStat {
    fn clone(&self) -> (r: Self)
        ensures
            r == *self,
    {
        DiskStat {
            major: self.major,
            minor: self.minor,
            name: self.name.clone(),
            reads: self.reads,
            reads_merged: self.reads_merged,
            sectors_read: self.sectors_read,
            read_time_ms: self.read_time_ms,
            writes: self.writes,
            writes_merged: self.writes_merged,
            sectors_written: self.sectors_written,
            write_time_ms: self.write_time_ms,
            io_in_progress: self.io_in_progress,
            io_time_ms: self.io_time_ms,
            weighted_io_time_ms: self.weighted_io_time_ms,
            discards: self.discards,
            discards_merged: self.discards_merged,
            sectors_discarded: self.sectors_discarded,
            discard_time_ms: self.discard_time_ms,
        }
    }
}

/// One sample of a network interface's counters.
#[derive(Clone, Copy, Debug, PartialEq, Eq, Structural)]
pub struct NetStat {
    pub rx_bytes: u64,
    pub tx_bytes: u64,
    pub rx_pkts: u64,
    pub tx_pkts: u64,
    pub rx_errs: u64,
    pub tx_errs: u64,
    pub rx_drop: u64,
    pub tx_drop: u64,
}

/// One sample of the system-wide CPU time counters, in jiffies, with the
/// counts of running and blocked processes at that moment. Older kernels do
/// not report guest time.
#[derive(Clone, Copy, Debug, PartialEq, Eq, Structural)]
pub struct CpuStat {
    pub user: u64,
    pub nice: u64,
    pub system: u64,
    pub idle: u64,
    pub iowait: u64,
    pub irq: u64,
    pub softirq: u64,
    pub steal: u64,
    pub guest: Option<u64>,
    pub guest_nice: Option<u64>,
    /// Processes running: a gauge.
    pub procs_running: u64,
    /// Processes blocked on I/O: a gauge.
    pub procs_blocked: u64,
}

impl CpuStat {
    /// The niced guest time is only ever reported together with guest time.
    pub open spec fn wf(self) -> bool {
        self.guest_nice is Some ==> self.guest is Some
    }
}

/// One sample of the memory gauges, in kilobytes.
#[derive(Clone, Copy, Debug, PartialEq, Eq, Structural)]
pub struct MemStat {
    pub mem_total: u64,
    pub mem_free: u64,
    pub mem_available: u64,
    pub buffers: u64,
    pub cached: u64,
    pub swap_total: u64,
    pub swap_free: u64,
    pub dirty: u64,
    pub writeback: u64,
    pub active_file: u64,
    pub inactive_file: u64,
    pub slab: u64,
    pub kreclaimable: u64,
    pub sreclaimable: u64,
}

/// What one snapshot holds, by domain.
#[derive(Debug, PartialEq, Eq)]
pub enum Sample {
    Disk(DiskStat),
    Net { iface: String, stat: NetStat },
    Cpu(CpuStat),
    Mem(MemStat),
}

/// The mathematical value of a `Sample`.
pub enum SampleModel {
    Disk(DiskModel),
    Net { iface: Seq<char>, stat: NetStat },
    Cpu(CpuStat),
    Mem(MemStat),
}

impl View for Sample {
    type V = SampleModel;

    open spec fn view(&self) -> SampleModel {
        match *self {
            Sample::Disk(d) => SampleModel::Disk(d@),
            Sample::Net { iface, stat } => SampleModel::Net { iface: iface@, stat },
            Sample::Cpu(c) => SampleModel::Cpu(c),
            Sample::Mem(m) => SampleModel::Mem(m),
        }
    }
}

impl SampleModel {
    /// The entity that the sample was taken of.
    pub open spec fn key(self) -> KeyModel {
        match self {
            SampleModel::Disk(d) => KeyModel::Disk { major: d.major, minor: d.minor, name: d.name },
            SampleModel::Net { iface, stat } => KeyModel::Net { iface },
            SampleModel::Cpu(c) => KeyModel::Cpu,
            SampleModel::Mem(m) => KeyModel::Mem,
        }
    }
}

impl Clone for Sample {
    fn clone(&self) -> (r: Self)
        ensures
            r == *self,
    {
        match self {
            Sample::Disk(d) => Sample::Disk(d.clone()),
            Sample::Net { iface, stat } => Sample::Net { iface: iface.clone(), stat: *stat },
            Sample::Cpu(c) => Sample::Cpu(*c),
            Sample::Mem(m) => Sample::Mem(*m),
        }
    }
}

/// One timestamped reading of an entity's raw counters.
#[derive(Debug, PartialEq, Eq)]
pub struct RawSnapshot {
    /// Seconds since the epoch.
    pub timestamp: u64,
    pub sample: Sample,
}

/// The mathematical value of a `RawSnapshot`.
pub struct SnapshotModel {
    pub timestamp: u64,
    pub sample: SampleModel,
}

impl View for RawSnapshot {
    type V = SnapshotModel;

    open spec fn view(&self) -> SnapshotModel {
        SnapshotModel { timestamp: self.timestamp, sample: self.sample@ }
    }
}

/// The mathematical value of a run of snapshots.
pub open spec fn snapshots_view(s: Seq<RawSnapshot>) -> Seq<SnapshotModel> {
    Seq::new(s.len(), |i: int| s[i]@)
}

/// The mathematical value of an optional snapshot.
pub open spec fn snapshot_view(s: Option<RawSnapshot>) -> Option<SnapshotModel> {
    match s {
        Some(s) => Some(s@),
        None => None,
    }
}

impl SnapshotModel {
    /// The entity that the snapshot was taken of.
    pub open spec fn key(self) -> KeyModel {
        self.sample.key()
    }
}

impl Clone for RawSnapshot {
    fn clone(&self) -> (r: Self)
        ensures
            r == *self,
    {
        RawSnapshot { timestamp: self.timestamp, sample: self.sample.clone() }
    }
}

impl RawSnapshot {
    /// The key of the entity that the snapshot was taken of.
    pub fn key(&self) -> (k: EntityKey)
        ensures
            k@ == self@.key(),
    {
        match &self.sample {
            Sample::Disk(d) => EntityKey::Disk {
                major: d.major,
                minor: d.minor,
                name: d.name.clone(),
            },
            Sample::Net { iface, stat } => EntityKey::Net { iface: iface.clone() },
            Sample::Cpu(_) => EntityKey::Cpu,
            Sample::Mem(_) => EntityKey::Mem,
        }
    }
}

} // verus!
