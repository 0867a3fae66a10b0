//! The delta engine: from two successive snapshots of one entity to the
//! rates, latencies and utilisations of the interval between them.

use vstd::prelude::*;
use crate::ratio::{percent_of, ratio_of, Ratio};
use crate::snapshot::{
    CpuStat, DiskModel, DiskStat, EntityKey, KeyModel, MemStat, NetStat, RawSnapshot, Sample,
    SampleModel, SnapshotModel,
};

verus! {

/// The growth of a counter from `prior` to `current`, or zero where the
/// counter went backwards.
pub open spec fn sat_sub(current: u64, prior: u64) -> u64 {
    if current >= prior {
        (current - prior) as u64
    } else {
        0
    }
}

/// The growth of a counter between two samples. A counter that went
/// backwards, after a reset or a wraparound, counts as not having moved.
pub fn counter_delta(current: u64, prior: u64) -> (d: u64)
    ensures
        d == sat_sub(current, prior),
        current < prior ==> d == 0,
        current >= prior ==> d == current - prior,
{
    if current >= prior {
        current - prior
    } else {
        0
    }
}

/// The value of an optional counter, an absent one counting as zero.
pub open spec fn or_zero(c: Option<u64>) -> u64 {
    match c {
        Some(v) => v,
        None => 0,
    }
}

/// The growth of each disk counter over one interval.
#[derive(Clone, Copy, Debug, PartialEq, Eq, Structural)]
pub struct DiskDeltas {
    pub reads: u64,
    pub reads_merged: u64,
    pub sectors_read: u64,
    pub read_time_ms: u64,
    pub writes: u64,
    pub writes_merged: u64,
    pub sectors_written: u64,
    pub write_time_ms: u64,
    pub io_time_ms: u64,
    pub weighted_io_time_ms: u64,
    pub discards: u64,
    pub discards_merged: u64,
    pub sectors_discarded: u64,
    pub discard_time_ms: u64,
}

/// The disk rates and latencies of one interval.
#[derive(Clone, Copy, Debug, PartialEq, Eq, Structural)]
pub struct IntervalDiskMetrics {
    /// The end of the interval, in seconds since the epoch.
    pub ts: u64,
    /// Reads per second.
    pub rps: Ratio,
    /// Writes per second.
    pub wps: Ratio,
    /// Reads and writes per second.
    pub io_sec: Ratio,
    /// Kilobytes read per second.
    pub rd_kbs: Ratio,
    /// Kilobytes written per second.
    pub wr_kbs: Ratio,
    /// Kilobytes read and written per second.
    pub kb_sec: Ratio,
    /// Average queue depth: weighted I/O time over elapsed time.
    pub avg_queue_depth: Ratio,
    /// Queue length: weighted I/O time over busy time.
    pub qlen: Ratio,
    /// Service time per I/O, in milliseconds.
    pub svctim: Ratio,
    /// Average time a read took, in milliseconds.
    pub await_rd: Ratio,
    /// Average time a write took, in milliseconds.
    pub await_wr: Ratio,
    /// Discards per second.
    pub discards_s: Ratio,
    /// Discard merges per second.
    pub discards_merged_s: Ratio,
    /// Sectors discarded per second.
    pub sectors_discarded_s: Ratio,
    /// Kilobytes discarded per second.
    pub discard_kbs: Ratio,
    /// Average time a discard took, in milliseconds.
    pub await_discard_ms: Ratio,
}

/// The network rates of one interval, each per second.
#[derive(Clone, Copy, Debug, PartialEq, Eq, Structural)]
pub struct IntervalNetMetrics {
    pub ts: u64,
    pub rx_bytes: Ratio,
    pub tx_bytes: Ratio,
    pub rx_pkts: Ratio,
    pub tx_pkts: Ratio,
    pub rx_errs: Ratio,
    pub tx_errs: Ratio,
    pub rx_drop: Ratio,
    pub tx_drop: Ratio,
}

/// The shares of CPU time of one interval, in percent of all the time
/// accounted for, with the process counts at its end.
#[derive(Clone, Copy, Debug, PartialEq, Eq, Structural)]
pub struct CpuMetrics {
    pub ts: u64,
    /// User time, niced time included.
    pub user: Ratio,
    /// Niced user time alone.
    pub nice: Ratio,
    pub sys: Ratio,
    pub idle: Ratio,
    pub iowait: Ratio,
    /// Guest time, which the kernel also counts as user time.
    pub guest: Ratio,
    pub running: u64,
    pub blocked: u64,
}

/// The shares of memory at one moment, in percent of all memory.
#[derive(Clone, Copy, Debug, PartialEq, Eq, Structural)]
pub struct MemMetrics {
    pub ts: u64,
    pub used_percent: Ratio,
    pub avail_percent: Ratio,
    pub cached_percent: Ratio,
    pub free_percent: Ratio,
}

/// What was derived for one interval, by domain.
#[derive(Clone, Copy, Debug, PartialEq, Eq, Structural)]
pub enum Derived {
    Disk(DiskDeltas, IntervalDiskMetrics),
    Net(NetStat, IntervalNetMetrics),
    Cpu(CpuMetrics),
    Mem(MemMetrics),
}

/// The metric of one interval of one entity.
#[derive(Debug, PartialEq, Eq)]
pub struct IntervalMetric {
    pub key: EntityKey,
    /// The end of the interval, in seconds since the epoch.
    pub timestamp: u64,
    /// The length of the interval, in seconds.
    pub dt: u64,
    pub derived: Derived,
}

/// The mathematical value of an `IntervalMetric`.
pub struct MetricModel {
    pub key: KeyModel,
    pub timestamp: u64,
    pub dt: u64,
    pub derived: Derived,
}

impl View for IntervalMetric {
    type V = MetricModel;

    open spec fn view(&self) -> MetricModel {
        MetricModel {
            key: self.key@,
            timestamp: self.timestamp,
            dt: self.dt,
            derived: self.derived,
        }
    }
}

impl Clone for IntervalMetric {
    fn clone(&self) -> (r: Self)
        ensures
            r == *self,
    {
        IntervalMetric {
            key: self.key.clone(),
            timestamp: self.timestamp,
            dt: self.dt,
            derived: self.derived,
        }
    }
}

/// The growth of each disk counter from `p` to `c`.
pub open spec fn disk_deltas_of(p: DiskModel, c: DiskModel) -> DiskDeltas {
    DiskDeltas {
        reads: sat_sub(c.reads, p.reads),
        reads_merged: sat_sub(c.reads_merged, p.reads_merged),
        sectors_read: sat_sub(c.sectors_read, p.sectors_read),
        read_time_ms: sat_sub(c.read_time_ms, p.read_time_ms),
        writes: sat_sub(c.writes, p.writes),
        writes_merged: sat_sub(c.writes_merged, p.writes_merged),
        sectors_written: sat_sub(c.sectors_written, p.sectors_written),
        write_time_ms: sat_sub(c.write_time_ms, p.write_time_ms),
        io_time_ms: sat_sub(c.io_time_ms, p.io_time_ms),
        weighted_io_time_ms: sat_sub(c.weighted_io_time_ms, p.weighted_io_time_ms),
        discards: sat_sub(c.discards, p.discards),
        discards_merged: sat_sub(c.discards_merged, p.discards_merged),
        sectors_discarded: sat_sub(c.sectors_discarded, p.sectors_discarded),
        discard_time_ms: sat_sub(c.discard_time_ms, p.discard_time_ms),
    }
}

/// The disk metrics of an interval of `dt` seconds that ends at `ts`.
/// A sector is 512 bytes and a kilobyte 1024.
pub open spec fn disk_rates_of(ts: u64, dt: u64, d: DiskDeltas) -> IntervalDiskMetrics {
    IntervalDiskMetrics {
        ts,
        rps: ratio_of(d.reads as int, dt as int),
        wps: ratio_of(d.writes as int, dt as int),
        io_sec: ratio_of(d.reads + d.writes, dt as int),
        rd_kbs: ratio_of(d.sectors_read * 512, dt * 1024),
        wr_kbs: ratio_of(d.sectors_written * 512, dt * 1024),
        kb_sec: ratio_of((d.sectors_read + d.sectors_written) * 512, dt * 1024),
        avg_queue_depth: ratio_of(d.weighted_io_time_ms as int, dt * 1000),
        qlen: ratio_of(d.weighted_io_time_ms as int, d.io_time_ms as int),
        svctim: ratio_of(d.io_time_ms as int, d.reads + d.writes),
        await_rd: ratio_of(d.read_time_ms as int, d.reads as int),
        await_wr: ratio_of(d.write_time_ms as int, d.writes as int),
        discards_s: ratio_of(d.discards as int, dt as int),
        discards_merged_s: ratio_of(d.discards_merged as int, dt as int),
        sectors_discarded_s: ratio_of(d.sectors_discarded as int, dt as int),
        discard_kbs: ratio_of(d.sectors_discarded * 512, dt * 1024),
        await_discard_ms: ratio_of(d.discard_time_ms as int, d.discards as int),
    }
}

/// The growth of each network counter from `p` to `c`.
pub open spec fn net_deltas_of(p: NetStat, c: NetStat) -> NetStat {
    NetStat {
        rx_bytes: sat_sub(c.rx_bytes, p.rx_bytes),
        tx_bytes: sat_sub(c.tx_bytes, p.tx_bytes),
        rx_pkts: sat_sub(c.rx_pkts, p.rx_pkts),
        tx_pkts: sat_sub(c.tx_pkts, p.tx_pkts),
        rx_errs: sat_sub(c.rx_errs, p.rx_errs),
        tx_errs: sat_sub(c.tx_errs, p.tx_errs),
        rx_drop: sat_sub(c.rx_drop, p.rx_drop),
        tx_drop: sat_sub(c.tx_drop, p.tx_drop),
    }
}

/// The network rates of an interval of `dt` seconds that ends at `ts`.
pub open spec fn net_rates_of(ts: u64, dt: u64, d: NetStat) -> IntervalNetMetrics {
    IntervalNetMetrics {
        ts,
        rx_bytes: ratio_of(d.rx_bytes as int, dt as int),
        tx_bytes: ratio_of(d.tx_bytes as int, dt as int),
        rx_pkts: ratio_of(d.rx_pkts as int, dt as int),
        tx_pkts: ratio_of(d.tx_pkts as int, dt as int),
        rx_errs: ratio_of(d.rx_errs as int, dt as int),
        tx_errs: ratio_of(d.tx_errs as int, dt as int),
        rx_drop: ratio_of(d.rx_drop as int, dt as int),
        tx_drop: ratio_of(d.tx_drop as int, dt as int),
    }
}

/// All the CPU time accounted for between `p` and `c`, guest time included.
pub open spec fn cpu_total_of(p: CpuStat, c: CpuStat) -> int {
    sat_sub(c.user, p.user) + sat_sub(c.nice, p.nice) + sat_sub(c.system, p.system) + sat_sub(
        c.idle,
        p.idle,
    ) + sat_sub(c.iowait, p.iowait) + sat_sub(c.irq, p.irq) + sat_sub(c.softirq, p.softirq)
        + sat_sub(c.steal, p.steal) + sat_sub(or_zero(c.guest), or_zero(p.guest)) + sat_sub(
        or_zero(c.guest_nice),
        or_zero(p.guest_nice),
    )
}

/// The CPU shares of the interval from `p` to `c`, which ends at `ts`.
pub open spec fn cpu_metrics_of(ts: u64, p: CpuStat, c: CpuStat) -> CpuMetrics {
    let total = cpu_total_of(p, c);
    CpuMetrics {
        ts,
        user: percent_of(sat_sub(c.user, p.user) + sat_sub(c.nice, p.nice), total),
        nice: percent_of(sat_sub(c.nice, p.nice) as int, total),
        sys: percent_of(sat_sub(c.system, p.system) as int, total),
        idle: percent_of(sat_sub(c.idle, p.idle) as int, total),
        iowait: percent_of(sat_sub(c.iowait, p.iowait) as int, total),
        guest: percent_of(sat_sub(or_zero(c.guest), or_zero(p.guest)) as int, total),
        running: c.procs_running,
        blocked: c.procs_blocked,
    }
}

/// The memory shares of the sample `m`, taken at `ts`. Used memory is what
/// is not free.
pub open spec fn mem_metrics_of(ts: u64, m: MemStat) -> MemMetrics {
    MemMetrics {
        ts,
        used_percent: percent_of(m.mem_total - m.mem_free, m.mem_total as int),
        avail_percent: percent_of(m.mem_available as int, m.mem_total as int),
        cached_percent: percent_of(m.cached as int, m.mem_total as int),
        free_percent: percent_of(m.mem_free as int, m.mem_total as int),
    }
}

/// What is derived from the samples `p` and `c` for an interval of `dt`
/// seconds that ends at `ts`; nothing where the two are of different domains.
pub open spec fn derived_of(p: SampleModel, c: SampleModel, ts: u64, dt: u64) -> Option<Derived> {
    match c {
        SampleModel::Disk(cd) => match p {
            SampleModel::Disk(pd) => Some(
                Derived::Disk(
                    disk_deltas_of(pd, cd),
                    disk_rates_of(ts, dt, disk_deltas_of(pd, cd)),
                ),
            ),
            _ => None,
        },
        SampleModel::Net { iface, stat } => match p {
            SampleModel::Net { iface: prior_iface, stat: prior_stat } => Some(
                Derived::Net(
                    net_deltas_of(prior_stat, stat),
                    net_rates_of(ts, dt, net_deltas_of(prior_stat, stat)),
                ),
            ),
            _ => None,
        },
        SampleModel::Cpu(cc) => match p {
            SampleModel::Cpu(pc) => Some(Derived::Cpu(cpu_metrics_of(ts, pc, cc))),
            _ => None,
        },
        SampleModel::Mem(cm) => match p {
            SampleModel::Mem(pm) => Some(Derived::Mem(mem_metrics_of(ts, cm))),
            _ => None,
        },
    }
}

/// The metric of the interval from `prior` to `current`: there is one when
/// both are of the same entity and time has moved forward.
pub open spec fn interval_of(prior: SnapshotModel, current: SnapshotModel) -> Option<MetricModel> {
    if current.timestamp <= prior.timestamp || prior.key() != current.key() {
        None
    } else {
        let dt = (current.timestamp - prior.timestamp) as u64;
        match derived_of(prior.sample, current.sample, current.timestamp, dt) {
            Some(derived) => Some(
                MetricModel { key: current.key(), timestamp: current.timestamp, dt, derived },
            ),
            None => None,
        }
    }
}

/// Between two snapshots of one entity there is a metric exactly when time
/// has moved forward, and its length is then the difference of the two
/// timestamps.
pub proof fn lemma_interval_length(prior: SnapshotModel, current: SnapshotModel)
    requires
        prior.key() == current.key(),
    ensures
        current.timestamp > prior.timestamp ==> interval_of(prior, current) is Some
            && interval_of(prior, current)->0.dt == current.timestamp - prior.timestamp
            && interval_of(prior, current)->0.timestamp == current.timestamp
            && interval_of(prior, current)->0.key == current.key(),
        current.timestamp <= prior.timestamp ==> interval_of(prior, current) is None,
{
}

/// Every ratio of a metric is well formed, and no rate that is drawn from
/// counters is negative.
pub proof fn lemma_interval_well_formed(prior: SnapshotModel, current: SnapshotModel)
    ensures
        interval_of(prior, current) matches Some(m) ==> m.derived.wf() && m.derived.non_negative()
            && m.dt > 0 && m.key == current.key(),
{
}

/// A counter that went backwards counts as not having moved, and no rate
/// that is drawn from a counter is negative.
pub proof fn lemma_regressed_counter(current: u64, prior: u64, dt: u64)
    ensures
        current < prior ==> sat_sub(current, prior) == 0,
        current < prior ==> ratio_of(sat_sub(current, prior) as int, dt as int).num == 0,
        sat_sub(current, prior) >= 0,
        ratio_of(sat_sub(current, prior) as int, dt as int).num >= 0,
{
}

/// The mathematical value of an optional metric.
pub open spec fn metric_view(m: Option<IntervalMetric>) -> Option<MetricModel> {
    match m {
        Some(m) => Some(m@),
        None => None,
    }
}

impl IntervalDiskMetrics {
    /// Every ratio is well formed.
    pub open spec fn wf(self) -> bool {
        &&& self.rps.wf() && self.wps.wf() && self.io_sec.wf()
        &&& self.rd_kbs.wf() && self.wr_kbs.wf() && self.kb_sec.wf()
        &&& self.avg_queue_depth.wf() && self.qlen.wf() && self.svctim.wf()
        &&& self.await_rd.wf() && self.await_wr.wf()
        &&& self.discards_s.wf() && self.discards_merged_s.wf()
        &&& self.sectors_discarded_s.wf() && self.discard_kbs.wf()
        &&& self.await_discard_ms.wf()
    }

    /// No ratio is negative.
    pub open spec fn non_negative(self) -> bool {
        &&& self.rps.num >= 0 && self.wps.num >= 0 && self.io_sec.num >= 0
        &&& self.rd_kbs.num >= 0 && self.wr_kbs.num >= 0 && self.kb_sec.num >= 0
        &&& self.avg_queue_depth.num >= 0 && self.qlen.num >= 0 && self.svctim.num >= 0
        &&& self.await_rd.num >= 0 && self.await_wr.num >= 0
        &&& self.discards_s.num >= 0 && self.discards_merged_s.num >= 0
        &&& self.sectors_discarded_s.num >= 0 && self.discard_kbs.num >= 0
        &&& self.await_discard_ms.num >= 0
    }
}

impl IntervalNetMetrics {
    /// Every ratio is well formed.
    pub open spec fn wf(self) -> bool {
        &&& self.rx_bytes.wf() && self.tx_bytes.wf() && self.rx_pkts.wf() && self.tx_pkts.wf()
        &&& self.rx_errs.wf() && self.tx_errs.wf() && self.rx_drop.wf() && self.tx_drop.wf()
    }

    /// No ratio is negative.
    pub open spec fn non_negative(self) -> bool {
        &&& self.rx_bytes.num >= 0 && self.tx_bytes.num >= 0
        &&& self.rx_pkts.num >= 0 && self.tx_pkts.num >= 0
        &&& self.rx_errs.num >= 0 && self.tx_errs.num >= 0
        &&& self.rx_drop.num >= 0 && self.tx_drop.num >= 0
    }
}

impl CpuMetrics {
    /// Every ratio is well formed.
    pub open spec fn wf(self) -> bool {
        self.user.wf() && self.nice.wf() && self.sys.wf() && self.idle.wf() && self.iowait.wf()
            && self.guest.wf()
    }

    /// No ratio is negative.
    pub open spec fn non_negative(self) -> bool {
        self.user.num >= 0 && self.nice.num >= 0 && self.sys.num >= 0 && self.idle.num >= 0
            && self.iowait.num >= 0 && self.guest.num >= 0
    }
}

impl MemMetrics {
    /// Every ratio is well formed.
    pub open spec fn wf(self) -> bool {
        self.used_percent.wf() && self.avail_percent.wf() && self.cached_percent.wf()
            && self.free_percent.wf()
    }
}

impl Derived {
    /// Every ratio is well formed.
    pub open spec fn wf(self) -> bool {
        match self {
            Derived::Disk(deltas, rates) => rates.wf(),
            Derived::Net(deltas, rates) => rates.wf(),
            Derived::Cpu(c) => c.wf(),
            Derived::Mem(m) => m.wf(),
        }
    }

    /// No rate drawn from counters is negative. Memory shares are drawn
    /// from gauges, and nothing is said of them.
    pub open spec fn non_negative(self) -> bool {
        match self {
            Derived::Disk(deltas, rates) => rates.non_negative(),
            Derived::Net(deltas, rates) => rates.non_negative(),
            Derived::Cpu(c) => c.non_negative(),
            Derived::Mem(m) => true,
        }
    }
}

/// The growth of each disk counter between two samples.
pub fn disk_deltas(prior: &DiskStat, current: &DiskStat) -> (d: DiskDeltas)
    ensures
        d == disk_deltas_of(prior@, current@),
{
    DiskDeltas {
        reads: counter_delta(current.reads, prior.reads),
        reads_merged: counter_delta(current.reads_merged, prior.reads_merged),
        sectors_read: counter_delta(current.sectors_read, prior.sectors_read),
        read_time_ms: counter_delta(current.read_time_ms, prior.read_time_ms),
        writes: counter_delta(current.writes, prior.writes),
        writes_merged: counter_delta(current.writes_merged, prior.writes_merged),
        sectors_written: counter_delta(current.sectors_written, prior.sectors_written),
        write_time_ms: counter_delta(current.write_time_ms, prior.write_time_ms),
        io_time_ms: counter_delta(current.io_time_ms, prior.io_time_ms),
        weighted_io_time_ms: counter_delta(
            current.weighted_io_time_ms,
            prior.weighted_io_time_ms,
        ),
        discards: counter_delta(current.discards, prior.discards),
        discards_merged: counter_delta(current.discards_merged, prior.discards_merged),
        sectors_discarded: counter_delta(current.sectors_discarded, prior.sectors_discarded),
        discard_time_ms: counter_delta(current.discard_time_ms, prior.discard_time_ms),
    }
}

/// The disk metrics of an interval of `dt` seconds that ends at `ts`, from
/// the growth of the counters over it. A ratio whose denominator is zero
/// is zero.
pub fn disk_rates(ts: u64, dt: u64, d: &DiskDeltas) -> (m: IntervalDiskMetrics)
    ensures
        m == disk_rates_of(ts, dt, *d),
        m.wf(),
        m.non_negative(),
{
    let dt_wide: i128 = dt as i128;
    let ios: i128 = d.reads as i128 + d.writes as i128;
    let sectors: i128 = d.sectors_read as i128 + d.sectors_written as i128;
    IntervalDiskMetrics {
        ts,
        rps: Ratio::new(d.reads as i128, dt_wide),
        wps: Ratio::new(d.writes as i128, dt_wide),
        io_sec: Ratio::new(ios, dt_wide),
        rd_kbs: Ratio::new(d.sectors_read as i128 * 512, dt_wide * 1024),
        wr_kbs: Ratio::new(d.sectors_written as i128 * 512, dt_wide * 1024),
        kb_sec: Ratio::new(sectors * 512, dt_wide * 1024),
        avg_queue_depth: Ratio::new(d.weighted_io_time_ms as i128, dt_wide * 1000),
        qlen: Ratio::new(d.weighted_io_time_ms as i128, d.io_time_ms as i128),
        svctim: Ratio::new(d.io_time_ms as i128, ios),
        await_rd: Ratio::new(d.read_time_ms as i128, d.reads as i128),
        await_wr: Ratio::new(d.write_time_ms as i128, d.writes as i128),
        discards_s: Ratio::new(d.discards as i128, dt_wide),
        discards_merged_s: Ratio::new(d.discards_merged as i128, dt_wide),
        sectors_discarded_s: Ratio::new(d.sectors_discarded as i128, dt_wide),
        discard_kbs: Ratio::new(d.sectors_discarded as i128 * 512, dt_wide * 1024),
        await_discard_ms: Ratio::new(d.discard_time_ms as i128, d.discards as i128),
    }
}

/// The growth of each network counter between two samples.
pub fn net_deltas(prior: &NetStat, current: &NetStat) -> (d: NetStat)
    ensures
        d == net_deltas_of(*prior, *current),
{
    NetStat {
        rx_bytes: counter_delta(current.rx_bytes, prior.rx_bytes),
        tx_bytes: counter_delta(current.tx_bytes, prior.tx_bytes),
        rx_pkts: counter_delta(current.rx_pkts, prior.rx_pkts),
        tx_pkts: counter_delta(current.tx_pkts, prior.tx_pkts),
        rx_errs: counter_delta(current.rx_errs, prior.rx_errs),
        tx_errs: counter_delta(current.tx_errs, prior.tx_errs),
        rx_drop: counter_delta(current.rx_drop, prior.rx_drop),
        tx_drop: counter_delta(current.tx_drop, prior.tx_drop),
    }
}

/// The network rates of an interval of `dt` seconds that ends at `ts`.
pub fn net_rates(ts: u64, dt: u64, d: &NetStat) -> (m: IntervalNetMetrics)
    ensures
        m == net_rates_of(ts, dt, *d),
        m.wf(),
        m.non_negative(),
{
    let dt_wide: i128 = dt as i128;
    IntervalNetMetrics {
        ts,
        rx_bytes: Ratio::new(d.rx_bytes as i128, dt_wide),
        tx_bytes: Ratio::new(d.tx_bytes as i128, dt_wide),
        rx_pkts: Ratio::new(d.rx_pkts as i128, dt_wide),
        tx_pkts: Ratio::new(d.tx_pkts as i128, dt_wide),
        rx_errs: Ratio::new(d.rx_errs as i128, dt_wide),
        tx_errs: Ratio::new(d.tx_errs as i128, dt_wide),
        rx_drop: Ratio::new(d.rx_drop as i128, dt_wide),
        tx_drop: Ratio::new(d.tx_drop as i128, dt_wide),
    }
}

/// The value of an optional counter, an absent one counting as zero.
pub fn counter_or_zero(c: Option<u64>) -> (v: u64)
    ensures
        v == or_zero(c),
{
    match c {
        Some(v) => v,
        None => 0,
    }
}

/// The CPU shares of the interval between two samples, which ends at `ts`.
/// Each share is the growth of one counter in percent of the growth of all
/// of them; where none has grown, every share is zero.
pub fn cpu_metrics(ts: u64, prior: &CpuStat, current: &CpuStat) -> (m: CpuMetrics)
    ensures
        m == cpu_metrics_of(ts, *prior, *current),
        m.wf(),
        m.non_negative(),
        cpu_total_of(*prior, *current) == 0 ==> m.user.num == 0 && m.nice.num == 0 && m.sys.num
            == 0 && m.idle.num == 0 && m.iowait.num == 0 && m.guest.num == 0,
{
    let user: i128 = counter_delta(current.user, prior.user) as i128;
    let nice: i128 = counter_delta(current.nice, prior.nice) as i128;
    let system: i128 = counter_delta(current.system, prior.system) as i128;
    let idle: i128 = counter_delta(current.idle, prior.idle) as i128;
    let iowait: i128 = counter_delta(current.iowait, prior.iowait) as i128;
    let irq: i128 = counter_delta(current.irq, prior.irq) as i128;
    let softirq: i128 = counter_delta(current.softirq, prior.softirq) as i128;
    let steal: i128 = counter_delta(current.steal, prior.steal) as i128;
    let guest: i128 = counter_delta(
        counter_or_zero(current.guest),
        counter_or_zero(prior.guest),
    ) as i128;
    let guest_nice: i128 = counter_delta(
        counter_or_zero(current.guest_nice),
        counter_or_zero(prior.guest_nice),
    ) as i128;
    let total: i128 = user + nice + system + idle + iowait + irq + softirq + steal + guest
        + guest_nice;
    CpuMetrics {
        ts,
        user: Ratio::new((user + nice) * 100, total),
        nice: Ratio::new(nice * 100, total),
        sys: Ratio::new(system * 100, total),
        idle: Ratio::new(idle * 100, total),
        iowait: Ratio::new(iowait * 100, total),
        guest: Ratio::new(guest * 100, total),
        running: current.procs_running,
        blocked: current.procs_blocked,
    }
}

/// The memory shares of one sample, taken at `ts`: each gauge in percent of
/// all memory, or zero where the sample reports no memory at all.
pub fn mem_metrics(ts: u64, m: &MemStat) -> (r: MemMetrics)
    ensures
        r == mem_metrics_of(ts, *m),
        r.wf(),
{
    let total: i128 = m.mem_total as i128;
    MemMetrics {
        ts,
        used_percent: Ratio::new((total - m.mem_free as i128) * 100, total),
        avail_percent: Ratio::new(m.mem_available as i128 * 100, total),
        cached_percent: Ratio::new(m.cached as i128 * 100, total),
        free_percent: Ratio::new(m.mem_free as i128 * 100, total),
    }
}

/// The metric of the interval between two snapshots of one entity.
///
/// There is a metric exactly when both snapshots are of the same entity and
/// `current` is later than `prior`; its `dt` is then the difference of the
/// two timestamps. Counters that went backwards count as not having moved.
pub fn compute(prior: &RawSnapshot, current: &RawSnapshot) -> (r: Option<IntervalMetric>)
    ensures
        metric_view(r) == interval_of(prior@, current@),
        r is Some <==> (current.timestamp > prior.timestamp && prior@.key() == current@.key()),
        r matches Some(m) ==> m.dt == current.timestamp - prior.timestamp && m.timestamp
            == current.timestamp && m.derived.wf() && m.derived.non_negative(),
        current.timestamp <= prior.timestamp ==> r is None,
{
    if current.timestamp <= prior.timestamp {
        return None;
    }
    let key = current.key();
    if !prior.key().same(&key) {
        return None;
    }
    let ts = current.timestamp;
    let dt: u64 = current.timestamp - prior.timestamp;
    let derived = match (&prior.sample, &current.sample) {
        (Sample::Disk(p), Sample::Disk(c)) => {
            let deltas = disk_deltas(p, c);
            Derived::Disk(deltas, disk_rates(ts, dt, &deltas))
        },
        (Sample::Net { iface: _, stat: p }, Sample::Net { iface: _, stat: c }) => {
            let deltas = net_deltas(p, c);
            Derived::Net(deltas, net_rates(ts, dt, &deltas))
        },
        (Sample::Cpu(p), Sample::Cpu(c)) => Derived::Cpu(cpu_metrics(ts, p, c)),
        (Sample::Mem(_), Sample::Mem(c)) => Derived::Mem(mem_metrics(ts, c)),
        _ => {
            assert(false);
            return None;
        },
    };
    Some(IntervalMetric { key, timestamp: ts, dt, derived })
}

} // verus!
