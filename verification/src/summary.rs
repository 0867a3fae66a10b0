//! Summaries of series: the mean and the peak of a chosen metric over a
//! whole series, and the ranking of entities by either.

use vstd::prelude::*;
use crate::delta::{
    Derived, IntervalDiskMetrics, IntervalMetric, IntervalNetMetrics, MetricModel,
};
use crate::ratio::Ratio;
use crate::series::{points_view, Series, SeriesAccumulator};
use crate::snapshot::{EntityKey, KeyModel};

verus! {

/// How many entities a ranking holds at most.
pub const TOP_LIMIT: usize = 50;

/// The disk metrics that can be summarised.
#[derive(Clone, Copy, Debug, PartialEq, Eq, Structural)]
pub enum DiskMetricKind {
    Rps,
    Wps,
    IoSec,
    RdKbs,
    WrKbs,
    KbSec,
    AvgQueueDepth,
    Qlen,
    Svctim,
    AwaitRd,
    AwaitWr,
    DiscardsS,
    DiscardsMergedS,
    SectorsDiscardedS,
    AwaitDiscardMs,
    DiscardKbs,
}

impl IntervalDiskMetrics {
    /// The metric of the given kind.
    pub open spec fn pick(self, kind: DiskMetricKind) -> Ratio {
        match kind {
            DiskMetricKind::Rps => self.rps,
            DiskMetricKind::Wps => self.wps,
            DiskMetricKind::IoSec => self.io_sec,
            DiskMetricKind::RdKbs => self.rd_kbs,
            DiskMetricKind::WrKbs => self.wr_kbs,
            DiskMetricKind::KbSec => self.kb_sec,
            DiskMetricKind::AvgQueueDepth => self.avg_queue_depth,
            DiskMetricKind::Qlen => self.qlen,
            DiskMetricKind::Svctim => self.svctim,
            DiskMetricKind::AwaitRd => self.await_rd,
            DiskMetricKind::AwaitWr => self.await_wr,
            DiskMetricKind::DiscardsS => self.discards_s,
            DiskMetricKind::DiscardsMergedS => self.discards_merged_s,
            DiskMetricKind::SectorsDiscardedS => self.sectors_discarded_s,
            DiskMetricKind::AwaitDiscardMs => self.await_discard_ms,
            DiskMetricKind::DiscardKbs => self.discard_kbs,
        }
    }

    /// The metric of the given kind.
    pub fn get(&self, kind: DiskMetricKind) -> (r: Ratio)
        ensures
            r == self.pick(kind),
    {
        match kind {
            DiskMetricKind::Rps => self.rps,
            DiskMetricKind::Wps => self.wps,
            DiskMetricKind::IoSec => self.io_sec,
            DiskMetricKind::RdKbs => self.rd_kbs,
            DiskMetricKind::WrKbs => self.wr_kbs,
            DiskMetricKind::KbSec => self.kb_sec,
            DiskMetricKind::AvgQueueDepth => self.avg_queue_depth,
            DiskMetricKind::Qlen => self.qlen,
            DiskMetricKind::Svctim => self.svctim,
            DiskMetricKind::AwaitRd => self.await_rd,
            DiskMetricKind::AwaitWr => self.await_wr,
            DiskMetricKind::DiscardsS => self.discards_s,
            DiskMetricKind::DiscardsMergedS => self.discards_merged_s,
            DiskMetricKind::SectorsDiscardedS => self.sectors_discarded_s,
            DiskMetricKind::AwaitDiscardMs => self.await_discard_ms,
            DiskMetricKind::DiscardKbs => self.discard_kbs,
        }
    }
}

/// The disk metrics in the order in which they are reported.
pub open spec fn disk_kinds() -> Seq<DiskMetricKind> {
    seq![
        DiskMetricKind::Rps,
        DiskMetricKind::Wps,
        DiskMetricKind::IoSec,
        DiskMetricKind::RdKbs,
        DiskMetricKind::WrKbs,
        DiskMetricKind::KbSec,
        DiskMetricKind::AvgQueueDepth,
        DiskMetricKind::Qlen,
        DiskMetricKind::Svctim,
        DiskMetricKind::AwaitRd,
        DiskMetricKind::AwaitWr,
        DiskMetricKind::DiscardsS,
        DiskMetricKind::DiscardsMergedS,
        DiskMetricKind::SectorsDiscardedS,
        DiskMetricKind::AwaitDiscardMs,
        DiskMetricKind::DiscardKbs,
    ]
}

/// The disk metrics in the order in which they are reported.
pub fn all_disk_kinds() -> (v: Vec<DiskMetricKind>)
    ensures
        v@ == disk_kinds(),
{
    let mut v: Vec<DiskMetricKind> = Vec::new();
    v.push(DiskMetricKind::Rps);
    v.push(DiskMetricKind::Wps);
    v.push(DiskMetricKind::IoSec);
    v.push(DiskMetricKind::RdKbs);
    v.push(DiskMetricKind::WrKbs);
    v.push(DiskMetricKind::KbSec);
    v.push(DiskMetricKind::AvgQueueDepth);
    v.push(DiskMetricKind::Qlen);
    v.push(DiskMetricKind::Svctim);
    v.push(DiskMetricKind::AwaitRd);
    v.push(DiskMetricKind::AwaitWr);
    v.push(DiskMetricKind::DiscardsS);
    v.push(DiskMetricKind::DiscardsMergedS);
    v.push(DiskMetricKind::SectorsDiscardedS);
    v.push(DiskMetricKind::AwaitDiscardMs);
    v.push(DiskMetricKind::DiscardKbs);
    assert(v@ =~= disk_kinds());
    v
}

impl DiskMetricKind {
    /// The short name of the metric, as it stands in file names.
    pub open spec fn spec_key(self) -> Seq<char> {
        match self {
            DiskMetricKind::Rps => "rps"@,
            DiskMetricKind::Wps => "wps"@,
            DiskMetricKind::IoSec => "io_sec"@,
            DiskMetricKind::RdKbs => "rd_kbs"@,
            DiskMetricKind::WrKbs => "wr_kbs"@,
            DiskMetricKind::KbSec => "kb_sec"@,
            DiskMetricKind::AvgQueueDepth => "avg_queue_depth"@,
            DiskMetricKind::Qlen => "qlen"@,
            DiskMetricKind::Svctim => "svctim"@,
            DiskMetricKind::AwaitRd => "await_rd"@,
            DiskMetricKind::AwaitWr => "await_wr"@,
            DiskMetricKind::DiscardsS => "discards_s"@,
            DiskMetricKind::DiscardsMergedS => "discards_merged_s"@,
            DiskMetricKind::SectorsDiscardedS => "sectors_discarded_s"@,
            DiskMetricKind::AwaitDiscardMs => "await_discard_ms"@,
            DiskMetricKind::DiscardKbs => "discard_kbs"@,
        }
    }

    /// The short name of the metric, as it stands in file names.
    pub fn key(&self) -> (k: &'static str)
        ensures
            k@ == self.spec_key(),
    {
        match self {
            DiskMetricKind::Rps => "rps",
            DiskMetricKind::Wps => "wps",
            DiskMetricKind::IoSec => "io_sec",
            DiskMetricKind::RdKbs => "rd_kbs",
            DiskMetricKind::WrKbs => "wr_kbs",
            DiskMetricKind::KbSec => "kb_sec",
            DiskMetricKind::AvgQueueDepth => "avg_queue_depth",
            DiskMetricKind::Qlen => "qlen",
            DiskMetricKind::Svctim => "svctim",
            DiskMetricKind::AwaitRd => "await_rd",
            DiskMetricKind::AwaitWr => "await_wr",
            DiskMetricKind::DiscardsS => "discards_s",
            DiskMetricKind::DiscardsMergedS => "discards_merged_s",
            DiskMetricKind::SectorsDiscardedS => "sectors_discarded_s",
            DiskMetricKind::AwaitDiscardMs => "await_discard_ms",
            DiskMetricKind::DiscardKbs => "discard_kbs",
        }
    }

    /// The label of the metric, as it stands on a chart.
    pub open spec fn spec_label(self) -> Seq<char> {
        match self {
            DiskMetricKind::Rps => "Read IOPS/sec"@,
            DiskMetricKind::Wps => "Write IOPS/sec"@,
            DiskMetricKind::IoSec => "IO/sec (Total)"@,
            DiskMetricKind::RdKbs => "Read KB/sec"@,
            DiskMetricKind::WrKbs => "Write KB/sec"@,
            DiskMetricKind::KbSec => "KB/sec (Total)"@,
            DiskMetricKind::AvgQueueDepth => "AvgQDepth (interval-avg)"@,
            DiskMetricKind::Qlen => "QueueLen (collectl/iostat style)"@,
            DiskMetricKind::Svctim => "Service Time (ms)"@,
            DiskMetricKind::AwaitRd => "Read Await (ms)"@,
            DiskMetricKind::AwaitWr => "Write Await (ms)"@,
            DiskMetricKind::DiscardsS => "Discards/sec"@,
            DiskMetricKind::DiscardsMergedS => "Discard Merges/sec"@,
            DiskMetricKind::SectorsDiscardedS => "Discard Sectors/sec"@,
            DiskMetricKind::AwaitDiscardMs => "Discard Await (ms)"@,
            DiskMetricKind::DiscardKbs => "Discard KB/sec"@,
        }
    }

    /// The label of the metric, as it stands on a chart.
    pub fn label(&self) -> (k: &'static str)
        ensures
            k@ == self.spec_label(),
    {
        match self {
            DiskMetricKind::Rps => "Read IOPS/sec",
            DiskMetricKind::Wps => "Write IOPS/sec",
            DiskMetricKind::IoSec => "IO/sec (Total)",
            DiskMetricKind::RdKbs => "Read KB/sec",
            DiskMetricKind::WrKbs => "Write KB/sec",
            DiskMetricKind::KbSec => "KB/sec (Total)",
            DiskMetricKind::AvgQueueDepth => "AvgQDepth (interval-avg)",
            DiskMetricKind::Qlen => "QueueLen (collectl/iostat style)",
            DiskMetricKind::Svctim => "Service Time (ms)",
            DiskMetricKind::AwaitRd => "Read Await (ms)",
            DiskMetricKind::AwaitWr => "Write Await (ms)",
            DiskMetricKind::DiscardsS => "Discards/sec",
            DiskMetricKind::DiscardsMergedS => "Discard Merges/sec",
            DiskMetricKind::SectorsDiscardedS => "Discard Sectors/sec",
            DiskMetricKind::AwaitDiscardMs => "Discard Await (ms)",
            DiskMetricKind::DiscardKbs => "Discard KB/sec",
        }
    }
}

/// The network metrics, in the order in which they are reported.
#[derive(Clone, Copy, Debug, PartialEq, Eq, Structural)]
pub enum NetMetricKind {
    RxBytes,
    TxBytes,
    RxPkts,
    TxPkts,
    RxErrs,
    TxErrs,
    RxDrop,
    TxDrop,
}

/// The network metrics in the order in which they are reported.
pub open spec fn net_kinds() -> Seq<NetMetricKind> {
    seq![
        NetMetricKind::RxBytes,
        NetMetricKind::TxBytes,
        NetMetricKind::RxPkts,
        NetMetricKind::TxPkts,
        NetMetricKind::RxErrs,
        NetMetricKind::TxErrs,
        NetMetricKind::RxDrop,
        NetMetricKind::TxDrop,
    ]
}

/// The network metrics in the order in which they are reported.
pub fn all_net_kinds() -> (v: Vec<NetMetricKind>)
    ensures
        v@ == net_kinds(),
{
    let mut v: Vec<NetMetricKind> = Vec::new();
    v.push(NetMetricKind::RxBytes);
    v.push(NetMetricKind::TxBytes);
    v.push(NetMetricKind::RxPkts);
    v.push(NetMetricKind::TxPkts);
    v.push(NetMetricKind::RxErrs);
    v.push(NetMetricKind::TxErrs);
    v.push(NetMetricKind::RxDrop);
    v.push(NetMetricKind::TxDrop);
    assert(v@ =~= net_kinds());
    v
}

impl NetMetricKind {
    /// The short name of the metric, as it stands in file names.
    pub open spec fn spec_key(self) -> Seq<char> {
        match self {
            NetMetricKind::RxBytes => "rx_bytes"@,
            NetMetricKind::TxBytes => "tx_bytes"@,
            NetMetricKind::RxPkts => "rx_pkts"@,
            NetMetricKind::TxPkts => "tx_pkts"@,
            NetMetricKind::RxErrs => "rx_errs"@,
            NetMetricKind::TxErrs => "tx_errs"@,
            NetMetricKind::RxDrop => "rx_drop"@,
            NetMetricKind::TxDrop => "tx_drop"@,
        }
    }

    /// The short name of the metric, as it stands in file names.
    pub fn key(&self) -> (k: &'static str)
        ensures
            k@ == self.spec_key(),
    {
        match self {
            NetMetricKind::RxBytes => "rx_bytes",
            NetMetricKind::TxBytes => "tx_bytes",
            NetMetricKind::RxPkts => "rx_pkts",
            NetMetricKind::TxPkts => "tx_pkts",
            NetMetricKind::RxErrs => "rx_errs",
            NetMetricKind::TxErrs => "tx_errs",
            NetMetricKind::RxDrop => "rx_drop",
            NetMetricKind::TxDrop => "tx_drop",
        }
    }

    /// The label of the metric, as it stands on a chart.
    pub open spec fn spec_label(self) -> Seq<char> {
        match self {
            NetMetricKind::RxBytes => "RX Bytes/sec"@,
            NetMetricKind::TxBytes => "TX Bytes/sec"@,
            NetMetricKind::RxPkts => "RX Packets/sec"@,
            NetMetricKind::TxPkts => "TX Packets/sec"@,
            NetMetricKind::RxErrs => "RX Errors/sec"@,
            NetMetricKind::TxErrs => "TX Errors/sec"@,
            NetMetricKind::RxDrop => "RX Drops/sec"@,
            NetMetricKind::TxDrop => "TX Drops/sec"@,
        }
    }

    /// The label of the metric, as it stands on a chart.
    pub fn label(&self) -> (k: &'static str)
        ensures
            k@ == self.spec_label(),
    {
        match self {
            NetMetricKind::RxBytes => "RX Bytes/sec",
            NetMetricKind::TxBytes => "TX Bytes/sec",
            NetMetricKind::RxPkts => "RX Packets/sec",
            NetMetricKind::TxPkts => "TX Packets/sec",
            NetMetricKind::RxErrs => "RX Errors/sec",
            NetMetricKind::TxErrs => "TX Errors/sec",
            NetMetricKind::RxDrop => "RX Drops/sec",
            NetMetricKind::TxDrop => "TX Drops/sec",
        }
    }
}

impl IntervalNetMetrics {
    /// The metric of the given kind.
    pub open spec fn pick(self, kind: NetMetricKind) -> Ratio {
        match kind {
            NetMetricKind::RxBytes => self.rx_bytes,
            NetMetricKind::TxBytes => self.tx_bytes,
            NetMetricKind::RxPkts => self.rx_pkts,
            NetMetricKind::TxPkts => self.tx_pkts,
            NetMetricKind::RxErrs => self.rx_errs,
            NetMetricKind::TxErrs => self.tx_errs,
            NetMetricKind::RxDrop => self.rx_drop,
            NetMetricKind::TxDrop => self.tx_drop,
        }
    }

    /// The metric of the given kind.
    pub fn get(&self, kind: NetMetricKind) -> (r: Ratio)
        ensures
            r == self.pick(kind),
    {
        match kind {
            NetMetricKind::RxBytes => self.rx_bytes,
            NetMetricKind::TxBytes => self.tx_bytes,
            NetMetricKind::RxPkts => self.rx_pkts,
            NetMetricKind::TxPkts => self.tx_pkts,
            NetMetricKind::RxErrs => self.rx_errs,
            NetMetricKind::TxErrs => self.tx_errs,
            NetMetricKind::RxDrop => self.rx_drop,
            NetMetricKind::TxDrop => self.tx_drop,
        }
    }
}

/// Whether every one of the ratios is zero.
pub open spec fn all_zero_of(v: Seq<Ratio>) -> bool {
    forall|i: int| 0 <= i < v.len() ==> (#[trigger] v[i]).num == 0
}

/// Whether every one of the ratios is zero: a series that is nothing but
/// zeros is not worth a chart.
pub fn all_zero(v: &Vec<Ratio>) -> (b: bool)
    ensures
        b == all_zero_of(v@),
{
    let mut i: usize = 0;
    while i < v.len()
        invariant
            i <= v.len(),
            forall|j: int| 0 <= j < i ==> (#[trigger] v@[j]).num == 0,
        decreases v.len() - i,
    {
        if v[i].num != 0 {
            return false;
        }
        i += 1;
    }
    true
}

/// The exact values of one disk metric over a series; a metric of another
/// domain reads as zero.
pub open spec fn disk_ratios_of(points: Seq<MetricModel>, kind: DiskMetricKind) -> Seq<Ratio> {
    Seq::new(
        points.len(),
        |i: int|
            match points[i].derived {
                Derived::Disk(deltas, rates) => rates.pick(kind),
                _ => crate::ratio::ratio_of(0, 0),
            },
    )
}

/// The exact values of one disk metric over a series.
pub fn disk_ratios(points: &Vec<IntervalMetric>, kind: DiskMetricKind) -> (v: Vec<Ratio>)
    ensures
        v@ == disk_ratios_of(points_view(points@), kind),
{
    let mut v: Vec<Ratio> = Vec::new();
    let mut i: usize = 0;
    while i < points.len()
        invariant
            i <= points.len(),
            v@ == disk_ratios_of(points_view(points@), kind).take(i as int),
        decreases points.len() - i,
    {
        let r = match points[i].derived {
            Derived::Disk(_, rates) => rates.get(kind),
            _ => Ratio::zero(),
        };
        v.push(r);
        assert(v@ =~= disk_ratios_of(points_view(points@), kind).take(i + 1));
        i += 1;
    }
    assert(v@ =~= disk_ratios_of(points_view(points@), kind));
    v
}

/// The exact values of one network metric over a series; a metric of
/// another domain reads as zero.
pub open spec fn net_ratios_of(points: Seq<MetricModel>, kind: NetMetricKind) -> Seq<Ratio> {
    Seq::new(
        points.len(),
        |i: int|
            match points[i].derived {
                Derived::Net(deltas, rates) => rates.pick(kind),
                _ => crate::ratio::ratio_of(0, 0),
            },
    )
}

/// The exact values of one network metric over a series.
pub fn net_ratios(points: &Vec<IntervalMetric>, kind: NetMetricKind) -> (v: Vec<Ratio>)
    ensures
        v@ == net_ratios_of(points_view(points@), kind),
{
    let mut v: Vec<Ratio> = Vec::new();
    let mut i: usize = 0;
    while i < points.len()
        invariant
            i <= points.len(),
            v@ == net_ratios_of(points_view(points@), kind).take(i as int),
        decreases points.len() - i,
    {
        let r = match points[i].derived {
            Derived::Net(_, rates) => rates.get(kind),
            _ => Ratio::zero(),
        };
        v.push(r);
        assert(v@ =~= net_ratios_of(points_view(points@), kind).take(i + 1));
        i += 1;
    }
    assert(v@ =~= net_ratios_of(points_view(points@), kind));
    v
}

/// The disk metric of the given kind of one interval, in thousandths. A
/// metric of another domain reads as zero.
pub open spec fn milli_of(m: MetricModel, kind: DiskMetricKind) -> u64 {
    match m.derived {
        Derived::Disk(deltas, rates) => rates.pick(kind).spec_milli(),
        _ => 0,
    }
}

/// The values of one disk metric over a series, in thousandths.
pub open spec fn values_of(points: Seq<MetricModel>, kind: DiskMetricKind) -> Seq<u64> {
    Seq::new(points.len(), |i: int| milli_of(points[i], kind))
}

/// The sum of the values.
pub open spec fn sum_of(v: Seq<u64>) -> nat
    decreases v.len(),
{
    if v.len() == 0 {
        0
    } else {
        sum_of(v.drop_last()) + v.last() as nat
    }
}

/// The arithmetic mean of the values, rounded down; zero where there are none.
pub open spec fn mean_of(v: Seq<u64>) -> nat {
    if v.len() == 0 {
        0
    } else {
        sum_of(v) / v.len()
    }
}

/// The largest of the values; zero where there are none.
pub open spec fn peak_of(v: Seq<u64>) -> u64
    decreases v.len(),
{
    if v.len() == 0 {
        0
    } else if v.last() > peak_of(v.drop_last()) {
        v.last()
    } else {
        peak_of(v.drop_last())
    }
}

/// The peak is no smaller than any value, and is one of the values unless
/// there are none.
pub proof fn lemma_peak(v: Seq<u64>)
    ensures
        forall|i: int| 0 <= i < v.len() ==> v[i] <= peak_of(v),
        v.len() > 0 ==> exists|i: int| 0 <= i < v.len() && v[i] == peak_of(v),
    decreases v.len(),
{
    if v.len() > 0 {
        let head = v.drop_last();
        lemma_peak(head);
        assert forall|i: int| 0 <= i < v.len() implies v[i] <= peak_of(v) by {
            if i < head.len() {
                assert(v[i] == head[i]);
            }
        }
        if v.last() > peak_of(head) || head.len() == 0 {
            assert(v[v.len() - 1] == peak_of(v));
        } else {
            let i = choose|i: int| 0 <= i < head.len() && head[i] == peak_of(head);
            assert(v[i] == peak_of(v));
        }
    }
}

/// The values of one disk metric over a series, in thousandths.
pub fn series_values(points: &Vec<IntervalMetric>, kind: DiskMetricKind) -> (v: Vec<u64>)
    ensures
        v@ == values_of(points_view(points@), kind),
{
    let mut v: Vec<u64> = Vec::new();
    let mut i: usize = 0;
    while i < points.len()
        invariant
            i <= points.len(),
            v@ == values_of(points_view(points@), kind).take(i as int),
        decreases points.len() - i,
    {
        let m: u64 = match points[i].derived {
            Derived::Disk(_, rates) => rates.get(kind).milli(),
            _ => 0,
        };
        v.push(m);
        assert(v@ =~= values_of(points_view(points@), kind).take(i + 1));
        i += 1;
    }
    assert(values_of(points_view(points@), kind).take(i as int) =~= values_of(
        points_view(points@),
        kind,
    ));
    v
}

/// The arithmetic mean of the values, rounded down; zero where there are none.
pub fn mean(values: &Vec<u64>) -> (m: u64)
    ensures
        m == mean_of(values@),
{
    let n = values.len();
    if n == 0 {
        return 0;
    }
    let mut total: u128 = 0;
    let mut i: usize = 0;
    assert(values@.take(0) =~= Seq::<u64>::empty());
    while i < n
        invariant
            i <= n,
            n == values.len(),
            total == sum_of(values@.take(i as int)),
            total <= i * u64::MAX,
        decreases n - i,
    {
        proof {
            assert(values@.take(i + 1).drop_last() =~= values@.take(i as int));
            assert(values@.take(i + 1).last() == values@[i as int]);
            assert(i * u64::MAX + u64::MAX == (i + 1) * u64::MAX) by (nonlinear_arith);
            assert((i + 1) * u64::MAX <= usize::MAX * u64::MAX) by (nonlinear_arith)
                requires
                    i + 1 <= usize::MAX,
            ;
            assert(usize::MAX * u64::MAX <= u64::MAX * u64::MAX) by (nonlinear_arith)
                requires
                    usize::MAX <= u64::MAX,
            ;
        }
        total = total + values[i] as u128;
        i += 1;
    }
    assert(values@.take(n as int) =~= values@);
    let q: u128 = total / (n as u128);
    assert(q <= u64::MAX) by (nonlinear_arith)
        requires
            q == total / (n as u128),
            total <= n * u64::MAX,
            n > 0,
    ;
    q as u64
}

/// The largest of the values; zero where there are none.
pub fn peak(values: &Vec<u64>) -> (m: u64)
    ensures
        m == peak_of(values@),
        forall|i: int| 0 <= i < values@.len() ==> values@[i] <= m,
        values@.len() > 0 ==> exists|i: int| 0 <= i < values@.len() && values@[i] == m,
{
    let mut best: u64 = 0;
    let mut i: usize = 0;
    assert(values@.take(0) =~= Seq::<u64>::empty());
    while i < values.len()
        invariant
            i <= values.len(),
            best == peak_of(values@.take(i as int)),
        decreases values.len() - i,
    {
        proof {
            assert(values@.take(i + 1).drop_last() =~= values@.take(i as int));
            assert(values@.take(i + 1).last() == values@[i as int]);
        }
        if values[i] > best {
            best = values[i];
        }
        i += 1;
    }
    proof {
        assert(values@.take(i as int) =~= values@);
        lemma_peak(values@);
    }
    best
}

/// The mean and the peak of one metric over the series of one entity, both
/// in thousandths.
#[derive(Debug, PartialEq, Eq)]
pub struct Summary {
    pub key: EntityKey,
    pub mean: u64,
    pub peak: u64,
}

/// The mathematical value of a `Summary`.
pub struct SummaryModel {
    pub key: KeyModel,
    pub mean: u64,
    pub peak: u64,
}

impl View for Summary {
    type V = SummaryModel;

    open spec fn view(&self) -> SummaryModel {
        SummaryModel { key: self.key@, mean: self.mean, peak: self.peak }
    }
}

/// The summary of the metric `kind` over the points of the entity `key`.
pub open spec fn summary_of(
    key: KeyModel,
    points: Seq<MetricModel>,
    kind: DiskMetricKind,
) -> SummaryModel {
    SummaryModel {
        key,
        mean: mean_of(values_of(points, kind)) as u64,
        peak: peak_of(values_of(points, kind)),
    }
}

/// The summaries of the disk series among `series`, in the same order.
pub open spec fn disk_summaries(series: Seq<Series>, kind: DiskMetricKind) -> Seq<SummaryModel>
    decreases series.len(),
{
    if series.len() == 0 {
        Seq::empty()
    } else {
        let head = disk_summaries(series.drop_last(), kind);
        let last = series.last();
        if last.key@ is Disk {
            head.push(summary_of(last.key@, points_view(last.points@), kind))
        } else {
            head
        }
    }
}

/// The views of a run of summaries.
pub open spec fn summaries_view(rows: Seq<Summary>) -> Seq<SummaryModel> {
    Seq::new(rows.len(), |i: int| rows[i]@)
}

/// Summarises one series: the mean and the peak of the metric `kind` over
/// all of its intervals.
pub fn summarize(series: &Series, kind: DiskMetricKind) -> (s: Summary)
    ensures
        s@ == summary_of(series.key@, points_view(series.points@), kind),
{
    let values = series_values(&series.points, kind);
    Summary { key: series.key.clone(), mean: mean(&values), peak: peak(&values) }
}

/// Summarises the series of every disk, in the order in which the disks
/// were first seen.
pub fn summarize_disks(all: &SeriesAccumulator, kind: DiskMetricKind) -> (rows: Vec<Summary>)
    ensures
        summaries_view(rows@) == disk_summaries(all.in_order(), kind),
{
    let mut rows: Vec<Summary> = Vec::new();
    let mut i: usize = 0;
    assert(all.in_order().take(0) =~= Seq::<Series>::empty());
    assert(summaries_view(rows@) =~= Seq::<SummaryModel>::empty());
    while i < all.len()
        invariant
            i <= all.in_order().len(),
            summaries_view(rows@) == disk_summaries(all.in_order().take(i as int), kind),
        decreases all.in_order().len() - i,
    {
        let series = all.at(i);
        proof {
            assert(all.in_order().take(i + 1).drop_last() =~= all.in_order().take(i as int));
            assert(all.in_order().take(i + 1).last() == *series);
        }
        let is_disk = match &series.key {
            EntityKey::Disk { .. } => true,
            _ => false,
        };
        if is_disk {
            let ghost before = summaries_view(rows@);
            let row = summarize(series, kind);
            rows.push(row);
            assert(summaries_view(rows@) =~= before.push(row@));
        }
        i += 1;
    }
    assert(all.in_order().take(i as int) =~= all.in_order());
    rows
}

/// Whether the entity at place `a` ranks before the one at place `b`: it
/// has the larger value or, where the values are equal, the earlier place.
pub open spec fn ranks_before(values: Seq<u64>, a: int, b: int) -> bool {
    values[a] > values[b] || (values[a] == values[b] && a < b)
}

/// Whether `r` is the ranking of the places of `values`, best first and
/// `limit` long at most: its places are ordered by `ranks_before`, and
/// every place that it leaves out ranks after all of those it holds.
pub open spec fn is_ranking(values: Seq<u64>, limit: int, r: Seq<usize>) -> bool {
    &&& r.len() == if values.len() <= limit {
        values.len() as int
    } else {
        limit
    }
    &&& forall|i: int| 0 <= i < r.len() ==> 0 <= #[trigger] r[i] < values.len()
    &&& forall|i: int, j: int|
        0 <= i < j < r.len() ==> #[trigger] ranks_before(values, r[i] as int, r[j] as int)
    &&& forall|i: int, k: int|
        0 <= i < r.len() && 0 <= k < values.len() && !r.contains(k as usize)
            ==> #[trigger] ranks_before(values, r[i] as int, k)
}

/// There is only one ranking: two rankings of the same values under the
/// same limit are the same.
pub proof fn lemma_ranking_unique(values: Seq<u64>, limit: int, a: Seq<usize>, b: Seq<usize>)
    requires
        is_ranking(values, limit, a),
        is_ranking(values, limit, b),
    ensures
        a == b,
{
    assert(a.len() == b.len());
    assert forall|n: int| 0 <= n < a.len() implies a[n] == b[n] by {
        lemma_ranking_agrees(values, limit, a, b, n);
    }
    assert(a =~= b);
}

/// Two rankings of the same values hold the same places up to place `n`.
proof fn lemma_ranking_agrees(
    values: Seq<u64>,
    limit: int,
    a: Seq<usize>,
    b: Seq<usize>,
    n: int,
)
    requires
        is_ranking(values, limit, a),
        is_ranking(values, limit, b),
        0 <= n < a.len(),
    ensures
        a[n] == b[n],
    decreases n,
{
    if n > 0 {
        lemma_ranking_agrees(values, limit, a, b, n - 1);
    }
    assert forall|m: int| 0 <= m < n implies a[m] == b[m] by {
        lemma_ranking_agrees(values, limit, a, b, m);
    }
    let x = a[n] as int;
    let y = b[n] as int;
    if x != y {
        // Where is `x` in `b`? Not before `n`, where `b` agrees with `a`,
        // whose places are distinct; so after `n` or not at all, and either
        // way `y` ranks before `x`. By symmetry `x` ranks before `y`.
        assert(ranks_before(values, y, x)) by {
            if b.contains(a[n]) {
                let j = choose|j: int| 0 <= j < b.len() && b[j] == a[n];
                if j < n {
                    assert(a[j] == b[j]);
                    assert(ranks_before(values, a[j] as int, a[n] as int));
                } else {
                    assert(ranks_before(values, b[n] as int, b[j] as int));
                }
            } else {
                assert(ranks_before(values, b[n] as int, x));
            }
        }
        assert(ranks_before(values, x, y)) by {
            if a.contains(b[n]) {
                let j = choose|j: int| 0 <= j < a.len() && a[j] == b[n];
                if j < n {
                    assert(a[j] == b[j]);
                    assert(ranks_before(values, b[j] as int, b[n] as int));
                } else {
                    assert(ranks_before(values, a[n] as int, a[j] as int));
                }
            } else {
                assert(ranks_before(values, a[n] as int, y));
            }
        }
    }
}

/// Ranks the places of `values` by value, largest first and places of equal
/// value in their given order, and hands back the first `limit` of them.
pub fn rank(values: &Vec<u64>, limit: usize) -> (r: Vec<usize>)
    ensures
        is_ranking(values@, limit as int, r@),
{
    let mut r: Vec<usize> = Vec::new();
    let mut i: usize = 0;
    while i < values.len()
        invariant
            i <= values.len(),
            r@.len() == if i <= limit {
                i
            } else {
                limit
            },
            forall|a: int| 0 <= a < r@.len() ==> 0 <= #[trigger] r@[a] < i,
            forall|a: int, b: int|
                0 <= a < b < r@.len() ==> #[trigger] ranks_before(
                    values@,
                    r@[a] as int,
                    r@[b] as int,
                ),
            forall|a: int, k: int|
                0 <= a < r@.len() && 0 <= k < i && !r@.contains(k as usize)
                    ==> #[trigger] ranks_before(values@, r@[a] as int, k),
        decreases values.len() - i,
    {
        let v = values[i];
        let mut p: usize = 0;
        while p < r.len() && values[r[p]] >= v
            invariant
                p <= r@.len(),
                i < values.len(),
                v == values@[i as int],
                forall|a: int| 0 <= a < r@.len() ==> 0 <= #[trigger] r@[a] < i,
                forall|a: int| 0 <= a < p ==> values@[#[trigger] r@[a] as int] >= v,
            decreases r@.len() - p,
        {
            p += 1;
        }
        let ghost before = r@;
        if p < limit {
            r.insert(p, i);
            let ghost grown = r@;
            proof {
                assert forall|a: int, b: int| 0 <= a < b < grown.len() implies #[trigger] ranks_before(
                    values@,
                    grown[a] as int,
                    grown[b] as int,
                ) by {
                    if b < p {
                        assert(grown[a] == before[a] && grown[b] == before[b]);
                    } else if b == p {
                        assert(grown[a] == before[a]);
                    } else if a == p {
                        assert(grown[b] == before[b - 1]);
                        assert(before[p as int] < i);
                        if b - 1 > p {
                            assert(ranks_before(
                                values@,
                                before[p as int] as int,
                                before[b - 1] as int,
                            ));
                        }
                    } else if a < p {
                        assert(grown[a] == before[a] && grown[b] == before[b - 1]);
                    } else {
                        assert(grown[a] == before[a - 1] && grown[b] == before[b - 1]);
                    }
                }
                assert forall|k: int| 0 <= k < before.len() implies grown.contains(
                    #[trigger] before[k],
                ) by {
                    if k < p {
                        assert(grown[k] == before[k]);
                    } else {
                        assert(grown[k + 1] == before[k]);
                    }
                }
                assert(grown[p as int] == i);
            }
            if r.len() > limit {
                let dropped = r.pop();
                proof {
                    assert(r@ =~= grown.take(limit as int));
                    assert(grown.len() == limit + 1);
                    let d = grown[limit as int];
                    assert forall|a: int, k: int|
                        0 <= a < r@.len() && 0 <= k < i + 1 && !r@.contains(
                            k as usize,
                        ) implies #[trigger] ranks_before(values@, r@[a] as int, k) by {
                        assert(r@[a] == grown[a]);
                        if k == d {
                            assert(ranks_before(values@, grown[a] as int, grown[limit as int] as int));
                        } else if k == i {
                            assert(r@[p as int] == i);
                            assert(r@.contains(i));
                        } else {
                            if before.contains(k as usize) {
                                let q = choose|q: int| 0 <= q < before.len() && before[q] == k;
                                assert(grown.contains(before[q]));
                                let g = choose|g: int| 0 <= g < grown.len() && grown[g] == k;
                                assert(g < limit);
                                assert(r@[g] == k);
                            } else {
                                assert(ranks_before(values@, before[limit - 1] as int, k));
                                assert(d == before[limit - 1]);
                                if a < limit {
                                    assert(ranks_before(values@, grown[a] as int, d as int));
                                }
                            }
                        }
                    }
                }
            } else {
                proof {
                    assert forall|a: int, k: int|
                        0 <= a < r@.len() && 0 <= k < i + 1 && !r@.contains(
                            k as usize,
                        ) implies #[trigger] ranks_before(values@, r@[a] as int, k) by {
                        if k == i {
                            assert(r@.contains(i));
                        } else {
                            if before.contains(k as usize) {
                                let q = choose|q: int| 0 <= q < before.len() && before[q] == k;
                                assert(grown.contains(before[q]));
                            } else {
                                assert(before.len() == i);
                                assert forall|x: int, y: int|
                                    0 <= x < y < before.len() implies #[trigger] before[x]
                                    != #[trigger] before[y] by {
                                    assert(ranks_before(
                                        values@,
                                        before[x] as int,
                                        before[y] as int,
                                    ));
                                }
                                lemma_all_places(before, i as int, k);
                            }
                        }
                    }
                }
            }
        } else {
            proof {
                assert(p == limit && before.len() == limit);
                assert forall|a: int, k: int|
                    0 <= a < r@.len() && 0 <= k < i + 1 && !r@.contains(
                        k as usize,
                    ) implies #[trigger] ranks_before(values@, r@[a] as int, k) by {
                    if k == i {
                        assert(values@[r@[a] as int] >= v);
                    }
                }
            }
        }
        i += 1;
    }
    r
}

/// A run of `n` distinct places below `n` holds every place below `n`.
proof fn lemma_all_places(r: Seq<usize>, n: int, k: int)
    requires
        r.len() == n,
        0 <= k < n <= usize::MAX,
        forall|a: int| 0 <= a < r.len() ==> 0 <= #[trigger] r[a] < n,
        forall|a: int, b: int| 0 <= a < b < r.len() ==> #[trigger] r[a] != #[trigger] r[b],
    ensures
        r.contains(k as usize),
{
    let s = r.to_set();
    assert(r.no_duplicates());
    r.unique_seq_to_set();
    let full = Set::new(|x: usize| 0 <= x < n);
    assert(s.subset_of(full)) by {
        assert forall|x: usize| s.contains(x) implies full.contains(x) by {
            let a = choose|a: int| 0 <= a < r.len() && r[a] == x;
            assert(0 <= r[a] < n);
        }
    }
    lemma_places_count(n as nat);
    vstd::set_lib::lemma_subset_equality(s, full);
    assert(full.contains(k as usize));
}

/// There are `n` places below `n`.
proof fn lemma_places_count(n: nat)
    requires
        n <= usize::MAX + 1,
    ensures
        Set::new(|x: usize| 0 <= x < n).finite(),
        Set::new(|x: usize| 0 <= x < n).len() == n,
    decreases n,
{
    let full = Set::new(|x: usize| 0 <= x < n);
    if n == 0 {
        assert(full =~= Set::<usize>::empty());
    } else {
        lemma_places_count((n - 1) as nat);
        let less = Set::new(|x: usize| 0 <= x < n - 1);
        assert(full =~= less.insert((n - 1) as usize));
    }
}

/// The places of the summaries with the largest means, best first.
pub fn top_by_mean(rows: &Vec<Summary>) -> (r: Vec<usize>)
    ensures
        is_ranking(Seq::new(rows@.len(), |i: int| rows@[i].mean), TOP_LIMIT as int, r@),
{
    let mut values: Vec<u64> = Vec::new();
    let mut i: usize = 0;
    while i < rows.len()
        invariant
            i <= rows.len(),
            values@ == Seq::new(rows@.len(), |i: int| rows@[i].mean).take(i as int),
        decreases rows.len() - i,
    {
        values.push(rows[i].mean);
        assert(values@ =~= Seq::new(rows@.len(), |i: int| rows@[i].mean).take(i + 1));
        i += 1;
    }
    assert(values@ =~= Seq::new(rows@.len(), |i: int| rows@[i].mean));
    rank(&values, TOP_LIMIT)
}

/// The places of the summaries with the largest peaks, best first.
pub fn top_by_peak(rows: &Vec<Summary>) -> (r: Vec<usize>)
    ensures
        is_ranking(Seq::new(rows@.len(), |i: int| rows@[i].peak), TOP_LIMIT as int, r@),
{
    let mut values: Vec<u64> = Vec::new();
    let mut i: usize = 0;
    while i < rows.len()
        invariant
            i <= rows.len(),
            values@ == Seq::new(rows@.len(), |i: int| rows@[i].peak).take(i as int),
        decreases rows.len() - i,
    {
        values.push(rows[i].peak);
        assert(values@ =~= Seq::new(rows@.len(), |i: int| rows@[i].peak).take(i + 1));
        i += 1;
    }
    assert(values@ =~= Seq::new(rows@.len(), |i: int| rows@[i].peak));
    rank(&values, TOP_LIMIT)
}

} // verus!
