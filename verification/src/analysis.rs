//! The analysis of a whole capture: the series of every entity, the memory
//! shares of every memory record, and for every disk metric the summaries
//! of all disks with their two rankings.

use vstd::prelude::*;
use crate::delta::{mem_metrics, mem_metrics_of, MemMetrics};
use crate::engine::{fresh, records_of, run, Engine};
use crate::record::{parse_record, snapshot_of_line};
use crate::series::SeriesAccumulator;
use crate::snapshot::{Sample, SampleModel, SnapshotModel};
use crate::summary::{
    all_disk_kinds, disk_kinds, disk_summaries, is_ranking, summaries_view, summarize_disks,
    top_by_mean, top_by_peak, DiskMetricKind, Summary, TOP_LIMIT,
};
use crate::text::lines_view;

verus! {

/// The summaries of all disks for one metric, with the places of the
/// busiest disks by mean and by peak.
#[derive(Debug, PartialEq, Eq)]
pub struct TopTable {
    pub kind: DiskMetricKind,
    pub rows: Vec<Summary>,
    pub by_mean: Vec<usize>,
    pub by_peak: Vec<usize>,
}

/// What the analysis of a capture yields.
pub struct Analysis {
    /// The series of every disk, interface and of the CPU.
    pub series: SeriesAccumulator,
    /// The memory shares of every memory record, in order.
    pub mem: Vec<MemMetrics>,
    /// One table for every disk metric, in the order of the metrics; none
    /// where no disk has a series.
    pub tables: Vec<TopTable>,
}

/// Whether a snapshot is of memory.
pub open spec fn is_mem(s: SnapshotModel) -> bool {
    s.sample is Mem
}

/// Whether a snapshot is of an entity whose metrics are drawn from pairs.
pub open spec fn is_paired(s: SnapshotModel) -> bool {
    !is_mem(s)
}

/// The memory shares of every memory record among the lines, in order.
pub open spec fn mem_rows_of(lines: Seq<Seq<char>>) -> Seq<MemMetrics>
    decreases lines.len(),
{
    if lines.len() == 0 {
        Seq::empty()
    } else {
        match snapshot_of_line(lines.last()) {
            Some(s) => match s.sample {
                SampleModel::Mem(m) => mem_rows_of(lines.drop_last()).push(
                    mem_metrics_of(s.timestamp, m),
                ),
                _ => mem_rows_of(lines.drop_last()),
            },
            None => mem_rows_of(lines.drop_last()),
        }
    }
}

/// Whether `t` is the table of the metric `kind` over the series `all`.
pub open spec fn is_table_of(t: TopTable, kind: DiskMetricKind, all: SeriesAccumulator) -> bool {
    &&& t.kind == kind
    &&& summaries_view(t.rows@) == disk_summaries(all.in_order(), kind)
    &&& is_ranking(Seq::new(t.rows@.len(), |i: int| t.rows@[i].mean), TOP_LIMIT as int, t.by_mean@)
    &&& is_ranking(Seq::new(t.rows@.len(), |i: int| t.rows@[i].peak), TOP_LIMIT as int, t.by_peak@)
}

/// Whether any disk has a series.
pub open spec fn has_disks(all: SeriesAccumulator) -> bool {
    disk_summaries(all.in_order(), DiskMetricKind::Rps).len() > 0
}

/// The tables of all disk metrics over the series `all`; none where no
/// disk has a series.
pub fn top_tables(all: &SeriesAccumulator) -> (tables: Vec<TopTable>)
    ensures
        tables@.len() == if has_disks(*all) {
            disk_kinds().len()
        } else {
            0
        },
        forall|i: int|
            0 <= i < tables@.len() ==> is_table_of(#[trigger] tables@[i], disk_kinds()[i], *all),
{
    let mut tables: Vec<TopTable> = Vec::new();
    let first = summarize_disks(all, DiskMetricKind::Rps);
    if first.len() == 0 {
        return tables;
    }
    let kinds = all_disk_kinds();
    let mut i: usize = 0;
    while i < kinds.len()
        invariant
            i <= kinds.len(),
            kinds@ == disk_kinds(),
            tables@.len() == i,
            forall|k: int|
                0 <= k < i ==> is_table_of(#[trigger] tables@[k], disk_kinds()[k], *all),
        decreases kinds.len() - i,
    {
        let kind = kinds[i];
        let rows = summarize_disks(all, kind);
        let by_mean = top_by_mean(&rows);
        let by_peak = top_by_peak(&rows);
        tables.push(TopTable { kind, rows, by_mean, by_peak });
        i += 1;
    }
    tables
}

/// Analyses a capture, line by line.
///
/// Memory records yield their shares at once; the records of all other
/// domains are fed, in order, through a fresh engine. Lines that record
/// nothing are passed over.
pub fn analyze(lines: &Vec<String>) -> (a: Analysis)
    ensures
        a.series.wf(),
        a.series@ == run(
            fresh(),
            records_of(lines_view(lines@), |s: SnapshotModel| is_paired(s)),
        ).series,
        a.series.keys() == run(
            fresh(),
            records_of(lines_view(lines@), |s: SnapshotModel| is_paired(s)),
        ).order,
        a.mem@ == mem_rows_of(lines_view(lines@)),
        a.tables@.len() == if has_disks(a.series) {
            disk_kinds().len()
        } else {
            0
        },
        forall|i: int|
            0 <= i < a.tables@.len() ==> is_table_of(
                #[trigger] a.tables@[i],
                disk_kinds()[i],
                a.series,
            ),
{
    let ghost keep = |s: SnapshotModel| is_paired(s);
    let mut engine = Engine::new();
    let mut mem: Vec<MemMetrics> = Vec::new();
    let mut i: usize = 0;
    proof {
        assert(lines_view(lines@).take(0) =~= Seq::<Seq<char>>::empty());
    }
    while i < lines.len()
        invariant
            i <= lines.len(),
            engine.wf(),
            keep == (|s: SnapshotModel| is_paired(s)),
            engine@ == run(fresh(), records_of(lines_view(lines@).take(i as int), keep)),
            mem@ == mem_rows_of(lines_view(lines@).take(i as int)),
        decreases lines.len() - i,
    {
        proof {
            let all = lines_view(lines@);
            assert(all.take(i + 1).drop_last() =~= all.take(i as int));
            assert(all.take(i + 1).last() == lines@[i as int]@);
        }
        match parse_record(lines[i].as_str()) {
            Some(snap) => {
                let shares = match &snap.sample {
                    Sample::Mem(m) => Some(mem_metrics(snap.timestamp, m)),
                    _ => None,
                };
                match shares {
                    Some(m) => {
                        mem.push(m);
                    },
                    None => {
                        proof {
                            let before = records_of(lines_view(lines@).take(i as int), keep);
                            assert(before.push(snap@).drop_last() =~= before);
                        }
                        let _ = engine.feed(snap);
                    },
                }
            },
            None => {},
        }
        i += 1;
    }
    assert(lines_view(lines@).take(i as int) =~= lines_view(lines@));
    let series = engine.into_series();
    let tables = top_tables(&series);
    Analysis { series, mem, tables }
}

} // verus!
