//! Playback: the metrics that the records of one domain of a capture yield,
//! in the order of the capture.

use vstd::prelude::*;
use crate::analysis::mem_rows_of;
use crate::delta::{mem_metrics, IntervalMetric, MemMetrics, MetricModel};
use crate::engine::{emitted, fresh, records_of, run, Engine, EngineModel};
use crate::record::parse_record;
use crate::series::points_view;
use crate::snapshot::{RawSnapshot, Sample, SampleModel, SnapshotModel};
use crate::text::lines_view;

verus! {

/// The domains of entities.
#[derive(Clone, Copy, Debug, PartialEq, Eq, Structural)]
pub enum Domain {
    Disk,
    Net,
    Cpu,
    Mem,
}

/// The domain of the entity that a snapshot was taken of.
pub open spec fn domain_of(s: SnapshotModel) -> Domain {
    match s.sample {
        SampleModel::Disk(d) => Domain::Disk,
        SampleModel::Net { iface, stat } => Domain::Net,
        SampleModel::Cpu(c) => Domain::Cpu,
        SampleModel::Mem(m) => Domain::Mem,
    }
}

/// The domain of the entity that a snapshot was taken of.
pub fn snapshot_domain(s: &RawSnapshot) -> (d: Domain)
    ensures
        d == domain_of(s@),
{
    match &s.sample {
        Sample::Disk(_) => Domain::Disk,
        Sample::Net { iface: _, stat: _ } => Domain::Net,
        Sample::Cpu(_) => Domain::Cpu,
        Sample::Mem(_) => Domain::Mem,
    }
}

/// The metrics that an engine in state `e` emits while it is fed the
/// stream `s`, in order.
pub open spec fn emissions(e: EngineModel, s: Seq<SnapshotModel>) -> Seq<MetricModel>
    decreases s.len(),
{
    if s.len() == 0 {
        Seq::empty()
    } else {
        let before = emissions(e, s.drop_last());
        match emitted(run(e, s.drop_last()), s.last()) {
            Some(m) => before.push(m),
            None => before,
        }
    }
}

/// Plays a capture back: the records of the given domain are fed, in
/// order, through a fresh engine, and every metric that it emits is handed
/// out, in order. Records of other domains and lines that record nothing
/// are passed over.
pub fn playback(lines: &Vec<String>, domain: Domain) -> (rows: Vec<IntervalMetric>)
    ensures
        points_view(rows@) == emissions(
            fresh(),
            records_of(lines_view(lines@), |s: SnapshotModel| domain_of(s) == domain),
        ),
{
    let ghost keep = |s: SnapshotModel| domain_of(s) == domain;
    let mut engine = Engine::new();
    let mut rows: Vec<IntervalMetric> = Vec::new();
    let mut i: usize = 0;
    proof {
        assert(lines_view(lines@).take(0) =~= Seq::<Seq<char>>::empty());
        assert(points_view(rows@) =~= Seq::<MetricModel>::empty());
    }
    while i < lines.len()
        invariant
            i <= lines.len(),
            engine.wf(),
            keep == (|s: SnapshotModel| domain_of(s) == domain),
            engine@ == run(fresh(), records_of(lines_view(lines@).take(i as int), keep)),
            points_view(rows@) == emissions(
                fresh(),
                records_of(lines_view(lines@).take(i as int), keep),
            ),
        decreases lines.len() - i,
    {
        proof {
            let all = lines_view(lines@);
            assert(all.take(i + 1).drop_last() =~= all.take(i as int));
            assert(all.take(i + 1).last() == lines@[i as int]@);
        }
        match parse_record(lines[i].as_str()) {
            Some(snap) => {
                if snapshot_domain(&snap) == domain {
                    proof {
                        let before = records_of(lines_view(lines@).take(i as int), keep);
                        assert(before.push(snap@).drop_last() =~= before);
                    }
                    match engine.feed(snap) {
                        Some(m) => {
                            let ghost shown = points_view(rows@);
                            let ghost model = m@;
                            rows.push(m);
                            assert(points_view(rows@) =~= shown.push(model));
                        },
                        None => {},
                    }
                }
            },
            None => {},
        }
        i += 1;
    }
    assert(lines_view(lines@).take(i as int) =~= lines_view(lines@));
    rows
}

/// The memory shares of every memory record of a capture, in order.
pub fn memory_rows(lines: &Vec<String>) -> (rows: Vec<MemMetrics>)
    ensures
        rows@ == mem_rows_of(lines_view(lines@)),
{
    let mut rows: Vec<MemMetrics> = Vec::new();
    let mut i: usize = 0;
    proof {
        assert(lines_view(lines@).take(0) =~= Seq::<Seq<char>>::empty());
    }
    while i < lines.len()
        invariant
            i <= lines.len(),
            rows@ == mem_rows_of(lines_view(lines@).take(i as int)),
        decreases lines.len() - i,
    {
        proof {
            let all = lines_view(lines@);
            assert(all.take(i + 1).drop_last() =~= all.take(i as int));
            assert(all.take(i + 1).last() == lines@[i as int]@);
        }
        match parse_record(lines[i].as_str()) {
            Some(snap) => match &snap.sample {
                Sample::Mem(m) => {
                    rows.push(mem_metrics(snap.timestamp, m));
                },
                _ => {},
            },
            None => {},
        }
        i += 1;
    }
    assert(lines_view(lines@).take(i as int) =~= lines_view(lines@));
    rows
}

} // verus!
