//! The engine: every snapshot is paired with the one before it of the same
//! entity, and what the pair yields is appended to that entity's series.

use vstd::prelude::*;
use crate::delta::{
    compute, interval_of, lemma_interval_well_formed, metric_view, IntervalMetric, MetricModel,
};
use crate::record::{parse_record, snapshot_of_line};
use crate::series::{appended, points_of, SeriesAccumulator};
use crate::snapshot::{snapshots_view, KeyModel, RawSnapshot, Sample, SnapshotModel};
use crate::store::CounterStore;
use crate::text::lines_view;

verus! {

/// The mathematical value of an `Engine`.
pub struct EngineModel {
    /// For each entity, the snapshot last seen of it.
    pub last: Map<KeyModel, SnapshotModel>,
    /// For each entity, the metrics emitted for it so far.
    pub series: Map<KeyModel, Seq<MetricModel>>,
    /// The entities that have a series, in the order in which each first
    /// yielded a metric.
    pub order: Seq<KeyModel>,
}

/// The state of an engine that has seen nothing.
pub open spec fn fresh() -> EngineModel {
    EngineModel { last: Map::empty(), series: Map::empty(), order: Seq::empty() }
}

/// What the engine emits when it is in state `e` and is fed `s`: the metric
/// of the interval since the last snapshot of the same entity, if there
/// was one and time has moved forward since.
pub open spec fn emitted(e: EngineModel, s: SnapshotModel) -> Option<MetricModel> {
    if e.last.contains_key(s.key()) {
        interval_of(e.last[s.key()], s)
    } else {
        None
    }
}

/// The state after the engine in state `e` was fed `s`. The snapshot takes
/// the place of the last one of its entity whether or not it yields a metric.
pub open spec fn step(e: EngineModel, s: SnapshotModel) -> EngineModel {
    EngineModel {
        last: e.last.insert(s.key(), s),
        series: match emitted(e, s) {
            Some(m) => appended(e.series, m),
            None => e.series,
        },
        order: match emitted(e, s) {
            Some(m) => if e.series.contains_key(m.key) {
                e.order
            } else {
                e.order.push(m.key)
            },
            None => e.order,
        },
    }
}

/// The state after the engine in state `e` was fed the stream `s` in order.
pub open spec fn run(e: EngineModel, s: Seq<SnapshotModel>) -> EngineModel
    decreases s.len(),
{
    if s.len() == 0 {
        e
    } else {
        step(run(e, s.drop_last()), s.last())
    }
}

/// A counter store together with the series drawn from it.
pub struct Engine {
    store: CounterStore,
    series: SeriesAccumulator,
}

impl Engine {
    /// Both parts are well formed.
    pub closed spec fn wf(&self) -> bool {
        self.store.wf() && self.series.wf()
    }

    /// The engine's state.
    pub closed spec fn view(&self) -> EngineModel {
        EngineModel { last: self.store@, series: self.series@, order: self.series.keys() }
    }

    /// The accumulator that holds the engine's series.
    pub closed spec fn accumulator(&self) -> SeriesAccumulator {
        self.series
    }

    /// An engine that has seen nothing.
    pub fn new() -> (e: Engine)
        ensures
            e.wf(),
            e@ == fresh(),
    {
        let e = Engine { store: CounterStore::new(), series: SeriesAccumulator::new() };
        assert(e@.order =~= Seq::<KeyModel>::empty());
        e
    }

    /// Feeds one snapshot to the engine and hands back the metric that it
    /// yields, if any. The metric has also been appended to the series of
    /// its entity.
    pub fn feed(&mut self, snapshot: RawSnapshot) -> (r: Option<IntervalMetric>)
        requires
            old(self).wf(),
        ensures
            final(self).wf(),
            final(self)@ == step(old(self)@, snapshot@),
            metric_view(r) == emitted(old(self)@, snapshot@),
    {
        let key = snapshot.key();
        match self.store.update(key, snapshot) {
            Some((prior, current)) => {
                match compute(&prior, &current) {
                    Some(m) => {
                        let out = m.clone();
                        self.series.append(m);
                        Some(out)
                    },
                    None => None,
                }
            },
            None => None,
        }
    }

    /// The series accumulated so far.
    pub fn series(&self) -> (s: &SeriesAccumulator)
        requires
            self.wf(),
        ensures
            s.wf(),
            s@ == self@.series,
            s.keys() == self@.order,
            *s == self.accumulator(),
    {
        &self.series
    }

    /// Ends the engine's work and hands out the accumulated series.
    pub fn into_series(self) -> (s: SeriesAccumulator)
        requires
            self.wf(),
        ensures
            s.wf(),
            s@ == self@.series,
            s.keys() == self@.order,
            s == self.accumulator(),
    {
        self.series
    }
}

/// Feeds a stream of snapshots, in order, through a fresh engine and hands
/// out the series that it accumulates.
pub fn replay(stream: Vec<RawSnapshot>) -> (s: SeriesAccumulator)
    ensures
        s.wf(),
        s@ == run(fresh(), snapshots_view(stream@)).series,
        s.keys() == run(fresh(), snapshots_view(stream@)).order,
{
    let mut engine = Engine::new();
    let mut i: usize = 0;
    assert(snapshots_view(stream@).take(0) =~= Seq::<SnapshotModel>::empty());
    while i < stream.len()
        invariant
            i <= stream.len(),
            engine.wf(),
            engine@ == run(fresh(), snapshots_view(stream@).take(i as int)),
        decreases stream.len() - i,
    {
        proof {
            let all = snapshots_view(stream@);
            assert(all.take(i + 1).drop_last() =~= all.take(i as int));
            assert(all.take(i + 1).last() == stream@[i as int]@);
        }
        let _ = engine.feed(stream[i].clone());
        i += 1;
    }
    assert(snapshots_view(stream@).take(i as int) =~= snapshots_view(stream@));
    engine.into_series()
}

/// The snapshots that the lines of a capture record and that `keep`
/// lets pass, in order. Lines that record nothing are passed over.
pub open spec fn records_of(lines: Seq<Seq<char>>, keep: spec_fn(SnapshotModel) -> bool) -> Seq<
    SnapshotModel,
>
    decreases lines.len(),
{
    if lines.len() == 0 {
        Seq::empty()
    } else {
        match snapshot_of_line(lines.last()) {
            Some(s) => if keep(s) {
                records_of(lines.drop_last(), keep).push(s)
            } else {
                records_of(lines.drop_last(), keep)
            },
            None => records_of(lines.drop_last(), keep),
        }
    }
}

/// Whether a snapshot is of a disk.
pub open spec fn is_disk(s: SnapshotModel) -> bool {
    s.sample is Disk
}

/// The series of every disk of a capture: the disk records of its lines
/// are fed, in order, through a fresh engine. Records of other domains
/// and lines that record nothing are passed over.
pub fn get_disk_metrics_map(lines: &Vec<String>) -> (s: SeriesAccumulator)
    ensures
        s.wf(),
        s@ == run(fresh(), records_of(lines_view(lines@), |s: SnapshotModel| is_disk(s))).series,
        s.keys() == run(
            fresh(),
            records_of(lines_view(lines@), |s: SnapshotModel| is_disk(s)),
        ).order,
{
    let ghost keep = |s: SnapshotModel| is_disk(s);
    let mut engine = Engine::new();
    let mut i: usize = 0;
    proof {
        assert(lines_view(lines@).take(0) =~= Seq::<Seq<char>>::empty());
    }
    while i < lines.len()
        invariant
            i <= lines.len(),
            engine.wf(),
            keep == (|s: SnapshotModel| is_disk(s)),
            engine@ == run(fresh(), records_of(lines_view(lines@).take(i as int), keep)),
        decreases lines.len() - i,
    {
        proof {
            let all = lines_view(lines@);
            assert(all.take(i + 1).drop_last() =~= all.take(i as int));
            assert(all.take(i + 1).last() == lines@[i as int]@);
        }
        match parse_record(lines[i].as_str()) {
            Some(snap) => {
                let disk = match &snap.sample {
                    Sample::Disk(_) => true,
                    _ => false,
                };
                if disk {
                    proof {
                        let before = records_of(lines_view(lines@).take(i as int), keep);
                        assert(before.push(snap@).drop_last() =~= before);
                    }
                    let _ = engine.feed(snap);
                }
            },
            None => {},
        }
        i += 1;
    }
    assert(lines_view(lines@).take(i as int) =~= lines_view(lines@));
    engine.into_series()
}

/// Whether an engine's state is sound: every series holds at least one
/// metric, and only metrics of its own entity, each of an interval of
/// positive length and with well-formed ratios; and the entities in
/// `order` are those that have a series, each once.
pub open spec fn sound(e: EngineModel) -> bool {
    &&& forall|k: KeyModel| #[trigger] e.series.contains_key(k) ==> e.series[k].len() > 0
    &&& forall|k: KeyModel, i: int|
        e.series.contains_key(k) && 0 <= i < e.series[k].len() ==> {
            let m = #[trigger] e.series[k][i];
            m.key == k && m.dt > 0 && m.derived.wf() && m.derived.non_negative()
        }
    &&& forall|k: KeyModel| #[trigger] e.series.contains_key(k) <==> e.order.contains(k)
    &&& e.order.no_duplicates()
}

/// Feeding a snapshot keeps an engine's state sound.
pub proof fn lemma_step_sound(e: EngineModel, s: SnapshotModel)
    requires
        sound(e),
    ensures
        sound(step(e, s)),
{
    let after = step(e, s);
    match emitted(e, s) {
        Some(m) => {
            lemma_interval_well_formed(e.last[s.key()], s);
            let old_points = points_of(e.series, m.key);
            assert(after.series == e.series.insert(m.key, old_points.push(m)));
            assert forall|k: KeyModel, i: int|
                after.series.contains_key(k) && 0 <= i < after.series[k].len() implies {
                let p = #[trigger] after.series[k][i];
                p.key == k && p.dt > 0 && p.derived.wf() && p.derived.non_negative()
            } by {
                if k == m.key {
                    if i < old_points.len() {
                        assert(e.series.contains_key(k));
                        assert(after.series[k][i] == e.series[k][i]);
                    }
                } else {
                    assert(after.series[k][i] == e.series[k][i]);
                }
            }
            if e.series.contains_key(m.key) {
                assert(after.order == e.order);
            } else {
                assert(!e.order.contains(m.key));
                assert(after.order == e.order.push(m.key));
                assert forall|k: KeyModel| #[trigger]
                    after.series.contains_key(k) <==> after.order.contains(k) by {
                    if after.order.contains(k) {
                        let j = choose|j: int| 0 <= j < after.order.len() && after.order[j] == k;
                        if j < e.order.len() {
                            assert(e.order[j] == k);
                            assert(e.order.contains(k));
                        }
                    }
                    if after.series.contains_key(k) {
                        if k == m.key {
                            assert(after.order[e.order.len() as int] == k);
                        } else {
                            assert(e.order.contains(k));
                            let j = choose|j: int| 0 <= j < e.order.len() && e.order[j] == k;
                            assert(after.order[j] == k);
                        }
                    }
                }
                assert(after.order.no_duplicates()) by {
                    assert forall|a: int, b: int|
                        0 <= a < after.order.len() && 0 <= b < after.order.len() && a
                            != b implies after.order[a] != after.order[b] by {
                        if a < e.order.len() && b < e.order.len() {
                            assert(e.order[a] != e.order[b]);
                        } else if a < e.order.len() {
                            assert(e.order.contains(e.order[a]));
                        } else if b < e.order.len() {
                            assert(e.order.contains(e.order[b]));
                        }
                    }
                }
            }
        },
        None => {},
    }
}

/// Whatever stream a fresh engine is fed, its state is sound.
pub proof fn lemma_run_sound(s: Seq<SnapshotModel>)
    ensures
        sound(run(fresh(), s)),
    decreases s.len(),
{
    if s.len() == 0 {
        assert(sound(fresh()));
    } else {
        lemma_run_sound(s.drop_last());
        lemma_step_sound(run(fresh(), s.drop_last()), s.last());
    }
}

/// Replaying is repeatable: two fresh engines that are fed the same stream
/// end in the same state, and so hold identical series.
pub proof fn lemma_replay_repeatable(a: Seq<SnapshotModel>, b: Seq<SnapshotModel>)
    requires
        a =~= b,
    ensures
        run(fresh(), a) == run(fresh(), b),
        run(fresh(), a).series == run(fresh(), b).series,
        run(fresh(), a).order == run(fresh(), b).order,
{
}

/// Entities do not disturb one another: feeding a snapshot of one entity
/// changes neither the last snapshot nor the series of any other.
pub proof fn lemma_step_keeps_others(e: EngineModel, s: SnapshotModel, k: KeyModel)
    requires
        k != s.key(),
    ensures
        step(e, s).last.contains_key(k) == e.last.contains_key(k),
        e.last.contains_key(k) ==> step(e, s).last[k] == e.last[k],
        step(e, s).series.contains_key(k) == e.series.contains_key(k),
        e.series.contains_key(k) ==> step(e, s).series[k] == e.series[k],
{
    match emitted(e, s) {
        Some(m) => {
            assert(m.key == s.key());
        },
        None => {},
    }
}

} // verus!
