//! Per-entity series of interval metrics, in order of arrival.

use vstd::prelude::*;
use crate::delta::{IntervalMetric, MetricModel};
use crate::snapshot::{EntityKey, KeyModel};

verus! {

/// The mathematical value of a run of metrics.
pub open spec fn points_view(points: Seq<IntervalMetric>) -> Seq<MetricModel> {
    Seq::new(points.len(), |i: int| points[i]@)
}

/// The metrics of one entity, oldest first.
#[derive(Debug, PartialEq, Eq)]
pub struct Series {
    pub key: EntityKey,
    pub points: Vec<IntervalMetric>,
}

/// The points that `m` holds for `k`: none where it does not know `k`.
pub open spec fn points_of(m: Map<KeyModel, Seq<MetricModel>>, k: KeyModel) -> Seq<MetricModel> {
    if m.contains_key(k) {
        m[k]
    } else {
        Seq::empty()
    }
}

/// The series map after `metric` has been appended to the series of its key.
pub open spec fn appended(m: Map<KeyModel, Seq<MetricModel>>, metric: MetricModel) -> Map<
    KeyModel,
    Seq<MetricModel>,
> {
    m.insert(metric.key, points_of(m, metric.key).push(metric))
}

/// The series of all entities, each in order of arrival, the entities in
/// the order in which each was first seen.
pub struct SeriesAccumulator {
    series: Vec<Series>,
}

impl SeriesAccumulator {
    /// The accumulator is well formed when no entity has two series.
    pub closed spec fn wf(&self) -> bool {
        forall|i: int, j: int|
            0 <= i < j < self.series@.len() ==> (#[trigger] self.series@[i]).key@
                != (#[trigger] self.series@[j]).key@
    }

    /// Whether the series at `i` is that of `k`.
    spec fn holds_at(&self, i: int, k: KeyModel) -> bool {
        0 <= i < self.series@.len() && self.series@[i].key@ == k
    }

    /// The accumulator as a map from each entity seen to its series.
    pub closed spec fn view(&self) -> Map<KeyModel, Seq<MetricModel>> {
        Map::new(
            |k: KeyModel| exists|i: int| self.holds_at(i, k),
            |k: KeyModel| points_view(self.series@[choose|i: int| self.holds_at(i, k)].points@),
        )
    }

    /// The series in the order in which their entities were first seen.
    pub closed spec fn in_order(&self) -> Seq<Series> {
        self.series@
    }

    /// The entities that have a series, in the order in which each was
    /// first seen.
    pub open spec fn keys(&self) -> Seq<KeyModel> {
        Seq::new(self.in_order().len(), |i: int| self.in_order()[i].key@)
    }

    /// An accumulator without any series.
    pub fn new() -> (s: SeriesAccumulator)
        ensures
            s.wf(),
            s@ == Map::<KeyModel, Seq<MetricModel>>::empty(),
            s.in_order().len() == 0,
    {
        let s = SeriesAccumulator { series: Vec::new() };
        assert(s@ =~= Map::<KeyModel, Seq<MetricModel>>::empty());
        s
    }

    /// Every series of `in_order` is in the map, under its key.
    pub proof fn lemma_in_order(&self, i: int)
        requires
            self.wf(),
            0 <= i < self.in_order().len(),
        ensures
            self@.contains_key(self.in_order()[i].key@),
            self@[self.in_order()[i].key@] == points_view(self.in_order()[i].points@),
            forall|j: int|
                0 <= j < self.in_order().len() && j != i ==> self.in_order()[j].key@
                    != self.in_order()[i].key@,
    {
        let k = self.series@[i].key@;
        assert(self.holds_at(i, k));
        self.lemma_unique(i, k);
        assert forall|j: int| 0 <= j < self.in_order().len() && j != i implies self.in_order()[j].key@
            != self.in_order()[i].key@ by {
            if j < i {
                assert(self.series@[j].key@ != self.series@[i].key@);
            } else {
                assert(self.series@[i].key@ != self.series@[j].key@);
            }
        }
    }

    /// The one place at which `k` is held is the place that `view` reads.
    proof fn lemma_unique(&self, i: int, k: KeyModel)
        requires
            self.wf(),
            self.holds_at(i, k),
        ensures
            (choose|j: int| self.holds_at(j, k)) == i,
    {
        let j = choose|j: int| self.holds_at(j, k);
        if j < i {
            assert(self.series@[j].key@ != self.series@[i].key@);
        } else if i < j {
            assert(self.series@[i].key@ != self.series@[j].key@);
        }
    }

    /// Where the series of `key` is held, if anywhere.
    fn position(&self, key: &EntityKey) -> (r: Option<usize>)
        ensures
            match r {
                Some(i) => self.holds_at(i as int, key@),
                None => forall|i: int| !self.holds_at(i, key@),
            },
    {
        let mut i: usize = 0;
        while i < self.series.len()
            invariant
                i <= self.series@.len(),
                forall|j: int| 0 <= j < i ==> !self.holds_at(j, key@),
            decreases self.series@.len() - i,
        {
            if self.series[i].key.same(key) {
                return Some(i);
            }
            i += 1;
        }
        None
    }

    /// The number of entities that have a series.
    pub fn len(&self) -> (n: usize)
        ensures
            n == self.in_order().len(),
    {
        self.series.len()
    }

    /// The series at place `i` in order of first appearance.
    pub fn at(&self, i: usize) -> (s: &Series)
        requires
            i < self.in_order().len(),
        ensures
            *s == self.in_order()[i as int],
    {
        &self.series[i]
    }

    /// The series of `key`, if it has one.
    pub fn find(&self, key: &EntityKey) -> (r: Option<&Series>)
        requires
            self.wf(),
        ensures
            match r {
                Some(s) => self@.contains_key(key@) && points_view(s.points@) == self@[key@]
                    && s.key@ == key@,
                None => !self@.contains_key(key@),
            },
    {
        match self.position(key) {
            Some(i) => {
                proof {
                    self.lemma_unique(i as int, key@);
                }
                Some(&self.series[i])
            },
            None => None,
        }
    }

    /// Appends `metric` to the series of its entity, which is begun if the
    /// entity had none. The series of all other entities stay as they are.
    pub fn append(&mut self, metric: IntervalMetric)
        requires
            old(self).wf(),
        ensures
            final(self).wf(),
            final(self)@ == appended(old(self)@, metric@),
            final(self).keys() == if old(self)@.contains_key(metric@.key) {
                old(self).keys()
            } else {
                old(self).keys().push(metric@.key)
            },
    {
        let ghost target = appended(old(self)@, metric@);
        let ghost k = metric@.key;
        match self.position(&metric.key) {
            Some(i) => {
                proof {
                    old(self).lemma_unique(i as int, k);
                }
                let ghost before = self.series@[i as int].points@;
                self.series[i].points.push(metric);
                proof {
                    assert(self.series@[i as int].key == old(self).series@[i as int].key);
                    assert(self.series@[i as int].points@ == before.push(metric));
                    assert(points_view(before.push(metric)) =~= points_view(before).push(metric@));
                    assert forall|n: int, q: KeyModel|
                        self.holds_at(n, q) <==> old(self).holds_at(n, q) by {
                        if 0 <= n < self.series@.len() {
                            if n != i {
                                assert(self.series@[n] == old(self).series@[n]);
                            }
                        }
                    }
                    assert forall|a: int, b: int|
                        0 <= a < b < self.series@.len() implies (#[trigger] self.series@[a]).key@
                        != (#[trigger] self.series@[b]).key@ by {
                        assert(old(self).series@[a].key@ != old(self).series@[b].key@);
                        assert(self.holds_at(a, self.series@[a].key@));
                        assert(self.holds_at(b, self.series@[b].key@));
                    }
                    assert forall|q: KeyModel| #[trigger]
                        self@.dom().contains(q) implies target.dom().contains(q) && self@[q]
                        == target[q] by {
                        let n = choose|n: int| self.holds_at(n, q);
                        assert(old(self).holds_at(n, q));
                        old(self).lemma_unique(n, q);
                        if n != i {
                            assert(self.series@[n] == old(self).series@[n]);
                        }
                    }
                    assert forall|q: KeyModel| #[trigger]
                        target.dom().contains(q) implies self@.dom().contains(q) by {
                        if q != k {
                            let n = choose|n: int| old(self).holds_at(n, q);
                            assert(self.holds_at(n, q));
                        } else {
                            assert(self.holds_at(i as int, q));
                        }
                    }
                    assert(self@.dom() =~= target.dom());
                    assert(self@ =~= target);
                    assert(old(self)@.contains_key(k)) by {
                        assert(old(self).holds_at(i as int, k));
                    }
                    assert(self.keys() =~= old(self).keys()) by {
                        assert forall|n: int| 0 <= n < self.series@.len() implies self.series@[n].key@
                            == old(self).series@[n].key@ by {
                            if n != i {
                                assert(self.series@[n] == old(self).series@[n]);
                            }
                        }
                    }
                }
            },
            None => {
                let key = metric.key.clone();
                let mut points: Vec<IntervalMetric> = Vec::new();
                points.push(metric);
                self.series.push(Series { key, points });
                proof {
                    let last = old(self).series@.len() as int;
                    assert(self.holds_at(last, k));
                    assert(points_view(points@) =~= Seq::<MetricModel>::empty().push(metric@));
                    assert forall|a: int, b: int|
                        0 <= a < b < self.series@.len() implies (#[trigger] self.series@[a]).key@
                        != (#[trigger] self.series@[b]).key@ by {
                        if b == last {
                            assert(!old(self).holds_at(a, k));
                        } else {
                            assert(old(self).series@[a].key@ != old(self).series@[b].key@);
                        }
                    }
                    assert forall|q: KeyModel| #[trigger]
                        target.dom().contains(q) implies self@.dom().contains(q) by {
                        if q == k {
                            assert(self.holds_at(last, q));
                        } else {
                            let m = choose|m: int| old(self).holds_at(m, q);
                            assert(self.holds_at(m, q));
                        }
                    }
                    assert forall|q: KeyModel| #[trigger]
                        self@.dom().contains(q) implies target.dom().contains(q) && self@[q]
                        == target[q] by {
                        let n = choose|n: int| self.holds_at(n, q);
                        assert(self.holds_at(n, q));
                        if n == last {
                            assert(q == k);
                        } else {
                            assert(old(self).holds_at(n, q));
                            assert(q != k);
                            old(self).lemma_unique(n, q);
                            assert(self.series@[n] == old(self).series@[n]);
                        }
                    }
                    assert(self@.dom() =~= target.dom());
                    assert(self@ =~= target);
                    assert(self.keys() =~= old(self).keys().push(k));
                }
            },
        }
    }
}

} // verus!
