//! The multipath aggregator: the paths of one multipath device rolled up
//! into device totals, with the share of each path.

use vstd::prelude::*;
use crate::delta::{Derived, IntervalMetric, MetricModel};
use crate::engine::{fresh, get_disk_metrics_map, is_disk, records_of, run};
use crate::mpath::{
    columns_of, devices_view, flushed, listing_of, parse_multipath_ll, DeviceModel, MpathPath,
    MultipathDevice, PathModel,
};
use crate::series::{points_of, points_view, SeriesAccumulator};
use crate::snapshot::{EntityKey, KeyModel, SnapshotModel};
use crate::summary::{mean, mean_of, series_values, sum_of, values_of, DiskMetricKind};
use crate::text::{
    chars_of, lines_view, parse_u32, parse_u32_spec, split, split_fields, views,
};

verus! {

/// A multipath device and the entities that back it, in order.
#[derive(Debug, PartialEq, Eq)]
pub struct MultipathGroup {
    pub name: String,
    pub paths: Vec<EntityKey>,
}

/// What one path contributes to its group over a whole capture. Rates are
/// in thousandths, shares in thousandths of a percent.
#[derive(Debug, PartialEq, Eq)]
pub struct PathShare {
    pub key: EntityKey,
    /// The mean of the path's I/Os per second.
    pub iops: u64,
    /// The mean of the path's kilobytes per second.
    pub kbs: u64,
    /// The path's share of the group's I/Os per second.
    pub io_pct: u64,
    /// The path's share of the group's kilobytes per second.
    pub kb_pct: u64,
}

/// The totals of one multipath device over a whole capture, and what each
/// of its paths contributes. Rates are in thousandths.
#[derive(Debug, PartialEq, Eq)]
pub struct GroupReport {
    pub name: String,
    pub total_iops: u128,
    pub total_kbs: u128,
    pub paths: Vec<PathShare>,
}

/// The views of a run of keys.
pub open spec fn keys_view(keys: Seq<EntityKey>) -> Seq<KeyModel> {
    Seq::new(keys.len(), |i: int| keys[i]@)
}

/// The mean over the whole capture of one metric of the entity `k`, in
/// thousandths; zero where the entity has no series.
pub open spec fn path_mean(
    all: Map<KeyModel, Seq<MetricModel>>,
    k: KeyModel,
    kind: DiskMetricKind,
) -> u64 {
    mean_of(values_of(points_of(all, k), kind)) as u64
}

/// The means of one metric of each of the paths.
pub open spec fn path_means(
    all: Map<KeyModel, Seq<MetricModel>>,
    paths: Seq<KeyModel>,
    kind: DiskMetricKind,
) -> Seq<u64> {
    Seq::new(paths.len(), |i: int| path_mean(all, paths[i], kind))
}

/// `part` in thousandths of a percent of `total`; zero where `total` is zero.
pub open spec fn share_of(part: u64, total: nat) -> nat {
    if total == 0 {
        0
    } else {
        ((part * 100_000) / (total as int)) as nat
    }
}

/// Whether a disk did any I/O in the interval.
pub open spec fn interval_active(m: MetricModel) -> bool {
    match m.derived {
        Derived::Disk(deltas, rates) => rates.io_sec.positive() || rates.kb_sec.positive(),
        _ => false,
    }
}

/// Whether a series shows any I/O at all.
pub open spec fn series_active(points: Seq<MetricModel>) -> bool {
    exists|i: int| 0 <= i < points.len() && interval_active(#[trigger] points[i])
}

/// Whether any of the paths shows any I/O at all over the whole capture.
pub open spec fn group_active(all: Map<KeyModel, Seq<MetricModel>>, paths: Seq<KeyModel>) -> bool {
    exists|p: int| 0 <= p < paths.len() && series_active(points_of(all, #[trigger] paths[p]))
}

/// Whether a series shows any I/O at all.
pub fn any_activity(points: &Vec<IntervalMetric>) -> (b: bool)
    ensures
        b == series_active(points_view(points@)),
{
    let mut i: usize = 0;
    while i < points.len()
        invariant
            i <= points.len(),
            forall|j: int| 0 <= j < i ==> !interval_active(#[trigger] points_view(points@)[j]),
        decreases points.len() - i,
    {
        let active = match points[i].derived {
            Derived::Disk(_, rates) => rates.io_sec.is_positive() || rates.kb_sec.is_positive(),
            _ => false,
        };
        if active {
            assert(interval_active(points_view(points@)[i as int]));
            return true;
        }
        i += 1;
    }
    false
}

/// A part of a whole, in thousandths of a percent; zero where the whole
/// is zero.
pub fn share(part: u64, total: u128) -> (s: u128)
    ensures
        s == share_of(part, total as nat),
{
    if total == 0 {
        0
    } else {
        (part as u128 * 100_000) / total
    }
}

/// The mathematical value of an optional report, but for its paths' keys.
pub open spec fn report_matches(
    g: GroupReport,
    name: Seq<char>,
    paths: Seq<KeyModel>,
    all: Map<KeyModel, Seq<MetricModel>>,
) -> bool {
    let iops = path_means(all, paths, DiskMetricKind::IoSec);
    let kbs = path_means(all, paths, DiskMetricKind::KbSec);
    &&& g.name@ == name
    &&& g.total_iops == sum_of(iops)
    &&& g.total_kbs == sum_of(kbs)
    &&& g.paths@.len() == paths.len()
    &&& forall|i: int|
        0 <= i < paths.len() ==> {
            let p = #[trigger] g.paths@[i];
            &&& p.key@ == paths[i]
            &&& p.iops == iops[i]
            &&& p.kbs == kbs[i]
            &&& p.io_pct == share_of(p.iops, sum_of(iops))
            &&& p.kb_pct == share_of(p.kbs, sum_of(kbs))
        }
}

/// Rolls the paths of one multipath device up into device totals.
///
/// For each path the mean over the whole capture of its I/Os per second
/// and of its kilobytes per second is taken; the totals are the sums of
/// these means, and each path is given its share of either total. A path
/// without a series counts as idle. A device none of whose paths shows any
/// I/O over the whole capture yields no report.
pub fn aggregate(group: &MultipathGroup, all: &SeriesAccumulator) -> (r: Option<GroupReport>)
    requires
        all.wf(),
    ensures
        r is Some <==> group_active(all@, keys_view(group.paths@)),
        r matches Some(g) ==> report_matches(g, group.name@, keys_view(group.paths@), all@),
{
    let ghost paths = keys_view(group.paths@);
    let ghost iops_all = path_means(all@, paths, DiskMetricKind::IoSec);
    let ghost kbs_all = path_means(all@, paths, DiskMetricKind::KbSec);
    let mut iops: Vec<u64> = Vec::new();
    let mut kbs: Vec<u64> = Vec::new();
    let mut total_iops: u128 = 0;
    let mut total_kbs: u128 = 0;
    let mut active = false;
    let mut i: usize = 0;
    proof {
        assert(iops_all.take(0) =~= Seq::<u64>::empty());
        assert(kbs_all.take(0) =~= Seq::<u64>::empty());
    }
    while i < group.paths.len()
        invariant
            i <= group.paths.len(),
            all.wf(),
            paths == keys_view(group.paths@),
            iops_all == path_means(all@, paths, DiskMetricKind::IoSec),
            kbs_all == path_means(all@, paths, DiskMetricKind::KbSec),
            iops@ == iops_all.take(i as int),
            kbs@ == kbs_all.take(i as int),
            total_iops == sum_of(iops@),
            total_kbs == sum_of(kbs@),
            total_iops <= i * u64::MAX,
            total_kbs <= i * u64::MAX,
            active <==> exists|p: int|
                0 <= p < i && series_active(points_of(all@, #[trigger] paths[p])),
        decreases group.paths.len() - i,
    {
        let key = &group.paths[i];
        assert(paths[i as int] == key@);
        let (mean_iops, mean_kbs, busy) = match all.find(key) {
            Some(series) => (
                mean(&series_values(&series.points, DiskMetricKind::IoSec)),
                mean(&series_values(&series.points, DiskMetricKind::KbSec)),
                any_activity(&series.points),
            ),
            None => {
                proof {
                    let none = Seq::<MetricModel>::empty();
                    assert(values_of(none, DiskMetricKind::IoSec) =~= Seq::<u64>::empty());
                    assert(values_of(none, DiskMetricKind::KbSec) =~= Seq::<u64>::empty());
                }
                (0, 0, false)
            },
        };
        proof {
            assert(mean_iops == iops_all[i as int]);
            assert(mean_kbs == kbs_all[i as int]);
            assert(busy == series_active(points_of(all@, paths[i as int])));
            assert(iops_all.take(i + 1).drop_last() =~= iops_all.take(i as int));
            assert(kbs_all.take(i + 1).drop_last() =~= kbs_all.take(i as int));
            assert(i * u64::MAX + u64::MAX == (i + 1) * u64::MAX) by (nonlinear_arith);
            assert((i + 1) * u64::MAX <= u64::MAX * u64::MAX) by (nonlinear_arith)
                requires
                    i + 1 <= u64::MAX,
            ;
        }
        let ghost was_active = active;
        iops.push(mean_iops);
        kbs.push(mean_kbs);
        total_iops = total_iops + mean_iops as u128;
        total_kbs = total_kbs + mean_kbs as u128;
        if busy {
            active = true;
        }
        proof {
            assert(iops@ =~= iops_all.take(i + 1));
            assert(kbs@ =~= kbs_all.take(i + 1));
            if was_active {
                let p = choose|p: int|
                    0 <= p < i && series_active(points_of(all@, #[trigger] paths[p]));
                assert(0 <= p < i + 1 && series_active(points_of(all@, paths[p])));
            }
            if !active {
                assert forall|p: int| 0 <= p < i + 1 implies !series_active(
                    points_of(all@, #[trigger] paths[p]),
                ) by {}
            }
        }
        i += 1;
    }
    proof {
        assert(iops_all.take(i as int) =~= iops_all);
        assert(kbs_all.take(i as int) =~= kbs_all);
    }
    if !active {
        return None;
    }
    let mut shares: Vec<PathShare> = Vec::new();
    let mut j: usize = 0;
    while j < group.paths.len()
        invariant
            j <= group.paths.len(),
            paths == keys_view(group.paths@),
            iops@ == iops_all,
            kbs@ == kbs_all,
            iops_all.len() == paths.len(),
            kbs_all.len() == paths.len(),
            total_iops == sum_of(iops_all),
            total_kbs == sum_of(kbs_all),
            shares@.len() == j,
            forall|n: int|
                0 <= n < j ==> {
                    let p = #[trigger] shares@[n];
                    &&& p.key@ == paths[n]
                    &&& p.iops == iops_all[n]
                    &&& p.kbs == kbs_all[n]
                    &&& p.io_pct == share_of(p.iops, sum_of(iops_all))
                    &&& p.kb_pct == share_of(p.kbs, sum_of(kbs_all))
                },
        decreases group.paths.len() - j,
    {
        let io_pct = share(iops[j], total_iops);
        let kb_pct = share(kbs[j], total_kbs);
        proof {
            lemma_share_bound(iops_all, j as int);
            lemma_share_bound(kbs_all, j as int);
        }
        shares.push(
            PathShare {
                key: group.paths[j].clone(),
                iops: iops[j],
                kbs: kbs[j],
                io_pct: io_pct as u64,
                kb_pct: kb_pct as u64,
            },
        );
        j += 1;
    }
    Some(GroupReport { name: group.name.clone(), total_iops, total_kbs, paths: shares })
}

/// No value exceeds the sum of all, so no share exceeds a hundred percent.
pub proof fn lemma_share_bound(v: Seq<u64>, i: int)
    requires
        0 <= i < v.len(),
    ensures
        v[i] <= sum_of(v),
        share_of(v[i], sum_of(v)) <= 100_000,
    decreases v.len(),
{
    if i < v.len() - 1 {
        lemma_share_bound(v.drop_last(), i);
        assert(v.drop_last()[i] == v[i]);
    }
    let part = v[i] as int;
    let total = sum_of(v) as int;
    if total > 0 {
        assert((part * 100_000) / total <= 100_000) by (nonlinear_arith)
            requires
                0 <= part <= total,
                total > 0,
        ;
    }
}

/// The key of a path: the disk with the path's device name and the major
/// and minor number that the listing gives as `major:minor`.
pub open spec fn path_key(p: PathModel) -> Option<KeyModel> {
    let f = split(p.major_minor, ':');
    if f.len() == 2 && parse_u32_spec(f[0]) is Some && parse_u32_spec(f[1]) is Some {
        Some(
            KeyModel::Disk {
                major: parse_u32_spec(f[0])->0,
                minor: parse_u32_spec(f[1])->0,
                name: p.dev_name,
            },
        )
    } else {
        None
    }
}

/// The keys of the paths that have one, in order.
pub open spec fn path_keys(paths: Seq<PathModel>) -> Seq<KeyModel>
    decreases paths.len(),
{
    if paths.len() == 0 {
        Seq::empty()
    } else {
        match path_key(paths.last()) {
            Some(k) => path_keys(paths.drop_last()).push(k),
            None => path_keys(paths.drop_last()),
        }
    }
}

/// The mathematical value of an optional key.
pub open spec fn key_view(k: Option<EntityKey>) -> Option<KeyModel> {
    match k {
        Some(k) => Some(k@),
        None => None,
    }
}

impl MpathPath {
    /// The key of the disk behind the path, where the listing gives its
    /// major and minor number as two decimal numbers with a colon between.
    pub fn key(&self) -> (k: Option<EntityKey>)
        ensures
            key_view(k) == path_key(self@),
    {
        let text = chars_of(self.major_minor.as_str());
        let f = split_fields(&text, ':');
        if f.len() != 2 {
            return None;
        }
        assert(views(f@)[0] == f@[0]@ && views(f@)[1] == f@[1]@);
        let major = parse_u32(&f[0])?;
        let minor = parse_u32(&f[1])?;
        Some(EntityKey::Disk { major, minor, name: self.dev_name.clone() })
    }
}

impl MultipathDevice {
    /// The group of the device: its alias, and the keys of its paths in
    /// order. A path whose major and minor number cannot be read is left out.
    pub fn group(&self) -> (g: MultipathGroup)
        ensures
            g.name@ == self@.name,
            keys_view(g.paths@) == path_keys(self@.paths),
    {
        let mut keys: Vec<EntityKey> = Vec::new();
        let mut i: usize = 0;
        proof {
            assert(self@.paths.take(0) =~= Seq::<PathModel>::empty());
            assert(keys_view(keys@) =~= Seq::<KeyModel>::empty());
        }
        while i < self.paths.len()
            invariant
                i <= self.paths.len(),
                keys_view(keys@) == path_keys(self@.paths.take(i as int)),
            decreases self.paths.len() - i,
        {
            proof {
                assert(self@.paths.take(i + 1).drop_last() =~= self@.paths.take(i as int));
                assert(self@.paths.take(i + 1).last() == self.paths@[i as int]@);
            }
            match self.paths[i].key() {
                Some(k) => {
                    let ghost before = keys_view(keys@);
                    keys.push(k);
                    assert(keys_view(keys@) =~= before.push(k@));
                },
                None => {},
            }
            i += 1;
        }
        assert(self@.paths.take(i as int) =~= self@.paths);
        MultipathGroup { name: self.name.clone(), paths: keys }
    }
}

/// What a report shows of one multipath device.
#[derive(Debug, PartialEq, Eq)]
pub struct DeviceReport {
    /// The place of the device in its listing, counted from zero.
    pub place: usize,
    /// The device-mapper name of the device.
    pub dm_name: String,
    /// The device column: vendor and model.
    pub dev_field: String,
    /// The attribute column: the size line.
    pub attr_field: String,
    pub report: GroupReport,
}

/// Whether any path of the device shows any I/O over the whole capture.
pub open spec fn device_active(d: DeviceModel, all: Map<KeyModel, Seq<MetricModel>>) -> bool {
    group_active(all, path_keys(d.paths))
}

/// The places of the devices that show any I/O, in order.
pub open spec fn active_places(
    devices: Seq<DeviceModel>,
    all: Map<KeyModel, Seq<MetricModel>>,
) -> Seq<int>
    decreases devices.len(),
{
    if devices.len() == 0 {
        Seq::empty()
    } else if device_active(devices.last(), all) {
        active_places(devices.drop_last(), all).push(devices.len() - 1)
    } else {
        active_places(devices.drop_last(), all)
    }
}

/// The places that a run of reports names.
pub open spec fn places_of(reports: Seq<DeviceReport>) -> Seq<int> {
    Seq::new(reports.len(), |i: int| reports[i].place as int)
}

/// Whether `r` is the report of the device `d` over the series `all`.
pub open spec fn is_report_of(
    r: DeviceReport,
    d: DeviceModel,
    all: Map<KeyModel, Seq<MetricModel>>,
) -> bool {
    &&& r.dm_name@ == d.dm_name
    &&& (r.dev_field@, r.attr_field@) == columns_of(d.vendor_model, d.size)
    &&& report_matches(r.report, d.name, path_keys(d.paths), all)
}

/// Whether `reports` are the reports of the devices that show any I/O, in
/// the order of the devices: devices without any I/O are left out.
pub open spec fn are_reports_of(
    reports: Seq<DeviceReport>,
    devices: Seq<DeviceModel>,
    all: Map<KeyModel, Seq<MetricModel>>,
) -> bool {
    &&& places_of(reports) == active_places(devices, all)
    &&& forall|k: int|
        0 <= k < reports.len() ==> 0 <= (#[trigger] reports[k]).place < devices.len()
            && is_report_of(reports[k], devices[reports[k].place as int], all)
}

/// Reports every multipath device that shows any I/O over the capture
/// whose series are `all`.
pub fn report_devices(devices: &Vec<MultipathDevice>, all: &SeriesAccumulator) -> (out: Vec<
    DeviceReport,
>)
    requires
        all.wf(),
    ensures
        are_reports_of(out@, devices_view(devices@), all@),
{
    let ghost models = devices_view(devices@);
    let mut out: Vec<DeviceReport> = Vec::new();
    let mut i: usize = 0;
    proof {
        assert(models.take(0) =~= Seq::<DeviceModel>::empty());
        assert(places_of(out@) =~= Seq::<int>::empty());
    }
    while i < devices.len()
        invariant
            i <= devices.len(),
            all.wf(),
            models == devices_view(devices@),
            places_of(out@) == active_places(models.take(i as int), all@),
            forall|k: int|
                0 <= k < out@.len() ==> 0 <= (#[trigger] out@[k]).place < i && is_report_of(
                    out@[k],
                    models[out@[k].place as int],
                    all@,
                ),
        decreases devices.len() - i,
    {
        proof {
            assert(models.take(i + 1).drop_last() =~= models.take(i as int));
            assert(models.take(i + 1).last() == devices@[i as int]@);
        }
        let device = &devices[i];
        match aggregate(&device.group(), all) {
            Some(report) => {
                let (dev_field, attr_field) = device.columns();
                let ghost before = places_of(out@);
                out.push(
                    DeviceReport {
                        place: i,
                        dm_name: device.dm_name.clone(),
                        dev_field,
                        attr_field,
                        report,
                    },
                );
                assert(places_of(out@) =~= before.push(i as int));
            },
            None => {},
        }
        i += 1;
    }
    assert(models.take(i as int) =~= models);
    out
}

/// Reads a `multipath -ll` listing and a capture, and reports every
/// multipath device of the listing that shows any I/O over the capture,
/// with its totals and the share of each of its paths.
pub fn report_mpath_stats(listing: &Vec<String>, capture: &Vec<String>) -> (out: Vec<DeviceReport>)
    ensures
        are_reports_of(
            out@,
            flushed(listing_of(lines_view(listing@))),
            run(fresh(), records_of(lines_view(capture@), |s: SnapshotModel| is_disk(s))).series,
        ),
{
    let devices = parse_multipath_ll(listing);
    let all = get_disk_metrics_map(capture);
    report_devices(&devices, &all)
}

} // verus!
