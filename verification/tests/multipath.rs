use serverstats::aggregate::{aggregate, share, GroupReport, MultipathGroup, PathShare};
use serverstats::delta::{disk_rates, Derived, DiskDeltas, IntervalMetric};
use serverstats::mpath::{
    find_device, parse_multipath_ll, path_at, MpathPath, MultipathDevice, DEVICE_PATTERN,
};
use serverstats::series::SeriesAccumulator;
use serverstats::snapshot::EntityKey;

fn key(minor: u32, name: &str) -> EntityKey {
    EntityKey::Disk { major: 8, minor, name: name.to_string() }
}

fn point(k: &EntityKey, ts: u64, reads: u64, sectors: u64) -> IntervalMetric {
    let d = DiskDeltas {
        reads,
        reads_merged: 0,
        sectors_read: sectors,
        read_time_ms: 0,
        writes: 0,
        writes_merged: 0,
        sectors_written: 0,
        write_time_ms: 0,
        io_time_ms: 0,
        weighted_io_time_ms: 0,
        discards: 0,
        discards_merged: 0,
        sectors_discarded: 0,
        discard_time_ms: 0,
    };
    IntervalMetric {
        key: k.clone(),
        timestamp: ts,
        dt: 1,
        derived: Derived::Disk(d, disk_rates(ts, 1, &d)),
    }
}

fn lines(text: &str) -> Vec<String> {
    text.lines().map(|l| l.to_string()).collect()
}

fn tokens(text: &str) -> Vec<Vec<char>> {
    text.split_whitespace().map(|t| t.chars().collect()).collect()
}

const LISTING: &str = "\
mpathw (3600c0ff00050a1b2c3d4e5f601000000) dm-37 HPE,MSA 2050 SAN
size=9.3G features='1 queue_if_no_path' hwhandler='1 alua' wp=rw
|-+- policy='service-time 0' prio=50 status=active
| |- 1:0:0:1 sdb 8:16  active ready running
| `- 2:0:0:1 sdd 8:48  active ready running
`-+- policy='service-time 0' prio=10 status=enabled
  `- 1:0:1:1 sdc 8:32  active ready running

mpathx (3600c0ff00050a1b2c3d4e5f602000000) dm-38 NVME,Fast
   size=1.0T features='0' hwhandler='0' wp=rw   
`-+- policy='round-robin 0' prio=1 status=active
  |- 0:0:1:1 nvme0n1 259:0 active ready running
  `- 0:0:2:1 nvme10n12 259:1 failed faulty offline
";

fn path(bus: &str, dev: &str, mm: &str, status: &str) -> MpathPath {
    MpathPath {
        bus: bus.to_string(),
        dev_name: dev.to_string(),
        major_minor: mm.to_string(),
        status: status.to_string(),
    }
}

#[test]
fn a_listing_is_read_into_devices_and_paths() {
    let devices = parse_multipath_ll(&lines(LISTING));
    assert_eq!(devices.len(), 2);
    assert_eq!(
        devices[0],
        MultipathDevice {
            name: "mpathw".to_string(),
            wwid: "3600c0ff00050a1b2c3d4e5f601000000".to_string(),
            dm_name: "dm-37".to_string(),
            vendor_model: "HPE,MSA 2050 SAN".to_string(),
            size: "size=9.3G features='1 queue_if_no_path' hwhandler='1 alua' wp=rw".to_string(),
            paths: vec![
                path("1:0:0:1", "sdb", "8:16", "active ready running"),
                path("2:0:0:1", "sdd", "8:48", "active ready running"),
                path("1:0:1:1", "sdc", "8:32", "active ready running"),
            ],
        }
    );
    assert_eq!(
        devices[1],
        MultipathDevice {
            name: "mpathx".to_string(),
            wwid: "3600c0ff00050a1b2c3d4e5f602000000".to_string(),
            dm_name: "dm-38".to_string(),
            vendor_model: "NVME,Fast".to_string(),
            size: "size=1.0T features='0' hwhandler='0' wp=rw".to_string(),
            paths: vec![
                path("0:0:1:1", "nvme0n1", "259:0", "active ready running"),
                path("0:0:2:1", "nvme10n12", "259:1", "failed faulty offline"),
            ],
        }
    );
}

#[test]
fn lines_before_the_first_device_are_passed_over() {
    let devices = parse_multipath_ll(&lines("| |- 1:0:0:1 sdb 8:16 active\nsize=1G\n\n"));
    assert_eq!(devices.len(), 0);
    assert_eq!(parse_multipath_ll(&Vec::new()).len(), 0);
}

#[test]
fn a_short_first_line_leaves_the_rest_empty() {
    let devices = parse_multipath_ll(&lines("mpatha\nmpathb (abc)\nmpathc (abc) dm-1"));
    assert_eq!(devices.len(), 3);
    assert_eq!(devices[0].name, "mpatha");
    assert_eq!(devices[0].wwid, "");
    assert_eq!(devices[0].dm_name, "");
    assert_eq!(devices[0].vendor_model, "");
    assert_eq!(devices[0].size, "");
    assert!(devices[0].paths.is_empty());
    assert_eq!(devices[1].wwid, "abc");
    assert_eq!(devices[2].dm_name, "dm-1");
    assert_eq!(devices[2].vendor_model, "");
}

#[test]
fn only_device_names_make_a_path() {
    let listing = "\
mpatha (x) dm-0 V,M
|- 1:0:0:1 sdb 8:16 active
|- 1:0:0:2 sr0 11:0 active
|- 1:0:0:3 sdb1x 8:17 active
|- 1:0:0:4 nvme0 259:0 active
|- 1:0:0:5 xsdb 8:16 active
|- 1:0:0:6 sd 8:16 active
|- 1:0:0:7 sd-b 8:16 active
|- 1:0:0:8 nvme1n2 259:5 active
";
    let devices = parse_multipath_ll(&lines(listing));
    let names: Vec<&str> = devices[0].paths.iter().map(|p| p.dev_name.as_str()).collect();
    assert_eq!(names, vec!["sdb", "sdb1x", "nvme1n2"]);
}

#[test]
fn the_first_device_name_on_a_line_is_found_by_the_pattern() {
    assert_eq!(DEVICE_PATTERN, r"^(sd[a-zA-Z0-9]+|nvme\d+n\d+)$");
    assert_eq!(find_device(&tokens("| |- 1:0:0:1 sdb 8:16 active ready running")), Some(3));
    assert_eq!(find_device(&tokens("sdb sdc")), Some(0));
    assert_eq!(find_device(&tokens("`-+- policy='service-time 0' prio=50")), None);
    assert_eq!(find_device(&tokens("")), None);
    assert_eq!(find_device(&tokens("x nvme0n1 y")), Some(1));
    assert_eq!(find_device(&tokens("x nvme0n y")), None);
    assert_eq!(find_device(&tokens("SDB sda")), Some(1));
}

#[test]
fn a_path_needs_its_bus_and_two_more_tokens() {
    let parts = tokens("|- 1:0:0:1 sdb 8:16 active ready");
    assert_eq!(path_at(&parts, Some(2)), Some(path("1:0:0:1", "sdb", "8:16", "active ready")));
    assert_eq!(path_at(&parts, None), None);
    assert_eq!(path_at(&tokens("sdb 8:16 active ready"), Some(0)), None);
    assert_eq!(path_at(&tokens("1:0:0:1 sdb 8:16"), Some(1)), None);
    assert_eq!(path_at(&tokens("1:0:0:1 sdb"), Some(1)), None);
    assert_eq!(path_at(&tokens("1:0:0:1 sdb 8:16 up"), Some(1)), Some(path("1:0:0:1", "sdb", "8:16", "up")));
    assert_eq!(path_at(&tokens("a b c d"), Some(9)), None);
    assert_eq!(path_at(&tokens("a b c d"), Some(usize::MAX)), None);
}

#[test]
fn the_group_of_a_device_holds_the_keys_of_its_paths() {
    let devices = parse_multipath_ll(&lines(LISTING));
    let group = devices[0].group();
    assert_eq!(
        group,
        MultipathGroup {
            name: "mpathw".to_string(),
            paths: vec![key(16, "sdb"), key(48, "sdd"), key(32, "sdc")],
        }
    );
    assert_eq!(
        path("b", "sdq", "65:0", "s").key(),
        Some(EntityKey::Disk { major: 65, minor: 0, name: "sdq".to_string() })
    );
    assert_eq!(path("b", "sdq", "65", "s").key(), None);
    assert_eq!(path("b", "sdq", "65:0:1", "s").key(), None);
    assert_eq!(path("b", "sdq", "65:x", "s").key(), None);
    assert_eq!(path("b", "sdq", ":", "s").key(), None);
    let odd = MultipathDevice {
        name: "m".to_string(),
        wwid: String::new(),
        dm_name: String::new(),
        vendor_model: String::new(),
        size: String::new(),
        paths: vec![path("b", "sda", "8:0", "s"), path("b", "sdb", "?", "s"), path("b", "sdc", "8:32", "s")],
    };
    assert_eq!(odd.group().paths, vec![key(0, "sda"), key(32, "sdc")]);
}

#[test]
fn the_report_columns_of_a_device() {
    let devices = parse_multipath_ll(&lines(LISTING));
    assert_eq!(
        devices[0].columns(),
        (
            "HPE,MSA 2050 SAN".to_string(),
            "size=9.3G features='1 queue_if_no_path' hwhandler='1 alua' wp=rw".to_string()
        )
    );
    let inline = parse_multipath_ll(&lines("mpatha (x) dm-0 HPE,MSA  size=9G wp=rw"));
    assert_eq!(inline[0].vendor_model, "HPE,MSA size=9G wp=rw");
    assert_eq!(inline[0].columns(), ("HPE,MSA".to_string(), "size=".to_string()));
}

#[test]
fn one_busy_path_and_one_idle_path() {
    let busy = key(16, "sdb");
    let idle = key(32, "sdc");
    let mut all = SeriesAccumulator::new();
    all.append(point(&busy, 1, 50, 0));
    all.append(point(&idle, 1, 0, 0));
    all.append(point(&busy, 2, 150, 0));
    all.append(point(&idle, 2, 0, 0));
    let group = MultipathGroup { name: "mpatha".to_string(), paths: vec![busy.clone(), idle.clone()] };
    let report = aggregate(&group, &all).expect("the group is reported");
    assert_eq!(
        report,
        GroupReport {
            name: "mpatha".to_string(),
            total_iops: 100_000,
            total_kbs: 0,
            paths: vec![
                PathShare { key: busy, iops: 100_000, kbs: 0, io_pct: 100_000, kb_pct: 0 },
                PathShare { key: idle, iops: 0, kbs: 0, io_pct: 0, kb_pct: 0 },
            ],
        }
    );
    assert_eq!(report.total_iops as f64 / 1000.0, 100.0);
    assert_eq!(report.paths[0].io_pct as f64 / 1000.0, 100.0);
    assert_eq!(report.paths[1].io_pct as f64 / 1000.0, 0.0);
}

#[test]
fn a_group_without_any_activity_is_left_out() {
    let a = key(16, "sdb");
    let b = key(32, "sdc");
    let mut all = SeriesAccumulator::new();
    all.append(point(&a, 1, 0, 0));
    all.append(point(&b, 1, 0, 0));
    all.append(point(&a, 2, 0, 0));
    all.append(point(&key(48, "sdd"), 2, 500, 500));
    let group = MultipathGroup { name: "mpatha".to_string(), paths: vec![a, b] };
    assert_eq!(aggregate(&group, &all), None);
    let unknown = MultipathGroup { name: "mpathb".to_string(), paths: vec![key(99, "sdz")] };
    assert_eq!(aggregate(&unknown, &all), None);
    let empty = MultipathGroup { name: "mpathc".to_string(), paths: vec![] };
    assert_eq!(aggregate(&empty, &all), None);
}

#[test]
fn shares_are_parts_of_the_sum_of_the_means() {
    let a = key(16, "sdb");
    let b = key(32, "sdc");
    let c = key(48, "sdd");
    let mut all = SeriesAccumulator::new();
    all.append(point(&a, 1, 10, 20));
    all.append(point(&a, 2, 30, 60));
    all.append(point(&b, 1, 60, 0));
    all.append(point(&c, 1, 0, 160));
    let group = MultipathGroup { name: "m".to_string(), paths: vec![a.clone(), b.clone(), c.clone(), key(0, "gone")] };
    let report = aggregate(&group, &all).unwrap();
    assert_eq!(report.total_iops, 80_000);
    assert_eq!(report.total_kbs, 100_000);
    assert_eq!(
        report.paths,
        vec![
            PathShare { key: a, iops: 20_000, kbs: 20_000, io_pct: 25_000, kb_pct: 20_000 },
            PathShare { key: b, iops: 60_000, kbs: 0, io_pct: 75_000, kb_pct: 0 },
            PathShare { key: c, iops: 0, kbs: 80_000, io_pct: 0, kb_pct: 80_000 },
            PathShare { key: key(0, "gone"), iops: 0, kbs: 0, io_pct: 0, kb_pct: 0 },
        ]
    );
}

#[test]
fn a_share_of_nothing_is_zero() {
    assert_eq!(share(0, 0), 0);
    assert_eq!(share(5, 0), 0);
    assert_eq!(share(1, 3), 33_333);
    assert_eq!(share(3, 3), 100_000);
    assert_eq!(share(u64::MAX, u64::MAX as u128), 100_000);
}
