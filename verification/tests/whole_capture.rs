use serverstats::aggregate::report_mpath_stats;
use serverstats::analysis::{analyze, top_tables};
use serverstats::capture::{read_capture, write_capture, CAPTURE_HEADER};
use serverstats::delta::Derived;
use serverstats::playback::{memory_rows, playback, snapshot_domain, Domain};
use serverstats::engine::get_disk_metrics_map;
use serverstats::record::format_record;
use serverstats::series::SeriesAccumulator;
use serverstats::snapshot::EntityKey;
use serverstats::source::gather_records;
use serverstats::summary::DiskMetricKind;

fn lines(text: &str) -> Vec<String> {
    text.lines().map(|l| l.to_string()).collect()
}

const CAPTURE: &str = "\
#TYPE,ts_epoch,<fields...>
DISK,100,8,16,sdb,0,0,0,0,0,0,0,0,0,0,0,0,0,0,0
DISK,100,8,32,sdc,0,0,0,0,0,0,0,0,0,0,0,0,0,0,0
DISK,100,8,48,sdd,0,0,0,0,0,0,0,0,0,0,0,0,0,0,0
CPU,100,10,0,10,80,0,0,0,0,0,2,0
MEM,100,1000,250,500,0,100,0,0,0,0,0,0,0,0,0
NET,100,eth0,0,0,0,0,0,0,0,0
garbage line
DISK,110,8,16,sdb,1000,0,2000,0,0,0,0,0,0,0,0,0,0,0,0
DISK,110,8,32,sdc,0,0,0,0,0,0,0,0,0,0,0,0,0,0,0
DISK,110,8,48,sdd,0,0,0,0,500,0,4000,0,0,0,0,0,0,0,0
CPU,110,30,0,20,150,0,0,0,0,0,3,1
MEM,110,1000,500,600,0,50,0,0,0,0,0,0,0,0,0
NET,110,eth0,10240,0,0,0,0,0,0,0
DISK,120,8,16,sdb,3000,0,2000,0,0,0,0,0,0,0,0,0,0,0,0
";

const LISTING: &str = "\
mpatha (3600a) dm-1 HPE,MSA 2050 SAN
size=9.3G features='0' hwhandler='0' wp=rw
| |- 1:0:0:1 sdb 8:16 active ready running
| `- 2:0:0:1 sdc 8:32 active ready running
mpathb (3600b) dm-2 HPE,MSA 2050 SAN
size=1.0G features='0' hwhandler='0' wp=rw
  `- 1:0:0:2 sdc 8:32 active ready running
mpathc (3600c) dm-3 DELL,X size=5G
  `- 1:0:0:3 sdd 8:48 active ready running
";

fn disk(name: &str, minor: u32) -> EntityKey {
    EntityKey::Disk { major: 8, minor, name: name.to_string() }
}

#[test]
fn the_disk_series_of_a_capture() {
    let all = get_disk_metrics_map(&lines(CAPTURE));
    assert_eq!(all.len(), 3);
    assert_eq!(all.at(0).key, disk("sdb", 16));
    assert_eq!(all.at(1).key, disk("sdc", 32));
    assert_eq!(all.at(2).key, disk("sdd", 48));
    assert_eq!(all.at(0).points.len(), 2);
    assert_eq!(all.at(1).points.len(), 1);
    assert!(all.find(&EntityKey::Cpu).is_none());
    assert_eq!(get_disk_metrics_map(&Vec::new()).len(), 0);
}

#[test]
fn a_capture_is_analysed_into_series_memory_and_tables() {
    let a = analyze(&lines(CAPTURE));
    assert_eq!(a.series.len(), 5);
    assert_eq!(a.series.at(3).key, EntityKey::Cpu);
    assert_eq!(a.series.at(4).key, EntityKey::Net { iface: "eth0".to_string() });
    assert!(a.series.find(&EntityKey::Mem).is_none());
    assert_eq!(a.mem.len(), 2);
    assert_eq!(a.mem[0].ts, 100);
    assert_eq!(a.mem[0].used_percent.milli(), 75_000);
    assert_eq!(a.mem[1].free_percent.milli(), 50_000);
    assert_eq!(a.tables.len(), 16);
    assert_eq!(a.tables[0].kind, DiskMetricKind::Rps);
    assert_eq!(a.tables[15].kind, DiskMetricKind::DiscardKbs);
    let rps = &a.tables[0];
    let means: Vec<u64> = rps.rows.iter().map(|r| r.mean).collect();
    let peaks: Vec<u64> = rps.rows.iter().map(|r| r.peak).collect();
    assert_eq!(means, vec![150_000, 0, 0]);
    assert_eq!(peaks, vec![200_000, 0, 0]);
    assert_eq!(rps.by_mean, vec![0, 1, 2]);
    assert_eq!(rps.by_peak, vec![0, 1, 2]);
    let wps = &a.tables[1];
    assert_eq!(wps.kind, DiskMetricKind::Wps);
    assert_eq!(wps.rows[2].mean, 50_000);
    assert_eq!(wps.by_mean, vec![2, 0, 1]);
    let kb = &a.tables[5];
    assert_eq!(kb.kind, DiskMetricKind::KbSec);
    assert_eq!(kb.rows.iter().map(|r| r.peak).collect::<Vec<u64>>(), vec![100_000, 0, 200_000]);
    assert_eq!(kb.by_peak, vec![2, 0, 1]);
    assert_eq!(kb.by_mean, vec![2, 0, 1]);
}

#[test]
fn a_capture_without_disks_has_no_tables() {
    let a = analyze(&lines("CPU,1,1,1,1,1,1,1,1,1,1,0,0\nCPU,2,2,2,2,2,2,2,2,2,2,0,0\n"));
    assert_eq!(a.series.len(), 1);
    assert!(a.tables.is_empty());
    assert!(a.mem.is_empty());
    assert!(top_tables(&SeriesAccumulator::new()).is_empty());
    let a = analyze(&Vec::new());
    assert_eq!(a.series.len(), 0);
    assert!(a.tables.is_empty());
}

#[test]
fn multipath_devices_are_reported_unless_idle() {
    let reports = report_mpath_stats(&lines(LISTING), &lines(CAPTURE));
    assert_eq!(reports.len(), 2);
    let a = &reports[0];
    assert_eq!(a.place, 0);
    assert_eq!(a.dm_name, "dm-1");
    assert_eq!(a.dev_field, "HPE,MSA 2050 SAN");
    assert_eq!(a.attr_field, "size=9.3G features='0' hwhandler='0' wp=rw");
    assert_eq!(a.report.name, "mpatha");
    assert_eq!(a.report.total_iops, 150_000);
    assert_eq!(a.report.total_kbs, 50_000);
    assert_eq!(a.report.paths.len(), 2);
    assert_eq!(a.report.paths[0].key, disk("sdb", 16));
    assert_eq!(a.report.paths[0].io_pct, 100_000);
    assert_eq!(a.report.paths[0].kb_pct, 100_000);
    assert_eq!(a.report.paths[1].key, disk("sdc", 32));
    assert_eq!(a.report.paths[1].iops, 0);
    assert_eq!(a.report.paths[1].io_pct, 0);
    let c = &reports[1];
    assert_eq!(c.place, 2);
    assert_eq!(c.dm_name, "dm-3");
    assert_eq!(c.dev_field, "DELL,X");
    assert_eq!(c.attr_field, "size=");
    assert_eq!(c.report.name, "mpathc");
    assert_eq!(c.report.total_iops, 50_000);
    assert_eq!(c.report.total_kbs, 200_000);
    assert!(report_mpath_stats(&lines(LISTING), &Vec::new()).is_empty());
    assert!(report_mpath_stats(&Vec::new(), &lines(CAPTURE)).is_empty());
}

#[test]
fn one_interval_of_a_capture_is_gathered_from_the_kernel_texts() {
    let diskstats = lines(
        "   8       0 sda 10 1 100 5 20 2 200 6 0 30 40 1 0 8 2\n  11       0 sr0 1 0 8 0 0 0 0 0 0 0 0\n",
    );
    let stat = lines("cpu  100 20 30 4000 50 6 7 8 9 10\nprocs_running 3\nprocs_blocked 1\n");
    let meminfo = lines("MemTotal: 16 kB\nMemFree: 4 kB\n");
    let netdev = lines("h1\nh2\n  lo: 1000 10 1 2 0 0 0 0 2000 20 3 4 0 0 0 0\n");
    let out = gather_records(77, &diskstats, Some(&stat), Some(&meminfo), Some(&netdev));
    let written: Vec<String> = out.iter().map(format_record).collect();
    assert_eq!(
        written,
        vec![
            "DISK,77,8,0,sda,10,1,100,5,20,2,200,6,0,30,40,1,0,8,2",
            "CPU,77,100,20,30,4000,50,6,7,8,9,3,1",
            "MEM,77,16,4,0,0,0,0,0,0,0,0,0,0,0,0",
            "NET,77,lo,1000,2000,10,20,1,3,2,4",
        ]
    );
    let out = gather_records(78, &diskstats, None, None, None);
    assert_eq!(out.len(), 1);
    let out = gather_records(79, &Vec::new(), Some(&lines("nothing")), Some(&Vec::new()), None);
    let written: Vec<String> = out.iter().map(format_record).collect();
    assert_eq!(written, vec!["MEM,79,0,0,0,0,0,0,0,0,0,0,0,0,0,0"]);
}

#[test]
fn a_capture_file_begins_with_its_comment_line() {
    assert_eq!(CAPTURE_HEADER, "#TYPE,ts_epoch,<fields...>");
    assert_eq!(write_capture(&Vec::new()), vec![CAPTURE_HEADER.to_string()]);
    assert!(read_capture(&vec![CAPTURE_HEADER.to_string()]).is_empty());
    assert!(read_capture(&Vec::new()).is_empty());
}

#[test]
fn a_whole_capture_reads_back_as_it_was_written() {
    let snaps = read_capture(&lines(CAPTURE));
    assert_eq!(snaps.len(), 13);
    let written = write_capture(&snaps);
    assert_eq!(written.len(), 14);
    assert_eq!(written[0], CAPTURE_HEADER);
    assert_eq!(read_capture(&written), snaps);
    let kept: Vec<String> =
        lines(CAPTURE).into_iter().filter(|l| l != "garbage line").collect();
    assert_eq!(written, kept);
}

#[test]
fn playback_hands_out_the_metrics_of_one_domain_in_file_order() {
    let rows = playback(&lines(CAPTURE), Domain::Disk);
    let seen: Vec<(String, u64, u64)> = rows
        .iter()
        .map(|m| match &m.key {
            EntityKey::Disk { name, .. } => (name.clone(), m.timestamp, m.dt),
            _ => panic!("not a disk"),
        })
        .collect();
    assert_eq!(
        seen,
        vec![
            ("sdb".to_string(), 110, 10),
            ("sdc".to_string(), 110, 10),
            ("sdd".to_string(), 110, 10),
            ("sdb".to_string(), 120, 10),
        ]
    );
    let rows = playback(&lines(CAPTURE), Domain::Cpu);
    assert_eq!(rows.len(), 1);
    match rows[0].derived {
        Derived::Cpu(c) => {
            assert_eq!(c.user.milli(), 20_000);
            assert_eq!(c.sys.milli(), 10_000);
            assert_eq!(c.idle.milli(), 70_000);
            assert_eq!((c.running, c.blocked), (3, 1));
        }
        _ => panic!("not a CPU metric"),
    }
    let rows = playback(&lines(CAPTURE), Domain::Net);
    assert_eq!(rows.len(), 1);
    match rows[0].derived {
        Derived::Net(_, r) => assert_eq!(r.rx_bytes.milli(), 1_024_000),
        _ => panic!("not a network metric"),
    }
    let rows = playback(&lines(CAPTURE), Domain::Mem);
    assert_eq!(rows.len(), 1);
    assert_eq!(rows[0].key, EntityKey::Mem);
    assert!(playback(&Vec::new(), Domain::Disk).is_empty());
    assert!(playback(&lines("CPU,1,1,1,1,1,1,1,1,1,1,0,0"), Domain::Cpu).is_empty());
}

#[test]
fn every_memory_record_has_its_row() {
    let rows = memory_rows(&lines(CAPTURE));
    assert_eq!(rows.len(), 2);
    assert_eq!((rows[0].ts, rows[1].ts), (100, 110));
    assert_eq!(rows[0].used_percent.milli(), 75_000);
    assert_eq!(rows[0].avail_percent.milli(), 50_000);
    assert_eq!(rows[0].cached_percent.milli(), 10_000);
    assert_eq!(rows[1].used_percent.milli(), 50_000);
    assert!(memory_rows(&Vec::new()).is_empty());
}

#[test]
fn the_domain_of_a_snapshot() {
    let snaps = read_capture(&lines(CAPTURE));
    assert_eq!(snapshot_domain(&snaps[0]), Domain::Disk);
    assert_eq!(snapshot_domain(&snaps[3]), Domain::Cpu);
    assert_eq!(snapshot_domain(&snaps[4]), Domain::Mem);
    assert_eq!(snapshot_domain(&snaps[5]), Domain::Net);
}
