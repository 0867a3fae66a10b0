use serverstats::aggregate::{any_activity, report_devices};
use serverstats::delta::{counter_or_zero, disk_rates, Derived, DiskDeltas, IntervalMetric};
use serverstats::mpath::{MpathPath, MultipathDevice};
use serverstats::procstat::strings_of;
use serverstats::record::disk_from;
use serverstats::series::SeriesAccumulator;
use serverstats::snapshot::{EntityKey, RawSnapshot, Sample};
use serverstats::source::{
    cpu_sample_of_lines, gauge, lines_chars, mem_sample_of_rows, net_row, passes_filter,
    row_names_gauge,
};

fn c(s: &str) -> Vec<char> {
    s.chars().collect()
}

fn fields(text: &str) -> Vec<Vec<char>> {
    text.split_whitespace().map(c).collect()
}

fn rows(text: &str) -> Vec<Vec<Vec<char>>> {
    text.lines().map(fields).collect()
}

fn point(key: &EntityKey, reads: u64, sectors_written: u64) -> IntervalMetric {
    let d = DiskDeltas {
        reads,
        reads_merged: 0,
        sectors_read: 0,
        read_time_ms: 0,
        writes: 0,
        writes_merged: 0,
        sectors_written,
        write_time_ms: 0,
        io_time_ms: 0,
        weighted_io_time_ms: 0,
        discards: 0,
        discards_merged: 0,
        sectors_discarded: 0,
        discard_time_ms: 0,
    };
    IntervalMetric { key: key.clone(), timestamp: 1, dt: 1, derived: Derived::Disk(d, disk_rates(1, 1, &d)) }
}

#[test]
fn an_absent_counter_counts_as_zero() {
    assert_eq!(counter_or_zero(None), 0);
    assert_eq!(counter_or_zero(Some(0)), 0);
    assert_eq!(counter_or_zero(Some(u64::MAX)), u64::MAX);
}

#[test]
fn a_disk_sample_is_read_from_a_place_among_the_fields() {
    let f = fields("disk 8 0 sda 1 2 3 4 5 6 7 8 9 10 11");
    let d = disk_from(&f, 1).expect("a disk sample");
    assert_eq!(d.name, "sda");
    assert_eq!(d.reads, 1);
    assert_eq!(d.weighted_io_time_ms, 11);
    assert_eq!(d.discards, 0);
    assert!(disk_from(&f, 0).is_none());
    assert!(disk_from(&f, 2).is_none());
    assert!(disk_from(&f, f.len()).is_none());
}

#[test]
fn a_network_row_is_read_from_a_place_among_the_tokens() {
    let t = fields("Net eth0: 1 2 3 4 0 0 0 0 5 6 7 8");
    let snap = net_row(&t, 1, 13, 9).expect("a network snapshot");
    assert_eq!(snap.timestamp, 9);
    match &snap.sample {
        Sample::Net { iface, stat } => {
            assert_eq!(iface, "eth0");
            assert_eq!((stat.rx_bytes, stat.rx_pkts, stat.rx_errs, stat.rx_drop), (1, 2, 3, 4));
            assert_eq!((stat.tx_bytes, stat.tx_pkts, stat.tx_errs, stat.tx_drop), (5, 6, 7, 8));
        }
        _ => panic!("not a network snapshot"),
    }
    assert!(net_row(&t, 1, 14, 9).is_none());
    assert!(net_row(&t, 0, 13, 9).is_none());
    assert!(net_row(&t, 2, 0, 9).is_none());
    assert!(net_row(&t, t.len(), 0, 9).is_none());
}

#[test]
fn gauges_are_read_from_token_rows() {
    let r = rows("MemTotal: 100 kB\nMemFree: 40 kB\nMemTotal: 200 kB\nCached 7\nDirty:");
    assert_eq!(gauge(&r, "MemTotal"), 200);
    assert_eq!(gauge(&r, "MemFree"), 40);
    assert_eq!(gauge(&r, "Cached"), 7);
    assert_eq!(gauge(&r, "Dirty"), 0);
    assert_eq!(gauge(&r, "Slab"), 0);
    assert_eq!(gauge(&Vec::new(), "MemTotal"), 0);
    assert!(row_names_gauge(&fields("MemTotal: 1"), &c("MemTotal")));
    assert!(row_names_gauge(&fields("MemTotal 1"), &c("MemTotal")));
    assert!(!row_names_gauge(&fields("MemTotal:"), &c("MemTotal")));
    assert!(!row_names_gauge(&fields("MemTotal: 1"), &c("MemFree")));
    let m = mem_sample_of_rows(&r);
    assert_eq!((m.mem_total, m.mem_free, m.cached, m.dirty), (200, 40, 7, 0));
}

#[test]
fn lines_of_characters_and_of_strings_convert() {
    let lines = vec!["cpu  1 2 3 4 5 6 7 8 9".to_string(), "procs_running 4".to_string()];
    let chars = lines_chars(&lines);
    assert_eq!(chars, vec![c("cpu  1 2 3 4 5 6 7 8 9"), c("procs_running 4")]);
    assert_eq!(strings_of(&chars), lines);
    let cpu = cpu_sample_of_lines(&chars).expect("a CPU sample");
    assert_eq!(cpu.user, 1);
    assert_eq!(cpu.guest, Some(9));
    assert_eq!(cpu.procs_running, 4);
    assert!(cpu_sample_of_lines(&Vec::new()).is_none());
}

#[test]
fn a_device_filter_is_a_text_that_the_name_holds() {
    assert!(passes_filter("nvme0n1", None));
    assert!(passes_filter("nvme0n1", Some("nvme")));
    assert!(passes_filter("nvme0n1", Some("0n")));
    assert!(passes_filter("nvme0n1", Some("")));
    assert!(!passes_filter("nvme0n1", Some("sd")));
    assert!(!passes_filter("sd", Some("sda")));
}

#[test]
fn activity_is_any_io_in_any_interval() {
    let key = EntityKey::Disk { major: 8, minor: 0, name: "sda".to_string() };
    assert!(!any_activity(&Vec::new()));
    assert!(!any_activity(&vec![point(&key, 0, 0), point(&key, 0, 0)]));
    assert!(any_activity(&vec![point(&key, 0, 0), point(&key, 1, 0)]));
    assert!(any_activity(&vec![point(&key, 0, 1)]));
}

#[test]
fn devices_are_reported_with_their_places() {
    let busy = EntityKey::Disk { major: 8, minor: 16, name: "sdb".to_string() };
    let mut all = SeriesAccumulator::new();
    all.append(point(&busy, 10, 0));
    let device = |name: &str, dev: &str, mm: &str| MultipathDevice {
        name: name.to_string(),
        wwid: String::new(),
        dm_name: format!("dm-{}", name),
        vendor_model: "V,M".to_string(),
        size: "size=1G".to_string(),
        paths: vec![MpathPath {
            bus: "1:0:0:0".to_string(),
            dev_name: dev.to_string(),
            major_minor: mm.to_string(),
            status: "active".to_string(),
        }],
    };
    let devices = vec![
        device("a", "sda", "8:0"),
        device("b", "sdb", "8:16"),
        device("c", "sdb", "8:17"),
        device("d", "sdb", "8:16"),
    ];
    let reports = report_devices(&devices, &all);
    let places: Vec<usize> = reports.iter().map(|r| r.place).collect();
    assert_eq!(places, vec![1, 3]);
    assert_eq!(reports[0].dm_name, "dm-b");
    assert_eq!(reports[0].report.total_iops, 10_000);
    assert_eq!(reports[1].report.name, "d");
    assert!(report_devices(&Vec::new(), &all).is_empty());
}

#[test]
fn a_snapshot_knows_its_key() {
    let snap = RawSnapshot {
        timestamp: 1,
        sample: Sample::Net {
            iface: "eth0".to_string(),
            stat: serverstats::snapshot::NetStat {
                rx_bytes: 0,
                tx_bytes: 0,
                rx_pkts: 0,
                tx_pkts: 0,
                rx_errs: 0,
                tx_errs: 0,
                rx_drop: 0,
                tx_drop: 0,
            },
        },
    };
    let key = snap.key();
    assert!(key.same(&EntityKey::Net { iface: "eth0".to_string() }));
    assert!(!key.same(&EntityKey::Net { iface: "eth1".to_string() }));
    assert!(!key.same(&EntityKey::Cpu));
    assert!(EntityKey::Cpu.same(&EntityKey::Cpu));
    assert!(!EntityKey::Cpu.same(&EntityKey::Mem));
    let a = EntityKey::Disk { major: 8, minor: 0, name: "sda".to_string() };
    assert!(a.same(&a.clone()));
    assert!(!a.same(&EntityKey::Disk { major: 8, minor: 1, name: "sda".to_string() }));
    assert!(!a.same(&EntityKey::Disk { major: 9, minor: 0, name: "sda".to_string() }));
    assert!(!a.same(&EntityKey::Disk { major: 8, minor: 0, name: "sdb".to_string() }));
    assert_eq!(snap.clone(), snap);
}
