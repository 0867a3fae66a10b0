use serverstats::snapshot::{CpuStat, MemStat, NetStat, RawSnapshot, Sample};
use serverstats::source::{
    cpu_sample, disk_snapshots, is_wanted_disk, mem_sample, net_snapshot, net_snapshots,
    DiskFilter,
};

fn lines(text: &str) -> Vec<String> {
    text.lines().map(|l| l.to_string()).collect()
}

#[test]
fn each_family_of_tools_has_its_devices_of_interest() {
    for name in ["sda", "nvme0n1", "dm-3", "emcpowera", "sdaa1"] {
        assert!(is_wanted_disk(name, DiskFilter::Capture));
        assert!(is_wanted_disk(name, DiskFilter::Live));
        assert!(is_wanted_disk(name, DiskFilter::Collectl));
    }
    for name in ["sr0", "fd0", "ram0", "zram0", "", "s", "dm", "xsda"] {
        assert!(!is_wanted_disk(name, DiskFilter::Capture));
        assert!(!is_wanted_disk(name, DiskFilter::Live));
        assert!(!is_wanted_disk(name, DiskFilter::Collectl));
    }
    assert!(is_wanted_disk("loop0", DiskFilter::Capture));
    assert!(!is_wanted_disk("loop0", DiskFilter::Live));
    assert!(is_wanted_disk("loop0", DiskFilter::Collectl));
    assert!(is_wanted_disk("vda", DiskFilter::Capture));
    assert!(is_wanted_disk("vda", DiskFilter::Live));
    assert!(!is_wanted_disk("vda", DiskFilter::Collectl));
    assert!(is_wanted_disk("rbd0", DiskFilter::Capture));
    assert!(!is_wanted_disk("rbd0", DiskFilter::Live));
    assert!(is_wanted_disk("md127", DiskFilter::Capture));
    assert!(is_wanted_disk("md127", DiskFilter::Live));
    assert!(!is_wanted_disk("md127", DiskFilter::Collectl));
    assert!(!is_wanted_disk("drbd0", DiskFilter::Capture));
    assert!(is_wanted_disk("drbd0", DiskFilter::Live));
}

#[test]
fn the_disk_statistics_yield_one_snapshot_for_each_device_of_interest() {
    let text = "\
   8       0 sda 10 1 100 5 20 2 200 6 0 30 40 1 0 8 2
  11       0 sr0 1 0 8 0 0 0 0 0 0 0 0 0 0 0 0
   7       0 loop0 3 0 30 1 0 0 0 0 0 4 4 0 0 0 0
 not a line
 259       1 nvme0n1 7 0 70 2 9 0 90 3 1 5 6
";
    let all = disk_snapshots(&lines(text), 500, DiskFilter::Capture);
    let names: Vec<String> = all
        .iter()
        .map(|s| match &s.sample {
            Sample::Disk(d) => format!("{}@{}", d.name, s.timestamp),
            _ => panic!("not a disk"),
        })
        .collect();
    assert_eq!(names, vec!["sda@500", "loop0@500", "nvme0n1@500"]);
    match &all[0].sample {
        Sample::Disk(d) => {
            assert_eq!((d.major, d.minor), (8, 0));
            assert_eq!(d.reads, 10);
            assert_eq!(d.sectors_read, 100);
            assert_eq!(d.writes, 20);
            assert_eq!(d.weighted_io_time_ms, 40);
            assert_eq!(d.discards, 1);
            assert_eq!(d.discard_time_ms, 2);
        }
        _ => panic!("not a disk"),
    }
    match &all[2].sample {
        Sample::Disk(d) => {
            assert_eq!(d.io_in_progress, 1);
            assert_eq!(d.discards, 0);
        }
        _ => panic!("not a disk"),
    }
    let live = disk_snapshots(&lines(text), 500, DiskFilter::Live);
    assert_eq!(live.len(), 2);
    assert!(disk_snapshots(&Vec::new(), 0, DiskFilter::Capture).is_empty());
}

#[test]
fn the_cpu_totals_and_process_counts_are_read() {
    let text = "\
cpu  100 20 30 4000 50 6 7 8 9 10
cpu0 50 10 15 2000 25 3 3 4 4 5
cpu1 50 10 15 2000 25 3 4 4 5 5
intr 12345 0 0
ctxt 999
btime 1700000000
processes 4242
procs_running 3
procs_blocked 1
softirq 1 2 3
";
    assert_eq!(
        cpu_sample(&lines(text)),
        Some(CpuStat {
            user: 100,
            nice: 20,
            system: 30,
            idle: 4000,
            iowait: 50,
            irq: 6,
            softirq: 7,
            steal: 8,
            guest: Some(9),
            guest_nice: None,
            procs_running: 3,
            procs_blocked: 1,
        })
    );
}

#[test]
fn a_stat_text_without_full_cpu_totals_yields_nothing() {
    assert_eq!(cpu_sample(&Vec::new()), None);
    assert_eq!(cpu_sample(&lines("cpu0 1 2 3 4 5 6 7 8 9 10\nprocs_running 1")), None);
    assert_eq!(cpu_sample(&lines("cpu  1 2 3 4 5 6 7 8")), None);
    assert_eq!(cpu_sample(&lines("cpu  1 2 3 4 5 6 7 8 x")), None);
    assert_eq!(cpu_sample(&lines("cpu\t1 2 3 4 5 6 7 8 9")), None);
}

#[test]
fn missing_process_counts_read_as_zero() {
    let c = cpu_sample(&lines("cpu  1 2 3 4 5 6 7 8 9")).unwrap();
    assert_eq!((c.procs_running, c.procs_blocked), (0, 0));
    let c = cpu_sample(&lines("procs_running 5\ncpu  1 2 3 4 5 6 7 8 9\nprocs_running many"))
        .unwrap();
    assert_eq!(c.procs_running, 0);
    let c = cpu_sample(&lines("cpu  9 9 9 9 9 9 9 9 9\ncpu  1 2 3 4 5 6 7 8 9\nprocs_blocked 2"))
        .unwrap();
    assert_eq!(c.user, 1);
    assert_eq!(c.procs_blocked, 2);
}

#[test]
fn the_memory_gauges_are_read_by_name() {
    let text = "\
MemTotal:       16384000 kB
MemFree:         1000000 kB
MemAvailable:    8000000 kB
Buffers:          200000 kB
Cached:          4000000 kB
SwapCached:         1234 kB
Active(file):    3000000 kB
Inactive(file):  2000000 kB
SwapTotal:       2097148 kB
SwapFree:        2097000 kB
Dirty:               128 kB
Writeback:             4 kB
Slab:             500000 kB
SReclaimable:     300000 kB
KReclaimable:     350000 kB
";
    assert_eq!(
        mem_sample(&lines(text)),
        MemStat {
            mem_total: 16_384_000,
            mem_free: 1_000_000,
            mem_available: 8_000_000,
            buffers: 200_000,
            cached: 4_000_000,
            swap_total: 2_097_148,
            swap_free: 2_097_000,
            dirty: 128,
            writeback: 4,
            active_file: 3_000_000,
            inactive_file: 2_000_000,
            slab: 500_000,
            kreclaimable: 350_000,
            sreclaimable: 300_000,
        }
    );
}

#[test]
fn a_gauge_that_is_missing_or_no_number_reads_as_zero() {
    let m = mem_sample(&lines("MemTotal: 10 kB\nMemFree lots\nCached:\nDirty: 1\nDirty: 2\nmemtotal: 7"));
    assert_eq!(m.mem_total, 10);
    assert_eq!(m.mem_free, 0);
    assert_eq!(m.cached, 0);
    assert_eq!(m.dirty, 2);
    assert_eq!(m.slab, 0);
    let m = mem_sample(&lines("MemFree 12\nMemTotal:: 5"));
    assert_eq!(m.mem_free, 12);
    assert_eq!(m.mem_total, 5);
    assert_eq!(mem_sample(&Vec::new()).mem_total, 0);
}

#[test]
fn the_interface_table_yields_one_snapshot_for_each_interface() {
    let text = "\
Inter-|   Receive                                                |  Transmit
 face |bytes    packets errs drop fifo frame compressed multicast|bytes    packets errs drop fifo colls carrier compressed
    lo: 1000 10 1 2 0 0 0 0 2000 20 3 4 0 0 0 0
  eth0: 5000 50 0 0 0 0 0 7 6000 60 0 0 0 0 0 0
  bad0: 5000 50 0 0 0 0 0 7 6000 60 0 0
  odd0: 5000 x 0 0 0 0 0 7 6000 60 0 0 0 0 0 0
";
    let all = net_snapshots(&lines(text), 900);
    assert_eq!(
        all,
        vec![
            RawSnapshot {
                timestamp: 900,
                sample: Sample::Net {
                    iface: "lo".to_string(),
                    stat: NetStat {
                        rx_bytes: 1000,
                        tx_bytes: 2000,
                        rx_pkts: 10,
                        tx_pkts: 20,
                        rx_errs: 1,
                        tx_errs: 3,
                        rx_drop: 2,
                        tx_drop: 4,
                    },
                },
            },
            RawSnapshot {
                timestamp: 900,
                sample: Sample::Net {
                    iface: "eth0".to_string(),
                    stat: NetStat {
                        rx_bytes: 5000,
                        tx_bytes: 6000,
                        rx_pkts: 50,
                        tx_pkts: 60,
                        rx_errs: 0,
                        tx_errs: 0,
                        rx_drop: 0,
                        tx_drop: 0,
                    },
                },
            },
        ]
    );
    assert!(net_snapshots(&lines("lo: 1 2 3 4 5 6 7 8 9 10 11 12 13 14 15 16"), 1).is_empty());
    assert!(net_snapshots(&Vec::new(), 1).is_empty());
    assert!(net_snapshot("lo: 1 2 3 4 5 6 7 8 9 10 11 12 13 14 15 16", 1).is_some());
    assert!(net_snapshot("lo: 1 2 3 4 5 6 7 8 9 10 11 12 13 14 15", 1).is_none());
}
