use serverstats::record::{format_record, is_storable, parse_record};
use serverstats::snapshot::{
    CpuStat, DiskStat, EntityKey, MemStat, NetStat, RawSnapshot, Sample,
};

fn sda() -> DiskStat {
    DiskStat {
        major: 8,
        minor: 0,
        name: "sda".to_string(),
        reads: 1,
        reads_merged: 2,
        sectors_read: 3,
        read_time_ms: 4,
        writes: 5,
        writes_merged: 6,
        sectors_written: 7,
        write_time_ms: 8,
        io_in_progress: 9,
        io_time_ms: 10,
        weighted_io_time_ms: 11,
        discards: 12,
        discards_merged: 13,
        sectors_discarded: 14,
        discard_time_ms: 15,
    }
}

fn cpu9() -> CpuStat {
    CpuStat {
        user: 1,
        nice: 2,
        system: 3,
        idle: 4,
        iowait: 5,
        irq: 6,
        softirq: 7,
        steal: 8,
        guest: Some(9),
        guest_nice: None,
        procs_running: 10,
        procs_blocked: 11,
    }
}

fn mem14() -> MemStat {
    MemStat {
        mem_total: 1,
        mem_free: 2,
        mem_available: 3,
        buffers: 4,
        cached: 5,
        swap_total: 6,
        swap_free: 7,
        dirty: 8,
        writeback: 9,
        active_file: 10,
        inactive_file: 11,
        slab: 12,
        kreclaimable: 13,
        sreclaimable: 14,
    }
}

fn net8() -> NetStat {
    NetStat {
        rx_bytes: 1,
        tx_bytes: 2,
        rx_pkts: 3,
        tx_pkts: 4,
        rx_errs: 5,
        tx_errs: 6,
        rx_drop: 7,
        tx_drop: 8,
    }
}

#[test]
fn a_disk_record_is_read() {
    let line = "DISK,1700000000,8,0,sda,1,2,3,4,5,6,7,8,9,10,11,12,13,14,15";
    let snap = parse_record(line).expect("a snapshot");
    assert_eq!(snap, RawSnapshot { timestamp: 1_700_000_000, sample: Sample::Disk(sda()) });
    assert_eq!(snap.key(), EntityKey::Disk { major: 8, minor: 0, name: "sda".to_string() });
}

#[test]
fn a_disk_record_without_discard_counters_is_read_with_zeros() {
    let snap = parse_record("DISK,5,8,0,sda,1,2,3,4,5,6,7,8,9,10,11").expect("a snapshot");
    let expected = DiskStat {
        discards: 0,
        discards_merged: 0,
        sectors_discarded: 0,
        discard_time_ms: 0,
        ..sda()
    };
    assert_eq!(snap, RawSnapshot { timestamp: 5, sample: Sample::Disk(expected) });
    let snap = parse_record("DISK,5,8,0,sda,1,2,3,4,5,6,7,8,9,10,11,12,13").expect("a snapshot");
    let expected = DiskStat { sectors_discarded: 0, discard_time_ms: 0, ..sda() };
    assert_eq!(snap, RawSnapshot { timestamp: 5, sample: Sample::Disk(expected) });
}

#[test]
fn a_disk_record_with_more_fields_is_read_up_to_the_last_counter() {
    let snap = parse_record("DISK,5,8,0,sda,1,2,3,4,5,6,7,8,9,10,11,12,13,14,15,16,x")
        .expect("a snapshot");
    assert_eq!(snap, RawSnapshot { timestamp: 5, sample: Sample::Disk(sda()) });
}

#[test]
fn a_short_or_malformed_disk_record_is_skipped() {
    assert!(parse_record("DISK,5,8,0,sda,1,2,3,4,5,6,7,8,9,10").is_none());
    assert!(parse_record("DISK,5,8,0,sda,1,2,3,4,5,6,7,8,9,10,x").is_none());
    assert!(parse_record("DISK,5,8,0,sda,1,2,3,4,5,6,7,8,9,10,11,12,13,14,x").is_none());
    assert!(parse_record("DISK,5,x,0,sda,1,2,3,4,5,6,7,8,9,10,11").is_none());
    assert!(parse_record("DISK,5,8,4294967296,sda,1,2,3,4,5,6,7,8,9,10,11").is_none());
    assert!(parse_record("DISK,5,8,0,sda,-1,2,3,4,5,6,7,8,9,10,11").is_none());
    assert!(parse_record("DISK,5,8,0,sda,1,2,3,4,5,6,7,8,9,10, 11").is_none());
    assert!(parse_record("DISK,now,8,0,sda,1,2,3,4,5,6,7,8,9,10,11").is_none());
    assert!(parse_record("DISK").is_none());
    assert!(parse_record("DISK,5").is_none());
}

#[test]
fn a_cpu_record_is_read_with_eight_to_ten_counters() {
    let snap = parse_record("CPU,7,1,2,3,4,5,6,7,8,9,10,11").expect("a snapshot");
    assert_eq!(snap, RawSnapshot { timestamp: 7, sample: Sample::Cpu(cpu9()) });
    assert_eq!(snap.key(), EntityKey::Cpu);
    let snap = parse_record("CPU,7,1,2,3,4,5,6,7,8,10,11").expect("a snapshot");
    let eight = CpuStat { guest: None, ..cpu9() };
    assert_eq!(snap, RawSnapshot { timestamp: 7, sample: Sample::Cpu(eight) });
    let snap = parse_record("CPU,7,1,2,3,4,5,6,7,8,9,99,10,11").expect("a snapshot");
    let ten = CpuStat { guest_nice: Some(99), ..cpu9() };
    assert_eq!(snap, RawSnapshot { timestamp: 7, sample: Sample::Cpu(ten) });
}

#[test]
fn a_cpu_record_of_another_length_is_skipped() {
    assert!(parse_record("CPU,7,1,2,3,4,5,6,7,8,9").is_none());
    assert!(parse_record("CPU,7,1,2,3,4,5,6,7,8,9,10,11,12,13").is_none());
    assert!(parse_record("CPU,7,1,2,3,4,5,6,7,8,9,10,").is_none());
    assert!(parse_record("CPU,7").is_none());
}

#[test]
fn a_memory_record_is_read() {
    let snap = parse_record("MEM,9,1,2,3,4,5,6,7,8,9,10,11,12,13,14").expect("a snapshot");
    assert_eq!(snap, RawSnapshot { timestamp: 9, sample: Sample::Mem(mem14()) });
    assert_eq!(snap.key(), EntityKey::Mem);
    assert!(parse_record("MEM,9,1,2,3,4,5,6,7,8,9,10,11,12,13").is_none());
    assert!(parse_record("MEM,9,1,2,3,4,5,6,7,8,9,10,11,12,13,kB").is_none());
}

#[test]
fn a_network_record_is_read() {
    let snap = parse_record("NET,11,eth0,1,2,3,4,5,6,7,8").expect("a snapshot");
    let expected = RawSnapshot {
        timestamp: 11,
        sample: Sample::Net { iface: "eth0".to_string(), stat: net8() },
    };
    assert_eq!(snap, expected);
    assert_eq!(snap.key(), EntityKey::Net { iface: "eth0".to_string() });
    assert!(parse_record("NET,11,eth0,1,2,3,4,5,6,7").is_none());
    assert!(parse_record("NET,11,eth0,1,2,3,4,5,6,7,").is_none());
    assert!(parse_record("NET,11").is_none());
}

#[test]
fn comments_and_unknown_tags_are_skipped() {
    assert!(parse_record("#TYPE,ts_epoch,<fields...>").is_none());
    assert!(parse_record("# DISK,5,8,0,sda,1,2,3,4,5,6,7,8,9,10,11").is_none());
    assert!(parse_record("").is_none());
    assert!(parse_record("disk,5,8,0,sda,1,2,3,4,5,6,7,8,9,10,11").is_none());
    assert!(parse_record("DISKS,5,8,0,sda,1,2,3,4,5,6,7,8,9,10,11").is_none());
    assert!(parse_record(" DISK,5,8,0,sda,1,2,3,4,5,6,7,8,9,10,11").is_none());
    assert!(parse_record("PROC,5,1,2,3").is_none());
}

#[test]
fn records_are_written_in_the_capture_format() {
    let s = RawSnapshot { timestamp: 1_700_000_000, sample: Sample::Disk(sda()) };
    assert_eq!(format_record(&s), "DISK,1700000000,8,0,sda,1,2,3,4,5,6,7,8,9,10,11,12,13,14,15");
    let s = RawSnapshot { timestamp: 7, sample: Sample::Cpu(cpu9()) };
    assert_eq!(format_record(&s), "CPU,7,1,2,3,4,5,6,7,8,9,10,11");
    let s = RawSnapshot { timestamp: 9, sample: Sample::Mem(mem14()) };
    assert_eq!(format_record(&s), "MEM,9,1,2,3,4,5,6,7,8,9,10,11,12,13,14");
    let s = RawSnapshot {
        timestamp: 11,
        sample: Sample::Net { iface: "eth0".to_string(), stat: net8() },
    };
    assert_eq!(format_record(&s), "NET,11,eth0,1,2,3,4,5,6,7,8");
}

#[test]
fn what_is_written_reads_back_digit_for_digit() {
    let big = DiskStat {
        major: u32::MAX,
        minor: 0,
        name: "nvme0n1p1".to_string(),
        reads: u64::MAX,
        reads_merged: 0,
        sectors_read: u64::MAX - 1,
        read_time_ms: 10,
        writes: 1 << 63,
        writes_merged: 100,
        sectors_written: 1_000_000_007,
        write_time_ms: 0,
        io_in_progress: 0,
        io_time_ms: 0,
        weighted_io_time_ms: 18_446_744_073_709_551_615,
        discards: 0,
        discards_merged: 0,
        sectors_discarded: 9,
        discard_time_ms: 8,
    };
    let snapshots = vec![
        RawSnapshot { timestamp: 0, sample: Sample::Disk(sda()) },
        RawSnapshot { timestamp: u64::MAX, sample: Sample::Disk(big) },
        RawSnapshot { timestamp: 3, sample: Sample::Cpu(cpu9()) },
        RawSnapshot { timestamp: 3, sample: Sample::Cpu(CpuStat { guest: None, ..cpu9() }) },
        RawSnapshot {
            timestamp: 3,
            sample: Sample::Cpu(CpuStat { guest_nice: Some(u64::MAX), ..cpu9() }),
        },
        RawSnapshot { timestamp: 4, sample: Sample::Mem(mem14()) },
        RawSnapshot {
            timestamp: 5,
            sample: Sample::Net { iface: "enp0s31f6".to_string(), stat: net8() },
        },
        RawSnapshot {
            timestamp: 5,
            sample: Sample::Net { iface: "".to_string(), stat: net8() },
        },
    ];
    for s in snapshots {
        assert!(is_storable(&s));
        let line = format_record(&s);
        assert_eq!(parse_record(&line), Some(s.clone()));
        assert_eq!(format_record(&parse_record(&line).unwrap()), line);
    }
}

#[test]
fn a_name_with_a_comma_cannot_be_stored() {
    let odd = RawSnapshot {
        timestamp: 1,
        sample: Sample::Disk(DiskStat { name: "a,b".to_string(), ..sda() }),
    };
    assert!(!is_storable(&odd));
    assert_ne!(parse_record(&format_record(&odd)), Some(odd));
    let odd = RawSnapshot {
        timestamp: 1,
        sample: Sample::Net { iface: "eth,0".to_string(), stat: net8() },
    };
    assert!(!is_storable(&odd));
    let odd = RawSnapshot {
        timestamp: 1,
        sample: Sample::Cpu(CpuStat { guest: None, guest_nice: Some(1), ..cpu9() }),
    };
    assert!(!is_storable(&odd));
    assert_ne!(parse_record(&format_record(&odd)), Some(odd));
}

#[test]
fn a_line_of_the_kernel_disk_statistics_is_read() {
    let line = "   8       0 sda 1 2 3 4 5 6 7 8 9 10 11 12 13 14 15 16 17";
    assert_eq!(DiskStat::from_line(line), Some(sda()));
    let line = "   8       0 sda 1 2 3 4 5 6 7 8 9 10 11";
    let expected = DiskStat {
        discards: 0,
        discards_merged: 0,
        sectors_discarded: 0,
        discard_time_ms: 0,
        ..sda()
    };
    assert_eq!(DiskStat::from_line(line), Some(expected));
    assert_eq!(DiskStat::from_line("8 0 sda 1 2 3"), None);
    assert_eq!(DiskStat::from_line(""), None);
    assert_eq!(DiskStat::from_line("8 0 sda 1 2 3 4 5 6 7 8 9 10 eleven"), None);
    assert_eq!(DiskStat::from_line("a 0 sda 1 2 3 4 5 6 7 8 9 10 11"), None);
}

#[test]
fn the_fields_of_a_disk_record_are_read() {
    let fields = [
        "8", "0", "sda", "1", "2", "3", "4", "5", "6", "7", "8", "9", "10", "11", "12", "13",
        "14", "15",
    ];
    assert_eq!(DiskStat::from_csv_fields(&fields), Some(sda()));
    assert_eq!(DiskStat::from_csv_fields(&fields[..13]), None);
    assert_eq!(DiskStat::from_csv_fields(&[]), None);
    let mut bad = fields;
    bad[5] = "3.0";
    assert_eq!(DiskStat::from_csv_fields(&bad), None);
    let mut odd = fields;
    odd[2] = "";
    assert_eq!(DiskStat::from_csv_fields(&odd), Some(DiskStat { name: String::new(), ..sda() }));
}
