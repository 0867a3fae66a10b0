use serverstats::collectl::{convert_collectl, marker_text, CollectlFormat};
use serverstats::record::format_record;
use serverstats::snapshot::RawSnapshot;

fn lines(text: &str) -> Vec<String> {
    text.lines().map(|l| l.to_string()).collect()
}

fn epochs(lines: &Vec<String>) -> Vec<Option<u64>> {
    lines
        .iter()
        .map(|l| marker_text(l).and_then(|t| t.parse::<f64>().ok()).map(|f| f as u64))
        .collect()
}

fn records(out: &Vec<RawSnapshot>) -> Vec<String> {
    out.iter().map(format_record).collect()
}

fn convert(text: &str, format: CollectlFormat) -> Vec<String> {
    let l = lines(text);
    let e = epochs(&l);
    records(&convert_collectl(&l, &e, format))
}

const RAW: &str = "\
################################################################################
# Collectl: V4.3.1
>>> 1700000000.001 <<<
cpu  100 20 30 4000 50 6 7 8 9 10
cpu0 50 10 15 2000 25 3 3 4 4 5
procs_running 3
procs_blocked 1
disk 8 0 sda 10 1 100 5 20 2 200 6 0 30 40 1 0 8
disk 11 0 sr0 1 0 8 0 0 0 0 0 0 0 0 0 0 0
disk 8 16 sdb 11 1 101 5 21 2 201 6 0 31 41 2 1 9 77
MemTotal: 16384000 kB
MemFree: 1000000 kB
Cached: 4000000 kB
Other: 5 kB
Net lo: 1000 10 1 2 0 0 0 0 2000 20 3 4 0 0 0 0
Net eth0: 5000 50 0 0 0 0 0 7 6000 60 0 0 0 0 0 0
>>> 1700000010.500 <<<
   cpu  200 20 30 4000 50 6 7 8 9 10
disk 8 0 sda 20 1 100 5 20 2 200 6 0 30 40 1 0 8
";

#[test]
fn the_epoch_text_follows_the_marker() {
    assert_eq!(marker_text(">>> 1700000000.001 <<<"), Some("1700000000.001".to_string()));
    assert_eq!(marker_text("  >>> 17 <<<  "), Some("17".to_string()));
    assert_eq!(marker_text(">>>17"), Some("17".to_string()));
    assert_eq!(marker_text(">>>"), None);
    assert_eq!(marker_text(">>>   "), None);
    assert_eq!(marker_text(">> 17"), None);
    assert_eq!(marker_text("cpu 1 2 3"), None);
    assert_eq!(marker_text(""), None);
}

#[test]
fn each_block_yields_disks_then_cpu_memory_and_networks() {
    assert_eq!(
        convert(RAW, CollectlFormat::Modern),
        vec![
            "DISK,1700000000,8,0,sda,10,1,100,5,20,2,200,6,0,30,40,1,0,8,0",
            "DISK,1700000000,8,16,sdb,11,1,101,5,21,2,201,6,0,31,41,2,1,9,77",
            "CPU,1700000000,100,20,30,4000,50,6,7,8,9,3,1",
            "MEM,1700000000,16384000,1000000,0,0,4000000,0,0,0,0,0,0,0,0,0",
            "NET,1700000000,lo,1000,2000,10,20,1,3,2,4",
            "NET,1700000000,eth0,5000,6000,50,60,0,0,0,0",
            "DISK,1700000010,8,0,sda,20,1,100,5,20,2,200,6,0,30,40,1,0,8,0",
            "CPU,1700000010,200,20,30,4000,50,6,7,8,9,0,0",
        ]
    );
}

#[test]
fn the_older_layout_takes_disk_lines_of_fifteen_or_eighteen_tokens() {
    let raw = "\
>>> 5 <<<
disk 8 0 sda 10 1 100 5 20 2 200 6 0 30 40
disk 8 16 sdb 11 1 101 5 21 2 201 6 0 31 41 2 1 9
disk 8 32 sdc 12 1 102 5 22 2 202 6 0 32 42 2 1 9 77
disk 8 48 sdd 13 1 103 5 23 2 203 6 0 33 43 2
";
    assert_eq!(
        convert(raw, CollectlFormat::Rhel7),
        vec![
            "DISK,5,8,0,sda,10,1,100,5,20,2,200,6,0,30,40,0,0,0,0",
            "DISK,5,8,16,sdb,11,1,101,5,21,2,201,6,0,31,41,2,1,9,0",
        ]
    );
    assert_eq!(
        convert(raw, CollectlFormat::Modern),
        vec![
            "DISK,5,8,16,sdb,11,1,101,5,21,2,201,6,0,31,41,2,1,9,0",
            "DISK,5,8,32,sdc,12,1,102,5,22,2,202,6,0,32,42,2,1,9,77",
        ]
    );
}

#[test]
fn lines_outside_of_blocks_are_passed_over() {
    assert!(convert("cpu  1 2 3 4 5 6 7 8 9\ndisk 8 0 sda 1 2 3 4 5 6 7 8 9 10 11 12 13 14\n", CollectlFormat::Modern).is_empty());
    assert!(convert("", CollectlFormat::Modern).is_empty());
    assert!(convert(">>> 5 <<<\n", CollectlFormat::Modern).is_empty());
}

#[test]
fn a_marker_that_is_no_number_ends_a_block_and_opens_none() {
    let raw = "\
>>> 5 <<<
cpu  1 2 3 4 5 6 7 8 9
>>> soon <<<
cpu  9 9 9 9 9 9 9 9 9
>>> 6 <<<
cpu  2 2 3 4 5 6 7 8 9
";
    assert_eq!(
        convert(raw, CollectlFormat::Modern),
        vec!["CPU,5,1,2,3,4,5,6,7,8,9,0,0", "CPU,6,2,2,3,4,5,6,7,8,9,0,0"]
    );
}

#[test]
fn an_indented_marker_opens_a_block_but_does_not_end_one() {
    let raw = "  >>> 5 <<<\ncpu  1 2 3 4 5 6 7 8 9\n  >>> 6 <<<\ncpu  2 2 3 4 5 6 7 8 9\n";
    assert_eq!(convert(raw, CollectlFormat::Modern), vec!["CPU,5,2,2,3,4,5,6,7,8,9,0,0"]);
}

#[test]
fn an_epoch_counts_only_on_a_marker_line() {
    let l = lines("cpu  1 2 3 4 5 6 7 8 9\ncpu  1 2 3 4 5 6 7 8 9\n");
    let out = convert_collectl(&l, &vec![Some(5), None], CollectlFormat::Modern);
    assert!(out.is_empty());
    let l = lines(">>> 5 <<<\ncpu  1 2 3 4 5 6 7 8 9\n");
    assert!(convert_collectl(&l, &Vec::new(), CollectlFormat::Modern).is_empty());
    assert_eq!(records(&convert_collectl(&l, &vec![Some(8)], CollectlFormat::Modern)), vec![
        "CPU,8,1,2,3,4,5,6,7,8,9,0,0"
    ]);
}

#[test]
fn memory_is_recorded_only_when_a_gauge_is_named() {
    let raw = ">>> 5 <<<\nOther: 5 kB\nUptime: 12\n";
    assert!(convert(raw, CollectlFormat::Modern).is_empty());
    let raw = ">>> 5 <<<\nSlab: x\n";
    assert_eq!(convert(raw, CollectlFormat::Modern), vec!["MEM,5,0,0,0,0,0,0,0,0,0,0,0,0,0,0"]);
    let raw = ">>> 5 <<<\nDirty 7 :\ncpuinfo: Dirty 9\nNet Dirty: 3\n";
    assert_eq!(convert(raw, CollectlFormat::Modern), vec!["MEM,5,0,0,0,0,0,0,0,7,0,0,0,0,0,0"]);
}
