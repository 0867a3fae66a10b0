use serverstats::procstat::{
    io_counters, join_cmdline, other_thread, parse_stat_line, proc_info, process_row,
    retry_step, stat_numbers, thread_info, thread_row, CsvRow, ProcInfo, RetryStep, StatNumbers,
    ThreadInfo,
};

const STAT: &str = "1234 (my prog) S 1 1234 1234 0 -1 4194560 500 0 2 0 150 75 0 0 20 0 4 0 \
100 104857600 2560 18446744073709551615 1 1 0 0 0 0 0 0 0 0 0 0 17 3 0 0 0 0 0";

fn strings(items: &[&str]) -> Vec<String> {
    items.iter().map(|s| s.to_string()).collect()
}

#[test]
fn the_command_name_stands_between_the_brackets() {
    let (comm, rest) = parse_stat_line("42 (bash) S 1 2 3").unwrap();
    assert_eq!(comm, "bash");
    assert_eq!(rest, strings(&["S", "1", "2", "3"]));
    let (comm, rest) = parse_stat_line(STAT).unwrap();
    assert_eq!(comm, "my prog");
    assert_eq!(rest.len(), 42);
    assert_eq!(rest[0], "S");
    assert_eq!(rest[11], "150");
}

#[test]
fn a_command_name_may_hold_brackets() {
    let (comm, rest) = parse_stat_line("7 (a (b) c)) R 0").unwrap();
    assert_eq!(comm, "a (b) c)");
    assert_eq!(rest, strings(&["R", "0"]));
    let (comm, rest) = parse_stat_line("7 ((sd-pam)) S 1").unwrap();
    assert_eq!(comm, "(sd-pam)");
    assert_eq!(rest, strings(&["S", "1"]));
}

#[test]
fn a_stat_line_may_end_after_its_separator() {
    let (comm, rest) = parse_stat_line("7 (x) ").unwrap();
    assert_eq!(comm, "x");
    assert!(rest.is_empty());
    let (comm, rest) = parse_stat_line("() S").unwrap();
    assert_eq!(comm, "");
    assert_eq!(rest, strings(&["S"]));
    let (_, rest) = parse_stat_line("1 (x)_S 2").unwrap();
    assert_eq!(rest, strings(&["S", "2"]));
}

#[test]
fn a_stat_line_without_its_brackets_is_refused() {
    assert_eq!(parse_stat_line(""), None);
    assert_eq!(parse_stat_line("42 bash S 1"), None);
    assert_eq!(parse_stat_line("42 (bash S 1"), None);
    assert_eq!(parse_stat_line("42 bash) S 1"), None);
    assert_eq!(parse_stat_line("42 )bash( S 1"), None);
    assert_eq!(parse_stat_line("42 (bash)"), None);
    assert_eq!(parse_stat_line("("), None);
    assert_eq!(parse_stat_line(")"), None);
    assert_eq!(parse_stat_line("42 (bash)\u{a0}S 1"), None);
}

#[test]
fn the_numbers_of_a_process_are_read() {
    let (_, fields) = parse_stat_line(STAT).unwrap();
    assert_eq!(
        stat_numbers(&fields, 4),
        Some(StatNumbers {
            ppid: 1,
            utime: 150,
            stime: 75,
            num_threads: 4,
            vmsize_kb: 102_400,
            vmrss_kb: 10_240,
        })
    );
    assert_eq!(stat_numbers(&fields, 0).unwrap().vmrss_kb, 0);
    assert_eq!(stat_numbers(&fields[..21].to_vec(), 4), None);
    assert!(stat_numbers(&fields[..22].to_vec(), 4).is_some());
    let mut bad = fields.clone();
    bad[1] = "-1".to_string();
    assert_eq!(stat_numbers(&bad, 4), None);
    let mut bad = fields.clone();
    bad[17] = "many".to_string();
    assert_eq!(stat_numbers(&bad, 4), None);
    let mut huge = fields.clone();
    huge[21] = u64::MAX.to_string();
    assert_eq!(stat_numbers(&huge, 2), None);
    assert_eq!(stat_numbers(&huge, 1).unwrap().vmrss_kb, u64::MAX);
}

#[test]
fn the_io_counters_are_those_of_the_last_line_that_gives_them() {
    let lines = strings(&[
        "rchar: 100",
        "wchar: 200",
        "read_bytes: 4096",
        "write_bytes:   8192  ",
        "cancelled_write_bytes: 5",
    ]);
    assert_eq!(io_counters(&lines), (4096, 8192));
    assert_eq!(io_counters(&Vec::new()), (0, 0));
    assert_eq!(io_counters(&strings(&["read_bytes: 1", "read_bytes: 2"])), (2, 0));
    assert_eq!(io_counters(&strings(&["read_bytes: 1", "read_bytes: x"])), (0, 0));
    assert_eq!(io_counters(&strings(&["write_bytes:7"])), (0, 7));
    assert_eq!(io_counters(&strings(&[" read_bytes: 1"])), (0, 0));
    assert_eq!(io_counters(&strings(&["read_bytes:"])), (0, 0));
}

#[test]
fn the_command_line_is_its_arguments_joined_by_blanks() {
    assert_eq!(join_cmdline("/usr/bin/prog\0--flag\0value\0"), "/usr/bin/prog --flag value");
    assert_eq!(join_cmdline(""), "");
    assert_eq!(join_cmdline("\0\0"), "");
    assert_eq!(join_cmdline("one"), "one");
    assert_eq!(join_cmdline("a\0\0b\0"), "a b");
    assert_eq!(join_cmdline("has space\0x"), "has space x");
}

#[test]
fn a_process_is_read_from_its_three_texts() {
    let io = strings(&["read_bytes: 10", "write_bytes: 20"]);
    let p = proc_info(STAT, &io, "my\0prog\0", 4).expect("a process");
    assert_eq!(
        p,
        ProcInfo {
            comm: "my prog".to_string(),
            state: "S".to_string(),
            ppid: 1,
            utime: 150,
            stime: 75,
            num_threads: 4,
            vmrss_kb: 10_240,
            vmsize_kb: 102_400,
            read_bytes: 10,
            write_bytes: 20,
            cmdline: "my prog".to_string(),
        }
    );
    assert_eq!(proc_info("1 (short) S 1 2 3", &io, "", 4), None);
    assert_eq!(proc_info("garbage", &io, "", 4), None);
}

#[test]
fn a_thread_is_read_from_its_stat_line() {
    assert_eq!(
        thread_info(STAT),
        Some(ThreadInfo {
            comm: "my prog".to_string(),
            state: "S".to_string(),
            utime: 150,
            stime: 75,
        })
    );
    assert_eq!(thread_info("1 (t) R 1 2 3 4 5 6 7 8 9 10 11 12 13"), {
        Some(ThreadInfo { comm: "t".to_string(), state: "R".to_string(), utime: 11, stime: 12 })
    });
    assert_eq!(thread_info("1 (t) R 1 2 3 4 5 6 7 8 9 10 11 12"), None);
    assert_eq!(thread_info("1 (t) R 1 2 3 4 5 6 7 8 9 10 x 12 13"), None);
    assert_eq!(thread_info("no brackets"), None);
}

#[test]
fn rows_of_a_process_and_of_its_threads() {
    let p = ProcInfo {
        comm: "prog".to_string(),
        state: "S".to_string(),
        ppid: 1,
        utime: 150,
        stime: 75,
        num_threads: 2,
        vmrss_kb: 10,
        vmsize_kb: 20,
        read_bytes: 30,
        write_bytes: 40,
        cmdline: "prog -x".to_string(),
    };
    assert_eq!(
        process_row(1000, 77, &p),
        CsvRow {
            ts_epoch: 1000,
            pid: 77,
            ppid: 1,
            tid: 77,
            comm: "prog".to_string(),
            state: "S".to_string(),
            utime: 150,
            stime: 75,
            num_threads: Some(2),
            vmrss_kb: Some(10),
            vm_size_kb: Some(20),
            read_bytes: 30,
            write_bytes: 40,
            cmdline: "prog -x".to_string(),
        }
    );
    let t = ThreadInfo { comm: "worker".to_string(), state: "R".to_string(), utime: 5, stime: 6 };
    assert_eq!(
        thread_row(1000, 77, &p, 78, t),
        CsvRow {
            ts_epoch: 1000,
            pid: 77,
            ppid: 1,
            tid: 78,
            comm: "worker".to_string(),
            state: "R".to_string(),
            utime: 5,
            stime: 6,
            num_threads: None,
            vmrss_kb: None,
            vm_size_kb: None,
            read_bytes: 30,
            write_bytes: 40,
            cmdline: String::new(),
        }
    );
}

#[test]
fn the_threads_of_a_process_are_the_other_numbered_entries() {
    assert_eq!(other_thread("78", 77), Some(78));
    assert_eq!(other_thread("77", 77), None);
    assert_eq!(other_thread("self", 77), None);
    assert_eq!(other_thread("", 77), None);
    assert_eq!(other_thread("4294967296", 77), None);
}

#[test]
fn a_read_that_times_out_is_tried_once_more_and_then_skipped() {
    assert_eq!(retry_step(0, 2, true), RetryStep::Done);
    assert_eq!(retry_step(1, 2, true), RetryStep::Done);
    assert_eq!(retry_step(0, 2, false), RetryStep::Again { warn: true });
    assert_eq!(retry_step(1, 2, false), RetryStep::Skip { warn: false });
    assert_eq!(retry_step(0, 1, false), RetryStep::Skip { warn: true });
    assert_eq!(retry_step(0, 0, false), RetryStep::Skip { warn: true });
    assert_eq!(retry_step(1, 3, false), RetryStep::Again { warn: false });
    assert_eq!(retry_step(2, 3, false), RetryStep::Skip { warn: false });
    assert_eq!(retry_step(usize::MAX, usize::MAX, false), RetryStep::Skip { warn: false });
}
