//! Snapshots from the kernel's own texts: the disk, CPU, memory and network
//! statistics as the kernel writes them, read into samples.

use vstd::prelude::*;
use crate::record::disk_of_fields;
use crate::snapshot::{
    snapshot_view, snapshots_view, CpuStat, DiskStat, MemStat, NetStat, RawSnapshot, Sample,
    SampleModel, SnapshotModel,
};
use crate::text::{
    chars_of, find_text, has_prefix_in, lines_view, occurs_at, parse_u64, parse_u64_spec,
    same_text, split_tokens, starts_with, starts_with_any, string_of, strip_trailing, tokens,
    views, without_trailing,
};

verus! {

/// The starts of the names of the block devices that a capture records.
pub open spec fn capture_prefixes() -> Seq<Seq<char>> {
    seq!["sd"@, "nvme"@, "dm-"@, "loop"@, "emcpower"@, "vd"@, "rbd"@, "md"@]
}

/// The starts of the names of the block devices that the live view shows.
pub open spec fn live_prefixes() -> Seq<Seq<char>> {
    seq!["sd"@, "nvme"@, "dm-"@, "vd"@, "emcpower"@, "md"@, "drbd"@]
}

/// The starts of the names of the block devices that are taken over from
/// a collectl capture.
pub open spec fn collectl_prefixes() -> Seq<Seq<char>> {
    seq!["sd"@, "nvme"@, "dm-"@, "loop"@, "emcpower"@]
}

/// Which family of tools asks whether a block device is of interest.
#[derive(Clone, Copy, Debug, PartialEq, Eq, Structural)]
pub enum DiskFilter {
    Capture,
    Live,
    Collectl,
}

/// The starts of the names of the block devices that the filter lets pass.
pub open spec fn prefixes_of(filter: DiskFilter) -> Seq<Seq<char>> {
    match filter {
        DiskFilter::Capture => capture_prefixes(),
        DiskFilter::Live => live_prefixes(),
        DiskFilter::Collectl => collectl_prefixes(),
    }
}

/// The starts of the names of the block devices that the filter lets pass.
fn prefix_list(filter: DiskFilter) -> (v: Vec<Vec<char>>)
    ensures
        views(v@) == prefixes_of(filter),
{
    let mut v: Vec<Vec<char>> = Vec::new();
    v.push(chars_of("sd"));
    v.push(chars_of("nvme"));
    v.push(chars_of("dm-"));
    match filter {
        DiskFilter::Capture => {
            v.push(chars_of("loop"));
            v.push(chars_of("emcpower"));
            v.push(chars_of("vd"));
            v.push(chars_of("rbd"));
            v.push(chars_of("md"));
        },
        DiskFilter::Live => {
            v.push(chars_of("vd"));
            v.push(chars_of("emcpower"));
            v.push(chars_of("md"));
            v.push(chars_of("drbd"));
        },
        DiskFilter::Collectl => {
            v.push(chars_of("loop"));
            v.push(chars_of("emcpower"));
        },
    }
    assert(views(v@) =~= prefixes_of(filter));
    v
}

/// Whether the block device `name` is of interest to the filter: its name
/// begins as one of the device families that the filter knows.
pub fn is_wanted_disk(name: &str, filter: DiskFilter) -> (b: bool)
    ensures
        b == has_prefix_in(name@, prefixes_of(filter)),
{
    starts_with_any(&chars_of(name), &prefix_list(filter))
}

/// Whether a device passes the filter that a user gave: there is no
/// filter, or the name of the device holds the filter's text.
pub fn passes_filter(name: &str, filter: Option<&str>) -> (b: bool)
    ensures
        b == match filter {
            Some(f) => exists|i: int| occurs_at(name@, f@, i),
            None => true,
        },
{
    match filter {
        Some(f) => find_text(&chars_of(name), &chars_of(f)).is_some(),
        None => true,
    }
}

/// The disk snapshot that one line of the kernel's disk statistics yields
/// at time `ts`: there is one where the line reads as a disk sample of a
/// device that the filter lets pass.
pub open spec fn disk_snapshot_of(line: Seq<char>, ts: u64, filter: DiskFilter) -> Option<
    SnapshotModel,
> {
    match disk_of_fields(tokens(line)) {
        Some(d) => if has_prefix_in(d.name, prefixes_of(filter)) {
            Some(SnapshotModel { timestamp: ts, sample: SampleModel::Disk(d) })
        } else {
            None
        },
        None => None,
    }
}

/// The disk snapshots that the lines of the kernel's disk statistics yield
/// at time `ts`, in order.
pub open spec fn disk_snapshots_of(lines: Seq<Seq<char>>, ts: u64, filter: DiskFilter) -> Seq<
    SnapshotModel,
>
    decreases lines.len(),
{
    if lines.len() == 0 {
        Seq::empty()
    } else {
        match disk_snapshot_of(lines.last(), ts, filter) {
            Some(s) => disk_snapshots_of(lines.drop_last(), ts, filter).push(s),
            None => disk_snapshots_of(lines.drop_last(), ts, filter),
        }
    }
}

/// Reads the kernel's disk statistics, taken at time `ts`, into one
/// snapshot for each device of interest.
pub fn disk_snapshots(lines: &Vec<String>, ts: u64, filter: DiskFilter) -> (out: Vec<RawSnapshot>)
    ensures
        snapshots_view(out@) == disk_snapshots_of(lines_view(lines@), ts, filter),
{
    let mut out: Vec<RawSnapshot> = Vec::new();
    let mut i: usize = 0;
    proof {
        assert(lines_view(lines@).take(0) =~= Seq::<Seq<char>>::empty());
        assert(snapshots_view(out@) =~= Seq::<SnapshotModel>::empty());
    }
    while i < lines.len()
        invariant
            i <= lines.len(),
            snapshots_view(out@) == disk_snapshots_of(lines_view(lines@).take(i as int), ts, filter),
        decreases lines.len() - i,
    {
        proof {
            let all = lines_view(lines@);
            assert(all.take(i + 1).drop_last() =~= all.take(i as int));
            assert(all.take(i + 1).last() == lines@[i as int]@);
        }
        match DiskStat::from_line(lines[i].as_str()) {
            Some(d) => {
                if is_wanted_disk(d.name.as_str(), filter) {
                    let ghost before = snapshots_view(out@);
                    let snap = RawSnapshot { timestamp: ts, sample: Sample::Disk(d) };
                    out.push(snap);
                    assert(snapshots_view(out@) =~= before.push(snap@));
                }
            },
            None => {},
        }
        i += 1;
    }
    assert(lines_view(lines@).take(i as int) =~= lines_view(lines@));
    out
}

/// What a scan of the kernel's `stat` text has found so far: the tokens of
/// the line of the CPU totals, and the counts of running and of blocked
/// processes.
pub struct CpuScan {
    pub totals: Seq<Seq<char>>,
    pub running: Option<u64>,
    pub blocked: Option<u64>,
}

/// The number in the second token of a line, if it has one.
pub open spec fn second_number(line: Seq<char>) -> Option<u64> {
    if tokens(line).len() >= 2 {
        parse_u64_spec(tokens(line)[1])
    } else {
        None
    }
}

/// The scan after one more line: a line that begins with `cpu` and a blank
/// holds the totals, one that begins with `procs_running` or
/// `procs_blocked` a process count. A later line of a kind replaces an
/// earlier one.
pub open spec fn cpu_scan_step(s: CpuScan, line: Seq<char>) -> CpuScan {
    if "cpu "@.is_prefix_of(line) {
        CpuScan { totals: tokens(line), ..s }
    } else if "procs_running"@.is_prefix_of(line) {
        CpuScan { running: second_number(line), ..s }
    } else if "procs_blocked"@.is_prefix_of(line) {
        CpuScan { blocked: second_number(line), ..s }
    } else {
        s
    }
}

/// The scan of all the lines of the kernel's `stat` text.
pub open spec fn cpu_scan_of(lines: Seq<Seq<char>>) -> CpuScan
    decreases lines.len(),
{
    if lines.len() == 0 {
        CpuScan { totals: Seq::empty(), running: None, blocked: None }
    } else {
        cpu_scan_step(cpu_scan_of(lines.drop_last()), lines.last())
    }
}

/// The value of an optional count, an absent one counting as zero.
pub open spec fn count_or_zero(c: Option<u64>) -> u64 {
    match c {
        Some(v) => v,
        None => 0,
    }
}

/// The CPU sample that a scan yields: the nine counters after the `cpu`
/// token, the last of them guest time, with the process counts. There is
/// none where the totals have fewer than nine counters or one of the nine
/// is no number.
pub open spec fn cpu_sample_of(s: CpuScan) -> Option<CpuStat> {
    let t = s.totals;
    if t.len() >= 10 && (forall|i: int| 1 <= i <= 9 ==> parse_u64_spec(#[trigger] t[i]) is Some) {
        Some(
            CpuStat {
                user: parse_u64_spec(t[1])->0,
                nice: parse_u64_spec(t[2])->0,
                system: parse_u64_spec(t[3])->0,
                idle: parse_u64_spec(t[4])->0,
                iowait: parse_u64_spec(t[5])->0,
                irq: parse_u64_spec(t[6])->0,
                softirq: parse_u64_spec(t[7])->0,
                steal: parse_u64_spec(t[8])->0,
                guest: Some(parse_u64_spec(t[9])->0),
                guest_nice: None,
                procs_running: count_or_zero(s.running),
                procs_blocked: count_or_zero(s.blocked),
            },
        )
    } else {
        None
    }
}

/// Reads the number in the second token of a line.
fn read_second_number(parts: &Vec<Vec<char>>) -> (r: Option<u64>)
    ensures
        r == if views(parts@).len() >= 2 {
            parse_u64_spec(views(parts@)[1])
        } else {
            None
        },
{
    if parts.len() >= 2 {
        assert(views(parts@)[1] == parts@[1]@);
        parse_u64(&parts[1])
    } else {
        None
    }
}

/// The characters of each line.
pub fn lines_chars(lines: &Vec<String>) -> (out: Vec<Vec<char>>)
    ensures
        views(out@) == lines_view(lines@),
{
    let mut out: Vec<Vec<char>> = Vec::new();
    let mut i: usize = 0;
    while i < lines.len()
        invariant
            i <= lines.len(),
            views(out@) == lines_view(lines@).take(i as int),
        decreases lines.len() - i,
    {
        let ghost before = views(out@);
        out.push(chars_of(lines[i].as_str()));
        assert(views(out@) =~= before.push(lines@[i as int]@));
        assert(lines_view(lines@).take(i + 1) =~= lines_view(lines@).take(i as int).push(lines@[i as int]@));
        i += 1;
    }
    assert(lines_view(lines@).take(i as int) =~= lines_view(lines@));
    out
}

/// Reads the lines of a `stat` text into a CPU sample.
pub fn cpu_sample_of_lines(lines: &Vec<Vec<char>>) -> (r: Option<CpuStat>)
    ensures
        r == cpu_sample_of(cpu_scan_of(views(lines@))),
        r matches Some(c) ==> c.wf(),
{
    let cpu = chars_of("cpu ");
    let run = chars_of("procs_running");
    let blk = chars_of("procs_blocked");
    let mut totals: Vec<Vec<char>> = Vec::new();
    let mut running: Option<u64> = None;
    let mut blocked: Option<u64> = None;
    let mut i: usize = 0;
    proof {
        assert(views(lines@).take(0) =~= Seq::<Seq<char>>::empty());
        assert(views(totals@) =~= Seq::<Seq<char>>::empty());
    }
    while i < lines.len()
        invariant
            i <= lines.len(),
            cpu@ == "cpu "@,
            run@ == "procs_running"@,
            blk@ == "procs_blocked"@,
            (CpuScan { totals: views(totals@), running, blocked }) == cpu_scan_of(
                views(lines@).take(i as int),
            ),
        decreases lines.len() - i,
    {
        proof {
            let all = views(lines@);
            assert(all.take(i + 1).drop_last() =~= all.take(i as int));
            assert(all.take(i + 1).last() == lines@[i as int]@);
        }
        let line = &lines[i];
        if starts_with(line, &cpu) {
            totals = split_tokens(line);
        } else if starts_with(line, &run) {
            running = read_second_number(&split_tokens(line));
        } else if starts_with(line, &blk) {
            blocked = read_second_number(&split_tokens(line));
        }
        i += 1;
    }
    assert(views(lines@).take(i as int) =~= views(lines@));
    if totals.len() < 10 {
        return None;
    }
    let ghost t = views(totals@);
    let ghost scan = cpu_scan_of(views(lines@));
    let mut v: Vec<u64> = Vec::new();
    let mut k: usize = 1;
    while k <= 9
        invariant
            1 <= k <= 10,
            totals@.len() >= 10,
            t == views(totals@),
            scan == cpu_scan_of(views(lines@)),
            scan.totals == t,
            v@.len() == k - 1,
            forall|j: int|
                1 <= j < k ==> parse_u64_spec(#[trigger] t[j]) is Some && v@[j - 1]
                    == parse_u64_spec(t[j])->0,
        decreases 10 - k,
    {
        assert(t[k as int] == totals@[k as int]@);
        match parse_u64(&totals[k]) {
            Some(n) => {
                v.push(n);
            },
            None => {
                assert(parse_u64_spec(t[k as int]) is None);
                return None;
            },
        }
        k += 1;
    }
    Some(
        CpuStat {
            user: v[0],
            nice: v[1],
            system: v[2],
            idle: v[3],
            iowait: v[4],
            irq: v[5],
            softirq: v[6],
            steal: v[7],
            guest: Some(v[8]),
            guest_nice: None,
            procs_running: match running {
                Some(n) => n,
                None => 0,
            },
            procs_blocked: match blocked {
                Some(n) => n,
                None => 0,
            },
        },
    )
}

/// Reads the kernel's `stat` text into a CPU sample.
pub fn cpu_sample(lines: &Vec<String>) -> (r: Option<CpuStat>)
    ensures
        r == cpu_sample_of(cpu_scan_of(lines_view(lines@))),
        r matches Some(c) ==> c.wf(),
{
    cpu_sample_of_lines(&lines_chars(lines))
}

/// The tokens of each line.
pub open spec fn rows_of(lines: Seq<Seq<char>>) -> Seq<Seq<Seq<char>>> {
    Seq::new(lines.len(), |i: int| tokens(lines[i]))
}

/// The views of the token rows.
pub open spec fn rows_view(rows: Seq<Vec<Vec<char>>>) -> Seq<Seq<Seq<char>>> {
    Seq::new(rows.len(), |i: int| views(rows[i]@))
}

/// Whether the tokens `t` of a line give the gauge named `key`: the name,
/// which colons may follow, and then a value.
pub open spec fn names_gauge(t: Seq<Seq<char>>, key: Seq<char>) -> bool {
    t.len() >= 2 && without_trailing(t[0], ':') == key
}

/// The gauge named `key` in the token rows of a memory text: the number
/// after the name in the last row that names it, zero where that is no
/// number or no row names it.
pub open spec fn gauge_of(rows: Seq<Seq<Seq<char>>>, key: Seq<char>) -> u64
    decreases rows.len(),
{
    if rows.len() == 0 {
        0
    } else if names_gauge(rows.last(), key) {
        count_or_zero(parse_u64_spec(rows.last()[1]))
    } else {
        gauge_of(rows.drop_last(), key)
    }
}

/// The memory sample that the token rows of a memory text hold.
pub open spec fn mem_of_rows(rows: Seq<Seq<Seq<char>>>) -> MemStat {
    MemStat {
        mem_total: gauge_of(rows, "MemTotal"@),
        mem_free: gauge_of(rows, "MemFree"@),
        mem_available: gauge_of(rows, "MemAvailable"@),
        buffers: gauge_of(rows, "Buffers"@),
        cached: gauge_of(rows, "Cached"@),
        swap_total: gauge_of(rows, "SwapTotal"@),
        swap_free: gauge_of(rows, "SwapFree"@),
        dirty: gauge_of(rows, "Dirty"@),
        writeback: gauge_of(rows, "Writeback"@),
        active_file: gauge_of(rows, "Active(file)"@),
        inactive_file: gauge_of(rows, "Inactive(file)"@),
        slab: gauge_of(rows, "Slab"@),
        kreclaimable: gauge_of(rows, "KReclaimable"@),
        sreclaimable: gauge_of(rows, "SReclaimable"@),
    }
}

/// The memory sample that the lines of the kernel's memory text hold.
pub open spec fn mem_sample_of(lines: Seq<Seq<char>>) -> MemStat {
    mem_of_rows(rows_of(lines))
}

/// Whether the tokens of a line give the gauge named `key`.
pub fn row_names_gauge(row: &Vec<Vec<char>>, key: &Vec<char>) -> (b: bool)
    ensures
        b == names_gauge(views(row@), key@),
{
    if row.len() >= 2 {
        assert(views(row@)[0] == row@[0]@);
        same_text(&strip_trailing(&row[0], ':'), key)
    } else {
        false
    }
}

/// Reads one gauge from the token rows of a memory text.
pub fn gauge(rows: &Vec<Vec<Vec<char>>>, key: &str) -> (g: u64)
    ensures
        g == gauge_of(rows_view(rows@), key@),
{
    let name = chars_of(key);
    let ghost all = rows_view(rows@);
    let mut i: usize = rows.len();
    assert(all.take(i as int) =~= all);
    while i > 0
        invariant
            i <= rows.len(),
            name@ == key@,
            all == rows_view(rows@),
            gauge_of(all, key@) == gauge_of(all.take(i as int), key@),
        decreases i,
    {
        let row = &rows[i - 1];
        proof {
            assert(all.take(i as int).last() == views(rows@[i - 1]@));
            assert(all.take(i as int).drop_last() =~= all.take(i - 1));
        }
        if row_names_gauge(row, &name) {
            assert(views(row@)[1] == row@[1]@);
            return match parse_u64(&row[1]) {
                Some(n) => n,
                None => 0,
            };
        }
        i -= 1;
    }
    0
}

/// Reads the token rows of a memory text into a memory sample.
pub fn mem_sample_of_rows(rows: &Vec<Vec<Vec<char>>>) -> (m: MemStat)
    ensures
        m == mem_of_rows(rows_view(rows@)),
{
    MemStat {
        mem_total: gauge(rows, "MemTotal"),
        mem_free: gauge(rows, "MemFree"),
        mem_available: gauge(rows, "MemAvailable"),
        buffers: gauge(rows, "Buffers"),
        cached: gauge(rows, "Cached"),
        swap_total: gauge(rows, "SwapTotal"),
        swap_free: gauge(rows, "SwapFree"),
        dirty: gauge(rows, "Dirty"),
        writeback: gauge(rows, "Writeback"),
        active_file: gauge(rows, "Active(file)"),
        inactive_file: gauge(rows, "Inactive(file)"),
        slab: gauge(rows, "Slab"),
        kreclaimable: gauge(rows, "KReclaimable"),
        sreclaimable: gauge(rows, "SReclaimable"),
    }
}

/// Reads the kernel's memory text into a memory sample.
pub fn mem_sample(lines: &Vec<String>) -> (m: MemStat)
    ensures
        m == mem_sample_of(lines_view(lines@)),
{
    let mut rows: Vec<Vec<Vec<char>>> = Vec::new();
    let mut i: usize = 0;
    while i < lines.len()
        invariant
            i <= lines.len(),
            rows_view(rows@) == rows_of(lines_view(lines@)).take(i as int),
        decreases lines.len() - i,
    {
        let ghost before = rows_view(rows@);
        let row = split_tokens(&chars_of(lines[i].as_str()));
        rows.push(row);
        assert(rows_view(rows@) =~= before.push(tokens(lines@[i as int]@)));
        assert(rows_of(lines_view(lines@)).take(i + 1) =~= rows_of(lines_view(lines@)).take(i as int).push(
            tokens(lines@[i as int]@),
        ));
        i += 1;
    }
    assert(rows_of(lines_view(lines@)).take(i as int) =~= rows_of(lines_view(lines@)));
    mem_sample_of_rows(&rows)
}

/// The network snapshot that the tokens `t` of one line yield at time
/// `ts`. There must be `min` tokens at least: the interface name, which
/// colons may follow, then eight receive counters and transmit counters, of
/// which bytes, packets, errors and drops are taken. There is none where
/// the line is shorter or one of the eight is no number.
pub open spec fn net_row_of(t: Seq<Seq<char>>, min: int, ts: u64) -> Option<SnapshotModel> {
    if t.len() >= 13 && t.len() >= min && parse_u64_spec(t[1]) is Some && parse_u64_spec(
        t[2],
    ) is Some && parse_u64_spec(t[3]) is Some && parse_u64_spec(t[4]) is Some
        && parse_u64_spec(t[9]) is Some && parse_u64_spec(t[10]) is Some && parse_u64_spec(
        t[11],
    ) is Some && parse_u64_spec(t[12]) is Some {
        Some(
            SnapshotModel {
                timestamp: ts,
                sample: SampleModel::Net {
                    iface: without_trailing(t[0], ':'),
                    stat: NetStat {
                        rx_bytes: parse_u64_spec(t[1])->0,
                        tx_bytes: parse_u64_spec(t[9])->0,
                        rx_pkts: parse_u64_spec(t[2])->0,
                        tx_pkts: parse_u64_spec(t[10])->0,
                        rx_errs: parse_u64_spec(t[3])->0,
                        tx_errs: parse_u64_spec(t[11])->0,
                        rx_drop: parse_u64_spec(t[4])->0,
                        tx_drop: parse_u64_spec(t[12])->0,
                    },
                },
            },
        )
    } else {
        None
    }
}

/// The network snapshot that one line of the kernel's interface table
/// yields at time `ts`: the line holds seventeen tokens at least.
pub open spec fn net_snapshot_of(line: Seq<char>, ts: u64) -> Option<SnapshotModel> {
    net_row_of(tokens(line), 17, ts)
}

/// The network snapshots that the lines yield at time `ts`, in order.
pub open spec fn net_rows_of(lines: Seq<Seq<char>>, ts: u64) -> Seq<SnapshotModel>
    decreases lines.len(),
{
    if lines.len() == 0 {
        Seq::empty()
    } else {
        match net_snapshot_of(lines.last(), ts) {
            Some(s) => net_rows_of(lines.drop_last(), ts).push(s),
            None => net_rows_of(lines.drop_last(), ts),
        }
    }
}

/// The network snapshots that the kernel's interface table yields at time
/// `ts`: those of its lines after the two lines of headings.
pub open spec fn net_snapshots_of(lines: Seq<Seq<char>>, ts: u64) -> Seq<SnapshotModel> {
    if lines.len() <= 2 {
        Seq::empty()
    } else {
        net_rows_of(lines.skip(2), ts)
    }
}

/// Reads a network snapshot from the tokens of `t` that start at `base`.
pub fn net_row(t: &Vec<Vec<char>>, base: usize, min: usize, ts: u64) -> (r: Option<RawSnapshot>)
    requires
        base <= t.len(),
    ensures
        snapshot_view(r) == net_row_of(views(t@).skip(base as int), min as int, ts),
{
    let n = t.len() - base;
    if n < 13 || n < min {
        return None;
    }
    let ghost g = views(t@).skip(base as int);
    assert(g[0] == t@[base + 0]@ && g[1] == t@[base + 1]@ && g[2] == t@[base + 2]@ && g[3]
        == t@[base + 3]@ && g[4] == t@[base + 4]@ && g[9] == t@[base + 9]@ && g[10] == t@[base
        + 10]@ && g[11] == t@[base + 11]@ && g[12] == t@[base + 12]@);
    let rx_bytes = parse_u64(&t[base + 1])?;
    let rx_pkts = parse_u64(&t[base + 2])?;
    let rx_errs = parse_u64(&t[base + 3])?;
    let rx_drop = parse_u64(&t[base + 4])?;
    let tx_bytes = parse_u64(&t[base + 9])?;
    let tx_pkts = parse_u64(&t[base + 10])?;
    let tx_errs = parse_u64(&t[base + 11])?;
    let tx_drop = parse_u64(&t[base + 12])?;
    let iface = string_of(&strip_trailing(&t[base], ':'));
    Some(
        RawSnapshot {
            timestamp: ts,
            sample: Sample::Net {
                iface,
                stat: NetStat {
                    rx_bytes,
                    tx_bytes,
                    rx_pkts,
                    tx_pkts,
                    rx_errs,
                    tx_errs,
                    rx_drop,
                    tx_drop,
                },
            },
        },
    )
}

/// Reads one line of the kernel's interface table.
pub fn net_snapshot(line: &str, ts: u64) -> (r: Option<RawSnapshot>)
    ensures
        snapshot_view(r) == net_snapshot_of(line@, ts),
{
    let t = split_tokens(&chars_of(line));
    assert(views(t@).skip(0) =~= views(t@));
    net_row(&t, 0, 17, ts)
}

/// Reads the kernel's interface table, taken at time `ts`, into one
/// snapshot for each interface.
pub fn net_snapshots(lines: &Vec<String>, ts: u64) -> (out: Vec<RawSnapshot>)
    ensures
        snapshots_view(out@) == net_snapshots_of(lines_view(lines@), ts),
{
    let mut out: Vec<RawSnapshot> = Vec::new();
    assert(snapshots_view(out@) =~= Seq::<SnapshotModel>::empty());
    if lines.len() <= 2 {
        return out;
    }
    let ghost rows = lines_view(lines@).skip(2);
    let mut i: usize = 2;
    assert(rows.take(0) =~= Seq::<Seq<char>>::empty());
    while i < lines.len()
        invariant
            2 <= i <= lines.len(),
            rows == lines_view(lines@).skip(2),
            snapshots_view(out@) == net_rows_of(rows.take(i - 2), ts),
        decreases lines.len() - i,
    {
        proof {
            assert(rows.take(i - 1).drop_last() =~= rows.take(i - 2));
            assert(rows.take(i - 1).last() == lines@[i as int]@);
        }
        match net_snapshot(lines[i].as_str(), ts) {
            Some(snap) => {
                let ghost before = snapshots_view(out@);
                let ghost model = snap@;
                out.push(snap);
                assert(snapshots_view(out@) =~= before.push(model));
            },
            None => {},
        }
        i += 1;
    }
    assert(rows.take(i - 2) =~= rows);
    out
}

/// The snapshot of a CPU sample taken at `ts`, if there is a sample.
pub open spec fn cpu_snapshots_of(lines: Option<Seq<Seq<char>>>, ts: u64) -> Seq<SnapshotModel> {
    match lines {
        Some(l) => match cpu_sample_of(cpu_scan_of(l)) {
            Some(c) => seq![
                SnapshotModel { timestamp: ts, sample: SampleModel::Cpu(c) },
            ],
            None => Seq::empty(),
        },
        None => Seq::empty(),
    }
}

/// The snapshot of the memory sample taken at `ts`, if the text was read.
pub open spec fn mem_snapshots_of(lines: Option<Seq<Seq<char>>>, ts: u64) -> Seq<SnapshotModel> {
    match lines {
        Some(l) => seq![
            SnapshotModel {
                timestamp: ts,
                sample: SampleModel::Mem(mem_sample_of(l)),
            },
        ],
        None => Seq::empty(),
    }
}

/// The mathematical value of an optional run of lines.
pub open spec fn text_of(lines: Option<&Vec<String>>) -> Option<Seq<Seq<char>>> {
    match lines {
        Some(l) => Some(lines_view(l@)),
        None => None,
    }
}

/// What one interval of a capture records, at time `now`: the snapshots
/// of the disks of interest, then of the CPU, of memory and of the network
/// interfaces, each from the kernel text of its domain. A text that could
/// not be read yields nothing.
pub fn gather_records(
    now: u64,
    diskstats: &Vec<String>,
    stat: Option<&Vec<String>>,
    meminfo: Option<&Vec<String>>,
    netdev: Option<&Vec<String>>,
) -> (out: Vec<RawSnapshot>)
    ensures
        snapshots_view(out@) == disk_snapshots_of(lines_view(diskstats@), now, DiskFilter::Capture)
            + cpu_snapshots_of(text_of(stat), now) + mem_snapshots_of(text_of(meminfo), now) + (
        match netdev {
            Some(l) => net_snapshots_of(lines_view(l@), now),
            None => Seq::empty(),
        }),
{
    let mut out = disk_snapshots(diskstats, now, DiskFilter::Capture);
    let ghost disks = snapshots_view(out@);
    match stat {
        Some(lines) => match cpu_sample(lines) {
            Some(c) => {
                let snap = RawSnapshot { timestamp: now, sample: Sample::Cpu(c) };
                out.push(snap);
                assert(snapshots_view(out@) =~= disks + seq![snap@]);
            },
            None => {
                assert(disks + Seq::<SnapshotModel>::empty() =~= disks);
            },
        },
        None => {
            assert(disks + Seq::<SnapshotModel>::empty() =~= disks);
        },
    }
    let ghost with_cpu = snapshots_view(out@);
    match meminfo {
        Some(lines) => {
            let snap = RawSnapshot { timestamp: now, sample: Sample::Mem(mem_sample(lines)) };
            out.push(snap);
            assert(snapshots_view(out@) =~= with_cpu + seq![snap@]);
        },
        None => {
            assert(with_cpu + Seq::<SnapshotModel>::empty() =~= with_cpu);
        },
    }
    let ghost with_mem = snapshots_view(out@);
    match netdev {
        Some(lines) => {
            let nets = net_snapshots(lines, now);
            let ghost added = snapshots_view(nets@);
            let mut k: usize = 0;
            while k < nets.len()
                invariant
                    k <= nets.len(),
                    added == snapshots_view(nets@),
                    snapshots_view(out@) == with_mem + added.take(k as int),
                decreases nets.len() - k,
            {
                let ghost before = snapshots_view(out@);
                out.push(nets[k].clone());
                assert(snapshots_view(out@) =~= before.push(nets@[k as int]@));
                assert(added.take(k + 1) =~= added.take(k as int).push(nets@[k as int]@));
                assert(with_mem + added.take(k + 1) =~= (with_mem + added.take(k as int)).push(
                    nets@[k as int]@,
                ));
                k += 1;
            }
            assert(added.take(k as int) =~= added);
        },
        None => {
            assert(with_mem + Seq::<SnapshotModel>::empty() =~= with_mem);
        },
    }
    out
}

} // verus!
