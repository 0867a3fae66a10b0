//! Conversion of collectl raw captures: the blocks of a raw capture, each
//! under the marker line of its epoch, read into snapshots.

use vstd::prelude::*;
use crate::record::{disk_from, disk_of_fields};
use crate::snapshot::{snapshots_view, RawSnapshot, Sample, SampleModel, SnapshotModel};
use crate::source::{
    collectl_prefixes, cpu_sample_of, cpu_sample_of_lines, cpu_scan_of, is_wanted_disk,
    mem_of_rows, mem_sample_of_rows, names_gauge, net_row, net_row_of, row_names_gauge,
    rows_view, DiskFilter,
};
use crate::text::{
    chars_of, has_prefix_in, lines_view, slice_of, split_tokens, starts_with, string_of, tokens,
    trim, trimmed, views,
};

verus! {

/// The layouts of the disk lines of a raw capture.
#[derive(Clone, Copy, Debug, PartialEq, Eq, Structural)]
pub enum CollectlFormat {
    /// Eighteen tokens or more: discard counters are there.
    Modern,
    /// Fifteen tokens, without discard counters, or eighteen.
    Rhel7,
}

/// The text that follows the marker on a marker line: the epoch of the
/// block, as the capture writes it. There is none where the line, blanks
/// at its ends aside, does not begin with the marker `>>>` or nothing
/// follows the marker.
pub open spec fn marker_text_of(line: Seq<char>) -> Option<Seq<char>> {
    let l = trimmed(line);
    if ">>>"@.is_prefix_of(l) && tokens(l.skip(3)).len() > 0 {
        Some(tokens(l.skip(3))[0])
    } else {
        None
    }
}

/// The mathematical value of an optional string.
pub open spec fn text_view(s: Option<String>) -> Option<Seq<char>> {
    match s {
        Some(s) => Some(s@),
        None => None,
    }
}

/// Reads the epoch text of a marker line.
pub fn marker_text(line: &str) -> (r: Option<String>)
    ensures
        text_view(r) == marker_text_of(line@),
{
    let l = trim(&chars_of(line));
    let marker = chars_of(">>>");
    proof {
        reveal_strlit(">>>");
    }
    if !starts_with(&l, &marker) {
        return None;
    }
    let rest = slice_of(&l, 3, l.len());
    assert(rest@ =~= l@.skip(3));
    let t = split_tokens(&rest);
    if t.len() == 0 {
        return None;
    }
    assert(views(t@)[0] == t@[0]@);
    Some(string_of(&t[0]))
}

/// Whether a disk line with `n` tokens is of the layout.
pub open spec fn disk_length_ok(n: nat, format: CollectlFormat) -> bool {
    match format {
        CollectlFormat::Modern => n >= 18,
        CollectlFormat::Rhel7 => n == 15 || n == 18,
    }
}

/// The disk snapshot that the line `l` of a block yields at time `ts`: the
/// line begins with `disk`, is of the layout, and its tokens after the
/// first read as a disk sample of a device of interest.
pub open spec fn disk_line_of(l: Seq<char>, ts: u64, format: CollectlFormat) -> Option<
    SnapshotModel,
> {
    let f = tokens(l);
    if "disk"@.is_prefix_of(l) && disk_length_ok(f.len(), format) {
        match disk_of_fields(f.skip(1)) {
            Some(d) => if has_prefix_in(d.name, collectl_prefixes()) {
                Some(SnapshotModel { timestamp: ts, sample: SampleModel::Disk(d) })
            } else {
                None
            },
            None => None,
        }
    } else {
        None
    }
}

/// The disk snapshots of a block, in order.
pub open spec fn block_disks(block: Seq<Seq<char>>, ts: u64, format: CollectlFormat) -> Seq<
    SnapshotModel,
>
    decreases block.len(),
{
    if block.len() == 0 {
        Seq::empty()
    } else {
        match disk_line_of(block.last(), ts, format) {
            Some(s) => block_disks(block.drop_last(), ts, format).push(s),
            None => block_disks(block.drop_last(), ts, format),
        }
    }
}

/// The CPU snapshot of a block, if its lines hold a CPU sample.
pub open spec fn block_cpu(block: Seq<Seq<char>>, ts: u64) -> Seq<SnapshotModel> {
    match cpu_sample_of(cpu_scan_of(block)) {
        Some(c) => seq![SnapshotModel { timestamp: ts, sample: SampleModel::Cpu(c) }],
        None => Seq::empty(),
    }
}

/// Whether the line `l` of a block may give a memory gauge: it holds a
/// colon and is not a CPU, process count, disk or network line.
pub open spec fn is_gauge_line(l: Seq<char>) -> bool {
    &&& !"cpu"@.is_prefix_of(l)
    &&& !"procs_running"@.is_prefix_of(l)
    &&& !"procs_blocked"@.is_prefix_of(l)
    &&& !"disk"@.is_prefix_of(l)
    &&& !"Net "@.is_prefix_of(l)
    &&& l.contains(':')
}

/// The token rows of the lines of a block that may give a memory gauge.
pub open spec fn gauge_rows(block: Seq<Seq<char>>) -> Seq<Seq<Seq<char>>>
    decreases block.len(),
{
    if block.len() == 0 {
        Seq::empty()
    } else if is_gauge_line(block.last()) {
        gauge_rows(block.drop_last()).push(tokens(block.last()))
    } else {
        gauge_rows(block.drop_last())
    }
}

/// The names of the memory gauges that are recorded.
pub open spec fn mem_keys() -> Seq<Seq<char>> {
    seq![
        "MemTotal"@,
        "MemFree"@,
        "MemAvailable"@,
        "Buffers"@,
        "Cached"@,
        "SwapTotal"@,
        "SwapFree"@,
        "Dirty"@,
        "Writeback"@,
        "Active(file)"@,
        "Inactive(file)"@,
        "Slab"@,
        "KReclaimable"@,
        "SReclaimable"@,
    ]
}

/// Whether one of the rows gives one of the recorded gauges.
pub open spec fn any_gauge(rows: Seq<Seq<Seq<char>>>) -> bool {
    exists|r: int, k: int|
        0 <= r < rows.len() && 0 <= k < mem_keys().len() && #[trigger] names_gauge(
            rows[r],
            mem_keys()[k],
        )
}

/// The memory snapshot of a block, if one of its lines gives a gauge.
pub open spec fn block_mem(block: Seq<Seq<char>>, ts: u64) -> Seq<SnapshotModel> {
    let rows = gauge_rows(block);
    if any_gauge(rows) {
        seq![SnapshotModel { timestamp: ts, sample: SampleModel::Mem(mem_of_rows(rows)) }]
    } else {
        Seq::empty()
    }
}

/// The network snapshot that the line `l` of a block yields at time `ts`:
/// the line begins with `Net` and a blank, and its tokens after the first
/// read as a row of the interface table.
pub open spec fn net_line_of(l: Seq<char>, ts: u64) -> Option<SnapshotModel> {
    if "Net "@.is_prefix_of(l) && tokens(l).len() >= 1 {
        net_row_of(tokens(l).skip(1), 13, ts)
    } else {
        None
    }
}

/// The network snapshots of a block, in order.
pub open spec fn block_nets(block: Seq<Seq<char>>, ts: u64) -> Seq<SnapshotModel>
    decreases block.len(),
{
    if block.len() == 0 {
        Seq::empty()
    } else {
        match net_line_of(block.last(), ts) {
            Some(s) => block_nets(block.drop_last(), ts).push(s),
            None => block_nets(block.drop_last(), ts),
        }
    }
}

/// The snapshots of a block: its disks, then CPU, memory and networks.
pub open spec fn block_snapshots(block: Seq<Seq<char>>, ts: u64, format: CollectlFormat) -> Seq<
    SnapshotModel,
> {
    block_disks(block, ts, format) + block_cpu(block, ts) + block_mem(block, ts) + block_nets(
        block,
        ts,
    )
}

/// Where a conversion stands: the snapshots of the blocks that are closed,
/// and the epoch and the lines read so far of the block that is open.
pub struct Conversion {
    pub out: Seq<SnapshotModel>,
    pub pending: Option<(u64, Seq<Seq<char>>)>,
}

/// The snapshots of a conversion once the open block is closed.
pub open spec fn finished(c: Conversion, format: CollectlFormat) -> Seq<SnapshotModel> {
    match c.pending {
        Some((ts, block)) => c.out + block_snapshots(block, ts, format),
        None => c.out,
    }
}

/// The block that a line opens: one at `epoch`, if the line is a marker
/// line and its epoch was read.
pub open spec fn opened(line: Seq<char>, epoch: Option<u64>) -> Option<(u64, Seq<Seq<char>>)> {
    match epoch {
        Some(ts) => if marker_text_of(line) is Some {
            Some((ts, Seq::<Seq<char>>::empty()))
        } else {
            None
        },
        None => None,
    }
}

/// The conversion after one more line. While a block is open, a line that
/// begins with the marker closes it, and any other line joins it, blanks
/// at its ends removed. A marker line whose epoch was read opens a block.
/// Lines outside of blocks are passed over.
pub open spec fn convert_step(
    c: Conversion,
    line: Seq<char>,
    epoch: Option<u64>,
    format: CollectlFormat,
) -> Conversion {
    match c.pending {
        Some((ts, block)) => if ">>>"@.is_prefix_of(line) {
            Conversion { out: finished(c, format), pending: opened(line, epoch) }
        } else {
            Conversion { out: c.out, pending: Some((ts, block.push(trimmed(line)))) }
        },
        None => Conversion { out: c.out, pending: opened(line, epoch) },
    }
}

/// The epoch that was read for line `i`: none where none was handed in.
pub open spec fn epoch_at(epochs: Seq<Option<u64>>, i: int) -> Option<u64> {
    if 0 <= i < epochs.len() {
        epochs[i]
    } else {
        None
    }
}

/// The conversion after the first `n` lines.
pub open spec fn conversion_of(
    lines: Seq<Seq<char>>,
    epochs: Seq<Option<u64>>,
    n: int,
    format: CollectlFormat,
) -> Conversion
    decreases n,
{
    if n <= 0 {
        Conversion { out: Seq::empty(), pending: None }
    } else {
        convert_step(
            conversion_of(lines, epochs, n - 1, format),
            lines[n - 1],
            epoch_at(epochs, n - 1),
            format,
        )
    }
}

/// Appends the disk snapshots of a block.
fn push_block_disks(
    out: &mut Vec<RawSnapshot>,
    block: &Vec<Vec<char>>,
    ts: u64,
    format: CollectlFormat,
)
    ensures
        snapshots_view(final(out)@) == snapshots_view(old(out)@) + block_disks(
            views(block@),
            ts,
            format,
        ),
{
    let disk = chars_of("disk");
    let ghost start = snapshots_view(out@);
    let mut i: usize = 0;
    proof {
        assert(views(block@).take(0) =~= Seq::<Seq<char>>::empty());
        assert(start + Seq::<SnapshotModel>::empty() =~= start);
    }
    while i < block.len()
        invariant
            i <= block.len(),
            disk@ == "disk"@,
            snapshots_view(out@) == start + block_disks(views(block@).take(i as int), ts, format),
        decreases block.len() - i,
    {
        proof {
            let all = views(block@);
            assert(all.take(i + 1).drop_last() =~= all.take(i as int));
            assert(all.take(i + 1).last() == block@[i as int]@);
        }
        let l = &block[i];
        if starts_with(l, &disk) {
            let f = split_tokens(l);
            let fits = match format {
                CollectlFormat::Modern => f.len() >= 18,
                CollectlFormat::Rhel7 => f.len() == 15 || f.len() == 18,
            };
            if fits {
                match disk_from(&f, 1) {
                    Some(d) => {
                        if is_wanted_disk(d.name.as_str(), DiskFilter::Collectl) {
                            let ghost before = snapshots_view(out@);
                            let snap = RawSnapshot { timestamp: ts, sample: Sample::Disk(d) };
                            out.push(snap);
                            assert(snapshots_view(out@) =~= before.push(snap@));
                            assert(start + block_disks(views(block@).take(i as int), ts, format).push(
                                snap@,
                            ) =~= before.push(snap@));
                        }
                    },
                    None => {},
                }
            }
        }
        i += 1;
    }
    assert(views(block@).take(i as int) =~= views(block@));
}

/// Whether a line holds a colon.
fn has_colon(l: &Vec<char>) -> (b: bool)
    ensures
        b == l@.contains(':'),
{
    let mut i: usize = 0;
    while i < l.len()
        invariant
            i <= l.len(),
            forall|j: int| 0 <= j < i ==> l@[j] != ':',
        decreases l.len() - i,
    {
        if l[i] == ':' {
            return true;
        }
        i += 1;
    }
    false
}

/// Whether a line of a block may give a memory gauge.
fn gauge_line(l: &Vec<char>) -> (b: bool)
    ensures
        b == is_gauge_line(l@),
{
    !starts_with(l, &chars_of("cpu")) && !starts_with(l, &chars_of("procs_running"))
        && !starts_with(l, &chars_of("procs_blocked")) && !starts_with(l, &chars_of("disk"))
        && !starts_with(l, &chars_of("Net ")) && has_colon(l)
}

/// The names of the memory gauges that are recorded.
fn mem_key_list() -> (v: Vec<Vec<char>>)
    ensures
        views(v@) == mem_keys(),
{
    let mut v: Vec<Vec<char>> = Vec::new();
    v.push(chars_of("MemTotal"));
    v.push(chars_of("MemFree"));
    v.push(chars_of("MemAvailable"));
    v.push(chars_of("Buffers"));
    v.push(chars_of("Cached"));
    v.push(chars_of("SwapTotal"));
    v.push(chars_of("SwapFree"));
    v.push(chars_of("Dirty"));
    v.push(chars_of("Writeback"));
    v.push(chars_of("Active(file)"));
    v.push(chars_of("Inactive(file)"));
    v.push(chars_of("Slab"));
    v.push(chars_of("KReclaimable"));
    v.push(chars_of("SReclaimable"));
    assert(views(v@) =~= mem_keys());
    v
}

/// Whether one of the rows gives one of the recorded gauges.
fn gives_any_gauge(rows: &Vec<Vec<Vec<char>>>) -> (b: bool)
    ensures
        b == any_gauge(rows_view(rows@)),
{
    let keys = mem_key_list();
    let ghost all = rows_view(rows@);
    let mut r: usize = 0;
    while r < rows.len()
        invariant
            r <= rows.len(),
            all == rows_view(rows@),
            views(keys@) == mem_keys(),
            forall|a: int, k: int|
                0 <= a < r && 0 <= k < mem_keys().len() ==> !#[trigger] names_gauge(
                    all[a],
                    mem_keys()[k],
                ),
        decreases rows.len() - r,
    {
        let mut k: usize = 0;
        while k < keys.len()
            invariant
                k <= keys.len(),
                r < rows.len(),
                all == rows_view(rows@),
                views(keys@) == mem_keys(),
                forall|j: int|
                    0 <= j < k ==> !#[trigger] names_gauge(all[r as int], mem_keys()[j]),
            decreases keys.len() - k,
        {
            assert(views(keys@)[k as int] == keys@[k as int]@);
            assert(all[r as int] == views(rows@[r as int]@));
            if row_names_gauge(&rows[r], &keys[k]) {
                assert(names_gauge(all[r as int], mem_keys()[k as int]));
                return true;
            }
            k += 1;
        }
        r += 1;
    }
    false
}

/// Appends the memory snapshot of a block, if it has one.
fn push_block_mem(out: &mut Vec<RawSnapshot>, block: &Vec<Vec<char>>, ts: u64)
    ensures
        snapshots_view(final(out)@) == snapshots_view(old(out)@) + block_mem(views(block@), ts),
{
    let ghost start = snapshots_view(out@);
    let mut rows: Vec<Vec<Vec<char>>> = Vec::new();
    let mut i: usize = 0;
    proof {
        assert(views(block@).take(0) =~= Seq::<Seq<char>>::empty());
        assert(rows_view(rows@) =~= Seq::<Seq<Seq<char>>>::empty());
    }
    while i < block.len()
        invariant
            i <= block.len(),
            rows_view(rows@) == gauge_rows(views(block@).take(i as int)),
        decreases block.len() - i,
    {
        proof {
            let all = views(block@);
            assert(all.take(i + 1).drop_last() =~= all.take(i as int));
            assert(all.take(i + 1).last() == block@[i as int]@);
        }
        if gauge_line(&block[i]) {
            let ghost before = rows_view(rows@);
            rows.push(split_tokens(&block[i]));
            assert(rows_view(rows@) =~= before.push(tokens(block@[i as int]@)));
        }
        i += 1;
    }
    assert(views(block@).take(i as int) =~= views(block@));
    if gives_any_gauge(&rows) {
        let snap = RawSnapshot { timestamp: ts, sample: Sample::Mem(mem_sample_of_rows(&rows)) };
        out.push(snap);
        assert(snapshots_view(out@) =~= start + seq![snap@]);
    } else {
        assert(start + Seq::<SnapshotModel>::empty() =~= start);
    }
}

/// Appends the CPU snapshot of a block, if it has one.
fn push_block_cpu(out: &mut Vec<RawSnapshot>, block: &Vec<Vec<char>>, ts: u64)
    ensures
        snapshots_view(final(out)@) == snapshots_view(old(out)@) + block_cpu(views(block@), ts),
{
    let ghost start = snapshots_view(out@);
    match cpu_sample_of_lines(block) {
        Some(c) => {
            let snap = RawSnapshot { timestamp: ts, sample: Sample::Cpu(c) };
            out.push(snap);
            assert(snapshots_view(out@) =~= start + seq![snap@]);
        },
        None => {
            assert(start + Seq::<SnapshotModel>::empty() =~= start);
        },
    }
}

/// Appends the network snapshots of a block.
fn push_block_nets(out: &mut Vec<RawSnapshot>, block: &Vec<Vec<char>>, ts: u64)
    ensures
        snapshots_view(final(out)@) == snapshots_view(old(out)@) + block_nets(views(block@), ts),
{
    let net = chars_of("Net ");
    let ghost start = snapshots_view(out@);
    let mut i: usize = 0;
    proof {
        assert(views(block@).take(0) =~= Seq::<Seq<char>>::empty());
        assert(start + Seq::<SnapshotModel>::empty() =~= start);
    }
    while i < block.len()
        invariant
            i <= block.len(),
            net@ == "Net "@,
            snapshots_view(out@) == start + block_nets(views(block@).take(i as int), ts),
        decreases block.len() - i,
    {
        proof {
            let all = views(block@);
            assert(all.take(i + 1).drop_last() =~= all.take(i as int));
            assert(all.take(i + 1).last() == block@[i as int]@);
        }
        let l = &block[i];
        if starts_with(l, &net) {
            let f = split_tokens(l);
            if f.len() >= 1 {
                match net_row(&f, 1, 13, ts) {
                    Some(snap) => {
                        let ghost before = snapshots_view(out@);
                        let ghost model = snap@;
                        out.push(snap);
                        assert(snapshots_view(out@) =~= before.push(model));
                        assert(start + block_nets(views(block@).take(i as int), ts).push(model)
                            =~= before.push(model));
                    },
                    None => {},
                }
            }
        }
        i += 1;
    }
    assert(views(block@).take(i as int) =~= views(block@));
}

/// Appends the snapshots of a block.
fn push_block(out: &mut Vec<RawSnapshot>, block: &Vec<Vec<char>>, ts: u64, format: CollectlFormat)
    ensures
        snapshots_view(final(out)@) == snapshots_view(old(out)@) + block_snapshots(
            views(block@),
            ts,
            format,
        ),
{
    let ghost start = snapshots_view(out@);
    let ghost b = views(block@);
    push_block_disks(out, block, ts, format);
    push_block_cpu(out, block, ts);
    push_block_mem(out, block, ts);
    push_block_nets(out, block, ts);
    assert(snapshots_view(out@) =~= start + (block_disks(b, ts, format) + block_cpu(b, ts)
        + block_mem(b, ts) + block_nets(b, ts)));
}

/// The mathematical value of what has been converted so far.
pub open spec fn conversion_view(
    out: Seq<RawSnapshot>,
    pending: Option<u64>,
    block: Seq<Vec<char>>,
) -> Conversion {
    Conversion {
        out: snapshots_view(out),
        pending: match pending {
            Some(ts) => Some((ts, views(block))),
            None => None,
        },
    }
}

/// Converts a collectl raw capture into snapshots.
///
/// `epochs` holds, for each line, the epoch that was read from it where the
/// line is a marker line whose text reads as a number, and nothing
/// otherwise. Each block yields the snapshots of its disks, then of CPU,
/// memory and networks, all at the epoch of the block.
pub fn convert_collectl(
    lines: &Vec<String>,
    epochs: &Vec<Option<u64>>,
    format: CollectlFormat,
) -> (out: Vec<RawSnapshot>)
    ensures
        snapshots_view(out@) == finished(
            conversion_of(lines_view(lines@), epochs@, lines@.len() as int, format),
            format,
        ),
{
    let marker = chars_of(">>>");
    let mut out: Vec<RawSnapshot> = Vec::new();
    let mut pending: Option<u64> = None;
    let mut block: Vec<Vec<char>> = Vec::new();
    let mut i: usize = 0;
    assert(snapshots_view(out@) =~= Seq::<SnapshotModel>::empty());
    while i < lines.len()
        invariant
            i <= lines.len(),
            marker@ == ">>>"@,
            pending is None ==> block@.len() == 0,
            conversion_view(out@, pending, block@) == conversion_of(
                lines_view(lines@),
                epochs@,
                i as int,
                format,
            ),
        decreases lines.len() - i,
    {
        let ghost before = conversion_of(lines_view(lines@), epochs@, i as int, format);
        let text = lines[i].as_str();
        let line = chars_of(text);
        assert(lines_view(lines@)[i as int] == line@);
        let epoch: Option<u64> = if i < epochs.len() { epochs[i] } else { None };
        let ends = starts_with(&line, &marker);
        if pending.is_none() || ends {
            match pending {
                Some(ts) => {
                    push_block(&mut out, &block, ts, format);
                    block = Vec::new();
                },
                None => {},
            }
            pending = match epoch {
                Some(ts) => if marker_text(text).is_some() {
                    Some(ts)
                } else {
                    None
                },
                None => None,
            };
            assert(views(block@) =~= Seq::<Seq<char>>::empty());
        } else {
            let ghost old_block = views(block@);
            block.push(trim(&line));
            assert(views(block@) =~= old_block.push(trimmed(line@)));
        }
        i += 1;
    }
    match pending {
        Some(ts) => {
            push_block(&mut out, &block, ts, format);
        },
        None => {},
    }
    out
}

} // verus!
