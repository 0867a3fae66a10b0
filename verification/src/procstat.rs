//! Per-process statistics: what the kernel's per-process `stat`, `io` and
//! `cmdline` texts hold, and the rows that a capture records of them.

use vstd::prelude::*;
use crate::text::{
    chars_of, join, join_fields, lines_view, parse_u32, parse_u32_spec, parse_u64,
    parse_u64_spec, slice_of, split, split_fields, split_tokens, starts_with, string_of, tokens,
    trim, trimmed, views,
};

verus! {

/// The place of the first `c` in `s` from place `k` on, or the length of
/// `s` where there is none.
pub open spec fn first_index_from(s: Seq<char>, c: char, k: int) -> int
    decreases s.len() - k,
{
    if k < 0 || k >= s.len() {
        s.len() as int
    } else if s[k] == c {
        k
    } else {
        first_index_from(s, c, k + 1)
    }
}

/// The place of the last `c` in `s`, or -1 where there is none.
pub open spec fn last_index(s: Seq<char>, c: char) -> int
    decreases s.len(),
{
    if s.len() == 0 {
        -1
    } else if s.last() == c {
        s.len() - 1
    } else {
        last_index(s.drop_last(), c)
    }
}

/// The command name and the fields after it of a per-process `stat` line.
///
/// The command name stands between the first opening and the last closing
/// bracket, so that it may itself hold brackets and blanks. One character
/// separates the closing bracket from the fields, which are separated by
/// whitespace. There is nothing where the brackets are missing or out of
/// order, or where the line ends with the closing bracket; the separator
/// must be an ASCII character.
pub open spec fn stat_line_of(s: Seq<char>) -> Option<(Seq<char>, Seq<Seq<char>>)> {
    let a = first_index_from(s, '(', 0);
    let b = last_index(s, ')');
    if a < b && b + 1 < s.len() && (s[b + 1] as u32) < 128 {
        Some((s.subrange(a + 1, b), tokens(s.skip(b + 2))))
    } else {
        None
    }
}

/// The mathematical value of what `parse_stat_line` hands back.
pub open spec fn stat_line_view(r: Option<(String, Vec<String>)>) -> Option<
    (Seq<char>, Seq<Seq<char>>),
> {
    match r {
        Some((comm, rest)) => Some((comm@, lines_view(rest@))),
        None => None,
    }
}

/// The place of the first `c` in `s`, or the length of `s`.
fn find_first(s: &Vec<char>, c: char) -> (i: usize)
    ensures
        i == first_index_from(s@, c, 0),
        i <= s@.len(),
{
    let mut k: usize = 0;
    while k < s.len()
        invariant
            k <= s.len(),
            first_index_from(s@, c, 0) == first_index_from(s@, c, k as int),
        decreases s.len() - k,
    {
        if s[k] == c {
            return k;
        }
        k += 1;
    }
    k
}

/// The place after the last `c` in `s`, or zero where there is none.
fn find_last_end(s: &Vec<char>, c: char) -> (e: usize)
    ensures
        e == last_index(s@, c) + 1,
        e <= s@.len(),
{
    let mut e: usize = s.len();
    assert(s@.take(e as int) =~= s@);
    while e > 0
        invariant
            e <= s.len(),
            last_index(s@, c) == last_index(s@.take(e as int), c),
        decreases e,
    {
        proof {
            assert(s@.take(e as int).last() == s@[e - 1]);
            assert(s@.take(e as int).drop_last() =~= s@.take(e - 1));
        }
        if s[e - 1] == c {
            return e;
        }
        e -= 1;
    }
    e
}

/// Turns each run of characters into a string.
pub fn strings_of(v: &Vec<Vec<char>>) -> (out: Vec<String>)
    ensures
        lines_view(out@) == views(v@),
{
    let mut out: Vec<String> = Vec::new();
    let mut i: usize = 0;
    while i < v.len()
        invariant
            i <= v.len(),
            lines_view(out@) == views(v@).take(i as int),
        decreases v.len() - i,
    {
        let ghost before = lines_view(out@);
        out.push(string_of(&v[i]));
        assert(lines_view(out@) =~= before.push(v@[i as int]@));
        assert(views(v@).take(i + 1) =~= views(v@).take(i as int).push(v@[i as int]@));
        i += 1;
    }
    assert(views(v@).take(i as int) =~= views(v@));
    out
}

/// Reads a per-process `stat` line into the command name and the fields
/// that follow it.
pub fn parse_stat_line(stat_line: &str) -> (r: Option<(String, Vec<String>)>)
    ensures
        stat_line_view(r) == stat_line_of(stat_line@),
{
    let s = chars_of(stat_line);
    let a = find_first(&s, '(');
    let e = find_last_end(&s, ')');
    if e == 0 || a >= e - 1 || e >= s.len() || s[e] as u32 >= 128 {
        return None;
    }
    let comm = string_of(&slice_of(&s, a + 1, e - 1));
    let after = slice_of(&s, e + 1, s.len());
    assert(after@ =~= s@.skip(e + 1));
    let rest = strings_of(&split_tokens(&after));
    Some((comm, rest))
}

/// What is recorded of one process.
#[derive(Debug, PartialEq, Eq)]
pub struct ProcInfo {
    pub comm: String,
    pub state: String,
    pub ppid: u32,
    /// User time, in clock ticks.
    pub utime: u64,
    /// System time, in clock ticks.
    pub stime: u64,
    pub num_threads: u32,
    /// Resident set size, in kilobytes.
    pub vmrss_kb: u64,
    /// Virtual memory size, in kilobytes.
    pub vmsize_kb: u64,
    pub read_bytes: u64,
    pub write_bytes: u64,
    pub cmdline: String,
}

/// What is recorded of one thread.
#[derive(Debug, PartialEq, Eq)]
pub struct ThreadInfo {
    pub comm: String,
    pub state: String,
    pub utime: u64,
    pub stime: u64,
}

/// The numbers that a per-process `stat` line holds.
#[derive(Clone, Copy, Debug, PartialEq, Eq, Structural)]
pub struct StatNumbers {
    pub ppid: u32,
    pub utime: u64,
    pub stime: u64,
    pub num_threads: u32,
    pub vmsize_kb: u64,
    pub vmrss_kb: u64,
}

/// The numbers that the fields `f` after the command name hold for a
/// process, with pages of `page_kb` kilobytes: parent at place 1, user and
/// system time at 11 and 12, thread count at 17, virtual size in bytes at
/// 20 and resident pages at 21. There is nothing where a field is missing
/// or is no number, or where the resident size exceeds a `u64`.
pub open spec fn stat_numbers_of(f: Seq<Seq<char>>, page_kb: u64) -> Option<StatNumbers> {
    if f.len() >= 22 && parse_u32_spec(f[1]) is Some && parse_u64_spec(f[11]) is Some
        && parse_u64_spec(f[12]) is Some && parse_u32_spec(f[17]) is Some && parse_u64_spec(
        f[20],
    ) is Some && parse_u64_spec(f[21]) is Some && parse_u64_spec(f[21])->0 * page_kb
        <= u64::MAX {
        Some(
            StatNumbers {
                ppid: parse_u32_spec(f[1])->0,
                utime: parse_u64_spec(f[11])->0,
                stime: parse_u64_spec(f[12])->0,
                num_threads: parse_u32_spec(f[17])->0,
                vmsize_kb: parse_u64_spec(f[20])->0 / 1024,
                vmrss_kb: (parse_u64_spec(f[21])->0 * page_kb) as u64,
            },
        )
    } else {
        None
    }
}

/// Reads the numbers of a process from the fields after the command name.
pub fn stat_numbers(f: &Vec<String>, page_kb: u64) -> (r: Option<StatNumbers>)
    ensures
        r == stat_numbers_of(lines_view(f@), page_kb),
{
    if f.len() < 22 {
        return None;
    }
    let ghost g = lines_view(f@);
    assert(g[1] == f@[1]@ && g[11] == f@[11]@ && g[12] == f@[12]@ && g[17] == f@[17]@ && g[20]
        == f@[20]@ && g[21] == f@[21]@);
    let ppid = parse_u32(&chars_of(f[1].as_str()))?;
    let utime = parse_u64(&chars_of(f[11].as_str()))?;
    let stime = parse_u64(&chars_of(f[12].as_str()))?;
    let num_threads = parse_u32(&chars_of(f[17].as_str()))?;
    let vsize = parse_u64(&chars_of(f[20].as_str()))?;
    let pages = parse_u64(&chars_of(f[21].as_str()))?;
    assert(pages * page_kb <= u64::MAX * u64::MAX) by (nonlinear_arith)
        requires
            pages <= u64::MAX,
            page_kb <= u64::MAX,
    ;
    let rss: u128 = pages as u128 * page_kb as u128;
    if rss > u64::MAX as u128 {
        return None;
    }
    Some(
        StatNumbers {
            ppid,
            utime,
            stime,
            num_threads,
            vmsize_kb: vsize / 1024,
            vmrss_kb: rss as u64,
        },
    )
}

/// The label of the bytes read in a per-process `io` text.
pub open spec fn read_label() -> Seq<char> {
    seq!['r', 'e', 'a', 'd', '_', 'b', 'y', 't', 'e', 's', ':']
}

/// The label of the bytes written in a per-process `io` text.
pub open spec fn write_label() -> Seq<char> {
    seq!['w', 'r', 'i', 't', 'e', '_', 'b', 'y', 't', 'e', 's', ':']
}

/// The number that follows `label` on `line`, if the line begins with the
/// label; a value that is no number reads as zero.
pub open spec fn labelled(line: Seq<char>, label: Seq<char>) -> Option<u64> {
    if label.is_prefix_of(line) {
        match parse_u64_spec(trimmed(line.skip(label.len() as int))) {
            Some(n) => Some(n),
            None => Some(0),
        }
    } else {
        None
    }
}

/// The bytes read and written that the lines of an `io` text report: for
/// either, what its last line gives, or zero where no line gives it.
pub open spec fn io_counters_of(lines: Seq<Seq<char>>) -> (u64, u64)
    decreases lines.len(),
{
    if lines.len() == 0 {
        (0, 0)
    } else {
        let (r, w) = io_counters_of(lines.drop_last());
        (
            match labelled(lines.last(), read_label()) {
                Some(n) => n,
                None => r,
            },
            match labelled(lines.last(), write_label()) {
                Some(n) => n,
                None => w,
            },
        )
    }
}

/// Reads the number that follows a label, if the line begins with it.
fn read_labelled(line: &Vec<char>, label: &Vec<char>) -> (r: Option<u64>)
    ensures
        r == labelled(line@, label@),
{
    if !starts_with(line, label) {
        return None;
    }
    let rest = slice_of(line, label.len(), line.len());
    assert(rest@ =~= line@.skip(label@.len() as int));
    match parse_u64(&trim(&rest)) {
        Some(n) => Some(n),
        None => Some(0),
    }
}

/// Reads the bytes read and written from the lines of a per-process `io`
/// text.
pub fn io_counters(lines: &Vec<String>) -> (r: (u64, u64))
    ensures
        r == io_counters_of(lines_view(lines@)),
{
    let read: Vec<char> = chars_of("read_bytes:");
    let write: Vec<char> = chars_of("write_bytes:");
    proof {
        reveal_strlit("read_bytes:");
        reveal_strlit("write_bytes:");
        assert(read@ =~= read_label());
        assert(write@ =~= write_label());
    }
    let mut r: u64 = 0;
    let mut w: u64 = 0;
    let mut i: usize = 0;
    assert(lines_view(lines@).take(0) =~= Seq::<Seq<char>>::empty());
    while i < lines.len()
        invariant
            i <= lines.len(),
            read@ == read_label(),
            write@ == write_label(),
            (r, w) == io_counters_of(lines_view(lines@).take(i as int)),
        decreases lines.len() - i,
    {
        proof {
            let all = lines_view(lines@);
            assert(all.take(i + 1).drop_last() =~= all.take(i as int));
            assert(all.take(i + 1).last() == lines@[i as int]@);
        }
        let line = chars_of(lines[i].as_str());
        match read_labelled(&line, &read) {
            Some(n) => {
                r = n;
            },
            None => {},
        }
        match read_labelled(&line, &write) {
            Some(n) => {
                w = n;
            },
            None => {},
        }
        i += 1;
    }
    assert(lines_view(lines@).take(i as int) =~= lines_view(lines@));
    (r, w)
}

/// The fields of `f` that are not empty, in order.
pub open spec fn non_empty(f: Seq<Seq<char>>) -> Seq<Seq<char>>
    decreases f.len(),
{
    if f.len() == 0 {
        Seq::empty()
    } else if f.last().len() == 0 {
        non_empty(f.drop_last())
    } else {
        non_empty(f.drop_last()).push(f.last())
    }
}

/// The command line that a per-process `cmdline` text holds: its
/// arguments, which NUL characters end, joined by single spaces.
pub open spec fn cmdline_of(raw: Seq<char>) -> Seq<char> {
    join(non_empty(split(raw, '\0')), ' ')
}

/// Reads a per-process `cmdline` text into one line.
pub fn join_cmdline(raw: &str) -> (line: String)
    ensures
        line@ == cmdline_of(raw@),
{
    let parts = split_fields(&chars_of(raw), '\0');
    let mut kept: Vec<Vec<char>> = Vec::new();
    let mut i: usize = 0;
    proof {
        assert(views(parts@).take(0) =~= Seq::<Seq<char>>::empty());
        assert(views(kept@) =~= Seq::<Seq<char>>::empty());
    }
    while i < parts.len()
        invariant
            i <= parts.len(),
            views(kept@) == non_empty(views(parts@).take(i as int)),
        decreases parts.len() - i,
    {
        proof {
            let all = views(parts@);
            assert(all.take(i + 1).drop_last() =~= all.take(i as int));
            assert(all.take(i + 1).last() == parts@[i as int]@);
        }
        if parts[i].len() > 0 {
            let ghost before = views(kept@);
            kept.push(parts[i].clone());
            assert(views(kept@) =~= before.push(parts@[i as int]@));
        }
        i += 1;
    }
    assert(views(parts@).take(i as int) =~= views(parts@));
    string_of(&join_fields(&kept, ' '))
}

/// What the texts of one process hold: the `stat` line, the lines of the
/// `io` text, and the `cmdline` text, with pages of `page_kb` kilobytes.
/// There is nothing where the `stat` line cannot be read.
pub fn proc_info(stat_line: &str, io_lines: &Vec<String>, cmdline: &str, page_kb: u64) -> (r:
    Option<ProcInfo>)
    ensures
        match r {
            Some(p) => {
                &&& stat_line_of(stat_line@) matches Some((comm, f))
                &&& stat_numbers_of(f, page_kb) matches Some(n)
                &&& p.comm@ == comm
                &&& p.state@ == f[0]
                &&& p.ppid == n.ppid
                &&& p.utime == n.utime
                &&& p.stime == n.stime
                &&& p.num_threads == n.num_threads
                &&& p.vmrss_kb == n.vmrss_kb
                &&& p.vmsize_kb == n.vmsize_kb
                &&& (p.read_bytes, p.write_bytes) == io_counters_of(lines_view(io_lines@))
                &&& p.cmdline@ == cmdline_of(cmdline@)
            },
            None => stat_line_of(stat_line@) matches Some((comm, f)) ==> stat_numbers_of(
                f,
                page_kb,
            ) is None,
        },
{
    let (comm, fields) = parse_stat_line(stat_line)?;
    let n = stat_numbers(&fields, page_kb)?;
    let (read_bytes, write_bytes) = io_counters(io_lines);
    assert(lines_view(fields@)[0] == fields@[0]@);
    Some(
        ProcInfo {
            comm,
            state: fields[0].clone(),
            ppid: n.ppid,
            utime: n.utime,
            stime: n.stime,
            num_threads: n.num_threads,
            vmrss_kb: n.vmrss_kb,
            vmsize_kb: n.vmsize_kb,
            read_bytes,
            write_bytes,
            cmdline: join_cmdline(cmdline),
        },
    )
}

/// Whether the fields `f` after the command name hold what is recorded of
/// a thread: at least fourteen fields, with numbers at places 11 and 12.
pub open spec fn thread_fields_ok(f: Seq<Seq<char>>) -> bool {
    f.len() >= 14 && parse_u64_spec(f[11]) is Some && parse_u64_spec(f[12]) is Some
}

/// What the `stat` line of one thread holds.
pub fn thread_info(stat_line: &str) -> (r: Option<ThreadInfo>)
    ensures
        match r {
            Some(t) => {
                &&& stat_line_of(stat_line@) matches Some((comm, f))
                &&& thread_fields_ok(f)
                &&& t.comm@ == comm
                &&& t.state@ == f[0]
                &&& t.utime == parse_u64_spec(f[11])->0
                &&& t.stime == parse_u64_spec(f[12])->0
            },
            None => stat_line_of(stat_line@) matches Some((comm, f)) ==> !thread_fields_ok(f),
        },
{
    let (comm, fields) = parse_stat_line(stat_line)?;
    if fields.len() < 14 {
        return None;
    }
    let ghost g = lines_view(fields@);
    assert(g[0] == fields@[0]@ && g[11] == fields@[11]@ && g[12] == fields@[12]@);
    let utime = parse_u64(&chars_of(fields[11].as_str()))?;
    let stime = parse_u64(&chars_of(fields[12].as_str()))?;
    Some(ThreadInfo { comm, state: fields[0].clone(), utime, stime })
}

/// One row of a per-process capture: a process, or one of its threads.
#[derive(Debug, PartialEq, Eq)]
pub struct CsvRow {
    pub ts_epoch: u64,
    pub pid: u32,
    pub ppid: u32,
    pub tid: u32,
    pub comm: String,
    pub state: String,
    pub utime: u64,
    pub stime: u64,
    pub num_threads: Option<u32>,
    pub vmrss_kb: Option<u64>,
    pub vm_size_kb: Option<u64>,
    pub read_bytes: u64,
    pub write_bytes: u64,
    pub cmdline: String,
}

/// The row of a process: its thread id is its process id.
pub fn process_row(ts_epoch: u64, pid: u32, p: &ProcInfo) -> (row: CsvRow)
    ensures
        row.ts_epoch == ts_epoch && row.pid == pid && row.tid == pid && row.ppid == p.ppid,
        row.comm == p.comm && row.state == p.state && row.cmdline == p.cmdline,
        row.utime == p.utime && row.stime == p.stime,
        row.num_threads == Some(p.num_threads),
        row.vmrss_kb == Some(p.vmrss_kb) && row.vm_size_kb == Some(p.vmsize_kb),
        row.read_bytes == p.read_bytes && row.write_bytes == p.write_bytes,
{
    CsvRow {
        ts_epoch,
        pid,
        ppid: p.ppid,
        tid: pid,
        comm: p.comm.clone(),
        state: p.state.clone(),
        utime: p.utime,
        stime: p.stime,
        num_threads: Some(p.num_threads),
        vmrss_kb: Some(p.vmrss_kb),
        vm_size_kb: Some(p.vmsize_kb),
        read_bytes: p.read_bytes,
        write_bytes: p.write_bytes,
        cmdline: p.cmdline.clone(),
    }
}

/// The row of a thread of the process `p`: times, name and state are the
/// thread's own, parent and I/O counters are those of the process, and
/// memory sizes, thread count and command line are left out.
pub fn thread_row(ts_epoch: u64, pid: u32, p: &ProcInfo, tid: u32, t: ThreadInfo) -> (row:
    CsvRow)
    ensures
        row.ts_epoch == ts_epoch && row.pid == pid && row.tid == tid && row.ppid == p.ppid,
        row.comm == t.comm && row.state == t.state && row.cmdline@.len() == 0,
        row.utime == t.utime && row.stime == t.stime,
        row.num_threads is None && row.vmrss_kb is None && row.vm_size_kb is None,
        row.read_bytes == p.read_bytes && row.write_bytes == p.write_bytes,
{
    CsvRow {
        ts_epoch,
        pid,
        ppid: p.ppid,
        tid,
        comm: t.comm,
        state: t.state,
        utime: t.utime,
        stime: t.stime,
        num_threads: None,
        vmrss_kb: None,
        vm_size_kb: None,
        read_bytes: p.read_bytes,
        write_bytes: p.write_bytes,
        cmdline: String::new(),
    }
}

/// Whether a directory entry of the process tree names a thread other
/// than the process itself: the thread id that it names, if so.
pub fn other_thread(entry: &str, pid: u32) -> (r: Option<u32>)
    ensures
        r == match parse_u32_spec(entry@) {
            Some(tid) => if tid != pid {
                Some(tid)
            } else {
                None
            },
            None => None,
        },
{
    match parse_u32(&chars_of(entry)) {
        Some(tid) => if tid != pid {
            Some(tid)
        } else {
            None
        },
        None => None,
    }
}

/// What to do after one attempt to read an entity's data under a deadline.
#[derive(Clone, Copy, Debug, PartialEq, Eq, Structural)]
pub enum RetryStep {
    /// The attempt gave data: use it.
    Done,
    /// The attempt gave nothing and another one is allowed: try again; a
    /// warning is due where `warn` is set.
    Again { warn: bool },
    /// The attempt gave nothing and no other is allowed: skip the entity
    /// for this interval.
    Skip { warn: bool },
}

/// The step that follows attempt number `attempt`, counted from zero, of
/// `attempts` allowed, given whether it gave data in time. An attempt that
/// gives data ends the matter. One that does not is followed by another
/// as long as attempts are left, and by skipping the entity when none is;
/// the first failed attempt calls for a warning.
pub open spec fn retry_step_of(attempt: usize, attempts: usize, got: bool) -> RetryStep {
    if got {
        RetryStep::Done
    } else if attempt + 1 < attempts {
        RetryStep::Again { warn: attempt == 0 }
    } else {
        RetryStep::Skip { warn: attempt == 0 }
    }
}

/// Decides what follows one attempt to read an entity's data.
pub fn retry_step(attempt: usize, attempts: usize, got: bool) -> (s: RetryStep)
    ensures
        s == retry_step_of(attempt, attempts, got),
{
    if got {
        RetryStep::Done
    } else if attempt < attempts && attempt + 1 < attempts {
        RetryStep::Again { warn: attempt == 0 }
    } else {
        RetryStep::Skip { warn: attempt == 0 }
    }
}

} // verus!
