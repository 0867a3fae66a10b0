//! The persisted capture format: one comma-separated record per line, a
//! record type tag first, then the epoch timestamp, then the fields of the
//! domain in a fixed order, every number in plain decimal.

use vstd::prelude::*;
use crate::snapshot::{
    snapshot_view, CpuStat, DiskModel, DiskStat, MemStat, NetStat, RawSnapshot, Sample,
    SampleModel, SnapshotModel,
};
use crate::text::{
    chars_of, decimal_digits, format_u64, join, join_fields, lemma_decimal_roundtrip,
    lemma_digits_plain, lemma_split_join, parse_decimal, parse_u32, parse_u32_spec, parse_u64,
    parse_u64_spec, split, split_fields, split_tokens, string_of, tokens, views,
};

verus! {

/// The tag of a disk record.
pub open spec fn disk_tag() -> Seq<char> {
    seq!['D', 'I', 'S', 'K']
}

/// The tag of a CPU record.
pub open spec fn cpu_tag() -> Seq<char> {
    seq!['C', 'P', 'U']
}

/// The tag of a memory record.
pub open spec fn mem_tag() -> Seq<char> {
    seq!['M', 'E', 'M']
}

/// The tag of a network record.
pub open spec fn net_tag() -> Seq<char> {
    seq!['N', 'E', 'T']
}

/// Whether field `i` of `f` is there and reads as a `u64`.
pub open spec fn is_number(f: Seq<Seq<char>>, i: int) -> bool {
    0 <= i < f.len() && parse_u64_spec(f[i]) is Some
}

/// The number in field `i` of `f`.
pub open spec fn number(f: Seq<Seq<char>>, i: int) -> u64 {
    parse_u64_spec(f[i])->0
}

/// Whether the fields from `from` up to but not including `to` are all there
/// and all read as a `u64`.
pub open spec fn are_numbers(f: Seq<Seq<char>>, from: int, to: int) -> bool {
    to <= f.len() && forall|i: int| from <= i < to ==> is_number(f, i)
}

/// The number in field `i` of `f`, a field that is not there counting as zero.
pub open spec fn number_or_zero(f: Seq<Seq<char>>, i: int) -> u64 {
    if i < f.len() {
        number(f, i)
    } else {
        0
    }
}

/// Where the fields of a disk sample end: after the eighteenth field, or
/// with the last field of a shorter record.
pub open spec fn disk_field_end(f: Seq<Seq<char>>) -> int {
    if f.len() < 18 {
        f.len() as int
    } else {
        18
    }
}

/// The disk sample that the fields `f` hold: major, minor and name, then the
/// eleven counters that every kernel reports, then up to four discard
/// counters, which count as zero where they are missing. There is none
/// where a field is missing or does not read as a number.
pub open spec fn disk_of_fields(f: Seq<Seq<char>>) -> Option<DiskModel> {
    if f.len() >= 14 && parse_u32_spec(f[0]) is Some && parse_u32_spec(f[1]) is Some
        && are_numbers(f, 3, disk_field_end(f)) {
        Some(
            DiskModel {
                major: parse_u32_spec(f[0])->0,
                minor: parse_u32_spec(f[1])->0,
                name: f[2],
                reads: number(f, 3),
                reads_merged: number(f, 4),
                sectors_read: number(f, 5),
                read_time_ms: number(f, 6),
                writes: number(f, 7),
                writes_merged: number(f, 8),
                sectors_written: number(f, 9),
                write_time_ms: number(f, 10),
                io_in_progress: number(f, 11),
                io_time_ms: number(f, 12),
                weighted_io_time_ms: number(f, 13),
                discards: number_or_zero(f, 14),
                discards_merged: number_or_zero(f, 15),
                sectors_discarded: number_or_zero(f, 16),
                discard_time_ms: number_or_zero(f, 17),
            },
        )
    } else {
        None
    }
}

/// The network counters that the fields `f` hold, from field 0 on.
pub open spec fn net_of_fields(f: Seq<Seq<char>>) -> Option<NetStat> {
    if are_numbers(f, 0, 8) {
        Some(
            NetStat {
                rx_bytes: number(f, 0),
                tx_bytes: number(f, 1),
                rx_pkts: number(f, 2),
                tx_pkts: number(f, 3),
                rx_errs: number(f, 4),
                tx_errs: number(f, 5),
                rx_drop: number(f, 6),
                tx_drop: number(f, 7),
            },
        )
    } else {
        None
    }
}

/// The CPU sample that the fields `f` hold: eight to ten time counters,
/// then the counts of running and of blocked processes.
pub open spec fn cpu_of_fields(f: Seq<Seq<char>>) -> Option<CpuStat> {
    if 10 <= f.len() <= 12 && are_numbers(f, 0, f.len() as int) {
        Some(
            CpuStat {
                user: number(f, 0),
                nice: number(f, 1),
                system: number(f, 2),
                idle: number(f, 3),
                iowait: number(f, 4),
                irq: number(f, 5),
                softirq: number(f, 6),
                steal: number(f, 7),
                guest: if f.len() >= 11 {
                    Some(number(f, 8))
                } else {
                    None
                },
                guest_nice: if f.len() >= 12 {
                    Some(number(f, 9))
                } else {
                    None
                },
                procs_running: number(f, f.len() - 2),
                procs_blocked: number(f, f.len() - 1),
            },
        )
    } else {
        None
    }
}

/// The memory sample that the fields `f` hold: fourteen gauges.
pub open spec fn mem_of_fields(f: Seq<Seq<char>>) -> Option<MemStat> {
    if are_numbers(f, 0, 14) {
        Some(
            MemStat {
                mem_total: number(f, 0),
                mem_free: number(f, 1),
                mem_available: number(f, 2),
                buffers: number(f, 3),
                cached: number(f, 4),
                swap_total: number(f, 5),
                swap_free: number(f, 6),
                dirty: number(f, 7),
                writeback: number(f, 8),
                active_file: number(f, 9),
                inactive_file: number(f, 10),
                slab: number(f, 11),
                kreclaimable: number(f, 12),
                sreclaimable: number(f, 13),
            },
        )
    } else {
        None
    }
}

/// The sample that a record with tag `tag` and the fields `f` after its
/// timestamp holds.
pub open spec fn sample_of_fields(tag: Seq<char>, f: Seq<Seq<char>>) -> Option<SampleModel> {
    if tag == disk_tag() {
        match disk_of_fields(f) {
            Some(d) => Some(SampleModel::Disk(d)),
            None => None,
        }
    } else if tag == cpu_tag() {
        match cpu_of_fields(f) {
            Some(c) => Some(SampleModel::Cpu(c)),
            None => None,
        }
    } else if tag == mem_tag() {
        match mem_of_fields(f) {
            Some(m) => Some(SampleModel::Mem(m)),
            None => None,
        }
    } else if tag == net_tag() {
        if f.len() >= 1 {
            match net_of_fields(f.skip(1)) {
                Some(n) => Some(SampleModel::Net { iface: f[0], stat: n }),
                None => None,
            }
        } else {
            None
        }
    } else {
        None
    }
}

/// The snapshot that the line `s` records. There is none where the line is
/// a comment, has an unknown tag, lacks a field or holds one that does not
/// read as a number.
pub open spec fn snapshot_of_line(s: Seq<char>) -> Option<SnapshotModel> {
    let f = split(s, ',');
    if f.len() >= 2 && parse_u64_spec(f[1]) is Some {
        match sample_of_fields(f[0], f.skip(2)) {
            Some(sample) => Some(SnapshotModel { timestamp: parse_u64_spec(f[1])->0, sample }),
            None => None,
        }
    } else {
        None
    }
}

/// The mathematical value of an optional disk sample.
pub open spec fn disk_view(d: Option<DiskStat>) -> Option<DiskModel> {
    match d {
        Some(d) => Some(d@),
        None => None,
    }
}

/// The views of a run of string slices.
pub open spec fn strs_view(v: Seq<&str>) -> Seq<Seq<char>> {
    Seq::new(v.len(), |i: int| v[i]@)
}

/// Reads the numbers in the fields of `f` from `from` up to `to`.
fn read_numbers(f: &Vec<Vec<char>>, base: usize, from: usize, to: usize) -> (r: Option<Vec<u64>>)
    requires
        from <= to,
        base <= f.len(),
    ensures
        r is Some <==> are_numbers(views(f@).skip(base as int), from as int, to as int),
        r matches Some(v) ==> v@.len() == to - from && forall|i: int|
            from <= i < to ==> v@[i - from] == number(views(f@).skip(base as int), i),
{
    let ghost g = views(f@).skip(base as int);
    assert(g.len() == f.len() - base);
    if to > f.len() - base {
        return None;
    }
    let mut out: Vec<u64> = Vec::new();
    let mut i: usize = from;
    while i < to
        invariant
            from <= i <= to,
            base + to <= f.len(),
            g == views(f@).skip(base as int),
            out@.len() == i - from,
            forall|j: int| from <= j < i ==> is_number(g, j) && out@[j - from] == number(g, j),
        decreases to - i,
    {
        assert(g[i as int] == f@[base + i]@);
        match parse_u64(&f[base + i]) {
            Some(n) => {
                out.push(n);
            },
            None => {
                assert(!is_number(g, i as int));
                return None;
            },
        }
        i += 1;
    }
    Some(out)
}

/// Reads a disk sample from the fields of `f` that start at `base`.
pub fn disk_from(f: &Vec<Vec<char>>, base: usize) -> (r: Option<DiskStat>)
    requires
        base <= f.len(),
    ensures
        disk_view(r) == disk_of_fields(views(f@).skip(base as int)),
{
    let ghost g = views(f@).skip(base as int);
    let n: usize = f.len() - base;
    if n < 14 {
        return None;
    }
    assert(g[0] == f@[base as int]@);
    assert(g[1] == f@[base + 1]@);
    assert(g[2] == f@[base + 2]@);
    let major = parse_u32(&f[base])?;
    let minor = parse_u32(&f[base + 1])?;
    let end: usize = if n < 18 { n } else { 18 };
    let c = read_numbers(f, base, 3, end)?;
    let name = string_of(&f[base + 2]);
    Some(
        DiskStat {
            major,
            minor,
            name,
            reads: c[0],
            reads_merged: c[1],
            sectors_read: c[2],
            read_time_ms: c[3],
            writes: c[4],
            writes_merged: c[5],
            sectors_written: c[6],
            write_time_ms: c[7],
            io_in_progress: c[8],
            io_time_ms: c[9],
            weighted_io_time_ms: c[10],
            discards: if n > 14 { c[11] } else { 0 },
            discards_merged: if n > 15 { c[12] } else { 0 },
            sectors_discarded: if n > 16 { c[13] } else { 0 },
            discard_time_ms: if n > 17 { c[14] } else { 0 },
        },
    )
}

/// Reads network counters from the fields of `f` that start at `base`.
fn net_from(f: &Vec<Vec<char>>, base: usize) -> (r: Option<NetStat>)
    requires
        base <= f.len(),
    ensures
        r == net_of_fields(views(f@).skip(base as int)),
{
    let c = read_numbers(f, base, 0, 8)?;
    Some(
        NetStat {
            rx_bytes: c[0],
            tx_bytes: c[1],
            rx_pkts: c[2],
            tx_pkts: c[3],
            rx_errs: c[4],
            tx_errs: c[5],
            rx_drop: c[6],
            tx_drop: c[7],
        },
    )
}

/// Reads a CPU sample from the fields of `f` that start at `base`.
fn cpu_from(f: &Vec<Vec<char>>, base: usize) -> (r: Option<CpuStat>)
    requires
        base <= f.len(),
    ensures
        r == cpu_of_fields(views(f@).skip(base as int)),
        r matches Some(c) ==> c.wf(),
{
    let n: usize = f.len() - base;
    if n < 10 || n > 12 {
        return None;
    }
    let c = read_numbers(f, base, 0, n)?;
    Some(
        CpuStat {
            user: c[0],
            nice: c[1],
            system: c[2],
            idle: c[3],
            iowait: c[4],
            irq: c[5],
            softirq: c[6],
            steal: c[7],
            guest: if n >= 11 { Some(c[8]) } else { None },
            guest_nice: if n >= 12 { Some(c[9]) } else { None },
            procs_running: c[n - 2],
            procs_blocked: c[n - 1],
        },
    )
}

/// Reads a memory sample from the fields of `f` that start at `base`.
fn mem_from(f: &Vec<Vec<char>>, base: usize) -> (r: Option<MemStat>)
    requires
        base <= f.len(),
    ensures
        r == mem_of_fields(views(f@).skip(base as int)),
{
    let c = read_numbers(f, base, 0, 14)?;
    Some(
        MemStat {
            mem_total: c[0],
            mem_free: c[1],
            mem_available: c[2],
            buffers: c[3],
            cached: c[4],
            swap_total: c[5],
            swap_free: c[6],
            dirty: c[7],
            writeback: c[8],
            active_file: c[9],
            inactive_file: c[10],
            slab: c[11],
            kreclaimable: c[12],
            sreclaimable: c[13],
        },
    )
}

/// Whether `v` spells the three characters given.
fn is_tag3(v: &Vec<char>, a: char, b: char, c: char) -> (r: bool)
    ensures
        r == (v@ == seq![a, b, c]),
{
    if v.len() == 3 && v[0] == a && v[1] == b && v[2] == c {
        assert(v@ =~= seq![a, b, c]);
        true
    } else {
        assert(seq![a, b, c].len() == 3);
        assert(seq![a, b, c][0] == a && seq![a, b, c][1] == b && seq![a, b, c][2] == c);
        false
    }
}

/// Whether `v` spells the four characters given.
fn is_tag4(v: &Vec<char>, a: char, b: char, c: char, d: char) -> (r: bool)
    ensures
        r == (v@ == seq![a, b, c, d]),
{
    if v.len() == 4 && v[0] == a && v[1] == b && v[2] == c && v[3] == d {
        assert(v@ =~= seq![a, b, c, d]);
        true
    } else {
        assert(seq![a, b, c, d].len() == 4);
        assert(seq![a, b, c, d][0] == a && seq![a, b, c, d][1] == b && seq![a, b, c, d][2] == c
            && seq![a, b, c, d][3] == d);
        false
    }
}

impl DiskStat {
    /// Reads one line of the kernel's disk statistics: whitespace-separated
    /// fields, major, minor and name first.
    pub fn from_line(line: &str) -> (r: Option<DiskStat>)
        ensures
            disk_view(r) == disk_of_fields(tokens(line@)),
    {
        let chars = chars_of(line);
        let cols = split_tokens(&chars);
        assert(views(cols@).skip(0) =~= views(cols@));
        disk_from(&cols, 0)
    }

    /// Reads a disk sample from the fields of a capture record that follow
    /// its timestamp.
    pub fn from_csv_fields(fields: &[&str]) -> (r: Option<DiskStat>)
        ensures
            disk_view(r) == disk_of_fields(strs_view(fields@)),
    {
        let mut cols: Vec<Vec<char>> = Vec::new();
        let mut i: usize = 0;
        while i < fields.len()
            invariant
                i <= fields.len(),
                views(cols@) == strs_view(fields@).take(i as int),
            decreases fields.len() - i,
        {
            let ghost before = views(cols@);
            let field = chars_of(fields[i]);
            cols.push(field);
            assert(views(cols@) =~= before.push(fields@[i as int]@));
            assert(strs_view(fields@).take(i + 1) =~= strs_view(fields@).take(i as int).push(
                fields@[i as int]@,
            ));
            i += 1;
        }
        assert(strs_view(fields@).take(i as int) =~= strs_view(fields@));
        assert(views(cols@).skip(0) =~= views(cols@));
        disk_from(&cols, 0)
    }
}

/// Reads one line of a capture file.
///
/// A snapshot is handed back exactly when the line is a well-formed record
/// of one of the four domains. Comment lines, lines with another tag, lines
/// that lack a field and lines with a field that is not a decimal number
/// yield nothing.
pub fn parse_record(line: &str) -> (r: Option<RawSnapshot>)
    ensures
        snapshot_view(r) == snapshot_of_line(line@),
{
    let chars = chars_of(line);
    let f = split_fields(&chars, ',');
    if f.len() < 2 {
        return None;
    }
    let ghost rest = views(f@).skip(2);
    let timestamp = parse_u64(&f[1])?;
    assert(views(f@)[0] == f@[0]@);
    if is_tag4(&f[0], 'D', 'I', 'S', 'K') {
        let d = disk_from(&f, 2)?;
        Some(RawSnapshot { timestamp, sample: Sample::Disk(d) })
    } else if is_tag3(&f[0], 'C', 'P', 'U') {
        let c = cpu_from(&f, 2)?;
        Some(RawSnapshot { timestamp, sample: Sample::Cpu(c) })
    } else if is_tag3(&f[0], 'M', 'E', 'M') {
        let m = mem_from(&f, 2)?;
        Some(RawSnapshot { timestamp, sample: Sample::Mem(m) })
    } else if is_tag3(&f[0], 'N', 'E', 'T') {
        if f.len() < 3 {
            assert(rest.len() == 0);
            return None;
        }
        assert(rest[0] == f@[2]@);
        assert(rest.skip(1) =~= views(f@).skip(3));
        let stat = net_from(&f, 3)?;
        let iface = string_of(&f[2]);
        Some(RawSnapshot { timestamp, sample: Sample::Net { iface, stat } })
    } else {
        None
    }
}

/// The decimal writing of a counter.
pub open spec fn num(n: u64) -> Seq<char> {
    decimal_digits(n as nat)
}

/// The fields of a disk sample: major, minor, name and fifteen counters.
#[verifier::opaque]
pub open spec fn disk_fields(d: DiskModel) -> Seq<Seq<char>> {
    seq![
        num(d.major as u64),
        num(d.minor as u64),
        d.name,
        num(d.reads),
        num(d.reads_merged),
        num(d.sectors_read),
        num(d.read_time_ms),
        num(d.writes),
        num(d.writes_merged),
        num(d.sectors_written),
        num(d.write_time_ms),
        num(d.io_in_progress),
        num(d.io_time_ms),
        num(d.weighted_io_time_ms),
        num(d.discards),
        num(d.discards_merged),
        num(d.sectors_discarded),
        num(d.discard_time_ms),
    ]
}

/// The fields of a network sample: the interface, then eight counters.
#[verifier::opaque]
pub open spec fn net_fields(iface: Seq<char>, n: NetStat) -> Seq<Seq<char>> {
    seq![
        iface,
        num(n.rx_bytes),
        num(n.tx_bytes),
        num(n.rx_pkts),
        num(n.tx_pkts),
        num(n.rx_errs),
        num(n.tx_errs),
        num(n.rx_drop),
        num(n.tx_drop),
    ]
}

/// The fields of an optional counter: none where it is absent.
pub open spec fn optional_field(c: Option<u64>) -> Seq<Seq<char>> {
    match c {
        Some(v) => seq![num(v)],
        None => Seq::empty(),
    }
}

/// The fields of a CPU sample: the time counters that it holds, then the
/// counts of running and of blocked processes.
#[verifier::opaque]
pub open spec fn cpu_fields(c: CpuStat) -> Seq<Seq<char>> {
    seq![
        num(c.user),
        num(c.nice),
        num(c.system),
        num(c.idle),
        num(c.iowait),
        num(c.irq),
        num(c.softirq),
        num(c.steal),
    ] + optional_field(c.guest) + optional_field(c.guest_nice) + seq![
        num(c.procs_running),
        num(c.procs_blocked),
    ]
}

/// The fields of a memory sample: fourteen gauges.
#[verifier::opaque]
pub open spec fn mem_fields(m: MemStat) -> Seq<Seq<char>> {
    seq![
        num(m.mem_total),
        num(m.mem_free),
        num(m.mem_available),
        num(m.buffers),
        num(m.cached),
        num(m.swap_total),
        num(m.swap_free),
        num(m.dirty),
        num(m.writeback),
        num(m.active_file),
        num(m.inactive_file),
        num(m.slab),
        num(m.kreclaimable),
        num(m.sreclaimable),
    ]
}

/// The tag of the record of a sample.
pub open spec fn tag_of(s: SampleModel) -> Seq<char> {
    match s {
        SampleModel::Disk(d) => disk_tag(),
        SampleModel::Net { iface, stat } => net_tag(),
        SampleModel::Cpu(c) => cpu_tag(),
        SampleModel::Mem(m) => mem_tag(),
    }
}

/// The fields of the record of a sample that follow the timestamp.
pub open spec fn sample_fields(s: SampleModel) -> Seq<Seq<char>> {
    match s {
        SampleModel::Disk(d) => disk_fields(d),
        SampleModel::Net { iface, stat } => net_fields(iface, stat),
        SampleModel::Cpu(c) => cpu_fields(c),
        SampleModel::Mem(m) => mem_fields(m),
    }
}

/// All the fields of the record of a snapshot.
pub open spec fn record_fields(s: SnapshotModel) -> Seq<Seq<char>> {
    seq![tag_of(s.sample), num(s.timestamp)] + sample_fields(s.sample)
}

/// The line that records a snapshot.
pub open spec fn line_of(s: SnapshotModel) -> Seq<char> {
    join(record_fields(s), ',')
}

/// Whether a snapshot can be written so as to be read back: a device or
/// interface name must not hold a comma, and a CPU sample must be well formed.
pub open spec fn storable(s: SnapshotModel) -> bool {
    match s.sample {
        SampleModel::Disk(d) => !d.name.contains(','),
        SampleModel::Net { iface, stat } => !iface.contains(','),
        SampleModel::Cpu(c) => c.wf(),
        SampleModel::Mem(m) => true,
    }
}

/// Whether a snapshot can be written so as to be read back.
pub fn is_storable(s: &RawSnapshot) -> (b: bool)
    ensures
        b == storable(s@),
{
    match &s.sample {
        Sample::Disk(d) => !has_comma(&d.name),
        Sample::Net { iface, stat } => !has_comma(iface),
        Sample::Cpu(c) => !(c.guest_nice.is_some() && c.guest.is_none()),
        Sample::Mem(_) => true,
    }
}

/// Whether a name holds a comma.
fn has_comma(name: &String) -> (b: bool)
    ensures
        b == name@.contains(','),
{
    let chars = chars_of(name.as_str());
    let mut i: usize = 0;
    while i < chars.len()
        invariant
            i <= chars.len(),
            chars@ == name@,
            forall|j: int| 0 <= j < i ==> chars@[j] != ',',
        decreases chars.len() - i,
    {
        if chars[i] == ',' {
            assert(name@[i as int] == ',');
            return true;
        }
        i += 1;
    }
    false
}

/// Appends the decimal writing of `n` as one more field.
fn push_number(fields: &mut Vec<Vec<char>>, n: u64)
    ensures
        views(final(fields)@) == views(old(fields)@).push(num(n)),
{
    fields.push(format_u64(n));
    assert(views(fields@) =~= views(old(fields)@).push(num(n)));
}

/// Appends a tag or a name as one more field.
fn push_text(fields: &mut Vec<Vec<char>>, text: &str)
    ensures
        views(final(fields)@) == views(old(fields)@).push(text@),
{
    fields.push(chars_of(text));
    assert(views(fields@) =~= views(old(fields)@).push(text@));
}

/// Writes the line that records a snapshot, without a line break.
pub fn format_record(s: &RawSnapshot) -> (line: String)
    ensures
        line@ == line_of(s@),
{
    let mut f: Vec<Vec<char>> = Vec::new();
    assert(views(f@) =~= Seq::<Seq<char>>::empty());
    match &s.sample {
        Sample::Disk(d) => {
            proof {
                reveal_strlit("DISK");
            }
            push_text(&mut f, "DISK");
            assert(views(f@) =~= seq![disk_tag()]) by {
                assert("DISK"@ =~= disk_tag());
            }
            push_number(&mut f, s.timestamp);
            push_number(&mut f, d.major as u64);
            push_number(&mut f, d.minor as u64);
            push_text(&mut f, d.name.as_str());
            push_number(&mut f, d.reads);
            push_number(&mut f, d.reads_merged);
            push_number(&mut f, d.sectors_read);
            push_number(&mut f, d.read_time_ms);
            push_number(&mut f, d.writes);
            push_number(&mut f, d.writes_merged);
            push_number(&mut f, d.sectors_written);
            push_number(&mut f, d.write_time_ms);
            push_number(&mut f, d.io_in_progress);
            push_number(&mut f, d.io_time_ms);
            push_number(&mut f, d.weighted_io_time_ms);
            push_number(&mut f, d.discards);
            push_number(&mut f, d.discards_merged);
            push_number(&mut f, d.sectors_discarded);
            push_number(&mut f, d.discard_time_ms);
            assert(views(f@) =~= record_fields(s@)) by {
                reveal(disk_fields);
            }
        },
        Sample::Net { iface, stat } => {
            proof {
                reveal_strlit("NET");
            }
            push_text(&mut f, "NET");
            assert(views(f@) =~= seq![net_tag()]) by {
                assert("NET"@ =~= net_tag());
            }
            push_number(&mut f, s.timestamp);
            push_text(&mut f, iface.as_str());
            push_number(&mut f, stat.rx_bytes);
            push_number(&mut f, stat.tx_bytes);
            push_number(&mut f, stat.rx_pkts);
            push_number(&mut f, stat.tx_pkts);
            push_number(&mut f, stat.rx_errs);
            push_number(&mut f, stat.tx_errs);
            push_number(&mut f, stat.rx_drop);
            push_number(&mut f, stat.tx_drop);
            assert(views(f@) =~= record_fields(s@)) by {
                reveal(net_fields);
            }
        },
        Sample::Cpu(c) => {
            proof {
                reveal_strlit("CPU");
            }
            push_text(&mut f, "CPU");
            assert(views(f@) =~= seq![cpu_tag()]) by {
                assert("CPU"@ =~= cpu_tag());
            }
            push_number(&mut f, s.timestamp);
            push_number(&mut f, c.user);
            push_number(&mut f, c.nice);
            push_number(&mut f, c.system);
            push_number(&mut f, c.idle);
            push_number(&mut f, c.iowait);
            push_number(&mut f, c.irq);
            push_number(&mut f, c.softirq);
            push_number(&mut f, c.steal);
            let ghost head = views(f@);
            assert(head =~= seq![cpu_tag(), num(s.timestamp)] + seq![
                num(c.user),
                num(c.nice),
                num(c.system),
                num(c.idle),
                num(c.iowait),
                num(c.irq),
                num(c.softirq),
                num(c.steal),
            ]);
            match c.guest {
                Some(g) => {
                    push_number(&mut f, g);
                },
                None => {},
            }
            assert(views(f@) =~= head + optional_field(c.guest));
            match c.guest_nice {
                Some(g) => {
                    push_number(&mut f, g);
                },
                None => {},
            }
            assert(views(f@) =~= head + optional_field(c.guest) + optional_field(c.guest_nice));
            push_number(&mut f, c.procs_running);
            push_number(&mut f, c.procs_blocked);
            assert(views(f@) =~= record_fields(s@)) by {
                reveal(cpu_fields);
            }
        },
        Sample::Mem(m) => {
            proof {
                reveal_strlit("MEM");
            }
            push_text(&mut f, "MEM");
            assert(views(f@) =~= seq![mem_tag()]) by {
                assert("MEM"@ =~= mem_tag());
            }
            push_number(&mut f, s.timestamp);
            push_number(&mut f, m.mem_total);
            push_number(&mut f, m.mem_free);
            push_number(&mut f, m.mem_available);
            push_number(&mut f, m.buffers);
            push_number(&mut f, m.cached);
            push_number(&mut f, m.swap_total);
            push_number(&mut f, m.swap_free);
            push_number(&mut f, m.dirty);
            push_number(&mut f, m.writeback);
            push_number(&mut f, m.active_file);
            push_number(&mut f, m.inactive_file);
            push_number(&mut f, m.slab);
            push_number(&mut f, m.kreclaimable);
            push_number(&mut f, m.sreclaimable);
            assert(views(f@) =~= record_fields(s@)) by {
                reveal(mem_fields);
            }
        },
    }
    let chars = join_fields(&f, ',');
    string_of(&chars)
}

/// A counter that was written in decimal reads back as itself, and its
/// writing holds no comma.
pub proof fn lemma_number_field(n: u64)
    ensures
        parse_u64_spec(num(n)) == Some(n),
        !num(n).contains(','),
{
    lemma_decimal_roundtrip(n as nat);
    lemma_digits_plain(num(n));
    assert(parse_decimal(decimal_digits(n as nat), u64::MAX as nat) == Some(n as nat));
}

/// A major or minor number that was written in decimal reads back as itself.
pub proof fn lemma_small_number_field(n: u32)
    ensures
        parse_u32_spec(num(n as u64)) == Some(n),
        !num(n as u64).contains(','),
{
    lemma_decimal_roundtrip(n as nat);
    lemma_digits_plain(num(n as u64));
    assert(parse_decimal(decimal_digits(n as nat), u32::MAX as nat) == Some(n as nat));
}

/// What stands at each place of the fields of a disk sample.
proof fn lemma_disk_fields_at(d: DiskModel)
    ensures
        disk_fields(d).len() == 18,
        disk_fields(d)[0] == num(d.major as u64),
        disk_fields(d)[1] == num(d.minor as u64),
        disk_fields(d)[2] == d.name,
        disk_fields(d)[3] == num(d.reads),
        disk_fields(d)[4] == num(d.reads_merged),
        disk_fields(d)[5] == num(d.sectors_read),
        disk_fields(d)[6] == num(d.read_time_ms),
        disk_fields(d)[7] == num(d.writes),
        disk_fields(d)[8] == num(d.writes_merged),
        disk_fields(d)[9] == num(d.sectors_written),
        disk_fields(d)[10] == num(d.write_time_ms),
        disk_fields(d)[11] == num(d.io_in_progress),
        disk_fields(d)[12] == num(d.io_time_ms),
        disk_fields(d)[13] == num(d.weighted_io_time_ms),
        disk_fields(d)[14] == num(d.discards),
        disk_fields(d)[15] == num(d.discards_merged),
        disk_fields(d)[16] == num(d.sectors_discarded),
        disk_fields(d)[17] == num(d.discard_time_ms),
{
    reveal(disk_fields);
}

/// A field that holds the decimal writing of `n` reads as `n` and holds
/// no comma.
proof fn lemma_field_reads(f: Seq<Seq<char>>, i: int, n: u64)
    requires
        0 <= i < f.len(),
        f[i] == num(n),
    ensures
        is_number(f, i),
        number(f, i) == n,
        !f[i].contains(','),
{
    lemma_number_field(n);
}

/// The fields of a disk sample read back as the sample.
proof fn lemma_disk_fields(d: DiskModel)
    ensures
        disk_fields(d).len() == 18,
        disk_of_fields(disk_fields(d)) == Some(d),
        forall|i: int| 0 <= i < 18 && i != 2 ==> !(#[trigger] disk_fields(d)[i]).contains(','),
{
    let f = disk_fields(d);
    lemma_disk_fields_at(d);
    lemma_small_number_field(d.major);
    lemma_small_number_field(d.minor);
    lemma_field_reads(f, 3, d.reads);
    lemma_field_reads(f, 4, d.reads_merged);
    lemma_field_reads(f, 5, d.sectors_read);
    lemma_field_reads(f, 6, d.read_time_ms);
    lemma_field_reads(f, 7, d.writes);
    lemma_field_reads(f, 8, d.writes_merged);
    lemma_field_reads(f, 9, d.sectors_written);
    lemma_field_reads(f, 10, d.write_time_ms);
    lemma_field_reads(f, 11, d.io_in_progress);
    lemma_field_reads(f, 12, d.io_time_ms);
    lemma_field_reads(f, 13, d.weighted_io_time_ms);
    lemma_field_reads(f, 14, d.discards);
    lemma_field_reads(f, 15, d.discards_merged);
    lemma_field_reads(f, 16, d.sectors_discarded);
    lemma_field_reads(f, 17, d.discard_time_ms);
    assert(are_numbers(f, 3, 18));
    assert(disk_field_end(f) == 18);
}

/// The fields of network counters read back as the counters.
proof fn lemma_net_fields(iface: Seq<char>, n: NetStat)
    ensures
        net_fields(iface, n).len() == 9,
        net_fields(iface, n)[0] == iface,
        net_of_fields(net_fields(iface, n).skip(1)) == Some(n),
        forall|i: int| 1 <= i < 9 ==> !(#[trigger] net_fields(iface, n)[i]).contains(','),
{
    let f = net_fields(iface, n).skip(1);
    assert(f.len() == 8 && f[0] == num(n.rx_bytes) && f[1] == num(n.tx_bytes) && f[2] == num(
        n.rx_pkts,
    ) && f[3] == num(n.tx_pkts) && f[4] == num(n.rx_errs) && f[5] == num(n.tx_errs) && f[6]
        == num(n.rx_drop) && f[7] == num(n.tx_drop)) by {
        reveal(net_fields);
    }
    assert(net_fields(iface, n).len() == 9 && net_fields(iface, n)[0] == iface) by {
        reveal(net_fields);
    }
    lemma_field_reads(f, 0, n.rx_bytes);
    lemma_field_reads(f, 1, n.tx_bytes);
    lemma_field_reads(f, 2, n.rx_pkts);
    lemma_field_reads(f, 3, n.tx_pkts);
    lemma_field_reads(f, 4, n.rx_errs);
    lemma_field_reads(f, 5, n.tx_errs);
    lemma_field_reads(f, 6, n.rx_drop);
    lemma_field_reads(f, 7, n.tx_drop);
    assert(are_numbers(f, 0, 8));
    assert forall|i: int| 1 <= i < 9 implies !(#[trigger] net_fields(iface, n)[i]).contains(
        ',',
    ) by {
        assert(net_fields(iface, n)[i] == f[i - 1]);
    }
}

/// What stands at each place of the fields of a CPU sample.
proof fn lemma_cpu_fields_at(c: CpuStat)
    requires
        c.wf(),
    ensures
        cpu_fields(c).len() == 10 + (if c.guest is Some {
            1int
        } else {
            0
        }) + (if c.guest_nice is Some {
            1int
        } else {
            0
        }),
        cpu_fields(c)[0] == num(c.user),
        cpu_fields(c)[1] == num(c.nice),
        cpu_fields(c)[2] == num(c.system),
        cpu_fields(c)[3] == num(c.idle),
        cpu_fields(c)[4] == num(c.iowait),
        cpu_fields(c)[5] == num(c.irq),
        cpu_fields(c)[6] == num(c.softirq),
        cpu_fields(c)[7] == num(c.steal),
        c.guest matches Some(g) ==> cpu_fields(c)[8] == num(g),
        c.guest_nice matches Some(g) ==> cpu_fields(c)[9] == num(g),
        cpu_fields(c)[cpu_fields(c).len() - 2] == num(c.procs_running),
        cpu_fields(c)[cpu_fields(c).len() - 1] == num(c.procs_blocked),
{
    reveal(cpu_fields);
}

/// The fields of a well-formed CPU sample read back as the sample.
proof fn lemma_cpu_fields(c: CpuStat)
    requires
        c.wf(),
    ensures
        cpu_of_fields(cpu_fields(c)) == Some(c),
        forall|i: int|
            0 <= i < cpu_fields(c).len() ==> !(#[trigger] cpu_fields(c)[i]).contains(','),
{
    let f = cpu_fields(c);
    let n = f.len() as int;
    lemma_cpu_fields_at(c);
    lemma_field_reads(f, 0, c.user);
    lemma_field_reads(f, 1, c.nice);
    lemma_field_reads(f, 2, c.system);
    lemma_field_reads(f, 3, c.idle);
    lemma_field_reads(f, 4, c.iowait);
    lemma_field_reads(f, 5, c.irq);
    lemma_field_reads(f, 6, c.softirq);
    lemma_field_reads(f, 7, c.steal);
    match c.guest {
        Some(g) => {
            lemma_field_reads(f, 8, g);
        },
        None => {},
    }
    match c.guest_nice {
        Some(g) => {
            lemma_field_reads(f, 9, g);
        },
        None => {},
    }
    lemma_field_reads(f, n - 2, c.procs_running);
    lemma_field_reads(f, n - 1, c.procs_blocked);
    assert(are_numbers(f, 0, n));
}

/// The fields of a memory sample read back as the sample.
proof fn lemma_mem_fields(m: MemStat)
    ensures
        mem_fields(m).len() == 14,
        mem_of_fields(mem_fields(m)) == Some(m),
        forall|i: int| 0 <= i < 14 ==> !(#[trigger] mem_fields(m)[i]).contains(','),
{
    let f = mem_fields(m);
    assert(f.len() == 14 && f[0] == num(m.mem_total) && f[1] == num(m.mem_free) && f[2] == num(
        m.mem_available,
    ) && f[3] == num(m.buffers) && f[4] == num(m.cached) && f[5] == num(m.swap_total) && f[6]
        == num(m.swap_free) && f[7] == num(m.dirty) && f[8] == num(m.writeback) && f[9] == num(
        m.active_file,
    ) && f[10] == num(m.inactive_file) && f[11] == num(m.slab) && f[12] == num(m.kreclaimable)
        && f[13] == num(m.sreclaimable)) by {
        reveal(mem_fields);
    }
    lemma_field_reads(f, 0, m.mem_total);
    lemma_field_reads(f, 1, m.mem_free);
    lemma_field_reads(f, 2, m.mem_available);
    lemma_field_reads(f, 3, m.buffers);
    lemma_field_reads(f, 4, m.cached);
    lemma_field_reads(f, 5, m.swap_total);
    lemma_field_reads(f, 6, m.swap_free);
    lemma_field_reads(f, 7, m.dirty);
    lemma_field_reads(f, 8, m.writeback);
    lemma_field_reads(f, 9, m.active_file);
    lemma_field_reads(f, 10, m.inactive_file);
    lemma_field_reads(f, 11, m.slab);
    lemma_field_reads(f, 12, m.kreclaimable);
    lemma_field_reads(f, 13, m.sreclaimable);
    assert(are_numbers(f, 0, 14));
}

/// No tag holds a comma, and the four tags differ from one another.
proof fn lemma_tags()
    ensures
        !disk_tag().contains(','),
        !cpu_tag().contains(','),
        !mem_tag().contains(','),
        !net_tag().contains(','),
        disk_tag() != cpu_tag() && disk_tag() != mem_tag() && disk_tag() != net_tag(),
        cpu_tag() != mem_tag() && cpu_tag() != net_tag() && mem_tag() != net_tag(),
{
    assert(disk_tag().len() == 4 && cpu_tag().len() == 3);
    assert(cpu_tag()[0] == 'C' && mem_tag()[0] == 'M' && net_tag()[0] == 'N');
}

/// The fields of a storable sample read back as the sample, and none of
/// them holds a comma.
proof fn lemma_sample_roundtrip(s: SnapshotModel)
    requires
        storable(s),
    ensures
        sample_of_fields(tag_of(s.sample), sample_fields(s.sample)) == Some(s.sample),
        !tag_of(s.sample).contains(','),
        forall|i: int|
            0 <= i < sample_fields(s.sample).len() ==> !(#[trigger] sample_fields(
                s.sample,
            )[i]).contains(','),
{
    lemma_tags();
    match s.sample {
        SampleModel::Disk(d) => {
            lemma_disk_fields(d);
            lemma_disk_fields_at(d);
        },
        SampleModel::Net { iface, stat } => {
            lemma_net_fields(iface, stat);
        },
        SampleModel::Cpu(c) => {
            lemma_cpu_fields(c);
        },
        SampleModel::Mem(m) => {
            lemma_mem_fields(m);
        },
    }
}

/// Writing and reading back: the line that records a storable snapshot
/// reads as that very snapshot, every counter digit for digit.
pub proof fn lemma_record_roundtrip(s: SnapshotModel)
    requires
        storable(s),
    ensures
        snapshot_of_line(line_of(s)) == Some(s),
{
    let all = record_fields(s);
    let rest = sample_fields(s.sample);
    lemma_sample_roundtrip(s);
    lemma_number_field(s.timestamp);
    assert(all.len() == 2 + rest.len());
    assert(all[0] == tag_of(s.sample));
    assert(all[1] == num(s.timestamp));
    assert(all.skip(2) =~= rest);
    assert forall|i: int| 0 <= i < all.len() implies !(#[trigger] all[i]).contains(',') by {
        if i >= 2 {
            assert(all[i] == rest[i - 2]);
        }
    }
    lemma_split_join(all, ',');
}

} // verus!
