//! Whole capture files: a comment line at the head, then one record per
//! line.

use vstd::prelude::*;
use crate::record::{
    cpu_tag, disk_tag, format_record, lemma_record_roundtrip, line_of, mem_tag, net_tag,
    parse_record, sample_of_fields, snapshot_of_line, storable,
};
use crate::snapshot::{snapshots_view, RawSnapshot, SnapshotModel};
use crate::text::{lemma_split_first, lines_view, split};

verus! {

/// The comment line at the head of a capture file.
pub const CAPTURE_HEADER: &'static str = "#TYPE,ts_epoch,<fields...>";

/// The lines of the capture file that holds the snapshots, in order.
pub open spec fn capture_of(snaps: Seq<SnapshotModel>) -> Seq<Seq<char>> {
    seq![CAPTURE_HEADER@] + Seq::new(snaps.len(), |i: int| line_of(snaps[i]))
}

/// The snapshots that the lines of a capture file record, in order.
pub open spec fn snapshots_of(lines: Seq<Seq<char>>) -> Seq<SnapshotModel>
    decreases lines.len(),
{
    if lines.len() == 0 {
        Seq::empty()
    } else {
        match snapshot_of_line(lines.last()) {
            Some(s) => snapshots_of(lines.drop_last()).push(s),
            None => snapshots_of(lines.drop_last()),
        }
    }
}

/// A comment line, which begins with `#`, records nothing.
pub proof fn lemma_comment_records_nothing(s: Seq<char>)
    requires
        s.len() > 0,
        s[0] == '#',
    ensures
        snapshot_of_line(s) is None,
{
    lemma_split_first(s, ',');
    let tag = split(s, ',')[0];
    assert(tag[0] == '#');
    assert(disk_tag()[0] == 'D' && cpu_tag()[0] == 'C' && mem_tag()[0] == 'M' && net_tag()[0]
        == 'N');
    assert(sample_of_fields(tag, split(s, ',').skip(2)) is None);
}

/// The comment line at the head of a capture file records nothing.
pub proof fn lemma_header_records_nothing()
    ensures
        snapshot_of_line(CAPTURE_HEADER@) is None,
{
    assert(CAPTURE_HEADER@.len() > 0 && CAPTURE_HEADER@[0] == '#') by {
        reveal_strlit("#TYPE,ts_epoch,<fields...>");
    }
    lemma_comment_records_nothing(CAPTURE_HEADER@);
}

/// One more line at the end of a file adds the snapshot that it records.
proof fn lemma_snapshots_push(lines: Seq<Seq<char>>, line: Seq<char>)
    ensures
        snapshots_of(lines.push(line)) == match snapshot_of_line(line) {
            Some(s) => snapshots_of(lines).push(s),
            None => snapshots_of(lines),
        },
{
    assert(lines.push(line).drop_last() =~= lines);
    assert(lines.push(line).last() == line);
}

/// Writing and reading back a whole file: the capture file that holds
/// storable snapshots records exactly these snapshots, in order.
pub proof fn lemma_capture_roundtrip(snaps: Seq<SnapshotModel>)
    requires
        forall|i: int| 0 <= i < snaps.len() ==> storable(#[trigger] snaps[i]),
    ensures
        snapshots_of(capture_of(snaps)) == snaps,
    decreases snaps.len(),
{
    let empty = Seq::<Seq<char>>::empty();
    if snaps.len() == 0 {
        lemma_header_records_nothing();
        lemma_snapshots_push(empty, CAPTURE_HEADER@);
        assert(capture_of(snaps) =~= empty.push(CAPTURE_HEADER@));
        assert(snapshots_of(empty) =~= snaps);
    } else {
        let head = snaps.drop_last();
        assert forall|i: int| 0 <= i < head.len() implies storable(#[trigger] head[i]) by {
            assert(head[i] == snaps[i]);
        }
        lemma_capture_roundtrip(head);
        lemma_record_roundtrip(snaps.last());
        lemma_snapshots_push(capture_of(head), line_of(snaps.last()));
        assert(capture_of(snaps) =~= capture_of(head).push(line_of(snaps.last())));
        assert(head.push(snaps.last()) =~= snaps);
    }
}

/// Writes the lines of the capture file that holds the snapshots.
pub fn write_capture(snaps: &Vec<RawSnapshot>) -> (lines: Vec<String>)
    ensures
        lines_view(lines@) == capture_of(snapshots_view(snaps@)),
{
    let ghost all = Seq::new(snaps@.len(), |i: int| line_of(snaps@[i]@));
    let mut lines: Vec<String> = Vec::new();
    lines.push(CAPTURE_HEADER.to_owned());
    let mut i: usize = 0;
    assert(lines_view(lines@) =~= seq![CAPTURE_HEADER@] + all.take(0));
    while i < snaps.len()
        invariant
            i <= snaps.len(),
            all == Seq::new(snaps@.len(), |i: int| line_of(snaps@[i]@)),
            lines_view(lines@) == seq![CAPTURE_HEADER@] + all.take(i as int),
        decreases snaps.len() - i,
    {
        let ghost before = lines_view(lines@);
        lines.push(format_record(&snaps[i]));
        assert(lines_view(lines@) =~= before.push(all[i as int]));
        assert(seq![CAPTURE_HEADER@] + all.take(i + 1) =~= before.push(all[i as int]));
        i += 1;
    }
    assert(all.take(i as int) =~= all);
    assert(all =~= Seq::new(
        snapshots_view(snaps@).len(),
        |i: int| line_of(snapshots_view(snaps@)[i]),
    ));
    lines
}

/// Reads the snapshots that the lines of a capture file record. Comment
/// lines and lines that are no well-formed record are passed over.
pub fn read_capture(lines: &Vec<String>) -> (snaps: Vec<RawSnapshot>)
    ensures
        snapshots_view(snaps@) == snapshots_of(lines_view(lines@)),
{
    let mut snaps: Vec<RawSnapshot> = Vec::new();
    let mut i: usize = 0;
    proof {
        assert(lines_view(lines@).take(0) =~= Seq::<Seq<char>>::empty());
        assert(snapshots_view(snaps@) =~= Seq::<SnapshotModel>::empty());
    }
    while i < lines.len()
        invariant
            i <= lines.len(),
            snapshots_view(snaps@) == snapshots_of(lines_view(lines@).take(i as int)),
        decreases lines.len() - i,
    {
        proof {
            let all = lines_view(lines@);
            assert(all.take(i + 1).drop_last() =~= all.take(i as int));
            assert(all.take(i + 1).last() == lines@[i as int]@);
        }
        match parse_record(lines[i].as_str()) {
            Some(snap) => {
                let ghost before = snapshots_view(snaps@);
                let ghost model = snap@;
                snaps.push(snap);
                assert(snapshots_view(snaps@) =~= before.push(model));
            },
            None => {},
        }
        i += 1;
    }
    assert(lines_view(lines@).take(i as int) =~= lines_view(lines@));
    snaps
}

} // verus!
