use vstd::prelude::*;

use crate::markers::{ChangeOp, Diff, DiffKind};
use crate::merge::ascending;

verus! {

/// The number of lines of the new text that `ops` covers: every op but `Delete`.
pub open spec fn new_line_count(ops: Seq<ChangeOp>) -> nat
    decreases ops.len(),
{
    if ops.len() == 0 {
        0
    } else {
        new_line_count(ops.drop_last()) + if ops.last() is Delete {
            0nat
        } else {
            1nat
        }
    }
}

/// The classifier's state after a prefix of the tag stream.
pub struct ScanState {
    /// The next line number of the new text.
    pub cursor: nat,
    /// Deleted lines not yet paired with an insertion.
    pub pending: nat,
    /// The markers emitted so far.
    pub markers: Seq<Diff>,
}

/// A single-line marker at `line`.
pub open spec fn line_marker(line: nat, kind: DiffKind) -> Diff {
    Diff { start_line: line as u32, end_line: line as u32, kind }
}

/// One step of the classifier.
pub open spec fn step(s: ScanState, op: ChangeOp) -> ScanState {
    match op {
        ChangeOp::Equal => ScanState {
            cursor: s.cursor + 1,
            pending: 0,
            markers: if s.pending > 0 {
                s.markers.push(line_marker(s.cursor, DiffKind::Delete))
            } else {
                s.markers
            },
        },
        ChangeOp::Delete => ScanState { cursor: s.cursor, pending: s.pending + 1, markers: s.markers },
        ChangeOp::Insert => if s.pending > 0 {
            ScanState {
                cursor: s.cursor + 1,
                pending: (s.pending - 1) as nat,
                markers: s.markers.push(line_marker(s.cursor, DiffKind::Modify)),
            }
        } else {
            ScanState {
                cursor: s.cursor + 1,
                pending: 0,
                markers: s.markers.push(line_marker(s.cursor, DiffKind::Add)),
            }
        },
    }
}

/// The classifier's state after all of `ops`.
pub open spec fn scan(ops: Seq<ChangeOp>) -> ScanState
    decreases ops.len(),
{
    if ops.len() == 0 {
        ScanState { cursor: 1, pending: 0, markers: Seq::empty() }
    } else {
        step(scan(ops.drop_last()), ops.last())
    }
}

/// The single-line markers of a tag stream: those of the scan, and a
/// `Delete` at the end of the new text for deletions left unpaired there.
pub open spec fn classify_spec(ops: Seq<ChangeOp>) -> Seq<Diff> {
    let s = scan(ops);
    if s.pending > 0 {
        s.markers.push(line_marker(s.cursor, DiffKind::Delete))
    } else {
        s.markers
    }
}

proof fn lemma_scan_counts(ops: Seq<ChangeOp>)
    ensures
        scan(ops).cursor == 1 + new_line_count(ops),
        scan(ops).pending <= ops.len(),
    decreases ops.len(),
{
    if ops.len() > 0 {
        lemma_scan_counts(ops.drop_last());
    }
}

proof fn lemma_new_line_count_prefix(ops: Seq<ChangeOp>, i: int)
    requires
        0 <= i <= ops.len(),
    ensures
        new_line_count(ops.take(i)) <= new_line_count(ops),
    decreases ops.len() - i,
{
    if i < ops.len() {
        lemma_new_line_count_prefix(ops, i + 1);
        assert(ops.take(i + 1).drop_last() =~= ops.take(i));
    } else {
        assert(ops.take(i) =~= ops);
    }
}

proof fn lemma_last_end_bound(ms: Seq<Diff>, i: int)
    requires
        ascending(ms),
        0 <= i < ms.len(),
    ensures
        ms[i].end_line <= ms.last().end_line,
{
    if i < ms.len() - 1 {
        assert(ms[i].end_line < ms[ms.len() - 1].start_line);
    }
}

proof fn lemma_scan_ascending(ops: Seq<ChangeOp>)
    requires
        new_line_count(ops) < u32::MAX,
    ensures
        ascending(scan(ops).markers),
        scan(ops).markers.len() <= new_line_count(ops),
        scan(ops).markers.len() > 0 ==> scan(ops).markers.last().end_line < scan(ops).cursor,
    decreases ops.len(),
{
    if ops.len() > 0 {
        lemma_scan_ascending(ops.drop_last());
        lemma_scan_counts(ops.drop_last());
        lemma_scan_counts(ops);
    }
}

/// The classifier's markers are ascending single lines, at most one more
/// than the lines of the new text.
pub proof fn lemma_classify_ascending(ops: Seq<ChangeOp>)
    requires
        new_line_count(ops) < u32::MAX,
    ensures
        ascending(classify_spec(ops)),
        classify_spec(ops).len() <= new_line_count(ops) + 1,
{
    lemma_scan_ascending(ops);
    lemma_scan_counts(ops);
    let s = scan(ops);
    let r = classify_spec(ops);
    if s.pending > 0 {
        let d = line_marker(s.cursor, DiffKind::Delete);
        assert(r == s.markers.push(d));
        assert(d.start_line == s.cursor && d.end_line == s.cursor);
        assert forall|i: int, j: int| 0 <= i < j < r.len() implies (#[trigger] r[i]).end_line < (
        #[trigger] r[j]).start_line by {
            assert(r[i] == s.markers[i]);
            if j < r.len() - 1 {
                assert(r[j] == s.markers[j]);
            } else {
                lemma_last_end_bound(s.markers, i);
            }
        }
        assert forall|i: int| 0 <= i < r.len() implies (#[trigger] r[i]).start_line <= r[i].end_line by {
            if i < r.len() - 1 {
                assert(r[i] == s.markers[i]);
            }
        }
    }
}

/// A stream of equal lines leaves nothing pending and emits nothing.
pub proof fn lemma_classify_unchanged(ops: Seq<ChangeOp>)
    requires
        forall|i: int| 0 <= i < ops.len() ==> #[trigger] ops[i] == ChangeOp::Equal,
    ensures
        scan(ops).pending == 0,
        scan(ops).markers.len() == 0,
        classify_spec(ops).len() == 0,
    decreases ops.len(),
{
    if ops.len() > 0 {
        let p = ops.drop_last();
        assert forall|i: int| 0 <= i < p.len() implies #[trigger] p[i] == ChangeOp::Equal by {
            assert(p[i] == ops[i]);
        }
        lemma_classify_unchanged(p);
        assert(ops.last() == ops[ops.len() - 1]);
    }
}

/// Turns a tag stream into single-line markers in new-text coordinates:
/// an insertion is a `Modify` while unpaired deletions are pending, else an
/// `Add`; pending deletions collapse into one `Delete` at the next equal line,
/// or at the end of the new text.
pub fn classify_changes(ops: &Vec<ChangeOp>) -> (r: Vec<Diff>)
    requires
        new_line_count(ops@) < u32::MAX,
    ensures
        r@ == classify_spec(ops@),
{
    let mut cursor: u32 = 1;
    let mut pending: usize = 0;
    let mut out: Vec<Diff> = Vec::new();
    let mut i: usize = 0;
    while i < ops.len()
        invariant
            0 <= i <= ops@.len(),
            new_line_count(ops@) < u32::MAX,
            cursor as nat == scan(ops@.take(i as int)).cursor,
            pending as nat == scan(ops@.take(i as int)).pending,
            pending <= i,
            out@ == scan(ops@.take(i as int)).markers,
        decreases ops@.len() - i,
    {
        proof {
            assert(ops@.take(i + 1).drop_last() =~= ops@.take(i as int));
            lemma_scan_counts(ops@.take(i + 1));
            lemma_new_line_count_prefix(ops@, i + 1);
        }
        match ops[i] {
            ChangeOp::Equal => {
                if pending > 0 {
                    out.push(Diff { start_line: cursor, end_line: cursor, kind: DiffKind::Delete });
                    pending = 0;
                }
                cursor = cursor + 1;
            },
            ChangeOp::Delete => {
                pending = pending + 1;
            },
            ChangeOp::Insert => {
                if pending > 0 {
                    pending = pending - 1;
                    out.push(Diff { start_line: cursor, end_line: cursor, kind: DiffKind::Modify });
                } else {
                    out.push(Diff { start_line: cursor, end_line: cursor, kind: DiffKind::Add });
                }
                cursor = cursor + 1;
            },
        }
        i += 1;
    }
    assert(ops@.take(ops@.len() as int) =~= ops@);
    if pending > 0 {
        out.push(Diff { start_line: cursor, end_line: cursor, kind: DiffKind::Delete });
    }
    out
}

} // verus!
