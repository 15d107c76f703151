use vstd::prelude::*;

use crate::markers::Diff;

verus! {

/// `d` continues `open`: same kind, and it starts on the line after `open` ends.
pub open spec fn joins(open: Diff, d: Diff) -> bool {
    open.kind == d.kind && d.start_line as int == open.end_line as int + 1
}

/// The greedy left-to-right merge: a marker that continues the last range
/// so far extends it, any other starts a new range.
pub open spec fn merge_spec(raw: Seq<Diff>) -> Seq<Diff>
    decreases raw.len(),
{
    if raw.len() == 0 {
        Seq::empty()
    } else {
        let m = merge_spec(raw.drop_last());
        let d = raw.last();
        if m.len() > 0 && joins(m.last(), d) {
            m.update(
                m.len() - 1,
                Diff { start_line: m.last().start_line, end_line: d.end_line, kind: m.last().kind },
            )
        } else {
            m.push(d)
        }
    }
}

/// Each marker is a non-empty range, and each starts after every earlier one ends.
pub open spec fn ascending(ms: Seq<Diff>) -> bool {
    &&& forall|i: int| 0 <= i < ms.len() ==> (#[trigger] ms[i]).start_line <= ms[i].end_line
    &&& forall|i: int, j: int|
        0 <= i < j < ms.len() ==> (#[trigger] ms[i]).end_line < (#[trigger] ms[j]).start_line
}

/// Ascending, and no marker continues the one just before it.
pub open spec fn separated(ms: Seq<Diff>) -> bool {
    &&& ascending(ms)
    &&& forall|i: int, j: int|
        0 <= i && j == i + 1 && j < ms.len() ==> !joins(#[trigger] ms[i], #[trigger] ms[j])
}

/// Merging ascending markers leaves them separated, and no more of them.
pub proof fn lemma_merge_separated(raw: Seq<Diff>)
    requires
        ascending(raw),
    ensures
        separated(merge_spec(raw)),
        merge_spec(raw).len() <= raw.len(),
        raw.len() > 0 ==> merge_spec(raw).len() > 0 && merge_spec(raw).last().end_line
            == raw.last().end_line,
    decreases raw.len(),
{
    if raw.len() > 0 {
        let p = raw.drop_last();
        assert forall|i: int, j: int| 0 <= i < j < p.len() implies (#[trigger] p[i]).end_line < (
        #[trigger] p[j]).start_line by {
            assert(p[i] == raw[i] && p[j] == raw[j]);
        }
        assert forall|i: int| 0 <= i < p.len() implies (#[trigger] p[i]).start_line <= p[i].end_line by {
            assert(p[i] == raw[i]);
        }
        lemma_merge_separated(p);
        let m = merge_spec(p);
        let d = raw.last();
        let r = merge_spec(raw);
        assert(d == raw[raw.len() - 1]);
        if p.len() > 0 {
            assert(p.last() == raw[raw.len() - 2]);
            assert(m.last().end_line < d.start_line);
            assert forall|i: int| 0 <= i < m.len() implies (#[trigger] m[i]).end_line <= m.last().end_line by {
                if i < m.len() - 1 {
                    assert(m[i].end_line < m[m.len() - 1].start_line);
                }
            }
        }
        if m.len() > 0 && joins(m.last(), d) {
            let e = Diff { start_line: m.last().start_line, end_line: d.end_line, kind: m.last().kind };
            assert(r == m.update(m.len() - 1, e));
            assert forall|i: int| 0 <= i < r.len() implies (#[trigger] r[i]).start_line <= r[i].end_line by {
                assert(m[i] == m[i]);
            }
            assert forall|i: int, j: int| 0 <= i < j < r.len() implies (#[trigger] r[i]).end_line < (
            #[trigger] r[j]).start_line by {
                assert(r[i] == m[i]);
                assert(m[i].end_line < m[j].start_line);
            }
            assert forall|i: int, j: int| 0 <= i && j == i + 1 && j < r.len() implies !joins(
                #[trigger] r[i],
                #[trigger] r[j],
            ) by {
                assert(r[i] == m[i]);
                assert(!joins(m[i], m[j]));
            }
        } else {
            assert(r == m.push(d));
            assert forall|i: int| 0 <= i < r.len() implies (#[trigger] r[i]).start_line <= r[i].end_line by {
                if i < r.len() - 1 {
                    assert(r[i] == m[i]);
                }
            }
            assert forall|i: int, j: int| 0 <= i < j < r.len() implies (#[trigger] r[i]).end_line < (
            #[trigger] r[j]).start_line by {
                assert(r[i] == m[i]);
                if j < r.len() - 1 {
                    assert(r[j] == m[j]);
                }
            }
            assert forall|i: int, j: int| 0 <= i && j == i + 1 && j < r.len() implies !joins(
                #[trigger] r[i],
                #[trigger] r[j],
            ) by {
                assert(r[i] == m[i]);
                if j < r.len() - 1 {
                    assert(r[j] == m[j]);
                }
            }
        }
    }
}

/// Coalesces each run of same-kind contiguous markers into one range.
pub fn merge_adjacent(raw: &Vec<Diff>) -> (r: Vec<Diff>)
    ensures
        r@ == merge_spec(raw@),
{
    let mut merged: Vec<Diff> = Vec::new();
    if raw.len() == 0 {
        return merged;
    }
    let mut open: Diff = raw[0];
    proof {
        assert(raw@.take(1).drop_last() =~= Seq::<Diff>::empty());
        assert(merge_spec(Seq::<Diff>::empty()) =~= Seq::<Diff>::empty());
        assert(merge_spec(raw@.take(1)) =~= seq![raw@[0]]);
    }
    let mut i: usize = 1;
    while i < raw.len()
        invariant
            1 <= i <= raw@.len(),
            merged@.push(open) == merge_spec(raw@.take(i as int)),
        decreases raw@.len() - i,
    {
        let d = raw[i];
        proof {
            assert(raw@.take(i + 1).drop_last() =~= raw@.take(i as int));
        }
        let ghost prev = merged@.push(open);
        if open.kind == d.kind && open.end_line < u32::MAX && d.start_line == open.end_line + 1 {
            open = Diff { start_line: open.start_line, end_line: d.end_line, kind: open.kind };
            assert(merged@.push(open) =~= prev.update(prev.len() - 1, open));
        } else {
            merged.push(open);
            open = d;
        }
        i += 1;
    }
    assert(raw@.take(raw@.len() as int) =~= raw@);
    merged.push(open);
    merged
}

} // verus!
