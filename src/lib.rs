//! Line-range change markers for a pair of texts.
//!
//! A line diff engine tags every line of the two texts as equal, inserted or
//! deleted. That tag stream is classified into single-line markers in the
//! coordinates of the new text, adjacent markers of one kind are merged into
//! ranges, and the ranges are packed into fixed nine-byte records.
use vstd::prelude::*;

pub mod classify;
pub mod encode;
pub mod engine;
pub mod markers;
pub mod merge;

pub use classify::classify_changes;
pub use encode::encode_markers;
pub use markers::{ChangeOp, Diff, DiffKind};
pub use merge::merge_adjacent;

use classify::{classify_spec, lemma_classify_ascending, lemma_classify_unchanged, new_line_count};
use encode::encode_spec;
use engine::{line_changes, line_changes_of};
use merge::{lemma_merge_separated, merge_spec, separated};

verus! {

/// The merged markers of a tag stream.
pub open spec fn markers_of(ops: Seq<ChangeOp>) -> Seq<Diff> {
    merge_spec(classify_spec(ops))
}

/// The merged markers are ascending, non-overlapping ranges, no one of which
/// continues the one before it with the same kind; there is at most one more
/// of them than lines in the new text.
pub proof fn lemma_markers_separated(ops: Seq<ChangeOp>)
    requires
        new_line_count(ops) < u32::MAX,
    ensures
        separated(markers_of(ops)),
        markers_of(ops).len() <= new_line_count(ops) + 1,
{
    lemma_classify_ascending(ops);
    lemma_merge_separated(classify_spec(ops));
}

/// A tag stream of equal lines alone gives no marker and an empty encoding.
pub proof fn lemma_unchanged_no_markers(ops: Seq<ChangeOp>)
    requires
        forall|i: int| 0 <= i < ops.len() ==> #[trigger] ops[i] == ChangeOp::Equal,
    ensures
        markers_of(ops).len() == 0,
        encode_spec(markers_of(ops)).len() == 0,
{
    lemma_classify_unchanged(ops);
    assert(classify_spec(ops) =~= Seq::<Diff>::empty());
    assert(markers_of(ops) =~= Seq::<Diff>::empty());
}

/// Classifies a tag stream and merges the markers into ranges.
pub fn markers_from_changes(ops: &Vec<ChangeOp>) -> (r: Vec<Diff>)
    requires
        new_line_count(ops@) < u32::MAX,
    ensures
        r@ == markers_of(ops@),
        separated(r@),
{
    proof {
        lemma_markers_separated(ops@);
    }
    let raw = classify_changes(ops);
    merge_adjacent(&raw)
}

/// The merged change markers between two texts, in new-text coordinates.
pub fn diff(old_text: &str, new_text: &str) -> (r: Vec<Diff>)
    requires
        new_text@.len() < u32::MAX,
    ensures
        r@ == markers_of(line_changes_of(old_text@, new_text@)),
        separated(r@),
        old_text@ == new_text@ ==> r@.len() == 0,
{
    let ops = line_changes(old_text, new_text);
    proof {
        if old_text@ == new_text@ {
            lemma_unchanged_no_markers(ops@);
        }
    }
    markers_from_changes(&ops)
}

/// The change markers between two texts, packed as nine-byte records.
pub fn line_diff(old_text: &str, new_text: &str) -> (r: Vec<u8>)
    requires
        new_text@.len() < u32::MAX,
    ensures
        r@ == encode_spec(markers_of(line_changes_of(old_text@, new_text@))),
        r@.len() == 9 * markers_of(line_changes_of(old_text@, new_text@)).len(),
        old_text@ == new_text@ ==> r@.len() == 0,
{
    let ms = diff(old_text, new_text);
    encode_markers(&ms)
}

} // verus!
