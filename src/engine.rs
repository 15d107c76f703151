use vstd::prelude::*;

use similar::{Algorithm, ChangeTag, TextDiff};

use crate::classify::new_line_count;
use crate::markers::ChangeOp;

verus! {

/// The tag stream that similar's patience line diff gives for two texts.
pub uninterp spec fn line_changes_of(old_text: Seq<char>, new_text: Seq<char>) -> Seq<ChangeOp>;

/// Relies on similar's `TextDiff::diff_lines` with `Algorithm::Patience`
/// and `iter_all_changes`: one tag per line, in document order. Lines are
/// non-empty slices of the text, so the new text has no more lines than
/// chars; identical texts give only `Equal` tags (common prefix).
#[verifier::external_body]
pub(crate) fn line_changes(old_text: &str, new_text: &str) -> (r: Vec<ChangeOp>)
    ensures
        r@ == line_changes_of(old_text@, new_text@),
        new_line_count(r@) <= new_text@.len(),
        old_text@ == new_text@ ==> forall|i: int| 0 <= i < r@.len() ==> #[trigger] r@[i] == ChangeOp::Equal,
{
    let d = TextDiff::configure().algorithm(Algorithm::Patience).diff_lines(old_text, new_text);
    let mut r = Vec::new();
    for c in d.iter_all_changes() {
        r.push(match c.tag() {
            ChangeTag::Equal => ChangeOp::Equal,
            ChangeTag::Insert => ChangeOp::Insert,
            ChangeTag::Delete => ChangeOp::Delete,
        });
    }
    r
}

} // verus!
