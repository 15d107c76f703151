use vstd::prelude::*;

verus! {

/// How one line relates the old text to the new one.
#[derive(Debug, Clone, Copy, PartialEq, Eq, Structural)]
pub enum ChangeOp {
    Equal,
    Insert,
    Delete,
}

/// The kind of a marker.
#[derive(Debug, Clone, Copy, PartialEq, Eq, Structural)]
pub enum DiffKind {
    Add,
    Delete,
    Modify,
}

/// A classified range of lines, 1-based, in the coordinates of the new text.
#[derive(Debug, Clone, Copy, PartialEq, Eq, Structural)]
pub struct Diff {
    pub start_line: u32,
    pub end_line: u32,
    pub kind: DiffKind,
}

/// The byte that stands for a kind in an encoded record.
pub open spec fn kind_tag(k: DiffKind) -> u8 {
    match k {
        DiffKind::Add => 1,
        DiffKind::Delete => 2,
        DiffKind::Modify => 3,
    }
}

/// The kind that a record byte stands for, if any.
pub open spec fn kind_of_tag(t: u8) -> Option<DiffKind> {
    if t == 1 {
        Some(DiffKind::Add)
    } else if t == 2 {
        Some(DiffKind::Delete)
    } else if t == 3 {
        Some(DiffKind::Modify)
    } else {
        None
    }
}

impl DiffKind {
    pub fn tag(&self) -> (r: u8)
        ensures
            r == kind_tag(*self),
    {
        match self {
            DiffKind::Add => 1,
            DiffKind::Delete => 2,
            DiffKind::Modify => 3,
        }
    }
}

} // verus!
