//! Edit scripts between two sequences, as computed by the Myers algorithm.
use vstd::prelude::*;

verus! {

/// What an edit operation does to its ranges.
#[derive(Clone, Copy, Debug, PartialEq, Eq, Structural)]
pub enum EditKind {
    Equal,
    Delete,
    Insert,
    Replace,
}

/// One step of an edit script: a range of the old sequence and the range of
/// the new sequence that stands for it.
#[derive(Debug, PartialEq, Eq)]
pub struct EditOp {
    pub kind: EditKind,
    pub old: std::ops::Range<usize>,
    pub new: std::ops::Range<usize>,
}

impl EditOp {
    pub open spec fn old_len(self) -> int {
        self.old.end - self.old.start
    }

    pub open spec fn new_len(self) -> int {
        self.new.end - self.new.start
    }

    /// The shape of the ranges agrees with the kind of the step.
    pub open spec fn well_shaped(self) -> bool {
        &&& self.old.start <= self.old.end
        &&& self.new.start <= self.new.end
        &&& self.kind == EditKind::Equal ==> self.old_len() == self.new_len()
        &&& self.kind == EditKind::Delete ==> self.new_len() == 0
        &&& self.kind == EditKind::Insert ==> self.old_len() == 0
    }
}

/// Where the old sequence stands after the first `i` steps.
pub open spec fn old_reached(ops: Seq<EditOp>, i: int) -> int {
    if i <= 0 { 0 } else { ops[i - 1].old.end as int }
}

/// Where the new sequence stands after the first `i` steps.
pub open spec fn new_reached(ops: Seq<EditOp>, i: int) -> int {
    if i <= 0 { 0 } else { ops[i - 1].new.end as int }
}

/// The steps cover both sequences from start to end, each one beginning where
/// the previous one ended.
pub open spec fn is_alignment(ops: Seq<EditOp>, old_len: int, new_len: int) -> bool {
    &&& forall|i: int| 0 <= i < ops.len() ==> (#[trigger] ops[i]).well_shaped()
    &&& forall|i: int| 0 <= i < ops.len() ==> (#[trigger] ops[i]).old.start == old_reached(ops, i)
    &&& forall|i: int| 0 <= i < ops.len() ==> (#[trigger] ops[i]).new.start == new_reached(ops, i)
    &&& old_reached(ops, ops.len() as int) == old_len
    &&& new_reached(ops, ops.len() as int) == new_len
}

/// Every `Equal` step covers equal elements on both sides.
pub open spec fn equal_steps_agree(ops: Seq<EditOp>, old: Seq<Option<u8>>, new: Seq<Option<u8>>) -> bool {
    forall|i: int| 0 <= i < ops.len() && (#[trigger] ops[i]).kind == EditKind::Equal ==> old.subrange(
        ops[i].old.start as int,
        ops[i].old.end as int,
    ) == new.subrange(ops[i].new.start as int, ops[i].new.end as int)
}

/// The edit script that the Myers diff computes between two sequences.
pub uninterp spec fn myers_script(old: Seq<Option<u8>>, new: Seq<Option<u8>>) -> Seq<EditOp>;

/// Relies on `similar::capture_diff_slices` with `similar::Algorithm::Myers`:
/// its steps tile both inputs in order, a deletion covers no new element and
/// an insertion no old one, an `Equal` step covers equal elements; on equal inputs it reports one `Equal` step over
/// everything, or nothing when both are empty.
#[verifier::external_body]
pub(crate) fn myers_diff(old: &Vec<Option<u8>>, new: &Vec<Option<u8>>) -> (r: Vec<EditOp>)
    ensures
        r@ == myers_script(old@, new@),
        is_alignment(r@, old@.len() as int, new@.len() as int),
        equal_steps_agree(r@, old@, new@),
        old@ == new@ && old@.len() > 0 ==> r@ == seq![
            EditOp { kind: EditKind::Equal, old: 0..old@.len() as usize, new: 0..new@.len() as usize },
        ],
        old@ == new@ && old@.len() == 0 ==> r@.len() == 0,
{
    similar::capture_diff_slices(similar::Algorithm::Myers, old, new).iter().map(|op| {
        let (tag, old, new) = op.as_tag_tuple();
        let kind = match tag {
            similar::DiffTag::Equal => EditKind::Equal,
            similar::DiffTag::Delete => EditKind::Delete,
            similar::DiffTag::Insert => EditKind::Insert,
            similar::DiffTag::Replace => EditKind::Replace,
        };
        EditOp { kind, old, new }
    }).collect()
}

} // verus!
