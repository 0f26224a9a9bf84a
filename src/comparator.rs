//! Two buffers side by side: the Myers edit script between them turned into
//! two aligned views padded with absent entries, with the changed ranges
//! marked and counted.
use vstd::prelude::*;
use ratatui::style::Color;
use crate::diff::{EditKind, EditOp, equal_steps_agree, is_alignment, myers_diff, myers_script, old_reached, new_reached};
use crate::viewer::{Highlight, Viewer, marks_below, present};

verus! {

pub struct Comparator {
    pub viewer_old: Viewer,
    pub viewer_new: Viewer,
    /// Bytes only in the new buffer.
    pub added: usize,
    /// Bytes only in the old buffer.
    pub deleted: usize,
    /// Padding that replacements needed: a replacement counts the difference
    /// of its two lengths, so one of equal lengths counts nothing.
    pub replaced: usize,
}

/// `n` absent entries.
pub open spec fn absent(n: int) -> Seq<Option<u8>> {
    Seq::new(n as nat, |i: int| None::<u8>)
}

/// How many aligned positions a step takes: the longer of its two ranges.
pub open spec fn span(op: EditOp) -> int {
    if op.old_len() >= op.new_len() { op.old_len() } else { op.new_len() }
}

/// How many aligned positions the steps take together.
pub open spec fn span_total(ops: Seq<EditOp>) -> int
    decreases ops.len(),
{
    if ops.len() == 0 { 0 } else { span_total(ops.drop_last()) + span(ops.last()) }
}

/// The old view: each step shows its old range, then absent entries up to its span.
pub open spec fn aligned_old(ops: Seq<EditOp>, old: Seq<Option<u8>>) -> Seq<Option<u8>>
    decreases ops.len(),
{
    if ops.len() == 0 {
        seq![]
    } else {
        let op = ops.last();
        aligned_old(ops.drop_last(), old) + old.subrange(op.old.start as int, op.old.end as int)
            + absent(span(op) - op.old_len())
    }
}

/// The new view: each step shows its new range, then absent entries up to its span.
pub open spec fn aligned_new(ops: Seq<EditOp>, new: Seq<Option<u8>>) -> Seq<Option<u8>>
    decreases ops.len(),
{
    if ops.len() == 0 {
        seq![]
    } else {
        let op = ops.last();
        aligned_new(ops.drop_last(), new) + new.subrange(op.new.start as int, op.new.end as int)
            + absent(span(op) - op.new_len())
    }
}

/// The colors that mark a step of the given kind.
pub open spec fn mark_colors(kind: EditKind) -> (Color, Color) {
    match kind {
        EditKind::Delete => (Color::Red, Color::White),
        EditKind::Insert => (Color::Green, Color::White),
        _ => (Color::Yellow, Color::Black),
    }
}

/// The inclusive range of `len` aligned positions from `at`, in the step's colors.
pub open spec fn mark(at: int, len: int, kind: EditKind) -> Highlight {
    Highlight {
        start: at as usize,
        end: (at + len - 1) as usize,
        bg: mark_colors(kind).0,
        fg: mark_colors(kind).1,
    }
}

/// Marks on the old view: each deletion or replacement that removes something.
pub open spec fn old_marks(ops: Seq<EditOp>) -> Seq<Highlight>
    decreases ops.len(),
{
    if ops.len() == 0 {
        seq![]
    } else {
        let op = ops.last();
        let rest = old_marks(ops.drop_last());
        if (op.kind == EditKind::Delete || op.kind == EditKind::Replace) && op.old_len() > 0 {
            rest.push(mark(span_total(ops.drop_last()), op.old_len(), op.kind))
        } else {
            rest
        }
    }
}

/// Marks on the new view: each insertion or replacement that brings something.
pub open spec fn new_marks(ops: Seq<EditOp>) -> Seq<Highlight>
    decreases ops.len(),
{
    if ops.len() == 0 {
        seq![]
    } else {
        let op = ops.last();
        let rest = new_marks(ops.drop_last());
        if (op.kind == EditKind::Insert || op.kind == EditKind::Replace) && op.new_len() > 0 {
            rest.push(mark(span_total(ops.drop_last()), op.new_len(), op.kind))
        } else {
            rest
        }
    }
}

/// Entries inserted: the lengths of the insertions.
pub open spec fn added_total(ops: Seq<EditOp>) -> int
    decreases ops.len(),
{
    if ops.len() == 0 {
        0
    } else {
        added_total(ops.drop_last()) + if ops.last().kind == EditKind::Insert {
            ops.last().new_len()
        } else {
            0
        }
    }
}

/// Entries deleted: the lengths of the deletions.
pub open spec fn deleted_total(ops: Seq<EditOp>) -> int
    decreases ops.len(),
{
    if ops.len() == 0 {
        0
    } else {
        deleted_total(ops.drop_last()) + if ops.last().kind == EditKind::Delete {
            ops.last().old_len()
        } else {
            0
        }
    }
}

/// Padding that replacements needed: for each, the difference of its two lengths.
pub open spec fn replaced_total(ops: Seq<EditOp>) -> int
    decreases ops.len(),
{
    if ops.len() == 0 {
        0
    } else {
        replaced_total(ops.drop_last()) + if ops.last().kind == EditKind::Replace {
            span(ops.last()) - if ops.last().old_len() <= ops.last().new_len() {
                ops.last().old_len()
            } else {
                ops.last().new_len()
            }
        } else {
            0
        }
    }
}

proof fn lemma_reached_bounded(ops: Seq<EditOp>, old_len: int, new_len: int, i: int)
    requires
        is_alignment(ops, old_len, new_len),
        0 <= i <= ops.len(),
    ensures
        0 <= old_reached(ops, i) <= old_len,
        0 <= new_reached(ops, i) <= new_len,
    decreases ops.len() - i,
{
    if i < ops.len() {
        lemma_reached_bounded(ops, old_len, new_len, i + 1);
        assert(ops[i].well_shaped());
        if i > 0 {
            assert(ops[i - 1].well_shaped());
        }
    }
}

proof fn lemma_step_inside(ops: Seq<EditOp>, old_len: int, new_len: int, i: int)
    requires
        is_alignment(ops, old_len, new_len),
        0 <= i < ops.len(),
    ensures
        ops[i].well_shaped(),
        ops[i].old.end <= old_len,
        ops[i].new.end <= new_len,
        ops.take(i + 1) == ops.take(i).push(ops[i]),
{
    lemma_reached_bounded(ops, old_len, new_len, i + 1);
    assert(ops.take(i + 1) =~= ops.take(i).push(ops[i]));
}

proof fn lemma_marks_inside(ops: Seq<EditOp>)
    requires
        forall|i: int| 0 <= i < ops.len() ==> (#[trigger] ops[i]).well_shaped(),
        span_total(ops) <= usize::MAX,
    ensures
        marks_below(old_marks(ops), span_total(ops)),
        marks_below(new_marks(ops), span_total(ops)),
        span_total(ops) >= 0,
    decreases ops.len(),
{
    if ops.len() > 0 {
        let rest = ops.drop_last();
        assert forall|i: int| 0 <= i < rest.len() implies (#[trigger] rest[i]).well_shaped() by {
            assert(rest[i] == ops[i]);
        }
        assert(ops.last() == ops[ops.len() - 1]);
        assert(ops.last().well_shaped());
        lemma_marks_inside(rest);
        let o = old_marks(ops);
        let n = new_marks(ops);
        let op = ops.last();
        let total = span_total(ops);
        assert(span(op) >= op.new_len() && span(op) >= op.old_len());
        assert(total == span_total(rest) + span(op));
        assert forall|i: int| #![trigger o[i]] 0 <= i < o.len() implies o[i].start <= o[i].end
            && o[i].end < total by {
            if i < old_marks(rest).len() {
                let r = old_marks(rest);
                assert(o[i] == r[i]);
                assert(r[i].start <= r[i].end && r[i].end < span_total(rest));
            }
        }
        assert forall|i: int| #![trigger n[i]] 0 <= i < n.len() implies n[i].start <= n[i].end
            && n[i].end < total by {
            if i < new_marks(rest).len() {
                let r = new_marks(rest);
                assert(n[i] == r[i]);
                assert(r[i].start <= r[i].end && r[i].end < span_total(rest));
            }
        }
    }
}

/// The views, marks and counts built from the first steps of a script.
struct Aligned {
    old: Vec<Option<u8>>,
    new: Vec<Option<u8>>,
    old_marks: Vec<Highlight>,
    new_marks: Vec<Highlight>,
    added: usize,
    deleted: usize,
    replaced: usize,
}

impl Aligned {
    #[verifier::opaque]
    spec fn follows(&self, ops: Seq<EditOp>, data_old: Seq<Option<u8>>, data_new: Seq<Option<u8>>) -> bool {
        &&& self.old@ == aligned_old(ops, data_old)
        &&& self.new@ == aligned_new(ops, data_new)
        &&& self.old@.len() == span_total(ops)
        &&& self.new@.len() == span_total(ops)
        &&& self.old_marks@ == old_marks(ops)
        &&& self.new_marks@ == new_marks(ops)
        &&& self.added == added_total(ops)
        &&& self.deleted == deleted_total(ops)
        &&& self.replaced == replaced_total(ops)
        &&& self.added + self.deleted + self.replaced <= span_total(ops)
    }

    /// Adds one step whose ranges lie inside the two buffers.
    fn step(
        &mut self,
        op: &EditOp,
        data_old: &Vec<Option<u8>>,
        data_new: &Vec<Option<u8>>,
        Ghost(done): Ghost<Seq<EditOp>>,
    )
        requires
            old(self).follows(done, data_old@, data_new@),
            op.well_shaped(),
            op.old.end <= data_old@.len(),
            op.new.end <= data_new@.len(),
        ensures
            final(self).follows(done.push(*op), data_old@, data_new@),
    {
        reveal(Aligned::follows);
        let ghost ops = done.push(*op);
        assert(ops.drop_last() == done);
        assert(ops.last() == *op);
        let old_len = op.old.end - op.old.start;
        let new_len = op.new.end - op.new.start;
        let span = if old_len >= new_len { old_len } else { new_len };
        let at = self.old.len();
        push_range(&mut self.old, data_old, op.old.start, op.old.end);
        push_absent(&mut self.old, span - old_len);
        push_range(&mut self.new, data_new, op.new.start, op.new.end);
        push_absent(&mut self.new, span - new_len);
        let total = self.old.len();
        assert(total == at + span);
        match op.kind {
            EditKind::Equal => {},
            EditKind::Delete => {
                if old_len > 0 {
                    self.old_marks.push(Highlight { start: at, end: at + old_len - 1, bg: Color::Red, fg: Color::White });
                }
                self.deleted = self.deleted + old_len;
            },
            EditKind::Insert => {
                if new_len > 0 {
                    self.new_marks.push(Highlight { start: at, end: at + new_len - 1, bg: Color::Green, fg: Color::White });
                }
                self.added = self.added + new_len;
            },
            EditKind::Replace => {
                if old_len > 0 {
                    self.old_marks.push(Highlight { start: at, end: at + old_len - 1, bg: Color::Yellow, fg: Color::Black });
                }
                if new_len > 0 {
                    self.new_marks.push(Highlight { start: at, end: at + new_len - 1, bg: Color::Yellow, fg: Color::Black });
                }
                if new_len > old_len {
                    self.replaced = self.replaced + (new_len - old_len);
                } else {
                    self.replaced = self.replaced + (old_len - new_len);
                }
            },
        }
    }
}

/// Leaving out absent entries distributes over concatenation.
pub proof fn lemma_present_concat(a: Seq<Option<u8>>, b: Seq<Option<u8>>)
    ensures
        present(a + b) == present(a) + present(b),
    decreases b.len(),
{
    if b.len() == 0 {
        assert(a + b =~= a);
        assert(present(a) + present(b) =~= present(a));
    } else {
        lemma_present_concat(a, b.drop_last());
        assert((a + b).drop_last() =~= a + b.drop_last());
        assert((a + b).last() == b.last());
        match b.last() {
            Some(x) => {
                assert(present(a) + present(b.drop_last()).push(x) =~= (present(a) + present(b.drop_last())).push(x));
            },
            None => {},
        }
    }
}

proof fn lemma_present_absent(n: int)
    requires
        n >= 0,
    ensures
        present(absent(n)) == Seq::<u8>::empty(),
    decreases n,
{
    if n > 0 {
        assert(absent(n).drop_last() =~= absent(n - 1));
        lemma_present_absent(n - 1);
    } else {
        assert(absent(n) =~= Seq::<Option<u8>>::empty());
    }
}

/// The old view of the first `i` steps, without its padding, is the old
/// sequence up to where those steps reached.
#[verifier::rlimit(40)]
proof fn lemma_old_present(ops: Seq<EditOp>, old: Seq<Option<u8>>, new_len: int, i: int)
    requires
        is_alignment(ops, old.len() as int, new_len),
        0 <= i <= ops.len(),
    ensures
        present(aligned_old(ops.take(i), old)) == present(old.subrange(0, old_reached(ops, i))),
    decreases i,
{
    if i == 0 {
        assert(ops.take(0) =~= Seq::<EditOp>::empty());
        assert(old.subrange(0, 0) =~= Seq::<Option<u8>>::empty());
    } else {
        lemma_old_present(ops, old, new_len, i - 1);
        lemma_step_inside(ops, old.len() as int, new_len, i - 1);
        let op = ops[i - 1];
        let pre = ops.take(i - 1);
        assert(ops.take(i).drop_last() == pre);
        let before = aligned_old(pre, old);
        let seg = old.subrange(op.old.start as int, op.old.end as int);
        let pad = absent(span(op) - op.old_len());
        assert(aligned_old(ops.take(i), old) == before + seg + pad);
        lemma_present_concat(before, seg);
        lemma_present_concat(before + seg, pad);
        lemma_present_absent(span(op) - op.old_len());
        lemma_present_concat(old.subrange(0, old_reached(ops, i - 1)), seg);
        assert(old.subrange(0, old_reached(ops, i - 1)) + seg =~= old.subrange(0, op.old.end as int));
        assert(present(before + seg) + Seq::<u8>::empty() =~= present(before + seg));
    }
}

/// The new view of the first `i` steps, without its padding, is the new
/// sequence up to where those steps reached.
#[verifier::rlimit(40)]
proof fn lemma_new_present(ops: Seq<EditOp>, old_len: int, new: Seq<Option<u8>>, i: int)
    requires
        is_alignment(ops, old_len, new.len() as int),
        0 <= i <= ops.len(),
    ensures
        present(aligned_new(ops.take(i), new)) == present(new.subrange(0, new_reached(ops, i))),
    decreases i,
{
    if i == 0 {
        assert(ops.take(0) =~= Seq::<EditOp>::empty());
        assert(new.subrange(0, 0) =~= Seq::<Option<u8>>::empty());
    } else {
        lemma_new_present(ops, old_len, new, i - 1);
        lemma_step_inside(ops, old_len, new.len() as int, i - 1);
        let op = ops[i - 1];
        let pre = ops.take(i - 1);
        assert(ops.take(i).drop_last() == pre);
        let before = aligned_new(pre, new);
        let seg = new.subrange(op.new.start as int, op.new.end as int);
        let pad = absent(span(op) - op.new_len());
        assert(aligned_new(ops.take(i), new) == before + seg + pad);
        lemma_present_concat(before, seg);
        lemma_present_concat(before + seg, pad);
        lemma_present_absent(span(op) - op.new_len());
        lemma_present_concat(new.subrange(0, new_reached(ops, i - 1)), seg);
        assert(new.subrange(0, new_reached(ops, i - 1)) + seg =~= new.subrange(0, op.new.end as int));
        assert(present(before + seg) + Seq::<u8>::empty() =~= present(before + seg));
    }
}

/// Leaving out the padding of either view gives back that side's buffer.
pub proof fn lemma_views_keep_buffers(ops: Seq<EditOp>, old: Seq<Option<u8>>, new: Seq<Option<u8>>)
    requires
        is_alignment(ops, old.len() as int, new.len() as int),
    ensures
        present(aligned_old(ops, old)) == present(old),
        present(aligned_new(ops, new)) == present(new),
{
    lemma_old_present(ops, old, new.len() as int, ops.len() as int);
    lemma_new_present(ops, old.len() as int, new, ops.len() as int);
    assert(ops.take(ops.len() as int) =~= ops);
    assert(old.subrange(0, old.len() as int) =~= old);
    assert(new.subrange(0, new.len() as int) =~= new);
}

/// Position `p` lies inside one of the inclusive `marks`.
pub open spec fn marked(marks: Seq<Highlight>, p: int) -> bool {
    exists|i: int| 0 <= i < marks.len() && marks[i].start <= p && p <= marks[i].end
}

/// Marks of a shorter script stay marks of a longer one.
proof fn lemma_marked_prefix(pre: Seq<Highlight>, cur: Seq<Highlight>, p: int)
    requires
        pre.len() <= cur.len(),
        forall|j: int| 0 <= j < pre.len() ==> #[trigger] cur[j] == pre[j],
        marked(pre, p),
    ensures
        marked(cur, p),
{
    let j = choose|j: int| 0 <= j < pre.len() && pre[j].start <= p && p <= pre[j].end;
    assert(cur[j] == pre[j]);
}

/// Along the first `i` steps of a script whose equal steps agree, the two
/// views hold the same entry wherever neither side is marked.
#[verifier::rlimit(60)]
proof fn lemma_unmarked_agree(ops: Seq<EditOp>, old: Seq<Option<u8>>, new: Seq<Option<u8>>, i: int)
    requires
        is_alignment(ops, old.len() as int, new.len() as int),
        equal_steps_agree(ops, old, new),
        0 <= i <= ops.len(),
        span_total(ops.take(i)) <= usize::MAX,
    ensures
        span_total(ops.take(i)) >= 0,
        aligned_old(ops.take(i), old).len() == span_total(ops.take(i)),
        aligned_new(ops.take(i), new).len() == span_total(ops.take(i)),
        forall|p: int| 0 <= p < span_total(ops.take(i)) && !marked(old_marks(ops.take(i)), p)
            && !marked(new_marks(ops.take(i)), p) ==> #[trigger] aligned_old(ops.take(i), old)[p]
            == aligned_new(ops.take(i), new)[p],
    decreases i,
{
    if i == 0 {
        assert(ops.take(0) =~= Seq::<EditOp>::empty());
    } else {
        lemma_step_inside(ops, old.len() as int, new.len() as int, i - 1);
        let op = ops[i - 1];
        let pre = ops.take(i - 1);
        let cur = ops.take(i);
        assert(cur.drop_last() == pre);
        assert(cur.last() == op);
        assert(span(op) >= 0);
        lemma_unmarked_agree(ops, old, new, i - 1);
        let t = span_total(pre);
        let a = aligned_old(pre, old);
        let b = aligned_new(pre, new);
        let so = old.subrange(op.old.start as int, op.old.end as int);
        let sn = new.subrange(op.new.start as int, op.new.end as int);
        let po = absent(span(op) - op.old_len());
        let pn = absent(span(op) - op.new_len());
        assert(aligned_old(cur, old) == a + so + po);
        assert(aligned_new(cur, new) == b + sn + pn);
        let om = old_marks(cur);
        let nm = new_marks(cur);
        assert forall|j: int| 0 <= j < old_marks(pre).len() implies #[trigger] om[j] == old_marks(pre)[j] by {}
        assert forall|j: int| 0 <= j < new_marks(pre).len() implies #[trigger] nm[j] == new_marks(pre)[j] by {}
        assert forall|p: int| 0 <= p < span_total(cur) && !marked(om, p) && !marked(nm, p) implies
            #[trigger] aligned_old(cur, old)[p] == aligned_new(cur, new)[p] by {
            if p < t {
                if marked(old_marks(pre), p) {
                    lemma_marked_prefix(old_marks(pre), om, p);
                }
                if marked(new_marks(pre), p) {
                    lemma_marked_prefix(new_marks(pre), nm, p);
                }
                assert(aligned_old(cur, old)[p] == a[p]);
                assert(aligned_new(cur, new)[p] == b[p]);
            } else if op.kind == EditKind::Equal {
                assert(equal_steps_agree(ops, old, new));
                assert(ops[i - 1] == op);
                assert(so == sn);
                assert(aligned_old(cur, old)[p] == so[p - t]);
                assert(aligned_new(cur, new)[p] == sn[p - t]);
            } else if op.old_len() >= op.new_len() {
                assert(op.kind == EditKind::Delete || op.kind == EditKind::Replace);
                assert(om.last() == mark(t, op.old_len(), op.kind));
                assert(om[om.len() - 1].start <= p && p <= om[om.len() - 1].end);
            } else {
                assert(op.kind == EditKind::Insert || op.kind == EditKind::Replace);
                assert(nm.last() == mark(t, op.new_len(), op.kind));
                assert(nm[nm.len() - 1].start <= p && p <= nm[nm.len() - 1].end);
            }
        }
    }
}

/// Appends `src[start..end]` to `out`.
fn push_range(out: &mut Vec<Option<u8>>, src: &Vec<Option<u8>>, start: usize, end: usize)
    requires
        start <= end <= src@.len(),
    ensures
        final(out)@ == old(out)@ + src@.subrange(start as int, end as int),
{
    let mut k: usize = start;
    while k < end
        invariant
            start <= k <= end <= src@.len(),
            out@ == old(out)@ + src@.subrange(start as int, k as int),
        decreases end - k,
    {
        out.push(src[k]);
        assert(src@.subrange(start as int, k + 1) == src@.subrange(start as int, k as int).push(src@[k as int]));
        k = k + 1;
    }
}

/// Appends `n` absent entries to `out`.
fn push_absent(out: &mut Vec<Option<u8>>, n: usize)
    ensures
        final(out)@ == old(out)@ + absent(n as int),
{
    let mut k: usize = 0;
    while k < n
        invariant
            k <= n,
            out@ == old(out)@ + absent(k as int),
        decreases n - k,
    {
        out.push(None);
        assert(absent(k + 1) == absent(k as int).push(None));
        k = k + 1;
    }
}

/// Builds the views, marks and counts of a whole script.
fn align(ops: &Vec<EditOp>, data_old: &Vec<Option<u8>>, data_new: &Vec<Option<u8>>) -> (acc: Aligned)
    requires
        is_alignment(ops@, data_old@.len() as int, data_new@.len() as int),
    ensures
        acc.follows(ops@, data_old@, data_new@),
{
        let mut acc = Aligned {
            old: Vec::new(),
            new: Vec::new(),
            old_marks: Vec::new(),
            new_marks: Vec::new(),
            added: 0,
            deleted: 0,
            replaced: 0,
        };
        let mut i: usize = 0;
        assert(acc.follows(ops@.take(0), data_old@, data_new@)) by {
            reveal(Aligned::follows);
            assert(ops@.take(0) =~= Seq::<EditOp>::empty());
            assert(acc.old@ =~= aligned_old(ops@.take(0), data_old@));
            assert(acc.new@ =~= aligned_new(ops@.take(0), data_new@));
            assert(acc.old_marks@ =~= old_marks(ops@.take(0)));
            assert(acc.new_marks@ =~= new_marks(ops@.take(0)));
        }
        while i < ops.len()
            invariant
                i <= ops@.len(),
                is_alignment(ops@, data_old@.len() as int, data_new@.len() as int),
                acc.follows(ops@.take(i as int), data_old@, data_new@),
            decreases ops@.len() - i,
        {
            proof {
                lemma_step_inside(ops@, data_old@.len() as int, data_new@.len() as int, i as int);
            }
            acc.step(&ops[i], data_old, data_new, Ghost(ops@.take(i as int)));
            i = i + 1;
        }
        assert(ops@.take(ops@.len() as int) =~= ops@);
        acc
}

impl Comparator {
    /// The comparison of two buffers along a given edit script between them.
    pub fn from_ops(
        data_old: Vec<Option<u8>>,
        data_new: Vec<Option<u8>>,
        file_old: String,
        file_new: String,
        ops: Vec<EditOp>,
    ) -> (r: Comparator)
        requires
            is_alignment(ops@, data_old@.len() as int, data_new@.len() as int),
        ensures
            r.viewer_old.data@ == aligned_old(ops@, data_old@),
            r.viewer_new.data@ == aligned_new(ops@, data_new@),
            r.viewer_old.data@.len() == span_total(ops@),
            r.viewer_new.data@.len() == span_total(ops@),
            present(r.viewer_old.data@) == present(data_old@),
            present(r.viewer_new.data@) == present(data_new@),
            equal_steps_agree(ops@, data_old@, data_new@) ==> forall|p: int| 0 <= p < r.viewer_old.data@.len()
                && !marked(r.viewer_old.highlights@, p) && !marked(r.viewer_new.highlights@, p)
                ==> #[trigger] r.viewer_old.data@[p] == r.viewer_new.data@[p],
            r.viewer_old.highlights@ == old_marks(ops@),
            r.viewer_new.highlights@ == new_marks(ops@),
            r.added == added_total(ops@),
            r.deleted == deleted_total(ops@),
            r.replaced == replaced_total(ops@),
            r.viewer_old.filename == Some(file_old),
            r.viewer_new.filename == Some(file_new),
            r.viewer_old.selection == r.viewer_new.selection,
            r.viewer_old.selection.start == 0 && r.viewer_old.selection.end == 0,
            r.viewer_old.mode == crate::viewer::Mode::Normal,
            r.viewer_new.mode == crate::viewer::Mode::Normal,
            !r.viewer_old.edited && !r.viewer_new.edited,
            r.viewer_old.well_formed(),
            r.viewer_new.well_formed(),
    {
        let acc = align(&ops, &data_old, &data_new);
        let n = acc.old.len();
        proof {
            reveal(Aligned::follows);
            lemma_marks_inside(ops@);
            lemma_views_keep_buffers(ops@, data_old@, data_new@);
            if equal_steps_agree(ops@, data_old@, data_new@) {
                assert(ops@.take(ops@.len() as int) =~= ops@);
                lemma_unmarked_agree(ops@, data_old@, data_new@, ops@.len() as int);
            }
        }
        let Aligned { old: out_old, new: out_new, old_marks: marks_old, new_marks: marks_new, added, deleted, replaced } = acc;
        let mut viewer_old = Viewer::new(out_old, Some(file_old));
        let mut viewer_new = Viewer::new(out_new, Some(file_new));
        viewer_old.highlights = marks_old;
        viewer_new.highlights = marks_new;
        Comparator { viewer_old, viewer_new, added, deleted, replaced }
    }

    /// Compares two buffers along the Myers edit script between them.
    pub fn new(data_old: Vec<Option<u8>>, data_new: Vec<Option<u8>>, file_old: String, file_new: String) -> (r: Comparator)
        ensures
            r.viewer_old.data@ == aligned_old(myers_script(data_old@, data_new@), data_old@),
            r.viewer_new.data@ == aligned_new(myers_script(data_old@, data_new@), data_new@),
            r.viewer_old.data@.len() == r.viewer_new.data@.len(),
            equal_steps_agree(myers_script(data_old@, data_new@), data_old@, data_new@),
            forall|p: int| 0 <= p < r.viewer_old.data@.len() && !marked(r.viewer_old.highlights@, p)
                && !marked(r.viewer_new.highlights@, p) ==> #[trigger] r.viewer_old.data@[p]
                == r.viewer_new.data@[p],
            present(r.viewer_old.data@) == present(data_old@),
            present(r.viewer_new.data@) == present(data_new@),
            r.viewer_old.highlights@ == old_marks(myers_script(data_old@, data_new@)),
            r.viewer_new.highlights@ == new_marks(myers_script(data_old@, data_new@)),
            r.added == added_total(myers_script(data_old@, data_new@)),
            r.deleted == deleted_total(myers_script(data_old@, data_new@)),
            r.replaced == replaced_total(myers_script(data_old@, data_new@)),
            r.viewer_old.filename == Some(file_old),
            r.viewer_new.filename == Some(file_new),
            r.viewer_old.selection == r.viewer_new.selection,
            r.viewer_old.selection.start == 0 && r.viewer_old.selection.end == 0,
            r.viewer_old.mode == crate::viewer::Mode::Normal,
            r.viewer_new.mode == crate::viewer::Mode::Normal,
            !r.viewer_old.edited && !r.viewer_new.edited,
            r.well_formed(),
            data_old@ == data_new@ ==> r.added == 0 && r.deleted == 0 && r.replaced == 0
                && r.viewer_old.highlights@.len() == 0 && r.viewer_new.highlights@.len() == 0
                && r.viewer_old.data@ == data_old@ && r.viewer_new.data@ == data_new@,
    {
        let ops = myers_diff(&data_old, &data_new);
        proof {
            if data_old@ == data_new@ {
                lemma_identical_script(ops@, data_old@);
            }
        }
        Comparator::from_ops(data_old, data_new, file_old, file_new, ops)
    }

    pub open spec fn well_formed(&self) -> bool {
        &&& self.viewer_old.well_formed()
        &&& self.viewer_new.well_formed()
    }

    /// Moves both selections one entry left.
    pub fn left(&mut self)
        requires
            old(self).well_formed(),
        ensures
            final(self).well_formed(),
            final(self).viewer_old.moved_from(&old(self).viewer_old, old(self).viewer_old.left_selection()),
            final(self).viewer_new.moved_from(&old(self).viewer_new, old(self).viewer_new.left_selection()),
            final(self).added == old(self).added,
            final(self).deleted == old(self).deleted,
            final(self).replaced == old(self).replaced,
    {
        self.viewer_old.left();
        self.viewer_new.left();
    }

    /// Moves both selections one entry right.
    pub fn right(&mut self)
        requires
            old(self).well_formed(),
        ensures
            final(self).well_formed(),
            final(self).viewer_old.moved_from(&old(self).viewer_old, old(self).viewer_old.right_selection()),
            final(self).viewer_new.moved_from(&old(self).viewer_new, old(self).viewer_new.right_selection()),
            final(self).added == old(self).added,
            final(self).deleted == old(self).deleted,
            final(self).replaced == old(self).replaced,
    {
        self.viewer_old.right();
        self.viewer_new.right();
    }

    /// Moves both selections one row up.
    pub fn up(&mut self)
        requires
            old(self).well_formed(),
        ensures
            final(self).well_formed(),
            final(self).viewer_old.moved_from(&old(self).viewer_old, old(self).viewer_old.up_selection()),
            final(self).viewer_new.moved_from(&old(self).viewer_new, old(self).viewer_new.up_selection()),
            final(self).added == old(self).added,
            final(self).deleted == old(self).deleted,
            final(self).replaced == old(self).replaced,
    {
        self.viewer_old.up();
        self.viewer_new.up();
    }

    /// Moves both selections one row down.
    pub fn down(&mut self)
        requires
            old(self).well_formed(),
        ensures
            final(self).well_formed(),
            final(self).viewer_old.moved_from(&old(self).viewer_old, old(self).viewer_old.down_selection()),
            final(self).viewer_new.moved_from(&old(self).viewer_new, old(self).viewer_new.down_selection()),
            final(self).added == old(self).added,
            final(self).deleted == old(self).deleted,
            final(self).replaced == old(self).replaced,
    {
        self.viewer_old.down();
        self.viewer_new.down();
    }
}

/// On identical buffers the script is one `Equal` step or nothing, so it
/// changes, marks and pads nothing.
proof fn lemma_identical_script(ops: Seq<EditOp>, data: Seq<Option<u8>>)
    requires
        data.len() <= usize::MAX,
        data.len() > 0 ==> ops == seq![
            EditOp { kind: EditKind::Equal, old: 0..data.len() as usize, new: 0..data.len() as usize },
        ],
        data.len() == 0 ==> ops.len() == 0,
    ensures
        added_total(ops) == 0,
        deleted_total(ops) == 0,
        replaced_total(ops) == 0,
        old_marks(ops).len() == 0,
        new_marks(ops).len() == 0,
        aligned_old(ops, data) == data,
        aligned_new(ops, data) == data,
{
    if data.len() > 0 {
        let op = EditOp { kind: EditKind::Equal, old: 0..data.len() as usize, new: 0..data.len() as usize };
        assert(ops.last() == op);
        assert(span(op) == data.len());
        let none = ops.drop_last();
        assert(none =~= Seq::<EditOp>::empty());
        assert(added_total(none) == 0 && deleted_total(none) == 0 && replaced_total(none) == 0);
        assert(old_marks(none).len() == 0 && new_marks(none).len() == 0 && span_total(none) == 0);
        assert(aligned_old(none, data).len() == 0 && aligned_new(none, data).len() == 0);
        assert(aligned_old(none, data) =~= seq![]);
        assert(aligned_new(none, data) =~= seq![]);
        assert(data.subrange(0, data.len() as int) =~= data);
        assert(absent(0) =~= Seq::<Option<u8>>::empty());
        assert(seq![] + data + absent(0) =~= data);
    }
}

} // verus!
