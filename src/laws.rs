//! Properties of the editing session that hold for every state.
use vstd::prelude::*;
use crate::app::{
    clamp, lemma_insert_each, room_for, EditorState, Highlight, Mode, Selection, marks_after_insert, marks_after_remove,
    shifted_for_insert, shifted_for_remove, swallowed, visual_at,
};
use crate::command::CommandView;

verus! {

/// A command that only moves the selection.
pub open spec fn is_navigation(c: CommandView) -> bool {
    c is Move || c is Position
}

/// The state after running `cmds` in order.
pub open spec fn ran(s: EditorState, cmds: Seq<CommandView>) -> EditorState
    decreases cmds.len(),
{
    if cmds.len() == 0 { s } else { ran(s, cmds.drop_last()).executed(cmds.last()) }
}

/// Any sequence of moves and jumps keeps the buffer as it is and every index
/// of the selection inside it.
pub proof fn lemma_navigation_in_bounds(s: EditorState, cmds: Seq<CommandView>)
    requires
        s.well_formed(),
        forall|i: int| 0 <= i < cmds.len() ==> is_navigation(#[trigger] cmds[i]),
    ensures
        ran(s, cmds).data == s.data,
        ran(s, cmds).selection.within(s.data.len() as int),
        ran(s, cmds).well_formed(),
    decreases cmds.len(),
{
    if cmds.len() > 0 {
        let rest = cmds.drop_last();
        assert forall|i: int| 0 <= i < rest.len() implies is_navigation(#[trigger] rest[i]) by {
            assert(rest[i] == cmds[i]);
        }
        lemma_navigation_in_bounds(s, rest);
        assert(is_navigation(cmds[cmds.len() - 1]));
        let before = ran(s, rest);
        let n = s.data.len() as int;
        match cmds.last() {
            CommandView::Move(offset) => {
                lemma_with_edge_within(before.selection, clamp(before.selection.edge() + offset, 0, n - 1), n);
            },
            CommandView::Position { new, .. } => {
                lemma_with_edge_within(before.selection, if new < n - 1 { new as int } else { n - 1 }, n);
            },
            _ => {},
        }
    }
}

/// Moving the edge of a selection inside the buffer keeps it inside, and of
/// the same kind.
pub proof fn lemma_with_edge_within(sel: Selection, p: int, n: int)
    requires
        sel.within(n),
        0 <= p < n <= usize::MAX,
    ensures
        sel.with_edge(p).within(n),
        sel.with_edge(p) is Single <==> sel is Single,
{
    match sel {
        Selection::Single(_) => {},
        Selection::Visual { current, range, center } => {
            assert(sel.with_edge(p) == visual_at(p, center as int));
        },
    }
}

/// Deleting the selection and then undoing it gives back the same bytes, the
/// same selection and the same mode.
pub proof fn lemma_delete_undo(s: EditorState)
    requires
        s.well_formed(),
    ensures
        s.executed(CommandView::Delete {
            bytes: seq![],
            start: 0,
            selection: Selection::Single(0),
            mode: Mode::Normal,
            filled: false,
        }).undone().data == s.data,
        s.executed(CommandView::Delete {
            bytes: seq![],
            start: 0,
            selection: Selection::Single(0),
            mode: Mode::Normal,
            filled: false,
        }).undone().selection == s.selection,
        s.executed(CommandView::Delete {
            bytes: seq![],
            start: 0,
            selection: Selection::Single(0),
            mode: Mode::Normal,
            filled: false,
        }).undone().mode == s.mode,
{
    let a = s.selection.first();
    let b = s.selection.past();
    let n = s.data.len() as int;
    assert(0 <= a < b <= n);
    let d = s.deleted();
    let t = s.shrunk(a, b);
    let rest = s.data.subrange(0, a) + s.data.subrange(b, n);
    assert(d.history.drop_last() == s.history);
    let p = EditorState { history: d.history.drop_last(), ..d };
    assert(s.data.subrange(0, n) == s.data);
    if a == 0 && b == n {
        assert(rest.len() == 0);
        assert(s.data.subrange(a, b) =~= s.data);
    } else {
        assert(rest.subrange(0, a) + s.data.subrange(a, b) + rest.subrange(a, rest.len() as int) =~= s.data);
    }
}

/// Inserting a byte and then undoing it gives back the same bytes.
pub proof fn lemma_insert_undo(s: EditorState)
    requires
        s.well_formed(),
    ensures
        s.executed(CommandView::Insert { at: 0 }).undone().data == s.data,
{
    let p = s.selection.edge();
    let n = s.data.len() as int;
    let g = s.grown(p, seq![s.config.empty_value]);
    assert(g.data.len() == n + 1);
    let r = g.data.subrange(0, p) + g.data.subrange(p + 1, n + 1);
    assert(r =~= s.data);
}

/// Inserting `k` bytes at `p` moves a highlight that starts at or after `p`
/// by `k`, both ends.
pub proof fn lemma_insert_moves_later(h: Highlight, p: int, k: int)
    requires
        h.start >= p,
        h.start <= h.end,
        0 <= k,
        h.end + k <= usize::MAX,
    ensures
        shifted_for_insert(h, p, k).start == h.start + k,
        shifted_for_insert(h, p, k).end == h.end + k,
{
}

/// Inserting `k` bytes at `p` keeps every highlight, in order: each one that
/// starts at or after `p` moves by `k`, each one that starts before `p`
/// keeps its start.
pub proof fn lemma_insert_moves_all(hs: Seq<Highlight>, p: int, k: int)
    requires
        room_for(hs, k),
        0 <= k,
    ensures
        marks_after_insert(hs, p, k).len() == hs.len(),
        forall|i: int| 0 <= i < hs.len() && hs[i].start >= p ==> (#[trigger] marks_after_insert(hs, p, k)[i]).start
            == hs[i].start + k && marks_after_insert(hs, p, k)[i].end == hs[i].end + k,
        forall|i: int| 0 <= i < hs.len() && hs[i].start < p ==> (#[trigger] marks_after_insert(hs, p, k)[i]).start
            == hs[i].start,
{
    if hs.len() > 0 {
        lemma_insert_each(hs, p, k, 0);
    } else {
        assert(marks_after_insert(hs, p, k).len() == 0);
    }
    assert forall|i: int| 0 <= i < hs.len() implies (#[trigger] marks_after_insert(hs, p, k)[i])
        == shifted_for_insert(hs[i], p, k) by {
        lemma_insert_each(hs, p, k, i);
    }
    assert forall|i: int| 0 <= i < hs.len() implies #[trigger] hs[i].start <= hs[i].end
        && hs[i].end + k <= usize::MAX by {
    }
}

/// Deleting bytes that all lie after a highlight leaves it as it was.
pub proof fn lemma_delete_after_keeps(h: Highlight, a: int, b: int)
    requires
        h.start <= h.end,
        h.end < a,
        a <= b,
    ensures
        !swallowed(h, a, b),
        shifted_for_remove(h, a, b) == h,
{
}

/// Deleting bytes that all lie after every highlight leaves the list as it was.
pub proof fn lemma_delete_after_keeps_all(hs: Seq<Highlight>, a: int, b: int)
    requires
        a <= b,
        forall|i: int| 0 <= i < hs.len() ==> #[trigger] hs[i].start <= hs[i].end && hs[i].end < a,
    ensures
        marks_after_remove(hs, a, b) == hs,
    decreases hs.len(),
{
    if hs.len() > 0 {
        let rest = hs.drop_last();
        assert forall|i: int| 0 <= i < rest.len() implies #[trigger] rest[i].start <= rest[i].end
            && rest[i].end < a by {
            assert(rest[i] == hs[i]);
        }
        lemma_delete_after_keeps_all(rest, a, b);
        assert(hs.last() == hs[hs.len() - 1]);
        lemma_delete_after_keeps(hs.last(), a, b);
        assert(rest.push(hs.last()) =~= hs);
    }
}

/// From normal mode, entering visual mode and leaving it again restores the cursor.
pub proof fn lemma_visual_round_trip(s: EditorState)
    requires
        s.well_formed(),
        s.mode == Mode::Normal,
    ensures
        s.executed(CommandView::SetMode { mode: Mode::Visual, selection: Selection::Single(0) })
            .executed(CommandView::SetMode { mode: Mode::Normal, selection: Selection::Single(0) })
            .selection == s.selection,
        s.executed(CommandView::SetMode { mode: Mode::Visual, selection: Selection::Single(0) })
            .executed(CommandView::SetMode { mode: Mode::Normal, selection: Selection::Single(0) })
            .mode == Mode::Normal,
{
}

} // verus!
