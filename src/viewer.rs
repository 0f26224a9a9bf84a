//! One side of the comparator: a sequence of present or absent bytes, a
//! selection over it, and the marked ranges to draw.
use vstd::prelude::*;
use ratatui::style::Color;

verus! {

/// How movement reshapes the selection of a viewer.
#[derive(Clone, Copy, Debug, PartialEq, Eq, Structural)]
pub enum Mode {
    Normal,
    Insert,
    Visual,
}

/// An inclusive range `start..=end` drawn in the given colors.
#[derive(Clone, Copy, Debug, PartialEq, Eq)]
pub struct Highlight {
    pub start: usize,
    pub end: usize,
    pub bg: Color,
    pub fg: Color,
}

impl Highlight {
    /// Collapses the range onto one position.
    pub fn set(&mut self, pos: usize)
        ensures
            *final(self) == (Highlight { start: pos, end: pos, ..*old(self) }),
    {
        self.start = pos;
        self.end = pos;
    }
}

/// The colors given to the `k`-th marked range, in turn.
pub open spec fn palette(k: int) -> (Color, Color) {
    if k % 4 == 0 {
        (Color::Red, Color::White)
    } else if k % 4 == 1 {
        (Color::Green, Color::White)
    } else if k % 4 == 2 {
        (Color::Yellow, Color::Black)
    } else {
        (Color::Blue, Color::White)
    }
}

pub fn palette_colors(k: usize) -> (r: (Color, Color))
    ensures
        r == palette(k as int),
{
    if k % 4 == 0 {
        (Color::Red, Color::White)
    } else if k % 4 == 1 {
        (Color::Green, Color::White)
    } else if k % 4 == 2 {
        (Color::Yellow, Color::Black)
    } else {
        (Color::Blue, Color::White)
    }
}

pub struct Viewer {
    pub data: Vec<Option<u8>>,
    pub selection: Highlight,
    pub filename: Option<String>,
    pub mode: Mode,
    pub highlights: Vec<Highlight>,
    pub edited: bool,
}

/// The selection and every marked range lie inside a sequence of `len`
/// entries (at position 0 when there is none).
pub open spec fn fits(sel: Highlight, marks: Seq<Highlight>, len: int) -> bool {
    &&& sel.start <= sel.end
    &&& len == 0 ==> sel.end == 0
    &&& len > 0 ==> sel.end < len
    &&& marks_below(marks, len)
}

/// Every marked range is ordered and ends before `len`.
pub open spec fn marks_below(marks: Seq<Highlight>, len: int) -> bool {
    forall|i: int| #![trigger marks[i]] 0 <= i < marks.len() ==> marks[i].start <= marks[i].end && marks[i].end < len
}

proof fn lemma_marks_below_wider(marks: Seq<Highlight>, len: int, wider: int)
    requires
        marks_below(marks, len),
        len <= wider,
    ensures
        marks_below(marks, wider),
{
    assert forall|i: int| 0 <= i < marks.len() implies #[trigger] marks[i].start <= marks[i].end
        && marks[i].end < wider by {
        assert(marks[i].start <= marks[i].end && marks[i].end < len);
    }
}

proof fn lemma_marks_below_push(marks: Seq<Highlight>, h: Highlight, len: int)
    requires
        marks_below(marks, len),
        h.start <= h.end < len,
    ensures
        marks_below(marks.push(h), len),
{
    let m = marks.push(h);
    assert forall|i: int| 0 <= i < m.len() implies #[trigger] m[i].start <= m[i].end && m[i].end < len by {
        if i < marks.len() {
            assert(m[i] == marks[i]);
            assert(marks[i].start <= marks[i].end && marks[i].end < len);
        }
    }
}

proof fn lemma_marks_below_remove(marks: Seq<Highlight>, k: int, len: int)
    requires
        marks_below(marks, len),
        0 <= k < marks.len(),
    ensures
        marks_below(marks.remove(k), len),
{
    let m = marks.remove(k);
    assert forall|i: int| 0 <= i < m.len() implies #[trigger] m[i].start <= m[i].end && m[i].end < len by {
        if i < k {
            assert(m[i] == marks[i]);
            assert(marks[i].start <= marks[i].end && marks[i].end < len);
        } else {
            assert(m[i] == marks[i + 1]);
            assert(marks[i + 1].start <= marks[i + 1].end && marks[i + 1].end < len);
        }
    }
}

/// `pos` one step to the left, stopping at 0.
pub open spec fn step_left(pos: int) -> int {
    if pos > 0 { pos - 1 } else { 0 }
}

/// `pos` one row of sixteen up, stopping at 0.
pub open spec fn step_up(pos: int) -> int {
    if pos < 16 { 0 } else { pos - 16 }
}

/// `pos` one step to the right, stopping at the last entry.
pub open spec fn step_right(pos: int, len: int) -> int {
    if pos + 1 < len { pos + 1 } else { pos }
}

/// `pos` one row of sixteen down, stopping at the last entry.
pub open spec fn step_down(pos: int, len: int) -> int {
    if len == 0 { pos } else if pos + 16 < len { pos + 16 } else { len - 1 }
}

/// The selection after its moving end went to `end`: outside visual mode
/// both ends follow; in visual mode the end never passes the start.
pub open spec fn moved_to(sel: Highlight, mode: Mode, end: int) -> Highlight {
    if mode == Mode::Visual {
        Highlight { end: if end < sel.start { sel.start } else { end as usize }, ..sel }
    } else {
        Highlight { start: end as usize, end: end as usize, ..sel }
    }
}

/// An inclusive range that lies inside the deleted range `s..=e`.
pub open spec fn covered(h: Highlight, s: int, e: int) -> bool {
    s <= h.start && h.end <= e
}

/// A range after `s..=e` was deleted: positions after the deleted range move
/// back by its length; a start inside it moves to the first entry after it,
/// an end inside it to the last entry before it.
pub open spec fn shifted(h: Highlight, s: int, e: int) -> Highlight {
    let len = e - s + 1;
    Highlight {
        start: (if h.start <= s { h.start as int } else if h.start > e { h.start - len } else { s }) as usize,
        end: (if h.end < s { h.end as int } else if h.end > e { h.end - len } else { s - 1 }) as usize,
        ..h
    }
}

/// The marked ranges that survive deleting `s..=e`, moved into place.
pub open spec fn kept_marks(hs: Seq<Highlight>, s: int, e: int) -> Seq<Highlight>
    decreases hs.len(),
{
    if hs.len() == 0 {
        seq![]
    } else {
        let rest = kept_marks(hs.drop_last(), s, e);
        if covered(hs.last(), s, e) { rest } else { rest.push(shifted(hs.last(), s, e)) }
    }
}

/// `i` is the first marked range that has exactly the selection's bounds.
pub open spec fn first_same(hs: Seq<Highlight>, sel: Highlight, i: int) -> bool {
    &&& 0 <= i < hs.len()
    &&& hs[i].start == sel.start && hs[i].end == sel.end
    &&& forall|j: int| 0 <= j < i ==> !(hs[j].start == sel.start && hs[j].end == sel.end)
}

/// The entries that hold a byte, in order.
pub open spec fn present(d: Seq<Option<u8>>) -> Seq<u8>
    decreases d.len(),
{
    if d.len() == 0 {
        seq![]
    } else {
        let rest = present(d.drop_last());
        match d.last() {
            Some(b) => rest.push(b),
            None => rest,
        }
    }
}

impl Viewer {
    /// The selection after moving left.
    pub open spec fn left_selection(&self) -> Highlight {
        moved_to(self.selection, self.mode, step_left(self.selection.end as int))
    }

    /// The selection after moving right.
    pub open spec fn right_selection(&self) -> Highlight {
        moved_to(self.selection, self.mode, step_right(self.selection.end as int, self.data@.len() as int))
    }

    /// The selection after moving one row up.
    pub open spec fn up_selection(&self) -> Highlight {
        moved_to(self.selection, self.mode, step_up(self.selection.end as int))
    }

    /// The selection after moving one row down.
    pub open spec fn down_selection(&self) -> Highlight {
        moved_to(self.selection, self.mode, step_down(self.selection.end as int, self.data@.len() as int))
    }

    /// `self` is `before` with only the selection changed, to `sel`.
    pub open spec fn moved_from(&self, before: &Viewer, sel: Highlight) -> bool {
        &&& self.selection == sel
        &&& self.data == before.data
        &&& self.highlights == before.highlights
        &&& self.mode == before.mode
        &&& self.filename == before.filename
        &&& self.edited == before.edited
    }

    /// The selection and every marked range lie inside the entries (at
    /// position 0 when there is none); outside visual mode the selection is
    /// one entry.
    pub open spec fn well_formed(&self) -> bool {
        &&& fits(self.selection, self.highlights@, self.data@.len() as int)
        &&& self.mode != Mode::Visual ==> self.selection.start == self.selection.end
    }

    pub fn new(data: Vec<Option<u8>>, filename: Option<String>) -> (r: Viewer)
        ensures
            r.data@ == data@,
            r.filename == filename,
            r.selection == (Highlight { start: 0, end: 0, bg: Color::DarkGray, fg: Color::White }),
            r.mode == Mode::Normal,
            r.highlights@.len() == 0,
            !r.edited,
            r.well_formed(),
    {
        Viewer {
            selection: Highlight { start: 0, end: 0, bg: Color::DarkGray, fg: Color::White },
            data,
            filename,
            mode: Mode::Normal,
            highlights: Vec::new(),
            edited: false,
        }
    }

    pub fn left(&mut self)
        requires
            old(self).well_formed(),
        ensures
            final(self).well_formed(),
            final(self).moved_from(old(self), old(self).left_selection()),
    {
        if self.selection.end > 0 {
            self.selection.end = self.selection.end - 1;
        }
        if self.mode != Mode::Visual {
            let end = self.selection.end;
            self.selection.set(end);
        } else if self.selection.end < self.selection.start {
            let start = self.selection.start;
            self.selection.set(start);
        }
    }

    pub fn right(&mut self)
        requires
            old(self).well_formed(),
        ensures
            final(self).well_formed(),
            final(self).moved_from(old(self), old(self).right_selection()),
    {
        if self.data.len() > 0 && self.selection.end < self.data.len() - 1 {
            self.selection.end = self.selection.end + 1;
        }
        if self.mode != Mode::Visual {
            let end = self.selection.end;
            self.selection.set(end);
        }
    }

    pub fn up(&mut self)
        requires
            old(self).well_formed(),
        ensures
            final(self).well_formed(),
            final(self).moved_from(old(self), old(self).up_selection()),
    {
        if self.selection.end < 16 {
            self.selection.end = 0;
        } else {
            self.selection.end = self.selection.end - 16;
        }
        if self.mode != Mode::Visual {
            let end = self.selection.end;
            self.selection.set(end);
        } else if self.selection.end < self.selection.start {
            self.selection.end = self.selection.start;
        }
    }

    pub fn down(&mut self)
        requires
            old(self).well_formed(),
        ensures
            final(self).well_formed(),
            final(self).moved_from(old(self), old(self).down_selection()),
    {
        let len = self.data.len();
        if len > 0 {
            if len >= 16 && self.selection.end < len - 16 {
                self.selection.end = self.selection.end + 16;
            } else {
                self.selection.end = len - 1;
            }
        }
        if self.mode != Mode::Visual {
            let end = self.selection.end;
            self.selection.set(end);
        }
    }

    /// Writes `value` over every selected entry.
    pub fn set(&mut self, value: Option<u8>)
        requires
            old(self).well_formed(),
        ensures
            final(self).well_formed(),
            final(self).data@ == Seq::new(
                old(self).data@.len(),
                |i: int| if old(self).selection.start <= i <= old(self).selection.end { value } else {
                    old(self).data@[i]
                },
            ),
            final(self).edited,
            final(self).selection == old(self).selection,
            final(self).highlights == old(self).highlights,
            final(self).mode == old(self).mode,
            final(self).filename == old(self).filename,
    {
        self.edited = true;
        let n = self.data.len();
        if n == 0 {
            assert(self.data@ =~= Seq::new(0, |i: int| value));
            return;
        }
        let ghost orig = self.data@;
        let s = self.selection.start;
        let e = self.selection.end;
        let mut i: usize = s;
        while i <= e
            invariant
                s <= i <= e + 1,
                e < n,
                n == orig.len(),
                self.data@.len() == n,
                forall|j: int| 0 <= j < n ==> #[trigger] self.data@[j] == if s <= j < i { value } else {
                    orig[j]
                },
                self.edited,
                self.selection == old(self).selection,
                self.highlights == old(self).highlights,
                self.mode == old(self).mode,
                self.filename == old(self).filename,
                s == self.selection.start,
                e == self.selection.end,
            decreases e + 1 - i,
        {
            self.data.set(i, value);
            i = i + 1;
        }
        assert(self.data@ =~= Seq::new(
            orig.len(),
            |j: int| if s <= j <= e { value } else { orig[j] },
        ));
    }

    /// The bytes to save, absent entries left out, when the viewer has a
    /// file name; the viewer then counts as saved.
    pub fn flush(&mut self) -> (r: Option<Vec<u8>>)
        requires
            old(self).well_formed(),
        ensures
            final(self).well_formed(),
            match r {
                Some(bytes) => old(self).filename is Some && bytes@ == present(old(self).data@)
                    && !final(self).edited,
                None => old(self).filename is None && final(self).edited == old(self).edited,
            },
            final(self).data == old(self).data,
            final(self).selection == old(self).selection,
            final(self).highlights == old(self).highlights,
            final(self).mode == old(self).mode,
            final(self).filename == old(self).filename,
    {
        if self.filename.is_none() {
            return None;
        }
        let mut out: Vec<u8> = Vec::new();
        let mut i: usize = 0;
        while i < self.data.len()
            invariant
                i <= self.data@.len(),
                out@ == present(self.data@.subrange(0, i as int)),
            decreases self.data@.len() - i,
        {
            proof {
                let p = self.data@.subrange(0, i + 1);
                assert(p.drop_last() == self.data@.subrange(0, i as int));
                assert(p.last() == self.data@[i as int]);
            }
            match self.data[i] {
                Some(b) => out.push(b),
                None => {},
            }
            i = i + 1;
        }
        assert(self.data@.subrange(0, self.data@.len() as int) == self.data@);
        self.edited = false;
        Some(out)
    }

    /// Inserts a zero byte after the selection's end.
    pub fn append(&mut self)
        requires
            old(self).well_formed(),
        ensures
            final(self).well_formed(),
            final(self).data@ == old(self).data@.insert(
                if old(self).selection.end + 1 < old(self).data@.len() {
                    old(self).selection.end + 1
                } else {
                    old(self).data@.len() as int
                },
                Some(0u8),
            ),
            final(self).edited,
            final(self).selection == old(self).selection,
            final(self).highlights == old(self).highlights,
            final(self).mode == old(self).mode,
            final(self).filename == old(self).filename,
    {
        self.edited = true;
        let n = self.data.len();
        proof {
            lemma_marks_below_wider(self.highlights@, n as int, n + 1);
        }
        if n > 0 && self.selection.end < n - 1 {
            self.data.insert(self.selection.end + 1, Some(0));
        } else {
            self.data.push(Some(0));
            assert(self.data@ =~= old(self).data@.insert(n as int, Some(0u8)));
        }
        assert(fits(self.selection, self.highlights@, self.data@.len() as int));
    }

    /// Deletes the selected entries; marked ranges inside them go, the others
    /// move with the entries, and one zero byte stays if nothing would.
    pub fn delete(&mut self)
        requires
            old(self).well_formed(),
        ensures
            final(self).well_formed(),
            old(self).data@.len() == 0 ==> final(self).data == old(self).data
                && final(self).highlights == old(self).highlights
                && final(self).selection == old(self).selection,
            old(self).data@.len() > 0 ==> {
                let s = old(self).selection.start as int;
                let e = old(self).selection.end as int;
                let rest = old(self).data@.subrange(0, s) + old(self).data@.subrange(e + 1, old(self).data@.len() as int);
                let kept = if rest.len() == 0 { seq![Some(0u8)] } else { rest };
                &&& final(self).data@ == kept
                &&& final(self).highlights@ == kept_marks(old(self).highlights@, s, e)
                &&& final(self).selection == (Highlight {
                    start: (if s < kept.len() - 1 { s } else { kept.len() - 1 }) as usize,
                    end: (if e < kept.len() - 1 { e } else { kept.len() - 1 }) as usize,
                    ..old(self).selection
                })
            },
            final(self).edited,
            final(self).mode == old(self).mode,
            final(self).filename == old(self).filename,
    {
        self.edited = true;
        let n = self.data.len();
        if n == 0 {
            return;
        }
        let s = self.selection.start;
        let e = self.selection.end;
        let mut rest: Vec<Option<u8>> = Vec::new();
        let mut i: usize = 0;
        while i < n
            invariant
                i <= n == self.data@.len(),
                s <= e < n,
                rest@ == (if i <= s { self.data@.subrange(0, i as int) } else if i <= e + 1 {
                    self.data@.subrange(0, s as int)
                } else {
                    self.data@.subrange(0, s as int) + self.data@.subrange(e + 1, i as int)
                }),
            decreases n - i,
        {
            if i < s || i > e {
                rest.push(self.data[i]);
            }
            proof {
                if i < s {
                    assert(self.data@.subrange(0, i + 1) == self.data@.subrange(0, i as int).push(self.data@[i as int]));
                } else if i > e {
                    assert(self.data@.subrange(e + 1, i + 1) == self.data@.subrange(e + 1, i as int).push(self.data@[i as int]));
                    assert(self.data@.subrange(0, s as int) + self.data@.subrange(e + 1, i + 1) == (self.data@.subrange(0, s as int)
                        + self.data@.subrange(e + 1, i as int)).push(self.data@[i as int]));
                } else if i == e {
                    assert(self.data@.subrange(e + 1, e + 1) =~= Seq::<Option<u8>>::empty());
                    assert(self.data@.subrange(0, s as int) + self.data@.subrange(e + 1, e + 1) =~= self.data@.subrange(0, s as int));
                }
            }
            i = i + 1;
        }
        if e + 1 == n {
            assert(self.data@.subrange(e + 1, n as int) =~= Seq::<Option<u8>>::empty());
            assert(self.data@.subrange(0, s as int) + self.data@.subrange(e + 1, n as int) =~= self.data@.subrange(0, s as int));
        }
        if rest.len() == 0 {
            rest.push(Some(0));
            assert(rest@ =~= seq![Some(0u8)]);
        }
        let marks = self.kept(s, e);
        self.data = rest;
        self.highlights = marks;
        let m = self.data.len();
        self.selection.start = if s < m - 1 { s } else { m - 1 };
        self.selection.end = if e < m - 1 { e } else { m - 1 };
        proof {
            lemma_marks_below_wider(self.highlights@, n - (e - s + 1), m as int);
        }
    }

    /// The marked ranges that survive deleting `s..=e`, moved into place.
    fn kept(&self, s: usize, e: usize) -> (r: Vec<Highlight>)
        requires
            self.well_formed(),
            s <= e < self.data@.len(),
        ensures
            r@ == kept_marks(self.highlights@, s as int, e as int),
            marks_below(r@, self.data@.len() - (e - s + 1)),
    {
        let n = self.data.len();
        let len = e - s + 1;
        let ghost hs = self.highlights@;
        assert(fits(self.selection, hs, n as int));
        let mut out: Vec<Highlight> = Vec::new();
        let mut i: usize = 0;
        while i < self.highlights.len()
            invariant
                i <= hs.len(),
                hs == self.highlights@,
                s <= e < n == self.data@.len(),
                len == e - s + 1,
                fits(self.selection, hs, n as int),
                out@ == kept_marks(hs.subrange(0, i as int), s as int, e as int),
                marks_below(out@, n - len),
            decreases hs.len() - i,
        {
            let h = self.highlights[i];
            assert(hs[i as int].start <= hs[i as int].end && hs[i as int].end < n);
            let ghost before = out@;
            proof {
                let p = hs.subrange(0, i + 1);
                assert(p.drop_last() == hs.subrange(0, i as int));
                assert(p.last() == hs[i as int]);
            }
            if !(s <= h.start && h.end <= e) {
                let start = if h.start <= s { h.start } else if h.start > e { h.start - len } else { s };
                let end = if h.end < s { h.end } else if h.end > e { h.end - len } else { s - 1 };
                assert(start <= end && end < n - len);
                proof {
                    lemma_marks_below_push(out@, Highlight { start, end, ..h }, n - len);
                }
                out.push(Highlight { start, end, ..h });
            }
            i = i + 1;
        }
        assert(hs.subrange(0, hs.len() as int) == hs);
        out
    }

    /// Drops the marked range with exactly the selection's bounds, or marks
    /// the selection in the next colors of the palette. An empty viewer has
    /// nothing to mark.
    pub fn highlight(&mut self)
        requires
            old(self).well_formed(),
        ensures
            final(self).well_formed(),
            old(self).data@.len() == 0 ==> final(self).highlights == old(self).highlights,
            old(self).data@.len() > 0 ==> (exists|i: int| first_same(old(self).highlights@, old(self).selection, i)
                && final(self).highlights@ == old(self).highlights@.remove(i))
            || ((forall|i: int| 0 <= i < old(self).highlights@.len() ==> !(
                #[trigger] old(self).highlights@[i].start == old(self).selection.start
                && old(self).highlights@[i].end == old(self).selection.end))
                && final(self).highlights@ == old(self).highlights@.push(
                Highlight {
                    bg: palette(old(self).highlights@.len() as int).0,
                    fg: palette(old(self).highlights@.len() as int).1,
                    ..old(self).selection
                },
            )),
            final(self).data == old(self).data,
            final(self).selection == old(self).selection,
            final(self).mode == old(self).mode,
            final(self).filename == old(self).filename,
            final(self).edited == old(self).edited,
    {
        if self.data.len() == 0 {
            return;
        }
        assert(fits(old(self).selection, old(self).highlights@, old(self).data@.len() as int));
        let mut i: usize = 0;
        while i < self.highlights.len()
            invariant
                i <= self.highlights@.len(),
                fits(old(self).selection, old(self).highlights@, old(self).data@.len() as int),
                forall|j: int| 0 <= j < i ==> !(#[trigger] self.highlights@[j].start == self.selection.start
                    && self.highlights@[j].end == self.selection.end),
                old(self).well_formed(),
                self.data == old(self).data,
                self.selection == old(self).selection,
                self.highlights == old(self).highlights,
                self.mode == old(self).mode,
                self.filename == old(self).filename,
                self.edited == old(self).edited,
            decreases self.highlights@.len() - i,
        {
            if self.highlights[i].start == self.selection.start && self.highlights[i].end == self.selection.end {
                let ghost before = self.highlights@;
                assert(first_same(before, self.selection, i as int));
                proof {
                    lemma_marks_below_remove(before, i as int, self.data@.len() as int);
                }
                self.highlights.remove(i);
                return;
            }
            i = i + 1;
        }
        let (bg, fg) = palette_colors(self.highlights.len());
        let mark = Highlight { bg, fg, ..self.selection };
        let ghost before = self.highlights@;
        assert(fits(self.selection, before, self.data@.len() as int));
        proof {
            lemma_marks_below_push(before, mark, self.data@.len() as int);
        }
        self.highlights.push(mark);
    }
}

} // verus!
