//! The editing session: a buffer of bytes, the selection over it, the mode
//! that governs input, the highlights laid over it and the command history.
use vstd::prelude::*;
use ratatui::style::Color;
use crate::command::{Command, CommandView};
use crate::config::{Config, Endian, HighlightUpdate as Policy};

verus! {

/// The selected bytes: one cursor, or a range between a fixed `center` and a
/// moving `current` edge, with `range` spanning both inclusively.
#[derive(Debug, PartialEq, Eq)]
pub enum Selection {
    Single(usize),
    Visual { current: usize, range: std::ops::Range<usize>, center: usize },
}

impl Clone for Selection {
    fn clone(&self) -> (r: Selection)
        ensures
            r == *self,
    {
        match self {
            Selection::Single(p) => Selection::Single(*p),
            Selection::Visual { current, range, center } => Selection::Visual {
                current: *current,
                range: range.start..range.end,
                center: *center,
            },
        }
    }
}

/// The visual selection with edge `current` and anchor `center`.
pub open spec fn visual_at(current: int, center: int) -> Selection {
    Selection::Visual {
        current: current as usize,
        range: (if current <= center { current } else { center }) as usize
            ..(if current <= center { center + 1 } else { current + 1 }) as usize,
        center: center as usize,
    }
}

impl Selection {
    /// The moving edge: the cursor itself, or `current`.
    pub open spec fn edge(self) -> int {
        match self {
            Selection::Single(p) => p as int,
            Selection::Visual { current, .. } => current as int,
        }
    }

    /// First selected byte.
    pub open spec fn first(self) -> int {
        match self {
            Selection::Single(p) => p as int,
            Selection::Visual { range, .. } => range.start as int,
        }
    }

    /// One past the last selected byte.
    pub open spec fn past(self) -> int {
        match self {
            Selection::Single(p) => p + 1,
            Selection::Visual { range, .. } => range.end as int,
        }
    }

    /// Every index lies in a buffer of `n` bytes, and a visual range spans
    /// exactly from the lower to the higher of its edge and anchor.
    pub open spec fn within(self, n: int) -> bool {
        match self {
            Selection::Single(p) => p < n,
            Selection::Visual { current, range, center } => {
                &&& current < n
                &&& center < n
                &&& self == visual_at(current as int, center as int)
            },
        }
    }

    /// The same kind of selection with its moving edge at `p`.
    pub open spec fn with_edge(self, p: int) -> Selection {
        match self {
            Selection::Single(_) => Selection::Single(p as usize),
            Selection::Visual { center, .. } => visual_at(p, center as int),
        }
    }
}

/// How input acts on the buffer.
#[derive(Clone, Copy, Debug, PartialEq, Eq, Structural)]
pub enum Mode {
    Normal,
    Visual,
    Replace,
    Insert,
}

/// Normal mode holds a single cursor, visual mode a range.
pub open spec fn mode_fits(mode: Mode, sel: Selection) -> bool {
    &&& mode == Mode::Normal ==> sel is Single
    &&& mode == Mode::Visual ==> sel is Visual
}

/// The one notice or prompt shown over the editor.
#[derive(Debug, PartialEq, Eq)]
pub enum Popup {
    Filename(String),
    Error { title: String, content: String },
    Overwrite(String),
}

/// Whether bytes were added to or removed from a range.
#[derive(Clone, Copy, Debug, PartialEq, Eq, Structural)]
pub enum HighlightUpdate {
    Add,
    Remove,
}

/// A labelled range `start..end` (end excluded) drawn in the given colors.
#[derive(Debug)]
pub struct Highlight {
    pub start: usize,
    pub end: usize,
    pub bg: Option<Color>,
    pub fg: Option<Color>,
    pub text: String,
}

/// Every highlight lies inside a buffer of `n` bytes.
pub open spec fn marks_fit(hs: Seq<Highlight>, n: int) -> bool {
    forall|i: int| 0 <= i < hs.len() ==> #[trigger] hs[i].start <= hs[i].end && hs[i].end <= n
}

/// Every highlight is ordered and its end can move by `k`.
pub open spec fn room_for(hs: Seq<Highlight>, k: int) -> bool {
    forall|i: int| 0 <= i < hs.len() ==> #[trigger] hs[i].start <= hs[i].end && hs[i].end + k <= usize::MAX
}

/// A highlight after `k` bytes were inserted at `p`: a start at or after `p`
/// moves by `k`, and so does an end after `p` (or the end of an empty
/// highlight that starts there).
pub open spec fn shifted_for_insert(h: Highlight, p: int, k: int) -> Highlight {
    Highlight {
        start: (if h.start >= p { h.start + k } else { h.start as int }) as usize,
        end: (if h.end > p || h.start >= p { h.end + k } else { h.end as int }) as usize,
        ..h
    }
}

/// A position after the bytes `a..b` were removed.
pub open spec fn pos_after_remove(x: int, a: int, b: int) -> int {
    if x <= a { x } else if x >= b { x - (b - a) } else { a }
}

/// A highlight wholly inside the removed bytes `a..b`.
pub open spec fn swallowed(h: Highlight, a: int, b: int) -> bool {
    a <= h.start && h.end <= b
}

/// A highlight after the bytes `a..b` were removed: positions after them move
/// back by their count, positions inside them move to `a`.
pub open spec fn shifted_for_remove(h: Highlight, a: int, b: int) -> Highlight {
    Highlight {
        start: pos_after_remove(h.start as int, a, b) as usize,
        end: pos_after_remove(h.end as int, a, b) as usize,
        ..h
    }
}

/// All highlights after `k` bytes were inserted at `p`.
pub open spec fn marks_after_insert(hs: Seq<Highlight>, p: int, k: int) -> Seq<Highlight>
    decreases hs.len(),
{
    if hs.len() == 0 {
        seq![]
    } else {
        marks_after_insert(hs.drop_last(), p, k).push(shifted_for_insert(hs.last(), p, k))
    }
}

/// The highlights that survive removing `a..b`, moved into place.
pub open spec fn marks_after_remove(hs: Seq<Highlight>, a: int, b: int) -> Seq<Highlight>
    decreases hs.len(),
{
    if hs.len() == 0 {
        seq![]
    } else {
        let rest = marks_after_remove(hs.drop_last(), a, b);
        if swallowed(hs.last(), a, b) {
            rest
        } else {
            rest.push(shifted_for_remove(hs.last(), a, b))
        }
    }
}

/// The abstract state of a session.
pub struct EditorState {
    pub data: Seq<u8>,
    pub selection: Selection,
    pub mode: Mode,
    pub highlights: Seq<Highlight>,
    /// The highlights were discarded and wait to be computed again.
    pub stale: bool,
    pub history: Seq<CommandView>,
    pub edited: bool,
    pub input: Option<u32>,
    pub config: Config,
}

pub open spec fn clamp(x: int, lo: int, hi: int) -> int {
    if x < lo { lo } else if x > hi { hi } else { x }
}

impl EditorState {
    pub open spec fn well_formed(self) -> bool {
        &&& 1 <= self.data.len() <= usize::MAX
        &&& self.selection.within(self.data.len() as int)
        &&& mode_fits(self.mode, self.selection)
        &&& marks_fit(self.highlights, self.data.len() as int)
        &&& self.stale ==> self.highlights.len() == 0
        &&& match self.input {
            Some(v) => v < 16,
            None => true,
        }
    }

    /// The selection's moving edge shifted by `offset`, kept inside the buffer.
    pub open spec fn moved(self, offset: int) -> EditorState {
        EditorState {
            selection: self.selection.with_edge(
                clamp(self.selection.edge() + offset, 0, self.data.len() - 1),
            ),
            ..self
        }
    }

    /// The selection's moving edge at `pos`, kept inside the buffer.
    pub open spec fn moved_to(self, pos: int) -> EditorState {
        EditorState {
            selection: self.selection.with_edge(
                if pos < self.data.len() - 1 { pos } else { self.data.len() - 1 },
            ),
            ..self
        }
    }

    /// Highlights after the bytes changed without moving: kept under the
    /// update policy, discarded until recomputed under the reload policy.
    pub open spec fn retouched(self) -> EditorState {
        if self.config.on_delete == Policy::Reload {
            EditorState { highlights: seq![], stale: true, edited: true, ..self }
        } else {
            EditorState { edited: true, ..self }
        }
    }

    /// The selected bytes overwritten: one value fills the range, a sequence
    /// of the range's length is laid over it.
    pub open spec fn overwritten(self, values: Seq<u8>) -> EditorState {
        let a = self.selection.first();
        let b = self.selection.past();
        EditorState {
            data: Seq::new(
                self.data.len(),
                |i: int|
                    if a <= i < b {
                        if values.len() == 1 { values[0] } else { values[i - a] }
                    } else {
                        self.data[i]
                    },
            ),
            ..self
        }.retouched()
    }

    /// `values` laid over the bytes from `start`.
    pub open spec fn restored(self, start: int, values: Seq<u8>) -> EditorState {
        EditorState {
            data: Seq::new(
                self.data.len(),
                |i: int| if start <= i < start + values.len() { values[i - start] } else { self.data[i] },
            ),
            ..self
        }.retouched()
    }

    /// `bytes` inserted at `at`, with the highlights following them.
    pub open spec fn grown(self, at: int, bytes: Seq<u8>) -> EditorState {
        EditorState {
            data: self.data.subrange(0, at) + bytes + self.data.subrange(at, self.data.len() as int),
            highlights: if self.config.on_delete == Policy::Reload {
                seq![]
            } else {
                marks_after_insert(self.highlights, at, bytes.len() as int)
            },
            stale: self.stale || self.config.on_delete == Policy::Reload,
            edited: true,
            ..self
        }
    }

    /// The bytes `a..b` removed, one zero byte left if nothing would remain,
    /// with the highlights following.
    pub open spec fn shrunk(self, a: int, b: int) -> EditorState {
        let rest = self.data.subrange(0, a) + self.data.subrange(b, self.data.len() as int);
        EditorState {
            data: if rest.len() == 0 { seq![0u8] } else { rest },
            highlights: if self.config.on_delete == Policy::Reload {
                seq![]
            } else {
                marks_after_remove(self.highlights, a, b)
            },
            stale: self.stale || self.config.on_delete == Policy::Reload,
            edited: true,
            ..self
        }
    }

    pub open spec fn recorded(self, c: CommandView) -> EditorState {
        EditorState { history: self.history.push(c), ..self }
    }
}

pub struct App {
    pub data: Vec<u8>,
    pub path: Option<String>,
    pub config: Config,
    pub selection: Selection,
    pub highlights: Vec<Highlight>,
    /// The highlights were discarded and wait to be computed again.
    pub stale: bool,
    pub history: Vec<Command>,
    pub height: u16,
    pub mode: Mode,
    pub popup: Option<Popup>,
    pub input: Option<u32>,
    pub edited: bool,
}

impl View for App {
    type V = EditorState;

    open spec fn view(&self) -> EditorState {
        EditorState {
            data: self.data@,
            selection: self.selection,
            mode: self.mode,
            highlights: self.highlights@,
            stale: self.stale,
            history: self.history@.map_values(|c: Command| c@),
            edited: self.edited,
            input: self.input,
            config: self.config,
        }
    }
}

impl App {
    pub open spec fn well_formed(&self) -> bool {
        self@.well_formed()
    }

    /// The parts that only the display reads are as in `other`.
    pub open spec fn same_frame(&self, other: &App) -> bool {
        &&& self.path == other.path
        &&& self.height == other.height
        &&& self.popup == other.popup
    }
}

/// `src[..a]`, then `ins`, then `src[b..]`.
pub fn spliced(src: &Vec<u8>, a: usize, b: usize, ins: &Vec<u8>) -> (r: Vec<u8>)
    requires
        a <= b <= src@.len(),
    ensures
        r@ == src@.subrange(0, a as int) + ins@ + src@.subrange(b as int, src@.len() as int),
{
    let mut r: Vec<u8> = Vec::new();
    let mut i: usize = 0;
    while i < a
        invariant
            i <= a <= b <= src@.len(),
            r@ == src@.subrange(0, i as int),
        decreases a - i,
    {
        r.push(src[i]);
        assert(src@.subrange(0, i + 1) == src@.subrange(0, i as int).push(src@[i as int]));
        i = i + 1;
    }
    let mut j: usize = 0;
    while j < ins.len()
        invariant
            j <= ins@.len(),
            r@ == src@.subrange(0, a as int) + ins@.subrange(0, j as int),
        decreases ins@.len() - j,
    {
        r.push(ins[j]);
        assert(ins@.subrange(0, j + 1) == ins@.subrange(0, j as int).push(ins@[j as int]));
        assert(src@.subrange(0, a as int) + ins@.subrange(0, j + 1) == (src@.subrange(0, a as int)
            + ins@.subrange(0, j as int)).push(ins@[j as int]));
        j = j + 1;
    }
    assert(ins@.subrange(0, ins@.len() as int) == ins@);
    let mut k: usize = b;
    while k < src.len()
        invariant
            b <= k <= src@.len(),
            r@ == src@.subrange(0, a as int) + ins@ + src@.subrange(b as int, k as int),
        decreases src@.len() - k,
    {
        r.push(src[k]);
        assert(src@.subrange(b as int, k + 1) == src@.subrange(b as int, k as int).push(src@[k as int]));
        assert(src@.subrange(0, a as int) + ins@ + src@.subrange(b as int, k + 1) == (src@.subrange(0, a as int)
            + ins@ + src@.subrange(b as int, k as int)).push(src@[k as int]));
        k = k + 1;
    }
    r
}

/// The selection of the same kind as `sel` with its moving edge at `p`.
pub fn selection_at(sel: &Selection, p: usize, n: usize) -> (r: Selection)
    requires
        sel.within(n as int),
        p < n,
    ensures
        r == sel.with_edge(p as int),
        r.within(n as int),
        r is Single <==> sel is Single,
{
    match sel {
        Selection::Single(_) => Selection::Single(p),
        Selection::Visual { center, .. } => {
            let c = *center;
            if p <= c {
                Selection::Visual { current: p, range: p..c + 1, center: c }
            } else {
                Selection::Visual { current: p, range: c..p + 1, center: c }
            }
        },
    }
}

impl App {
    /// The moving edge of the selection.
    pub fn single_selection(&self) -> (r: usize)
        ensures
            r == self.selection.edge(),
    {
        match &self.selection {
            Selection::Single(p) => *p,
            Selection::Visual { current, .. } => *current,
        }
    }

    /// The selected bytes, end excluded.
    pub fn selected(&self) -> (r: std::ops::Range<usize>)
        requires
            self.selection.within(self.data@.len() as int),
        ensures
            r.start == self.selection.first(),
            r.end == self.selection.past(),
            r.start < r.end <= self.data@.len(),
    {
        let n = self.data.len();
        match &self.selection {
            Selection::Single(p) => *p..*p + 1,
            Selection::Visual { range, .. } => range.start..range.end,
        }
    }

    pub fn set_popup(&mut self, popup: Popup)
        ensures
            final(self).popup == Some(popup),
            final(self)@ == old(self)@,
            final(self).path == old(self).path,
            final(self).height == old(self).height,
    {
        self.popup = Some(popup);
    }

    pub fn clear_popup(&mut self)
        ensures
            final(self).popup.is_none(),
            final(self)@ == old(self)@,
            final(self).path == old(self).path,
            final(self).height == old(self).height,
    {
        self.popup = None;
    }

    /// Switches the byte order of the info view.
    pub fn change_endian(&mut self)
        ensures
            final(self)@ == (EditorState {
                config: Config {
                    endian: if old(self).config.endian == Endian::Little { Endian::Big } else { Endian::Little },
                    ..old(self).config
                },
                ..old(self)@
            }),
            final(self).same_frame(old(self)),
    {
        self.config.toggle_endian();
    }

    /// Moves every highlight along with bytes added to or removed from `range`.
    pub fn move_highlights(&mut self, range: std::ops::Range<usize>, update: HighlightUpdate)
        requires
            range.start <= range.end,
            update == HighlightUpdate::Add ==> room_for(old(self).highlights@, range.end - range.start),
        ensures
            final(self).highlights@ == (if update == HighlightUpdate::Add {
                marks_after_insert(old(self).highlights@, range.start as int, range.end - range.start)
            } else {
                marks_after_remove(old(self).highlights@, range.start as int, range.end as int)
            }),
            update == HighlightUpdate::Add ==> final(self).highlights@.len() == old(self).highlights@.len(),
            update == HighlightUpdate::Add ==> forall|i: int| 0 <= i < old(self).highlights@.len()
                ==> #[trigger] final(self).highlights@[i] == shifted_for_insert(
                old(self).highlights@[i],
                range.start as int,
                range.end - range.start,
            ),
            final(self).data == old(self).data,
            final(self).selection == old(self).selection,
            final(self).mode == old(self).mode,
            final(self).stale == old(self).stale,
            final(self).history == old(self).history,
            final(self).edited == old(self).edited,
            final(self).input == old(self).input,
            final(self).config == old(self).config,
            final(self).same_frame(old(self)),
    {
        let mut rest: Vec<Highlight> = Vec::new();
        std::mem::swap(&mut rest, &mut self.highlights);
        let ghost orig = rest@;
        let k = range.end - range.start;
        assert(orig == old(self).highlights@);
        let mut out: Vec<Highlight> = Vec::new();
        let ghost mut i: int = 0;
        while rest.len() > 0
            invariant
                0 <= i <= orig.len(),
                rest@ == orig.subrange(i, orig.len() as int),
                k == range.end - range.start,
                range.start <= range.end,
                update == HighlightUpdate::Add ==> room_for(orig, k as int),
                out@ == (if update == HighlightUpdate::Add {
                    marks_after_insert(orig.subrange(0, i), range.start as int, k as int)
                } else {
                    marks_after_remove(orig.subrange(0, i), range.start as int, range.end as int)
                }),
            decreases rest@.len(),
        {
            let h = rest.remove(0);
            proof {
                assert(h == orig[i]);
                assert(orig.subrange(0, i + 1).drop_last() == orig.subrange(0, i));
                assert(orig.subrange(0, i + 1).last() == orig[i]);
                assert(rest@ =~= orig.subrange(i + 1, orig.len() as int));
            }
            assert(update == HighlightUpdate::Add ==> h.start <= h.end && h.end + k <= usize::MAX);
            let Highlight { start, end, bg, fg, text } = h;
            match update {
                HighlightUpdate::Add => {
                    let s = if start >= range.start { start + k } else { start };
                    let e = if end > range.start || start >= range.start { end + k } else { end };
                    out.push(Highlight { start: s, end: e, bg, fg, text });
                },
                HighlightUpdate::Remove => {
                    if !(range.start <= start && end <= range.end) {
                        let s = if start <= range.start { start } else if start >= range.end { start - k } else { range.start };
                        let e = if end <= range.start { end } else if end >= range.end { end - k } else { range.start };
                        out.push(Highlight { start: s, end: e, bg, fg, text });
                    }
                },
            }
            proof {
                i = i + 1;
            }
        }
        proof {
            assert(orig.subrange(0, orig.len() as int) == orig);
            if update == HighlightUpdate::Add {
                if orig.len() > 0 {
                    lemma_insert_each(orig, range.start as int, k as int, 0);
                } else {
                    assert(marks_after_insert(orig, range.start as int, k as int).len() == 0);
                }
                assert forall|i: int| 0 <= i < orig.len() implies #[trigger] out@[i] == shifted_for_insert(
                    orig[i],
                    range.start as int,
                    k as int,
                ) by {
                    lemma_insert_each(orig, range.start as int, k as int, i);
                }
            }
        }
        self.highlights = out;
    }
}

/// Rebasing a list of highlights for an insertion rebases each in place.
pub proof fn lemma_insert_each(hs: Seq<Highlight>, p: int, k: int, i: int)
    requires
        0 <= i < hs.len(),
    ensures
        marks_after_insert(hs, p, k).len() == hs.len(),
        marks_after_insert(hs, p, k)[i] == shifted_for_insert(hs[i], p, k),
    decreases hs.len(),
{
    let rest = hs.drop_last();
    if rest.len() > 0 {
        lemma_insert_each(rest, p, k, if i < rest.len() { i } else { 0 });
    } else {
        assert(marks_after_insert(rest, p, k).len() == 0);
    }
    assert(hs.last() == hs[hs.len() - 1]);
}

/// Rebasing for an insertion keeps every highlight, inside the grown buffer.
pub proof fn lemma_insert_marks_fit(hs: Seq<Highlight>, p: int, k: int, n: int)
    requires
        marks_fit(hs, n),
        0 <= p <= n,
        k >= 0,
        n + k <= usize::MAX,
    ensures
        marks_fit(marks_after_insert(hs, p, k), n + k),
        marks_after_insert(hs, p, k).len() == hs.len(),
    decreases hs.len(),
{
    if hs.len() > 0 {
        let r = hs.drop_last();
        assert forall|i: int| 0 <= i < r.len() implies #[trigger] r[i].start <= r[i].end && r[i].end <= n by {
            assert(r[i] == hs[i]);
        }
        lemma_insert_marks_fit(r, p, k, n);
        let res = marks_after_insert(hs, p, k);
        let prev = marks_after_insert(r, p, k);
        assert(hs.last() == hs[hs.len() - 1]);
        assert forall|i: int| 0 <= i < res.len() implies #[trigger] res[i].start <= res[i].end
            && res[i].end <= n + k by {
            if i < prev.len() {
                assert(res[i] == prev[i]);
            }
        }
    }
}

/// Rebasing for a removal keeps the highlights inside the shrunk buffer, and
/// removing everything leaves none.
pub proof fn lemma_remove_marks_fit(hs: Seq<Highlight>, a: int, b: int, n: int)
    requires
        marks_fit(hs, n),
        0 <= a <= b <= n,
    ensures
        marks_fit(marks_after_remove(hs, a, b), n - (b - a)),
        marks_after_remove(hs, a, b).len() <= hs.len(),
        a == 0 && b == n ==> marks_after_remove(hs, a, b).len() == 0,
    decreases hs.len(),
{
    if hs.len() > 0 {
        let r = hs.drop_last();
        assert forall|i: int| 0 <= i < r.len() implies #[trigger] r[i].start <= r[i].end && r[i].end <= n by {
            assert(r[i] == hs[i]);
        }
        lemma_remove_marks_fit(r, a, b, n);
        let res = marks_after_remove(hs, a, b);
        let prev = marks_after_remove(r, a, b);
        assert(hs.last() == hs[hs.len() - 1]);
        assert forall|i: int| 0 <= i < res.len() implies #[trigger] res[i].start <= res[i].end
            && res[i].end <= n - (b - a) by {
            if i < prev.len() {
                assert(res[i] == prev[i]);
            }
        }
    }
}

/// Highlights inside `n` bytes lie inside any larger buffer.
pub proof fn lemma_marks_fit_wider(hs: Seq<Highlight>, n: int, m: int)
    requires
        marks_fit(hs, n),
        n <= m,
    ensures
        marks_fit(hs, m),
{
}

/// Whether `sel` lies in a buffer of `n` bytes.
pub fn fits(sel: &Selection, n: usize) -> (r: bool)
    ensures
        r == sel.within(n as int),
{
    match sel {
        Selection::Single(p) => *p < n,
        Selection::Visual { current, range, center } => {
            if *current < n && *center < n {
                if *current <= *center {
                    range.start == *current && range.end == *center + 1
                } else {
                    range.start == *center && range.end == *current + 1
                }
            } else {
                false
            }
        },
    }
}

/// Whether `mode` admits the kind of `sel`.
pub fn agrees(mode: Mode, sel: &Selection) -> (r: bool)
    ensures
        r == mode_fits(mode, *sel),
{
    match sel {
        Selection::Single(_) => mode != Mode::Visual,
        Selection::Visual { .. } => mode != Mode::Normal,
    }
}

/// A copy of `src[a..b]`.
pub fn copy_range(src: &Vec<u8>, a: usize, b: usize) -> (r: Vec<u8>)
    requires
        a <= b <= src@.len(),
    ensures
        r@ == src@.subrange(a as int, b as int),
{
    let mut r: Vec<u8> = Vec::new();
    let mut i: usize = a;
    while i < b
        invariant
            a <= i <= b <= src@.len(),
            r@ == src@.subrange(a as int, i as int),
        decreases b - i,
    {
        r.push(src[i]);
        assert(src@.subrange(a as int, i + 1) == src@.subrange(a as int, i as int).push(src@[i as int]));
        i = i + 1;
    }
    r
}

/// `src` with the bytes `a..b` overwritten: by the single value, or by the
/// values in order.
pub fn overlaid(src: &Vec<u8>, a: usize, b: usize, values: &Vec<u8>) -> (r: Vec<u8>)
    requires
        a <= b <= src@.len(),
        values@.len() == 1 || values@.len() == b - a,
    ensures
        r@ == Seq::new(
            src@.len(),
            |i: int|
                if a <= i < b {
                    if values@.len() == 1 { values@[0] } else { values@[i - a] }
                } else {
                    src@[i]
                },
        ),
{
    let ghost target = Seq::new(
        src@.len(),
        |i: int|
            if a <= i < b {
                if values@.len() == 1 { values@[0] } else { values@[i - a] }
            } else {
                src@[i]
            },
    );
    let mut r: Vec<u8> = Vec::new();
    let mut i: usize = 0;
    while i < src.len()
        invariant
            i <= src@.len(),
            a <= b <= src@.len(),
            values@.len() == 1 || values@.len() == b - a,
            target.len() == src@.len(),
            forall|j: int| 0 <= j < src@.len() ==> #[trigger] target[j] == (if a <= j < b {
                if values@.len() == 1 { values@[0] } else { values@[j - a] }
            } else {
                src@[j]
            }),
            r@ == target.subrange(0, i as int),
        decreases src@.len() - i,
    {
        let v = if a <= i && i < b {
            if values.len() == 1 { values[0] } else { values[i - a] }
        } else {
            src[i]
        };
        r.push(v);
        assert(target.subrange(0, i + 1) == target.subrange(0, i as int).push(target[i as int]));
        i = i + 1;
    }
    assert(target.subrange(0, src@.len() as int) == target);
    r
}

/// The first row shown and the bytes shown, `start..end`, for a window of
/// `height` rows of sixteen bytes that follows the cursor.
pub open spec fn visible(edge: int, height: int, len: int) -> (int, int) {
    let current = edge / 16;
    let rows = len / 16;
    let max_rows = (if rows > height { rows - height } else { 0 }) + 1;
    let lifted = if current > height / 2 { current - height / 2 } else { 0 };
    let start = if lifted < max_rows { lifted } else { max_rows };
    let end = if (start + height) * 16 < len { (start + height) * 16 } else { len };
    (start * 16, end)
}

impl App {
    /// A session over `data` (one zero byte when empty), cursor on the first
    /// byte, in normal mode, with highlights still to be computed.
    pub fn new(data: Vec<u8>, path: Option<String>, config: Config, height: u16) -> (r: App)
        ensures
            r@.data == (if data@.len() == 0 { seq![0u8] } else { data@ }),
            r@.selection == Selection::Single(0),
            r@.mode == Mode::Normal,
            r@.highlights.len() == 0,
            r@.stale,
            r@.history.len() == 0,
            !r@.edited,
            r@.input.is_none(),
            r@.config == config,
            r.path == path,
            r.height == (if height >= 4 { height - 4 } else { 0 }),
            r.popup.is_none(),
            r.well_formed(),
    {
        let mut data = data;
        if data.len() == 0 {
            data.push(0);
            assert(data@ =~= seq![0u8]);
        }
        let n = data.len();
        let app = App {
            data,
            path,
            config,
            selection: Selection::Single(0),
            highlights: Vec::new(),
            stale: true,
            history: Vec::new(),
            height: if height >= 4 { height - 4 } else { 0 },
            mode: Mode::Normal,
            popup: None,
            input: None,
            edited: false,
        };
        assert(app@.history =~= Seq::<CommandView>::empty());
        app
    }

    /// Takes the highlights of a recomputation pass over the current bytes;
    /// a list that does not fit the buffer is taken as empty.
    pub fn set_highlights(&mut self, highlights: Vec<Highlight>)
        requires
            old(self).well_formed(),
        ensures
            final(self)@ == (EditorState {
                highlights: if marks_fit(highlights@, old(self).data@.len() as int) {
                    highlights@
                } else {
                    seq![]
                },
                stale: false,
                ..old(self)@
            }),
            final(self).well_formed(),
            final(self).same_frame(old(self)),
    {
        let n = self.data.len();
        let mut ok = true;
        let mut i: usize = 0;
        while i < highlights.len()
            invariant
                i <= highlights@.len(),
                ok == forall|j: int| 0 <= j < i ==> #[trigger] highlights@[j].start <= highlights@[j].end
                    && highlights@[j].end <= n,
            decreases highlights@.len() - i,
        {
            if highlights[i].start > highlights[i].end || highlights[i].end > n {
                ok = false;
            }
            i = i + 1;
        }
        assert(ok == marks_fit(highlights@, n as int));
        if ok {
            self.highlights = highlights;
        } else {
            self.highlights = Vec::new();
        }
        self.stale = false;
    }

    /// Follows a change of the selected bytes with the highlights: moved
    /// along under the update policy, discarded for a recompute under the
    /// reload policy.
    pub fn update_highlights(&mut self, update: HighlightUpdate)
        requires
            old(self).well_formed(),
            update == HighlightUpdate::Add ==> room_for(
                old(self).highlights@,
                old(self).selection.past() - old(self).selection.first(),
            ),
        ensures
            final(self)@ == (if old(self).config.on_delete == Policy::Reload {
                EditorState { highlights: seq![], stale: true, ..old(self)@ }
            } else if update == HighlightUpdate::Add {
                EditorState {
                    highlights: marks_after_insert(
                        old(self).highlights@,
                        old(self).selection.first(),
                        old(self).selection.past() - old(self).selection.first(),
                    ),
                    ..old(self)@
                }
            } else {
                EditorState {
                    highlights: marks_after_remove(
                        old(self).highlights@,
                        old(self).selection.first(),
                        old(self).selection.past(),
                    ),
                    ..old(self)@
                }
            }),
            final(self).same_frame(old(self)),
    {
        if self.config.on_delete == Policy::Reload {
            self.highlights = Vec::new();
            self.stale = true;
        } else {
            let range = self.selected();
            self.move_highlights(range, update);
        }
    }

    /// Records the outcome of writing the buffer to `path`: on success the
    /// path is kept, the buffer counts as saved and any notice is closed; on
    /// failure an error notice shows the message.
    pub fn write(&mut self, path: String, outcome: Result<(), String>)
        ensures
            match outcome {
                Ok(()) => final(self)@ == (EditorState { edited: false, ..old(self)@ }) && final(self).path
                    == Some(path) && final(self).popup.is_none(),
                Err(message) => final(self)@ == old(self)@ && final(self).path == old(self).path
                    && match final(self).popup {
                    Some(Popup::Error { title, content }) => title@ == "File Error"@ && content == message,
                    _ => false,
                },
            },
            final(self).height == old(self).height,
    {
        match outcome {
            Ok(()) => {
                self.path = Some(path);
                self.edited = false;
                self.clear_popup();
            },
            Err(message) => {
                let title = "File Error".to_owned();
                self.set_popup(Popup::Error { title, content: message });
            },
        }
    }

    /// Decides whether writing to `path` may go ahead: an existing file first
    /// asks for confirmation.
    pub fn write_ask(&mut self, path: String, exists: bool) -> (r: bool)
        ensures
            r == !exists,
            final(self)@ == old(self)@,
            final(self).path == old(self).path,
            final(self).height == old(self).height,
            exists ==> final(self).popup == Some(Popup::Overwrite(path)),
            !exists ==> final(self).popup == old(self).popup,
    {
        if exists {
            self.set_popup(Popup::Overwrite(path));
            false
        } else {
            true
        }
    }

    /// The bytes shown in a window of `height` rows that follows the cursor.
    pub fn visible_range(&self) -> (r: std::ops::Range<usize>)
        requires
            self.well_formed(),
        ensures
            (r.start as int, r.end as int) == visible(
                self.selection.edge(),
                self.height as int,
                self.data@.len() as int,
            ),
            r.start % 16 == 0,
            r.start <= r.end <= self.data@.len(),
            r.end - r.start <= 16 * self.height,
            self.height >= 1 ==> r.start <= self.selection.edge() < r.end,
    {
        let len = self.data.len();
        let current = self.single_selection() / 16;
        let height = self.height as usize;
        let rows = len / 16;
        let max_rows = (if rows > height { rows - height } else { 0 }) + 1;
        let lifted = if current > height / 2 { current - height / 2 } else { 0 };
        let start = if lifted < max_rows { lifted } else { max_rows };
        assert(start <= rows);
        assert(start * 16 <= len) by (nonlinear_arith)
            requires start <= rows, rows == len / 16;
        proof {
            let e = self.selection.edge();
            assert(e < len);
            assert(current * 16 <= e < current * 16 + 16) by (nonlinear_arith)
                requires current == e / 16, e >= 0;
            assert(start * 16 <= current * 16) by (nonlinear_arith)
                requires start <= current;
            if height == 0 {
            } else if start == max_rows && max_rows < lifted {
                assert(rows * 16 + 16 > len) by (nonlinear_arith)
                    requires rows == len / 16, len >= 0;
                assert((start + height) * 16 >= rows * 16 + 16) by (nonlinear_arith)
                    requires start + height >= rows + 1;
            } else {
                assert((start + height) * 16 >= current * 16 + 16) by (nonlinear_arith)
                    requires start + height >= current + 1;
            }
        }
        let end = if (start as u128 + height as u128) * 16 < len as u128 {
            (start + height) * 16
        } else {
            len
        };
        (start * 16)..end
    }
}

} // verus!
