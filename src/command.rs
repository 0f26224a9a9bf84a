//! Reversible commands: each records what it needs to undo itself.
use vstd::prelude::*;
use crate::app::{
    App, EditorState, HighlightUpdate, Mode, Selection, agrees, copy_range, fits,
    lemma_insert_marks_fit, lemma_marks_fit_wider, lemma_remove_marks_fit, marks_fit, mode_fits,
    overlaid, selection_at, spliced, visual_at,
};
use crate::config::HighlightUpdate as Policy;

verus! {

#[derive(Debug)]
pub struct SetMode {
    pub mode: Mode,
    pub selection: Selection,
}

#[derive(Debug)]
pub struct Move(pub i32);

#[derive(Debug)]
pub struct Position {
    pub new: usize,
    pub old: usize,
}

#[derive(Debug)]
pub struct Delete {
    pub bytes: Vec<u8>,
    pub start: usize,
    pub selection: Selection,
    pub mode: Mode,
    pub filled: bool,
}

#[derive(Debug)]
pub struct Overwrite {
    pub values: Vec<u8>,
    pub start: usize,
}

#[derive(Debug)]
pub struct Insert {
    pub at: usize,
}

/// A command to run, or the record of one that ran.
#[derive(Debug)]
pub enum Command {
    SetMode(SetMode),
    Move(Move),
    Position(Position),
    Delete(Delete),
    Overwrite(Overwrite),
    Insert(Insert),
}

/// The abstract value of a command.
pub enum CommandView {
    SetMode { mode: Mode, selection: Selection },
    Move(i32),
    Position { new: usize, old: usize },
    Delete { bytes: Seq<u8>, start: usize, selection: Selection, mode: Mode, filled: bool },
    Overwrite { values: Seq<u8>, start: usize },
    Insert { at: usize },
}

impl View for Command {
    type V = CommandView;

    open spec fn view(&self) -> CommandView {
        match self {
            Command::SetMode(c) => CommandView::SetMode { mode: c.mode, selection: c.selection },
            Command::Move(c) => CommandView::Move(c.0),
            Command::Position(c) => CommandView::Position { new: c.new, old: c.old },
            Command::Delete(c) => CommandView::Delete {
                bytes: c.bytes@,
                start: c.start,
                selection: c.selection,
                mode: c.mode,
                filled: c.filled,
            },
            Command::Overwrite(c) => CommandView::Overwrite { values: c.values@, start: c.start },
            Command::Insert(c) => CommandView::Insert { at: c.at },
        }
    }
}

impl SetMode {
    pub fn new(mode: Mode) -> (r: SetMode)
        ensures
            r.mode == mode,
            r.selection == Selection::Single(0),
    {
        SetMode { mode, selection: Selection::Single(0) }
    }
}

impl Move {
    pub fn new(offset: i32) -> (r: Move)
        ensures
            r.0 == offset,
    {
        Move(offset)
    }
}

impl Position {
    pub fn new(pos: usize) -> (r: Position)
        ensures
            r.new == pos,
            r.old == 0,
    {
        Position { new: pos, old: 0 }
    }
}

impl Delete {
    pub fn new() -> (r: Delete)
        ensures
            r.bytes@.len() == 0,
            r.start == 0,
            r.selection == Selection::Single(0),
            r.mode == Mode::Normal,
            !r.filled,
    {
        Delete { bytes: Vec::new(), start: 0, selection: Selection::Single(0), mode: Mode::Normal, filled: false }
    }
}

impl Overwrite {
    /// Fills the selection with one value.
    pub fn new(value: u8) -> (r: Overwrite)
        ensures
            r.values@ == seq![value],
            r.start == 0,
    {
        Overwrite { values: vec![value], start: 0 }
    }
}

impl Insert {
    pub fn new() -> (r: Insert)
        ensures
            r.at == 0,
    {
        Insert { at: 0 }
    }
}

impl EditorState {
    /// A byte of the configured fill value inserted at the cursor, which
    /// stays on it, recorded.
    pub open spec fn inserted(self) -> EditorState {
        let p = self.selection.edge();
        self.grown(p, seq![self.config.empty_value]).recorded(CommandView::Insert { at: p as usize })
    }

    /// The selected bytes removed, the cursor on the first byte after them
    /// (or the last byte), normal mode, recorded.
    pub open spec fn deleted(self) -> EditorState {
        let a = self.selection.first();
        let b = self.selection.past();
        let t = self.shrunk(a, b);
        EditorState {
            selection: Selection::Single((if a < t.data.len() - 1 { a } else { t.data.len() - 1 }) as usize),
            mode: Mode::Normal,
            ..t
        }.recorded(CommandView::Delete {
            bytes: self.data.subrange(a, b),
            start: a as usize,
            selection: self.selection,
            mode: self.mode,
            filled: a == 0 && b == self.data.len(),
        })
    }

    /// The mode switched to `target`, recorded; the mode already active is
    /// kept with nothing recorded. Normal mode collapses the
    /// selection to its edge and drops pending input, visual mode opens a
    /// range on a single cursor, insert mode first inserts a byte.
    pub open spec fn mode_set(self, target: Mode) -> EditorState {
        let entry = CommandView::SetMode { mode: self.mode, selection: self.selection };
        if target == self.mode {
            self
        } else if target == Mode::Normal {
            EditorState {
                mode: Mode::Normal,
                selection: Selection::Single(self.selection.edge() as usize),
                input: None,
                ..self
            }.recorded(entry)
        } else if target == Mode::Visual {
            EditorState {
                mode: Mode::Visual,
                selection: match self.selection {
                    Selection::Single(p) => visual_at(p as int, p as int),
                    _ => self.selection,
                },
                ..self
            }.recorded(entry)
        } else if target == Mode::Replace {
            EditorState { mode: Mode::Replace, ..self }.recorded(entry)
        } else {
            EditorState { mode: Mode::Insert, ..self.inserted() }.recorded(entry)
        }
    }

    /// A command can run: a sequence written over the selection matches its length.
    pub open spec fn accepts(self, c: CommandView) -> bool {
        match c {
            CommandView::Overwrite { values, .. } => values.len() == 1 || values.len()
                == self.selection.past() - self.selection.first(),
            _ => true,
        }
    }

    /// The state after running `c` (what it recorded of an earlier run is
    /// ignored), with its record on top of the history.
    pub open spec fn executed(self, c: CommandView) -> EditorState {
        match c {
            CommandView::Move(offset) => self.moved(offset as int).recorded(CommandView::Move(offset)),
            CommandView::Position { new, .. } => self.moved_to(new as int).recorded(
                CommandView::Position { new, old: self.selection.edge() as usize },
            ),
            CommandView::Overwrite { values, .. } => self.overwritten(values).recorded(
                CommandView::Overwrite {
                    values: self.data.subrange(self.selection.first(), self.selection.past()),
                    start: self.selection.first() as usize,
                },
            ),
            CommandView::Insert { .. } => self.inserted(),
            CommandView::Delete { .. } => self.deleted(),
            CommandView::SetMode { mode, .. } => self.mode_set(mode),
        }
    }

    /// The state after reversing the command on top of the history.
    pub open spec fn undone(self) -> EditorState {
        if self.history.len() == 0 {
            self
        } else {
            EditorState { history: self.history.drop_last(), ..self }.reversed(self.history.last())
        }
    }

    /// The effect of reversing the recorded command `e`. A record that does
    /// not fit the buffer any more has no effect.
    pub open spec fn reversed(self, e: CommandView) -> EditorState {
        let n = self.data.len();
        match e {
            CommandView::Move(offset) => self.moved(-offset),
            CommandView::Position { old, .. } => self.moved_to(old as int),
            CommandView::Overwrite { values, start } => if start + values.len() <= n {
                self.restored(start as int, values)
            } else {
                self
            },
            CommandView::Insert { at } => if at < n && n >= 2 {
                EditorState {
                    selection: Selection::Single((if at < n - 2 { at as int } else { n - 2 }) as usize),
                    mode: Mode::Normal,
                    ..self.shrunk(at as int, at + 1)
                }
            } else {
                self
            },
            CommandView::Delete { bytes, start, selection, mode, filled } => {
                let refill = filled && n == 1 && bytes.len() >= 1;
                let regrow = !filled && start <= n;
                let t = if refill {
                    EditorState { data: bytes, ..self }.retouched()
                } else {
                    self.grown(start as int, bytes)
                };
                if !refill && !regrow {
                    self
                } else if selection.within(t.data.len() as int) && mode_fits(mode, selection) {
                    EditorState { selection, mode, ..t }
                } else {
                    EditorState {
                        selection: Selection::Single(
                            (if start < t.data.len() - 1 { start as int } else { t.data.len() - 1 }) as usize,
                        ),
                        mode: Mode::Normal,
                        ..t
                    }
                }
            },
            CommandView::SetMode { mode, selection } => if selection.within(n as int) && mode_fits(
                mode,
                selection,
            ) {
                EditorState { mode, selection, ..self }
            } else {
                self
            },
        }
    }
}

proof fn lemma_history_push(h: Seq<Command>, c: Command)
    ensures
        h.push(c).map_values(|x: Command| x@) == h.map_values(|x: Command| x@).push(c@),
{
    assert(h.push(c).map_values(|x: Command| x@) =~= h.map_values(|x: Command| x@).push(c@));
}

proof fn lemma_history_pop(h: Seq<Command>)
    requires
        h.len() > 0,
    ensures
        h.drop_last().map_values(|x: Command| x@) == h.map_values(|x: Command| x@).drop_last(),
        h.map_values(|x: Command| x@).last() == h.last()@,
{
    assert(h.drop_last().map_values(|x: Command| x@) =~= h.map_values(|x: Command| x@).drop_last());
}

impl App {
    /// Marks the buffer edited, and discards the highlights for a recompute
    /// under the reload policy.
    fn retouch(&mut self)
        ensures
            final(self)@ == old(self)@.retouched(),
            final(self).same_frame(old(self)),
    {
        if self.config.on_delete == Policy::Reload {
            self.highlights = Vec::new();
            self.stale = true;
        }
        self.edited = true;
    }

    fn grow(&mut self, at: usize, bytes: &Vec<u8>)
        requires
            at <= old(self).data@.len(),
            marks_fit(old(self).highlights@, old(self).data@.len() as int),
            old(self).stale ==> old(self).highlights@.len() == 0,
        ensures
            final(self)@ == old(self)@.grown(at as int, bytes@),
            final(self).same_frame(old(self)),
            marks_fit(final(self).highlights@, final(self).data@.len() as int),
            final(self).stale ==> final(self).highlights@.len() == 0,
            final(self).data@.len() == old(self).data@.len() + bytes@.len(),
    {
        let n = self.data.len();
        let d = spliced(&self.data, at, at, bytes);
        self.data = d;
        let m = self.data.len();
        let k = bytes.len();
        if self.config.on_delete == Policy::Reload {
            self.highlights = Vec::new();
            self.stale = true;
        } else {
            proof {
                lemma_insert_marks_fit(self.highlights@, at as int, k as int, n as int);
            }
            self.move_highlights(at..at + k, HighlightUpdate::Add);
        }
        self.edited = true;
    }

    fn shrink(&mut self, a: usize, b: usize)
        requires
            a <= b <= old(self).data@.len(),
            marks_fit(old(self).highlights@, old(self).data@.len() as int),
            old(self).stale ==> old(self).highlights@.len() == 0,
        ensures
            final(self)@ == old(self)@.shrunk(a as int, b as int),
            final(self).same_frame(old(self)),
            marks_fit(final(self).highlights@, final(self).data@.len() as int),
            final(self).stale ==> final(self).highlights@.len() == 0,
            final(self).data@.len() >= 1,
    {
        let n = self.data.len();
        let none: Vec<u8> = Vec::new();
        let mut d = spliced(&self.data, a, b, &none);
        assert(self.data@.subrange(0, a as int) + none@ + self.data@.subrange(b as int, n as int)
            =~= self.data@.subrange(0, a as int) + self.data@.subrange(b as int, n as int));
        if d.len() == 0 {
            d.push(0);
            assert(d@ =~= seq![0u8]);
        }
        self.data = d;
        if self.config.on_delete == Policy::Reload {
            self.highlights = Vec::new();
            self.stale = true;
        } else {
            proof {
                lemma_remove_marks_fit(self.highlights@, a as int, b as int, n as int);
                lemma_marks_fit_wider(
                    crate::app::marks_after_remove(self.highlights@, a as int, b as int),
                    n - (b - a),
                    self.data@.len() as int,
                );
            }
            self.move_highlights(a..b, HighlightUpdate::Remove);
        }
        self.edited = true;
    }

    /// Moves the selection's edge by `offset`, kept inside the buffer.
    fn shift_edge(&mut self, offset: i64)
        requires
            old(self).well_formed(),
            -0x8000_0000 <= offset <= 0x8000_0000,
        ensures
            final(self)@ == old(self)@.moved(offset as int),
            final(self).well_formed(),
            final(self).same_frame(old(self)),
    {
        let n = self.data.len();
        let e = self.single_selection();
        let p: usize = if offset >= 0 {
            let d = offset as usize;
            if d >= n - 1 - e { n - 1 } else { e + d }
        } else {
            let d = (0 - offset) as usize;
            if d >= e { 0 } else { e - d }
        };
        self.selection = selection_at(&self.selection, p, n);
    }

    /// Moves the selection's edge to `pos`, kept inside the buffer.
    fn jump(&mut self, pos: usize)
        requires
            old(self).well_formed(),
        ensures
            final(self)@ == old(self)@.moved_to(pos as int),
            final(self).well_formed(),
            final(self).same_frame(old(self)),
    {
        let n = self.data.len();
        let p = if pos < n - 1 { pos } else { n - 1 };
        self.selection = selection_at(&self.selection, p, n);
    }

    fn run_insert(&mut self)
        requires
            old(self).well_formed(),
        ensures
            final(self)@ == old(self)@.inserted(),
            final(self).well_formed(),
            final(self).same_frame(old(self)),
    {
        let p = self.single_selection();
        let fill = vec![self.config.empty_value];
        assert(fill@ == seq![self.config.empty_value]);
        self.grow(p, &fill);
        let m = self.data.len();
        let c = Command::Insert(Insert { at: p });
        proof {
            lemma_history_push(self.history@, c);
        }
        self.history.push(c);
    }

    fn run_delete(&mut self)
        requires
            old(self).well_formed(),
        ensures
            final(self)@ == old(self)@.deleted(),
            final(self).well_formed(),
            final(self).same_frame(old(self)),
    {
        let r = self.selected();
        let a = r.start;
        let b = r.end;
        let n = self.data.len();
        let removed = copy_range(&self.data, a, b);
        let filled = a == 0 && b == n;
        let prev_selection = self.selection.clone();
        let prev_mode = self.mode;
        self.shrink(a, b);
        let m = self.data.len();
        let c = if a < m - 1 { a } else { m - 1 };
        self.selection = Selection::Single(c);
        self.mode = Mode::Normal;
        let entry = Command::Delete(
            Delete { bytes: removed, start: a, selection: prev_selection, mode: prev_mode, filled },
        );
        proof {
            lemma_history_push(self.history@, entry);
        }
        self.history.push(entry);
    }

    fn run_set_mode(&mut self, target: Mode)
        requires
            old(self).well_formed(),
        ensures
            final(self)@ == old(self)@.mode_set(target),
            final(self).well_formed(),
            final(self).same_frame(old(self)),
    {
        let entry_selection = self.selection.clone();
        let entry_mode = self.mode;
        if target == self.mode {
            return;
        }
        {
            match target {
                Mode::Normal => {
                    let e = self.single_selection();
                    self.mode = Mode::Normal;
                    self.selection = Selection::Single(e);
                    self.input = None;
                },
                Mode::Visual => {
                    self.mode = Mode::Visual;
                    let n = self.data.len();
                    match self.selection {
                        Selection::Single(p) => {
                            self.selection = Selection::Visual { current: p, range: p..p + 1, center: p };
                        },
                        _ => {},
                    }
                },
                Mode::Replace => {
                    self.mode = Mode::Replace;
                },
                Mode::Insert => {
                    self.run_insert();
                    self.mode = Mode::Insert;
                },
            }
        }
        let entry = Command::SetMode(SetMode { mode: entry_mode, selection: entry_selection });
        proof {
            lemma_history_push(self.history@, entry);
        }
        self.history.push(entry);
    }

    /// Runs a command and records it in the history.
    pub fn execute(&mut self, command: Command)
        requires
            old(self).well_formed(),
            old(self)@.accepts(command@),
        ensures
            final(self)@ == old(self)@.executed(command@),
            final(self).well_formed(),
            final(self).same_frame(old(self)),
    {
        match command {
            Command::Move(m) => {
                self.shift_edge(m.0 as i64);
                let entry = Command::Move(m);
                proof {
                    lemma_history_push(self.history@, entry);
                }
                self.history.push(entry);
            },
            Command::Position(p) => {
                let old = self.single_selection();
                self.jump(p.new);
                let entry = Command::Position(Position { new: p.new, old });
                proof {
                    lemma_history_push(self.history@, entry);
                }
                self.history.push(entry);
            },
            Command::Overwrite(o) => {
                let r = self.selected();
                let prev = copy_range(&self.data, r.start, r.end);
                let d = overlaid(&self.data, r.start, r.end, &o.values);
                self.data = d;
                self.retouch();
                let entry = Command::Overwrite(Overwrite { values: prev, start: r.start });
                proof {
                    lemma_history_push(self.history@, entry);
                }
                self.history.push(entry);
            },
            Command::Insert(_) => self.run_insert(),
            Command::Delete(_) => self.run_delete(),
            Command::SetMode(c) => self.run_set_mode(c.mode),
        }
    }

    fn reverse_overwrite(&mut self, o: Overwrite)
        requires
            old(self).well_formed(),
        ensures
            final(self)@ == old(self)@.reversed(Command::Overwrite(o)@),
            final(self).well_formed(),
            final(self).same_frame(old(self)),
    {
        let n = self.data.len();
        if o.start <= n && o.values.len() <= n - o.start {
            let end = o.start + o.values.len();
            let d = overlaid(&self.data, o.start, end, &o.values);
            assert(d@ =~= Seq::new(
                n as nat,
                |i: int| if o.start <= i < o.start + o.values@.len() {
                    o.values@[i - o.start]
                } else {
                    self.data@[i]
                },
            ));
            self.data = d;
            self.retouch();
        }
    }

    fn reverse_insert(&mut self, at: usize)
        requires
            old(self).well_formed(),
        ensures
            final(self)@ == old(self)@.reversed(CommandView::Insert { at }),
            final(self).well_formed(),
            final(self).same_frame(old(self)),
    {
        let n = self.data.len();
        if at < n && n >= 2 {
            self.shrink(at, at + 1);
            let c = if at < n - 2 { at } else { n - 2 };
            self.selection = Selection::Single(c);
            self.mode = Mode::Normal;
        }
    }

    fn reverse_delete(&mut self, d: Delete)
        requires
            old(self).well_formed(),
        ensures
            final(self)@ == old(self)@.reversed(Command::Delete(d)@),
            final(self).well_formed(),
            final(self).same_frame(old(self)),
    {
        let n = self.data.len();
        let refill = d.filled && n == 1 && d.bytes.len() >= 1;
        let regrow = !d.filled && d.start <= n;
        if refill || regrow {
            if refill {
                proof {
                    lemma_marks_fit_wider(self.highlights@, 1, d.bytes@.len() as int);
                }
                self.data = d.bytes;
                self.retouch();
            } else {
                self.grow(d.start, &d.bytes);
            }
            let m = self.data.len();
            if fits(&d.selection, m) && agrees(d.mode, &d.selection) {
                self.selection = d.selection;
                self.mode = d.mode;
            } else {
                let c = if d.start < m - 1 { d.start } else { m - 1 };
                self.selection = Selection::Single(c);
                self.mode = Mode::Normal;
            }
        }
    }

    fn reverse_set_mode(&mut self, c: SetMode)
        requires
            old(self).well_formed(),
        ensures
            final(self)@ == old(self)@.reversed(Command::SetMode(c)@),
            final(self).well_formed(),
            final(self).same_frame(old(self)),
    {
        let n = self.data.len();
        if fits(&c.selection, n) && agrees(c.mode, &c.selection) {
            self.mode = c.mode;
            self.selection = c.selection;
        }
    }

    /// Reverses the most recent command and drops it from the history.
    pub fn undo(&mut self)
        requires
            old(self).well_formed(),
        ensures
            final(self)@ == old(self)@.undone(),
            final(self).well_formed(),
            final(self).same_frame(old(self)),
    {
        let ghost before = self@;
        let top = self.history.pop();
        match top {
            None => {},
            Some(c) => {
                proof {
                    lemma_history_pop(old(self).history@);
                    assert(self@ == EditorState { history: before.history.drop_last(), ..before });
                }
                match c {
                    Command::Move(m) => self.shift_edge(-(m.0 as i64)),
                    Command::Position(p) => self.jump(p.old),
                    Command::Overwrite(o) => self.reverse_overwrite(o),
                    Command::Insert(ins) => self.reverse_insert(ins.at),
                    Command::Delete(d) => self.reverse_delete(d),
                    Command::SetMode(c) => self.reverse_set_mode(c),
                }
            },
        }
    }
}

} // verus!
