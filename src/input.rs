//! Key-level operations of a session: each runs commands through the history.
use vstd::prelude::*;
use crate::app::{App, EditorState, Mode};
use crate::command::{Command, CommandView, Delete, Move, Overwrite, Position, SetMode, Insert};

verus! {

/// The value of a hexadecimal digit, either case.
pub open spec fn hex_value(c: char) -> Option<u32> {
    let x = c as u32;
    if 48 <= x <= 57 {
        Some((x - 48) as u32)
    } else if 97 <= x <= 102 {
        Some((x - 87) as u32)
    } else if 65 <= x <= 70 {
        Some((x - 55) as u32)
    } else {
        None
    }
}

pub fn hex_digit(c: char) -> (r: Option<u32>)
    ensures
        r == hex_value(c),
{
    let x = c as u32;
    if 48 <= x && x <= 57 {
        Some(x - 48)
    } else if 97 <= x && x <= 102 {
        Some(x - 87)
    } else if 65 <= x && x <= 70 {
        Some(x - 55)
    } else {
        None
    }
}

pub open spec fn overwrite_with(v: u8) -> CommandView {
    CommandView::Overwrite { values: seq![v], start: 0 }
}

pub open spec fn switch_to(mode: Mode) -> CommandView {
    CommandView::SetMode { mode, selection: crate::app::Selection::Single(0) }
}

impl EditorState {
    /// The state after the character `c` was typed in replace or insert
    /// mode: a first hex digit is written as the byte's value and kept; a
    /// second one completes the byte `16 * first + second`, writes it, moves
    /// on by one and returns to normal mode (reopening insert mode with a new
    /// byte when typing in insert mode). Any other key changes nothing.
    pub open spec fn typed(self, c: char) -> EditorState {
        if !(self.mode == Mode::Replace || self.mode == Mode::Insert) {
            self
        } else {
            match (self.input, hex_value(c)) {
                (None, Some(h)) => EditorState {
                    input: Some(h),
                    ..self.executed(overwrite_with(h as u8))
                },
                (Some(a), Some(b)) => {
                    let written = EditorState {
                        input: None,
                        ..self.executed(overwrite_with((a * 16 + b) as u8))
                    };
                    let back = written.executed(CommandView::Move(1)).executed(switch_to(Mode::Normal));
                    if self.mode == Mode::Insert {
                        back.executed(switch_to(Mode::Insert))
                    } else {
                        back
                    }
                },
                _ => self,
            }
        }
    }
}

impl App {
    /// Moves the selection's edge by `offset`.
    pub fn move_by(&mut self, offset: i32)
        requires
            old(self).well_formed(),
        ensures
            final(self)@ == old(self)@.executed(CommandView::Move(offset)),
            final(self).well_formed(),
            final(self).same_frame(old(self)),
    {
        self.execute(Command::Move(Move::new(offset)));
    }

    /// Moves the selection's edge to `pos`.
    pub fn position(&mut self, pos: usize)
        requires
            old(self).well_formed(),
        ensures
            final(self)@ == old(self)@.executed(CommandView::Position { new: pos, old: 0 }),
            final(self).well_formed(),
            final(self).same_frame(old(self)),
    {
        self.execute(Command::Position(Position::new(pos)));
    }

    /// Deletes the selected bytes.
    pub fn delete(&mut self)
        requires
            old(self).well_formed(),
        ensures
            final(self)@ == old(self)@.deleted(),
            final(self).well_formed(),
            final(self).same_frame(old(self)),
    {
        self.execute(Command::Delete(Delete::new()));
    }

    /// Inserts a byte at the cursor.
    pub fn insert(&mut self)
        requires
            old(self).well_formed(),
        ensures
            final(self)@ == old(self)@.inserted(),
            final(self).well_formed(),
            final(self).same_frame(old(self)),
    {
        self.execute(Command::Insert(Insert::new()));
    }

    /// Writes `value` over every selected byte.
    pub fn set(&mut self, value: u8)
        requires
            old(self).well_formed(),
        ensures
            final(self)@ == old(self)@.executed(overwrite_with(value)),
            final(self).well_formed(),
            final(self).same_frame(old(self)),
    {
        self.execute(Command::Overwrite(Overwrite::new(value)));
    }

    /// Switches to `mode`.
    pub fn set_mode(&mut self, mode: Mode)
        requires
            old(self).well_formed(),
        ensures
            final(self)@ == old(self)@.mode_set(mode),
            final(self).well_formed(),
            final(self).same_frame(old(self)),
    {
        self.execute(Command::SetMode(SetMode::new(mode)));
    }

    /// Cancels: back to normal mode, any half-typed byte dropped; nothing
    /// already done is undone.
    pub fn escape(&mut self)
        requires
            old(self).well_formed(),
        ensures
            final(self)@ == (EditorState { input: None, ..old(self)@.mode_set(Mode::Normal) }),
            final(self).well_formed(),
            final(self).same_frame(old(self)),
    {
        self.set_mode(Mode::Normal);
        self.input = None;
    }

    /// Handles a typed character in replace or insert mode.
    pub fn hex_input(&mut self, c: char)
        requires
            old(self).well_formed(),
        ensures
            final(self)@ == old(self)@.typed(c),
            final(self).well_formed(),
            final(self).same_frame(old(self)),
    {
        let mode = self.mode;
        if mode == Mode::Replace || mode == Mode::Insert {
            match (self.input, hex_digit(c)) {
                (None, Some(h)) => {
                    self.set(h as u8);
                    self.input = Some(h);
                },
                (Some(a), Some(b)) => {
                    self.set((a * 16 + b) as u8);
                    self.input = None;
                    self.move_by(1);
                    self.set_mode(Mode::Normal);
                    if mode == Mode::Insert {
                        self.set_mode(Mode::Insert);
                    }
                },
                _ => {},
            }
        }
    }
}

} // verus!
