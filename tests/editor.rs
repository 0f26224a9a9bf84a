use lazyhex::app::{App, Highlight, HighlightUpdate, Mode, Popup, Selection};
use lazyhex::command::{Command, Delete, Insert, Move, Overwrite, Position, SetMode};
use lazyhex::config::{Config, Endian, HighlightUpdate as Policy};

fn session(data: Vec<u8>) -> App {
    App::new(data, None, Config::default(), 20)
}

fn session_with(data: Vec<u8>, on_delete: Policy) -> App {
    let config = Config { on_delete, ..Config::default() };
    App::new(data, None, config, 20)
}

fn mark(start: usize, end: usize) -> Highlight {
    Highlight { start, end, bg: None, fg: None, text: String::from("m") }
}

#[test]
fn new_session_starts_normal_at_zero() {
    let app = session(vec![1, 2, 3]);
    assert_eq!(app.data, vec![1, 2, 3]);
    assert_eq!(app.selection, Selection::Single(0));
    assert_eq!(app.mode, Mode::Normal);
    assert!(app.stale);
    assert!(!app.edited);
    assert_eq!(app.height, 16);
}

#[test]
fn empty_input_becomes_one_zero_byte() {
    let app = App::new(vec![], None, Config::default(), 2);
    assert_eq!(app.data, vec![0]);
    assert_eq!(app.height, 0);
}

#[test]
fn moves_are_clamped_to_the_buffer() {
    let mut app = session(vec![0; 5]);
    app.move_by(-5);
    assert_eq!(app.selection, Selection::Single(0));
    app.move_by(3);
    assert_eq!(app.selection, Selection::Single(3));
    app.move_by(100);
    assert_eq!(app.selection, Selection::Single(4));
    app.move_by(i32::MIN);
    assert_eq!(app.selection, Selection::Single(0));
    app.move_by(i32::MAX);
    assert_eq!(app.selection, Selection::Single(4));
    app.position(1000);
    assert_eq!(app.selection, Selection::Single(4));
    app.position(1);
    assert_eq!(app.selection, Selection::Single(1));
    assert_eq!(app.data, vec![0; 5]);
}

#[test]
fn visual_range_follows_the_edge() {
    let mut app = session(vec![0; 10]);
    app.position(5);
    app.set_mode(Mode::Visual);
    assert_eq!(app.selection, Selection::Visual { current: 5, range: 5..6, center: 5 });
    app.move_by(2);
    assert_eq!(app.selection, Selection::Visual { current: 7, range: 5..8, center: 5 });
    app.move_by(-4);
    assert_eq!(app.selection, Selection::Visual { current: 3, range: 3..6, center: 5 });
    app.position(100);
    assert_eq!(app.selection, Selection::Visual { current: 9, range: 5..10, center: 5 });
    assert_eq!(app.selected(), 5..10);
}

#[test]
fn visual_then_normal_restores_the_cursor() {
    let mut app = session(vec![0; 5]);
    app.position(2);
    app.set_mode(Mode::Visual);
    app.set_mode(Mode::Normal);
    assert_eq!(app.selection, Selection::Single(2));
    assert_eq!(app.mode, Mode::Normal);
}

#[test]
fn replace_mode_writes_two_nibbles() {
    let mut app = session(vec![0x00]);
    app.set_mode(Mode::Replace);
    app.hex_input('a');
    assert_eq!(app.data, vec![0x0a]);
    assert_eq!(app.input, Some(10));
    app.hex_input('b');
    assert_eq!(app.data, vec![0xab]);
    assert_eq!(app.input, None);
    assert_eq!(app.mode, Mode::Normal);
}

#[test]
fn replace_mode_advances_after_a_byte() {
    let mut app = session(vec![0, 0, 0]);
    app.set_mode(Mode::Replace);
    app.hex_input('F');
    app.hex_input('0');
    app.hex_input('x');
    assert_eq!(app.data, vec![0xf0, 0, 0]);
    assert_eq!(app.selection, Selection::Single(1));
    assert_eq!(app.mode, Mode::Normal);
}

#[test]
fn typing_in_normal_mode_does_nothing() {
    let mut app = session(vec![7]);
    app.hex_input('a');
    assert_eq!(app.data, vec![7]);
    assert_eq!(app.input, None);
}

#[test]
fn insert_mode_inserts_and_writes() {
    let mut app = session(vec![1, 2]);
    app.position(1);
    app.set_mode(Mode::Insert);
    assert_eq!(app.data, vec![1, 0, 2]);
    assert_eq!(app.selection, Selection::Single(1));
    app.hex_input('9');
    app.hex_input('9');
    assert_eq!(app.data, vec![1, 0x99, 0, 2]);
    assert_eq!(app.mode, Mode::Insert);
    assert_eq!(app.selection, Selection::Single(2));
    assert!(app.edited);
}

#[test]
fn insert_uses_the_configured_fill() {
    let config = Config { empty_value: 0xee, ..Config::default() };
    let mut app = App::new(vec![1], None, config, 20);
    app.insert();
    assert_eq!(app.data, vec![0xee, 1]);
}

#[test]
fn escape_returns_to_normal_and_drops_input() {
    let mut app = session(vec![0, 0]);
    app.set_mode(Mode::Replace);
    app.hex_input('1');
    app.escape();
    assert_eq!(app.mode, Mode::Normal);
    assert_eq!(app.input, None);
    assert_eq!(app.data, vec![0x01, 0]);
}

#[test]
fn overwrite_fills_a_visual_range() {
    let mut app = session(vec![0; 4]);
    app.position(1);
    app.set_mode(Mode::Visual);
    app.move_by(1);
    app.set(0x55);
    assert_eq!(app.data, vec![0, 0x55, 0x55, 0]);
    assert!(app.edited);
    app.undo();
    assert_eq!(app.data, vec![0; 4]);
}

#[test]
fn delete_then_undo_restores_bytes_and_selection() {
    let mut app = session(vec![1, 2, 3, 4, 5]);
    app.position(1);
    app.set_mode(Mode::Visual);
    app.move_by(2);
    let before = app.selection.clone();
    app.delete();
    assert_eq!(app.data, vec![1, 5]);
    assert_eq!(app.selection, Selection::Single(1));
    assert_eq!(app.mode, Mode::Normal);
    app.undo();
    assert_eq!(app.data, vec![1, 2, 3, 4, 5]);
    assert_eq!(app.selection, before);
    assert_eq!(app.mode, Mode::Visual);
}

#[test]
fn delete_of_the_last_byte_keeps_the_cursor_inside() {
    let mut app = session(vec![1, 2, 3]);
    app.position(2);
    app.delete();
    assert_eq!(app.data, vec![1, 2]);
    assert_eq!(app.selection, Selection::Single(1));
    app.undo();
    assert_eq!(app.data, vec![1, 2, 3]);
    assert_eq!(app.selection, Selection::Single(2));
}

#[test]
fn deleting_everything_leaves_one_zero_byte() {
    let mut app = session(vec![9, 8]);
    app.set_mode(Mode::Visual);
    app.move_by(1);
    app.delete();
    assert_eq!(app.data, vec![0]);
    assert_eq!(app.selection, Selection::Single(0));
    app.undo();
    assert_eq!(app.data, vec![9, 8]);
}

#[test]
fn insert_then_undo_leaves_the_bytes() {
    let mut app = session(vec![4, 5, 6]);
    app.position(1);
    app.insert();
    assert_eq!(app.data, vec![4, 0, 5, 6]);
    app.undo();
    assert_eq!(app.data, vec![4, 5, 6]);
}

#[test]
fn undo_reverses_one_command_at_a_time() {
    let mut app = session(vec![0; 8]);
    app.move_by(3);
    app.move_by(2);
    assert_eq!(app.selection, Selection::Single(5));
    app.undo();
    assert_eq!(app.selection, Selection::Single(3));
    app.position(7);
    app.undo();
    assert_eq!(app.selection, Selection::Single(3));
    app.undo();
    assert_eq!(app.selection, Selection::Single(0));
    assert!(app.history.is_empty());
    app.undo();
    assert_eq!(app.selection, Selection::Single(0));
}

#[test]
fn entering_insert_mode_is_undone_in_two_steps() {
    let mut app = session(vec![1, 2]);
    app.set_mode(Mode::Insert);
    assert_eq!(app.data, vec![0, 1, 2]);
    assert_eq!(app.history.len(), 2);
    app.undo();
    assert_eq!(app.mode, Mode::Normal);
    assert_eq!(app.data, vec![0, 1, 2]);
    app.undo();
    assert_eq!(app.data, vec![1, 2]);
}

#[test]
fn execute_records_commands() {
    let mut app = session(vec![0; 3]);
    app.execute(Command::Move(Move::new(1)));
    app.execute(Command::Position(Position::new(2)));
    app.execute(Command::Overwrite(Overwrite::new(7)));
    app.execute(Command::Insert(Insert::new()));
    app.execute(Command::Delete(Delete::new()));
    app.execute(Command::SetMode(SetMode::new(Mode::Replace)));
    assert_eq!(app.history.len(), 6);
    assert_eq!(app.data, vec![0, 0, 7]);
    assert_eq!(app.mode, Mode::Replace);
    for _ in 0..6 {
        app.undo();
    }
    assert_eq!(app.data, vec![0, 0, 0]);
}

#[test]
fn same_mode_is_a_no_op() {
    let mut app = session(vec![0; 3]);
    app.set_mode(Mode::Normal);
    assert_eq!(app.selection, Selection::Single(0));
    assert_eq!(app.mode, Mode::Normal);
    assert!(app.history.is_empty());
    app.set_mode(Mode::Replace);
    app.set_mode(Mode::Replace);
    assert_eq!(app.history.len(), 1);
    app.undo();
    assert_eq!(app.mode, Mode::Normal);
    assert!(app.history.is_empty());
}

#[test]
fn escape_in_normal_mode_records_nothing() {
    let mut app = session(vec![0; 3]);
    app.escape();
    assert!(app.history.is_empty());
    assert_eq!(app.selection, Selection::Single(0));
}

#[test]
fn insert_moves_later_highlights() {
    let mut app = session_with(vec![0; 10], Policy::Update);
    app.set_highlights(vec![mark(0, 2), mark(4, 6), mark(3, 3)]);
    app.position(3);
    app.insert();
    let spans: Vec<(usize, usize)> = app.highlights.iter().map(|h| (h.start, h.end)).collect();
    assert_eq!(spans, vec![(0, 2), (5, 7), (4, 4)]);
}

#[test]
fn delete_after_a_highlight_keeps_it() {
    let mut app = session_with(vec![0; 10], Policy::Update);
    app.set_highlights(vec![mark(1, 3), mark(6, 8), mark(4, 5)]);
    app.position(4);
    app.delete();
    let spans: Vec<(usize, usize)> = app.highlights.iter().map(|h| (h.start, h.end)).collect();
    assert_eq!(spans, vec![(1, 3), (5, 7)]);
}

#[test]
fn move_highlights_by_range() {
    let mut app = session_with(vec![0; 10], Policy::Update);
    app.set_highlights(vec![mark(2, 8), mark(0, 1), mark(5, 9)]);
    app.move_highlights(3..6, HighlightUpdate::Remove);
    let spans: Vec<(usize, usize)> = app.highlights.iter().map(|h| (h.start, h.end)).collect();
    assert_eq!(spans, vec![(2, 5), (0, 1), (3, 6)]);
    app.move_highlights(0..2, HighlightUpdate::Add);
    let spans: Vec<(usize, usize)> = app.highlights.iter().map(|h| (h.start, h.end)).collect();
    assert_eq!(spans, vec![(4, 7), (2, 3), (5, 8)]);
}

#[test]
fn reload_policy_discards_highlights_on_change() {
    let mut app = session_with(vec![0; 4], Policy::Reload);
    app.set_highlights(vec![mark(0, 2)]);
    assert!(!app.stale);
    app.move_by(1);
    assert_eq!(app.highlights.len(), 1);
    app.set(3);
    assert!(app.highlights.is_empty());
    assert!(app.stale);
}

#[test]
fn highlights_outside_the_buffer_are_refused() {
    let mut app = session(vec![0; 4]);
    app.set_highlights(vec![mark(0, 2), mark(3, 5)]);
    assert!(app.highlights.is_empty());
    assert!(!app.stale);
    app.set_highlights(vec![mark(2, 1)]);
    assert!(app.highlights.is_empty());
    app.set_highlights(vec![mark(0, 4)]);
    assert_eq!(app.highlights.len(), 1);
}

#[test]
fn update_highlights_follows_the_selection() {
    let mut app = session_with(vec![0; 10], Policy::Update);
    app.set_highlights(vec![mark(5, 7)]);
    app.position(2);
    app.update_highlights(HighlightUpdate::Add);
    assert_eq!((app.highlights[0].start, app.highlights[0].end), (6, 8));
    app.update_highlights(HighlightUpdate::Remove);
    assert_eq!((app.highlights[0].start, app.highlights[0].end), (5, 7));
}

#[test]
fn write_outcomes() {
    let mut app = session(vec![1]);
    app.set(2);
    assert!(app.edited);
    app.write(String::from("out.bin"), Err(String::from("denied")));
    assert!(app.edited);
    assert_eq!(
        app.popup,
        Some(Popup::Error { title: String::from("File Error"), content: String::from("denied") })
    );
    app.write(String::from("out.bin"), Ok(()));
    assert!(!app.edited);
    assert_eq!(app.path, Some(String::from("out.bin")));
    assert_eq!(app.popup, None);
}

#[test]
fn write_ask_confirms_existing_files() {
    let mut app = session(vec![1]);
    assert!(app.write_ask(String::from("new.bin"), false));
    assert_eq!(app.popup, None);
    assert!(!app.write_ask(String::from("old.bin"), true));
    assert_eq!(app.popup, Some(Popup::Overwrite(String::from("old.bin"))));
    app.clear_popup();
    assert_eq!(app.popup, None);
}

#[test]
fn change_endian_toggles() {
    let mut app = session(vec![1]);
    assert_eq!(app.config.endian, Endian::Big);
    app.change_endian();
    assert_eq!(app.config.endian, Endian::Little);
    app.change_endian();
    assert_eq!(app.config.endian, Endian::Big);
}

#[test]
fn visible_range_follows_the_cursor() {
    let mut app = App::new(vec![0; 1000], None, Config::default(), 14);
    assert_eq!(app.visible_range(), 0..160);
    app.position(500);
    assert_eq!(app.single_selection(), 500);
    assert_eq!(app.visible_range(), 416..576);
    app.position(999);
    assert_eq!(app.visible_range(), 848..1000);
    let small = App::new(vec![0; 20], None, Config::default(), 14);
    assert_eq!(small.visible_range(), 0..20);
}
