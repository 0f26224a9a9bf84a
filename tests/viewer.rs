use lazyhex::viewer::{palette_colors, Highlight, Mode, Viewer};
use ratatui::style::Color;

fn viewer(n: usize) -> Viewer {
    Viewer::new((0..n).map(|i| Some(i as u8)).collect(), Some(String::from("f")))
}

#[test]
fn new_viewer_selects_the_first_entry() {
    let v = viewer(3);
    assert_eq!((v.selection.start, v.selection.end), (0, 0));
    assert_eq!(v.selection.bg, Color::DarkGray);
    assert_eq!(v.mode, Mode::Normal);
    assert!(!v.edited);
}

#[test]
fn movement_stays_inside() {
    let mut v = viewer(20);
    v.left();
    assert_eq!(v.selection.end, 0);
    v.up();
    assert_eq!(v.selection.end, 0);
    v.down();
    assert_eq!((v.selection.start, v.selection.end), (16, 16));
    v.down();
    assert_eq!(v.selection.end, 19);
    v.right();
    assert_eq!(v.selection.end, 19);
    v.up();
    assert_eq!((v.selection.start, v.selection.end), (3, 3));
}

#[test]
fn visual_movement_keeps_the_start() {
    let mut v = viewer(40);
    v.right();
    v.mode = Mode::Visual;
    v.down();
    assert_eq!((v.selection.start, v.selection.end), (1, 17));
    v.up();
    v.up();
    assert_eq!((v.selection.start, v.selection.end), (1, 1));
    v.left();
    assert_eq!((v.selection.start, v.selection.end), (1, 1));
}

#[test]
fn set_writes_the_selection() {
    let mut v = viewer(4);
    v.right();
    v.mode = Mode::Visual;
    v.right();
    v.set(None);
    assert_eq!(v.data, vec![Some(0), None, None, Some(3)]);
    assert!(v.edited);
}

#[test]
fn flush_leaves_out_absent_entries() {
    let mut v = Viewer::new(vec![Some(1), None, Some(3)], Some(String::from("f")));
    v.edited = true;
    assert_eq!(v.flush(), Some(vec![1, 3]));
    assert!(!v.edited);
    let mut unnamed = Viewer::new(vec![Some(1)], None);
    assert_eq!(unnamed.flush(), None);
}

#[test]
fn append_inserts_after_the_selection() {
    let mut v = viewer(3);
    v.append();
    assert_eq!(v.data, vec![Some(0), Some(0), Some(1), Some(2)]);
    v.right();
    v.right();
    v.right();
    v.append();
    assert_eq!(v.data.len(), 5);
    assert_eq!(v.data[4], Some(0));
}

#[test]
fn delete_moves_and_drops_marks() {
    let mut v = viewer(10);
    v.highlights = vec![
        Highlight { start: 0, end: 1, bg: Color::Red, fg: Color::White },
        Highlight { start: 3, end: 4, bg: Color::Red, fg: Color::White },
        Highlight { start: 6, end: 9, bg: Color::Red, fg: Color::White },
    ];
    for _ in 0..3 {
        v.right();
    }
    v.mode = Mode::Visual;
    v.right();
    v.delete();
    assert_eq!(v.data.len(), 8);
    assert_eq!(v.data[3], Some(5));
    let spans: Vec<(usize, usize)> = v.highlights.iter().map(|h| (h.start, h.end)).collect();
    assert_eq!(spans, vec![(0, 1), (4, 7)]);
    assert_eq!((v.selection.start, v.selection.end), (3, 4));
}

#[test]
fn deleting_everything_leaves_a_zero() {
    let mut v = viewer(2);
    v.mode = Mode::Visual;
    v.right();
    v.delete();
    assert_eq!(v.data, vec![Some(0)]);
    assert_eq!((v.selection.start, v.selection.end), (0, 0));
}

#[test]
fn highlight_toggles() {
    let mut v = viewer(4);
    v.highlight();
    assert_eq!(v.highlights.len(), 1);
    assert_eq!((v.highlights[0].bg, v.highlights[0].fg), (Color::Red, Color::White));
    v.right();
    v.highlight();
    assert_eq!((v.highlights[1].bg, v.highlights[1].fg), (Color::Green, Color::White));
    v.left();
    v.highlight();
    assert_eq!(v.highlights.len(), 1);
    assert_eq!(v.highlights[0].start, 1);
}

#[test]
fn palette_cycles() {
    assert_eq!(palette_colors(2), (Color::Yellow, Color::Black));
    assert_eq!(palette_colors(3), (Color::Blue, Color::White));
    assert_eq!(palette_colors(4), (Color::Red, Color::White));
}

#[test]
fn highlight_set_collapses() {
    let mut h = Highlight { start: 2, end: 5, bg: Color::Red, fg: Color::White };
    h.set(7);
    assert_eq!((h.start, h.end), (7, 7));
}
