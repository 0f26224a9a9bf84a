use lazyhex::comparator::Comparator;
use lazyhex::diff::{EditKind, EditOp};
use lazyhex::viewer::Mode;
use ratatui::style::Color;

fn present(bytes: &[u8]) -> Vec<Option<u8>> {
    bytes.iter().map(|b| Some(*b)).collect()
}

#[test]
fn appended_byte_is_one_insertion() {
    let c = Comparator::new(present(&[1, 2, 3]), present(&[1, 2, 3, 4]), String::from("a"), String::from("b"));
    assert_eq!(c.added, 1);
    assert_eq!(c.deleted, 0);
    assert_eq!(c.replaced, 0);
    assert_eq!(c.viewer_old.data, vec![Some(1), Some(2), Some(3), None]);
    assert_eq!(c.viewer_new.data, present(&[1, 2, 3, 4]));
    assert!(c.viewer_old.highlights.is_empty());
    assert_eq!(c.viewer_new.highlights.len(), 1);
    let h = c.viewer_new.highlights[0];
    assert_eq!((h.start, h.end, h.bg, h.fg), (3, 3, Color::Green, Color::White));
}

#[test]
fn comparing_a_buffer_with_itself_changes_nothing() {
    let data = present(&[5, 6, 7, 8, 9]);
    let c = Comparator::new(data.clone(), data.clone(), String::from("a"), String::from("a"));
    assert_eq!((c.added, c.deleted, c.replaced), (0, 0, 0));
    assert!(c.viewer_old.highlights.is_empty());
    assert!(c.viewer_new.highlights.is_empty());
    assert_eq!(c.viewer_old.data, data);
    assert_eq!(c.viewer_new.data, data);
}

#[test]
fn comparing_empty_buffers() {
    let c = Comparator::new(vec![], vec![], String::from("a"), String::from("b"));
    assert_eq!((c.added, c.deleted, c.replaced), (0, 0, 0));
    assert!(c.viewer_old.data.is_empty());
}

#[test]
fn removed_byte_is_one_deletion() {
    let c = Comparator::new(present(&[1, 2, 3]), present(&[1, 3]), String::from("a"), String::from("b"));
    assert_eq!((c.added, c.deleted, c.replaced), (0, 1, 0));
    assert_eq!(c.viewer_new.data, vec![Some(1), None, Some(3)]);
    assert_eq!(c.viewer_old.data, present(&[1, 2, 3]));
    let h = c.viewer_old.highlights[0];
    assert_eq!((h.start, h.end, h.bg), (1, 1, Color::Red));
    assert_eq!(c.viewer_old.filename, Some(String::from("a")));
    assert_eq!(c.viewer_new.filename, Some(String::from("b")));
}

#[test]
fn longer_replacement_is_padded() {
    let ops = vec![
        EditOp { kind: EditKind::Equal, old: 0..1, new: 0..1 },
        EditOp { kind: EditKind::Replace, old: 1..2, new: 1..4 },
    ];
    let c = Comparator::from_ops(present(&[1, 2]), present(&[1, 7, 8, 9]), String::from("a"), String::from("b"), ops);
    assert_eq!(c.replaced, 2);
    assert_eq!(c.viewer_old.data, vec![Some(1), Some(2), None, None]);
    assert_eq!(c.viewer_new.data, present(&[1, 7, 8, 9]));
    let (o, n) = (c.viewer_old.highlights[0], c.viewer_new.highlights[0]);
    assert_eq!((o.start, o.end, o.bg, o.fg), (1, 1, Color::Yellow, Color::Black));
    assert_eq!((n.start, n.end), (1, 3));
}

#[test]
fn changed_bytes_in_the_middle() {
    let c = Comparator::new(present(&[1, 2, 3, 4]), present(&[1, 9, 9, 9, 4]), String::from("a"), String::from("b"));
    assert_eq!(c.viewer_old.data.len(), c.viewer_new.data.len());
    assert_eq!(c.viewer_old.data.iter().flatten().count(), 4);
    assert_eq!(c.viewer_new.data.iter().flatten().count(), 5);
    assert_eq!(c.added + c.replaced, 1);
}

#[test]
fn navigation_moves_both_sides() {
    let mut c = Comparator::new(present(&[0; 40]), present(&[0; 40]), String::from("a"), String::from("b"));
    c.right();
    c.right();
    assert_eq!(c.viewer_old.selection.end, 2);
    assert_eq!(c.viewer_new.selection.end, 2);
    c.down();
    assert_eq!(c.viewer_old.selection.start, 18);
    c.down();
    c.down();
    assert_eq!(c.viewer_new.selection.end, 39);
    c.up();
    assert_eq!(c.viewer_new.selection.end, 23);
    c.left();
    assert_eq!(c.viewer_old.selection.end, 22);
    assert_eq!(c.viewer_old.mode, Mode::Normal);
}

#[test]
fn padding_removed_gives_back_both_buffers() {
    let old = present(&[1, 2, 3, 4, 5, 6]);
    let new = present(&[0, 2, 3, 9, 9, 6, 7]);
    let c = Comparator::new(old.clone(), new.clone(), String::from("a"), String::from("b"));
    assert_eq!(c.viewer_old.data.len(), c.viewer_new.data.len());
    let kept_old: Vec<Option<u8>> = c.viewer_old.data.iter().filter(|e| e.is_some()).copied().collect();
    let kept_new: Vec<Option<u8>> = c.viewer_new.data.iter().filter(|e| e.is_some()).copied().collect();
    assert_eq!(kept_old, old);
    assert_eq!(kept_new, new);
}

#[test]
fn unmarked_positions_hold_the_same_entry() {
    let c = Comparator::new(present(&[1, 2, 3, 4, 5, 6]), present(&[0, 2, 3, 9, 9, 6, 7]), String::from("a"), String::from("b"));
    let marked = |marks: &[lazyhex::viewer::Highlight], p: usize| marks.iter().any(|h| h.start <= p && p <= h.end);
    for p in 0..c.viewer_old.data.len() {
        if !marked(&c.viewer_old.highlights, p) && !marked(&c.viewer_new.highlights, p) {
            assert_eq!(c.viewer_old.data[p], c.viewer_new.data[p]);
        }
    }
}
