use lazyhex::script::{ScriptError, ScriptView};
use ratatui::style::Color;

#[test]
fn read_returns_the_bytes() {
    let data = [1u8, 2, 3, 4];
    let mut view = ScriptView::new(&data);
    assert_eq!(view.read(1, 3), Ok(vec![2, 3]));
    assert_eq!(view.read(4, 4), Ok(vec![]));
    assert!(view.register(0, None, "", "", String::from("a")).is_ok());
    assert_eq!(view.finish(true).len(), 1);
}

#[test]
fn out_of_range_read_fails_the_pass() {
    let data = [1u8, 2, 3];
    let mut view = ScriptView::new(&data);
    assert!(view.register(0, Some(2), "", "", String::from("a")).is_ok());
    assert_eq!(view.read(2, 4), Err(ScriptError::OutOfRange));
    assert_eq!(view.read(2, 1), Err(ScriptError::OutOfRange));
    assert!(view.register(1, None, "", "", String::from("b")).is_ok());
    assert!(view.finish(true).is_empty());
}

#[test]
fn unfinished_callback_yields_nothing() {
    let data = [1u8];
    let mut view = ScriptView::new(&data);
    assert!(view.register(0, None, "", "", String::from("a")).is_ok());
    assert!(view.finish(false).is_empty());
}

#[test]
fn big_endian_numbers() {
    let data = [0x12u8, 0x34, 0x56, 0x78, 0x9a, 0xbc, 0xde, 0xf0, 0x11];
    let mut view = ScriptView::new(&data);
    assert_eq!(view.read_be(0, None), Ok(0x12));
    assert_eq!(view.read_be(0, Some(2)), Ok(0x1234));
    assert_eq!(view.read_be(1, Some(4)), Ok(0x345678));
    assert_eq!(view.read_be(0, Some(8)), Ok(0x123456789abcdef0));
    assert_eq!(view.read_be(8, Some(0)), Ok(0x11));
}

#[test]
fn little_endian_numbers() {
    let data = [0x12u8, 0x34, 0x56, 0x78, 0x9a, 0xbc, 0xde, 0xf0];
    let mut view = ScriptView::new(&data);
    assert_eq!(view.read_le(0, None), Ok(0x12));
    assert_eq!(view.read_le(0, Some(2)), Ok(0x3412));
    assert_eq!(view.read_le(0, Some(8)), Ok(0xf0debc9a78563412));
    assert_eq!(view.read_le(7, None), Ok(0xf0));
}

#[test]
fn numbers_of_more_than_eight_bytes_are_refused() {
    let data = [0u8; 12];
    let mut view = ScriptView::new(&data);
    assert_eq!(view.read_be(0, Some(9)), Err(ScriptError::Width));
    assert_eq!(view.read_le(0, Some(13)), Err(ScriptError::OutOfRange));
    assert_eq!(view.read_le(12, None), Err(ScriptError::OutOfRange));
    assert!(view.finish(true).is_empty());
}

#[test]
fn register_parses_colors() {
    let data = [0u8; 8];
    let mut view = ScriptView::new(&data);
    assert_eq!(view.register(2, Some(5), "red", "#00ff00", String::from("field")), Ok(()));
    assert_eq!(view.register(7, None, "", "blue", String::from("last")), Ok(()));
    let marks = view.finish(true);
    assert_eq!(marks.len(), 2);
    assert_eq!((marks[0].start, marks[0].end), (2, 5));
    assert_eq!(marks[0].bg, Some(Color::Red));
    assert_eq!(marks[0].fg, Some(Color::Rgb(0, 255, 0)));
    assert_eq!(marks[0].text, "field");
    assert_eq!((marks[1].start, marks[1].end), (7, 8));
    assert_eq!(marks[1].bg, None);
    assert_eq!(marks[1].fg, Some(Color::Blue));
}

#[test]
fn register_refuses_unknown_colors() {
    let data = [0u8; 4];
    let mut view = ScriptView::new(&data);
    assert_eq!(view.register(0, None, "no such color", "", String::new()), Err(ScriptError::Color));
    assert!(view.finish(true).is_empty());
}

#[test]
fn register_refuses_ranges_past_the_end() {
    let data = [0u8; 4];
    let mut view = ScriptView::new(&data);
    assert_eq!(view.register(4, None, "", "", String::new()), Err(ScriptError::OutOfRange));
    assert_eq!(view.register(usize::MAX, None, "", "", String::new()), Err(ScriptError::OutOfRange));
    assert!(view.finish(true).is_empty());
}

#[test]
fn checks_report_each_failure() {
    let data = [0u8; 2];
    let mut view = ScriptView::new(&data);
    assert_eq!(view.check(0, 2), Ok(()));
    assert_eq!(view.check(1, 0), Err(ScriptError::OutOfRange));
}
