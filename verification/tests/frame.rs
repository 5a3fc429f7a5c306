use bad_ascii::error::PlaybackError;
use bad_ascii::frame::{Frame, FrameStore};

fn one_row(text: &str) -> Frame {
    Frame::new(vec![text.to_string()])
}

#[test]
fn empty_store_is_rejected() {
    let result = FrameStore::load(Vec::new());
    assert!(matches!(result, Err(PlaybackError::EmptyInput)));
}

#[test]
fn store_keeps_frames_in_order() {
    let store = FrameStore::load(vec![one_row("a"), one_row("b"), one_row("c")]).unwrap();
    assert_eq!(store.len(), 3);
    assert_eq!(store.get(0).line(0), "a");
    assert_eq!(store.get(1).line(0), "b");
    assert_eq!(store.get(2).line(0), "c");
    assert_eq!(store.first().line(0), "a");
}

#[test]
fn store_of_one_frame() {
    let store = FrameStore::load(vec![Frame::new(Vec::new())]).unwrap();
    assert_eq!(store.len(), 1);
    assert_eq!(store.get(0).rows(), 0);
}

#[test]
fn frame_rows_and_lines() {
    let frame = Frame::new(vec!["top".to_string(), "".to_string(), "\x1b[1mx".to_string()]);
    assert_eq!(frame.rows(), 3);
    assert_eq!(frame.line(0), "top");
    assert_eq!(frame.line(1), "");
    assert_eq!(frame.line(2), "\x1b[1mx");
    assert_eq!(frame.lines.len(), 3);
}
