use kosmos_core::keyboard::get_line;
use kosmos_core::keyboard::CombinedStream;
use kosmos_core::keyboard::LineEditor;
use kosmos_core::vga::Writer;

// Scan code set 1 make codes
const SC_H: u8 = 0x23;
const SC_I: u8 = 0x17;
const SC_ENTER: u8 = 0x1c;
const SC_BACKSPACE: u8 = 0x0e;

#[test]
fn get_line_decodes_hi_followed_by_enter() {
    let mut editor = LineEditor::new();
    let mut stream = CombinedStream::new();
    let mut display = Writer::new();
    for sc in [SC_H, SC_I, SC_ENTER] {
        stream.add_ps2_scancode(sc).unwrap();
    }
    let line = get_line(&mut editor, &mut stream, &mut display, 1);
    assert_eq!(line, Some("hi".to_string()));
    // the characters were echoed at the top left, then the newline
    assert_eq!(display.char_at(0, 0), b'h');
    assert_eq!(display.char_at(0, 1), b'i');
    assert_eq!(display.cursor_position(), 80);
}

#[test]
fn backspace_removes_the_previously_accepted_character() {
    let mut editor = LineEditor::new();
    let mut stream = CombinedStream::new();
    let mut display = Writer::new();
    for sc in [SC_H, SC_I, SC_BACKSPACE, SC_ENTER] {
        stream.add_ps2_scancode(sc).unwrap();
    }
    let line = get_line(&mut editor, &mut stream, &mut display, 1);
    assert_eq!(line, Some("h".to_string()));
    // the erased cell is blank again
    assert_eq!(display.char_at(0, 0), b'h');
    assert_eq!(display.char_at(0, 1), b' ');
}

#[test]
fn get_line_suspends_on_an_empty_stream() {
    let mut editor = LineEditor::new();
    let mut stream = CombinedStream::new();
    let mut display = Writer::new();
    assert_eq!(get_line(&mut editor, &mut stream, &mut display, 9), None);
    // a partial line stays in the editor across the suspension
    stream.add_ps2_scancode(SC_H).unwrap();
    assert_eq!(get_line(&mut editor, &mut stream, &mut display, 9), None);
    stream.add_ps2_scancode(SC_ENTER).unwrap();
    assert_eq!(
        get_line(&mut editor, &mut stream, &mut display, 9),
        Some("h".to_string())
    );
}
