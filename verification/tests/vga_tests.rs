use kosmos_core::vga::Color;
use kosmos_core::vga::ColorCode;
use kosmos_core::vga::Writer;
use kosmos_core::vga::_clear;
use kosmos_core::vga::BUFFER_HEIGHT;
use kosmos_core::vga::BUFFER_WIDTH;

#[test]
fn color_codes_pack_background_high_and_foreground_low() {
    assert_eq!(ColorCode::new(Color::White, Color::Black), ColorCode(0x0f));
    assert_eq!(ColorCode::new(Color::Yellow, Color::Blue), ColorCode(0x1e));
    assert_eq!(ColorCode::new(Color::Black, Color::White), ColorCode(0xf0));
}

#[test]
fn writes_advance_the_cursor_and_store_the_bytes() {
    let mut w = Writer::new();
    w.write_string("Hi!");
    assert_eq!(w.char_at(0, 0), b'H');
    assert_eq!(w.char_at(0, 1), b'i');
    assert_eq!(w.char_at(0, 2), b'!');
    assert_eq!(w.cursor_position(), 3);
    w.write_byte(b'\n');
    assert_eq!(w.cursor_position(), BUFFER_WIDTH as u16);
}

#[test]
fn unprintable_bytes_become_the_block_character() {
    let mut w = Writer::new();
    w.write_string("a\tb");
    assert_eq!(w.char_at(0, 0), b'a');
    assert_eq!(w.char_at(0, 1), 0xfe);
    assert_eq!(w.char_at(0, 2), b'b');
}

#[test]
fn long_lines_wrap_to_the_next_row() {
    let mut w = Writer::new();
    for _ in 0..BUFFER_WIDTH {
        w.write_byte(b'x');
    }
    w.write_byte(b'y');
    assert_eq!(w.char_at(0, BUFFER_WIDTH - 1), b'x');
    assert_eq!(w.char_at(1, 0), b'y');
}

#[test]
fn writing_past_the_bottom_scrolls_one_row() {
    let mut w = Writer::new();
    w.write_string("top\n");
    for _ in 0..BUFFER_HEIGHT - 1 {
        w.write_byte(b'\n');
    }
    // "top" scrolled off; the next write lands on the last row
    assert_eq!(w.char_at(0, 0), b' ');
    w.write_byte(b'z');
    assert_eq!(w.char_at(BUFFER_HEIGHT - 1, 0), b'z');
}

#[test]
fn backspace_erases_the_previous_cell_only_within_the_row() {
    let mut w = Writer::new();
    w.write_string("ab");
    w.backspace();
    assert_eq!(w.char_at(0, 1), b' ');
    assert_eq!(w.cursor_position(), 1);
    w.backspace();
    assert_eq!(w.cursor_position(), 0);
    // at the start of the row nothing happens
    w.backspace();
    assert_eq!(w.cursor_position(), 0);
}

#[test]
fn clear_screen_blanks_everything_and_homes_the_cursor() {
    let mut w = Writer::new();
    w.write_string("some text\nmore");
    _clear(&mut w);
    assert_eq!(w.cursor_position(), 0);
    for row in 0..BUFFER_HEIGHT {
        for col in 0..BUFFER_WIDTH {
            assert_eq!(w.char_at(row, col), b' ');
        }
    }
}

#[test]
fn set_color_applies_to_subsequent_cells() {
    let mut w = Writer::new();
    w.write_byte(b'a');
    w.set_color(Color::Yellow, Color::Blue);
    w.write_byte(b'b');
    assert_eq!(w.color_at(0, 0), ColorCode::new(Color::White, Color::Black));
    assert_eq!(w.color_at(0, 1), ColorCode::new(Color::Yellow, Color::Blue));
}
