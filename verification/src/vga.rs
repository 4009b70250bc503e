//! A model of the text-mode display: an 80 x 25 grid of characters with a
//! color attribute, a cursor, line wrapping and scrolling.
//!
//! The hardware buffer is a fixed memory-mapped region; here the grid is an
//! owned buffer with every access bounds-checked, so the writer is the only
//! path to the display and never writes out of range. Copying the grid to
//! the memory-mapped region and moving the hardware cursor are I/O steps
//! performed outside this crate.

use vstd::prelude::*;
use vstd::string::StringSliceAdditionalSpecFns;

verus! {

/// Width of the text buffer in columns.
pub const BUFFER_WIDTH: usize = 80;

/// Height of the text buffer in rows.
pub const BUFFER_HEIGHT: usize = 25;

/// The sixteen text-mode colors.
#[derive(Clone, Copy, Debug, PartialEq, Eq, Structural)]
pub enum Color {
    Black,
    Blue,
    Green,
    Cyan,
    Red,
    Magenta,
    Brown,
    LightGray,
    DarkGray,
    LightBlue,
    LightGreen,
    LightCyan,
    LightRed,
    Pink,
    Yellow,
    White,
}

/// The numeric value of a color in the hardware palette.
pub open spec fn spec_color_value(c: Color) -> u8 {
    match c {
        Color::Black => 0,
        Color::Blue => 1,
        Color::Green => 2,
        Color::Cyan => 3,
        Color::Red => 4,
        Color::Magenta => 5,
        Color::Brown => 6,
        Color::LightGray => 7,
        Color::DarkGray => 8,
        Color::LightBlue => 9,
        Color::LightGreen => 10,
        Color::LightCyan => 11,
        Color::LightRed => 12,
        Color::Pink => 13,
        Color::Yellow => 14,
        Color::White => 15,
    }
}

impl Color {
    /// The palette value of this color.
    pub fn value(self) -> (v: u8)
        ensures
            v == spec_color_value(self),
            v < 16,
    {
        match self {
            Color::Black => 0,
            Color::Blue => 1,
            Color::Green => 2,
            Color::Cyan => 3,
            Color::Red => 4,
            Color::Magenta => 5,
            Color::Brown => 6,
            Color::LightGray => 7,
            Color::DarkGray => 8,
            Color::LightBlue => 9,
            Color::LightGreen => 10,
            Color::LightCyan => 11,
            Color::LightRed => 12,
            Color::Pink => 13,
            Color::Yellow => 14,
            Color::White => 15,
        }
    }
}

/// A packed color attribute: background in the high nibble, foreground in
/// the low one.
#[derive(Clone, Copy, Debug, PartialEq, Eq, Structural)]
pub struct ColorCode(pub u8);

impl ColorCode {
    /// Pack a foreground and a background color into one attribute byte.
    pub fn new(foreground: Color, background: Color) -> (c: ColorCode)
        ensures
            c.0 == spec_color_value(background) * 16 + spec_color_value(foreground),
    {
        let fg = foreground.value();
        let bg = background.value();
        proof {
            assert(bg < 16 && fg < 16 ==> ((bg << 4) | fg) == bg * 16 + fg) by (bit_vector);
        }
        ColorCode((bg << 4) | fg)
    }
}

/// One cell of the grid: a character byte and its color attribute.
#[derive(Clone, Copy, Debug, PartialEq, Eq, Structural)]
pub struct ScreenChar {
    pub ascii_character: u8,
    pub color_code: ColorCode,
}

/// A blank cell in the given color.
pub open spec fn spec_blank(color: ColorCode) -> ScreenChar {
    ScreenChar { ascii_character: 32, color_code: color }
}

/// A row of blank cells in the given color.
pub open spec fn spec_blank_row(color: ColorCode) -> Seq<ScreenChar> {
    Seq::new(BUFFER_WIDTH as nat, |i: int| spec_blank(color))
}

/// The display model: the grid flattened row-major, and the cursor.
pub struct WriterModel {
    pub buffer: Seq<ScreenChar>,
    pub row: int,
    pub col: int,
    pub color: ColorCode,
}

impl WriterModel {
    /// The grid has its fixed size and the cursor is inside it; the column
    /// may rest one past the last cell, where the next byte wraps.
    pub open spec fn wf(self) -> bool {
        &&& self.buffer.len() == BUFFER_WIDTH * BUFFER_HEIGHT
        &&& 0 <= self.row < BUFFER_HEIGHT
        &&& 0 <= self.col <= BUFFER_WIDTH
    }
}

/// Moving to the next line: go down one row, or scroll the grid up by one
/// row and blank the bottom row when already at the last one.
pub open spec fn spec_new_line(w: WriterModel) -> WriterModel {
    if w.row < BUFFER_HEIGHT - 1 {
        WriterModel { row: w.row + 1, col: 0, ..w }
    } else {
        WriterModel {
            buffer: w.buffer.subrange(BUFFER_WIDTH as int, (BUFFER_WIDTH * BUFFER_HEIGHT) as int)
                + spec_blank_row(w.color),
            col: 0,
            ..w
        }
    }
}

/// Writing one byte: a newline moves to the next line; any other byte is
/// stored at the cursor (wrapping first if the row is full) and the cursor
/// advances.
pub open spec fn spec_write_byte(w: WriterModel, byte: u8) -> WriterModel {
    if byte == 10 {
        spec_new_line(w)
    } else {
        let base = if w.col >= BUFFER_WIDTH {
            spec_new_line(w)
        } else {
            w
        };
        WriterModel {
            buffer: base.buffer.update(
                base.row * BUFFER_WIDTH + base.col,
                ScreenChar { ascii_character: byte, color_code: base.color },
            ),
            col: base.col + 1,
            ..base
        }
    }
}

/// A byte as it is rendered: printable ASCII and newline pass through,
/// anything else becomes the block character.
pub open spec fn spec_printable(byte: u8) -> u8 {
    if byte == 10 || (0x20 <= byte && byte <= 0x7e) {
        byte
    } else {
        0xfe
    }
}

/// Writing a whole string of bytes, each filtered through `spec_printable`.
pub open spec fn spec_write_bytes(w: WriterModel, bytes: Seq<u8>) -> WriterModel
    decreases bytes.len(),
{
    if bytes.len() == 0 {
        w
    } else {
        spec_write_bytes(spec_write_byte(w, spec_printable(bytes[0])), bytes.drop_first())
    }
}

/// Erasing the cell before the cursor: when the column is positive, step
/// back one cell and blank it; at the start of a row nothing happens.
pub open spec fn spec_backspace(w: WriterModel) -> WriterModel {
    if w.col > 0 {
        WriterModel {
            buffer: w.buffer.update(w.row * BUFFER_WIDTH + (w.col - 1), spec_blank(w.color)),
            col: w.col - 1,
            ..w
        }
    } else {
        w
    }
}

/// The whole grid blanked in the writer's color, cursor at the origin.
pub open spec fn spec_cleared(w: WriterModel) -> WriterModel {
    WriterModel {
        buffer: Seq::new((BUFFER_WIDTH * BUFFER_HEIGHT) as nat, |i: int| spec_blank(w.color)),
        row: 0,
        col: 0,
        ..w
    }
}

/// The bounds-checked writer over the display grid.
pub struct Writer {
    column_position: usize,
    row_position: usize,
    color_code: ColorCode,
    buffer: Vec<ScreenChar>,
}

impl View for Writer {
    type V = WriterModel;

    closed spec fn view(&self) -> WriterModel {
        WriterModel {
            buffer: self.buffer@,
            row: self.row_position as int,
            col: self.column_position as int,
            color: self.color_code,
        }
    }
}

impl Writer {
    /// A blank white-on-black display with the cursor at the origin.
    pub fn new() -> (w: Writer)
        ensures
            w@.wf(),
            w@.row == 0,
            w@.col == 0,
            w@.color.0 == 15,
            w@.buffer == Seq::new((BUFFER_WIDTH * BUFFER_HEIGHT) as nat, |i: int| spec_blank(
                ColorCode(15),
            )),
    {
        let color = ColorCode::new(Color::White, Color::Black);
        let mut buffer: Vec<ScreenChar> = Vec::new();
        let mut i: usize = 0;
        while i < BUFFER_WIDTH * BUFFER_HEIGHT
            invariant
                i <= BUFFER_WIDTH * BUFFER_HEIGHT,
                color.0 == 15,
                buffer@.len() == i,
                forall|j: int| 0 <= j < i ==> buffer@[j] == spec_blank(ColorCode(15)),
            decreases BUFFER_WIDTH * BUFFER_HEIGHT - i,
        {
            buffer.push(ScreenChar { ascii_character: 32, color_code: color });
            i = i + 1;
        }
        let w = Writer { column_position: 0, row_position: 0, color_code: color, buffer };
        proof {
            assert(w@.buffer =~= Seq::new(
                (BUFFER_WIDTH * BUFFER_HEIGHT) as nat,
                |i: int| spec_blank(ColorCode(15)),
            ));
        }
        w
    }

    /// The position the hardware cursor should be moved to: the cell index
    /// of the cursor in the row-major grid.
    pub fn cursor_position(&self) -> (pos: u16)
        requires
            self@.wf(),
        ensures
            pos == self@.row * BUFFER_WIDTH + self@.col,
    {
        (self.row_position * BUFFER_WIDTH + self.column_position) as u16
    }

    /// The character byte stored at a cell, for rendering and for tests.
    pub fn char_at(&self, row: usize, col: usize) -> (b: u8)
        requires
            self@.wf(),
            row < BUFFER_HEIGHT,
            col < BUFFER_WIDTH,
        ensures
            b == self@.buffer[row * BUFFER_WIDTH + col].ascii_character,
    {
        self.buffer[row * BUFFER_WIDTH + col].ascii_character
    }

    /// The color attribute stored at a cell.
    pub fn color_at(&self, row: usize, col: usize) -> (c: ColorCode)
        requires
            self@.wf(),
            row < BUFFER_HEIGHT,
            col < BUFFER_WIDTH,
        ensures
            c == self@.buffer[row * BUFFER_WIDTH + col].color_code,
    {
        self.buffer[row * BUFFER_WIDTH + col].color_code
    }

    /// The current color attribute.
    pub fn color_code(&self) -> (c: ColorCode)
        ensures
            c == self@.color,
    {
        self.color_code
    }

    /// Set the color used for subsequent writes.
    pub fn set_color(&mut self, foreground: Color, background: Color)
        requires
            old(self)@.wf(),
        ensures
            final(self)@.wf(),
            final(self)@ == (WriterModel {
                color: ColorCode(
                    (spec_color_value(background) * 16 + spec_color_value(foreground)) as u8,
                ),
                ..old(self)@
            }),
    {
        self.color_code = ColorCode::new(foreground, background);
    }

    /// Restore a saved color attribute.
    pub fn set_color_code(&mut self, color: ColorCode)
        requires
            old(self)@.wf(),
        ensures
            final(self)@.wf(),
            final(self)@ == (WriterModel { color, ..old(self)@ }),
    {
        self.color_code = color;
    }

    fn new_line(&mut self)
        requires
            old(self)@.wf(),
        ensures
            final(self)@.wf(),
            final(self)@ == spec_new_line(old(self)@),
    {
        self.column_position = 0;
        if self.row_position < BUFFER_HEIGHT - 1 {
            self.row_position = self.row_position + 1;
        } else {
            let mut i: usize = BUFFER_WIDTH;
            while i < BUFFER_WIDTH * BUFFER_HEIGHT
                invariant
                    BUFFER_WIDTH <= i <= BUFFER_WIDTH * BUFFER_HEIGHT,
                    self@.wf(),
                    self@.col == 0,
                    self@.row == old(self)@.row,
                    self@.color == old(self)@.color,
                    forall|j: int|
                        0 <= j < i - BUFFER_WIDTH ==> self@.buffer[j] == old(self)@.buffer[j
                            + BUFFER_WIDTH],
                    forall|j: int|
                        i - BUFFER_WIDTH <= j < BUFFER_WIDTH * BUFFER_HEIGHT ==> self@.buffer[j]
                            == old(self)@.buffer[j],
                decreases BUFFER_WIDTH * BUFFER_HEIGHT - i,
            {
                let moved = self.buffer[i];
                self.buffer.set(i - BUFFER_WIDTH, moved);
                i = i + 1;
            }
            self.clear_row(BUFFER_HEIGHT - 1);
            proof {
                assert(self@.buffer =~= old(self)@.buffer.subrange(
                    BUFFER_WIDTH as int,
                    (BUFFER_WIDTH * BUFFER_HEIGHT) as int,
                ) + spec_blank_row(old(self)@.color));
            }
        }
    }

    fn clear_row(&mut self, row: usize)
        requires
            old(self)@.wf(),
            row < BUFFER_HEIGHT,
        ensures
            final(self)@.wf(),
            final(self)@.row == old(self)@.row,
            final(self)@.col == old(self)@.col,
            final(self)@.color == old(self)@.color,
            final(self)@.buffer.len() == old(self)@.buffer.len(),
            forall|j: int|
                row * BUFFER_WIDTH <= j < (row + 1) * BUFFER_WIDTH ==> final(self)@.buffer[j]
                    == spec_blank(old(self)@.color),
            forall|j: int|
                0 <= j < BUFFER_WIDTH * BUFFER_HEIGHT && !(row * BUFFER_WIDTH <= j < (row + 1)
                    * BUFFER_WIDTH) ==> final(self)@.buffer[j] == old(self)@.buffer[j],
    {
        let blank = ScreenChar { ascii_character: 32, color_code: self.color_code };
        let mut col: usize = 0;
        while col < BUFFER_WIDTH
            invariant
                col <= BUFFER_WIDTH,
                row < BUFFER_HEIGHT,
                blank == spec_blank(old(self)@.color),
                self@.buffer.len() == BUFFER_WIDTH * BUFFER_HEIGHT,
                self@.row == old(self)@.row,
                self@.col == old(self)@.col,
                self@.color == old(self)@.color,
                forall|j: int|
                    row * BUFFER_WIDTH <= j < row * BUFFER_WIDTH + col ==> self@.buffer[j]
                        == spec_blank(old(self)@.color),
                forall|j: int|
                    0 <= j < BUFFER_WIDTH * BUFFER_HEIGHT && !(row * BUFFER_WIDTH <= j < row
                        * BUFFER_WIDTH + col) ==> self@.buffer[j] == old(self)@.buffer[j],
            decreases BUFFER_WIDTH - col,
        {
            self.buffer.set(row * BUFFER_WIDTH + col, blank);
            col = col + 1;
        }
    }

    /// Write one byte at the cursor, wrapping and scrolling as needed.
    pub fn write_byte(&mut self, byte: u8)
        requires
            old(self)@.wf(),
        ensures
            final(self)@.wf(),
            final(self)@ == spec_write_byte(old(self)@, byte),
    {
        if byte == 10 {
            self.new_line();
        } else {
            if self.column_position >= BUFFER_WIDTH {
                self.new_line();
            }
            let row = self.row_position;
            let col = self.column_position;
            let color_code = self.color_code;
            self.buffer.set(
                row * BUFFER_WIDTH + col,
                ScreenChar { ascii_character: byte, color_code },
            );
            self.column_position = self.column_position + 1;
        }
    }

    /// Write a string: printable ASCII and newlines as they are, anything
    /// else as the block character.
    pub fn write_string(&mut self, s: &str)
        requires
            old(self)@.wf(),
        ensures
            final(self)@.wf(),
            final(self)@ == spec_write_bytes(old(self)@, s.spec_bytes()),
    {
        let bytes = s.as_bytes_vec();
        self.write_bytes(&bytes);
    }

    /// Write a sequence of bytes, each filtered as `write_string` does.
    pub fn write_bytes(&mut self, bytes: &Vec<u8>)
        requires
            old(self)@.wf(),
        ensures
            final(self)@.wf(),
            final(self)@ == spec_write_bytes(old(self)@, bytes@),
    {
        proof {
            assert(bytes@.skip(0) =~= bytes@);
        }
        let mut i: usize = 0;
        while i < bytes.len()
            invariant
                i <= bytes@.len(),
                self@.wf(),
                spec_write_bytes(old(self)@, bytes@) == spec_write_bytes(
                    self@,
                    bytes@.skip(i as int),
                ),
            decreases bytes@.len() - i,
        {
            let ghost pre = self@;
            let b = bytes[i];
            if b == 10 || (0x20 <= b && b <= 0x7e) {
                self.write_byte(b);
            } else {
                self.write_byte(0xfe);
            }
            i = i + 1;
            proof {
                assert(bytes@.skip(i - 1).drop_first() =~= bytes@.skip(i as int));
                assert(spec_write_bytes(pre, bytes@.skip(i - 1)) == spec_write_bytes(
                    self@,
                    bytes@.skip(i as int),
                ));
            }
        }
        proof {
            assert(bytes@.skip(bytes@.len() as int) =~= Seq::<u8>::empty());
        }
    }

    /// Erase the character before the cursor, if the cursor is not at the
    /// start of a row.
    pub fn backspace(&mut self)
        requires
            old(self)@.wf(),
        ensures
            final(self)@.wf(),
            final(self)@ == spec_backspace(old(self)@),
    {
        if self.column_position > 0 {
            self.column_position = self.column_position - 1;
            let row = self.row_position;
            let col = self.column_position;
            self.buffer.set(
                row * BUFFER_WIDTH + col,
                ScreenChar { ascii_character: 32, color_code: self.color_code },
            );
        }
    }

    /// Blank the whole grid and move the cursor to the origin.
    pub fn clear_screen(&mut self)
        requires
            old(self)@.wf(),
        ensures
            final(self)@.wf(),
            final(self)@ == spec_cleared(old(self)@),
    {
        let mut row: usize = 0;
        while row < BUFFER_HEIGHT
            invariant
                row <= BUFFER_HEIGHT,
                self@.wf(),
                self@.row == old(self)@.row,
                self@.col == old(self)@.col,
                self@.color == old(self)@.color,
                forall|j: int|
                    0 <= j < row * BUFFER_WIDTH ==> self@.buffer[j] == spec_blank(old(self)@.color),
                forall|j: int|
                    row * BUFFER_WIDTH <= j < BUFFER_WIDTH * BUFFER_HEIGHT ==> self@.buffer[j]
                        == old(self)@.buffer[j],
            decreases BUFFER_HEIGHT - row,
        {
            self.clear_row(row);
            row = row + 1;
        }
        self.column_position = 0;
        self.row_position = 0;
        proof {
            assert(self@.buffer =~= Seq::new(
                (BUFFER_WIDTH * BUFFER_HEIGHT) as nat,
                |i: int| spec_blank(old(self)@.color),
            ));
        }
    }
}

/// Clear the display, as the boot sequence and the shell's clear command do.
pub fn _clear(w: &mut Writer)
    requires
        old(w)@.wf(),
    ensures
        final(w)@.wf(),
        final(w)@ == spec_cleared(old(w)@),
{
    w.clear_screen();
}

} // verus!
