//! The VGA text console's screen contents and the writer that fills them.
use vstd::prelude::*;
use vstd::string::StringSliceAdditionalSpecFns;

verus! {

/// The sixteen colors of the text console.
#[derive(Debug, Clone, Copy, PartialEq, Eq, Structural)]
pub enum Color {
    Black,
    Blue,
    Green,
    Cyan,
    Red,
    Magenta,
    Brown,
    LightGray,
    DarkGray,
    LightBlue,
    LightGreen,
    LightCyan,
    LightRed,
    Pink,
    Yellow,
    White,
}

pub open spec fn color_value(c: Color) -> u8 {
    match c {
        Color::Black => 0,
        Color::Blue => 1,
        Color::Green => 2,
        Color::Cyan => 3,
        Color::Red => 4,
        Color::Magenta => 5,
        Color::Brown => 6,
        Color::LightGray => 7,
        Color::DarkGray => 8,
        Color::LightBlue => 9,
        Color::LightGreen => 10,
        Color::LightCyan => 11,
        Color::LightRed => 12,
        Color::Pink => 13,
        Color::Yellow => 14,
        Color::White => 15,
    }
}

impl Color {
    pub fn as_u8(self) -> (r: u8)
        ensures
            r == color_value(self),
    {
        match self {
            Color::Black => 0,
            Color::Blue => 1,
            Color::Green => 2,
            Color::Cyan => 3,
            Color::Red => 4,
            Color::Magenta => 5,
            Color::Brown => 6,
            Color::LightGray => 7,
            Color::DarkGray => 8,
            Color::LightBlue => 9,
            Color::LightGreen => 10,
            Color::LightCyan => 11,
            Color::LightRed => 12,
            Color::Pink => 13,
            Color::Yellow => 14,
            Color::White => 15,
        }
    }
}

/// A foreground and background color: background in the high nibble.
#[derive(Debug, Clone, Copy, PartialEq, Eq, Structural)]
pub struct ColorCode(pub u8);

impl ColorCode {
    pub fn new(foreground: Color, background: Color) -> (r: ColorCode)
        ensures
            r.0 == color_value(background) * 16 + color_value(foreground),
    {
        ColorCode(background.as_u8() * 16 + foreground.as_u8())
    }
}

/// One character cell of the screen.
#[derive(Debug, Clone, Copy, PartialEq, Eq, Structural)]
pub struct ScreenChar {
    pub ascii_character: u8,
    pub color_code: ColorCode,
}

pub const BUFFER_HEIGHT: usize = 25;
pub const BUFFER_WIDTH: usize = 80;
/// Cells on the screen, row by row.
pub const BUFFER_CELLS: usize = 2000;

/// What the writer holds: the cursor column in the bottom row, the color it
/// writes with, and the 25 rows of 80 cells, top row first.
pub struct WriterView {
    pub column: nat,
    pub color: ColorCode,
    pub cells: Seq<ScreenChar>,
}

pub open spec fn blank(color: ColorCode) -> ScreenChar {
    ScreenChar { ascii_character: 0x20, color_code: color }
}

/// The screen after a line feed: every row moves up one, the bottom row is
/// blank, and the cursor goes to column 0.
pub open spec fn line_fed(w: WriterView) -> WriterView {
    WriterView {
        column: 0,
        cells: w.cells.subrange(80, 2000) + Seq::new(80, |i: int| blank(w.color)),
        ..w
    }
}

/// The screen after writing `byte`: a newline feeds a line; any other byte
/// goes to the cursor in the bottom row, after a line feed when the row is
/// full.
pub open spec fn wrote_byte(w: WriterView, byte: u8) -> WriterView {
    if byte == 0x0a {
        line_fed(w)
    } else {
        let v = if w.column >= 80 { line_fed(w) } else { w };
        WriterView {
            column: v.column + 1,
            cells: v.cells.update(24 * 80 + v.column as int, ScreenChar { ascii_character: byte, color_code: v.color }),
            ..v
        }
    }
}

/// The byte written for `byte` of a string: printable ASCII and newline as
/// they are, anything else as the block character 0xfe.
pub open spec fn shown(byte: u8) -> u8 {
    if (0x20 <= byte <= 0x7e) || byte == 0x0a {
        byte
    } else {
        0xfe
    }
}

/// The screen after writing each byte of `s` in turn.
pub open spec fn wrote_bytes(w: WriterView, s: Seq<u8>) -> WriterView
    decreases s.len(),
{
    if s.len() == 0 {
        w
    } else {
        wrote_byte(wrote_bytes(w, s.drop_last()), shown(s.last()))
    }
}

/// Writes text to the bottom row of the screen, scrolling up as lines fill.
pub struct Writer {
    column_position: usize,
    color_code: ColorCode,
    buffer: [ScreenChar; 2000],
}

impl Writer {
    pub closed spec fn view(&self) -> WriterView {
        WriterView { column: self.column_position as nat, color: self.color_code, cells: self.buffer@ }
    }

    pub open spec fn wf(&self) -> bool {
        &&& self@.column <= 80
        &&& self@.cells.len() == 2000
    }

    /// A blank screen, the cursor at column 0.
    pub fn new(color_code: ColorCode) -> (r: Writer)
        ensures
            r.wf(),
            r@ == (WriterView { column: 0, color: color_code, cells: Seq::new(2000, |i: int| blank(color_code)) }),
    {
        let buffer = [ScreenChar { ascii_character: 0x20, color_code }; 2000];
        let r = Writer { column_position: 0, color_code, buffer };
        assert(r@.cells =~= Seq::new(2000, |i: int| blank(color_code)));
        r
    }

    /// The cell at `row`, `col`.
    pub fn cell(&self, row: usize, col: usize) -> (r: ScreenChar)
        requires
            self.wf(),
            row < 25,
            col < 80,
        ensures
            r == self@.cells[row * 80 + col],
    {
        self.buffer[row * BUFFER_WIDTH + col]
    }

    /// Fills row `row` with blanks.
    pub fn clear_row(&mut self, row: usize)
        requires
            old(self).wf(),
            row < 25,
        ensures
            final(self).wf(),
            final(self)@ == (WriterView {
                cells: Seq::new(2000, |i: int| if row * 80 <= i < row * 80 + 80 { blank(old(self)@.color) } else { old(self)@.cells[i] }),
                ..old(self)@
            }),
    {
        let b = ScreenChar { ascii_character: 0x20, color_code: self.color_code };
        let mut col: usize = 0;
        while col < BUFFER_WIDTH
            invariant
                col <= 80,
                row < 25,
                self.column_position == old(self).column_position,
                self.color_code == old(self).color_code,
                b == blank(self.color_code),
                self.buffer@.len() == 2000,
                forall|i: int| 0 <= i < 2000 ==> #[trigger] self.buffer@[i] == if row * 80 <= i < row * 80 + col { b } else { old(self).buffer@[i] },
            decreases 80 - col,
        {
            self.buffer[row * BUFFER_WIDTH + col] = b;
            col = col + 1;
        }
        assert(self@.cells =~= Seq::new(2000, |i: int| if row * 80 <= i < row * 80 + 80 { blank(old(self)@.color) } else { old(self)@.cells[i] }));
    }

    /// Moves every row up one, blanks the bottom row and returns the cursor
    /// to column 0.
    pub fn new_line(&mut self)
        requires
            old(self).wf(),
        ensures
            final(self).wf(),
            final(self)@ == line_fed(old(self)@),
    {
        let ghost c0 = self.buffer@;
        let mut i: usize = BUFFER_WIDTH;
        while i < BUFFER_CELLS
            invariant
                80 <= i <= 2000,
                self.column_position == old(self).column_position,
                self.color_code == old(self).color_code,
                self.buffer@.len() == 2000,
                forall|j: int| 0 <= j < i - 80 ==> #[trigger] self.buffer@[j] == c0[j + 80],
                forall|j: int| i - 80 <= j < 2000 ==> #[trigger] self.buffer@[j] == c0[j],
            decreases 2000 - i,
        {
            let c = self.buffer[i];
            self.buffer[i - BUFFER_WIDTH] = c;
            i = i + 1;
        }
        self.clear_row(BUFFER_HEIGHT - 1);
        self.column_position = 0;
        assert(self@.cells =~= line_fed(old(self)@).cells);
    }

    /// Writes one byte at the cursor; a newline feeds a line.
    pub fn write_byte(&mut self, byte: u8)
        requires
            old(self).wf(),
        ensures
            final(self).wf(),
            final(self)@ == wrote_byte(old(self)@, byte),
    {
        if byte == 0x0a {
            self.new_line();
        } else {
            if self.column_position >= BUFFER_WIDTH {
                self.new_line();
            }
            let row = BUFFER_HEIGHT - 1;
            let col = self.column_position;
            self.buffer[row * BUFFER_WIDTH + col] = ScreenChar { ascii_character: byte, color_code: self.color_code };
            self.column_position = self.column_position + 1;
        }
    }

    /// Writes the bytes of `s`, showing bytes outside printable ASCII as 0xfe.
    pub fn write_string(&mut self, s: &str)
        requires
            old(self).wf(),
        ensures
            final(self).wf(),
            final(self)@ == wrote_bytes(old(self)@, s.spec_bytes()),
    {
        let bytes = s.as_bytes();
        let mut i: usize = 0;
        while i < bytes.len()
            invariant
                self.wf(),
                i <= bytes@.len(),
                self@ == wrote_bytes(old(self)@, bytes@.take(i as int)),
            decreases bytes@.len() - i,
        {
            let b = bytes[i];
            let shown_byte: u8 = if (0x20 <= b && b <= 0x7e) || b == 0x0a { b } else { 0xfe };
            self.write_byte(shown_byte);
            proof {
                assert(bytes@.take(i + 1).drop_last() =~= bytes@.take(i as int));
            }
            i = i + 1;
        }
        assert(bytes@.take(bytes@.len() as int) =~= bytes@);
    }
}

} // verus!
