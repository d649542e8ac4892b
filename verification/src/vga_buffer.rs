//! VGA text mode: an 80x25 grid of cells, each an ASCII byte and a colour
//! byte. The writer keeps the grid as plain values; copying it to the
//! memory-mapped screen at 0xb8000 is left to the program around it.

use vstd::prelude::*;
use vstd::string::StringSliceAdditionalSpecFns;

verus! {

/// Rows of the text screen.
pub const BUFFER_HEIGHT: usize = 25;
/// Columns of the text screen.
pub const BUFFER_WIDTH: usize = 80;

/// The sixteen VGA text colours.
#[derive(Clone, Copy, Debug, PartialEq, Eq, Structural)]
pub enum Color {
    Black,
    Blue,
    Green,
    Cyan,
    Red,
    Magenta,
    Brown,
    LightGray,
    DarkGray,
    LightBlue,
    LightGreen,
    LightCyan,
    LightRed,
    Pink,
    Yellow,
    White,
}

/// The 4-bit number the VGA hardware uses for a colour.
pub open spec fn color_number(c: Color) -> u8 {
    match c {
        Color::Black => 0,
        Color::Blue => 1,
        Color::Green => 2,
        Color::Cyan => 3,
        Color::Red => 4,
        Color::Magenta => 5,
        Color::Brown => 6,
        Color::LightGray => 7,
        Color::DarkGray => 8,
        Color::LightBlue => 9,
        Color::LightGreen => 10,
        Color::LightCyan => 11,
        Color::LightRed => 12,
        Color::Pink => 13,
        Color::Yellow => 14,
        Color::White => 15,
    }
}

impl Color {
    /// The 4-bit number the VGA hardware uses for this colour.
    pub fn number(self) -> (n: u8)
        ensures
            n == color_number(self),
    {
        match self {
            Color::Black => 0,
            Color::Blue => 1,
            Color::Green => 2,
            Color::Cyan => 3,
            Color::Red => 4,
            Color::Magenta => 5,
            Color::Brown => 6,
            Color::LightGray => 7,
            Color::DarkGray => 8,
            Color::LightBlue => 9,
            Color::LightGreen => 10,
            Color::LightCyan => 11,
            Color::LightRed => 12,
            Color::Pink => 13,
            Color::Yellow => 14,
            Color::White => 15,
        }
    }
}

/// A VGA attribute byte: background colour in the high nibble, foreground
/// colour in the low nibble.
#[derive(Clone, Copy, Debug, PartialEq, Eq, Structural)]
pub struct ColorCode(pub u8);

/// The attribute byte for `foreground` on `background`.
pub open spec fn color_code_of(foreground: Color, background: Color) -> ColorCode {
    ColorCode((color_number(background) * 16 + color_number(foreground)) as u8)
}

impl ColorCode {
    /// Combine a foreground and a background colour into one attribute byte.
    pub fn new(foreground: Color, background: Color) -> (c: ColorCode)
        ensures
            c == color_code_of(foreground, background),
    {
        let bg = background.number();
        let fg = foreground.number();
        proof {
            assert(bg < 16 && fg < 16 ==> (bg << 4u8) | fg == bg * 16 + fg) by (bit_vector);
        }
        ColorCode(bg << 4 | fg)
    }
}

/// One cell of the screen: a code-page-437 byte and its attribute byte.
#[derive(Clone, Copy, Debug, PartialEq, Eq, Structural)]
pub struct ScreenChar {
    pub ascii_character: u8,
    pub color_code: ColorCode,
}

/// Number of cells on the screen.
pub open spec fn screen_size() -> int {
    BUFFER_HEIGHT * BUFFER_WIDTH
}

/// Position of cell (`row`, `col`) in the row-major list of cells.
pub open spec fn cell_index(row: int, col: int) -> int {
    row * BUFFER_WIDTH + col
}

/// A space in the given colours.
pub open spec fn blank_cell(code: ColorCode) -> ScreenChar {
    ScreenChar { ascii_character: 0x20, color_code: code }
}

/// The screen scrolled up by one row: row `r` shows what row `r + 1`
/// showed, and the bottom row is blank in `code`.
pub open spec fn scrolled(cells: Seq<ScreenChar>, code: ColorCode) -> Seq<ScreenChar> {
    Seq::new(
        screen_size() as nat,
        |k: int|
            if k < screen_size() - BUFFER_WIDTH {
                cells[k + BUFFER_WIDTH]
            } else {
                blank_cell(code)
            },
    )
}

/// The cells with `bytes` painted in `code` along row `row` from column
/// `col` on; whatever falls past the right edge, or below the screen, is dropped.
pub open spec fn painted(
    cells: Seq<ScreenChar>,
    row: int,
    col: int,
    bytes: Seq<u8>,
    code: ColorCode,
) -> Seq<ScreenChar> {
    Seq::new(
        cells.len(),
        |k: int|
            if row < BUFFER_HEIGHT && cell_index(row, col) <= k < cell_index(row, col)
                + bytes.len() && k < cell_index(row, BUFFER_WIDTH as int) {
                ScreenChar { ascii_character: bytes[k - cell_index(row, col)], color_code: code }
            } else {
                cells[k]
            },
    )
}

/// The state of a terminal-style writer: cursor column on the bottom row,
/// current colours and the cells of the screen.
pub struct TextScreen {
    pub column: int,
    pub code: ColorCode,
    pub cells: Seq<ScreenChar>,
}

/// The byte that `write_string` puts on screen for `b`: printable ASCII and
/// newline pass, anything else becomes 0xfe (a small square).
pub open spec fn shown_byte(b: u8) -> u8 {
    if (0x20 <= b && b <= 0x7e) || b == 0x0a {
        b
    } else {
        0xfe
    }
}

/// The writer after `write_byte(b)`: a newline scrolls and returns the
/// cursor; any other byte goes to the cursor on the bottom row (scrolling
/// first when the row is full) and advances the cursor.
pub open spec fn after_byte(s: TextScreen, b: u8) -> TextScreen {
    if b == 0x0a {
        TextScreen { column: 0, code: s.code, cells: scrolled(s.cells, s.code) }
    } else {
        let (col, cells) = if s.column >= BUFFER_WIDTH {
            (0int, scrolled(s.cells, s.code))
        } else {
            (s.column, s.cells)
        };
        TextScreen {
            column: col + 1,
            code: s.code,
            cells: cells.update(
                cell_index(BUFFER_HEIGHT - 1, col),
                ScreenChar { ascii_character: b, color_code: s.code },
            ),
        }
    }
}

/// The writer after `write_string` has handled `bytes`, one after another.
pub open spec fn after_bytes(s: TextScreen, bytes: Seq<u8>) -> TextScreen
    decreases bytes.len(),
{
    if bytes.len() == 0 {
        s
    } else {
        after_byte(after_bytes(s, bytes.drop_last()), shown_byte(bytes.last()))
    }
}

/// Every cell holds printable ASCII or the 0xfe square.
pub open spec fn printable_screen(cells: Seq<ScreenChar>) -> bool {
    forall|k: int|
        0 <= k < cells.len() ==> {
            let b = (#[trigger] cells[k]).ascii_character;
            (0x20 <= b && b <= 0x7e) || b == 0xfe
        }
}

/// Writes characters to the text screen like a terminal: a cursor on the
/// bottom row, newlines and a full row scroll the screen up.
pub struct Writer {
    /// Cursor column on the bottom row.
    column_position: usize,
    /// Colours of the text the writer puts down.
    color_code: ColorCode,
    /// The screen cells, row by row.
    cells: Vec<ScreenChar>,
}

impl Writer {
    /// Columns of the screen.
    pub const WIDTH: usize = BUFFER_WIDTH;
    /// Rows of the screen.
    pub const HEIGHT: usize = BUFFER_HEIGHT;

    /// The screen cells, row by row.
    pub closed spec fn cells(&self) -> Seq<ScreenChar> {
        self.cells@
    }

    /// The cursor column on the bottom row.
    pub closed spec fn column(&self) -> int {
        self.column_position as int
    }

    /// The colours of the text the writer puts down.
    pub closed spec fn code(&self) -> ColorCode {
        self.color_code
    }

    /// Cursor, colours and cells together.
    pub open spec fn screen(&self) -> TextScreen {
        TextScreen { column: self.column(), code: self.code(), cells: self.cells() }
    }

    /// The screen has its 2000 cells and the cursor lies on the bottom row.
    pub open spec fn wf(&self) -> bool {
        &&& self.cells().len() == screen_size()
        &&& 0 <= self.column() <= BUFFER_WIDTH
    }
}

impl Writer {
    /// A writer over a blank screen, light gray on black, cursor at column 0.
    pub fn new() -> (w: Writer)
        ensures
            w.wf(),
            w.column() == 0,
            w.code() == color_code_of(Color::LightGray, Color::Black),
            w.cells() == Seq::new(screen_size() as nat, |k: int| blank_cell(w.code())),
    {
        let code = ColorCode::new(Color::LightGray, Color::Black);
        let blank = ScreenChar { ascii_character: 0x20, color_code: code };
        let mut cells: Vec<ScreenChar> = Vec::new();
        let mut k: usize = 0;
        while k < BUFFER_HEIGHT * BUFFER_WIDTH
            invariant
                k <= BUFFER_HEIGHT * BUFFER_WIDTH,
                cells@.len() == k,
                forall|j: int| 0 <= j < k ==> #[trigger] cells@[j] == blank,
            decreases BUFFER_HEIGHT * BUFFER_WIDTH - k,
        {
            cells.push(blank);
            k = k + 1;
        }
        let w = Writer { column_position: 0, color_code: code, cells };
        assert(w.cells() =~= Seq::new(screen_size() as nat, |k: int| blank_cell(w.code())));
        w
    }

    /// The screen cells, row by row, for copying to the display.
    pub fn as_cells(&self) -> (r: &[ScreenChar])
        ensures
            r@ == self.cells(),
    {
        self.cells.as_slice()
    }

    /// Paint one cell with a raw code-page-437 byte in the given colours.
    /// Coordinates off the screen are ignored; the cursor does not move.
    pub fn put_at(&mut self, row: usize, col: usize, byte: u8, fg: Color, bg: Color)
        requires
            old(self).wf(),
        ensures
            final(self).wf(),
            final(self).column() == old(self).column(),
            final(self).code() == old(self).code(),
            final(self).cells() == if row < BUFFER_HEIGHT && col < BUFFER_WIDTH {
                old(self).cells().update(
                    cell_index(row as int, col as int),
                    ScreenChar { ascii_character: byte, color_code: color_code_of(fg, bg) },
                )
            } else {
                old(self).cells()
            },
    {
        if row >= BUFFER_HEIGHT || col >= BUFFER_WIDTH {
            return;
        }
        let code = ColorCode::new(fg, bg);
        self.cells.set(row * BUFFER_WIDTH + col, ScreenChar { ascii_character: byte, color_code: code });
    }

    /// Write the bytes of `s` along row `row` from column `col` on, left to
    /// right, in the given colours; cells off the screen are skipped.
    pub fn put_str_at(&mut self, row: usize, col: usize, s: &str, fg: Color, bg: Color)
        requires
            old(self).wf(),
            col + s.spec_bytes().len() <= usize::MAX + 1,
        ensures
            final(self).wf(),
            final(self).column() == old(self).column(),
            final(self).code() == old(self).code(),
            final(self).cells() == painted(
                old(self).cells(),
                row as int,
                col as int,
                s.spec_bytes(),
                color_code_of(fg, bg),
            ),
    {
        let bytes = s.as_bytes();
        self.put_bytes_at(row, col, bytes, fg, bg);
    }

    /// Write `bytes` along row `row` from column `col` on, in the given colours.
    fn put_bytes_at(&mut self, row: usize, col: usize, bytes: &[u8], fg: Color, bg: Color)
        requires
            old(self).wf(),
            col + bytes@.len() <= usize::MAX + 1,
        ensures
            final(self).wf(),
            final(self).column() == old(self).column(),
            final(self).code() == old(self).code(),
            final(self).cells() == painted(
                old(self).cells(),
                row as int,
                col as int,
                bytes@,
                color_code_of(fg, bg),
            ),
    {
        let ghost start = self.cells();
        let ghost code = color_code_of(fg, bg);
        let mut i: usize = 0;
        while i < bytes.len()
            invariant
                self.wf(),
                i <= bytes@.len(),
                col + bytes@.len() <= usize::MAX + 1,
                self.column() == old(self).column(),
                self.code() == old(self).code(),
                start == old(self).cells(),
                code == color_code_of(fg, bg),
                self.cells() == painted(start, row as int, col as int, bytes@.take(i as int), code),
            decreases bytes@.len() - i,
        {
            self.put_at(row, col + i, bytes[i], fg, bg);
            proof {
                let next = painted(start, row as int, col as int, bytes@.take(i + 1), code);
                assert forall|k: int| 0 <= k < screen_size() implies #[trigger] self.cells()[k]
                    == next[k] by {
                    assert(bytes@.take(i + 1)[i as int] == bytes@[i as int]);
                    if 0 <= k - cell_index(row as int, col as int) < i {
                        assert(bytes@.take(i + 1)[k - cell_index(row as int, col as int)]
                            == bytes@.take(i as int)[k - cell_index(row as int, col as int)]);
                    }
                }
                assert(self.cells() =~= next);
            }
            i = i + 1;
        }
        assert(bytes@.take(bytes@.len() as int) =~= bytes@);
    }
}

/// The cells with row `row` blanked in `code`.
pub open spec fn row_cleared(cells: Seq<ScreenChar>, row: int, code: ColorCode) -> Seq<ScreenChar> {
    Seq::new(
        cells.len(),
        |k: int|
            if cell_index(row, 0) <= k < cell_index(row, BUFFER_WIDTH as int) {
                blank_cell(code)
            } else {
                cells[k]
            },
    )
}

impl Writer {
    /// Paint every cell of the screen with `byte` in the given colours.
    pub fn fill(&mut self, byte: u8, fg: Color, bg: Color)
        requires
            old(self).wf(),
        ensures
            final(self).wf(),
            final(self).column() == old(self).column(),
            final(self).code() == old(self).code(),
            final(self).cells() == Seq::new(
                screen_size() as nat,
                |k: int| ScreenChar { ascii_character: byte, color_code: color_code_of(fg, bg) },
            ),
    {
        let ghost start = self.cells();
        let ghost sc = ScreenChar { ascii_character: byte, color_code: color_code_of(fg, bg) };
        let mut row: usize = 0;
        while row < BUFFER_HEIGHT
            invariant
                self.wf(),
                row <= BUFFER_HEIGHT,
                self.column() == old(self).column(),
                self.code() == old(self).code(),
                start.len() == screen_size(),
                sc == (ScreenChar { ascii_character: byte, color_code: color_code_of(fg, bg) }),
                forall|k: int|
                    0 <= k < screen_size() ==> #[trigger] self.cells()[k] == if k < cell_index(
                        row as int,
                        0,
                    ) {
                        sc
                    } else {
                        start[k]
                    },
            decreases BUFFER_HEIGHT - row,
        {
            let mut col: usize = 0;
            while col < BUFFER_WIDTH
                invariant
                    self.wf(),
                    row < BUFFER_HEIGHT,
                    col <= BUFFER_WIDTH,
                    self.column() == old(self).column(),
                    self.code() == old(self).code(),
                    start.len() == screen_size(),
                    sc == (ScreenChar { ascii_character: byte, color_code: color_code_of(fg, bg) }),
                    forall|k: int|
                        0 <= k < screen_size() ==> #[trigger] self.cells()[k] == if k
                            < cell_index(row as int, col as int) {
                            sc
                        } else {
                            start[k]
                        },
                decreases BUFFER_WIDTH - col,
            {
                self.put_at(row, col, byte, fg, bg);
                col = col + 1;
            }
            row = row + 1;
        }
        assert(self.cells() =~= Seq::new(screen_size() as nat, |k: int| sc));
    }

    /// Blank row `row` in the writer's colours.
    fn clear_row(&mut self, row: usize)
        requires
            old(self).wf(),
            row < BUFFER_HEIGHT,
        ensures
            final(self).wf(),
            final(self).column() == old(self).column(),
            final(self).code() == old(self).code(),
            final(self).cells() == row_cleared(old(self).cells(), row as int, old(self).code()),
    {
        let blank = ScreenChar { ascii_character: 0x20, color_code: self.color_code };
        let ghost start = self.cells();
        let mut col: usize = 0;
        while col < BUFFER_WIDTH
            invariant
                self.wf(),
                row < BUFFER_HEIGHT,
                col <= BUFFER_WIDTH,
                self.column() == old(self).column(),
                self.code() == old(self).code(),
                start == old(self).cells(),
                blank == blank_cell(self.code()),
                forall|k: int|
                    0 <= k < screen_size() ==> #[trigger] self.cells()[k] == if cell_index(
                        row as int,
                        0,
                    ) <= k < cell_index(row as int, col as int) {
                        blank
                    } else {
                        start[k]
                    },
            decreases BUFFER_WIDTH - col,
        {
            self.cells.set(row * BUFFER_WIDTH + col, blank);
            col = col + 1;
        }
        assert(self.cells() =~= row_cleared(start, row as int, self.code()));
    }

    /// Blank the whole screen in the writer's colours and put the cursor
    /// back at column 0.
    pub fn clear_screen(&mut self)
        requires
            old(self).wf(),
        ensures
            final(self).wf(),
            final(self).column() == 0,
            final(self).code() == old(self).code(),
            final(self).cells() == Seq::new(
                screen_size() as nat,
                |k: int| blank_cell(old(self).code()),
            ),
    {
        let ghost start = self.cells();
        let mut row: usize = 0;
        while row < BUFFER_HEIGHT
            invariant
                self.wf(),
                row <= BUFFER_HEIGHT,
                self.code() == old(self).code(),
                start.len() == screen_size(),
                forall|k: int|
                    0 <= k < screen_size() ==> #[trigger] self.cells()[k] == if k < cell_index(
                        row as int,
                        0,
                    ) {
                        blank_cell(self.code())
                    } else {
                        start[k]
                    },
            decreases BUFFER_HEIGHT - row,
        {
            self.clear_row(row);
            row = row + 1;
        }
        self.column_position = 0;
        assert(self.cells() =~= Seq::new(screen_size() as nat, |k: int| blank_cell(old(self).code())));
    }

    /// Scroll the screen up by one row, blank the bottom row and put the
    /// cursor back at column 0.
    fn new_line(&mut self)
        requires
            old(self).wf(),
        ensures
            final(self).wf(),
            final(self).column() == 0,
            final(self).code() == old(self).code(),
            final(self).cells() == scrolled(old(self).cells(), old(self).code()),
    {
        let ghost start = self.cells();
        let mut row: usize = 1;
        while row < BUFFER_HEIGHT
            invariant
                self.wf(),
                1 <= row <= BUFFER_HEIGHT,
                self.code() == old(self).code(),
                start.len() == screen_size(),
                start == old(self).cells(),
                forall|k: int|
                    0 <= k < screen_size() ==> #[trigger] self.cells()[k] == if k < cell_index(
                        row - 1,
                        0,
                    ) {
                        start[k + BUFFER_WIDTH]
                    } else {
                        start[k]
                    },
            decreases BUFFER_HEIGHT - row,
        {
            let mut col: usize = 0;
            while col < BUFFER_WIDTH
                invariant
                    self.wf(),
                    1 <= row < BUFFER_HEIGHT,
                    col <= BUFFER_WIDTH,
                    self.code() == old(self).code(),
                    start.len() == screen_size(),
                    forall|k: int|
                        0 <= k < screen_size() ==> #[trigger] self.cells()[k] == if k
                            < cell_index(row - 1, col as int) {
                            start[k + BUFFER_WIDTH]
                        } else {
                            start[k]
                        },
                decreases BUFFER_WIDTH - col,
            {
                let character = self.cells[row * BUFFER_WIDTH + col];
                self.cells.set((row - 1) * BUFFER_WIDTH + col, character);
                col = col + 1;
            }
            row = row + 1;
        }
        self.clear_row(BUFFER_HEIGHT - 1);
        self.column_position = 0;
        assert(self.cells() =~= scrolled(start, old(self).code()));
    }
}

impl Writer {
    /// Write one byte at the cursor. A newline scrolls the screen up; any
    /// other byte is put on the bottom row, after scrolling if the row is full.
    pub fn write_byte(&mut self, byte: u8)
        requires
            old(self).wf(),
        ensures
            final(self).wf(),
            final(self).screen() == after_byte(old(self).screen(), byte),
    {
        if byte == 0x0a {
            self.new_line();
        } else {
            if self.column_position >= BUFFER_WIDTH {
                self.new_line();
            }
            let row = BUFFER_HEIGHT - 1;
            let col = self.column_position;
            self.cells.set(
                row * BUFFER_WIDTH + col,
                ScreenChar { ascii_character: byte, color_code: self.color_code },
            );
            self.column_position = self.column_position + 1;
        }
    }

    /// Write the bytes of `s` at the cursor. Printable ASCII and newlines
    /// pass through; every other byte is shown as 0xfe (a small square).
    pub fn write_string(&mut self, s: &str)
        requires
            old(self).wf(),
        ensures
            final(self).wf(),
            final(self).screen() == after_bytes(old(self).screen(), s.spec_bytes()),
            printable_screen(old(self).cells()) ==> printable_screen(final(self).cells()),
    {
        let bytes = s.as_bytes();
        let mut i: usize = 0;
        while i < bytes.len()
            invariant
                self.wf(),
                i <= bytes@.len(),
                bytes@ == s.spec_bytes(),
                self.screen() == after_bytes(old(self).screen(), bytes@.take(i as int)),
                printable_screen(old(self).cells()) ==> printable_screen(self.cells()),
            decreases bytes@.len() - i,
        {
            let byte = bytes[i];
            let ghost before = self.cells();
            if (0x20 <= byte && byte <= 0x7e) || byte == 0x0a {
                self.write_byte(byte);
            } else {
                self.write_byte(0xfe);
            }
            proof {
                assert(bytes@.take(i + 1).drop_last() =~= bytes@.take(i as int));
                if printable_screen(old(self).cells()) {
                    assert forall|k: int| 0 <= k < self.cells().len() implies {
                        let b = (#[trigger] self.cells()[k]).ascii_character;
                        (0x20 <= b && b <= 0x7e) || b == 0xfe
                    } by {
                        if byte == 0x0a || self.cells()[k] != before[k] {
                        }
                    }
                }
            }
            i = i + 1;
        }
        assert(bytes@.take(bytes@.len() as int) =~= bytes@);
    }
}

/// The sixteen colours carry their VGA hardware numbers: as foreground on
/// black each gives the attribute byte 0..15 in the order Black, Blue, Green,
/// Cyan, Red, Magenta, Brown, LightGray, DarkGray, LightBlue, LightGreen,
/// LightCyan, LightRed, Pink, Yellow, White, and as background behind black
/// the same number in the high nibble.
pub proof fn law_vga_colour_numbers()
    ensures
        color_code_of(Color::Black, Color::Black).0 == 0x00,
        color_code_of(Color::Blue, Color::Black).0 == 0x01,
        color_code_of(Color::Green, Color::Black).0 == 0x02,
        color_code_of(Color::Cyan, Color::Black).0 == 0x03,
        color_code_of(Color::Red, Color::Black).0 == 0x04,
        color_code_of(Color::Magenta, Color::Black).0 == 0x05,
        color_code_of(Color::Brown, Color::Black).0 == 0x06,
        color_code_of(Color::LightGray, Color::Black).0 == 0x07,
        color_code_of(Color::DarkGray, Color::Black).0 == 0x08,
        color_code_of(Color::LightBlue, Color::Black).0 == 0x09,
        color_code_of(Color::LightGreen, Color::Black).0 == 0x0A,
        color_code_of(Color::LightCyan, Color::Black).0 == 0x0B,
        color_code_of(Color::LightRed, Color::Black).0 == 0x0C,
        color_code_of(Color::Pink, Color::Black).0 == 0x0D,
        color_code_of(Color::Yellow, Color::Black).0 == 0x0E,
        color_code_of(Color::White, Color::Black).0 == 0x0F,
        color_code_of(Color::Black, Color::Blue).0 == 0x10,
        color_code_of(Color::Black, Color::Green).0 == 0x20,
        color_code_of(Color::Black, Color::Cyan).0 == 0x30,
        color_code_of(Color::Black, Color::Red).0 == 0x40,
        color_code_of(Color::Black, Color::Magenta).0 == 0x50,
        color_code_of(Color::Black, Color::Brown).0 == 0x60,
        color_code_of(Color::Black, Color::LightGray).0 == 0x70,
        color_code_of(Color::Black, Color::DarkGray).0 == 0x80,
        color_code_of(Color::Black, Color::LightBlue).0 == 0x90,
        color_code_of(Color::Black, Color::LightGreen).0 == 0xA0,
        color_code_of(Color::Black, Color::LightCyan).0 == 0xB0,
        color_code_of(Color::Black, Color::LightRed).0 == 0xC0,
        color_code_of(Color::Black, Color::Pink).0 == 0xD0,
        color_code_of(Color::Black, Color::Yellow).0 == 0xE0,
        color_code_of(Color::Black, Color::White).0 == 0xF0,
{
}

/// A newline scrolls the screen up one row: afterwards every cell (r, c)
/// of rows 0..24 holds what cell (r + 1, c) held before, the bottom row is
/// all spaces in the writer's colours, and the cursor is at column 0.
pub proof fn law_newline_scrolls_up_one_row(s: TextScreen)
    requires
        s.cells.len() == 2000,
    ensures
        after_byte(s, 0x0a).column == 0,
        after_byte(s, 0x0a).cells.len() == 2000,
        forall|r: int, c: int|
            0 <= r < 24 && 0 <= c < 80 ==> #[trigger] after_byte(s, 0x0a).cells[r * 80 + c]
                == s.cells[(r + 1) * 80 + c],
        forall|c: int|
            0 <= c < 80 ==> #[trigger] after_byte(s, 0x0a).cells[24 * 80 + c] == (ScreenChar {
                ascii_character: 0x20,
                color_code: s.code,
            }),
{
    assert forall|r: int, c: int| 0 <= r < 24 && 0 <= c < 80 implies #[trigger] after_byte(
        s,
        0x0a,
    ).cells[r * 80 + c] == s.cells[(r + 1) * 80 + c] by {
        assert(r * 80 + c < 1920);
        assert(r * 80 + c + 80 == (r + 1) * 80 + c);
    }
}

} // verus!
