use vstd::prelude::*;
use vstd::string::StringSliceAdditionalSpecFns;

verus! {

/// Number of rows of the grid.
pub const BUFFER_HEIGHT: usize = 25;

/// Number of columns of the grid.
pub const BUFFER_WIDTH: usize = 80;

/// Number of cells of the grid.
pub const BUFFER_CELLS: usize = BUFFER_HEIGHT * BUFFER_WIDTH;

/// The sixteen colors of the text-mode palette, in palette order.
#[derive(Debug, Clone, Copy, PartialEq, Eq, Structural)]
pub enum Color {
    Black,
    Blue,
    Green,
    Cyan,
    Red,
    Magenta,
    Brown,
    LtGray,
    DkGray,
    LtBlue,
    LtGreen,
    LtCyan,
    LtRed,
    Pink,
    Yellow,
    White,
}

/// The 4-bit palette index of a color.
pub open spec fn color_index(c: Color) -> u8 {
    match c {
        Color::Black => 0,
        Color::Blue => 1,
        Color::Green => 2,
        Color::Cyan => 3,
        Color::Red => 4,
        Color::Magenta => 5,
        Color::Brown => 6,
        Color::LtGray => 7,
        Color::DkGray => 8,
        Color::LtBlue => 9,
        Color::LtGreen => 10,
        Color::LtCyan => 11,
        Color::LtRed => 12,
        Color::Pink => 13,
        Color::Yellow => 14,
        Color::White => 15,
    }
}

impl Color {
    /// The palette index of this color, below 16.
    pub fn index(self) -> (r: u8)
        ensures
            r == color_index(self),
            r < 16,
    {
        match self {
            Color::Black => 0,
            Color::Blue => 1,
            Color::Green => 2,
            Color::Cyan => 3,
            Color::Red => 4,
            Color::Magenta => 5,
            Color::Brown => 6,
            Color::LtGray => 7,
            Color::DkGray => 8,
            Color::LtBlue => 9,
            Color::LtGreen => 10,
            Color::LtCyan => 11,
            Color::LtRed => 12,
            Color::Pink => 13,
            Color::Yellow => 14,
            Color::White => 15,
        }
    }
}

/// A foreground and a background color packed in one byte: the background in
/// the high nibble, the foreground in the low one.
#[derive(Debug, Clone, Copy, PartialEq, Eq, Structural)]
pub struct ColorCode(pub u8);

/// The packed byte of a foreground and a background color.
pub open spec fn color_code_of(fg: Color, bg: Color) -> u8 {
    (color_index(bg) * 16 + color_index(fg)) as u8
}

/// White on black: the color of a blank cell.
pub open spec fn default_color_code() -> ColorCode {
    ColorCode(color_code_of(Color::White, Color::Black))
}

impl ColorCode {
    /// Packs `fg` into the low nibble and `bg` into the high nibble.
    pub fn new(fg: Color, bg: Color) -> (r: ColorCode)
        ensures
            r.0 == color_code_of(fg, bg),
            r.0 % 16 == color_index(fg),
            r.0 / 16 == color_index(bg),
    {
        let f = fg.index();
        let b = bg.index();
        let v: u8 = (b << 4u8) | f;
        assert(v == b * 16 + f) by (bit_vector)
            requires
                v == (b << 4u8) | f,
                f < 16,
                b < 16,
        ;
        ColorCode(v)
    }
}

impl Default for ColorCode {
    fn default() -> (r: ColorCode)
        ensures
            r == default_color_code(),
    {
        ColorCode::new(Color::White, Color::Black)
    }
}

/// One cell of the grid: the byte shown and its colors.
#[derive(Debug, Clone, Copy, PartialEq, Eq, Structural)]
pub struct ScreenChar {
    pub ascii: u8,
    pub color: ColorCode,
}

/// A space in white on black.
pub open spec fn blank_char() -> ScreenChar {
    ScreenChar { ascii: 0x20, color: default_color_code() }
}

impl Default for ScreenChar {
    fn default() -> (r: ScreenChar)
        ensures
            r == blank_char(),
    {
        ScreenChar { ascii: 0x20, color: ColorCode::default() }
    }
}

/// A byte that the adapter renders as itself: printable ASCII.
pub open spec fn is_printable(b: u8) -> bool {
    0x20 <= b <= 0x7e
}

/// The byte stored for `b` by a string write: `b` itself when it is printable
/// or a newline, else the sentinel 0xFE.
pub open spec fn sanitized(b: u8) -> u8 {
    if is_printable(b) || b == 10 {
        b
    } else {
        0xfe
    }
}

/// What a writer holds: its cursor column on the bottom row, its color, and
/// the grid as a sequence of rows laid end to end.
pub struct Screen {
    pub col: nat,
    pub color: ColorCode,
    pub cells: Seq<ScreenChar>,
}

/// Index in the cell sequence of the cell at (`row`, `col`).
pub open spec fn cell_index(row: int, col: int) -> int {
    row * BUFFER_WIDTH as int + col
}

/// The cells of row `row`.
pub open spec fn row_of(cells: Seq<ScreenChar>, row: int) -> Seq<ScreenChar> {
    cells.subrange(cell_index(row, 0), cell_index(row + 1, 0))
}

/// A row of blank cells.
pub open spec fn blank_row() -> Seq<ScreenChar> {
    Seq::new(BUFFER_WIDTH as nat, |i: int| blank_char())
}

/// A grid of blank cells.
pub open spec fn blank_grid() -> Seq<ScreenChar> {
    Seq::new((BUFFER_HEIGHT * BUFFER_WIDTH) as nat, |i: int| blank_char())
}

/// The grid with every row moved up by one, the top row dropped and a blank
/// bottom row added.
pub open spec fn scrolled(cells: Seq<ScreenChar>) -> Seq<ScreenChar> {
    cells.subrange(BUFFER_WIDTH as int, cells.len() as int) + blank_row()
}

impl Screen {
    /// The column is within the row and the grid has its full size.
    pub open spec fn wf(self) -> bool {
        &&& self.col <= BUFFER_WIDTH
        &&& self.cells.len() == BUFFER_HEIGHT * BUFFER_WIDTH
    }

    /// The state after a scroll: rows shifted up, cursor back at column 0.
    pub open spec fn new_line(self) -> Screen {
        Screen { col: 0, color: self.color, cells: scrolled(self.cells) }
    }

    /// The state after writing the byte `b` as it is: a newline scrolls; any
    /// other byte first scrolls if the bottom row is full, then goes in the
    /// bottom row at the cursor column, which moves on by one.
    pub open spec fn step(self, b: u8) -> Screen {
        if b == 10 {
            self.new_line()
        } else {
            let s = if self.col >= BUFFER_WIDTH { self.new_line() } else { self };
            Screen {
                col: s.col + 1,
                color: s.color,
                cells: s.cells.update(
                    cell_index(BUFFER_HEIGHT - 1, s.col as int),
                    ScreenChar { ascii: b, color: s.color },
                ),
            }
        }
    }

    /// The state after writing `bytes` in order, each one sanitized.
    pub open spec fn written(self, bytes: Seq<u8>) -> Screen
        decreases bytes.len(),
    {
        if bytes.len() == 0 {
            self
        } else {
            self.written(bytes.drop_last()).step(sanitized(bytes.last()))
        }
    }
}

/// A console over a grid of `BUFFER_HEIGHT` rows of `BUFFER_WIDTH` cells.
/// Text goes into the bottom row; rows move up as lines are finished.
pub struct Writer {
    col: usize,
    color: ColorCode,
    cells: [ScreenChar; BUFFER_CELLS],
}

impl View for Writer {
    type V = Screen;

    closed spec fn view(&self) -> Screen {
        Screen { col: self.col as nat, color: self.color, cells: self.cells@ }
    }
}

impl Writer {
    /// The cursor never goes past the end of the row.
    #[verifier::type_invariant]
    spec fn cursor_in_row(self) -> bool {
        self.col <= BUFFER_WIDTH
    }

    /// A writer in `color` over a blank grid, with the cursor at column 0.
    pub fn new(color: ColorCode) -> (r: Writer)
        ensures
            r@ == (Screen { col: 0, color, cells: blank_grid() }),
            r@.wf(),
    {
        let cells = [ScreenChar::default(); BUFFER_CELLS];
        assert(cells@ =~= blank_grid());
        Writer { col: 0, color, cells }
    }

    /// The cell at (`row`, `col`).
    pub fn char_at(&self, row: usize, col: usize) -> (r: ScreenChar)
        requires
            row < BUFFER_HEIGHT,
            col < BUFFER_WIDTH,
        ensures
            r == self@.cells[cell_index(row as int, col as int)],
    {
        self.cells[row * BUFFER_WIDTH + col]
    }

    /// The cursor column on the bottom row.
    pub fn column(&self) -> (r: usize)
        ensures
            r == self@.col,
            r <= BUFFER_WIDTH,
    {
        proof {
            use_type_invariant(self);
        }
        self.col
    }

    /// The color that written bytes get.
    pub fn color_code(&self) -> (r: ColorCode)
        ensures
            r == self@.color,
    {
        self.color
    }

    /// Writes `b` as it is at the cursor, as `Screen::step` says.
    pub fn write_byte(&mut self, b: u8)
        ensures
            final(self)@.wf(),
            final(self)@ == old(self)@.step(b),
    {
        proof {
            use_type_invariant(&*self);
        }
        if b == 0x0a {
            self.new_line();
        } else {
            if self.col >= BUFFER_WIDTH {
                self.new_line();
            }
            let i = (BUFFER_HEIGHT - 1) * BUFFER_WIDTH + self.col;
            self.cells[i] = ScreenChar { ascii: b, color: self.color };
            self.col = self.col + 1;
        }
    }

    /// Writes the bytes of `s` in order, each printable byte and newline as it
    /// is and every other byte as 0xFE.
    pub fn write_string(&mut self, s: &str)
        ensures
            final(self)@.wf(),
            final(self)@ == old(self)@.written(s.spec_bytes()),
    {
        proof {
            use_type_invariant(&*self);
        }
        let bytes = s.as_bytes();
        let mut i: usize = 0;
        while i < bytes.len()
            invariant
                0 <= i <= bytes@.len(),
                bytes@ == s.spec_bytes(),
                self@.wf(),
                self@ == old(self)@.written(bytes@.subrange(0, i as int)),
            decreases bytes@.len() - i,
        {
            let b = bytes[i];
            let c: u8 = if (0x20 <= b && b <= 0x7e) || b == 0x0a {
                b
            } else {
                0xfe
            };
            self.write_byte(c);
            assert(bytes@.subrange(0, i + 1).drop_last() =~= bytes@.subrange(0, i as int));
            i = i + 1;
        }
        assert(bytes@.subrange(0, bytes@.len() as int) =~= bytes@);
    }

    /// Moves every row up by one, blanks the bottom row and puts the cursor
    /// at column 0.
    fn new_line(&mut self)
        ensures
            final(self)@ == old(self)@.new_line(),
            final(self)@.wf(),
    {
        proof {
            use_type_invariant(&*self);
        }
        let mut i: usize = BUFFER_WIDTH;
        while i < BUFFER_CELLS
            invariant
                BUFFER_WIDTH <= i <= BUFFER_CELLS,
                self.col == old(self).col,
                self.col <= BUFFER_WIDTH,
                self.color == old(self).color,
                forall|j: int|
                    0 <= j < i - BUFFER_WIDTH ==> self.cells@[j] == old(self).cells@[j
                        + BUFFER_WIDTH],
                forall|j: int|
                    i - BUFFER_WIDTH <= j < BUFFER_CELLS ==> self.cells@[j] == old(
                        self,
                    ).cells@[j],
            decreases BUFFER_CELLS - i,
        {
            let c = self.cells[i];
            self.cells[i - BUFFER_WIDTH] = c;
            i = i + 1;
        }
        self.clear_row(BUFFER_HEIGHT - 1);
        self.col = 0;
        assert(self.cells@ =~= scrolled(old(self).cells@));
    }

    /// Fills row `row` with blank cells.
    fn clear_row(&mut self, row: usize)
        requires
            row < BUFFER_HEIGHT,
        ensures
            final(self).col == old(self).col,
            final(self).color == old(self).color,
            forall|j: int|
                0 <= j < BUFFER_CELLS ==> final(self).cells@[j] == if cell_index(row as int, 0)
                    <= j < cell_index(row as int + 1, 0) {
                    blank_char()
                } else {
                    old(self).cells@[j]
                },
    {
        proof {
            use_type_invariant(&*self);
        }
        let mut col: usize = 0;
        while col < BUFFER_WIDTH
            invariant
                col <= BUFFER_WIDTH,
                row < BUFFER_HEIGHT,
                self.col == old(self).col,
                self.col <= BUFFER_WIDTH,
                self.color == old(self).color,
                forall|j: int|
                    0 <= j < BUFFER_CELLS ==> self.cells@[j] == if cell_index(row as int, 0) <= j
                        < cell_index(row as int, col as int) {
                        blank_char()
                    } else {
                        old(self).cells@[j]
                    },
            decreases BUFFER_WIDTH - col,
        {
            self.cells[row * BUFFER_WIDTH + col] = ScreenChar::default();
            col = col + 1;
        }
    }
}

impl Default for Writer {
    /// A white-on-black writer over a blank grid.
    fn default() -> (r: Writer)
        ensures
            r@ == (Screen { col: 0, color: default_color_code(), cells: blank_grid() }),
            r@.wf(),
    {
        Writer::new(ColorCode::default())
    }
}

/// The error type of `core::fmt::Write`, named in the result of `write_str`.
#[verifier::external_type_specification]
#[verifier::external_body]
pub struct ExFmtError(core::fmt::Error);

impl core::fmt::Write for Writer {
    /// Writes `s` as `write_string` does, and always succeeds.
    fn write_str(&mut self, s: &str) -> (r: core::fmt::Result)
        ensures
            r.is_ok(),
            final(self)@.wf(),
            final(self)@ == old(self)@.written(s.spec_bytes()),
    {
        self.write_string(s);
        Ok(())
    }
}

/// The print entry point: writes already formatted text to `writer`.
pub fn _print(writer: &mut Writer, text: &str)
    ensures
        final(writer)@.wf(),
        final(writer)@ == old(writer)@.written(text.spec_bytes()),
{
    writer.write_string(text);
}

} // verus!
