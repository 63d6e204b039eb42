//! The display-buffer writer: cursor tracking, line wrapping, scroll on
//! overflow, scoped color overrides, and the byte-level write path onto a
//! fixed `25 x 80` grid of character cells.
//!
//! The writer owns the grid as plain memory. The kernel shell maps the same
//! cell layout onto the hardware display surface; every contract here speaks
//! about the abstract `ScreenState` view of the grid.

use vstd::prelude::*;
use vstd::string::StringSliceAdditionalSpecFns;

verus! {

/// Number of visible rows of the display surface.
pub const BUFFER_HEIGHT: usize = 25;

/// Number of character cells in one row of the display surface.
pub const BUFFER_WIDTH: usize = 80;

/// The fixed placeholder glyph written in place of a non-printable byte.
pub const PLACEHOLDER: u8 = 0xfe;

/// The newline sentinel, consumed by the write path instead of being placed
/// in a cell.
pub const NEWLINE: u8 = 0x0a;

/// The blank symbol used when a row is cleared.
pub const BLANK: u8 = 0x20;

/// The 16-color palette of the display, with its stable numeric encoding
/// `0..=15` given by `spec_number`.
#[derive(Clone, Copy, Debug, PartialEq, Eq, Structural)]
pub enum Color {
    Black,
    Blue,
    Green,
    Cyan,
    Red,
    Magenta,
    Brown,
    LightGray,
    DarkGray,
    LightBlue,
    LightGreen,
    LightCyan,
    LightRed,
    Pink,
    Yellow,
    White,
}

impl Color {
    /// The stable numeric encoding of this color.
    pub open spec fn spec_number(self) -> u8 {
        match self {
            Color::Black => 0,
            Color::Blue => 1,
            Color::Green => 2,
            Color::Cyan => 3,
            Color::Red => 4,
            Color::Magenta => 5,
            Color::Brown => 6,
            Color::LightGray => 7,
            Color::DarkGray => 8,
            Color::LightBlue => 9,
            Color::LightGreen => 10,
            Color::LightCyan => 11,
            Color::LightRed => 12,
            Color::Pink => 13,
            Color::Yellow => 14,
            Color::White => 15,
        }
    }

    /// Returns the numeric encoding of this color.
    pub fn number(self) -> (n: u8)
        ensures
            n == self.spec_number(),
            n <= 15,
    {
        match self {
            Color::Black => 0,
            Color::Blue => 1,
            Color::Green => 2,
            Color::Cyan => 3,
            Color::Red => 4,
            Color::Magenta => 5,
            Color::Brown => 6,
            Color::LightGray => 7,
            Color::DarkGray => 8,
            Color::LightBlue => 9,
            Color::LightGreen => 10,
            Color::LightCyan => 11,
            Color::LightRed => 12,
            Color::Pink => 13,
            Color::Yellow => 14,
            Color::White => 15,
        }
    }
}

/// The packed attribute byte: foreground in the low nibble, background in
/// the high nibble.
pub open spec fn spec_code(foreground: Color, background: Color) -> u8 {
    (foreground.spec_number() + background.spec_number() * 16) as u8
}

/// A packed color attribute: foreground color in bits 0-3, background color
/// in bits 4-7.
#[derive(Clone, Copy, Debug, PartialEq, Eq, Structural)]
pub struct ColorCode(pub u8);

impl ColorCode {
    /// Packs a foreground and a background color into one attribute byte.
    pub fn new(foreground: Color, background: Color) -> (c: ColorCode)
        ensures
            c == ColorCode(spec_code(foreground, background)),
    {
        ColorCode(foreground.number() + background.number() * 16)
    }
}

/// The default attribute: white text on a black background.
pub open spec fn spec_default_code() -> ColorCode {
    ColorCode(0x0f)
}

impl Default for ColorCode {
    /// The default attribute is white on black.
    fn default() -> (c: Self)
        ensures
            c == spec_default_code(),
    {
        ColorCode::new(Color::White, Color::Black)
    }
}

/// One cell of the display surface: a symbol byte and its color attribute.
#[derive(Clone, Copy, Debug, PartialEq, Eq, Structural)]
pub struct ScreenChar {
    pub ascii_character: u8,
    pub color_code: ColorCode,
}

/// A blank cell: the blank symbol with the default attribute.
pub open spec fn blank_char() -> ScreenChar {
    ScreenChar { ascii_character: BLANK, color_code: spec_default_code() }
}

/// A fully cleared row.
pub open spec fn blank_row() -> Seq<ScreenChar> {
    Seq::new(BUFFER_WIDTH as nat, |c: int| blank_char())
}

/// Whether a byte lies in the printable ASCII range `0x20..=0x7e`.
pub open spec fn spec_printable(b: u8) -> bool {
    0x20 <= b && b <= 0x7e
}

/// The glyph actually placed for an input byte: printable bytes pass
/// through, everything else becomes the placeholder.
pub open spec fn glyph_for(b: u8) -> u8 {
    if spec_printable(b) {
        b
    } else {
        PLACEHOLDER
    }
}

/// The abstract state of the display writer: the grid of cells, the cursor
/// position and the current color attribute.
#[verifier::ext_equal]
pub struct ScreenState {
    pub grid: Seq<Seq<ScreenChar>>,
    pub col: int,
    pub row: int,
    pub color: ColorCode,
}

/// Well-formedness of an abstract screen state: grid geometry and cursor
/// bounds.
pub open spec fn st_wf(s: ScreenState) -> bool {
    &&& s.grid.len() == BUFFER_HEIGHT
    &&& forall|r: int| 0 <= r < BUFFER_HEIGHT ==> (#[trigger] s.grid[r]).len() == BUFFER_WIDTH
    &&& 0 <= s.col < BUFFER_WIDTH
    &&& 0 <= s.row < BUFFER_HEIGHT
}

/// The grid after a scroll: every row moves one row up, row 0 is discarded,
/// and the last row becomes blank.
pub open spec fn scrolled(g: Seq<Seq<ScreenChar>>) -> Seq<Seq<ScreenChar>> {
    g.subrange(1, BUFFER_HEIGHT as int).push(blank_row())
}

/// The effect of advancing to a new line: either the cursor row increments
/// and the newly entered row is cleared, or, on the last row, the grid
/// scrolls; in both cases the column resets to 0.
pub open spec fn line_feed(s: ScreenState) -> ScreenState {
    if s.row + 1 < BUFFER_HEIGHT {
        ScreenState {
            grid: s.grid.update(s.row + 1, blank_row()),
            col: 0,
            row: s.row + 1,
            color: s.color,
        }
    } else {
        ScreenState { grid: scrolled(s.grid), col: 0, row: BUFFER_HEIGHT - 1, color: s.color }
    }
}

/// The effect of placing the glyph for byte `b` at the cursor and advancing
/// the column, before any wrap is taken.
pub open spec fn placed(s: ScreenState, b: u8) -> ScreenState {
    let cell = ScreenChar { ascii_character: glyph_for(b), color_code: s.color };
    ScreenState {
        grid: s.grid.update(s.row, s.grid[s.row].update(s.col, cell)),
        col: s.col + 1,
        row: s.row,
        color: s.color,
    }
}

/// The effect of writing one byte: a newline advances the line; any other
/// byte is placed (substituted if non-printable) and the line advances when
/// the column has reached the width.
pub open spec fn write_byte_spec(s: ScreenState, b: u8) -> ScreenState {
    if b == NEWLINE {
        line_feed(s)
    } else {
        let p = placed(s, b);
        if p.col == BUFFER_WIDTH {
            line_feed(p)
        } else {
            p
        }
    }
}

/// The effect of writing a sequence of bytes, one at a time, in order.
pub open spec fn write_bytes_spec(s: ScreenState, bytes: Seq<u8>) -> ScreenState
    decreases bytes.len(),
{
    if bytes.len() == 0 {
        s
    } else {
        write_bytes_spec(write_byte_spec(s, bytes[0]), bytes.drop_first())
    }
}

/// The fixed-geometry grid of display cells, stored row-major.
pub struct VGABuffer {
    cells: Vec<ScreenChar>,
}

impl VGABuffer {
    /// The buffer holds exactly one cell per position of the grid.
    pub closed spec fn wf(self) -> bool {
        self.cells@.len() == BUFFER_HEIGHT * BUFFER_WIDTH
    }

    /// The grid of cells as rows of columns.
    pub closed spec fn grid(self) -> Seq<Seq<ScreenChar>> {
        Seq::new(
            BUFFER_HEIGHT as nat,
            |r: int|
                Seq::new(
                    BUFFER_WIDTH as nat,
                    |c: int| self.cells@[r * (BUFFER_WIDTH as int) + c],
                ),
        )
    }
}

/// The cursor-and-color writer: owns the cursor position, the current color
/// attribute and the display buffer, and translates a stream of bytes into
/// cell writes.
pub struct Writer {
    position: (usize, usize),
    color_code: ColorCode,
    buffer: VGABuffer,
}

impl View for Writer {
    type V = ScreenState;

    closed spec fn view(&self) -> ScreenState {
        ScreenState {
            grid: self.buffer.grid(),
            col: self.position.0 as int,
            row: self.position.1 as int,
            color: self.color_code,
        }
    }
}

/// A token returned by a color override; releasing it restores the
/// attribute that was active when it was created.
#[must_use]
pub struct ColorGuard {
    initial: ColorCode,
}

impl ColorGuard {
    /// The attribute that was active when this guard was created.
    pub closed spec fn saved(self) -> ColorCode {
        self.initial
    }
}

impl Writer {
    /// Internal invariant: the buffer has full geometry and the cursor is in
    /// bounds.
    pub closed spec fn wf(self) -> bool {
        &&& self.buffer.wf()
        &&& self.position.0 < BUFFER_WIDTH
        &&& self.position.1 < BUFFER_HEIGHT
    }

    /// What advancing a line needs: full geometry and a row in bounds; the
    /// column may momentarily sit at the width, just before the wrap.
    spec fn pre_feed(self) -> bool {
        &&& self.buffer.wf()
        &&& self.position.1 < BUFFER_HEIGHT
    }

    /// A well-formed writer has a well-formed abstract state.
    pub proof fn lemma_wf_view(self)
        requires
            self.wf(),
        ensures
            st_wf(self@),
    {
    }

    /// Constructs a writer over a fully blank grid, with the cursor at the
    /// top-left corner and the default color attribute.
    pub fn new() -> (w: Writer)
        ensures
            w.wf(),
            st_wf(w@),
            w@.col == 0,
            w@.row == 0,
            w@.color == spec_default_code(),
            forall|r: int| 0 <= r < BUFFER_HEIGHT ==> w@.grid[r] == blank_row(),
    {
        let mut cells: Vec<ScreenChar> = Vec::new();
        let blank = ScreenChar { ascii_character: BLANK, color_code: ColorCode::default() };
        let mut i: usize = 0;
        while i < BUFFER_HEIGHT * BUFFER_WIDTH
            invariant
                i == cells@.len(),
                i <= BUFFER_HEIGHT * BUFFER_WIDTH,
                blank == blank_char(),
                forall|j: int| 0 <= j < i ==> cells@[j] == blank_char(),
            decreases BUFFER_HEIGHT * BUFFER_WIDTH - i,
        {
            cells.push(blank);
            i += 1;
        }
        let w = Writer {
            position: (0, 0),
            color_code: ColorCode::default(),
            buffer: VGABuffer { cells },
        };
        proof {
            assert forall|r: int| 0 <= r < BUFFER_HEIGHT implies w@.grid[r] == blank_row() by {
                assert(w@.grid[r] =~= blank_row());
            }
        }
        w
    }

    /// The current cursor column.
    pub fn column(&self) -> (c: usize)
        ensures
            c == self@.col,
    {
        self.position.0
    }

    /// The current cursor row.
    pub fn row(&self) -> (r: usize)
        ensures
            r == self@.row,
    {
        self.position.1
    }

    /// The current color attribute.
    pub fn color(&self) -> (c: ColorCode)
        ensures
            c == self@.color,
    {
        self.color_code
    }

    /// Reads back one cell of the grid.
    pub fn char_at(&self, row: usize, col: usize) -> (c: ScreenChar)
        requires
            self.wf(),
            row < BUFFER_HEIGHT,
            col < BUFFER_WIDTH,
        ensures
            c == self@.grid[row as int][col as int],
    {
        self.buffer.cells[row * BUFFER_WIDTH + col]
    }

    /// Installs the attribute packed from `fg` and `bg` and returns a guard
    /// holding the attribute that was active before.
    pub fn with_color(&mut self, fg: Color, bg: Color) -> (g: ColorGuard)
        requires
            old(self).wf(),
        ensures
            final(self).wf(),
            g.saved() == old(self)@.color,
            final(self)@ == with_color_st(old(self)@, fg, bg),
    {
        let initial = self.color_code;
        self.color_code = ColorCode::new(fg, bg);
        ColorGuard { initial }
    }

    /// Releases a color guard, restoring the attribute it captured.
    pub fn restore_color(&mut self, guard: ColorGuard)
        requires
            old(self).wf(),
        ensures
            final(self).wf(),
            final(self)@ == restored_st(old(self)@, guard.saved()),
    {
        self.color_code = guard.initial;
    }

    /// Clears row `row` to blank cells with the default attribute,
    /// regardless of its prior contents.
    fn clear_row(&mut self, row: usize)
        requires
            old(self).wf(),
            row < BUFFER_HEIGHT,
        ensures
            final(self).wf(),
            final(self)@ == (ScreenState {
                grid: old(self)@.grid.update(row as int, blank_row()),
                ..old(self)@
            }),
    {
        let blank = ScreenChar { ascii_character: BLANK, color_code: ColorCode::default() };
        let ghost c0 = self.buffer.cells@;
        let mut col: usize = 0;
        while col < BUFFER_WIDTH
            invariant
                col <= BUFFER_WIDTH,
                row < BUFFER_HEIGHT,
                blank == blank_char(),
                self.buffer.cells@.len() == BUFFER_HEIGHT * BUFFER_WIDTH,
                self.position == old(self).position,
                self.color_code == old(self).color_code,
                forall|i: int|
                    row * BUFFER_WIDTH <= i < row * BUFFER_WIDTH + col
                        ==> #[trigger] self.buffer.cells@[i] == blank_char(),
                forall|i: int|
                    0 <= i < BUFFER_HEIGHT * BUFFER_WIDTH && !(row * BUFFER_WIDTH <= i < row
                        * BUFFER_WIDTH + col) ==> #[trigger] self.buffer.cells@[i] == c0[i],
            decreases BUFFER_WIDTH - col,
        {
            self.buffer.cells[row * BUFFER_WIDTH + col] = blank;
            col += 1;
        }
        proof {
            assert(self@.grid =~~= old(self)@.grid.update(row as int, blank_row()));
            assert(self@ =~= (ScreenState {
                grid: old(self)@.grid.update(row as int, blank_row()),
                ..old(self)@
            }));
        }
    }

    /// Advances to a new line: increments the cursor row and clears the new
    /// row, or scrolls when the cursor is already on the last row; the
    /// column resets to 0 either way.
    fn new_line(&mut self)
        requires
            old(self).pre_feed(),
        ensures
            final(self).wf(),
            final(self)@ == line_feed(old(self)@),
    {
        let ghost s0 = self@;
        let ghost c0 = self.buffer.cells@;
        if self.position.1 >= BUFFER_HEIGHT - 1 {
            let mut r: usize = 1;
            while r < BUFFER_HEIGHT
                invariant
                    1 <= r <= BUFFER_HEIGHT,
                    self.buffer.cells@.len() == BUFFER_HEIGHT * BUFFER_WIDTH,
                    c0.len() == BUFFER_HEIGHT * BUFFER_WIDTH,
                    self.position == old(self).position,
                    self.color_code == old(self).color_code,
                    forall|i: int|
                        0 <= i < (r - 1) * BUFFER_WIDTH
                            ==> #[trigger] self.buffer.cells@[i] == c0[i + BUFFER_WIDTH],
                    forall|i: int|
                        (r - 1) * BUFFER_WIDTH <= i < BUFFER_HEIGHT * BUFFER_WIDTH
                            ==> #[trigger] self.buffer.cells@[i] == c0[i],
                decreases BUFFER_HEIGHT - r,
            {
                let mut col: usize = 0;
                while col < BUFFER_WIDTH
                    invariant
                        1 <= r < BUFFER_HEIGHT,
                        col <= BUFFER_WIDTH,
                        self.buffer.cells@.len() == BUFFER_HEIGHT * BUFFER_WIDTH,
                        c0.len() == BUFFER_HEIGHT * BUFFER_WIDTH,
                        self.position == old(self).position,
                        self.color_code == old(self).color_code,
                        forall|i: int|
                            0 <= i < (r - 1) * BUFFER_WIDTH + col
                                ==> #[trigger] self.buffer.cells@[i] == c0[i + BUFFER_WIDTH],
                        forall|i: int|
                            (r - 1) * BUFFER_WIDTH + col <= i < BUFFER_HEIGHT * BUFFER_WIDTH
                                ==> #[trigger] self.buffer.cells@[i] == c0[i],
                    decreases BUFFER_WIDTH - col,
                {
                    let ch = self.buffer.cells[r * BUFFER_WIDTH + col];
                    self.buffer.cells[(r - 1) * BUFFER_WIDTH + col] = ch;
                    col += 1;
                }
                r += 1;
            }
            self.position.1 = BUFFER_HEIGHT - 2;
        }
        self.position.0 = 0;
        self.position.1 = self.position.1 + 1;
        let ghost mid = self@;
        self.clear_row(self.position.1);
        proof {
            if s0.row + 1 < BUFFER_HEIGHT {
                assert(mid.grid =~~= s0.grid);
                assert(self@ =~= line_feed(s0));
            } else {
                assert(self@.grid =~~= scrolled(s0.grid));
                assert(self@ =~= line_feed(s0));
            }
        }
    }

    /// Writes one byte: the newline sentinel advances the line; any other
    /// byte is placed at the cursor with the current attribute, a
    /// non-printable byte being first replaced with the placeholder glyph;
    /// the line advances when the column reaches the width.
    pub fn write_byte(&mut self, byte: u8)
        requires
            old(self).wf(),
        ensures
            final(self).wf(),
            final(self)@ == write_byte_spec(old(self)@, byte),
    {
        if byte == NEWLINE {
            self.new_line();
        } else {
            let glyph: u8 = if 0x20 <= byte && byte <= 0x7e {
                byte
            } else {
                PLACEHOLDER
            };
            let cell = ScreenChar { ascii_character: glyph, color_code: self.color_code };
            let ghost s0 = self@;
            let row = self.position.1;
            let col = self.position.0;
            self.buffer.cells[row * BUFFER_WIDTH + col] = cell;
            proof {
                assert(self.buffer.grid() =~~= s0.grid.update(
                    row as int,
                    s0.grid[row as int].update(col as int, cell),
                ));
            }
            self.position.0 = self.position.0 + 1;
            proof {
                assert(self@ =~= placed(s0, byte));
            }
            if self.position.0 >= BUFFER_WIDTH {
                self.new_line();
            }
        }
    }

    /// Writes every byte of `s` in order through `write_byte`; it always
    /// completes, substituting visibly for non-printable input.
    pub fn write_string(&mut self, s: &str)
        requires
            old(self).wf(),
        ensures
            final(self).wf(),
            final(self)@ == write_bytes_spec(old(self)@, s.spec_bytes()),
    {
        let bytes = s.as_bytes();
        let ghost s0 = self@;
        let n = bytes.len();
        let mut i: usize = 0;
        while i < n
            invariant
                n == bytes@.len(),
                i <= n,
                self.wf(),
                self@ == write_bytes_spec(s0, bytes@.take(i as int)),
            decreases n - i,
        {
            let b = bytes[i];
            self.write_byte(b);
            proof {
                lemma_write_bytes_snoc(s0, bytes@.take(i as int), b);
                assert(bytes@.take(i as int).push(b) =~= bytes@.take(i + 1));
            }
            i += 1;
        }
        proof {
            assert(bytes@.take(n as int) =~= bytes@);
        }
    }
}

/// The abstract effect of installing a color override.
pub open spec fn with_color_st(s: ScreenState, fg: Color, bg: Color) -> ScreenState {
    ScreenState { color: ColorCode(spec_code(fg, bg)), ..s }
}

/// The abstract effect of restoring a saved color attribute.
pub open spec fn restored_st(s: ScreenState, saved: ColorCode) -> ScreenState {
    ScreenState { color: saved, ..s }
}

/// Writing the bytes `a.push(b)` is writing `a`, then the single byte `b`.
pub proof fn lemma_write_bytes_snoc(s: ScreenState, a: Seq<u8>, b: u8)
    ensures
        write_bytes_spec(s, a.push(b)) == write_byte_spec(write_bytes_spec(s, a), b),
{
    reveal_with_fuel(write_bytes_spec, 3);
    assert(a.push(b) =~= a + seq![b]);
    lemma_write_bytes_concat(s, a, seq![b]);
    assert(seq![b][0] == b);
    assert(seq![b].drop_first() =~= Seq::<u8>::empty());
}

/// A row with the glyphs of `run` written over it left to right starting at
/// column `at`, in color `color`; the rest of the row keeps its contents.
pub open spec fn overlay(rowv: Seq<ScreenChar>, run: Seq<u8>, at: int, color: ColorCode) -> Seq<
    ScreenChar,
> {
    Seq::new(
        BUFFER_WIDTH as nat,
        |c: int|
            if at <= c < at + run.len() {
                ScreenChar { ascii_character: glyph_for(run[c - at]), color_code: color }
            } else {
                rowv[c]
            },
    )
}

/// A line of text as it appears on a freshly cleared row: its glyphs from
/// column 0, blanks to the right.
pub open spec fn rendered_line(line: Seq<u8>, color: ColorCode) -> Seq<ScreenChar> {
    overlay(blank_row(), line, 0, color)
}

/// A line of text: printable bytes only, strictly shorter than a row.
pub open spec fn line_ok(line: Seq<u8>) -> bool {
    &&& line.len() < BUFFER_WIDTH
    &&& forall|i: int| 0 <= i < line.len() ==> spec_printable(#[trigger] line[i])
}

/// The effect of writing a sequence of lines, each followed by one newline.
pub open spec fn write_lines_spec(s: ScreenState, lines: Seq<Seq<u8>>) -> ScreenState
    decreases lines.len(),
{
    if lines.len() == 0 {
        s
    } else {
        write_lines_spec(write_bytes_spec(s, lines[0].push(NEWLINE)), lines.drop_first())
    }
}

/// Writing the bytes `a + b` is writing `a`, then `b`.
pub proof fn lemma_write_bytes_concat(s: ScreenState, a: Seq<u8>, b: Seq<u8>)
    ensures
        write_bytes_spec(s, a + b) == write_bytes_spec(write_bytes_spec(s, a), b),
    decreases a.len(),
{
    if a.len() == 0 {
        assert(a + b =~= b);
    } else {
        assert((a + b).drop_first() =~= a.drop_first() + b);
        assert((a + b)[0] == a[0]);
        lemma_write_bytes_concat(write_byte_spec(s, a[0]), a.drop_first(), b);
    }
}

/// Writing a run of printable bytes that fits in the current row lays them
/// over that row left to right; when the run ends exactly at the width, the
/// line advances once, after the last byte was placed.
pub proof fn lemma_write_run(s: ScreenState, run: Seq<u8>)
    requires
        st_wf(s),
        forall|i: int| 0 <= i < run.len() ==> spec_printable(#[trigger] run[i]),
        s.col + run.len() <= BUFFER_WIDTH,
    ensures
        ({
            let mid = (ScreenState {
                grid: s.grid.update(s.row, overlay(s.grid[s.row], run, s.col, s.color)),
                col: s.col + run.len(),
                row: s.row,
                color: s.color,
            });
            write_bytes_spec(s, run) == if s.col + run.len() == BUFFER_WIDTH {
                line_feed(mid)
            } else {
                mid
            }
        }),
    decreases run.len(),
{
    let mid = (ScreenState {
        grid: s.grid.update(s.row, overlay(s.grid[s.row], run, s.col, s.color)),
        col: s.col + run.len(),
        row: s.row,
        color: s.color,
    });
    if run.len() == 0 {
        assert(overlay(s.grid[s.row], run, s.col, s.color) =~= s.grid[s.row]);
        assert(mid.grid =~= s.grid);
        assert(mid =~= s);
    } else {
        let b = run[0];
        assert(spec_printable(b));
        let p = placed(s, b);
        let cell = ScreenChar { ascii_character: glyph_for(b), color_code: s.color };
        assert(forall|r: int| 0 <= r < BUFFER_HEIGHT ==> (#[trigger] p.grid[r]).len()
            == BUFFER_WIDTH);
        if p.col == BUFFER_WIDTH {
            assert(run.len() == 1);
            assert(run.drop_first() =~= Seq::<u8>::empty());
            assert(write_bytes_spec(s, run) == write_bytes_spec(
                write_byte_spec(s, b),
                run.drop_first(),
            ));
            assert(s.grid[s.row].update(s.col, cell) =~= overlay(
                s.grid[s.row],
                run,
                s.col,
                s.color,
            ));
            assert(p =~= mid);
        } else {
            assert(st_wf(p));
            lemma_write_run(p, run.drop_first());
            let mid2 = (ScreenState {
                grid: p.grid.update(
                    p.row,
                    overlay(p.grid[p.row], run.drop_first(), p.col, p.color),
                ),
                col: p.col + run.drop_first().len(),
                row: p.row,
                color: p.color,
            });
            assert(p.grid[s.row] == s.grid[s.row].update(s.col, cell));
            assert(overlay(p.grid[s.row], run.drop_first(), s.col + 1, s.color) =~= overlay(
                s.grid[s.row],
                run,
                s.col,
                s.color,
            ));
            assert(mid2.grid =~= mid.grid);
            assert(mid2 =~= mid);
            assert(write_bytes_spec(s, run) == write_bytes_spec(p, run.drop_first()));
        }
    }
}

/// Writing one line of text from column 0, followed by a newline, renders
/// the line over the current row and advances the line once.
pub proof fn lemma_write_line(s: ScreenState, line: Seq<u8>)
    requires
        st_wf(s),
        line_ok(line),
        s.col == 0,
    ensures
        write_bytes_spec(s, line.push(NEWLINE)) == line_feed(
            (ScreenState {
                grid: s.grid.update(s.row, overlay(s.grid[s.row], line, 0, s.color)),
                col: line.len() as int,
                row: s.row,
                color: s.color,
            }),
        ),
{
    lemma_write_bytes_snoc(s, line, NEWLINE);
    lemma_write_run(s, line);
}

/// Writing lines into blank rows below the cursor, with room for all of
/// them, renders them on consecutive rows; everything above the cursor
/// stays, everything below the last line stays blank.
proof fn lemma_fill(s: ScreenState, lines: Seq<Seq<u8>>)
    requires
        st_wf(s),
        s.col == 0,
        forall|i: int| 0 <= i < lines.len() ==> line_ok(#[trigger] lines[i]),
        s.row + lines.len() <= BUFFER_HEIGHT - 1,
        forall|r: int| s.row <= r < BUFFER_HEIGHT ==> s.grid[r] == blank_row(),
    ensures
        ({
            let t = write_lines_spec(s, lines);
            &&& st_wf(t)
            &&& t.col == 0
            &&& t.row == s.row + lines.len()
            &&& t.color == s.color
            &&& forall|r: int| 0 <= r < s.row ==> t.grid[r] == s.grid[r]
            &&& forall|r: int|
                s.row <= r < s.row + lines.len() ==> t.grid[r] == rendered_line(
                    lines[r - s.row],
                    s.color,
                )
            &&& forall|r: int| s.row + lines.len() <= r < BUFFER_HEIGHT ==> t.grid[r] == blank_row()
        }),
    decreases lines.len(),
{
    if lines.len() == 0 {
    } else {
        let line = lines[0];
        lemma_write_line(s, line);
        let mid = (ScreenState {
            grid: s.grid.update(s.row, overlay(s.grid[s.row], line, 0, s.color)),
            col: line.len() as int,
            row: s.row,
            color: s.color,
        });
        let u = line_feed(mid);
        assert(overlay(s.grid[s.row], line, 0, s.color) =~= rendered_line(line, s.color));
        assert(u.row == s.row + 1);
        assert(st_wf(u));
        assert(forall|r: int| u.row <= r < BUFFER_HEIGHT ==> u.grid[r] == blank_row());
        lemma_fill(u, lines.drop_first());
        let t = write_lines_spec(s, lines);
        assert(t == write_lines_spec(u, lines.drop_first()));
        assert forall|r: int| s.row <= r < s.row + lines.len() implies t.grid[r] == rendered_line(
            lines[r - s.row],
            s.color,
        ) by {
            if r == s.row {
                assert(t.grid[r] == u.grid[r]);
                assert(u.grid[r] == mid.grid[r]);
                assert(mid.grid[r] == rendered_line(line, s.color));
            } else {
                assert(t.grid[r] == rendered_line(lines.drop_first()[r - s.row - 1], s.color));
                assert(lines.drop_first()[r - s.row - 1] == lines[r - s.row]);
            }
        }
    }
}

/// Writing lines from the steady state (cursor at column 0 of the last,
/// blank row): each line lands on the last usable row and each newline
/// scrolls, so earlier contents shift up and the written lines occupy the
/// bottom, in order.
proof fn lemma_steady(s: ScreenState, lines: Seq<Seq<u8>>)
    requires
        st_wf(s),
        s.col == 0,
        s.row == BUFFER_HEIGHT - 1,
        s.grid[BUFFER_HEIGHT - 1] == blank_row(),
        forall|i: int| 0 <= i < lines.len() ==> line_ok(#[trigger] lines[i]),
    ensures
        ({
            let t = write_lines_spec(s, lines);
            let m = lines.len() as int;
            &&& st_wf(t)
            &&& t.col == 0
            &&& t.row == BUFFER_HEIGHT - 1
            &&& t.color == s.color
            &&& t.grid[BUFFER_HEIGHT - 1] == blank_row()
            &&& forall|r: int|
                0 <= r < BUFFER_HEIGHT - 1 ==> #[trigger] t.grid[r] == (if r + m < BUFFER_HEIGHT
                    - 1 {
                    s.grid[r + m]
                } else {
                    rendered_line(lines[r + m - (BUFFER_HEIGHT - 1)], s.color)
                })
        }),
    decreases lines.len(),
{
    if lines.len() == 0 {
    } else {
        let line = lines[0];
        lemma_write_line(s, line);
        let mid = (ScreenState {
            grid: s.grid.update(s.row, overlay(s.grid[s.row], line, 0, s.color)),
            col: line.len() as int,
            row: s.row,
            color: s.color,
        });
        let u = line_feed(mid);
        assert(overlay(s.grid[s.row], line, 0, s.color) =~= rendered_line(line, s.color));
        assert(u.grid == scrolled(mid.grid));
        assert(u.grid[BUFFER_HEIGHT - 1] == blank_row());
        assert(forall|r: int|
            0 <= r < BUFFER_HEIGHT - 1 ==> #[trigger] u.grid[r] == mid.grid[r + 1]);
        assert(u.grid[BUFFER_HEIGHT - 2] == rendered_line(line, s.color));
        assert(st_wf(u));
        lemma_steady(u, lines.drop_first());
        let t = write_lines_spec(s, lines);
        let m = lines.len() as int;
        assert(t == write_lines_spec(u, lines.drop_first()));
        assert forall|r: int| 0 <= r < BUFFER_HEIGHT - 1 implies #[trigger] t.grid[r] == (if r + m
            < BUFFER_HEIGHT - 1 {
            s.grid[r + m]
        } else {
            rendered_line(lines[r + m - (BUFFER_HEIGHT - 1)], s.color)
        }) by {
            if r + m - 1 < BUFFER_HEIGHT - 1 {
                assert(t.grid[r] == u.grid[r + m - 1]);
                if r + m - 1 < BUFFER_HEIGHT - 2 {
                    assert(u.grid[r + m - 1] == mid.grid[r + m]);
                    assert(mid.grid[r + m] == s.grid[r + m]);
                } else {
                    assert(r + m - 1 == BUFFER_HEIGHT - 2);
                    assert(u.grid[r + m - 1] == rendered_line(line, s.color));
                    assert(lines[r + m - (BUFFER_HEIGHT - 1)] == line);
                }
            } else {
                assert(t.grid[r] == rendered_line(
                    lines.drop_first()[r + (m - 1) - (BUFFER_HEIGHT - 1)],
                    s.color,
                ));
                assert(lines.drop_first()[r + m - 1 - (BUFFER_HEIGHT - 1)] == lines[r + m - (
                BUFFER_HEIGHT - 1)]);
            }
        }
    }
}

/// Writing the lines `a + b` is writing the lines of `a`, then those of
/// `b`.
pub proof fn lemma_write_lines_concat(s: ScreenState, a: Seq<Seq<u8>>, b: Seq<Seq<u8>>)
    ensures
        write_lines_spec(s, a + b) == write_lines_spec(write_lines_spec(s, a), b),
    decreases a.len(),
{
    if a.len() == 0 {
        assert(a + b =~= b);
    } else {
        assert((a + b).drop_first() =~= a.drop_first() + b);
        assert((a + b)[0] == a[0]);
        lemma_write_lines_concat(
            write_bytes_spec(s, a[0].push(NEWLINE)),
            a.drop_first(),
            b,
        );
    }
}

/// Scrolling preserves order: after writing more lines than the screen has
/// rows onto a blank screen, the bottom-most visible line is the last line
/// written, the visible lines above it are exactly the lines written just
/// before it, in order and without gaps or duplicates, and the row under
/// the cursor is blank.
pub proof fn lemma_scroll_preserves_order(s: ScreenState, lines: Seq<Seq<u8>>)
    requires
        st_wf(s),
        s.col == 0,
        s.row == 0,
        forall|r: int| 0 <= r < BUFFER_HEIGHT ==> s.grid[r] == blank_row(),
        lines.len() > BUFFER_HEIGHT,
        forall|i: int| 0 <= i < lines.len() ==> line_ok(#[trigger] lines[i]),
    ensures
        ({
            let t = write_lines_spec(s, lines);
            let n = lines.len() as int;
            &&& t.grid[BUFFER_HEIGHT - 2] == rendered_line(lines[n - 1], s.color)
            &&& forall|j: int|
                0 <= j < BUFFER_HEIGHT - 1 ==> #[trigger] t.grid[j] == rendered_line(
                    lines[n - (BUFFER_HEIGHT - 1) + j],
                    s.color,
                )
            &&& t.grid[BUFFER_HEIGHT - 1] == blank_row()
        }),
{
    let a = lines.take(BUFFER_HEIGHT - 1);
    let b = lines.skip(BUFFER_HEIGHT - 1);
    assert(lines =~= a + b);
    lemma_write_lines_concat(s, a, b);
    lemma_fill(s, a);
    let t1 = write_lines_spec(s, a);
    assert(t1.row == BUFFER_HEIGHT - 1);
    assert(t1.grid[BUFFER_HEIGHT - 1] == blank_row());
    lemma_steady(t1, b);
    let t = write_lines_spec(s, lines);
    let n = lines.len() as int;
    let m = b.len() as int;
    assert forall|j: int| 0 <= j < BUFFER_HEIGHT - 1 implies #[trigger] t.grid[j] == rendered_line(
        lines[n - (BUFFER_HEIGHT - 1) + j],
        s.color,
    ) by {
        if j + m < BUFFER_HEIGHT - 1 {
            assert(t.grid[j] == t1.grid[j + m]);
            assert(t1.grid[j + m] == rendered_line(a[j + m], s.color));
            assert(a[j + m] == lines[j + m]);
        } else {
            assert(t.grid[j] == rendered_line(b[j + m - (BUFFER_HEIGHT - 1)], s.color));
            assert(b[j + m - (BUFFER_HEIGHT - 1)] == lines[j + m]);
        }
    }
}

/// Placeholder substitution: writing any non-printable byte other than the
/// newline sentinel puts the placeholder glyph in the cell the cursor stood
/// on, and the write path otherwise proceeds as for a printable byte.
pub proof fn lemma_placeholder_substitution(s: ScreenState, b: u8)
    requires
        st_wf(s),
        !spec_printable(b),
        b != NEWLINE,
    ensures
        placed(s, b).grid[s.row][s.col].ascii_character == PLACEHOLDER,
        write_byte_spec(s, b) == (if placed(s, b).col == BUFFER_WIDTH {
            line_feed(placed(s, b))
        } else {
            placed(s, b)
        }),
        s.col + 1 < BUFFER_WIDTH ==> write_byte_spec(s, b).grid[s.row][s.col].ascii_character
            == PLACEHOLDER,
{
}

/// The wrap invariant: writing exactly one row's width of printable bytes
/// and then one more printable byte advances the line first, and the extra
/// byte lands in column 0 of the new cursor row.
pub proof fn lemma_wrap_invariant(s: ScreenState, bytes: Seq<u8>)
    requires
        st_wf(s),
        s.col == 0,
        bytes.len() == BUFFER_WIDTH + 1,
        forall|i: int| 0 <= i < bytes.len() ==> spec_printable(#[trigger] bytes[i]),
    ensures
        ({
            let t = write_bytes_spec(s, bytes);
            let r2 = if s.row + 1 < BUFFER_HEIGHT {
                s.row + 1
            } else {
                s.row
            };
            &&& t.row == r2
            &&& t.col == 1
            &&& t.grid[r2][0] == (ScreenChar {
                ascii_character: bytes[BUFFER_WIDTH as int],
                color_code: s.color,
            })
        }),
{
    let first = bytes.take(BUFFER_WIDTH as int);
    let extra = bytes[BUFFER_WIDTH as int];
    assert(bytes =~= first.push(extra));
    lemma_write_bytes_snoc(s, first, extra);
    lemma_write_run(s, first);
    let u = write_bytes_spec(s, first);
    assert(u.col == 0);
    assert(st_wf(u));
    assert(spec_printable(extra));
    assert(write_byte_spec(u, extra) == placed(u, extra));
}

/// Idempotent blank line: whatever a row held before, after a line advance
/// the row the cursor entered holds only blank cells with the default
/// attribute.
pub proof fn lemma_blank_line(s: ScreenState)
    requires
        st_wf(s),
    ensures
        line_feed(s).grid[line_feed(s).row] == blank_row(),
        forall|c: int| 0 <= c < BUFFER_WIDTH ==> #[trigger] blank_row()[c] == blank_char(),
{
    let t = line_feed(s);
    if s.row + 1 >= BUFFER_HEIGHT {
        assert(t.grid[BUFFER_HEIGHT - 1] == blank_row());
    }
}

/// Color guard restore: releasing a guard restores exactly the attribute
/// that was active when it was created, whatever was installed meanwhile.
pub proof fn lemma_color_guard_restore(s: ScreenState, fg: Color, bg: Color)
    ensures
        restored_st(with_color_st(s, fg, bg), s.color) == s,
{
    assert(restored_st(with_color_st(s, fg, bg), s.color) =~= s);
}

/// Nested color guards restore in LIFO order: releasing the inner guard
/// brings back the outer override, releasing the outer guard brings back
/// the attribute from before both.
pub proof fn lemma_color_guard_lifo(
    s: ScreenState,
    fg_a: Color,
    bg_a: Color,
    fg_b: Color,
    bg_b: Color,
)
    ensures
        ({
            let s1 = with_color_st(s, fg_a, bg_a);
            let s2 = with_color_st(s1, fg_b, bg_b);
            &&& restored_st(s2, s1.color) == s1
            &&& restored_st(restored_st(s2, s1.color), s.color) == s
        }),
{
    let s1 = with_color_st(s, fg_a, bg_a);
    let s2 = with_color_st(s1, fg_b, bg_b);
    assert(restored_st(s2, s1.color) =~= s1);
    assert(restored_st(restored_st(s2, s1.color), s.color) =~= s);
}

/// Exercises the color guard against a fresh writer: the override installs
/// the requested attribute and releasing the guard restores the default.
/// Every check here is a static assertion, discharged by the verifier.
pub fn test_color_guard() {
    let mut w = Writer::new();
    assert(w@.color == spec_default_code());
    let guard = w.with_color(Color::Red, Color::White);
    assert(w@.color == ColorCode(spec_code(Color::Red, Color::White)));
    w.restore_color(guard);
    assert(w@.color == spec_default_code());
}

} // verus!
