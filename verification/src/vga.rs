//! VGA text console model: an 80x25 grid of (character byte, attribute byte)
//! cells, the text cursor, the active colors and the CRT controller cursor
//! registers. Every operation of the console driver is stated over this model;
//! copying the grid to video memory at 0xB8000 and the registers to the CRT
//! ports is the caller's part.
use vstd::prelude::*;
use crate::config::vga::{BUFFER_HEIGHT, BUFFER_WIDTH};

verus! {

/// Number of cells of the text grid.
pub const CELL_COUNT: usize = 2000;

/// Byte written for an empty cell.
pub const BLANK: u8 = 0x20;

/// The 16-color VGA palette.
#[derive(Clone, Copy, Debug, PartialEq, Eq)]
pub enum Color {
    Black,
    Blue,
    Green,
    Cyan,
    Red,
    Magenta,
    Brown,
    LightGray,
    DarkGray,
    LightBlue,
    LightGreen,
    LightCyan,
    LightRed,
    Pink,
    Yellow,
    White,
}

/// Palette index of a color.
pub open spec fn color_index(c: Color) -> u8 {
    match c {
        Color::Black => 0,
        Color::Blue => 1,
        Color::Green => 2,
        Color::Cyan => 3,
        Color::Red => 4,
        Color::Magenta => 5,
        Color::Brown => 6,
        Color::LightGray => 7,
        Color::DarkGray => 8,
        Color::LightBlue => 9,
        Color::LightGreen => 10,
        Color::LightCyan => 11,
        Color::LightRed => 12,
        Color::Pink => 13,
        Color::Yellow => 14,
        Color::White => 15,
    }
}

/// Palette index of a color.
pub fn color_number(c: Color) -> (r: u8)
    ensures
        r == color_index(c),
        r < 16,
{
    match c {
        Color::Black => 0,
        Color::Blue => 1,
        Color::Green => 2,
        Color::Cyan => 3,
        Color::Red => 4,
        Color::Magenta => 5,
        Color::Brown => 6,
        Color::LightGray => 7,
        Color::DarkGray => 8,
        Color::LightBlue => 9,
        Color::LightGreen => 10,
        Color::LightCyan => 11,
        Color::LightRed => 12,
        Color::Pink => 13,
        Color::Yellow => 14,
        Color::White => 15,
    }
}

/// Attribute byte: background in the high nibble, foreground in the low one.
pub open spec fn attribute(fg: Color, bg: Color) -> u8 {
    (color_index(bg) * 16 + color_index(fg)) as u8
}

/// Abstract state of the console.
pub struct Screen {
    pub row: int,
    pub column: int,
    pub foreground: Color,
    pub background: Color,
    pub cursor_visible: bool,
    pub glyphs: Seq<u8>,
    pub attrs: Seq<u8>,
    /// Cell offset last written to the CRT cursor location registers.
    pub cursor_offset: int,
    /// Whether the CRT cursor is switched on.
    pub cursor_enabled: bool,
}

impl Screen {
    pub open spec fn attr(self) -> u8 {
        attribute(self.foreground, self.background)
    }

    pub open spec fn wf(self) -> bool {
        &&& 0 <= self.row < BUFFER_HEIGHT
        &&& 0 <= self.column <= BUFFER_WIDTH
        &&& self.glyphs.len() == CELL_COUNT
        &&& self.attrs.len() == CELL_COUNT
        &&& 0 <= self.cursor_offset <= CELL_COUNT
    }

    /// Index of cell (row, col).
    pub open spec fn cell(row: int, col: int) -> int {
        row * (BUFFER_WIDTH as int) + col
    }

    /// Writes one cell.
    pub open spec fn set_cell(self, row: int, col: int, byte: u8, color: u8) -> Screen {
        Screen {
            glyphs: self.glyphs.update(Self::cell(row, col), byte),
            attrs: self.attrs.update(Self::cell(row, col), color),
            ..self
        }
    }

    /// Copies the text cursor to the CRT registers when the cursor is shown.
    pub open spec fn sync_cursor(self) -> Screen {
        if self.cursor_visible {
            Screen { cursor_offset: Self::cell(self.row, self.column), cursor_enabled: true, ..self }
        } else {
            self
        }
    }

    /// Every cell blank in the current attribute, cursor at the origin.
    pub open spec fn cleared(self) -> Screen {
        Screen {
            glyphs: Seq::new(CELL_COUNT as nat, |i: int| BLANK),
            attrs: Seq::new(CELL_COUNT as nat, |i: int| self.attr()),
            row: 0,
            column: 0,
            ..self
        }.sync_cursor()
    }

    /// The current row blank in the current attribute from the active column
    /// to the end of the row (what lies left of it is kept), cursor at the
    /// row's start.
    pub open spec fn line_cleared(self) -> Screen {
        let start = Self::cell(self.row, self.column as int);
        let end = Self::cell(self.row, 0) + BUFFER_WIDTH;
        Screen {
            glyphs: Seq::new(
                CELL_COUNT as nat,
                |i: int| if start <= i < end { BLANK } else { self.glyphs[i] },
            ),
            attrs: Seq::new(
                CELL_COUNT as nat,
                |i: int| if start <= i < end { self.attr() } else { self.attrs[i] },
            ),
            column: 0,
            ..self
        }.sync_cursor()
    }

    /// Rows move up by one; the last row becomes blank; the cursor goes to its start.
    pub open spec fn scrolled(self) -> Screen {
        Screen {
            glyphs: Seq::new(
                CELL_COUNT as nat,
                |i: int| if i < CELL_COUNT - BUFFER_WIDTH { self.glyphs[i + BUFFER_WIDTH] } else { BLANK },
            ),
            attrs: Seq::new(
                CELL_COUNT as nat,
                |i: int| if i < CELL_COUNT - BUFFER_WIDTH { self.attrs[i + BUFFER_WIDTH] } else { self.attr() },
            ),
            row: BUFFER_HEIGHT - 1,
            column: 0,
            ..self
        }
    }

    /// Start of the next line, scrolling on the last row.
    pub open spec fn newline(self) -> Screen {
        let moved = if self.row < BUFFER_HEIGHT - 1 {
            Screen { row: self.row + 1, column: 0, ..self }
        } else {
            self.scrolled()
        };
        moved.sync_cursor()
    }

    /// A character at a fixed position, the cursor untouched; off-grid positions are ignored.
    pub open spec fn put_at(self, row: int, col: int, c: char) -> Screen {
        if row >= BUFFER_HEIGHT || col >= BUFFER_WIDTH {
            self
        } else {
            self.set_cell(row, col, c as u8, self.attr())
        }
    }

    /// A character at the cursor: a newline moves to the next line, anything
    /// else is stored (wrapping first at the end of a line) and the cursor advances.
    pub open spec fn put_char(self, c: char) -> Screen {
        if c == '\n' {
            self.newline()
        } else {
            let s1 = if self.column >= BUFFER_WIDTH { self.newline() } else { self };
            let s2 = s1.put_at(s1.row, s1.column, c);
            Screen { column: s2.column + 1, ..s2 }.sync_cursor()
        }
    }

    /// The characters of `text` put one after the other.
    pub open spec fn write(self, text: Seq<char>) -> Screen
        decreases text.len(),
    {
        if text.len() == 0 {
            self
        } else {
            self.write(text.drop_last()).put_char(text.last())
        }
    }

    /// `text` followed by a line break.
    pub open spec fn println(self, text: Seq<char>) -> Screen {
        self.write(text).newline()
    }

    /// Erases the cell before the cursor and moves the cursor onto it; at the
    /// start of a line the cursor moves to the last column of the line above.
    pub open spec fn backspace(self) -> Screen {
        let moved = if self.column > 0 {
            let s = Screen { column: self.column - 1, ..self };
            s.set_cell(s.row, s.column, BLANK, s.attr())
        } else if self.row > 0 {
            let s = Screen { row: self.row - 1, column: BUFFER_WIDTH - 1, ..self };
            s.set_cell(s.row, s.column, BLANK, s.attr())
        } else {
            self
        };
        moved.sync_cursor()
    }

    pub open spec fn with_colors(self, fg: Color, bg: Color) -> Screen {
        Screen { foreground: fg, background: bg, ..self }
    }

    /// The cursor moved to (row, col), clamped into the grid.
    pub open spec fn cursor_moved(self, row: int, col: int) -> Screen {
        Screen {
            row: if row < BUFFER_HEIGHT - 1 { row } else { BUFFER_HEIGHT - 1 },
            column: if col < BUFFER_WIDTH - 1 { col } else { BUFFER_WIDTH - 1 },
            ..self
        }.sync_cursor()
    }

    /// The state of a freshly constructed console.
    pub open spec fn initial() -> Screen {
        Screen {
            row: 0,
            column: 0,
            foreground: Color::White,
            background: Color::Black,
            cursor_visible: true,
            glyphs: Seq::new(CELL_COUNT as nat, |i: int| BLANK),
            attrs: Seq::new(CELL_COUNT as nat, |i: int| 0u8),
            cursor_offset: 0,
            cursor_enabled: true,
        }
    }
}

proof fn lemma_put_char_wf(s: Screen, c: char)
    requires
        s.wf(),
    ensures
        s.put_char(c).wf(),
{
}

proof fn lemma_write_wf(s: Screen, text: Seq<char>)
    requires
        s.wf(),
    ensures
        s.write(text).wf(),
    decreases text.len(),
{
    if text.len() > 0 {
        lemma_write_wf(s, text.drop_last());
        lemma_put_char_wf(s.write(text.drop_last()), text.last());
    }
}

/// Console driver state.
pub struct VGA {
    row: usize,
    column: usize,
    foreground: Color,
    background: Color,
    cursor_visible: bool,
    glyphs: Vec<u8>,
    attrs: Vec<u8>,
    cursor_offset: u16,
    cursor_enabled: bool,
}

impl VGA {
    pub closed spec fn view(&self) -> Screen {
        Screen {
            row: self.row as int,
            column: self.column as int,
            foreground: self.foreground,
            background: self.background,
            cursor_visible: self.cursor_visible,
            glyphs: self.glyphs@,
            attrs: self.attrs@,
            cursor_offset: self.cursor_offset as int,
            cursor_enabled: self.cursor_enabled,
        }
    }

    /// Internal consistency of the console.
    pub closed spec fn inv(&self) -> bool {
        self@.wf()
    }

    /// A consistent console shows a well-formed screen.
    pub proof fn lemma_inv_wf(&self)
        requires
            self.inv(),
        ensures
            self@.wf(),
    {
    }

    /// A console with the cursor at the origin, white on black, cursor shown.
    pub fn new() -> (r: Self)
        ensures
            r.inv(),
            r@ == Screen::initial(),
    {
        let r = VGA {
            row: 0,
            column: 0,
            foreground: Color::White,
            background: Color::Black,
            cursor_visible: true,
            glyphs: vec![BLANK; CELL_COUNT],
            attrs: vec![0u8; CELL_COUNT],
            cursor_offset: 0,
            cursor_enabled: true,
        };
        assert(r.glyphs@ =~= Seq::new(CELL_COUNT as nat, |i: int| BLANK));
        assert(r.attrs@ =~= Seq::new(CELL_COUNT as nat, |i: int| 0u8));
        r
    }

    /// Clears the screen at boot.
    pub fn init(&mut self)
        requires
            old(self).inv(),
        ensures
            final(self).inv(),
            final(self)@ == old(self)@.cleared(),
    {
        self.clear();
        self.update_cursor();
    }

    /// Attribute byte of the active colors.
    pub(crate) fn color_code(&self) -> (r: u8)
        ensures
            r == self@.attr(),
    {
        let bg = color_number(self.background);
        let fg = color_number(self.foreground);
        bg * 16 + fg
    }

    fn write_cell(&mut self, row: usize, col: usize, byte: u8, color: u8)
        requires
            old(self).inv(),
            row < BUFFER_HEIGHT,
            col < BUFFER_WIDTH,
        ensures
            final(self).inv(),
            final(self)@ == old(self)@.set_cell(row as int, col as int, byte, color),
    {
        let offset = row * BUFFER_WIDTH + col;
        self.glyphs.set(offset, byte);
        self.attrs.set(offset, color);
    }

    fn update_cursor(&mut self)
        requires
            old(self).inv(),
        ensures
            final(self).inv(),
            final(self)@ == old(self)@.sync_cursor(),
    {
        if !self.cursor_visible {
            return;
        }
        let pos = (self.row * BUFFER_WIDTH + self.column) as u16;
        self.cursor_offset = pos;
        self.cursor_enabled = true;
    }

    /// Fills every cell with a blank in the active colors and homes the cursor.
    pub fn clear(&mut self)
        requires
            old(self).inv(),
        ensures
            final(self).inv(),
            final(self)@ == old(self)@.cleared(),
    {
        let color = self.color_code();
        let ghost before = self@;
        for row in 0..BUFFER_HEIGHT
            invariant
                self.inv(),
                color == before.attr(),
                self.foreground == before.foreground,
                self.background == before.background,
                self.row == before.row,
                self.column == before.column,
                self.cursor_visible == before.cursor_visible,
                self.cursor_offset == before.cursor_offset,
                self.cursor_enabled == before.cursor_enabled,
                forall|i: int| 0 <= i < row * BUFFER_WIDTH ==> self.glyphs@[i] == BLANK && self.attrs@[i] == color,
        {
            for col in 0..BUFFER_WIDTH
                invariant
                    self.inv(),
                    row < BUFFER_HEIGHT,
                    color == before.attr(),
                    self.foreground == before.foreground,
                    self.background == before.background,
                    self.row == before.row,
                    self.column == before.column,
                    self.cursor_visible == before.cursor_visible,
                    self.cursor_offset == before.cursor_offset,
                    self.cursor_enabled == before.cursor_enabled,
                    forall|i: int| 0 <= i < row * BUFFER_WIDTH + col ==> self.glyphs@[i] == BLANK && self.attrs@[i] == color,
            {
                self.write_cell(row, col, BLANK, color);
            }
        }
        self.row = 0;
        self.column = 0;
        assert(self.glyphs@ =~= before.cleared().glyphs);
        assert(self.attrs@ =~= before.cleared().attrs);
        self.update_cursor();
    }

    /// Blanks the current row from the active column to its end and moves
    /// the cursor to the row's start.
    pub fn clear_line(&mut self)
        requires
            old(self).inv(),
        ensures
            final(self).inv(),
            final(self)@ == old(self)@.line_cleared(),
    {
        let color = self.color_code();
        let ghost before = self@;
        let row = self.row;
        let first = self.column;
        for col in first..BUFFER_WIDTH
            invariant
                first == before.column,
                first <= BUFFER_WIDTH,
                self.inv(),
                row == before.row,
                row < BUFFER_HEIGHT,
                before.glyphs.len() == CELL_COUNT,
                before.attrs.len() == CELL_COUNT,
                color == before.attr(),
                self.foreground == before.foreground,
                self.background == before.background,
                self.row == before.row,
                self.column == before.column,
                self.cursor_visible == before.cursor_visible,
                self.cursor_offset == before.cursor_offset,
                self.cursor_enabled == before.cursor_enabled,
                forall|i: int| 0 <= i < CELL_COUNT ==> (#[trigger] self.glyphs@[i]) == if row * BUFFER_WIDTH + first <= i < row * BUFFER_WIDTH + col {
                        BLANK
                    } else {
                        before.glyphs[i]
                    },
                forall|i: int| 0 <= i < CELL_COUNT ==> (#[trigger] self.attrs@[i]) == if row * BUFFER_WIDTH + first <= i < row * BUFFER_WIDTH + col {
                        color
                    } else {
                        before.attrs[i]
                    },
        {
            self.write_cell(row, col, BLANK, color);
        }
        self.column = 0;
        assert(self.glyphs@ =~= before.line_cleared().glyphs);
        assert(self.attrs@ =~= before.line_cleared().attrs);
        self.update_cursor();
    }

    fn scroll(&mut self)
        requires
            old(self).inv(),
        ensures
            final(self).inv(),
            final(self)@ == old(self)@.scrolled(),
    {
        let ghost before = self@;
        let mut i: usize = 0;
        while i < CELL_COUNT - BUFFER_WIDTH
            invariant
                self.inv(),
                i <= CELL_COUNT - BUFFER_WIDTH,
                self.foreground == before.foreground,
                self.background == before.background,
                self.row == before.row,
                self.column == before.column,
                self.cursor_visible == before.cursor_visible,
                self.cursor_offset == before.cursor_offset,
                self.cursor_enabled == before.cursor_enabled,
                forall|j: int| 0 <= j < i ==> self.glyphs@[j] == before.glyphs[j + BUFFER_WIDTH] && self.attrs@[j] == before.attrs[j + BUFFER_WIDTH],
                forall|j: int| i <= j < CELL_COUNT ==> self.glyphs@[j] == before.glyphs[j] && self.attrs@[j] == before.attrs[j],
            decreases CELL_COUNT - BUFFER_WIDTH - i,
        {
            let g = self.glyphs[i + BUFFER_WIDTH];
            let a = self.attrs[i + BUFFER_WIDTH];
            self.glyphs.set(i, g);
            self.attrs.set(i, a);
            i = i + 1;
        }
        let color = self.color_code();
        for col in 0..BUFFER_WIDTH
            invariant
                self.inv(),
                color == before.attr(),
                self.foreground == before.foreground,
                self.background == before.background,
                self.row == before.row,
                self.column == before.column,
                self.cursor_visible == before.cursor_visible,
                self.cursor_offset == before.cursor_offset,
                self.cursor_enabled == before.cursor_enabled,
                forall|j: int| 0 <= j < CELL_COUNT - BUFFER_WIDTH ==> self.glyphs@[j] == before.glyphs[j + BUFFER_WIDTH] && self.attrs@[j] == before.attrs[j + BUFFER_WIDTH],
                forall|j: int| CELL_COUNT - BUFFER_WIDTH <= j < CELL_COUNT - BUFFER_WIDTH + col ==> self.glyphs@[j] == BLANK && self.attrs@[j] == color,
        {
            self.write_cell(BUFFER_HEIGHT - 1, col, BLANK, color);
        }
        self.row = BUFFER_HEIGHT - 1;
        self.column = 0;
        assert(self.glyphs@ =~= before.scrolled().glyphs);
        assert(self.attrs@ =~= before.scrolled().attrs);
    }

    fn newline(&mut self)
        requires
            old(self).inv(),
        ensures
            final(self).inv(),
            final(self)@ == old(self)@.newline(),
    {
        self.column = 0;
        if self.row < BUFFER_HEIGHT - 1 {
            self.row = self.row + 1;
        } else {
            self.scroll();
        }
        self.update_cursor();
    }

    /// Stores a character at (row, col) in the active colors without moving
    /// the cursor; positions off the grid are ignored.
    pub fn put_char_at(&mut self, row: usize, col: usize, c: char)
        requires
            old(self).inv(),
        ensures
            final(self).inv(),
            final(self)@ == old(self)@.put_at(row as int, col as int, c),
    {
        if row >= BUFFER_HEIGHT || col >= BUFFER_WIDTH {
            return;
        }
        let color = self.color_code();
        self.write_cell(row, col, c as u8, color);
    }

    /// Outputs one character at the cursor.
    pub fn put_char(&mut self, c: char)
        requires
            old(self).inv(),
        ensures
            final(self).inv(),
            final(self)@ == old(self)@.put_char(c),
    {
        if c == '\n' {
            self.newline();
        } else {
            if self.column >= BUFFER_WIDTH {
                self.newline();
            }
            let row = self.row;
            let col = self.column;
            self.put_char_at(row, col, c);
            self.column = self.column + 1;
            self.update_cursor();
        }
    }

    /// Outputs every character of `text`.
    pub fn write(&mut self, text: &str)
        requires
            old(self).inv(),
        ensures
            final(self).inv(),
            final(self)@ == old(self)@.write(text@),
    {
        let ghost before = self@;
        let n = text.unicode_len();
        let mut i: usize = 0;
        while i < n
            invariant
                self.inv(),
                i <= n,
                n == text@.len(),
                self@ == before.write(text@.subrange(0, i as int)),
            decreases n - i,
        {
            let c = text.get_char(i);
            self.put_char(c);
            assert(text@.subrange(0, i as int + 1).drop_last() =~= text@.subrange(0, i as int));
            i = i + 1;
        }
        assert(text@.subrange(0, n as int) =~= text@);
    }

    /// Outputs `text` and a line break.
    pub fn println(&mut self, text: &str)
        requires
            old(self).inv(),
        ensures
            final(self).inv(),
            final(self)@ == old(self)@.println(text@),
    {
        self.write(text);
        self.newline();
    }

    /// Erases the character before the cursor.
    pub fn backspace(&mut self)
        requires
            old(self).inv(),
        ensures
            final(self).inv(),
            final(self)@ == old(self)@.backspace(),
    {
        if self.column > 0 {
            self.column = self.column - 1;
            let color = self.color_code();
            let (r, c) = (self.row, self.column);
            self.write_cell(r, c, BLANK, color);
        } else if self.row > 0 {
            self.row = self.row - 1;
            self.column = BUFFER_WIDTH - 1;
            let color = self.color_code();
            let (r, c) = (self.row, self.column);
            self.write_cell(r, c, BLANK, color);
        }
        self.update_cursor();
    }

    /// Selects the colors of subsequent output.
    pub fn set_color(&mut self, fg: Color, bg: Color)
        requires
            old(self).inv(),
        ensures
            final(self).inv(),
            final(self)@ == old(self)@.with_colors(fg, bg),
    {
        self.foreground = fg;
        self.background = bg;
    }

    /// The cursor as (row, column).
    pub fn get_cursor_position(&self) -> (r: (usize, usize))
        ensures
            r.0 == self@.row,
            r.1 == self@.column,
    {
        (self.row, self.column)
    }

    /// Moves the cursor, clamping it into the grid.
    pub fn set_cursor_position(&mut self, row: usize, col: usize)
        requires
            old(self).inv(),
        ensures
            final(self).inv(),
            final(self)@ == old(self)@.cursor_moved(row as int, col as int),
    {
        self.row = if row < BUFFER_HEIGHT - 1 { row } else { BUFFER_HEIGHT - 1 };
        self.column = if col < BUFFER_WIDTH - 1 { col } else { BUFFER_WIDTH - 1 };
        self.update_cursor();
    }

    /// Shows the cursor and moves the CRT cursor to it.
    pub fn show_cursor(&mut self)
        requires
            old(self).inv(),
        ensures
            final(self).inv(),
            final(self)@ == (Screen { cursor_visible: true, ..old(self)@ }).sync_cursor(),
    {
        self.cursor_visible = true;
        self.update_cursor();
    }

    /// Hides the cursor and switches the CRT cursor off.
    pub fn hide_cursor(&mut self)
        requires
            old(self).inv(),
        ensures
            final(self).inv(),
            final(self)@ == (Screen { cursor_visible: false, cursor_enabled: false, ..old(self)@ }),
    {
        self.cursor_visible = false;
        self.cursor_enabled = false;
    }

    /// Character byte of cell (row, col).
    pub fn glyph_at(&self, row: usize, col: usize) -> (r: u8)
        requires
            self.inv(),
            row < BUFFER_HEIGHT,
            col < BUFFER_WIDTH,
        ensures
            r == self@.glyphs[Screen::cell(row as int, col as int)],
    {
        self.glyphs[row * BUFFER_WIDTH + col]
    }

    /// Attribute byte of cell (row, col).
    pub fn attribute_at(&self, row: usize, col: usize) -> (r: u8)
        requires
            self.inv(),
            row < BUFFER_HEIGHT,
            col < BUFFER_WIDTH,
        ensures
            r == self@.attrs[Screen::cell(row as int, col as int)],
    {
        self.attrs[row * BUFFER_WIDTH + col]
    }

    /// CRT cursor registers: (cell offset, cursor switched on).
    pub fn hardware_cursor(&self) -> (r: (u16, bool))
        ensures
            r.0 == self@.cursor_offset,
            r.1 == self@.cursor_enabled,
    {
        (self.cursor_offset, self.cursor_enabled)
    }
}

/// Writing two texts one after the other is writing their concatenation;
/// writing nothing changes nothing.
pub proof fn lemma_write_concat(s: Screen, a: Seq<char>, b: Seq<char>)
    ensures
        s.write(a + b) == s.write(a).write(b),
        s.write(Seq::empty()) == s,
    decreases b.len(),
{
    if b.len() == 0 {
        assert(a + b =~= a);
    } else {
        lemma_write_concat(s, a, b.drop_last());
        assert((a + b).drop_last() =~= a + b.drop_last());
        assert((a + b).last() == b.last());
    }
}

} // verus!
