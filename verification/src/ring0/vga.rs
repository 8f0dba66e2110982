//! Ring 0 console driver. It behaves as the kernel console except that a
//! backspace at the very first cell still blanks that cell.
use vstd::prelude::*;
use crate::vga::{Screen, BLANK};
pub use crate::vga::Color;

verus! {

/// Ring 0 console driver state.
pub struct VGA {
    console: crate::vga::VGA,
}

/// A backspace of the ring 0 console.
pub open spec fn ring0_backspace(s: Screen) -> Screen {
    if s.row == 0 && s.column == 0 {
        s.set_cell(0, 0, BLANK, s.attr()).sync_cursor()
    } else {
        s.backspace()
    }
}

impl VGA {
    pub closed spec fn view(&self) -> Screen {
        self.console@
    }

    pub closed spec fn inv(&self) -> bool {
        self.console.inv()
    }

    pub fn new() -> (r: Self)
        ensures
            r.inv(),
            r@ == Screen::initial(),
    {
        VGA { console: crate::vga::VGA::new() }
    }

    pub fn init(&mut self)
        requires
            old(self).inv(),
        ensures
            final(self).inv(),
            final(self)@ == old(self)@.cleared(),
    {
        self.console.clear();
    }

    pub fn set_color(&mut self, foreground: Color, background: Color)
        requires
            old(self).inv(),
        ensures
            final(self).inv(),
            final(self)@ == old(self)@.with_colors(foreground, background),
    {
        self.console.set_color(foreground, background);
    }

    pub fn clear(&mut self)
        requires
            old(self).inv(),
        ensures
            final(self).inv(),
            final(self)@ == old(self)@.cleared(),
    {
        self.console.clear();
    }

    pub fn clear_line(&mut self)
        requires
            old(self).inv(),
        ensures
            final(self).inv(),
            final(self)@ == old(self)@.line_cleared(),
    {
        self.console.clear_line();
    }

    pub fn write(&mut self, text: &str)
        requires
            old(self).inv(),
        ensures
            final(self).inv(),
            final(self)@ == old(self)@.write(text@),
    {
        self.console.write(text);
    }

    pub fn println(&mut self, text: &str)
        requires
            old(self).inv(),
        ensures
            final(self).inv(),
            final(self)@ == old(self)@.println(text@),
    {
        self.console.println(text);
    }

    pub fn put_char(&mut self, c: char)
        requires
            old(self).inv(),
        ensures
            final(self).inv(),
            final(self)@ == old(self)@.put_char(c),
    {
        self.console.put_char(c);
    }

    pub fn put_char_at(&mut self, row: usize, col: usize, c: char)
        requires
            old(self).inv(),
        ensures
            final(self).inv(),
            final(self)@ == old(self)@.put_at(row as int, col as int, c),
    {
        self.console.put_char_at(row, col, c);
    }

    /// Erases the character before the cursor; at the first cell it blanks that cell.
    pub fn backspace(&mut self)
        requires
            old(self).inv(),
        ensures
            final(self).inv(),
            final(self)@ == ring0_backspace(old(self)@),
    {
        let (row, col) = self.console.get_cursor_position();
        if row == 0 && col == 0 {
            self.console.put_char_at(0, 0, ' ');
        }
        self.console.backspace();
    }
}

} // verus!
