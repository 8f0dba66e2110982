//! Game engine driven by key events: a paddle game and a chess board view,
//! drawn on the console.
use vstd::prelude::*;
use crate::keyboard::Key;
use crate::vga::{Color, Screen, VGA};

verus! {

/// Which game is running.
#[derive(Clone, Copy, PartialEq, Eq, Structural)]
pub enum GameMode {
    Idle,
    Atari,
    Chess,
}

/// Game state: the running game, the score, the paddle and the ball.
pub struct GameEngine {
    pub mode: GameMode,
    pub score: u32,
    pub player_x: usize,
    pub ball_x: usize,
    pub ball_y: usize,
    pub ball_dx: isize,
    pub ball_dy: isize,
}

/// The screen with `c` put at columns `from..to` of `row`, left to right.
pub open spec fn row_filled(s: Screen, row: int, from: int, to: int, c: char) -> Screen
    decreases to - from,
{
    if from >= to {
        s
    } else {
        row_filled(s, row, from, to - 1, c).put_at(row, to - 1, c)
    }
}

/// The screen with `c` put at columns `from..to` of rows `r0..r1`, row by row.
pub open spec fn rows_filled(s: Screen, r0: int, r1: int, from: int, to: int, c: char) -> Screen
    decreases r1 - r0,
{
    if r0 >= r1 {
        s
    } else {
        row_filled(rows_filled(s, r0, r1 - 1, from, to, c), r1 - 1, from, to, c)
    }
}

/// The paddle game drawn for state `g` over screen `s`: title and help, a
/// wall of '#' on rows 3 to 5 between columns 10 and 69, the ball, and a
/// paddle of ten '=' on row 22.
pub open spec fn atari_screen(s: Screen, g: GameEngine) -> Screen {
    let t = s.cleared().with_colors(Color::LightCyan, Color::Black).println(
        "=== AliluOS Atari Breakout Text Game ==="@,
    ).with_colors(Color::White, Color::Black).println(
        "Use Left/Right arrow keys to move paddle. Press Escape to exit.\n"@,
    );
    let walls = rows_filled(t, 3, 6, 10, 70, '#');
    let ball = walls.put_at(g.ball_y as int, g.ball_x as int, 'O');
    row_filled(ball, 22, g.player_x as int, g.player_x + 10, '=')
}

/// The chess board screen over screen `s`.
pub open spec fn chess_screen(s: Screen) -> Screen {
    s.cleared().with_colors(Color::Yellow, Color::Black).println("=== AliluOS Interactive Text Chess ==="@).with_colors(
        Color::White,
        Color::Black,
    ).println("   a b c d e f g h"@).println("8  r n b q k b n r  8"@).println("7  p p p p p p p p  7"@).println(
        "6  . . . . . . . .  6"@,
    ).println("5  . . . . . . . .  5"@).println("4  . . . . . . . .  4"@).println("3  . . . . . . . .  3"@).println(
        "2  P P P P P P P P  2"@,
    ).println("1  R N B Q K B N R  1"@).println("   a b c d e f g h"@).println("\nPress Escape to exit chess mode."@)
}

/// Puts `c` at columns `from..to` of `row`.
pub(crate) fn fill_row(vga: &mut VGA, row: usize, from: usize, to: usize, c: char)
    requires
        old(vga).inv(),
    ensures
        final(vga).inv(),
        final(vga)@ == row_filled(old(vga)@, row as int, from as int, to as int, c),
{
    if from >= to {
        return;
    }
    let mut x = from;
    while x < to
        invariant
            vga.inv(),
            from <= x <= to,
            vga@ == row_filled(old(vga)@, row as int, from as int, x as int, c),
        decreases to - x,
    {
        vga.put_char_at(row, x, c);
        x = x + 1;
    }
}

impl GameEngine {
    /// No game running, the paddle at column 35 and the ball at (12, 40)
    /// moving right and up.
    pub fn new() -> (r: Self)
        ensures
            r.mode == GameMode::Idle,
            r.score == 0,
            r.player_x == 35,
            r.ball_x == 40,
            r.ball_y == 12,
            r.ball_dx == 1,
            r.ball_dy == -1,
    {
        GameEngine { mode: GameMode::Idle, score: 0, player_x: 35, ball_x: 40, ball_y: 12, ball_dx: 1, ball_dy: -1 }
    }

    /// Starts the paddle game from its initial position and draws it.
    pub fn start_atari(&mut self, vga: &mut VGA)
        requires
            old(vga).inv(),
        ensures
            final(vga).inv(),
            *final(self) == (GameEngine {
                mode: GameMode::Atari,
                score: 0,
                player_x: 35,
                ball_x: 40,
                ball_y: 12,
                ball_dx: 1isize,
                ball_dy: -1isize,
            }),
            final(vga)@ == atari_screen(old(vga)@, *final(self)),
    {
        self.mode = GameMode::Atari;
        self.score = 0;
        self.player_x = 35;
        self.ball_x = 40;
        self.ball_y = 12;
        self.ball_dx = 1;
        self.ball_dy = -1;
        self.render_atari_screen(vga);
    }

    /// Starts the chess view and draws the board.
    pub fn start_chess(&mut self, vga: &mut VGA)
        requires
            old(vga).inv(),
        ensures
            final(vga).inv(),
            *final(self) == (GameEngine { mode: GameMode::Chess, ..*old(self) }),
            final(vga)@ == chess_screen(old(vga)@),
    {
        self.mode = GameMode::Chess;
        self.render_chess_board(vga);
    }

    /// In the paddle game, Left and Right move the paddle by two columns
    /// (staying within columns 2 to 68) and redraw; other keys and other
    /// modes change nothing.
    pub fn handle_key(&mut self, vga: &mut VGA, key: Key)
        requires
            old(vga).inv(),
            old(self).player_x + 10 <= usize::MAX,
        ensures
            final(vga).inv(),
            ({
                let g = *old(self);
                if g.mode == GameMode::Atari && key == Key::Left && g.player_x > 2 {
                    let n = GameEngine { player_x: (g.player_x - 2) as usize, ..g };
                    *final(self) == n && final(vga)@ == atari_screen(old(vga)@, n)
                } else if g.mode == GameMode::Atari && key == Key::Right && g.player_x < 68 {
                    let n = GameEngine { player_x: (g.player_x + 2) as usize, ..g };
                    *final(self) == n && final(vga)@ == atari_screen(old(vga)@, n)
                } else {
                    *final(self) == g && final(vga)@ == old(vga)@
                }
            }),
    {
        match self.mode {
            GameMode::Atari => match key {
                Key::Left => {
                    if self.player_x > 2 {
                        self.player_x = self.player_x - 2;
                        self.render_atari_screen(vga);
                    }
                },
                Key::Right => {
                    if self.player_x < 68 {
                        self.player_x = self.player_x + 2;
                        self.render_atari_screen(vga);
                    }
                },
                _ => {},
            },
            GameMode::Chess => {},
            GameMode::Idle => {},
        }
    }

    fn render_atari_screen(&self, vga: &mut VGA)
        requires
            old(vga).inv(),
            self.player_x + 10 <= usize::MAX,
        ensures
            final(vga).inv(),
            final(vga)@ == atari_screen(old(vga)@, *self),
    {
        vga.clear();
        vga.set_color(Color::LightCyan, Color::Black);
        vga.println("=== AliluOS Atari Breakout Text Game ===");
        vga.set_color(Color::White, Color::Black);
        vga.println("Use Left/Right arrow keys to move paddle. Press Escape to exit.\n");
        let ghost t = vga@;
        let mut y: usize = 3;
        while y < 6
            invariant
                vga.inv(),
                3 <= y <= 6,
                vga@ == rows_filled(t, 3, y as int, 10, 70, '#'),
            decreases 6 - y,
        {
            fill_row(vga, y, 10, 70, '#');
            y = y + 1;
        }
        vga.put_char_at(self.ball_y, self.ball_x, 'O');
        fill_row(vga, 22, self.player_x, self.player_x + 10, '=');
    }

    fn render_chess_board(&self, vga: &mut VGA)
        requires
            old(vga).inv(),
        ensures
            final(vga).inv(),
            final(vga)@ == chess_screen(old(vga)@),
    {
        vga.clear();
        vga.set_color(Color::Yellow, Color::Black);
        vga.println("=== AliluOS Interactive Text Chess ===");
        vga.set_color(Color::White, Color::Black);
        vga.println("   a b c d e f g h");
        vga.println("8  r n b q k b n r  8");
        vga.println("7  p p p p p p p p  7");
        vga.println("6  . . . . . . . .  6");
        vga.println("5  . . . . . . . .  5");
        vga.println("4  . . . . . . . .  4");
        vga.println("3  . . . . . . . .  3");
        vga.println("2  P P P P P P P P  2");
        vga.println("1  R N B Q K B N R  1");
        vga.println("   a b c d e f g h");
        vga.println("\nPress Escape to exit chess mode.");
    }
}

} // verus!
