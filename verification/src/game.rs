//! Full-screen programs as state machines: a drawing canvas, a brick
//! breaking paddle game and a two-player chess board. Each takes one
//! scancode (or none) at a time and draws its frame on the console; the
//! caller waits for keys, keeps time and loops.
use vstd::prelude::*;
use crate::console::decimal;
use crate::vga::{Color, Screen, VGA};

verus! {

/// The character a scancode stands for in chess move input: the letters a
/// to h and those of "exit" (capital with `shift`) and the digits.
pub open spec fn move_char(code: u8, shift: bool) -> Option<char> {
    if code == 0x1E {
        Some(if shift { 'A' } else { 'a' })
    } else if code == 0x30 {
        Some(if shift { 'B' } else { 'b' })
    } else if code == 0x2E {
        Some(if shift { 'C' } else { 'c' })
    } else if code == 0x20 {
        Some(if shift { 'D' } else { 'd' })
    } else if code == 0x12 {
        Some(if shift { 'E' } else { 'e' })
    } else if code == 0x21 {
        Some(if shift { 'F' } else { 'f' })
    } else if code == 0x22 {
        Some(if shift { 'G' } else { 'g' })
    } else if code == 0x23 {
        Some(if shift { 'H' } else { 'h' })
    } else if code == 0x17 {
        Some(if shift { 'I' } else { 'i' })
    } else if code == 0x14 {
        Some(if shift { 'T' } else { 't' })
    } else if code == 0x2D {
        Some(if shift { 'X' } else { 'x' })
    } else if 0x02 <= code <= 0x0A {
        Some(((code - 0x02 + 0x31) as u8) as char)
    } else if code == 0x0B {
        Some('0')
    } else {
        None
    }
}

/// The character a scancode stands for in chess move input.
pub fn scancode_to_char(code: u8, shift: bool) -> (r: Option<char>)
    ensures
        r == move_char(code, shift),
{
    match code {
        0x1E => Some(if shift { 'A' } else { 'a' }),
        0x30 => Some(if shift { 'B' } else { 'b' }),
        0x2E => Some(if shift { 'C' } else { 'c' }),
        0x20 => Some(if shift { 'D' } else { 'd' }),
        0x12 => Some(if shift { 'E' } else { 'e' }),
        0x21 => Some(if shift { 'F' } else { 'f' }),
        0x22 => Some(if shift { 'G' } else { 'g' }),
        0x23 => Some(if shift { 'H' } else { 'h' }),
        0x17 => Some(if shift { 'I' } else { 'i' }),
        0x14 => Some(if shift { 'T' } else { 't' }),
        0x2D => Some(if shift { 'X' } else { 'x' }),
        0x02 => Some('1'),
        0x03 => Some('2'),
        0x04 => Some('3'),
        0x05 => Some('4'),
        0x06 => Some('5'),
        0x07 => Some('6'),
        0x08 => Some('7'),
        0x09 => Some('8'),
        0x0A => Some('9'),
        0x0B => Some('0'),
        _ => None,
    }
}

/// The screen with the characters of `text` put at (row, col), (row, col + 1), ...
pub open spec fn text_at(s: Screen, row: int, col: int, text: Seq<char>) -> Screen
    decreases text.len(),
{
    if text.len() == 0 {
        s
    } else {
        text_at(s, row, col, text.drop_last()).put_at(row, col + text.len() - 1, text.last())
    }
}

/// 10 to the power `k`.
pub open spec fn ten_to(k: nat) -> nat
    decreases k,
{
    if k == 0 { 1 } else { 10 * ten_to((k - 1) as nat) }
}

/// A number below 10^k has at most k decimal digits.
pub proof fn lemma_decimal_len(n: nat, k: nat)
    requires
        k >= 1,
        n < ten_to(k),
    ensures
        1 <= decimal(n).len() <= k,
    decreases k,
{
    if n >= 10 {
        assert(ten_to(k) == 10 * ten_to((k - 1) as nat));
        lemma_decimal_len(n / 10, (k - 1) as nat);
    }
}

/// Puts the decimal digits of `val` at (row, col) onwards.
pub fn print_num_at(row: usize, col: usize, val: usize, vga: &mut VGA)
    requires
        old(vga).inv(),
        val < 10_000_000_000,
        col + 10 <= usize::MAX,
    ensures
        final(vga).inv(),
        final(vga)@ == text_at(old(vga)@, row as int, col as int, decimal(val as nat)),
{
    proof {
        reveal_with_fuel(ten_to, 11);
        assert(ten_to(10) == 10_000_000_000);
        lemma_decimal_len(val as nat, 10);
    }
    let text = crate::console::decimal_string(val as u64);
    let chars = crate::text::chars_of(text.as_str());
    assert(chars@.take(0) =~= Seq::<char>::empty());
    for k in 0..chars.len()
        invariant
            vga.inv(),
            chars@ == decimal(val as nat),
            chars@.len() <= 10,
            col + 10 <= usize::MAX,
            vga@ == text_at(old(vga)@, row as int, col as int, chars@.take(k as int)),
    {
        vga.put_char_at(row, col + k, chars[k]);
        assert(chars@.take(k + 1).drop_last() =~= chars@.take(k as int));
    }
    assert(chars@.take(chars@.len() as int) =~= chars@);
}

/// Scancodes the programs react to.
pub const SC_ESCAPE: u8 = 0x01;
pub const SC_BACKSPACE: u8 = 0x0E;
pub const SC_E: u8 = 0x12;
pub const SC_ENTER: u8 = 0x1C;
pub const SC_SPACE: u8 = 0x39;
pub const SC_UP: u8 = 0x48;
pub const SC_LEFT: u8 = 0x4B;
pub const SC_RIGHT: u8 = 0x4D;
pub const SC_DOWN: u8 = 0x50;

/// Cells of the canvas (80 columns by 25 rows).
pub const CANVAS_CELLS: usize = 2000;

/// The drawing canvas: a cursor and what has been drawn.
pub struct Canvas {
    pub cursor_x: usize,
    pub cursor_y: usize,
    pub grid: Vec<u8>,
}

/// What a program does after a key.
#[derive(Clone, Copy, PartialEq, Eq, Structural)]
pub enum Step {
    Continue,
    Exit,
}

impl Canvas {
    /// Well-formedness: a full grid and the cursor on it.
    pub open spec fn wf(&self) -> bool {
        self.grid@.len() == CANVAS_CELLS && self.cursor_x < 80 && self.cursor_y < 25
    }

    /// Character shown at (y, x): the cursor as '+', else the drawn byte.
    pub open spec fn shown(&self, y: int, x: int) -> char {
        if x == self.cursor_x && y == self.cursor_y { '+' } else { self.grid@[y * 80 + x] as char }
    }

    /// An empty canvas with the cursor at column 40, row 12.
    pub fn new() -> (r: Self)
        ensures
            r.wf(),
            r.cursor_x == 40,
            r.cursor_y == 12,
            r.grid@ == Seq::new(CANVAS_CELLS as nat, |i: int| 0x20u8),
    {
        let grid = vec![0x20u8; CANVAS_CELLS];
        assert(grid@ =~= Seq::new(CANVAS_CELLS as nat, |i: int| 0x20u8));
        Canvas { cursor_x: 40, cursor_y: 12, grid }
    }

    /// Reacts to one scancode: Escape exits; the arrows move the cursor
    /// within the grid; Space draws '*'; Backspace and E erase.
    pub fn handle_scancode(&mut self, scancode: u8) -> (r: Step)
        requires
            old(self).wf(),
        ensures
            final(self).wf(),
            r == (if scancode == SC_ESCAPE { Step::Exit } else { Step::Continue }),
            ({
                let c = *old(self);
                let at = c.cursor_y * 80 + c.cursor_x;
                if scancode == SC_UP {
                    final(self).cursor_y == (if c.cursor_y > 0 { c.cursor_y - 1 } else { 0 })
                        && final(self).cursor_x == c.cursor_x && final(self).grid@ == c.grid@
                } else if scancode == SC_DOWN {
                    final(self).cursor_y == (if c.cursor_y < 24 { c.cursor_y + 1 } else { 24 })
                        && final(self).cursor_x == c.cursor_x && final(self).grid@ == c.grid@
                } else if scancode == SC_LEFT {
                    final(self).cursor_x == (if c.cursor_x > 0 { c.cursor_x - 1 } else { 0 })
                        && final(self).cursor_y == c.cursor_y && final(self).grid@ == c.grid@
                } else if scancode == SC_RIGHT {
                    final(self).cursor_x == (if c.cursor_x < 79 { c.cursor_x + 1 } else { 79 })
                        && final(self).cursor_y == c.cursor_y && final(self).grid@ == c.grid@
                } else if scancode == SC_SPACE {
                    final(self).grid@ == c.grid@.update(at, 0x2Au8)
                        && final(self).cursor_x == c.cursor_x && final(self).cursor_y == c.cursor_y
                } else if scancode == SC_BACKSPACE || scancode == SC_E {
                    final(self).grid@ == c.grid@.update(at, 0x20u8)
                        && final(self).cursor_x == c.cursor_x && final(self).cursor_y == c.cursor_y
                } else {
                    final(self).grid@ == c.grid@ && final(self).cursor_x == c.cursor_x && final(self).cursor_y == c.cursor_y
                }
            }),
    {
        match scancode {
            0x01 => {
                return Step::Exit;
            },
            0x48 => {
                if self.cursor_y > 0 {
                    self.cursor_y = self.cursor_y - 1;
                }
            },
            0x50 => {
                if self.cursor_y < 24 {
                    self.cursor_y = self.cursor_y + 1;
                }
            },
            0x4B => {
                if self.cursor_x > 0 {
                    self.cursor_x = self.cursor_x - 1;
                }
            },
            0x4D => {
                if self.cursor_x < 79 {
                    self.cursor_x = self.cursor_x + 1;
                }
            },
            0x39 => {
                let at = self.cursor_y * 80 + self.cursor_x;
                self.grid.set(at, 0x2Au8);
            },
            0x0E | 0x12 => {
                let at = self.cursor_y * 80 + self.cursor_x;
                self.grid.set(at, 0x20u8);
            },
            _ => {},
        }
        Step::Continue
    }

    /// Draws every cell, row by row: the cursor as '+', else the drawn byte.
    pub fn render(&self, vga: &mut VGA)
        requires
            old(vga).inv(),
            self.wf(),
        ensures
            final(vga).inv(),
            final(vga)@ == canvas_drawn(old(vga)@, *self, CANVAS_CELLS as int),
    {
        let mut i: usize = 0;
        while i < CANVAS_CELLS
            invariant
                vga.inv(),
                self.wf(),
                i <= CANVAS_CELLS,
                vga@ == canvas_drawn(old(vga)@, *self, i as int),
            decreases CANVAS_CELLS - i,
        {
            let y = i / 80;
            let x = i % 80;
            let ch = if x == self.cursor_x && y == self.cursor_y { '+' } else { self.grid[y * 80 + x] as char };
            vga.put_char_at(y, x, ch);
            i = i + 1;
        }
    }
}

/// The screen with the first `n` cells of the canvas drawn, row by row.
pub open spec fn canvas_drawn(s: Screen, c: Canvas, n: int) -> Screen
    decreases n,
{
    if n <= 0 {
        s
    } else {
        let k = n - 1;
        canvas_drawn(s, c, k).put_at(k / 80, k % 80, c.shown(k / 80, k % 80))
    }
}

/// Puts the characters of `text` at (row, col) onwards.
pub fn put_text_at(vga: &mut VGA, row: usize, col: usize, text: &str)
    requires
        old(vga).inv(),
        col + text@.len() <= usize::MAX,
    ensures
        final(vga).inv(),
        final(vga)@ == text_at(old(vga)@, row as int, col as int, text@),
{
    let chars = crate::text::chars_of(text);
    assert(chars@.take(0) =~= Seq::<char>::empty());
    for k in 0..chars.len()
        invariant
            vga.inv(),
            chars@ == text@,
            col + text@.len() <= usize::MAX,
            vga@ == text_at(old(vga)@, row as int, col as int, chars@.take(k as int)),
    {
        vga.put_char_at(row, col + k, chars[k]);
        assert(chars@.take(k + 1).drop_last() =~= chars@.take(k as int));
    }
    assert(chars@.take(chars@.len() as int) =~= chars@);
}

/// How a frame of the paddle game ends.
#[derive(Clone, Copy, PartialEq, Eq, Structural)]
pub enum Outcome {
    Playing,
    GameOver,
    Won,
}

/// Width of the paddle.
pub const PADDLE_WIDTH: usize = 10;

/// Number of bricks (5 rows of 10).
pub const BRICK_COUNT: usize = 50;

/// The paddle game: paddle, ball and its direction, score, lives and the
/// bricks still standing.
pub struct Breakout {
    pub paddle_x: usize,
    pub ball_x: usize,
    pub ball_y: usize,
    pub ball_dx: i32,
    pub ball_dy: i32,
    pub score: usize,
    pub lives: u32,
    pub bricks: Vec<bool>,
}

/// Abstract state of the paddle game.
pub struct BreakoutState {
    pub paddle_x: int,
    pub ball_x: int,
    pub ball_y: int,
    pub ball_dx: int,
    pub ball_dy: int,
    pub score: int,
    pub lives: int,
    pub bricks: Seq<bool>,
}

/// Index of the brick at (x, y), when a brick row and column is there.
pub open spec fn brick_at(x: int, y: int) -> Option<int> {
    if 3 <= y < 8 && 10 <= x < 70 {
        Some((y - 3) * 10 + (x - 10) / 6)
    } else {
        None
    }
}

/// One step of the ball: it moves by its direction, bounces off the side
/// walls (columns 1 and 78) and the top (row 2), knocks out a standing brick
/// it reaches (10 points, vertical bounce), bounces off the paddle on row 22
/// (steering left or right near the paddle's ends), and is lost below row 23:
/// a life goes, and the game is over at none, else the ball restarts above
/// the paddle's middle. The game is won at 500 points.
pub open spec fn advance_spec(g: BreakoutState) -> (BreakoutState, Outcome) {
    let x1 = g.ball_x + g.ball_dx;
    let y1 = g.ball_y + g.ball_dy;
    let x2 = if x1 <= 1 { 2 } else if x1 >= 78 { 77 } else { x1 };
    let dx2 = if x1 <= 1 || x1 >= 78 { -g.ball_dx } else { g.ball_dx };
    let y2 = if y1 <= 2 { 3 } else { y1 };
    let dy2 = if y1 <= 2 { -g.ball_dy } else { g.ball_dy };
    let hit = match brick_at(x2, y2) {
        Some(i) => g.bricks[i],
        None => false,
    };
    let bricks3 = if hit { g.bricks.update(brick_at(x2, y2).unwrap(), false) } else { g.bricks };
    let dy3 = if hit { -dy2 } else { dy2 };
    let score3 = if hit { g.score + 10 } else { g.score };
    let on_paddle = y2 == 22 && g.paddle_x <= x2 <= g.paddle_x + PADDLE_WIDTH;
    let dy4 = if on_paddle { -dy3 } else { dy3 };
    let dx4 = if on_paddle && x2 < g.paddle_x + 3 {
        -1
    } else if on_paddle && x2 > g.paddle_x + 7 {
        1
    } else {
        dx2
    };
    let moved = BreakoutState { ball_x: x2, ball_y: y2, ball_dx: dx4, ball_dy: dy4, score: score3, bricks: bricks3, ..g };
    if y2 >= 24 {
        let lost = BreakoutState { lives: g.lives - 1, ..moved };
        if g.lives - 1 == 0 {
            (lost, Outcome::GameOver)
        } else {
            let reset = BreakoutState { ball_x: g.paddle_x + PADDLE_WIDTH / 2, ball_y: 20, ball_dy: -1, ..lost };
            (reset, if score3 >= 500 { Outcome::Won } else { Outcome::Playing })
        }
    } else {
        (moved, if score3 >= 500 { Outcome::Won } else { Outcome::Playing })
    }
}

/// The paddle sends the ball back: when a step brings the ball onto the
/// paddle's row (22) within the paddle's span, the ball leaves that step
/// moving in the vertical direction opposite to the one it came with, so
/// a falling ball rises again.
pub proof fn lemma_paddle_bounces(g: BreakoutState)
    ensures
        ({
            let (r, _) = advance_spec(g);
            r.ball_y == 22 && g.paddle_x <= r.ball_x <= g.paddle_x + PADDLE_WIDTH ==> {
                &&& r.ball_dy == -g.ball_dy
                &&& g.ball_dy > 0 ==> r.ball_dy < 0
            }
        }),
{
}

/// A step keeps the books: no knocked-out brick comes back, the score
/// grows by 10 exactly when one standing brick is knocked out (and at most
/// one is per step), a life is lost exactly when the ball drops below row
/// 23, the game is over only when the last life is lost, and a ball still
/// in play stays between the side walls and below the top wall.
pub proof fn lemma_advance_accounting(g: BreakoutState)
    requires
        g.bricks.len() == 50,
    ensures
        ({
            let (r, o) = advance_spec(g);
            &&& r.bricks.len() == 50
            &&& forall|i: int| 0 <= i < 50 && #[trigger] r.bricks[i] ==> g.bricks[i]
            &&& (r.score == g.score && r.bricks == g.bricks) || (r.score == g.score + 10 && exists|i: int|
                0 <= i < 50 && #[trigger] g.bricks[i] && r.bricks == g.bricks.update(i, false))
            &&& r.lives == if g.ball_y + g.ball_dy >= 24 { g.lives - 1 } else { g.lives }
            &&& o == Outcome::GameOver <==> (g.ball_y + g.ball_dy >= 24 && g.lives == 1)
            &&& g.ball_y + g.ball_dy < 24 ==> 2 <= r.ball_x <= 77 && 3 <= r.ball_y
        }),
{
    let x1 = g.ball_x + g.ball_dx;
    let y1 = g.ball_y + g.ball_dy;
    let x2 = if x1 <= 1 { 2 } else if x1 >= 78 { 77 } else { x1 };
    let y2 = if y1 <= 2 { 3 } else { y1 };
    if let Some(i) = brick_at(x2, y2) {
        assert(0 <= (x2 - 10) / 6 < 10);
        assert(0 <= i < 50);
    }
}

/// The game after a key: the left arrow moves the paddle three columns left
/// while it is right of column 2, the right arrow three columns right while
/// its end is left of column 78; any other key changes nothing.
pub open spec fn controlled(g: BreakoutState, key: Option<u8>) -> BreakoutState {
    if key == Some(SC_LEFT) && g.paddle_x > 2 {
        BreakoutState { paddle_x: g.paddle_x - 3, ..g }
    } else if key == Some(SC_RIGHT) && g.paddle_x + PADDLE_WIDTH < 78 {
        BreakoutState { paddle_x: g.paddle_x + 3, ..g }
    } else {
        g
    }
}

/// The arrows steer the paddle their way and nothing else: left never moves
/// it right, right never moves it left, each by at most three columns,
/// other keys leave the game as it was, and only the paddle ever moves; a
/// paddle inside the field stays inside it.
pub proof fn lemma_paddle_steering(g: BreakoutState, key: Option<u8>)
    ensures
        ({
            let r = controlled(g, key);
            &&& r == BreakoutState { paddle_x: r.paddle_x, ..g }
            &&& key == Some(SC_LEFT) ==> g.paddle_x - 3 <= r.paddle_x <= g.paddle_x
            &&& key == Some(SC_RIGHT) ==> g.paddle_x <= r.paddle_x <= g.paddle_x + 3
            &&& key != Some(SC_LEFT) && key != Some(SC_RIGHT) ==> r == g
            &&& key == Some(SC_LEFT) && g.paddle_x > 2 ==> r.paddle_x < g.paddle_x
            &&& key == Some(SC_RIGHT) && g.paddle_x + PADDLE_WIDTH < 78 ==> r.paddle_x > g.paddle_x
            &&& 0 <= g.paddle_x && g.paddle_x + PADDLE_WIDTH <= 80 ==> 0 <= r.paddle_x && r.paddle_x + PADDLE_WIDTH <= 80
        }),
{
}

/// The bricks among the first `n` that stand, drawn as five '=' each (in
/// light gray) on their row 3 to 7 from column 10 + 6 * column.
pub open spec fn bricks_drawn(s: Screen, bricks: Seq<bool>, n: int) -> Screen
    decreases n,
{
    if n <= 0 {
        s
    } else {
        let k = n - 1;
        let before = bricks_drawn(s, bricks, k);
        if bricks[k] {
            crate::ring2::game::row_filled(
                before.with_colors(Color::LightGray, Color::Black),
                3 + k / 10,
                10 + (k % 10) * 6,
                15 + (k % 10) * 6,
                '=',
            )
        } else {
            before
        }
    }
}

/// A frame of the paddle game: the bricks, the score and lives, the paddle
/// on row 22 and the ball.
pub open spec fn breakout_screen(s: Screen, g: BreakoutState) -> Screen {
    let t1 = bricks_drawn(s.cleared(), g.bricks, BRICK_COUNT as int);
    let t2 = text_at(t1.with_colors(Color::White, Color::Black), 1, 2, "SCORE:"@);
    let t3 = text_at(t2, 1, 9, decimal(g.score as nat));
    let t4 = text_at(t3, 1, 70, "LIVES:"@).put_at(1, 77, (48 + g.lives) as char);
    let t5 = crate::ring2::game::row_filled(t4, 22, g.paddle_x, g.paddle_x + PADDLE_WIDTH, '=');
    t5.put_at(g.ball_y, g.ball_x, 'O')
}

impl Breakout {
    pub open spec fn view(&self) -> BreakoutState {
        BreakoutState {
            paddle_x: self.paddle_x as int,
            ball_x: self.ball_x as int,
            ball_y: self.ball_y as int,
            ball_dx: self.ball_dx as int,
            ball_dy: self.ball_dy as int,
            score: self.score as int,
            lives: self.lives as int,
            bricks: self.bricks@,
        }
    }

    /// Bounds kept while the game runs.
    pub open spec fn wf(&self) -> bool {
        &&& self.bricks@.len() == BRICK_COUNT
        &&& self.paddle_x <= 70
        &&& 2 <= self.ball_x <= 77
        &&& 3 <= self.ball_y <= 23
        &&& (self.ball_dx == 1 || self.ball_dx == -1)
        &&& (self.ball_dy == 1 || self.ball_dy == -1)
        &&& self.score < 500
        &&& 1 <= self.lives <= 3
    }

    /// A new game: paddle at column 35, the ball at (15, 40) moving right
    /// and up, no points, three lives, every brick standing.
    pub fn new() -> (r: Self)
        ensures
            r.wf(),
            r@ == (BreakoutState {
                paddle_x: 35,
                ball_x: 40,
                ball_y: 15,
                ball_dx: 1,
                ball_dy: -1,
                score: 0,
                lives: 3,
                bricks: Seq::new(BRICK_COUNT as nat, |i: int| true),
            }),
    {
        let bricks = vec![true; BRICK_COUNT];
        assert(bricks@ =~= Seq::new(BRICK_COUNT as nat, |i: int| true));
        Breakout { paddle_x: 35, ball_x: 40, ball_y: 15, ball_dx: 1, ball_dy: -1, score: 0, lives: 3, bricks }
    }

    /// The key polled this frame, if any: Escape ends the game, Left and
    /// Right move the paddle by three columns within the field.
    pub fn control(&mut self, key: Option<u8>) -> (r: Step)
        requires
            old(self).wf(),
        ensures
            final(self).wf(),
            r == (if key == Some(SC_ESCAPE) { Step::Exit } else { Step::Continue }),
            final(self)@ == controlled(old(self)@, key),
    {
        match key {
            Some(0x01) => Step::Exit,
            Some(0x4B) => {
                if self.paddle_x > 2 {
                    self.paddle_x = self.paddle_x - 3;
                }
                Step::Continue
            },
            Some(0x4D) => {
                if self.paddle_x + PADDLE_WIDTH < 78 {
                    self.paddle_x = self.paddle_x + 3;
                }
                Step::Continue
            },
            _ => Step::Continue,
        }
    }

    /// Moves the ball one step and settles the frame's outcome.
    pub fn advance(&mut self) -> (r: Outcome)
        requires
            old(self).wf(),
        ensures
            (final(self)@, r) == advance_spec(old(self)@),
            r == Outcome::Playing ==> final(self).wf(),
    {
        self.ball_x = (self.ball_x as i32 + self.ball_dx) as usize;
        self.ball_y = (self.ball_y as i32 + self.ball_dy) as usize;
        if self.ball_x <= 1 {
            self.ball_x = 2;
            self.ball_dx = -self.ball_dx;
        } else if self.ball_x >= 78 {
            self.ball_x = 77;
            self.ball_dx = -self.ball_dx;
        }
        if self.ball_y <= 2 {
            self.ball_y = 3;
            self.ball_dy = -self.ball_dy;
        }
        if self.ball_y >= 3 && self.ball_y < 8 {
            let row = self.ball_y - 3;
            if self.ball_x >= 10 && self.ball_x < 70 {
                let col = (self.ball_x - 10) / 6;
                let idx = row * 10 + col;
                if idx < BRICK_COUNT && self.bricks[idx] {
                    self.bricks.set(idx, false);
                    self.ball_dy = -self.ball_dy;
                    self.score = self.score + 10;
                }
            }
        }
        if self.ball_y == 22 {
            if self.ball_x >= self.paddle_x && self.ball_x <= self.paddle_x + PADDLE_WIDTH {
                self.ball_dy = -self.ball_dy;
                if self.ball_x < self.paddle_x + 3 {
                    self.ball_dx = -1;
                } else if self.ball_x > self.paddle_x + 7 {
                    self.ball_dx = 1;
                }
            }
        }
        if self.ball_y >= 24 {
            self.lives = self.lives - 1;
            if self.lives == 0 {
                return Outcome::GameOver;
            }
            self.ball_x = self.paddle_x + PADDLE_WIDTH / 2;
            self.ball_y = 20;
            self.ball_dy = -1;
        }
        if self.score >= 500 {
            return Outcome::Won;
        }
        Outcome::Playing
    }

    /// Draws the frame.
    pub fn render(&self, vga: &mut VGA)
        requires
            old(vga).inv(),
            self.wf(),
        ensures
            final(vga).inv(),
            final(vga)@ == breakout_screen(old(vga)@, self@),
    {
        vga.clear();
        let ghost t0 = vga@;
        let mut k: usize = 0;
        while k < BRICK_COUNT
            invariant
                vga.inv(),
                self.wf(),
                k <= BRICK_COUNT,
                vga@ == bricks_drawn(t0, self.bricks@, k as int),
            decreases BRICK_COUNT - k,
        {
            let row = k / 10;
            let col = k % 10;
            if self.bricks[row * 10 + col] {
                vga.set_color(Color::LightGray, Color::Black);
                let start_x = 10 + col * 6;
                let start_y = 3 + row;
                crate::ring2::game::fill_row(vga, start_y, start_x, start_x + 5, '=');
            }
            k = k + 1;
        }
        vga.set_color(Color::White, Color::Black);
        proof {
            reveal_strlit("SCORE:");
            reveal_strlit("LIVES:");
        }
        put_text_at(vga, 1, 2, "SCORE:");
        print_num_at(1, 9, self.score, vga);
        put_text_at(vga, 1, 70, "LIVES:");
        vga.put_char_at(1, 77, (48u8 + self.lives as u8) as char);
        crate::ring2::game::fill_row(vga, 22, self.paddle_x, self.paddle_x + PADDLE_WIDTH, '=');
        vga.put_char_at(self.ball_y, self.ball_x, 'O');
    }

    /// The end screen after the last life.
    pub fn show_game_over(&self, vga: &mut VGA)
        requires
            old(vga).inv(),
            self.score < 10_000_000_000,
        ensures
            final(vga).inv(),
            final(vga)@ == text_at(
                old(vga)@.cleared().with_colors(Color::LightRed, Color::Black).println("\n=== GAME OVER ==="@).write(
                    "Final Score: "@,
                ),
                3,
                14,
                decimal(self.score as nat),
            ).println("\nPress any key to return to shell..."@),
    {
        vga.clear();
        vga.set_color(Color::LightRed, Color::Black);
        vga.println("\n=== GAME OVER ===");
        vga.write("Final Score: ");
        print_num_at(3, 14, self.score, vga);
        vga.println("\nPress any key to return to shell...");
    }

    /// The end screen once every brick is gone.
    pub fn show_win(&self, vga: &mut VGA)
        requires
            old(vga).inv(),
        ensures
            final(vga).inv(),
            final(vga)@ == old(vga)@.cleared().with_colors(Color::LightGreen, Color::Black).println(
                "\n=== YOU WIN! ==="@,
            ).println("Excellent job! You destroyed all bricks."@).println("\nPress any key to return to shell..."@),
    {
        vga.clear();
        vga.set_color(Color::LightGreen, Color::Black);
        vga.println("\n=== YOU WIN! ===");
        vga.println("Excellent job! You destroyed all bricks.");
        vga.println("\nPress any key to return to shell...");
    }
}

/// Kind of a chess piece (`Empty` for a free square).
#[derive(Clone, Copy, PartialEq, Eq, Structural)]
pub enum Piece {
    Pawn,
    Knight,
    Bishop,
    Rook,
    Queen,
    King,
    Empty,
}

/// Side of a chess piece.
#[derive(Clone, Copy, PartialEq, Eq, Structural)]
pub enum ChessColor {
    White,
    Black,
}

/// A square's content.
#[derive(Clone, Copy, PartialEq, Eq, Structural)]
pub struct ChessPiece {
    pub piece: Piece,
    pub color: ChessColor,
}

/// The two-player chess board: 64 squares row by row from rank 8, the side
/// to move, and the move being typed.
pub struct Chess {
    pub board: Vec<ChessPiece>,
    pub turn: ChessColor,
    pub input: Vec<char>,
}

/// A free square.
pub open spec fn empty_square() -> ChessPiece {
    ChessPiece { piece: Piece::Empty, color: ChessColor::White }
}

/// Piece kinds of the back rank, file a to h.
pub open spec fn back_rank(col: int) -> Piece {
    if col == 0 || col == 7 {
        Piece::Rook
    } else if col == 1 || col == 6 {
        Piece::Knight
    } else if col == 2 || col == 5 {
        Piece::Bishop
    } else if col == 3 {
        Piece::Queen
    } else {
        Piece::King
    }
}

/// The starting position, square `i` = row * 8 + column, row 0 being rank 8.
pub open spec fn initial_square(i: int) -> ChessPiece {
    let row = i / 8;
    let col = i % 8;
    if row == 0 {
        ChessPiece { piece: back_rank(col), color: ChessColor::Black }
    } else if row == 1 {
        ChessPiece { piece: Piece::Pawn, color: ChessColor::Black }
    } else if row == 6 {
        ChessPiece { piece: Piece::Pawn, color: ChessColor::White }
    } else if row == 7 {
        ChessPiece { piece: back_rank(col), color: ChessColor::White }
    } else {
        empty_square()
    }
}

/// Whether a typed move can be read without arithmetic going below zero:
/// a four-character move has letters (at least 'a') first and third and
/// ranks (at most '8') second and fourth.
pub open spec fn move_readable(input: Seq<char>) -> bool {
    input.len() == 4 ==> {
        &&& (input[0] as u32) >= 97
        &&& (input[1] as u32) <= 56
        &&& (input[2] as u32) >= 97
        &&& (input[3] as u32) <= 56
    }
}

/// The board and side to move after committing the typed move: a
/// four-character move "c1r1c2r2" whose squares are on the board (files a
/// to h, ranks 1 to 8) moves the piece of the side to move from the first
/// square to the second (the first becomes free) and passes the turn;
/// anything else, such as a move with a file beyond h, changes nothing.
pub open spec fn committed(board: Seq<ChessPiece>, turn: ChessColor, input: Seq<char>) -> (Seq<ChessPiece>, ChessColor) {
    if input.len() == 4 {
        let sc = (input[0] as int) - 97;
        let sr = 56 - (input[1] as int);
        let ec = (input[2] as int) - 97;
        let er = 56 - (input[3] as int);
        if 0 <= sc < 8 && 0 <= sr < 8 && 0 <= ec < 8 && 0 <= er < 8 {
            let selected = board[sr * 8 + sc];
            if selected.piece != Piece::Empty && selected.color == turn {
                (
                    board.update(er * 8 + ec, selected).update(sr * 8 + sc, empty_square()),
                    if turn == ChessColor::White { ChessColor::Black } else { ChessColor::White },
                )
            } else {
                (board, turn)
            }
        } else {
            (board, turn)
        }
    } else {
        (board, turn)
    }
}

/// Whether file `f` and rank `r` name a square of the board ('a' to 'h', '1' to '8').
pub open spec fn names_square(f: char, r: char) -> bool {
    'a' <= f <= 'h' && '1' <= r <= '8'
}

/// Index of the square at file `f`, rank `r` on the board stored from rank 8 down.
pub open spec fn square_index(f: char, r: char) -> int {
    ((56 - (r as int)) * 8 + ((f as int) - 97))
}

/// Committing a move only ever moves a piece of the side to move: the turn
/// passes exactly when the typed move names two squares and the first holds
/// a piece of the side to move, which then stands on the second square (the
/// first left free); a move from an empty square or from a square of the
/// other side leaves the board and the turn as they were.
pub proof fn lemma_commit_moves_own_piece(board: Seq<ChessPiece>, turn: ChessColor, input: Seq<char>)
    requires
        board.len() == 64,
    ensures
        ({
            let (b2, t2) = committed(board, turn, input);
            let legal = input.len() == 4 && names_square(input[0], input[1]) && names_square(input[2], input[3]);
            let src = square_index(input[0], input[1]);
            let dst = square_index(input[2], input[3]);
            &&& t2 == turn ==> b2 == board
            &&& t2 != turn <==> (legal && board[src].piece != Piece::Empty && board[src].color == turn)
            &&& t2 != turn ==> {
                &&& 0 <= src < 64
                &&& 0 <= dst < 64
                &&& b2[src] == empty_square()
                &&& src != dst ==> b2[dst] == board[src]
                &&& forall|k: int| 0 <= k < 64 && k != src && k != dst ==> b2[k] == board[k]
            }
        }),
{
}

/// Letters of a piece kind on the board.
pub open spec fn piece_glyphs(p: Piece) -> (char, char) {
    match p {
        Piece::Pawn => ('P', ' '),
        Piece::Knight => ('N', ' '),
        Piece::Bishop => ('B', ' '),
        Piece::Rook => ('R', ' '),
        Piece::Queen => ('Q', ' '),
        Piece::King => ('K', ' '),
        Piece::Empty => ('-', '-'),
    }
}

/// Square (r, c) drawn: four cells from column 6 + 5c on row 3 + 2r, white
/// or light red on dark gray or black.
pub open spec fn square_drawn(s: Screen, p: ChessPiece, r: int, c: int) -> Screen {
    let bg = if (r + c) % 2 == 0 { Color::DarkGray } else { Color::Black };
    let fg = if p.color == ChessColor::White { Color::White } else { Color::LightRed };
    let (c1, c2) = piece_glyphs(p.piece);
    let x = 6 + c * 5;
    let y = 3 + r * 2;
    s.with_colors(fg, bg).put_at(y, x, ' ').put_at(y, x + 1, c1).put_at(y, x + 2, c2).put_at(y, x + 3, ' ')
}

/// Row `r` of the board drawn up to column `n`, after its rank digit.
pub open spec fn board_row_drawn(s: Screen, board: Seq<ChessPiece>, r: int, n: int) -> Screen
    decreases n,
{
    if n <= 0 {
        s.with_colors(Color::White, Color::Black).put_at(3 + r * 2, 2, (56 - r) as char)
    } else {
        square_drawn(board_row_drawn(s, board, r, n - 1), board[r * 8 + n - 1], r, n - 1)
    }
}

/// The file letters and the first `n` rows of the board drawn.
pub open spec fn board_drawn(s: Screen, board: Seq<ChessPiece>, n: int) -> Screen
    decreases n,
{
    if n <= 0 {
        s.with_colors(Color::White, Color::Black).put_at(1, 8, 'A').put_at(1, 13, 'B').put_at(1, 18, 'C').put_at(
            1,
            23,
            'D',
        ).put_at(1, 28, 'E').put_at(1, 33, 'F').put_at(1, 38, 'G').put_at(1, 43, 'H')
    } else {
        board_row_drawn(board_drawn(s, board, n - 1), board, n - 1, 8)
    }
}

/// A frame of the chess program: the board, whose turn it is, and the move
/// being typed on row 20.
pub open spec fn chess_frame(s: Screen, g: Chess) -> Screen {
    let b = board_drawn(s.cleared(), g.board@, 8);
    let t = text_at(b.with_colors(Color::LightCyan, Color::Black), 3, 45, "TURN:"@);
    let u = if g.turn == ChessColor::White {
        text_at(t.with_colors(Color::White, Color::Black), 3, 51, "White"@)
    } else {
        text_at(t.with_colors(Color::LightGray, Color::Black), 3, 51, "Black"@)
    };
    let v = text_at(u.with_colors(Color::White, Color::Black), 20, 2, "Your Move:"@).put_at(20, 13, ' ');
    text_at(v, 20, 14, g.input@)
}

/// Draws the board.
pub fn draw_board(board: &Vec<ChessPiece>, vga: &mut VGA)
    requires
        old(vga).inv(),
        board@.len() == 64,
    ensures
        final(vga).inv(),
        final(vga)@ == board_drawn(old(vga)@, board@, 8),
{
    vga.set_color(Color::White, Color::Black);
    vga.put_char_at(1, 8, 'A');
    vga.put_char_at(1, 13, 'B');
    vga.put_char_at(1, 18, 'C');
    vga.put_char_at(1, 23, 'D');
    vga.put_char_at(1, 28, 'E');
    vga.put_char_at(1, 33, 'F');
    vga.put_char_at(1, 38, 'G');
    vga.put_char_at(1, 43, 'H');
    assert(vga@ == board_drawn(old(vga)@, board@, 0));
    let mut r: usize = 0;
    while r < 8
        invariant
            vga.inv(),
            board@.len() == 64,
            r <= 8,
            vga@ == board_drawn(old(vga)@, board@, r as int),
        decreases 8 - r,
    {
        vga.set_color(Color::White, Color::Black);
        vga.put_char_at(3 + r * 2, 2, (56u8 - r as u8) as char);
        let ghost row_start = board_drawn(old(vga)@, board@, r as int);
        let mut c: usize = 0;
        while c < 8
            invariant
                vga.inv(),
                board@.len() == 64,
                r < 8,
                c <= 8,
                vga@ == board_row_drawn(row_start, board@, r as int, c as int),
            decreases 8 - c,
        {
            let bg = if (r + c) % 2 == 0 { Color::DarkGray } else { Color::Black };
            let p = board[r * 8 + c];
            let fg = if p.color == ChessColor::White { Color::White } else { Color::LightRed };
            vga.set_color(fg, bg);
            let (c1, c2) = match p.piece {
                Piece::Pawn => ('P', ' '),
                Piece::Knight => ('N', ' '),
                Piece::Bishop => ('B', ' '),
                Piece::Rook => ('R', ' '),
                Piece::Queen => ('Q', ' '),
                Piece::King => ('K', ' '),
                Piece::Empty => ('-', '-'),
            };
            let start_x = 6 + c * 5;
            let start_y = 3 + r * 2;
            vga.put_char_at(start_y, start_x, ' ');
            vga.put_char_at(start_y, start_x + 1, c1);
            vga.put_char_at(start_y, start_x + 2, c2);
            vga.put_char_at(start_y, start_x + 3, ' ');
            c = c + 1;
        }
        r = r + 1;
    }
}

/// Whether file `f` and rank `r` name a square: 'a' to 'h' and '1' to '8'.
fn on_board(f: char, r: char) -> (b: bool)
    ensures
        b == (0 <= (f as int) - 97 < 8 && 0 <= 56 - (r as int) < 8),
{
    let fc = f as u32;
    let rc = r as u32;
    97 <= fc && fc < 105 && 49 <= rc && rc <= 56
}

impl Chess {
    /// Bounds kept: 64 squares, a short typed move of move characters.
    pub open spec fn wf(&self) -> bool {
        &&& self.board@.len() == 64
        &&& self.input@.len() <= 10
        &&& forall|i: int| 0 <= i < self.input@.len() ==> exists|code: u8| move_char(code, false) == Some(#[trigger] self.input@[i])
    }

    /// The starting position, White to move, nothing typed.
    pub fn new() -> (r: Self)
        ensures
            r.wf(),
            r.board@ == Seq::new(64, |i: int| initial_square(i)),
            r.turn == ChessColor::White,
            r.input@.len() == 0,
    {
        let mut board: Vec<ChessPiece> = Vec::new();
        let mut i: usize = 0;
        while i < 64
            invariant
                i <= 64,
                board@ == Seq::new(i as nat, |k: int| initial_square(k)),
            decreases 64 - i,
        {
            let row = i / 8;
            let col = i % 8;
            let back = if col == 0 || col == 7 {
                Piece::Rook
            } else if col == 1 || col == 6 {
                Piece::Knight
            } else if col == 2 || col == 5 {
                Piece::Bishop
            } else if col == 3 {
                Piece::Queen
            } else {
                Piece::King
            };
            let sq = if row == 0 {
                ChessPiece { piece: back, color: ChessColor::Black }
            } else if row == 1 {
                ChessPiece { piece: Piece::Pawn, color: ChessColor::Black }
            } else if row == 6 {
                ChessPiece { piece: Piece::Pawn, color: ChessColor::White }
            } else if row == 7 {
                ChessPiece { piece: back, color: ChessColor::White }
            } else {
                ChessPiece { piece: Piece::Empty, color: ChessColor::White }
            };
            board.push(sq);
            i = i + 1;
            assert(board@ =~= Seq::new(i as nat, |k: int| initial_square(k)));
        }
        Chess { board, turn: ChessColor::White, input: Vec::new() }
    }

    /// Whether the typed move can be committed with Enter (see `move_readable`).
    pub fn move_is_readable(&self) -> (r: bool)
        ensures
            r == move_readable(self.input@),
    {
        if self.input.len() != 4 {
            return true;
        }
        (self.input[0] as u32) >= 97 && (self.input[1] as u32) <= 56 && (self.input[2] as u32) >= 97
            && (self.input[3] as u32) <= 56
    }

    /// Reacts to one scancode: Escape (or Enter on "exit") ends the game;
    /// Enter commits the typed move and clears it; Backspace removes the
    /// last typed character; a move character is typed while fewer than ten are.
    pub fn handle_scancode(&mut self, scancode: u8) -> (r: Step)
        requires
            old(self).wf(),
            scancode == SC_ENTER ==> move_readable(old(self).input@),
        ensures
            final(self).wf(),
            ({
                let g = *old(self);
                if scancode == SC_ESCAPE {
                    r == Step::Exit && final(self).board@ == g.board@ && final(self).turn == g.turn
                        && final(self).input@ == g.input@
                } else if scancode == SC_ENTER && g.input@ == "exit"@ {
                    r == Step::Exit && final(self).board@ == g.board@ && final(self).turn == g.turn
                        && final(self).input@ == g.input@
                } else if scancode == SC_ENTER {
                    r == Step::Continue && (final(self).board@, final(self).turn) == committed(g.board@, g.turn, g.input@)
                        && final(self).input@.len() == 0
                } else if scancode == SC_BACKSPACE {
                    r == Step::Continue && final(self).board@ == g.board@ && final(self).turn == g.turn
                        && final(self).input@ == (if g.input@.len() > 0 { g.input@.drop_last() } else { g.input@ })
                } else {
                    r == Step::Continue && final(self).board@ == g.board@ && final(self).turn == g.turn
                        && final(self).input@ == match move_char(scancode, false) {
                        Some(c) => if g.input@.len() < 10 { g.input@.push(c) } else { g.input@ },
                        None => g.input@,
                    }
                }
            }),
    {
        proof {
            reveal_strlit("exit");
        }
        if scancode == 0x01 {
            return Step::Exit;
        }
        if scancode == 0x1C {
            let is_exit = self.input.len() == 4 && self.input[0] == 'e' && self.input[1] == 'x' && self.input[2] == 'i'
                && self.input[3] == 't';
            assert(is_exit == (self.input@ == "exit"@)) by {
                if self.input@.len() == 4 && self.input@[0] == 'e' && self.input@[1] == 'x' && self.input@[2] == 'i'
                    && self.input@[3] == 't' {
                    assert(self.input@ =~= "exit"@);
                }
            }
            if is_exit {
                return Step::Exit;
            }
            if self.input.len() == 4 && on_board(self.input[0], self.input[1]) && on_board(self.input[2], self.input[3]) {
                let start_col = (self.input[0] as u32 - 97) as usize;
                let start_row = (56 - self.input[1] as u32) as usize;
                let end_col = (self.input[2] as u32 - 97) as usize;
                let end_row = (56 - self.input[3] as u32) as usize;
                let selected = self.board[start_row * 8 + start_col];
                let same_side = match (selected.color, self.turn) {
                    (ChessColor::White, ChessColor::White) => true,
                    (ChessColor::Black, ChessColor::Black) => true,
                    _ => false,
                };
                let occupied = match selected.piece {
                    Piece::Empty => false,
                    _ => true,
                };
                if occupied && same_side {
                    self.board.set(end_row * 8 + end_col, selected);
                    self.board.set(start_row * 8 + start_col, ChessPiece { piece: Piece::Empty, color: ChessColor::White });
                    self.turn = match self.turn {
                        ChessColor::White => ChessColor::Black,
                        ChessColor::Black => ChessColor::White,
                    };
                }
            }
            self.input = Vec::new();
            return Step::Continue;
        }
        if scancode == 0x0E {
            if self.input.len() > 0 {
                let _ = self.input.pop();
            }
            return Step::Continue;
        }
        if let Some(c) = scancode_to_char(scancode, false) {
            if self.input.len() < 10 {
                self.input.push(c);
                assert(move_char(scancode, false) == Some(self.input@[self.input@.len() - 1]));
            }
        }
        Step::Continue
    }

    /// Draws the frame.
    pub fn render(&self, vga: &mut VGA)
        requires
            old(vga).inv(),
            self.wf(),
        ensures
            final(vga).inv(),
            final(vga)@ == chess_frame(old(vga)@, *self),
    {
        proof {
            reveal_strlit("TURN:");
            reveal_strlit("White");
            reveal_strlit("Black");
            reveal_strlit("Your Move:");
        }
        vga.clear();
        draw_board(&self.board, vga);
        vga.set_color(Color::LightCyan, Color::Black);
        put_text_at(vga, 3, 45, "TURN:");
        match self.turn {
            ChessColor::White => {
                vga.set_color(Color::White, Color::Black);
                put_text_at(vga, 3, 51, "White");
            },
            ChessColor::Black => {
                vga.set_color(Color::LightGray, Color::Black);
                put_text_at(vga, 3, 51, "Black");
            },
        }
        vga.set_color(Color::White, Color::Black);
        put_text_at(vga, 20, 2, "Your Move:");
        vga.put_char_at(20, 13, ' ');
        let ghost before = vga@;
        assert(self.input@.take(0) =~= Seq::<char>::empty());
        for i in 0..self.input.len()
            invariant
                vga.inv(),
                self.wf(),
                vga@ == text_at(before, 20, 14, self.input@.take(i as int)),
        {
            vga.put_char_at(20, 14 + i, self.input[i]);
            assert(self.input@.take(i + 1).drop_last() =~= self.input@.take(i as int));
        }
        assert(self.input@.take(self.input@.len() as int) =~= self.input@);
    }
}

/// Opening screen of the drawing canvas.
pub fn canvas_intro(vga: &mut VGA)
    requires
        old(vga).inv(),
    ensures
        final(vga).inv(),
        final(vga)@ == old(vga)@.cleared().with_colors(Color::White, Color::Black).println("=== DRAWING CANVAS ==="@).println(
            "Use Arrow keys to move cursor."@,
        ).println("Space = Draw White Dot | Backspace/E = Erase | Escape = Exit"@).println("Press any key to start..."@),
{
    vga.clear();
    vga.set_color(Color::White, Color::Black);
    vga.println("=== DRAWING CANVAS ===");
    vga.println("Use Arrow keys to move cursor.");
    vga.println("Space = Draw White Dot | Backspace/E = Erase | Escape = Exit");
    vga.println("Press any key to start...");
}

/// Opening screen of the paddle game.
pub fn atari_intro(vga: &mut VGA)
    requires
        old(vga).inv(),
    ensures
        final(vga).inv(),
        final(vga)@ == old(vga)@.cleared().with_colors(Color::White, Color::Black).println("=== ATARI BREAKOUT ==="@).println(
            "Left/Right Arrow keys = Move Paddle"@,
        ).println("Escape = Exit"@).println("Press any key to start..."@),
{
    vga.clear();
    vga.set_color(Color::White, Color::Black);
    vga.println("=== ATARI BREAKOUT ===");
    vga.println("Left/Right Arrow keys = Move Paddle");
    vga.println("Escape = Exit");
    vga.println("Press any key to start...");
}

/// Opening screen of the chess program.
pub fn chess_intro(vga: &mut VGA)
    requires
        old(vga).inv(),
    ensures
        final(vga).inv(),
        final(vga)@ == old(vga)@.cleared().with_colors(Color::White, Color::Black).println("=== CHESS ==="@).println(
            "Two-Player mode."@,
        ).println("Move inputs are algebraic coordinates (e.g., 'e2e4' or 'b1c3')."@).println(
            "Type 'exit' to quit back to shell."@,
        ).println("Press any key to start..."@),
{
    vga.clear();
    vga.set_color(Color::White, Color::Black);
    vga.println("=== CHESS ===");
    vga.println("Two-Player mode.");
    vga.println("Move inputs are algebraic coordinates (e.g., 'e2e4' or 'b1c3').");
    vga.println("Type 'exit' to quit back to shell.");
    vga.println("Press any key to start...");
}

} // verus!
