use alilu_os::console::{decimal_string, join_words, split_words};
use alilu_os::fs::FileSystem;
use alilu_os::game::{Breakout, Canvas, Chess, Outcome, Piece, Step, ChessColor};
use alilu_os::keyboard::{Key, KeyEvent};
use alilu_os::process::ProcessControlBlock;
use alilu_os::ring2::game::{GameEngine, GameMode};
use alilu_os::shell::{Shell, ShellRequest};
use alilu_os::text::{chars_of, same_text, string_of};
use alilu_os::vga::VGA;
use alilu_os::ring2::shell::Shell as RingShell;
use alilu_os::kernel::Kernel as KernelCore;
use alilu_os::ring0::kernel::Kernel as RingKernel;
use alilu_os::scheduler::Scheduler;

fn row(vga: &VGA, r: usize) -> String {
    let s: String = (0..80).map(|c| vga.glyph_at(r, c) as char).collect();
    s.trim_end().to_string()
}

fn type_line(shell: &mut Shell, vga: &mut VGA, text: &str) {
    for c in text.chars() {
        if c == ' ' {
            shell.handle_space(vga);
        } else {
            shell.handle_char(vga, c);
        }
    }
}

fn run(shell: &mut Shell, vga: &mut VGA, fs: &mut FileSystem, text: &str) -> ShellRequest {
    type_line(shell, vga, text);
    shell.handle_enter(vga, fs, 7)
}

fn fresh() -> (Shell, VGA, FileSystem) {
    let mut fs = FileSystem::new();
    fs.init();
    (Shell::new(), VGA::new(), fs)
}

#[test]
fn shell_creates_lists_and_reads() {
    let (mut sh, mut vga, mut fs) = fresh();
    assert!(run(&mut sh, &mut vga, &mut fs, "folder docs") == ShellRequest::Continue);
    assert_eq!(row(&vga, 0), "folder docs");
    assert_eq!(row(&vga, 1), "Directory folder created successfully in B-Tree index.");
    assert_eq!(row(&vga, 2), ">");
    run(&mut sh, &mut vga, &mut fs, "write docs/a.txt hello  there world");
    assert_eq!(row(&vga, 3), "Text written to file in B-Tree index.");
    assert_eq!(fs.read_file(&["docs".to_string()], "a.txt"), Ok("hello there world".to_string()));
    run(&mut sh, &mut vga, &mut fs, "read docs/a.txt");
    assert_eq!(row(&vga, 5), "--- Content ---");
    assert_eq!(row(&vga, 6), "hello there world");
    assert_eq!(row(&vga, 7), "---------------");
    run(&mut sh, &mut vga, &mut fs, "enter docs");
    run(&mut sh, &mut vga, &mut fs, "directory");
    assert_eq!(row(&vga, 10), "/docs");
    run(&mut sh, &mut vga, &mut fs, "list");
    assert_eq!(row(&vga, 12), "Name                 Type");
    assert_eq!(row(&vga, 13), "a.txt               File");
}

#[test]
fn shell_reports_errors_and_usage() {
    let (mut sh, mut vga, mut fs) = fresh();
    run(&mut sh, &mut vga, &mut fs, "enter nowhere");
    assert_eq!(row(&vga, 1), "Error: Directory not found.");
    run(&mut sh, &mut vga, &mut fs, "create");
    assert_eq!(row(&vga, 3), "Usage: create [filename]");
    run(&mut sh, &mut vga, &mut fs, "read missing");
    assert_eq!(row(&vga, 5), "File not found in B+ Tree index");
    run(&mut sh, &mut vga, &mut fs, "delete missing");
    assert_eq!(row(&vga, 7), "Target path not found");
    run(&mut sh, &mut vga, &mut fs, "frobnicate now");
    assert_eq!(row(&vga, 9), "Command not recognized: frobnicate");
    assert_eq!(row(&vga, 10), "Type 'help' to launch the Interactive Help Viewer.");
    run(&mut sh, &mut vga, &mut fs, "echo a  b");
    assert_eq!(row(&vga, 12), "a b");
}

#[test]
fn shell_line_editing_and_escape() {
    let (mut sh, mut vga, mut fs) = fresh();
    type_line(&mut sh, &mut vga, "ecxo");
    sh.handle_backspace(&mut vga);
    sh.handle_backspace(&mut vga);
    type_line(&mut sh, &mut vga, "ho hi");
    assert_eq!(row(&vga, 0), "echo hi");
    sh.handle_escape(&mut vga);
    assert_eq!(row(&vga, 0), "echo hi^C");
    assert_eq!(row(&vga, 1), ">");
    run(&mut sh, &mut vga, &mut fs, "echo ok");
    assert_eq!(row(&vga, 2), "ok");
}

#[test]
fn shell_help_viewer_and_games() {
    let (mut sh, mut vga, mut fs) = fresh();
    assert!(run(&mut sh, &mut vga, &mut fs, "help") == ShellRequest::Continue);
    assert_eq!(row(&vga, 1), "                    AliluOS INTERACTIVE HELP VIEWER");
    sh.handle_char(&mut vga, 'x');
    sh.handle_escape(&mut vga);
    assert_eq!(row(&vga, 0), "=== AliluOS Interactive Shell ===");
    assert!(run(&mut sh, &mut vga, &mut fs, "play atari") == ShellRequest::PlayAtari);
    assert!(run(&mut sh, &mut vga, &mut fs, "play chess") == ShellRequest::PlayChess);
    assert!(run(&mut sh, &mut vga, &mut fs, "draw") == ShellRequest::Draw);
}

#[test]
fn shell_editor_saves() {
    let (mut sh, mut vga, mut fs) = fresh();
    run(&mut sh, &mut vga, &mut fs, "edit notes.txt");
    assert_eq!(row(&vga, 0), "--- Editing File: notes.txt ---");
    type_line(&mut sh, &mut vga, "line one");
    sh.handle_enter(&mut vga, &mut fs, 8);
    type_line(&mut sh, &mut vga, ":wq");
    sh.handle_enter(&mut vga, &mut fs, 9);
    assert_eq!(fs.read_file(&[], "notes.txt"), Ok("line one\n".to_string()));
    run(&mut sh, &mut vga, &mut fs, "edit notes.txt");
    type_line(&mut sh, &mut vga, ":q");
    sh.handle_enter(&mut vga, &mut fs, 10);
    assert_eq!(fs.read_file(&[], "notes.txt"), Ok("line one\n".to_string()));
}

#[test]
fn ring2_shell_tasks_and_save_key() {
    let mut fs = FileSystem::new();
    fs.init();
    let mut vga = VGA::new();
    let mut pm = ProcessControlBlock::new();
    pm.register_thread("idle_thread", 1, 0x8000).unwrap();
    let mut game = GameEngine::new();
    let mut sh = RingShell::new();
    for c in "edit a.txt".chars() {
        if c == ' ' { sh.handle_space(&mut vga) } else { sh.handle_char(&mut vga, c) }
    }
    sh.handle_enter(&mut vga, &mut fs, &mut pm, &mut game, 1);
    for c in "abc".chars() {
        sh.handle_char(&mut vga, c);
    }
    sh.handle_ctrl_char(&mut vga, &mut fs, 'k', 2);
    assert!(fs.read_file(&[], "a.txt").is_err());
    sh.handle_ctrl_char(&mut vga, &mut fs, 's', 2);
    sh.handle_ctrl_char(&mut vga, &mut fs, 'K', 3);
    assert_eq!(fs.read_file(&[], "a.txt"), Ok("abc".to_string()));
    assert!(game.mode == GameMode::Idle);
}

#[test]
fn ring2_games_start() {
    let mut vga = VGA::new();
    let mut game = GameEngine::new();
    game.start_atari(&mut vga);
    assert!(game.mode == GameMode::Atari);
    game.handle_key(&mut vga, Key::Left);
    assert_eq!(game.player_x, 33);
    game.start_chess(&mut vga);
    assert!(game.mode == GameMode::Chess);
}

#[test]
fn kernel_boots_and_routes_keys() {
    let mut k = KernelCore::new();
    let mut vga = VGA::new();
    let mut fs = FileSystem::new();
    let mut pm = ProcessControlBlock::new();
    let mut game = GameEngine::new();
    k.initialize(&mut vga, &mut fs);
    assert_eq!(row(&vga, 1), "          Welcome to AliluOS");
    assert_eq!(row(&vga, 6), ">");
    k.handle_key_event(KeyEvent::Press(Key::Character('h')), &mut vga, &mut fs, &mut pm, &mut game, 0);
    k.handle_key_event(KeyEvent::Release(Key::Character('h')), &mut vga, &mut fs, &mut pm, &mut game, 0);
    assert_eq!(row(&vga, 6), "> h");
}

#[test]
fn ring0_kernel_registers_boot_threads() {
    let mut k = RingKernel::new();
    let mut vga = VGA::new();
    let mut fs = FileSystem::new();
    let mut pm = ProcessControlBlock::new();
    let mut sched = Scheduler::new();
    let entries: Vec<u64> = (0..11).map(|i| 0x1000 + i).collect();
    k.initialize(&mut vga, &mut fs, &mut pm, &mut sched, &entries);
    assert_eq!(pm.threads.len(), 11);
    assert_eq!(pm.threads[0].name, "idle_thread");
    assert_eq!(pm.threads[1].name, "watchdog_thread");
    assert_eq!(pm.threads[3].context.rip, 0x1003);
    assert!(sched.initialized);
    assert_eq!(sched.current_tid, 1);
}

#[test]
fn canvas_draws_and_exits() {
    let mut c = Canvas::new();
    assert!(c.handle_scancode(0x39) == Step::Continue);
    assert_eq!(c.grid[12 * 80 + 40], b'*');
    c.handle_scancode(0x4D);
    assert_eq!(c.cursor_x, 41);
    c.handle_scancode(0x48);
    assert_eq!(c.cursor_y, 11);
    let mut vga = VGA::new();
    c.render(&mut vga);
    assert_eq!(vga.glyph_at(12, 40), b'*');
    assert_eq!(vga.glyph_at(11, 41), b'+');
    assert!(c.handle_scancode(0x01) == Step::Exit);
}

#[test]
fn breakout_ball_moves_and_bounces() {
    let mut g = Breakout::new();
    assert!(g.control(Some(0x4B)) == Step::Continue);
    assert_eq!(g.paddle_x, 32);
    assert!(g.advance() == Outcome::Playing);
    assert_eq!((g.ball_x, g.ball_y), (41, 14));
    for _ in 0..7 {
        g.advance();
    }
    assert_eq!((g.ball_x, g.ball_y), (48, 7));
    assert_eq!(g.score, 10);
    assert!(!g.bricks[46]);
    assert!(g.control(Some(0x01)) == Step::Exit);
}

#[test]
fn chess_moves_alternate() {
    let mut c = Chess::new();
    for sc in [0x12u8, 0x03, 0x12, 0x05] {
        c.handle_scancode(sc);
    }
    assert_eq!(c.input.iter().collect::<String>(), "e2e4");
    assert!(c.handle_scancode(0x1C) == Step::Continue);
    assert!(c.board[4 * 8 + 4].piece == Piece::Pawn);
    assert!(c.board[6 * 8 + 4].piece == Piece::Empty);
    assert!(c.turn == ChessColor::Black);
    for sc in [0x12u8, 0x03, 0x12, 0x05] {
        c.handle_scancode(sc);
    }
    c.handle_scancode(0x1C);
    assert!(c.turn == ChessColor::Black);
    assert!(c.input.is_empty());
}

#[test]
fn words_and_numbers() {
    assert_eq!(split_words("  a bb\tccc  "), vec!["a", "bb", "ccc"]);
    let ws = split_words("x y z");
    assert_eq!(join_words(&ws, 1), "y z");
    assert_eq!(join_words(&ws, 3), "");
    assert_eq!(decimal_string(0), "0");
    assert_eq!(decimal_string(1234567890123), "1234567890123");
}

#[test]
fn text_helpers() {
    assert_eq!(chars_of("héllo").len(), 5);
    assert_eq!(string_of(&['o', 'k']), "ok");
    assert_eq!(string_of(&['a', 'b', 'ç']), "abç");
    assert!(same_text("same", "same"));
    assert!(!same_text("same", "Same"));
}

#[test]
fn chess_off_board_moves_and_exit() {
    let mut c = Chess::new();
    for sc in [0x2Du8, 0x02, 0x1E, 0x02] {
        c.handle_scancode(sc);
    }
    assert_eq!(c.input.iter().collect::<String>(), "x1a1");
    assert!(c.move_is_readable());
    let board = c.board.clone();
    assert!(c.handle_scancode(0x1C) == Step::Continue);
    assert!(c.board == board);
    assert!(c.turn == ChessColor::White);
    assert!(c.input.is_empty());
    c.input = vec!['a', '9', 'a', '1'];
    assert!(!c.move_is_readable());
    c.input = vec!['1', '2', 'e', '4'];
    assert!(!c.move_is_readable());
    c.input.clear();
    for sc in [0x12u8, 0x2D, 0x17, 0x14] {
        c.handle_scancode(sc);
    }
    assert_eq!(c.input.iter().collect::<String>(), "exit");
    assert!(c.handle_scancode(0x1C) == Step::Exit);
}

fn ring2_run(sh: &mut RingShell, vga: &mut VGA, fs: &mut FileSystem, pm: &mut ProcessControlBlock, text: &str) {
    let mut game = GameEngine::new();
    for c in text.chars() {
        if c == ' ' { sh.handle_space(vga) } else { sh.handle_char(vga, c) }
    }
    sh.handle_enter(vga, fs, pm, &mut game, 1);
}

fn screen_has(vga: &VGA, text: &str) -> bool {
    (0..25).any(|r| row(vga, r).contains(text))
}

#[test]
fn ring2_cd_up_is_back() {
    let mut fs = FileSystem::new();
    fs.init();
    let mut vga = VGA::new();
    let mut pm = ProcessControlBlock::new();
    let mut sh = RingShell::new();
    ring2_run(&mut sh, &mut vga, &mut fs, &mut pm, "cd ..");
    assert!(screen_has(&vga, "Already at root directory (/)."));
    assert!(!screen_has(&vga, "Unknown command"));
    ring2_run(&mut sh, &mut vga, &mut fs, &mut pm, "folder docs");
    ring2_run(&mut sh, &mut vga, &mut fs, &mut pm, "enter docs");
    vga.clear();
    ring2_run(&mut sh, &mut vga, &mut fs, &mut pm, "cd ..");
    assert!(screen_has(&vga, "Returned to: /"));
}
