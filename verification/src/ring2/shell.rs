//! Interactive shell of the user ring: command line, text editor (with
//! Ctrl+S / Ctrl+K saving), resource report of the process, and the
//! commands that act on the filesystem and start games. Each handler states
//! its console output as a list of console operations.
use vstd::prelude::*;
use vstd::utf8::encode_utf8;
use crate::console::{
    ConsoleOp, Out, apply_outs, decimal, decimal_string, emit, emit_color, emit_line, emit_text, join_words,
    joined_words, outs_view, show, split_words, words,
};
use crate::fs::{
    FileSystem, create_result, delete_result, directory_exists, directory_listing, directory_meta,
    empty_file_meta, entry_created, file_read, file_text, file_written, node_deleted, path_text, resolved, segs_view,
    write_result, lemma_segs_view,
};
use crate::process::ProcessControlBlock;
use crate::ring2::game::{GameEngine, GameMode, atari_screen, chess_screen};
use crate::shell::{
    ShellMode, chars_equal, cwd_outs, emit_cwd, emit_error, emit_report, emit_rows, error_outs, has_word,
    last_line, last_line_bounds, prompt_outs, report, rows_outs, save_outs, spaces, trim, trim_bounds,
};
use crate::text::{same_text, string_of};
use crate::thread::{ThreadControlBlock, ThreadState};
use crate::vga::{Color, VGA};

verus! {

/// Abstract shell state.
pub struct ShellView {
    pub buffer: Seq<char>,
    pub mode: ShellMode,
    pub editor_filename: Seq<char>,
    pub editor_buffer: Seq<char>,
    pub save_pending: bool,
    pub cwd: Seq<Seq<char>>,
}

/// The last segment of a resolved path ("" for none).
pub open spec fn name_of(res: Seq<Seq<char>>) -> Seq<char> {
    if res.len() == 0 { Seq::empty() } else { res.last() }
}

/// The segments before the last one (none for none).
pub open spec fn parent_of(res: Seq<Seq<char>>) -> Seq<Seq<char>> {
    if res.len() == 0 { Seq::empty() } else { res.drop_last() }
}

/// Path text of the target named by a resolved path.
pub open spec fn target_path(res: Seq<Seq<char>>) -> Seq<char> {
    path_text(parent_of(res).push(name_of(res)))
}

/// The command manual.
pub open spec fn manual_outs() -> Seq<Out> {
    seq![
        Out::SetColor(Color::LightCyan, Color::Black),
        Out::Println("========================================================================"@),
        Out::Println("                    AliluOS COMMAND MANUAL                              "@),
        Out::Println("========================================================================"@),
        Out::SetColor(Color::White, Color::Black),
        Out::Println("  help                       - Display this command manual"@),
        Out::Println("  clear                      - Clear display screen"@),
        Out::Println("  system                     - Display system specs, memory & timer stats"@),
        Out::Println("  tasks                      - List single-process resources & privilege ring threads"@),
        Out::Println("  list                       - List files/folders (B-Tree sorted)"@),
        Out::Println("  directory                  - Print current working directory path"@),
        Out::Println("  enter [path]               - Enter directory folder"@),
        Out::Println("  back / leave / up / cd ..  - Return back to parent directory"@),
        Out::Println("  folder [name]              - Create a new directory folder in B-Tree"@),
        Out::Println("  create [file]              - Create a new file in B-Tree index"@),
        Out::Println("  write [file] [text]        - Write text content to a file"@),
        Out::Println("  read [file]                - View file contents from B-Tree index"@),
        Out::Println("  delete [file/folder]       - Delete a file or folder from B-Tree index"@),
        Out::Println("  edit [file]                - Open interactive text editor"@),
        Out::Println("  play [atari / chess]       - Launch built-in text game"@),
        Out::Println("  browse [query]             - Open DuckDuckGo search browser"@),
        Out::Println("  echo [text]                - Print text back to screen"@),
        Out::SetColor(Color::White, Color::Black),
    ]
}

/// Output of `system` at tick `ticks`.
pub open spec fn system_outs(ticks: u64) -> Seq<Out> {
    seq![
        Out::SetColor(Color::LightGreen, Color::Black),
        Out::Println("--- AliluOS System Info ---"@),
        Out::SetColor(Color::White, Color::Black),
        Out::Println("OS Name: AliluOS (ಅಳಿಲು)"@),
        Out::Println("Architecture: x86_64 Privilege Ring Bifurcation (Ring 0, Ring 1, Ring 2)"@),
        Out::Println("Process Model: Single-Process Resource Manager (PID 1)"@),
        Out::Println("Heap Status: 5 MiB (5120 KiB) initialized"@),
        Out::Println("Storage Engine: Persistent ATA Disk Blocks (1024 bytes/block)"@),
        Out::Println("Filesystem Index: On-Disk B+ Tree Data Structure"@),
        Out::Println("Memory Manager: RAM Virtual Address Table (VAT) Demand Paging"@),
        Out::Write("Uptime: "@),
        Out::Write(decimal((ticks / 100) as nat)),
        Out::Println(" seconds"@),
    ]
}

/// Spaces after a thread name: 24 minus its byte length, at least one.
pub open spec fn thread_name_padding(name: Seq<char>) -> nat {
    let n = encode_utf8(name).len();
    (24 - if n < 23 { n } else { 23 }) as nat
}

/// The state column of a thread row.
pub open spec fn state_outs(s: ThreadState) -> Seq<Out> {
    match s {
        ThreadState::Running => seq![Out::SetColor(Color::LightGreen, Color::Black), Out::Write("RUNNING   "@)],
        ThreadState::Ready => seq![Out::SetColor(Color::Yellow, Color::Black), Out::Write("READY     "@)],
        ThreadState::Blocked => seq![Out::SetColor(Color::LightRed, Color::Black), Out::Write("BLOCKED   "@)],
        ThreadState::Terminated => seq![Out::SetColor(Color::DarkGray, Color::Black), Out::Write("TERMINATED"@)],
    }
}

/// One row of the thread table.
pub open spec fn thread_row_outs(t: ThreadControlBlock) -> Seq<Out> {
    seq![
        Out::Write(decimal(t.tid as nat)),
        Out::Write("    "@),
        Out::Write(t.name@ + spaces(thread_name_padding(t.name@))),
    ] + state_outs(t.state) + seq![
        Out::SetColor(Color::White, Color::Black),
        Out::Write(decimal((t.stack_size / 1024) as nat)),
        Out::Println(" KiB"@),
    ]
}

/// The rows of the thread table.
pub open spec fn thread_rows_outs(ts: Seq<ThreadControlBlock>) -> Seq<Out>
    decreases ts.len(),
{
    if ts.len() == 0 {
        Seq::empty()
    } else {
        thread_rows_outs(ts.drop_last()) + thread_row_outs(ts.last())
    }
}

/// Output of `tasks`: the quotas of the process and its threads.
pub open spec fn tasks_outs(pcb: ProcessControlBlock) -> Seq<Out> {
    seq![
        Out::SetColor(Color::LightGreen, Color::Black),
        Out::Println("=== SINGLE-PROCESS RESOURCE MANAGER STATS ==="@),
        Out::SetColor(Color::White, Color::Black),
        Out::Write("PID: "@),
        Out::Println(decimal(pcb.pid as nat)),
        Out::Write("Primary Memory Quota: "@),
        Out::Write(decimal((pcb.ram_mgr.allocated_bytes / 1024) as nat)),
        Out::Write(" / "@),
        Out::Write(decimal((pcb.ram_mgr.total_quota_bytes / 1024) as nat)),
        Out::Println(" KiB"@),
        Out::Write("Secondary Disk Quota: "@),
        Out::Write(decimal((pcb.disk_mgr.allocated_bytes / 1024) as nat)),
        Out::Write(" / "@),
        Out::Write(decimal((pcb.disk_mgr.total_quota_bytes / 1024) as nat)),
        Out::Println(" KiB"@),
        Out::Write("Network Bandwidth Rate: "@),
        Out::Write(decimal((pcb.net_mgr.rate_limit_bytes_per_sec / 1000) as nat)),
        Out::Println(" KB/s"@),
        Out::SetColor(Color::LightCyan, Color::Black),
        Out::Println("\n=== KERNEL EXECUTION THREADS (TID 0..10) ==="@),
        Out::Println("TID  NAME                    RING           STATE     STACK"@),
        Out::SetColor(Color::White, Color::Black),
    ] + thread_rows_outs(pcb.threads@)
}

/// Effect of a command naming one target (`folder`, `create`, `delete`):
/// `effect` holds of the filesystem change and `done` is printed on success.
pub open spec fn target_spec(
    cwd: Seq<Seq<char>>,
    fs: FileSystem,
    new_fs: FileSystem,
    args: Seq<Seq<char>>,
    usage: Seq<char>,
    invalid: Seq<char>,
    outs: Seq<Out>,
    changed: spec_fn(Seq<char>) -> bool,
    result: spec_fn(Seq<char>) -> Result<(), &'static str>,
    done: Seq<char>,
) -> bool {
    if args.len() == 0 {
        new_fs == fs && outs == seq![Out::Println(usage)]
    } else {
        let res = resolved(cwd, args[0]);
        if name_of(res).len() == 0 {
            new_fs == fs && outs == seq![Out::Println(invalid)]
        } else {
            changed(target_path(res)) && outs == report(result(target_path(res)), done)
        }
    }
}

/// Effect of `write`.
pub open spec fn write_spec(cwd: Seq<Seq<char>>, fs: FileSystem, new_fs: FileSystem, args: Seq<Seq<char>>, ticks: u64, outs: Seq<Out>) -> bool {
    if args.len() < 2 {
        new_fs == fs && outs == seq![Out::Println("Usage: write [filename] [text...]"@)]
    } else {
        let res = resolved(cwd, args[0]);
        let bytes = encode_utf8(joined_words(args.skip(1)));
        if name_of(res).len() == 0 {
            new_fs == fs && outs == seq![Out::Println("Error: Invalid filename"@)]
        } else {
            file_written(fs, new_fs, target_path(res), bytes, ticks)
                && outs == report(write_result(fs, target_path(res), bytes), "Written to file successfully."@)
        }
    }
}

/// Effect of `read`.
pub open spec fn read_spec(cwd: Seq<Seq<char>>, fs: FileSystem, new_fs: FileSystem, args: Seq<Seq<char>>, outs: Seq<Out>) -> bool {
    if args.len() == 0 {
        new_fs == fs && outs == seq![Out::Println("Usage: read [filename]"@)]
    } else {
        let res = resolved(cwd, args[0]);
        if name_of(res).len() == 0 {
            new_fs == fs && outs == seq![Out::Println("Error: Invalid filename"@)]
        } else {
            file_read(fs, new_fs, target_path(res)) && outs == match file_text(fs, target_path(res)) {
                Ok(t) => seq![
                    Out::SetColor(Color::LightGreen, Color::Black),
                    Out::Println("--- File Content ---"@),
                    Out::SetColor(Color::White, Color::Black),
                    Out::Println(t),
                ],
                Err(e) => error_outs(e@),
            }
        }
    }
}

/// Effect of `enter`.
pub open spec fn enter_spec(sh: ShellView, new_sh: ShellView, fs: FileSystem, args: Seq<Seq<char>>, outs: Seq<Out>) -> bool {
    if args.len() == 0 {
        new_sh == sh && outs == seq![Out::Println("Usage: enter [path]"@)]
    } else {
        let res = resolved(sh.cwd, args[0]);
        if directory_exists(fs, path_text(res)) {
            new_sh == (ShellView { cwd: res, ..sh }) && outs == seq![Out::Write("Entered directory: "@)] + cwd_outs(res)
        } else {
            new_sh == sh && outs == error_outs("Error: Directory not found."@)
        }
    }
}

/// Effect of `back`, `leave` and `up`.
pub open spec fn back_spec(sh: ShellView, new_sh: ShellView, outs: Seq<Out>) -> bool {
    if sh.cwd.len() > 0 {
        new_sh == (ShellView { cwd: sh.cwd.drop_last(), ..sh }) && outs == seq![Out::Write("Returned to: "@)]
            + cwd_outs(sh.cwd.drop_last())
    } else {
        new_sh == sh && outs == seq![Out::Println("Already at root directory (/)."@)]
    }
}

/// Effect of `edit`: the file's text (empty when it cannot be read) opens in the editor.
pub open spec fn edit_spec(sh: ShellView, new_sh: ShellView, fs: FileSystem, new_fs: FileSystem, args: Seq<Seq<char>>, outs: Seq<Out>) -> bool {
    if args.len() == 0 {
        new_sh == sh && new_fs == fs && outs == seq![Out::Println("Usage: edit [filename]"@)]
    } else {
        let content = match file_text(fs, target_path(resolved(sh.cwd, args[0]))) {
            Ok(t) => t,
            Err(_) => Seq::empty(),
        };
        &&& file_read(fs, new_fs, target_path(resolved(sh.cwd, args[0])))
        &&& new_sh == (ShellView { editor_filename: args[0], editor_buffer: content, mode: ShellMode::Editor, ..sh })
        &&& outs == seq![
            Out::Clear,
            Out::SetColor(Color::LightCyan, Color::Black),
            Out::Write("=== AliluOS Interactive Editor: "@),
            Out::Write(args[0]),
            Out::Println(" ==="@),
            Out::SetColor(Color::White, Color::Black),
            Out::Println("Type content below. Commands: Type ':wq' on new line to save & exit, ':q' to exit.\n"@),
            Out::Write(content),
        ]
    }
}

/// Effect of `play`: the game to start, or the output when none starts.
pub open spec fn play_spec(args: Seq<Seq<char>>, outs: Seq<Out>, game: GameMode) -> bool {
    if args.len() == 0 {
        game == GameMode::Idle && outs == seq![Out::Println("Usage: play [atari / chess]"@)]
    } else if args[0] == "atari"@ {
        game == GameMode::Atari && outs.len() == 0
    } else if args[0] == "chess"@ {
        game == GameMode::Chess && outs.len() == 0
    } else {
        game == GameMode::Idle && outs == seq![Out::Println("Unknown game. Choose: atari or chess"@)]
    }
}

/// Effect of the command line `line` at tick `ticks` with the process in
/// state `pcb`: the shell goes from `sh` to `new_sh`, the filesystem from
/// `fs` to `new_fs`, the console receives `outs`, then `game` names the game
/// that starts (`Idle` for none).
pub open spec fn command_spec(
    sh: ShellView,
    new_sh: ShellView,
    fs: FileSystem,
    new_fs: FileSystem,
    pcb: ProcessControlBlock,
    line: Seq<char>,
    ticks: u64,
    outs: Seq<Out>,
    game: GameMode,
) -> bool {
    let ws = words(line);
    if ws.len() == 0 {
        new_sh == sh && new_fs == fs && outs.len() == 0 && game == GameMode::Idle
    } else {
        let cmd = ws[0];
        let args = ws.skip(1);
        if cmd == "help"@ || args.contains("--help"@) || args.contains("-h"@) {
            new_sh == sh && new_fs == fs && outs == manual_outs() && game == GameMode::Idle
        } else if cmd == "play"@ {
            new_sh == sh && new_fs == fs && play_spec(args, outs, game)
        } else {
            &&& game == GameMode::Idle
            &&& if cmd == "clear"@ {
                new_sh == sh && new_fs == fs && outs == seq![Out::Clear]
            } else if cmd == "system"@ {
                new_sh == sh && new_fs == fs && outs == system_outs(ticks)
            } else if cmd == "tasks"@ {
                new_sh == sh && new_fs == fs && outs == tasks_outs(pcb)
            } else if cmd == "directory"@ {
                new_sh == sh && new_fs == fs && outs == cwd_outs(sh.cwd)
            } else if cmd == "enter"@ {
                new_fs == fs && enter_spec(sh, new_sh, fs, args, outs)
            } else if cmd == "back"@ || cmd == "leave"@ || cmd == "up"@ || (cmd == "cd"@ && args.len() > 0 && args[0] == ".."@) {
                new_fs == fs && back_spec(sh, new_sh, outs)
            } else if cmd == "folder"@ {
                new_sh == sh && target_spec(sh.cwd, fs, new_fs, args, "Usage: folder [name]"@,
                    "Error: Invalid directory name"@, outs,
                    |p: Seq<char>| entry_created(fs, new_fs, p, directory_meta(ticks)),
                    |p: Seq<char>| create_result(fs, p),
                    "Directory folder created successfully in B+ Tree index."@)
            } else if cmd == "list"@ {
                new_sh == sh && new_fs == fs && outs == match directory_listing(fs, path_text(sh.cwd)) {
                    Ok(items) => if items.len() == 0 {
                        seq![Out::Println("Directory is empty."@)]
                    } else {
                        seq![
                            Out::SetColor(Color::LightCyan, Color::Black),
                            Out::Println("Name                 Type"@),
                            Out::SetColor(Color::White, Color::Black),
                        ] + rows_outs(items, "<FILE>"@)
                    },
                    Err(e) => error_outs(e@),
                }
            } else if cmd == "create"@ {
                new_sh == sh && target_spec(sh.cwd, fs, new_fs, args, "Usage: create [filename]"@,
                    "Error: Invalid filename"@, outs,
                    |p: Seq<char>| entry_created(fs, new_fs, p, empty_file_meta(ticks)),
                    |p: Seq<char>| create_result(fs, p),
                    "File created successfully in B+ Tree index."@)
            } else if cmd == "write"@ {
                new_sh == sh && write_spec(sh.cwd, fs, new_fs, args, ticks, outs)
            } else if cmd == "read"@ {
                new_sh == sh && read_spec(sh.cwd, fs, new_fs, args, outs)
            } else if cmd == "delete"@ {
                new_sh == sh && target_spec(sh.cwd, fs, new_fs, args, "Usage: delete [name]"@,
                    "Error: Invalid name"@, outs,
                    |p: Seq<char>| node_deleted(fs, new_fs, p),
                    |p: Seq<char>| delete_result(fs, p),
                    "Target deleted successfully."@)
            } else if cmd == "edit"@ {
                edit_spec(sh, new_sh, fs, new_fs, args, outs)
            } else if cmd == "echo"@ {
                new_sh == sh && new_fs == fs && outs == seq![Out::Println(joined_words(args))]
            } else {
                new_sh == sh && new_fs == fs && outs == seq![
                    Out::SetColor(Color::LightRed, Color::Black),
                    Out::Write("Unknown command: '"@),
                    Out::Write(cmd),
                    Out::Println("'. Type 'help' for manual."@),
                    Out::SetColor(Color::White, Color::Black),
                ]
            }
        }
    }
}

/// The shell with its command line taken for running.
pub open spec fn line_taken(sh: ShellView) -> ShellView {
    ShellView { buffer: Seq::empty(), ..sh }
}

/// The shell back at the command prompt, the editor emptied.
pub open spec fn editor_closed(sh: ShellView) -> ShellView {
    ShellView { mode: ShellMode::Command, editor_buffer: Seq::empty(), editor_filename: Seq::empty(), ..sh }
}

/// The game engine once `game` has started (`Idle`: unchanged).
pub open spec fn started_game(g: GameEngine, game: GameMode) -> GameEngine {
    match game {
        GameMode::Atari => GameEngine {
            mode: GameMode::Atari,
            score: 0,
            player_x: 35,
            ball_x: 40,
            ball_y: 12,
            ball_dx: 1isize,
            ball_dy: -1isize,
        },
        GameMode::Chess => GameEngine { mode: GameMode::Chess, ..g },
        GameMode::Idle => g,
    }
}

/// The screen once `game` has started over `s`.
pub open spec fn game_drawn(s: crate::vga::Screen, game: GameMode, g: GameEngine) -> crate::vga::Screen {
    match game {
        GameMode::Atari => atari_screen(s, g),
        GameMode::Chess => chess_screen(s),
        GameMode::Idle => s,
    }
}

/// Effect of Enter in the editor: a last line reading ":wq" (around white
/// space) is taken out of the text (as many characters as the line has
/// bytes), the text is saved to the file being edited and the editor
/// closes; ":q" closes it without saving; otherwise a line break is added.
pub open spec fn editor_enter_spec(
    sh: ShellView,
    new_sh: ShellView,
    fs: FileSystem,
    new_fs: FileSystem,
    ticks: u64,
    outs: Seq<Out>,
) -> bool {
    let text = sh.editor_buffer;
    let add_break = new_sh == (ShellView { editor_buffer: text.push('\n'), ..sh }) && new_fs == fs && outs.len() == 0;
    match last_line(text) {
        None => add_break,
        Some(line) => if trim(line) == ":wq"@ {
            let k = encode_utf8(line).len();
            let content = text.take(if k < text.len() { text.len() - k } else { 0 });
            let res = resolved(sh.cwd, sh.editor_filename);
            &&& new_sh == editor_closed(sh)
            &&& if name_of(res).len() == 0 {
                new_fs == fs && outs == seq![Out::Println("Error: Invalid filename"@)] + prompt_outs()
            } else {
                &&& file_written(fs, new_fs, target_path(res), encode_utf8(content), ticks)
                &&& outs == save_outs(write_result(fs, target_path(res), encode_utf8(content))) + prompt_outs()
            }
        } else if trim(line) == ":q"@ {
            &&& new_sh == editor_closed(sh)
            &&& new_fs == fs
            &&& outs == seq![
                Out::SetColor(Color::Yellow, Color::Black),
                Out::Println("\nExited without saving."@),
            ] + prompt_outs()
        } else {
            add_break
        },
    }
}

/// `c` with ASCII capital letters made small.
pub open spec fn ascii_lower(c: char) -> char {
    if 'A' <= c <= 'Z' { ((c as u32) + 32) as char } else { c }
}

/// Effect of Ctrl with a key in the editor: Ctrl+S arms saving, Ctrl+K then
/// saves the whole text and closes the editor; other keys and other modes do nothing.
pub open spec fn ctrl_spec(sh: ShellView, new_sh: ShellView, fs: FileSystem, new_fs: FileSystem, c: char, ticks: u64, outs: Seq<Out>) -> bool {
    let lower = ascii_lower(c);
    if sh.mode == ShellMode::Editor && lower == 's' {
        &&& new_sh == (ShellView { save_pending: true, ..sh })
        &&& new_fs == fs
        &&& outs == seq![
            Out::SetColor(Color::Yellow, Color::Black),
            Out::Println("\n[Ctrl+S detected! Press Ctrl+K to save and exit]"@),
            Out::SetColor(Color::White, Color::Black),
        ]
    } else if sh.mode == ShellMode::Editor && lower == 'k' && sh.save_pending {
        let res = resolved(sh.cwd, sh.editor_filename);
        let closed = ShellView { save_pending: false, ..editor_closed(sh) };
        &&& new_sh == closed
        &&& if name_of(res).len() == 0 {
            new_fs == fs && outs == seq![Out::Println("\nError: Invalid filename"@)] + prompt_outs()
        } else {
            &&& file_written(fs, new_fs, target_path(res), encode_utf8(sh.editor_buffer), ticks)
            &&& outs == save_outs(write_result(fs, target_path(res), encode_utf8(sh.editor_buffer))) + prompt_outs()
        }
    } else if sh.mode == ShellMode::Editor && lower == 'k' {
        &&& new_sh == sh
        &&& new_fs == fs
        &&& outs == seq![
            Out::SetColor(Color::Yellow, Color::Black),
            Out::Println("\n[Press Ctrl+S first, then Ctrl+K to save and exit]"@),
            Out::SetColor(Color::White, Color::Black),
        ]
    } else {
        new_sh == sh && new_fs == fs && outs.len() == 0
    }
}

/// Output of the command manual.
fn emit_manual(out: &mut Vec<ConsoleOp>)
    ensures
        outs_view(final(out)@) == outs_view(old(out)@) + manual_outs(),
{
    let ghost start = outs_view(out@);
    emit_color(out, Color::LightCyan, Color::Black);
    emit_line(out, "========================================================================");
    emit_line(out, "                    AliluOS COMMAND MANUAL                              ");
    emit_line(out, "========================================================================");
    emit_color(out, Color::White, Color::Black);
    emit_line(out, "  help                       - Display this command manual");
    emit_line(out, "  clear                      - Clear display screen");
    emit_line(out, "  system                     - Display system specs, memory & timer stats");
    emit_line(out, "  tasks                      - List single-process resources & privilege ring threads");
    emit_line(out, "  list                       - List files/folders (B-Tree sorted)");
    emit_line(out, "  directory                  - Print current working directory path");
    emit_line(out, "  enter [path]               - Enter directory folder");
    emit_line(out, "  back / leave / up / cd ..  - Return back to parent directory");
    emit_line(out, "  folder [name]              - Create a new directory folder in B-Tree");
    emit_line(out, "  create [file]              - Create a new file in B-Tree index");
    emit_line(out, "  write [file] [text]        - Write text content to a file");
    emit_line(out, "  read [file]                - View file contents from B-Tree index");
    emit_line(out, "  delete [file/folder]       - Delete a file or folder from B-Tree index");
    emit_line(out, "  edit [file]                - Open interactive text editor");
    emit_line(out, "  play [atari / chess]       - Launch built-in text game");
    emit_line(out, "  browse [query]             - Open DuckDuckGo search browser");
    emit_line(out, "  echo [text]                - Print text back to screen");
    emit_color(out, Color::White, Color::Black);
    assert(outs_view(out@) =~= start + manual_outs());
}

fn emit_system(out: &mut Vec<ConsoleOp>, ticks: u64)
    ensures
        outs_view(final(out)@) == outs_view(old(out)@) + system_outs(ticks),
{
    let ghost start = outs_view(out@);
    emit_color(out, Color::LightGreen, Color::Black);
    emit_line(out, "--- AliluOS System Info ---");
    emit_color(out, Color::White, Color::Black);
    emit_line(out, "OS Name: AliluOS (ಅಳಿಲು)");
    emit_line(out, "Architecture: x86_64 Privilege Ring Bifurcation (Ring 0, Ring 1, Ring 2)");
    emit_line(out, "Process Model: Single-Process Resource Manager (PID 1)");
    emit_line(out, "Heap Status: 5 MiB (5120 KiB) initialized");
    emit_line(out, "Storage Engine: Persistent ATA Disk Blocks (1024 bytes/block)");
    emit_line(out, "Filesystem Index: On-Disk B+ Tree Data Structure");
    emit_line(out, "Memory Manager: RAM Virtual Address Table (VAT) Demand Paging");
    let seconds = ticks / 100;
    emit_text(out, "Uptime: ");
    emit(out, ConsoleOp::Write(decimal_string(seconds)));
    emit_line(out, " seconds");
    assert(outs_view(out@) =~= start + system_outs(ticks));
}

/// Appends the output of a decimal number without a line break.
fn emit_number(out: &mut Vec<ConsoleOp>, n: u64)
    ensures
        outs_view(final(out)@) == outs_view(old(out)@).push(Out::Write(decimal(n as nat))),
{
    emit(out, ConsoleOp::Write(decimal_string(n)));
}

/// Appends the row of one thread.
fn emit_thread_row(out: &mut Vec<ConsoleOp>, t: &crate::thread::ThreadStats)
    ensures
        forall|tcb: ThreadControlBlock| crate::thread::stats_of(tcb, *t) ==>
            outs_view(final(out)@) == outs_view(old(out)@) + thread_row_outs(tcb),
{
    let ghost start = outs_view(out@);
    emit_number(out, t.tid as u64);
    emit_text(out, "    ");
    let n = t.name.as_str().as_bytes().len();
    let pad: usize = 24 - if n < 23 { n } else { 23 };
    let mut text = String::new();
    crate::text::push_text(&mut text, t.name.as_str());
    let mut k: usize = 0;
    while k < pad
        invariant
            k <= pad,
            text@ == t.name@ + spaces(k as nat),
        decreases pad - k,
    {
        crate::text::push_char(&mut text, ' ');
        k = k + 1;
        assert(text@ =~= t.name@ + spaces(k as nat));
    }
    emit(out, ConsoleOp::Write(text));
    match t.state {
        ThreadState::Running => {
            emit_color(out, Color::LightGreen, Color::Black);
            emit_text(out, "RUNNING   ");
        },
        ThreadState::Ready => {
            emit_color(out, Color::Yellow, Color::Black);
            emit_text(out, "READY     ");
        },
        ThreadState::Blocked => {
            emit_color(out, Color::LightRed, Color::Black);
            emit_text(out, "BLOCKED   ");
        },
        ThreadState::Terminated => {
            emit_color(out, Color::DarkGray, Color::Black);
            emit_text(out, "TERMINATED");
        },
    }
    emit_color(out, Color::White, Color::Black);
    emit_number(out, (t.stack_size / 1024) as u64);
    emit_line(out, " KiB");
    assert forall|tcb: ThreadControlBlock| crate::thread::stats_of(tcb, *t) implies
        outs_view(out@) == start + thread_row_outs(tcb) by {
        assert(pad == thread_name_padding(tcb.name@));
        assert(outs_view(out@) =~= start + thread_row_outs(tcb));
    }
}

/// Effect of Escape on the shell and the screen.
pub open spec fn escape_effect(sh: ShellView, new_sh: ShellView, s: crate::vga::Screen, new_s: crate::vga::Screen) -> bool {
    match sh.mode {
        ShellMode::HelpViewer => new_sh == (ShellView { mode: ShellMode::Command, ..sh })
            && new_s == apply_outs(s, crate::shell::escape_help_outs()),
        ShellMode::Command => if sh.buffer.len() > 0 {
            new_sh == line_taken(sh) && new_s == apply_outs(s, seq![Out::Println("^C"@), Out::Write("> "@)])
        } else {
            new_sh == sh && new_s == s
        },
        ShellMode::Editor => new_sh == (ShellView { save_pending: false, ..editor_closed(sh) })
            && new_s == apply_outs(s, seq![
                Out::SetColor(Color::Yellow, Color::Black),
                Out::Println("\nExited editor without saving."@),
                Out::SetColor(Color::White, Color::Black),
                Out::Write("> "@),
            ]),
    }
}

/// Effect of Ctrl with a key on the shell, the filesystem and the screen.
pub open spec fn ctrl_effect(
    sh: ShellView,
    new_sh: ShellView,
    fs: FileSystem,
    new_fs: FileSystem,
    c: char,
    ticks: u64,
    s: crate::vga::Screen,
    new_s: crate::vga::Screen,
) -> bool {
    exists|o: Seq<Out>| #[trigger] ctrl_spec(sh, new_sh, fs, new_fs, c, ticks, o) && new_s == apply_outs(s, o)
}

/// Effect of a typed character on the shell and the screen.
pub open spec fn char_effect(sh: ShellView, new_sh: ShellView, c: char, s: crate::vga::Screen, new_s: crate::vga::Screen) -> bool {
    match sh.mode {
        ShellMode::Command => new_sh == (ShellView { buffer: sh.buffer.push(c), ..sh }) && new_s == s.put_char(c),
        ShellMode::Editor => new_sh == (ShellView { editor_buffer: sh.editor_buffer.push(c), ..sh }) && new_s == s.put_char(c),
        ShellMode::HelpViewer => new_sh == sh && new_s == s,
    }
}

/// Effect of Backspace on the shell and the screen.
pub open spec fn backspace_effect(sh: ShellView, new_sh: ShellView, s: crate::vga::Screen, new_s: crate::vga::Screen) -> bool {
    match sh.mode {
        ShellMode::Command => if sh.buffer.len() > 0 {
            new_sh == (ShellView { buffer: sh.buffer.drop_last(), ..sh }) && new_s == s.backspace()
        } else {
            new_sh == sh && new_s == s
        },
        ShellMode::Editor => if sh.editor_buffer.len() > 0 {
            new_sh == (ShellView { editor_buffer: sh.editor_buffer.drop_last(), ..sh }) && new_s == s.backspace()
        } else {
            new_sh == sh && new_s == s
        },
        ShellMode::HelpViewer => new_sh == sh && new_s == s,
    }
}

/// Effect of Enter on the shell, the filesystem, the games and the screen.
pub open spec fn enter_effect(
    sh: ShellView,
    new_sh: ShellView,
    fs: FileSystem,
    new_fs: FileSystem,
    pcb: ProcessControlBlock,
    game: GameEngine,
    new_game: GameEngine,
    ticks: u64,
    s: crate::vga::Screen,
    new_s: crate::vga::Screen,
) -> bool {
    match sh.mode {
        ShellMode::Command => exists|o: Seq<Out>, started: GameMode|
            #[trigger] command_spec(line_taken(sh), new_sh, fs, new_fs, pcb, sh.buffer, ticks, o, started)
                && new_game == started_game(game, started)
                && ({
                    let drawn = game_drawn(apply_outs(s, seq![Out::PutChar('\n')] + o), started, new_game);
                    new_s == if new_sh.mode == ShellMode::Command { drawn.write("> "@) } else { drawn }
                }),
        ShellMode::Editor => new_game == game && exists|o: Seq<Out>|
            #[trigger] editor_enter_spec(sh, new_sh, fs, new_fs, ticks, o)
                && new_s == apply_outs(s, seq![Out::PutChar('\n')] + o),
        ShellMode::HelpViewer => new_sh == sh && new_fs == fs && new_game == game
            && new_s == apply_outs(s, seq![Out::PutChar('\n')]),
    }
}

/// The shell: command line, editor and its pending save, and the working
/// directory as path segments.
pub struct Shell {
    buffer: Vec<char>,
    mode: ShellMode,
    editor_filename: String,
    editor_buffer: Vec<char>,
    save_pending: bool,
    cwd: Vec<String>,
}

/// Whether the resource manager's state other than its answer is unchanged.
pub open spec fn pcb_unchanged(a: ProcessControlBlock, b: ProcessControlBlock) -> bool {
    &&& a.pid == b.pid
    &&& a.threads@ == b.threads@
    &&& a.ram_mgr == b.ram_mgr
    &&& a.disk_mgr == b.disk_mgr
    &&& a.net_mgr == b.net_mgr
}

impl Shell {
    pub closed spec fn view(&self) -> ShellView {
        ShellView {
            buffer: self.buffer@,
            mode: self.mode,
            editor_filename: self.editor_filename@,
            editor_buffer: self.editor_buffer@,
            save_pending: self.save_pending,
            cwd: segs_view(self.cwd@),
        }
    }

    /// State of a new shell: command mode at the root, nothing typed.
    pub open spec fn new_view() -> ShellView {
        ShellView {
            buffer: Seq::empty(),
            mode: ShellMode::Command,
            editor_filename: Seq::empty(),
            editor_buffer: Seq::empty(),
            save_pending: false,
            cwd: Seq::empty(),
        }
    }

    /// A shell in command mode at the root directory.
    pub fn new() -> (r: Self)
        ensures
            r@ == Self::new_view(),
    {
        let r = Shell {
            buffer: Vec::new(),
            mode: ShellMode::Command,
            editor_filename: String::new(),
            editor_buffer: Vec::new(),
            save_pending: false,
            cwd: Vec::new(),
        };
        assert(r@.cwd =~= Seq::<Seq<char>>::empty());
        r
    }

    /// Escape: closes the help viewer back to the prompt, clears a non-empty
    /// command line, or leaves the editor without saving.
    pub fn handle_escape(&mut self, vga: &mut VGA)
        requires
            old(vga).inv(),
        ensures
            final(vga).inv(),
            escape_effect(old(self)@, final(self)@, old(vga)@, final(vga)@),
    {
        let mut out: Vec<ConsoleOp> = Vec::new();
        assert(outs_view(out@) =~= Seq::<Out>::empty());
        match self.mode {
            ShellMode::HelpViewer => {
                self.mode = ShellMode::Command;
                emit(&mut out, ConsoleOp::Clear);
                emit_color(&mut out, Color::LightGreen, Color::Black);
                emit_line(&mut out, "=== AliluOS Interactive Shell ===");
                emit_color(&mut out, Color::White, Color::Black);
                emit_line(&mut out, "Type 'help' to reopen help viewer, or enter commands below.\n");
                emit_text(&mut out, "> ");
                assert(outs_view(out@) =~= crate::shell::escape_help_outs());
                show(vga, &out);
            },
            ShellMode::Command => {
                if self.buffer.len() > 0 {
                    self.buffer = Vec::new();
                    emit_line(&mut out, "^C");
                    emit_text(&mut out, "> ");
                    assert(outs_view(out@) =~= seq![Out::Println("^C"@), Out::Write("> "@)]);
                    show(vga, &out);
                }
            },
            ShellMode::Editor => {
                self.mode = ShellMode::Command;
                self.save_pending = false;
                self.editor_buffer = Vec::new();
                self.editor_filename = String::new();
                emit_color(&mut out, Color::Yellow, Color::Black);
                emit_line(&mut out, "\nExited editor without saving.");
                emit_color(&mut out, Color::White, Color::Black);
                emit_text(&mut out, "> ");
                assert(outs_view(out@) =~= seq![
                    Out::SetColor(Color::Yellow, Color::Black),
                    Out::Println("\nExited editor without saving."@),
                    Out::SetColor(Color::White, Color::Black),
                    Out::Write("> "@),
                ]);
                show(vga, &out);
            },
        }
    }

    /// Ctrl with a key: in the editor, Ctrl+S arms saving and Ctrl+K saves
    /// and closes once armed.
    pub fn handle_ctrl_char(&mut self, vga: &mut VGA, fs: &mut FileSystem, c: char, ticks: u64)
        requires
            old(vga).inv(),
            old(fs).wf(),
        ensures
            final(vga).inv(),
            final(fs).wf(),
            ctrl_effect(old(self)@, final(self)@, *old(fs), *final(fs), c, ticks, old(vga)@, final(vga)@),
    {
        let mut out: Vec<ConsoleOp> = Vec::new();
        assert(outs_view(out@) =~= Seq::<Out>::empty());
        let lower = if 'A' <= c && c <= 'Z' { ((c as u32) + 32) as u8 as char } else { c };
        assert(lower == ascii_lower(c)) by {
            if 'A' <= c <= 'Z' {
                assert(((c as u32) + 32) as u8 as char == ((c as u32) + 32) as char);
            }
        }
        match self.mode {
            ShellMode::Editor => {
                if lower == 's' {
                    self.save_pending = true;
                    emit_color(&mut out, Color::Yellow, Color::Black);
                    emit_line(&mut out, "\n[Ctrl+S detected! Press Ctrl+K to save and exit]");
                    emit_color(&mut out, Color::White, Color::Black);
                    assert(outs_view(out@) =~= seq![
                        Out::SetColor(Color::Yellow, Color::Black),
                        Out::Println("\n[Ctrl+S detected! Press Ctrl+K to save and exit]"@),
                        Out::SetColor(Color::White, Color::Black),
                    ]);
                } else if lower == 'k' {
                    if self.save_pending {
                        let res = fs.resolve_path(self.cwd.as_slice(), self.editor_filename.as_str());
                        let (parent, name) = fs.split_parent_and_name(res.as_slice());
                        proof {
                            lemma_segs_view(res@);
                            lemma_segs_view(parent@);
                        }
                        if name.is_empty() {
                            emit_line(&mut out, "\nError: Invalid filename");
                            assert(outs_view(out@) =~= seq![Out::Println("\nError: Invalid filename"@)]);
                        } else {
                            assert(segs_view(parent@) =~= parent_of(segs_view(res@)));
                            let content = string_of(self.editor_buffer.as_slice());
                            let wr = fs.write_file(parent, name, content.as_str(), ticks);
                            match wr {
                                Ok(_) => {
                                    emit_color(&mut out, Color::LightGreen, Color::Black);
                                    emit_line(&mut out, "\nFile saved successfully.");
                                },
                                Err(e) => {
                                    emit_color(&mut out, Color::LightRed, Color::Black);
                                    emit_line(&mut out, e);
                                },
                            }
                            assert(outs_view(out@) =~= save_outs(wr));
                        }
                        let ghost reported = outs_view(out@);
                        emit_color(&mut out, Color::White, Color::Black);
                        self.mode = ShellMode::Command;
                        self.save_pending = false;
                        self.editor_buffer = Vec::new();
                        self.editor_filename = String::new();
                        emit_text(&mut out, "> ");
                        assert(outs_view(out@) =~= reported + prompt_outs());
                    } else {
                        emit_color(&mut out, Color::Yellow, Color::Black);
                        emit_line(&mut out, "\n[Press Ctrl+S first, then Ctrl+K to save and exit]");
                        emit_color(&mut out, Color::White, Color::Black);
                        assert(outs_view(out@) =~= seq![
                            Out::SetColor(Color::Yellow, Color::Black),
                            Out::Println("\n[Press Ctrl+S first, then Ctrl+K to save and exit]"@),
                            Out::SetColor(Color::White, Color::Black),
                        ]);
                    }
                }
            },
            _ => {},
        }
        assert(ctrl_spec(old(self)@, self@, *old(fs), *fs, c, ticks, outs_view(out@)));
        show(vga, &out);
    }

    /// A typed character: added to the command line or the edited text and echoed.
    pub fn handle_char(&mut self, vga: &mut VGA, c: char)
        requires
            old(vga).inv(),
        ensures
            final(vga).inv(),
            char_effect(old(self)@, final(self)@, c, old(vga)@, final(vga)@),
    {
        match self.mode {
            ShellMode::Command => {
                self.buffer.push(c);
                vga.put_char(c);
            },
            ShellMode::Editor => {
                self.editor_buffer.push(c);
                vga.put_char(c);
            },
            ShellMode::HelpViewer => {},
        }
    }

    /// Backspace: removes the last character of the command line or the
    /// edited text, when there is one, and erases it on screen.
    pub fn handle_backspace(&mut self, vga: &mut VGA)
        requires
            old(vga).inv(),
        ensures
            final(vga).inv(),
            backspace_effect(old(self)@, final(self)@, old(vga)@, final(vga)@),
    {
        match self.mode {
            ShellMode::Command => {
                if self.buffer.len() > 0 {
                    let _ = self.buffer.pop();
                    vga.backspace();
                }
            },
            ShellMode::Editor => {
                if self.editor_buffer.len() > 0 {
                    let _ = self.editor_buffer.pop();
                    vga.backspace();
                }
            },
            ShellMode::HelpViewer => {},
        }
    }

    /// Space: added like a typed character.
    pub fn handle_space(&mut self, vga: &mut VGA)
        requires
            old(vga).inv(),
        ensures
            final(vga).inv(),
            char_effect(old(self)@, final(self)@, ' ', old(vga)@, final(vga)@),
    {
        self.handle_char(vga, ' ');
    }

    /// `folder` and `create`: makes an entry at the path named by the first argument.
    fn cmd_make(fs: &mut FileSystem, cwd: &[String], ws: &Vec<String>, is_directory: bool, ticks: u64) -> (out: Vec<ConsoleOp>)
        requires
            old(fs).wf(),
            ws@.len() >= 1,
        ensures
            final(fs).wf(),
            is_directory ==> target_spec(segs_view(cwd@), *old(fs), *final(fs), segs_view(ws@).skip(1),
                "Usage: folder [name]"@, "Error: Invalid directory name"@, outs_view(out@),
                |p: Seq<char>| entry_created(*old(fs), *final(fs), p, directory_meta(ticks)),
                |p: Seq<char>| create_result(*old(fs), p),
                "Directory folder created successfully in B+ Tree index."@),
            !is_directory ==> target_spec(segs_view(cwd@), *old(fs), *final(fs), segs_view(ws@).skip(1),
                "Usage: create [filename]"@, "Error: Invalid filename"@, outs_view(out@),
                |p: Seq<char>| entry_created(*old(fs), *final(fs), p, empty_file_meta(ticks)),
                |p: Seq<char>| create_result(*old(fs), p),
                "File created successfully in B+ Tree index."@),
    {
        let mut out: Vec<ConsoleOp> = Vec::new();
        proof {
            lemma_segs_view(ws@);
        }
        let ghost args = segs_view(ws@).skip(1);
        assert(outs_view(out@) =~= Seq::<Out>::empty());
        if ws.len() < 2 {
            if is_directory {
                emit_line(&mut out, "Usage: folder [name]");
            } else {
                emit_line(&mut out, "Usage: create [filename]");
            }
            return out;
        }
        assert(args[0] == ws@[1]@);
        let res = fs.resolve_path(cwd, ws[1].as_str());
        let (parent, name) = fs.split_parent_and_name(res.as_slice());
        proof {
            lemma_segs_view(res@);
            lemma_segs_view(parent@);
        }
        if name.is_empty() {
            if is_directory {
                emit_line(&mut out, "Error: Invalid directory name");
            } else {
                emit_line(&mut out, "Error: Invalid filename");
            }
            return out;
        }
        assert(segs_view(parent@) =~= parent_of(segs_view(res@)));
        if is_directory {
            let r = fs.create_directory(parent, name, ticks);
            emit_report(&mut out, r, "Directory folder created successfully in B+ Tree index.");
        } else {
            let r = fs.create_file(parent, name, ticks);
            emit_report(&mut out, r, "File created successfully in B+ Tree index.");
        }
        out
    }

    /// `delete`: removes the file or directory named by the first argument.
    fn cmd_delete(fs: &mut FileSystem, cwd: &[String], ws: &Vec<String>) -> (out: Vec<ConsoleOp>)
        requires
            old(fs).wf(),
            ws@.len() >= 1,
        ensures
            final(fs).wf(),
            target_spec(segs_view(cwd@), *old(fs), *final(fs), segs_view(ws@).skip(1),
                "Usage: delete [name]"@, "Error: Invalid name"@, outs_view(out@),
                |p: Seq<char>| node_deleted(*old(fs), *final(fs), p),
                |p: Seq<char>| delete_result(*old(fs), p),
                "Target deleted successfully."@),
    {
        let mut out: Vec<ConsoleOp> = Vec::new();
        proof {
            lemma_segs_view(ws@);
        }
        let ghost args = segs_view(ws@).skip(1);
        assert(outs_view(out@) =~= Seq::<Out>::empty());
        if ws.len() < 2 {
            emit_line(&mut out, "Usage: delete [name]");
            return out;
        }
        assert(args[0] == ws@[1]@);
        let res = fs.resolve_path(cwd, ws[1].as_str());
        let (parent, name) = fs.split_parent_and_name(res.as_slice());
        proof {
            lemma_segs_view(res@);
            lemma_segs_view(parent@);
        }
        if name.is_empty() {
            emit_line(&mut out, "Error: Invalid name");
            return out;
        }
        assert(segs_view(parent@) =~= parent_of(segs_view(res@)));
        let r = fs.delete_node(parent, name);
        emit_report(&mut out, r, "Target deleted successfully.");
        out
    }

    /// `write`: stores the remaining arguments, joined by spaces, in the file
    /// named by the first argument.
    fn cmd_write(fs: &mut FileSystem, cwd: &[String], ws: &Vec<String>, ticks: u64) -> (out: Vec<ConsoleOp>)
        requires
            old(fs).wf(),
            ws@.len() >= 1,
        ensures
            final(fs).wf(),
            write_spec(segs_view(cwd@), *old(fs), *final(fs), segs_view(ws@).skip(1), ticks, outs_view(out@)),
    {
        let mut out: Vec<ConsoleOp> = Vec::new();
        proof {
            lemma_segs_view(ws@);
        }
        let ghost args = segs_view(ws@).skip(1);
        assert(outs_view(out@) =~= Seq::<Out>::empty());
        if ws.len() < 3 {
            emit_line(&mut out, "Usage: write [filename] [text...]");
            return out;
        }
        assert(args[0] == ws@[1]@);
        let content = join_words(ws.as_slice(), 2);
        assert(segs_view(ws@).skip(2) =~= args.skip(1));
        let res = fs.resolve_path(cwd, ws[1].as_str());
        let (parent, name) = fs.split_parent_and_name(res.as_slice());
        proof {
            lemma_segs_view(res@);
            lemma_segs_view(parent@);
        }
        if name.is_empty() {
            emit_line(&mut out, "Error: Invalid filename");
            return out;
        }
        assert(segs_view(parent@) =~= parent_of(segs_view(res@)));
        let r = fs.write_file(parent, name, content.as_str(), ticks);
        emit_report(&mut out, r, "Written to file successfully.");
        out
    }

    /// `read`: prints the file named by the first argument.
    fn cmd_read(fs: &mut FileSystem, cwd: &[String], ws: &Vec<String>) -> (out: Vec<ConsoleOp>)
        requires
            old(fs).wf(),
            ws@.len() >= 1,
        ensures
            final(fs).wf(),
            read_spec(segs_view(cwd@), *old(fs), *final(fs), segs_view(ws@).skip(1), outs_view(out@)),
    {
        let mut out: Vec<ConsoleOp> = Vec::new();
        proof {
            lemma_segs_view(ws@);
        }
        let ghost args = segs_view(ws@).skip(1);
        assert(outs_view(out@) =~= Seq::<Out>::empty());
        if ws.len() < 2 {
            emit_line(&mut out, "Usage: read [filename]");
            return out;
        }
        assert(args[0] == ws@[1]@);
        let res = fs.resolve_path(cwd, ws[1].as_str());
        let (parent, name) = fs.split_parent_and_name(res.as_slice());
        proof {
            lemma_segs_view(res@);
            lemma_segs_view(parent@);
        }
        if name.is_empty() {
            emit_line(&mut out, "Error: Invalid filename");
            return out;
        }
        assert(segs_view(parent@) =~= parent_of(segs_view(res@)));
        match fs.read_file(parent, name) {
            Ok(content) => {
                let ghost t = content@;
                emit_color(&mut out, Color::LightGreen, Color::Black);
                emit_line(&mut out, "--- File Content ---");
                emit_color(&mut out, Color::White, Color::Black);
                emit(&mut out, ConsoleOp::Println(content));
                assert(outs_view(out@) =~= seq![
                    Out::SetColor(Color::LightGreen, Color::Black),
                    Out::Println("--- File Content ---"@),
                    Out::SetColor(Color::White, Color::Black),
                    Out::Println(t),
                ]);
            },
            Err(e) => {
                emit_error(&mut out, e);
                assert(outs_view(out@) =~= error_outs(e@));
            },
        }
        out
    }

    /// `enter`: moves into the directory named by the first argument and prints it.
    fn cmd_enter(&mut self, fs: &FileSystem, ws: &Vec<String>) -> (out: Vec<ConsoleOp>)
        requires
            fs.wf(),
            ws@.len() >= 1,
        ensures
            enter_spec(old(self)@, final(self)@, *fs, segs_view(ws@).skip(1), outs_view(out@)),
    {
        let mut out: Vec<ConsoleOp> = Vec::new();
        proof {
            lemma_segs_view(ws@);
        }
        let ghost args = segs_view(ws@).skip(1);
        assert(outs_view(out@) =~= Seq::<Out>::empty());
        if ws.len() < 2 {
            emit_line(&mut out, "Usage: enter [path]");
            return out;
        }
        assert(args[0] == ws@[1]@);
        let res = fs.resolve_path(self.cwd.as_slice(), ws[1].as_str());
        if fs.find_directory(res.as_slice()).is_some() {
            self.cwd = res;
            emit_text(&mut out, "Entered directory: ");
            emit_cwd(&mut out, self.cwd.as_slice());
            assert(outs_view(out@) =~= seq![Out::Write("Entered directory: "@)] + cwd_outs(self@.cwd));
        } else {
            emit_error(&mut out, "Error: Directory not found.");
            assert(outs_view(out@) =~= error_outs("Error: Directory not found."@));
        }
        out
    }

    /// `back`, `leave`, `up`: moves to the parent directory.
    fn cmd_back(&mut self) -> (out: Vec<ConsoleOp>)
        ensures
            back_spec(old(self)@, final(self)@, outs_view(out@)),
    {
        let mut out: Vec<ConsoleOp> = Vec::new();
        assert(outs_view(out@) =~= Seq::<Out>::empty());
        if self.cwd.len() > 0 {
            let ghost before = self.cwd@;
            let _ = self.cwd.pop();
            proof {
                lemma_segs_view(before);
                lemma_segs_view(self.cwd@);
            }
            assert(segs_view(self.cwd@) =~= segs_view(before).drop_last());
            emit_text(&mut out, "Returned to: ");
            emit_cwd(&mut out, self.cwd.as_slice());
            assert(outs_view(out@) =~= seq![Out::Write("Returned to: "@)] + cwd_outs(self@.cwd));
        } else {
            emit_line(&mut out, "Already at root directory (/).");
            assert(outs_view(out@) =~= seq![Out::Println("Already at root directory (/)."@)]);
        }
        out
    }

    /// `list`: prints the names in the working directory.
    fn cmd_list(&self, fs: &FileSystem) -> (out: Vec<ConsoleOp>)
        requires
            fs.wf(),
        ensures
            outs_view(out@) == match directory_listing(*fs, path_text(self@.cwd)) {
                Ok(items) => if items.len() == 0 {
                    seq![Out::Println("Directory is empty."@)]
                } else {
                    seq![
                        Out::SetColor(Color::LightCyan, Color::Black),
                        Out::Println("Name                 Type"@),
                        Out::SetColor(Color::White, Color::Black),
                    ] + rows_outs(items, "<FILE>"@)
                },
                Err(e) => error_outs(e@),
            },
    {
        let mut out: Vec<ConsoleOp> = Vec::new();
        assert(outs_view(out@) =~= Seq::<Out>::empty());
        match fs.list_directory(self.cwd.as_slice()) {
            Ok(items) => {
                if items.len() == 0 {
                    emit_line(&mut out, "Directory is empty.");
                    assert(outs_view(out@) =~= seq![Out::Println("Directory is empty."@)]);
                } else {
                    emit_color(&mut out, Color::LightCyan, Color::Black);
                    emit_line(&mut out, "Name                 Type");
                    emit_color(&mut out, Color::White, Color::Black);
                    emit_rows(&mut out, &items, "<FILE>");
                }
            },
            Err(e) => {
                emit_error(&mut out, e);
                assert(outs_view(out@) =~= error_outs(e@));
            },
        }
        out
    }

    /// `edit`: opens the text of the file named by the first argument in the editor.
    fn cmd_edit(&mut self, fs: &mut FileSystem, ws: &Vec<String>) -> (out: Vec<ConsoleOp>)
        requires
            old(fs).wf(),
            ws@.len() >= 1,
        ensures
            final(fs).wf(),
            edit_spec(old(self)@, final(self)@, *old(fs), *final(fs), segs_view(ws@).skip(1), outs_view(out@)),
    {
        let mut out: Vec<ConsoleOp> = Vec::new();
        proof {
            lemma_segs_view(ws@);
        }
        let ghost args = segs_view(ws@).skip(1);
        assert(outs_view(out@) =~= Seq::<Out>::empty());
        if ws.len() < 2 {
            emit_line(&mut out, "Usage: edit [filename]");
            return out;
        }
        assert(args[0] == ws@[1]@);
        let path_str = ws[1].as_str();
        self.editor_filename = ws[1].clone();
        let res = fs.resolve_path(self.cwd.as_slice(), path_str);
        let (parent, name) = fs.split_parent_and_name(res.as_slice());
        proof {
            lemma_segs_view(res@);
            lemma_segs_view(parent@);
            assert(segs_view(parent@) =~= parent_of(segs_view(res@)));
        }
        match fs.read_file(parent, name) {
            Ok(existing) => {
                self.editor_buffer = crate::text::chars_of(existing.as_str());
            },
            Err(_) => {
                self.editor_buffer = Vec::new();
            },
        }
        self.mode = ShellMode::Editor;
        emit(&mut out, ConsoleOp::Clear);
        emit_color(&mut out, Color::LightCyan, Color::Black);
        emit_text(&mut out, "=== AliluOS Interactive Editor: ");
        emit_text(&mut out, path_str);
        emit_line(&mut out, " ===");
        emit_color(&mut out, Color::White, Color::Black);
        emit_line(&mut out, "Type content below. Commands: Type ':wq' on new line to save & exit, ':q' to exit.\n");
        let shown = string_of(self.editor_buffer.as_slice());
        emit(&mut out, ConsoleOp::Write(shown));
        assert(outs_view(out@) =~= seq![
            Out::Clear,
            Out::SetColor(Color::LightCyan, Color::Black),
            Out::Write("=== AliluOS Interactive Editor: "@),
            Out::Write(args[0]),
            Out::Println(" ==="@),
            Out::SetColor(Color::White, Color::Black),
            Out::Println("Type content below. Commands: Type ':wq' on new line to save & exit, ':q' to exit.\n"@),
            Out::Write(self@.editor_buffer),
        ]);
        out
    }

    /// `tasks`: the quotas of the process and its threads.
    fn cmd_tasks(pm: &mut ProcessControlBlock) -> (out: Vec<ConsoleOp>)
        ensures
            pcb_unchanged(*old(pm), *final(pm)),
            outs_view(out@) == tasks_outs(*old(pm)),
    {
        let mut out: Vec<ConsoleOp> = Vec::new();
        assert(outs_view(out@) =~= Seq::<Out>::empty());
        let ghost pcb = *pm;
        let resp = pm.handle(crate::process::ProcessResourceRequest::GetSystemResourceStats);
        if let crate::process::ProcessResourceResponse::Stats(summary) = resp {
            emit_color(&mut out, Color::LightGreen, Color::Black);
            emit_line(&mut out, "=== SINGLE-PROCESS RESOURCE MANAGER STATS ===");
            emit_color(&mut out, Color::White, Color::Black);
            emit_text(&mut out, "PID: ");
            emit(&mut out, ConsoleOp::Println(decimal_string(summary.process_id as u64)));
            emit_text(&mut out, "Primary Memory Quota: ");
            emit_number(&mut out, (summary.ram_allocated / 1024) as u64);
            emit_text(&mut out, " / ");
            emit_number(&mut out, (summary.ram_quota / 1024) as u64);
            emit_line(&mut out, " KiB");
            emit_text(&mut out, "Secondary Disk Quota: ");
            emit_number(&mut out, (summary.disk_allocated / 1024) as u64);
            emit_text(&mut out, " / ");
            emit_number(&mut out, (summary.disk_quota / 1024) as u64);
            emit_line(&mut out, " KiB");
            emit_text(&mut out, "Network Bandwidth Rate: ");
            emit_number(&mut out, summary.net_bandwidth_limit / 1000);
            emit_line(&mut out, " KB/s");
            emit_color(&mut out, Color::LightCyan, Color::Black);
            emit_line(&mut out, "\n=== KERNEL EXECUTION THREADS (TID 0..10) ===");
            emit_line(&mut out, "TID  NAME                    RING           STATE     STACK");
            emit_color(&mut out, Color::White, Color::Black);
            let ghost head = outs_view(out@);
            let ghost ts = pcb.threads@;
            assert(head + thread_rows_outs(ts.take(0)) =~= head) by {
                assert(ts.take(0) =~= Seq::<ThreadControlBlock>::empty());
            }
            for i in 0..summary.thread_stats.len()
                invariant
                    ts == pcb.threads@,
                    summary.thread_stats@.len() == ts.len(),
                    forall|j: int| 0 <= j < ts.len() ==> crate::thread::stats_of(#[trigger] ts[j], summary.thread_stats@[j]),
                    outs_view(out@) == head + thread_rows_outs(ts.take(i as int)),
            {
                assert(crate::thread::stats_of(ts[i as int], summary.thread_stats@[i as int]));
                emit_thread_row(&mut out, &summary.thread_stats[i]);
                assert(ts.take(i + 1).drop_last() =~= ts.take(i as int));
                assert(outs_view(out@) =~= head + thread_rows_outs(ts.take(i + 1)));
            }
            assert(ts.take(ts.len() as int) =~= ts);
            assert(outs_view(out@) =~= tasks_outs(pcb));
        }
        out
    }

    /// Runs one command line; answers the console output and the game to start.
    fn execute_command(
        &mut self,
        fs: &mut FileSystem,
        pm: &mut ProcessControlBlock,
        cmd_line: &str,
        ticks: u64,
    ) -> (r: (Vec<ConsoleOp>, GameMode))
        requires
            old(fs).wf(),
        ensures
            final(fs).wf(),
            pcb_unchanged(*old(pm), *final(pm)),
            command_spec(old(self)@, final(self)@, *old(fs), *final(fs), *old(pm), cmd_line@, ticks, outs_view(r.0@), r.1),
    {
        proof {
            reveal_strlit("help");
            reveal_strlit("--help");
            reveal_strlit("-h");
            reveal_strlit("play");
            reveal_strlit("clear");
            reveal_strlit("system");
            reveal_strlit("tasks");
            reveal_strlit("directory");
            reveal_strlit("enter");
            reveal_strlit("back");
            reveal_strlit("leave");
            reveal_strlit("up");
            reveal_strlit("cd");
            reveal_strlit("..");
            reveal_strlit("folder");
            reveal_strlit("list");
            reveal_strlit("create");
            reveal_strlit("write");
            reveal_strlit("read");
            reveal_strlit("delete");
            reveal_strlit("edit");
            reveal_strlit("echo");
            reveal_strlit("atari");
            reveal_strlit("chess");
        }
        let mut out: Vec<ConsoleOp> = Vec::new();
        assert(outs_view(out@) =~= Seq::<Out>::empty());
        let ws = split_words(cmd_line);
        proof {
            lemma_segs_view(ws@);
        }
        if ws.len() == 0 {
            return (out, GameMode::Idle);
        }
        let ghost sv = segs_view(ws@);
        let ghost args = sv.skip(1);
        let cmd = ws[0].as_str();
        assert(cmd@ == sv[0]);
        if same_text(cmd, "help") || has_word(ws.as_slice(), 1, "--help") || has_word(ws.as_slice(), 1, "-h") {
            emit_manual(&mut out);
            assert(outs_view(out@) =~= manual_outs());
            return (out, GameMode::Idle);
        }
        if same_text(cmd, "play") {
            if ws.len() < 2 {
                emit_line(&mut out, "Usage: play [atari / chess]");
                return (out, GameMode::Idle);
            }
            assert(args[0] == ws@[1]@);
            if same_text(ws[1].as_str(), "atari") {
                return (out, GameMode::Atari);
            } else if same_text(ws[1].as_str(), "chess") {
                return (out, GameMode::Chess);
            } else {
                emit_line(&mut out, "Unknown game. Choose: atari or chess");
                return (out, GameMode::Idle);
            }
        }
        if same_text(cmd, "clear") {
            emit(&mut out, ConsoleOp::Clear);
            assert(outs_view(out@) =~= seq![Out::Clear]);
        } else if same_text(cmd, "system") {
            emit_system(&mut out, ticks);
            assert(outs_view(out@) =~= system_outs(ticks));
        } else if same_text(cmd, "tasks") {
            out = Self::cmd_tasks(pm);
        } else if same_text(cmd, "directory") {
            emit_cwd(&mut out, self.cwd.as_slice());
            assert(outs_view(out@) =~= cwd_outs(self@.cwd));
        } else if same_text(cmd, "enter") {
            out = self.cmd_enter(fs, &ws);
        } else if same_text(cmd, "back") || same_text(cmd, "leave") || same_text(cmd, "up") || (same_text(cmd, "cd")
            && ws.len() > 1 && same_text(ws[1].as_str(), "..")) {
            out = self.cmd_back();
        } else if same_text(cmd, "folder") {
            out = Self::cmd_make(fs, self.cwd.as_slice(), &ws, true, ticks);
        } else if same_text(cmd, "list") {
            out = self.cmd_list(fs);
        } else if same_text(cmd, "create") {
            out = Self::cmd_make(fs, self.cwd.as_slice(), &ws, false, ticks);
        } else if same_text(cmd, "write") {
            out = Self::cmd_write(fs, self.cwd.as_slice(), &ws, ticks);
        } else if same_text(cmd, "read") {
            out = Self::cmd_read(fs, self.cwd.as_slice(), &ws);
        } else if same_text(cmd, "delete") {
            out = Self::cmd_delete(fs, self.cwd.as_slice(), &ws);
        } else if same_text(cmd, "edit") {
            out = self.cmd_edit(fs, &ws);
        } else if same_text(cmd, "echo") {
            let text = join_words(ws.as_slice(), 1);
            emit(&mut out, ConsoleOp::Println(text));
            assert(outs_view(out@) =~= seq![Out::Println(joined_words(args))]);
        } else {
            emit_color(&mut out, Color::LightRed, Color::Black);
            emit_text(&mut out, "Unknown command: '");
            emit_text(&mut out, cmd);
            emit_line(&mut out, "'. Type 'help' for manual.");
            emit_color(&mut out, Color::White, Color::Black);
            assert(outs_view(out@) =~= seq![
                Out::SetColor(Color::LightRed, Color::Black),
                Out::Write("Unknown command: '"@),
                Out::Write(sv[0]),
                Out::Println("'. Type 'help' for manual."@),
                Out::SetColor(Color::White, Color::Black),
            ]);
        }
        (out, GameMode::Idle)
    }

    /// Enter in the editor.
    fn editor_enter(&mut self, fs: &mut FileSystem, ticks: u64) -> (out: Vec<ConsoleOp>)
        requires
            old(fs).wf(),
            old(self)@.mode == ShellMode::Editor,
        ensures
            final(fs).wf(),
            editor_enter_spec(old(self)@, final(self)@, *old(fs), *final(fs), ticks, outs_view(out@)),
    {
        let mut out: Vec<ConsoleOp> = Vec::new();
        assert(outs_view(out@) =~= Seq::<Out>::empty());
        let ghost text = self.editor_buffer@;
        match last_line_bounds(&self.editor_buffer) {
            None => {
                self.editor_buffer.push('\n');
            },
            Some((a, b)) => {
                let ghost line = text.subrange(a as int, b as int);
                assert(last_line(text) == Some(line));
                let (ta, tb) = trim_bounds(&self.editor_buffer, a, b);
                assert(text.subrange(ta as int, tb as int) == trim(line));
                if chars_equal(&self.editor_buffer, ta, tb, ":wq") {
                    let line_chars = crate::text::chars_slice(self.editor_buffer.as_slice(), a, b);
                    let line_text = string_of(line_chars.as_slice());
                    let k = line_text.as_str().as_bytes().len();
                    let n = self.editor_buffer.len();
                    let keep = if k < n { n - k } else { 0 };
                    self.editor_buffer.truncate(keep);
                    let res = fs.resolve_path(self.cwd.as_slice(), self.editor_filename.as_str());
                    let (parent, name) = fs.split_parent_and_name(res.as_slice());
                    proof {
                        lemma_segs_view(res@);
                        lemma_segs_view(parent@);
                    }
                    if name.is_empty() {
                        emit_line(&mut out, "Error: Invalid filename");
                        assert(outs_view(out@) =~= seq![Out::Println("Error: Invalid filename"@)]);
                    } else {
                        assert(segs_view(parent@) =~= parent_of(segs_view(res@)));
                        let content_text = string_of(self.editor_buffer.as_slice());
                        let wr = fs.write_file(parent, name, content_text.as_str(), ticks);
                        match wr {
                            Ok(_) => {
                                emit_color(&mut out, Color::LightGreen, Color::Black);
                                emit_line(&mut out, "\nFile saved successfully.");
                            },
                            Err(e) => {
                                emit_color(&mut out, Color::LightRed, Color::Black);
                                emit_line(&mut out, e);
                            },
                        }
                        assert(outs_view(out@) =~= save_outs(wr));
                    }
                    let ghost reported = outs_view(out@);
                    emit_color(&mut out, Color::White, Color::Black);
                    self.mode = ShellMode::Command;
                    self.editor_buffer = Vec::new();
                    self.editor_filename = String::new();
                    emit_text(&mut out, "> ");
                    assert(outs_view(out@) =~= reported + prompt_outs());
                    assert(self@ == editor_closed(old(self)@));
                } else if chars_equal(&self.editor_buffer, ta, tb, ":q") {
                    emit_color(&mut out, Color::Yellow, Color::Black);
                    emit_line(&mut out, "\nExited without saving.");
                    emit_color(&mut out, Color::White, Color::Black);
                    self.mode = ShellMode::Command;
                    self.editor_buffer = Vec::new();
                    self.editor_filename = String::new();
                    emit_text(&mut out, "> ");
                    assert(outs_view(out@) =~= seq![
                        Out::SetColor(Color::Yellow, Color::Black),
                        Out::Println("\nExited without saving."@),
                    ] + prompt_outs());
                    assert(self@ == editor_closed(old(self)@));
                } else {
                    self.editor_buffer.push('\n');
                }
            },
        }
        out
    }

    /// Enter: runs the command line (starting a game when asked) and shows
    /// the prompt again while at the command line, or in the editor saves,
    /// quits or breaks the line; nothing else in the help viewer.
    pub fn handle_enter(
        &mut self,
        vga: &mut VGA,
        fs: &mut FileSystem,
        pm: &mut ProcessControlBlock,
        game: &mut GameEngine,
        ticks: u64,
    )
        requires
            old(vga).inv(),
            old(fs).wf(),
        ensures
            final(vga).inv(),
            final(fs).wf(),
            pcb_unchanged(*old(pm), *final(pm)),
            enter_effect(old(self)@, final(self)@, *old(fs), *final(fs), *old(pm), *old(game), *final(game), ticks, old(vga)@, final(vga)@),
    {
        let mut out: Vec<ConsoleOp> = Vec::new();
        emit(&mut out, ConsoleOp::PutChar('\n'));
        assert(outs_view(out@) =~= seq![Out::PutChar('\n')]);
        match self.mode {
            ShellMode::Command => {
                let line = string_of(self.buffer.as_slice());
                self.buffer = Vec::new();
                let ghost cleared = self@;
                assert(cleared == line_taken(old(self)@));
                let (cmd_out, started) = self.execute_command(fs, pm, line.as_str(), ticks);
                let ghost o = outs_view(cmd_out@);
                assert(command_spec(cleared, self@, *old(fs), *fs, *old(pm), old(self)@.buffer, ticks, o, started));
                let ghost before = outs_view(out@);
                let mut cmd_out = cmd_out;
                out.append(&mut cmd_out);
                proof {
                    crate::console::lemma_outs_view(out@);
                    crate::console::lemma_outs_view(cmd_out@);
                }
                assert(outs_view(out@) =~= before + o);
                show(vga, &out);
                match started {
                    GameMode::Atari => game.start_atari(vga),
                    GameMode::Chess => game.start_chess(vga),
                    GameMode::Idle => {},
                }
                match self.mode {
                    ShellMode::Command => vga.write("> "),
                    _ => {},
                }
            },
            ShellMode::Editor => {
                let mut ed_out = self.editor_enter(fs, ticks);
                let ghost o = outs_view(ed_out@);
                assert(editor_enter_spec(old(self)@, self@, *old(fs), *fs, ticks, o));
                out.append(&mut ed_out);
                proof {
                    crate::console::lemma_outs_view(out@);
                    crate::console::lemma_outs_view(ed_out@);
                }
                assert(outs_view(out@) =~= seq![Out::PutChar('\n')] + o);
                show(vga, &out);
            },
            ShellMode::HelpViewer => {
                show(vga, &out);
            },
        }
    }
}

} // verus!