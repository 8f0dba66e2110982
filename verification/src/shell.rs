//! Interactive shell: the command line buffer, the text editor and the help
//! viewer, and the commands that act on the filesystem. Each handler states
//! the console output it produces as a list of console operations.
use vstd::prelude::*;
use vstd::utf8::encode_utf8;
use vstd::string::StringSliceAdditionalSpecFns;
use crate::console::{
    ConsoleOp, Out, apply_outs, decimal, decimal_string, emit, emit_color, emit_line, emit_text, is_white,
    join_words, joined_words, outs_view, show, split_words, white, words,
};
use crate::fs::{
    FileSystem, create_result, delete_result, directory_exists, directory_listing, directory_meta,
    empty_file_meta, entry_created, file_read, file_text, file_written, node_deleted, path_text, resolved, segs_view,
    write_result, lemma_segs_view,
};
use crate::text::{same_text, string_of};
use crate::vga::{Color, VGA};

verus! {

/// What keystrokes currently drive.
#[derive(Clone, Copy, PartialEq, Eq, Structural)]
pub enum ShellMode {
    Command,
    Editor,
    HelpViewer,
}

/// What the caller runs after a command: nothing, or a full-screen program.
#[derive(Clone, Copy, PartialEq, Eq, Structural)]
pub enum ShellRequest {
    Continue,
    PlayAtari,
    PlayChess,
    Draw,
}

/// Abstract shell state.
pub struct ShellView {
    pub buffer: Seq<char>,
    pub mode: ShellMode,
    pub editor_filename: Seq<char>,
    pub editor_buffer: Seq<char>,
    pub cwd: Seq<Seq<char>>,
}

/// Console operations reporting an error message in red.
pub open spec fn error_outs(msg: Seq<char>) -> Seq<Out> {
    seq![Out::SetColor(Color::LightRed, Color::Black), Out::Println(msg), Out::SetColor(Color::White, Color::Black)]
}

/// Console operations reporting the outcome of a filesystem change.
pub open spec fn report(r: Result<(), &'static str>, ok_text: Seq<char>) -> Seq<Out> {
    match r {
        Ok(_) => seq![Out::Println(ok_text)],
        Err(e) => error_outs(e@),
    }
}

/// Screen of the help viewer.
pub open spec fn help_outs() -> Seq<Out> {
    seq![
        Out::Clear,
        Out::SetColor(Color::LightCyan, Color::Black),
        Out::Println("========================================================================"@),
        Out::Println("                    AliluOS INTERACTIVE HELP VIEWER                     "@),
        Out::Println("========================================================================"@),
        Out::SetColor(Color::White, Color::Black),
        Out::Println(""@),
        Out::Println("  help                       - Launch this interactive help viewer"@),
        Out::Println("  clear                      - Clear display screen"@),
        Out::Println("  system                     - Display system specs, memory & timer stats"@),
        Out::Println("  tasks                      - List active kernel CPU tasks"@),
        Out::Println("  list                       - List files/folders (B-Tree sorted)"@),
        Out::Println("  directory                  - Print current working directory path"@),
        Out::Println("  enter [path]               - Change current working directory"@),
        Out::Println("  folder [name]              - Create a new directory folder in B-Tree"@),
        Out::Println("  create [file]              - Create a new file in B-Tree index"@),
        Out::Println("  write [file] [text]        - Write text content to a file"@),
        Out::Println("  read [file]                - View file contents from B-Tree index"@),
        Out::Println("  delete [file/folder]       - Delete a file or folder from B-Tree index"@),
        Out::Println("  edit [file]                - Open interactive text editor"@),
        Out::Println("  play [atari / chess]       - Launch built-in text game"@),
        Out::Println("  draw                       - Launch drawing canvas tool"@),
        Out::Println("  echo [text]                - Print text back to screen"@),
        Out::Println(""@),
        Out::SetColor(Color::Yellow, Color::Black),
        Out::Println("------------------------------------------------------------------------"@),
        Out::Println("  Press [Escape] to close Help Viewer and return to Command Line Prompt"@),
        Out::Println("------------------------------------------------------------------------"@),
        Out::SetColor(Color::White, Color::Black),
    ]
}

/// Output of `system` at tick `ticks`.
pub open spec fn system_outs(ticks: u64) -> Seq<Out> {
    seq![
        Out::SetColor(Color::LightGreen, Color::Black),
        Out::Println("--- AliluOS System Info ---"@),
        Out::SetColor(Color::White, Color::Black),
        Out::Println("OS Name: AliluOS (ಅಳಿಲು)"@),
        Out::Println("Architecture: x86_64 Bare-Metal"@),
        Out::Println("Platform: Standard PC compatible"@),
        Out::Println("Heap Status: 100 KiB initialized"@),
        Out::Println("Filesystem: B-Tree Indexed Hierarchy"@),
        Out::Write("Uptime: "@),
        Out::Write("seconds: "@),
        Out::Println(decimal((ticks / 100) as nat)),
    ]
}

/// Output of `tasks`.
pub open spec fn tasks_outs() -> Seq<Out> {
    seq![
        Out::SetColor(Color::LightGreen, Color::Black),
        Out::Println("--- Active Kernel Tasks ---"@),
        Out::SetColor(Color::White, Color::Black),
        Out::Println("PID   NAME         STATUS"@),
        Out::Println("0     idle_loop    RUNNING"@),
        Out::Println("1     shell_cli    RUNNING"@),
    ]
}

/// "/" and the segment, for each segment.
pub open spec fn segment_outs(cwd: Seq<Seq<char>>) -> Seq<Out>
    decreases cwd.len(),
{
    if cwd.len() == 0 {
        Seq::empty()
    } else {
        segment_outs(cwd.drop_last()) + seq![Out::Write("/"@), Out::Write(cwd.last())]
    }
}

/// Output printing the working directory.
pub open spec fn cwd_outs(cwd: Seq<Seq<char>>) -> Seq<Out> {
    if cwd.len() == 0 {
        seq![Out::Println("/"@)]
    } else {
        segment_outs(cwd) + seq![Out::Println(""@)]
    }
}

/// `n` spaces.
pub open spec fn spaces(n: nat) -> Seq<char> {
    Seq::new(n, |i: int| ' ')
}

/// Spaces after a listed name: 20 minus its byte length, at least one.
pub open spec fn name_padding(name: Seq<char>) -> nat {
    let n = encode_utf8(name).len();
    (20 - if n < 19 { n } else { 19 }) as nat
}

/// Output of one listed name.
pub open spec fn row_outs(name: Seq<char>, is_dir: bool, file_label: Seq<char>) -> Seq<Out> {
    let head = seq![Out::Write(name + spaces(name_padding(name)))];
    if is_dir {
        head + seq![Out::SetColor(Color::LightBlue, Color::Black), Out::Println("<DIR>"@), Out::SetColor(Color::White, Color::Black)]
    } else {
        head + seq![Out::Println(file_label)]
    }
}

/// Output of the listed names.
pub open spec fn rows_outs(items: Seq<(Seq<char>, bool)>, file_label: Seq<char>) -> Seq<Out>
    decreases items.len(),
{
    if items.len() == 0 {
        Seq::empty()
    } else {
        rows_outs(items.drop_last(), file_label) + row_outs(items.last().0, items.last().1, file_label)
    }
}

/// The texts of the lines ended by the outputs, in order.
pub open spec fn lines_printed(outs: Seq<Out>) -> Seq<Seq<char>>
    decreases outs.len(),
{
    if outs.len() == 0 {
        Seq::empty()
    } else {
        let prev = lines_printed(outs.drop_last());
        match outs.last() {
            Out::Println(s) => prev.push(s),
            _ => prev,
        }
    }
}

proof fn lemma_lines_printed_concat(a: Seq<Out>, b: Seq<Out>)
    ensures
        lines_printed(a + b) == lines_printed(a) + lines_printed(b),
    decreases b.len(),
{
    if b.len() == 0 {
        assert(a + b =~= a);
        assert(lines_printed(a) + lines_printed(b) =~= lines_printed(a));
    } else {
        lemma_lines_printed_concat(a, b.drop_last());
        assert((a + b).drop_last() =~= a + b.drop_last());
        assert((a + b).last() == b.last());
        match b.last() {
            Out::Println(s) => {
                assert(lines_printed(a) + lines_printed(b) =~= (lines_printed(a) + lines_printed(b.drop_last())).push(s));
            },
            _ => {},
        }
    }
}

proof fn lemma_lines_single(o: Out)
    ensures
        lines_printed(seq![o]) == match o {
            Out::Println(s) => seq![s],
            _ => Seq::<Seq<char>>::empty(),
        },
{
    assert(seq![o].drop_last() =~= Seq::<Out>::empty());
    assert(seq![o].last() == o);
    assert(lines_printed(Seq::<Out>::empty()) == Seq::<Seq<char>>::empty());
    match o {
        Out::Println(s) => {
            assert(Seq::<Seq<char>>::empty().push(s) =~= seq![s]);
        },
        _ => {},
    }
}

/// Each listed name gets one line, in order, labelled "<DIR>" exactly when
/// the entry is a directory and with the file label otherwise.
pub proof fn lemma_rows_label_kinds(items: Seq<(Seq<char>, bool)>, file_label: Seq<char>)
    ensures
        lines_printed(rows_outs(items, file_label)).len() == items.len(),
        forall|k: int| 0 <= k < items.len() ==> #[trigger] lines_printed(rows_outs(items, file_label))[k]
            == if items[k].1 { "<DIR>"@ } else { file_label },
    decreases items.len(),
{
    if items.len() > 0 {
        let init = items.drop_last();
        let last = items.last();
        lemma_rows_label_kinds(init, file_label);
        let r = row_outs(last.0, last.1, file_label);
        lemma_lines_printed_concat(rows_outs(init, file_label), r);
        let head = seq![Out::Write(last.0 + spaces(name_padding(last.0)))];
        lemma_lines_single(Out::Write(last.0 + spaces(name_padding(last.0))));
        if last.1 {
            let a = seq![Out::SetColor(Color::LightBlue, Color::Black)];
            let b = seq![Out::Println("<DIR>"@)];
            let c = seq![Out::SetColor(Color::White, Color::Black)];
            lemma_lines_single(Out::SetColor(Color::LightBlue, Color::Black));
            lemma_lines_single(Out::Println("<DIR>"@));
            lemma_lines_single(Out::SetColor(Color::White, Color::Black));
            lemma_lines_printed_concat(head, a);
            lemma_lines_printed_concat(head + a, b);
            lemma_lines_printed_concat(head + a + b, c);
            assert(r =~= head + a + b + c);
            assert(lines_printed(r) =~= seq!["<DIR>"@]);
        } else {
            let b = seq![Out::Println(file_label)];
            lemma_lines_single(Out::Println(file_label));
            lemma_lines_printed_concat(head, b);
            assert(r =~= head + b);
            assert(lines_printed(r) =~= seq![file_label]);
        }
        let lp = lines_printed(rows_outs(items, file_label));
        assert forall|k: int| 0 <= k < items.len() implies #[trigger] lp[k]
            == if items[k].1 { "<DIR>"@ } else { file_label } by {
            if k < init.len() {
                assert(items[k] == init[k]);
            }
        }
    }
}

/// The finished lines and the line in progress once the outputs are shown:
/// written text extends the current line, a printed text ends it.
pub open spec fn rendered(outs: Seq<Out>) -> (Seq<Seq<char>>, Seq<char>)
    decreases outs.len(),
{
    if outs.len() == 0 {
        (Seq::empty(), Seq::empty())
    } else {
        let (ls, cur) = rendered(outs.drop_last());
        match outs.last() {
            Out::Write(s) => (ls, cur + s),
            Out::Println(s) => (ls.push(cur + s), Seq::empty()),
            _ => (ls, cur),
        }
    }
}

proof fn lemma_rendered_concat(a: Seq<Out>, b: Seq<Out>)
    requires
        rendered(a).1 == Seq::<char>::empty(),
    ensures
        rendered(a + b) == (rendered(a).0 + rendered(b).0, rendered(b).1),
    decreases b.len(),
{
    if b.len() == 0 {
        assert(a + b =~= a);
        assert(rendered(a).0 + rendered(b).0 =~= rendered(a).0);
    } else {
        lemma_rendered_concat(a, b.drop_last());
        assert((a + b).drop_last() =~= a + b.drop_last());
        assert((a + b).last() == b.last());
        let (lb, cb) = rendered(b.drop_last());
        match b.last() {
            Out::Println(s) => {
                assert(rendered(a).0 + lb.push(cb + s) =~= (rendered(a).0 + lb).push(cb + s));
            },
            _ => {},
        }
    }
}

/// Each listed name is shown on a line of its own, in order: the name, at
/// least one space (padding names shorter than 20 bytes to 20), then
/// "<DIR>" for a directory or the file label otherwise; no line is left open.
pub proof fn lemma_rows_render_lines(items: Seq<(Seq<char>, bool)>, file_label: Seq<char>)
    ensures
        rendered(rows_outs(items, file_label)).1 == Seq::<char>::empty(),
        rendered(rows_outs(items, file_label)).0.len() == items.len(),
        forall|k: int| 0 <= k < items.len() ==> {
            let name = items[k].0;
            let pad = name_padding(name);
            &&& #[trigger] rendered(rows_outs(items, file_label)).0[k] == name + spaces(pad) + if items[k].1 {
                "<DIR>"@
            } else {
                file_label
            }
            &&& pad >= 1
            &&& encode_utf8(name).len() < 20 ==> encode_utf8(name).len() + pad == 20
        },
    decreases items.len(),
{
    if items.len() == 0 {
        assert(rendered(rows_outs(items, file_label)) == (Seq::<Seq<char>>::empty(), Seq::<char>::empty()));
    } else {
        let init = items.drop_last();
        let last = items.last();
        lemma_rows_render_lines(init, file_label);
        let r = row_outs(last.0, last.1, file_label);
        let w = Out::Write(last.0 + spaces(name_padding(last.0)));
        let lbl = if last.1 { "<DIR>"@ } else { file_label };
        let line = last.0 + spaces(name_padding(last.0)) + lbl;
        assert(rendered(Seq::<Out>::empty()) == (Seq::<Seq<char>>::empty(), Seq::<char>::empty()));
        assert(rendered(seq![w]) == (Seq::<Seq<char>>::empty(), last.0 + spaces(name_padding(last.0)))) by {
            assert(seq![w].drop_last() =~= Seq::<Out>::empty());
            assert(Seq::<char>::empty() + (last.0 + spaces(name_padding(last.0))) =~= last.0 + spaces(name_padding(last.0)));
        }
        if last.1 {
            let s1 = seq![w, Out::SetColor(Color::LightBlue, Color::Black)];
            let s2 = s1.push(Out::Println("<DIR>"@));
            let s3 = s2.push(Out::SetColor(Color::White, Color::Black));
            assert(s1.drop_last() =~= seq![w]);
            assert(s2.drop_last() =~= s1);
            assert(s3.drop_last() =~= s2);
            assert(r =~= s3);
            assert(rendered(s1) == rendered(seq![w]));
            assert(rendered(s2) == (seq![line], Seq::<char>::empty())) by {
                assert(Seq::<Seq<char>>::empty().push(line) =~= seq![line]);
            }
            assert(rendered(s3) == rendered(s2));
        } else {
            let s2 = seq![w].push(Out::Println(file_label));
            assert(s2.drop_last() =~= seq![w]);
            assert(r =~= s2);
            assert(rendered(s2) == (seq![line], Seq::<char>::empty())) by {
                assert(Seq::<Seq<char>>::empty().push(line) =~= seq![line]);
            }
        }
        lemma_rendered_concat(rows_outs(init, file_label), r);
        let ls = rendered(rows_outs(items, file_label)).0;
        assert forall|k: int| 0 <= k < items.len() implies {
            let name = items[k].0;
            let pad = name_padding(name);
            &&& #[trigger] ls[k] == name + spaces(pad) + if items[k].1 {
                "<DIR>"@
            } else {
                file_label
            }
            &&& pad >= 1
            &&& encode_utf8(name).len() < 20 ==> encode_utf8(name).len() + pad == 20
        } by {
            if k < init.len() {
                assert(items[k] == init[k]);
            }
        }
    }
}

/// Output of `list` in the directory `cwd`.
pub open spec fn list_outs(fs: FileSystem, cwd: Seq<Seq<char>>) -> Seq<Out> {
    match directory_listing(fs, path_text(cwd)) {
        Ok(items) => if items.len() == 0 {
            seq![Out::Println("Directory is empty."@)]
        } else {
            seq![
                Out::SetColor(Color::LightCyan, Color::Black),
                Out::Println("Name                 Type"@),
                Out::SetColor(Color::White, Color::Black),
            ] + rows_outs(items, "File"@)
        },
        Err(e) => error_outs(e@),
    }
}

pub(crate) fn emit_error(out: &mut Vec<ConsoleOp>, msg: &str)
    ensures
        outs_view(final(out)@) == outs_view(old(out)@) + error_outs(msg@),
{
    let ghost start = outs_view(out@);
    emit_color(out, Color::LightRed, Color::Black);
    emit_line(out, msg);
    emit_color(out, Color::White, Color::Black);
    assert(outs_view(out@) =~= start + error_outs(msg@));
}

pub(crate) fn emit_report(out: &mut Vec<ConsoleOp>, r: Result<(), &'static str>, ok_text: &str)
    ensures
        outs_view(final(out)@) == outs_view(old(out)@) + report(r, ok_text@),
{
    let ghost start = outs_view(out@);
    match r {
        Ok(_) => {
            emit_line(out, ok_text);
            assert(outs_view(out@) =~= start + report(r, ok_text@));
        },
        Err(e) => emit_error(out, e),
    }
}

fn emit_help(out: &mut Vec<ConsoleOp>)
    ensures
        outs_view(final(out)@) == outs_view(old(out)@) + help_outs(),
{
    let ghost start = outs_view(out@);
    emit(out, ConsoleOp::Clear);
    emit_color(out, Color::LightCyan, Color::Black);
    emit_line(out, "========================================================================");
    emit_line(out, "                    AliluOS INTERACTIVE HELP VIEWER                     ");
    emit_line(out, "========================================================================");
    emit_color(out, Color::White, Color::Black);
    emit_line(out, "");
    emit_line(out, "  help                       - Launch this interactive help viewer");
    emit_line(out, "  clear                      - Clear display screen");
    emit_line(out, "  system                     - Display system specs, memory & timer stats");
    emit_line(out, "  tasks                      - List active kernel CPU tasks");
    emit_line(out, "  list                       - List files/folders (B-Tree sorted)");
    emit_line(out, "  directory                  - Print current working directory path");
    emit_line(out, "  enter [path]               - Change current working directory");
    emit_line(out, "  folder [name]              - Create a new directory folder in B-Tree");
    emit_line(out, "  create [file]              - Create a new file in B-Tree index");
    emit_line(out, "  write [file] [text]        - Write text content to a file");
    emit_line(out, "  read [file]                - View file contents from B-Tree index");
    emit_line(out, "  delete [file/folder]       - Delete a file or folder from B-Tree index");
    emit_line(out, "  edit [file]                - Open interactive text editor");
    emit_line(out, "  play [atari / chess]       - Launch built-in text game");
    emit_line(out, "  draw                       - Launch drawing canvas tool");
    emit_line(out, "  echo [text]                - Print text back to screen");
    emit_line(out, "");
    emit_color(out, Color::Yellow, Color::Black);
    emit_line(out, "------------------------------------------------------------------------");
    emit_line(out, "  Press [Escape] to close Help Viewer and return to Command Line Prompt");
    emit_line(out, "------------------------------------------------------------------------");
    emit_color(out, Color::White, Color::Black);
    assert(outs_view(out@) =~= start + help_outs());
}

fn emit_system(out: &mut Vec<ConsoleOp>, ticks: u64)
    ensures
        outs_view(final(out)@) == outs_view(old(out)@) + system_outs(ticks),
{
    let ghost start = outs_view(out@);
    emit_color(out, Color::LightGreen, Color::Black);
    emit_line(out, "--- AliluOS System Info ---");
    emit_color(out, Color::White, Color::Black);
    emit_line(out, "OS Name: AliluOS (ಅಳಿಲು)");
    emit_line(out, "Architecture: x86_64 Bare-Metal");
    emit_line(out, "Platform: Standard PC compatible");
    emit_line(out, "Heap Status: 100 KiB initialized");
    emit_line(out, "Filesystem: B-Tree Indexed Hierarchy");
    emit_text(out, "Uptime: ");
    let seconds = ticks / 100;
    emit_text(out, "seconds: ");
    let digits = decimal_string(seconds);
    emit(out, ConsoleOp::Println(digits));
    assert(outs_view(out@) =~= start + system_outs(ticks));
}

fn emit_tasks(out: &mut Vec<ConsoleOp>)
    ensures
        outs_view(final(out)@) == outs_view(old(out)@) + tasks_outs(),
{
    let ghost start = outs_view(out@);
    emit_color(out, Color::LightGreen, Color::Black);
    emit_line(out, "--- Active Kernel Tasks ---");
    emit_color(out, Color::White, Color::Black);
    emit_line(out, "PID   NAME         STATUS");
    emit_line(out, "0     idle_loop    RUNNING");
    emit_line(out, "1     shell_cli    RUNNING");
    assert(outs_view(out@) =~= start + tasks_outs());
}

/// Appends the output printing the working directory `cwd`.
pub fn emit_cwd(out: &mut Vec<ConsoleOp>, cwd: &[String])
    ensures
        outs_view(final(out)@) == outs_view(old(out)@) + cwd_outs(segs_view(cwd@)),
{
    let ghost start = outs_view(out@);
    let ghost sv = segs_view(cwd@);
    proof {
        lemma_segs_view(cwd@);
    }
    if cwd.len() == 0 {
        emit_line(out, "/");
        assert(outs_view(out@) =~= start + cwd_outs(sv));
        return;
    }
    assert(sv.take(0) =~= Seq::<Seq<char>>::empty());
    assert(start + segment_outs(sv.take(0)) =~= start);
    for i in 0..cwd.len()
        invariant
            sv == segs_view(cwd@),
            sv.len() == cwd@.len(),
            forall|k: int| 0 <= k < cwd@.len() ==> #[trigger] sv[k] == cwd@[k]@,
            outs_view(out@) == start + segment_outs(sv.take(i as int)),
    {
        emit_text(out, "/");
        emit_text(out, cwd[i].as_str());
        assert(sv.take(i + 1).drop_last() =~= sv.take(i as int));
        assert(outs_view(out@) =~= start + segment_outs(sv.take(i + 1)));
    }
    assert(sv.take(sv.len() as int) =~= sv);
    emit_line(out, "");
    assert(outs_view(out@) =~= start + cwd_outs(sv));
}

/// Whether `w` is among `ws[from..]`.
pub(crate) fn has_word(ws: &[String], from: usize, w: &str) -> (r: bool)
    requires
        from <= ws@.len(),
    ensures
        r == segs_view(ws@).skip(from as int).contains(w@),
{
    let ghost sv = segs_view(ws@);
    proof {
        lemma_segs_view(ws@);
    }
    let mut i = from;
    while i < ws.len()
        invariant
            from <= i <= ws@.len(),
            sv == segs_view(ws@),
            sv.len() == ws@.len(),
            forall|k: int| 0 <= k < ws@.len() ==> #[trigger] sv[k] == ws@[k]@,
            forall|k: int| from <= k < i ==> sv[k] != w@,
        decreases ws@.len() - i,
    {
        if same_text(ws[i].as_str(), w) {
            assert(sv.skip(from as int)[i - from] == w@);
            return true;
        }
        i = i + 1;
    }
    assert forall|k: int| 0 <= k < sv.skip(from as int).len() implies sv.skip(from as int)[k] != w@ by {
        assert(sv.skip(from as int)[k] == sv[k + from]);
    }
    false
}


/// Appends the output of the listed names.
pub(crate) fn emit_rows(out: &mut Vec<ConsoleOp>, items: &Vec<(String, bool)>, file_label: &str)
    ensures
        outs_view(final(out)@) == outs_view(old(out)@) + rows_outs(crate::btree::names_view(items@), file_label@),
{
    let ghost start = outs_view(out@);
    let ghost nv = crate::btree::names_view(items@);
    assert(nv.len() == items@.len());
    assert(nv.take(0) =~= Seq::<(Seq<char>, bool)>::empty());
    assert(start + rows_outs(nv.take(0), file_label@) =~= start);
    for i in 0..items.len()
        invariant
            nv == crate::btree::names_view(items@),
            nv.len() == items@.len(),
            outs_view(out@) == start + rows_outs(nv.take(i as int), file_label@),
    {
        let name = &items[i].0;
        let is_dir = items[i].1;
        assert(nv[i as int] == (name@, is_dir));
        let n = name.as_str().as_bytes().len();
        let pad: usize = 20 - if n < 19 { n } else { 19 };
        let mut text = String::new();
        crate::text::push_text(&mut text, name.as_str());
        let mut k: usize = 0;
        while k < pad
            invariant
                k <= pad,
                text@ == name@ + spaces(k as nat),
            decreases pad - k,
        {
            crate::text::push_char(&mut text, ' ');
            k = k + 1;
            assert(text@ =~= name@ + spaces(k as nat));
        }
        assert(pad == name_padding(name@));
        let ghost before = outs_view(out@);
        emit_text(out, text.as_str());
        if is_dir {
            emit_color(out, Color::LightBlue, Color::Black);
            emit_line(out, "<DIR>");
            emit_color(out, Color::White, Color::Black);
        } else {
            emit_line(out, file_label);
        }
        assert(outs_view(out@) =~= before + row_outs(name@, is_dir, file_label@));
        assert(nv.take(i + 1).drop_last() =~= nv.take(i as int));
        assert(outs_view(out@) =~= start + rows_outs(nv.take(i + 1), file_label@));
    }
    assert(nv.take(nv.len() as int) =~= nv);
}

/// Output of `edit` once the file is open.
pub open spec fn editor_outs(name: Seq<char>, content: Seq<char>) -> Seq<Out> {
    seq![
        Out::Clear,
        Out::SetColor(Color::LightCyan, Color::Black),
        Out::Write("--- Editing File: "@),
        Out::Write(name),
        Out::Println(" ---"@),
        Out::Println("Type your text below. Type ':wq' on a new line and press Enter to save and exit, or ':q' to exit without saving."@),
        Out::Println("------------------------------------------------------------------------"@),
        Out::SetColor(Color::White, Color::Black),
        Out::Write(content),
    ]
}

/// Effect of `enter`.
pub open spec fn enter_spec(sh: ShellView, new_sh: ShellView, fs: FileSystem, args: Seq<Seq<char>>, outs: Seq<Out>) -> bool {
    if args.len() == 0 {
        new_sh == sh && outs == seq![Out::Println("Usage: enter [path]"@)]
    } else {
        let res = resolved(sh.cwd, args[0]);
        if directory_exists(fs, path_text(res)) {
            new_sh == (ShellView { cwd: res, ..sh }) && outs.len() == 0
        } else {
            new_sh == sh && outs == error_outs("Error: Directory not found."@)
        }
    }
}

/// Effect of a command creating an entry (`folder`, `create`).
pub open spec fn create_spec(
    cwd: Seq<Seq<char>>,
    fs: FileSystem,
    new_fs: FileSystem,
    args: Seq<Seq<char>>,
    meta: crate::btree::MetaView,
    usage: Seq<char>,
    invalid: Seq<char>,
    done: Seq<char>,
    outs: Seq<Out>,
) -> bool {
    if args.len() == 0 {
        new_fs == fs && outs == seq![Out::Println(usage)]
    } else {
        let res = resolved(cwd, args[0]);
        if res.len() == 0 {
            new_fs == fs && outs == seq![Out::Println(invalid)]
        } else {
            entry_created(fs, new_fs, path_text(res), meta) && outs == report(create_result(fs, path_text(res)), done)
        }
    }
}

/// Effect of `write`.
pub open spec fn write_spec(cwd: Seq<Seq<char>>, fs: FileSystem, new_fs: FileSystem, args: Seq<Seq<char>>, ticks: u64, outs: Seq<Out>) -> bool {
    if args.len() < 2 {
        new_fs == fs && outs == seq![Out::Println("Usage: write [filename] [text]"@)]
    } else {
        let res = resolved(cwd, args[0]);
        let bytes = encode_utf8(joined_words(args.skip(1)));
        if res.len() == 0 {
            new_fs == fs && outs == seq![Out::Println("Error: Invalid filename"@)]
        } else {
            file_written(fs, new_fs, path_text(res), bytes, ticks)
                && outs == report(write_result(fs, path_text(res), bytes), "Text written to file in B-Tree index."@)
        }
    }
}

/// Effect of `read`.
pub open spec fn read_spec(cwd: Seq<Seq<char>>, fs: FileSystem, new_fs: FileSystem, args: Seq<Seq<char>>, outs: Seq<Out>) -> bool {
    if args.len() == 0 {
        new_fs == fs && outs == seq![Out::Println("Usage: read [filename]"@)]
    } else {
        let res = resolved(cwd, args[0]);
        if res.len() == 0 {
            new_fs == fs && outs == seq![Out::Println("Error: Invalid filename"@)]
        } else {
            file_read(fs, new_fs, path_text(res)) && outs == match file_text(fs, path_text(res)) {
                Ok(t) => seq![Out::Println("--- Content ---"@), Out::Println(t), Out::Println("---------------"@)],
                Err(e) => error_outs(e@),
            }
        }
    }
}

/// Effect of `delete`.
pub open spec fn delete_spec(cwd: Seq<Seq<char>>, fs: FileSystem, new_fs: FileSystem, args: Seq<Seq<char>>, outs: Seq<Out>) -> bool {
    if args.len() == 0 {
        new_fs == fs && outs == seq![Out::Println("Usage: delete [filename/folder]"@)]
    } else {
        let res = resolved(cwd, args[0]);
        if res.len() == 0 {
            new_fs == fs && outs == seq![Out::Println("Error: Invalid target"@)]
        } else {
            node_deleted(fs, new_fs, path_text(res))
                && outs == report(delete_result(fs, path_text(res)), "Target deleted successfully from B-Tree index."@)
        }
    }
}

/// Effect of `edit`: the file is created when its directory does not list it
/// as a file, then its text (empty when it cannot be read) opens in the editor.
pub open spec fn edit_spec(
    sh: ShellView,
    new_sh: ShellView,
    fs: FileSystem,
    new_fs: FileSystem,
    args: Seq<Seq<char>>,
    ticks: u64,
    outs: Seq<Out>,
) -> bool {
    if args.len() == 0 {
        new_sh == sh && new_fs == fs && outs == seq![Out::Println("Usage: edit [filename]"@)]
    } else {
        let res = resolved(sh.cwd, args[0]);
        if res.len() == 0 {
            new_sh == sh && new_fs == fs && outs == seq![Out::Println("Error: Invalid filename"@)]
        } else {
            let name = res.last();
            let p = path_text(res);
            let items = match directory_listing(fs, path_text(res.drop_last())) {
                Ok(v) => v,
                Err(_) => Seq::empty(),
            };
            let content = match file_text(new_fs, p) {
                Ok(t) => t,
                Err(_) => Seq::empty(),
            };
            &&& exists|mid: FileSystem| {
                &&& #[trigger] file_read(mid, new_fs, p)
                &&& if items.contains((name, false)) { mid == fs } else { entry_created(fs, mid, p, empty_file_meta(ticks)) }
            }
            &&& new_sh == (ShellView { editor_filename: args[0], editor_buffer: content, mode: ShellMode::Editor, ..sh })
            &&& outs == editor_outs(name, content)
        }
    }
}

/// Effect of `play`.
pub open spec fn play_spec(args: Seq<Seq<char>>, outs: Seq<Out>, r: ShellRequest) -> bool {
    if args.len() == 0 {
        r == ShellRequest::Continue && outs == seq![Out::Println("Usage: play [atari / chess]"@)]
    } else if args[0] == "atari"@ {
        r == ShellRequest::PlayAtari && outs.len() == 0
    } else if args[0] == "chess"@ {
        r == ShellRequest::PlayChess && outs.len() == 0
    } else {
        r == ShellRequest::Continue && outs == seq![Out::Println("Unknown game. Choose 'atari' or 'chess'."@)]
    }
}

/// Effect of the command line `line` at tick `ticks`: the shell goes from
/// `sh` to `new_sh`, the filesystem from `fs` to `new_fs`, the console
/// receives `outs`, and `r` names the program to run next.
pub open spec fn command_spec(
    sh: ShellView,
    new_sh: ShellView,
    fs: FileSystem,
    new_fs: FileSystem,
    line: Seq<char>,
    ticks: u64,
    outs: Seq<Out>,
    r: ShellRequest,
) -> bool {
    let ws = words(line);
    if ws.len() == 0 {
        new_sh == sh && new_fs == fs && outs.len() == 0 && r == ShellRequest::Continue
    } else {
        let cmd = ws[0];
        let args = ws.skip(1);
        if cmd == "help"@ || args.contains("--help"@) || args.contains("-h"@) {
            new_sh == (ShellView { mode: ShellMode::HelpViewer, ..sh }) && new_fs == fs && outs == help_outs()
                && r == ShellRequest::Continue
        } else if cmd == "play"@ {
            new_sh == sh && new_fs == fs && play_spec(args, outs, r)
        } else if cmd == "draw"@ {
            new_sh == sh && new_fs == fs && outs.len() == 0 && r == ShellRequest::Draw
        } else {
            &&& r == ShellRequest::Continue
            &&& if cmd == "clear"@ {
                new_sh == sh && new_fs == fs && outs == seq![Out::Clear]
            } else if cmd == "system"@ {
                new_sh == sh && new_fs == fs && outs == system_outs(ticks)
            } else if cmd == "tasks"@ {
                new_sh == sh && new_fs == fs && outs == tasks_outs()
            } else if cmd == "directory"@ {
                new_sh == sh && new_fs == fs && outs == cwd_outs(sh.cwd)
            } else if cmd == "enter"@ {
                new_fs == fs && enter_spec(sh, new_sh, fs, args, outs)
            } else if cmd == "folder"@ {
                new_sh == sh && create_spec(sh.cwd, fs, new_fs, args, directory_meta(ticks), "Usage: folder [name]"@,
                    "Error: Invalid directory name"@, "Directory folder created successfully in B-Tree index."@, outs)
            } else if cmd == "list"@ {
                new_sh == sh && new_fs == fs && outs == list_outs(fs, sh.cwd)
            } else if cmd == "create"@ {
                new_sh == sh && create_spec(sh.cwd, fs, new_fs, args, empty_file_meta(ticks), "Usage: create [filename]"@,
                    "Error: Invalid filename"@, "File created successfully in B-Tree index."@, outs)
            } else if cmd == "write"@ {
                new_sh == sh && write_spec(sh.cwd, fs, new_fs, args, ticks, outs)
            } else if cmd == "read"@ {
                new_sh == sh && read_spec(sh.cwd, fs, new_fs, args, outs)
            } else if cmd == "delete"@ {
                new_sh == sh && delete_spec(sh.cwd, fs, new_fs, args, outs)
            } else if cmd == "edit"@ {
                edit_spec(sh, new_sh, fs, new_fs, args, ticks, outs)
            } else if cmd == "echo"@ {
                new_sh == sh && new_fs == fs && outs == seq![Out::Println(joined_words(args))]
            } else {
                new_sh == sh && new_fs == fs && outs == seq![
                    Out::SetColor(Color::LightRed, Color::Black),
                    Out::Write("Command not recognized: "@),
                    Out::Println(cmd),
                    Out::SetColor(Color::White, Color::Black),
                    Out::Println("Type 'help' to launch the Interactive Help Viewer."@),
                ]
            }
        }
    }
}


/// Index just past the last '\n' of `s` (0 when there is none).
pub open spec fn line_start(s: Seq<char>) -> int
    decreases s.len(),
{
    if s.len() == 0 {
        0
    } else if s.last() == '\n' {
        s.len() as int
    } else {
        line_start(s.drop_last())
    }
}

/// The last line of `text` as `str::lines` yields it: a final '\n' ends the
/// last line rather than starting an empty one, and a '\r' before that
/// '\n' is dropped; `None` for empty text.
pub open spec fn last_line(text: Seq<char>) -> Option<Seq<char>> {
    if text.len() == 0 {
        None
    } else if text.last() == '\n' {
        let body = text.drop_last();
        let line = body.subrange(line_start(body), body.len() as int);
        Some(if line.len() > 0 && line.last() == '\r' { line.drop_last() } else { line })
    } else {
        Some(text.subrange(line_start(text), text.len() as int))
    }
}

/// `s` without trailing white space.
pub open spec fn trim_end(s: Seq<char>) -> Seq<char>
    decreases s.len(),
{
    if s.len() > 0 && is_white(s.last()) { trim_end(s.drop_last()) } else { s }
}

/// `s` without leading white space.
pub open spec fn trim_start(s: Seq<char>) -> Seq<char>
    decreases s.len(),
{
    if s.len() > 0 && is_white(s[0]) { trim_start(s.drop_first()) } else { s }
}

/// `s` without leading and trailing white space.
pub open spec fn trim(s: Seq<char>) -> Seq<char> {
    trim_start(trim_end(s))
}

/// The shell with its command line taken for running.
pub open spec fn line_taken(sh: ShellView) -> ShellView {
    ShellView { buffer: Seq::empty(), ..sh }
}

/// Screen shown when the help viewer closes.
pub open spec fn escape_help_outs() -> Seq<Out> {
    seq![
        Out::Clear,
        Out::SetColor(Color::LightGreen, Color::Black),
        Out::Println("=== AliluOS Interactive Shell ==="@),
        Out::SetColor(Color::White, Color::Black),
        Out::Println("Type 'help' to reopen help viewer, or enter commands below.\n"@),
        Out::Write("> "@),
    ]
}

/// Output reporting how saving the edited file went.
pub open spec fn save_outs(r: Result<(), &'static str>) -> Seq<Out> {
    match r {
        Ok(_) => seq![Out::SetColor(Color::LightGreen, Color::Black), Out::Println("\nFile saved successfully."@)],
        Err(e) => seq![Out::SetColor(Color::LightRed, Color::Black), Out::Println(e@)],
    }
}

/// Output of returning from the editor to the prompt.
pub open spec fn prompt_outs() -> Seq<Out> {
    seq![Out::SetColor(Color::White, Color::Black), Out::Write("> "@)]
}

/// The shell back at the command prompt, the editor emptied.
pub open spec fn editor_closed(sh: ShellView) -> ShellView {
    ShellView { mode: ShellMode::Command, editor_buffer: Seq::empty(), editor_filename: Seq::empty(), ..sh }
}

/// Effect of Enter in the editor: a last line reading ":wq" (around white
/// space) is taken out of the text (as many characters as the line has
/// bytes), the text is saved to the file being edited and the editor
/// closes; ":q" closes it without saving; otherwise a line break is added.
pub open spec fn editor_enter_spec(
    sh: ShellView,
    new_sh: ShellView,
    fs: FileSystem,
    new_fs: FileSystem,
    ticks: u64,
    outs: Seq<Out>,
) -> bool {
    let text = sh.editor_buffer;
    let add_break = new_sh == (ShellView { editor_buffer: text.push('\n'), ..sh }) && new_fs == fs && outs.len() == 0;
    match last_line(text) {
        None => add_break,
        Some(line) => if trim(line) == ":wq"@ {
            let k = encode_utf8(line).len();
            let content = text.take(if k < text.len() { text.len() - k } else { 0 });
            let res = resolved(sh.cwd, sh.editor_filename);
            &&& new_sh == editor_closed(sh)
            &&& if res.len() == 0 {
                new_fs == fs && outs == seq![Out::Println("Error: Cannot write to root"@)] + prompt_outs()
            } else {
                &&& file_written(fs, new_fs, path_text(res), encode_utf8(content), ticks)
                &&& outs == save_outs(write_result(fs, path_text(res), encode_utf8(content))) + prompt_outs()
            }
        } else if trim(line) == ":q"@ {
            &&& new_sh == editor_closed(sh)
            &&& new_fs == fs
            &&& outs == seq![
                Out::SetColor(Color::Yellow, Color::Black),
                Out::Println("\nExited without saving."@),
            ] + prompt_outs()
        } else {
            add_break
        },
    }
}

proof fn lemma_line_start_step(s: Seq<char>, j: int)
    requires
        0 < j <= s.len(),
        s[j - 1] != '\n',
    ensures
        line_start(s.take(j)) == line_start(s.take(j - 1)),
{
    assert(s.take(j).drop_last() =~= s.take(j - 1));
}

proof fn lemma_line_start_hit(s: Seq<char>, j: int)
    requires
        0 < j <= s.len(),
        s[j - 1] == '\n',
    ensures
        line_start(s.take(j)) == j,
{
}

/// Start of the line that ends at `end`.
pub(crate) fn find_line_start(s: &Vec<char>, end: usize) -> (r: usize)
    requires
        end <= s@.len(),
    ensures
        r as int == line_start(s@.take(end as int)),
        r <= end,
{
    let mut j = end;
    while j > 0 && s[j - 1] != '\n'
        invariant
            j <= end <= s@.len(),
            line_start(s@.take(end as int)) == line_start(s@.take(j as int)),
        decreases j,
    {
        proof {
            lemma_line_start_step(s@, j as int);
        }
        j = j - 1;
    }
    if j > 0 {
        proof {
            lemma_line_start_hit(s@, j as int);
        }
    } else {
        assert(s@.take(0) =~= Seq::<char>::empty());
    }
    j
}

/// Bounds `[start, end)` of the last line of `text` in it, if any.
pub(crate) fn last_line_bounds(text: &Vec<char>) -> (r: Option<(usize, usize)>)
    ensures
        match last_line(text@) {
            None => r is None,
            Some(line) => r matches Some((a, b)) && a <= b <= text@.len() && text@.subrange(a as int, b as int) == line,
        },
{
    let n = text.len();
    if n == 0 {
        return None;
    }
    if text[n - 1] == '\n' {
        let body_end = n - 1;
        let start = find_line_start(text, body_end);
        let ghost body = text@.drop_last();
        assert(text@.take(body_end as int) =~= body);
        let mut end = body_end;
        if end > start && text[end - 1] == '\r' {
            end = end - 1;
            assert(text@.subrange(start as int, end as int) =~= body.subrange(start as int, body.len() as int).drop_last());
        } else {
            assert(text@.subrange(start as int, end as int) =~= body.subrange(start as int, body.len() as int));
        }
        Some((start, end))
    } else {
        let start = find_line_start(text, n);
        assert(text@.take(n as int) =~= text@);
        Some((start, n))
    }
}

proof fn lemma_trim_end_step(s: Seq<char>, e: int)
    requires
        0 < e <= s.len(),
        is_white(s[e - 1]),
    ensures
        trim_end(s.take(e)) == trim_end(s.take(e - 1)),
{
    assert(s.take(e).drop_last() =~= s.take(e - 1));
}

proof fn lemma_trim_start_step(s: Seq<char>, a: int)
    requires
        0 <= a < s.len(),
        is_white(s[a]),
    ensures
        trim_start(s.skip(a)) == trim_start(s.skip(a + 1)),
{
    assert(s.skip(a).drop_first() =~= s.skip(a + 1));
}

/// Bounds `[a, b)` of `s[from..to]` without its surrounding white space.
pub(crate) fn trim_bounds(s: &Vec<char>, from: usize, to: usize) -> (r: (usize, usize))
    requires
        from <= to <= s@.len(),
    ensures
        from <= r.0 <= r.1 <= to,
        s@.subrange(r.0 as int, r.1 as int) == trim(s@.subrange(from as int, to as int)),
{
    let ghost t = s@.subrange(from as int, to as int);
    let mut e = to;
    assert(t.take(to - from) =~= t);
    while e > from && white(s[e - 1])
        invariant
            from <= e <= to <= s@.len(),
            t == s@.subrange(from as int, to as int),
            trim_end(t) == trim_end(t.take(e - from)),
        decreases e,
    {
        proof {
            lemma_trim_end_step(t, e - from);
        }
        e = e - 1;
    }
    assert(trim_end(t) == t.take(e - from));
    let ghost u = t.take(e - from);
    let mut a = from;
    assert(u.skip(0) =~= u);
    while a < e && white(s[a])
        invariant
            from <= a <= e <= to <= s@.len(),
            u == s@.subrange(from as int, e as int),
            trim_start(u) == trim_start(u.skip(a - from)),
        decreases e - a,
    {
        proof {
            lemma_trim_start_step(u, a - from);
        }
        a = a + 1;
    }
    assert(u.skip(a - from) =~= s@.subrange(a as int, e as int));
    (a, e)
}

/// Whether `s[a..b]` is the text `w`.
pub(crate) fn chars_equal(s: &Vec<char>, a: usize, b: usize, w: &str) -> (r: bool)
    requires
        a <= b <= s@.len(),
    ensures
        r == (s@.subrange(a as int, b as int) == w@),
{
    let wc = crate::text::chars_of(w);
    if b - a != wc.len() {
        return false;
    }
    let mut i: usize = 0;
    while i < wc.len()
        invariant
            b - a == wc@.len(),
            a <= b <= s@.len(),
            wc@ == w@,
            i <= wc@.len(),
            forall|j: int| 0 <= j < i ==> s@[a + j] == wc@[j],
        decreases wc@.len() - i,
    {
        if s[a + i] != wc[i] {
            assert(s@.subrange(a as int, b as int)[i as int] != w@[i as int]);
            return false;
        }
        i = i + 1;
    }
    assert(s@.subrange(a as int, b as int) =~= w@);
    true
}

/// The shell: command line, editor and help viewer state, and the working
/// directory as path segments.
pub struct Shell {
    buffer: Vec<char>,
    mode: ShellMode,
    editor_filename: String,
    editor_buffer: Vec<char>,
    cwd: Vec<String>,
}

impl Shell {
    pub closed spec fn view(&self) -> ShellView {
        ShellView {
            buffer: self.buffer@,
            mode: self.mode,
            editor_filename: self.editor_filename@,
            editor_buffer: self.editor_buffer@,
            cwd: segs_view(self.cwd@),
        }
    }

    /// A shell in command mode at the root directory.
    pub fn new() -> (r: Self)
        ensures
            r@ == (ShellView {
                buffer: Seq::empty(),
                mode: ShellMode::Command,
                editor_filename: Seq::empty(),
                editor_buffer: Seq::empty(),
                cwd: Seq::empty(),
            }),
    {
        let r = Shell {
            buffer: Vec::new(),
            mode: ShellMode::Command,
            editor_filename: String::new(),
            editor_buffer: Vec::new(),
            cwd: Vec::new(),
        };
        assert(r@.cwd =~= Seq::<Seq<char>>::empty());
        r
    }

    /// Escape: closes the help viewer back to the prompt, or clears a
    /// non-empty command line; nothing in the editor.
    pub fn handle_escape(&mut self, vga: &mut VGA)
        requires
            old(vga).inv(),
        ensures
            final(vga).inv(),
            match old(self)@.mode {
                ShellMode::HelpViewer => final(self)@ == (ShellView { mode: ShellMode::Command, ..old(self)@ })
                    && final(vga)@ == apply_outs(old(vga)@, escape_help_outs()),
                ShellMode::Command => if old(self)@.buffer.len() > 0 {
                    final(self)@ == (ShellView { buffer: Seq::empty(), ..old(self)@ })
                        && final(vga)@ == apply_outs(old(vga)@, seq![Out::Println("^C"@), Out::Write("> "@)])
                } else {
                    final(self)@ == old(self)@ && final(vga)@ == old(vga)@
                },
                ShellMode::Editor => final(self)@ == old(self)@ && final(vga)@ == old(vga)@,
            },
    {
        let mut out: Vec<ConsoleOp> = Vec::new();
        assert(outs_view(out@) =~= Seq::<Out>::empty());
        match self.mode {
            ShellMode::HelpViewer => {
                self.mode = ShellMode::Command;
                emit(&mut out, ConsoleOp::Clear);
                emit_color(&mut out, Color::LightGreen, Color::Black);
                emit_line(&mut out, "=== AliluOS Interactive Shell ===");
                emit_color(&mut out, Color::White, Color::Black);
                emit_line(&mut out, "Type 'help' to reopen help viewer, or enter commands below.\n");
                emit_text(&mut out, "> ");
                assert(outs_view(out@) =~= escape_help_outs());
                show(vga, &out);
            },
            ShellMode::Command => {
                if self.buffer.len() > 0 {
                    self.buffer = Vec::new();
                    emit_line(&mut out, "^C");
                    emit_text(&mut out, "> ");
                    assert(outs_view(out@) =~= seq![Out::Println("^C"@), Out::Write("> "@)]);
                    show(vga, &out);
                }
                assert(self@.buffer =~= Seq::<char>::empty() || self@ == old(self)@);
            },
            ShellMode::Editor => {},
        }
    }

    /// A typed character: added to the command line or the edited text and echoed.
    pub fn handle_char(&mut self, vga: &mut VGA, c: char)
        requires
            old(vga).inv(),
        ensures
            final(vga).inv(),
            match old(self)@.mode {
                ShellMode::Command => final(self)@ == (ShellView { buffer: old(self)@.buffer.push(c), ..old(self)@ })
                    && final(vga)@ == old(vga)@.put_char(c),
                ShellMode::Editor => final(self)@ == (ShellView { editor_buffer: old(self)@.editor_buffer.push(c), ..old(self)@ })
                    && final(vga)@ == old(vga)@.put_char(c),
                ShellMode::HelpViewer => final(self)@ == old(self)@ && final(vga)@ == old(vga)@,
            },
    {
        match self.mode {
            ShellMode::Command => {
                self.buffer.push(c);
                vga.put_char(c);
            },
            ShellMode::Editor => {
                self.editor_buffer.push(c);
                vga.put_char(c);
            },
            ShellMode::HelpViewer => {},
        }
    }

    /// Backspace: removes the last character of the command line or the
    /// edited text, when there is one, and erases it on screen.
    pub fn handle_backspace(&mut self, vga: &mut VGA)
        requires
            old(vga).inv(),
        ensures
            final(vga).inv(),
            match old(self)@.mode {
                ShellMode::Command => if old(self)@.buffer.len() > 0 {
                    final(self)@ == (ShellView { buffer: old(self)@.buffer.drop_last(), ..old(self)@ })
                        && final(vga)@ == old(vga)@.backspace()
                } else {
                    final(self)@ == old(self)@ && final(vga)@ == old(vga)@
                },
                ShellMode::Editor => if old(self)@.editor_buffer.len() > 0 {
                    final(self)@ == (ShellView { editor_buffer: old(self)@.editor_buffer.drop_last(), ..old(self)@ })
                        && final(vga)@ == old(vga)@.backspace()
                } else {
                    final(self)@ == old(self)@ && final(vga)@ == old(vga)@
                },
                ShellMode::HelpViewer => final(self)@ == old(self)@ && final(vga)@ == old(vga)@,
            },
    {
        match self.mode {
            ShellMode::Command => {
                if self.buffer.len() > 0 {
                    let _ = self.buffer.pop();
                    vga.backspace();
                }
            },
            ShellMode::Editor => {
                if self.editor_buffer.len() > 0 {
                    let _ = self.editor_buffer.pop();
                    vga.backspace();
                }
            },
            ShellMode::HelpViewer => {},
        }
    }

    /// Space: added like a typed character.
    pub fn handle_space(&mut self, vga: &mut VGA)
        requires
            old(vga).inv(),
        ensures
            final(vga).inv(),
            match old(self)@.mode {
                ShellMode::Command => final(self)@ == (ShellView { buffer: old(self)@.buffer.push(' '), ..old(self)@ })
                    && final(vga)@ == old(vga)@.put_char(' '),
                ShellMode::Editor => final(self)@ == (ShellView { editor_buffer: old(self)@.editor_buffer.push(' '), ..old(self)@ })
                    && final(vga)@ == old(vga)@.put_char(' '),
                ShellMode::HelpViewer => final(self)@ == old(self)@ && final(vga)@ == old(vga)@,
            },
    {
        self.handle_char(vga, ' ');
    }

    /// Enter: runs the command line (then shows the prompt again unless a
    /// full-screen program or view takes over), or in the editor saves,
    /// quits or breaks the line; nothing else in the help viewer.
    pub fn handle_enter(&mut self, vga: &mut VGA, fs: &mut FileSystem, ticks: u64) -> (r: ShellRequest)
        requires
            old(vga).inv(),
            old(fs).wf(),
        ensures
            final(vga).inv(),
            final(fs).wf(),
            match old(self)@.mode {
                ShellMode::Command => exists|o: Seq<Out>|
                    #[trigger] command_spec(
                        line_taken(old(self)@),
                        final(self)@,
                        *old(fs),
                        *final(fs),
                        old(self)@.buffer,
                        ticks,
                        o,
                        r,
                    ) && final(vga)@ == apply_outs(
                        old(vga)@,
                        seq![Out::PutChar('\n')] + o + if final(self)@.mode == ShellMode::Command && r == ShellRequest::Continue {
                            seq![Out::Write("> "@)]
                        } else {
                            Seq::empty()
                        },
                    ),
                ShellMode::Editor => r == ShellRequest::Continue && exists|o: Seq<Out>|
                    #[trigger] editor_enter_spec(old(self)@, final(self)@, *old(fs), *final(fs), ticks, o)
                        && final(vga)@ == apply_outs(old(vga)@, seq![Out::PutChar('\n')] + o),
                ShellMode::HelpViewer => r == ShellRequest::Continue && final(self)@ == old(self)@ && *final(fs) == *old(fs)
                    && final(vga)@ == apply_outs(old(vga)@, seq![Out::PutChar('\n')]),
            },
    {
        let mut out: Vec<ConsoleOp> = Vec::new();
        emit(&mut out, ConsoleOp::PutChar('\n'));
        assert(outs_view(out@) =~= seq![Out::PutChar('\n')]);
        match self.mode {
            ShellMode::Command => {
                let line = string_of(self.buffer.as_slice());
                self.buffer = Vec::new();
                let ghost cleared = self@;
                assert(cleared == line_taken(old(self)@));
                let (req, cmd_out) = self.execute_command(fs, line.as_str(), ticks);
                let ghost o = outs_view(cmd_out@);
                assert(command_spec(cleared, self@, *old(fs), *fs, old(self)@.buffer, ticks, o, req));
                let ghost before = outs_view(out@);
                let mut cmd_out = cmd_out;
                out.append(&mut cmd_out);
                proof {
                    crate::console::lemma_outs_view(out@);
                    crate::console::lemma_outs_view(cmd_out@);
                }
                assert(outs_view(out@) =~= before + o);
                let prompt = match self.mode {
                    ShellMode::Command => match req {
                        ShellRequest::Continue => true,
                        _ => false,
                    },
                    _ => false,
                };
                if prompt {
                    emit_text(&mut out, "> ");
                    assert(outs_view(out@) =~= seq![Out::PutChar('\n')] + o + seq![Out::Write("> "@)]);
                } else {
                    assert(outs_view(out@) =~= seq![Out::PutChar('\n')] + o + Seq::<Out>::empty());
                }
                show(vga, &out);
                req
            },
            ShellMode::Editor => {
                let ghost before = outs_view(out@);
                let mut ed_out = self.editor_enter(fs, ticks);
                let ghost o = outs_view(ed_out@);
                assert(editor_enter_spec(old(self)@, self@, *old(fs), *fs, ticks, o));
                out.append(&mut ed_out);
                proof {
                    crate::console::lemma_outs_view(out@);
                    crate::console::lemma_outs_view(ed_out@);
                }
                assert(outs_view(out@) =~= seq![Out::PutChar('\n')] + o);
                show(vga, &out);
                ShellRequest::Continue
            },
            ShellMode::HelpViewer => {
                show(vga, &out);
                ShellRequest::Continue
            },
        }
    }

    /// Enter in the editor.
    fn editor_enter(&mut self, fs: &mut FileSystem, ticks: u64) -> (out: Vec<ConsoleOp>)
        requires
            old(fs).wf(),
            old(self)@.mode == ShellMode::Editor,
        ensures
            final(fs).wf(),
            editor_enter_spec(old(self)@, final(self)@, *old(fs), *final(fs), ticks, outs_view(out@)),
    {
        let mut out: Vec<ConsoleOp> = Vec::new();
        assert(outs_view(out@) =~= Seq::<Out>::empty());
        let ghost text = self.editor_buffer@;
        match last_line_bounds(&self.editor_buffer) {
            None => {
                self.editor_buffer.push('\n');
            },
            Some((a, b)) => {
                let ghost line = text.subrange(a as int, b as int);
                assert(last_line(text) == Some(line));
                let (ta, tb) = trim_bounds(&self.editor_buffer, a, b);
                assert(text.subrange(ta as int, tb as int) == trim(line));
                if chars_equal(&self.editor_buffer, ta, tb, ":wq") {
                    let line_chars = crate::text::chars_slice(self.editor_buffer.as_slice(), a, b);
                    let line_text = string_of(line_chars.as_slice());
                    let k = line_text.as_str().as_bytes().len();
                    assert(k == encode_utf8(line).len());
                    let n = self.editor_buffer.len();
                    let keep = if k < n { n - k } else { 0 };
                    self.editor_buffer.truncate(keep);
                    let ghost content = self.editor_buffer@;
                    assert(content == text.take(keep as int));
                    let res = fs.resolve_path(self.cwd.as_slice(), self.editor_filename.as_str());
                    if res.len() == 0 {
                        proof {
                            lemma_segs_view(res@);
                        }
                        emit_line(&mut out, "Error: Cannot write to root");
                        assert(outs_view(out@) =~= seq![Out::Println("Error: Cannot write to root"@)]);
                    } else {
                        let (parent, name) = res.as_slice().split_at(res.len() - 1);
                        proof {
                            lemma_segs_view(res@);
                            lemma_segs_view(parent@);
                            assert(segs_view(parent@).push(name@[0]@) =~= segs_view(res@));
                        }
                        let content_text = string_of(self.editor_buffer.as_slice());
                        let wr = fs.write_file(parent, name[0].as_str(), content_text.as_str(), ticks);
                        match wr {
                            Ok(_) => {
                                emit_color(&mut out, Color::LightGreen, Color::Black);
                                emit_line(&mut out, "\nFile saved successfully.");
                            },
                            Err(e) => {
                                emit_color(&mut out, Color::LightRed, Color::Black);
                                emit_line(&mut out, e);
                            },
                        }
                        assert(outs_view(out@) =~= save_outs(wr));
                    }
                    let ghost reported = outs_view(out@);
                    emit_color(&mut out, Color::White, Color::Black);
                    self.mode = ShellMode::Command;
                    self.editor_buffer = Vec::new();
                    self.editor_filename = String::new();
                    emit_text(&mut out, "> ");
                    assert(outs_view(out@) =~= reported + prompt_outs());
                    assert(self@ == editor_closed(old(self)@));
                } else if chars_equal(&self.editor_buffer, ta, tb, ":q") {
                    emit_color(&mut out, Color::Yellow, Color::Black);
                    emit_line(&mut out, "\nExited without saving.");
                    emit_color(&mut out, Color::White, Color::Black);
                    self.mode = ShellMode::Command;
                    self.editor_buffer = Vec::new();
                    self.editor_filename = String::new();
                    emit_text(&mut out, "> ");
                    assert(outs_view(out@) =~= seq![
                        Out::SetColor(Color::Yellow, Color::Black),
                        Out::Println("\nExited without saving."@),
                    ] + prompt_outs());
                    assert(self@ == editor_closed(old(self)@));
                } else {
                    self.editor_buffer.push('\n');
                }
            },
        }
        out
    }

    /// After a full-screen program has run: the prompt again when the shell
    /// is at the command line.
    pub fn finish_program(&self, vga: &mut VGA)
        requires
            old(vga).inv(),
        ensures
            final(vga).inv(),
            self@.mode == ShellMode::Command ==> final(vga)@ == old(vga)@.write("> "@),
            self@.mode != ShellMode::Command ==> final(vga)@ == old(vga)@,
    {
        match self.mode {
            ShellMode::Command => vga.write("> "),
            _ => {},
        }
    }

    /// `enter`: moves into the directory named by the first argument.
    fn cmd_enter(&mut self, fs: &FileSystem, ws: &Vec<String>) -> (out: Vec<ConsoleOp>)
        requires
            fs.wf(),
            ws@.len() >= 1,
        ensures
            enter_spec(old(self)@, final(self)@, *fs, segs_view(ws@).skip(1), outs_view(out@)),
    {
        let mut out: Vec<ConsoleOp> = Vec::new();
        proof {
            lemma_segs_view(ws@);
        }
        let ghost args = segs_view(ws@).skip(1);
        assert(outs_view(out@) =~= Seq::<Out>::empty());
        if ws.len() < 2 {
            emit_line(&mut out, "Usage: enter [path]");
            return out;
        }
        assert(args[0] == ws@[1]@);
        let res = fs.resolve_path(self.cwd.as_slice(), ws[1].as_str());
        if fs.find_directory(res.as_slice()).is_some() {
            self.cwd = res;
        } else {
            emit_error(&mut out, "Error: Directory not found.");
        }
        out
    }

    /// `folder` and `create`: makes an entry at the path named by the first argument.
    fn cmd_create(fs: &mut FileSystem, cwd: &[String], ws: &Vec<String>, is_directory: bool, ticks: u64) -> (out: Vec<ConsoleOp>)
        requires
            old(fs).wf(),
            ws@.len() >= 1,
        ensures
            final(fs).wf(),
            is_directory ==> create_spec(segs_view(cwd@), *old(fs), *final(fs), segs_view(ws@).skip(1),
                directory_meta(ticks), "Usage: folder [name]"@, "Error: Invalid directory name"@,
                "Directory folder created successfully in B-Tree index."@, outs_view(out@)),
            !is_directory ==> create_spec(segs_view(cwd@), *old(fs), *final(fs), segs_view(ws@).skip(1),
                empty_file_meta(ticks), "Usage: create [filename]"@, "Error: Invalid filename"@,
                "File created successfully in B-Tree index."@, outs_view(out@)),
    {
        let mut out: Vec<ConsoleOp> = Vec::new();
        proof {
            lemma_segs_view(ws@);
        }
        let ghost args = segs_view(ws@).skip(1);
        assert(outs_view(out@) =~= Seq::<Out>::empty());
        if ws.len() < 2 {
            if is_directory {
                emit_line(&mut out, "Usage: folder [name]");
            } else {
                emit_line(&mut out, "Usage: create [filename]");
            }
            return out;
        }
        assert(args[0] == ws@[1]@);
        let res = fs.resolve_path(cwd, ws[1].as_str());
        if res.len() == 0 {
            proof {
                lemma_segs_view(res@);
            }
            if is_directory {
                emit_line(&mut out, "Error: Invalid directory name");
            } else {
                emit_line(&mut out, "Error: Invalid filename");
            }
            return out;
        }
        let (parent, name) = res.as_slice().split_at(res.len() - 1);
        proof {
            lemma_segs_view(res@);
            lemma_segs_view(parent@);
            assert(segs_view(parent@).push(name@[0]@) =~= segs_view(res@));
        }
        if is_directory {
            let r = fs.create_directory(parent, name[0].as_str(), ticks);
            emit_report(&mut out, r, "Directory folder created successfully in B-Tree index.");
        } else {
            let r = fs.create_file(parent, name[0].as_str(), ticks);
            emit_report(&mut out, r, "File created successfully in B-Tree index.");
        }
        out
    }

    /// `write`: stores the remaining arguments, joined by spaces, in the file
    /// named by the first argument.
    fn cmd_write(fs: &mut FileSystem, cwd: &[String], ws: &Vec<String>, ticks: u64) -> (out: Vec<ConsoleOp>)
        requires
            old(fs).wf(),
            ws@.len() >= 1,
        ensures
            final(fs).wf(),
            write_spec(segs_view(cwd@), *old(fs), *final(fs), segs_view(ws@).skip(1), ticks, outs_view(out@)),
    {
        let mut out: Vec<ConsoleOp> = Vec::new();
        proof {
            lemma_segs_view(ws@);
        }
        let ghost args = segs_view(ws@).skip(1);
        assert(outs_view(out@) =~= Seq::<Out>::empty());
        if ws.len() < 3 {
            emit_line(&mut out, "Usage: write [filename] [text]");
            return out;
        }
        assert(args[0] == ws@[1]@);
        let text = join_words(ws.as_slice(), 2);
        assert(segs_view(ws@).skip(2) =~= args.skip(1));
        let res = fs.resolve_path(cwd, ws[1].as_str());
        if res.len() == 0 {
            proof {
                lemma_segs_view(res@);
            }
            emit_line(&mut out, "Error: Invalid filename");
            return out;
        }
        let (parent, name) = res.as_slice().split_at(res.len() - 1);
        proof {
            lemma_segs_view(res@);
            lemma_segs_view(parent@);
            assert(segs_view(parent@).push(name@[0]@) =~= segs_view(res@));
        }
        let r = fs.write_file(parent, name[0].as_str(), text.as_str(), ticks);
        emit_report(&mut out, r, "Text written to file in B-Tree index.");
        out
    }

    /// `read`: prints the file named by the first argument.
    fn cmd_read(fs: &mut FileSystem, cwd: &[String], ws: &Vec<String>) -> (out: Vec<ConsoleOp>)
        requires
            old(fs).wf(),
            ws@.len() >= 1,
        ensures
            final(fs).wf(),
            read_spec(segs_view(cwd@), *old(fs), *final(fs), segs_view(ws@).skip(1), outs_view(out@)),
    {
        let mut out: Vec<ConsoleOp> = Vec::new();
        proof {
            lemma_segs_view(ws@);
        }
        let ghost args = segs_view(ws@).skip(1);
        assert(outs_view(out@) =~= Seq::<Out>::empty());
        if ws.len() < 2 {
            emit_line(&mut out, "Usage: read [filename]");
            return out;
        }
        assert(args[0] == ws@[1]@);
        let res = fs.resolve_path(cwd, ws[1].as_str());
        if res.len() == 0 {
            proof {
                lemma_segs_view(res@);
            }
            emit_line(&mut out, "Error: Invalid filename");
            return out;
        }
        let (parent, name) = res.as_slice().split_at(res.len() - 1);
        proof {
            lemma_segs_view(res@);
            lemma_segs_view(parent@);
            assert(segs_view(parent@).push(name@[0]@) =~= segs_view(res@));
        }
        match fs.read_file(parent, name[0].as_str()) {
            Ok(content) => {
                let ghost t = content@;
                emit_line(&mut out, "--- Content ---");
                emit(&mut out, ConsoleOp::Println(content));
                emit_line(&mut out, "---------------");
                assert(outs_view(out@) =~= seq![Out::Println("--- Content ---"@), Out::Println(t), Out::Println("---------------"@)]);
            },
            Err(e) => {
                emit_error(&mut out, e);
                assert(outs_view(out@) =~= error_outs(e@));
            },
        }
        out
    }

    /// `delete`: removes the file or directory named by the first argument.
    fn cmd_delete(fs: &mut FileSystem, cwd: &[String], ws: &Vec<String>) -> (out: Vec<ConsoleOp>)
        requires
            old(fs).wf(),
            ws@.len() >= 1,
        ensures
            final(fs).wf(),
            delete_spec(segs_view(cwd@), *old(fs), *final(fs), segs_view(ws@).skip(1), outs_view(out@)),
    {
        let mut out: Vec<ConsoleOp> = Vec::new();
        proof {
            lemma_segs_view(ws@);
        }
        let ghost args = segs_view(ws@).skip(1);
        assert(outs_view(out@) =~= Seq::<Out>::empty());
        if ws.len() < 2 {
            emit_line(&mut out, "Usage: delete [filename/folder]");
            return out;
        }
        assert(args[0] == ws@[1]@);
        let res = fs.resolve_path(cwd, ws[1].as_str());
        if res.len() == 0 {
            proof {
                lemma_segs_view(res@);
            }
            emit_line(&mut out, "Error: Invalid target");
            return out;
        }
        let (parent, name) = res.as_slice().split_at(res.len() - 1);
        proof {
            lemma_segs_view(res@);
            lemma_segs_view(parent@);
            assert(segs_view(parent@).push(name@[0]@) =~= segs_view(res@));
        }
        let r = fs.delete_node(parent, name[0].as_str());
        emit_report(&mut out, r, "Target deleted successfully from B-Tree index.");
        out
    }

    /// `list`: prints the names in the working directory.
    fn cmd_list(&self, fs: &FileSystem) -> (out: Vec<ConsoleOp>)
        requires
            fs.wf(),
        ensures
            outs_view(out@) == list_outs(*fs, self@.cwd),
    {
        let mut out: Vec<ConsoleOp> = Vec::new();
        assert(outs_view(out@) =~= Seq::<Out>::empty());
        match fs.list_directory(self.cwd.as_slice()) {
            Ok(items) => {
                if items.len() == 0 {
                    emit_line(&mut out, "Directory is empty.");
                } else {
                    emit_color(&mut out, Color::LightCyan, Color::Black);
                    emit_line(&mut out, "Name                 Type");
                    emit_color(&mut out, Color::White, Color::Black);
                    let ghost head = outs_view(out@);
                    emit_rows(&mut out, &items, "File");
                }
            },
            Err(e) => emit_error(&mut out, e),
        }
        out
    }

    /// `edit`: creates the file if its directory does not list it, then opens
    /// its text in the editor.
    fn cmd_edit(&mut self, fs: &mut FileSystem, ws: &Vec<String>, ticks: u64) -> (out: Vec<ConsoleOp>)
        requires
            old(fs).wf(),
            ws@.len() >= 1,
        ensures
            final(fs).wf(),
            edit_spec(old(self)@, final(self)@, *old(fs), *final(fs), segs_view(ws@).skip(1), ticks, outs_view(out@)),
    {
        let mut out: Vec<ConsoleOp> = Vec::new();
        proof {
            lemma_segs_view(ws@);
        }
        let ghost args = segs_view(ws@).skip(1);
        assert(outs_view(out@) =~= Seq::<Out>::empty());
        if ws.len() < 2 {
            emit_line(&mut out, "Usage: edit [filename]");
            return out;
        }
        assert(args[0] == ws@[1]@);
        let res = fs.resolve_path(self.cwd.as_slice(), ws[1].as_str());
        if res.len() == 0 {
            proof {
                lemma_segs_view(res@);
            }
            emit_line(&mut out, "Error: Invalid filename");
            return out;
        }
        let (parent, name) = res.as_slice().split_at(res.len() - 1);
        let target = name[0].as_str();
        proof {
            lemma_segs_view(res@);
            lemma_segs_view(parent@);
            assert(segs_view(parent@).push(name@[0]@) =~= segs_view(res@));
            assert(segs_view(parent@) =~= segs_view(res@).drop_last());
        }
        let ghost items = match directory_listing(*fs, path_text(segs_view(parent@))) {
            Ok(v) => v,
            Err(_) => Seq::<(Seq<char>, bool)>::empty(),
        };
        let dir_items = match fs.list_directory(parent) {
            Ok(v) => v,
            Err(_) => Vec::new(),
        };
        assert(crate::btree::names_view(dir_items@) =~= items);
        let mut file_exists = false;
        let mut k: usize = 0;
        while k < dir_items.len()
            invariant
                k <= dir_items@.len(),
                items == crate::btree::names_view(dir_items@),
                items.len() == dir_items@.len(),
                file_exists == exists|j: int| 0 <= j < k && items[j] == (target@, false),
            decreases dir_items@.len() - k,
        {
            assert(items[k as int] == (dir_items@[k as int].0@, dir_items@[k as int].1));
            if same_text(dir_items[k].0.as_str(), target) && !dir_items[k].1 {
                file_exists = true;
            }
            k = k + 1;
        }
        assert(file_exists == items.contains((target@, false)));
        if !file_exists {
            let _ = fs.create_file(parent, target, ticks);
        }
        let ghost mid = *fs;
        let content = match fs.read_file(parent, target) {
            Ok(t) => t,
            Err(_) => String::new(),
        };
        self.editor_filename = ws[1].clone();
        self.editor_buffer = crate::text::chars_of(content.as_str());
        self.mode = ShellMode::Editor;
        emit(&mut out, ConsoleOp::Clear);
        emit_color(&mut out, Color::LightCyan, Color::Black);
        emit_text(&mut out, "--- Editing File: ");
        emit_text(&mut out, target);
        emit_line(&mut out, " ---");
        emit_line(&mut out, "Type your text below. Type ':wq' on a new line and press Enter to save and exit, or ':q' to exit without saving.");
        emit_line(&mut out, "------------------------------------------------------------------------");
        emit_color(&mut out, Color::White, Color::Black);
        emit_text(&mut out, content.as_str());
        assert(outs_view(out@) =~= editor_outs(target@, content@));
        assert(file_read(mid, *fs, path_text(segs_view(res@))));
        out
    }

    /// Runs one command line; answers the program to run next and the
    /// console output.
    fn execute_command(&mut self, fs: &mut FileSystem, cmd_line: &str, ticks: u64) -> (r: (ShellRequest, Vec<ConsoleOp>))
        requires
            old(fs).wf(),
        ensures
            final(fs).wf(),
            command_spec(old(self)@, final(self)@, *old(fs), *final(fs), cmd_line@, ticks, outs_view(r.1@), r.0),
    {
        proof {
            reveal_strlit("help");
            reveal_strlit("--help");
            reveal_strlit("-h");
            reveal_strlit("play");
            reveal_strlit("draw");
            reveal_strlit("clear");
            reveal_strlit("system");
            reveal_strlit("tasks");
            reveal_strlit("directory");
            reveal_strlit("enter");
            reveal_strlit("folder");
            reveal_strlit("list");
            reveal_strlit("create");
            reveal_strlit("write");
            reveal_strlit("read");
            reveal_strlit("delete");
            reveal_strlit("edit");
            reveal_strlit("echo");
            reveal_strlit("atari");
            reveal_strlit("chess");
        }
        let mut out: Vec<ConsoleOp> = Vec::new();
        assert(outs_view(out@) =~= Seq::<Out>::empty());
        let ws = split_words(cmd_line);
        proof {
            lemma_segs_view(ws@);
        }
        if ws.len() == 0 {
            return (ShellRequest::Continue, out);
        }
        let ghost sv = segs_view(ws@);
        let ghost args = sv.skip(1);
        let cmd = ws[0].as_str();
        assert(cmd@ == sv[0]);
        if same_text(cmd, "help") || has_word(ws.as_slice(), 1, "--help") || has_word(ws.as_slice(), 1, "-h") {
            self.mode = ShellMode::HelpViewer;
            emit_help(&mut out);
            assert(outs_view(out@) =~= help_outs());
            return (ShellRequest::Continue, out);
        }
        if same_text(cmd, "play") {
            if ws.len() < 2 {
                emit_line(&mut out, "Usage: play [atari / chess]");
                return (ShellRequest::Continue, out);
            }
            assert(args[0] == ws@[1]@);
            if same_text(ws[1].as_str(), "atari") {
                return (ShellRequest::PlayAtari, out);
            } else if same_text(ws[1].as_str(), "chess") {
                return (ShellRequest::PlayChess, out);
            } else {
                emit_line(&mut out, "Unknown game. Choose 'atari' or 'chess'.");
                return (ShellRequest::Continue, out);
            }
        }
        if same_text(cmd, "draw") {
            return (ShellRequest::Draw, out);
        }
        if same_text(cmd, "clear") {
            emit(&mut out, ConsoleOp::Clear);
            assert(outs_view(out@) =~= seq![Out::Clear]);
        } else if same_text(cmd, "system") {
            emit_system(&mut out, ticks);
            assert(outs_view(out@) =~= system_outs(ticks));
        } else if same_text(cmd, "tasks") {
            emit_tasks(&mut out);
            assert(outs_view(out@) =~= tasks_outs());
        } else if same_text(cmd, "directory") {
            emit_cwd(&mut out, self.cwd.as_slice());
            assert(outs_view(out@) =~= cwd_outs(self@.cwd));
        } else if same_text(cmd, "enter") {
            out = self.cmd_enter(fs, &ws);
        } else if same_text(cmd, "folder") {
            out = Self::cmd_create(fs, self.cwd.as_slice(), &ws, true, ticks);
        } else if same_text(cmd, "list") {
            out = self.cmd_list(fs);
        } else if same_text(cmd, "create") {
            out = Self::cmd_create(fs, self.cwd.as_slice(), &ws, false, ticks);
        } else if same_text(cmd, "write") {
            out = Self::cmd_write(fs, self.cwd.as_slice(), &ws, ticks);
        } else if same_text(cmd, "read") {
            out = Self::cmd_read(fs, self.cwd.as_slice(), &ws);
        } else if same_text(cmd, "delete") {
            out = Self::cmd_delete(fs, self.cwd.as_slice(), &ws);
        } else if same_text(cmd, "edit") {
            out = self.cmd_edit(fs, &ws, ticks);
        } else if same_text(cmd, "echo") {
            let text = join_words(ws.as_slice(), 1);
            emit(&mut out, ConsoleOp::Println(text));
            assert(outs_view(out@) =~= seq![Out::Println(joined_words(args))]);
        } else {
            emit_color(&mut out, Color::LightRed, Color::Black);
            emit_text(&mut out, "Command not recognized: ");
            emit_line(&mut out, cmd);
            emit_color(&mut out, Color::White, Color::Black);
            emit_line(&mut out, "Type 'help' to launch the Interactive Help Viewer.");
            assert(outs_view(out@) =~= seq![
                Out::SetColor(Color::LightRed, Color::Black),
                Out::Write("Command not recognized: "@),
                Out::Println(sv[0]),
                Out::SetColor(Color::White, Color::Black),
                Out::Println("Type 'help' to launch the Interactive Help Viewer."@),
            ]);
        }
        (ShellRequest::Continue, out)
    }
}

} // verus!
