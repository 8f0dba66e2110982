//! The kernel's top level: the boot sequence of the console, keyboard and
//! filesystem, the boot banner, and the routing of key presses to the shell.
use vstd::prelude::*;
use crate::fs::FileSystem;
use crate::keyboard::{Key, KeyEvent, Keyboard, Modifiers, modifiers_reset};
use crate::process::ProcessControlBlock;
use crate::ring2::game::GameEngine;
use crate::ring2::shell::{
    Shell, ShellView, backspace_effect, char_effect, ctrl_effect, enter_effect, escape_effect, pcb_unchanged,
};
use crate::vga::{Color, Screen, VGA};

verus! {

/// Effect of one key press routed to the shell, with Ctrl held or not.
pub open spec fn key_press_effect(
    ctrl: bool,
    key: Key,
    sh: ShellView,
    new_sh: ShellView,
    fs: FileSystem,
    new_fs: FileSystem,
    pcb: ProcessControlBlock,
    game: GameEngine,
    new_game: GameEngine,
    ticks: u64,
    s: Screen,
    new_s: Screen,
) -> bool {
    match key {
        Key::Character(c) => if ctrl {
            ctrl_effect(sh, new_sh, fs, new_fs, c, ticks, s, new_s) && new_game == game
        } else {
            char_effect(sh, new_sh, c, s, new_s) && new_fs == fs && new_game == game
        },
        Key::Space => char_effect(sh, new_sh, ' ', s, new_s) && new_fs == fs && new_game == game,
        Key::Enter => enter_effect(sh, new_sh, fs, new_fs, pcb, game, new_game, ticks, s, new_s),
        Key::Backspace => backspace_effect(sh, new_sh, s, new_s) && new_fs == fs && new_game == game,
        Key::Escape => escape_effect(sh, new_sh, s, new_s) && new_fs == fs && new_game == game,
        _ => new_sh == sh && new_fs == fs && new_game == game && new_s == s,
    }
}

/// The boot banner written over screen `s`.
pub open spec fn banner_screen(s: Screen) -> Screen {
    s.with_colors(Color::LightGreen, Color::Black).println("========================================"@).println(
        "          Welcome to AliluOS"@,
    ).println("========================================"@).with_colors(Color::White, Color::Black).println(""@).println(
        "Kernel Initialized Successfully."@,
    ).println(""@).write("> "@)
}

/// The kernel: the keyboard driver and the shell.
pub struct Kernel {
    pub keyboard: Keyboard,
    pub shell: Shell,
}

impl Kernel {
    /// A kernel with a fresh keyboard driver and shell.
    pub fn new() -> (r: Self)
        ensures
            r.keyboard@ == modifiers_reset(),
            r.shell@ == Shell::new_view(),
    {
        Kernel { keyboard: Keyboard::new(), shell: Shell::new() }
    }

    /// Boot sequence: clears the console, resets the keyboard, brings up the
    /// filesystem, and shows the banner and the first prompt.
    pub fn initialize(&mut self, vga: &mut VGA, fs: &mut FileSystem)
        requires
            old(vga).inv(),
            old(fs).wf(),
        ensures
            final(vga).inv(),
            final(fs).wf(),
            final(self).keyboard@ == modifiers_reset(),
            final(self).shell@ == old(self).shell@,
            final(vga)@ == banner_screen(old(vga)@.cleared()),
            old(fs).is_initialized() ==> *final(fs) == *old(fs),
            !old(fs).is_initialized() ==> final(fs).is_initialized() && final(fs).disk.is_initialized(),
    {
        vga.init();
        self.keyboard.init();
        fs.init();
        self.boot_banner(vga);
    }

    fn boot_banner(&mut self, vga: &mut VGA)
        requires
            old(vga).inv(),
        ensures
            final(vga).inv(),
            final(vga)@ == banner_screen(old(vga)@),
            *final(self) == *old(self),
    {
        vga.set_color(Color::LightGreen, Color::Black);
        vga.println("========================================");
        vga.println("          Welcome to AliluOS");
        vga.println("========================================");
        vga.set_color(Color::White, Color::Black);
        vga.println("");
        vga.println("Kernel Initialized Successfully.");
        vga.println("");
        vga.write("> ");
    }

    /// A key event: presses go to the shell, releases are ignored.
    pub fn handle_key_event(
        &mut self,
        event: KeyEvent,
        vga: &mut VGA,
        fs: &mut FileSystem,
        pm: &mut ProcessControlBlock,
        game: &mut GameEngine,
        ticks: u64,
    )
        requires
            old(vga).inv(),
            old(fs).wf(),
        ensures
            final(vga).inv(),
            final(fs).wf(),
            pcb_unchanged(*old(pm), *final(pm)),
            final(self).keyboard@ == old(self).keyboard@,
            match event {
                KeyEvent::Press(key) => key_press_effect(old(self).keyboard@.ctrl, key, old(self).shell@, final(self).shell@,
                    *old(fs), *final(fs), *old(pm), *old(game), *final(game), ticks, old(vga)@, final(vga)@),
                KeyEvent::Release(_) => final(self).shell@ == old(self).shell@ && *final(fs) == *old(fs)
                    && *final(game) == *old(game) && final(vga)@ == old(vga)@,
            },
    {
        match event {
            KeyEvent::Press(key) => self.handle_key_press(key, vga, fs, pm, game, ticks),
            KeyEvent::Release(_) => {},
        }
    }

    fn handle_key_press(
        &mut self,
        key: Key,
        vga: &mut VGA,
        fs: &mut FileSystem,
        pm: &mut ProcessControlBlock,
        game: &mut GameEngine,
        ticks: u64,
    )
        requires
            old(vga).inv(),
            old(fs).wf(),
        ensures
            final(vga).inv(),
            final(fs).wf(),
            pcb_unchanged(*old(pm), *final(pm)),
            final(self).keyboard@ == old(self).keyboard@,
            key_press_effect(old(self).keyboard@.ctrl, key, old(self).shell@, final(self).shell@, *old(fs), *final(fs),
                *old(pm), *old(game), *final(game), ticks, old(vga)@, final(vga)@),
    {
        let is_ctrl = self.keyboard.is_ctrl_pressed();
        match key {
            Key::Character(c) => {
                if is_ctrl {
                    self.shell.handle_ctrl_char(vga, fs, c, ticks);
                } else {
                    self.shell.handle_char(vga, c);
                }
            },
            Key::Space => self.shell.handle_space(vga),
            Key::Enter => self.shell.handle_enter(vga, fs, pm, game, ticks),
            Key::Backspace => self.shell.handle_backspace(vga),
            Key::Escape => self.shell.handle_escape(vga),
            _ => {},
        }
    }
}

} // verus!
