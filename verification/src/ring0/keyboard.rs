//! Ring 0 keyboard driver: the navigation-key layout where letters follow
//! Shift XOR Caps Lock and function keys are not decoded.
use vstd::prelude::*;
use crate::interrupts::ScancodeBuffer;
use crate::keyboard::{
    ascii_upper, event_of, is_ascii_lower, is_release, key_code, letter_of, letter_on_key,
    modifiers_after, modifiers_reset, symbol_of, symbol_on_key, to_ascii_upper, Modifiers,
};
pub use crate::keyboard::{Key, KeyEvent};

verus! {

/// Letter case of the ring 0 layout: upper case when exactly one of Shift and Caps Lock is active.
pub open spec fn ring0_letter(m: Modifiers, c: char) -> char {
    if m.shift != m.caps_lock { ascii_upper(c) } else { c }
}

/// Character keys of the ring 0 layout.
pub open spec fn ring0_char_key(m: Modifiers, code: u8) -> Key {
    if symbol_of(code, m.shift) is Some {
        Key::Character(symbol_of(code, m.shift)->0)
    } else if letter_of(code) is Some {
        Key::Character(ring0_letter(m, letter_of(code)->0))
    } else {
        Key::Unknown
    }
}

/// The key of a key code under the ring 0 layout.
pub open spec fn ring0_layout_key(m: Modifiers, code: u8) -> Key {
    if code == 0x01 { Key::Escape }
    else if code == 0x0E { Key::Backspace }
    else if code == 0x0F { Key::Tab }
    else if code == 0x1C { Key::Enter }
    else if code == 0x1D { Key::Ctrl }
    else if code == 0x2A || code == 0x36 { Key::Shift }
    else if code == 0x38 { Key::Alt }
    else if code == 0x39 { Key::Space }
    else if code == 0x3A { Key::CapsLock }
    else if code == 0x47 { Key::Home }
    else if code == 0x48 { Key::Up }
    else if code == 0x49 { Key::PageUp }
    else if code == 0x4B { Key::Left }
    else if code == 0x4D { Key::Right }
    else if code == 0x4F { Key::End }
    else if code == 0x50 { Key::Down }
    else if code == 0x51 { Key::PageDown }
    else if code == 0x52 { Key::Insert }
    else if code == 0x53 { Key::Delete }
    else { ring0_char_key(m, code) }
}

/// Ring 0 keyboard driver state.
pub struct Keyboard {
    shift: bool,
    ctrl: bool,
    alt: bool,
    caps_lock: bool,
    caps_lock_pressed: bool,
    num_lock: bool,
    scroll_lock: bool,
}

impl Keyboard {
    pub closed spec fn view(&self) -> Modifiers {
        Modifiers {
            shift: self.shift,
            ctrl: self.ctrl,
            alt: self.alt,
            caps_lock: self.caps_lock,
            caps_lock_pressed: self.caps_lock_pressed,
            num_lock: self.num_lock,
            scroll_lock: self.scroll_lock,
        }
    }

    pub fn new() -> (r: Self)
        ensures
            r@ == modifiers_reset(),
    {
        Keyboard {
            shift: false,
            ctrl: false,
            alt: false,
            caps_lock: false,
            caps_lock_pressed: false,
            num_lock: false,
            scroll_lock: false,
        }
    }

    pub fn init(&mut self)
        ensures
            final(self)@ == modifiers_reset(),
    {
        self.reset();
    }

    pub fn reset(&mut self)
        ensures
            final(self)@ == modifiers_reset(),
    {
        self.shift = false;
        self.ctrl = false;
        self.alt = false;
        self.caps_lock = false;
        self.caps_lock_pressed = false;
        self.num_lock = false;
        self.scroll_lock = false;
    }

    pub fn is_shift_pressed(&self) -> (r: bool)
        ensures
            r == self@.shift,
    {
        self.shift
    }

    pub fn is_ctrl_pressed(&self) -> (r: bool)
        ensures
            r == self@.ctrl,
    {
        self.ctrl
    }

    pub fn is_alt_pressed(&self) -> (r: bool)
        ensures
            r == self@.alt,
    {
        self.alt
    }

    /// Translates the next scancode queued by the keyboard interrupt, if any.
    pub fn read_key(&mut self, queue: &mut ScancodeBuffer) -> (r: Option<KeyEvent>)
        requires
            old(queue).inv(),
        ensures
            final(queue).inv(),
            old(queue)@.len() == 0 ==> r is None && final(self)@ == old(self)@ && final(queue)@ == old(queue)@,
            old(queue)@.len() > 0 ==> {
                let sc = old(queue)@[0];
                &&& final(queue)@ == old(queue)@.drop_first()
                &&& r == Some(event_of(sc, ring0_layout_key(old(self)@, key_code(sc))))
                &&& final(self)@ == modifiers_after(old(self)@, sc)
            },
    {
        match queue.pop() {
            Some(scancode) => Some(self.translate(scancode)),
            None => None,
        }
    }

    /// Translates one set 1 scancode into an event and updates the modifiers.
    pub fn translate(&mut self, scancode: u8) -> (r: KeyEvent)
        ensures
            r == event_of(scancode, ring0_layout_key(old(self)@, key_code(scancode))),
            final(self)@ == modifiers_after(old(self)@, scancode),
    {
        let release = scancode & 0x80 != 0;
        let code = scancode & 0x7F;
        assert(((scancode & 0x80u8) != 0u8) == (scancode >= 0x80u8) && (scancode & 0x7Fu8) == scancode % 0x80u8) by (bit_vector);
        let key = match code {
            0x01 => Key::Escape,
            0x0E => Key::Backspace,
            0x0F => Key::Tab,
            0x1C => Key::Enter,
            0x1D => {
                self.ctrl = !release;
                Key::Ctrl
            },
            0x2A | 0x36 => {
                self.shift = !release;
                Key::Shift
            },
            0x38 => {
                self.alt = !release;
                Key::Alt
            },
            0x39 => Key::Space,
            0x3A => {
                if !release {
                    if !self.caps_lock_pressed {
                        self.caps_lock = !self.caps_lock;
                        self.caps_lock_pressed = true;
                    }
                } else {
                    self.caps_lock_pressed = false;
                }
                Key::CapsLock
            },
            0x47 => Key::Home,
            0x48 => Key::Up,
            0x49 => Key::PageUp,
            0x4B => Key::Left,
            0x4D => Key::Right,
            0x4F => Key::End,
            0x50 => Key::Down,
            0x51 => Key::PageDown,
            0x52 => Key::Insert,
            0x53 => Key::Delete,
            _ => self.translate_char(code),
        };
        if release {
            KeyEvent::Release(key)
        } else {
            KeyEvent::Press(key)
        }
    }

    /// Character keys: digits and punctuation follow Shift, letters follow Shift XOR Caps Lock.
    pub fn translate_char(&self, code: u8) -> (r: Key)
        ensures
            r == ring0_char_key(self@, code),
    {
        let shift_active = self.shift ^ self.caps_lock;
        match symbol_on_key(code, self.shift) {
            Some(c) => Key::Character(c),
            None => match letter_on_key(code) {
                Some(c) => Key::Character(if shift_active { to_ascii_upper(c) } else { c }),
                None => Key::Unknown,
            },
        }
    }
}

} // verus!
