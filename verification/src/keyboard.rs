//! PS/2 keyboard driver: turns set 1 scancodes into key events and tracks the
//! modifier keys.
use vstd::prelude::*;
use crate::interrupts::ScancodeBuffer;

verus! {

/// Keys reported by the keyboard driver.
#[derive(Debug, Clone, Copy, PartialEq, Eq)]
pub enum Key {
    Character(char),
    Enter,
    Backspace,
    Tab,
    Escape,
    Space,
    Left,
    Right,
    Up,
    Down,
    Home,
    End,
    Insert,
    Delete,
    PageUp,
    PageDown,
    Function(u8),
    Shift,
    Ctrl,
    Alt,
    CapsLock,
    NumLock,
    ScrollLock,
    Unknown,
}

/// A key going down or coming up.
#[derive(Debug, Clone, Copy, PartialEq, Eq)]
pub enum KeyEvent {
    Press(Key),
    Release(Key),
}

/// Modifier and lock state of a keyboard.
pub struct Modifiers {
    pub shift: bool,
    pub ctrl: bool,
    pub alt: bool,
    pub caps_lock: bool,
    pub caps_lock_pressed: bool,
    pub num_lock: bool,
    pub scroll_lock: bool,
}

/// All modifiers up, all locks off.
pub open spec fn modifiers_reset() -> Modifiers {
    Modifiers {
        shift: false,
        ctrl: false,
        alt: false,
        caps_lock: false,
        caps_lock_pressed: false,
        num_lock: false,
        scroll_lock: false,
    }
}

/// Whether bit 7 (key release) of a scancode is set.
pub open spec fn is_release(scancode: u8) -> bool {
    scancode >= 0x80
}

/// The scancode without its release bit.
pub open spec fn key_code(scancode: u8) -> u8 {
    (scancode % 0x80) as u8
}

/// Modifier state after a scancode: Shift, Ctrl and Alt follow their key,
/// Caps Lock toggles once per press (auto-repeat does not toggle it again).
pub open spec fn modifiers_after(m: Modifiers, scancode: u8) -> Modifiers {
    let released = is_release(scancode);
    let code = key_code(scancode);
    if code == 0x2A || code == 0x36 {
        Modifiers { shift: !released, ..m }
    } else if code == 0x1D {
        Modifiers { ctrl: !released, ..m }
    } else if code == 0x38 {
        Modifiers { alt: !released, ..m }
    } else if code == 0x3A {
        if !released {
            if !m.caps_lock_pressed {
                Modifiers { caps_lock: !m.caps_lock, caps_lock_pressed: true, ..m }
            } else {
                m
            }
        } else {
            Modifiers { caps_lock_pressed: false, ..m }
        }
    } else {
        m
    }
}

/// Upper-case form of an ASCII lower-case letter.
pub open spec fn ascii_upper(c: char) -> char {
    ((c as u32) - 32) as char
}

pub open spec fn is_ascii_lower(c: char) -> bool {
    'a' <= c <= 'z'
}

/// A letter key: upper case when Caps Lock or Shift is active.
pub open spec fn letter_case(m: Modifiers, c: char) -> char {
    if m.caps_lock || m.shift { ascii_upper(c) } else { c }
}

/// The key of a key code under the kernel keyboard layout.
pub open spec fn layout_key(m: Modifiers, code: u8) -> Key {
    if code == 0x01 { Key::Escape }
    else if code == 0x0E { Key::Backspace }
    else if code == 0x0F { Key::Tab }
    else if code == 0x1C { Key::Enter }
    else if code == 0x39 { Key::Space }
    else if code == 0x2A || code == 0x36 { Key::Shift }
    else if code == 0x1D { Key::Ctrl }
    else if code == 0x38 { Key::Alt }
    else if code == 0x3A { Key::CapsLock }
    else if 0x3B <= code <= 0x44 { Key::Function((code - 0x3A) as u8) }
    else if code == 0x57 { Key::Function(11) }
    else if code == 0x58 { Key::Function(12) }
    else if symbol_of(code, m.shift) is Some { Key::Character(symbol_of(code, m.shift)->0) }
    else if letter_of(code) is Some { Key::Character(letter_case(m, letter_of(code)->0)) }
    else { Key::Unknown }
}

/// Digit or punctuation character of a key code, with or without Shift.
pub open spec fn symbol_of(code: u8, shift: bool) -> Option<char> {
    let s = shift;
    if code == 0x02 { Some(if s { '!' } else { '1' }) }
    else if code == 0x03 { Some(if s { '@' } else { '2' }) }
    else if code == 0x04 { Some(if s { '#' } else { '3' }) }
    else if code == 0x05 { Some(if s { '$' } else { '4' }) }
    else if code == 0x06 { Some(if s { '%' } else { '5' }) }
    else if code == 0x07 { Some(if s { '^' } else { '6' }) }
    else if code == 0x08 { Some(if s { '&' } else { '7' }) }
    else if code == 0x09 { Some(if s { '*' } else { '8' }) }
    else if code == 0x0A { Some(if s { '(' } else { '9' }) }
    else if code == 0x0B { Some(if s { ')' } else { '0' }) }
    else if code == 0x0C { Some(if s { '_' } else { '-' }) }
    else if code == 0x0D { Some(if s { '+' } else { '=' }) }
    else if code == 0x1A { Some(if s { '{' } else { '[' }) }
    else if code == 0x1B { Some(if s { '}' } else { ']' }) }
    else if code == 0x27 { Some(if s { ':' } else { ';' }) }
    else if code == 0x28 { Some(if s { '"' } else { '\'' }) }
    else if code == 0x29 { Some(if s { '~' } else { '`' }) }
    else if code == 0x2B { Some(if s { '|' } else { '\\' }) }
    else if code == 0x33 { Some(if s { '<' } else { ',' }) }
    else if code == 0x34 { Some(if s { '>' } else { '.' }) }
    else if code == 0x35 { Some(if s { '?' } else { '/' }) }
    else { None }
}

/// Digit or punctuation character of a key code, with or without Shift.
pub fn symbol_on_key(code: u8, shift: bool) -> (r: Option<char>)
    ensures
        r == symbol_of(code, shift),
{
    let s = shift;
    match code {
        0x02 => Some(if s { '!' } else { '1' }),
        0x03 => Some(if s { '@' } else { '2' }),
        0x04 => Some(if s { '#' } else { '3' }),
        0x05 => Some(if s { '$' } else { '4' }),
        0x06 => Some(if s { '%' } else { '5' }),
        0x07 => Some(if s { '^' } else { '6' }),
        0x08 => Some(if s { '&' } else { '7' }),
        0x09 => Some(if s { '*' } else { '8' }),
        0x0A => Some(if s { '(' } else { '9' }),
        0x0B => Some(if s { ')' } else { '0' }),
        0x0C => Some(if s { '_' } else { '-' }),
        0x0D => Some(if s { '+' } else { '=' }),
        0x1A => Some(if s { '{' } else { '[' }),
        0x1B => Some(if s { '}' } else { ']' }),
        0x27 => Some(if s { ':' } else { ';' }),
        0x28 => Some(if s { '"' } else { '\'' }),
        0x29 => Some(if s { '~' } else { '`' }),
        0x2B => Some(if s { '|' } else { '\\' }),
        0x33 => Some(if s { '<' } else { ',' }),
        0x34 => Some(if s { '>' } else { '.' }),
        0x35 => Some(if s { '?' } else { '/' }),
        _ => None,
    }
}

/// Lower-case letter printed on a letter key of the set 1 layout.
pub open spec fn letter_of(code: u8) -> Option<char> {
    if code == 0x10 { Some('q') }
    else if code == 0x11 { Some('w') }
    else if code == 0x12 { Some('e') }
    else if code == 0x13 { Some('r') }
    else if code == 0x14 { Some('t') }
    else if code == 0x15 { Some('y') }
    else if code == 0x16 { Some('u') }
    else if code == 0x17 { Some('i') }
    else if code == 0x18 { Some('o') }
    else if code == 0x19 { Some('p') }
    else if code == 0x1E { Some('a') }
    else if code == 0x1F { Some('s') }
    else if code == 0x20 { Some('d') }
    else if code == 0x21 { Some('f') }
    else if code == 0x22 { Some('g') }
    else if code == 0x23 { Some('h') }
    else if code == 0x24 { Some('j') }
    else if code == 0x25 { Some('k') }
    else if code == 0x26 { Some('l') }
    else if code == 0x2C { Some('z') }
    else if code == 0x2D { Some('x') }
    else if code == 0x2E { Some('c') }
    else if code == 0x2F { Some('v') }
    else if code == 0x30 { Some('b') }
    else if code == 0x31 { Some('n') }
    else if code == 0x32 { Some('m') }
    else { None }
}

/// The character Shift gives on the US key whose unshifted character is `c`.
pub open spec fn us_shifted(c: char) -> Option<char> {
    if c == '1' { Some('!') }
    else if c == '2' { Some('@') }
    else if c == '3' { Some('#') }
    else if c == '4' { Some('$') }
    else if c == '5' { Some('%') }
    else if c == '6' { Some('^') }
    else if c == '7' { Some('&') }
    else if c == '8' { Some('*') }
    else if c == '9' { Some('(') }
    else if c == '0' { Some(')') }
    else if c == '-' { Some('_') }
    else if c == '=' { Some('+') }
    else if c == '[' { Some('{') }
    else if c == ']' { Some('}') }
    else if c == ';' { Some(':') }
    else if c == '\'' { Some('"') }
    else if c == '`' { Some('~') }
    else if c == '\\' { Some('|') }
    else if c == ',' { Some('<') }
    else if c == '.' { Some('>') }
    else if c == '/' { Some('?') }
    else { None }
}

/// Every symbol key pairs its unshifted and shifted characters as a US key
/// does, and no two keys give the same unshifted character.
pub proof fn lemma_symbol_keys_us_layout(c1: u8, c2: u8)
    ensures
        symbol_of(c1, false) matches Some(u) ==> symbol_of(c1, true) is Some && us_shifted(u) == symbol_of(c1, true),
        symbol_of(c1, true) is Some ==> symbol_of(c1, false) is Some,
        c1 != c2 && symbol_of(c1, false) is Some ==> symbol_of(c1, false) != symbol_of(c2, false),
{
}

/// No two letter keys give the same letter.
pub proof fn lemma_letter_keys_distinct(c1: u8, c2: u8)
    ensures
        c1 != c2 && letter_of(c1) is Some ==> letter_of(c1) != letter_of(c2),
{
}

/// The letter keys are the three QWERTY rows: "qwertyuiop" from key code
/// 0x10, "asdfghjkl" from 0x1E and "zxcvbnm" from 0x2C; the digit keys give
/// "1234567890" from key code 0x02.
pub proof fn lemma_keys_follow_qwerty_rows()
    ensures
        forall|i: int| 0 <= i < 10 ==> letter_of((0x10 + i) as u8) == Some(#[trigger] "qwertyuiop"@[i]),
        forall|i: int| 0 <= i < 9 ==> letter_of((0x1E + i) as u8) == Some(#[trigger] "asdfghjkl"@[i]),
        forall|i: int| 0 <= i < 7 ==> letter_of((0x2C + i) as u8) == Some(#[trigger] "zxcvbnm"@[i]),
        forall|i: int| 0 <= i < 10 ==> symbol_of((0x02 + i) as u8, false) == Some(#[trigger] "1234567890"@[i]),
{
    reveal_strlit("qwertyuiop");
    reveal_strlit("asdfghjkl");
    reveal_strlit("zxcvbnm");
    reveal_strlit("1234567890");
}

/// Letter on a letter key.
pub fn letter_on_key(code: u8) -> (r: Option<char>)
    ensures
        r == letter_of(code),
        r matches Some(c) ==> is_ascii_lower(c),
{
    match code {
        0x10 => Some('q'),
        0x11 => Some('w'),
        0x12 => Some('e'),
        0x13 => Some('r'),
        0x14 => Some('t'),
        0x15 => Some('y'),
        0x16 => Some('u'),
        0x17 => Some('i'),
        0x18 => Some('o'),
        0x19 => Some('p'),
        0x1E => Some('a'),
        0x1F => Some('s'),
        0x20 => Some('d'),
        0x21 => Some('f'),
        0x22 => Some('g'),
        0x23 => Some('h'),
        0x24 => Some('j'),
        0x25 => Some('k'),
        0x26 => Some('l'),
        0x2C => Some('z'),
        0x2D => Some('x'),
        0x2E => Some('c'),
        0x2F => Some('v'),
        0x30 => Some('b'),
        0x31 => Some('n'),
        0x32 => Some('m'),
        _ => None,
    }
}

/// Upper-case form of an ASCII lower-case letter.
pub fn to_ascii_upper(c: char) -> (r: char)
    requires
        is_ascii_lower(c),
    ensures
        r == ascii_upper(c),
{
    let b = c as u8;
    let r = (b - 32) as char;
    r
}

/// The event of a scancode: release when bit 7 is set, press otherwise.
pub open spec fn event_of(scancode: u8, key: Key) -> KeyEvent {
    if is_release(scancode) { KeyEvent::Release(key) } else { KeyEvent::Press(key) }
}

/// Caps Lock toggles once per press: holding it down (auto-repeat) does not
/// toggle it again, and releasing it arms the next toggle.
pub proof fn lemma_caps_lock_toggles_once(m: Modifiers)
    requires
        !m.caps_lock_pressed,
    ensures
        ({
            let down = modifiers_after(m, 0x3A);
            let held = modifiers_after(down, 0x3A);
            let up = modifiers_after(held, 0xBA);
            &&& down.caps_lock == !m.caps_lock
            &&& held.caps_lock == !m.caps_lock
            &&& up.caps_lock == !m.caps_lock
            &&& !up.caps_lock_pressed
        }),
{
}

/// Keyboard driver state.
pub struct Keyboard {
    shift: bool,
    ctrl: bool,
    alt: bool,
    caps_lock: bool,
    caps_lock_pressed: bool,
    num_lock: bool,
    scroll_lock: bool,
}

impl Keyboard {
    pub closed spec fn view(&self) -> Modifiers {
        Modifiers {
            shift: self.shift,
            ctrl: self.ctrl,
            alt: self.alt,
            caps_lock: self.caps_lock,
            caps_lock_pressed: self.caps_lock_pressed,
            num_lock: self.num_lock,
            scroll_lock: self.scroll_lock,
        }
    }

    /// A keyboard with no modifier held and no lock on.
    pub fn new() -> (r: Self)
        ensures
            r@ == modifiers_reset(),
    {
        Keyboard {
            shift: false,
            ctrl: false,
            alt: false,
            caps_lock: false,
            caps_lock_pressed: false,
            num_lock: false,
            scroll_lock: false,
        }
    }

    /// Resets the driver state at boot.
    pub fn init(&mut self)
        ensures
            final(self)@ == modifiers_reset(),
    {
        self.reset();
    }

    /// Releases every modifier and switches every lock off.
    pub fn reset(&mut self)
        ensures
            final(self)@ == modifiers_reset(),
    {
        self.shift = false;
        self.ctrl = false;
        self.alt = false;
        self.caps_lock = false;
        self.caps_lock_pressed = false;
        self.num_lock = false;
        self.scroll_lock = false;
    }

    /// Stops the driver; it keeps no resource, so its state stays as it is.
    pub fn shutdown(&mut self)
        ensures
            final(self)@ == old(self)@,
    {
    }

    pub fn is_shift_pressed(&self) -> (r: bool)
        ensures
            r == self@.shift,
    {
        self.shift
    }

    pub fn is_ctrl_pressed(&self) -> (r: bool)
        ensures
            r == self@.ctrl,
    {
        self.ctrl
    }

    pub fn is_alt_pressed(&self) -> (r: bool)
        ensures
            r == self@.alt,
    {
        self.alt
    }

    /// Translates the next scancode queued by the keyboard interrupt.
    /// `None` when the queue is empty (the caller may then poll the
    /// controller and hand the byte to `translate`).
    pub fn read_key(&mut self, queue: &mut ScancodeBuffer) -> (r: Option<KeyEvent>)
        requires
            old(queue).inv(),
        ensures
            final(queue).inv(),
            old(queue)@.len() == 0 ==> r is None && final(self)@ == old(self)@ && final(queue)@ == old(queue)@,
            old(queue)@.len() > 0 ==> {
                let sc = old(queue)@[0];
                &&& final(queue)@ == old(queue)@.drop_first()
                &&& r == Some(event_of(sc, layout_key(old(self)@, key_code(sc))))
                &&& final(self)@ == modifiers_after(old(self)@, sc)
            },
    {
        match queue.pop() {
            Some(scancode) => Some(self.translate(scancode)),
            None => None,
        }
    }

    fn letter(&self, c: char) -> (r: char)
        requires
            is_ascii_lower(c),
        ensures
            r == letter_case(self@, c),
    {
        let is_upper = self.caps_lock || self.shift;
        if is_upper { to_ascii_upper(c) } else { c }
    }

    /// Translates one set 1 scancode into an event and updates the modifiers.
    pub fn translate(&mut self, scancode: u8) -> (r: KeyEvent)
        ensures
            r == event_of(scancode, layout_key(old(self)@, key_code(scancode))),
            final(self)@ == modifiers_after(old(self)@, scancode),
    {
        let released = scancode & 0x80 != 0;
        let code = scancode & 0x7F;
        assert(((scancode & 0x80u8) != 0u8) == (scancode >= 0x80u8) && (scancode & 0x7Fu8) == scancode % 0x80u8) by (bit_vector);
        let key = match code {
            0x01 => Key::Escape,
            0x0E => Key::Backspace,
            0x0F => Key::Tab,
            0x1C => Key::Enter,
            0x39 => Key::Space,
            0x2A | 0x36 => {
                self.shift = !released;
                Key::Shift
            },
            0x1D => {
                self.ctrl = !released;
                Key::Ctrl
            },
            0x38 => {
                self.alt = !released;
                Key::Alt
            },
            0x3A => {
                if !released {
                    if !self.caps_lock_pressed {
                        self.caps_lock = !self.caps_lock;
                        self.caps_lock_pressed = true;
                    }
                } else {
                    self.caps_lock_pressed = false;
                }
                Key::CapsLock
            },
            0x3B..=0x44 => Key::Function(code - 0x3A),
            0x57 => Key::Function(11),
            0x58 => Key::Function(12),
            _ => match symbol_on_key(code, self.shift) {
                Some(c) => Key::Character(c),
                None => match letter_on_key(code) {
                    Some(c) => Key::Character(self.letter(c)),
                    None => Key::Unknown,
                },
            },
        };
        if released {
            KeyEvent::Release(key)
        } else {
            KeyEvent::Press(key)
        }
    }
}

} // verus!
