//! Key bindings of the terminal interface: which action a key press
//! resolves to, and how keys and actions are described.
use vstd::prelude::*;
use crate::text::{decimal, decimal_string, push_char};

verus! {

/// A media key.
#[derive(Debug, Clone, Copy, PartialEq, Eq, Structural)]
pub enum MediaKeyCode {
    Play,
    Pause,
    PlayPause,
    Reverse,
    Stop,
    FastForward,
    Rewind,
    TrackNext,
    TrackPrevious,
    Record,
    LowerVolume,
    RaiseVolume,
    MuteVolume,
}

/// A modifier key pressed on its own.
#[derive(Debug, Clone, Copy, PartialEq, Eq, Structural)]
pub enum ModifierKeyCode {
    LeftShift,
    LeftControl,
    LeftAlt,
    LeftSuper,
    LeftHyper,
    LeftMeta,
    RightShift,
    RightControl,
    RightAlt,
    RightSuper,
    RightHyper,
    RightMeta,
    IsoLevel3Shift,
    IsoLevel5Shift,
}

/// A key.
#[derive(Debug, Clone, Copy, PartialEq, Eq, Structural)]
pub enum KeyCode {
    Backspace,
    Enter,
    Left,
    Right,
    Up,
    Down,
    Home,
    End,
    PageUp,
    PageDown,
    Tab,
    BackTab,
    Delete,
    Insert,
    F(u8),
    Char(char),
    Null,
    Esc,
    CapsLock,
    ScrollLock,
    NumLock,
    PrintScreen,
    Pause,
    Menu,
    KeypadBegin,
    Media(MediaKeyCode),
    Modifier(ModifierKeyCode),
}

/// Held modifiers, one bit each: shift 1, control 2, alt 4, super 8,
/// hyper 16, meta 32.
#[derive(Debug, Clone, Copy, PartialEq, Eq, Structural)]
pub struct KeyModifiers {
    pub bits: u8,
}

pub const SHIFT_BIT: u8 = 1;

pub const CONTROL_BIT: u8 = 2;

pub const ALT_BIT: u8 = 4;

impl KeyModifiers {
    pub fn from_bits(bits: u8) -> (m: Self)
        ensures
            m.bits == bits,
    {
        KeyModifiers { bits }
    }

    pub open spec fn has(&self, bit: u8) -> bool {
        self.bits & bit == bit
    }

    pub fn contains(&self, bit: u8) -> (b: bool)
        ensures
            b == self.has(bit),
    {
        self.bits & bit == bit
    }

    pub fn is_empty(&self) -> (b: bool)
        ensures
            b == (self.bits == 0),
    {
        self.bits == 0
    }
}

/// A key press: the key and the held modifiers.
#[derive(Debug, Clone, Copy, PartialEq, Eq, Structural)]
pub struct KeyEvent {
    pub code: KeyCode,
    pub modifiers: KeyModifiers,
}

impl KeyEvent {
    pub fn new(code: KeyCode, modifiers: KeyModifiers) -> (e: Self)
        ensures
            e.code == code,
            e.modifiers == modifiers,
    {
        KeyEvent { code, modifiers }
    }
}

/// What a key press asks for.
#[derive(Debug, Clone, Copy, PartialEq, Eq, Structural)]
pub enum Action {
    Quit,
    CancelResponse,
    MoveUp,
    MoveDown,
    MoveLeft,
    MoveRight,
    ScrollUp,
    ScrollDown,
    ScrollToTop,
    ScrollToBottom,
    Confirm,
    Cancel,
    SwitchPanel,
    SendMessage,
    TypeChar(char),
    DeleteChar,
    HistoryPrev,
    HistoryNext,
    OpenProviderPicker,
    RestoreContext,
    OpenCommandPicker,
    InspectAgent,
    NoAction,
}

/// The bindings, in the order they were made.
pub struct Keymap {
    global: Vec<(KeyEvent, Action)>,
}

/// A binding at `i` matches `key`, and none before it does.
pub open spec fn first_binding(bs: Seq<(KeyEvent, Action)>, key: KeyEvent, i: int) -> bool {
    &&& 0 <= i < bs.len()
    &&& bs[i].0.code == key.code && bs[i].0.modifiers == key.modifiers
    &&& forall|k: int| 0 <= k < i ==> !(bs[k].0.code == key.code && bs[k].0.modifiers == key.modifiers)
}

/// The action a key resolves to: that of the first binding for it; else a
/// typed character for a plain or shifted character key; else none.
pub open spec fn resolved(bs: Seq<(KeyEvent, Action)>, key: KeyEvent) -> Action {
    if exists|i: int| first_binding(bs, key, i) {
        bs[choose|i: int| first_binding(bs, key, i)].1
    } else if (key.modifiers.bits == 0 || key.modifiers.bits == SHIFT_BIT) && key.code is Char {
        Action::TypeChar(key.code->Char_0)
    } else {
        Action::NoAction
    }
}

pub open spec fn key(code: KeyCode, bits: u8) -> KeyEvent {
    KeyEvent { code, modifiers: KeyModifiers { bits } }
}

/// The default bindings, in order.
pub open spec fn default_bindings() -> Seq<(KeyEvent, Action)> {
    seq![
        (key(KeyCode::Char('c'), CONTROL_BIT), Action::Quit),
        (key(KeyCode::Char('x'), CONTROL_BIT), Action::CancelResponse),
        (key(KeyCode::Up, 0), Action::MoveUp),
        (key(KeyCode::Down, 0), Action::MoveDown),
        (key(KeyCode::Left, 0), Action::MoveLeft),
        (key(KeyCode::Right, 0), Action::MoveRight),
        (key(KeyCode::Esc, 0), Action::Cancel),
        (key(KeyCode::Backspace, 0), Action::DeleteChar),
        (key(KeyCode::Enter, 0), Action::SendMessage),
        (key(KeyCode::Char('i'), CONTROL_BIT), Action::InspectAgent),
        (key(KeyCode::F(1), 0), Action::OpenCommandPicker),
    ]
}

impl Keymap {
    pub closed spec fn bindings(&self) -> Seq<(KeyEvent, Action)> {
        self.global@
    }

    pub fn new() -> (k: Self)
        ensures
            k.bindings() == Seq::<(KeyEvent, Action)>::empty(),
    {
        Keymap { global: Vec::new() }
    }

    /// Add a binding after the existing ones.
    pub fn bind(&mut self, key: KeyEvent, action: Action)
        ensures
            final(self).bindings() == old(self).bindings().push((key, action)),
    {
        self.global.push((key, action));
    }

    /// The action a key press resolves to.
    pub fn resolve(&self, key: KeyEvent) -> (a: Action)
        ensures
            a == resolved(self.bindings(), key),
    {
        let mut i: usize = 0;
        while i < self.global.len()
            invariant
                i <= self.global@.len(),
                forall|k: int| 0 <= k < i ==> !(self.global@[k].0.code == key.code && self.global@[k].0.modifiers == key.modifiers),
            decreases self.global@.len() - i,
        {
            let (k, action) = self.global[i];
            if k.code == key.code && k.modifiers == key.modifiers {
                proof {
                    assert(first_binding(self.global@, key, i as int));
                    let j = choose|j: int| first_binding(self.global@, key, j);
                    if j < i {
                        assert(!(self.global@[j].0.code == key.code && self.global@[j].0.modifiers == key.modifiers));
                    }
                    if i < j {
                        assert(!(self.global@[i as int].0.code == key.code && self.global@[i as int].0.modifiers
                            == key.modifiers));
                    }
                }
                return action;
            }
            i += 1;
        }
        if key.modifiers.is_empty() || key.modifiers.bits == SHIFT_BIT {
            if let KeyCode::Char(c) = key.code {
                return Action::TypeChar(c);
            }
        }
        Action::NoAction
    }

    /// Every binding with its key described.
    pub fn all_bindings(&self) -> (r: Vec<(String, Action)>)
        ensures
            r@.len() == self.bindings().len(),
            forall|i: int| 0 <= i < r@.len() ==> (#[trigger] r@[i]).0@ == key_text(self.bindings()[i].0) && r@[i].1
                == self.bindings()[i].1,
    {
        let mut r: Vec<(String, Action)> = Vec::new();
        let mut i: usize = 0;
        while i < self.global.len()
            invariant
                i <= self.global@.len(),
                r@.len() == i,
                forall|k: int| 0 <= k < i ==> (#[trigger] r@[k]).0@ == key_text(self.global@[k].0) && r@[k].1
                    == self.global@[k].1,
            decreases self.global@.len() - i,
        {
            let (k, action) = self.global[i];
            r.push((format_key(&k), action));
            i += 1;
        }
        r
    }
}

impl Default for Keymap {
    fn default() -> (k: Self)
        ensures
            k.bindings() == default_bindings(),
    {
        let mut km = Keymap::new();
        let none = KeyModifiers::from_bits(0);
        let ctrl = KeyModifiers::from_bits(CONTROL_BIT);
        km.bind(KeyEvent::new(KeyCode::Char('c'), ctrl), Action::Quit);
        km.bind(KeyEvent::new(KeyCode::Char('x'), ctrl), Action::CancelResponse);
        km.bind(KeyEvent::new(KeyCode::Up, none), Action::MoveUp);
        km.bind(KeyEvent::new(KeyCode::Down, none), Action::MoveDown);
        km.bind(KeyEvent::new(KeyCode::Left, none), Action::MoveLeft);
        km.bind(KeyEvent::new(KeyCode::Right, none), Action::MoveRight);
        km.bind(KeyEvent::new(KeyCode::Esc, none), Action::Cancel);
        km.bind(KeyEvent::new(KeyCode::Backspace, none), Action::DeleteChar);
        km.bind(KeyEvent::new(KeyCode::Enter, none), Action::SendMessage);
        km.bind(KeyEvent::new(KeyCode::Char('i'), ctrl), Action::InspectAgent);
        km.bind(KeyEvent::new(KeyCode::F(1), none), Action::OpenCommandPicker);
        assert(km.bindings() =~= default_bindings());
        km
    }
}

/// `char::to_ascii_lowercase`.
pub open spec fn ascii_lower(c: char) -> char {
    if 'A' <= c <= 'Z' {
        ((c as u32) + 32) as char
    } else {
        c
    }
}

fn to_ascii_lower(c: char) -> (r: char)
    ensures
        r == ascii_lower(c),
{
    if 'A' <= c && c <= 'Z' {
        let b = (c as u32) as u8;
        (b + 32) as char
    } else {
        c
    }
}

pub open spec fn media_name(m: MediaKeyCode) -> Seq<char> {
    match m {
        MediaKeyCode::Play => "Play"@,
        MediaKeyCode::Pause => "Pause"@,
        MediaKeyCode::PlayPause => "PlayPause"@,
        MediaKeyCode::Reverse => "Reverse"@,
        MediaKeyCode::Stop => "Stop"@,
        MediaKeyCode::FastForward => "FastForward"@,
        MediaKeyCode::Rewind => "Rewind"@,
        MediaKeyCode::TrackNext => "TrackNext"@,
        MediaKeyCode::TrackPrevious => "TrackPrevious"@,
        MediaKeyCode::Record => "Record"@,
        MediaKeyCode::LowerVolume => "LowerVolume"@,
        MediaKeyCode::RaiseVolume => "RaiseVolume"@,
        MediaKeyCode::MuteVolume => "MuteVolume"@,
    }
}

fn media_str(m: MediaKeyCode) -> (s: &'static str)
    ensures
        s@ == media_name(m),
{
    match m {
        MediaKeyCode::Play => "Play",
        MediaKeyCode::Pause => "Pause",
        MediaKeyCode::PlayPause => "PlayPause",
        MediaKeyCode::Reverse => "Reverse",
        MediaKeyCode::Stop => "Stop",
        MediaKeyCode::FastForward => "FastForward",
        MediaKeyCode::Rewind => "Rewind",
        MediaKeyCode::TrackNext => "TrackNext",
        MediaKeyCode::TrackPrevious => "TrackPrevious",
        MediaKeyCode::Record => "Record",
        MediaKeyCode::LowerVolume => "LowerVolume",
        MediaKeyCode::RaiseVolume => "RaiseVolume",
        MediaKeyCode::MuteVolume => "MuteVolume",
    }
}

pub open spec fn modifier_name(m: ModifierKeyCode) -> Seq<char> {
    match m {
        ModifierKeyCode::LeftShift => "LeftShift"@,
        ModifierKeyCode::LeftControl => "LeftControl"@,
        ModifierKeyCode::LeftAlt => "LeftAlt"@,
        ModifierKeyCode::LeftSuper => "LeftSuper"@,
        ModifierKeyCode::LeftHyper => "LeftHyper"@,
        ModifierKeyCode::LeftMeta => "LeftMeta"@,
        ModifierKeyCode::RightShift => "RightShift"@,
        ModifierKeyCode::RightControl => "RightControl"@,
        ModifierKeyCode::RightAlt => "RightAlt"@,
        ModifierKeyCode::RightSuper => "RightSuper"@,
        ModifierKeyCode::RightHyper => "RightHyper"@,
        ModifierKeyCode::RightMeta => "RightMeta"@,
        ModifierKeyCode::IsoLevel3Shift => "IsoLevel3Shift"@,
        ModifierKeyCode::IsoLevel5Shift => "IsoLevel5Shift"@,
    }
}

fn modifier_str(m: ModifierKeyCode) -> (s: &'static str)
    ensures
        s@ == modifier_name(m),
{
    match m {
        ModifierKeyCode::LeftShift => "LeftShift",
        ModifierKeyCode::LeftControl => "LeftControl",
        ModifierKeyCode::LeftAlt => "LeftAlt",
        ModifierKeyCode::LeftSuper => "LeftSuper",
        ModifierKeyCode::LeftHyper => "LeftHyper",
        ModifierKeyCode::LeftMeta => "LeftMeta",
        ModifierKeyCode::RightShift => "RightShift",
        ModifierKeyCode::RightControl => "RightControl",
        ModifierKeyCode::RightAlt => "RightAlt",
        ModifierKeyCode::RightSuper => "RightSuper",
        ModifierKeyCode::RightHyper => "RightHyper",
        ModifierKeyCode::RightMeta => "RightMeta",
        ModifierKeyCode::IsoLevel3Shift => "IsoLevel3Shift",
        ModifierKeyCode::IsoLevel5Shift => "IsoLevel5Shift",
    }
}

/// The key as its debug form names it (for keys without a short name).
pub open spec fn code_debug(code: KeyCode) -> Seq<char> {
    match code {
        KeyCode::Backspace => "Backspace"@,
        KeyCode::Enter => "Enter"@,
        KeyCode::Left => "Left"@,
        KeyCode::Right => "Right"@,
        KeyCode::Up => "Up"@,
        KeyCode::Down => "Down"@,
        KeyCode::Home => "Home"@,
        KeyCode::End => "End"@,
        KeyCode::PageUp => "PageUp"@,
        KeyCode::PageDown => "PageDown"@,
        KeyCode::Tab => "Tab"@,
        KeyCode::BackTab => "BackTab"@,
        KeyCode::Delete => "Delete"@,
        KeyCode::Insert => "Insert"@,
        KeyCode::F(n) => "F("@ + decimal(n as nat) + ")"@,
        KeyCode::Char(c) => seq!['C', 'h', 'a', 'r', '(', '\'', c, '\'', ')'],
        KeyCode::Null => "Null"@,
        KeyCode::Esc => "Esc"@,
        KeyCode::CapsLock => "CapsLock"@,
        KeyCode::ScrollLock => "ScrollLock"@,
        KeyCode::NumLock => "NumLock"@,
        KeyCode::PrintScreen => "PrintScreen"@,
        KeyCode::Pause => "Pause"@,
        KeyCode::Menu => "Menu"@,
        KeyCode::KeypadBegin => "KeypadBegin"@,
        KeyCode::Media(m) => "Media("@ + media_name(m) + ")"@,
        KeyCode::Modifier(m) => "Modifier("@ + modifier_name(m) + ")"@,
    }
}

/// The text of a key: held control, shift and alt as prefixes, then the
/// key (a character, lowercased under control; a short name; or the debug
/// form).
pub open spec fn key_text(k: KeyEvent) -> Seq<char> {
    let ctrl = if k.modifiers.has(CONTROL_BIT) {
        "Ctrl+"@
    } else {
        Seq::empty()
    };
    let shift = if k.modifiers.has(SHIFT_BIT) {
        "Shift+"@
    } else {
        Seq::empty()
    };
    let alt = if k.modifiers.has(ALT_BIT) {
        "Alt+"@
    } else {
        Seq::empty()
    };
    let name = match k.code {
        KeyCode::Char(c) => if k.modifiers.has(CONTROL_BIT) {
            seq![ascii_lower(c)]
        } else {
            seq![c]
        },
        KeyCode::Enter => "Enter"@,
        KeyCode::Esc => "Esc"@,
        KeyCode::Tab => "Tab"@,
        KeyCode::Backspace => "Backspace"@,
        KeyCode::Up => "Up"@,
        KeyCode::Down => "Down"@,
        KeyCode::Left => "Left"@,
        KeyCode::Right => "Right"@,
        _ => code_debug(k.code),
    };
    ctrl + shift + alt + name
}

fn code_debug_string(code: KeyCode) -> (s: String)
    ensures
        s@ == code_debug(code),
{
    match code {
        KeyCode::F(n) => {
            let mut s = String::from_str("F(");
            s.append(decimal_string(n as usize).as_str());
            s.append(")");
            s
        },
        KeyCode::Char(c) => {
            let mut s = String::from_str("Char('");
            push_char(&mut s, c);
            s.append("')");
            proof {
                reveal_strlit("Char('");
                reveal_strlit("')");
            }
            assert(s@ =~= seq!['C', 'h', 'a', 'r', '(', '\'', c, '\'', ')']);
            s
        },
        KeyCode::Media(m) => {
            let mut s = String::from_str("Media(");
            s.append(media_str(m));
            s.append(")");
            s
        },
        KeyCode::Modifier(m) => {
            let mut s = String::from_str("Modifier(");
            s.append(modifier_str(m));
            s.append(")");
            s
        },
        KeyCode::Backspace => String::from_str("Backspace"),
        KeyCode::Enter => String::from_str("Enter"),
        KeyCode::Left => String::from_str("Left"),
        KeyCode::Right => String::from_str("Right"),
        KeyCode::Up => String::from_str("Up"),
        KeyCode::Down => String::from_str("Down"),
        KeyCode::Home => String::from_str("Home"),
        KeyCode::End => String::from_str("End"),
        KeyCode::PageUp => String::from_str("PageUp"),
        KeyCode::PageDown => String::from_str("PageDown"),
        KeyCode::Tab => String::from_str("Tab"),
        KeyCode::BackTab => String::from_str("BackTab"),
        KeyCode::Delete => String::from_str("Delete"),
        KeyCode::Insert => String::from_str("Insert"),
        KeyCode::Null => String::from_str("Null"),
        KeyCode::Esc => String::from_str("Esc"),
        KeyCode::CapsLock => String::from_str("CapsLock"),
        KeyCode::ScrollLock => String::from_str("ScrollLock"),
        KeyCode::NumLock => String::from_str("NumLock"),
        KeyCode::PrintScreen => String::from_str("PrintScreen"),
        KeyCode::Pause => String::from_str("Pause"),
        KeyCode::Menu => String::from_str("Menu"),
        KeyCode::KeypadBegin => String::from_str("KeypadBegin"),
    }
}

/// Describe a key, as the bindings list shows it.
pub fn format_key(key: &KeyEvent) -> (s: String)
    ensures
        s@ == key_text(*key),
{
    let mut s = String::new();
    if key.modifiers.contains(CONTROL_BIT) {
        s.append("Ctrl+");
    }
    if key.modifiers.contains(SHIFT_BIT) {
        s.append("Shift+");
    }
    if key.modifiers.contains(ALT_BIT) {
        s.append("Alt+");
    }
    let ghost prefix = s@;
    match key.code {
        KeyCode::Char(c) => {
            if key.modifiers.contains(CONTROL_BIT) {
                push_char(&mut s, to_ascii_lower(c));
            } else {
                push_char(&mut s, c);
            }
        },
        KeyCode::Enter => s.append("Enter"),
        KeyCode::Esc => s.append("Esc"),
        KeyCode::Tab => s.append("Tab"),
        KeyCode::Backspace => s.append("Backspace"),
        KeyCode::Up => s.append("Up"),
        KeyCode::Down => s.append("Down"),
        KeyCode::Left => s.append("Left"),
        KeyCode::Right => s.append("Right"),
        _ => {
            let d = code_debug_string(key.code);
            s.append(d.as_str());
        },
    }
    assert(prefix =~= (if key.modifiers.has(CONTROL_BIT) {
        "Ctrl+"@
    } else {
        Seq::empty()
    }) + (if key.modifiers.has(SHIFT_BIT) {
        "Shift+"@
    } else {
        Seq::empty()
    }) + (if key.modifiers.has(ALT_BIT) {
        "Alt+"@
    } else {
        Seq::empty()
    }));
    s
}

pub open spec fn action_text(a: Action) -> Seq<char> {
    match a {
        Action::Quit => "Quit the application"@,
        Action::CancelResponse => "Cancel current response"@,
        Action::MoveUp => "Move up / Previous item"@,
        Action::MoveDown => "Move down / Next item"@,
        Action::MoveLeft => "Move cursor left"@,
        Action::MoveRight => "Move cursor right"@,
        Action::ScrollUp => "Scroll chat up"@,
        Action::ScrollDown => "Scroll chat down"@,
        Action::ScrollToTop => "Scroll to top"@,
        Action::ScrollToBottom => "Scroll to bottom"@,
        Action::Confirm => "Confirm selection"@,
        Action::Cancel => "Cancel / Close dialog"@,
        Action::SwitchPanel => "Switch panel"@,
        Action::SendMessage => "Send message"@,
        Action::TypeChar(_) => "Type character"@,
        Action::DeleteChar => "Delete character"@,
        Action::HistoryPrev => "Previous input history"@,
        Action::HistoryNext => "Next input history"@,
        Action::OpenProviderPicker => "Open provider picker"@,
        Action::RestoreContext => "Restore previous context"@,
        Action::OpenCommandPicker => "Open command picker"@,
        Action::InspectAgent => "Inspect agent detail"@,
        Action::NoAction => ""@,
    }
}

/// Describe an action.
pub fn format_action(action: &Action) -> (s: String)
    ensures
        s@ == action_text(*action),
{
    let t: &str = match action {
        Action::Quit => "Quit the application",
        Action::CancelResponse => "Cancel current response",
        Action::MoveUp => "Move up / Previous item",
        Action::MoveDown => "Move down / Next item",
        Action::MoveLeft => "Move cursor left",
        Action::MoveRight => "Move cursor right",
        Action::ScrollUp => "Scroll chat up",
        Action::ScrollDown => "Scroll chat down",
        Action::ScrollToTop => "Scroll to top",
        Action::ScrollToBottom => "Scroll to bottom",
        Action::Confirm => "Confirm selection",
        Action::Cancel => "Cancel / Close dialog",
        Action::SwitchPanel => "Switch panel",
        Action::SendMessage => "Send message",
        Action::TypeChar(_) => "Type character",
        Action::DeleteChar => "Delete character",
        Action::HistoryPrev => "Previous input history",
        Action::HistoryNext => "Next input history",
        Action::OpenProviderPicker => "Open provider picker",
        Action::RestoreContext => "Restore previous context",
        Action::OpenCommandPicker => "Open command picker",
        Action::InspectAgent => "Inspect agent detail",
        Action::NoAction => "",
    };
    String::from_str(t)
}

} // verus!
