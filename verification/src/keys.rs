//! Keyboard keys as the hotkey logic sees them.

use vstd::prelude::*;

verus! {

/// A key of the keyboard, variant for variant the key set that the global
/// input hook reports. `Other` carries the platform code of a key that has no
/// name of its own.
#[derive(Clone, Copy, Debug, PartialEq, Eq, Structural, Hash)]
pub enum Key {
    A,
    B,
    C,
    D,
    E,
    F,
    G,
    H,
    I,
    J,
    K,
    L,
    M,
    N,
    O,
    P,
    Q,
    R,
    S,
    T,
    U,
    V,
    W,
    X,
    Y,
    Z,
    Number0,
    Number1,
    Number2,
    Number3,
    Number4,
    Number5,
    Number6,
    Number7,
    Number8,
    Number9,
    LeftAlt,
    RightAlt,
    LeftShift,
    RightShift,
    LeftControl,
    RightControl,
    BackSpace,
    Tab,
    Enter,
    Escape,
    Space,
    PageUp,
    PageDown,
    Home,
    Left,
    Up,
    Right,
    Down,
    Print,
    PrintScreen,
    Insert,
    Delete,
    LeftWindows,
    RightWindows,
    Comma,
    Period,
    Slash,
    SemiColon,
    Apostrophe,
    LeftBrace,
    BackwardSlash,
    RightBrace,
    Grave,
    F1,
    F2,
    F3,
    F4,
    F5,
    F6,
    F7,
    F8,
    F9,
    F10,
    F11,
    F12,
    F13,
    F14,
    F15,
    F16,
    F17,
    F18,
    F19,
    F20,
    F21,
    F22,
    F23,
    F24,
    NumLock,
    ScrollLock,
    CapsLock,
    Numpad0,
    Numpad1,
    Numpad2,
    Numpad3,
    Numpad4,
    Numpad5,
    Numpad6,
    Numpad7,
    Numpad8,
    Numpad9,
    Multiply,
    Add,
    Separator,
    Subtract,
    Decimal,
    Divide,
    Other(i32),
}

/// The keys that start a chord: a hotkey is recorded as one of these,
/// optionally, followed by one other key.
pub open spec fn is_modifier(k: Key) -> bool {
    k == Key::LeftShift || k == Key::LeftControl || k == Key::LeftAlt
}

/// Exactly three keys start a chord: left Shift, left Control and left Alt;
/// every other key, their right-hand twins included, does not.
pub proof fn lemma_chord_keys(k: Key)
    ensures
        is_modifier(k) <==> (k == Key::LeftShift || k == Key::LeftControl || k == Key::LeftAlt),
        is_modifier(Key::LeftShift),
        is_modifier(Key::LeftControl),
        is_modifier(Key::LeftAlt),
        !is_modifier(Key::RightShift),
        !is_modifier(Key::RightControl),
        !is_modifier(Key::RightAlt),
{
}

/// Whether `k` is one of the chord-starting keys (left Shift, Control, Alt).
pub fn is_modifier_key(k: Key) -> (r: bool)
    ensures
        r == is_modifier(k),
        r <==> (k == Key::LeftShift || k == Key::LeftControl || k == Key::LeftAlt),
{
    match k {
        Key::LeftShift | Key::LeftControl | Key::LeftAlt => true,
        _ => false,
    }
}

/// A key-for-key copy of a key sequence.
pub(crate) fn copy_keys(keys: &Vec<Key>) -> (r: Vec<Key>)
    ensures
        r@ == keys@,
{
    let mut r: Vec<Key> = Vec::new();
    let n = keys.len();
    for i in 0..n
        invariant
            n == keys@.len(),
            r@ =~= keys@.take(i as int),
    {
        r.push(keys[i]);
    }
    assert(keys@.take(n as int) =~= keys@);
    r
}

} // verus!
