//! Key events as the platform layer reports them.

use vstd::prelude::*;

verus! {

/// The three modifier keys whose held state is tracked.
#[derive(Clone, Copy, Debug, PartialEq, Eq, Structural)]
pub enum Modifier {
    Ctrl,
    Alt,
    Shift,
}

/// The named keys, other than the modifiers, that the editor knows.
#[derive(Clone, Copy, Debug, PartialEq, Eq, Structural)]
pub enum NamedKey {
    ArrowLeft,
    ArrowRight,
    ArrowUp,
    ArrowDown,
    Home,
    End,
    PageUp,
    PageDown,
    Backspace,
    Delete,
    Enter,
    Tab,
    Escape,
    Space,
    Copy,
    Cut,
    Paste,
    /// A function key by its number; the keyboard has F1 to F35.
    F(u8),
}

/// The identity of a key: a modifier, a named key, the character or
/// characters that a printable key reports, or a key the editor does not
/// know.
#[derive(Debug, PartialEq, Eq)]
pub enum Key {
    Modifier(Modifier),
    Named(NamedKey),
    Character(String),
    Unidentified,
}

/// What a [`Key`] stands for.
pub enum KeyView {
    Modifier(Modifier),
    Named(NamedKey),
    Character(Seq<char>),
    Unidentified,
}

impl View for Key {
    type V = KeyView;

    open spec fn view(&self) -> KeyView {
        match self {
            Key::Modifier(modifier) => KeyView::Modifier(*modifier),
            Key::Named(named) => KeyView::Named(*named),
            Key::Character(text) => KeyView::Character(text@),
            Key::Unidentified => KeyView::Unidentified,
        }
    }
}

/// Whether a key went down or came up.
#[derive(Clone, Copy, Debug, PartialEq, Eq, Structural)]
pub enum Transition {
    Press,
    Release,
}

/// One key event: which key, and which way it moved.
#[derive(Debug, PartialEq, Eq)]
pub struct KeyEvent {
    pub key: Key,
    pub transition: Transition,
}

/// What a [`KeyEvent`] stands for.
pub struct KeyEventView {
    pub key: KeyView,
    pub transition: Transition,
}

impl View for KeyEvent {
    type V = KeyEventView;

    open spec fn view(&self) -> KeyEventView {
        KeyEventView { key: self.key@, transition: self.transition }
    }
}

impl KeyEvent {
    /// The press of a key.
    pub fn press(key: Key) -> (event: Self)
        ensures
            event.key == key,
            event.transition == Transition::Press,
    {
        KeyEvent { key, transition: Transition::Press }
    }

    /// The release of a key.
    pub fn release(key: Key) -> (event: Self)
        ensures
            event.key == key,
            event.transition == Transition::Release,
    {
        KeyEvent { key, transition: Transition::Release }
    }
}

} // verus!
