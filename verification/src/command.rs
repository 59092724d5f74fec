//! Editing commands and the table from named keys to commands.

use vstd::prelude::*;
use crate::keys::{KeyView, Modifier, NamedKey};

verus! {

/// Which of the three modifier keys are held down.
#[derive(Clone, Copy, Debug, PartialEq, Eq, Structural)]
pub struct ModifierState {
    pub ctrl: bool,
    pub alt: bool,
    pub shift: bool,
}

impl ModifierState {
    /// The state with no modifier held.
    pub open spec fn released() -> ModifierState {
        ModifierState { ctrl: false, alt: false, shift: false }
    }

    /// Whether the given modifier is held.
    pub open spec fn held(self, modifier: Modifier) -> bool {
        match modifier {
            Modifier::Ctrl => self.ctrl,
            Modifier::Alt => self.alt,
            Modifier::Shift => self.shift,
        }
    }

    /// This state with one modifier set to held or not held.
    pub open spec fn with(self, modifier: Modifier, held: bool) -> ModifierState {
        match modifier {
            Modifier::Ctrl => ModifierState { ctrl: held, ..self },
            Modifier::Alt => ModifierState { alt: held, ..self },
            Modifier::Shift => ModifierState { shift: held, ..self },
        }
    }

    /// The state at the start of a session: nothing held.
    pub fn new() -> (state: Self)
        ensures
            state == ModifierState::released(),
    {
        ModifierState { ctrl: false, alt: false, shift: false }
    }

    /// Records that a modifier went down or came up.
    pub fn set(&mut self, modifier: Modifier, held: bool)
        ensures
            *final(self) == old(self).with(modifier, held),
    {
        match modifier {
            Modifier::Ctrl => {
                self.ctrl = held;
            },
            Modifier::Alt => {
                self.alt = held;
            },
            Modifier::Shift => {
                self.shift = held;
            },
        }
    }
}

/// Where a cursor movement goes.
#[derive(Clone, Copy, Debug, PartialEq, Eq, Structural)]
pub enum Direction {
    Left,
    Right,
    Up,
    Down,
    Home,
    End,
    PageUp,
    PageDown,
}

/// What an editing command asks the buffer to do.
#[derive(Clone, Copy, Debug, PartialEq, Eq, Structural)]
pub enum CommandKind {
    MoveCursor(Direction),
    InsertChar(char),
    Backspace,
    Delete,
    Enter,
    Tab,
    Escape,
    Cut,
    Copy,
    Paste,
    NoOp,
}

/// An editing command together with the modifiers that were held when the
/// key went down, by which the buffer tells, say, a move by one word from a
/// move by one character.
#[derive(Clone, Copy, Debug, PartialEq, Eq, Structural)]
pub struct EditingCommand {
    pub kind: CommandKind,
    pub modifiers: ModifierState,
}

/// The table from named keys to commands. Every named key of the keyboard
/// has an entry; a function key has one if its number is from 1 to 35, and
/// asks for nothing.
pub open spec fn named_command(key: NamedKey) -> Option<CommandKind> {
    match key {
        NamedKey::ArrowLeft => Some(CommandKind::MoveCursor(Direction::Left)),
        NamedKey::ArrowRight => Some(CommandKind::MoveCursor(Direction::Right)),
        NamedKey::ArrowUp => Some(CommandKind::MoveCursor(Direction::Up)),
        NamedKey::ArrowDown => Some(CommandKind::MoveCursor(Direction::Down)),
        NamedKey::Home => Some(CommandKind::MoveCursor(Direction::Home)),
        NamedKey::End => Some(CommandKind::MoveCursor(Direction::End)),
        NamedKey::PageUp => Some(CommandKind::MoveCursor(Direction::PageUp)),
        NamedKey::PageDown => Some(CommandKind::MoveCursor(Direction::PageDown)),
        NamedKey::Backspace => Some(CommandKind::Backspace),
        NamedKey::Delete => Some(CommandKind::Delete),
        NamedKey::Enter => Some(CommandKind::Enter),
        NamedKey::Tab => Some(CommandKind::Tab),
        NamedKey::Escape => Some(CommandKind::Escape),
        NamedKey::Space => Some(CommandKind::InsertChar(' ')),
        NamedKey::Copy => Some(CommandKind::Copy),
        NamedKey::Cut => Some(CommandKind::Cut),
        NamedKey::Paste => Some(CommandKind::Paste),
        NamedKey::F(number) => if 1 <= number <= 35 {
            Some(CommandKind::NoOp)
        } else {
            None
        },
    }
}

/// The command that the press of a key stands for, if any: the table's
/// entry for a named key, the insertion of its first character for a
/// printable key, and nothing for a modifier or an unknown key.
pub open spec fn key_command(key: KeyView) -> Option<CommandKind> {
    match key {
        KeyView::Named(named) => named_command(named),
        KeyView::Character(text) => if text.len() > 0 {
            Some(CommandKind::InsertChar(text[0]))
        } else {
            None
        },
        KeyView::Modifier(_) => None,
        KeyView::Unidentified => None,
    }
}

impl NamedKey {
    /// Looks the key up in the table of commands.
    pub fn command(self) -> (kind: Option<CommandKind>)
        ensures
            kind == named_command(self),
    {
        match self {
            NamedKey::ArrowLeft => Some(CommandKind::MoveCursor(Direction::Left)),
            NamedKey::ArrowRight => Some(CommandKind::MoveCursor(Direction::Right)),
            NamedKey::ArrowUp => Some(CommandKind::MoveCursor(Direction::Up)),
            NamedKey::ArrowDown => Some(CommandKind::MoveCursor(Direction::Down)),
            NamedKey::Home => Some(CommandKind::MoveCursor(Direction::Home)),
            NamedKey::End => Some(CommandKind::MoveCursor(Direction::End)),
            NamedKey::PageUp => Some(CommandKind::MoveCursor(Direction::PageUp)),
            NamedKey::PageDown => Some(CommandKind::MoveCursor(Direction::PageDown)),
            NamedKey::Backspace => Some(CommandKind::Backspace),
            NamedKey::Delete => Some(CommandKind::Delete),
            NamedKey::Enter => Some(CommandKind::Enter),
            NamedKey::Tab => Some(CommandKind::Tab),
            NamedKey::Escape => Some(CommandKind::Escape),
            NamedKey::Space => Some(CommandKind::InsertChar(' ')),
            NamedKey::Copy => Some(CommandKind::Copy),
            NamedKey::Cut => Some(CommandKind::Cut),
            NamedKey::Paste => Some(CommandKind::Paste),
            NamedKey::F(number) => {
                if 1 <= number && number <= 35 {
                    Some(CommandKind::NoOp)
                } else {
                    None
                }
            },
        }
    }
}

} // verus!
