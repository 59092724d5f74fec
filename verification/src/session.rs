//! What the editor does with each event that the host hands it.

use vstd::prelude::*;
use crate::command::{EditingCommand, ModifierState};
use crate::input::{emitted, modifiers_after, InputTranslator};
use crate::keys::{KeyEvent, KeyEventView};

verus! {

/// The size of the drawing surface, in pixels.
#[derive(Clone, Copy, Debug, PartialEq, Eq, Structural)]
pub struct SurfaceSize {
    pub width: u32,
    pub height: u32,
}

/// An event as the host reports it.
#[derive(Debug, PartialEq, Eq)]
pub enum HostEvent {
    /// The window gained or lost the keyboard focus.
    Focused(bool),
    /// The drawing surface has a new size.
    Resized(SurfaceSize),
    /// The window asks to be painted.
    RedrawRequested,
    /// A key went down or came up.
    Key(KeyEvent),
    /// Anything else.
    Other,
}

/// What a [`HostEvent`] stands for.
pub enum HostEventView {
    Focused(bool),
    Resized(SurfaceSize),
    RedrawRequested,
    Key(KeyEventView),
    Other,
}

impl View for HostEvent {
    type V = HostEventView;

    open spec fn view(&self) -> HostEventView {
        match self {
            HostEvent::Focused(focused) => HostEventView::Focused(*focused),
            HostEvent::Resized(size) => HostEventView::Resized(*size),
            HostEvent::RedrawRequested => HostEventView::RedrawRequested,
            HostEvent::Key(event) => HostEventView::Key(event@),
            HostEvent::Other => HostEventView::Other,
        }
    }
}

/// What the host is to do in answer to an event, in this order.
#[derive(Clone, Copy, Debug, PartialEq, Eq, Structural)]
pub struct Reaction {
    /// Give the keyboard focus to the text input.
    pub focus_input: bool,
    /// Give the drawing surface this size.
    pub resize: Option<SurfaceSize>,
    /// Hand this command to the buffer.
    pub command: Option<EditingCommand>,
    /// Render the buffer and paint it.
    pub redraw: bool,
}

/// The answer to an event while the given modifiers are held. Gaining the
/// focus passes it on to the text input; a new size is taken over and the
/// text painted again; a request to paint is met; a key gives its command,
/// if it has one; nothing else is answered.
pub open spec fn reaction_to(state: ModifierState, event: HostEventView) -> Reaction {
    Reaction {
        focus_input: event == HostEventView::Focused(true),
        resize: match event {
            HostEventView::Resized(size) => Some(size),
            _ => None,
        },
        command: match event {
            HostEventView::Key(key) => emitted(state, key),
            _ => None,
        },
        redraw: event is Resized || event is RedrawRequested,
    }
}

/// The modifiers held after an event: only a key event can change them.
pub open spec fn state_after(state: ModifierState, event: HostEventView) -> ModifierState {
    match event {
        HostEventView::Key(key) => modifiers_after(state, key),
        _ => state,
    }
}

/// One editing session: the translator of its key events.
pub struct Session {
    translator: InputTranslator,
}

impl View for Session {
    type V = ModifierState;

    closed spec fn view(&self) -> ModifierState {
        self.translator@
    }
}

impl Session {
    /// A session at its start, with no modifier held.
    pub fn new() -> (session: Self)
        ensures
            session@ == ModifierState::released(),
    {
        Session { translator: InputTranslator::new() }
    }

    /// The modifiers held at this moment.
    pub fn modifiers(&self) -> (state: ModifierState)
        ensures
            state == self@,
    {
        self.translator.modifiers()
    }

    /// Takes one event of the host and says what is to be done about it.
    pub fn on_event(&mut self, event: &HostEvent) -> (reaction: Reaction)
        ensures
            reaction == reaction_to(old(self)@, event@),
            final(self)@ == state_after(old(self)@, event@),
    {
        match event {
            HostEvent::Focused(focused) => Reaction {
                focus_input: *focused,
                resize: None,
                command: None,
                redraw: false,
            },
            HostEvent::Resized(size) => Reaction {
                focus_input: false,
                resize: Some(*size),
                command: None,
                redraw: true,
            },
            HostEvent::RedrawRequested => Reaction {
                focus_input: false,
                resize: None,
                command: None,
                redraw: true,
            },
            HostEvent::Key(key) => Reaction {
                focus_input: false,
                resize: None,
                command: self.translator.handle(key),
                redraw: false,
            },
            HostEvent::Other => Reaction {
                focus_input: false,
                resize: None,
                command: None,
                redraw: false,
            },
        }
    }
}

} // verus!
