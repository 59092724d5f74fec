//! The input translator: from key events to editing commands.

use vstd::prelude::*;
use vstd::string::StrSliceExecFns;
use crate::command::{key_command, CommandKind, EditingCommand, ModifierState};
use crate::keys::{Key, KeyEvent, KeyEventView, KeyView, Modifier, Transition};

verus! {

/// The modifier state after an event: a modifier key sets its own flag to
/// whether it went down; no other key changes anything.
pub open spec fn modifiers_after(state: ModifierState, event: KeyEventView) -> ModifierState {
    match event.key {
        KeyView::Modifier(modifier) => state.with(modifier, event.transition is Press),
        _ => state,
    }
}

/// The command that an event gives rise to, if any: on a press the key's
/// command with the modifiers held at that moment, on a release nothing.
pub open spec fn emitted(state: ModifierState, event: KeyEventView) -> Option<EditingCommand> {
    match key_command(event.key) {
        Some(kind) => if event.transition is Press {
            Some(EditingCommand { kind, modifiers: state })
        } else {
            None
        },
        None => None,
    }
}

/// Turns key events, one at a time and in the order they arrive, into
/// editing commands, and keeps track of the modifiers held.
pub struct InputTranslator {
    modifiers: ModifierState,
}

impl View for InputTranslator {
    type V = ModifierState;

    closed spec fn view(&self) -> ModifierState {
        self.modifiers
    }
}

impl InputTranslator {
    /// A translator at the start of a session, with no modifier held.
    pub fn new() -> (translator: Self)
        ensures
            translator@ == ModifierState::released(),
    {
        InputTranslator { modifiers: ModifierState::new() }
    }

    /// The modifiers held at this moment.
    pub fn modifiers(&self) -> (state: ModifierState)
        ensures
            state == self@,
    {
        self.modifiers
    }

    /// Takes one key event. A modifier key updates the modifier state and
    /// gives no command. Any other key leaves the state alone and gives its
    /// command when it is pressed and known, and nothing otherwise.
    pub fn handle(&mut self, event: &KeyEvent) -> (command: Option<EditingCommand>)
        ensures
            final(self)@ == modifiers_after(old(self)@, event@),
            command == emitted(old(self)@, event@),
            event.transition is Release ==> command is None,
            command is Some ==> final(self)@ == old(self)@,
    {
        let pressed = match event.transition {
            Transition::Press => true,
            Transition::Release => false,
        };
        let kind: Option<CommandKind> = match &event.key {
            Key::Modifier(modifier) => {
                self.modifiers.set(*modifier, pressed);
                None
            },
            Key::Named(named) => named.command(),
            Key::Character(text) => {
                if text.as_str().is_empty() {
                    None
                } else {
                    Some(CommandKind::InsertChar(text.as_str().get_char(0)))
                }
            },
            Key::Unidentified => None,
        };
        match kind {
            Some(kind) => if pressed {
                Some(EditingCommand { kind, modifiers: self.modifiers })
            } else {
                None
            },
            None => None,
        }
    }
}

/// The modifier state after a sequence of events, taken in order.
pub open spec fn replayed(initial: ModifierState, events: Seq<KeyEventView>) -> ModifierState
    decreases events.len(),
{
    if events.len() == 0 {
        initial
    } else {
        modifiers_after(replayed(initial, events.drop_last()), events.last())
    }
}

/// Whether the event is a press or release of the given modifier key.
pub open spec fn concerns(event: KeyEventView, modifier: Modifier) -> bool {
    event.key == KeyView::Modifier(modifier)
}

/// Whether event `i` is the last one in the sequence that concerns the
/// given modifier key.
pub open spec fn is_latest(events: Seq<KeyEventView>, modifier: Modifier, i: int) -> bool {
    &&& 0 <= i < events.len()
    &&& concerns(events[i], modifier)
    &&& forall|j: int| i < j < events.len() ==> !concerns(#[trigger] events[j], modifier)
}

/// Whether the last event that concerns the given modifier key is a press.
/// It is false if no event concerns the key.
pub open spec fn last_was_press(events: Seq<KeyEventView>, modifier: Modifier) -> bool {
    exists|i: int| #[trigger] is_latest(events, modifier, i) && events[i].transition is Press
}

/// After any sequence of events a modifier is held exactly if the last
/// event that concerns its key, wherever in the sequence it stands and
/// whatever other keys moved around it, was a press.
pub proof fn lemma_last_event_wins(
    initial: ModifierState,
    events: Seq<KeyEventView>,
    modifier: Modifier,
    i: int,
)
    requires
        is_latest(events, modifier, i),
    ensures
        replayed(initial, events).held(modifier) == (events[i].transition is Press),
    decreases events.len(),
{
    if i < events.len() - 1 {
        let earlier = events.drop_last();
        assert(!concerns(events[events.len() - 1], modifier));
        assert forall|j: int| i < j < earlier.len() implies !concerns(
            #[trigger] earlier[j],
            modifier,
        ) by {
            assert(earlier[j] == events[j]);
        }
        lemma_last_event_wins(initial, earlier, modifier, i);
    }
}

/// A modifier whose key no event concerns is held after the events exactly
/// if it was held before them.
pub proof fn lemma_untouched_modifier_stays(
    initial: ModifierState,
    events: Seq<KeyEventView>,
    modifier: Modifier,
)
    requires
        forall|j: int| 0 <= j < events.len() ==> !concerns(#[trigger] events[j], modifier),
    ensures
        replayed(initial, events).held(modifier) == initial.held(modifier),
    decreases events.len(),
{
    if events.len() > 0 {
        let earlier = events.drop_last();
        assert(!concerns(events[events.len() - 1], modifier));
        assert forall|j: int| 0 <= j < earlier.len() implies !concerns(
            #[trigger] earlier[j],
            modifier,
        ) by {
            assert(earlier[j] == events[j]);
        }
        lemma_untouched_modifier_stays(initial, earlier, modifier);
    }
}

/// Among events of which one concerns a modifier key, one is the last to do so.
proof fn lemma_some_event_is_latest(events: Seq<KeyEventView>, modifier: Modifier, j: int)
    requires
        0 <= j < events.len(),
        concerns(events[j], modifier),
    ensures
        exists|i: int| #[trigger] is_latest(events, modifier, i),
    decreases events.len(),
{
    let last = events.len() - 1;
    if concerns(events[last], modifier) {
        assert(is_latest(events, modifier, last));
    } else {
        let earlier = events.drop_last();
        assert(earlier[j] == events[j]);
        lemma_some_event_is_latest(earlier, modifier, j);
        let i = choose|i: int| #[trigger] is_latest(earlier, modifier, i);
        assert(events[i] == earlier[i]);
        assert forall|k: int| i < k < events.len() implies !concerns(
            #[trigger] events[k],
            modifier,
        ) by {
            if k < last {
                assert(earlier[k] == events[k]);
            }
        }
        assert(is_latest(events, modifier, i));
    }
}

/// Replayed from the start of a session, a sequence of events leaves each
/// modifier held exactly if the last event for its key was a press: the
/// last event for a key wins, and events for other keys do not matter.
pub proof fn lemma_replay_is_last_event_wins(events: Seq<KeyEventView>, modifier: Modifier)
    ensures
        replayed(ModifierState::released(), events).held(modifier) == last_was_press(
            events,
            modifier,
        ),
{
    let initial = ModifierState::released();
    if exists|i: int| #[trigger] is_latest(events, modifier, i) {
        let i = choose|i: int| #[trigger] is_latest(events, modifier, i);
        lemma_last_event_wins(initial, events, modifier, i);
        assert forall|k: int| #[trigger] is_latest(events, modifier, k) implies k == i by {
            if k < i {
                assert(!concerns(events[i], modifier));
            } else if i < k {
                assert(!concerns(events[k], modifier));
            }
        }
    } else {
        assert forall|j: int| 0 <= j < events.len() implies !concerns(
            #[trigger] events[j],
            modifier,
        ) by {
            if concerns(events[j], modifier) {
                lemma_some_event_is_latest(events, modifier, j);
            }
        }
        lemma_untouched_modifier_stays(initial, events, modifier);
    }
}

} // verus!
