use canvas_editor::command::{CommandKind, Direction, EditingCommand, ModifierState};
use canvas_editor::input::InputTranslator;
use canvas_editor::keys::{Key, KeyEvent, Modifier, NamedKey, Transition};
use canvas_editor::session::{HostEvent, Reaction, Session, SurfaceSize};

fn character(text: &str) -> Key {
    Key::Character(text.to_string())
}

fn nothing_held() -> ModifierState {
    ModifierState { ctrl: false, alt: false, shift: false }
}

#[test]
fn translator_starts_with_nothing_held() {
    let translator = InputTranslator::new();
    assert_eq!(translator.modifiers(), nothing_held());
    assert_eq!(ModifierState::new(), nothing_held());
}

#[test]
fn ctrl_pressed_twice_and_released_then_a_letter() {
    let mut translator = InputTranslator::new();
    let events = vec![
        KeyEvent::press(Key::Modifier(Modifier::Ctrl)),
        KeyEvent::press(Key::Modifier(Modifier::Ctrl)),
        KeyEvent::release(Key::Modifier(Modifier::Ctrl)),
        KeyEvent::press(character("x")),
    ];
    let commands: Vec<EditingCommand> =
        events.iter().filter_map(|event| translator.handle(event)).collect();
    assert_eq!(
        commands,
        vec![EditingCommand { kind: CommandKind::InsertChar('x'), modifiers: nothing_held() }]
    );
    assert!(!commands[0].modifiers.ctrl);
}

#[test]
fn unknown_key_gives_no_command_and_changes_nothing() {
    let mut translator = InputTranslator::new();
    translator.handle(&KeyEvent::press(Key::Modifier(Modifier::Alt)));
    let before = translator.modifiers();
    assert_eq!(translator.handle(&KeyEvent::press(Key::Unidentified)), None);
    assert_eq!(translator.handle(&KeyEvent::release(Key::Unidentified)), None);
    assert_eq!(translator.modifiers(), before);
    assert!(before.alt);
}

#[test]
fn modifier_keys_give_no_command() {
    let mut translator = InputTranslator::new();
    for modifier in [Modifier::Ctrl, Modifier::Alt, Modifier::Shift] {
        assert_eq!(translator.handle(&KeyEvent::press(Key::Modifier(modifier))), None);
    }
    assert_eq!(translator.modifiers(), ModifierState { ctrl: true, alt: true, shift: true });
    for modifier in [Modifier::Ctrl, Modifier::Alt, Modifier::Shift] {
        assert_eq!(translator.handle(&KeyEvent::release(Key::Modifier(modifier))), None);
    }
    assert_eq!(translator.modifiers(), nothing_held());
}

#[test]
fn each_modifier_has_its_own_flag() {
    let mut translator = InputTranslator::new();
    translator.handle(&KeyEvent::press(Key::Modifier(Modifier::Shift)));
    assert_eq!(translator.modifiers(), ModifierState { ctrl: false, alt: false, shift: true });
    translator.handle(&KeyEvent::press(Key::Modifier(Modifier::Ctrl)));
    assert_eq!(translator.modifiers(), ModifierState { ctrl: true, alt: false, shift: true });
    translator.handle(&KeyEvent::release(Key::Modifier(Modifier::Shift)));
    assert_eq!(translator.modifiers(), ModifierState { ctrl: true, alt: false, shift: false });
    translator.handle(&KeyEvent::press(Key::Modifier(Modifier::Alt)));
    assert_eq!(translator.modifiers(), ModifierState { ctrl: true, alt: true, shift: false });
}

#[test]
fn last_event_for_a_modifier_wins_whatever_else_happens() {
    let mut translator = InputTranslator::new();
    let events = vec![
        KeyEvent::press(Key::Modifier(Modifier::Shift)),
        KeyEvent::press(Key::Modifier(Modifier::Ctrl)),
        KeyEvent::press(character("a")),
        KeyEvent::release(Key::Modifier(Modifier::Shift)),
        KeyEvent::release(Key::Modifier(Modifier::Alt)),
        KeyEvent::press(Key::Named(NamedKey::Enter)),
        KeyEvent::press(Key::Modifier(Modifier::Shift)),
        KeyEvent::release(Key::Modifier(Modifier::Ctrl)),
        KeyEvent::release(Key::Named(NamedKey::Enter)),
        KeyEvent::press(Key::Unidentified),
    ];
    for event in &events {
        translator.handle(event);
    }
    assert_eq!(translator.modifiers(), ModifierState { ctrl: false, alt: false, shift: true });
}

#[test]
fn release_of_an_untouched_modifier_leaves_it_released() {
    let mut translator = InputTranslator::new();
    translator.handle(&KeyEvent::release(Key::Modifier(Modifier::Alt)));
    assert_eq!(translator.modifiers(), nothing_held());
}

#[test]
fn releases_give_no_command() {
    let mut translator = InputTranslator::new();
    let keys = vec![
        Key::Named(NamedKey::ArrowLeft),
        Key::Named(NamedKey::Enter),
        Key::Named(NamedKey::Space),
        Key::Named(NamedKey::F(1)),
        Key::Named(NamedKey::Paste),
        character("x"),
        Key::Unidentified,
    ];
    for key in keys {
        assert_eq!(translator.handle(&KeyEvent::release(key)), None);
    }
    assert_eq!(translator.modifiers(), nothing_held());
}

#[test]
fn named_keys_map_through_the_table() {
    let table = vec![
        (NamedKey::ArrowLeft, CommandKind::MoveCursor(Direction::Left)),
        (NamedKey::ArrowRight, CommandKind::MoveCursor(Direction::Right)),
        (NamedKey::ArrowUp, CommandKind::MoveCursor(Direction::Up)),
        (NamedKey::ArrowDown, CommandKind::MoveCursor(Direction::Down)),
        (NamedKey::Home, CommandKind::MoveCursor(Direction::Home)),
        (NamedKey::End, CommandKind::MoveCursor(Direction::End)),
        (NamedKey::PageUp, CommandKind::MoveCursor(Direction::PageUp)),
        (NamedKey::PageDown, CommandKind::MoveCursor(Direction::PageDown)),
        (NamedKey::Backspace, CommandKind::Backspace),
        (NamedKey::Delete, CommandKind::Delete),
        (NamedKey::Enter, CommandKind::Enter),
        (NamedKey::Tab, CommandKind::Tab),
        (NamedKey::Escape, CommandKind::Escape),
        (NamedKey::Space, CommandKind::InsertChar(' ')),
        (NamedKey::Copy, CommandKind::Copy),
        (NamedKey::Cut, CommandKind::Cut),
        (NamedKey::Paste, CommandKind::Paste),
        (NamedKey::F(1), CommandKind::NoOp),
        (NamedKey::F(12), CommandKind::NoOp),
        (NamedKey::F(35), CommandKind::NoOp),
    ];
    let mut translator = InputTranslator::new();
    for (key, kind) in table {
        assert_eq!(key.command(), Some(kind));
        assert_eq!(
            translator.handle(&KeyEvent::press(Key::Named(key))),
            Some(EditingCommand { kind, modifiers: nothing_held() })
        );
    }
}

#[test]
fn function_keys_beyond_the_keyboard_are_unknown() {
    let mut translator = InputTranslator::new();
    for number in [0u8, 36, 200, 255] {
        assert_eq!(NamedKey::F(number).command(), None);
        assert_eq!(translator.handle(&KeyEvent::press(Key::Named(NamedKey::F(number)))), None);
    }
}

#[test]
fn command_carries_the_modifiers_held_when_the_key_went_down() {
    let mut translator = InputTranslator::new();
    translator.handle(&KeyEvent::press(Key::Modifier(Modifier::Shift)));
    translator.handle(&KeyEvent::press(Key::Modifier(Modifier::Ctrl)));
    let command = translator.handle(&KeyEvent::press(Key::Named(NamedKey::ArrowLeft)));
    assert_eq!(
        command,
        Some(EditingCommand {
            kind: CommandKind::MoveCursor(Direction::Left),
            modifiers: ModifierState { ctrl: true, alt: false, shift: true },
        })
    );
    translator.handle(&KeyEvent::release(Key::Modifier(Modifier::Ctrl)));
    let command = translator.handle(&KeyEvent::press(character("A")));
    assert_eq!(
        command,
        Some(EditingCommand {
            kind: CommandKind::InsertChar('A'),
            modifiers: ModifierState { ctrl: false, alt: false, shift: true },
        })
    );
}

#[test]
fn printable_key_inserts_its_first_character() {
    let mut translator = InputTranslator::new();
    let insert = |c: char| Some(EditingCommand { kind: CommandKind::InsertChar(c), modifiers: nothing_held() });
    assert_eq!(translator.handle(&KeyEvent::press(character("x"))), insert('x'));
    assert_eq!(translator.handle(&KeyEvent::press(character("xy"))), insert('x'));
    assert_eq!(translator.handle(&KeyEvent::press(character("é"))), insert('é'));
    assert_eq!(translator.handle(&KeyEvent::press(character("😊!"))), insert('😊'));
    assert_eq!(translator.handle(&KeyEvent::press(character("e\u{301}"))), insert('e'));
}

#[test]
fn printable_key_without_a_character_gives_no_command() {
    let mut translator = InputTranslator::new();
    assert_eq!(translator.handle(&KeyEvent::press(character(""))), None);
    assert_eq!(translator.modifiers(), nothing_held());
}

#[test]
fn commands_do_not_touch_the_modifiers() {
    let mut translator = InputTranslator::new();
    translator.handle(&KeyEvent::press(Key::Modifier(Modifier::Alt)));
    let held = translator.modifiers();
    translator.handle(&KeyEvent::press(Key::Named(NamedKey::Delete)));
    translator.handle(&KeyEvent::press(character("q")));
    translator.handle(&KeyEvent::release(character("q")));
    assert_eq!(translator.modifiers(), held);
}

#[test]
fn modifier_state_sets_one_flag_at_a_time() {
    let mut state = ModifierState::new();
    state.set(Modifier::Alt, true);
    assert_eq!(state, ModifierState { ctrl: false, alt: true, shift: false });
    state.set(Modifier::Shift, true);
    state.set(Modifier::Alt, false);
    assert_eq!(state, ModifierState { ctrl: false, alt: false, shift: true });
}

#[test]
fn key_events_are_built_from_key_and_transition() {
    let press = KeyEvent::press(Key::Named(NamedKey::Tab));
    assert_eq!(press, KeyEvent { key: Key::Named(NamedKey::Tab), transition: Transition::Press });
    let release = KeyEvent::release(character("z"));
    assert_eq!(release, KeyEvent { key: character("z"), transition: Transition::Release });
}

fn idle() -> Reaction {
    Reaction { focus_input: false, resize: None, command: None, redraw: false }
}

#[test]
fn gaining_the_focus_passes_it_to_the_text_input() {
    let mut session = Session::new();
    assert_eq!(session.on_event(&HostEvent::Focused(true)), Reaction { focus_input: true, ..idle() });
    assert_eq!(session.on_event(&HostEvent::Focused(false)), idle());
}

#[test]
fn new_size_is_taken_over_and_painted() {
    let mut session = Session::new();
    let size = SurfaceSize { width: 800, height: 600 };
    assert_eq!(
        session.on_event(&HostEvent::Resized(size)),
        Reaction { resize: Some(size), redraw: true, ..idle() }
    );
}

#[test]
fn request_to_paint_is_met() {
    let mut session = Session::new();
    assert_eq!(session.on_event(&HostEvent::RedrawRequested), Reaction { redraw: true, ..idle() });
}

#[test]
fn other_events_are_not_answered() {
    let mut session = Session::new();
    assert_eq!(session.on_event(&HostEvent::Other), idle());
    assert_eq!(session.modifiers(), nothing_held());
}

#[test]
fn session_translates_its_key_events() {
    let mut session = Session::new();
    let press = |key: Key| HostEvent::Key(KeyEvent::press(key));
    let release = |key: Key| HostEvent::Key(KeyEvent::release(key));
    assert_eq!(session.on_event(&press(Key::Modifier(Modifier::Ctrl))), idle());
    assert_eq!(session.on_event(&HostEvent::RedrawRequested), Reaction { redraw: true, ..idle() });
    assert_eq!(session.modifiers(), ModifierState { ctrl: true, alt: false, shift: false });
    assert_eq!(
        session.on_event(&press(Key::Named(NamedKey::Cut))),
        Reaction {
            command: Some(EditingCommand {
                kind: CommandKind::Cut,
                modifiers: ModifierState { ctrl: true, alt: false, shift: false },
            }),
            ..idle()
        }
    );
    assert_eq!(session.on_event(&release(Key::Named(NamedKey::Cut))), idle());
    assert_eq!(session.on_event(&release(Key::Modifier(Modifier::Ctrl))), idle());
    assert_eq!(session.on_event(&press(Key::Unidentified)), idle());
    assert_eq!(session.modifiers(), nothing_held());
}
