use tetris::{event_for, InputEvent, Key};

#[test]
fn keys_map_to_events() {
    assert_eq!(event_for(Key::Char(' ')), Some(InputEvent::Drop));
    assert_eq!(event_for(Key::Backspace), Some(InputEvent::Drop));
    assert_eq!(event_for(Key::Char('a')), Some(InputEvent::Left));
    assert_eq!(event_for(Key::Left), Some(InputEvent::Left));
    assert_eq!(event_for(Key::Char('s')), Some(InputEvent::Down));
    assert_eq!(event_for(Key::Down), Some(InputEvent::Down));
    assert_eq!(event_for(Key::Char('d')), Some(InputEvent::Right));
    assert_eq!(event_for(Key::Right), Some(InputEvent::Right));
    assert_eq!(event_for(Key::Char('r')), Some(InputEvent::Rotate));
    assert_eq!(event_for(Key::Char('w')), Some(InputEvent::Rotate));
    assert_eq!(event_for(Key::Up), Some(InputEvent::Rotate));
    assert_eq!(event_for(Key::Char('q')), Some(InputEvent::Quit));
    assert_eq!(event_for(Key::Esc), Some(InputEvent::Quit));
}

#[test]
fn other_keys_raise_nothing() {
    assert_eq!(event_for(Key::Char('x')), None);
    assert_eq!(event_for(Key::Char('A')), None);
    assert_eq!(event_for(Key::Other), None);
}
