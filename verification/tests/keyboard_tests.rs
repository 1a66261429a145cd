use terminal_renderer::keyboard::{KeyCode, KeyEvent, Keyboard, Keys};

fn ev(code: KeyCode, control: bool) -> KeyEvent {
    KeyEvent { code, control }
}

fn keys(k: &Keyboard) -> Vec<Keys> {
    let mut v = k.pressed_keys();
    v.sort_by_key(|k| format!("{:?}", k));
    v
}

#[test]
fn new_keyboard_has_no_keys() {
    let k = Keyboard::new();
    assert!(k.pressed_keys().is_empty());
    assert!(!k.is_pressed(Keys::W));
}

#[test]
fn letters_ignore_case_and_arrows_map() {
    let mut k = Keyboard::new();
    k.process_key_event(ev(KeyCode::Char('W'), false));
    k.process_key_event(ev(KeyCode::Char('w'), false));
    k.process_key_event(ev(KeyCode::Char('a'), false));
    k.process_key_event(ev(KeyCode::Char('S'), false));
    k.process_key_event(ev(KeyCode::Char('d'), true));
    k.process_key_event(ev(KeyCode::Char(' '), false));
    k.process_key_event(ev(KeyCode::Left, false));
    k.process_key_event(ev(KeyCode::Up, false));
    k.process_key_event(ev(KeyCode::Char('x'), false));
    k.process_key_event(ev(KeyCode::Other, false));
    let pressed = k.pressed_keys();
    assert_eq!(pressed.len(), 7);
    for key in [Keys::W, Keys::A, Keys::S, Keys::D, Keys::Space, Keys::Left, Keys::Up] {
        assert!(k.is_pressed(key));
        assert!(pressed.contains(&key));
    }
    assert!(!k.is_pressed(Keys::Right));
    assert!(!k.is_pressed(Keys::Down));
}

#[test]
fn control_c_is_ctrl_c() {
    let mut k = Keyboard::new();
    k.process_key_event(ev(KeyCode::Char('c'), true));
    assert!(k.is_pressed(Keys::CtrlC));
    assert!(!k.is_pressed(Keys::C));
    k.process_key_event(ev(KeyCode::Char('C'), false));
    assert!(k.is_pressed(Keys::C));
    assert_eq!(keys(&k).len(), 2);
}

#[test]
fn update_replaces_previous_keys() {
    let mut k = Keyboard::new();
    k.update(&[ev(KeyCode::Right, false), ev(KeyCode::Down, false), ev(KeyCode::Right, false)]);
    assert_eq!(k.pressed_keys().len(), 2);
    k.update(&[ev(KeyCode::Char('c'), false)]);
    assert_eq!(k.pressed_keys(), vec![Keys::C]);
    k.update(&[]);
    assert!(k.pressed_keys().is_empty());
}
