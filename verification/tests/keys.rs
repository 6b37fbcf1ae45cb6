use seamless::address::{Ipv4Addr, SocketAddrV4};
use seamless::display::{ClientDisplays, Display, DisplayManager};
use seamless::input::{
    Capture, Direction, HeldKeysManager, Key, KeyInput, Keycode, MousePosition, REFRESH_INTERVAL,
};
use seamless::key_handler::{
    device_query_keycode_to_enigo_key, enigo_key, mouse_button_to_enigo_mouse_button, EnigoKey,
    Handler, KeyAction, KeyError, KeyboardKey, KeysManager, LivePressedKey, MouseButton,
    HOLD_TIMEOUT,
};
use seamless::mouse_handler::Handler as MouseHandler;
use seamless::protocol::Event;

const MS: u64 = 1_000_000;

fn key(name: &str) -> Key {
    Key::KeyCode(Keycode::from_name(name).unwrap())
}

fn down(name: &str) -> KeyInput {
    KeyInput::new(key(name), Direction::Down)
}

fn up(name: &str) -> KeyInput {
    KeyInput::new(key(name), Direction::Up)
}

fn counterpart(name: &str) -> Result<KeyboardKey, KeyError> {
    device_query_keycode_to_enigo_key(&Keycode::from_name(name).unwrap())
}

#[test]
fn keycode_names_are_those_of_the_input_source() {
    let code = Keycode::from_name("LControl").unwrap();
    assert_eq!(code.name(), "LControl");
    assert_eq!(Keycode::from_name("A").unwrap().name(), "A");
    assert_eq!(Keycode::from_name("a"), Err(String::from("failed to parse keycode")));
    assert_eq!(Keycode::from_name(""), Err(String::from("failed to parse keycode")));
    assert_eq!(Keycode::from_name("K_A"), Err(String::from("failed to parse keycode")));
}

#[test]
fn what_is_pressed_goes_down_and_what_is_let_go_comes_up() {
    let shift = Keycode::from_name("LShift").unwrap();
    assert_eq!(KeyInput::captured(Capture::KeyDown(shift.clone())), down("LShift"));
    assert_eq!(KeyInput::captured(Capture::KeyUp(shift)), up("LShift"));
    assert_eq!(
        KeyInput::captured(Capture::MouseDown(1)),
        KeyInput::new(Key::MouseButton(1), Direction::Down)
    );
    assert_eq!(
        KeyInput::captured(Capture::MouseUp(1)),
        KeyInput::new(Key::MouseButton(1), Direction::Up)
    );
}

#[test]
fn keys_compare_by_kind_and_value() {
    assert!(key("A").same_as(&key("A")));
    assert!(!key("A").same_as(&key("B")));
    assert!(Key::MouseButton(1).same_as(&Key::MouseButton(1)));
    assert!(!Key::MouseButton(1).same_as(&Key::MouseButton(2)));
    assert!(!Key::MouseButton(1).same_as(&key("Key1")));
    assert_eq!(key("Tab").duplicate(), key("Tab"));
    assert_eq!(Keycode::from_name("Tab").unwrap().clone(), Keycode::from_name("Tab").unwrap());
}

#[test]
fn letters_digits_and_function_keys_counterpart() {
    assert_eq!(counterpart("A"), Ok(KeyboardKey::Layout('a')));
    assert_eq!(counterpart("M"), Ok(KeyboardKey::Layout('m')));
    assert_eq!(counterpart("Z"), Ok(KeyboardKey::Layout('z')));
    assert_eq!(counterpart("Key0"), Ok(KeyboardKey::Layout('0')));
    assert_eq!(counterpart("Key9"), Ok(KeyboardKey::Layout('9')));
    assert_eq!(counterpart("F1"), Ok(KeyboardKey::F1));
    assert_eq!(counterpart("F9"), Ok(KeyboardKey::F9));
    assert_eq!(counterpart("F10"), Ok(KeyboardKey::F10));
    assert_eq!(counterpart("F12"), Ok(KeyboardKey::F12));
}

#[test]
fn named_keys_counterpart() {
    assert_eq!(counterpart("LControl"), Ok(KeyboardKey::LControl));
    assert_eq!(counterpart("RControl"), Ok(KeyboardKey::RControl));
    assert_eq!(counterpart("Space"), Ok(KeyboardKey::Space));
    assert_eq!(counterpart("Backspace"), Ok(KeyboardKey::Backspace));
    assert_eq!(counterpart("LMeta"), Ok(KeyboardKey::Meta));
    assert_eq!(counterpart("Escape"), Ok(KeyboardKey::Escape));
    assert_eq!(counterpart("Enter"), Ok(KeyboardKey::Return));
    assert_eq!(counterpart("Up"), Ok(KeyboardKey::UpArrow));
    assert_eq!(counterpart("Down"), Ok(KeyboardKey::DownArrow));
    assert_eq!(counterpart("Left"), Ok(KeyboardKey::LeftArrow));
    assert_eq!(counterpart("Right"), Ok(KeyboardKey::RightArrow));
    assert_eq!(counterpart("LAlt"), Ok(KeyboardKey::Alt));
    assert_eq!(counterpart("LShift"), Ok(KeyboardKey::LShift));
    assert_eq!(counterpart("RShift"), Ok(KeyboardKey::RShift));
    assert_eq!(counterpart("Tab"), Ok(KeyboardKey::Tab));
}

#[test]
fn keys_without_counterpart_are_refused() {
    let names =
        ["F13", "F20", "RAlt", "RMeta", "CapsLock", "Numpad1", "NumpadAdd", "Comma", "Home"];
    for name in names {
        assert_eq!(counterpart(name), Err(KeyError::TransformationError));
    }
}

#[test]
fn mouse_buttons_counterpart() {
    assert_eq!(mouse_button_to_enigo_mouse_button(1), Ok(MouseButton::Left));
    assert_eq!(mouse_button_to_enigo_mouse_button(2), Ok(MouseButton::Right));
    assert_eq!(mouse_button_to_enigo_mouse_button(3), Ok(MouseButton::Middle));
    assert_eq!(mouse_button_to_enigo_mouse_button(4), Ok(MouseButton::Back));
    assert_eq!(mouse_button_to_enigo_mouse_button(5), Ok(MouseButton::Forward));
    assert_eq!(mouse_button_to_enigo_mouse_button(0), Err(KeyError::TransformationError));
    assert_eq!(mouse_button_to_enigo_mouse_button(6), Err(KeyError::TransformationError));
    assert_eq!(enigo_key(&Key::MouseButton(2)), Ok(EnigoKey::MouseButton(MouseButton::Right)));
    assert_eq!(enigo_key(&key("Q")), Ok(EnigoKey::KeyboardButton(KeyboardKey::Layout('q'))));
    assert_eq!(enigo_key(&key("Insert")), Err(KeyError::TransformationError));
}

#[test]
fn pressed_key_expires_after_the_hold_timeout() {
    let mut entry = LivePressedKey::new(key("A"), 10 * MS);
    assert_eq!(HOLD_TIMEOUT, 75 * MS);
    assert_eq!(REFRESH_INTERVAL, 25 * MS);
    assert!(!entry.expired(10 * MS));
    assert!(!entry.expired(85 * MS));
    assert!(entry.expired(85 * MS + 1));
    assert!(!entry.expired(0));
    entry.update(50 * MS);
    assert!(!entry.expired(125 * MS));
    assert!(entry.expired(126 * MS));
}

#[test]
fn first_down_is_passed_on_and_adds_the_key() {
    let mut manager = KeysManager::new();
    assert!(manager.received_key_update(&key("A"), &Direction::Down, 0));
    assert!(manager.is_held(&key("A")));
    assert!(!manager.is_held(&key("B")));
    assert_eq!(manager.len(), 1);
}

#[test]
fn repeated_down_changes_only_the_freshness() {
    let mut manager = KeysManager::new();
    assert!(manager.received_key_update(&key("A"), &Direction::Down, 0));
    assert!(manager.received_key_update(&key("B"), &Direction::Down, 0));
    assert!(!manager.received_key_update(&key("A"), &Direction::Down, 50 * MS));
    assert_eq!(manager.len(), 2);
    assert!(manager.is_held(&key("A")));
    assert!(manager.is_held(&key("B")));
    assert_eq!(manager.time_update(76 * MS), vec![key("B")]);
    assert!(manager.is_held(&key("A")));
    assert_eq!(manager.time_update(125 * MS), vec![]);
    assert_eq!(manager.time_update(126 * MS), vec![key("A")]);
    assert_eq!(manager.len(), 0);
}

#[test]
fn up_is_always_passed_on() {
    let mut manager = KeysManager::new();
    assert!(manager.received_key_update(&key("A"), &Direction::Up, 0));
    assert_eq!(manager.len(), 0);
    manager.received_key_update(&key("A"), &Direction::Down, 0);
    manager.received_key_update(&Key::MouseButton(1), &Direction::Down, 0);
    assert!(manager.received_key_update(&key("A"), &Direction::Up, 1));
    assert!(!manager.is_held(&key("A")));
    assert!(manager.is_held(&Key::MouseButton(1)));
}

#[test]
fn unrefreshed_key_comes_up_after_76_ms() {
    let mut manager = KeysManager::new();
    assert!(manager.received_key_update(&key("A"), &Direction::Down, 0));
    assert_eq!(manager.time_update(75 * MS), vec![]);
    let released = manager.time_update(76 * MS);
    assert_eq!(released, vec![key("A")]);
    assert!(!manager.is_held(&key("A")));
    let synthetic = KeyInput::new(released[0].duplicate(), Direction::Up);
    assert_eq!(synthetic.serialize().unwrap(), "Kup|K_A");
}

#[test]
fn handler_injects_what_is_passed_on() {
    let mut handler = Handler::new();
    assert_eq!(
        handler.received_key(down("A"), 0),
        Ok(Some(KeyAction::KeyDown(KeyboardKey::Layout('a'))))
    );
    assert_eq!(handler.received_key(down("A"), 25 * MS), Ok(None));
    assert!(handler.is_held(&key("A")));
    assert_eq!(
        handler.received_key(up("A"), 30 * MS),
        Ok(Some(KeyAction::KeyUp(KeyboardKey::Layout('a'))))
    );
    assert!(!handler.is_held(&key("A")));
    assert_eq!(
        handler.received_key(up("A"), 31 * MS),
        Ok(Some(KeyAction::KeyUp(KeyboardKey::Layout('a'))))
    );
    assert_eq!(
        handler.received_key(KeyInput::new(Key::MouseButton(1), Direction::Down), 0),
        Ok(Some(KeyAction::MouseDown(MouseButton::Left)))
    );
    assert_eq!(
        handler.received_key(KeyInput::new(Key::MouseButton(1), Direction::Up), 0),
        Ok(Some(KeyAction::MouseUp(MouseButton::Left)))
    );
}

#[test]
fn handler_refuses_keys_without_counterpart() {
    let mut handler = Handler::new();
    assert_eq!(handler.received_key(down("F13"), 0), Err(KeyError::TransformationError));
    assert_eq!(
        handler.received_key(KeyInput::new(Key::MouseButton(9), Direction::Down), 0),
        Err(KeyError::TransformationError)
    );
    assert!(!handler.is_held(&key("F13")));
    assert_eq!(handler.timed_update(1000 * MS), vec![]);
}

#[test]
fn handler_releases_expired_keys() {
    let mut handler = Handler::new();
    handler.received_key(down("A"), 0).unwrap();
    handler.received_key(KeyInput::new(Key::MouseButton(2), Direction::Down), 10 * MS).unwrap();
    handler.received_key(down("LShift"), 60 * MS).unwrap();
    assert_eq!(handler.timed_update(75 * MS), vec![]);
    assert_eq!(
        handler.timed_update(86 * MS),
        vec![KeyAction::KeyUp(KeyboardKey::Layout('a')), KeyAction::MouseUp(MouseButton::Right)]
    );
    assert!(handler.is_held(&key("LShift")));
    assert_eq!(handler.timed_update(136 * MS), vec![KeyAction::KeyUp(KeyboardKey::LShift)]);
}

#[test]
fn held_keys_pass_on_first_down_and_every_up() {
    let mut manager = HeldKeysManager::new();
    assert_eq!(manager.key_input(&down("A")), Some(down("A")));
    assert_eq!(manager.key_input(&down("A")), None);
    assert_eq!(manager.key_input(&down("B")), Some(down("B")));
    assert_eq!(manager.held_keys(), &vec![key("A"), key("B")]);
    assert_eq!(manager.key_input(&up("A")), Some(up("A")));
    assert_eq!(manager.held_keys(), &vec![key("B")]);
    assert_eq!(manager.key_input(&up("A")), Some(up("A")));
    assert_eq!(manager.held_keys(), &vec![key("B")]);
}

#[test]
fn refresh_tick_sends_a_down_for_every_held_key() {
    let mut manager = HeldKeysManager::new();
    assert_eq!(manager.send_loop(), vec![]);
    manager.key_input(&down("A"));
    manager.key_input(&KeyInput::new(Key::MouseButton(3), Direction::Down));
    assert_eq!(
        manager.send_loop(),
        vec![down("A"), KeyInput::new(Key::MouseButton(3), Direction::Down)]
    );
}

#[test]
fn key_events_go_to_the_peer_under_the_pointer() {
    let peer = SocketAddrV4::new(Ipv4Addr::new(10, 0, 0, 1), 31726);
    let own = SocketAddrV4::new(Ipv4Addr::new(10, 0, 0, 2), 31726);
    let screen = vec![Display { id: 1, client_x: 0, client_y: 0, width: 100, height: 100 }];
    let mut displays = DisplayManager::new(screen.clone());
    displays.set_own_ip(own);
    displays.received_displays(ClientDisplays::new_networked(peer, screen)).unwrap();
    let mut pointer = MouseHandler::new();
    assert_eq!(HeldKeysManager::send_event(&pointer, &displays), Some(peer));
    pointer.set_current_position(&displays, MousePosition { x: 150, y: 5 }).unwrap();
    assert_eq!(HeldKeysManager::send_event(&pointer, &displays), None);
    let _ = pointer.set_current_position(&displays, MousePosition { x: 500, y: 5 });
    assert_eq!(HeldKeysManager::send_event(&pointer, &displays), None);
}
