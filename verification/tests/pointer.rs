use seamless::address::{Ipv4Addr, SocketAddrV4};
use seamless::display::{ClientDisplays, Display, DisplayError, DisplayManager};
use seamless::input::{MouseMovement, MousePosition};
use seamless::mouse_handler::{Handler, MouseHandlerError, PointerAction, PointerStep, EDGE_PUSH};

const SCREEN: (i32, i32) = (1920, 1080);

fn addr(last: u8) -> SocketAddrV4 {
    SocketAddrV4::new(Ipv4Addr::new(10, 0, 0, last), 31726)
}

fn full_hd() -> Vec<Display> {
    vec![Display { id: 1, client_x: 0, client_y: 0, width: 1920, height: 1080 }]
}

fn at(x: i32, y: i32) -> MousePosition {
    MousePosition { x, y }
}

/// Three machines of width 1920, the local one in the middle.
fn three_in_a_row() -> DisplayManager {
    let mut manager = DisplayManager::new(full_hd());
    manager.set_own_ip(addr(2));
    manager.received_displays(ClientDisplays::new_networked(addr(1), full_hd())).unwrap();
    manager.received_displays(ClientDisplays::new_networked(addr(3), full_hd())).unwrap();
    manager
}

fn holding(displays: &DisplayManager, position: MousePosition) -> Handler {
    let mut handler = Handler::new();
    let _ = handler.set_current_position(displays, position);
    assert_eq!(handler.current_position(), position);
    handler
}

fn step(handler: &Handler, displays: &DisplayManager, sample: MousePosition) -> PointerStep {
    handler.mouse_movement(displays, sample, SCREEN).unwrap()
}

#[test]
fn positions_move_by_displacements() {
    assert_eq!(at(5, 7).add(MouseMovement { x: -6, y: 3 }), Some(at(-1, 10)));
    assert_eq!(at(5, 7).sub(MouseMovement { x: -6, y: 3 }), Some(at(11, 4)));
    assert_eq!(at(i32::MAX, 0).add(MouseMovement { x: 1, y: 0 }), None);
    assert_eq!(at(0, i32::MIN).sub(MouseMovement { x: 0, y: 1 }), None);
    assert_eq!(
        at(i32::MAX, i32::MIN).add(MouseMovement { x: 0, y: 0 }),
        Some(at(i32::MAX, i32::MIN))
    );
}

#[test]
fn new_handler_holds_the_origin() {
    assert_eq!(Handler::new().current_position(), at(0, 0));
    assert_eq!(EDGE_PUSH, 5);
}

#[test]
fn local_sample_on_a_single_machine_is_accepted() {
    let displays = DisplayManager::new(full_hd());
    let handler = Handler::new();
    assert_eq!(
        step(&handler, &displays, at(100, 200)),
        PointerStep { action: PointerAction::Release, position: at(100, 200) }
    );
    assert_eq!(
        step(&handler, &displays, at(0, 0)),
        PointerStep { action: PointerAction::Release, position: at(0, 0) }
    );
}

#[test]
fn local_sample_is_mapped_into_the_flattened_space() {
    let displays = three_in_a_row();
    let handler = holding(&displays, at(2000, 500));
    assert_eq!(
        step(&handler, &displays, at(700, 300)),
        PointerStep { action: PointerAction::Release, position: at(2620, 300) }
    );
    assert_eq!(
        step(&handler, &displays, at(1919, 300)),
        PointerStep { action: PointerAction::Release, position: at(3839, 300) }
    );
}

#[test]
fn local_sample_off_the_monitors_is_an_error() {
    let displays = three_in_a_row();
    let handler = holding(&displays, at(2000, 500));
    assert!(matches!(
        handler.mouse_movement(&displays, at(-1, 0), SCREEN),
        Err(MouseHandlerError::DisplayError(DisplayError::InvalidMousePosition))
    ));
    assert!(matches!(
        handler.mouse_movement(&displays, at(0, 2000), SCREEN),
        Err(MouseHandlerError::DisplayError(DisplayError::InvalidMousePosition))
    ));
}

#[test]
fn left_edge_hands_the_pointer_to_the_left_neighbour() {
    let displays = three_in_a_row();
    let handler = holding(&displays, at(2000, 500));
    assert_eq!(
        step(&handler, &displays, at(0, 500)),
        PointerStep { action: PointerAction::Park, position: at(1915, 500) }
    );
}

#[test]
fn far_side_of_the_last_column_belongs_to_the_right_neighbour() {
    let displays = three_in_a_row();
    let handler = holding(&displays, at(2000, 500));
    assert_eq!(
        step(&handler, &displays, at(1920, 500)),
        PointerStep { action: PointerAction::Park, position: at(3840, 500) }
    );
}

#[test]
fn right_edge_pushes_the_pointer_towards_the_right_neighbour() {
    let mut displays = DisplayManager::new(vec![
        Display { id: 1, client_x: 1000, client_y: 0, width: 1000, height: 500 },
        Display { id: 2, client_x: 0, client_y: 0, width: 1000, height: 500 },
    ]);
    displays.set_own_ip(addr(2));
    displays.received_displays(ClientDisplays::new_networked(addr(3), full_hd())).unwrap();
    let handler = holding(&displays, at(10, 10));
    assert_eq!(
        step(&handler, &displays, at(1500, 100)),
        PointerStep { action: PointerAction::Release, position: at(505, 100) }
    );
}

#[test]
fn edge_without_neighbour_keeps_the_pointer() {
    let mut displays = DisplayManager::new(full_hd());
    displays.set_own_ip(addr(2));
    displays.received_displays(ClientDisplays::new_networked(addr(3), full_hd())).unwrap();
    let handler = holding(&displays, at(100, 100));
    assert_eq!(
        step(&handler, &displays, at(0, 500)),
        PointerStep { action: PointerAction::Release, position: at(0, 500) }
    );
}

#[test]
fn remote_sample_is_a_displacement_from_the_anchor() {
    let displays = three_in_a_row();
    let handler = holding(&displays, at(100, 100));
    assert_eq!(
        step(&handler, &displays, at(1000, 500)),
        PointerStep { action: PointerAction::Park, position: at(140, 60) }
    );
    assert_eq!(
        step(&handler, &displays, at(960, 540)),
        PointerStep { action: PointerAction::Park, position: at(100, 100) }
    );
    assert_eq!(
        step(&handler, &displays, at(950, 640)),
        PointerStep { action: PointerAction::Park, position: at(90, 200) }
    );
}

#[test]
fn anchor_is_half_the_display_rounded_to_zero() {
    let displays = three_in_a_row();
    let handler = holding(&displays, at(100, 100));
    assert_eq!(
        handler.mouse_movement(&displays, at(10, 10), (21, 15)).unwrap(),
        PointerStep { action: PointerAction::Park, position: at(100, 103) }
    );
    assert_eq!(
        handler.mouse_movement(&displays, at(0, 0), (-21, -15)).unwrap(),
        PointerStep { action: PointerAction::Park, position: at(110, 107) }
    );
}

#[test]
fn pointer_comes_back_from_a_peer() {
    let displays = three_in_a_row();
    let handler = holding(&displays, at(1900, 500));
    assert_eq!(
        step(&handler, &displays, at(1000, 550)),
        PointerStep { action: PointerAction::Place(at(20, 510)), position: at(1940, 510) }
    );
}

#[test]
fn pointer_that_comes_back_onto_an_edge_is_pushed_over_it() {
    let displays = three_in_a_row();
    let handler = holding(&displays, at(1900, 500));
    assert_eq!(
        step(&handler, &displays, at(980, 540)),
        PointerStep { action: PointerAction::Park, position: at(1915, 500) }
    );
}

#[test]
fn remote_sample_beyond_every_display_is_dropped() {
    let displays = three_in_a_row();
    let handler = holding(&displays, at(5700, 500));
    assert_eq!(
        step(&handler, &displays, at(1900, 540)),
        PointerStep { action: PointerAction::Park, position: at(5700, 500) }
    );
    assert_eq!(
        step(&handler, &displays, at(960, 0)),
        PointerStep { action: PointerAction::Park, position: at(5700, 500) }
    );
    assert_eq!(
        handler.mouse_movement(&displays, at(i32::MAX, i32::MAX), (i32::MIN, i32::MIN)).unwrap(),
        PointerStep { action: PointerAction::Park, position: at(5700, 500) }
    );
}

#[test]
fn position_that_nobody_owns_gives_way_to_the_origin() {
    let displays = three_in_a_row();
    let handler = holding(&displays, at(9000, 0));
    assert_eq!(
        step(&handler, &displays, at(3, 3)),
        PointerStep { action: PointerAction::Park, position: at(0, 0) }
    );
    let alone = DisplayManager::new(vec![]);
    assert_eq!(
        step(&Handler::new(), &alone, at(3, 3)),
        PointerStep { action: PointerAction::Idle, position: at(0, 0) }
    );
}

#[test]
fn accept_takes_the_position_of_a_step() {
    let displays = three_in_a_row();
    let mut handler = holding(&displays, at(100, 100));
    let taken = step(&handler, &displays, at(1000, 500));
    handler.accept(&taken);
    assert_eq!(handler.current_position(), at(140, 60));
}

#[test]
fn announced_position_places_or_parks_the_cursor() {
    let displays = three_in_a_row();
    let mut handler = Handler::new();
    assert!(matches!(handler.apply_current_position(&displays), Ok(PointerAction::Park)));
    assert!(matches!(
        handler.set_current_position(&displays, at(2000, 700)),
        Ok(PointerAction::Place(MousePosition { x: 80, y: 700 }))
    ));
    assert!(matches!(
        handler.set_current_position(&displays, at(4000, 700)),
        Ok(PointerAction::Park)
    ));
    assert!(matches!(
        handler.set_current_position(&displays, at(6000, 700)),
        Err(MouseHandlerError::DisplayError(DisplayError::InvalidMousePosition))
    ));
    assert_eq!(handler.current_position(), at(6000, 700));
    assert!(matches!(
        handler.get_local_mouse_position(&displays),
        Err(MouseHandlerError::DisplayError(DisplayError::InvalidMousePosition))
    ));
}
