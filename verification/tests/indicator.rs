use seamless::gui::{GUIProcessManager, GuiCommand};
use seamless::input::MousePosition;
use seamless::mouse_handler::PointerAction;

#[test]
fn indicator_starts_once_and_ends_once() {
    let mut manager = GUIProcessManager::new();
    assert_eq!(manager.quit_ui(), GuiCommand::Nothing);
    assert_eq!(manager.init_ui(), GuiCommand::Spawn);
    assert_eq!(manager.listen(Some(true)), GuiCommand::Spawn);
    manager.done(GuiCommand::Spawn);
    assert_eq!(manager.listen(Some(true)), GuiCommand::Nothing);
    assert_eq!(manager.init_ui(), GuiCommand::Nothing);
    assert_eq!(manager.listen(None), GuiCommand::Nothing);
    assert_eq!(manager.listen(Some(false)), GuiCommand::Kill);
    assert_eq!(manager.quit_ui(), GuiCommand::Kill);
    manager.done(GuiCommand::Kill);
    assert_eq!(manager.listen(Some(false)), GuiCommand::Nothing);
    assert_eq!(manager.listen(Some(true)), GuiCommand::Spawn);
}

#[test]
fn failed_command_leaves_the_indicator_as_it_was() {
    let mut manager = GUIProcessManager::new();
    assert_eq!(manager.listen(Some(true)), GuiCommand::Spawn);
    manager.done(GuiCommand::Nothing);
    assert_eq!(manager.listen(Some(true)), GuiCommand::Spawn);
}

#[test]
fn pointer_actions_ask_for_the_indicator() {
    let point = MousePosition { x: 3, y: 4 };
    assert_eq!(PointerAction::Park.indicator(), Some(true));
    assert_eq!(PointerAction::Release.indicator(), Some(false));
    assert_eq!(PointerAction::Place(point).indicator(), Some(false));
    assert_eq!(PointerAction::Idle.indicator(), None);
}

#[test]
fn pointer_actions_place_the_cursor() {
    let point = MousePosition { x: 3, y: 4 };
    assert_eq!(PointerAction::Park.cursor((1920, 1080)), Some(MousePosition { x: 960, y: 540 }));
    assert_eq!(PointerAction::Park.cursor((1921, 1081)), Some(MousePosition { x: 960, y: 540 }));
    assert_eq!(PointerAction::Park.cursor((-3, 0)), Some(MousePosition { x: -1, y: 0 }));
    assert_eq!(PointerAction::Place(point).cursor((1920, 1080)), Some(point));
    assert_eq!(PointerAction::Release.cursor((1920, 1080)), None);
    assert_eq!(PointerAction::Idle.cursor((1920, 1080)), None);
}
