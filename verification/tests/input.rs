use engine::input::{Action, ActionMap, Button, InputManager, Key, UnmappedAction};

#[test]
fn keys_and_buttons_map_to_actions() {
    assert_eq!(Action::try_from_key(&Key::KeyW), Ok(Action::MoveForward));
    assert_eq!(Action::try_from_key(&Key::ShiftLeft), Ok(Action::Sneak));
    assert_eq!(Action::try_from_key(&Key::F4), Ok(Action::ToggleGamemode));
    assert_eq!(Action::try_from_key(&Key::Digit9), Ok(Action::BlockBar9));
    assert_eq!(Action::try_from_key(&Key::Other), Err(UnmappedAction));
    assert_eq!(Action::try_from_button(&Button::Left), Ok(Action::BreakBlock));
    assert_eq!(Action::try_from_button(&Button::Right), Ok(Action::PlaceBlock));
    assert_eq!(Action::try_from_button(&Button::Other), Err(UnmappedAction));
    assert_eq!(Action::block_bar()[0], Action::BlockBar1);
    assert_eq!(Action::BlockBar9.index(), 19);
}

#[test]
fn action_map_sets_and_axes() {
    let mut m = ActionMap::default();
    assert!(!m.get_action(Action::Jump));
    assert!(m.process_input(Ok(Action::Jump), true));
    assert!(m.get_action(Action::Jump));
    assert!(!m.process_input(Err(UnmappedAction), true));
    assert_eq!(m.get_axis(Action::MoveForward, Action::MoveBackward), 0);
    m.set_action(Action::MoveForward, true);
    assert_eq!(m.get_axis(Action::MoveForward, Action::MoveBackward), 1);
    m.set_action(Action::MoveBackward, true);
    assert_eq!(m.get_axis(Action::MoveForward, Action::MoveBackward), 0);
    m.set_action(Action::MoveForward, false);
    assert_eq!(m.get_axis(Action::MoveForward, Action::MoveBackward), -1);
    let copy = m.clone();
    assert!(copy.get_action(Action::MoveBackward));
    m.reset_all();
    assert!(!m.get_action(Action::MoveBackward) && !m.get_action(Action::Jump));
}

#[test]
fn just_pressed_follows_queued_events() {
    let mut im = InputManager::new();
    assert!(im.process_input(Action::try_from_key(&Key::Space), true));
    assert!(!im.process_input(Action::try_from_key(&Key::Other), true));
    im.process();
    assert!(im.pressed().get_action(Action::Jump));
    assert!(im.just_pressed().get_action(Action::Jump));
    // still held next frame, but no longer just pressed
    im.process();
    assert!(im.pressed().get_action(Action::Jump));
    assert!(!im.just_pressed().get_action(Action::Jump));
    // a second press while held does not count as a new press
    im.process_input(Ok(Action::Jump), true);
    im.process();
    assert!(!im.just_pressed().get_action(Action::Jump));
    // release and press within one frame: the press counts and the last event wins
    im.process_input(Ok(Action::Jump), false);
    im.process_input(Ok(Action::Jump), true);
    im.process();
    assert!(im.just_pressed().get_action(Action::Jump));
    assert!(im.pressed().get_action(Action::Jump));
    // press and release within one frame: pressed this frame, not held
    im.process_input(Ok(Action::PlaceBlock), true);
    im.process_input(Ok(Action::PlaceBlock), false);
    im.process();
    assert!(im.just_pressed().get_action(Action::PlaceBlock));
    assert!(!im.pressed().get_action(Action::PlaceBlock));
    im.reset_all();
    assert!(!im.pressed().get_action(Action::Jump));
    im.process();
    assert!(!im.just_pressed().get_action(Action::Jump));
}
