use prefab_editor::display::KeyCode;
use prefab_editor::editor::{Axis, EditorEvent, Rotation, Vec3, UNIT};
use prefab_editor::mode::{
    input_system, scale, EditorMode, Input, InputSystem, MouseMotion, MouseScrollUnit, MouseWheel,
    TransformMode, MIN_MULTIPLIER,
};

fn fixed(x: f32) -> i64 {
    (x as f64 * UNIT as f64).round() as i64
}

fn float(x: i64) -> f32 {
    (x as f64 / UNIT as f64) as f32
}

fn floats(v: Vec3) -> [f32; 3] {
    [float(v.x), float(v.y), float(v.z)]
}

fn keys(just_pressed: Vec<KeyCode>) -> Input {
    Input { pressed: just_pressed.clone(), just_pressed }
}

#[test]
fn digit_on_locked_axis_translates() {
    let mut mode = EditorMode::default();
    mode.press(KeyCode::X);
    mode.press(KeyCode::T);
    let event = mode.digit(5).unwrap();
    match event {
        EditorEvent::Translate(v) => assert_eq!(floats(v), [5.0, 0.0, 0.0]),
        other => panic!("unexpected event {:?}", other),
    }
    assert_eq!(event, EditorEvent::Translate(Vec3 { x: 5 * UNIT, y: 0, z: 0 }));
}

#[test]
fn pointer_drag_on_locked_axis_translates() {
    let mut mode = EditorMode::default();
    mode.press(KeyCode::T);
    mode.press(KeyCode::T);
    mode.press(KeyCode::Y);
    assert!(mode.mouse);
    let event = mode.drag(fixed(100.0), fixed(0.001)).unwrap();
    match event {
        EditorEvent::Translate(v) => assert_eq!(floats(v), [0.0, 0.1, 0.0]),
        other => panic!("unexpected event {:?}", other),
    }
    assert_eq!(float(mode.value), 0.1);
}

#[test]
fn digits_shift_and_append_before_the_point() {
    let mut mode = EditorMode::default();
    mode.press(KeyCode::T);
    mode.press(KeyCode::Z);
    assert_eq!(mode.digit(1), Some(EditorEvent::Translate(Vec3 { x: 0, y: 0, z: UNIT })));
    assert_eq!(mode.digit(2), Some(EditorEvent::Translate(Vec3 { x: 0, y: 0, z: 11 * UNIT })));
    assert_eq!(mode.value, 12 * UNIT);
    assert_eq!(mode.decimal, None);
}

#[test]
fn digits_behind_the_point_add_falling_powers_of_ten() {
    let mut mode = EditorMode::default();
    mode.press(KeyCode::S);
    mode.press(KeyCode::X);
    mode.digit(3);
    mode.press(KeyCode::Period);
    assert_eq!(mode.decimal, Some(0));
    assert_eq!(
        mode.digit(2),
        Some(EditorEvent::Scale(Vec3 { x: 200_000, y: UNIT, z: UNIT }))
    );
    assert_eq!(
        mode.digit(5),
        Some(EditorEvent::Scale(Vec3 { x: 50_000, y: UNIT, z: UNIT }))
    );
    assert_eq!(mode.value, 3_250_000);
    assert_eq!(float(mode.value), 3.25);
    assert_eq!(mode.decimal, Some(2));
}

#[test]
fn a_digit_behind_the_sixth_place_is_not_accepted() {
    let mut mode = EditorMode::default();
    mode.press(KeyCode::T);
    mode.press(KeyCode::X);
    mode.press(KeyCode::Period);
    for place in 1..=6 {
        assert!(mode.digit(1).is_some());
        assert_eq!(mode.decimal, Some(place));
    }
    assert_eq!(mode.value, 111_111);
    let before = mode;
    assert_eq!(mode.digit(9), None);
    assert_eq!(mode.digit(0), None);
    assert_eq!(mode, before);
    mode.decimal = Some(-1);
    let before = mode;
    assert_eq!(mode.digit(1), None);
    assert_eq!(mode, before);
}

#[test]
fn rotation_is_about_the_locked_axis() {
    let mut mode = EditorMode::default();
    mode.press(KeyCode::R);
    assert_eq!(
        mode.digit(1),
        Some(EditorEvent::Rotate(Rotation { axis: None, angle: 0 }))
    );
    mode.press(KeyCode::Y);
    assert_eq!(
        mode.digit(0),
        Some(EditorEvent::Rotate(Rotation { axis: Some(Axis::Y), angle: 9 * UNIT }))
    );
}

#[test]
fn without_an_axis_the_vector_is_zero() {
    let mut mode = EditorMode::default();
    mode.press(KeyCode::T);
    assert_eq!(mode.digit(4), Some(EditorEvent::Translate(Vec3 { x: 0, y: 0, z: 0 })));
    mode.press(KeyCode::S);
    assert_eq!(mode.digit(4), Some(EditorEvent::Scale(Vec3 { x: 0, y: 0, z: 0 })));
}

#[test]
fn idle_mode_takes_no_digit_and_no_motion() {
    let mut mode = EditorMode::default();
    assert_eq!(mode.digit(7), None);
    assert_eq!(mode.drag(fixed(10.0), fixed(1.0)), None);
    assert_eq!(mode, EditorMode::default());

    let mut state = InputSystem::default();
    let events = input_system(&mut state, &mut mode, &keys(vec![KeyCode::Key5]), &vec![], &vec![]);
    assert!(events.is_empty());
    assert_eq!(mode, EditorMode::default());
}

#[test]
fn a_digit_typed_in_idle_does_not_count_later() {
    let mut mode = EditorMode::default();
    mode.digit(5);
    mode.press(KeyCode::T);
    mode.press(KeyCode::X);
    assert_eq!(mode.digit(3), Some(EditorEvent::Translate(Vec3 { x: 3 * UNIT, y: 0, z: 0 })));
    assert_eq!(mode.value, 3 * UNIT);
}

#[test]
fn digits_enter_and_the_pointer_drags_each_in_its_own_mode() {
    let mut mode = EditorMode::default();
    mode.press(KeyCode::T);
    mode.press(KeyCode::X);
    let entering = mode;
    assert_eq!(mode.drag(fixed(10.0), fixed(1.0)), None);
    assert_eq!(mode, entering);
    mode.press(KeyCode::T);
    let dragging = mode;
    assert!(dragging.mouse);
    assert_eq!(mode.digit(4), None);
    assert_eq!(mode, dragging);
    assert_eq!(
        mode.drag(fixed(10.0), fixed(1.0)),
        Some(EditorEvent::Translate(Vec3 { x: 10 * UNIT, y: 0, z: 0 }))
    );
}

#[test]
fn repeating_the_kind_toggles_the_pointer_and_another_kind_does_not() {
    let mut mode = EditorMode::default();
    mode.press(KeyCode::T);
    assert!(!mode.mouse);
    mode.press(KeyCode::T);
    assert!(mode.mouse);
    mode.press(KeyCode::R);
    assert!(mode.mouse);
    assert_eq!(mode.transform, Some(TransformMode::Rotate));
    mode.press(KeyCode::R);
    assert!(!mode.mouse);
}

#[test]
fn commit_resets_the_mode() {
    let mut mode = EditorMode::default();
    mode.press(KeyCode::S);
    mode.press(KeyCode::S);
    mode.press(KeyCode::Z);
    mode.press(KeyCode::Period);
    mode.drag(fixed(10.0), fixed(0.5));
    assert_ne!(mode, EditorMode::default());
    mode.press(KeyCode::Return);
    assert_eq!(mode, EditorMode::default());
    assert_eq!(
        mode,
        EditorMode { mouse: false, transform: None, axis: None, decimal: None, value: 0 }
    );
}

#[test]
fn a_key_without_meaning_leaves_the_mode() {
    let mut mode = EditorMode::default();
    mode.press(KeyCode::T);
    let before = mode;
    mode.press(KeyCode::A);
    mode.press(KeyCode::Other);
    assert_eq!(mode, before);
    assert_eq!(mode.digit(10), None);
    assert_eq!(mode, before);
}

#[test]
fn a_number_that_does_not_fit_is_not_accepted() {
    let mut mode = EditorMode::default();
    mode.press(KeyCode::T);
    mode.value = i64::MAX / 10 + 1;
    let before = mode;
    assert_eq!(mode.digit(1), None);
    assert_eq!(mode, before);
    mode.press(KeyCode::T);
    mode.value = i64::MAX;
    let before = mode;
    assert_eq!(mode.drag(fixed(1.0), fixed(1.0)), None);
    assert_eq!(mode, before);
}

#[test]
fn products_round_towards_zero() {
    assert_eq!(scale(fixed(100.0), fixed(0.001)), Some(100_000));
    assert_eq!(scale(-3, 500_000), Some(-1));
    assert_eq!(scale(3, -500_000), Some(-1));
    assert_eq!(scale(-3, -500_000), Some(1));
    assert_eq!(scale(1, 999_999), Some(0));
    assert_eq!(scale(i64::MAX, i64::MAX), None);
    assert_eq!(scale(i64::MIN, UNIT), Some(i64::MIN));
    assert_eq!(scale(i64::MIN, -UNIT), None);
}

#[test]
fn scroll_changes_the_multiplier_and_keeps_it_above_the_floor() {
    let mut state = InputSystem::default();
    assert_eq!(state.multiplier, MIN_MULTIPLIER);
    assert_eq!(float(state.multiplier), 0.001);
    state.scroll(MouseWheel { unit: MouseScrollUnit::Line, y: fixed(2.0) });
    assert_eq!(state.multiplier, 7_000);
    state.scroll(MouseWheel { unit: MouseScrollUnit::Pixel, y: fixed(4.0) });
    assert_eq!(state.multiplier, 8_000);
    state.scroll(MouseWheel { unit: MouseScrollUnit::Line, y: fixed(-100.0) });
    assert_eq!(state.multiplier, MIN_MULTIPLIER);
    state.multiplier = i64::MAX;
    state.scroll(MouseWheel { unit: MouseScrollUnit::Line, y: i64::MAX });
    assert_eq!(state.multiplier, i64::MAX);
}

#[test]
fn one_cycle_takes_keys_in_a_fixed_order_then_digits() {
    let mut state = InputSystem::default();
    let mut mode = EditorMode::default();
    let input = keys(vec![KeyCode::Key5, KeyCode::Key0, KeyCode::X, KeyCode::T, KeyCode::Key1]);
    let events = input_system(&mut state, &mut mode, &input, &vec![], &vec![]);
    assert_eq!(
        events,
        vec![
            EditorEvent::Translate(Vec3 { x: UNIT, y: 0, z: 0 }),
            EditorEvent::Translate(Vec3 { x: 14 * UNIT, y: 0, z: 0 }),
            EditorEvent::Translate(Vec3 { x: 135 * UNIT, y: 0, z: 0 }),
        ]
    );
    assert_eq!(mode.value, 150 * UNIT);
    assert_eq!(state.multiplier, MIN_MULTIPLIER);
}

#[test]
fn one_cycle_resets_before_it_locks_an_axis() {
    let mut state = InputSystem::default();
    let mut mode = EditorMode::default();
    mode.press(KeyCode::T);
    let input = keys(vec![KeyCode::Y, KeyCode::Return, KeyCode::Period]);
    let events = input_system(&mut state, &mut mode, &input, &vec![], &vec![]);
    assert!(events.is_empty());
    assert_eq!(
        mode,
        EditorMode {
            mouse: false,
            transform: None,
            axis: Some(Axis::Y),
            decimal: Some(0),
            value: 0
        }
    );
}

#[test]
fn one_cycle_of_dragging_scrolls_first_and_ignores_digits() {
    let mut state = InputSystem::default();
    let mut mode = EditorMode::default();
    mode.press(KeyCode::T);
    mode.press(KeyCode::X);
    let input = keys(vec![KeyCode::T, KeyCode::Key9]);
    let wheel = vec![MouseWheel { unit: MouseScrollUnit::Line, y: fixed(3.0) }];
    let motion = vec![
        MouseMotion { delta_x: fixed(10.0) },
        MouseMotion { delta_x: fixed(-4.0) },
    ];
    let events = input_system(&mut state, &mut mode, &input, &wheel, &motion);
    assert_eq!(state.multiplier, 10_000);
    assert_eq!(
        events,
        vec![
            EditorEvent::Translate(Vec3 { x: 100_000, y: 0, z: 0 }),
            EditorEvent::Translate(Vec3 { x: -40_000, y: 0, z: 0 }),
        ]
    );
    assert_eq!(mode.value, 60_000);
}

#[test]
fn digit_entry_does_not_look_at_the_pointer() {
    let mut state = InputSystem::default();
    let mut mode = EditorMode::default();
    mode.press(KeyCode::T);
    let wheel = vec![MouseWheel { unit: MouseScrollUnit::Line, y: fixed(3.0) }];
    let motion = vec![MouseMotion { delta_x: fixed(10.0) }];
    let events = input_system(&mut state, &mut mode, &keys(vec![]), &wheel, &motion);
    assert!(events.is_empty());
    assert_eq!(state.multiplier, MIN_MULTIPLIER);
    assert_eq!(mode.value, 0);
}

#[test]
fn input_tells_held_keys_from_struck_keys() {
    let input = Input { pressed: vec![KeyCode::LShift, KeyCode::A], just_pressed: vec![KeyCode::A] };
    assert!(input.pressed(KeyCode::LShift));
    assert!(!input.just_pressed(KeyCode::LShift));
    assert!(input.just_pressed(KeyCode::A));
    assert!(!input.pressed(KeyCode::B));
}
