use prefab_editor::assets::{load_asset_system, Asset, Resolved};
use prefab_editor::commands::{Command, Editor, EditorCommands};
use prefab_editor::display::{DisplayWrapper, KeyCode, ToDisplay};
use prefab_editor::editor::{Widget, WidgetComponents};
use prefab_editor::entity::EditorBundle;
use prefab_editor::error::EditorError;
use prefab_editor::library::DefaultProperties;
use prefab_editor::mode::Input;
use prefab_editor::property::{DynamicProperties, Field, Value};
use prefab_editor::registry::ComponentRegistry;
use prefab_editor::ui::{
    button_enter_system, button_system, camera_system, edit_text, save_system,
    text_button_system, update_system, ButtonFunction, ButtonMaterial, ButtonToggled, Interaction,
};

fn bag(tag: &str, fields: Vec<(&str, Value)>) -> DynamicProperties {
    DynamicProperties {
        type_tag: tag.to_string(),
        fields: fields
            .into_iter()
            .map(|(name, value)| Field { name: name.to_string(), value })
            .collect(),
    }
}

fn registry() -> ComponentRegistry {
    let mut registry = ComponentRegistry::new();
    for name in [
        "Light",
        "Transform",
        "GlobalTransform",
        "Asset<Mesh>",
        "Into<Color, StandardMaterial>",
        "Draw",
        "MainPass",
        "RenderPipelines",
    ] {
        registry.register(name.to_string(), bag(name, vec![("v", Value::Integer(1))])).unwrap();
    }
    registry
}

#[test]
fn keys_type_their_character() {
    assert_eq!(KeyCode::Key1.display().as_str(), "1");
    assert_eq!(KeyCode::Key0.display().as_str(), "0");
    assert_eq!(KeyCode::A.display().as_str(), "a");
    assert_eq!(KeyCode::Z.display().as_str(), "z");
    assert_eq!(KeyCode::Return.display().as_str(), "");
    assert_eq!(KeyCode::Other.display().as_str(), "");
    assert_eq!(DisplayWrapper(KeyCode::Q).as_upper_str(), "Q");
    assert_eq!(DisplayWrapper(KeyCode::Key7).as_upper_str(), "7");
    assert_eq!(DisplayWrapper(KeyCode::LShift).as_upper_str(), "");
}

#[test]
fn a_click_turns_the_toggle_over() {
    let mut toggled = Some(ButtonToggled::default());
    assert_eq!(button_system(Interaction::Clicked, &mut toggled), ButtonMaterial::Toggled);
    assert_eq!(toggled, Some(ButtonToggled(true)));
    assert_eq!(button_system(Interaction::Hovered, &mut toggled), ButtonMaterial::Hovered);
    assert_eq!(button_system(Interaction::Idle, &mut toggled), ButtonMaterial::Plain);
    assert_eq!(toggled, Some(ButtonToggled(true)));
    assert_eq!(button_system(Interaction::Clicked, &mut toggled), ButtonMaterial::Clicked);
    assert_eq!(toggled, Some(ButtonToggled(false)));
    let mut plain = None;
    assert_eq!(button_system(Interaction::Clicked, &mut plain), ButtonMaterial::Clicked);
    assert_eq!(plain, None);
}

#[test]
fn return_disarms_the_toggle() {
    let enter = Input { pressed: vec![KeyCode::Return], just_pressed: vec![KeyCode::Return] };
    let other = Input { pressed: vec![KeyCode::Return], just_pressed: vec![KeyCode::A] };
    let mut toggled = ButtonToggled(true);
    button_enter_system(&other, &mut toggled);
    assert_eq!(toggled, ButtonToggled(true));
    button_enter_system(&enter, &mut toggled);
    assert_eq!(toggled, ButtonToggled(false));
    button_enter_system(&enter, &mut toggled);
    assert_eq!(toggled, ButtonToggled(false));
}

#[test]
fn q_switches_the_camera() {
    assert!(camera_system(&Input { pressed: vec![], just_pressed: vec![KeyCode::Q] }));
    assert!(!camera_system(&Input { pressed: vec![KeyCode::Q], just_pressed: vec![] }));
}

#[test]
fn saves_are_counted() {
    let chord = Input { pressed: vec![KeyCode::LControl, KeyCode::S], just_pressed: vec![KeyCode::S] };
    let held = Input { pressed: vec![KeyCode::LControl, KeyCode::S], just_pressed: vec![] };
    let buttons = vec![
        (ButtonFunction::Save, Interaction::Clicked),
        (ButtonFunction::AddComponent, Interaction::Clicked),
        (ButtonFunction::Save, Interaction::Hovered),
    ];
    assert_eq!(save_system(&chord, &vec![]), 1);
    assert_eq!(save_system(&held, &vec![]), 0);
    assert_eq!(save_system(&held, &buttons), 1);
    assert_eq!(save_system(&chord, &buttons), 2);
}

#[test]
fn typed_keys_are_appended_and_backspace_takes_one_off() {
    let mut text = String::new();
    edit_text(&mut text, &Input { pressed: vec![], just_pressed: vec![KeyCode::L, KeyCode::I] });
    assert_eq!(text, "li");
    edit_text(
        &mut text,
        &Input { pressed: vec![KeyCode::LShift], just_pressed: vec![KeyCode::G, KeyCode::Key4] },
    );
    assert_eq!(text, "liG4");
    edit_text(&mut text, &Input { pressed: vec![], just_pressed: vec![KeyCode::Back] });
    assert_eq!(text, "liG");
    edit_text(
        &mut text,
        &Input { pressed: vec![], just_pressed: vec![KeyCode::Back, KeyCode::H] },
    );
    assert_eq!(text, "liG");
    let mut empty = String::new();
    edit_text(&mut empty, &Input { pressed: vec![], just_pressed: vec![KeyCode::Back] });
    assert_eq!(empty, "");
}

#[test]
fn arming_clears_the_text() {
    let properties = DefaultProperties::new(&registry()).unwrap();
    let mut commands = EditorCommands::new();
    let mut text = "Add component".to_string();
    let result =
        text_button_system(ButtonToggled(true), &mut text, &vec![3], &properties, &mut commands);
    assert_eq!(result, Ok(()));
    assert_eq!(text, "");
    assert_eq!(commands.len(), 0);
}

#[test]
fn committing_a_name_queues_the_property_for_each_selected_widget() {
    let registry = registry();
    let properties = DefaultProperties::new(&registry).unwrap();
    let mut commands = EditorCommands::new();
    let mut text = "Light".to_string();
    let result = text_button_system(
        ButtonToggled(false),
        &mut text,
        &vec![0, 1],
        &properties,
        &mut commands,
    );
    assert_eq!(result, Ok(()));
    assert_eq!(text, "Add component");
    assert_eq!(commands.len(), 4);

    let mut editor = Editor::new();
    editor.apply_command(Command::Spawn(EditorBundle::new()), &registry, Some(50));
    editor.apply_command(Command::Spawn(EditorBundle::new()), &registry, Some(51));
    let drained = commands.apply(&mut editor, &registry, vec![]);
    assert_eq!(drained.result, Ok(()));
    assert_eq!(drained.actions.len(), 2);
    for entity in &editor.scene().entities {
        assert_eq!(entity.components.len(), 1);
        assert!(entity.components[0].same(&bag("Light", vec![("v", Value::Integer(1))])));
    }
}

#[test]
fn committing_an_unknown_name_fails_where_a_widget_is_selected() {
    let properties = DefaultProperties::new(&registry()).unwrap();
    let mut commands = EditorCommands::new();
    let mut text = "nothing".to_string();
    let result =
        text_button_system(ButtonToggled(false), &mut text, &vec![0], &properties, &mut commands);
    assert_eq!(result, Err(EditorError::UnregisteredType));
    assert_eq!(text, "Add component");
    assert_eq!(commands.len(), 0);
    let mut text = "nothing".to_string();
    let result =
        text_button_system(ButtonToggled(false), &mut text, &vec![], &properties, &mut commands);
    assert_eq!(result, Ok(()));
    assert_eq!(text, "Add component");
}

#[test]
fn each_edit_queues_the_transform_it_left() {
    let registry = registry();
    let mut editor = Editor::new();
    editor.apply_command(Command::Spawn(EditorBundle::new()), &registry, Some(50));
    let mut commands = EditorCommands::new();
    update_system(
        &mut commands,
        0,
        vec![
            bag("Transform", vec![("v", Value::Integer(2))]),
            bag("Transform", vec![("v", Value::Integer(3))]),
        ],
    );
    assert_eq!(commands.len(), 2);
    commands.apply(&mut editor, &registry, vec![]);
    assert!(editor.scene().entities[0].components[0]
        .same(&bag("Transform", vec![("v", Value::Integer(3))])));
}

#[test]
fn a_widget_carries_the_id_of_its_entity() {
    assert_eq!(WidgetComponents::new(7).widget, Widget(7));
    assert_eq!(Widget::default(), Widget(0));
}

#[test]
fn an_asset_marker_is_a_bag_with_its_path() {
    let marker = Asset::new("assets/bed.gltf".to_string());
    let dynamic = marker.to_dynamic("Asset<Mesh>".to_string());
    assert!(dynamic.same(&bag(
        "Asset<Mesh>",
        vec![("path", Value::Text("assets/bed.gltf".to_string()))]
    )));
    assert_eq!(Asset::default().path, "");
}

#[test]
fn resolved_assets_are_paired_with_their_entities() {
    assert_eq!(
        load_asset_system(&vec![4, 5], &vec![Some(40), Some(50)]),
        Ok(vec![Resolved { entity: 4, handle: 40 }, Resolved { entity: 5, handle: 50 }])
    );
    assert_eq!(load_asset_system(&vec![], &vec![]), Ok(vec![]));
}

#[test]
fn an_asset_that_is_not_found_is_a_resolution_failure() {
    assert_eq!(
        load_asset_system(&vec![4, 5], &vec![Some(40), None]),
        Err(EditorError::AssetResolutionFailure)
    );
    assert_eq!(
        load_asset_system(&vec![4, 5], &vec![Some(40)]),
        Err(EditorError::AssetResolutionFailure)
    );
}
