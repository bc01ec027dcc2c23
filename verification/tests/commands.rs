use prefab_editor::commands::{Command, Editor, EditorCommands, WorldAction};
use prefab_editor::entity::EditorBundle;
use prefab_editor::error::EditorError;
use prefab_editor::library::DefaultBundles;
use prefab_editor::property::{DynamicProperties, Field, Value};
use prefab_editor::registry::ComponentRegistry;
use prefab_editor::scene::{Scene, SceneEntity};

fn bag(tag: &str, fields: Vec<(&str, Value)>) -> DynamicProperties {
    DynamicProperties {
        type_tag: tag.to_string(),
        fields: fields
            .into_iter()
            .map(|(name, value)| Field { name: name.to_string(), value })
            .collect(),
    }
}

fn vec3(x: f32, y: f32, z: f32) -> Value {
    Value::Vector3(x.to_bits(), y.to_bits(), z.to_bits())
}

fn transform(x: f32, y: f32, z: f32) -> DynamicProperties {
    bag("Transform", vec![("translation", vec3(x, y, z))])
}

fn registry() -> ComponentRegistry {
    let mut registry = ComponentRegistry::new();
    registry.register("Transform".to_string(), transform(0.0, 0.0, 0.0)).unwrap();
    registry.register("Light".to_string(), bag("Light", vec![("fov", Value::Float(1.0f32.to_bits()))])).unwrap();
    registry
}

fn bundle(bags: Vec<DynamicProperties>) -> EditorBundle {
    EditorBundle::from_components(bags)
}

fn editor_with(n: u32, registry: &ComponentRegistry) -> Editor {
    let mut editor = Editor::new();
    let mut commands = EditorCommands::new();
    for _ in 0..n {
        commands.spawn(bundle(vec![]));
    }
    let handles: Vec<u64> = (0..n as u64).map(|i| 100 + i).collect();
    let drained = commands.apply(&mut editor, registry, handles);
    assert_eq!(drained.result, Ok(()));
    editor
}

fn same_scene(a: &Scene, b: &Scene) -> bool {
    a.entities.len() == b.entities.len()
        && a.entities.iter().zip(b.entities.iter()).all(|(x, y)| {
            x.entity == y.entity
                && x.components.len() == y.components.len()
                && x.components.iter().zip(y.components.iter()).all(|(p, q)| p.same(q))
        })
}

#[test]
fn second_insert_of_a_type_patches_the_first() {
    let registry = registry();
    let mut editor = editor_with(6, &registry);
    let mut commands = EditorCommands::new();
    commands.insert_one(5, transform(0.0, 0.0, 0.0));
    commands.insert_one(5, transform(1.0, 2.0, 3.0));
    let drained = commands.apply(&mut editor, &registry, vec![]);
    assert_eq!(drained.result, Ok(()));
    assert!(drained.actions.is_empty());
    let entity = &editor.scene().entities[5];
    assert_eq!(entity.entity, 5);
    assert_eq!(entity.components.len(), 1);
    assert!(entity.components[0].same(&transform(1.0, 2.0, 3.0)));
}

#[test]
fn queued_patches_equal_direct_patches() {
    let registry = registry();
    let x = bag("Light", vec![("fov", Value::Float(2.0f32.to_bits()))]);
    let y = bag("Light", vec![("fov", Value::Float(3.0f32.to_bits())), ("extra", Value::Bool(true))]);

    let mut queued = editor_with(4, &registry);
    let mut commands = EditorCommands::new();
    commands.insert_one(3, x.clone_prop());
    commands.insert_one(3, y.clone_prop());
    assert_eq!(commands.len(), 2);
    assert_eq!(commands.apply(&mut queued, &registry, vec![]).result, Ok(()));
    assert_eq!(commands.len(), 0);

    let mut direct = EditorBundle::new();
    direct.add(x, &registry).unwrap();
    direct.add(y, &registry).unwrap();
    let expected = direct.into_inner();
    let got = &queued.scene().entities[3].components;
    assert_eq!(got.len(), expected.len());
    assert!(got[0].same(&expected[0]));
    assert!(got[0].same(&bag("Light", vec![("fov", Value::Float(3.0f32.to_bits()))])));
}

#[test]
fn draining_a_queue_equals_applying_one_by_one() {
    let registry = registry();
    let make = || {
        vec![
            Command::Spawn(bundle(vec![transform(0.0, 0.0, 0.0)])),
            Command::With(bag("Light", vec![("fov", Value::Float(2.0f32.to_bits()))])),
            Command::Spawn(bundle(vec![])),
            Command::WithBundle(bundle(vec![transform(1.0, 1.0, 1.0), transform(2.0, 2.0, 2.0)])),
            Command::InsertOne(0, transform(5.0, 5.0, 5.0)),
            Command::SyncToWorld(0),
            Command::SyncOneToWorld(1, "Transform".to_string()),
        ]
    };

    let mut queued = Editor::new();
    let mut commands = EditorCommands::new();
    for command in make() {
        match command {
            Command::Spawn(b) => {
                commands.spawn(b);
            }
            Command::With(b) => commands.with(b),
            Command::WithBundle(b) => commands.with_bundle(b),
            Command::InsertOne(id, b) => commands.insert_one(id, b),
            Command::SyncToWorld(id) => commands.sync_to_world(id),
            Command::SyncOneToWorld(id, name) => commands.sync_one_to_world(id, name),
        }
    }
    assert_eq!(commands.pending_spawns(), 2);
    let drained = commands.apply(&mut queued, &registry, vec![70, 71]);
    assert_eq!(drained.result, Ok(()));

    let mut direct = Editor::new();
    let mut handles = vec![70u64, 71].into_iter().peekable();
    let mut actions: Vec<WorldAction> = Vec::new();
    for command in make() {
        let outcome = direct.apply_command(command, &registry, handles.peek().copied());
        assert_eq!(outcome.result, Ok(()));
        if outcome.used {
            handles.next();
        }
        actions.extend(outcome.actions);
    }

    assert!(same_scene(queued.scene(), direct.scene()));
    assert_eq!(queued.next_entity(), direct.next_entity());
    assert_eq!(queued.current_entity(), direct.current_entity());
    assert_eq!(queued.handle(0), direct.handle(0));
    assert_eq!(queued.handle(1), direct.handle(1));
    assert_eq!(format!("{:?}", drained.actions), format!("{:?}", actions));

    assert_eq!(queued.scene().entities.len(), 2);
    assert!(queued.scene().entities[0].components[0].same(&transform(5.0, 5.0, 5.0)));
    assert!(queued.scene().entities[1].components[0].same(&transform(2.0, 2.0, 2.0)));
    assert_eq!(drained.actions.len(), 6);
    assert!(matches!(drained.actions[0], WorldAction::Spawn { widget: 0, handle: 70 }));
    assert!(matches!(drained.actions[1], WorldAction::Insert { handle: 70, .. }));
    assert!(matches!(drained.actions[2], WorldAction::Spawn { widget: 1, handle: 71 }));
    match &drained.actions[3] {
        WorldAction::Insert { handle, component } => {
            assert_eq!(*handle, 70);
            assert!(component.same(&transform(5.0, 5.0, 5.0)));
        }
        other => panic!("unexpected action {:?}", other),
    }
    assert!(matches!(drained.actions[4], WorldAction::Insert { handle: 70, .. }));
    match &drained.actions[5] {
        WorldAction::Insert { handle, component } => {
            assert_eq!(*handle, 71);
            assert!(component.same(&transform(2.0, 2.0, 2.0)));
        }
        other => panic!("unexpected action {:?}", other),
    }
}

#[test]
fn ids_are_given_out_in_increasing_order() {
    let registry = registry();
    let mut editor = Editor::new();
    let mut commands = EditorCommands::new();
    let first = commands.spawn(bundle(vec![]));
    let second = commands.spawn(bundle(vec![]));
    assert_eq!((first, second), (0, 1));
    assert_eq!(commands.apply(&mut editor, &registry, vec![9, 8]).result, Ok(()));
    let third = commands.spawn(bundle(vec![]));
    assert_eq!(third, 2);
    assert_eq!(commands.apply(&mut editor, &registry, vec![7]).result, Ok(()));
    let ids: Vec<u32> = editor.scene().entities.iter().map(|e| e.entity).collect();
    assert_eq!(ids, vec![0, 1, 2]);
    assert_eq!(editor.next_entity(), 3);
    assert_eq!(editor.current_entity(), Some(2));
    assert_eq!(editor.handle(0), Some(9));
    assert_eq!(editor.handle(1), Some(8));
    assert_eq!(editor.handle(2), Some(7));
    assert_eq!(editor.handle(3), None);
}

#[test]
fn a_failed_spawn_gives_out_no_id() {
    let registry = registry();
    let mut editor = Editor::new();
    let failed = editor.apply_command(
        Command::Spawn(bundle(vec![bag("Missing", vec![])])),
        &registry,
        Some(1),
    );
    assert_eq!(failed.result, Err(EditorError::UnregisteredType));
    assert!(!failed.used);
    assert!(failed.actions.is_empty());
    assert_eq!(editor.next_entity(), 0);
    let ok = editor.apply_command(Command::Spawn(bundle(vec![])), &registry, Some(1));
    assert_eq!(ok.result, Ok(()));
    assert!(ok.used);
    assert_eq!(editor.scene().entities[0].entity, 0);
}

#[test]
fn a_spawn_without_a_handle_is_refused() {
    let registry = registry();
    let mut editor = Editor::new();
    let outcome = editor.apply_command(Command::Spawn(bundle(vec![])), &registry, None);
    assert_eq!(outcome.result, Err(EditorError::IndexOutOfRange));
    assert!(editor.scene().entities.is_empty());
}

#[test]
fn a_missing_entity_is_out_of_range() {
    let registry = registry();
    let mut editor = editor_with(2, &registry);
    for command in vec![
        Command::InsertOne(2, transform(0.0, 0.0, 0.0)),
        Command::SyncToWorld(9),
        Command::SyncOneToWorld(9, "Transform".to_string()),
    ] {
        let outcome = editor.apply_command(command, &registry, None);
        assert_eq!(outcome.result, Err(EditorError::IndexOutOfRange));
    }
    let mut fresh = Editor::new();
    let outcome = fresh.apply_command(Command::With(transform(0.0, 0.0, 0.0)), &registry, None);
    assert_eq!(outcome.result, Err(EditorError::IndexOutOfRange));
    let outcome = fresh.apply_command(Command::WithBundle(bundle(vec![])), &registry, None);
    assert_eq!(outcome.result, Err(EditorError::IndexOutOfRange));
}

#[test]
fn the_first_failure_stops_the_run_and_empties_the_queue() {
    let registry = registry();
    let mut editor = editor_with(1, &registry);
    let mut commands = EditorCommands::new();
    commands.insert_one(0, transform(1.0, 0.0, 0.0));
    commands.sync_to_world(0);
    commands.insert_one(0, bag("Missing", vec![]));
    commands.insert_one(0, transform(2.0, 0.0, 0.0));
    let drained = commands.apply(&mut editor, &registry, vec![]);
    assert_eq!(drained.result, Err(EditorError::UnregisteredType));
    assert_eq!(drained.actions.len(), 1);
    assert_eq!(commands.len(), 0);
    assert!(editor.scene().entities[0].components[0].same(&transform(1.0, 0.0, 0.0)));
}

#[test]
fn a_bundle_is_added_whole_or_not_at_all() {
    let registry = registry();
    let mut editor = editor_with(1, &registry);
    let outcome = editor.apply_command(
        Command::WithBundle(bundle(vec![transform(1.0, 0.0, 0.0), bag("Missing", vec![])])),
        &registry,
        None,
    );
    assert_eq!(outcome.result, Err(EditorError::UnregisteredType));
    assert!(editor.scene().entities[0].components.is_empty());
}

#[test]
fn sync_one_emits_only_the_named_type() {
    let registry = registry();
    let mut editor = Editor::new();
    let spawned = editor.apply_command(
        Command::Spawn(bundle(vec![
            transform(1.0, 2.0, 3.0),
            bag("Light", vec![("fov", Value::Float(2.0f32.to_bits()))]),
        ])),
        &registry,
        Some(42),
    );
    assert_eq!(spawned.actions.len(), 3);
    let outcome =
        editor.apply_command(Command::SyncOneToWorld(0, "Light".to_string()), &registry, None);
    assert_eq!(outcome.result, Ok(()));
    assert_eq!(outcome.actions.len(), 1);
    match &outcome.actions[0] {
        WorldAction::Insert { handle, component } => {
            assert_eq!(*handle, 42);
            assert_eq!(component.type_tag, "Light");
        }
        other => panic!("unexpected action {:?}", other),
    }
    let all = editor.apply_command(Command::SyncToWorld(0), &registry, None);
    assert_eq!(all.actions.len(), 2);
}

#[test]
fn reloading_a_saved_scene_keeps_the_bags() {
    let mut registry = registry();
    for name in [
        "GlobalTransform",
        "Asset<Mesh>",
        "Into<Color, StandardMaterial>",
        "Draw",
        "MainPass",
        "RenderPipelines",
    ] {
        registry.register(name.to_string(), bag(name, vec![("of", Value::Text(name.to_string()))])).unwrap();
    }
    let template = DefaultBundles::new(&registry).unwrap().get("PbrComponents").unwrap();
    assert_eq!(template.len(), 7);

    let mut editor = Editor::new();
    let mut commands = EditorCommands::new();
    commands.spawn(bundle(vec![]));
    commands.spawn(template.clone());
    assert_eq!(commands.apply(&mut editor, &registry, vec![11, 12]).result, Ok(()));

    // Save and, in a new session, reload.
    let saved = editor.scene().to_dynamic();
    let loaded = Scene::from_dynamic(&saved).unwrap();
    let mut reloaded = Editor::new();
    let actions = reloaded.read(loaded, &registry, vec![21, 22]).unwrap();

    assert!(same_scene(reloaded.scene(), editor.scene()));
    assert_eq!(reloaded.scene().entities.len(), 2);
    let entity = &reloaded.scene().entities[1];
    assert!(bundle(entity.components.iter().map(|c| c.clone_prop()).collect()).same(&template));
    assert_eq!(reloaded.handle(1), Some(22));
    assert_eq!(reloaded.next_entity(), 2);
    assert_eq!(actions.len(), 2 + 7);
}

#[test]
fn reading_keeps_the_ids_of_the_document() {
    let registry = registry();
    let scene = Scene {
        entities: vec![
            SceneEntity { entity: 40, components: vec![transform(1.0, 0.0, 0.0)] },
            SceneEntity { entity: 7, components: vec![] },
        ],
    };
    let mut editor = Editor::new();
    let actions = editor.read(scene, &registry, vec![5, 6]).unwrap();
    let ids: Vec<u32> = editor.scene().entities.iter().map(|e| e.entity).collect();
    assert_eq!(ids, vec![40, 7]);
    assert!(editor.scene().entities[0].components[0].same(&transform(1.0, 0.0, 0.0)));
    assert_eq!(editor.scene().index_of(7), Some(1));
    assert_eq!(editor.scene().index_of(0), None);
    assert_eq!(editor.handle(40), Some(5));
    assert_eq!(editor.handle(7), Some(6));
    assert_eq!(editor.handle(0), None);
    assert_eq!(editor.next_entity(), 41);
    assert_eq!(editor.current_entity(), None);
    assert_eq!(actions.len(), 3);
    assert!(matches!(actions[0], WorldAction::Spawn { widget: 40, handle: 5 }));
    assert!(matches!(actions[1], WorldAction::Insert { handle: 5, .. }));
    assert!(matches!(actions[2], WorldAction::Spawn { widget: 7, handle: 6 }));

    // The next spawn gets an id above every id of the document.
    let spawned = editor.apply_command(Command::Spawn(bundle(vec![])), &registry, Some(9));
    assert_eq!(spawned.result, Ok(()));
    assert_eq!(editor.scene().entities[2].entity, 41);
    assert_eq!(editor.handle(41), Some(9));
}

#[test]
fn a_written_document_reads_back_as_it_was() {
    let registry = registry();
    let mut editor = Editor::new();
    editor.read(
        Scene {
            entities: vec![
                SceneEntity { entity: 3, components: vec![transform(1.0, 2.0, 3.0)] },
                SceneEntity { entity: 7, components: vec![] },
            ],
        },
        &registry,
        vec![1, 2],
    )
    .unwrap();
    let mut commands = EditorCommands::new();
    commands.insert_one(7, bag("Light", vec![("fov", Value::Float(2.0f32.to_bits()))]));
    commands.insert_one(3, transform(4.0, 5.0, 6.0));
    assert_eq!(commands.apply(&mut editor, &registry, vec![]).result, Ok(()));
    assert_eq!(
        editor.apply_command(Command::Spawn(bundle(vec![transform(0.0, 0.0, 0.0)])), &registry, Some(3)).result,
        Ok(())
    );

    let written = editor.write();
    let mut again = Editor::new();
    again.read(Scene::from_dynamic(&written).unwrap(), &registry, vec![10, 11, 12]).unwrap();
    assert!(same_scene(again.scene(), editor.scene()));
    assert_eq!(again.next_entity(), editor.next_entity());
    let ids: Vec<u32> = again.scene().entities.iter().map(|e| e.entity).collect();
    assert_eq!(ids, vec![3, 7, 8]);
}

#[test]
fn two_entities_with_one_id_are_a_serialization_failure() {
    let registry = registry();
    let mut editor = editor_with(1, &registry);
    let scene = Scene {
        entities: vec![
            SceneEntity { entity: 4, components: vec![] },
            SceneEntity { entity: 5, components: vec![] },
            SceneEntity { entity: 4, components: vec![] },
        ],
    };
    assert_eq!(
        editor.read(scene, &registry, vec![1, 2, 3]).err(),
        Some(EditorError::SerializationFailure)
    );
    assert_eq!(editor.scene().entities.len(), 1);
    assert_eq!(editor.handle(0), Some(100));
    let last = Scene { entities: vec![SceneEntity { entity: u32::MAX, components: vec![] }] };
    assert_eq!(
        editor.read(last, &registry, vec![1]).err(),
        Some(EditorError::SerializationFailure)
    );
}

#[test]
fn a_handle_is_bound_to_one_entity_only() {
    let registry = registry();
    let mut editor = editor_with(1, &registry);
    let outcome = editor.apply_command(Command::Spawn(bundle(vec![])), &registry, Some(100));
    assert_eq!(outcome.result, Err(EditorError::IndexOutOfRange));
    assert!(!outcome.used);
    assert_eq!(editor.scene().entities.len(), 1);
    assert_eq!(editor.handle(0), Some(100));
    let scene = Scene {
        entities: vec![
            SceneEntity { entity: 1, components: vec![] },
            SceneEntity { entity: 2, components: vec![] },
        ],
    };
    assert_eq!(editor.read(scene, &registry, vec![8, 8]).err(), Some(EditorError::IndexOutOfRange));
    assert_eq!(editor.scene().entities.len(), 1);
}

#[test]
fn a_document_round_trips_through_its_value_for_every_kind() {
    let inner = bag("Inner", vec![("deep", Value::Sequence(vec![Value::Bool(false)]))]);
    let all_kinds = bag(
        "AllKinds",
        vec![
            ("bool", Value::Bool(true)),
            ("integer", Value::Integer(-12)),
            ("float", Value::Float(0.1f32.to_bits())),
            ("nan", Value::Float(f32::NAN.to_bits())),
            ("text", Value::Text("a \"quoted\" name".to_string())),
            ("v2", Value::Vector2(1.0f32.to_bits(), 2.0f32.to_bits())),
            ("v3", vec3(1.0, 2.0, 3.0)),
            ("v4", Value::Vector4(1, 2, 3, 4)),
            ("quat", Value::Quaternion(0, 0, 0, 1.0f32.to_bits())),
            ("bag", Value::Bag(inner)),
            ("seq", Value::Sequence(vec![Value::Integer(1), Value::Text("x".to_string())])),
        ],
    );
    let scene = Scene {
        entities: vec![
            SceneEntity { entity: 0, components: vec![all_kinds, transform(1.0, 2.0, 3.0)] },
            SceneEntity { entity: u32::MAX, components: vec![] },
        ],
    };
    let back = Scene::from_dynamic(&scene.to_dynamic()).unwrap();
    assert!(same_scene(&back, &scene));
    assert_eq!(back.entities[1].entity, u32::MAX);
}

#[test]
fn a_malformed_document_is_a_serialization_failure() {
    let entity = |fields: Vec<(&str, Value)>| Value::Bag(bag("Entity", fields));
    let good = entity(vec![("entity", Value::Integer(3)), ("components", Value::Sequence(vec![]))]);
    assert!(Scene::from_dynamic(&Value::Sequence(vec![good])).is_ok());
    for bad in vec![
        Value::Integer(1),
        Value::Sequence(vec![Value::Bool(true)]),
        Value::Sequence(vec![entity(vec![("entity", Value::Integer(3))])]),
        Value::Sequence(vec![entity(vec![
            ("components", Value::Sequence(vec![])),
            ("entity", Value::Integer(3)),
        ])]),
        Value::Sequence(vec![entity(vec![
            ("entity", Value::Integer(-1)),
            ("components", Value::Sequence(vec![])),
        ])]),
        Value::Sequence(vec![entity(vec![
            ("entity", Value::Integer(1 << 32)),
            ("components", Value::Sequence(vec![])),
        ])]),
        Value::Sequence(vec![entity(vec![
            ("entity", Value::Text("3".to_string())),
            ("components", Value::Sequence(vec![])),
        ])]),
        Value::Sequence(vec![entity(vec![
            ("entity", Value::Integer(3)),
            ("components", Value::Sequence(vec![Value::Integer(0)])),
        ])]),
    ] {
        assert_eq!(Scene::from_dynamic(&bad).err(), Some(EditorError::SerializationFailure));
    }
}

#[test]
fn a_failed_read_leaves_the_editor() {
    let registry = registry();
    let mut editor = editor_with(2, &registry);
    let scene = Scene {
        entities: vec![SceneEntity { entity: 0, components: vec![bag("Missing", vec![])] }],
    };
    assert_eq!(
        editor.read(scene, &registry, vec![1]).err(),
        Some(EditorError::UnregisteredType)
    );
    assert_eq!(editor.scene().entities.len(), 2);
    assert_eq!(editor.next_entity(), 2);
    let scene = Scene { entities: vec![SceneEntity { entity: 0, components: vec![] }] };
    assert_eq!(editor.read(scene, &registry, vec![]).err(), Some(EditorError::IndexOutOfRange));
}

#[test]
fn commands_queued_after_a_drain_wait_for_the_next() {
    let registry = registry();
    let mut editor = editor_with(1, &registry);
    let mut commands = EditorCommands::new();
    commands.insert_one(0, transform(1.0, 0.0, 0.0));
    commands.apply(&mut editor, &registry, vec![]);
    commands.insert_one(0, transform(2.0, 0.0, 0.0));
    assert!(editor.scene().entities[0].components[0].same(&transform(1.0, 0.0, 0.0)));
    commands.apply(&mut editor, &registry, vec![]);
    assert!(editor.scene().entities[0].components[0].same(&transform(2.0, 0.0, 0.0)));
}
