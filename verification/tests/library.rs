use prefab_editor::entity::EditorBundle;
use prefab_editor::error::EditorError;
use prefab_editor::library::{DefaultBundles, DefaultProperties};
use prefab_editor::property::{DynamicProperties, Field, Value};
use prefab_editor::registry::ComponentRegistry;

const BUILTIN: [&str; 8] = [
    "Light",
    "Transform",
    "GlobalTransform",
    "Asset<Mesh>",
    "Into<Color, StandardMaterial>",
    "Draw",
    "MainPass",
    "RenderPipelines",
];

fn bag(tag: &str, fields: Vec<(&str, Value)>) -> DynamicProperties {
    DynamicProperties {
        type_tag: tag.to_string(),
        fields: fields
            .into_iter()
            .map(|(name, value)| Field { name: name.to_string(), value })
            .collect(),
    }
}

fn default_of(name: &str) -> DynamicProperties {
    bag(name, vec![("marker", Value::Text(name.to_string()))])
}

fn registry() -> ComponentRegistry {
    let mut registry = ComponentRegistry::new();
    for name in BUILTIN {
        registry.register(name.to_string(), default_of(name)).unwrap();
    }
    registry
}

fn tags(bundle: EditorBundle) -> Vec<String> {
    bundle.into_inner().into_iter().map(|b| b.type_tag).collect()
}

#[test]
fn builtin_bundles_hold_the_defaults_in_order() {
    let bundles = DefaultBundles::new(&registry()).unwrap();
    assert_eq!(
        tags(bundles.get("LightComponents").unwrap()),
        vec!["Light", "Transform", "GlobalTransform"]
    );
    let pbr = bundles.get("PbrComponents").unwrap();
    assert_eq!(pbr.len(), 7);
    assert!(pbr.component(4).same(&default_of("RenderPipelines")));
    assert_eq!(
        tags(pbr),
        vec![
            "Asset<Mesh>",
            "Into<Color, StandardMaterial>",
            "Draw",
            "MainPass",
            "RenderPipelines",
            "Transform",
            "GlobalTransform"
        ]
    );
    assert!(bundles.get("Nothing").is_none());
}

#[test]
fn builtin_libraries_need_the_builtin_types() {
    let mut registry = ComponentRegistry::new();
    for name in &BUILTIN[..7] {
        registry.register(name.to_string(), default_of(name)).unwrap();
    }
    assert_eq!(DefaultBundles::new(&registry).err(), Some(EditorError::UnregisteredType));
    assert_eq!(DefaultProperties::new(&registry).err(), Some(EditorError::UnregisteredType));
}

#[test]
fn builtin_properties_hold_each_default_under_its_name() {
    let properties = DefaultProperties::new(&registry()).unwrap();
    for name in BUILTIN {
        assert!(properties.get(name).unwrap().same(&default_of(name)));
    }
    assert!(properties.get("light").is_none());
}

#[test]
fn a_template_is_copied_not_handed_out() {
    let mut bundles = DefaultBundles::new(&registry()).unwrap();
    let registry = registry();
    let mut copy = bundles.get("LightComponents").unwrap();
    copy.add(bag("Light", vec![("marker", Value::Text("changed".to_string()))]), &registry)
        .unwrap();
    assert!(bundles.get("LightComponents").unwrap().component(0).same(&default_of("Light")));
    bundles.insert("LightComponents".to_string(), copy);
    assert!(!bundles.get("LightComponents").unwrap().component(0).same(&default_of("Light")));
}

#[test]
fn bundles_round_trip_through_one_bag() {
    let bundles = DefaultBundles::new(&registry()).unwrap();
    let dynamic = bundles.to_dynamic();
    assert_eq!(dynamic.type_tag, "DefaultBundles");
    let mut names: Vec<&str> = dynamic.fields.iter().map(|f| f.name.as_str()).collect();
    names.sort();
    assert_eq!(names, vec!["LightComponents", "PbrComponents"]);
    let back = DefaultBundles::from_dynamic(&dynamic).unwrap();
    for name in ["LightComponents", "PbrComponents"] {
        assert!(back.get(name).unwrap().same(&bundles.get(name).unwrap()));
    }
    assert!(back.get("Light").is_none());
}

#[test]
fn properties_round_trip_through_one_bag() {
    let mut properties = DefaultProperties::new(&registry()).unwrap();
    properties.insert("Custom".to_string(), bag("Other", vec![("x", Value::Integer(4))]));
    let dynamic = properties.to_dynamic();
    assert_eq!(dynamic.type_tag, "DefaultProperties");
    assert_eq!(dynamic.fields.len(), 9);
    let back = DefaultProperties::from_dynamic(&dynamic).unwrap();
    for name in BUILTIN {
        assert!(back.get(name).unwrap().same(&default_of(name)));
    }
    // The name that the library holds a bag under is kept, not the bag's type name.
    assert!(back.get("Custom").unwrap().same(&bag("Other", vec![("x", Value::Integer(4))])));
    assert!(back.get("Other").is_none());
}

#[test]
fn a_later_field_replaces_an_earlier_one_of_its_name() {
    let dynamic = bag(
        "anything",
        vec![
            ("a", Value::Bag(bag("t", vec![("n", Value::Integer(1))]))),
            ("a", Value::Bag(bag("t", vec![("n", Value::Integer(2))]))),
        ],
    );
    let back = DefaultProperties::from_dynamic(&dynamic).unwrap();
    assert!(back.get("a").unwrap().same(&bag("t", vec![("n", Value::Integer(2))])));
}

#[test]
fn a_malformed_library_is_a_serialization_failure() {
    let not_bags = bag("x", vec![("a", Value::Integer(1))]);
    assert_eq!(
        DefaultProperties::from_dynamic(&not_bags).err(),
        Some(EditorError::SerializationFailure)
    );
    assert_eq!(
        DefaultBundles::from_dynamic(&not_bags).err(),
        Some(EditorError::SerializationFailure)
    );
    let bag_where_bundle = bag("x", vec![("a", Value::Bag(bag("t", vec![])))]);
    assert_eq!(
        DefaultBundles::from_dynamic(&bag_where_bundle).err(),
        Some(EditorError::SerializationFailure)
    );
}

#[test]
fn a_copied_library_holds_the_same_and_is_its_own() {
    let registry = registry();
    let bundles = DefaultBundles::new(&registry).unwrap();
    let mut copy = bundles.clone();
    for name in ["LightComponents", "PbrComponents"] {
        assert!(copy.get(name).unwrap().same(&bundles.get(name).unwrap()));
    }
    copy.insert("Extra".to_string(), EditorBundle::new());
    assert!(copy.get("Extra").is_some());
    assert!(bundles.get("Extra").is_none());

    let properties = DefaultProperties::new(&registry).unwrap();
    let mut copy = properties.clone();
    for name in BUILTIN {
        assert!(copy.get(name).unwrap().same(&default_of(name)));
    }
    copy.insert("Light".to_string(), bag("Light", vec![]));
    assert!(properties.get("Light").unwrap().same(&default_of("Light")));
    assert!(copy.get("Light").unwrap().same(&bag("Light", vec![])));
}

#[test]
fn a_session_starts_with_the_file_or_the_builtin_library() {
    let registry = registry();
    let builtin = DefaultBundles::load(None, &registry).unwrap();
    assert!(builtin.get("PbrComponents").is_some());

    let mut custom = DefaultBundles::new(&registry).unwrap();
    custom.insert("Mine".to_string(), EditorBundle::new());
    let file = Value::Bag(custom.to_dynamic());
    let loaded = DefaultBundles::load(Some(&file), &registry).unwrap();
    assert!(loaded.get("Mine").is_some());
    assert_eq!(
        DefaultBundles::load(Some(&Value::Integer(1)), &registry).err(),
        Some(EditorError::SerializationFailure)
    );
    assert_eq!(
        DefaultBundles::load(None, &ComponentRegistry::new()).err(),
        Some(EditorError::UnregisteredType)
    );

    let properties = DefaultProperties::load(None, &registry).unwrap();
    assert!(properties.get("Light").is_some());
    let file = Value::Bag(bag("file", vec![("Only", Value::Bag(bag("Other", vec![])))]));
    let loaded = DefaultProperties::load(Some(&file), &registry).unwrap();
    assert!(loaded.get("Only").unwrap().same(&bag("Other", vec![])));
    assert!(loaded.get("Light").is_none());
    assert_eq!(
        DefaultProperties::load(Some(&Value::Sequence(vec![])), &registry).err(),
        Some(EditorError::SerializationFailure)
    );
}
