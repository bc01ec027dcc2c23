use prefab_editor::entity::{ComponentsExt, EditorBundle};
use prefab_editor::error::EditorError;
use prefab_editor::property::{DynamicProperties, Field, Value};
use prefab_editor::registry::ComponentRegistry;

fn bag(tag: &str, fields: Vec<(&str, Value)>) -> DynamicProperties {
    DynamicProperties {
        type_tag: tag.to_string(),
        fields: fields
            .into_iter()
            .map(|(name, value)| Field { name: name.to_string(), value })
            .collect(),
    }
}

fn registry_of(names: &[&str]) -> ComponentRegistry {
    let mut registry = ComponentRegistry::new();
    for name in names {
        registry.register(name.to_string(), bag(name, vec![])).unwrap();
    }
    registry
}

#[test]
fn patch_overwrites_named_fields_only() {
    let registry = registry_of(&["t"]);
    let mut bundle = EditorBundle::new();
    bundle
        .add(bag("t", vec![("a", Value::Integer(1)), ("b", Value::Integer(2))]), &registry)
        .unwrap();
    bundle.add(bag("t", vec![("a", Value::Integer(9))]), &registry).unwrap();
    let bags = bundle.into_inner();
    assert_eq!(bags.len(), 1);
    assert!(bags[0].same(&bag("t", vec![("a", Value::Integer(9)), ("b", Value::Integer(2))])));
}

#[test]
fn adding_a_bag_twice_leaves_it_alone() {
    let registry = registry_of(&["t"]);
    let b = bag(
        "t",
        vec![
            ("flag", Value::Bool(true)),
            ("size", Value::Float(1.5f32.to_bits())),
            ("name", Value::Text("lamp".to_string())),
            ("items", Value::Sequence(vec![Value::Integer(1), Value::Integer(2)])),
        ],
    );
    let mut bundle = EditorBundle::new();
    bundle.add(b.clone_prop(), &registry).unwrap();
    bundle.add(b.clone_prop(), &registry).unwrap();
    let bags = bundle.into_inner();
    assert_eq!(bags.len(), 1);
    assert!(bags[0].same(&b));
}

#[test]
fn many_bags_of_one_type_leave_one() {
    let registry = registry_of(&["t", "u"]);
    let mut bundle = EditorBundle::new();
    bundle.add(bag("u", vec![("k", Value::Integer(0))]), &registry).unwrap();
    for i in 0..7 {
        bundle.add(bag("t", vec![("a", Value::Integer(i))]), &registry).unwrap();
    }
    let bags = bundle.into_inner();
    assert_eq!(bags.iter().filter(|b| b.type_tag == "t").count(), 1);
    assert_eq!(bags.len(), 2);
    // The first bag of the type keeps its fields; later bags patch it.
    assert!(bags[1].same(&bag("t", vec![("a", Value::Integer(6))])));
}

#[test]
fn patch_drops_fields_the_target_lacks_and_keeps_order() {
    let mut target = bag("t", vec![("a", Value::Integer(1)), ("b", Value::Integer(2))]);
    let source = bag("t", vec![("c", Value::Integer(7)), ("b", Value::Integer(5)), ("b", Value::Integer(6))]);
    assert_eq!(target.apply(&source), Ok(()));
    assert!(target.same(&bag("t", vec![("a", Value::Integer(1)), ("b", Value::Integer(6))])));
}

#[test]
fn patch_replaces_a_nested_bag_whole() {
    let inner_old = bag("inner", vec![("x", Value::Integer(1)), ("y", Value::Integer(2))]);
    let inner_new = bag("inner", vec![("x", Value::Integer(9))]);
    let mut target = bag("t", vec![("nested", Value::Bag(inner_old))]);
    let source = bag("t", vec![("nested", Value::Bag(inner_new.clone_prop()))]);
    target.apply(&source).unwrap();
    assert!(target.same(&bag("t", vec![("nested", Value::Bag(inner_new))])));
}

#[test]
fn patch_across_types_is_a_type_mismatch() {
    let mut target = bag("t", vec![("a", Value::Integer(1))]);
    let source = bag("u", vec![("a", Value::Integer(2))]);
    assert_eq!(target.apply(&source), Err(EditorError::TypeMismatch));
    assert!(target.same(&bag("t", vec![("a", Value::Integer(1))])));
}

#[test]
fn adding_an_unregistered_type_fails_and_changes_nothing() {
    let registry = registry_of(&["t"]);
    let mut bags: Vec<DynamicProperties> = Vec::new();
    bags.add(bag("t", vec![("a", Value::Integer(1))]), &registry).unwrap();
    assert_eq!(
        bags.add(bag("missing", vec![]), &registry),
        Err(EditorError::UnregisteredType)
    );
    assert_eq!(bags.len(), 1);
}

#[test]
fn add_bundle_stops_at_the_first_failure() {
    let registry = registry_of(&["t", "u"]);
    let mut bags: Vec<DynamicProperties> = Vec::new();
    let result = bags.add_bundle(
        vec![
            bag("t", vec![("a", Value::Integer(1))]),
            bag("missing", vec![]),
            bag("u", vec![]),
        ],
        &registry,
    );
    assert_eq!(result, Err(EditorError::UnregisteredType));
    assert_eq!(bags.len(), 1);
    assert_eq!(bags[0].type_tag, "t");
}

#[test]
fn later_bags_of_a_bundle_patch_earlier_ones() {
    let registry = registry_of(&["t"]);
    let mut bundle = EditorBundle::new();
    bundle
        .add_bundle(
            vec![
                bag("t", vec![("a", Value::Integer(1)), ("b", Value::Integer(2))]),
                bag("t", vec![("a", Value::Integer(3))]),
                bag("t", vec![("b", Value::Integer(4))]),
            ],
            &registry,
        )
        .unwrap();
    assert_eq!(bundle.len(), 1);
    assert!(bundle
        .component(0)
        .same(&bag("t", vec![("a", Value::Integer(3)), ("b", Value::Integer(4))])));
}

#[test]
fn get_finds_the_bag_of_a_type() {
    let registry = registry_of(&["t", "u"]);
    let mut bundle = EditorBundle::new();
    bundle.add(bag("t", vec![("a", Value::Integer(1))]), &registry).unwrap();
    bundle.add(bag("u", vec![("b", Value::Integer(2))]), &registry).unwrap();
    assert!(bundle.get("u").unwrap().same(&bag("u", vec![("b", Value::Integer(2))])));
    assert!(bundle.get("v").is_none());
}

#[test]
fn registry_keeps_the_last_registration_of_a_name() {
    let mut registry = ComponentRegistry::new();
    assert!(!registry.contains("t"));
    registry.register("t".to_string(), bag("t", vec![("a", Value::Integer(1))])).unwrap();
    registry.register("t".to_string(), bag("t", vec![("a", Value::Integer(2))])).unwrap();
    let found = registry.get_with_name("t").unwrap();
    assert!(found.default_value.same(&bag("t", vec![("a", Value::Integer(2))])));
    assert_eq!(registry.get_with_name("u").err(), Some(EditorError::UnregisteredType));
}

#[test]
fn values_of_different_kinds_differ() {
    assert!(!Value::Integer(1).same(&Value::Bool(true)));
    assert!(!Value::Vector3(1, 2, 3).same(&Value::Vector3(1, 2, 4)));
    assert!(Value::Quaternion(0, 0, 0, 1).same(&Value::Quaternion(0, 0, 0, 1)));
    assert!(!Value::Sequence(vec![Value::Integer(1)]).same(&Value::Sequence(vec![])));
    assert!(Value::Vector2(5, 6).clone_prop().same(&Value::Vector2(5, 6)));
    assert!(Value::Vector4(1, 2, 3, 4).clone_prop().same(&Value::Vector4(1, 2, 3, 4)));
}

#[test]
fn bundle_round_trips_through_its_value() {
    let bundle = EditorBundle::from_components(vec![
        bag("t", vec![("a", Value::Integer(1))]),
        bag("u", vec![]),
    ]);
    let value = bundle.to_dynamic();
    let back = EditorBundle::from_dynamic(&value).unwrap();
    assert!(back.same(&bundle));
    assert!(bundle.clone().same(&bundle));
}

#[test]
fn a_value_that_is_no_sequence_of_bags_is_no_bundle() {
    assert_eq!(
        EditorBundle::from_dynamic(&Value::Integer(3)).err(),
        Some(EditorError::SerializationFailure)
    );
    let mixed = Value::Sequence(vec![Value::Bag(bag("t", vec![])), Value::Bool(false)]);
    assert_eq!(
        EditorBundle::from_dynamic(&mixed).err(),
        Some(EditorError::SerializationFailure)
    );
}

#[test]
fn a_default_bag_of_another_type_is_not_registered() {
    let mut registry = ComponentRegistry::new();
    assert_eq!(
        registry.register("t".to_string(), bag("u", vec![])),
        Err(EditorError::TypeMismatch)
    );
    assert!(!registry.contains("t"));
    assert!(!registry.contains("u"));
    assert_eq!(registry.register("t".to_string(), bag("t", vec![])), Ok(()));
    assert_eq!(registry.get_with_name("t").unwrap().default_value.type_tag, "t");
}

#[test]
fn a_bag_with_two_fields_of_one_name_is_not_valid() {
    assert!(bag("t", vec![]).is_valid());
    assert!(bag("t", vec![("a", Value::Integer(1)), ("b", Value::Integer(1))]).is_valid());
    assert!(!bag("t", vec![("a", Value::Integer(1)), ("b", Value::Integer(2)), ("a", Value::Integer(3))])
        .is_valid());
}

#[test]
fn a_patch_keeps_a_bag_valid() {
    let mut target = bag("t", vec![("a", Value::Integer(1)), ("b", Value::Integer(2))]);
    let source = bag("t", vec![("a", Value::Integer(5)), ("a", Value::Integer(6))]);
    assert!(!source.is_valid());
    target.apply(&source).unwrap();
    assert!(target.is_valid());
    assert!(target.same(&bag("t", vec![("a", Value::Integer(6)), ("b", Value::Integer(2))])));
}
