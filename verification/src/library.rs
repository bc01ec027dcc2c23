//! The two libraries of templates: bundles under the name of a composite
//! template, and single bags under the name of a type. A template is
//! copied, never handed out, when it is looked up.

use vstd::prelude::*;
use crate::entity::{bundle_of_value, bundle_value, is_bundle_value, EditorBundle};
use crate::error::EditorError;
use crate::property::{
    field_map, last_field_named, lemma_field_map_push, lemma_last_field_named, BagView,
    DynamicProperties, Field, FieldView, Value, ValueView,
};
use crate::registry::ComponentRegistry;
use crate::tables::{
    bundle_entries, bundles_get, bundles_insert, bundles_iter, bundles_new, properties_get,
    properties_insert, properties_iter, properties_new, property_entries,
};

verus! {

/// Whether `fields` holds the entries of `entries`, each once and under its
/// name, in whatever order.
pub open spec fn holds_entries(fields: Seq<FieldView>, entries: Map<Seq<char>, ValueView>) -> bool {
    &&& forall|i: int|
        0 <= i < fields.len() ==> entries.contains_key(#[trigger] fields[i].name)
            && entries[fields[i].name] == fields[i].value
    &&& forall|i: int, j: int| 0 <= i < j < fields.len() ==> fields[i].name != fields[j].name
    &&& forall|name: Seq<char>|
        entries.contains_key(name) ==> exists|i: int|
            0 <= i < fields.len() && #[trigger] fields[i].name == name
}

/// Fields that hold the entries of a map hold, under each name, what the
/// map holds.
pub proof fn lemma_holds_entries(fields: Seq<FieldView>, entries: Map<Seq<char>, ValueView>)
    requires
        holds_entries(fields, entries),
    ensures
        field_map(fields) == entries,
{
    assert forall|name: Seq<char>| entries.contains_key(name) implies #[trigger] field_map(
        fields,
    ).contains_key(name) && field_map(fields)[name] == entries[name] by {
        lemma_last_field_named(fields, name);
        let i = choose|i: int| 0 <= i < fields.len() && #[trigger] fields[i].name == name;
        assert(fields[i].name == name);
    }
    assert forall|name: Seq<char>| #[trigger] field_map(fields).contains_key(name) implies entries.contains_key(
        name,
    ) by {
        lemma_last_field_named(fields, name);
        let j = last_field_named(fields, name)->Some_0;
        assert(entries.contains_key(fields[j].name));
    }
    assert(field_map(fields) =~= entries);
}

/// The sequence value that stands for each bundle of `entries`.
pub open spec fn bundle_values(entries: Map<Seq<char>, Seq<BagView>>) -> Map<Seq<char>, ValueView> {
    Map::new(
        |name: Seq<char>| entries.contains_key(name),
        |name: Seq<char>| bundle_value(entries[name]),
    )
}

/// The bag value that stands for each bag of `entries`.
pub open spec fn bag_values(entries: Map<Seq<char>, BagView>) -> Map<Seq<char>, ValueView> {
    Map::new(
        |name: Seq<char>| entries.contains_key(name),
        |name: Seq<char>| ValueView::Bag(entries[name]),
    )
}

/// Whether the value of every field is a sequence of bags.
pub open spec fn all_bundle_values(fields: Seq<FieldView>) -> bool {
    forall|i: int| 0 <= i < fields.len() ==> is_bundle_value(#[trigger] fields[i].value)
}

/// Whether the value of every field is a bag.
pub open spec fn all_bag_values(fields: Seq<FieldView>) -> bool {
    forall|i: int| 0 <= i < fields.len() ==> #[trigger] fields[i].value is Bag
}

/// The bundles that fields with sequences of bags as values stand for: under
/// each name, the bags of the last field of the name.
pub open spec fn bundles_of(fields: Seq<FieldView>) -> Map<Seq<char>, Seq<BagView>> {
    Map::new(
        |name: Seq<char>| field_map(fields).contains_key(name),
        |name: Seq<char>| bundle_of_value(field_map(fields)[name]),
    )
}

/// The bags that fields with bags as values stand for: under each name, the
/// bag of the last field of the name.
pub open spec fn bags_of(fields: Seq<FieldView>) -> Map<Seq<char>, BagView> {
    Map::new(
        |name: Seq<char>| field_map(fields).contains_key(name),
        |name: Seq<char>| field_map(fields)[name]->Bag_0,
    )
}

/// A library of bundles that is written as fields and read back is the
/// library that was written.
pub proof fn lemma_bundles_round_trip(fields: Seq<FieldView>, entries: Map<Seq<char>, Seq<BagView>>)
    requires
        holds_entries(fields, bundle_values(entries)),
    ensures
        all_bundle_values(fields),
        bundles_of(fields) == entries,
{
    lemma_holds_entries(fields, bundle_values(entries));
    assert forall|i: int| 0 <= i < fields.len() implies is_bundle_value(
        #[trigger] fields[i].value,
    ) by {
        assert(bundle_values(entries).contains_key(fields[i].name));
        crate::entity::lemma_bundle_value_round_trip(entries[fields[i].name]);
    }
    assert forall|name: Seq<char>| entries.contains_key(name) implies #[trigger] bundles_of(
        fields,
    )[name] == entries[name] by {
        crate::entity::lemma_bundle_value_round_trip(entries[name]);
    }
    assert(bundles_of(fields) =~= entries);
}

/// A library of bags that is written as fields and read back is the library
/// that was written.
pub proof fn lemma_bags_round_trip(fields: Seq<FieldView>, entries: Map<Seq<char>, BagView>)
    requires
        holds_entries(fields, bag_values(entries)),
    ensures
        all_bag_values(fields),
        bags_of(fields) == entries,
{
    lemma_holds_entries(fields, bag_values(entries));
    assert forall|i: int| 0 <= i < fields.len() implies #[trigger] fields[i].value is Bag by {
        assert(bag_values(entries).contains_key(fields[i].name));
    }
    assert(bags_of(fields) =~= entries);
}

/// The bags of the built-in template of a light, from the defaults of the
/// registry.
pub open spec fn light_components(registry: Map<Seq<char>, BagView>) -> Seq<BagView> {
    seq![registry["Light"@], registry["Transform"@], registry["GlobalTransform"@]]
}

/// The bags of the built-in template of a lit mesh, from the defaults of
/// the registry.
pub open spec fn pbr_components(registry: Map<Seq<char>, BagView>) -> Seq<BagView> {
    seq![
        registry["Asset<Mesh>"@],
        registry["Into<Color, StandardMaterial>"@],
        registry["Draw"@],
        registry["MainPass"@],
        registry["RenderPipelines"@],
        registry["Transform"@],
        registry["GlobalTransform"@],
    ]
}

/// Whether the registry knows the eight types that the built-in templates
/// are made of.
pub open spec fn knows_builtin_types(registry: Map<Seq<char>, BagView>) -> bool {
    &&& registry.contains_key("Light"@)
    &&& registry.contains_key("Transform"@)
    &&& registry.contains_key("GlobalTransform"@)
    &&& registry.contains_key("Asset<Mesh>"@)
    &&& registry.contains_key("Into<Color, StandardMaterial>"@)
    &&& registry.contains_key("Draw"@)
    &&& registry.contains_key("MainPass"@)
    &&& registry.contains_key("RenderPipelines"@)
}

/// The built-in library of bundles.
pub open spec fn builtin_bundles(registry: Map<Seq<char>, BagView>) -> Map<Seq<char>, Seq<BagView>> {
    Map::empty().insert("LightComponents"@, light_components(registry)).insert(
        "PbrComponents"@,
        pbr_components(registry),
    )
}

/// The built-in library of properties: the default of each of the eight
/// types, under the name of the type.
pub open spec fn builtin_properties(registry: Map<Seq<char>, BagView>) -> Map<Seq<char>, BagView> {
    Map::empty().insert("Light"@, registry["Light"@]).insert(
        "Transform"@,
        registry["Transform"@],
    ).insert("GlobalTransform"@, registry["GlobalTransform"@]).insert(
        "Asset<Mesh>"@,
        registry["Asset<Mesh>"@],
    ).insert(
        "Into<Color, StandardMaterial>"@,
        registry["Into<Color, StandardMaterial>"@],
    ).insert("Draw"@, registry["Draw"@]).insert("MainPass"@, registry["MainPass"@]).insert(
        "RenderPipelines"@,
        registry["RenderPipelines"@],
    )
}

/// A copy of the default bag of the type `name`.
fn default_of(registry: &ComponentRegistry, name: &str) -> (r: Result<
    DynamicProperties,
    EditorError,
>)
    ensures
        match r {
            Ok(bag) => registry@.contains_key(name@) && bag@ == registry@[name@],
            Err(e) => e == EditorError::UnregisteredType && !registry@.contains_key(name@),
        },
{
    match registry.get_with_name(name) {
        Ok(registration) => Ok(registration.default_value.clone_prop()),
        Err(e) => Err(e),
    }
}

/// The library of bundles: the templates that entities are spawned from.
pub struct DefaultBundles {
    map: hashbrown::HashMap<String, EditorBundle>,
}

impl View for DefaultBundles {
    type V = Map<Seq<char>, Seq<BagView>>;

    closed spec fn view(&self) -> Map<Seq<char>, Seq<BagView>> {
        bundle_entries(self.map)
    }
}

impl Clone for DefaultBundles {
    /// A deep copy.
    fn clone(&self) -> (r: DefaultBundles)
        ensures
            r@ == self@,
    {
        let entries = bundles_iter(&self.map);
        let mut map = bundles_new();
        let mut i: usize = 0;
        while i < entries.len()
            invariant
                i <= entries.len(),
                forall|name: Seq<char>|
                    bundle_entries(map).contains_key(name) <==> exists|k: int|
                        0 <= k < i && #[trigger] entries[k].0@ == name,
                forall|k: int|
                    0 <= k < i ==> bundle_entries(map)[#[trigger] entries[k].0@] == entries[k].1@,
                forall|a: int, b: int| 0 <= a < b < entries.len() ==> entries[a].0@ != entries[b].0@,
            decreases entries.len() - i,
        {
            let name: &String = entries[i].0;
            let bundle: &EditorBundle = entries[i].1;
            bundles_insert(&mut map, name.clone(), bundle.clone());
            assert(entries[i as int].0@ == name@);
            i += 1;
        }
        assert(bundle_entries(map) =~= bundle_entries(self.map));
        DefaultBundles { map }
    }
}

impl DefaultBundles {
    /// The built-in library, made from the defaults of the registry. Fails
    /// with `UnregisteredType` exactly where the registry lacks one of the
    /// eight types that the built-in templates are made of.
    pub fn new(registry: &ComponentRegistry) -> (r: Result<DefaultBundles, EditorError>)
        ensures
            match r {
                Ok(library) => knows_builtin_types(registry@) && library@ == builtin_bundles(
                    registry@,
                ),
                Err(e) => e == EditorError::UnregisteredType && !knows_builtin_types(registry@),
            },
    {
        let light = default_of(registry, "Light")?;
        let transform = default_of(registry, "Transform")?;
        let global = default_of(registry, "GlobalTransform")?;
        let mesh = default_of(registry, "Asset<Mesh>")?;
        let material = default_of(registry, "Into<Color, StandardMaterial>")?;
        let draw = default_of(registry, "Draw")?;
        let pass = default_of(registry, "MainPass")?;
        let pipelines = default_of(registry, "RenderPipelines")?;
        let mut light_bags: Vec<DynamicProperties> = Vec::new();
        light_bags.push(light);
        light_bags.push(transform.clone_prop());
        light_bags.push(global.clone_prop());
        let mut pbr_bags: Vec<DynamicProperties> = Vec::new();
        pbr_bags.push(mesh);
        pbr_bags.push(material);
        pbr_bags.push(draw);
        pbr_bags.push(pass);
        pbr_bags.push(pipelines);
        pbr_bags.push(transform);
        pbr_bags.push(global);
        let light_bundle = EditorBundle::from_components(light_bags);
        let pbr_bundle = EditorBundle::from_components(pbr_bags);
        assert(light_bundle@ =~= light_components(registry@));
        assert(pbr_bundle@ =~= pbr_components(registry@));
        let mut map = bundles_new();
        assert(bundle_entries(map) =~= Map::empty());
        bundles_insert(&mut map, "LightComponents".to_owned(), light_bundle);
        bundles_insert(&mut map, "PbrComponents".to_owned(), pbr_bundle);
        Ok(DefaultBundles { map })
    }

    /// The library that a session starts with: the one that `file` stands
    /// for where there is a file, else the built-in one. `file` is the value
    /// that was read from the library's file, if the file is there. Fails
    /// with `SerializationFailure` exactly where the file holds no bag or a
    /// field of the bag is no sequence of bags, and as `new` does where
    /// there is no file.
    pub fn load(file: Option<&Value>, registry: &ComponentRegistry) -> (r: Result<
        DefaultBundles,
        EditorError,
    >)
        ensures
            match file {
                Some(value) => match r {
                    Ok(library) => value@ is Bag && all_bundle_values(value@->Bag_0.fields)
                        && library@ == bundles_of(value@->Bag_0.fields),
                    Err(e) => e == EditorError::SerializationFailure && !(value@ is Bag
                        && all_bundle_values(value@->Bag_0.fields)),
                },
                None => match r {
                    Ok(library) => knows_builtin_types(registry@) && library@ == builtin_bundles(
                        registry@,
                    ),
                    Err(e) => e == EditorError::UnregisteredType && !knows_builtin_types(
                        registry@,
                    ),
                },
            },
    {
        match file {
            Some(Value::Bag(bag)) => DefaultBundles::from_dynamic(bag),
            Some(_) => Err(EditorError::SerializationFailure),
            None => DefaultBundles::new(registry),
        }
    }

    /// A copy of the bundle held under `name`.
    pub fn get(&self, name: &str) -> (r: Option<EditorBundle>)
        ensures
            match r {
                Some(bundle) => self@.contains_key(name@) && bundle@ == self@[name@],
                None => !self@.contains_key(name@),
            },
    {
        match bundles_get(&self.map, name) {
            Some(bundle) => Some(bundle.clone()),
            None => None,
        }
    }

    /// Puts `bundle` under `name`, in place of what was there.
    pub fn insert(&mut self, name: String, bundle: EditorBundle)
        ensures
            final(self)@ == old(self)@.insert(name@, bundle@),
    {
        bundles_insert(&mut self.map, name, bundle);
    }

    /// The library as one bag: a field for each bundle, under the name of
    /// the bundle and with the sequence value that stands for it. The order
    /// of the fields is not stated.
    pub fn to_dynamic(&self) -> (r: DynamicProperties)
        ensures
            r@.type_tag == "DefaultBundles"@,
            holds_entries(r@.fields, bundle_values(self@)),
    {
        let entries = bundles_iter(&self.map);
        let mut fields: Vec<Field> = Vec::new();
        let mut i: usize = 0;
        while i < entries.len()
            invariant
                i <= entries.len(),
                fields.len() == i,
                forall|k: int|
                    0 <= k < i ==> (#[trigger] fields[k]@).name == entries[k].0@ && fields[k]@.value
                        == bundle_value(entries[k].1@),
            decreases entries.len() - i,
        {
            let name: &String = entries[i].0;
            let bundle: &EditorBundle = entries[i].1;
            fields.push(Field { name: name.clone(), value: bundle.to_dynamic() });
            i += 1;
        }
        let r = DynamicProperties { type_tag: "DefaultBundles".to_owned(), fields };
        proof {
            let expected = bundle_values(self@);
            assert forall|k: int| 0 <= k < r@.fields.len() implies expected.contains_key(
                #[trigger] r@.fields[k].name,
            ) && expected[r@.fields[k].name] == r@.fields[k].value by {
                assert(r@.fields[k] == fields[k]@);
                assert(bundle_entries(self.map).contains_key(entries[k].0@));
            }
            assert forall|a: int, b: int| 0 <= a < b < r@.fields.len() implies r@.fields[a].name
                != r@.fields[b].name by {
                assert(r@.fields[a] == fields[a]@);
                assert(r@.fields[b] == fields[b]@);
            }
            assert forall|name: Seq<char>| expected.contains_key(name) implies exists|k: int|
                0 <= k < r@.fields.len() && #[trigger] r@.fields[k].name == name by {
                let k = choose|k: int| 0 <= k < entries.len() && #[trigger] entries[k].0@ == name;
                assert(r@.fields[k] == fields[k]@);
                assert(r@.fields[k].name == name);
            }
        }
        r
    }

    /// The library that the bag `dynamic` stands for: each field gives a
    /// bundle under the name of the field, a later field in place of an
    /// earlier one of the same name. The type name of the bag is not looked
    /// at. Fails with `SerializationFailure` exactly where the value of a
    /// field is not a sequence of bags.
    pub fn from_dynamic(dynamic: &DynamicProperties) -> (r: Result<DefaultBundles, EditorError>)
        ensures
            match r {
                Ok(library) => all_bundle_values(dynamic@.fields) && library@ == bundles_of(
                    dynamic@.fields,
                ),
                Err(e) => e == EditorError::SerializationFailure && !all_bundle_values(
                    dynamic@.fields,
                ),
            },
    {
        let mut map = bundles_new();
        let mut i: usize = 0;
        assert(dynamic@.fields.take(0) =~= Seq::empty());
        assert(bundle_entries(map) =~= bundles_of(dynamic@.fields.take(0)));
        while i < dynamic.fields.len()
            invariant
                i <= dynamic.fields.len(),
                all_bundle_values(dynamic@.fields.take(i as int)),
                bundle_entries(map) == bundles_of(dynamic@.fields.take(i as int)),
            decreases dynamic.fields.len() - i,
        {
            let ghost field = dynamic@.fields[i as int];
            assert(field == dynamic.fields[i as int]@);
            match EditorBundle::from_dynamic(&dynamic.fields[i].value) {
                Err(e) => {
                    return Err(e);
                },
                Ok(bundle) => {
                    proof {
                        let front = dynamic@.fields.take(i as int);
                        assert(dynamic@.fields.take(i + 1) =~= front.push(field));
                        lemma_field_map_push(front, field);
                        assert(bundles_of(front.push(field)) =~= bundles_of(front).insert(
                            field.name,
                            bundle@,
                        ));
                    }
                    bundles_insert(&mut map, dynamic.fields[i].name.clone(), bundle);
                },
            }
            i += 1;
        }
        assert(dynamic@.fields.take(dynamic.fields.len() as int) =~= dynamic@.fields);
        Ok(DefaultBundles { map })
    }
}

/// The library of properties: the default bag of each type that can be
/// added to an entity by name.
pub struct DefaultProperties {
    map: hashbrown::HashMap<String, DynamicProperties>,
}

impl View for DefaultProperties {
    type V = Map<Seq<char>, BagView>;

    closed spec fn view(&self) -> Map<Seq<char>, BagView> {
        property_entries(self.map)
    }
}

impl Clone for DefaultProperties {
    /// A deep copy.
    fn clone(&self) -> (r: DefaultProperties)
        ensures
            r@ == self@,
    {
        let entries = properties_iter(&self.map);
        let mut map = properties_new();
        let mut i: usize = 0;
        while i < entries.len()
            invariant
                i <= entries.len(),
                forall|name: Seq<char>|
                    property_entries(map).contains_key(name) <==> exists|k: int|
                        0 <= k < i && #[trigger] entries[k].0@ == name,
                forall|k: int|
                    0 <= k < i ==> property_entries(map)[#[trigger] entries[k].0@] == entries[k].1@,
                forall|a: int, b: int| 0 <= a < b < entries.len() ==> entries[a].0@ != entries[b].0@,
            decreases entries.len() - i,
        {
            let name: &String = entries[i].0;
            let bag: &DynamicProperties = entries[i].1;
            properties_insert(&mut map, name.clone(), bag.clone_prop());
            assert(entries[i as int].0@ == name@);
            i += 1;
        }
        assert(property_entries(map) =~= property_entries(self.map));
        DefaultProperties { map }
    }
}

impl DefaultProperties {
    /// The built-in library, made from the defaults of the registry. Fails
    /// with `UnregisteredType` exactly where the registry lacks one of the
    /// eight built-in types.
    pub fn new(registry: &ComponentRegistry) -> (r: Result<DefaultProperties, EditorError>)
        ensures
            match r {
                Ok(library) => knows_builtin_types(registry@) && library@ == builtin_properties(
                    registry@,
                ),
                Err(e) => e == EditorError::UnregisteredType && !knows_builtin_types(registry@),
            },
    {
        let light = default_of(registry, "Light")?;
        let transform = default_of(registry, "Transform")?;
        let global = default_of(registry, "GlobalTransform")?;
        let mesh = default_of(registry, "Asset<Mesh>")?;
        let material = default_of(registry, "Into<Color, StandardMaterial>")?;
        let draw = default_of(registry, "Draw")?;
        let pass = default_of(registry, "MainPass")?;
        let pipelines = default_of(registry, "RenderPipelines")?;
        let mut map = properties_new();
        assert(property_entries(map) =~= Map::empty());
        properties_insert(&mut map, "Light".to_owned(), light);
        properties_insert(&mut map, "Transform".to_owned(), transform);
        properties_insert(&mut map, "GlobalTransform".to_owned(), global);
        properties_insert(&mut map, "Asset<Mesh>".to_owned(), mesh);
        properties_insert(&mut map, "Into<Color, StandardMaterial>".to_owned(), material);
        properties_insert(&mut map, "Draw".to_owned(), draw);
        properties_insert(&mut map, "MainPass".to_owned(), pass);
        properties_insert(&mut map, "RenderPipelines".to_owned(), pipelines);
        Ok(DefaultProperties { map })
    }

    /// The library that a session starts with: the one that `file` stands
    /// for where there is a file, else the built-in one. `file` is the value
    /// that was read from the library's file, if the file is there. Fails
    /// with `SerializationFailure` exactly where the file holds no bag or a
    /// field of the bag is no bag, and as `new` does where there is no file.
    pub fn load(file: Option<&Value>, registry: &ComponentRegistry) -> (r: Result<
        DefaultProperties,
        EditorError,
    >)
        ensures
            match file {
                Some(value) => match r {
                    Ok(library) => value@ is Bag && all_bag_values(value@->Bag_0.fields)
                        && library@ == bags_of(value@->Bag_0.fields),
                    Err(e) => e == EditorError::SerializationFailure && !(value@ is Bag
                        && all_bag_values(value@->Bag_0.fields)),
                },
                None => match r {
                    Ok(library) => knows_builtin_types(registry@) && library@
                        == builtin_properties(registry@),
                    Err(e) => e == EditorError::UnregisteredType && !knows_builtin_types(
                        registry@,
                    ),
                },
            },
    {
        match file {
            Some(Value::Bag(bag)) => DefaultProperties::from_dynamic(bag),
            Some(_) => Err(EditorError::SerializationFailure),
            None => DefaultProperties::new(registry),
        }
    }

    /// A copy of the bag held under `name`.
    pub fn get(&self, name: &str) -> (r: Option<DynamicProperties>)
        ensures
            match r {
                Some(bag) => self@.contains_key(name@) && bag@ == self@[name@],
                None => !self@.contains_key(name@),
            },
    {
        match properties_get(&self.map, name) {
            Some(bag) => Some(bag.clone_prop()),
            None => None,
        }
    }

    /// Puts `bag` under `name`, in place of what was there.
    pub fn insert(&mut self, name: String, bag: DynamicProperties)
        ensures
            final(self)@ == old(self)@.insert(name@, bag@),
    {
        properties_insert(&mut self.map, name, bag);
    }

    /// The library as one bag: a field for each bag, under the name that
    /// the library holds it under. The order of the fields is not stated.
    pub fn to_dynamic(&self) -> (r: DynamicProperties)
        ensures
            r@.type_tag == "DefaultProperties"@,
            holds_entries(r@.fields, bag_values(self@)),
    {
        let entries = properties_iter(&self.map);
        let mut fields: Vec<Field> = Vec::new();
        let mut i: usize = 0;
        while i < entries.len()
            invariant
                i <= entries.len(),
                fields.len() == i,
                forall|k: int|
                    0 <= k < i ==> (#[trigger] fields[k]@).name == entries[k].0@ && fields[k]@.value
                        == ValueView::Bag(entries[k].1@),
            decreases entries.len() - i,
        {
            let name: &String = entries[i].0;
            let bag: &DynamicProperties = entries[i].1;
            fields.push(Field { name: name.clone(), value: Value::Bag(bag.clone_prop()) });
            i += 1;
        }
        let r = DynamicProperties { type_tag: "DefaultProperties".to_owned(), fields };
        proof {
            let expected = bag_values(self@);
            assert forall|k: int| 0 <= k < r@.fields.len() implies expected.contains_key(
                #[trigger] r@.fields[k].name,
            ) && expected[r@.fields[k].name] == r@.fields[k].value by {
                assert(r@.fields[k] == fields[k]@);
                assert(property_entries(self.map).contains_key(entries[k].0@));
            }
            assert forall|a: int, b: int| 0 <= a < b < r@.fields.len() implies r@.fields[a].name
                != r@.fields[b].name by {
                assert(r@.fields[a] == fields[a]@);
                assert(r@.fields[b] == fields[b]@);
            }
            assert forall|name: Seq<char>| expected.contains_key(name) implies exists|k: int|
                0 <= k < r@.fields.len() && #[trigger] r@.fields[k].name == name by {
                let k = choose|k: int| 0 <= k < entries.len() && #[trigger] entries[k].0@ == name;
                assert(r@.fields[k] == fields[k]@);
                assert(r@.fields[k].name == name);
            }
        }
        r
    }

    /// The library that the bag `dynamic` stands for: each field gives a
    /// bag under the name of the field, a later field in place of an
    /// earlier one of the same name. The type name of the bag is not looked
    /// at. Fails with `SerializationFailure` exactly where the value of a
    /// field is not a bag.
    pub fn from_dynamic(dynamic: &DynamicProperties) -> (r: Result<DefaultProperties, EditorError>)
        ensures
            match r {
                Ok(library) => all_bag_values(dynamic@.fields) && library@ == bags_of(
                    dynamic@.fields,
                ),
                Err(e) => e == EditorError::SerializationFailure && !all_bag_values(
                    dynamic@.fields,
                ),
            },
    {
        let mut map = properties_new();
        let mut i: usize = 0;
        assert(dynamic@.fields.take(0) =~= Seq::empty());
        assert(property_entries(map) =~= bags_of(dynamic@.fields.take(0)));
        while i < dynamic.fields.len()
            invariant
                i <= dynamic.fields.len(),
                all_bag_values(dynamic@.fields.take(i as int)),
                property_entries(map) == bags_of(dynamic@.fields.take(i as int)),
            decreases dynamic.fields.len() - i,
        {
            let ghost field = dynamic@.fields[i as int];
            assert(field == dynamic.fields[i as int]@);
            match &dynamic.fields[i].value {
                Value::Bag(bag) => {
                    proof {
                        let front = dynamic@.fields.take(i as int);
                        assert(dynamic@.fields.take(i + 1) =~= front.push(field));
                        lemma_field_map_push(front, field);
                        assert(bags_of(front.push(field)) =~= bags_of(front).insert(
                            field.name,
                            bag@,
                        ));
                    }
                    properties_insert(&mut map, dynamic.fields[i].name.clone(), bag.clone_prop());
                },
                _ => {
                    return Err(EditorError::SerializationFailure);
                },
            }
            i += 1;
        }
        assert(dynamic@.fields.take(dynamic.fields.len() as int) =~= dynamic@.fields);
        Ok(DefaultProperties { map })
    }
}

} // verus!
