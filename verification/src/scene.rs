//! The scene document: the persisted entities, each an id and its bags.

use vstd::prelude::*;
use crate::entity::{
    bags_from_dynamic, bags_to_dynamic, bags_view, bundle_of_value, bundle_value, is_bundle_value,
    lemma_bundle_value_round_trip,
};
use crate::error::EditorError;
use crate::property::{
    lemma_sequence_view, BagView, DynamicProperties, Field, FieldView, Value, ValueView,
};

verus! {

/// One persisted entity: its id and the bags it owns.
#[derive(Debug)]
pub struct SceneEntity {
    pub entity: u32,
    pub components: Vec<DynamicProperties>,
}

/// The persisted document: the entities in the order they were made.
#[derive(Debug)]
pub struct Scene {
    pub entities: Vec<SceneEntity>,
}

/// Mathematical model of a [`SceneEntity`].
pub struct EntityView {
    pub entity: u32,
    pub components: Seq<BagView>,
}

impl View for SceneEntity {
    type V = EntityView;

    open spec fn view(&self) -> EntityView {
        EntityView { entity: self.entity, components: bags_view(self.components@) }
    }
}

impl View for Scene {
    type V = Seq<EntityView>;

    open spec fn view(&self) -> Seq<EntityView> {
        Seq::new(self.entities.len() as nat, |i: int| self.entities[i]@)
    }
}

/// Index of the first entity with id `id` at or after `start`.
pub open spec fn index_of_entity_from(entities: Seq<EntityView>, id: u32, start: int) -> Option<int>
    decreases entities.len() - start,
{
    if start < 0 || start >= entities.len() {
        None
    } else if entities[start].entity == id {
        Some(start)
    } else {
        index_of_entity_from(entities, id, start + 1)
    }
}

/// Index of the first entity with id `id`.
pub open spec fn index_of_entity(entities: Seq<EntityView>, id: u32) -> Option<int> {
    index_of_entity_from(entities, id, 0)
}

pub proof fn lemma_index_of_entity_from(entities: Seq<EntityView>, id: u32, start: int)
    requires
        0 <= start,
    ensures
        match index_of_entity_from(entities, id, start) {
            Some(i) => start <= i < entities.len() && entities[i].entity == id && forall|k: int|
                start <= k < i ==> entities[k].entity != id,
            None => forall|k: int| start <= k < entities.len() ==> entities[k].entity != id,
        },
    decreases entities.len() - start,
{
    if start < entities.len() && entities[start].entity != id {
        lemma_index_of_entity_from(entities, id, start + 1);
    }
}

/// The bag value that stands for an entity: its id as an integer under the
/// name `entity`, and its bags as a sequence under the name `components`.
pub open spec fn entity_value(entity: EntityView) -> ValueView {
    ValueView::Bag(
        BagView {
            type_tag: "Entity"@,
            fields: seq![
                FieldView { name: "entity"@, value: ValueView::Integer(entity.entity as int) },
                FieldView { name: "components"@, value: bundle_value(entity.components) },
            ],
        },
    )
}

/// Whether `value` is a bag with the two fields of an entity: an id that
/// fits 32 bits, and a sequence of bags. The type name of the bag is not
/// looked at.
pub open spec fn is_entity_value(value: ValueView) -> bool {
    &&& value is Bag
    &&& value->Bag_0.fields.len() == 2
    &&& value->Bag_0.fields[0].name == "entity"@
    &&& value->Bag_0.fields[0].value is Integer
    &&& 0 <= value->Bag_0.fields[0].value->Integer_0 <= u32::MAX
    &&& value->Bag_0.fields[1].name == "components"@
    &&& is_bundle_value(value->Bag_0.fields[1].value)
}

/// The entity that an entity value stands for.
pub open spec fn entity_of_value(value: ValueView) -> EntityView
    recommends
        is_entity_value(value),
{
    EntityView {
        entity: value->Bag_0.fields[0].value->Integer_0 as u32,
        components: bundle_of_value(value->Bag_0.fields[1].value),
    }
}

/// The sequence value that stands for a document: one entity value for each
/// entity, in order.
pub open spec fn scene_value(entities: Seq<EntityView>) -> ValueView {
    ValueView::Sequence(Seq::new(entities.len(), |i: int| entity_value(entities[i])))
}

/// Whether `value` is a sequence of entity values.
pub open spec fn is_scene_value(value: ValueView) -> bool {
    value is Sequence && forall|i: int|
        0 <= i < value->Sequence_0.len() ==> is_entity_value(#[trigger] value->Sequence_0[i])
}

/// The document that a sequence of entity values stands for.
pub open spec fn scene_of_value(value: ValueView) -> Seq<EntityView>
    recommends
        is_scene_value(value),
{
    Seq::new(value->Sequence_0.len(), |i: int| entity_of_value(value->Sequence_0[i]))
}

/// An entity that is written as a value and read back is the entity that
/// was written.
pub proof fn lemma_entity_value_round_trip(entity: EntityView)
    ensures
        is_entity_value(entity_value(entity)),
        entity_of_value(entity_value(entity)) == entity,
{
    lemma_bundle_value_round_trip(entity.components);
}

/// A document that is written as a value and read back is the document that
/// was written: the same entities in the same order, each with its id and
/// its bags, field by field, whatever kinds of value the fields hold.
pub proof fn lemma_scene_value_round_trip(entities: Seq<EntityView>)
    ensures
        is_scene_value(scene_value(entities)),
        scene_of_value(scene_value(entities)) == entities,
{
    assert forall|i: int| 0 <= i < entities.len() implies is_entity_value(
        #[trigger] scene_value(entities)->Sequence_0[i],
    ) && entity_of_value(scene_value(entities)->Sequence_0[i]) == entities[i] by {
        lemma_entity_value_round_trip(entities[i]);
    }
    assert(scene_of_value(scene_value(entities)) =~= entities);
}

impl SceneEntity {
    /// The bag value that stands for this entity.
    pub fn to_dynamic(&self) -> (r: Value)
        ensures
            r@ == entity_value(self@),
    {
        let mut fields: Vec<Field> = Vec::new();
        fields.push(Field { name: "entity".to_owned(), value: Value::Integer(self.entity as i64) });
        fields.push(
            Field { name: "components".to_owned(), value: bags_to_dynamic(&self.components) },
        );
        let bag = DynamicProperties { type_tag: "Entity".to_owned(), fields };
        assert(bag@.fields =~= entity_value(self@)->Bag_0.fields);
        Value::Bag(bag)
    }

    /// The entity that `dynamic` stands for. Fails with
    /// `SerializationFailure` exactly where `dynamic` is no entity value.
    pub fn from_dynamic(dynamic: &Value) -> (r: Result<SceneEntity, EditorError>)
        ensures
            match r {
                Ok(entity) => is_entity_value(dynamic@) && entity@ == entity_of_value(dynamic@),
                Err(e) => e == EditorError::SerializationFailure && !is_entity_value(dynamic@),
            },
    {
        let bag = match dynamic {
            Value::Bag(bag) => bag,
            _ => {
                return Err(EditorError::SerializationFailure);
            },
        };
        assert(dynamic@ == ValueView::Bag(bag@));
        assert(bag@.fields.len() == bag.fields.len());
        if bag.fields.len() != 2 {
            return Err(EditorError::SerializationFailure);
        }
        assert(bag@.fields[0] == bag.fields[0]@);
        assert(bag@.fields[1] == bag.fields[1]@);
        if bag.fields[0].name != "entity".to_owned() || bag.fields[1].name != "components".to_owned() {
            return Err(EditorError::SerializationFailure);
        }
        let id: u32 = match &bag.fields[0].value {
            Value::Integer(id) => {
                if *id < 0 || *id > 0xffff_ffff {
                    return Err(EditorError::SerializationFailure);
                }
                *id as u32
            },
            _ => {
                return Err(EditorError::SerializationFailure);
            },
        };
        match bags_from_dynamic(&bag.fields[1].value) {
            Ok(components) => Ok(SceneEntity { entity: id, components }),
            Err(e) => Err(e),
        }
    }
}

impl Scene {
    /// The sequence value that stands for this document.
    pub fn to_dynamic(&self) -> (r: Value)
        ensures
            r@ == scene_value(self@),
    {
        let mut items: Vec<Value> = Vec::new();
        let mut i: usize = 0;
        while i < self.entities.len()
            invariant
                i <= self.entities.len(),
                items.len() == i,
                forall|k: int| 0 <= k < i ==> items[k]@ == entity_value(self.entities[k]@),
            decreases self.entities.len() - i,
        {
            items.push(self.entities[i].to_dynamic());
            i += 1;
        }
        let r = Value::Sequence(items);
        proof {
            lemma_sequence_view(r);
            assert(r@->Sequence_0 =~= scene_value(self@)->Sequence_0);
        }
        r
    }

    /// The document that `dynamic` stands for. Fails with
    /// `SerializationFailure` exactly where `dynamic` is not a sequence of
    /// entity values.
    pub fn from_dynamic(dynamic: &Value) -> (r: Result<Scene, EditorError>)
        ensures
            match r {
                Ok(scene) => is_scene_value(dynamic@) && scene@ == scene_of_value(dynamic@),
                Err(e) => e == EditorError::SerializationFailure && !is_scene_value(dynamic@),
            },
    {
        let items = match dynamic {
            Value::Sequence(items) => items,
            _ => {
                return Err(EditorError::SerializationFailure);
            },
        };
        let mut entities: Vec<SceneEntity> = Vec::new();
        let mut i: usize = 0;
        while i < items.len()
            invariant
                i <= items.len(),
                entities.len() == i,
                *dynamic == Value::Sequence(*items),
                forall|k: int| 0 <= k < i ==> is_entity_value(#[trigger] items[k]@),
                forall|k: int| 0 <= k < i ==> entity_of_value(items[k]@) == #[trigger] entities[k]@,
            decreases items.len() - i,
        {
            proof {
                lemma_sequence_view(*dynamic);
            }
            match SceneEntity::from_dynamic(&items[i]) {
                Ok(entity) => {
                    entities.push(entity);
                },
                Err(e) => {
                    assert(!is_entity_value(dynamic@->Sequence_0[i as int]));
                    return Err(e);
                },
            }
            i += 1;
        }
        let scene = Scene { entities };
        proof {
            lemma_sequence_view(*dynamic);
            assert(is_scene_value(dynamic@));
            assert(scene@ =~= scene_of_value(dynamic@));
        }
        Ok(scene)
    }

    /// A document without entities.
    pub fn new() -> (r: Scene)
        ensures
            r@ == Seq::<EntityView>::empty(),
    {
        let r = Scene { entities: Vec::new() };
        assert(r@ =~= Seq::<EntityView>::empty());
        r
    }

    /// Position of the first entity with id `id`.
    pub fn index_of(&self, id: u32) -> (r: Option<usize>)
        ensures
            match r {
                Some(i) => i < self.entities.len() && index_of_entity(self@, id) == Some(i as int),
                None => index_of_entity(self@, id).is_none(),
            },
    {
        let mut i: usize = 0;
        while i < self.entities.len()
            invariant
                i <= self.entities.len(),
                index_of_entity(self@, id) == index_of_entity_from(self@, id, i as int),
            decreases self.entities.len() - i,
        {
            if self.entities[i].entity == id {
                return Some(i);
            }
            i += 1;
        }
        None
    }
}

} // verus!
