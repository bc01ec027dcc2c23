//! The dynamic property model: values of a closed set of kinds and the
//! type-tagged bags of named fields built from them.

use vstd::prelude::*;
use crate::error::EditorError;

verus! {

/// Mathematical model of a [`Value`].
pub enum ValueView {
    Bool(bool),
    Integer(int),
    Float(u32),
    Text(Seq<char>),
    Vector2(u32, u32),
    Vector3(u32, u32, u32),
    Vector4(u32, u32, u32, u32),
    Quaternion(u32, u32, u32, u32),
    Bag(BagView),
    Sequence(Seq<ValueView>),
}

/// Mathematical model of a [`DynamicProperties`]: its type name and its
/// fields in order.
pub struct BagView {
    pub type_tag: Seq<char>,
    pub fields: Seq<FieldView>,
}

/// Mathematical model of a [`Field`].
pub struct FieldView {
    pub name: Seq<char>,
    pub value: ValueView,
}

/// A property value. Real numbers are held as the bit pattern of their
/// IEEE-754 single-precision encoding, so that equality is exact.
#[derive(Debug)]
pub enum Value {
    Bool(bool),
    Integer(i64),
    Float(u32),
    Text(String),
    Vector2(u32, u32),
    Vector3(u32, u32, u32),
    Vector4(u32, u32, u32, u32),
    Quaternion(u32, u32, u32, u32),
    Bag(DynamicProperties),
    Sequence(Vec<Value>),
}

/// One named field of a bag.
#[derive(Debug)]
pub struct Field {
    pub name: String,
    pub value: Value,
}

/// A property bag ("component"): a type name and an ordered list of named
/// fields.
#[derive(Debug)]
pub struct DynamicProperties {
    pub type_tag: String,
    pub fields: Vec<Field>,
}

/// The model of a value.
pub open spec fn value_view(value: Value) -> ValueView
    decreases value,
{
    match value {
        Value::Bool(b) => ValueView::Bool(b),
        Value::Integer(i) => ValueView::Integer(i as int),
        Value::Float(x) => ValueView::Float(x),
        Value::Text(s) => ValueView::Text(s@),
        Value::Vector2(x, y) => ValueView::Vector2(x, y),
        Value::Vector3(x, y, z) => ValueView::Vector3(x, y, z),
        Value::Vector4(x, y, z, w) => ValueView::Vector4(x, y, z, w),
        Value::Quaternion(x, y, z, w) => ValueView::Quaternion(x, y, z, w),
        Value::Bag(bag) => ValueView::Bag(bag_view(bag)),
        Value::Sequence(items) => ValueView::Sequence(
            Seq::new(
                items.len() as nat,
                |i: int|
                    if 0 <= i < items.len() {
                        value_view(items[i])
                    } else {
                        ValueView::Bool(false)
                    },
            ),
        ),
    }
}

/// The model of a field.
pub open spec fn field_view(field: Field) -> FieldView
    decreases field,
{
    FieldView { name: field.name@, value: value_view(field.value) }
}

/// The model of a bag.
pub open spec fn bag_view(bag: DynamicProperties) -> BagView
    decreases bag,
{
    BagView {
        type_tag: bag.type_tag@,
        fields: Seq::new(
            bag.fields.len() as nat,
            |i: int|
                if 0 <= i < bag.fields.len() {
                    field_view(bag.fields[i])
                } else {
                    FieldView { name: Seq::empty(), value: ValueView::Bool(false) }
                },
        ),
    }
}

impl View for Value {
    type V = ValueView;

    open spec fn view(&self) -> ValueView {
        value_view(*self)
    }
}

impl View for Field {
    type V = FieldView;

    open spec fn view(&self) -> FieldView {
        field_view(*self)
    }
}

impl View for DynamicProperties {
    type V = BagView;

    open spec fn view(&self) -> BagView {
        bag_view(*self)
    }
}

/// Index of the last field named `name`, if there is one.
pub open spec fn last_field_named(fields: Seq<FieldView>, name: Seq<char>) -> Option<int>
    decreases fields.len(),
{
    if fields.len() == 0 {
        None
    } else if fields.last().name == name {
        Some(fields.len() - 1)
    } else {
        last_field_named(fields.drop_last(), name)
    }
}

/// The value that a list of fields holds under each name: that of the last
/// field of the name.
pub open spec fn field_map(fields: Seq<FieldView>) -> Map<Seq<char>, ValueView> {
    Map::new(
        |name: Seq<char>| last_field_named(fields, name) is Some,
        |name: Seq<char>| fields[last_field_named(fields, name)->Some_0].value,
    )
}

/// The fields of `target` after a patch by `source`: each field whose name
/// occurs in `source` takes the value of the last such field of `source`;
/// every other field stays. Names and order are those of `target`.
pub open spec fn patched_fields(target: Seq<FieldView>, source: Seq<FieldView>) -> Seq<FieldView> {
    Seq::new(
        target.len(),
        |i: int|
            match last_field_named(source, target[i].name) {
                Some(j) => FieldView { name: target[i].name, value: source[j].value },
                None => target[i],
            },
    )
}

/// The bag `target` after a patch by `source`.
pub open spec fn patched(target: BagView, source: BagView) -> BagView {
    BagView { type_tag: target.type_tag, fields: patched_fields(target.fields, source.fields) }
}

pub proof fn lemma_last_field_named(fields: Seq<FieldView>, name: Seq<char>)
    ensures
        match last_field_named(fields, name) {
            Some(j) => 0 <= j < fields.len() && fields[j].name == name && forall|k: int|
                j < k < fields.len() ==> fields[k].name != name,
            None => forall|k: int| 0 <= k < fields.len() ==> fields[k].name != name,
        },
    decreases fields.len(),
{
    if fields.len() > 0 && fields.last().name != name {
        let front = fields.drop_last();
        lemma_last_field_named(front, name);
        assert(forall|k: int| 0 <= k < front.len() ==> front[k] == fields[k]);
    }
}

/// Deep copies of the values of `v`, in order.
pub fn clone_values(v: &Vec<Value>) -> (items: Vec<Value>)
    ensures
        items.len() == v.len(),
        forall|k: int| 0 <= k < v.len() ==> items[k]@ == v[k]@,
    decreases v,
{
    let mut items: Vec<Value> = Vec::new();
    let mut i: usize = 0;
    while i < v.len()
        invariant
            i <= v.len(),
            items.len() == i,
            forall|k: int| 0 <= k < i ==> items[k]@ == v[k]@,
        decreases v.len() - i,
    {
        proof {
            vstd::std_specs::vec::axiom_vec_index_decreases(*v, i as int);
        }
        items.push(v[i].clone_prop());
        i += 1;
    }
    items
}

/// One more field behind the others puts its value under its name.
pub proof fn lemma_field_map_push(fields: Seq<FieldView>, field: FieldView)
    ensures
        field_map(fields.push(field)) == field_map(fields).insert(field.name, field.value),
{
    let longer = fields.push(field);
    assert(longer.drop_last() =~= fields);
    assert forall|name: Seq<char>|
        last_field_named(longer, name) == if name == field.name {
            Some(fields.len() as int)
        } else {
            last_field_named(fields, name)
        } by {}
    assert forall|name: Seq<char>| #[trigger]
        field_map(fields).contains_key(name) && name != field.name implies field_map(
        longer,
    )[name] == field_map(fields)[name] by {
        lemma_last_field_named(fields, name);
    }
    assert(field_map(longer) =~= field_map(fields).insert(field.name, field.value));
}

/// The model of a sequence value holds the models of its items, in order.
pub proof fn lemma_sequence_view(value: Value)
    requires
        value is Sequence,
    ensures
        value@ is Sequence,
        value@->Sequence_0.len() == value->Sequence_0.len(),
        forall|k: int|
            0 <= k < value->Sequence_0.len() ==> #[trigger] value@->Sequence_0[k]
                == value->Sequence_0[k]@,
{
}

/// Whether no two fields of the bag share a name: the bag is a mapping from
/// field name to value. This is what makes a bag valid.
pub open spec fn distinct_names(bag: BagView) -> bool {
    forall|i: int, j: int|
        0 <= i < j < bag.fields.len() ==> bag.fields[i].name != bag.fields[j].name
}

/// A patch of a valid bag gives a valid bag, whatever the source is.
pub proof fn lemma_patch_keeps_distinct_names(target: BagView, source: BagView)
    requires
        distinct_names(target),
    ensures
        distinct_names(patched(target, source)),
{
}

/// A bag whose field names are distinct is left as it is by a patch with
/// itself.
pub proof fn lemma_patch_by_itself(bag: BagView)
    requires
        distinct_names(bag),
    ensures
        patched(bag, bag) == bag,
{
    assert forall|i: int| 0 <= i < bag.fields.len() implies patched_fields(
        bag.fields,
        bag.fields,
    )[i] == bag.fields[i] by {
        lemma_last_field_named(bag.fields, bag.fields[i].name);
    }
    assert(patched_fields(bag.fields, bag.fields) =~= bag.fields);
}

/// A patch works field by field: it keeps the type name, the number of
/// fields and their names; a field whose name no field of the source has
/// keeps its value; any other field takes the value of the last field of
/// the source that has its name.
pub proof fn lemma_patch_field_by_field(target: BagView, source: BagView)
    ensures
        patched(target, source).type_tag == target.type_tag,
        patched(target, source).fields.len() == target.fields.len(),
        forall|i: int|
            0 <= i < target.fields.len() ==> (#[trigger] patched(target, source).fields[i]).name
                == target.fields[i].name,
        forall|i: int|
            0 <= i < target.fields.len() && (forall|j: int|
                0 <= j < source.fields.len() ==> source.fields[j].name != target.fields[i].name)
                ==> #[trigger] patched(target, source).fields[i] == target.fields[i],
        forall|i: int, j: int|
            0 <= i < target.fields.len() && 0 <= j < source.fields.len() && source.fields[j].name
                == target.fields[i].name && (forall|k: int|
                j < k < source.fields.len() ==> source.fields[k].name != target.fields[i].name)
                ==> (#[trigger] patched(target, source).fields[i]).value
                == (#[trigger] source.fields[j]).value,
{
    assert forall|i: int|
        0 <= i < target.fields.len() && (forall|j: int|
            0 <= j < source.fields.len() ==> source.fields[j].name
                != target.fields[i].name) implies #[trigger] patched(target, source).fields[i]
        == target.fields[i] by {
        lemma_last_field_named(source.fields, target.fields[i].name);
    }
    assert forall|i: int, j: int|
        0 <= i < target.fields.len() && 0 <= j < source.fields.len() && source.fields[j].name
            == target.fields[i].name && (forall|k: int|
            j < k < source.fields.len() ==> source.fields[k].name
                != target.fields[i].name) implies (#[trigger] patched(
        target,
        source,
    ).fields[i]).value == (#[trigger] source.fields[j]).value by {
        lemma_last_field_named(source.fields, target.fields[i].name);
    }
}

impl Value {
    /// A deep copy.
    pub fn clone_prop(&self) -> (r: Value)
        ensures
            r@ == self@,
        decreases self,
    {
        match self {
            Value::Bool(b) => Value::Bool(*b),
            Value::Integer(i) => Value::Integer(*i),
            Value::Float(x) => Value::Float(*x),
            Value::Text(s) => Value::Text(s.clone()),
            Value::Vector2(x, y) => Value::Vector2(*x, *y),
            Value::Vector3(x, y, z) => Value::Vector3(*x, *y, *z),
            Value::Vector4(x, y, z, w) => Value::Vector4(*x, *y, *z, *w),
            Value::Quaternion(x, y, z, w) => Value::Quaternion(*x, *y, *z, *w),
            Value::Bag(b) => Value::Bag(b.clone_prop()),
            Value::Sequence(v) => {
                let items = clone_values(v);
                let r = Value::Sequence(items);
                assert(r@->Sequence_0 =~= self@->Sequence_0);
                r
            },
        }
    }
}

impl Field {
    /// A deep copy.
    pub fn clone_prop(&self) -> (r: Field)
        ensures
            r@ == self@,
        decreases self,
    {
        Field { name: self.name.clone(), value: self.value.clone_prop() }
    }
}

impl DynamicProperties {
    /// Whether the bag is valid: no two of its fields share a name.
    pub open spec fn wf(&self) -> bool {
        distinct_names(self@)
    }

    /// Whether the bag is valid.
    pub fn is_valid(&self) -> (r: bool)
        ensures
            r == self.wf(),
    {
        let mut j: usize = 0;
        while j < self.fields.len()
            invariant
                j <= self.fields.len(),
                forall|a: int, b: int| 0 <= a < b < j ==> self@.fields[a].name != self@.fields[b].name,
            decreases self.fields.len() - j,
        {
            let mut i: usize = 0;
            while i < j
                invariant
                    i <= j < self.fields.len(),
                    forall|a: int| 0 <= a < i ==> self@.fields[a].name != self@.fields[j as int].name,
                decreases j - i,
            {
                assert(self@.fields[i as int] == self.fields[i as int]@);
                assert(self@.fields[j as int] == self.fields[j as int]@);
                if self.fields[i].name == self.fields[j].name {
                    return false;
                }
                i += 1;
            }
            j += 1;
        }
        true
    }

    /// A deep copy.
    pub fn clone_prop(&self) -> (r: DynamicProperties)
        ensures
            r@ == self@,
        decreases self,
    {
        let mut fields: Vec<Field> = Vec::new();
        let mut i: usize = 0;
        while i < self.fields.len()
            invariant
                i <= self.fields.len(),
                fields.len() == i,
                forall|k: int| 0 <= k < i ==> fields[k]@ == self.fields[k]@,
            decreases self.fields.len() - i,
        {
            proof {
                vstd::std_specs::vec::axiom_vec_index_decreases(self.fields, i as int);
            }
            fields.push(self.fields[i].clone_prop());
            i += 1;
        }
        let r = DynamicProperties { type_tag: self.type_tag.clone(), fields };
        assert(r@.fields =~= self@.fields);
        r
    }

    /// Position of the last field named `name`.
    pub fn find_field(&self, name: &String) -> (r: Option<usize>)
        ensures
            match r {
                Some(j) => j < self.fields.len() && last_field_named(self@.fields, name@) == Some(
                    j as int,
                ),
                None => last_field_named(self@.fields, name@).is_none(),
            },
    {
        let mut i: usize = self.fields.len();
        assert(self@.fields.take(i as int) =~= self@.fields);
        while i > 0
            invariant
                i <= self.fields.len(),
                last_field_named(self@.fields, name@) == last_field_named(
                    self@.fields.take(i as int),
                    name@,
                ),
            decreases i,
        {
            assert(self@.fields.take(i as int).last() == self.fields[i - 1]@);
            assert(self@.fields.take(i as int).drop_last() =~= self@.fields.take(i - 1));
            if self.fields[i - 1].name == *name {
                return Some(i - 1);
            }
            i -= 1;
        }
        None
    }

    /// Patches this bag with `source`: every field of this bag whose name
    /// occurs in `source` takes a deep copy of the value that the last such
    /// field of `source` holds; the other fields, and the names and order of
    /// all fields, stay. Fields of `source` that this bag lacks are dropped.
    /// Fails, changing nothing, where the two type names differ.
    pub fn apply(&mut self, source: &DynamicProperties) -> (r: Result<(), EditorError>)
        ensures
            old(self).wf() ==> final(self).wf(),
            old(self)@.type_tag == source@.type_tag ==> r == Ok::<(), EditorError>(())
                && final(self)@ == patched(old(self)@, source@),
            old(self)@.type_tag != source@.type_tag ==> r == Err::<(), EditorError>(
                EditorError::TypeMismatch,
            ) && final(self)@ == old(self)@,
    {
        if self.type_tag != source.type_tag {
            return Err(EditorError::TypeMismatch);
        }
        let mut i: usize = 0;
        while i < self.fields.len()
            invariant
                i <= self.fields.len(),
                self.fields.len() == old(self).fields.len(),
                self.type_tag == old(self).type_tag,
                forall|k: int| 0 <= k < i ==> self.fields[k]@ == patched_fields(
                    old(self)@.fields,
                    source@.fields,
                )[k],
                forall|k: int| i <= k < self.fields.len() ==> self.fields[k] == old(self).fields[k],
            decreases self.fields.len() - i,
        {
            assert(old(self)@.fields[i as int] == self.fields[i as int]@);
            match source.find_field(&self.fields[i].name) {
                Some(j) => {
                    assert(source@.fields[j as int] == source.fields[j as int]@);
                    let value = source.fields[j].value.clone_prop();
                    let field = &mut self.fields[i];
                    field.value = value;
                },
                None => {},
            }
            i += 1;
        }
        assert(self@.fields =~= patched_fields(old(self)@.fields, source@.fields));
        Ok(())
    }
}

impl Clone for Value {
    /// A deep copy.
    fn clone(&self) -> (r: Value)
        ensures
            r@ == self@,
    {
        self.clone_prop()
    }
}

impl Clone for Field {
    /// A deep copy.
    fn clone(&self) -> (r: Field)
        ensures
            r@ == self@,
    {
        self.clone_prop()
    }
}

impl Clone for DynamicProperties {
    /// A deep copy.
    fn clone(&self) -> (r: DynamicProperties)
        ensures
            r@ == self@,
    {
        self.clone_prop()
    }
}

/// Whether the values of `a` and of `b` are the same, place by place.
pub fn same_values(a: &Vec<Value>, b: &Vec<Value>) -> (r: bool)
    ensures
        r == (a.len() == b.len() && forall|k: int| 0 <= k < a.len() ==> a[k]@ == b[k]@),
    decreases a,
{
    if a.len() != b.len() {
        return false;
    }
    let mut i: usize = 0;
    while i < a.len()
        invariant
            i <= a.len(),
            a.len() == b.len(),
            forall|k: int| 0 <= k < i ==> a[k]@ == b[k]@,
        decreases a.len() - i,
    {
        proof {
            vstd::std_specs::vec::axiom_vec_index_decreases(*a, i as int);
        }
        if !a[i].same(&b[i]) {
            return false;
        }
        i += 1;
    }
    true
}

/// Whether the fields of `a` and of `b` are the same, place by place.
pub fn same_fields(a: &Vec<Field>, b: &Vec<Field>) -> (r: bool)
    ensures
        r == (a.len() == b.len() && forall|k: int| 0 <= k < a.len() ==> a[k]@ == b[k]@),
    decreases a,
{
    if a.len() != b.len() {
        return false;
    }
    let mut i: usize = 0;
    while i < a.len()
        invariant
            i <= a.len(),
            a.len() == b.len(),
            forall|k: int| 0 <= k < i ==> a[k]@ == b[k]@,
        decreases a.len() - i,
    {
        proof {
            vstd::std_specs::vec::axiom_vec_index_decreases(*a, i as int);
        }
        if !a[i].same(&b[i]) {
            return false;
        }
        i += 1;
    }
    true
}

impl Value {
    /// Whether this value and `other` are of one kind and hold the same.
    pub fn same(&self, other: &Value) -> (r: bool)
        ensures
            r == (self@ == other@),
        decreases self,
    {
        match self {
            Value::Bool(a) => match other {
                Value::Bool(b) => *a == *b,
                _ => false,
            },
            Value::Integer(a) => match other {
                Value::Integer(b) => *a == *b,
                _ => false,
            },
            Value::Float(a) => match other {
                Value::Float(b) => *a == *b,
                _ => false,
            },
            Value::Text(a) => match other {
                Value::Text(b) => *a == *b,
                _ => false,
            },
            Value::Vector2(x, y) => match other {
                Value::Vector2(x2, y2) => *x == *x2 && *y == *y2,
                _ => false,
            },
            Value::Vector3(x, y, z) => match other {
                Value::Vector3(x2, y2, z2) => *x == *x2 && *y == *y2 && *z == *z2,
                _ => false,
            },
            Value::Vector4(x, y, z, w) => match other {
                Value::Vector4(x2, y2, z2, w2) => *x == *x2 && *y == *y2 && *z == *z2 && *w == *w2,
                _ => false,
            },
            Value::Quaternion(x, y, z, w) => match other {
                Value::Quaternion(x2, y2, z2, w2) => *x == *x2 && *y == *y2 && *z == *z2 && *w
                    == *w2,
                _ => false,
            },
            Value::Bag(a) => match other {
                Value::Bag(b) => a.same(b),
                _ => false,
            },
            Value::Sequence(a) => match other {
                Value::Sequence(b) => {
                    let r = same_values(a, b);
                    proof {
                        lemma_sequence_view(*self);
                        lemma_sequence_view(*other);
                        if r {
                            assert(self@->Sequence_0 =~= other@->Sequence_0);
                        } else if a.len() == b.len() {
                            let k = choose|k: int| 0 <= k < a.len() && a[k]@ != b[k]@;
                            assert(self@->Sequence_0[k] != other@->Sequence_0[k]);
                        }
                    }
                    r
                },
                _ => false,
            },
        }
    }
}

impl Field {
    /// Whether this field and `other` have the same name and value.
    pub fn same(&self, other: &Field) -> (r: bool)
        ensures
            r == (self@ == other@),
        decreases self,
    {
        self.name == other.name && self.value.same(&other.value)
    }
}

impl DynamicProperties {
    /// Whether this bag and `other` have the same type name and the same
    /// fields in the same order.
    pub fn same(&self, other: &DynamicProperties) -> (r: bool)
        ensures
            r == (self@ == other@),
        decreases self,
    {
        if self.type_tag != other.type_tag {
            return false;
        }
        let r = same_fields(&self.fields, &other.fields);
        proof {
            if r {
                assert(self@.fields =~= other@.fields);
            } else if self.fields.len() == other.fields.len() {
                let k = choose|k: int|
                    0 <= k < self.fields.len() && self.fields[k]@ != other.fields[k]@;
                assert(self@.fields[k] != other@.fields[k]);
            } else {
                assert(self@.fields.len() != other@.fields.len());
            }
        }
        r
    }
}

} // verus!
