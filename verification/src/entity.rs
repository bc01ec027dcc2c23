//! Property stores: the ordered bags that one entity owns, with at most one
//! bag per type, and the patch that an insert of a second bag of a type makes.

use vstd::prelude::*;
use crate::error::EditorError;
use crate::property::{patched, BagView, DynamicProperties, Value, ValueView};
use crate::registry::ComponentRegistry;
use crate::util::reversed;

verus! {

/// The models of the bags of `v`, in order.
pub open spec fn bags_view(v: Seq<DynamicProperties>) -> Seq<BagView> {
    Seq::new(v.len(), |i: int| v[i]@)
}

/// Deep copies of the bags of `v`, in order.
pub fn clone_bags(v: &Vec<DynamicProperties>) -> (r: Vec<DynamicProperties>)
    ensures
        bags_view(r@) == bags_view(v@),
{
    let mut bags: Vec<DynamicProperties> = Vec::new();
    let mut i: usize = 0;
    while i < v.len()
        invariant
            i <= v.len(),
            bags.len() == i,
            forall|k: int| 0 <= k < i ==> bags[k]@ == v[k]@,
        decreases v.len() - i,
    {
        bags.push(v[i].clone_prop());
        i += 1;
    }
    assert(bags_view(bags@) =~= bags_view(v@));
    bags
}

/// Whether the bags of `a` and of `b` are the same, place by place.
pub fn same_bags(a: &Vec<DynamicProperties>, b: &Vec<DynamicProperties>) -> (r: bool)
    ensures
        r == (bags_view(a@) == bags_view(b@)),
{
    if a.len() != b.len() {
        assert(bags_view(a@).len() != bags_view(b@).len());
        return false;
    }
    let mut i: usize = 0;
    while i < a.len()
        invariant
            i <= a.len(),
            a.len() == b.len(),
            forall|k: int| 0 <= k < i ==> a[k]@ == b[k]@,
        decreases a.len() - i,
    {
        if !a[i].same(&b[i]) {
            assert(bags_view(a@)[i as int] != bags_view(b@)[i as int]);
            return false;
        }
        i += 1;
    }
    assert(bags_view(a@) =~= bags_view(b@));
    true
}

/// Index of the first bag of type `tag` at or after `start`.
pub open spec fn first_of_type_from(bags: Seq<BagView>, tag: Seq<char>, start: int) -> Option<int>
    decreases bags.len() - start,
{
    if start < 0 || start >= bags.len() {
        None
    } else if bags[start].type_tag == tag {
        Some(start)
    } else {
        first_of_type_from(bags, tag, start + 1)
    }
}

/// Index of the first bag of type `tag`.
pub open spec fn first_of_type(bags: Seq<BagView>, tag: Seq<char>) -> Option<int> {
    first_of_type_from(bags, tag, 0)
}

/// Whether the types of the first `upto` bags are all registered.
pub open spec fn all_registered(
    bags: Seq<BagView>,
    upto: int,
    registry: Map<Seq<char>, BagView>,
) -> bool {
    forall|k: int| 0 <= k < upto && k < bags.len() ==> registry.contains_key(#[trigger] bags[k].type_tag)
}

/// What adding `component` to `bags` gives. Where the store holds a bag of
/// the component's type, the first such bag is patched and the component is
/// dropped; else the component is appended. The add fails where the
/// component's type, or the type of a bag that the search passes, is not
/// registered.
pub open spec fn added(
    bags: Seq<BagView>,
    component: BagView,
    registry: Map<Seq<char>, BagView>,
) -> Result<Seq<BagView>, EditorError> {
    if !registry.contains_key(component.type_tag) {
        Err(EditorError::UnregisteredType)
    } else {
        match first_of_type(bags, component.type_tag) {
            Some(i) => if all_registered(bags, i, registry) {
                Ok(bags.update(i, patched(bags[i], component)))
            } else {
                Err(EditorError::UnregisteredType)
            },
            None => if all_registered(bags, bags.len() as int, registry) {
                Ok(bags.push(component))
            } else {
                Err(EditorError::UnregisteredType)
            },
        }
    }
}

/// What adding the bags of `others` one after the other gives: the store
/// after the adds that succeeded, and the failure that stopped them, if any.
pub open spec fn added_all(
    bags: Seq<BagView>,
    others: Seq<BagView>,
    registry: Map<Seq<char>, BagView>,
) -> (Seq<BagView>, Result<(), EditorError>)
    decreases others.len(),
{
    if others.len() == 0 {
        (bags, Ok(()))
    } else {
        match added(bags, others[0], registry) {
            Ok(after) => added_all(after, others.drop_first(), registry),
            Err(e) => (bags, Err(e)),
        }
    }
}

pub proof fn lemma_first_of_type_from(bags: Seq<BagView>, tag: Seq<char>, start: int)
    requires
        0 <= start,
    ensures
        match first_of_type_from(bags, tag, start) {
            Some(i) => start <= i < bags.len() && bags[i].type_tag == tag && forall|k: int|
                start <= k < i ==> bags[k].type_tag != tag,
            None => forall|k: int| start <= k < bags.len() ==> bags[k].type_tag != tag,
        },
    decreases bags.len() - start,
{
    if start < bags.len() && bags[start].type_tag != tag {
        lemma_first_of_type_from(bags, tag, start + 1);
    }
}

/// Whether at most one of the bags has type `tag`.
pub open spec fn at_most_one_of_type(bags: Seq<BagView>, tag: Seq<char>) -> bool {
    forall|i: int, j: int|
        0 <= i < bags.len() && 0 <= j < bags.len() && bags[i].type_tag == tag && bags[j].type_tag
            == tag ==> i == j
}

/// Whether exactly one of the bags has type `tag`.
pub open spec fn exactly_one_of_type(bags: Seq<BagView>, tag: Seq<char>) -> bool {
    &&& exists|i: int| 0 <= i < bags.len() && bags[i].type_tag == tag
    &&& at_most_one_of_type(bags, tag)
}

/// Whether no two of the bags have the same type.
pub open spec fn one_bag_per_type(bags: Seq<BagView>) -> bool {
    forall|i: int, j: int| 0 <= i < j < bags.len() ==> bags[i].type_tag != bags[j].type_tag
}

/// An add that succeeds leaves exactly one bag of the added type in a store
/// that held at most one, and keeps the type names, in their order, of the
/// bags that were there.
pub proof fn lemma_add_one_of_type(
    bags: Seq<BagView>,
    component: BagView,
    registry: Map<Seq<char>, BagView>,
)
    requires
        at_most_one_of_type(bags, component.type_tag),
        added(bags, component, registry) is Ok,
    ensures
        exactly_one_of_type(added(bags, component, registry)->Ok_0, component.type_tag),
        added(bags, component, registry)->Ok_0.len() >= bags.len(),
        forall|k: int|
            0 <= k < bags.len() ==> (#[trigger] added(
                bags,
                component,
                registry,
            )->Ok_0[k]).type_tag == bags[k].type_tag,
{
    let after = added(bags, component, registry)->Ok_0;
    lemma_first_of_type_from(bags, component.type_tag, 0);
    match first_of_type(bags, component.type_tag) {
        Some(i) => {
            assert(after[i].type_tag == component.type_tag);
        },
        None => {
            assert(after[bags.len() as int].type_tag == component.type_tag);
        },
    }
}

/// An add that succeeds keeps a store free of two bags of one type.
pub proof fn lemma_add_keeps_one_per_type(
    bags: Seq<BagView>,
    component: BagView,
    registry: Map<Seq<char>, BagView>,
)
    requires
        one_bag_per_type(bags),
        added(bags, component, registry) is Ok,
    ensures
        one_bag_per_type(added(bags, component, registry)->Ok_0),
{
    lemma_first_of_type_from(bags, component.type_tag, 0);
}

/// Adding one or more bags of one type to a store that holds at most one bag
/// of that type leaves exactly one bag of that type.
pub proof fn lemma_add_all_of_one_type(
    bags: Seq<BagView>,
    others: Seq<BagView>,
    tag: Seq<char>,
    registry: Map<Seq<char>, BagView>,
)
    requires
        at_most_one_of_type(bags, tag),
        others.len() >= 1,
        forall|k: int| 0 <= k < others.len() ==> others[k].type_tag == tag,
        added_all(bags, others, registry).1 is Ok,
    ensures
        exactly_one_of_type(added_all(bags, others, registry).0, tag),
    decreases others.len(),
{
    lemma_add_one_of_type(bags, others[0], registry);
    let after = added(bags, others[0], registry)->Ok_0;
    if others.len() > 1 {
        lemma_add_all_of_one_type(after, others.drop_first(), tag, registry);
    }
}

/// Adding a bag with distinct field names to an empty store, and then adding
/// it again, leaves the store holding that bag alone.
pub proof fn lemma_add_twice(bag: BagView, registry: Map<Seq<char>, BagView>)
    requires
        crate::property::distinct_names(bag),
        registry.contains_key(bag.type_tag),
    ensures
        added_all(Seq::empty(), seq![bag, bag], registry) == (seq![bag], Ok::<(), EditorError>(())),
{
    let empty = Seq::<BagView>::empty();
    let twice = seq![bag, bag];
    let once = seq![bag];
    assert(added(empty, bag, registry) == Ok::<Seq<BagView>, EditorError>(once)) by {
        assert(empty.push(bag) =~= once);
    }
    assert(added(once, bag, registry) == Ok::<Seq<BagView>, EditorError>(once)) by {
        crate::property::lemma_patch_by_itself(bag);
        assert(once.update(0, bag) =~= once);
    }
    assert(twice.drop_first() =~= once);
    assert(once.drop_first() =~= empty);
    assert(added_all(once, empty, registry) == (once, Ok::<(), EditorError>(())));
    assert(added_all(once, once, registry) == added_all(once, empty, registry));
    assert(added_all(empty, twice, registry) == added_all(once, once, registry));
}

/// Whether every one of the bags is valid: no two of its fields share a
/// name.
pub open spec fn bags_valid(bags: Seq<BagView>) -> bool {
    forall|i: int| 0 <= i < bags.len() ==> crate::property::distinct_names(#[trigger] bags[i])
}

/// An add of a valid bag to valid bags leaves valid bags.
pub proof fn lemma_add_keeps_valid(
    bags: Seq<BagView>,
    component: BagView,
    registry: Map<Seq<char>, BagView>,
)
    requires
        bags_valid(bags),
        crate::property::distinct_names(component),
    ensures
        added(bags, component, registry) is Ok ==> bags_valid(
            added(bags, component, registry)->Ok_0,
        ),
{
    if added(bags, component, registry) is Ok {
        lemma_first_of_type_from(bags, component.type_tag, 0);
        match first_of_type(bags, component.type_tag) {
            Some(i) => {
                crate::property::lemma_patch_keeps_distinct_names(bags[i], component);
            },
            None => {},
        }
    }
}

/// Adds of valid bags to valid bags leave valid bags, also where one of
/// them fails.
pub proof fn lemma_add_all_keeps_valid(
    bags: Seq<BagView>,
    others: Seq<BagView>,
    registry: Map<Seq<char>, BagView>,
)
    requires
        bags_valid(bags),
        bags_valid(others),
    ensures
        bags_valid(added_all(bags, others, registry).0),
    decreases others.len(),
{
    if others.len() > 0 {
        lemma_add_keeps_valid(bags, others[0], registry);
        if added(bags, others[0], registry) is Ok {
            let rest = others.drop_first();
            assert forall|i: int| 0 <= i < rest.len() implies crate::property::distinct_names(
                #[trigger] rest[i],
            ) by {
                assert(rest[i] == others[i + 1]);
            }
            lemma_add_all_keeps_valid(added(bags, others[0], registry)->Ok_0, rest, registry);
        }
    }
}

/// Whether `bags` is a store as adds make it: no two bags of one type, and
/// every type registered.
pub open spec fn is_store(bags: Seq<BagView>, registry: Map<Seq<char>, BagView>) -> bool {
    one_bag_per_type(bags) && all_registered(bags, bags.len() as int, registry)
}

/// An add that succeeds turns a store into a store.
pub proof fn lemma_add_keeps_store(
    bags: Seq<BagView>,
    component: BagView,
    registry: Map<Seq<char>, BagView>,
)
    requires
        is_store(bags, registry),
        added(bags, component, registry) is Ok,
    ensures
        is_store(added(bags, component, registry)->Ok_0, registry),
{
    let after = added(bags, component, registry)->Ok_0;
    lemma_add_keeps_one_per_type(bags, component, registry);
    lemma_first_of_type_from(bags, component.type_tag, 0);
    assert forall|k: int| 0 <= k < after.len() implies registry.contains_key(
        #[trigger] after[k].type_tag,
    ) by {
        if k < bags.len() {
            assert(registry.contains_key(bags[k].type_tag));
        }
    }
}

/// Adds that all succeed turn a store into a store.
pub proof fn lemma_add_all_keeps_store(
    bags: Seq<BagView>,
    others: Seq<BagView>,
    registry: Map<Seq<char>, BagView>,
)
    requires
        is_store(bags, registry),
    ensures
        is_store(added_all(bags, others, registry).0, registry),
    decreases others.len(),
{
    if others.len() > 0 && added(bags, others[0], registry) is Ok {
        lemma_add_keeps_store(bags, others[0], registry);
        lemma_add_all_keeps_store(
            added(bags, others[0], registry)->Ok_0,
            others.drop_first(),
            registry,
        );
    }
}

/// Adding, one after the other, bags of different registered types to a
/// store that holds none of these types appends them as they are.
pub proof fn lemma_add_all_appends(
    bags: Seq<BagView>,
    others: Seq<BagView>,
    registry: Map<Seq<char>, BagView>,
)
    requires
        is_store(bags + others, registry),
    ensures
        added_all(bags, others, registry) == (bags + others, Ok::<(), EditorError>(())),
    decreases others.len(),
{
    let all = bags + others;
    if others.len() == 0 {
        assert(all =~= bags);
    } else {
        let first = others[0];
        assert(all[bags.len() as int] == first);
        assert forall|k: int| 0 <= k < bags.len() implies bags[k].type_tag != first.type_tag by {
            assert(all[k] == bags[k]);
        }
        lemma_first_of_type_from(bags, first.type_tag, 0);
        assert(first_of_type(bags, first.type_tag) is None);
        assert forall|k: int| 0 <= k < bags.len() implies registry.contains_key(
            #[trigger] bags[k].type_tag,
        ) by {
            assert(all[k] == bags[k]);
        }
        assert(registry.contains_key(all[bags.len() as int].type_tag));
        assert(added(bags, first, registry) == Ok::<Seq<BagView>, EditorError>(bags.push(first)));
        assert(bags.push(first) + others.drop_first() =~= all);
        lemma_add_all_appends(bags.push(first), others.drop_first(), registry);
    }
}

/// Adding to a list of bags under the one-bag-per-type rule.
pub trait ComponentsExt {
    /// The bags held, in order.
    spec fn bags(&self) -> Seq<BagView>;

    /// Adds `component`: patches the first bag of its type, or appends it
    /// where there is none. On failure nothing changes.
    fn add(&mut self, component: DynamicProperties, registry: &ComponentRegistry) -> (r: Result<
        (),
        EditorError,
    >)
        ensures
            match added(old(self).bags(), component@, registry@) {
                Ok(after) => r == Ok::<(), EditorError>(()) && final(self).bags() == after,
                Err(e) => r == Err::<(), EditorError>(e) && final(self).bags() == old(self).bags(),
            },
            bags_valid(old(self).bags()) && component.wf() ==> bags_valid(final(self).bags()),
    ;

    /// Adds the bags of `other` in order, each as `add` does, and stops at
    /// the first that fails.
    fn add_bundle(&mut self, other: Vec<DynamicProperties>, registry: &ComponentRegistry) -> (r:
        Result<(), EditorError>)
        ensures
            (final(self).bags(), r) == added_all(old(self).bags(), bags_view(other@), registry@),
            bags_valid(old(self).bags()) && bags_valid(bags_view(other@)) ==> bags_valid(
                final(self).bags(),
            ),
    ;
}

impl ComponentsExt for Vec<DynamicProperties> {
    open spec fn bags(&self) -> Seq<BagView> {
        bags_view(self@)
    }

    fn add(&mut self, component: DynamicProperties, registry: &ComponentRegistry) -> (r: Result<
        (),
        EditorError,
    >) {
        proof {
            if bags_valid(self.bags()) && component.wf() {
                lemma_add_keeps_valid(self.bags(), component@, registry@);
            }
        }
        if !registry.contains(component.type_tag.as_str()) {
            return Err(EditorError::UnregisteredType);
        }
        let ghost bags = bags_view(self@);
        let mut i: usize = 0;
        while i < self.len()
            invariant
                i <= self.len(),
                *self == *old(self),
                bags == bags_view(self@),
                registry@.contains_key(component@.type_tag),
                first_of_type(bags, component@.type_tag) == first_of_type_from(
                    bags,
                    component@.type_tag,
                    i as int,
                ),
                all_registered(bags, i as int, registry@),
            decreases self.len() - i,
        {
            assert(bags[i as int] == self[i as int]@);
            if !registry.contains(self[i].type_tag.as_str()) {
                proof {
                    lemma_first_of_type_from(bags, component@.type_tag, i as int);
                }
                return Err(EditorError::UnregisteredType);
            }
            if self[i].type_tag == component.type_tag {
                // The type names are equal, so the patch is applied.
                let bag = &mut self[i];
                let patch = bag.apply(&component);
                assert(bags_view(self@) =~= bags.update(
                    i as int,
                    patched(bags[i as int], component@),
                ));
                return patch;
            }
            i += 1;
        }
        self.push(component);
        assert(bags_view(self@) =~= bags.push(component@));
        Ok(())
    }

    fn add_bundle(&mut self, other: Vec<DynamicProperties>, registry: &ComponentRegistry) -> (r:
        Result<(), EditorError>) {
        let ghost others = bags_view(other@);
        proof {
            if bags_valid(self.bags()) && bags_valid(others) {
                lemma_add_all_keeps_valid(self.bags(), others, registry@);
            }
        }
        let n = other.len();
        let mut rest = reversed(other);
        let mut i: usize = 0;
        assert(others.skip(0) =~= others);
        while rest.len() > 0
            invariant
                others == bags_view(other@),
                bags_valid(old(self).bags()) && bags_valid(others) ==> bags_valid(
                    added_all(old(self).bags(), others, registry@).0,
                ),
                others.len() == n,
                i + rest.len() == n,
                forall|k: int| 0 <= k < rest.len() ==> rest[k]@ == others[n - 1 - k],
                added_all(old(self).bags(), others, registry@) == added_all(
                    self.bags(),
                    others.skip(i as int),
                    registry@,
                ),
            decreases rest.len(),
        {
            let bag = rest.pop().unwrap();
            assert(bag@ == others.skip(i as int)[0]);
            assert(others.skip(i as int).drop_first() =~= others.skip(i + 1));
            let ghost before = self.bags();
            assert(added_all(before, others.skip(i as int), registry@) == match added(
                before,
                bag@,
                registry@,
            ) {
                Ok(after) => added_all(after, others.skip(i + 1), registry@),
                Err(e) => (before, Err::<(), EditorError>(e)),
            });
            match self.add(bag, registry) {
                Ok(()) => {},
                Err(e) => {
                    return Err(e);
                },
            }
            i += 1;
        }
        Ok(())
    }
}

/// An ordered set of bags: the property store of one entity, or a template
/// that entities are made from.
#[derive(Debug)]
pub struct EditorBundle {
    components: Vec<DynamicProperties>,
}

/// The sequence value that stands for a list of bags: one bag value for
/// each, in order.
pub open spec fn bundle_value(bags: Seq<BagView>) -> ValueView {
    ValueView::Sequence(Seq::new(bags.len(), |i: int| ValueView::Bag(bags[i])))
}

/// Whether `value` is a sequence of bag values.
pub open spec fn is_bundle_value(value: ValueView) -> bool {
    value matches ValueView::Sequence(items) && forall|i: int|
        0 <= i < items.len() ==> #[trigger] items[i] is Bag
}

/// The bags that a sequence of bag values holds, in order.
pub open spec fn bundle_of_value(value: ValueView) -> Seq<BagView>
    recommends
        is_bundle_value(value),
{
    Seq::new(value->Sequence_0.len(), |i: int| value->Sequence_0[i]->Bag_0)
}

/// A list of bags is what the value that stands for it holds.
pub proof fn lemma_bundle_value_round_trip(bags: Seq<BagView>)
    ensures
        is_bundle_value(bundle_value(bags)),
        bundle_of_value(bundle_value(bags)) == bags,
{
    assert(bundle_of_value(bundle_value(bags)) =~= bags);
}

impl View for EditorBundle {
    type V = Seq<BagView>;

    closed spec fn view(&self) -> Seq<BagView> {
        bags_view(self.components@)
    }
}

impl Clone for EditorBundle {
    /// A deep copy.
    fn clone(&self) -> (r: EditorBundle)
        ensures
            r@ == self@,
    {
        let components = clone_bags(&self.components);
        EditorBundle { components }
    }
}

impl Default for EditorBundle {
    fn default() -> (r: EditorBundle)
        ensures
            r@ == Seq::<BagView>::empty(),
    {
        EditorBundle::new()
    }
}

impl EditorBundle {
    /// A bundle without bags.
    pub fn new() -> (r: EditorBundle)
        ensures
            r@ == Seq::<BagView>::empty(),
    {
        let r = EditorBundle { components: Vec::new() };
        assert(r@ =~= Seq::<BagView>::empty());
        r
    }

    /// The bundle that holds `components` as they are.
    pub fn from_components(components: Vec<DynamicProperties>) -> (r: EditorBundle)
        ensures
            r@ == bags_view(components@),
    {
        EditorBundle { components }
    }

    /// Adds `component`: patches the first bag of its type, or appends it
    /// where there is none. On failure nothing changes.
    pub fn add(&mut self, component: DynamicProperties, registry: &ComponentRegistry) -> (r:
        Result<(), EditorError>)
        ensures
            match added(old(self)@, component@, registry@) {
                Ok(after) => r == Ok::<(), EditorError>(()) && final(self)@ == after,
                Err(e) => r == Err::<(), EditorError>(e) && final(self)@ == old(self)@,
            },
            bags_valid(old(self)@) && component.wf() ==> bags_valid(final(self)@),
    {
        self.components.add(component, registry)
    }

    /// Adds the bags of `other` in order, each as `add` does, and stops at
    /// the first that fails.
    pub fn add_bundle(&mut self, other: Vec<DynamicProperties>, registry: &ComponentRegistry) -> (r:
        Result<(), EditorError>)
        ensures
            (final(self)@, r) == added_all(old(self)@, bags_view(other@), registry@),
            bags_valid(old(self)@) && bags_valid(bags_view(other@)) ==> bags_valid(final(self)@),
    {
        self.components.add_bundle(other, registry)
    }

    /// Whether this bundle and `other` hold the same bags in the same
    /// order.
    pub fn same(&self, other: &EditorBundle) -> (r: bool)
        ensures
            r == (self@ == other@),
    {
        same_bags(&self.components, &other.components)
    }

    /// The bags, in order.
    pub fn into_inner(self) -> (r: Vec<DynamicProperties>)
        ensures
            bags_view(r@) == self@,
    {
        self.components
    }

    /// The number of bags.
    pub fn len(&self) -> (r: usize)
        ensures
            r == self@.len(),
    {
        self.components.len()
    }

    /// The bag at position `i`.
    pub fn component(&self, i: usize) -> (r: &DynamicProperties)
        requires
            i < self@.len(),
        ensures
            r@ == self@[i as int],
    {
        &self.components[i]
    }

    /// The first bag of type `name`, if the bundle holds one.
    pub fn get(&self, name: &str) -> (r: Option<&DynamicProperties>)
        ensures
            match r {
                Some(bag) => first_of_type(self@, name@) is Some && bag@ == self@[first_of_type(
                    self@,
                    name@,
                )->Some_0],
                None => first_of_type(self@, name@) is None,
            },
    {
        let key = name.to_owned();
        let mut i: usize = 0;
        while i < self.components.len()
            invariant
                i <= self.components.len(),
                key@ == name@,
                first_of_type(self@, name@) == first_of_type_from(self@, name@, i as int),
            decreases self.components.len() - i,
        {
            assert(self@[i as int] == self.components[i as int]@);
            if self.components[i].type_tag == key {
                return Some(&self.components[i]);
            }
            i += 1;
        }
        None
    }

    /// The sequence value that stands for this bundle: a deep copy of each
    /// bag, in order.
    pub fn to_dynamic(&self) -> (r: Value)
        ensures
            r@ == bundle_value(self@),
    {
        bags_to_dynamic(&self.components)
    }

    /// The bundle that `dynamic` stands for: a deep copy of each of its
    /// bags, in order. Fails with `SerializationFailure` exactly where
    /// `dynamic` is not a sequence of bags.
    pub fn from_dynamic(dynamic: &Value) -> (r: Result<EditorBundle, EditorError>)
        ensures
            match r {
                Ok(bundle) => is_bundle_value(dynamic@) && bundle@ == bundle_of_value(dynamic@),
                Err(e) => e == EditorError::SerializationFailure && !is_bundle_value(dynamic@),
            },
    {
        match bags_from_dynamic(dynamic) {
            Ok(components) => Ok(EditorBundle { components }),
            Err(e) => Err(e),
        }
    }
}

/// The sequence value that stands for the bags of `bags`: a deep copy of
/// each bag, in order.
pub fn bags_to_dynamic(bags: &Vec<DynamicProperties>) -> (r: Value)
    ensures
        r@ == bundle_value(bags_view(bags@)),
{
    let mut items: Vec<Value> = Vec::new();
    let mut i: usize = 0;
    while i < bags.len()
        invariant
            i <= bags.len(),
            items.len() == i,
            forall|k: int| 0 <= k < i ==> items[k]@ == ValueView::Bag(bags[k]@),
        decreases bags.len() - i,
    {
        items.push(Value::Bag(bags[i].clone_prop()));
        i += 1;
    }
    let r = Value::Sequence(items);
    proof {
        crate::property::lemma_sequence_view(r);
        assert(r@->Sequence_0 =~= bundle_value(bags_view(bags@))->Sequence_0);
    }
    r
}

/// The bags that `dynamic` stands for: a deep copy of each of its bags, in
/// order. Fails with `SerializationFailure` exactly where `dynamic` is not a
/// sequence of bags.
pub fn bags_from_dynamic(dynamic: &Value) -> (r: Result<Vec<DynamicProperties>, EditorError>)
    ensures
        match r {
            Ok(bags) => is_bundle_value(dynamic@) && bags_view(bags@) == bundle_of_value(dynamic@),
            Err(e) => e == EditorError::SerializationFailure && !is_bundle_value(dynamic@),
        },
{
    match dynamic {
        Value::Sequence(items) => {
            let mut components: Vec<DynamicProperties> = Vec::new();
            let mut i: usize = 0;
            while i < items.len()
                invariant
                    i <= items.len(),
                    components.len() == i,
                    *dynamic == Value::Sequence(*items),
                    forall|k: int| 0 <= k < i ==> #[trigger] items[k]@ is Bag,
                    forall|k: int| 0 <= k < i ==> items[k]@->Bag_0 == #[trigger] components[k]@,
                decreases items.len() - i,
            {
                proof {
                    crate::property::lemma_sequence_view(*dynamic);
                }
                match &items[i] {
                    Value::Bag(bag) => {
                        components.push(bag.clone_prop());
                    },
                    _ => {
                        assert(!(dynamic@->Sequence_0[i as int] is Bag));
                        return Err(EditorError::SerializationFailure);
                    },
                }
                i += 1;
            }
            proof {
                crate::property::lemma_sequence_view(*dynamic);
                assert(is_bundle_value(dynamic@));
                assert(bags_view(components@) =~= bundle_of_value(dynamic@));
            }
            Ok(components)
        },
        _ => Err(EditorError::SerializationFailure),
    }
}

} // verus!
