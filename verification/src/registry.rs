//! The type registry: which type names are known, and the default bag that
//! each of them constructs.

use vstd::prelude::*;
use crate::error::EditorError;
use crate::property::{BagView, DynamicProperties};

verus! {

/// What the registry holds for one type name.
#[derive(Debug)]
pub struct Registration {
    pub type_tag: String,
    pub default_value: DynamicProperties,
}

/// The registrations in the order they were made. A later registration of a
/// name replaces an earlier one. Every default bag is of the type that it is
/// registered for.
#[derive(Debug)]
pub struct ComponentRegistry {
    registrations: Vec<Registration>,
}

/// Whether each registration holds a default bag of its own type.
pub open spec fn defaults_of_their_type(regs: Seq<Registration>) -> bool {
    forall|i: int| 0 <= i < regs.len() ==> (#[trigger] regs[i]).default_value@.type_tag == regs[i].type_tag@
}

/// Registrations that hold default bags of their own type stand for a map
/// in which the bag under each name is of the type of that name.
pub proof fn lemma_registered_types(regs: Seq<Registration>)
    requires
        defaults_of_their_type(regs),
    ensures
        forall|name: Seq<char>|
            (#[trigger] registered(regs).contains_key(name)) ==> registered(regs)[name].type_tag
                == name,
    decreases regs.len(),
{
    if regs.len() > 0 {
        let front = regs.drop_last();
        assert forall|i: int| 0 <= i < front.len() implies (#[trigger] front[i]).default_value@.type_tag
            == front[i].type_tag@ by {
            assert(front[i] == regs[i]);
        }
        lemma_registered_types(front);
        assert(regs.last() == regs[regs.len() - 1]);
        assert(regs[regs.len() - 1].default_value@.type_tag == regs[regs.len() - 1].type_tag@);
        assert forall|name: Seq<char>| #[trigger]
            registered(regs).contains_key(name) implies registered(regs)[name].type_tag
            == name by {
            if name != regs.last().type_tag@ {
                assert(registered(front).contains_key(name));
            }
        }
    }
}

/// The map from type name to default bag that a list of registrations
/// stands for.
pub open spec fn registered(regs: Seq<Registration>) -> Map<Seq<char>, BagView>
    decreases regs.len(),
{
    if regs.len() == 0 {
        Map::empty()
    } else {
        registered(regs.drop_last()).insert(regs.last().type_tag@, regs.last().default_value@)
    }
}

impl View for ComponentRegistry {
    type V = Map<Seq<char>, BagView>;

    closed spec fn view(&self) -> Map<Seq<char>, BagView> {
        registered(self.registrations@)
    }
}

impl ComponentRegistry {
    /// Whether every default bag is of the type that it is registered for.
    /// It holds of a new registry and `register` keeps it.
    pub closed spec fn wf(&self) -> bool {
        defaults_of_their_type(self.registrations@)
    }

    /// In a well-formed registry the default bag under each name is of the
    /// type of that name.
    pub proof fn lemma_defaults_are_of_their_type(&self)
        requires
            self.wf(),
        ensures
            forall|name: Seq<char>|
                (#[trigger] self@.contains_key(name)) ==> self@[name].type_tag == name,
    {
        lemma_registered_types(self.registrations@);
    }

    /// A registry that knows no type.
    pub fn new() -> (r: ComponentRegistry)
        ensures
            r.wf(),
            r@ == Map::<Seq<char>, BagView>::empty(),
    {
        ComponentRegistry { registrations: Vec::new() }
    }

    /// Registers `type_tag` with the bag that a default value of the type
    /// has, in place of what the name was registered with before. Fails with
    /// `TypeMismatch`, changing nothing, exactly where the bag is not of the
    /// type `type_tag`.
    pub fn register(&mut self, type_tag: String, default_value: DynamicProperties) -> (r: Result<
        (),
        EditorError,
    >)
        ensures
            old(self).wf() ==> final(self).wf(),
            default_value@.type_tag == type_tag@ ==> r == Ok::<(), EditorError>(()) && final(self)@
                == old(self)@.insert(type_tag@, default_value@),
            default_value@.type_tag != type_tag@ ==> r == Err::<(), EditorError>(
                EditorError::TypeMismatch,
            ) && final(self)@ == old(self)@,
    {
        if default_value.type_tag != type_tag {
            return Err(EditorError::TypeMismatch);
        }
        self.registrations.push(Registration { type_tag, default_value });
        assert(self.registrations@.drop_last() =~= old(self).registrations@);
        Ok(())
    }

    /// The registration of `name`, whose default bag is of the type `name`
    /// in a well-formed registry;
    /// `UnregisteredType` exactly where the name is not registered.
    pub fn get_with_name(&self, name: &str) -> (r: Result<&Registration, EditorError>)
        ensures
            match r {
                Ok(reg) => self@.contains_key(name@) && reg.type_tag@ == name@
                    && reg.default_value@ == self@[name@] && (self.wf()
                    ==> reg.default_value@.type_tag == name@),
                Err(e) => e == EditorError::UnregisteredType && !self@.contains_key(name@),
            },
    {
        let key = name.to_owned();
        let mut i: usize = self.registrations.len();
        assert(self.registrations@.take(i as int) =~= self.registrations@);
        while i > 0
            invariant
                i <= self.registrations.len(),
                key@ == name@,
                self@.contains_key(name@) == registered(
                    self.registrations@.take(i as int),
                ).contains_key(name@),
                self@.contains_key(name@) ==> self@[name@] == registered(
                    self.registrations@.take(i as int),
                )[name@],
            decreases i,
        {
            assert(self.registrations@.take(i as int).drop_last() =~= self.registrations@.take(
                i - 1,
            ));
            if self.registrations[i - 1].type_tag == key {
                return Ok(&self.registrations[i - 1]);
            }
            i -= 1;
        }
        Err(EditorError::UnregisteredType)
    }

    /// Whether `name` is registered.
    pub fn contains(&self, name: &str) -> (r: bool)
        ensures
            r == self@.contains_key(name@),
    {
        self.get_with_name(name).is_ok()
    }
}

} // verus!
