use std::any::Any;
use std::any::TypeId;
use std::collections::HashMap;
use std::collections::hash_map::Entry;
use vstd::prelude::*;
use vstd::std_specs::hash::obeys_key_model;
use crate::ecs::error::EcsError;

verus! {

broadcast use vstd::std_specs::hash::group_hash_axioms;

/// All components must implement this trait.
pub trait ComponentTrait: Sized + 'static {}

#[verifier::external_type_specification]
#[verifier::external_body]
pub struct ExTypeId(TypeId);

/// A component whose concrete type has been erased.
#[verifier::external_body]
pub struct ErasedComponent {
    inner: Box<dyn Any>,
}

/// Calls `TypeId::of::<C>()`: the identifier of the component type. Nothing is stated: Verus
/// cannot speak of the identity of a type.
#[verifier::external_body]
fn type_key<C: ComponentTrait>() -> TypeId {
    TypeId::of::<C>()
}

/// Calls `Box::new` to erase the type of a component.
#[verifier::external_body]
fn erase<C: ComponentTrait>(component: C) -> ErasedComponent {
    ErasedComponent { inner: Box::new(component) }
}

/// Calls `Box::<dyn Any>::downcast`; `None` where the component is not of type `C`.
#[verifier::external_body]
fn unerase<C: ComponentTrait>(component: ErasedComponent) -> Option<C> {
    match component.inner.downcast::<C>() {
        Ok(b) => Some(*b),
        Err(_) => None,
    }
}

/// Calls `<dyn Any>::downcast_ref`; `None` where the component is not of type `C`.
#[verifier::external_body]
fn unerase_ref<C: ComponentTrait>(component: &ErasedComponent) -> Option<&C> {
    component.inner.downcast_ref::<C>()
}

/// Calls `<dyn Any>::downcast_mut`; `None` where the component is not of type `C`.
#[verifier::external_body]
fn unerase_mut<C: ComponentTrait>(component: &mut ErasedComponent) -> Option<&mut C> {
    component.inner.downcast_mut::<C>()
}

/// Groups multiple components of different types together: at most one component per type.
pub struct ComponentGroup {
    components: HashMap<TypeId, ErasedComponent>,
}

impl ComponentGroup {
    /// Creates a new, empty group.
    pub fn new() -> (g: Self)
        ensures
            g.spec_len() == 0,
            g.component_types() == Set::<TypeId>::empty(),
    {
        ComponentGroup { components: HashMap::new() }
    }

    /// The number of components held.
    pub closed spec fn spec_len(&self) -> nat {
        self.components@.len()
    }

    /// The identifiers of the types of the components held, one component per type.
    pub closed spec fn component_types(&self) -> Set<TypeId> {
        self.components@.dom()
    }

    /// The number of components held is the number of their types.
    pub proof fn lemma_len_counts_types(&self)
        ensures
            self.component_types().finite(),
            self.spec_len() == self.component_types().len(),
    {
        vstd::std_specs::hash::axiom_hashmap_view_finite_dom(self.components);
    }

    /// Inserts a new component into the group. If available, returns the previous component of
    /// the same type.
    pub fn insert<C: ComponentTrait>(&mut self, component: C) -> (r: Option<C>)
        ensures
            obeys_key_model::<TypeId>() ==> exists|k: TypeId|
                #![trigger old(self).component_types().insert(k)]
                final(self).component_types() == old(self).component_types().insert(k) && (r is Some
                    ==> old(self).component_types().contains(k)),
    {
        let key = type_key::<C>();
        let ghost k = key;
        let result = match self.components.insert(key, erase(component)) {
            Some(previous) => unerase::<C>(previous),
            None => None,
        };
        proof {
            if obeys_key_model::<TypeId>() {
                assert(self.component_types() =~= old(self).component_types().insert(k));
                assert(old(self).component_types().insert(k) == self.component_types());
            }
        }
        result
    }

    /// Removes the component of a particular type from the group and returns it.
    pub fn remove<C: ComponentTrait>(&mut self) -> (r: Option<C>)
        ensures
            obeys_key_model::<TypeId>() ==> exists|k: TypeId|
                #![trigger old(self).component_types().remove(k)]
                final(self).component_types() == old(self).component_types().remove(k) && (r is Some
                    ==> old(self).component_types().contains(k)),
    {
        let key = type_key::<C>();
        let result = match self.components.remove(&key) {
            Some(previous) => unerase::<C>(previous),
            None => None,
        };
        proof {
            if obeys_key_model::<TypeId>() {
                assert(self.component_types() =~= old(self).component_types().remove(key));
                assert(result is Some ==> old(self).component_types().contains(key));
                assert(old(self).component_types().contains(key) || !old(self).component_types().contains(key));
            }
        }
        result
    }

    /// Returns `true` if the group contains a component of the specified type; an empty group
    /// holds none.
    pub fn has<C: ComponentTrait>(&self) -> (r: bool)
        ensures
            self.spec_len() == 0 ==> !r,
            obeys_key_model::<TypeId>() ==> exists|k: TypeId|
                #![trigger self.component_types().contains(k)]
                r == self.component_types().contains(k),
    {
        proof {
            vstd::std_specs::hash::axiom_hashmap_view_finite_dom(self.components);
            vstd::set_lib::lemma_set_empty_equivalency_len(self.components@.dom());
        }
        if self.components.is_empty() {
            proof {
                let k = vstd::pervasive::arbitrary::<TypeId>();
                assert(!self.component_types().contains(k));
            }
            return false;
        }
        let key = type_key::<C>();
        let r = self.components.contains_key(&key);
        proof {
            assert(obeys_key_model::<TypeId>() ==> r == self.component_types().contains(key));
        }
        r
    }

    /// Borrows an instance of a component of the specified type.
    pub fn borrow<C: ComponentTrait>(&self) -> (r: Result<&C, EcsError>)
        ensures
            r matches Err(e) ==> e == EcsError::ComponentNotFound,
            r is Ok && obeys_key_model::<TypeId>() ==> exists|k: TypeId|
                #[trigger] self.component_types().contains(k),
    {
        let key = type_key::<C>();
        match self.components.get(&key) {
            Some(c) => match unerase_ref::<C>(c) {
                Some(c) => {
                    proof {
                        assert(obeys_key_model::<TypeId>() ==> self.component_types().contains(key));
                    }
                    Ok(c)
                },
                None => Err(EcsError::ComponentNotFound),
            },
            None => Err(EcsError::ComponentNotFound),
        }
    }

    /// Mutably borrows an instance of a component of the specified type.
    pub fn borrow_mut<C: ComponentTrait>(&mut self) -> (r: Result<&mut C, EcsError>)
        ensures
            r matches Err(e) ==> e == EcsError::ComponentNotFound,
    {
        match self.components.entry(type_key::<C>()) {
            Entry::Occupied(o) => match unerase_mut::<C>(o.into_mut()) {
                Some(c) => Ok(c),
                None => Err(EcsError::ComponentNotFound),
            },
            Entry::Vacant(_) => Err(EcsError::ComponentNotFound),
        }
    }
}

/// Inserting a component adds at most one component to the group, and none where it replaced a
/// component of the same type; the group then holds at least one component.
pub proof fn lemma_insert_counts(before: ComponentGroup, after: ComponentGroup, replaced: bool)
    requires
        exists|k: TypeId| #![trigger before.component_types().insert(k)]
            after.component_types() == before.component_types().insert(k) && (replaced
                ==> before.component_types().contains(k)),
    ensures
        before.spec_len() <= after.spec_len() <= before.spec_len() + 1,
        replaced ==> after.spec_len() == before.spec_len(),
        after.spec_len() > 0,
{
    let k = choose|k: TypeId| #![trigger before.component_types().insert(k)]
        after.component_types() == before.component_types().insert(k) && (replaced
            ==> before.component_types().contains(k));
    before.lemma_len_counts_types();
    after.lemma_len_counts_types();
    if before.component_types().contains(k) {
        assert(after.component_types() =~= before.component_types());
    } else {
        vstd::set::axiom_set_insert_len(before.component_types(), k);
    }
}

/// Removing a component takes at most one component out of the group, and exactly one where it
/// gave one back.
pub proof fn lemma_remove_counts(before: ComponentGroup, after: ComponentGroup, removed: bool)
    requires
        exists|k: TypeId| #![trigger before.component_types().remove(k)]
            after.component_types() == before.component_types().remove(k) && (removed
                ==> before.component_types().contains(k)),
    ensures
        after.spec_len() <= before.spec_len() <= after.spec_len() + 1,
        removed ==> after.spec_len() + 1 == before.spec_len(),
{
    let k = choose|k: TypeId| #![trigger before.component_types().remove(k)]
        after.component_types() == before.component_types().remove(k) && (removed
            ==> before.component_types().contains(k));
    before.lemma_len_counts_types();
    after.lemma_len_counts_types();
    vstd::set::axiom_set_remove_len(before.component_types(), k);
}

impl Default for ComponentGroup {
    /// Creates a new, empty group.
    fn default() -> (g: Self)
        ensures
            g.spec_len() == 0,
    {
        ComponentGroup::new()
    }
}

} // verus!
