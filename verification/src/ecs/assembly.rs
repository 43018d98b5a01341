use std::collections::HashMap;
use std::collections::hash_map::Entry;
use std::any::TypeId;
use vstd::prelude::*;
use vstd::std_specs::hash::obeys_key_model;
use crate::ecs::entity::Entity;
use crate::ecs::error::EcsError;
use crate::ecs::component_group::{ComponentTrait, ComponentGroup};

verus! {

broadcast use vstd::std_specs::hash::group_hash_axioms;

/// Defines a collection of `Entity`s and their components.
pub struct Assembly {
    base_entity: Entity,
    entities: HashMap<u64, ComponentGroup>,
}

impl Assembly {
    /// The identifiers of the entities registered with the assembly.
    pub closed spec fn entity_ids(&self) -> Set<u64> {
        self.entities@.dom()
    }

    /// The component group of each registered entity, by identifier.
    pub closed spec fn groups(&self) -> Map<u64, ComponentGroup> {
        self.entities@
    }

    /// The identifier that the next created entity receives.
    pub closed spec fn next_id(&self) -> u64 {
        self.base_entity.0
    }

    /// The assembly is well formed: every registered identifier was handed out before.
    pub closed spec fn wf(&self) -> bool {
        forall|k: u64| #[trigger] self.entities@.dom().contains(k) ==> k < self.base_entity.0
    }

    /// `true` if the entity is registered with the assembly.
    pub open spec fn spec_has_entity(&self, entity: Entity) -> bool {
        self.entity_ids().contains(entity.id())
    }

    /// Creates a new, empty `Assembly`.
    pub fn new() -> (a: Self)
        ensures
            a.wf(),
            a.entity_ids() == Set::<u64>::empty(),
            a.groups() == Map::<u64, ComponentGroup>::empty(),
            a.next_id() == 0,
    {
        Assembly { base_entity: Entity::new(), entities: HashMap::new() }
    }

    /// Returns the identifier that the next created entity receives.
    pub fn next_entity(&self) -> (e: Entity)
        ensures
            e.id() == self.next_id(),
    {
        self.base_entity
    }

    /// Creates a new `Entity` and registers it with the `Assembly`.
    pub fn create_entity(&mut self) -> (e: Entity)
        requires
            old(self).wf(),
            old(self).next_id() < u64::MAX,
        ensures
            final(self).wf(),
            e.id() == old(self).next_id(),
            !old(self).entity_ids().contains(e.id()),
            final(self).entity_ids() == old(self).entity_ids().insert(e.id()),
            final(self).next_id() == old(self).next_id() + 1,
            final(self).groups()[e.id()].spec_len() == 0,
            final(self).groups() == old(self).groups().insert(e.id(), final(self).groups()[e.id()]),
    {
        let e = self.base_entity;
        self.base_entity.increment();
        self.entities.insert(e.0, ComponentGroup::new());
        e
    }

    /// Deletes the specified `Entity` from the `Assembly` and returns its `ComponentGroup`, if it
    /// was registered.
    pub fn destroy_entity(&mut self, entity: &Entity) -> (g: Option<ComponentGroup>)
        requires
            old(self).wf(),
        ensures
            final(self).wf(),
            g is Some <==> old(self).spec_has_entity(*entity),
            g matches Some(group) ==> group == old(self).groups()[entity.id()],
            final(self).entity_ids() == old(self).entity_ids().remove(entity.id()),
            final(self).groups() == old(self).groups().remove(entity.id()),
            final(self).next_id() == old(self).next_id(),
    {
        self.entities.remove(&entity.0)
    }

    /// Returns `true` if the specified `Entity` is known to the `Assembly`.
    pub fn has_entity(&self, entity: &Entity) -> (r: bool)
        ensures
            r == self.spec_has_entity(*entity),
    {
        self.entities.contains_key(&entity.0)
    }

    /// Adds a component to the group assigned to the specified `Entity`. Returns the component of
    /// the same type that the entity held before, if any.
    pub fn add_component<C: ComponentTrait>(&mut self, entity: &Entity, component: C) -> (r:
        Result<Option<C>, EcsError>)
        requires
            old(self).wf(),
        ensures
            final(self).wf(),
            final(self).entity_ids() == old(self).entity_ids(),
            final(self).next_id() == old(self).next_id(),
            r is Err <==> !old(self).spec_has_entity(*entity),
            r matches Err(err) ==> err == EcsError::EntityNotFound(*entity),
            r is Err ==> final(self).groups() == old(self).groups(),
            r is Ok ==> final(self).groups() == old(self).groups().insert(entity.id(), final(self).groups()[entity.id()]),
            r matches Ok(previous) ==> (obeys_key_model::<TypeId>() ==> exists|k: TypeId|
                #![trigger old(self).groups()[entity.id()].component_types().insert(k)]
                final(self).groups()[entity.id()].component_types() == old(self).groups()[entity.id()].component_types().insert(k)
                    && (previous is Some ==> old(self).groups()[entity.id()].component_types().contains(k))),
    {
        match self.entities.entry(entity.0) {
            Entry::Occupied(o) => {
                let g = o.into_mut();
                let ghost before = *g;
                let previous = g.insert(component);
                proof {
                    if obeys_key_model::<TypeId>() {
                        let k = choose|k: TypeId| #![trigger before.component_types().insert(k)]
                            g.component_types() == before.component_types().insert(k) && (previous is Some
                                ==> before.component_types().contains(k));
                        assert(before == old(self).groups()[entity.id()]);
                        assert(old(self).groups()[entity.id()].component_types().insert(k) == g.component_types());
                    }
                }
                Ok(previous)
            },
            Entry::Vacant(_) => Err(EcsError::EntityNotFound(*entity)),
        }
    }
    /// Removes the component of the specified type from the group assigned to the specified
    /// `Entity`, and returns it if the entity held one.
    pub fn remove_component<C: ComponentTrait>(&mut self, entity: &Entity) -> (r: Result<
        Option<C>,
        EcsError,
    >)
        requires
            old(self).wf(),
        ensures
            final(self).wf(),
            final(self).entity_ids() == old(self).entity_ids(),
            final(self).next_id() == old(self).next_id(),
            r is Err <==> !old(self).spec_has_entity(*entity),
            r matches Err(err) ==> err == EcsError::EntityNotFound(*entity),
            r is Err ==> final(self).groups() == old(self).groups(),
            r is Ok ==> final(self).groups() == old(self).groups().insert(entity.id(), final(self).groups()[entity.id()]),
            r matches Ok(removed) ==> (obeys_key_model::<TypeId>() ==> exists|k: TypeId|
                #![trigger old(self).groups()[entity.id()].component_types().remove(k)]
                final(self).groups()[entity.id()].component_types() == old(self).groups()[entity.id()].component_types().remove(k)
                    && (removed is Some ==> old(self).groups()[entity.id()].component_types().contains(k))),
    {
        match self.entities.entry(entity.0) {
            Entry::Occupied(o) => {
                let g = o.into_mut();
                let ghost before = *g;
                let removed = g.remove::<C>();
                proof {
                    if obeys_key_model::<TypeId>() {
                        let k = choose|k: TypeId| #![trigger before.component_types().remove(k)]
                            g.component_types() == before.component_types().remove(k) && (removed is Some
                                ==> before.component_types().contains(k));
                        assert(before == old(self).groups()[entity.id()]);
                        assert(old(self).groups()[entity.id()].component_types().remove(k) == g.component_types());
                    }
                }
                Ok(removed)
            },
            Entry::Vacant(_) => Err(EcsError::EntityNotFound(*entity)),
        }
    }

    /// Checks whether the supplied `Entity` has the specified component type; an entity whose
    /// group is empty (a fresh one, for instance) has none.
    pub fn has_component<C: ComponentTrait>(&self, entity: &Entity) -> (r: Result<bool, EcsError>)
        ensures
            r is Err <==> !self.spec_has_entity(*entity),
            r matches Err(err) ==> err == EcsError::EntityNotFound(*entity),
            r matches Ok(b) ==> (self.groups()[entity.id()].spec_len() == 0 ==> !b),
            r matches Ok(b) ==> (obeys_key_model::<TypeId>() ==> exists|k: TypeId|
                #![trigger self.groups()[entity.id()].component_types().contains(k)]
                b == self.groups()[entity.id()].component_types().contains(k)),
    {
        match self.entities.get(&entity.0) {
            Some(g) => {
                let b = g.has::<C>();
                proof {
                    if obeys_key_model::<TypeId>() {
                        let k = choose|k: TypeId| #![trigger g.component_types().contains(k)]
                            b == g.component_types().contains(k);
                        assert(self.groups()[entity.id()].component_types().contains(k) == b);
                    }
                }
                Ok(b)
            },
            None => Err(EcsError::EntityNotFound(*entity)),
        }
    }

    /// Borrows a single component from the specified `Entity`.
    pub fn borrow_component<C: ComponentTrait>(&self, entity: &Entity) -> (r: Result<
        &C,
        EcsError,
    >)
        ensures
            r matches Err(err) ==> (err == EcsError::EntityNotFound(*entity) <==> !self.spec_has_entity(*entity)),
            r matches Err(err) ==> (err == EcsError::EntityNotFound(*entity) || err == EcsError::ComponentNotFound),
            !self.spec_has_entity(*entity) ==> r is Err,
    {
        match self.entities.get(&entity.0) {
            Some(g) => g.borrow::<C>(),
            None => Err(EcsError::EntityNotFound(*entity)),
        }
    }

    /// Mutably borrows a single component from the specified `Entity`.
    pub fn borrow_component_mut<C: ComponentTrait>(&mut self, entity: &Entity) -> (r: Result<
        &mut C,
        EcsError,
    >)
        requires
            old(self).wf(),
        ensures
            final(self).wf(),
            final(self).entity_ids() == old(self).entity_ids(),
            final(self).next_id() == old(self).next_id(),
            r matches Err(err) ==> (err == EcsError::EntityNotFound(*entity) <==> !old(self).spec_has_entity(*entity)),
            r matches Err(err) ==> (err == EcsError::EntityNotFound(*entity) || err == EcsError::ComponentNotFound),
            !old(self).spec_has_entity(*entity) ==> r is Err,
            !old(self).spec_has_entity(*entity) ==> final(self).groups() == old(self).groups(),
            old(self).spec_has_entity(*entity) ==> final(self).groups() == old(self).groups().insert(
                entity.id(),
                final(self).groups()[entity.id()],
            ),
    {
        match self.entities.entry(entity.0) {
            Entry::Occupied(o) => o.into_mut().borrow_mut::<C>(),
            Entry::Vacant(_) => Err(EcsError::EntityNotFound(*entity)),
        }
    }
    /// Borrows all instances of the specified component, each with the entity that holds it.
    pub fn r1<A: ComponentTrait>(&self) -> (r: Vec<(Entity, &A)>)
        ensures
            forall|i: int| 0 <= i < r.len() ==> self.spec_has_entity(#[trigger] r[i].0),
            forall|i: int, j: int| 0 <= i < j < r.len() ==> r[i].0 != r[j].0,
    {
        let mut out: Vec<(Entity, &A)> = Vec::new();
        let ghost mut pos: Seq<int> = Seq::empty();
        for k in it: self.entities.keys()
            invariant
                it.seq().no_duplicates(),
                it.seq().unref().to_set() == self.entities@.dom(),
                out.len() == pos.len(),
                forall|i: int| 0 <= i < pos.len() ==> 0 <= #[trigger] pos[i] < it.index(),
                forall|i: int, j: int| 0 <= i < j < pos.len() ==> pos[i] < pos[j],
                forall|i: int| 0 <= i < pos.len() ==> (#[trigger] out[i]).0.0 == it.seq()[pos[i]],
                forall|i: int| 0 <= i < out.len() ==> self.spec_has_entity(#[trigger] out[i].0),
                forall|i: int, j: int| 0 <= i < j < out.len() ==> out[i].0 != out[j].0,
        {
            assert(it.seq().unref().to_set().contains(*it.seq()[it.index() as int]));
            match self.entities.get(k) {
                Some(g) => {
                    if g.has::<A>() {
                        match g.borrow::<A>() {
                            Ok(c) => {
                                out.push((Entity(*k), c));
                                proof { pos = pos.push(it.index() as int); }
                            },
                            Err(_) => {},
                        }
                    }
                },
                None => {},
            }
        }
        out
    }

    /// Borrows all instances of the specified component that pass the specified filter.
    pub fn rf1<F, A: ComponentTrait>(&self, filter: F) -> (r: Vec<(Entity, &A)>) where
        F: FnMut(&(Entity, &A)) -> bool,

        requires
            forall|x: (Entity, &A)| #[trigger] filter.requires((&x,)),
        ensures
            forall|i: int| 0 <= i < r.len() ==> self.spec_has_entity(#[trigger] r[i].0),
            forall|i: int, j: int| 0 <= i < j < r.len() ==> r[i].0 != r[j].0,
            forall|i: int| 0 <= i < r.len() ==> filter.ensures((&#[trigger] r[i],), true),
            exists|all: Seq<(Entity, &A)>, keep: Seq<bool>|
                #[trigger] kept(all, keep) == r@ && answers(filter, all, keep) && (forall|i: int|
                    0 <= i < all.len() ==> self.spec_has_entity(#[trigger] all[i].0)) && (forall|i: int, j: int|
                    0 <= i < j < all.len() ==> all[i].0 != all[j].0),
    {
        let all = self.r1::<A>();
        let ghost all_s = all@;
        let (out, Ghost(keep)) = keep_accepted(all, filter);
        proof {
            let pos = lemma_kept_positions(all_s, keep);
            assert forall|a: int| 0 <= a < out@.len() implies self.spec_has_entity(#[trigger] out@[a].0) by {
                assert(out@[a] == all_s[pos[a]]);
            }
            assert forall|a: int, b: int| 0 <= a < b < out@.len() implies out@[a].0 != out@[b].0 by {
                assert(out@[a] == all_s[pos[a]]);
                assert(out@[b] == all_s[pos[b]]);
            }
            assert(kept(all_s, keep) == out@);
            assert forall|i: int| 0 <= i < out.len() implies filter.ensures((&#[trigger] out[i],), true) by {
                assert(out@[i] == all_s[pos[i]]);
                assert(filter.ensures((&all_s[pos[i]],), keep[pos[i]]));
            }
        }
        out
    }

    /// Borrows the specified component, ensuring that only a single entity holds one.
    pub fn rs1<A: ComponentTrait>(&self) -> (r: Result<(Entity, &A), EcsError>)
        ensures
            r matches Ok(p) ==> self.spec_has_entity(p.0),
            r matches Err(e) ==> (e == EcsError::ComponentNotFound || e == EcsError::MultipleComponentsFound),
    {
        single_match(self.r1::<A>())
    }

    /// Borrows the specified component, ensuring that only a single entity holds one that passes
    /// the specified filter.
    pub fn rsf1<F, A: ComponentTrait>(&self, filter: F) -> (r: Result<(Entity, &A), EcsError>) where
        F: FnMut(&(Entity, &A)) -> bool,

        requires
            forall|x: (Entity, &A)| #[trigger] filter.requires((&x,)),
        ensures
            r matches Ok(p) ==> self.spec_has_entity(p.0),
            r matches Ok(p) ==> filter.ensures((&p,), true),
            r matches Err(e) ==> (e == EcsError::ComponentNotFound || e == EcsError::MultipleComponentsFound),
    {
        single_match(self.rf1::<F, A>(filter))
    }

    /// Borrows from all entities that hold all 2 specified components, each with the entity.
    pub fn r2<A: ComponentTrait, B: ComponentTrait>(&self) -> (r: Vec<(Entity, &A, &B)>)
        ensures
            forall|i: int| 0 <= i < r.len() ==> self.spec_has_entity(#[trigger] r[i].0),
            forall|i: int, j: int| 0 <= i < j < r.len() ==> r[i].0 != r[j].0,
    {
        let mut out: Vec<(Entity, &A, &B)> = Vec::new();
        let ghost mut pos: Seq<int> = Seq::empty();
        for k in it: self.entities.keys()
            invariant
                it.seq().no_duplicates(),
                it.seq().unref().to_set() == self.entities@.dom(),
                out.len() == pos.len(),
                forall|i: int| 0 <= i < pos.len() ==> 0 <= #[trigger] pos[i] < it.index(),
                forall|i: int, j: int| 0 <= i < j < pos.len() ==> pos[i] < pos[j],
                forall|i: int| 0 <= i < pos.len() ==> (#[trigger] out[i]).0.0 == it.seq()[pos[i]],
                forall|i: int| 0 <= i < out.len() ==> self.spec_has_entity(#[trigger] out[i].0),
                forall|i: int, j: int| 0 <= i < j < out.len() ==> out[i].0 != out[j].0,
        {
            assert(it.seq().unref().to_set().contains(*it.seq()[it.index() as int]));
            match self.entities.get(k) {
                Some(g) => {
                    if g.has::<A>() && g.has::<B>() {
                        match g.borrow::<A>() {
                            Ok(c0) => {
                                match g.borrow::<B>() {
                                    Ok(c1) => {
                                        out.push((Entity(*k), c0, c1));
                                        proof { pos = pos.push(it.index() as int); }
                                    },
                                    Err(_) => {},
                                }
                            },
                            Err(_) => {},
                        }
                    }
                },
                None => {},
            }
        }
        out
    }

    /// Borrows from all entities that hold all 2 specified components and pass the specified
    /// filter.
    pub fn rf2<F, A: ComponentTrait, B: ComponentTrait>(&self, filter: F) -> (r: Vec<(Entity, &A, &B)>) where
        F: FnMut(&(Entity, &A, &B)) -> bool,

        requires
            forall|x: (Entity, &A, &B)| #[trigger] filter.requires((&x,)),
        ensures
            forall|i: int| 0 <= i < r.len() ==> self.spec_has_entity(#[trigger] r[i].0),
            forall|i: int, j: int| 0 <= i < j < r.len() ==> r[i].0 != r[j].0,
            forall|i: int| 0 <= i < r.len() ==> filter.ensures((&#[trigger] r[i],), true),
            exists|all: Seq<(Entity, &A, &B)>, keep: Seq<bool>|
                #[trigger] kept(all, keep) == r@ && answers(filter, all, keep) && (forall|i: int|
                    0 <= i < all.len() ==> self.spec_has_entity(#[trigger] all[i].0)) && (forall|i: int, j: int|
                    0 <= i < j < all.len() ==> all[i].0 != all[j].0),
    {
        let all = self.r2::<A, B>();
        let ghost all_s = all@;
        let (out, Ghost(keep)) = keep_accepted(all, filter);
        proof {
            let pos = lemma_kept_positions(all_s, keep);
            assert forall|a: int| 0 <= a < out@.len() implies self.spec_has_entity(#[trigger] out@[a].0) by {
                assert(out@[a] == all_s[pos[a]]);
            }
            assert forall|a: int, b: int| 0 <= a < b < out@.len() implies out@[a].0 != out@[b].0 by {
                assert(out@[a] == all_s[pos[a]]);
                assert(out@[b] == all_s[pos[b]]);
            }
            assert(kept(all_s, keep) == out@);
            assert forall|i: int| 0 <= i < out.len() implies filter.ensures((&#[trigger] out[i],), true) by {
                assert(out@[i] == all_s[pos[i]]);
                assert(filter.ensures((&all_s[pos[i]],), keep[pos[i]]));
            }
        }
        out
    }

    /// Borrows the 2 specified components, ensuring that only a single entity holds them all.
    pub fn rs2<A: ComponentTrait, B: ComponentTrait>(&self) -> (r: Result<(Entity, &A, &B), EcsError>)
        ensures
            r matches Ok(p) ==> self.spec_has_entity(p.0),
            r matches Err(e) ==> (e == EcsError::ComponentNotFound || e == EcsError::MultipleComponentsFound),
    {
        single_match(self.r2::<A, B>())
    }

    /// Borrows the 2 specified components, ensuring that only a single entity holds them all
    /// and passes the specified filter.
    pub fn rsf2<F, A: ComponentTrait, B: ComponentTrait>(&self, filter: F) -> (r: Result<(Entity, &A, &B), EcsError>) where
        F: FnMut(&(Entity, &A, &B)) -> bool,

        requires
            forall|x: (Entity, &A, &B)| #[trigger] filter.requires((&x,)),
        ensures
            r matches Ok(p) ==> self.spec_has_entity(p.0),
            r matches Ok(p) ==> filter.ensures((&p,), true),
            r matches Err(e) ==> (e == EcsError::ComponentNotFound || e == EcsError::MultipleComponentsFound),
    {
        single_match(self.rf2::<F, A, B>(filter))
    }

    /// Borrows from all entities that hold all 3 specified components, each with the entity.
    pub fn r3<A: ComponentTrait, B: ComponentTrait, C: ComponentTrait>(&self) -> (r: Vec<(Entity, &A, &B, &C)>)
        ensures
            forall|i: int| 0 <= i < r.len() ==> self.spec_has_entity(#[trigger] r[i].0),
            forall|i: int, j: int| 0 <= i < j < r.len() ==> r[i].0 != r[j].0,
    {
        let mut out: Vec<(Entity, &A, &B, &C)> = Vec::new();
        let ghost mut pos: Seq<int> = Seq::empty();
        for k in it: self.entities.keys()
            invariant
                it.seq().no_duplicates(),
                it.seq().unref().to_set() == self.entities@.dom(),
                out.len() == pos.len(),
                forall|i: int| 0 <= i < pos.len() ==> 0 <= #[trigger] pos[i] < it.index(),
                forall|i: int, j: int| 0 <= i < j < pos.len() ==> pos[i] < pos[j],
                forall|i: int| 0 <= i < pos.len() ==> (#[trigger] out[i]).0.0 == it.seq()[pos[i]],
                forall|i: int| 0 <= i < out.len() ==> self.spec_has_entity(#[trigger] out[i].0),
                forall|i: int, j: int| 0 <= i < j < out.len() ==> out[i].0 != out[j].0,
        {
            assert(it.seq().unref().to_set().contains(*it.seq()[it.index() as int]));
            match self.entities.get(k) {
                Some(g) => {
                    if g.has::<A>() && g.has::<B>() && g.has::<C>() {
                        match g.borrow::<A>() {
                            Ok(c0) => {
                                match g.borrow::<B>() {
                                    Ok(c1) => {
                                        match g.borrow::<C>() {
                                            Ok(c2) => {
                                                out.push((Entity(*k), c0, c1, c2));
                                                proof { pos = pos.push(it.index() as int); }
                                            },
                                            Err(_) => {},
                                        }
                                    },
                                    Err(_) => {},
                                }
                            },
                            Err(_) => {},
                        }
                    }
                },
                None => {},
            }
        }
        out
    }

    /// Borrows from all entities that hold all 3 specified components and pass the specified
    /// filter.
    pub fn rf3<F, A: ComponentTrait, B: ComponentTrait, C: ComponentTrait>(&self, filter: F) -> (r: Vec<(Entity, &A, &B, &C)>) where
        F: FnMut(&(Entity, &A, &B, &C)) -> bool,

        requires
            forall|x: (Entity, &A, &B, &C)| #[trigger] filter.requires((&x,)),
        ensures
            forall|i: int| 0 <= i < r.len() ==> self.spec_has_entity(#[trigger] r[i].0),
            forall|i: int, j: int| 0 <= i < j < r.len() ==> r[i].0 != r[j].0,
            forall|i: int| 0 <= i < r.len() ==> filter.ensures((&#[trigger] r[i],), true),
            exists|all: Seq<(Entity, &A, &B, &C)>, keep: Seq<bool>|
                #[trigger] kept(all, keep) == r@ && answers(filter, all, keep) && (forall|i: int|
                    0 <= i < all.len() ==> self.spec_has_entity(#[trigger] all[i].0)) && (forall|i: int, j: int|
                    0 <= i < j < all.len() ==> all[i].0 != all[j].0),
    {
        let all = self.r3::<A, B, C>();
        let ghost all_s = all@;
        let (out, Ghost(keep)) = keep_accepted(all, filter);
        proof {
            let pos = lemma_kept_positions(all_s, keep);
            assert forall|a: int| 0 <= a < out@.len() implies self.spec_has_entity(#[trigger] out@[a].0) by {
                assert(out@[a] == all_s[pos[a]]);
            }
            assert forall|a: int, b: int| 0 <= a < b < out@.len() implies out@[a].0 != out@[b].0 by {
                assert(out@[a] == all_s[pos[a]]);
                assert(out@[b] == all_s[pos[b]]);
            }
            assert(kept(all_s, keep) == out@);
            assert forall|i: int| 0 <= i < out.len() implies filter.ensures((&#[trigger] out[i],), true) by {
                assert(out@[i] == all_s[pos[i]]);
                assert(filter.ensures((&all_s[pos[i]],), keep[pos[i]]));
            }
        }
        out
    }

    /// Borrows the 3 specified components, ensuring that only a single entity holds them all.
    pub fn rs3<A: ComponentTrait, B: ComponentTrait, C: ComponentTrait>(&self) -> (r: Result<(Entity, &A, &B, &C), EcsError>)
        ensures
            r matches Ok(p) ==> self.spec_has_entity(p.0),
            r matches Err(e) ==> (e == EcsError::ComponentNotFound || e == EcsError::MultipleComponentsFound),
    {
        single_match(self.r3::<A, B, C>())
    }

    /// Borrows the 3 specified components, ensuring that only a single entity holds them all
    /// and passes the specified filter.
    pub fn rsf3<F, A: ComponentTrait, B: ComponentTrait, C: ComponentTrait>(&self, filter: F) -> (r: Result<(Entity, &A, &B, &C), EcsError>) where
        F: FnMut(&(Entity, &A, &B, &C)) -> bool,

        requires
            forall|x: (Entity, &A, &B, &C)| #[trigger] filter.requires((&x,)),
        ensures
            r matches Ok(p) ==> self.spec_has_entity(p.0),
            r matches Ok(p) ==> filter.ensures((&p,), true),
            r matches Err(e) ==> (e == EcsError::ComponentNotFound || e == EcsError::MultipleComponentsFound),
    {
        single_match(self.rf3::<F, A, B, C>(filter))
    }

    /// Borrows from all entities that hold all 4 specified components, each with the entity.
    pub fn r4<A: ComponentTrait, B: ComponentTrait, C: ComponentTrait, D: ComponentTrait>(&self) -> (r: Vec<(Entity, &A, &B, &C, &D)>)
        ensures
            forall|i: int| 0 <= i < r.len() ==> self.spec_has_entity(#[trigger] r[i].0),
            forall|i: int, j: int| 0 <= i < j < r.len() ==> r[i].0 != r[j].0,
    {
        let mut out: Vec<(Entity, &A, &B, &C, &D)> = Vec::new();
        let ghost mut pos: Seq<int> = Seq::empty();
        for k in it: self.entities.keys()
            invariant
                it.seq().no_duplicates(),
                it.seq().unref().to_set() == self.entities@.dom(),
                out.len() == pos.len(),
                forall|i: int| 0 <= i < pos.len() ==> 0 <= #[trigger] pos[i] < it.index(),
                forall|i: int, j: int| 0 <= i < j < pos.len() ==> pos[i] < pos[j],
                forall|i: int| 0 <= i < pos.len() ==> (#[trigger] out[i]).0.0 == it.seq()[pos[i]],
                forall|i: int| 0 <= i < out.len() ==> self.spec_has_entity(#[trigger] out[i].0),
                forall|i: int, j: int| 0 <= i < j < out.len() ==> out[i].0 != out[j].0,
        {
            assert(it.seq().unref().to_set().contains(*it.seq()[it.index() as int]));
            match self.entities.get(k) {
                Some(g) => {
                    if g.has::<A>() && g.has::<B>() && g.has::<C>() && g.has::<D>() {
                        match g.borrow::<A>() {
                            Ok(c0) => {
                                match g.borrow::<B>() {
                                    Ok(c1) => {
                                        match g.borrow::<C>() {
                                            Ok(c2) => {
                                                match g.borrow::<D>() {
                                                    Ok(c3) => {
                                                        out.push((Entity(*k), c0, c1, c2, c3));
                                                        proof { pos = pos.push(it.index() as int); }
                                                    },
                                                    Err(_) => {},
                                                }
                                            },
                                            Err(_) => {},
                                        }
                                    },
                                    Err(_) => {},
                                }
                            },
                            Err(_) => {},
                        }
                    }
                },
                None => {},
            }
        }
        out
    }

    /// Borrows from all entities that hold all 4 specified components and pass the specified
    /// filter.
    pub fn rf4<F, A: ComponentTrait, B: ComponentTrait, C: ComponentTrait, D: ComponentTrait>(&self, filter: F) -> (r: Vec<(Entity, &A, &B, &C, &D)>) where
        F: FnMut(&(Entity, &A, &B, &C, &D)) -> bool,

        requires
            forall|x: (Entity, &A, &B, &C, &D)| #[trigger] filter.requires((&x,)),
        ensures
            forall|i: int| 0 <= i < r.len() ==> self.spec_has_entity(#[trigger] r[i].0),
            forall|i: int, j: int| 0 <= i < j < r.len() ==> r[i].0 != r[j].0,
            forall|i: int| 0 <= i < r.len() ==> filter.ensures((&#[trigger] r[i],), true),
            exists|all: Seq<(Entity, &A, &B, &C, &D)>, keep: Seq<bool>|
                #[trigger] kept(all, keep) == r@ && answers(filter, all, keep) && (forall|i: int|
                    0 <= i < all.len() ==> self.spec_has_entity(#[trigger] all[i].0)) && (forall|i: int, j: int|
                    0 <= i < j < all.len() ==> all[i].0 != all[j].0),
    {
        let all = self.r4::<A, B, C, D>();
        let ghost all_s = all@;
        let (out, Ghost(keep)) = keep_accepted(all, filter);
        proof {
            let pos = lemma_kept_positions(all_s, keep);
            assert forall|a: int| 0 <= a < out@.len() implies self.spec_has_entity(#[trigger] out@[a].0) by {
                assert(out@[a] == all_s[pos[a]]);
            }
            assert forall|a: int, b: int| 0 <= a < b < out@.len() implies out@[a].0 != out@[b].0 by {
                assert(out@[a] == all_s[pos[a]]);
                assert(out@[b] == all_s[pos[b]]);
            }
            assert(kept(all_s, keep) == out@);
            assert forall|i: int| 0 <= i < out.len() implies filter.ensures((&#[trigger] out[i],), true) by {
                assert(out@[i] == all_s[pos[i]]);
                assert(filter.ensures((&all_s[pos[i]],), keep[pos[i]]));
            }
        }
        out
    }

    /// Borrows the 4 specified components, ensuring that only a single entity holds them all.
    pub fn rs4<A: ComponentTrait, B: ComponentTrait, C: ComponentTrait, D: ComponentTrait>(&self) -> (r: Result<(Entity, &A, &B, &C, &D), EcsError>)
        ensures
            r matches Ok(p) ==> self.spec_has_entity(p.0),
            r matches Err(e) ==> (e == EcsError::ComponentNotFound || e == EcsError::MultipleComponentsFound),
    {
        single_match(self.r4::<A, B, C, D>())
    }

    /// Borrows the 4 specified components, ensuring that only a single entity holds them all
    /// and passes the specified filter.
    pub fn rsf4<F, A: ComponentTrait, B: ComponentTrait, C: ComponentTrait, D: ComponentTrait>(&self, filter: F) -> (r: Result<(Entity, &A, &B, &C, &D), EcsError>) where
        F: FnMut(&(Entity, &A, &B, &C, &D)) -> bool,

        requires
            forall|x: (Entity, &A, &B, &C, &D)| #[trigger] filter.requires((&x,)),
        ensures
            r matches Ok(p) ==> self.spec_has_entity(p.0),
            r matches Ok(p) ==> filter.ensures((&p,), true),
            r matches Err(e) ==> (e == EcsError::ComponentNotFound || e == EcsError::MultipleComponentsFound),
    {
        single_match(self.rf4::<F, A, B, C, D>(filter))
    }

    /// Provides mutable access to all instances of the specified component type.
    pub fn w1<C: ComponentTrait>(&mut self) -> (r: Vec<(Entity, &mut C)>)
        requires
            old(self).wf(),
        ensures
            final(self).wf(),
            final(self).entity_ids() == old(self).entity_ids(),
            final(self).next_id() == old(self).next_id(),
            forall|i: int| 0 <= i < r.len() ==> old(self).spec_has_entity(#[trigger] r[i].0),
            forall|i: int, j: int| 0 <= i < j < r.len() ==> r[i].0 != r[j].0,
    {
        let ghost ids = self.entities@.dom();
        let mut groups = groups_mut(&mut self.entities);
        let mut out: Vec<(Entity, &mut C)> = Vec::new();
        while groups.len() > 0
            invariant
                forall|i: int| 0 <= i < groups.len() ==> ids.contains(#[trigger] groups[i].0),
                forall|i: int, j: int| 0 <= i < j < groups.len() ==> groups[i].0 != groups[j].0,
                forall|i: int| 0 <= i < out.len() ==> ids.contains((#[trigger] out[i]).0.0),
                forall|i: int, j: int| 0 <= i < j < out.len() ==> out[i].0 != out[j].0,
                forall|i: int, j: int| 0 <= i < out.len() && 0 <= j < groups.len() ==> out[i].0.0 != groups[j].0,
            decreases groups.len(),
        {
            match groups.pop() {
                Some((k, g)) => {
                    if g.has::<C>() {
                        match ComponentGroup::borrow_mut::<C>(g) {
                            Ok(c) => out.push((Entity(k), c)),
                            Err(_) => {},
                        }
                    }
                },
                None => {},
            }
        }
        out
    }

    /// Provides mutable access to all instances of the specified component type that pass the
    /// supplied filter.
    pub fn wf1<F, C: ComponentTrait>(&mut self, filter: F) -> (r: Vec<(Entity, &mut C)>) where
        F: FnMut(&(Entity, &mut C)) -> bool,

        requires
            old(self).wf(),
            forall|x: (Entity, &mut C)| #[trigger] filter.requires((&x,)),
        ensures
            final(self).wf(),
            final(self).entity_ids() == old(self).entity_ids(),
            final(self).next_id() == old(self).next_id(),
            forall|i: int| 0 <= i < r.len() ==> old(self).spec_has_entity(#[trigger] r[i].0),
            forall|i: int, j: int| 0 <= i < j < r.len() ==> r[i].0 != r[j].0,
            forall|i: int| 0 <= i < r.len() ==> filter.ensures((&#[trigger] r[i],), true),
            exists|all: Seq<(Entity, &mut C)>, keep: Seq<bool>|
                #[trigger] kept(all, keep) == r@ && answers(filter, all, keep) && (forall|i: int|
                    0 <= i < all.len() ==> old(self).spec_has_entity(#[trigger] all[i].0)) && (forall|i: int, j: int|
                    0 <= i < j < all.len() ==> all[i].0 != all[j].0),
    {
        let all = self.w1::<C>();
        let ghost all_s = all@;
        let (out, Ghost(keep)) = keep_accepted(all, filter);
        proof {
            let pos = lemma_kept_positions(all_s, keep);
            assert forall|a: int| 0 <= a < out@.len() implies old(self).spec_has_entity(#[trigger] out@[a].0) by {
                assert(out@[a] == all_s[pos[a]]);
            }
            assert forall|a: int, b: int| 0 <= a < b < out@.len() implies out@[a].0 != out@[b].0 by {
                assert(out@[a] == all_s[pos[a]]);
                assert(out@[b] == all_s[pos[b]]);
            }
            assert(kept(all_s, keep) == out@);
            assert forall|i: int| 0 <= i < out.len() implies filter.ensures((&#[trigger] out[i],), true) by {
                assert(out@[i] == all_s[pos[i]]);
                assert(filter.ensures((&all_s[pos[i]],), keep[pos[i]]));
            }
        }
        out
    }

    /// Ensures that only a single entity holds a component of the specified type, and provides
    /// mutable access to it. Errors otherwise.
    pub fn ws1<C: ComponentTrait>(&mut self) -> (r: Result<(Entity, &mut C), EcsError>)
        requires
            old(self).wf(),
        ensures
            final(self).wf(),
            final(self).entity_ids() == old(self).entity_ids(),
            final(self).next_id() == old(self).next_id(),
            r matches Ok(p) ==> old(self).spec_has_entity(p.0),
            r matches Err(e) ==> (e == EcsError::ComponentNotFound || e == EcsError::MultipleComponentsFound),
    {
        single_match(self.w1::<C>())
    }

    /// Ensures that only a single entity holds a component of the specified type that passes
    /// the supplied filter, and provides mutable access to it. Errors otherwise.
    pub fn wsf1<F, C: ComponentTrait>(&mut self, filter: F) -> (r: Result<(Entity, &mut C), EcsError>) where
        F: FnMut(&(Entity, &mut C)) -> bool,

        requires
            old(self).wf(),
            forall|x: (Entity, &mut C)| #[trigger] filter.requires((&x,)),
        ensures
            final(self).wf(),
            final(self).entity_ids() == old(self).entity_ids(),
            final(self).next_id() == old(self).next_id(),
            r matches Ok(p) ==> old(self).spec_has_entity(p.0),
            r matches Ok(p) ==> filter.ensures((&p,), true),
            r matches Err(e) ==> (e == EcsError::ComponentNotFound || e == EcsError::MultipleComponentsFound),
    {
        single_match(self.wf1::<F, C>(filter))
    }
}

impl Default for Assembly {
    /// Creates a new, empty `Assembly`.
    fn default() -> (a: Self)
        ensures
            a.wf(),
            a.entity_ids() == Set::<u64>::empty(),
            a.groups() == Map::<u64, ComponentGroup>::empty(),
            a.next_id() == 0,
    {
        Assembly::new()
    }
}

/// Calls `HashMap::iter_mut`: every entry of the map, each key with a mutable borrow of its
/// value. Claims that each key of the map comes once and that the map keeps its keys.
#[verifier::external_body]
fn groups_mut(map: &mut HashMap<u64, ComponentGroup>) -> (r: Vec<(u64, &mut ComponentGroup)>)
    ensures
        final(map)@.dom() == old(map)@.dom(),
        forall|i: int| 0 <= i < r.len() ==> old(map)@.dom().contains(#[trigger] r[i].0),
        forall|i: int, j: int| 0 <= i < j < r.len() ==> r[i].0 != r[j].0,
{
    map.iter_mut().map(|(k, g)| (*k, g)).collect()
}

/// The items of `s` whose flag in `keep` is set, in their order in `s`.
pub open spec fn kept<T>(s: Seq<T>, keep: Seq<bool>) -> Seq<T>
    decreases s.len(),
{
    if s.len() == 0 {
        Seq::empty()
    } else {
        let rest = kept(s.drop_last(), keep.drop_last());
        if keep.last() {
            rest.push(s.last())
        } else {
            rest
        }
    }
}

/// `true` if `keep` holds, item by item, an answer that the filter gives for the items of `s`.
pub open spec fn answers<T, F: FnMut(&T) -> bool>(filter: F, s: Seq<T>, keep: Seq<bool>) -> bool {
    &&& keep.len() == s.len()
    &&& forall|i: int| 0 <= i < s.len() ==> #[trigger] filter.ensures((&s[i],), keep[i])
}

/// Where each kept item stands in `s`: positions in increasing order, each with its flag set.
proof fn lemma_kept_positions<T>(s: Seq<T>, keep: Seq<bool>) -> (pos: Seq<int>)
    requires
        keep.len() == s.len(),
    ensures
        pos.len() == kept(s, keep).len(),
        forall|a: int| 0 <= a < pos.len() ==> 0 <= #[trigger] pos[a] < s.len() && kept(s, keep)[a] == s[pos[a]] && keep[pos[a]],
        forall|a: int, b: int| 0 <= a < b < pos.len() ==> pos[a] < pos[b],
    decreases s.len(),
{
    if s.len() == 0 {
        Seq::empty()
    } else {
        let init = s.drop_last();
        let rest = lemma_kept_positions(init, keep.drop_last());
        assert forall|a: int| 0 <= a < rest.len() implies s[#[trigger] rest[a]] == init[rest[a]] && keep[rest[a]] == keep.drop_last()[rest[a]] by {}
        if keep.last() {
            let pos = rest.push(s.len() - 1);
            assert forall|a: int| 0 <= a < pos.len() implies 0 <= #[trigger] pos[a] < s.len() && kept(s, keep)[a] == s[pos[a]]
                && keep[pos[a]] by {
                if a < rest.len() {
                    assert(pos[a] == rest[a]);
                }
            }
            pos
        } else {
            rest
        }
    }
}

/// Keeps the items that the filter accepts, in their order; the filter is called once on each
/// item, first to last.
fn keep_accepted<T, F: FnMut(&T) -> bool>(all: Vec<T>, filter: F) -> (r: (Vec<T>, Ghost<Seq<bool>>))
    requires
        forall|x: T| #[trigger] filter.requires((&x,)),
    ensures
        answers(filter, all@, r.1@),
        r.0@ == kept(all@, r.1@),
{
    let ghost orig = all@;
    let ghost f0 = filter;
    let n = all.len();
    let mut work = all;
    let mut rev: Vec<T> = Vec::new();
    while work.len() > 0
        invariant
            n == orig.len(),
            work@ == orig.subrange(0, work@.len() as int),
            rev@.len() + work@.len() == n,
            forall|t: int| 0 <= t < rev@.len() ==> #[trigger] rev@[t] == orig[n - 1 - t],
        decreases work@.len(),
    {
        let ghost before = work@;
        match work.pop() {
            Some(x) => {
                rev.push(x);
                proof {
                    assert(work@ =~= orig.subrange(0, work@.len() as int));
                }
            },
            None => {},
        }
    }
    let mut filter = filter;
    let mut out: Vec<T> = Vec::new();
    let ghost mut keep: Seq<bool> = Seq::empty();
    let ghost mut i: int = 0;
    proof {
        assert(orig.subrange(0, 0) =~= Seq::<T>::empty());
    }
    while rev.len() > 0
        invariant
            n == orig.len(),
            i + rev@.len() == n,
            0 <= i <= n,
            forall|t: int| 0 <= t < rev@.len() ==> #[trigger] rev@[t] == orig[n - 1 - t],
            forall|x: T| #[trigger] filter.requires((&x,)),
            filter == f0,
            keep.len() == i,
            forall|t: int| 0 <= t < i ==> #[trigger] f0.ensures((&orig[t],), keep[t]),
            out@ == kept(orig.subrange(0, i), keep),
        decreases rev@.len(),
    {
        let ghost r0 = rev@;
        match rev.pop() {
            Some(x) => {
                proof {
                    assert(x == r0[r0.len() - 1]);
                    assert(x == orig[i]);
                }
                let b = filter(&x);
                if b {
                    out.push(x);
                }
                proof {
                    let keep0 = keep;
                    keep = keep.push(b);
                    let sub = orig.subrange(0, i + 1);
                    assert(sub.drop_last() =~= orig.subrange(0, i));
                    assert(keep.drop_last() =~= keep0);
                    assert(sub.last() == orig[i]);
                    i = i + 1;
                }
            },
            None => {},
        }
    }
    proof {
        assert(orig.subrange(0, n as int) =~= orig);
    }
    (out, Ghost(keep))
}

/// The outcome of a query that must match exactly one entity: the match itself, or the error
/// that says whether there was none or more than one.
pub open spec fn spec_single_match<T>(matches: Seq<T>) -> Result<T, EcsError> {
    if matches.len() == 0 {
        Err(EcsError::ComponentNotFound)
    } else if matches.len() == 1 {
        Ok(matches[0])
    } else {
        Err(EcsError::MultipleComponentsFound)
    }
}

/// Returns the only element of `matches`, or the error that says whether there was none or
/// more than one.
pub fn single_match<T>(matches: Vec<T>) -> (r: Result<T, EcsError>)
    ensures
        r == spec_single_match(matches@),
{
    let mut matches = matches;
    let n = matches.len();
    if n == 0 {
        Err(EcsError::ComponentNotFound)
    } else if n == 1 {
        match matches.pop() {
            Some(m) => Ok(m),
            None => Err(EcsError::ComponentNotFound),
        }
    } else {
        Err(EcsError::MultipleComponentsFound)
    }
}

} // verus!
