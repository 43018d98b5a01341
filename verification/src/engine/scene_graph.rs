use vstd::prelude::*;
use crate::ecs::assembly::Assembly;
use crate::ecs::component_group::ComponentTrait;
use crate::ecs::entity::Entity;
use crate::ecs::error::EcsError;
use crate::engine::common::forest::{
    detach, forest_wf, lemma_detach_wf, reached, swap_removed, visit_order,
};

verus! {

/// The errors that operations on a `SceneGraph` may report.
#[derive(Debug, Clone, Copy, PartialEq, Eq, Structural)]
pub enum GraphError {
    /// The internal state of the scene graph is irreparably out of sync with the assembly.
    InconsistentState(EcsError),
    /// The entity was not found.
    EntityNotFound(Entity),
    /// The entity was found more than once.
    MultipleEntitiesFound(Entity),
    /// The root node may not be removed.
    CannotRemoveRootNode,
    /// The specified node was not found.
    NodeNotFound,
}

impl From<EcsError> for GraphError {
    fn from(value: EcsError) -> (r: GraphError) {
        GraphError::InconsistentState(value)
    }
}

impl vstd::std_specs::convert::FromSpecImpl<EcsError> for GraphError {
    open spec fn obeys_from_spec() -> bool {
        true
    }

    open spec fn from_spec(value: EcsError) -> GraphError {
        GraphError::InconsistentState(value)
    }
}

/// `true` if `e` is what a failed lookup of a component of `entity` in `entities` becomes: the
/// assembly's own error, wrapped as an inconsistent state.
pub open spec fn lookup_error(entities: Assembly, entity: Entity, e: GraphError) -> bool {
    &&& e matches GraphError::InconsistentState(inner)
    &&& (inner == EcsError::EntityNotFound(entity) <==> !entities.spec_has_entity(entity))
    &&& (inner == EcsError::EntityNotFound(entity) || inner == EcsError::ComponentNotFound)
}

/// Each `SceneNode` contains an `Entity` and the corresponding topological component.
#[derive(Clone)]
pub struct SceneNode<C: ComponentTrait + Clone> {
    /// The `Entity` referenced by the current `SceneNode`.
    pub entity: Entity,
    /// The component of the above `Entity` that has a hierarchical or topological dependency.
    pub component: C,
}

impl<C: ComponentTrait + Clone> SceneNode<C> {
    /// Creates a new `SceneNode`.
    pub fn new(entity: Entity, component: C) -> (n: Self)
        ensures
            n.entity == entity,
            n.component == component,
    {
        SceneNode { entity, component }
    }

    /// Updates the topological component of the `SceneNode` with respect to the local component
    /// stored in the `Assembly`, the parent `SceneNode`'s component, and a merge closure that
    /// returns a new joint component given two input components of the same type. More
    /// specifically, `merge_fn` receives a reference to the parent node's topological component
    /// and a reference to the current node's local component, and provides the new topological
    /// component of the current node. Without a parent, the local component is cloned.
    pub fn update<F: Fn(&C, &C) -> C>(
        &mut self,
        entities: &Assembly,
        parent_component: Option<&C>,
        merge_fn: &F,
    ) -> (r: Result<(), GraphError>)
        requires
            forall|a: &C, b: &C| #[trigger] merge_fn.requires((a, b)),
        ensures
            final(self).entity == old(self).entity,
            !entities.spec_has_entity(old(self).entity) ==> r is Err,
            r matches Err(e) ==> lookup_error(*entities, old(self).entity, e),
            r is Err ==> *final(self) == *old(self),
            r is Ok ==> merged(deref_option(parent_component), final(self).component, merge_fn),
    {
        let cc = match entities.borrow_component::<C>(&self.entity) {
            Ok(c) => c,
            Err(e) => { return Err(GraphError::InconsistentState(e)); },
        };
        match parent_component {
            Some(pc) => {
                let v = merge_fn(pc, cc);
                assert(merged(deref_option(parent_component), v, merge_fn));
                self.component = v;
            },
            None => {
                let v = cc.clone();
                assert(cloned(*cc, v));
                assert(merged(deref_option(parent_component), v, merge_fn));
                self.component = v;
            },
        }
        Ok(())
    }
}

/// The value behind an optional reference.
pub open spec fn deref_option<C>(o: Option<&C>) -> Option<C> {
    match o {
        Some(c) => Some(*c),
        None => None,
    }
}

/// `true` if `value` is what a node's update can produce from some local component: the merge of
/// the parent's component with it, or, without a parent, a clone of it.
pub open spec fn merged<C: Clone, F: Fn(&C, &C) -> C>(parent: Option<C>, value: C, merge_fn: &F) -> bool {
    match parent {
        Some(pc) => merged_from(pc, value, merge_fn),
        None => cloned_from(value),
    }
}

/// `true` if `value` is a merge of `parent` with some local component.
pub open spec fn merged_from<C: Clone, F: Fn(&C, &C) -> C>(parent: C, value: C, merge_fn: &F) -> bool {
    exists|cc: &C| #[trigger] merge_fn.ensures((&parent, cc), value)
}

/// `true` if `value` is a clone of some component.
pub open spec fn cloned_from<C: Clone>(value: C) -> bool {
    exists|cc: C| #[trigger] cloned(cc, value)
}

/// The index of the last node in `nodes` that holds `entity`, or `-1` where none does. Lookups
/// by entity go to that node.
pub open spec fn last_index_of<C: ComponentTrait + Clone>(nodes: Seq<SceneNode<C>>, entity: Entity) -> int
    decreases nodes.len(),
{
    if nodes.len() == 0 {
        -1
    } else if nodes.last().entity == entity {
        nodes.len() - 1
    } else {
        last_index_of(nodes.drop_last(), entity)
    }
}

/// `last_index_of` gives `-1` or the index of a node with the entity, after which no node has it.
pub proof fn lemma_last_index_of<C: ComponentTrait + Clone>(nodes: Seq<SceneNode<C>>, entity: Entity)
    ensures
        -1 <= last_index_of(nodes, entity) < nodes.len(),
        last_index_of(nodes, entity) >= 0 ==> nodes[last_index_of(nodes, entity)].entity == entity,
        forall|j: int| last_index_of(nodes, entity) < j < nodes.len() ==> nodes[j].entity != entity,
    decreases nodes.len(),
{
    if nodes.len() > 0 && nodes.last().entity != entity {
        let prefix = nodes.drop_last();
        lemma_last_index_of(prefix, entity);
        assert forall|j: int| last_index_of(nodes, entity) < j < nodes.len() implies nodes[j].entity
            != entity by {
            if j < prefix.len() {
                assert(prefix[j] == nodes[j]);
            }
        }
    }
}

/// Where no node from `k` on holds the entity, the lookup is the same on the first `k` nodes.
proof fn lemma_last_index_of_prefix<C: ComponentTrait + Clone>(
    nodes: Seq<SceneNode<C>>,
    entity: Entity,
    k: int,
)
    requires
        0 <= k <= nodes.len(),
        forall|j: int| k <= j < nodes.len() ==> nodes[j].entity != entity,
    ensures
        last_index_of(nodes, entity) == last_index_of(nodes.subrange(0, k), entity),
    decreases nodes.len() - k,
{
    if k < nodes.len() {
        assert(nodes.drop_last().subrange(0, k) =~= nodes.subrange(0, k));
        lemma_last_index_of_prefix(nodes.drop_last(), entity, k);
    } else {
        assert(nodes.subrange(0, k) =~= nodes);
    }
}

/// The component that node `i` is updated from: none for the start node, else its parent's.
pub open spec fn parent_value<C: ComponentTrait + Clone>(
    nodes: Seq<SceneNode<C>>,
    parents: Seq<Option<usize>>,
    start: int,
    i: int,
) -> Option<C> {
    if i == start {
        None
    } else {
        Some(nodes[parents[i].unwrap() as int].component)
    }
}

/// `true` if every node below `start`, `start` included, holds what its update can produce from
/// its parent's component (see `merged`).
pub open spec fn propagated<C: ComponentTrait + Clone, F: Fn(&C, &C) -> C>(
    nodes: Seq<SceneNode<C>>,
    parents: Seq<Option<usize>>,
    ranks: Seq<nat>,
    start: int,
    merge_fn: &F,
) -> bool {
    forall|i: int|
        0 <= i < nodes.len() && #[trigger] reached(parents, ranks, start, i) ==> merged(
            parent_value(nodes, parents, start, i),
            nodes[i].component,
            merge_fn,
        )
}

/// A tree of `SceneNode`s below a root node; nodes whose parent was removed stay in the graph
/// without a parent. Lookups by entity go to the last node that holds the entity.
pub struct SceneGraph<C: ComponentTrait + Clone> {
    root_entity: Entity,
    nodes: Vec<SceneNode<C>>,
    parents: Vec<Option<usize>>,
    ranks: Ghost<Seq<nat>>,
}

impl<C: ComponentTrait + Clone> SceneGraph<C> {
    /// The nodes, in the order of insertion.
    pub closed spec fn nodes(&self) -> Seq<SceneNode<C>> {
        self.nodes@
    }

    /// The index of each node's parent; `None` for the root and for nodes whose parent was
    /// removed.
    pub closed spec fn parents(&self) -> Seq<Option<usize>> {
        self.parents@
    }
    /// A rank for each node, smaller for a parent than for its children.
    pub closed spec fn ranks(&self) -> Seq<nat> {
        self.ranks@
    }

    /// The entity of the root node.
    pub closed spec fn root_entity(&self) -> Entity {
        self.root_entity
    }

    /// The index of the node that a lookup of `entity` goes to, or `-1`.
    pub open spec fn index_of(&self, entity: Entity) -> int {
        last_index_of(self.nodes(), entity)
    }

    /// The index of the node that updates start from: the node of the root entity.
    pub open spec fn start(&self) -> int {
        self.index_of(self.root_entity())
    }

    /// `true` if a node holds `entity`.
    pub open spec fn spec_has(&self, entity: Entity) -> bool {
        self.index_of(entity) >= 0
    }

    /// The component that a lookup of `entity` finds.
    pub open spec fn component_of(&self, entity: Entity) -> C {
        self.nodes()[self.index_of(entity)].component
    }

    /// Well-formedness: the root node comes first and has no parent, and the parent references
    /// form a forest.
    pub open spec fn wf(&self) -> bool {
        &&& self.nodes().len() >= 1
        &&& self.nodes().len() == self.parents().len()
        &&& self.nodes()[0].entity == self.root_entity()
        &&& self.parents()[0] is None
        &&& forest_wf(self.parents(), self.ranks())
    }

    /// Creates a new `SceneGraph` that holds only the root node.
    pub fn new(root_node: SceneNode<C>) -> (g: Self)
        ensures
            g.wf(),
            g.nodes() == seq![root_node],
            g.parents() == seq![None::<usize>],
            g.root_entity() == root_node.entity,
    {
        let root_entity = root_node.entity;
        let mut nodes: Vec<SceneNode<C>> = Vec::new();
        nodes.push(root_node);
        let mut parents: Vec<Option<usize>> = Vec::new();
        parents.push(None);
        let ghost ranks: Seq<nat> = seq![0nat];
        SceneGraph { root_entity, nodes, parents, ranks: Ghost(ranks) }
    }

    /// Returns the index of the node that holds `entity`, the last one where several do.
    fn get_index(&self, entity: &Entity) -> (r: Result<usize, GraphError>)
        ensures
            r matches Ok(i) ==> i == self.index_of(*entity),
            r matches Err(e) ==> e == GraphError::EntityNotFound(*entity),
            r is Ok <==> self.spec_has(*entity),
    {
        let ghost nodes = self.nodes();
        let mut k: usize = self.nodes.len();
        while k > 0
            invariant
                nodes == self.nodes(),
                k <= self.nodes.len() == nodes.len(),
                forall|j: int| k <= j < nodes.len() ==> nodes[j].entity != *entity,
            decreases k,
        {
            if self.nodes[k - 1].entity == *entity {
                proof {
                    lemma_last_index_of_prefix(nodes, *entity, k as int);
                    assert(nodes.subrange(0, k as int).last() == nodes[k - 1]);
                }
                return Ok(k - 1);
            }
            k = k - 1;
        }
        proof {
            lemma_last_index_of_prefix(nodes, *entity, 0);
        }
        Err(GraphError::EntityNotFound(*entity))
    }

    /// Returns `true` if the specified `Entity` is represented within the `SceneGraph`.
    pub fn has(&self, entity: &Entity) -> (r: bool)
        ensures
            r == self.spec_has(*entity),
    {
        self.get_index(entity).is_ok()
    }

    /// Inserts a `SceneNode` as child of another `SceneNode` defined by an `Entity`.
    pub fn insert_child(&mut self, entity: &Entity, node: SceneNode<C>) -> (r: Result<(), GraphError>)
        requires
            old(self).wf(),
        ensures
            final(self).wf(),
            final(self).root_entity() == old(self).root_entity(),
            r is Ok <==> old(self).spec_has(*entity),
            r matches Err(e) ==> e == GraphError::EntityNotFound(*entity),
            r is Ok ==> final(self).nodes() == old(self).nodes().push(node),
            r is Ok ==> final(self).parents() == old(self).parents().push(
                Some(old(self).index_of(*entity) as usize),
            ),
            r is Err ==> final(self).nodes() == old(self).nodes() && final(self).parents() == old(
                self,
            ).parents(),
    {
        let idx = match self.get_index(entity) {
            Ok(i) => i,
            Err(e) => { return Err(e); },
        };
        proof {
            lemma_last_index_of(self.nodes@, *entity);
        }
        self.nodes.push(node);
        self.parents.push(Some(idx));
        self.ranks = Ghost(self.ranks@.push(self.ranks@[idx as int] + 1));
        Ok(())
    }

    /// Inserts a `SceneNode` as child of the root `SceneNode`.
    pub fn insert(&mut self, node: SceneNode<C>) -> (r: Result<(), GraphError>)
        requires
            old(self).wf(),
        ensures
            final(self).wf(),
            final(self).root_entity() == old(self).root_entity(),
            r is Ok,
            final(self).nodes() == old(self).nodes().push(node),
            final(self).parents() == old(self).parents().push(
                Some(old(self).index_of(old(self).root_entity()) as usize),
            ),
    {
        proof {
            lemma_last_index_of(self.nodes@, self.root_entity);
        }
        let ent = self.root_entity;
        self.insert_child(&ent, node)
    }

    /// Deletes the `SceneNode` defined by the specified `Entity`; the last node takes its place.
    /// The children of the deleted node stay in the graph, without a parent.
    pub fn remove(&mut self, entity: &Entity) -> (r: Result<(), GraphError>)
        requires
            old(self).wf(),
        ensures
            final(self).wf(),
            final(self).root_entity() == old(self).root_entity(),
            *entity == old(self).root_entity() ==> r == Err::<(), GraphError>(
                GraphError::CannotRemoveRootNode,
            ),
            *entity != old(self).root_entity() && !old(self).spec_has(*entity) ==> r == Err::<
                (),
                GraphError,
            >(GraphError::EntityNotFound(*entity)),
            r is Ok <==> *entity != old(self).root_entity() && old(self).spec_has(*entity),
            r is Ok ==> final(self).nodes() == swap_removed(
                old(self).nodes(),
                old(self).index_of(*entity),
            ),
            r is Ok ==> final(self).parents() == detach(
                old(self).parents(),
                old(self).index_of(*entity),
            ),
            r is Err ==> final(self).nodes() == old(self).nodes() && final(self).parents() == old(
                self,
            ).parents() && final(self).ranks() == old(self).ranks(),
    {
        if *entity == self.root_entity {
            return Err(GraphError::CannotRemoveRootNode);
        }
        let idx = match self.get_index(entity) {
            Ok(i) => i,
            Err(e) => { return Err(e); },
        };
        proof {
            lemma_last_index_of(self.nodes@, *entity);
            lemma_detach_wf(self.parents@, self.ranks@, idx as int);
        }
        let ghost old_parents = self.parents@;
        let ghost old_nodes = self.nodes@;
        let last = self.parents.len() - 1;
        self.nodes.swap_remove(idx);
        self.parents.swap_remove(idx);
        self.ranks = Ghost(swap_removed(self.ranks@, idx as int));
        proof {
            assert(self.nodes@ =~= swap_removed(old_nodes, idx as int));
            assert(self.parents@ =~= swap_removed(old_parents, idx as int));
        }
        let ghost moved = self.parents@;
        let ghost root = self.root_entity;
        let ghost kept = self.nodes@;
        let ghost ranks = self.ranks@;
        let n = self.parents.len();
        let mut j: usize = 0;
        while j < n
            invariant
                n == self.parents.len() == moved.len() == self.nodes@.len() == last,
                self.root_entity == root,
                self.nodes@ == kept,
                self.ranks@ == ranks,
                0 < idx <= last,
                j <= n,
                old_parents.len() == last + 1,
                moved == swap_removed(old_parents, idx as int),
                forall|k: int| j <= k < n ==> self.parents@[k] == moved[k],
                forall|k: int| 0 <= k < j ==> self.parents@[k] == detach(old_parents, idx as int)[k],
            decreases n - j,
        {
            let fixed = match self.parents[j] {
                Some(q) => if q == idx {
                    None
                } else if q == last {
                    Some(idx)
                } else {
                    Some(q)
                },
                None => None,
            };
            self.parents.set(j, fixed);
            j = j + 1;
        }
        proof {
            assert(self.parents@ =~= detach(old_parents, idx as int));
            assert(kept[0] == old_nodes[0]);
            assert(self.parents@[0] == detach(old_parents, idx as int)[0]);
        }
        Ok(())
    }

    /// Recursively updates the entire `SceneGraph` given the `Assembly` and a component merger
    /// closure (see `SceneNode::update`): the node of the root entity first, then every node
    /// below it after its parent. Nodes outside the root's tree keep their components.
    pub fn update<F: Fn(&C, &C) -> C>(&mut self, entities: &Assembly, merge_fn: &F) -> (r: Result<
        (),
        GraphError,
    >)
        requires
            old(self).wf(),
            forall|a: &C, b: &C| #[trigger] merge_fn.requires((a, b)),
        ensures
            final(self).wf(),
            final(self).root_entity() == old(self).root_entity(),
            final(self).parents() == old(self).parents(),
            final(self).ranks() == old(self).ranks(),
            final(self).nodes().len() == old(self).nodes().len(),
            forall|i: int|
                0 <= i < old(self).nodes().len() ==> #[trigger] final(self).nodes()[i].entity == old(
                    self,
                ).nodes()[i].entity,
            r is Ok ==> forall|i: int|
                0 <= i < old(self).nodes().len() && #[trigger] reached(
                    old(self).parents(),
                    old(self).ranks(),
                    old(self).start(),
                    i,
                ) ==> entities.spec_has_entity(old(self).nodes()[i].entity),
            r matches Err(e) ==> exists|i: int|
                0 <= i < old(self).nodes().len() && #[trigger] reached(
                    old(self).parents(),
                    old(self).ranks(),
                    old(self).start(),
                    i,
                ) && lookup_error(*entities, old(self).nodes()[i].entity, e),
            r is Ok ==> propagated(
                final(self).nodes(),
                old(self).parents(),
                old(self).ranks(),
                old(self).start(),
                merge_fn,
            ),
            r is Ok ==> forall|i: int|
                0 <= i < old(self).nodes().len() && !#[trigger] reached(
                    old(self).parents(),
                    old(self).ranks(),
                    old(self).start(),
                    i,
                ) ==> final(self).nodes()[i] == old(self).nodes()[i],
    {
        proof {
            lemma_last_index_of(self.nodes@, self.root_entity);
        }
        let start = match self.get_index(&self.root_entity) {
            Ok(i) => i,
            Err(e) => { return Err(e); },
        };
        let order = visit_order(&self.parents, start, Ghost(self.ranks@));
        let ghost old_nodes = self.nodes@;
        let ghost ps = self.parents@;
        let ghost rk = self.ranks@;
        let ghost root = self.root_entity;
        let n = self.nodes.len();
        let mut t: usize = 0;
        while t < order.len()
            invariant
                n == self.nodes@.len() == old_nodes.len() == ps.len(),
                self.parents@ == ps,
                self.ranks@ == rk,
                self.root_entity == root,
                root == old(self).root_entity,
                ps == old(self).parents@,
                rk == old(self).ranks@,
                old_nodes == old(self).nodes@,
                start == old(self).start(),
                start < n,
                old(self).wf(),
                forall|a: &C, b: &C| #[trigger] merge_fn.requires((a, b)),
                t <= order@.len(),
                order@.len() > 0,
                order@[0] == start,
                order@.no_duplicates(),
                forall|s: int| 0 <= s < order@.len() ==> #[trigger] order@[s] < n,
                forall|s: int|
                    0 < s < order@.len() ==> #[trigger] ps[order@[s] as int] is Some && order@.subrange(
                        0,
                        s,
                    ).contains(ps[order@[s] as int].unwrap()),
                forall|k: int|
                    0 <= k < n ==> (order@.contains(k as usize) <==> #[trigger] reached(
                        ps,
                        rk,
                        start as int,
                        k,
                    )),
                forall|k: int| 0 <= k < n ==> #[trigger] self.nodes@[k].entity == old_nodes[k].entity,
                forall|k: int|
                    0 <= k < n && !order@.subrange(0, t as int).contains(k as usize)
                        ==> #[trigger] self.nodes@[k] == old_nodes[k],
                forall|s: int|
                    0 <= s < t ==> entities.spec_has_entity(old_nodes[#[trigger] order@[s] as int].entity),
                forall|s: int|
                    0 <= s < t ==> merged(
                        parent_value(self.nodes@, ps, start as int, #[trigger] order@[s] as int),
                        self.nodes@[order@[s] as int].component,
                        merge_fn,
                    ),
            decreases order@.len() - t,
        {
            let i = order[t];
            let entity = self.nodes[i].entity;
            let cc = match entities.borrow_component::<C>(&entity) {
                Ok(c) => c,
                Err(e) => {
                    proof {
                        assert(order@[t as int] == i);
                        assert(order@.contains(i));
                        assert(lookup_error(*entities, old_nodes[i as int].entity, GraphError::InconsistentState(e)));
                        assert(reached(old(self).parents(), old(self).ranks(), old(self).start(), i as int));
                    }
                    return Err(GraphError::InconsistentState(e));
                },
            };
            let v = if i == start {
                let v = cc.clone();
                assert(cloned(*cc, v));
                v
            } else {
                let p = self.parents[i].unwrap();
                let v = merge_fn(&self.nodes[p].component, cc);
                assert(merge_fn.ensures((&self.nodes@[p as int].component, cc), v));
                v
            };
            let ghost before = self.nodes@;
            proof {
                assert(!order@.subrange(0, t as int).contains(i)) by {
                    if order@.subrange(0, t as int).contains(i) {
                        let s = order@.subrange(0, t as int).index_of(i);
                        assert(order@[s] == order@[t as int]);
                    }
                }
                assert(before[i as int] == old_nodes[i as int]);
            }
            self.nodes.set(i, SceneNode { entity, component: v });
            proof {
                assert(order@.subrange(0, t + 1) =~= order@.subrange(0, t as int).push(i));
                assert forall|s: int| 0 <= s < t + 1 implies merged(
                    parent_value(self.nodes@, ps, start as int, #[trigger] order@[s] as int),
                    self.nodes@[order@[s] as int].component,
                    merge_fn,
                ) by {
                    let k = order@[s] as int;
                    if s < t {
                        assert(k != i);
                        assert(self.nodes@[k] == before[k]);
                        if k != start {
                            let q = ps[k].unwrap() as int;
                            let sq = order@.subrange(0, s).index_of(q as usize);
                            assert(order@[sq] == q);
                            assert(q != i);
                            assert(self.nodes@[q] == before[q]);
                        }
                        assert(parent_value(self.nodes@, ps, start as int, k) == parent_value(
                            before,
                            ps,
                            start as int,
                            k,
                        ));
                    } else if k != start {
                        let q = ps[k].unwrap() as int;
                        let sq = order@.subrange(0, s).index_of(q as usize);
                        assert(order@[sq] == q);
                        assert(q != i);
                        assert(self.nodes@[q] == before[q]);
                    }
                }
                assert(order@.subrange(0, t + 1)[t as int] == i);
                assert forall|k: int|
                    0 <= k < n && !order@.subrange(0, t + 1).contains(k as usize)
                        implies #[trigger] self.nodes@[k] == old_nodes[k] by {
                    assert(k != i);
                    assert(!order@.subrange(0, t as int).contains(k as usize)) by {
                        if order@.subrange(0, t as int).contains(k as usize) {
                            let s = order@.subrange(0, t as int).index_of(k as usize);
                            assert(order@.subrange(0, t + 1)[s] == k as usize);
                        }
                    }
                }
            }
            t = t + 1;
        }
        proof {
            assert(order@.subrange(0, t as int) =~= order@);
            assert forall|k: int|
                0 <= k < n && #[trigger] reached(ps, rk, start as int, k) implies merged(
                    parent_value(self.nodes@, ps, start as int, k),
                    self.nodes@[k].component,
                    merge_fn,
                ) && entities.spec_has_entity(old_nodes[k].entity) by {
                let s = order@.index_of(k as usize);
                assert(order@[s] == k);
            }
        }
        Ok(())
    }

    /// Mutably borrows the component from the `SceneNode` defined by the specified `Entity`.
    pub fn borrow_mut(&mut self, entity: &Entity) -> (r: Result<&mut C, GraphError>)
        requires
            old(self).wf(),
        ensures
            final(self).wf(),
            final(self).root_entity() == old(self).root_entity(),
            final(self).parents() == old(self).parents(),
            r is Ok <==> old(self).spec_has(*entity),
            r matches Err(e) ==> e == GraphError::EntityNotFound(*entity) && final(self).nodes()
                == old(self).nodes(),
            r matches Ok(c) ==> *c == old(self).component_of(*entity) && final(self).nodes()
                == old(self).nodes().update(
                old(self).index_of(*entity),
                SceneNode { entity: *entity, component: *final(c) },
            ),
    {
        let idx = match self.get_index(entity) {
            Ok(i) => i,
            Err(e) => { return Err(e); },
        };
        proof {
            lemma_last_index_of(self.nodes@, *entity);
        }
        Ok(&mut self.nodes[idx].component)
    }

    /// The nodes of the graph, in the order of insertion.
    pub fn iter(&self) -> (r: &[SceneNode<C>])
        ensures
            r@ == self.nodes(),
    {
        self.nodes.as_slice()
    }

    /// Borrows the component from the `SceneNode` defined by the specified `Entity`.
    pub fn borrow(&self, entity: &Entity) -> (r: Result<&C, GraphError>)
        ensures
            r is Ok <==> self.spec_has(*entity),
            r matches Err(e) ==> e == GraphError::EntityNotFound(*entity),
            r matches Ok(c) ==> *c == self.component_of(*entity),
    {
        let idx = match self.get_index(entity) {
            Ok(i) => i,
            Err(e) => { return Err(e); },
        };
        proof {
            lemma_last_index_of(self.nodes@, *entity);
        }
        Ok(&self.nodes[idx].component)
    }
}

/// After a node was added, a lookup of its entity finds it and its component.
pub proof fn lemma_inserted_node_is_found<C: ComponentTrait + Clone>(
    before: Seq<SceneNode<C>>,
    node: SceneNode<C>,
)
    ensures
        last_index_of(before.push(node), node.entity) == before.len(),
        before.push(node)[last_index_of(before.push(node), node.entity)].component == node.component,
{
}

/// Adding a node leaves the lookups of every other entity as they were.
pub proof fn lemma_insert_keeps_other_lookups<C: ComponentTrait + Clone>(
    before: Seq<SceneNode<C>>,
    node: SceneNode<C>,
    other: Entity,
)
    requires
        other != node.entity,
    ensures
        last_index_of(before.push(node), other) == last_index_of(before, other),
{
    assert(before.push(node).drop_last() =~= before);
}

/// Removing the only node that holds an entity makes lookups of that entity fail.
pub proof fn lemma_removed_entity_is_gone<C: ComponentTrait + Clone>(
    before: Seq<SceneNode<C>>,
    entity: Entity,
)
    requires
        last_index_of(before, entity) >= 0,
        forall|j: int|
            0 <= j < before.len() && j != last_index_of(before, entity) ==> before[j].entity
                != entity,
    ensures
        last_index_of(swap_removed(before, last_index_of(before, entity)), entity) == -1,
{
    let idx = last_index_of(before, entity);
    lemma_last_index_of(before, entity);
    let after = swap_removed(before, idx);
    lemma_last_index_of(after, entity);
    if last_index_of(after, entity) >= 0 {
        let j = last_index_of(after, entity);
        let old_j = if j == idx { before.len() - 1 } else { j };
        assert(after[j] == before[old_j]);
    }
}

} // verus!
