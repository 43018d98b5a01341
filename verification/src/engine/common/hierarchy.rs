use std::hash::Hash;
use vstd::prelude::*;
use crate::engine::common::forest::{
    detach, forest_wf, lemma_detach_wf, lemma_reached_rank, reached, swap_removed, visit_order,
};

verus! {

/// The errors that operations on a `Hierarchy` may report.
#[derive(Debug, Clone, Copy, PartialEq, Eq, Structural)]
pub enum GraphError {
    /// The key was not found.
    KeyNotFound,
    /// The key was found more than once.
    MultipleKeysFound,
    /// The root node may not be removed.
    CannotRemoveRootNode,
    /// The specified node was not found.
    NodeNotFound,
}

/// Each `HierNode` consists of an identifying key and the associated data.
#[derive(Default, Clone)]
pub struct HierNode<K, V: Clone + Default> {
    /// Provides access to the identifying key.
    pub key: K,
    /// Provides access to the hierarchical data.
    pub data: V,
}

impl<K, V: Clone + Default> HierNode<K, V> {
    /// Creates a new `HierNode`.
    pub fn new(key: K, data: V) -> (n: Self)
        ensures
            n.key == key,
            n.data == data,
    {
        HierNode { key, data }
    }

    /// Given the parent node's data, updates the current node's data with the supplied closure.
    /// This allows users to establish hierarchical relationships between instances of a type. As
    /// arguments, the closure receives the current node's key and a reference to its parent
    /// node's data.
    pub fn update<F: Fn(&K, &V) -> V>(&mut self, parent_data: &V, merge_fn: &F)
        requires
            forall|k: &K, v: &V| #[trigger] merge_fn.requires((k, v)),
        ensures
            final(self).key == old(self).key,
            merge_fn.ensures((&old(self).key, parent_data), final(self).data),
    {
        self.data = merge_fn(&self.key, parent_data);
    }
}

/// `true` if `data` is what a node with key `key` receives from its parent's data `parent`: the
/// closure's result on the key and a clone of the parent's data.
pub open spec fn derived_from<K, V: Clone, F: Fn(&K, &V) -> V>(key: K, parent: V, data: V, merge_fn: &F) -> bool {
    exists|pd: V| #[trigger] cloned(parent, pd) && merge_fn.ensures((&key, &pd), data)
}

/// `true` if an update that starts from node `start` takes the nodes from `before` to `after`:
/// every node reached from `start` that has a parent gets its data from its parent's new data,
/// every other node keeps its data.
pub open spec fn updated_from<K, V: Clone + Default, F: Fn(&K, &V) -> V>(
    before: Seq<HierNode<K, V>>,
    after: Seq<HierNode<K, V>>,
    parents: Seq<Option<usize>>,
    ranks: Seq<nat>,
    start: int,
    merge_fn: &F,
) -> bool {
    &&& forall|i: int|
        0 <= i < before.len() && #[trigger] reached(parents, ranks, start, i) && parents[i] is Some
            ==> derived_from(after[i].key, after[parents[i].unwrap() as int].data, after[i].data, merge_fn)
    &&& forall|i: int|
        0 <= i < before.len() && !(reached(parents, ranks, start, i) && parents[i] is Some) ==> #[trigger] after[i]
            == before[i]
}

/// The index of the last node whose key is `key`, or `-1`.
pub open spec fn last_index_of<K, V: Clone + Default>(nodes: Seq<HierNode<K, V>>, key: K) -> int
    decreases nodes.len(),
{
    if nodes.len() == 0 {
        -1
    } else if nodes.last().key == key {
        nodes.len() - 1
    } else {
        last_index_of(nodes.drop_last(), key)
    }
}

/// `last_index_of` gives `-1` or the index of a node with the key, after which no node has it.
pub proof fn lemma_last_index_of<K, V: Clone + Default>(nodes: Seq<HierNode<K, V>>, key: K)
    ensures
        -1 <= last_index_of(nodes, key) < nodes.len(),
        last_index_of(nodes, key) >= 0 ==> nodes[last_index_of(nodes, key)].key == key,
        forall|j: int| last_index_of(nodes, key) < j < nodes.len() ==> nodes[j].key != key,
    decreases nodes.len(),
{
    if nodes.len() > 0 && nodes.last().key != key {
        let prefix = nodes.drop_last();
        lemma_last_index_of(prefix, key);
        assert forall|j: int| last_index_of(nodes, key) < j < nodes.len() implies nodes[j].key != key by {
            if j < prefix.len() {
                assert(prefix[j] == nodes[j]);
            }
        }
    }
}

/// Where no node from `k` on has the key, the lookup is the same on the first `k` nodes.
proof fn lemma_last_index_of_prefix<K, V: Clone + Default>(
    nodes: Seq<HierNode<K, V>>,
    key: K,
    k: int,
)
    requires
        0 <= k <= nodes.len(),
        forall|j: int| k <= j < nodes.len() ==> nodes[j].key != key,
    ensures
        last_index_of(nodes, key) == last_index_of(nodes.subrange(0, k), key),
    decreases nodes.len() - k,
{
    if k < nodes.len() {
        assert(nodes.drop_last().subrange(0, k) =~= nodes.subrange(0, k));
        lemma_last_index_of_prefix(nodes.drop_last(), key, k);
    } else {
        assert(nodes.subrange(0, k) =~= nodes);
    }
}

/// Given a set of identifying keys and corresponding data, `Hierarchy` allows users to establish
/// hierarchical relationships between individual instances of the data type. The nodes form a
/// tree below the first (the root) node; nodes whose parent was removed stay without a parent.
/// Lookups by key go to the last node with that key.
pub struct Hierarchy<K: Clone + Default + Eq + Hash, V: Clone + Default> {
    nodes: Vec<HierNode<K, V>>,
    parents: Vec<Option<usize>>,
    ranks: Ghost<Seq<nat>>,
}

impl<K: Clone + Default + Eq + Hash, V: Clone + Default> Hierarchy<K, V> {
    /// The nodes, in the order of insertion.
    pub closed spec fn nodes(&self) -> Seq<HierNode<K, V>> {
        self.nodes@
    }

    /// The index of each node's parent; `None` for the root and for nodes whose parent was
    /// removed.
    pub closed spec fn parents(&self) -> Seq<Option<usize>> {
        self.parents@
    }

    /// A rank for each node, smaller for a parent than for its children.
    pub closed spec fn ranks(&self) -> Seq<nat> {
        self.ranks@
    }

    /// The key of the root node.
    pub open spec fn root_key(&self) -> K {
        self.nodes()[0].key
    }

    /// The index of the node that a lookup of `key` goes to, or `-1`.
    pub open spec fn index_of(&self, key: K) -> int {
        last_index_of(self.nodes(), key)
    }

    /// The index of the node that updates start from: the node of the root key.
    pub open spec fn start(&self) -> int {
        self.index_of(self.root_key())
    }

    /// `true` if a node has the key.
    pub open spec fn spec_has(&self, key: K) -> bool {
        self.index_of(key) >= 0
    }

    /// The data that a lookup of `key` finds.
    pub open spec fn data_of(&self, key: K) -> V {
        self.nodes()[self.index_of(key)].data
    }

    /// `true` if the key type's `==` is equality: then a lookup by key goes to the last node
    /// with an equal key. For other key types, which node a lookup finds depends on their `==`.
    pub open spec fn keys_compare_by_equality(&self) -> bool {
        vstd::laws_eq::obeys_concrete_eq::<K>()
    }

    /// Well-formedness: the root node comes first and has no parent, and the parent references
    /// form a forest.
    pub open spec fn wf(&self) -> bool {
        &&& self.nodes().len() >= 1
        &&& self.nodes().len() == self.parents().len()
        &&& self.parents()[0] is None
        &&& forest_wf(self.parents(), self.ranks())
    }

    /// Creates a new `Hierarchy` with just a root node, whose key and data are the defaults.
    pub fn new() -> (h: Self)
        ensures
            h.wf(),
            h.nodes().len() == 1,
            h.parents() == seq![None::<usize>],
    {
        Self::default()
    }

    /// Returns the index of the node with the key, the last one where several have it.
    fn get_index(&self, key: &K) -> (r: Result<usize, GraphError>)
        requires
            self.wf(),
        ensures
            r matches Ok(i) ==> i < self.nodes().len(),
            r matches Err(e) ==> e == GraphError::KeyNotFound,
            self.keys_compare_by_equality() ==> (r matches Ok(i) ==> i == self.index_of(*key)),
            self.keys_compare_by_equality() ==> (r is Ok <==> self.spec_has(*key)),
    {
        let ghost nodes = self.nodes();
        let mut k: usize = self.nodes.len();
        while k > 0
            invariant
                nodes == self.nodes(),
                k <= self.nodes.len() == nodes.len(),
                vstd::laws_eq::obeys_concrete_eq::<K>() ==> forall|j: int| k <= j < nodes.len() ==> nodes[j].key != *key,
            decreases k,
        {
            let found = self.nodes[k - 1].key == *key;
            proof {
                reveal(vstd::laws_eq::obeys_concrete_eq);
            }
            if found {
                proof {
                    if vstd::laws_eq::obeys_concrete_eq::<K>() {
                        lemma_last_index_of_prefix(nodes, *key, k as int);
                    }
                    assert(nodes.subrange(0, k as int).last() == nodes[k - 1]);
                }
                return Ok(k - 1);
            }
            k = k - 1;
        }
        proof {
            if vstd::laws_eq::obeys_concrete_eq::<K>() {
                lemma_last_index_of_prefix(nodes, *key, 0);
            }
        }
        Err(GraphError::KeyNotFound)
    }

    /// Appends a node below the node at `parent`.
    fn attach(&mut self, parent: usize, child: K, data: V)
        requires
            old(self).wf(),
            parent < old(self).nodes().len(),
        ensures
            final(self).wf(),
            final(self).nodes() == old(self).nodes().push(HierNode { key: child, data }),
            final(self).parents() == old(self).parents().push(Some(parent)),
    {
        self.nodes.push(HierNode { key: child, data });
        self.parents.push(Some(parent));
        self.ranks = Ghost(self.ranks@.push(self.ranks@[parent as int] + 1));
    }

    /// Inserts a `HierNode` as child of another `HierNode` identified by its key.
    pub fn insert_child(&mut self, parent: &K, child: K, data: V) -> (r: Result<(), GraphError>)
        requires
            old(self).wf(),
        ensures
            final(self).wf(),
            old(self).keys_compare_by_equality() ==> (r is Ok <==> old(self).spec_has(*parent)),
            r matches Err(e) ==> e == GraphError::KeyNotFound,
            r is Ok ==> final(self).nodes() == old(self).nodes().push(HierNode { key: child, data }),
            r is Ok ==> final(self).parents().len() == old(self).parents().len() + 1
                && final(self).parents().drop_last() == old(self).parents(),
            r is Ok && old(self).keys_compare_by_equality() ==> final(self).parents() == old(self).parents().push(
                Some(old(self).index_of(*parent) as usize),
            ),
            r is Err ==> final(self).nodes() == old(self).nodes() && final(self).parents() == old(
                self,
            ).parents(),
    {
        let idx = match self.get_index(parent) {
            Ok(i) => i,
            Err(e) => { return Err(e); },
        };
        proof {
            lemma_last_index_of(self.nodes@, *parent);
        }
        let ghost ps = self.parents@;
        self.attach(idx, child, data);
        proof {
            assert(self.parents@.drop_last() =~= ps);
        }
        Ok(())
    }

    /// Inserts a `HierNode` as child of the root `HierNode`.
    pub fn insert(&mut self, child: K, data: V)
        requires
            old(self).wf(),
        ensures
            final(self).wf(),
            final(self).nodes() == old(self).nodes().push(HierNode { key: child, data }),
            final(self).parents().len() == old(self).parents().len() + 1,
            final(self).parents().drop_last() == old(self).parents(),
            old(self).keys_compare_by_equality() ==> final(self).parents() == old(self).parents().push(Some(old(self).start() as usize)),
    {
        proof {
            lemma_last_index_of(self.nodes@, self.nodes@[0].key);
        }
        let idx = match self.get_index(&self.nodes[0].key) {
            Ok(i) => i,
            Err(_) => 0,
        };
        proof {
            assert(self.nodes@[0].key == self.root_key());
        }
        let ghost ps = self.parents@;
        self.attach(idx, child, data);
        proof {
            assert(self.parents@.drop_last() =~= ps);
        }
    }

    /// Deletes the `HierNode` defined by the specified key; the last node takes its place. The
    /// children of the deleted node stay in the hierarchy, without a parent.
    pub fn remove(&mut self, key: &K) -> (r: Result<(), GraphError>)
        requires
            old(self).wf(),
        ensures
            final(self).wf(),
            old(self).keys_compare_by_equality() && *key == old(self).root_key() ==> r == Err::<(), GraphError>(
                GraphError::CannotRemoveRootNode,
            ),
            old(self).keys_compare_by_equality() && *key != old(self).root_key() && !old(self).spec_has(*key) ==> r == Err::<
                (),
                GraphError,
            >(GraphError::KeyNotFound),
            old(self).keys_compare_by_equality() ==> (r is Ok <==> *key != old(self).root_key() && old(self).spec_has(*key)),
            r matches Err(e) ==> e == GraphError::CannotRemoveRootNode || e == GraphError::KeyNotFound,
            r is Ok ==> exists|i: int|
                0 < i < old(self).nodes().len() && final(self).nodes() == #[trigger] swap_removed(old(self).nodes(), i)
                    && final(self).parents() == detach(old(self).parents(), i),
            r is Ok && old(self).keys_compare_by_equality() ==> final(self).nodes() == swap_removed(old(self).nodes(), old(self).index_of(*key)),
            r is Ok && old(self).keys_compare_by_equality() ==> final(self).parents() == detach(old(self).parents(), old(self).index_of(*key)),
            r is Err ==> final(self).nodes() == old(self).nodes() && final(self).parents() == old(
                self,
            ).parents() && final(self).ranks() == old(self).ranks(),
    {
        let is_root = *key == self.nodes[0].key;
        proof {
            reveal(vstd::laws_eq::obeys_concrete_eq);
        }
        if is_root {
            return Err(GraphError::CannotRemoveRootNode);
        }
        let idx = match self.get_index(key) {
            Ok(i) => i,
            Err(e) => { return Err(e); },
        };
        proof {
            if vstd::laws_eq::obeys_concrete_eq::<K>() {
                lemma_last_index_of(self.nodes@, *key);
            }
        }
        if idx == 0 {
            return Err(GraphError::CannotRemoveRootNode);
        }
        proof {
            lemma_detach_wf(self.parents@, self.ranks@, idx as int);
        }
        let ghost old_parents = self.parents@;
        let ghost old_nodes = self.nodes@;
        let last = self.parents.len() - 1;
        self.nodes.swap_remove(idx);
        self.parents.swap_remove(idx);
        self.ranks = Ghost(swap_removed(self.ranks@, idx as int));
        proof {
            assert(self.nodes@ =~= swap_removed(old_nodes, idx as int));
            assert(self.parents@ =~= swap_removed(old_parents, idx as int));
        }
        let ghost moved = self.parents@;
        let ghost kept = self.nodes@;
        let ghost ranks = self.ranks@;
        let n = self.parents.len();
        let mut j: usize = 0;
        while j < n
            invariant
                n == self.parents.len() == moved.len() == self.nodes@.len() == last,
                self.nodes@ == kept,
                self.ranks@ == ranks,
                0 < idx <= last,
                j <= n,
                old_parents.len() == last + 1,
                moved == swap_removed(old_parents, idx as int),
                forall|k: int| j <= k < n ==> self.parents@[k] == moved[k],
                forall|k: int| 0 <= k < j ==> self.parents@[k] == detach(old_parents, idx as int)[k],
            decreases n - j,
        {
            let fixed = match self.parents[j] {
                Some(q) => if q == idx {
                    None
                } else if q == last {
                    Some(idx)
                } else {
                    Some(q)
                },
                None => None,
            };
            self.parents.set(j, fixed);
            j = j + 1;
        }
        proof {
            assert(self.parents@ =~= detach(old_parents, idx as int));
            assert(self.parents@[0] == detach(old_parents, idx as int)[0]);
        }
        Ok(())
    }

    /// Updates each node below the root in breadth-first order (every node after its parent):
    /// a node's data becomes the closure's result on its key and a clone of its parent's data
    /// (see `HierNode::update`). Nodes outside the root's tree, and nodes without a parent, keep
    /// their data.
    pub fn update<F: Fn(&K, &V) -> V>(&mut self, merge_fn: &F) -> (r: Result<(), GraphError>)
        requires
            old(self).wf(),
            forall|k: &K, v: &V| #[trigger] merge_fn.requires((k, v)),
        ensures
            final(self).wf(),
            r is Ok,
            final(self).parents() == old(self).parents(),
            final(self).ranks() == old(self).ranks(),
            final(self).nodes().len() == old(self).nodes().len(),
            forall|i: int|
                0 <= i < old(self).nodes().len() ==> #[trigger] final(self).nodes()[i].key == old(
                    self,
                ).nodes()[i].key,
            exists|start: int|
                0 <= start < old(self).nodes().len() && #[trigger] updated_from(
                    old(self).nodes(),
                    final(self).nodes(),
                    old(self).parents(),
                    old(self).ranks(),
                    start,
                    merge_fn,
                ),
            old(self).keys_compare_by_equality() ==> updated_from(
                old(self).nodes(),
                final(self).nodes(),
                old(self).parents(),
                old(self).ranks(),
                old(self).start(),
                merge_fn,
            ),
    {
        proof {
            lemma_last_index_of(self.nodes@, self.nodes@[0].key);
        }
        let start = match self.get_index(&self.nodes[0].key) {
            Ok(i) => i,
            Err(_) => 0,
        };
        let order = visit_order(&self.parents, start, Ghost(self.ranks@));
        let ghost old_nodes = self.nodes@;
        let ghost ps = self.parents@;
        let ghost rk = self.ranks@;
        let n = self.nodes.len();
        let mut t: usize = 0;
        while t < order.len()
            invariant
                n == self.nodes@.len() == old_nodes.len() == ps.len(),
                self.parents@ == ps,
                self.ranks@ == rk,
                ps == old(self).parents@,
                rk == old(self).ranks@,
                old_nodes == old(self).nodes@,
                vstd::laws_eq::obeys_concrete_eq::<K>() ==> start == old(self).start(),
                start < n,
                old(self).wf(),
                forall|k: &K, v: &V| #[trigger] merge_fn.requires((k, v)),
                t <= order@.len(),
                order@.len() > 0,
                order@[0] == start,
                order@.no_duplicates(),
                forall|s: int| 0 <= s < order@.len() ==> #[trigger] order@[s] < n,
                forall|s: int|
                    0 < s < order@.len() ==> #[trigger] ps[order@[s] as int] is Some && order@.subrange(
                        0,
                        s,
                    ).contains(ps[order@[s] as int].unwrap()),
                forall|k: int|
                    0 <= k < n ==> (order@.contains(k as usize) <==> #[trigger] reached(
                        ps,
                        rk,
                        start as int,
                        k,
                    )),
                forall|k: int| 0 <= k < n ==> #[trigger] self.nodes@[k].key == old_nodes[k].key,
                forall|k: int|
                    0 <= k < n && !(order@.subrange(0, t as int).contains(k as usize) && ps[k] is Some)
                        ==> #[trigger] self.nodes@[k] == old_nodes[k],
                forall|s: int|
                    0 <= s < t && ps[order@[s] as int] is Some ==> derived_from(
                        self.nodes@[#[trigger] order@[s] as int].key,
                        self.nodes@[ps[order@[s] as int].unwrap() as int].data,
                        self.nodes@[order@[s] as int].data,
                        merge_fn,
                    ),
            decreases order@.len() - t,
        {
            let i = order[t];
            let ghost before = self.nodes@;
            proof {
                assert(order@.subrange(0, t + 1) =~= order@.subrange(0, t as int).push(i));
                assert(order@.subrange(0, t + 1)[t as int] == i);
                assert(!order@.subrange(0, t as int).contains(i)) by {
                    if order@.subrange(0, t as int).contains(i) {
                        let s = order@.subrange(0, t as int).index_of(i);
                        assert(order@[s] == order@[t as int]);
                    }
                }
            }
            if let Some(p) = self.parents[i] {
                let pd = self.nodes[p].data.clone();
                let v = merge_fn(&self.nodes[i].key, &pd);
                proof {
                    assert(cloned(before[p as int].data, pd));
                    assert(merge_fn.ensures((&before[i as int].key, &pd), v));
                    assert(p != i) by {
                        assert(rk[p as int] < rk[i as int]);
                    }
                }
                self.nodes[i].data = v;
            }
            proof {
                assert forall|s: int|
                    0 <= s < t + 1 && ps[order@[s] as int] is Some implies derived_from(
                        self.nodes@[#[trigger] order@[s] as int].key,
                        self.nodes@[ps[order@[s] as int].unwrap() as int].data,
                        self.nodes@[order@[s] as int].data,
                        merge_fn,
                    ) by {
                    let k = order@[s] as int;
                    let q = ps[k].unwrap() as int;
                    assert(q != i) by {
                        if q == i {
                            if s == 0 {
                                lemma_reached_rank(ps, rk, start as int, i as int);
                            } else {
                                let sq = order@.subrange(0, s).index_of(q as usize);
                                assert(order@[sq] == q);
                            }
                        }
                    }
                    assert(self.nodes@[q] == before[q]);
                    if s < t {
                        assert(k != i);
                        assert(self.nodes@[k] == before[k]);
                    } else {
                        assert(k == i);
                        let pd = choose|pd: V| cloned(before[q].data, pd) && merge_fn.ensures((&before[k].key, &pd), self.nodes@[k].data);
                    }
                }
                assert forall|k: int|
                    0 <= k < n && !(order@.subrange(0, t + 1).contains(k as usize) && ps[k] is Some)
                        implies #[trigger] self.nodes@[k] == old_nodes[k] by {
                    if k == i {
                        assert(ps[k] is None);
                    } else {
                        assert(self.nodes@[k] == before[k]);
                        if order@.subrange(0, t as int).contains(k as usize) && ps[k] is Some {
                            let s = order@.subrange(0, t as int).index_of(k as usize);
                            assert(order@.subrange(0, t + 1)[s] == k as usize);
                        }
                    }
                }
            }
            t = t + 1;
        }
        proof {
            assert(order@.subrange(0, t as int) =~= order@);
            assert forall|k: int|
                0 <= k < n && #[trigger] reached(ps, rk, start as int, k) && ps[k] is Some implies derived_from(
                    self.nodes@[k].key,
                    self.nodes@[ps[k].unwrap() as int].data,
                    self.nodes@[k].data,
                    merge_fn,
                ) by {
                let s = order@.index_of(k as usize);
                assert(order@[s] == k);
            }
            assert forall|k: int|
                0 <= k < n && !(reached(ps, rk, start as int, k) && ps[k] is Some)
                    implies #[trigger] self.nodes@[k] == old_nodes[k] by {
                if order@.contains(k as usize) {
                    assert(reached(ps, rk, start as int, k));
                }
            }
            assert(updated_from(old_nodes, self.nodes@, ps, rk, start as int, merge_fn));
            assert(updated_from(old(self).nodes(), self.nodes(), old(self).parents(), old(self).ranks(), start as int, merge_fn));
        }
        Ok(())
    }

    /// The nodes of the hierarchy, in the order of insertion.
    pub fn iter(&self) -> (r: &[HierNode<K, V>])
        ensures
            r@ == self.nodes(),
    {
        self.nodes.as_slice()
    }

    /// Borrows the data from the `HierNode` identified by the specified key.
    pub fn borrow(&self, key: &K) -> (r: Result<&V, GraphError>)
        requires
            self.wf(),
        ensures
            self.keys_compare_by_equality() ==> (r is Ok <==> self.spec_has(*key)),
            r matches Err(e) ==> e == GraphError::KeyNotFound,
            r matches Ok(d) ==> exists|i: int| 0 <= i < self.nodes().len() && *d == #[trigger] self.nodes()[i].data,
            self.keys_compare_by_equality() ==> (r matches Ok(d) ==> *d == self.data_of(*key)),
    {
        let idx = match self.get_index(key) {
            Ok(i) => i,
            Err(e) => { return Err(e); },
        };
        proof {
            if vstd::laws_eq::obeys_concrete_eq::<K>() {
                lemma_last_index_of(self.nodes@, *key);
            }
        }
        Ok(&self.nodes[idx].data)
    }

    /// Mutably borrows the data from the `HierNode` defined by the specified key.
    pub fn borrow_mut(&mut self, key: &K) -> (r: Result<&mut V, GraphError>)
        requires
            old(self).wf(),
        ensures
            final(self).wf(),
            final(self).parents() == old(self).parents(),
            old(self).keys_compare_by_equality() ==> (r is Ok <==> old(self).spec_has(*key)),
            r matches Err(e) ==> e == GraphError::KeyNotFound && final(self).nodes() == old(
                self,
            ).nodes(),
            r matches Ok(d) ==> exists|i: int|
                0 <= i < old(self).nodes().len() && *d == (#[trigger] old(self).nodes()[i]).data && final(self).nodes()
                    == old(self).nodes().update(i, HierNode { key: old(self).nodes()[i].key, data: *final(d) }),
            old(self).keys_compare_by_equality() ==> (r matches Ok(d) ==> *d == old(self).data_of(*key) && final(self).nodes() == old(
                self,
            ).nodes().update(
                old(self).index_of(*key),
                HierNode { key: old(self).nodes()[old(self).index_of(*key)].key, data: *final(d) },
            )),
    {
        let idx = match self.get_index(key) {
            Ok(i) => i,
            Err(e) => { return Err(e); },
        };
        proof {
            if vstd::laws_eq::obeys_concrete_eq::<K>() {
                lemma_last_index_of(self.nodes@, *key);
            }
        }
        let d = &mut self.nodes[idx].data;
        proof {
            assert(*d == old(self).nodes()[idx as int].data);
        }
        Ok(d)
    }

    /// Returns `true` if the specified key is represented within the `Hierarchy`.
    pub fn has(&self, key: &K) -> (r: bool)
        requires
            self.wf(),
        ensures
            self.keys_compare_by_equality() ==> r == self.spec_has(*key),
    {
        self.get_index(key).is_ok()
    }
}

impl<K: Clone + Default + Eq + Hash, V: Clone + Default> Default for Hierarchy<K, V> {
    /// Creates a default `Hierarchy` with just a root node, whose key and data are the defaults.
    fn default() -> (h: Self)
        ensures
            h.nodes().len() == 1,
            h.parents() == seq![None::<usize>],
            h.ranks() == seq![0nat],
    {
        let mut nodes: Vec<HierNode<K, V>> = Vec::new();
        nodes.push(HierNode { key: K::default(), data: V::default() });
        let mut parents: Vec<Option<usize>> = Vec::new();
        parents.push(None);
        let ghost ranks: Seq<nat> = seq![0nat];
        Hierarchy { nodes, parents, ranks: Ghost(ranks) }
    }
}

/// After a node was added, a lookup of its key finds it and its data.
pub proof fn lemma_inserted_node_is_found<K, V: Clone + Default>(
    before: Seq<HierNode<K, V>>,
    node: HierNode<K, V>,
)
    ensures
        last_index_of(before.push(node), node.key) == before.len(),
        before.push(node)[last_index_of(before.push(node), node.key)].data == node.data,
{
}

/// Adding a node leaves the lookups of every other key as they were.
pub proof fn lemma_insert_keeps_other_lookups<K, V: Clone + Default>(
    before: Seq<HierNode<K, V>>,
    node: HierNode<K, V>,
    other: K,
)
    requires
        other != node.key,
    ensures
        last_index_of(before.push(node), other) == last_index_of(before, other),
{
    assert(before.push(node).drop_last() =~= before);
}

/// A lookup by key depends on the keys alone: nodes with the same keys, in the same order, are
/// looked up alike.
pub proof fn lemma_same_keys_same_lookup<K, V: Clone + Default>(
    a: Seq<HierNode<K, V>>,
    b: Seq<HierNode<K, V>>,
    key: K,
)
    requires
        a.len() == b.len(),
        forall|i: int| 0 <= i < a.len() ==> #[trigger] a[i].key == b[i].key,
    ensures
        last_index_of(a, key) == last_index_of(b, key),
    decreases a.len(),
{
    if a.len() > 0 {
        assert(a.last().key == b.last().key);
        let pa = a.drop_last();
        let pb = b.drop_last();
        assert forall|i: int| 0 <= i < pa.len() implies #[trigger] pa[i].key == pb[i].key by {
            assert(pa[i] == a[i] && pb[i] == b[i]);
        }
        lemma_same_keys_same_lookup(pa, pb, key);
    }
}

/// After an update, a lookup of a key whose node the update reached, and which has a parent,
/// finds the data derived from the parent's new data.
pub proof fn lemma_update_lookup<K, V: Clone + Default, F: Fn(&K, &V) -> V>(
    before: Seq<HierNode<K, V>>,
    after: Seq<HierNode<K, V>>,
    parents: Seq<Option<usize>>,
    ranks: Seq<nat>,
    start: int,
    merge_fn: &F,
    key: K,
)
    requires
        updated_from(before, after, parents, ranks, start, merge_fn),
        after.len() == before.len(),
        forall|i: int| 0 <= i < before.len() ==> #[trigger] after[i].key == before[i].key,
        last_index_of(before, key) >= 0,
        reached(parents, ranks, start, last_index_of(before, key)),
        parents[last_index_of(before, key)] is Some,
    ensures
        last_index_of(after, key) == last_index_of(before, key),
        derived_from(
            key,
            after[parents[last_index_of(before, key)].unwrap() as int].data,
            after[last_index_of(after, key)].data,
            merge_fn,
        ),
{
    lemma_same_keys_same_lookup(after, before, key);
    lemma_last_index_of(before, key);
    let i = last_index_of(before, key);
    assert(after[i].key == before[i].key);
}

} // verus!
