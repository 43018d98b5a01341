use vstd::prelude::*;

verus! {

/// `true` if the parent references form a forest: every parent exists and has a smaller rank
/// than its child, so that following parents always ends.
pub open spec fn forest_wf(parents: Seq<Option<usize>>, ranks: Seq<nat>) -> bool {
    &&& parents.len() == ranks.len()
    &&& forall|i: int|
        0 <= i < parents.len() && #[trigger] parents[i] is Some ==> (parents[i].unwrap() as int)
            < parents.len() && ranks[parents[i].unwrap() as int] < ranks[i]
}

/// `true` if node `i` is `start` or a descendant of it, following the parent references.
pub open spec fn reached(parents: Seq<Option<usize>>, ranks: Seq<nat>, start: int, i: int) -> bool
    decreases ranks[i],
{
    if i == start {
        true
    } else if !(0 <= i < parents.len()) {
        false
    } else {
        match parents[i] {
            Some(p) => ranks[p as int] < ranks[i] && reached(parents, ranks, start, p as int),
            None => false,
        }
    }
}

/// The sequence after the element at `idx` was removed by moving the last element into its
/// place.
pub open spec fn swap_removed<T>(s: Seq<T>, idx: int) -> Seq<T> {
    s.update(idx, s.last()).drop_last()
}

/// The parent references after the node at `idx` was removed and the last node moved into its
/// place: references to the removed node are dropped, and those to the moved node follow it.
pub open spec fn detach(parents: Seq<Option<usize>>, idx: int) -> Seq<Option<usize>> {
    let last = parents.len() - 1;
    swap_removed(parents, idx).map_values(
        |p: Option<usize>|
            match p {
                Some(q) => if q == idx {
                    None
                } else if q == last {
                    Some(idx as usize)
                } else {
                    Some(q)
                },
                None => None,
            },
    )
}

/// A reached node has at least the rank of the start node.
pub proof fn lemma_reached_rank(parents: Seq<Option<usize>>, ranks: Seq<nat>, start: int, i: int)
    requires
        reached(parents, ranks, start, i),
    ensures
        ranks[i] >= ranks[start],
    decreases ranks[i],
{
    if i != start {
        let p = parents[i].unwrap() as int;
        lemma_reached_rank(parents, ranks, start, p);
    }
}

/// Removing a node keeps the parent references a forest, with the ranks moved along.
pub proof fn lemma_detach_wf(parents: Seq<Option<usize>>, ranks: Seq<nat>, idx: int)
    requires
        forest_wf(parents, ranks),
        0 <= idx < parents.len(),
    ensures
        forest_wf(detach(parents, idx), swap_removed(ranks, idx)),
        detach(parents, idx).len() == parents.len() - 1,
{
    let last = parents.len() - 1;
    let np = detach(parents, idx);
    let nr = swap_removed(ranks, idx);
    assert forall|j: int| 0 <= j < np.len() && #[trigger] np[j] is Some implies (np[j].unwrap() as int)
        < np.len() && nr[np[j].unwrap() as int] < nr[j] by {
        let oj = if j == idx { last } else { j };
        assert(swap_removed(parents, idx)[j] == parents[oj]);
        assert(nr[j] == ranks[oj]);
        let q = parents[oj].unwrap() as int;
        if q == last {
            assert(nr[idx] == ranks[last]);
        } else {
            assert(nr[q] == ranks[q]);
        }
    }
}

/// A sequence of different numbers below `n` has at most `n` elements.
proof fn lemma_distinct_below(s: Seq<usize>, n: int)
    requires
        s.no_duplicates(),
        forall|t: int| 0 <= t < s.len() ==> s[t] < n,
        n >= 0,
    ensures
        s.len() <= n,
{
    let m = s.map_values(|x: usize| x as int);
    assert(m.no_duplicates()) by {
        assert forall|a: int, b: int| 0 <= a < m.len() && 0 <= b < m.len() && a != b implies m[a]
            != m[b] by {
            assert(s[a] != s[b]);
        }
    }
    m.unique_seq_to_set();
    vstd::set_lib::lemma_int_range(0, n);
    assert(m.to_set().subset_of(vstd::set_lib::set_int_range(0, n))) by {
        assert forall|x: int| #[trigger] m.to_set().contains(x) implies vstd::set_lib::set_int_range(
            0,
            n,
        ).contains(x) by {
            let t = m.index_of(x);
            assert(m[t] == s[t] as int);
        }
    }
    vstd::set_lib::lemma_len_subset(m.to_set(), vstd::set_lib::set_int_range(0, n));
}

/// Where every child of an element of `order` is in `order` too, every node reached from
/// `order[0]` is in `order`.
proof fn lemma_closed_order_holds_reached(
    parents: Seq<Option<usize>>,
    ranks: Seq<nat>,
    order: Seq<usize>,
    i: int,
)
    requires
        forest_wf(parents, ranks),
        order.len() > 0,
        reached(parents, ranks, order[0] as int, i),
        forall|k: usize, j: int|
            #![trigger order.contains(k), parents[j]]
            order.contains(k) && 0 <= j < parents.len() && parents[j] == Some(k) ==> order.contains(
                j as usize,
            ),
        0 <= i < parents.len() || i == order[0],
    ensures
        order.contains(i as usize),
    decreases ranks[i],
{
    if i == order[0] {
        assert(order[0] == order[0]);
        assert(order.contains(order[0]));
    } else {
        let p = parents[i].unwrap();
        lemma_closed_order_holds_reached(parents, ranks, order, p as int);
        assert(order.contains(p) && 0 <= i < parents.len() && parents[i] == Some(p));
    }
}

/// Appends the children of node `i` to `order`, in the order of their indices.
fn push_children(
    parents: &Vec<Option<usize>>,
    i: usize,
    order: &mut Vec<usize>,
    Ghost(ranks): Ghost<Seq<nat>>,
)
    requires
        forest_wf(parents@, ranks),
        i < parents@.len(),
        old(order)@.no_duplicates(),
        forall|t: int| 0 <= t < old(order)@.len() ==> #[trigger] old(order)@[t] < parents@.len(),
        forall|j: int| 0 <= j < parents@.len() && parents@[j] == Some(i) ==> !old(order)@.contains(j as usize),
    ensures
        final(order)@.len() >= old(order)@.len(),
        final(order)@.subrange(0, old(order)@.len() as int) == old(order)@,
        final(order)@.len() <= parents@.len(),
        final(order)@.no_duplicates(),
        forall|t: int| 0 <= t < final(order)@.len() ==> #[trigger] final(order)@[t] < parents@.len(),
        forall|t: int|
            old(order)@.len() <= t < final(order)@.len() ==> parents@[#[trigger] final(order)@[t] as int]
                == Some(i),
        forall|j: int| 0 <= j < parents@.len() && parents@[j] == Some(i) ==> #[trigger] final(order)@.contains(j as usize),
{
    let n = parents.len();
    let ghost before = order@;
    let mut j: usize = 0;
    while j < n
        invariant
            n == parents@.len(),
            before == old(order)@,
            before.len() <= order@.len(),
            order@.subrange(0, before.len() as int) == before,
            j <= n,
            order@.no_duplicates(),
            forall|t: int| 0 <= t < order@.len() ==> #[trigger] order@[t] < n,
            forall|t: int| before.len() <= t < order@.len() ==> parents@[#[trigger] order@[t] as int] == Some(i) && order@[t] < j,
            forall|a: int| 0 <= a < j && parents@[a] == Some(i) ==> #[trigger] order@.contains(a as usize),
            forall|a: int| 0 <= a < n && parents@[a] == Some(i) ==> !before.contains(a as usize),
            before.no_duplicates(),
        decreases n - j,
    {
        if parents[j] == Some(i) {
            proof {
                assert(!order@.contains(j)) by {
                    if order@.contains(j) {
                        let t = order@.index_of(j);
                        if t < before.len() {
                            assert(before[t] == order@[t]);
                        }
                    }
                }
            }
            let ghost prev = order@;
            order.push(j);
            proof {
                assert(order@[order@.len() - 1] == j);
                assert forall|a: int| 0 <= a < j + 1 && parents@[a] == Some(i) implies #[trigger] order@.contains(a as usize) by {
                    if a < j {
                        assert(prev.contains(a as usize));
                        let t = prev.index_of(a as usize);
                        assert(order@[t] == a as usize);
                    }
                }
            }
        }
        j = j + 1;
    }
    proof {
        lemma_distinct_below(order@, n as int);
    }
}

/// Returns the nodes below `start`, `start` included, in breadth-first order: `start` first,
/// and every other node after its parent.
pub fn visit_order(parents: &Vec<Option<usize>>, start: usize, Ghost(ranks): Ghost<Seq<nat>>) -> (r:
    Vec<usize>)
    requires
        forest_wf(parents@, ranks),
        start < parents@.len(),
    ensures
        r@.len() > 0,
        r@[0] == start,
        r@.no_duplicates(),
        forall|t: int| 0 <= t < r@.len() ==> #[trigger] r@[t] < parents@.len(),
        forall|i: int|
            0 <= i < parents@.len() ==> (r@.contains(i as usize) <==> #[trigger] reached(
                parents@,
                ranks,
                start as int,
                i,
            )),
        forall|t: int|
            0 < t < r@.len() ==> #[trigger] parents@[r@[t] as int] is Some && r@.subrange(
                0,
                t,
            ).contains(parents@[r@[t] as int].unwrap()),
{
    let n = parents.len();
    let ghost ps = parents@;
    let mut processed: Vec<bool> = Vec::new();
    let mut k: usize = 0;
    while k < n
        invariant
            k <= n,
            processed@.len() == k,
            forall|a: int| 0 <= a < k ==> !processed@[a],
        decreases n - k,
    {
        processed.push(false);
        k = k + 1;
    }
    let mut order: Vec<usize> = Vec::new();
    order.push(start);
    let mut head: usize = 0;
    while head < order.len()
        invariant
            n == ps.len() == parents@.len() == ranks.len(),
            ps == parents@,
            forest_wf(ps, ranks),
            start < n,
            head <= order@.len() <= n,
            order@.len() > 0,
            order@[0] == start,
            order@.no_duplicates(),
            forall|t: int| 0 <= t < order@.len() ==> #[trigger] order@[t] < n,
            processed@.len() == n,
            forall|a: int|
                0 <= a < n ==> (#[trigger] processed@[a] <==> order@.subrange(0, head as int).contains(
                    a as usize,
                )),
            forall|t: int| 0 <= t < order@.len() ==> reached(ps, ranks, start as int, #[trigger] order@[t] as int),
            forall|t: int|
                0 < t < order@.len() ==> #[trigger] ps[order@[t] as int] is Some && order@.subrange(
                    0,
                    t,
                ).contains(ps[order@[t] as int].unwrap()) && processed@[ps[order@[t] as int].unwrap() as int],
            forall|a: usize, j: int|
                #![trigger processed@[a as int], ps[j]]
                0 <= j < n && a < n && processed@[a as int] && ps[j] == Some(a) ==> order@.contains(
                    j as usize,
                ),
        decreases n - head,
    {
        let i = order[head];
        let ghost before = order@;
        let ghost old_processed = processed@;
        proof {
            assert(!processed@[i as int]) by {
                if processed@[i as int] {
                    let t = before.subrange(0, head as int).index_of(i);
                    assert(before[t] == i);
                }
            }
            assert forall|j: int| 0 <= j < n && ps[j] == Some(i) implies !before.contains(j as usize) by {
                if before.contains(j as usize) {
                    let t = before.index_of(j as usize);
                    if t == 0 {
                        lemma_reached_rank(ps, ranks, start as int, i as int);
                    } else {
                        assert(processed@[ps[before[t] as int].unwrap() as int]);
                    }
                }
            }
        }
        processed.set(i, true);
        head = head + 1;
        push_children(parents, i, &mut order, Ghost(ranks));
        proof {
            assert(order@.subrange(0, head as int) =~= before.subrange(0, head as int));
            assert(before.subrange(0, head as int) =~= before.subrange(0, head - 1).push(i));
            assert forall|a: int| 0 <= a < n implies (#[trigger] processed@[a] <==> order@.subrange(
                0,
                head as int,
            ).contains(a as usize)) by {
                if a != i {
                    assert(processed@[a] == old_processed[a]);
                    if before.subrange(0, head as int).contains(a as usize) {
                        let t = before.subrange(0, head as int).index_of(a as usize);
                        assert(before.subrange(0, head - 1).contains(a as usize)) by {
                            assert(before.subrange(0, head - 1)[t] == a as usize);
                        }
                    }
                    if before.subrange(0, head - 1).contains(a as usize) {
                        let t = before.subrange(0, head - 1).index_of(a as usize);
                        assert(before.subrange(0, head as int)[t] == a as usize);
                    }
                } else {
                    assert(before.subrange(0, head as int)[head - 1] == i);
                }
            }
            assert forall|t: int| 0 <= t < order@.len() implies reached(ps, ranks, start as int, #[trigger] order@[t] as int) by {
                if t < before.len() {
                    assert(order@[t] == before[t]);
                } else {
                    assert(before[head - 1] == i);
                }
            }
            assert forall|t: int| 0 < t < order@.len() implies #[trigger] ps[order@[t] as int] is Some
                && order@.subrange(0, t).contains(ps[order@[t] as int].unwrap())
                && processed@[ps[order@[t] as int].unwrap() as int] by {
                if t < before.len() {
                    assert(order@[t] == before[t]);
                    let p = ps[before[t] as int].unwrap();
                    assert(order@.subrange(0, t) =~= before.subrange(0, t));
                    assert(old_processed[p as int]);
                } else {
                    assert(order@.subrange(0, t)[head - 1] == i);
                }
            }
            assert forall|a: usize, j: int|
                #![trigger processed@[a as int], ps[j]]
                0 <= j < n && a < n && processed@[a as int] && ps[j] == Some(a) implies order@.contains(
                    j as usize,
                ) by {
                if a != i {
                    assert(old_processed[a as int]);
                    let t = before.index_of(j as usize);
                    assert(order@[t] == j as usize);
                }
            }
        }
    }
    proof {
        assert(order@.subrange(0, head as int) =~= order@);
        assert forall|k: usize, j: int|
            #![trigger order@.contains(k), ps[j]]
            order@.contains(k) && 0 <= j < ps.len() && ps[j] == Some(k) implies order@.contains(
                j as usize,
            ) by {
            assert(processed@[k as int]);
        }
        assert forall|i: int| 0 <= i < n implies (order@.contains(i as usize) <==> #[trigger] reached(
            ps,
            ranks,
            start as int,
            i,
        )) by {
            if reached(ps, ranks, start as int, i) {
                lemma_closed_order_holds_reached(ps, ranks, order@, i);
            }
        }
    }
    order
}

} // verus!
