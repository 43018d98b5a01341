use vstd::prelude::*;
use vstd::seq_lib::lemma_multiset_commutative;
use vstd::multiset::Multiset;

verus! {

broadcast use {vstd::seq_lib::group_to_multiset_ensures, vstd::multiset::group_multiset_axioms};

/// `true` if the order relation `f` lets `a` stand before `b`.
pub open spec fn precedes<T>(f: spec_fn(T, T) -> bool, a: T, b: T) -> bool {
    f(a, b)
}

/// `true` if the comparison can be called on every pair of items.
pub open spec fn callable_on_all_pairs<T, F: Fn(&T, &T) -> bool>(f: F) -> bool {
    forall|a: T, b: T| #[trigger] f.requires((&a, &b))
}

/// `true` if the relation is a total preorder: it holds of `a, b` or of `b, a`, and it is
/// transitive (as `<=` is).
pub open spec fn is_total_preorder<T>(f: spec_fn(T, T) -> bool) -> bool {
    &&& forall|a: T, b: T| #[trigger] precedes(f, a, b) || #[trigger] precedes(f, b, a)
    &&& forall|a: T, b: T, c: T|
        #[trigger] precedes(f, a, b) && #[trigger] precedes(f, b, c) ==> precedes(f, a, c)
}

/// `true` if the items of `s` between `lo` (inclusive) and `hi` (exclusive) are in order.
pub open spec fn sorted_between<T>(f: spec_fn(T, T) -> bool, s: Seq<T>, lo: int, hi: int) -> bool {
    forall|p: int, q: int| lo <= p < q < hi ==> precedes(f, #[trigger] s[p], #[trigger] s[q])
}

/// `true` if all of `s` is in order.
pub open spec fn sorted_by<T>(f: spec_fn(T, T) -> bool, s: Seq<T>) -> bool {
    sorted_between(f, s, 0, s.len() as int)
}

/// `true` if the comparison puts `a` and `b` on the same rank: each may stand before the other.
pub open spec fn same_rank<T>(f: spec_fn(T, T) -> bool, a: T, b: T) -> bool {
    precedes(f, a, b) && precedes(f, b, a)
}

/// The test for the items that rank as `v`.
pub open spec fn rank_pred<T>(f: spec_fn(T, T) -> bool, v: T) -> spec_fn(T) -> bool {
    |y: T| same_rank(f, v, y)
}

/// The items of `s` that rank as `v`, in their order in `s`.
pub open spec fn rank_class<T>(f: spec_fn(T, T) -> bool, s: Seq<T>, v: T) -> Seq<T> {
    s.filter(rank_pred(f, v))
}

proof fn lemma_rank_class_push<T>(f: spec_fn(T, T) -> bool, s: Seq<T>, e: T, v: T)
    ensures
        rank_class(f, s.push(e), v) == if same_rank(f, v, e) {
            rank_class(f, s, v).push(e)
        } else {
            rank_class(f, s, v)
        },
{
    s.lemma_filter_push(e, rank_pred(f, v));
}

proof fn lemma_rank_class_add<T>(f: spec_fn(T, T) -> bool, s1: Seq<T>, s2: Seq<T>, v: T)
    ensures
        rank_class(f, s1 + s2, v) == rank_class(f, s1, v) + rank_class(f, s2, v),
{
    Seq::filter_distributes_over_add(s1, s2, rank_pred(f, v));
}

proof fn lemma_rank_class_none<T>(f: spec_fn(T, T) -> bool, s: Seq<T>, v: T)
    requires
        forall|p: int| 0 <= p < s.len() ==> !same_rank(f, v, #[trigger] s[p]),
    ensures
        rank_class(f, s, v) == Seq::<T>::empty(),
    decreases s.len(),
{
    if s.len() == 0 {
        reveal(Seq::filter);
        assert(s =~= Seq::<T>::empty());
    } else {
        let init = s.drop_last();
        assert forall|p: int| 0 <= p < init.len() implies !same_rank(f, v, #[trigger] init[p]) by {
            assert(init[p] == s[p]);
        }
        lemma_rank_class_none(f, init, v);
        assert(s =~= init.push(s.last()));
        lemma_rank_class_push(f, init, s.last(), v);
    }
}

/// `true` if every answer that the comparison gives for a pair is the value of `le` on it.
pub open spec fn agrees_with<T, F: Fn(&T, &T) -> bool>(order: F, le: spec_fn(T, T) -> bool) -> bool {
    forall|a: T, b: T, r: bool| #[trigger] order.ensures((&a, &b), r) ==> r == le(a, b)
}

/// `true` if `le` is a total preorder on the items of `s`: it holds of any two of them one way or
/// the other, and it is transitive among them.
pub open spec fn total_preorder_on<T>(le: spec_fn(T, T) -> bool, s: Seq<T>) -> bool {
    &&& forall|i: int, j: int|
        0 <= i < s.len() && 0 <= j < s.len() ==> le(#[trigger] s[i], #[trigger] s[j]) || le(s[j], s[i])
    &&& forall|i: int, j: int, k: int|
        0 <= i < s.len() && 0 <= j < s.len() && 0 <= k < s.len() && le(#[trigger] s[i], #[trigger] s[j])
            && le(s[j], #[trigger] s[k]) ==> le(s[i], s[k])
}

/// `true` if the comparison answers as the relation `le` does, and `le` is a total preorder on the
/// items of `s` (as `<=` on a key is).
pub open spec fn orders_as<T, F: Fn(&T, &T) -> bool>(order: F, le: spec_fn(T, T) -> bool, s: Seq<T>) -> bool {
    agrees_with(order, le) && total_preorder_on(le, s)
}

/// `true` if every item of `s` is one of `vals`.
pub open spec fn contained_in<T>(s: Seq<T>, vals: Seq<T>) -> bool {
    forall|i: int| 0 <= i < s.len() ==> vals.contains(#[trigger] s[i])
}

/// `le` on the items of `vals`, extended to all values: any other value stands before every
/// value, and no item of `vals` stands before one that is not in `vals`.
pub open spec fn extend<T>(le: spec_fn(T, T) -> bool, vals: Seq<T>) -> spec_fn(T, T) -> bool {
    |a: T, b: T|
        if !vals.contains(a) {
            true
        } else if !vals.contains(b) {
            false
        } else {
            le(a, b)
        }
}

proof fn lemma_extend_total<T>(le: spec_fn(T, T) -> bool, vals: Seq<T>)
    requires
        total_preorder_on(le, vals),
    ensures
        is_total_preorder(extend(le, vals)),
{
    let g = extend(le, vals);
    assert forall|a: T, b: T| #[trigger] precedes(g, a, b) || #[trigger] precedes(g, b, a) by {
        if vals.contains(a) && vals.contains(b) {
            let i = choose|i: int| 0 <= i < vals.len() && vals[i] == a;
            let j = choose|j: int| 0 <= j < vals.len() && vals[j] == b;
            assert(le(vals[i], vals[j]) || le(vals[j], vals[i]));
        }
    }
    assert forall|a: T, b: T, c: T| #[trigger] precedes(g, a, b) && #[trigger] precedes(g, b, c) implies precedes(
        g,
        a,
        c,
    ) by {
        if vals.contains(a) && vals.contains(b) && vals.contains(c) {
            let i = choose|i: int| 0 <= i < vals.len() && vals[i] == a;
            let j = choose|j: int| 0 <= j < vals.len() && vals[j] == b;
            let k = choose|k: int| 0 <= k < vals.len() && vals[k] == c;
            assert(le(vals[i], vals[j]) && le(vals[j], vals[k]));
        }
    }
}

proof fn lemma_sorted_extend<T>(le: spec_fn(T, T) -> bool, vals: Seq<T>, s: Seq<T>)
    requires
        contained_in(s, vals),
    ensures
        sorted_by(le, s) <==> sorted_by(extend(le, vals), s),
{
    let g = extend(le, vals);
    assert forall|p: int, q: int| 0 <= p < q < s.len() implies precedes(le, s[p], s[q]) == precedes(g, s[p], s[q]) by {
        assert(vals.contains(s[p]) && vals.contains(s[q]));
    }
    if sorted_by(le, s) {
        assert forall|p: int, q: int| 0 <= p < q < s.len() implies precedes(g, #[trigger] s[p], #[trigger] s[q]) by {
            assert(vals.contains(s[p]) && vals.contains(s[q]));
        }
    }
    if sorted_by(g, s) {
        assert forall|p: int, q: int| 0 <= p < q < s.len() implies precedes(le, #[trigger] s[p], #[trigger] s[q]) by {
            assert(vals.contains(s[p]) && vals.contains(s[q]));
        }
    }
}

proof fn lemma_rank_class_extend<T>(le: spec_fn(T, T) -> bool, vals: Seq<T>, s: Seq<T>, v: T)
    requires
        contained_in(s, vals),
        vals.contains(v),
    ensures
        rank_class(le, s, v) == rank_class(extend(le, vals), s, v),
    decreases s.len(),
{
    let g = extend(le, vals);
    if s.len() == 0 {
        lemma_rank_class_none(le, s, v);
        lemma_rank_class_none(g, s, v);
    } else {
        let init = s.drop_last();
        assert forall|p: int| 0 <= p < init.len() implies vals.contains(#[trigger] init[p]) by {
            assert(init[p] == s[p]);
        }
        lemma_rank_class_extend(le, vals, init, v);
        assert(s =~= init.push(s.last()));
        assert(vals.contains(s[s.len() - 1]));
        lemma_rank_class_push(le, init, s.last(), v);
        lemma_rank_class_push(g, init, s.last(), v);
    }
}

proof fn lemma_contained_by_multiset<T>(s: Seq<T>, t: Seq<T>, vals: Seq<T>)
    requires
        s.to_multiset() == t.to_multiset(),
        contained_in(t, vals),
    ensures
        contained_in(s, vals),
{
    assert forall|i: int| 0 <= i < s.len() implies vals.contains(#[trigger] s[i]) by {
        let x = s[i];
        assert(s.contains(x));
        assert(s.to_multiset().count(x) > 0);
        assert(t.contains(x));
        let j = choose|j: int| 0 <= j < t.len() && t[j] == x;
        assert(vals.contains(t[j]));
    }
}

/// `true` if the comparison answers as `le` does, `le` is a total preorder on `vals`, and `a` and
/// `b` are in order under `le` and hold only items of `vals`.
pub open spec fn merge_premise<T, F: Fn(&T, &T) -> bool>(
    order: F,
    le: spec_fn(T, T) -> bool,
    vals: Seq<T>,
    a: Seq<T>,
    b: Seq<T>,
) -> bool {
    &&& orders_as(order, le, vals)
    &&& contained_in(a, vals)
    &&& contained_in(b, vals)
    &&& sorted_by(le, a)
    &&& sorted_by(le, b)
}

proof fn lemma_merge_premise<T, F: Fn(&T, &T) -> bool>(
    order: F,
    le: spec_fn(T, T) -> bool,
    vals: Seq<T>,
    a: Seq<T>,
    b: Seq<T>,
)
    requires
        merge_premise(order, le, vals, a, b),
    ensures
        is_total_preorder(extend(le, vals)),
        sorted_by(extend(le, vals), a),
        sorted_by(extend(le, vals), b),
        forall|i: int, j: int, r: bool|
            0 <= i < a.len() && 0 <= j < b.len() && #[trigger] order.ensures((&a[i], &b[j]), r) ==> r
                == precedes(extend(le, vals), a[i], b[j]),
{
    lemma_extend_total(le, vals);
    lemma_sorted_extend(le, vals, a);
    lemma_sorted_extend(le, vals, b);
    assert forall|i: int, j: int, r: bool|
        0 <= i < a.len() && 0 <= j < b.len() && #[trigger] order.ensures((&a[i], &b[j]), r) implies r == precedes(
        extend(le, vals),
        a[i],
        b[j],
    ) by {
        assert(vals.contains(a[i]) && vals.contains(b[j]));
    }
}

proof fn lemma_drop_front_multiset<T>(s: Seq<T>, i: int)
    requires
        0 <= i < s.len(),
    ensures
        s.subrange(i, s.len() as int).to_multiset() == s.subrange(i + 1, s.len() as int).to_multiset().insert(s[i]),
{
    let tail = s.subrange(i + 1, s.len() as int);
    assert(s.subrange(i, s.len() as int) =~= seq![s[i]] + tail);
    lemma_multiset_commutative(seq![s[i]], tail);
    assert(seq![s[i]] =~= Seq::<T>::empty().push(s[i]));
    assert(Seq::<T>::empty().to_multiset() =~= Multiset::<T>::empty());
}

proof fn lemma_take_one_more_multiset<T>(s: Seq<T>, k: int)
    requires
        0 <= k < s.len(),
    ensures
        s.subrange(0, k + 1).to_multiset() == s.subrange(0, k).to_multiset().insert(s[k]),
{
    assert(s.subrange(0, k + 1) =~= s.subrange(0, k).push(s[k]));
}

/// The facts a merge step keeps: the output prefix and the remaining inputs together hold what
/// the inputs held, and where the inputs are in order the prefix is in order and stands before
/// everything that remains.
pub open spec fn merge_state<T>(
    f: spec_fn(T, T) -> bool,
    ordered: bool,
    a: Seq<T>,
    b: Seq<T>,
    out: Seq<T>,
    i: int,
    j: int,
    k: int,
) -> bool {
    &&& 0 <= i <= a.len()
    &&& 0 <= j <= b.len()
    &&& k == i + j
    &&& out.len() == a.len() + b.len()
    &&& out.subrange(0, k).to_multiset().add(a.subrange(i, a.len() as int).to_multiset()).add(
        b.subrange(j, b.len() as int).to_multiset(),
    ) == a.to_multiset().add(b.to_multiset())
    &&& ordered ==> {
        &&& sorted_between(f, out, 0, k)
        &&& forall|p: int, q: int|
            0 <= p < k && i <= q < a.len() ==> precedes(f, #[trigger] out[p], #[trigger] a[q])
        &&& forall|p: int, q: int|
            0 <= p < k && j <= q < b.len() ==> precedes(f, #[trigger] out[p], #[trigger] b[q])
        &&& forall|v: T|
            #[trigger] rank_class(f, out.subrange(0, k), v) == rank_class(f, a.subrange(0, i), v)
                + rank_class(f, b.subrange(0, j), v)
        &&& forall|p: int, q: int| 0 <= p < j && i <= q < a.len() ==> !precedes(f, #[trigger] a[q], #[trigger] b[p])
    }
}

proof fn lemma_merge_take_a<T>(
    f: spec_fn(T, T) -> bool,
    ordered: bool,
    a: Seq<T>,
    b: Seq<T>,
    out: Seq<T>,
    i: int,
    j: int,
    k: int,
)
    requires
        merge_state(f, ordered, a, b, out, i, j, k),
        i < a.len(),
        ordered ==> is_total_preorder(f) && sorted_by(f, a) && sorted_by(f, b),
        ordered && j < b.len() ==> precedes(f, a[i], b[j]),
    ensures
        merge_state(f, ordered, a, b, out.update(k, a[i]), i + 1, j, k + 1),
{
    let out2 = out.update(k, a[i]);
    assert(out2.subrange(0, k) =~= out.subrange(0, k));
    lemma_take_one_more_multiset(out2, k);
    lemma_drop_front_multiset(a, i);
    assert(out2.subrange(0, k + 1).to_multiset().add(a.subrange(i + 1, a.len() as int).to_multiset()).add(
        b.subrange(j, b.len() as int).to_multiset(),
    ) =~= out.subrange(0, k).to_multiset().add(a.subrange(i, a.len() as int).to_multiset()).add(
        b.subrange(j, b.len() as int).to_multiset(),
    ));
    if ordered {
        assert forall|p: int, q: int| 0 <= p < q < k + 1 implies precedes(f, #[trigger] out2[p], #[trigger] out2[q]) by {
            if q == k {
                assert(out[p] == out2[p]);
            } else {
                assert(out[p] == out2[p] && out[q] == out2[q]);
            }
        }
        assert forall|p: int, q: int| 0 <= p < k + 1 && i + 1 <= q < a.len() implies precedes(f, #[trigger] out2[p], #[trigger] a[q]) by {
            if p == k {
                assert(precedes(f, a[i], a[q]));
            } else {
                assert(out[p] == out2[p]);
            }
        }
        assert forall|p: int, q: int| 0 <= p < k + 1 && j <= q < b.len() implies precedes(f, #[trigger] out2[p], #[trigger] b[q]) by {
            if p == k {
                assert(precedes(f, a[i], b[j]));
                if q > j {
                    assert(precedes(f, b[j], b[q]));
                }
            } else {
                assert(out[p] == out2[p]);
            }
        }
        let pb = b.subrange(0, j);
        assert(out2.subrange(0, k + 1) =~= out.subrange(0, k).push(a[i]));
        assert(a.subrange(0, i + 1) =~= a.subrange(0, i).push(a[i]));
        assert forall|v: T| #[trigger] rank_class(f, out2.subrange(0, k + 1), v) == rank_class(f, a.subrange(0, i + 1), v)
            + rank_class(f, pb, v) by {
            lemma_rank_class_push(f, out.subrange(0, k), a[i], v);
            lemma_rank_class_push(f, a.subrange(0, i), a[i], v);
            assert(rank_class(f, out.subrange(0, k), v) == rank_class(f, a.subrange(0, i), v) + rank_class(f, pb, v));
            if same_rank(f, v, a[i]) {
                assert forall|p: int| 0 <= p < pb.len() implies !same_rank(f, v, #[trigger] pb[p]) by {
                    assert(pb[p] == b[p]);
                    assert(!precedes(f, a[i], b[p]));
                    if same_rank(f, v, b[p]) {
                        assert(precedes(f, a[i], v) && precedes(f, v, b[p]));
                    }
                }
                lemma_rank_class_none(f, pb, v);
                assert(rank_class(f, a.subrange(0, i), v) + Seq::<T>::empty() =~= rank_class(f, a.subrange(0, i), v));
                assert(rank_class(f, a.subrange(0, i), v).push(a[i]) + Seq::<T>::empty() =~= rank_class(f, a.subrange(0, i), v).push(a[i]));
            }
        }
    }
}

proof fn lemma_merge_take_b<T>(
    f: spec_fn(T, T) -> bool,
    ordered: bool,
    a: Seq<T>,
    b: Seq<T>,
    out: Seq<T>,
    i: int,
    j: int,
    k: int,
)
    requires
        merge_state(f, ordered, a, b, out, i, j, k),
        j < b.len(),
        ordered ==> is_total_preorder(f) && sorted_by(f, a) && sorted_by(f, b),
        ordered && i < a.len() ==> precedes(f, b[j], a[i]) && !precedes(f, a[i], b[j]),
    ensures
        merge_state(f, ordered, a, b, out.update(k, b[j]), i, j + 1, k + 1),
{
    let out2 = out.update(k, b[j]);
    assert(out2.subrange(0, k) =~= out.subrange(0, k));
    lemma_take_one_more_multiset(out2, k);
    lemma_drop_front_multiset(b, j);
    assert(out2.subrange(0, k + 1).to_multiset().add(a.subrange(i, a.len() as int).to_multiset()).add(
        b.subrange(j + 1, b.len() as int).to_multiset(),
    ) =~= out.subrange(0, k).to_multiset().add(a.subrange(i, a.len() as int).to_multiset()).add(
        b.subrange(j, b.len() as int).to_multiset(),
    ));
    if ordered {
        assert forall|p: int, q: int| 0 <= p < q < k + 1 implies precedes(f, #[trigger] out2[p], #[trigger] out2[q]) by {
            if q == k {
                assert(out[p] == out2[p]);
            } else {
                assert(out[p] == out2[p] && out[q] == out2[q]);
            }
        }
        assert forall|p: int, q: int| 0 <= p < k + 1 && j + 1 <= q < b.len() implies precedes(f, #[trigger] out2[p], #[trigger] b[q]) by {
            if p == k {
                assert(precedes(f, b[j], b[q]));
            } else {
                assert(out[p] == out2[p]);
            }
        }
        assert forall|p: int, q: int| 0 <= p < k + 1 && i <= q < a.len() implies precedes(f, #[trigger] out2[p], #[trigger] a[q]) by {
            if p == k {
                assert(precedes(f, b[j], a[i]));
                if q > i {
                    assert(precedes(f, a[i], a[q]));
                }
            } else {
                assert(out[p] == out2[p]);
            }
        }
        assert(out2.subrange(0, k + 1) =~= out.subrange(0, k).push(b[j]));
        assert(b.subrange(0, j + 1) =~= b.subrange(0, j).push(b[j]));
        assert forall|v: T| #[trigger] rank_class(f, out2.subrange(0, k + 1), v) == rank_class(f, a.subrange(0, i), v)
            + rank_class(f, b.subrange(0, j + 1), v) by {
            lemma_rank_class_push(f, out.subrange(0, k), b[j], v);
            lemma_rank_class_push(f, b.subrange(0, j), b[j], v);
            assert(rank_class(f, out.subrange(0, k), v) == rank_class(f, a.subrange(0, i), v) + rank_class(f, b.subrange(0, j), v));
            assert((rank_class(f, a.subrange(0, i), v) + rank_class(f, b.subrange(0, j), v)).push(b[j])
                =~= rank_class(f, a.subrange(0, i), v) + rank_class(f, b.subrange(0, j), v).push(b[j]));
        }
        assert forall|p: int, q: int| 0 <= p < j + 1 && i <= q < a.len() implies !precedes(f, #[trigger] a[q], #[trigger] b[p]) by {
            if p == j {
                if q > i && precedes(f, a[q], b[j]) {
                    assert(precedes(f, a[i], a[q]));
                }
            }
        }
    }
}

/// Merges two slices into the output slice. Where the comparison answers as a relation `le` that
/// is a total preorder on some values `vals` that hold the items of both slices, and both slices
/// are in order under `le`, the output is in order too, and of the items that rank equally those
/// of `a` come first, each slice's in their order.
pub fn merge_with<T: Copy, F: Fn(&T, &T) -> bool>(a: &[T], b: &[T], out: &mut [T], order: &F)
    requires
        a@.len() + b@.len() == old(out)@.len(),
        callable_on_all_pairs(*order),
    ensures
        final(out)@.len() == old(out)@.len(),
        final(out)@.to_multiset() == a@.to_multiset().add(b@.to_multiset()),
        forall|le: spec_fn(T, T) -> bool, vals: Seq<T>|
            #[trigger] merge_premise(*order, le, vals, a@, b@) ==> sorted_by(le, final(out)@) && forall|v: T|
                vals.contains(v) ==> #[trigger] rank_class(le, final(out)@, v) == rank_class(le, a@, v) + rank_class(
                    le,
                    b@,
                    v,
                ),
{
    let ghost any = |x: T, y: T| true;
    let mut i: usize = 0;
    let mut j: usize = 0;
    let mut k: usize = 0;
    proof {
        assert(a@.subrange(0, a@.len() as int) =~= a@);
        assert(b@.subrange(0, b@.len() as int) =~= b@);
        assert(out@.subrange(0, 0) =~= Seq::<T>::empty());
        assert(Seq::<T>::empty().to_multiset() =~= Multiset::<T>::empty());
        assert(Multiset::<T>::empty().add(a@.to_multiset()) =~= a@.to_multiset());
        assert(a@.subrange(0, 0) =~= Seq::<T>::empty());
        assert(b@.subrange(0, 0) =~= Seq::<T>::empty());
        assert forall|le: spec_fn(T, T) -> bool, vals: Seq<T>|
            #[trigger] merge_premise(*order, le, vals, a@, b@) implies merge_state(
            extend(le, vals),
            true,
            a@,
            b@,
            out@,
            0,
            0,
            0,
        ) by {
            let g = extend(le, vals);
            assert forall|v: T| #[trigger] rank_class(g, out@.subrange(0, 0), v) == rank_class(g, a@.subrange(0, 0), v)
                + rank_class(g, b@.subrange(0, 0), v) by {
                lemma_rank_class_none(g, Seq::<T>::empty(), v);
                assert(Seq::<T>::empty() + Seq::<T>::empty() =~= Seq::<T>::empty());
            }
        }
    }
    while i < a.len() && j < b.len()
        invariant
            callable_on_all_pairs(*order),
            merge_state(any, false, a@, b@, out@, i as int, j as int, k as int),
            forall|le: spec_fn(T, T) -> bool, vals: Seq<T>|
                #[trigger] merge_premise(*order, le, vals, a@, b@) ==> merge_state(
                    extend(le, vals),
                    true,
                    a@,
                    b@,
                    out@,
                    i as int,
                    j as int,
                    k as int,
                ),
        decreases a@.len() + b@.len() - k,
    {
        let take_a = order(&a[i], &b[j]);
        let ghost out0 = out@;
        if take_a {
            out[k] = a[i];
            proof {
                lemma_merge_take_a(any, false, a@, b@, out0, i as int, j as int, k as int);
                assert forall|le: spec_fn(T, T) -> bool, vals: Seq<T>|
                    #[trigger] merge_premise(*order, le, vals, a@, b@) implies merge_state(
                    extend(le, vals),
                    true,
                    a@,
                    b@,
                    out@,
                    i + 1,
                    j as int,
                    k + 1,
                ) by {
                    lemma_merge_premise(*order, le, vals, a@, b@);
                    assert(order.ensures((&a@[i as int], &b@[j as int]), take_a));
                    lemma_merge_take_a(extend(le, vals), true, a@, b@, out0, i as int, j as int, k as int);
                }
            }
            i = i + 1;
        } else {
            out[k] = b[j];
            proof {
                lemma_merge_take_b(any, false, a@, b@, out0, i as int, j as int, k as int);
                assert forall|le: spec_fn(T, T) -> bool, vals: Seq<T>|
                    #[trigger] merge_premise(*order, le, vals, a@, b@) implies merge_state(
                    extend(le, vals),
                    true,
                    a@,
                    b@,
                    out@,
                    i as int,
                    j + 1,
                    k + 1,
                ) by {
                    let g = extend(le, vals);
                    lemma_merge_premise(*order, le, vals, a@, b@);
                    assert(order.ensures((&a@[i as int], &b@[j as int]), take_a));
                    assert(precedes(g, b@[j as int], a@[i as int]) || precedes(g, a@[i as int], b@[j as int]));
                    lemma_merge_take_b(g, true, a@, b@, out0, i as int, j as int, k as int);
                }
            }
            j = j + 1;
        }
        k = k + 1;
    }
    while i < a.len()
        invariant
            merge_state(any, false, a@, b@, out@, i as int, j as int, k as int),
            forall|le: spec_fn(T, T) -> bool, vals: Seq<T>|
                #[trigger] merge_premise(*order, le, vals, a@, b@) ==> merge_state(
                    extend(le, vals),
                    true,
                    a@,
                    b@,
                    out@,
                    i as int,
                    j as int,
                    k as int,
                ),
            i < a@.len() ==> j == b@.len(),
        decreases a@.len() - i,
    {
        let ghost out0 = out@;
        out[k] = a[i];
        proof {
            lemma_merge_take_a(any, false, a@, b@, out0, i as int, j as int, k as int);
            assert forall|le: spec_fn(T, T) -> bool, vals: Seq<T>|
                #[trigger] merge_premise(*order, le, vals, a@, b@) implies merge_state(
                extend(le, vals),
                true,
                a@,
                b@,
                out@,
                i + 1,
                j as int,
                k + 1,
            ) by {
                lemma_merge_premise(*order, le, vals, a@, b@);
                lemma_merge_take_a(extend(le, vals), true, a@, b@, out0, i as int, j as int, k as int);
            }
        }
        i = i + 1;
        k = k + 1;
    }
    while j < b.len()
        invariant
            merge_state(any, false, a@, b@, out@, i as int, j as int, k as int),
            forall|le: spec_fn(T, T) -> bool, vals: Seq<T>|
                #[trigger] merge_premise(*order, le, vals, a@, b@) ==> merge_state(
                    extend(le, vals),
                    true,
                    a@,
                    b@,
                    out@,
                    i as int,
                    j as int,
                    k as int,
                ),
            i == a@.len(),
        decreases b@.len() - j,
    {
        let ghost out0 = out@;
        out[k] = b[j];
        proof {
            lemma_merge_take_b(any, false, a@, b@, out0, i as int, j as int, k as int);
            assert forall|le: spec_fn(T, T) -> bool, vals: Seq<T>|
                #[trigger] merge_premise(*order, le, vals, a@, b@) implies merge_state(
                extend(le, vals),
                true,
                a@,
                b@,
                out@,
                i as int,
                j + 1,
                k + 1,
            ) by {
                lemma_merge_premise(*order, le, vals, a@, b@);
                lemma_merge_take_b(extend(le, vals), true, a@, b@, out0, i as int, j as int, k as int);
            }
        }
        j = j + 1;
        k = k + 1;
    }
    proof {
        assert(out@.subrange(0, k as int) =~= out@);
        assert(a@.subrange(i as int, a@.len() as int) =~= Seq::<T>::empty());
        assert(b@.subrange(j as int, b@.len() as int) =~= Seq::<T>::empty());
        assert(a@.subrange(0, i as int) =~= a@);
        assert(b@.subrange(0, j as int) =~= b@);
        lemma_multiset_commutative(a@, b@);
        assert(Seq::<T>::empty().to_multiset() =~= Multiset::<T>::empty());
        assert(merge_state(any, false, a@, b@, out@, i as int, j as int, k as int));
        assert(out@.to_multiset() =~= a@.to_multiset().add(b@.to_multiset()));
        assert forall|le: spec_fn(T, T) -> bool, vals: Seq<T>|
            #[trigger] merge_premise(*order, le, vals, a@, b@) implies sorted_by(le, out@) && forall|v: T|
            vals.contains(v) ==> #[trigger] rank_class(le, out@, v) == rank_class(le, a@, v) + rank_class(le, b@, v) by {
            let g = extend(le, vals);
            assert(merge_state(g, true, a@, b@, out@, i as int, j as int, k as int));
            assert forall|p: int| 0 <= p < (a@ + b@).len() implies vals.contains(#[trigger] (a@ + b@)[p]) by {
                if p < a@.len() {
                    assert((a@ + b@)[p] == a@[p]);
                } else {
                    assert((a@ + b@)[p] == b@[p - a@.len()]);
                }
            }
            lemma_contained_by_multiset(out@, a@ + b@, vals);
            lemma_sorted_extend(le, vals, out@);
            assert forall|v: T| vals.contains(v) implies #[trigger] rank_class(le, out@, v) == rank_class(le, a@, v)
                + rank_class(le, b@, v) by {
                lemma_rank_class_extend(le, vals, out@, v);
                lemma_rank_class_extend(le, vals, a@, v);
                lemma_rank_class_extend(le, vals, b@, v);
                assert(rank_class(g, out@.subrange(0, k as int), v) == rank_class(g, a@.subrange(0, i as int), v)
                    + rank_class(g, b@.subrange(0, j as int), v));
            }
        }
    }
}

/// `true` if `s` is in order within each run of `w` items that starts at a multiple of `w`.
pub open spec fn runs_sorted<T>(f: spec_fn(T, T) -> bool, s: Seq<T>, w: int) -> bool {
    forall|lo: int|
        0 <= lo < s.len() && #[trigger] (lo % w) == 0 ==> sorted_between(
            f,
            s,
            lo,
            if lo + w < s.len() { lo + w } else { s.len() as int },
        )
}

proof fn lemma_block_boundaries(i: int, len: int, m: int)
    requires
        len > 0,
        m >= 0,
        i == m * (2 * len),
    ensures
        i % len == 0,
        (i + len) % len == 0,
        i % (2 * len) == 0,
        (i + 2 * len) == (m + 1) * (2 * len),
{
    assert(i == (2 * m) * len) by (nonlinear_arith)
        requires
            i == m * (2 * len),
    ;
    assert(i + len == (2 * m + 1) * len) by (nonlinear_arith)
        requires
            i == m * (2 * len),
    ;
    assert(i + 2 * len == (m + 1) * (2 * len)) by (nonlinear_arith)
        requires
            i == m * (2 * len),
    ;
    vstd::arithmetic::div_mod::lemma_mod_multiples_basic(2 * m, len);
    vstd::arithmetic::div_mod::lemma_mod_multiples_basic(2 * m + 1, len);
    vstd::arithmetic::div_mod::lemma_mod_multiples_basic(m, 2 * len);
}

proof fn lemma_only_boundary_in_block(lo: int, i: int, w: int)
    requires
        w > 0,
        i % w == 0,
        lo % w == 0,
        i <= lo < i + w,
    ensures
        lo == i,
{
    vstd::arithmetic::div_mod::lemma_fundamental_div_mod(lo, w);
    vstd::arithmetic::div_mod::lemma_fundamental_div_mod(i, w);
    let d = lo / w - i / w;
    assert(lo - i == w * d) by (nonlinear_arith)
        requires
            lo == w * (lo / w) + lo % w,
            i == w * (i / w) + i % w,
            lo % w == 0,
            i % w == 0,
            d == lo / w - i / w,
    ;
    assert(d == 0) by (nonlinear_arith)
        requires
            lo - i == w * d,
            0 <= lo - i < w,
            w > 0,
    ;
}

proof fn lemma_sorted_sub<T>(f: spec_fn(T, T) -> bool, s: Seq<T>, lo: int, hi: int)
    requires
        0 <= lo <= hi <= s.len(),
        sorted_between(f, s, lo, hi),
    ensures
        sorted_by(f, s.subrange(lo, hi)),
{
    let t = s.subrange(lo, hi);
    assert forall|p: int, q: int| 0 <= p < q < t.len() implies precedes(f, #[trigger] t[p], #[trigger] t[q]) by {
        assert(t[p] == s[lo + p] && t[q] == s[lo + q]);
    }
}

proof fn lemma_sub_sorted<T>(f: spec_fn(T, T) -> bool, s: Seq<T>, lo: int, hi: int)
    requires
        0 <= lo <= hi <= s.len(),
        sorted_by(f, s.subrange(lo, hi)),
    ensures
        sorted_between(f, s, lo, hi),
{
    let t = s.subrange(lo, hi);
    assert forall|p: int, q: int| lo <= p < q < hi implies precedes(f, #[trigger] s[p], #[trigger] s[q]) by {
        assert(t[p - lo] == s[p] && t[q - lo] == s[q]);
    }
}

proof fn lemma_boundary_before(lo: int, i: int, w: int)
    requires
        w > 0,
        i % w == 0,
        lo % w == 0,
        lo < i,
    ensures
        lo + w <= i,
{
    vstd::arithmetic::div_mod::lemma_fundamental_div_mod(lo, w);
    vstd::arithmetic::div_mod::lemma_fundamental_div_mod(i, w);
    let d = lo / w - i / w;
    assert(lo - i == w * d) by (nonlinear_arith)
        requires
            lo == w * (lo / w) + lo % w,
            i == w * (i / w) + i % w,
            lo % w == 0,
            i % w == 0,
            d == lo / w - i / w,
    ;
    assert(lo - i <= -w) by (nonlinear_arith)
        requires
            lo - i == w * d,
            lo - i < 0,
            w > 0,
    ;
}

/// The prefix `[0, done)` of `dst` holds what the same prefix of `src` holds, and, where the
/// runs of `src` are in order, every run of `w` items that starts before `done` is in order.
pub open spec fn pass_state<T>(
    f: spec_fn(T, T) -> bool,
    ordered: bool,
    vals: Seq<T>,
    src: Seq<T>,
    dst: Seq<T>,
    done: int,
    w: int,
) -> bool {
    &&& dst.len() == src.len()
    &&& 0 <= done <= src.len()
    &&& dst.subrange(0, done).to_multiset() == src.subrange(0, done).to_multiset()
    &&& ordered ==> forall|v: T|
        vals.contains(v) ==> #[trigger] rank_class(f, dst.subrange(0, done), v) == rank_class(
            f,
            src.subrange(0, done),
            v,
        )
    &&& ordered ==> forall|lo: int|
        0 <= lo < done && #[trigger] (lo % w) == 0 ==> sorted_between(
            f,
            dst,
            lo,
            if lo + w < dst.len() { lo + w } else { dst.len() as int },
        )
}

proof fn lemma_pass_step<T>(
    f: spec_fn(T, T) -> bool,
    ordered: bool,
    vals: Seq<T>,
    src: Seq<T>,
    dst_old: Seq<T>,
    dst_new: Seq<T>,
    i: int,
    e: int,
    w: int,
)
    requires
        w > 0,
        i % w == 0,
        pass_state(f, ordered, vals, src, dst_old, i, w),
        i <= e <= src.len(),
        e == if i + w < src.len() { i + w } else { src.len() as int },
        dst_new.len() == dst_old.len(),
        dst_new.subrange(0, i) == dst_old.subrange(0, i),
        dst_new.subrange(i, e).to_multiset() == src.subrange(i, e).to_multiset(),
        ordered ==> sorted_between(f, dst_new, i, e),
        ordered ==> forall|v: T|
            vals.contains(v) ==> #[trigger] rank_class(f, dst_new.subrange(i, e), v) == rank_class(
                f,
                src.subrange(i, e),
                v,
            ),
    ensures
        pass_state(f, ordered, vals, src, dst_new, e, w),
{
    assert(dst_new.subrange(0, e) =~= dst_new.subrange(0, i) + dst_new.subrange(i, e));
    assert(src.subrange(0, e) =~= src.subrange(0, i) + src.subrange(i, e));
    lemma_multiset_commutative(dst_new.subrange(0, i), dst_new.subrange(i, e));
    lemma_multiset_commutative(src.subrange(0, i), src.subrange(i, e));
    if ordered {
        assert forall|v: T| vals.contains(v) implies #[trigger] rank_class(f, dst_new.subrange(0, e), v) == rank_class(
            f,
            src.subrange(0, e),
            v,
        ) by {
            lemma_rank_class_add(f, dst_new.subrange(0, i), dst_new.subrange(i, e), v);
            lemma_rank_class_add(f, src.subrange(0, i), src.subrange(i, e), v);
            assert(rank_class(f, dst_old.subrange(0, i), v) == rank_class(f, src.subrange(0, i), v));
        }
        assert forall|lo: int|
            0 <= lo < e && #[trigger] (lo % w) == 0 implies sorted_between(
                f,
                dst_new,
                lo,
                if lo + w < dst_new.len() { lo + w } else { dst_new.len() as int },
            ) by {
            if lo < i {
                lemma_boundary_before(lo, i, w);
                let hi = if lo + w < dst_new.len() { lo + w } else { dst_new.len() as int };
                assert(sorted_between(f, dst_old, lo, hi));
                assert forall|p: int, q: int| lo <= p < q < hi implies precedes(f, #[trigger] dst_new[p], #[trigger] dst_new[q]) by {
                    assert(dst_new[p] == dst_new.subrange(0, i)[p]);
                    assert(dst_new[q] == dst_new.subrange(0, i)[q]);
                    assert(dst_old[p] == dst_old.subrange(0, i)[p]);
                    assert(dst_old[q] == dst_old.subrange(0, i)[q]);
                }
            } else {
                lemma_only_boundary_in_block(lo, i, w);
            }
        }
    }
}

/// `true` if the comparison answers as `le` does, `le` is a total preorder on `vals`, `src` holds
/// only items of `vals`, and each of its runs of `len` items is in order under `le`.
pub open spec fn pass_premise<T, F: Fn(&T, &T) -> bool>(
    order: F,
    le: spec_fn(T, T) -> bool,
    vals: Seq<T>,
    src: Seq<T>,
    len: int,
) -> bool {
    &&& orders_as(order, le, vals)
    &&& contained_in(src, vals)
    &&& runs_sorted(le, src, len)
}

/// One pass of the bottom-up merge sort: merges each pair of neighbouring runs of `len` items of
/// `src` (the first run starting at a multiple of `2 * len`) into `dst`; a last run without a
/// neighbour is copied.
fn merge_pass<T: Copy, F: Fn(&T, &T) -> bool>(src: &[T], dst: &mut [T], len: usize, order: &F)
    requires
        src@.len() == old(dst)@.len(),
        0 < len < src@.len(),
        src@.len() <= usize::MAX / 3,
        callable_on_all_pairs(*order),
    ensures
        final(dst)@.len() == src@.len(),
        final(dst)@.to_multiset() == src@.to_multiset(),
        forall|le: spec_fn(T, T) -> bool, vals: Seq<T>|
            #[trigger] pass_premise(*order, le, vals, src@, len as int) ==> runs_sorted(le, final(dst)@, 2 * len)
                && forall|v: T| vals.contains(v) ==> #[trigger] rank_class(le, final(dst)@, v) == rank_class(le, src@, v),
{
    let n = src.len();
    let ghost any = |x: T, y: T| true;
    let ghost w = 2 * len as int;
    let ghost mut m: int = 0;
    let mut i: usize = 0;
    proof {
        assert(dst@.subrange(0, 0) =~= src@.subrange(0, 0));
    }
    while i < n
        invariant
            n == src@.len(),
            0 < len < n,
            n <= usize::MAX / 3,
            w == 2 * len,
            callable_on_all_pairs(*order),
            m >= 0,
            i == m * w,
            i < n ==> pass_state(any, false, Seq::<T>::empty(), src@, dst@, i as int, w),
            i >= n ==> pass_state(any, false, Seq::<T>::empty(), src@, dst@, n as int, w),
            forall|le: spec_fn(T, T) -> bool, vals: Seq<T>|
                #[trigger] pass_premise(*order, le, vals, src@, len as int) ==> (i < n ==> pass_state(
                    le,
                    true,
                    vals,
                    src@,
                    dst@,
                    i as int,
                    w,
                )) && (i >= n ==> pass_state(le, true, vals, src@, dst@, n as int, w)),
        decreases n + 2 * len - i,
    {
        proof {
            lemma_block_boundaries(i as int, len as int, m);
        }
        let ghost dst_old = dst@;
        let e: usize = if i + 2 * len < n { i + 2 * len } else { n };
        if i + len >= n {
            let mut p: usize = i;
            while p < n
                invariant
                    i <= p <= n,
                    n == src@.len(),
                    dst@.len() == n,
                    dst@.subrange(0, i as int) == dst_old.subrange(0, i as int),
                    forall|q: int| i <= q < p ==> dst@[q] == src@[q],
                decreases n - p,
            {
                let ghost before = dst@;
                dst[p] = src[p];
                proof {
                    assert(dst@.subrange(0, i as int) =~= before.subrange(0, i as int));
                }
                p = p + 1;
            }
            proof {
                assert(dst@.subrange(i as int, n as int) =~= src@.subrange(i as int, n as int));
                assert forall|le: spec_fn(T, T) -> bool, vals: Seq<T>|
                    #[trigger] pass_premise(*order, le, vals, src@, len as int) implies sorted_between(
                    le,
                    dst@,
                    i as int,
                    e as int,
                ) by {
                    assert((i as int) % (len as int) == 0);
                    assert(sorted_between(le, src@, i as int, n as int));
                    assert forall|p1: int, q1: int| i <= p1 < q1 < e implies precedes(le, #[trigger] dst@[p1], #[trigger] dst@[q1]) by {
                        assert(dst@[p1] == src@[p1] && dst@[q1] == src@[q1]);
                    }
                }
            }
        } else {
            let (left, rest) = dst.split_at_mut(i);
            let (block, right) = rest.split_at_mut(e - i);
            let a = &src[i..i + len];
            let b = &src[i + len..e];
            merge_with(a, b, block, order);
            let ghost merged = block@;
            proof {
                assert(dst@ =~= dst_old.subrange(0, i as int) + merged + dst_old.subrange(e as int, n as int));
                assert(dst@.subrange(i as int, e as int) =~= merged);
                assert(src@.subrange(i as int, e as int) =~= a@ + b@);
                lemma_multiset_commutative(a@, b@);
                assert forall|le: spec_fn(T, T) -> bool, vals: Seq<T>|
                    #[trigger] pass_premise(*order, le, vals, src@, len as int) implies sorted_between(
                    le,
                    dst@,
                    i as int,
                    e as int,
                ) && forall|v: T| vals.contains(v) ==> #[trigger] rank_class(le, dst@.subrange(i as int, e as int), v)
                    == rank_class(le, src@.subrange(i as int, e as int), v) by {
                    assert((i as int) % (len as int) == 0);
                    assert(((i + len) as int) % (len as int) == 0);
                    assert(src@[i as int] == src@[i as int]);
                    assert(sorted_between(le, src@, i as int, (i + len) as int));
                    assert(sorted_between(le, src@, (i + len) as int, e as int));
                    lemma_sorted_sub(le, src@, i as int, (i + len) as int);
                    lemma_sorted_sub(le, src@, (i + len) as int, e as int);
                    assert forall|q: int| 0 <= q < a@.len() implies vals.contains(#[trigger] a@[q]) by {
                        assert(a@[q] == src@[i + q]);
                    }
                    assert forall|q: int| 0 <= q < b@.len() implies vals.contains(#[trigger] b@[q]) by {
                        assert(b@[q] == src@[i + len + q]);
                    }
                    assert(merge_premise(*order, le, vals, a@, b@));
                    lemma_sub_sorted(le, dst@, i as int, e as int);
                    assert forall|v: T| vals.contains(v) implies #[trigger] rank_class(le, dst@.subrange(i as int, e as int), v)
                        == rank_class(le, src@.subrange(i as int, e as int), v) by {
                        lemma_rank_class_add(le, a@, b@, v);
                    }
                }
            }
        }
        proof {
            assert(dst@.len() == n);
            assert(dst@.subrange(0, i as int) =~= dst_old.subrange(0, i as int));
            lemma_pass_step(any, false, Seq::<T>::empty(), src@, dst_old, dst@, i as int, e as int, w);
            assert forall|le: spec_fn(T, T) -> bool, vals: Seq<T>|
                #[trigger] pass_premise(*order, le, vals, src@, len as int) implies pass_state(
                le,
                true,
                vals,
                src@,
                dst@,
                e as int,
                w,
            ) by {
                if i + len >= n {
                    assert(dst@.subrange(i as int, e as int) =~= src@.subrange(i as int, e as int));
                }
                lemma_pass_step(le, true, vals, src@, dst_old, dst@, i as int, e as int, w);
            }
            m = m + 1;
        }
        i = i + 2 * len;
    }
    proof {
        assert(dst@.subrange(0, n as int) =~= dst@);
        assert(src@.subrange(0, n as int) =~= src@);
    }
}

proof fn lemma_single_runs_sorted<T>(f: spec_fn(T, T) -> bool, s: Seq<T>)
    ensures
        runs_sorted(f, s, 1),
{
}

proof fn lemma_one_run<T>(f: spec_fn(T, T) -> bool, s: Seq<T>, w: int)
    requires
        w > 0,
        w >= s.len(),
        runs_sorted(f, s, w),
    ensures
        sorted_by(f, s),
{
    if s.len() > 0 {
        assert(0int % w == 0) by (nonlinear_arith)
            requires
                w > 0,
        ;
        assert(sorted_between(f, s, 0, s.len() as int));
    }
}

/// Copies `src` into `dst`, item by item.
fn copy_items<T: Copy>(src: &[T], dst: &mut [T])
    requires
        src@.len() == old(dst)@.len(),
    ensures
        final(dst)@ == src@,
{
    let n = src.len();
    let mut k: usize = 0;
    while k < n
        invariant
            n == src@.len(),
            dst@.len() == n,
            k <= n,
            forall|q: int| 0 <= q < k ==> dst@[q] == src@[q],
        decreases n - k,
    {
        dst[k] = src[k];
        k = k + 1;
    }
    proof {
        assert(dst@ =~= src@);
    }
}

/// Applies the merge-sort algorithm (bottom-up, alternating between the slice and a copy of it)
/// on a slice of items, ordered by `order`: an item `a` is placed before an item `b` where
/// `order(a, b)` holds. The items are rearranged and none is lost or added. Where the comparison
/// answers as a relation `le` that is a total preorder on the slice's items (as `<=` on a key
/// is), the result is in order under `le` and the sort is stable: the items that rank equally
/// keep the order they had.
pub fn merge_sort_with<T: Copy, F: Fn(&T, &T) -> bool>(x: &mut [T], order: &F)
    requires
        old(x)@.len() <= usize::MAX / 3,
        callable_on_all_pairs(*order),
    ensures
        final(x)@.to_multiset() == old(x)@.to_multiset(),
        forall|le: spec_fn(T, T) -> bool|
            #[trigger] orders_as(*order, le, old(x)@) ==> sorted_by(le, final(x)@) && forall|v: T|
                old(x)@.contains(v) ==> #[trigger] rank_class(le, final(x)@, v) == rank_class(le, old(x)@, v),
{
    let ghost orig = x@;
    let n = x.len();
    let mut y: Vec<T> = Vec::new();
    let mut k: usize = 0;
    while k < n
        invariant
            n == x@.len(),
            k <= n,
            y@ == x@.subrange(0, k as int),
        decreases n - k,
    {
        y.push(x[k]);
        proof {
            assert(y@ =~= x@.subrange(0, k + 1));
        }
        k = k + 1;
    }
    proof {
        assert(y@ =~= x@);
        assert forall|le: spec_fn(T, T) -> bool| #[trigger] orders_as(*order, le, orig) implies runs_sorted(le, x@, 1) by {
            lemma_single_runs_sorted(le, x@);
        }
    }
    let mut len: usize = 1;
    while len < n
        invariant
            n == x@.len(),
            n <= usize::MAX / 3,
            y@.len() == n,
            0 < len,
            callable_on_all_pairs(*order),
            orig == old(x)@,
            x@.to_multiset() == orig.to_multiset(),
            forall|le: spec_fn(T, T) -> bool|
                #[trigger] orders_as(*order, le, orig) ==> runs_sorted(le, x@, len as int) && forall|v: T|
                    orig.contains(v) ==> #[trigger] rank_class(le, x@, v) == rank_class(le, orig, v),
        decreases 4 * n - len,
    {
        proof {
            assert forall|le: spec_fn(T, T) -> bool| #[trigger] orders_as(*order, le, orig) implies pass_premise(
                *order,
                le,
                orig,
                x@,
                len as int,
            ) by {
                assert forall|q: int| 0 <= q < orig.len() implies orig.contains(#[trigger] orig[q]) by {}
                lemma_contained_by_multiset(x@, orig, orig);
            }
        }
        let ghost x0 = x@;
        merge_pass(x, y.as_mut_slice(), len, order);
        proof {
            assert(y@.to_multiset() == orig.to_multiset());
            assert forall|le: spec_fn(T, T) -> bool| #[trigger] orders_as(*order, le, orig) implies runs_sorted(
                le,
                y@,
                2 * len,
            ) && forall|v: T| orig.contains(v) ==> #[trigger] rank_class(le, y@, v) == rank_class(le, orig, v) by {
                assert(pass_premise(*order, le, orig, x0, len as int));
                assert forall|v: T| orig.contains(v) implies #[trigger] rank_class(le, y@, v) == rank_class(le, orig, v) by {
                    assert(rank_class(le, x0, v) == rank_class(le, orig, v));
                }
            }
        }
        len = len * 2;
        if len >= n {
            copy_items(y.as_slice(), x);
            proof {
                assert(x@ == y@);
                assert forall|le: spec_fn(T, T) -> bool| #[trigger] orders_as(*order, le, orig) implies sorted_by(le, x@)
                    && forall|v: T| orig.contains(v) ==> #[trigger] rank_class(le, x@, v) == rank_class(le, orig, v) by {
                    lemma_one_run(le, x@, len as int);
                }
            }
            return;
        }
        proof {
            assert forall|le: spec_fn(T, T) -> bool| #[trigger] orders_as(*order, le, orig) implies pass_premise(
                *order,
                le,
                orig,
                y@,
                len as int,
            ) by {
                assert forall|q: int| 0 <= q < orig.len() implies orig.contains(#[trigger] orig[q]) by {}
                lemma_contained_by_multiset(y@, orig, orig);
            }
        }
        let ghost y0 = y@;
        merge_pass(y.as_slice(), x, len, order);
        proof {
            assert forall|le: spec_fn(T, T) -> bool| #[trigger] orders_as(*order, le, orig) implies runs_sorted(
                le,
                x@,
                2 * len,
            ) && forall|v: T| orig.contains(v) ==> #[trigger] rank_class(le, x@, v) == rank_class(le, orig, v) by {
                assert(pass_premise(*order, le, orig, y0, len as int));
                assert forall|v: T| orig.contains(v) implies #[trigger] rank_class(le, x@, v) == rank_class(le, orig, v) by {
                    assert(rank_class(le, y0, v) == rank_class(le, orig, v));
                }
            }
        }
        len = len * 2;
    }
    proof {
        assert forall|le: spec_fn(T, T) -> bool| #[trigger] orders_as(*order, le, orig) implies sorted_by(le, x@) by {
            if n > 0 {
                lemma_one_run(le, x@, len as int);
            }
        }
    }
}

} // verus!
