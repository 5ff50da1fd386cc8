//! Sorting that keeps equals in their order.

use vstd::prelude::*;

use crate::seqs::{enumerates, filter_single};

verus! {

/// Items with an order: `ahead` says that one sorts strictly before another.
/// Items of which neither is ahead of the other are equals.
pub trait Ranked: View + Sized {
    /// Whether an item sorts strictly before another.
    spec fn ahead(a: Self::V, b: Self::V) -> bool;

    /// Whether an item has a place in the order. Among items that have, being
    /// ahead carries over from one to the next.
    spec fn placed(a: Self::V) -> bool;

    /// Whether this item sorts strictly before `other`.
    fn is_ahead(&self, other: &Self) -> (r: bool)
        ensures
            r == Self::ahead(self@, other@),
    ;

    /// Of two items at most one is ahead of the other.
    proof fn order_is_strict(a: Self::V, b: Self::V)
        ensures
            !(Self::ahead(a, b) && Self::ahead(b, a)),
    ;

    /// Among items with a place, what is ahead carries over, and equals sort
    /// alike.
    proof fn order_is_weak(a: Self::V, b: Self::V, c: Self::V)
        requires
            Self::placed(a),
            Self::placed(b),
            Self::placed(c),
        ensures
            !Self::ahead(a, a),
            Self::ahead(a, b) && Self::ahead(b, c) ==> Self::ahead(a, c),
            Self::ahead(a, b) ==> Self::ahead(a, c) || Self::ahead(c, b),
    ;
}

/// The views of a sequence of items.
pub open spec fn views<T: View>(items: Seq<T>) -> Seq<T::V> {
    items.map_values(|t: T| t@)
}

/// Whether no item sorts strictly before one that stands earlier.
pub open spec fn in_order<T: Ranked>(s: Seq<T::V>) -> bool {
    forall|i: int, j: int| 0 <= i < j < s.len() ==> !T::ahead(#[trigger] s[j], #[trigger] s[i])
}

/// Whether no item sorts strictly before the one next to it on the left.
pub open spec fn neighbours_in_order<T: Ranked>(s: Seq<T::V>) -> bool {
    forall|i: int, j: int|
        0 <= i < j < s.len() && j == i + 1 ==> !T::ahead(#[trigger] s[j], #[trigger] s[i])
}

/// Whether every item has a place in the order.
pub open spec fn all_placed<T: Ranked>(s: Seq<T::V>) -> bool {
    forall|i: int| 0 <= i < s.len() ==> T::placed(#[trigger] s[i])
}

/// Whether neither of two items is ahead of the other.
pub open spec fn equals<T: Ranked>(a: T::V, b: T::V) -> bool {
    !T::ahead(a, b) && !T::ahead(b, a)
}

/// The items of a sequence that are equals of `x`, in their order.
pub open spec fn equals_of<T: Ranked>(s: Seq<T::V>, x: T::V) -> Seq<T::V> {
    s.filter(|y: T::V| equals::<T>(y, x))
}

/// Whether `out` is `input` sorted, with equals in the order they had.
pub open spec fn stable_sort_of<T: Ranked>(out: Seq<T::V>, input: Seq<T::V>) -> bool {
    &&& in_order::<T>(out)
    &&& out.to_multiset() == input.to_multiset()
    &&& forall|x: T::V|
        T::placed(x) ==> #[trigger] equals_of::<T>(out, x) == equals_of::<T>(input, x)
}

/// Whether `out` is `input` sorted as far as the order goes: where every item
/// has a place, `input` sorted; else the same items with neighbours in order.
pub open spec fn sort_of<T: Ranked>(out: Seq<T::V>, input: Seq<T::V>) -> bool {
    &&& neighbours_in_order::<T>(out)
    &&& out.to_multiset() == input.to_multiset()
    &&& all_placed::<T>(input) ==> stable_sort_of::<T>(out, input)
}

/// Putting `x` between an item that it is not ahead of and one that it is ahead
/// of keeps neighbours in order.
proof fn insertion_fits<T: Ranked>(s: Seq<T::V>, x: T::V, p: int)
    requires
        neighbours_in_order::<T>(s),
        0 <= p <= s.len(),
        p > 0 ==> !T::ahead(x, s[p - 1]),
        p < s.len() ==> T::ahead(x, s[p]),
    ensures
        neighbours_in_order::<T>(s.insert(p, x)),
        s.insert(p, x).to_multiset() == s.push(x).to_multiset(),
        all_placed::<T>(s.push(x)) ==> all_placed::<T>(s.insert(p, x)),
{
    let t = s.insert(p, x);
    assert forall|i: int, j: int| 0 <= i < j < t.len() && j == i + 1 implies !T::ahead(
        #[trigger] t[j],
        #[trigger] t[i],
    ) by {
        if i == p {
            assert(t[j] == s[p]);
            T::order_is_strict(x, s[p]);
        } else if j == p {
            assert(t[i] == s[p - 1]);
        } else if j < p {
            assert(t[i] == s[i] && t[j] == s[j]);
        } else {
            assert(t[i] == s[i - 1] && t[j] == s[j - 1]);
        }
    }
    vstd::seq_lib::to_multiset_insert(s, p, x);
    vstd::seq_lib::to_multiset_build(s, x);
    assert(t.to_multiset() =~= s.push(x).to_multiset());
    if all_placed::<T>(s.push(x)) {
        assert forall|i: int| 0 <= i < t.len() implies T::placed(#[trigger] t[i]) by {
            let k = if i < p {
                i
            } else if i == p {
                s.len() as int
            } else {
                i - 1
            };
            assert(t[i] == s.push(x)[k]);
        }
    }
}

/// Putting `x` behind everything that it is not ahead of keeps a sequence in
/// order, and keeps equals in the order in which they came.
proof fn insertion_sorts<T: Ranked>(s: Seq<T::V>, x: T::V, p: int)
    requires
        in_order::<T>(s),
        all_placed::<T>(s.push(x)),
        0 <= p <= s.len(),
        p > 0 ==> !T::ahead(x, s[p - 1]),
        forall|i: int| p <= i < s.len() ==> T::ahead(x, #[trigger] s[i]),
    ensures
        stable_sort_of::<T>(s.insert(p, x), s.push(x)),
{
    let t = s.insert(p, x);
    assert forall|i: int| 0 <= i < s.len() implies T::placed(#[trigger] s[i]) by {
        assert(s.push(x)[i] == s[i]);
    }
    assert(T::placed(s.push(x)[s.len() as int]));
    assert forall|i: int| 0 <= i < p implies !T::ahead(x, #[trigger] s[i]) by {
        if i < p - 1 {
            T::order_is_weak(x, s[i], s[p - 1]);
        }
    }
    assert forall|i: int, j: int| 0 <= i < j < t.len() implies !T::ahead(
        #[trigger] t[j],
        #[trigger] t[i],
    ) by {
        let ii = if i < p { i } else { i - 1 };
        let jj = if j < p { j } else { j - 1 };
        if i == p {
            assert(t[j] == s[jj]);
            T::order_is_weak(x, s[jj], x);
        } else if j == p {
            assert(t[i] == s[ii]);
        } else {
            assert(t[i] == s[ii] && t[j] == s[jj]);
        }
    }
    let head = s.take(p);
    let tail = s.skip(p);
    assert(s =~= head + tail);
    assert(t =~= head + seq![x] + tail);
    assert(s.push(x) =~= head + tail + seq![x]);
    vstd::seq_lib::to_multiset_insert(s, p, x);
    vstd::seq_lib::to_multiset_build(s, x);
    assert(t.to_multiset() =~= s.push(x).to_multiset());
    assert forall|y: T::V| T::placed(y) implies #[trigger] equals_of::<T>(t, y) == equals_of::<T>(
        s.push(x),
        y,
    ) by {
        let f = |z: T::V| equals::<T>(z, y);
        Seq::filter_distributes_over_add(head + seq![x], tail, f);
        Seq::filter_distributes_over_add(head, seq![x], f);
        Seq::filter_distributes_over_add(head + tail, seq![x], f);
        Seq::filter_distributes_over_add(head, tail, f);
        if f(x) {
            assert forall|i: int| 0 <= i < tail.len() implies !f(#[trigger] tail[i]) by {
                assert(tail[i] == s[p + i]);
                T::order_is_weak(x, tail[i], y);
            }
            tail.lemma_all_neg_filter_empty(f);
            assert(tail.filter(f) =~= Seq::<T::V>::empty());
        } else {
            assert(!f(seq![x][0]));
            seq![x].lemma_all_neg_filter_empty(f);
            assert(seq![x].filter(f) =~= Seq::<T::V>::empty());
        }
        assert(t.filter(f) =~= s.push(x).filter(f));
    }
}

/// Sorting a prefix first and then adding the next item sorts the longer prefix.
proof fn sorting_extends<T: Ranked>(out: Seq<T::V>, sorted: Seq<T::V>, s: Seq<T::V>, x: T::V)
    requires
        stable_sort_of::<T>(sorted, s),
        stable_sort_of::<T>(out, sorted.push(x)),
    ensures
        stable_sort_of::<T>(out, s.push(x)),
{
    vstd::seq_lib::to_multiset_build(sorted, x);
    vstd::seq_lib::to_multiset_build(s, x);
    assert forall|y: T::V| T::placed(y) implies #[trigger] equals_of::<T>(out, y) == equals_of::<T>(
        s.push(x),
        y,
    ) by {
        let f = |z: T::V| equals::<T>(z, y);
        assert(equals_of::<T>(sorted, y) == equals_of::<T>(s, y));
        sorted.lemma_filter_push(x, f);
        s.lemma_filter_push(x, f);
        assert(equals_of::<T>(sorted.push(x), y) == equals_of::<T>(s.push(x), y));
    }
}

/// Put an item behind everything that it is not ahead of.
fn insert_ranked<T: Ranked>(items: &mut Vec<T>, x: T)
    requires
        neighbours_in_order::<T>(views(old(items)@)),
    ensures
        neighbours_in_order::<T>(views(final(items)@)),
        views(final(items)@).to_multiset() == views(old(items)@).push(x@).to_multiset(),
        all_placed::<T>(views(old(items)@).push(x@)) ==> all_placed::<T>(views(final(items)@)),
        in_order::<T>(views(old(items)@)) && all_placed::<T>(views(old(items)@).push(x@))
            ==> stable_sort_of::<T>(views(final(items)@), views(old(items)@).push(x@)),
        final(items)@.len() == old(items)@.len() + 1,
{
    let ghost before = views(items@);
    let ghost v = x@;
    let mut p: usize = items.len();
    while p > 0 && x.is_ahead(&items[p - 1])
        invariant
            p <= items@.len(),
            before == views(items@),
            x@ == v,
            forall|i: int| p <= i < before.len() ==> T::ahead(v, #[trigger] before[i]),
        decreases p,
    {
        assert(before[p - 1] == items@[p - 1]@);
        p = p - 1;
    }
    proof {
        if p > 0 {
            assert(before[p - 1] == items@[p - 1]@);
        }
        insertion_fits::<T>(before, v, p as int);
        if in_order::<T>(before) && all_placed::<T>(before.push(v)) {
            insertion_sorts::<T>(before, v, p as int);
        }
    }
    items.insert(p, x);
    assert(views(items@) =~= before.insert(p as int, v));
}

/// The items sorted, equals in the order they had. Where not every item has a
/// place in the order, each is only held against its neighbours.
pub fn stable_sort<T: Ranked>(items: Vec<T>) -> (out: Vec<T>)
    ensures
        sort_of::<T>(views(out@), views(items@)),
        out@.len() == items@.len(),
{
    let ghost all = views(items@);
    let mut rest: Vec<T> = items;
    let mut out: Vec<T> = Vec::new();
    assert(views(out@) =~= all.take(0));
    assert(views(rest@) =~= all.skip(0));
    while rest.len() > 0
        invariant
            out@.len() + rest@.len() == all.len(),
            views(rest@) == all.skip(out@.len() as int),
            sort_of::<T>(views(out@), all.take(out@.len() as int)),
            all_placed::<T>(all) ==> all_placed::<T>(views(out@)),
        decreases rest@.len(),
    {
        let ghost sorted = views(out@);
        let ghost n = out@.len() as int;
        let ghost left = rest@;
        let x: T = rest.remove(0);
        let ghost v = x@;
        assert(v == all[n]) by {
            assert(views(left)[0] == all.skip(n)[0]);
        }
        insert_ranked(&mut out, x);
        proof {
            assert(all.take(n).push(v) =~= all.take(n + 1));
            vstd::seq_lib::to_multiset_build(sorted, v);
            vstd::seq_lib::to_multiset_build(all.take(n), v);
            if all_placed::<T>(all.take(n + 1)) {
                prefix_is_placed::<T>(all.take(n), v);
                sort_is_placed::<T>(sorted, all.take(n));
                assert(T::placed(all.take(n + 1)[n]));
                pushed_is_placed::<T>(sorted, v);
                sorting_extends::<T>(views(out@), sorted, all.take(n), v);
            }
            if all_placed::<T>(all) {
                assert(T::placed(all[n]));
                pushed_is_placed::<T>(sorted, v);
            }
            assert(views(rest@) =~= views(left).skip(1));
            assert(views(left).skip(1) =~= all.skip(n + 1));
        }
    }
    assert(all.take(all.len() as int) =~= all);
    out
}

/// All items but the last have a place where all have.
proof fn prefix_is_placed<T: Ranked>(s: Seq<T::V>, x: T::V)
    requires
        all_placed::<T>(s.push(x)),
    ensures
        all_placed::<T>(s),
{
    assert forall|i: int| 0 <= i < s.len() implies T::placed(#[trigger] s[i]) by {
        assert(s.push(x)[i] == s[i]);
    }
}

/// One more item with a place leaves all with a place.
proof fn pushed_is_placed<T: Ranked>(s: Seq<T::V>, x: T::V)
    requires
        all_placed::<T>(s),
        T::placed(x),
    ensures
        all_placed::<T>(s.push(x)),
{
}

/// The same items in another order have a place where they had one.
pub proof fn sort_is_placed<T: Ranked>(a: Seq<T::V>, b: Seq<T::V>)
    requires
        a.to_multiset() == b.to_multiset(),
        all_placed::<T>(b),
    ensures
        all_placed::<T>(a),
{
    broadcast use vstd::seq_lib::group_to_multiset_ensures;

    assert forall|i: int| 0 <= i < a.len() implies T::placed(#[trigger] a[i]) by {
        assert(a.contains(a[i]));
        assert(b.to_multiset().contains(a[i]));
        assert(b.contains(a[i]));
        let k = b.index_of(a[i]);
        assert(T::placed(b[k]));
    }
}

/// A filter keeps of the items, counted without order, those that pass.
proof fn filter_multiset<V>(s: Seq<V>, p: spec_fn(V) -> bool)
    ensures
        s.filter(p).to_multiset() == s.to_multiset().filter(p),
    decreases s.len(),
{
    broadcast use vstd::seq_lib::group_to_multiset_ensures;

    if s.len() == 0 {
        assert(s.filter(p) =~= s);
        assert(s.to_multiset() =~= vstd::multiset::Multiset::empty());
        assert(s.to_multiset().filter(p) =~= s.to_multiset());
    } else {
        let head = s.drop_last();
        filter_multiset(head, p);
        assert(s =~= head.push(s.last()));
        head.lemma_filter_push(s.last(), p);
        assert(s.to_multiset() =~= head.to_multiset().insert(s.last()));
        assert(s.filter(p).to_multiset() =~= s.to_multiset().filter(p));
    }
}

/// Sorting keeps how many items meet a condition.
pub proof fn sort_keeps_counts<T: Ranked>(
    out: Seq<T::V>,
    input: Seq<T::V>,
    p: spec_fn(T::V) -> bool,
)
    requires
        stable_sort_of::<T>(out, input),
    ensures
        out.filter(p).len() == input.filter(p).len(),
        out.len() == input.len(),
{
    filter_multiset(out, p);
    filter_multiset(input, p);
    vstd::seq_lib::to_multiset_len(out.filter(p));
    vstd::seq_lib::to_multiset_len(input.filter(p));
    vstd::seq_lib::to_multiset_len(out);
    vstd::seq_lib::to_multiset_len(input);
}

/// A sequence has only one stable sort.
pub proof fn stable_sort_is_unique<T: Ranked>(a: Seq<T::V>, b: Seq<T::V>, input: Seq<T::V>)
    requires
        all_placed::<T>(input),
        stable_sort_of::<T>(a, input),
        stable_sort_of::<T>(b, input),
    ensures
        a == b,
{
    sort_is_placed::<T>(a, input);
    same_classes_same_order::<T>(a, b);
}

/// Two sequences in order with the same equals of each item are the same.
pub proof fn same_classes_same_order<T: Ranked>(a: Seq<T::V>, b: Seq<T::V>)
    requires
        in_order::<T>(a),
        in_order::<T>(b),
        all_placed::<T>(a),
        a.to_multiset() == b.to_multiset(),
        forall|x: T::V|
            T::placed(x) ==> #[trigger] equals_of::<T>(a, x) == equals_of::<T>(b, x),
    ensures
        a == b,
    decreases a.len(),
{
    broadcast use vstd::seq_lib::group_to_multiset_ensures;

    vstd::seq_lib::to_multiset_len(a);
    vstd::seq_lib::to_multiset_len(b);
    sort_is_placed::<T>(b, a);
    if a.len() == 0 {
        assert(a =~= b);
    } else {
        let x = a.last();
        let y = b.last();
        assert(T::placed(a[a.len() - 1]));
        assert(T::placed(b[b.len() - 1]));
        // Each last item occurs in the other sequence, where nothing behind it is
        // ahead of it: so neither is ahead of the other.
        assert(b.to_multiset().contains(x));
        assert(b.contains(x));
        let i = choose|i: int| 0 <= i < b.len() && b[i] == x;
        assert(a.to_multiset().contains(y));
        assert(a.contains(y));
        let j = choose|j: int| 0 <= j < a.len() && a[j] == y;
        T::order_is_weak(x, y, x);
        T::order_is_weak(y, x, y);
        assert(!T::ahead(y, x)) by {
            if i == b.len() - 1 {
                assert(x == y);
            }
        }
        assert(!T::ahead(x, y)) by {
            if j == a.len() - 1 {
                assert(x == y);
            }
        }
        let f = |z: T::V| equals::<T>(z, x);
        let a1 = a.drop_last();
        let b1 = b.drop_last();
        assert(a =~= a1.push(x));
        assert(b =~= b1.push(y));
        a1.lemma_filter_push(x, f);
        b1.lemma_filter_push(y, f);
        assert(equals_of::<T>(a, x) == equals_of::<T>(b, x));
        assert(a1.filter(f).push(x).last() == b1.filter(f).push(y).last());
        assert(x == y);
        assert forall|z: T::V| T::placed(z) implies #[trigger] equals_of::<T>(a1, z) == equals_of::<
            T,
        >(b1, z) by {
            let g = |w: T::V| equals::<T>(w, z);
            a1.lemma_filter_push(x, g);
            b1.lemma_filter_push(x, g);
            assert(equals_of::<T>(a, z) == equals_of::<T>(b, z));
            if g(x) {
                assert(a1.filter(g) =~= a1.filter(g).push(x).drop_last());
                assert(b1.filter(g) =~= b1.filter(g).push(x).drop_last());
            }
        }
        assert(a1.to_multiset() =~= a.to_multiset().remove(x));
        assert(b1.to_multiset() =~= b.to_multiset().remove(x));
        prefix_is_placed::<T>(a1, x);
        same_classes_same_order::<T>(a1, b1);
    }
}

/// Two sequences without repetition that hold the same items have the same
/// multiset.
pub proof fn same_items_same_multiset<V>(a: Seq<V>, b: Seq<V>)
    requires
        a.no_duplicates(),
        b.no_duplicates(),
        forall|v: V| #[trigger] a.contains(v) <==> b.contains(v),
    ensures
        a.to_multiset() == b.to_multiset(),
{
    broadcast use vstd::seq_lib::group_to_multiset_ensures;

    a.lemma_multiset_has_no_duplicates();
    b.lemma_multiset_has_no_duplicates();
    assert forall|v: V| #[trigger] a.to_multiset().count(v) == b.to_multiset().count(v) by {
        assert(a.contains(v) <==> a.to_multiset().count(v) > 0);
        assert(b.contains(v) <==> b.to_multiset().count(v) > 0);
        if a.contains(v) {
            assert(a.to_multiset().contains(v) && b.to_multiset().contains(v));
        }
    }
    assert(a.to_multiset() =~= b.to_multiset());
}

/// The items of a map, each under its own key, can stand in order in one way
/// only where equals share their key.
pub proof fn items_in_order_agree<T: Ranked, K>(
    a: Seq<T::V>,
    b: Seq<T::V>,
    m: Map<K, T::V>,
    key: spec_fn(T::V) -> K,
)
    requires
        in_order::<T>(a),
        in_order::<T>(b),
        all_placed::<T>(a),
        enumerates(a.map_values(|v: T::V| (key(v), v)), m),
        enumerates(b.map_values(|v: T::V| (key(v), v)), m),
        forall|x: T::V, y: T::V|
            T::placed(x) && T::placed(y) && #[trigger] equals::<T>(x, y) ==> key(x) == key(y),
    ensures
        a == b,
{
    items_listed_once(a, m, key);
    items_listed_once(b, m, key);
    assert forall|v: T::V| #[trigger] a.contains(v) <==> b.contains(v) by {}
    same_items_same_multiset(a, b);
    sort_is_placed::<T>(b, a);
    assert forall|x: T::V| T::placed(x) implies #[trigger] equals_of::<T>(a, x) == equals_of::<T>(
        b,
        x,
    ) by {
        equals_by_key::<T, K>(a, m, key, x);
        equals_by_key::<T, K>(b, m, key, x);
    }
    same_classes_same_order::<T>(a, b);
}

/// A sequence that enumerates a map, each item under its own key, holds exactly
/// its items, each once.
proof fn items_listed_once<K, V>(a: Seq<V>, m: Map<K, V>, key: spec_fn(V) -> K)
    requires
        enumerates(a.map_values(|v: V| (key(v), v)), m),
    ensures
        a.no_duplicates(),
        forall|v: V| #[trigger] a.contains(v) <==> m.contains_key(key(v)) && m[key(v)] == v,
{
    let e = a.map_values(|v: V| (key(v), v));
    assert forall|i: int, j: int| 0 <= i < a.len() && 0 <= j < a.len() && i != j implies a[i]
        != a[j] by {
        if i < j {
            assert(e[i].0 != e[j].0);
        } else {
            assert(e[j].0 != e[i].0);
        }
    }
    assert forall|v: V| #[trigger] a.contains(v) <==> m.contains_key(key(v)) && m[key(v)] == v by {
        if a.contains(v) {
            let i = a.index_of(v);
            assert(e[i].0 == key(v) && e[i].1 == v);
        }
        if m.contains_key(key(v)) && m[key(v)] == v {
            let i = choose|i: int| 0 <= i < e.len() && (#[trigger] e[i]).0 == key(v);
            assert(e[i].1 == v);
            assert(a[i] == v);
        }
    }
}

/// Where equals share their key, the equals of `x` in an enumeration of a map
/// are the item at its key, where that is an equal.
proof fn equals_by_key<T: Ranked, K>(
    a: Seq<T::V>,
    m: Map<K, T::V>,
    key: spec_fn(T::V) -> K,
    x: T::V,
)
    requires
        all_placed::<T>(a),
        T::placed(x),
        enumerates(a.map_values(|v: T::V| (key(v), v)), m),
        forall|y: T::V, z: T::V|
            T::placed(y) && T::placed(z) && #[trigger] equals::<T>(y, z) ==> key(y) == key(z),
    ensures
        equals_of::<T>(a, x) == (if m.contains_key(key(x)) && equals::<T>(m[key(x)], x) {
            seq![m[key(x)]]
        } else {
            Seq::empty()
        }),
{
    let f = |y: T::V| equals::<T>(y, x);
    items_listed_once(a, m, key);
    assert forall|i: int| 0 <= i < a.len() && f(#[trigger] a[i]) implies m.contains_key(key(x))
        && a[i] == m[key(x)] by {
        assert(a.contains(a[i]));
        assert(equals::<T>(a[i], x));
    }
    if m.contains_key(key(x)) && equals::<T>(m[key(x)], x) {
        let y = m[key(x)];
        assert(key(y) == key(x));
        assert(a.contains(y));
        let i = a.index_of(y);
        assert forall|j: int| 0 <= j < a.len() && j != i implies !f(#[trigger] a[j]) by {
            assert(a[j] != a[i]);
        }
        filter_single(a, f, i);
    } else {
        assert forall|j: int| 0 <= j < a.len() implies !f(#[trigger] a[j]) by {
            if f(a[j]) {
                assert(a[j] == m[key(x)]);
            }
        }
        a.lemma_all_neg_filter_empty(f);
        assert(a.filter(f) =~= Seq::empty());
    }
}

} // verus!
