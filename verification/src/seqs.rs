//! The first match in a sequence, and sequences that enumerate a map.

use vstd::prelude::*;

verus! {

/// The first item of a sequence that meets a condition.
pub open spec fn first<T>(s: Seq<T>, p: spec_fn(T) -> bool) -> Option<T>
    decreases s.len(),
{
    if s.len() == 0 {
        None
    } else if p(s[0]) {
        Some(s[0])
    } else {
        first(s.skip(1), p)
    }
}

/// The item at `i` is the first match where it matches and none before it does.
pub proof fn first_at<T>(s: Seq<T>, p: spec_fn(T) -> bool, i: int)
    requires
        0 <= i < s.len(),
        p(s[i]),
        forall|j: int| 0 <= j < i ==> !p(#[trigger] s[j]),
    ensures
        first(s, p) == Some(s[i]),
    decreases s.len(),
{
    if i > 0 {
        assert(!p(s[0]));
        let t = s.skip(1);
        assert forall|j: int| 0 <= j < i - 1 implies !p(#[trigger] t[j]) by {
            assert(t[j] == s[j + 1]);
        }
        first_at(t, p, i - 1);
    }
}

/// There is no first match where nothing matches.
pub proof fn first_none<T>(s: Seq<T>, p: spec_fn(T) -> bool)
    requires
        forall|j: int| 0 <= j < s.len() ==> !p(#[trigger] s[j]),
    ensures
        first(s, p) is None,
    decreases s.len(),
{
    if s.len() > 0 {
        let t = s.skip(1);
        assert(!p(s[0]));
        assert forall|j: int| 0 <= j < t.len() implies !p(#[trigger] t[j]) by {
            assert(t[j] == s[j + 1]);
        }
        first_none(t, p);
    }
}

/// A first match stands at some place, meets the condition, and nothing before
/// it does; and there is none only where nothing matches.
pub proof fn first_is_first<T>(s: Seq<T>, p: spec_fn(T) -> bool)
    ensures
        match first(s, p) {
            Some(x) => exists|i: int|
                0 <= i < s.len() && #[trigger] s[i] == x && p(x) && (forall|j: int|
                    0 <= j < i ==> !p(#[trigger] s[j])),
            None => forall|j: int| 0 <= j < s.len() ==> !p(#[trigger] s[j]),
        },
    decreases s.len(),
{
    if s.len() > 0 && !p(s[0]) {
        let t = s.skip(1);
        first_is_first(t, p);
        match first(t, p) {
            Some(x) => {
                let i = choose|i: int|
                    0 <= i < t.len() && #[trigger] t[i] == x && p(x) && (forall|j: int|
                        0 <= j < i ==> !p(#[trigger] t[j]));
                assert(s[i + 1] == x);
                assert forall|j: int| 0 <= j < i + 1 implies !p(#[trigger] s[j]) by {
                    if j > 0 {
                        assert(s[j] == t[j - 1]);
                    }
                }
            },
            None => {
                assert forall|j: int| 0 <= j < s.len() implies !p(#[trigger] s[j]) by {
                    if j > 0 {
                        assert(s[j] == t[j - 1]);
                    }
                }
            },
        }
    }
}

/// Whether a sequence of keys and values holds each entry of a map once.
pub open spec fn enumerates<K, V>(s: Seq<(K, V)>, m: Map<K, V>) -> bool {
    &&& forall|i: int, j: int|
        0 <= i < j < s.len() ==> #[trigger] s[i].0 != #[trigger] s[j].0
    &&& forall|i: int|
        0 <= i < s.len() ==> m.contains_key((#[trigger] s[i]).0) && m[s[i].0] == s[i].1
    &&& forall|k: K| #[trigger]
        m.contains_key(k) ==> exists|i: int| 0 <= i < s.len() && (#[trigger] s[i]).0 == k
}

/// The entries of a map at the keys of a sequence, in its order.
pub open spec fn entries_of<K, V>(keys: Seq<K>, m: Map<K, V>) -> Seq<(K, V)> {
    keys.filter(|k: K| m.contains_key(k)).map_values(|k: K| (k, m[k]))
}

/// One more key adds its entry where the map has one.
pub proof fn entries_grow<K, V>(keys: Seq<K>, m: Map<K, V>, n: int)
    requires
        0 <= n < keys.len(),
    ensures
        entries_of(keys.take(n + 1), m) == (if m.contains_key(keys[n]) {
            entries_of(keys.take(n), m).push((keys[n], m[keys[n]]))
        } else {
            entries_of(keys.take(n), m)
        }),
{
    let p = |k: K| m.contains_key(k);
    let head = keys.take(n);
    assert(keys.take(n + 1) =~= head.push(keys[n]));
    head.lemma_filter_push(keys[n], p);
    let f = |k: K| (k, m[k]);
    assert(head.filter(p).push(keys[n]).map_values(f) =~= head.filter(p).map_values(f).push(
        (keys[n], m[keys[n]]),
    ));
}

/// A filter keeps items apart that are all different.
proof fn filter_keeps_distinct<K>(keys: Seq<K>, p: spec_fn(K) -> bool)
    requires
        keys.no_duplicates(),
    ensures
        keys.filter(p).no_duplicates(),
    decreases keys.len(),
{
    if keys.len() == 0 {
        assert(keys.filter(p) =~= Seq::<K>::empty());
    } else {
        let head = keys.drop_last();
        let x = keys.last();
        filter_keeps_distinct(head, p);
        assert(keys =~= head.push(x));
        head.lemma_filter_push(x, p);
        assert forall|i: int| 0 <= i < head.filter(p).len() implies head.filter(p)[i] != x by {
            assert(head.filter(p).contains(head.filter(p)[i]));
            head.lemma_filter_contains_rev(p, head.filter(p)[i]);
            let j = head.index_of(head.filter(p)[i]);
            assert(keys[j] == head.filter(p)[i]);
            assert(keys[keys.len() - 1] == x);
        }
    }
}

/// The entries at all keys of a map enumerate the map.
pub proof fn entries_enumerate<K, V>(keys: Seq<K>, m: Map<K, V>)
    requires
        keys.no_duplicates(),
        forall|k: K| #[trigger] m.contains_key(k) ==> keys.contains(k),
    ensures
        enumerates(entries_of(keys, m), m),
{
    let p = |k: K| m.contains_key(k);
    let kept = keys.filter(p);
    let s = entries_of(keys, m);
    filter_keeps_distinct(keys, p);
    assert forall|i: int| 0 <= i < s.len() implies m.contains_key((#[trigger] s[i]).0) && m[s[i].0]
        == s[i].1 by {
        keys.lemma_filter_pred(p, i);
    }
    assert forall|k: K| #[trigger] m.contains_key(k) implies exists|i: int|
        0 <= i < s.len() && (#[trigger] s[i]).0 == k by {
        let a = keys.index_of(k);
        keys.lemma_filter_contains(p, a);
        let i = kept.index_of(k);
        assert(s[i].0 == k);
    }
}

/// Items in another order enumerate the same map, each under its own key.
pub proof fn permutation_enumerates<K, V>(
    t: Seq<V>,
    s: Seq<V>,
    m: Map<K, V>,
    key: spec_fn(V) -> K,
)
    requires
        t.to_multiset() == s.to_multiset(),
        enumerates(s.map_values(|v: V| (key(v), v)), m),
    ensures
        enumerates(t.map_values(|v: V| (key(v), v)), m),
{
    broadcast use vstd::seq_lib::group_to_multiset_ensures;

    let es = s.map_values(|v: V| (key(v), v));
    let et = t.map_values(|v: V| (key(v), v));
    assert forall|i: int, j: int| 0 <= i < s.len() && 0 <= j < s.len() && i != j implies s[i]
        != s[j] by {
        if i < j {
            assert(es[i].0 != es[j].0);
        } else {
            assert(es[j].0 != es[i].0);
        }
    }
    s.lemma_multiset_has_no_duplicates();
    t.lemma_multiset_has_no_duplicates_conv();
    assert forall|v: V| #[trigger] t.contains(v) <==> s.contains(v) by {
        assert(t.contains(v) <==> t.to_multiset().count(v) > 0);
        assert(s.contains(v) <==> s.to_multiset().count(v) > 0);
    }
    assert forall|i: int| 0 <= i < et.len() implies m.contains_key((#[trigger] et[i]).0)
        && m[et[i].0] == et[i].1 by {
        assert(t.contains(t[i]));
        let p = s.index_of(t[i]);
        assert(es[p] == et[i]);
    }
    assert forall|i: int, j: int| 0 <= i < j < et.len() implies #[trigger] et[i].0
        != #[trigger] et[j].0 by {
        assert(m[et[i].0] == et[i].1);
        assert(m[et[j].0] == et[j].1);
        assert(t[i] != t[j]);
    }
    assert forall|k: K| #[trigger] m.contains_key(k) implies exists|i: int|
        0 <= i < et.len() && (#[trigger] et[i]).0 == k by {
        let p = choose|p: int| 0 <= p < es.len() && (#[trigger] es[p]).0 == k;
        assert(s.contains(s[p]));
        assert(t.contains(s[p]));
        let i = t.index_of(s[p]);
        assert(et[i] == es[p]);
    }
}

/// Where one item alone meets a condition, it is all that the filter keeps.
pub proof fn filter_single<T>(s: Seq<T>, p: spec_fn(T) -> bool, i: int)
    requires
        0 <= i < s.len(),
        p(s[i]),
        forall|j: int| 0 <= j < s.len() && j != i ==> !p(#[trigger] s[j]),
    ensures
        s.filter(p) == seq![s[i]],
{
    let head = s.take(i);
    let one = seq![s[i]];
    let tail = s.skip(i + 1);
    assert(s =~= head + one + tail);
    Seq::filter_distributes_over_add(head + one, tail, p);
    Seq::filter_distributes_over_add(head, one, p);
    assert forall|j: int| 0 <= j < head.len() implies !p(#[trigger] head[j]) by {
        assert(head[j] == s[j]);
    }
    assert forall|j: int| 0 <= j < tail.len() implies !p(#[trigger] tail[j]) by {
        assert(tail[j] == s[i + 1 + j]);
    }
    head.lemma_all_neg_filter_empty(p);
    tail.lemma_all_neg_filter_empty(p);
    let empty = Seq::<T>::empty();
    assert(head.filter(p) =~= empty);
    assert(tail.filter(p) =~= empty);
    assert(one =~= empty.push(s[i]));
    empty.lemma_filter_push(s[i], p);
    assert(empty.filter(p) =~= empty);
    assert(one.filter(p) =~= one);
    assert(s.filter(p) =~= one);
}

/// The condition that an entry stands at a key.
pub open spec fn at_key<K, V>(k: K) -> spec_fn((K, V)) -> bool {
    |e: (K, V)| e.0 == k
}

/// In a sequence that enumerates a map, the first entry at a key is the map's.
pub proof fn first_in_enumeration<K, V>(s: Seq<(K, V)>, m: Map<K, V>, k: K)
    requires
        enumerates(s, m),
    ensures
        first(s, at_key(k)) == (if m.contains_key(k) {
            Some((k, m[k]))
        } else {
            None
        }),
{
    let p = at_key::<K, V>(k);
    if m.contains_key(k) {
        let i = choose|i: int| 0 <= i < s.len() && (#[trigger] s[i]).0 == k;
        assert forall|j: int| 0 <= j < i implies !p(#[trigger] s[j]) by {
            assert(s[j].0 != s[i].0);
        }
        first_at(s, p, i);
    } else {
        assert forall|j: int| 0 <= j < s.len() implies !p(#[trigger] s[j]) by {
            assert(m.contains_key(s[j].0));
        }
        first_none(s, p);
    }
}

} // verus!
