//! Ordering by keys: the positions of a sequence in the order of its keys, where
//! equal keys keep their order.

use vstd::prelude::*;
use vstd::relations::sorted_by;
use crate::ordered::Key;

verus! {

/// Whether position `a` goes before position `b`: by key, and by place where the
/// keys are equal.
pub open spec fn ranks_before<K: Key>(keys: Seq<K::Name>, a: int, b: int) -> bool {
    K::before(keys[a], keys[b]) || (keys[a] == keys[b] && a < b)
}

/// Whether `r` gives every position of `keys` once, in rank order.
pub open spec fn is_order<K: Key>(keys: Seq<K::Name>, r: Seq<int>) -> bool {
    &&& r.len() == keys.len()
    &&& forall|i: int| 0 <= i < r.len() ==> 0 <= #[trigger] r[i] < keys.len()
    &&& forall|i: int, j: int|
        0 <= i < j < r.len() ==> ranks_before::<K>(
            keys,
            #[trigger] r[i],
            #[trigger] r[j],
        )
    &&& forall|k: int| 0 <= k < keys.len() ==> #[trigger] placed(r, k)
}

/// Whether `r` gives the position `k`.
pub open spec fn placed(r: Seq<int>, k: int) -> bool {
    exists|i: int| 0 <= i < r.len() && #[trigger] r[i] == k
}

/// The positions of `keys` in rank order.
pub open spec fn order_by<K: Key>(keys: Seq<K::Name>) -> Seq<int> {
    choose|r: Seq<int>| is_order::<K>(keys, r)
}

/// The items of `s` in the order of their keys.
pub open spec fn in_order<K: Key, T>(s: Seq<T>, keys: Seq<K::Name>) -> Seq<T> {
    Seq::new(s.len(), |i: int| s[order_by::<K>(keys)[i]])
}

proof fn lemma_ranks_transitive<K: Key>(keys: Seq<K::Name>, a: int, b: int, c: int)
    requires
        ranks_before::<K>(keys, a, b),
        ranks_before::<K>(keys, b, c),
    ensures
        ranks_before::<K>(keys, a, c),
{
    if K::before(keys[a], keys[b]) && K::before(keys[b], keys[c]) {
        K::lemma_transitive(keys[a], keys[b], keys[c]);
    }
}

proof fn lemma_ranks_irreflexive<K: Key>(keys: Seq<K::Name>, a: int)
    ensures
        !ranks_before::<K>(keys, a, a),
{
    K::lemma_irreflexive(keys[a]);
}

/// There is one rank order.
pub proof fn lemma_order_unique<K: Key>(keys: Seq<K::Name>, r: Seq<int>, t: Seq<int>)
    requires
        is_order::<K>(keys, r),
        is_order::<K>(keys, t),
    ensures
        r == t,
{
    if r.len() > 0 {
        lemma_orders_agree::<K>(keys, r, t, r.len() - 1);
    }
    assert(r =~= t);
}

proof fn lemma_orders_agree<K: Key>(keys: Seq<K::Name>, r: Seq<int>, t: Seq<int>, k: int)
    requires
        is_order::<K>(keys, r),
        is_order::<K>(keys, t),
        0 <= k < r.len(),
    ensures
        forall|i: int| 0 <= i <= k ==> #[trigger] r[i] == t[i],
    decreases k,
{
    if k > 0 {
        lemma_orders_agree::<K>(keys, r, t, k - 1);
    }
    assert(placed(t, r[k]) && placed(r, t[k]));
    let a = choose|a: int| 0 <= a < t.len() && #[trigger] t[a] == r[k];
    let b = choose|b: int| 0 <= b < r.len() && #[trigger] r[b] == t[k];
    lemma_ranks_irreflexive::<K>(keys, r[k]);
    lemma_ranks_irreflexive::<K>(keys, t[k]);
    if a < k {
        assert(r[a] == t[a]);
    }
    if b < k {
        assert(r[b] == t[b]);
    }
    if a > k && b > k {
        lemma_ranks_transitive::<K>(keys, t[k], r[k], t[k]);
    }
}

/// The names of the keys.
pub open spec fn key_names<K: Key>(keys: Seq<K>) -> Seq<K::Name> {
    Seq::new(keys.len(), |i: int| keys[i].name())
}

/// The positions as mathematical integers.
pub open spec fn positions(r: Seq<usize>) -> Seq<int> {
    Seq::new(r.len(), |i: int| r[i] as int)
}

/// The positions of `keys` in rank order.
pub fn order_of<K: Key>(keys: &Vec<K>) -> (r: Vec<usize>)
    ensures
        is_order::<K>(key_names(keys@), positions(r@)),
        positions(r@) == order_by::<K>(key_names(keys@)),
{
    let ghost names = key_names(keys@);
    let mut r: Vec<usize> = Vec::new();
    let mut i: usize = 0;
    while i < keys.len()
        invariant
            i <= keys@.len(),
            names == key_names(keys@),
            r@.len() == i,
            forall|a: int| 0 <= a < r@.len() ==> 0 <= #[trigger] r@[a] < i,
            forall|a: int, b: int|
                0 <= a < b < r@.len() ==> ranks_before::<K>(
                    names,
                    #[trigger] r@[a] as int,
                    #[trigger] r@[b] as int,
                ),
            forall|k: int| 0 <= k < i ==> #[trigger] placed(positions(r@), k),
        decreases keys@.len() - i,
    {
        let mut p: usize = r.len();
        while p > 0 && keys[i].less(&keys[r[p - 1]])
            invariant
                p <= r@.len(),
                r@.len() == i,
                i < keys@.len(),
                names == key_names(keys@),
                forall|a: int| 0 <= a < r@.len() ==> 0 <= #[trigger] r@[a] < i,
                forall|a: int| p <= a < r@.len() ==> K::before(
                    names[i as int],
                    names[#[trigger] r@[a] as int],
                ),
            ensures
                p <= r@.len(),
                forall|a: int| p <= a < r@.len() ==> K::before(
                    names[i as int],
                    names[#[trigger] r@[a] as int],
                ),
                p > 0 ==> !K::before(names[i as int], names[r@[p - 1] as int]),
            decreases p,
        {
            p -= 1;
        }
        let ghost before = r@;
        r.insert(p, i);
        proof {
            assert(r@ == before.insert(p as int, i));
            assert forall|a: int| 0 <= a < p implies ranks_before::<K>(
                names,
                #[trigger] before[a] as int,
                i as int,
            ) by {
                let last = before[p - 1] as int;
                K::lemma_total(names[last], names[i as int]);
                if a < p - 1 {
                    assert(ranks_before::<K>(names, before[a] as int, before[p - 1] as int));
                    lemma_ranks_transitive::<K>(names, before[a] as int, last, i as int);
                }
            }
            assert forall|a: int, b: int| 0 <= a < b < r@.len() implies ranks_before::<K>(
                names,
                #[trigger] r@[a] as int,
                #[trigger] r@[b] as int,
            ) by {
                let x = if a < p { a } else { a - 1 };
                let y = if b < p { b } else { b - 1 };
                if a == p {
                    assert(r@[b] == before[b - 1]);
                } else if b == p {
                    assert(r@[a] == before[a]);
                } else {
                    assert(r@[a] == before[x] && r@[b] == before[y]);
                }
            }
            assert forall|a: int| 0 <= a < r@.len() implies 0 <= #[trigger] r@[a] < i + 1 by {
                if a < p {
                    assert(r@[a] == before[a]);
                } else if a > p {
                    assert(r@[a] == before[a - 1]);
                }
            }
            assert forall|k: int| 0 <= k < i + 1 implies #[trigger] placed(positions(r@), k) by {
                if k == i {
                    assert(positions(r@)[p as int] == k);
                } else {
                    assert(placed(positions(before), k));
                    let a = choose|a: int|
                        0 <= a < positions(before).len() && #[trigger] positions(before)[a] == k;
                    if a < p {
                        assert(positions(r@)[a] == k);
                    } else {
                        assert(positions(r@)[a + 1] == k);
                    }
                }
            }
        }
        i += 1;
    }
    proof {
        let s = positions(r@);
        assert forall|a: int, b: int| 0 <= a < b < s.len() implies ranks_before::<K>(
            names,
            #[trigger] s[a],
            #[trigger] s[b],
        ) by {
            assert(ranks_before::<K>(names, r@[a] as int, r@[b] as int));
        }
        assert forall|a: int| 0 <= a < s.len() implies 0 <= #[trigger] s[a] < names.len() by {
            assert(0 <= r@[a] < i);
        }
        assert(is_order::<K>(names, s));
        lemma_order_unique::<K>(names, s, order_by::<K>(names));
    }
    r
}

/// The items of `s` at the positions that `r` gives.
spec fn picked<T>(s: Seq<T>, r: Seq<int>) -> Seq<T> {
    Seq::new(r.len(), |i: int| s[r[i]])
}

/// To give every position once keeps every item as often as it was there.
proof fn lemma_picked<T>(s: Seq<T>, r: Seq<int>)
    requires
        r.len() == s.len(),
        r.no_duplicates(),
        forall|i: int| 0 <= i < r.len() ==> 0 <= #[trigger] r[i] < s.len(),
    ensures
        picked(s, r).to_multiset() == s.to_multiset(),
    decreases s.len(),
{
    broadcast use vstd::seq_lib::group_to_multiset_ensures;

    if s.len() > 0 {
        let j = r.last();
        let rest = s.remove(j);
        let q = Seq::new(
            (r.len() - 1) as nat,
            |i: int|
                if r[i] > j {
                    r[i] - 1
                } else {
                    r[i]
                },
        );
        assert forall|i: int| 0 <= i < q.len() implies 0 <= #[trigger] q[i] < rest.len() by {
            assert(r[i] != r[r.len() - 1]);
        }
        assert forall|i: int, k: int| 0 <= i < q.len() && 0 <= k < q.len() && i != k implies q[i]
            != q[k] by {
            assert(r[i] != r[k]);
            assert(r[i] != r[r.len() - 1] && r[k] != r[r.len() - 1]);
        }
        lemma_picked(rest, q);
        assert(picked(rest, q).push(s[j]) =~= picked(s, r)) by {
            assert forall|i: int| 0 <= i < q.len() implies rest[q[i]] == s[r[i]] by {
                assert(r[i] != r[r.len() - 1]);
            }
        }
        assert(rest.insert(j, s[j]) =~= s);
    } else {
        assert(picked(s, r) =~= s);
    }
}

/// The same items in another order have the same keys, each as often.
pub proof fn lemma_same_keys<T, U>(s: Seq<T>, t: Seq<T>, f: spec_fn(T) -> U)
    requires
        s.to_multiset() == t.to_multiset(),
    ensures
        s.map_values(f).to_multiset() == t.map_values(f).to_multiset(),
    decreases s.len(),
{
    broadcast use vstd::seq_lib::group_to_multiset_ensures;

    vstd::seq_lib::to_multiset_len(s);
    vstd::seq_lib::to_multiset_len(t);
    if s.len() > 0 {
        let x = s.last();
        assert(s.contains(x));
        assert(t.to_multiset().count(x) > 0);
        let i = choose|i: int| 0 <= i < t.len() && t[i] == x;
        let front = s.drop_last();
        let rest = t.remove(i);
        assert(front.push(x) =~= s);
        assert(rest.insert(i, x) =~= t);
        assert(front.to_multiset() =~= rest.to_multiset());
        lemma_same_keys(front, rest, f);
        assert(front.map_values(f).push(f(x)) =~= s.map_values(f));
        assert(rest.map_values(f).insert(i, f(x)) =~= t.map_values(f));
    } else {
        assert(s =~= t);
    }
}

/// Keys come out in one order, however they stand.
pub proof fn lemma_order_of_same_keys<K: Key>(keys: Seq<K::Name>, others: Seq<K::Name>)
    requires
        keys.to_multiset() == others.to_multiset(),
    ensures
        in_order::<K, K::Name>(keys, keys) == in_order::<K, K::Name>(others, others),
{
    let leq = |a: K::Name, b: K::Name| K::before(a, b) || a == b;
    assert forall|a: K::Name, b: K::Name| #[trigger]
        leq(a, b) && #[trigger] leq(b, a) implies a == b by {
        if K::before(a, b) && K::before(b, a) {
            K::lemma_transitive(a, b, a);
            K::lemma_irreflexive(a);
        }
    }
    assert forall|a: K::Name, b: K::Name, c: K::Name| #[trigger]
        leq(a, b) && #[trigger] leq(b, c) implies leq(a, c) by {
        if K::before(a, b) && K::before(b, c) {
            K::lemma_transitive(a, b, c);
        }
    }
    assert forall|a: K::Name, b: K::Name| #[trigger] leq(a, b) || #[trigger] leq(b, a) by {
        K::lemma_total(a, b);
    }
    lemma_sorted_by_key::<K>(keys);
    lemma_sorted_by_key::<K>(others);
    vstd::seq_lib::lemma_sorted_unique(
        in_order::<K, K::Name>(keys, keys),
        in_order::<K, K::Name>(others, others),
        leq,
    );
}

/// Items in the order of their keys are the same items.
pub proof fn lemma_in_order_keeps<K: Key, T>(s: Seq<T>, keys: Seq<K::Name>)
    requires
        s.len() == keys.len(),
    ensures
        in_order::<K, T>(s, keys).to_multiset() == s.to_multiset(),
{
    let r = order_by::<K>(keys);
    lemma_order_exists::<K>(keys);
    assert forall|i: int, j: int| 0 <= i < r.len() && 0 <= j < r.len() && i != j implies r[i]
        != r[j] by {
        lemma_ranks_irreflexive::<K>(keys, r[i]);
        if i < j {
            assert(ranks_before::<K>(keys, r[i], r[j]));
        } else {
            assert(ranks_before::<K>(keys, r[j], r[i]));
        }
    }
    lemma_picked(s, r);
    assert(in_order::<K, T>(s, keys) =~= picked(s, r));
}

proof fn lemma_sorted_by_key<K: Key>(keys: Seq<K::Name>)
    ensures
        in_order::<K, K::Name>(keys, keys).to_multiset() == keys.to_multiset(),
        sorted_by(
            in_order::<K, K::Name>(keys, keys),
            |a: K::Name, b: K::Name| K::before(a, b) || a == b,
        ),
{
    let r = order_by::<K>(keys);
    lemma_order_exists::<K>(keys);
    lemma_in_order_keeps::<K, K::Name>(keys, keys);
    assert forall|i: int, j: int| 0 <= i < j < r.len() implies K::before(keys[r[i]], keys[r[j]])
        || keys[r[i]] == keys[r[j]] by {
        assert(ranks_before::<K>(keys, r[i], r[j]));
    }
}

/// There is a rank order.
pub proof fn lemma_order_exists<K: Key>(keys: Seq<K::Name>)
    ensures
        is_order::<K>(keys, order_by::<K>(keys)),
    decreases keys.len(),
{
    lemma_some_order::<K>(keys);
}

proof fn lemma_some_order<K: Key>(keys: Seq<K::Name>)
    ensures
        exists|r: Seq<int>| is_order::<K>(keys, r),
    decreases keys.len(),
{
    if keys.len() == 0 {
        assert(is_order::<K>(keys, seq![]));
    } else {
        let front = keys.drop_last();
        let i = front.len() as int;
        lemma_some_order::<K>(front);
        let r = choose|r: Seq<int>| is_order::<K>(front, r);
        let p = rank_place::<K>(keys, r, i);
        lemma_rank_place::<K>(keys, r, i);
        let t = r.insert(p, i);
        assert forall|a: int| 0 <= a < t.len() implies 0 <= #[trigger] t[a] < keys.len() by {
            if a < p {
                assert(t[a] == r[a]);
            } else if a > p {
                assert(t[a] == r[a - 1]);
            }
        }
        assert forall|a: int, b: int| 0 <= a < b < t.len() implies ranks_before::<K>(
            keys,
            #[trigger] t[a],
            #[trigger] t[b],
        ) by {
            let x = if a < p { a } else { a - 1 };
            let y = if b < p { b } else { b - 1 };
            if a != p && b != p {
                assert(t[a] == r[x] && t[b] == r[y]);
                assert(ranks_before::<K>(front, r[x], r[y]));
            } else if a == p {
                assert(t[b] == r[b - 1]);
            } else {
                assert(t[a] == r[a]);
            }
        }
        assert forall|k: int| 0 <= k < keys.len() implies #[trigger] placed(t, k) by {
            if k == i {
                assert(t[p] == k);
            } else {
                assert(placed(r, k));
                let a = choose|a: int| 0 <= a < r.len() && #[trigger] r[a] == k;
                if a < p {
                    assert(t[a] == k);
                } else {
                    assert(t[a + 1] == k);
                }
            }
        }
        assert(is_order::<K>(keys, t));
    }
}

/// Where position `i` goes among the ranked positions `r`.
spec fn rank_place<K: Key>(keys: Seq<K::Name>, r: Seq<int>, i: int) -> int
    decreases r.len(),
{
    if r.len() > 0 && K::before(keys[i], keys[r.last()]) {
        rank_place::<K>(keys, r.drop_last(), i)
    } else {
        r.len() as int
    }
}

proof fn lemma_rank_place<K: Key>(keys: Seq<K::Name>, r: Seq<int>, i: int)
    requires
        forall|a: int| 0 <= a < r.len() ==> 0 <= #[trigger] r[a] < i,
        i < keys.len(),
        forall|a: int, b: int|
            0 <= a < b < r.len() ==> ranks_before::<K>(keys, #[trigger] r[a], #[trigger] r[b]),
    ensures
        0 <= rank_place::<K>(keys, r, i) <= r.len(),
        forall|a: int|
            0 <= a < rank_place::<K>(keys, r, i) ==> ranks_before::<K>(keys, #[trigger] r[a], i),
        forall|a: int|
            rank_place::<K>(keys, r, i) <= a < r.len() ==> ranks_before::<K>(
                keys,
                i,
                #[trigger] r[a],
            ),
    decreases r.len(),
{
    let p = rank_place::<K>(keys, r, i);
    if r.len() > 0 {
        let front = r.drop_last();
        let last = r[r.len() - 1];
        if K::before(keys[i], keys[last]) {
            assert forall|a: int, b: int| 0 <= a < b < front.len() implies ranks_before::<K>(
                keys,
                #[trigger] front[a],
                #[trigger] front[b],
            ) by {
                assert(front[a] == r[a] && front[b] == r[b]);
            }
            assert forall|a: int| 0 <= a < front.len() implies 0 <= #[trigger] front[a] < i by {
                assert(front[a] == r[a]);
            }
            lemma_rank_place::<K>(keys, front, i);
            assert forall|a: int| 0 <= a < p implies ranks_before::<K>(
                keys,
                #[trigger] r[a],
                i,
            ) by {
                assert(front[a] == r[a]);
            }
            assert forall|a: int| p <= a < r.len() implies ranks_before::<K>(
                keys,
                i,
                #[trigger] r[a],
            ) by {
                if a < front.len() {
                    assert(front[a] == r[a]);
                }
            }
        } else {
            K::lemma_total(keys[last], keys[i]);
            assert forall|a: int| 0 <= a < p implies ranks_before::<K>(
                keys,
                #[trigger] r[a],
                i,
            ) by {
                if a < r.len() - 1 {
                    assert(ranks_before::<K>(keys, r[a], r[r.len() - 1]));
                    lemma_ranks_transitive::<K>(keys, r[a], last, i);
                }
            }
        }
    }
}

} // verus!
