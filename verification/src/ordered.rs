//! A map whose entries stand in the order of their keys.

use vstd::prelude::*;
use crate::text::{lemma_lex_irreflexive, lemma_lex_total, lemma_lex_transitive, lex_lt, text_less};

verus! {

/// A key: a value with a mathematical name, and a strict total order of the names.
pub trait Key: Sized {
    /// What a key stands for.
    type Name;

    /// What this key stands for.
    spec fn name(&self) -> Self::Name;

    /// The order of the names.
    spec fn before(a: Self::Name, b: Self::Name) -> bool;

    proof fn lemma_irreflexive(a: Self::Name)
        ensures
            !Self::before(a, a),
    ;

    proof fn lemma_transitive(a: Self::Name, b: Self::Name, c: Self::Name)
        requires
            Self::before(a, b),
            Self::before(b, c),
        ensures
            Self::before(a, c),
    ;

    proof fn lemma_total(a: Self::Name, b: Self::Name)
        ensures
            Self::before(a, b) || a == b || Self::before(b, a),
    ;

    /// Whether this key stands before `other`.
    fn less(&self, other: &Self) -> (r: bool)
        ensures
            r == Self::before(self.name(), other.name()),
    ;
}

impl Key for String {
    type Name = Seq<char>;

    open spec fn name(&self) -> Seq<char> {
        self@
    }

    open spec fn before(a: Seq<char>, b: Seq<char>) -> bool {
        lex_lt(a, b)
    }

    proof fn lemma_irreflexive(a: Seq<char>) {
        lemma_lex_irreflexive(a);
    }

    proof fn lemma_transitive(a: Seq<char>, b: Seq<char>, c: Seq<char>) {
        lemma_lex_transitive(a, b, c);
    }

    proof fn lemma_total(a: Seq<char>, b: Seq<char>) {
        lemma_lex_total(a, b);
    }

    fn less(&self, other: &Self) -> (r: bool) {
        text_less(self.as_str(), other.as_str())
    }
}

impl Key for u64 {
    type Name = u64;

    open spec fn name(&self) -> u64 {
        *self
    }

    open spec fn before(a: u64, b: u64) -> bool {
        a < b
    }

    proof fn lemma_irreflexive(a: u64) {
    }

    proof fn lemma_transitive(a: u64, b: u64, c: u64) {
    }

    proof fn lemma_total(a: u64, b: u64) {
    }

    fn less(&self, other: &Self) -> (r: bool) {
        *self < *other
    }
}

/// Pairs are ordered by their first part, then by their second.
impl<A: Key, B: Key> Key for (A, B) {
    type Name = (A::Name, B::Name);

    open spec fn name(&self) -> (A::Name, B::Name) {
        (self.0.name(), self.1.name())
    }

    open spec fn before(a: (A::Name, B::Name), b: (A::Name, B::Name)) -> bool {
        A::before(a.0, b.0) || (a.0 == b.0 && B::before(a.1, b.1))
    }

    proof fn lemma_irreflexive(a: (A::Name, B::Name)) {
        A::lemma_irreflexive(a.0);
        B::lemma_irreflexive(a.1);
    }

    proof fn lemma_transitive(
        a: (A::Name, B::Name),
        b: (A::Name, B::Name),
        c: (A::Name, B::Name),
    ) {
        if A::before(a.0, b.0) && A::before(b.0, c.0) {
            A::lemma_transitive(a.0, b.0, c.0);
        } else if a.0 == b.0 && b.0 == c.0 {
            B::lemma_transitive(a.1, b.1, c.1);
        }
    }

    proof fn lemma_total(a: (A::Name, B::Name), b: (A::Name, B::Name)) {
        A::lemma_total(a.0, b.0);
        B::lemma_total(a.1, b.1);
    }

    fn less(&self, other: &Self) -> (r: bool) {
        if self.0.less(&other.0) {
            true
        } else if other.0.less(&self.0) {
            proof {
                A::lemma_irreflexive(self.0.name());
            }
            false
        } else {
            proof {
                A::lemma_total(self.0.name(), other.0.name());
            }
            self.1.less(&other.1)
        }
    }
}

/// Whether the keys of `s` stand in strictly ascending order.
pub open spec fn ascending<K: Key, V>(s: Seq<(K, V)>) -> bool {
    forall|i: int, j: int|
        0 <= i < j < s.len() ==> K::before(#[trigger] s[i].0.name(), #[trigger] s[j].0.name())
}

/// Whether `s` has an entry under `name`.
pub open spec fn has_name<K: Key, V>(s: Seq<(K, V)>, name: K::Name) -> bool {
    exists|i: int| 0 <= i < s.len() && (#[trigger] s[i]).0.name() == name
}

/// The map that the entries make up.
pub open spec fn entries_map<K: Key, V>(s: Seq<(K, V)>) -> Map<K::Name, V> {
    Map::new(
        |name: K::Name| has_name(s, name),
        |name: K::Name|
            s[choose|i: int| 0 <= i < s.len() && (#[trigger] s[i]).0.name() == name].1,
    )
}

/// Ascending entries have distinct names, and the map holds each of them.
pub proof fn lemma_entry<K: Key, V>(s: Seq<(K, V)>, i: int)
    requires
        ascending(s),
        0 <= i < s.len(),
    ensures
        has_name(s, s[i].0.name()),
        entries_map(s).contains_key(s[i].0.name()),
        entries_map(s)[s[i].0.name()] == s[i].1,
{
    let name = s[i].0.name();
    let k = choose|k: int| 0 <= k < s.len() && (#[trigger] s[k]).0.name() == name;
    assert(0 <= k < s.len() && s[k].0.name() == name);
    K::lemma_irreflexive(name);
    if k < i {
        assert(K::before(s[k].0.name(), s[i].0.name()));
    } else if i < k {
        assert(K::before(s[i].0.name(), s[k].0.name()));
    }
}

/// The map has as many entries as the sequence.
pub proof fn lemma_entries_len<K: Key, V>(s: Seq<(K, V)>)
    requires
        ascending(s),
    ensures
        entries_map(s).dom().finite(),
        entries_map(s).dom().len() == s.len(),
    decreases s.len(),
{
    if s.len() == 0 {
        assert(entries_map(s).dom() =~= Set::empty());
    } else {
        let front = s.drop_last();
        let name = s.last().0.name();
        lemma_entries_len(front);
        lemma_entry(s, s.len() - 1);
        assert(!entries_map(front).dom().contains(name)) by {
            if has_name(front, name) {
                let k = choose|k: int|
                    0 <= k < front.len() && (#[trigger] front[k]).0.name() == name;
                assert(K::before(s[k].0.name(), s[s.len() - 1].0.name()));
                K::lemma_irreflexive(name);
            }
        }
        assert(entries_map(s).dom() =~= entries_map(front).dom().insert(name)) by {
            assert forall|n: K::Name| has_name(s, n) == (has_name(front, n) || n == name) by {
                if has_name(s, n) {
                    let k = choose|k: int| 0 <= k < s.len() && (#[trigger] s[k]).0.name() == n;
                    if k < s.len() - 1 {
                        assert(front[k].0.name() == n);
                    }
                }
                if has_name(front, n) {
                    let k = choose|k: int|
                        0 <= k < front.len() && (#[trigger] front[k]).0.name() == n;
                    assert(s[k].0.name() == n);
                }
            }
        }
    }
}

/// A map from the names of the keys to values, with its entries in order.
#[derive(Debug, PartialEq, Eq, Hash)]
pub struct OrderedMap<K: Key, V> {
    entries: Vec<(K, V)>,
}

impl<K: Key, V> View for OrderedMap<K, V> {
    type V = Map<K::Name, V>;

    closed spec fn view(&self) -> Map<K::Name, V> {
        entries_map(self.entries@)
    }
}

impl<K: Key, V> OrderedMap<K, V> {
    #[verifier::type_invariant]
    closed spec fn inv(&self) -> bool {
        ascending(self.entries@)
    }

    /// The empty map.
    pub fn new() -> (r: Self)
        ensures
            r@ == Map::<K::Name, V>::empty(),
    {
        let r = OrderedMap { entries: Vec::new() };
        assert(r@ =~= Map::<K::Name, V>::empty());
        r
    }

    /// The entries, in the order of their keys.
    pub fn entries(&self) -> (r: &Vec<(K, V)>)
        ensures
            ascending(r@),
            entries_map(r@) == self@,
            self@.dom().finite(),
            self@.dom().len() == r@.len(),
    {
        proof {
            use_type_invariant(self);
            lemma_entries_len(self.entries@);
        }
        &self.entries
    }

    /// The number of entries.
    pub fn len(&self) -> (r: usize)
        ensures
            self@.dom().finite(),
            r as nat == self@.dom().len(),
    {
        self.entries().len()
    }

    /// Where an entry under `key` stands or would stand, and whether it is there.
    fn position(entries: &Vec<(K, V)>, key: &K) -> (r: (usize, bool))
        requires
            ascending(entries@),
        ensures
            r.0 <= entries@.len(),
            r.1 ==> r.0 < entries@.len() && entries@[r.0 as int].0.name() == key.name(),
            r.1 == has_name(entries@, key.name()),
            forall|i: int|
                0 <= i < r.0 ==> K::before((#[trigger] entries@[i]).0.name(), key.name()),
            !r.1 ==> forall|i: int|
                r.0 <= i < entries@.len() ==> K::before(
                    key.name(),
                    (#[trigger] entries@[i]).0.name(),
                ),
    {
        let mut i: usize = 0;
        while i < entries.len() && entries[i].0.less(key)
            invariant
                i <= entries@.len(),
                forall|j: int|
                    0 <= j < i ==> K::before((#[trigger] entries@[j]).0.name(), key.name()),
            ensures
                i <= entries@.len(),
                forall|j: int|
                    0 <= j < i ==> K::before((#[trigger] entries@[j]).0.name(), key.name()),
                i < entries@.len() ==> !K::before(entries@[i as int].0.name(), key.name()),
            decreases entries@.len() - i,
        {
            i += 1;
        }
        let found = i < entries.len() && !key.less(&entries[i].0);
        proof {
            if i < entries@.len() {
                K::lemma_total(entries@[i as int].0.name(), key.name());
            }
            K::lemma_irreflexive(key.name());
            if !found {
                assert forall|j: int| i <= j < entries@.len() implies K::before(
                    key.name(),
                    (#[trigger] entries@[j]).0.name(),
                ) by {
                    if j > i {
                        assert(K::before(entries@[i as int].0.name(), entries@[j].0.name()));
                        K::lemma_transitive(
                            key.name(),
                            entries@[i as int].0.name(),
                            entries@[j].0.name(),
                        );
                    }
                }
            }
        }
        (i, found)
    }

    /// The value under `key`.
    pub fn get(&self, key: &K) -> (r: Option<&V>)
        ensures
            r is Some <==> self@.contains_key(key.name()),
            r is Some ==> *r->0 == self@[key.name()],
    {
        proof {
            use_type_invariant(self);
        }
        let (i, found) = Self::position(&self.entries, key);
        if found {
            proof {
                lemma_entry(self.entries@, i as int);
            }
            Some(&self.entries[i].1)
        } else {
            None
        }
    }

    /// Whether there is an entry under `key`.
    pub fn contains(&self, key: &K) -> (r: bool)
        ensures
            r == self@.contains_key(key.name()),
    {
        match self.get(key) {
            Some(_) => true,
            None => false,
        }
    }

    /// Puts `value` under `key`, in place of what was there.
    pub fn insert(&mut self, key: K, value: V)
        ensures
            final(self)@ == old(self)@.insert(key.name(), value),
    {
        let mut entries: Vec<(K, V)> = Vec::new();
        proof {
            use_type_invariant(&*self);
        }
        std::mem::swap(&mut entries, &mut self.entries);
        let ghost before = entries@;
        let ghost name = key.name();
        let (i, found) = Self::position(&entries, &key);
        if found {
            entries.set(i, (key, value));
            proof {
                assert forall|a: int, b: int| 0 <= a < b < entries@.len() implies K::before(
                    #[trigger] entries@[a].0.name(),
                    #[trigger] entries@[b].0.name(),
                ) by {
                    assert(entries@[a].0.name() == before[a].0.name());
                    assert(entries@[b].0.name() == before[b].0.name());
                }
                lemma_set(before, i as int, entries@[i as int]);
            }
        } else {
            entries.insert(i, (key, value));
            proof {
                lemma_inserted(before, i as int, entries@[i as int]);
            }
        }
        self.entries = entries;
    }

    /// Removes the entry under `key`, if there is one, and gives its value.
    pub fn remove(&mut self, key: &K) -> (r: Option<V>)
        ensures
            final(self)@ == old(self)@.remove(key.name()),
            r is Some <==> old(self)@.contains_key(key.name()),
            r is Some ==> r->0 == old(self)@[key.name()],
    {
        let mut entries: Vec<(K, V)> = Vec::new();
        proof {
            use_type_invariant(&*self);
        }
        std::mem::swap(&mut entries, &mut self.entries);
        let ghost before = entries@;
        let (i, found) = Self::position(&entries, key);
        let mut taken: Option<V> = None;
        if found {
            proof {
                lemma_entry(before, i as int);
            }
            let e = entries.remove(i);
            taken = Some(e.1);
            proof {
                lemma_removed(before, i as int);
            }
        } else {
            assert(entries_map(before).remove(key.name()) =~= entries_map(before));
        }
        self.entries = entries;
        taken
    }
}

proof fn lemma_map_is<K: Key, V>(s: Seq<(K, V)>, m: Map<K::Name, V>)
    requires
        ascending(s),
        forall|i: int|
            0 <= i < s.len() ==> m.contains_key((#[trigger] s[i]).0.name()) && m[s[i].0.name()]
                == s[i].1,
        forall|n: K::Name| #[trigger] m.contains_key(n) ==> has_name(s, n),
    ensures
        entries_map(s) == m,
{
    assert forall|n: K::Name| entries_map(s).contains_key(n) implies m.contains_key(n)
        && #[trigger] entries_map(s)[n] == m[n] by {
        let k = choose|k: int| 0 <= k < s.len() && (#[trigger] s[k]).0.name() == n;
        lemma_entry(s, k);
    }
    assert(entries_map(s) =~= m);
}

proof fn lemma_set<K: Key, V>(s: Seq<(K, V)>, i: int, e: (K, V))
    requires
        ascending(s),
        ascending(s.update(i, e)),
        0 <= i < s.len(),
        s[i].0.name() == e.0.name(),
    ensures
        entries_map(s.update(i, e)) == entries_map(s).insert(e.0.name(), e.1),
{
    let t = s.update(i, e);
    let m = entries_map(s).insert(e.0.name(), e.1);
    assert forall|k: int| 0 <= k < t.len() implies m.contains_key((#[trigger] t[k]).0.name())
        && m[t[k].0.name()] == t[k].1 by {
        lemma_entry(s, k);
        if k != i {
            K::lemma_irreflexive(e.0.name());
            if k < i {
                assert(K::before(s[k].0.name(), s[i].0.name()));
            } else {
                assert(K::before(s[i].0.name(), s[k].0.name()));
            }
        }
    }
    assert forall|n: K::Name| #[trigger] m.contains_key(n) implies has_name(t, n) by {
        if n == e.0.name() {
            assert(t[i].0.name() == n);
        } else {
            let k = choose|k: int| 0 <= k < s.len() && (#[trigger] s[k]).0.name() == n;
            assert(t[k].0.name() == n);
        }
    }
    lemma_map_is(t, m);
}

proof fn lemma_inserted<K: Key, V>(s: Seq<(K, V)>, i: int, e: (K, V))
    requires
        ascending(s),
        0 <= i <= s.len(),
        forall|j: int| 0 <= j < i ==> K::before((#[trigger] s[j]).0.name(), e.0.name()),
        forall|j: int| i <= j < s.len() ==> K::before(e.0.name(), (#[trigger] s[j]).0.name()),
    ensures
        ascending(s.insert(i, e)),
        entries_map(s.insert(i, e)) == entries_map(s).insert(e.0.name(), e.1),
{
    let t = s.insert(i, e);
    let m = entries_map(s).insert(e.0.name(), e.1);
    assert forall|a: int, b: int| 0 <= a < b < t.len() implies K::before(
        #[trigger] t[a].0.name(),
        #[trigger] t[b].0.name(),
    ) by {
        if a < i && b > i {
            assert(K::before(s[a].0.name(), s[b - 1].0.name()));
        } else if a > i {
            assert(K::before(s[a - 1].0.name(), s[b - 1].0.name()));
        } else if b < i {
            assert(K::before(s[a].0.name(), s[b].0.name()));
        } else if a == i {
            assert(t[b] == s[b - 1]);
        } else {
            assert(t[a] == s[a]);
        }
    }
    K::lemma_irreflexive(e.0.name());
    assert forall|k: int| 0 <= k < t.len() implies m.contains_key((#[trigger] t[k]).0.name())
        && m[t[k].0.name()] == t[k].1 by {
        if k < i {
            lemma_entry(s, k);
            assert(t[k] == s[k]);
        } else if k > i {
            lemma_entry(s, k - 1);
            assert(t[k] == s[k - 1]);
        }
    }
    assert forall|n: K::Name| #[trigger] m.contains_key(n) implies has_name(t, n) by {
        if n == e.0.name() {
            assert(t[i].0.name() == n);
        } else {
            let k = choose|k: int| 0 <= k < s.len() && (#[trigger] s[k]).0.name() == n;
            if k < i {
                assert(t[k].0.name() == n);
            } else {
                assert(t[k + 1].0.name() == n);
            }
        }
    }
    lemma_map_is(t, m);
}

proof fn lemma_removed<K: Key, V>(s: Seq<(K, V)>, i: int)
    requires
        ascending(s),
        0 <= i < s.len(),
    ensures
        ascending(s.remove(i)),
        entries_map(s.remove(i)) == entries_map(s).remove(s[i].0.name()),
{
    let t = s.remove(i);
    let name = s[i].0.name();
    let m = entries_map(s).remove(name);
    assert forall|a: int, b: int| 0 <= a < b < t.len() implies K::before(
        #[trigger] t[a].0.name(),
        #[trigger] t[b].0.name(),
    ) by {
        let x = if a < i { a } else { a + 1 };
        let y = if b < i { b } else { b + 1 };
        assert(t[a] == s[x] && t[b] == s[y]);
        assert(K::before(s[x].0.name(), s[y].0.name()));
    }
    K::lemma_irreflexive(name);
    assert forall|k: int| 0 <= k < t.len() implies m.contains_key((#[trigger] t[k]).0.name())
        && m[t[k].0.name()] == t[k].1 by {
        let x = if k < i { k } else { k + 1 };
        assert(t[k] == s[x]);
        lemma_entry(s, x);
        if x < i {
            assert(K::before(s[x].0.name(), s[i].0.name()));
        } else {
            assert(K::before(s[i].0.name(), s[x].0.name()));
        }
    }
    assert forall|n: K::Name| #[trigger] m.contains_key(n) implies has_name(t, n) by {
        let k = choose|k: int| 0 <= k < s.len() && (#[trigger] s[k]).0.name() == n;
        if k < i {
            assert(t[k].0.name() == n);
        } else {
            assert(t[k - 1].0.name() == n);
        }
    }
    lemma_map_is(t, m);
}

// ---- maps from text, written out ----

/// Whether the names of `s` stand in strictly ascending order.
pub open spec fn names_ascend<V>(s: Seq<(Seq<char>, V)>) -> bool {
    forall|i: int, j: int| 0 <= i < j < s.len() ==> lex_lt((#[trigger] s[i]).0, (#[trigger] s[j]).0)
}

/// Whether `s` writes out the map `m`: every entry once, in the order of the names.
pub open spec fn lists<V>(s: Seq<(Seq<char>, V)>, m: Map<Seq<char>, V>) -> bool {
    &&& names_ascend(s)
    &&& forall|i: int|
        0 <= i < s.len() ==> m.contains_key((#[trigger] s[i]).0) && m[s[i].0] == s[i].1
    &&& forall|n: Seq<char>| #[trigger]
        m.contains_key(n) ==> exists|i: int| 0 <= i < s.len() && (#[trigger] s[i]).0 == n
}

/// The entries of `m` in the order of the names.
pub open spec fn listing<V>(m: Map<Seq<char>, V>) -> Seq<(Seq<char>, V)> {
    choose|s: Seq<(Seq<char>, V)>| lists(s, m)
}

/// There is one way to write a map out.
pub proof fn lemma_lists_unique<V>(
    s: Seq<(Seq<char>, V)>,
    t: Seq<(Seq<char>, V)>,
    m: Map<Seq<char>, V>,
)
    requires
        lists(s, m),
        lists(t, m),
    ensures
        s == t,
{
    if s.len() > 0 && t.len() > 0 {
        let k: int = if s.len() <= t.len() {
            s.len() - 1
        } else {
            t.len() - 1
        };
        lemma_lists_agree(s, t, m, k);
    }
    if s.len() < t.len() {
        let n = t[s.len() as int].0;
        let i = choose|i: int| 0 <= i < s.len() && (#[trigger] s[i]).0 == n;
        assert(t[i].0 == n);
        lemma_lex_irreflexive(n);
    }
    if t.len() < s.len() {
        let n = s[t.len() as int].0;
        let i = choose|i: int| 0 <= i < t.len() && (#[trigger] t[i]).0 == n;
        assert(s[i].0 == n);
        lemma_lex_irreflexive(n);
    }
    assert(s =~= t);
}

proof fn lemma_lists_agree<V>(
    s: Seq<(Seq<char>, V)>,
    t: Seq<(Seq<char>, V)>,
    m: Map<Seq<char>, V>,
    k: int,
)
    requires
        lists(s, m),
        lists(t, m),
        0 <= k < s.len(),
        k < t.len(),
    ensures
        forall|i: int| 0 <= i <= k ==> #[trigger] s[i] == t[i],
    decreases k,
{
    if k > 0 {
        lemma_lists_agree(s, t, m, k - 1);
    }
    let a = choose|a: int| 0 <= a < t.len() && (#[trigger] t[a]).0 == s[k].0;
    let b = choose|b: int| 0 <= b < s.len() && (#[trigger] s[b]).0 == t[k].0;
    assert(m.contains_key(s[k].0) && m.contains_key(t[k].0));
    lemma_lex_irreflexive(s[k].0);
    lemma_lex_irreflexive(t[k].0);
    if a < k {
        assert(s[a] == t[a]);
    }
    if b < k {
        assert(s[b] == t[b]);
    }
    if a > k && b > k {
        lemma_lex_transitive(t[k].0, s[k].0, t[k].0);
    }
}

/// The entries with their keys by name.
pub open spec fn pairs<V>(s: Seq<(String, V)>) -> Seq<(Seq<char>, V)> {
    Seq::new(s.len(), |i: int| (s[i].0@, s[i].1))
}

impl<V> OrderedMap<String, V> {
    /// The entries, which write the map out.
    pub fn listed(&self) -> (r: &Vec<(String, V)>)
        ensures
            lists(pairs(r@), self@),
            pairs(r@) == listing(self@),
    {
        let r = self.entries();
        proof {
            let s = pairs(r@);
            assert forall|i: int, j: int| 0 <= i < j < s.len() implies lex_lt(
                (#[trigger] s[i]).0,
                (#[trigger] s[j]).0,
            ) by {
                assert(String::before(r@[i].0.name(), r@[j].0.name()));
            }
            assert forall|i: int| 0 <= i < s.len() implies self@.contains_key((#[trigger] s[i]).0)
                && self@[s[i].0] == s[i].1 by {
                lemma_entry(r@, i);
            }
            assert forall|n: Seq<char>| #[trigger] self@.contains_key(n) implies exists|i: int|
                0 <= i < s.len() && (#[trigger] s[i]).0 == n by {
                let i = choose|i: int| 0 <= i < r@.len() && (#[trigger] r@[i]).0.name() == n;
                assert(s[i].0 == n);
            }
            assert(lists(s, self@));
            lemma_lists_unique(s, listing(self@), self@);
        }
        r
    }
}

} // verus!
