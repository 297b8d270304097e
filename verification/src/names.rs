//! Sets of names.

use vstd::prelude::*;
use crate::ordered::{names_ascend, Key, OrderedMap};
use crate::text::{lemma_lex_asymmetric, lemma_lex_irreflexive, lex_lt, text_views};

verus! {

/// A set of names.
#[derive(Debug)]
pub struct NameSet {
    members: OrderedMap<String, bool>,
}

impl View for NameSet {
    type V = Set<Seq<char>>;

    closed spec fn view(&self) -> Set<Seq<char>> {
        self.members@.dom()
    }
}

/// Whether `names` writes out the set `s`: every name once, in order.
pub open spec fn lists_names(names: Seq<Seq<char>>, s: Set<Seq<char>>) -> bool {
    &&& forall|i: int, j: int|
        0 <= i < j < names.len() ==> lex_lt(#[trigger] names[i], #[trigger] names[j])
    &&& forall|n: Seq<char>| #[trigger] names.contains(n) <==> s.contains(n)
}

/// A set is listed in one way.
pub proof fn lemma_names_unique(a: Seq<Seq<char>>, b: Seq<Seq<char>>, s: Set<Seq<char>>)
    requires
        lists_names(a, s),
        lists_names(b, s),
    ensures
        a == b,
    decreases a.len(),
{
    if a.len() == 0 {
        if b.len() > 0 {
            assert(b.contains(b[0]));
            assert(a.contains(b[0]));
        }
        assert(a =~= b);
    } else {
        let last = a.last();
        assert(a.contains(last));
        assert(b.contains(last));
        assert(b.contains(b.last()));
        assert(a.contains(b.last()));
        let i = choose|i: int| 0 <= i < a.len() && a[i] == b.last();
        let j = choose|j: int| 0 <= j < b.len() && b[j] == last;
        assert(b.last() == last) by {
            if i < a.len() - 1 && j < b.len() - 1 {
                lemma_lex_asymmetric(a[i], a[a.len() - 1]);
                assert(lex_lt(b[j], b[b.len() - 1]));
            }
        }
        lemma_front_lists(a, s);
        lemma_front_lists(b, s);
        lemma_names_unique(a.drop_last(), b.drop_last(), s.remove(last));
        assert(a =~= a.drop_last().push(last));
        assert(b =~= b.drop_last().push(last));
    }
}

proof fn lemma_front_lists(a: Seq<Seq<char>>, s: Set<Seq<char>>)
    requires
        a.len() > 0,
        lists_names(a, s),
    ensures
        lists_names(a.drop_last(), s.remove(a.last())),
{
    let front = a.drop_last();
    assert forall|i: int, j: int| 0 <= i < j < front.len() implies lex_lt(
        #[trigger] front[i],
        #[trigger] front[j],
    ) by {
        assert(front[i] == a[i] && front[j] == a[j]);
    }
    assert forall|n: Seq<char>| #[trigger] front.contains(n) <==> s.remove(a.last()).contains(
        n,
    ) by {
        if front.contains(n) {
            let i = choose|i: int| 0 <= i < front.len() && front[i] == n;
            assert(a[i] == n);
            assert(a.contains(n));
            assert(lex_lt(a[i], a[a.len() - 1]));
            lemma_lex_irreflexive(n);
        }
        if s.remove(a.last()).contains(n) {
            assert(a.contains(n));
            let i = choose|i: int| 0 <= i < a.len() && a[i] == n;
            assert(front[i] == n);
        }
    }
}

impl NameSet {
    /// The empty set.
    pub fn new() -> (r: Self)
        ensures
            r@ == Set::<Seq<char>>::empty(),
    {
        let r = NameSet { members: OrderedMap::new() };
        assert(r@ =~= Set::<Seq<char>>::empty());
        r
    }

    /// The set of the given names.
    pub fn of(names: &[String]) -> (r: Self)
        ensures
            forall|n: Seq<char>| #[trigger] r@.contains(n) <==> text_views(names@).contains(n),
    {
        let mut r = NameSet::new();
        let mut i: usize = 0;
        while i < names.len()
            invariant
                i <= names@.len(),
                forall|n: Seq<char>| #[trigger]
                    r@.contains(n) <==> text_views(names@).take(i as int).contains(n),
            decreases names@.len() - i,
        {
            let ghost before = r@;
            r.insert(names[i].clone());
            proof {
                let t = text_views(names@);
                assert forall|n: Seq<char>| #[trigger] r@.contains(n) <==> t.take(
                    i + 1,
                ).contains(n) by {
                    if before.contains(n) {
                        assert(t.take(i as int).contains(n));
                        let k = choose|k: int| 0 <= k < i && #[trigger] t.take(i as int)[k] == n;
                        assert(t.take(i + 1)[k] == n);
                    }
                    if n == names@[i as int]@ {
                        assert(t.take(i + 1)[i as int] == n);
                    }
                    if t.take(i + 1).contains(n) {
                        let k = choose|k: int| 0 <= k < i + 1 && #[trigger] t.take(i + 1)[k] == n;
                        if k < i {
                            assert(t.take(i as int)[k] == n);
                            assert(t.take(i as int).contains(n));
                        }
                    }
                }
            }
            i += 1;
        }
        assert(text_views(names@).take(i as int) =~= text_views(names@));
        r
    }

    /// Puts a name into the set.
    pub fn insert(&mut self, name: String)
        ensures
            final(self)@ == old(self)@.insert(name@),
    {
        let ghost before = self@;
        let ghost n = name@;
        self.members.insert(name, true);
        assert(self@ =~= before.insert(n));
    }

    /// Takes a name out of the set.
    pub fn remove(&mut self, name: &String)
        ensures
            final(self)@ == old(self)@.remove(name@),
    {
        let ghost before = self@;
        self.members.remove(name);
        assert(self@ =~= before.remove(name@));
    }

    /// Whether the name is in the set.
    pub fn contains(&self, name: &String) -> (r: bool)
        ensures
            r == self@.contains(name@),
    {
        self.members.contains(name)
    }

    /// The names of the set, in order.
    pub fn names(&self) -> (r: Vec<String>)
        ensures
            lists_names(text_views(r@), self@),
    {
        let entries = self.members.listed();
        let ghost s = crate::ordered::pairs(entries@);
        let mut out: Vec<String> = Vec::new();
        let mut i: usize = 0;
        while i < entries.len()
            invariant
                i <= entries@.len(),
                s == crate::ordered::pairs(entries@),
                out@.len() == i,
                forall|k: int| 0 <= k < i ==> #[trigger] out@[k]@ == s[k].0,
            decreases entries@.len() - i,
        {
            out.push(entries[i].0.clone());
            i += 1;
        }
        proof {
            let names = text_views(out@);
            assert(names_ascend(s));
            assert forall|a: int, b: int| 0 <= a < b < names.len() implies lex_lt(
                #[trigger] names[a],
                #[trigger] names[b],
            ) by {
                assert(out@[a]@ == s[a].0 && out@[b]@ == s[b].0);
            }
            assert forall|n: Seq<char>| #[trigger] names.contains(n) <==> self@.contains(n) by {
                if names.contains(n) {
                    let k = choose|k: int| 0 <= k < names.len() && names[k] == n;
                    assert(out@[k]@ == s[k].0);
                    assert(self.members@.contains_key(s[k].0));
                }
                if self@.contains(n) {
                    assert(self.members@.contains_key(n));
                    let k = choose|k: int| 0 <= k < s.len() && (#[trigger] s[k]).0 == n;
                    assert(out@[k]@ == s[k].0);
                    assert(names[k] == n);
                }
            }
        }
        out
    }

    /// Whether the set has no name.
    pub fn is_empty(&self) -> (r: bool)
        ensures
            r <==> self@ == Set::<Seq<char>>::empty(),
    {
        let entries = self.members.listed();
        let ghost s = crate::ordered::pairs(entries@);
        if entries.len() == 0 {
            proof {
                assert forall|n: Seq<char>| !self@.contains(n) by {
                    if self.members@.contains_key(n) {
                        let k = choose|k: int| 0 <= k < s.len() && (#[trigger] s[k]).0 == n;
                        assert(0 <= k < 0);
                    }
                }
                assert(self@ =~= Set::<Seq<char>>::empty());
            }
            true
        } else {
            proof {
                assert(self.members@.contains_key(s[0].0));
                assert(self@.contains(s[0].0));
            }
            false
        }
    }
}

impl Clone for NameSet {
    fn clone(&self) -> (r: Self)
        ensures
            r@ == self@,
    {
        let names = self.names();
        let r = NameSet::of(names.as_slice());
        assert(r@ =~= self@);
        r
    }
}

impl Default for NameSet {
    fn default() -> (r: Self)
        ensures
            r@ == Set::<Seq<char>>::empty(),
    {
        NameSet::new()
    }
}

} // verus!
