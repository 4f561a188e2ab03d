//! A map keyed by strings, kept as a list of bindings with distinct keys.
use vstd::prelude::*;

verus! {

/// The value bound to `k` by the last binding of `k` in `e`.
pub open spec fn lookup<V>(e: Seq<(Seq<char>, V)>, k: Seq<char>) -> Option<V>
    decreases e.len(),
{
    if e.len() == 0 {
        None
    } else if e.last().0 == k {
        Some(e.last().1)
    } else {
        lookup(e.drop_last(), k)
    }
}

/// No key occurs twice in `e`.
pub open spec fn keys_distinct<V>(e: Seq<(Seq<char>, V)>) -> bool {
    forall|i: int, j: int| 0 <= i < j < e.len() ==> e[i].0 != e[j].0
}

/// The map that the bindings `e` stand for.
pub open spec fn map_of<V>(e: Seq<(Seq<char>, V)>) -> Map<Seq<char>, V> {
    Map::new(|k: Seq<char>| lookup(e, k) is Some, |k: Seq<char>| lookup(e, k)->0)
}

pub proof fn lemma_lookup_none<V>(e: Seq<(Seq<char>, V)>, k: Seq<char>)
    ensures
        lookup(e, k) is None <==> (forall|i: int| 0 <= i < e.len() ==> e[i].0 != k),
    decreases e.len(),
{
    if e.len() > 0 {
        lemma_lookup_none(e.drop_last(), k);
        if lookup(e, k) is None {
            assert forall|i: int| 0 <= i < e.len() implies e[i].0 != k by {
                if i < e.len() - 1 {
                    assert(e.drop_last()[i] == e[i]);
                }
            }
        } else {
            if e.last().0 != k {
                let i = choose|i: int| 0 <= i < e.drop_last().len() && e.drop_last()[i].0 == k;
                assert(e[i].0 == k);
            }
        }
    }
}

pub proof fn lemma_lookup_at<V>(e: Seq<(Seq<char>, V)>, i: int)
    requires
        0 <= i < e.len(),
        keys_distinct(e),
    ensures
        lookup(e, e[i].0) == Some(e[i].1),
    decreases e.len(),
{
    if i < e.len() - 1 {
        assert(e.drop_last()[i] == e[i]);
        lemma_lookup_at(e.drop_last(), i);
    }
}

pub proof fn lemma_lookup_update<V>(e: Seq<(Seq<char>, V)>, i: int, v: V, k: Seq<char>)
    requires
        0 <= i < e.len(),
        keys_distinct(e),
    ensures
        lookup(e.update(i, (e[i].0, v)), k) == if k == e[i].0 {
            Some(v)
        } else {
            lookup(e, k)
        },
    decreases e.len(),
{
    let e2 = e.update(i, (e[i].0, v));
    if i == e.len() - 1 {
        assert(e2.drop_last() =~= e.drop_last());
    } else {
        assert(e2.drop_last() =~= e.drop_last().update(i, (e[i].0, v)));
        assert(e.drop_last()[i] == e[i]);
        lemma_lookup_update(e.drop_last(), i, v, k);
    }
}

/// A map from strings to values, with the bindings in insertion order.
pub struct StrMap<V: View> {
    entries: Vec<(String, V)>,
}

impl<V: View> StrMap<V> {
    /// The bindings, each key with the view of its value.
    pub closed spec fn pairs(&self) -> Seq<(Seq<char>, V::V)> {
        self.entries@.map_values(|p: (String, V)| (p.0@, p.1@))
    }

    #[verifier::type_invariant]
    closed spec fn inv(self) -> bool {
        keys_distinct(self.pairs())
    }

    /// The contents as a map.
    pub closed spec fn view_map(&self) -> Map<Seq<char>, V::V> {
        map_of(self.pairs())
    }
}

impl<V: View> View for StrMap<V> {
    type V = Map<Seq<char>, V::V>;

    open spec fn view(&self) -> Map<Seq<char>, V::V> {
        self.view_map()
    }
}

impl<V: View> StrMap<V> {
    /// The empty map.
    pub fn new() -> (r: StrMap<V>)
        ensures
            r@ == Map::<Seq<char>, V::V>::empty(),
    {
        let r = StrMap { entries: Vec::new() };
        assert(r@ =~= Map::<Seq<char>, V::V>::empty());
        r
    }

    /// Position of the binding of `key`, if any.
    fn find(&self, key: &String) -> (r: Option<usize>)
        ensures
            match r {
                Some(i) => i < self.entries@.len() && self.pairs()[i as int].0 == key@,
                None => forall|i: int| 0 <= i < self.pairs().len() ==> self.pairs()[i].0 != key@,
            },
    {
        let mut i: usize = 0;
        while i < self.entries.len()
            invariant
                i <= self.entries@.len(),
                forall|j: int| 0 <= j < i ==> self.pairs()[j].0 != key@,
            decreases self.entries.len() - i,
        {
            if self.entries[i].0 == *key {
                return Some(i);
            }
            i = i + 1;
        }
        None
    }

    /// The value bound to `key` (std's `HashMap::get`).
    pub fn get(&self, key: &String) -> (r: Option<&V>)
        ensures
            match r {
                Some(v) => self@.contains_key(key@) && self@[key@] == v@,
                None => !self@.contains_key(key@),
            },
    {
        proof {
            use_type_invariant(self);
        }
        match self.find(key) {
            Some(i) => {
                proof {
                    lemma_lookup_at(self.pairs(), i as int);
                }
                Some(&self.entries[i].1)
            },
            None => {
                proof {
                    lemma_lookup_none(self.pairs(), key@);
                }
                None
            },
        }
    }

    /// Binds `key` to `value`, replacing an earlier binding of `key` (std's `HashMap::insert`).
    pub fn insert(&mut self, key: String, value: V)
        ensures
            final(self)@ == old(self)@.insert(key@, value@),
    {
        proof {
            use_type_invariant(&*self);
        }
        let ghost old_pairs = self.pairs();
        match self.find(&key) {
            Some(i) => {
                let ghost kv = key@;
                let mut es: Vec<(String, V)> = Vec::new();
                std::mem::swap(&mut es, &mut self.entries);
                es.set(i, (key, value));
                assert(es@.map_values(|p: (String, V)| (p.0@, p.1@)) =~= old_pairs.update(
                    i as int,
                    (old_pairs[i as int].0, value@),
                ));
                self.entries = es;
                assert(self.pairs() =~= old_pairs.update(i as int, (old_pairs[i as int].0, value@)));
                proof {
                    assert forall|k: Seq<char>| #[trigger] lookup(self.pairs(), k) == (if k == kv {
                        Some(value@)
                    } else {
                        lookup(old_pairs, k)
                    }) by {
                        lemma_lookup_update(old_pairs, i as int, value@, k);
                    }
                    assert(self@ =~= old(self)@.insert(kv, value@));
                }
            },
            None => {
                let ghost kv = key@;
                let mut es: Vec<(String, V)> = Vec::new();
                std::mem::swap(&mut es, &mut self.entries);
                es.push((key, value));
                proof {
                    lemma_lookup_none(old_pairs, kv);
                    assert(es@.map_values(|p: (String, V)| (p.0@, p.1@)) =~= old_pairs.push((kv, value@)));
                }
                self.entries = es;
                assert(self.pairs() =~= old_pairs.push((kv, value@)));
                assert(self.pairs().drop_last() =~= old_pairs);
                assert(self@ =~= old(self)@.insert(kv, value@));
            },
        }
    }

    /// Whether the map has no binding.
    pub fn is_empty(&self) -> (r: bool)
        ensures
            r == (self@.dom() == Set::<Seq<char>>::empty()),
    {
        if self.entries.len() == 0 {
            assert(self@.dom() =~= Set::<Seq<char>>::empty());
            true
        } else {
            proof {
                use_type_invariant(self);
                lemma_lookup_at(self.pairs(), 0);
                assert(self@.dom().contains(self.pairs()[0].0));
            }
            false
        }
    }

    /// The number of bindings.
    pub fn len(&self) -> (r: usize)
        ensures
            r == self.pairs().len(),
    {
        self.entries.len()
    }

    /// The key of the `i`-th binding.
    pub fn key_at(&self, i: usize) -> (r: &String)
        requires
            i < self.pairs().len(),
        ensures
            r@ == self.pairs()[i as int].0,
            self@.contains_key(r@),
            self@[r@] == self.pairs()[i as int].1,
    {
        proof {
            use_type_invariant(self);
            lemma_lookup_at(self.pairs(), i as int);
        }
        &self.entries[i].0
    }

    /// The value of the `i`-th binding.
    pub fn value_at(&self, i: usize) -> (r: &V)
        requires
            i < self.pairs().len(),
        ensures
            r@ == self.pairs()[i as int].1,
    {
        &self.entries[i].1
    }
}


impl StrMap<String> {
    /// Binds every key of `other` to its value in `other`, replacing the
    /// bindings of `self` for those keys.
    pub fn extend_from(&mut self, other: &StrMap<String>)
        ensures
            final(self)@ == old(self)@.union_prefer_right(other@),
    {
        let ghost ps = other.pairs();
        let mut i: usize = 0;
        assert(ps.take(0) =~= Seq::<(Seq<char>, Seq<char>)>::empty());
        assert(old(self)@.union_prefer_right(map_of(ps.take(0))) =~= old(self)@);
        while i < other.entries.len()
            invariant
                i <= ps.len(),
                ps == other.pairs(),
                self@ == old(self)@.union_prefer_right(map_of(ps.take(i as int))),
            decreases other.entries.len() - i,
        {
            let k = other.entries[i].0.clone();
            let v = other.entries[i].1.clone();
            let ghost before = self@;
            self.insert(k, v);
            assert(ps.take(i + 1).drop_last() =~= ps.take(i as int));
            assert(map_of(ps.take(i + 1)) =~= map_of(ps.take(i as int)).insert(ps[i as int].0, ps[i as int].1));
            assert(self@ =~= old(self)@.union_prefer_right(map_of(ps.take(i + 1))));
            i = i + 1;
        }
        assert(ps.take(ps.len() as int) =~= ps);
    }
}

} // verus!
