//! A map keyed by strings, kept as a list of distinct keys with their
//! values; it stands for the `HashMap<String, _>` the tool keeps.

use vstd::prelude::*;
use vstd::set_lib::lemma_subset_equality;

verus! {

/// The map that a list of key/value pairs describes when they are
/// inserted in order (a later pair for the same key wins).
pub open spec fn to_map<V>(s: Seq<(String, V)>) -> Map<Seq<char>, V>
    decreases s.len(),
{
    if s.len() == 0 {
        Map::empty()
    } else {
        to_map(s.drop_last()).insert(s.last().0@, s.last().1)
    }
}

/// No key occurs twice in the list.
pub open spec fn unique_keys<V>(s: Seq<(String, V)>) -> bool {
    forall|i: int, j: int| 0 <= i < j < s.len() ==> (#[trigger] s[i]).0@ != (#[trigger] s[j]).0@
}

/// The keys in the list are those of the map.
pub proof fn lemma_to_map_domain<V>(s: Seq<(String, V)>)
    ensures
        to_map(s).dom().finite(),
        forall|k: Seq<char>|
            #[trigger] to_map(s).contains_key(k) <==> exists|i: int| 0 <= i < s.len() && (
            #[trigger] s[i]).0@ == k,
    decreases s.len(),
{
    if s.len() > 0 {
        let p = s.drop_last();
        lemma_to_map_domain(p);
        assert forall|k: Seq<char>| #[trigger]
            to_map(s).contains_key(k) <==> exists|i: int| 0 <= i < s.len() && (#[trigger] s[i]).0@
                == k by {
            if to_map(s).contains_key(k) {
                if k == s.last().0@ {
                    assert(s[s.len() - 1].0@ == k);
                } else {
                    let i = choose|i: int| 0 <= i < p.len() && (#[trigger] p[i]).0@ == k;
                    assert(s[i] == p[i]);
                }
            }
            if exists|i: int| 0 <= i < s.len() && (#[trigger] s[i]).0@ == k {
                let i = choose|i: int| 0 <= i < s.len() && (#[trigger] s[i]).0@ == k;
                if i < s.len() - 1 {
                    assert(p[i] == s[i]);
                }
            }
        }
    }
}

/// With distinct keys, each pair of the list is an entry of the map, and
/// the map has as many entries as the list has pairs.
pub proof fn lemma_to_map_unique<V>(s: Seq<(String, V)>)
    requires
        unique_keys(s),
    ensures
        forall|i: int| 0 <= i < s.len() ==> #[trigger] to_map(s)[s[i].0@] == s[i].1,
        to_map(s).len() == s.len(),
    decreases s.len(),
{
    if s.len() > 0 {
        let p = s.drop_last();
        assert(unique_keys(p)) by {
            assert forall|i: int, j: int| 0 <= i < j < p.len() implies (#[trigger] p[i]).0@ != (
            #[trigger] p[j]).0@ by {
                assert(p[i] == s[i] && p[j] == s[j]);
            }
        }
        lemma_to_map_unique(p);
        lemma_to_map_domain(p);
        assert(!to_map(p).contains_key(s.last().0@)) by {
            if to_map(p).contains_key(s.last().0@) {
                let i = choose|i: int| 0 <= i < p.len() && (#[trigger] p[i]).0@ == s.last().0@;
                assert(s[i] == p[i]);
                assert(s[s.len() - 1] == s.last());
            }
        }
        assert forall|i: int| 0 <= i < s.len() implies #[trigger] to_map(s)[s[i].0@] == s[i].1 by {
            if i < s.len() - 1 {
                assert(s[i] == p[i]);
                assert(s[i].0@ != s[s.len() - 1].0@);
            }
        }
    }
}

/// Replacing the value of a pair whose key is `k` updates `k` in the map.
pub proof fn lemma_to_map_update<V>(s: Seq<(String, V)>, i: int, key: String, v: V)
    requires
        unique_keys(s),
        0 <= i < s.len(),
        s[i].0@ == key@,
    ensures
        to_map(s.update(i, (key, v))) == to_map(s).insert(key@, v),
        unique_keys(s.update(i, (key, v))),
    decreases s.len(),
{
    let t = s.update(i, (key, v));
    assert(unique_keys(t)) by {
        assert forall|a: int, b: int| 0 <= a < b < t.len() implies (#[trigger] t[a]).0@ != (
        #[trigger] t[b]).0@ by {
            assert(s[a].0@ != s[b].0@);
        }
    }
    let p = s.drop_last();
    assert(unique_keys(p)) by {
        assert forall|a: int, b: int| 0 <= a < b < p.len() implies (#[trigger] p[a]).0@ != (
        #[trigger] p[b]).0@ by {
            assert(p[a] == s[a] && p[b] == s[b]);
        }
    }
    if i == s.len() - 1 {
        assert(t.drop_last() == p);
        assert(to_map(s).insert(key@, v) =~= to_map(p).insert(key@, v));
    } else {
        lemma_to_map_update(p, i, key, v);
        assert(t.drop_last() == p.update(i, (key, v)));
        assert(t.last() == s.last());
        assert(s.last().0@ != key@) by {
            assert(s[i].0@ != s[s.len() - 1].0@);
        }
        assert(to_map(p).insert(key@, v).insert(s.last().0@, s.last().1) =~= to_map(p).insert(
            s.last().0@,
            s.last().1,
        ).insert(key@, v));
    }
}

/// A map keyed by strings.
pub struct StrMap<V> {
    items: Vec<(String, V)>,
}

impl<V> View for StrMap<V> {
    type V = Map<Seq<char>, V>;

    closed spec fn view(&self) -> Map<Seq<char>, V> {
        to_map(self.items@)
    }
}

impl<V> StrMap<V> {
    #[verifier::type_invariant]
    spec fn keys_distinct(self) -> bool {
        unique_keys(self.items@)
    }

    /// The pairs held, in order.
    pub closed spec fn pairs(self) -> Seq<(String, V)> {
        self.items@
    }

    /// An empty map.
    pub fn new() -> (m: Self)
        ensures
            m@ == Map::<Seq<char>, V>::empty(),
    {
        StrMap { items: Vec::new() }
    }

    /// The number of keys.
    pub fn len(&self) -> (n: usize)
        ensures
            n == self@.len(),
    {
        proof {
            use_type_invariant(self);
            lemma_to_map_unique(self.items@);
        }
        self.items.len()
    }

    /// The pairs held, each key once.
    pub fn items(&self) -> (r: &Vec<(String, V)>)
        ensures
            r@ == self.pairs(),
            self@.dom().finite(),
            unique_keys(r@),
            r@.len() == self@.len(),
            forall|k: Seq<char>|
                #[trigger] self@.contains_key(k) <==> exists|i: int|
                    0 <= i < r@.len() && (#[trigger] r@[i]).0@ == k,
            forall|i: int| 0 <= i < r@.len() ==> #[trigger] self@[r@[i].0@] == r@[i].1,
    {
        proof {
            use_type_invariant(self);
            lemma_to_map_domain(self.items@);
            lemma_to_map_unique(self.items@);
        }
        &self.items
    }

    /// The position of `key` among the pairs.
    fn position(&self, key: &String) -> (r: Option<usize>)
        ensures
            match r {
                Some(i) => i < self.items@.len() && self.items@[i as int].0@ == key@,
                None => !self@.contains_key(key@),
            },
    {
        proof {
            lemma_to_map_domain(self.items@);
        }
        let mut i: usize = 0;
        while i < self.items.len()
            invariant
                i <= self.items@.len(),
                forall|j: int| 0 <= j < i ==> (#[trigger] self.items@[j]).0@ != key@,
            decreases self.items.len() - i,
        {
            if self.items[i].0 == *key {
                return Some(i);
            }
            i += 1;
        }
        None
    }

    /// The value of `key`, if it has one.
    pub fn get(&self, key: &str) -> (r: Option<&V>)
        ensures
            match r {
                Some(v) => self@.contains_key(key@) && *v == self@[key@],
                None => !self@.contains_key(key@),
            },
    {
        proof {
            use_type_invariant(self);
            lemma_to_map_unique(self.items@);
        }
        let k = key.to_owned();
        match self.position(&k) {
            Some(i) => {
                proof {
                    lemma_to_map_domain(self.items@);
                }
                Some(&self.items[i].1)
            },
            None => None,
        }
    }

    /// Whether `key` has a value.
    pub fn contains_key(&self, key: &str) -> (b: bool)
        ensures
            b == self@.contains_key(key@),
    {
        self.get(key).is_some()
    }

    /// Sets the value of `key`, replacing any earlier one.
    pub fn insert(&mut self, key: String, value: V)
        ensures
            final(self)@ == old(self)@.insert(key@, value),
    {
        proof {
            use_type_invariant(&*self);
        }
        match self.position(&key) {
            Some(i) => {
                proof {
                    lemma_to_map_update(self.items@, i as int, key, value);
                }
                let mut items: Vec<(String, V)> = Vec::new();
                std::mem::swap(&mut items, &mut self.items);
                items.set(i, (key, value));
                self.items = items;
            },
            None => {
                proof {
                    lemma_to_map_domain(self.items@);
                }
                let mut items: Vec<(String, V)> = Vec::new();
                std::mem::swap(&mut items, &mut self.items);
                let ghost old_items = items@;
                items.push((key, value));
                assert(items@.drop_last() == old_items);
                assert(unique_keys(items@)) by {
                    assert forall|a: int, b: int| 0 <= a < b < items@.len() implies (
                    #[trigger] items@[a]).0@ != (#[trigger] items@[b]).0@ by {
                        if b == items@.len() - 1 {
                            assert(items@[a] == old_items[a]);
                        } else {
                            assert(items@[a] == old_items[a] && items@[b] == old_items[b]);
                        }
                    }
                }
                self.items = items;
            },
        }
    }

    /// The map made by inserting the pairs in order.
    pub fn from_pairs(pairs: Vec<(String, V)>) -> (m: Self)
        ensures
            m@ == to_map(pairs@),
    {
        let mut m = StrMap::new();
        let mut rest = pairs;
        let ghost all = pairs@;
        let ghost mut i: int = 0;
        assert(all.take(0) == Seq::<(String, V)>::empty());
        assert(all.skip(0) == all);
        while rest.len() > 0
            invariant
                0 <= i <= all.len(),
                rest@ == all.skip(i),
                m@ == to_map(all.take(i)),
            decreases rest@.len(),
        {
            let (k, v) = rest.remove(0);
            let ghost t = all.take(i + 1);
            assert(t.drop_last() == all.take(i));
            assert(t.last() == all[i]);
            m.insert(k, v);
            assert(rest@ == all.skip(i + 1));
            proof {
                i = i + 1;
            }
        }
        assert(i == all.len());
        assert(all.take(all.len() as int) == all);
        m
    }
}

/// Two string maps are equal when they have as many keys and every key
/// of the first has the same value in the second.
pub proof fn lemma_maps_equal<V>(a: Map<Seq<char>, V>, b: Map<Seq<char>, V>)
    requires
        a.dom().finite(),
        b.dom().finite(),
        a.len() == b.len(),
        forall|k: Seq<char>| #[trigger] a.contains_key(k) ==> b.contains_key(k) && a[k] == b[k],
    ensures
        a == b,
{
    lemma_subset_equality(a.dom(), b.dom());
    assert(a =~= b);
}

} // verus!
