//! A map keyed by strings, kept as a list of entries in insertion order.
//!
//! Keys are unique. The map's contents are seen both as the ordered sequence of entries
//! (`pairs`) and as a mathematical map (`view`).

use vstd::prelude::*;

verus! {

/// Whether some entry of `p` has key `k`.
pub open spec fn has_key<V>(p: Seq<(Seq<char>, V)>, k: Seq<char>) -> bool {
    exists|i: int| 0 <= i < p.len() && #[trigger] p[i].0 == k
}

/// The position of the entry with key `k` (meaningful when `has_key(p, k)`).
pub open spec fn key_index<V>(p: Seq<(Seq<char>, V)>, k: Seq<char>) -> int {
    choose|i: int| 0 <= i < p.len() && #[trigger] p[i].0 == k
}

/// The value stored under `k`, if any.
pub open spec fn lookup<V>(p: Seq<(Seq<char>, V)>, k: Seq<char>) -> Option<V> {
    if has_key(p, k) {
        Some(p[key_index(p, k)].1)
    } else {
        None
    }
}

/// No two entries share a key.
pub open spec fn keys_unique<V>(p: Seq<(Seq<char>, V)>) -> bool {
    forall|i: int, j: int| 0 <= i < p.len() && 0 <= j < p.len() && i != j ==> p[i].0 != p[j].0
}

/// The keys of the entries, in order.
pub open spec fn keys_of<V>(p: Seq<(Seq<char>, V)>) -> Seq<Seq<char>> {
    p.map_values(|e: (Seq<char>, V)| e.0)
}

/// With unique keys, the entry found for `p[i].0` is `p[i]` itself.
pub proof fn lemma_lookup_at<V>(p: Seq<(Seq<char>, V)>, i: int)
    requires
        keys_unique(p),
        0 <= i < p.len(),
    ensures
        has_key(p, p[i].0),
        key_index(p, p[i].0) == i,
        lookup(p, p[i].0) == Some(p[i].1),
{
    assert(p[i].0 == p[i].0);
}

/// A string-keyed map holding entries in the order their keys were first inserted.
pub struct StrMap<V> {
    entries: Vec<(String, V)>,
}

impl<V> StrMap<V> {
    /// The entries, keys taken by their text.
    pub closed spec fn pairs(&self) -> Seq<(Seq<char>, V)> {
        self.entries@.map_values(|e: (String, V)| (e.0@, e.1))
    }

    /// The map's contents as a mathematical map.
    pub open spec fn view(&self) -> Map<Seq<char>, V> {
        Map::new(
            |k: Seq<char>| has_key(self.pairs(), k),
            |k: Seq<char>| self.pairs()[key_index(self.pairs(), k)].1,
        )
    }

    #[verifier::type_invariant]
    closed spec fn unique_keys(&self) -> bool {
        keys_unique(self.pairs())
    }

    /// Creates an empty map.
    pub fn new() -> (m: Self)
        ensures
            m.pairs() == Seq::<(Seq<char>, V)>::empty(),
    {
        let m = StrMap { entries: Vec::new() };
        assert(m.pairs() =~= Seq::<(Seq<char>, V)>::empty());
        m
    }

    /// Keys are unique in every map.
    pub fn keys_are_unique(&self)
        ensures
            keys_unique(self.pairs()),
    {
        proof {
            use_type_invariant(self);
        }
    }

    /// The number of entries.
    pub fn len(&self) -> (n: usize)
        ensures
            n == self.pairs().len(),
    {
        self.entries.len()
    }

    /// Whether the map is empty.
    pub fn is_empty(&self) -> (b: bool)
        ensures
            b == (self.pairs().len() == 0),
    {
        self.entries.len() == 0
    }

    /// The position of the entry with key `key`, if any.
    pub fn position(&self, key: &str) -> (r: Option<usize>)
        ensures
            r is None <==> !has_key(self.pairs(), key@),
            r matches Some(i) ==> i < self.pairs().len() && self.pairs()[i as int].0 == key@
                && key_index(self.pairs(), key@) == i,
    {
        proof {
            use_type_invariant(self);
        }
        let k = key.to_owned();
        let mut i: usize = 0;
        while i < self.entries.len()
            invariant
                i <= self.entries@.len(),
                k@ == key@,
                keys_unique(self.pairs()),
                forall|j: int| 0 <= j < i ==> self.pairs()[j].0 != key@,
            decreases self.entries@.len() - i,
        {
            if self.entries[i].0 == k {
                proof {
                    lemma_lookup_at(self.pairs(), i as int);
                }
                return Some(i);
            }
            i = i + 1;
        }
        None
    }

    /// Whether `key` has an entry.
    pub fn contains_key(&self, key: &str) -> (b: bool)
        ensures
            b == has_key(self.pairs(), key@),
            b == self@.contains_key(key@),
    {
        self.position(key).is_some()
    }

    /// The value stored under `key`.
    pub fn get(&self, key: &str) -> (r: Option<&V>)
        ensures
            r is Some == has_key(self.pairs(), key@),
            r is Some == self@.contains_key(key@),
            r matches Some(v) ==> lookup(self.pairs(), key@) == Some(*v) && *v == self@[key@],
    {
        match self.position(key) {
            Some(i) => Some(&self.entries[i].1),
            None => None,
        }
    }

    /// The key and value of the entry at position `i`.
    pub fn entry_at(&self, i: usize) -> (r: (&String, &V))
        requires
            i < self.pairs().len(),
        ensures
            r.0@ == self.pairs()[i as int].0,
            *r.1 == self.pairs()[i as int].1,
    {
        (&self.entries[i].0, &self.entries[i].1)
    }

    /// Stores `value` under `key`: an existing entry keeps its place, a new key goes last.
    /// Returns the value that was replaced.
    pub fn insert(&mut self, key: String, value: V) -> (old_value: Option<V>)
        ensures
            old_value == lookup(old(self).pairs(), key@),
            has_key(old(self).pairs(), key@) ==> final(self).pairs() == old(self).pairs().update(
                key_index(old(self).pairs(), key@),
                (key@, value),
            ),
            !has_key(old(self).pairs(), key@) ==> final(self).pairs() == old(self).pairs().push(
                (key@, value),
            ),
            final(self)@ == old(self)@.insert(key@, value),
    {
        proof {
            use_type_invariant(&*self);
        }
        let ghost old_pairs = self.pairs();
        match self.position(key.as_str()) {
            Some(i) => {
                let ghost k = key@;
                let mut es: Vec<(String, V)> = Vec::new();
                std::mem::swap(&mut es, &mut self.entries);
                let (_, prev) = es.remove(i);
                es.insert(i, (key, value));
                proof {
                    assert(es@.map_values(|e: (String, V)| (e.0@, e.1)) =~= old_pairs.update(i as int, (k, value)));
                    lemma_update_unique(old_pairs, i as int, k, value);
                }
                self.entries = es;
                proof {
                    assert(self.pairs() =~= old_pairs.update(i as int, (k, value)));
                    lemma_lookup_at(old_pairs, i as int);
                    lemma_update_view(old_pairs, self.pairs(), i as int, k, value);
                }
                Some(prev)
            },
            None => {
                let ghost k = key@;
                let mut es: Vec<(String, V)> = Vec::new();
                std::mem::swap(&mut es, &mut self.entries);
                es.push((key, value));
                proof {
                    assert(es@.map_values(|e: (String, V)| (e.0@, e.1)) =~= old_pairs.push((k, value)));
                    lemma_push_view(old_pairs, k, value);
                }
                self.entries = es;
                proof {
                    assert(self.pairs() =~= old_pairs.push((k, value)));
                    lemma_push_view(old_pairs, k, value);
                }
                None
            },
        }
    }

    /// Removes the entry with key `key`, returning its value; later entries move up one place.
    pub fn remove(&mut self, key: &str) -> (removed: Option<V>)
        ensures
            removed == lookup(old(self).pairs(), key@),
            has_key(old(self).pairs(), key@) ==> final(self).pairs() == old(self).pairs().remove(
                key_index(old(self).pairs(), key@),
            ),
            !has_key(old(self).pairs(), key@) ==> final(self).pairs() == old(self).pairs(),
            final(self)@ == old(self)@.remove(key@),
    {
        proof {
            use_type_invariant(&*self);
        }
        let ghost old_pairs = self.pairs();
        match self.position(key) {
            Some(i) => {
                let mut es: Vec<(String, V)> = Vec::new();
                std::mem::swap(&mut es, &mut self.entries);
                let (_, v) = es.remove(i);
                proof {
                    assert(es@.map_values(|e: (String, V)| (e.0@, e.1)) =~= old_pairs.remove(i as int));
                    lemma_remove_view(old_pairs, i as int);
                }
                self.entries = es;
                proof {
                    assert(self.pairs() =~= old_pairs.remove(i as int));
                    lemma_lookup_at(old_pairs, i as int);
                    lemma_remove_view(old_pairs, i as int);
                }
                Some(v)
            },
            None => {
                proof {
                    assert(self@ =~= old(self)@.remove(key@));
                }
                None
            },
        }
    }

    /// Removes every entry.
    pub fn clear(&mut self)
        ensures
            final(self).pairs() == Seq::<(Seq<char>, V)>::empty(),
    {
        self.entries = Vec::new();
        assert(self.pairs() =~= Seq::<(Seq<char>, V)>::empty());
    }
}

impl<V: Clone> Clone for StrMap<V> {
    /// A copy with the same keys in the same order, each value cloned.
    fn clone(&self) -> (m: Self)
        ensures
            keys_of(m.pairs()) == keys_of(self.pairs()),
            m.pairs().len() == self.pairs().len(),
            forall|i: int| 0 <= i < self.pairs().len() ==> cloned::<V>(
                self.pairs()[i].1,
                #[trigger] m.pairs()[i].1,
            ),
    {
        proof {
            use_type_invariant(self);
        }
        let mut es: Vec<(String, V)> = Vec::new();
        let mut i: usize = 0;
        while i < self.entries.len()
            invariant
                i <= self.entries@.len(),
                es@.len() == i,
                forall|j: int| 0 <= j < i ==> (#[trigger] es@[j]).0@ == self.entries@[j].0@,
                forall|j: int| 0 <= j < i ==> cloned::<V>(self.entries@[j].1, #[trigger] es@[j].1),
            decreases self.entries@.len() - i,
        {
            let k = self.entries[i].0.clone();
            let v = self.entries[i].1.clone();
            es.push((k, v));
            i = i + 1;
        }
        let ghost p = es@.map_values(|e: (String, V)| (e.0@, e.1));
        proof {
            assert(keys_of(p) =~= keys_of(self.pairs())) by {
                assert forall|j: int| 0 <= j < p.len() implies keys_of(p)[j] == keys_of(self.pairs())[j] by {
                    assert(es@[j].0@ == self.entries@[j].0@);
                }
            }
            assert(keys_unique(p)) by {
                assert forall|a: int, b: int| 0 <= a < p.len() && 0 <= b < p.len() && a != b implies p[a].0 != p[b].0 by {
                    assert(keys_of(p)[a] == keys_of(self.pairs())[a]);
                    assert(keys_of(p)[b] == keys_of(self.pairs())[b]);
                }
            }
        }
        let m = StrMap { entries: es };
        proof {
            assert(m.pairs() == p);
            assert forall|j: int| 0 <= j < self.pairs().len() implies cloned::<V>(
                self.pairs()[j].1,
                #[trigger] m.pairs()[j].1,
            ) by {
                assert(m.pairs()[j].1 == es@[j].1);
            }
        }
        m
    }
}

/// Looking a key up among the entries agrees with the map.
pub proof fn lemma_lookup_view<V>(m: StrMap<V>, k: Seq<char>)
    ensures
        lookup(m.pairs(), k) == (if m@.contains_key(k) { Some(m@[k]) } else { None }),
{
}

/// A map's keys are the keys of its entries.
pub proof fn lemma_dom_keys<V>(m: StrMap<V>)
    ensures
        m@.dom() == keys_of(m.pairs()).to_set(),
{
    assert forall|k: Seq<char>| m@.dom().contains(k) <==> keys_of(m.pairs()).to_set().contains(k) by {
        if m@.dom().contains(k) {
            let i = choose|i: int| 0 <= i < m.pairs().len() && #[trigger] m.pairs()[i].0 == k;
            assert(keys_of(m.pairs())[i] == k);
        }
        if keys_of(m.pairs()).to_set().contains(k) {
            let i = choose|i: int| 0 <= i < keys_of(m.pairs()).len() && keys_of(m.pairs())[i] == k;
            assert(m.pairs()[i].0 == k);
        }
    }
    assert(m@.dom() =~= keys_of(m.pairs()).to_set());
}

/// A map has finitely many keys.
pub proof fn lemma_dom_finite<V>(m: StrMap<V>)
    ensures
        m@.dom().finite(),
{
    lemma_dom_keys(m);
    vstd::seq_lib::seq_to_set_is_finite(keys_of(m.pairs()));
}

/// With unique keys, a map has as many keys as entries.
pub proof fn lemma_len_view<V>(m: StrMap<V>)
    requires
        keys_unique(m.pairs()),
    ensures
        m@.len() == m.pairs().len(),
{
    lemma_dom_keys(m);
    let ks = keys_of(m.pairs());
    assert(ks.no_duplicates()) by {
        assert forall|i: int, j: int| 0 <= i < ks.len() && 0 <= j < ks.len() && i != j implies ks[i] != ks[j] by {
            assert(ks[i] == m.pairs()[i].0);
            assert(ks[j] == m.pairs()[j].0);
        }
    }
    ks.unique_seq_to_set();
}

/// Two maps with the same entries in the same order are the same map.
pub proof fn lemma_same_pairs_same_view<V>(a: StrMap<V>, b: StrMap<V>)
    requires
        a.pairs() == b.pairs(),
    ensures
        a@ == b@,
{
    assert(a@ =~= b@);
}

/// The map of a sequence of entries with unique keys.
pub open spec fn map_of<V>(p: Seq<(Seq<char>, V)>) -> Map<Seq<char>, V> {
    Map::new(|k: Seq<char>| has_key(p, k), |k: Seq<char>| p[key_index(p, k)].1)
}

proof fn lemma_update_unique<V>(p: Seq<(Seq<char>, V)>, i: int, k: Seq<char>, v: V)
    requires
        keys_unique(p),
        0 <= i < p.len(),
        p[i].0 == k,
    ensures
        keys_unique(p.update(i, (k, v))),
{
    let q = p.update(i, (k, v));
    assert forall|a: int, b: int| 0 <= a < q.len() && 0 <= b < q.len() && a != b implies q[a].0
        != q[b].0 by {
        assert(q[a].0 == p[a].0);
        assert(q[b].0 == p[b].0);
    }
}

proof fn lemma_update_view<V>(
    p: Seq<(Seq<char>, V)>,
    q: Seq<(Seq<char>, V)>,
    i: int,
    k: Seq<char>,
    v: V,
)
    requires
        keys_unique(p),
        keys_unique(q),
        0 <= i < p.len(),
        p[i].0 == k,
        q == p.update(i, (k, v)),
    ensures
        map_of(q) == map_of(p).insert(k, v),
{
    assert forall|key: Seq<char>| has_key(q, key) <==> (has_key(p, key) || key == k) by {
        if has_key(q, key) {
            let j = choose|j: int| 0 <= j < q.len() && #[trigger] q[j].0 == key;
            assert(p[j].0 == key);
        }
        if has_key(p, key) {
            let j = choose|j: int| 0 <= j < p.len() && #[trigger] p[j].0 == key;
            assert(q[j].0 == key);
        }
        if key == k {
            assert(q[i].0 == key);
        }
    }
    assert forall|key: Seq<char>| #[trigger] has_key(q, key) implies q[key_index(q, key)].1 == (
    if key == k {
        v
    } else {
        p[key_index(p, key)].1
    }) by {
        let j = choose|j: int| 0 <= j < q.len() && #[trigger] q[j].0 == key;
        lemma_lookup_at(q, j);
        if key != k {
            assert(j != i);
            lemma_lookup_at(p, j);
        }
    }
    assert(map_of(q) =~= map_of(p).insert(k, v));
}

proof fn lemma_push_view<V>(p: Seq<(Seq<char>, V)>, k: Seq<char>, v: V)
    requires
        keys_unique(p),
        !has_key(p, k),
    ensures
        keys_unique(p.push((k, v))),
        map_of(p.push((k, v))) == map_of(p).insert(k, v),
{
    let q = p.push((k, v));
    assert forall|a: int, b: int| 0 <= a < q.len() && 0 <= b < q.len() && a != b implies q[a].0
        != q[b].0 by {
        if a < p.len() && b < p.len() {
            assert(p[a].0 != p[b].0);
        } else if a == p.len() {
            assert(q[b].0 == p[b].0);
        } else {
            assert(q[a].0 == p[a].0);
        }
    }
    assert forall|key: Seq<char>| has_key(q, key) <==> (has_key(p, key) || key == k) by {
        if has_key(q, key) {
            let j = choose|j: int| 0 <= j < q.len() && #[trigger] q[j].0 == key;
            if j < p.len() {
                assert(p[j].0 == key);
            }
        }
        if has_key(p, key) {
            let j = choose|j: int| 0 <= j < p.len() && #[trigger] p[j].0 == key;
            assert(q[j].0 == key);
        }
        if key == k {
            assert(q[p.len() as int].0 == key);
        }
    }
    assert forall|key: Seq<char>| #[trigger] has_key(q, key) implies q[key_index(q, key)].1 == (
    if key == k {
        v
    } else {
        p[key_index(p, key)].1
    }) by {
        let j = choose|j: int| 0 <= j < q.len() && #[trigger] q[j].0 == key;
        lemma_lookup_at(q, j);
        if key != k {
            assert(j < p.len());
            assert(p[j].0 == key);
            lemma_lookup_at(p, j);
        }
    }
    assert(map_of(q) =~= map_of(p).insert(k, v));
}

proof fn lemma_remove_view<V>(p: Seq<(Seq<char>, V)>, i: int)
    requires
        keys_unique(p),
        0 <= i < p.len(),
    ensures
        keys_unique(p.remove(i)),
        map_of(p.remove(i)) == map_of(p).remove(p[i].0),
{
    let q = p.remove(i);
    let k = p[i].0;
    assert forall|a: int, b: int| 0 <= a < q.len() && 0 <= b < q.len() && a != b implies q[a].0
        != q[b].0 by {
        let a2 = if a < i { a } else { a + 1 };
        let b2 = if b < i { b } else { b + 1 };
        assert(q[a] == p[a2]);
        assert(q[b] == p[b2]);
    }
    assert forall|key: Seq<char>| has_key(q, key) <==> (has_key(p, key) && key != k) by {
        if has_key(q, key) {
            let j = choose|j: int| 0 <= j < q.len() && #[trigger] q[j].0 == key;
            let j2 = if j < i { j } else { j + 1 };
            assert(p[j2].0 == key);
            assert(j2 != i);
        }
        if has_key(p, key) && key != k {
            let j = choose|j: int| 0 <= j < p.len() && #[trigger] p[j].0 == key;
            assert(j != i);
            let j2 = if j < i { j } else { j - 1 };
            assert(q[j2].0 == key);
        }
    }
    assert forall|key: Seq<char>| #[trigger] has_key(q, key) implies q[key_index(q, key)].1
        == p[key_index(p, key)].1 by {
        let j = choose|j: int| 0 <= j < q.len() && #[trigger] q[j].0 == key;
        lemma_lookup_at(q, j);
        let j2 = if j < i { j } else { j + 1 };
        assert(p[j2] == q[j]);
        lemma_lookup_at(p, j2);
    }
    assert(map_of(q) =~= map_of(p).remove(k));
}


/// An exact copy of a map of JSON values: the same entries in the same order.
pub fn copy_json_map(m: &StrMap<serde_json::Value>) -> (c: StrMap<serde_json::Value>)
    ensures
        c.pairs() == m.pairs(),
        c@ == m@,
{
    let c = m.clone();
    proof {
        assert(c.pairs() =~= m.pairs()) by {
            assert forall|i: int| 0 <= i < c.pairs().len() implies c.pairs()[i] == m.pairs()[i] by {
                assert(keys_of(c.pairs())[i] == keys_of(m.pairs())[i]);
                assert(cloned::<serde_json::Value>(m.pairs()[i].1, c.pairs()[i].1));
            }
        }
        lemma_same_pairs_same_view(c, *m);
    }
    c
}

/// An exact copy of a map of texts: the same entries in the same order.
pub fn copy_text_map(m: &StrMap<String>) -> (c: StrMap<String>)
    ensures
        c.pairs() == m.pairs(),
        c@ == m@,
{
    let c = m.clone();
    proof {
        assert(c.pairs() =~= m.pairs()) by {
            assert forall|i: int| 0 <= i < c.pairs().len() implies c.pairs()[i] == m.pairs()[i] by {
                assert(keys_of(c.pairs())[i] == keys_of(m.pairs())[i]);
                assert(cloned::<String>(m.pairs()[i].1, c.pairs()[i].1));
            }
        }
        lemma_same_pairs_same_view(c, *m);
    }
    c
}

} // verus!
