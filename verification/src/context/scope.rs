//! Scopes of context data: a child scope reads its parent's data but writes only its own.

use vstd::prelude::*;
use crate::assoc::{keys_of, StrMap};

verus! {

/// A named scope of key-value data, with a read-only copy of its parent's data.
pub struct ContextScope {
    /// Scope name.
    pub name: String,
    /// Depth: 0 for a root scope, one more for each child.
    pub level: usize,
    data: StrMap<serde_json::Value>,
    parent_data: Option<StrMap<serde_json::Value>>,
}

impl ContextScope {
    /// The scope's name.
    pub closed spec fn scope_name(&self) -> Seq<char> {
        self.name@
    }

    /// The scope's depth.
    pub closed spec fn depth(&self) -> usize {
        self.level
    }

    /// The scope's own data.
    pub closed spec fn local(&self) -> Map<Seq<char>, serde_json::Value> {
        self.data@
    }

    /// The keys of the scope's own data, in the order they were first set.
    pub closed spec fn local_keys_seq(&self) -> Seq<Seq<char>> {
        keys_of(self.data.pairs())
    }

    /// The parent's data as it was when the child was made; `None` for a root scope.
    pub closed spec fn parent(&self) -> Option<Map<Seq<char>, serde_json::Value>> {
        match self.parent_data {
            Some(p) => Some(p@),
            None => None,
        }
    }

    /// The value a scope sees for `key`: its own, else its parent's.
    pub open spec fn visible(&self, key: Seq<char>) -> Option<serde_json::Value> {
        if self.local().contains_key(key) {
            Some(self.local()[key])
        } else {
            match self.parent() {
                Some(p) => if p.contains_key(key) {
                    Some(p[key])
                } else {
                    None
                },
                None => None,
            }
        }
    }

    /// A root scope named `name`, without data.
    pub fn new(name: &str) -> (s: Self)
        ensures
            s.scope_name() == name@,
            s.depth() == 0,
            s.local() == Map::<Seq<char>, serde_json::Value>::empty(),
            s.parent() is None,
    {
        let data = StrMap::new();
        proof {
            assert(data@ =~= Map::<Seq<char>, serde_json::Value>::empty());
        }
        ContextScope { name: name.to_owned(), level: 0, data, parent_data: None }
    }

    /// A child scope named `name`, one level deeper, without data of its own, reading a copy
    /// of this scope's data.
    pub fn child(&self, name: &str) -> (s: Self)
        requires
            self.depth() < usize::MAX,
        ensures
            s.scope_name() == name@,
            s.depth() == self.depth() + 1,
            s.local() == Map::<Seq<char>, serde_json::Value>::empty(),
            s.parent() == Some(self.local()),
    {
        let copy = self.data.clone();
        proof {
            assert(copy.pairs() =~= self.data.pairs()) by {
                assert forall|i: int| 0 <= i < copy.pairs().len() implies copy.pairs()[i] == self.data.pairs()[i] by {
                    assert(keys_of(copy.pairs())[i] == keys_of(self.data.pairs())[i]);
                    assert(cloned::<serde_json::Value>(self.data.pairs()[i].1, copy.pairs()[i].1));
                }
            }
            crate::assoc::lemma_same_pairs_same_view(copy, self.data);
        }
        let data = StrMap::new();
        proof {
            assert(data@ =~= Map::<Seq<char>, serde_json::Value>::empty());
        }
        ContextScope { name: name.to_owned(), level: self.level + 1, data, parent_data: Some(copy) }
    }

    /// Sets `key` in the scope's own data.
    pub fn set(&mut self, key: &str, value: serde_json::Value)
        ensures
            final(self).local() == old(self).local().insert(key@, value),
            final(self).parent() == old(self).parent(),
            final(self).scope_name() == old(self).scope_name(),
            final(self).depth() == old(self).depth(),
    {
        let _ = self.data.insert(key.to_owned(), value);
    }

    /// The value seen for `key`: the scope's own, else its parent's.
    pub fn get(&self, key: &str) -> (r: Option<&serde_json::Value>)
        ensures
            r matches Some(v) ==> self.visible(key@) == Some(*v),
            r is None ==> self.visible(key@) is None,
    {
        match self.data.get(key) {
            Some(v) => Some(v),
            None => match &self.parent_data {
                Some(p) => p.get(key),
                None => None,
            },
        }
    }

    /// Whether the scope's own data has `key`.
    pub fn contains_local(&self, key: &str) -> (b: bool)
        ensures
            b == self.local().contains_key(key@),
    {
        self.data.contains_key(key)
    }

    /// Whether the scope sees `key`, in its own data or its parent's.
    pub fn contains(&self, key: &str) -> (b: bool)
        ensures
            b == self.visible(key@) is Some,
    {
        self.data.contains_key(key) || match &self.parent_data {
            Some(p) => p.contains_key(key),
            None => false,
        }
    }

    /// Removes `key` from the scope's own data; the parent's copy is untouched.
    pub fn remove(&mut self, key: &str) -> (r: Option<serde_json::Value>)
        ensures
            r == (if old(self).local().contains_key(key@) { Some(old(self).local()[key@]) } else { None }),
            final(self).local() == old(self).local().remove(key@),
            final(self).parent() == old(self).parent(),
            final(self).scope_name() == old(self).scope_name(),
            final(self).depth() == old(self).depth(),
    {
        proof {
            crate::assoc::lemma_lookup_view(self.data, key@);
        }
        self.data.remove(key)
    }

    /// Removes the scope's own data.
    pub fn clear(&mut self)
        ensures
            final(self).local() == Map::<Seq<char>, serde_json::Value>::empty(),
            final(self).parent() == old(self).parent(),
            final(self).scope_name() == old(self).scope_name(),
            final(self).depth() == old(self).depth(),
    {
        self.data.clear();
        proof {
            assert(self.data@ =~= Map::<Seq<char>, serde_json::Value>::empty());
        }
    }

    /// The number of keys in the scope's own data.
    pub fn local_len(&self) -> (n: usize)
        ensures
            n == self.local().len(),
            n == self.local_keys_seq().len(),
    {
        self.data.keys_are_unique();
        proof {
            crate::assoc::lemma_len_view(self.data);
        }
        self.data.len()
    }

    /// Whether the scope's own data is empty.
    pub fn is_local_empty(&self) -> (b: bool)
        ensures
            b == (self.local().len() == 0),
            b == (self.local_keys_seq().len() == 0),
    {
        self.data.keys_are_unique();
        proof {
            crate::assoc::lemma_len_view(self.data);
        }
        self.data.is_empty()
    }

    /// The keys of the scope's own data, in the order they were first set.
    pub fn local_keys(&self) -> (r: Vec<&String>)
        ensures
            r@.map_values(|k: &String| k@) == self.local_keys_seq(),
            r@.map_values(|k: &String| k@).to_set() == self.local().dom(),
            r@.map_values(|k: &String| k@).no_duplicates(),
    {
        self.data.keys_are_unique();
        proof {
            crate::assoc::lemma_dom_keys(self.data);
            let ks = keys_of(self.data.pairs());
            assert(ks.no_duplicates()) by {
                assert forall|i: int, j: int| 0 <= i < ks.len() && 0 <= j < ks.len() && i != j implies ks[i] != ks[j] by {
                    assert(ks[i] == self.data.pairs()[i].0);
                    assert(ks[j] == self.data.pairs()[j].0);
                }
            }
        }
        let mut r: Vec<&String> = Vec::new();
        let mut i: usize = 0;
        let n = self.data.len();
        while i < n
            invariant
                i <= n,
                n == self.data.pairs().len(),
                r@.map_values(|k: &String| k@) == keys_of(self.data.pairs()).take(i as int),
            decreases n - i,
        {
            let ghost before = r@;
            let (k, _) = self.data.entry_at(i);
            r.push(k);
            proof {
                assert(r@ == before.push(k));
                assert(r@.map_values(|k: &String| k@) =~= before.map_values(|k: &String| k@).push(k@));
                assert(keys_of(self.data.pairs()).take(i + 1) =~= keys_of(self.data.pairs()).take(i as int).push(
                    self.data.pairs()[i as int].0,
                ));
            }
            i = i + 1;
        }
        proof {
            assert(keys_of(self.data.pairs()).take(i as int) =~= keys_of(self.data.pairs()));
        }
        r
    }

    /// Whether the scope is a root, without a parent.
    pub fn is_root(&self) -> (b: bool)
        ensures
            b == self.parent() is None,
    {
        self.parent_data.is_none()
    }
}

} // verus!
