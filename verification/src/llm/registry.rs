//! Clients by name, one of them the default: what the LLM client registry keeps.

use vstd::prelude::*;
use crate::assoc::{keys_of, StrMap};

verus! {

/// Clients by name, with the name of the default client. There is a default exactly when
/// some client is registered, and the default is always a registered name.
pub struct ClientRegistry<C> {
    clients: StrMap<C>,
    default_name: Option<String>,
}

/// The text of an optional name.
pub open spec fn name_view(n: Option<String>) -> Option<Seq<char>> {
    match n {
        Some(s) => Some(s@),
        None => None,
    }
}

impl<C> ClientRegistry<C> {
    /// The clients by name.
    pub closed spec fn client_map(&self) -> Map<Seq<char>, C> {
        self.clients@
    }

    /// The names in the order they were first registered.
    pub closed spec fn name_order(&self) -> Seq<Seq<char>> {
        keys_of(self.clients.pairs())
    }

    /// The name of the default client.
    pub closed spec fn default_of(&self) -> Option<Seq<char>> {
        name_view(self.default_name)
    }

    /// A default exists exactly when a client does, and names one.
    pub closed spec fn wf(&self) -> bool {
        &&& (self.default_name is None <==> self.clients.pairs().len() == 0)
        &&& self.default_name matches Some(n) ==> self.clients@.contains_key(n@)
    }

    /// What the invariant says in terms of the views.
    pub proof fn lemma_wf(&self)
        requires
            self.wf(),
        ensures
            self.default_of() is None <==> self.client_map().dom() == Set::<Seq<char>>::empty(),
            self.default_of() matches Some(n) ==> self.client_map().contains_key(n),
            self.name_order().to_set() == self.client_map().dom(),
    {
        crate::assoc::lemma_dom_keys(self.clients);
        if self.clients.pairs().len() > 0 {
            assert(self.name_order()[0] == self.clients.pairs()[0].0);
            assert(self.client_map().dom().contains(self.name_order()[0]));
        } else {
            assert(self.name_order().to_set() =~= Set::<Seq<char>>::empty());
        }
    }

    /// An empty registry, with no default.
    pub fn new() -> (r: Self)
        ensures
            r.wf(),
            r.client_map() == Map::<Seq<char>, C>::empty(),
            r.default_of() is None,
    {
        let r = ClientRegistry { clients: StrMap::new(), default_name: None };
        proof {
            assert(r.clients@ =~= Map::<Seq<char>, C>::empty());
        }
        r
    }

    /// Registers `client` under `name`, replacing a client of that name. The first client
    /// registered (or the first after the registry was emptied) becomes the default.
    pub fn register(&mut self, name: String, client: C)
        requires
            old(self).wf(),
        ensures
            final(self).wf(),
            final(self).client_map() == old(self).client_map().insert(name@, client),
            final(self).default_of() == if old(self).default_of() is None {
                Some(name@)
            } else {
                old(self).default_of()
            },
    {
        let is_first = self.clients.is_empty();
        let key = name.clone();
        let _ = self.clients.insert(key, client);
        if is_first || self.default_name.is_none() {
            self.default_name = Some(name);
        }
        proof {
            crate::assoc::lemma_dom_keys(self.clients);
            assert(self.clients@.contains_key(name@));
            assert(keys_of(self.clients.pairs()).to_set().contains(name@));
            let i = choose|i: int| 0 <= i < keys_of(self.clients.pairs()).len()
                && keys_of(self.clients.pairs())[i] == name@;
            assert(self.clients.pairs().len() > 0);
        }
    }

    /// Removes the client `name` and gives it back. When it was the default, the first
    /// remaining client in registration order becomes the default, or none when none is left.
    pub fn unregister(&mut self, name: &str) -> (r: Option<C>)
        requires
            old(self).wf(),
        ensures
            final(self).wf(),
            r is Some <==> old(self).client_map().contains_key(name@),
            r matches Some(c) ==> c == old(self).client_map()[name@],
            final(self).client_map() == old(self).client_map().remove(name@),
            old(self).default_of() != Some(name@) ==> final(self).default_of() == old(self).default_of(),
            old(self).default_of() == Some(name@) ==> final(self).default_of() == if final(self).name_order().len() == 0 {
                None
            } else {
                Some(final(self).name_order()[0])
            },
    {
        proof {
            crate::assoc::lemma_lookup_view(self.clients, name@);
        }
        let removed = self.clients.remove(name);
        let target = name.to_owned();
        let was_default = match &self.default_name {
            Some(d) => *d == target,
            None => false,
        };
        if was_default {
            if self.clients.is_empty() {
                self.default_name = None;
            } else {
                let (first, _) = self.clients.entry_at(0);
                self.default_name = Some(first.clone());
                proof {
                    crate::assoc::lemma_dom_keys(self.clients);
                    assert(keys_of(self.clients.pairs())[0] == first@);
                }
            }
        } else {
            proof {
                match &self.default_name {
                    Some(d) => {
                        assert(self.clients@.contains_key(d@));
                        crate::assoc::lemma_dom_keys(self.clients);
                        let i = choose|i: int| 0 <= i < keys_of(self.clients.pairs()).len()
                            && keys_of(self.clients.pairs())[i] == d@;
                    },
                    None => {
                        assert(old(self).clients.pairs().len() == 0);
                    },
                }
            }
        }
        removed
    }

    /// The client registered as `name`.
    pub fn get(&self, name: &str) -> (r: Option<&C>)
        ensures
            r is Some <==> self.client_map().contains_key(name@),
            r matches Some(c) ==> *c == self.client_map()[name@],
    {
        self.clients.get(name)
    }

    /// The default client, if any.
    pub fn default_client(&self) -> (r: Option<&C>)
        requires
            self.wf(),
        ensures
            r is Some <==> self.default_of() is Some,
            r matches Some(c) ==> *c == self.client_map()[self.default_of().unwrap()],
    {
        match &self.default_name {
            Some(n) => self.clients.get(n.as_str()),
            None => None,
        }
    }

    /// The name of the default client, if any.
    pub fn default_name(&self) -> (r: Option<String>)
        ensures
            name_view(r) == self.default_of(),
    {
        match &self.default_name {
            Some(n) => Some(n.clone()),
            None => None,
        }
    }

    /// Makes `name` the default, when it is registered; says whether it did.
    pub fn set_default(&mut self, name: &str) -> (b: bool)
        requires
            old(self).wf(),
        ensures
            final(self).wf(),
            b == old(self).client_map().contains_key(name@),
            final(self).client_map() == old(self).client_map(),
            final(self).name_order() == old(self).name_order(),
            final(self).default_of() == if b { Some(name@) } else { old(self).default_of() },
    {
        if self.clients.contains_key(name) {
            self.default_name = Some(name.to_owned());
            true
        } else {
            false
        }
    }

    /// The registered names, in the order they were first registered.
    pub fn names(&self) -> (r: Vec<String>)
        ensures
            r@.len() == self.name_order().len(),
            forall|i: int| 0 <= i < r@.len() ==> (#[trigger] r@[i])@ == self.name_order()[i],
    {
        let mut r: Vec<String> = Vec::new();
        let mut i: usize = 0;
        let n = self.clients.len();
        while i < n
            invariant
                n == self.clients.pairs().len(),
                i <= n,
                r@.len() == i,
                forall|k: int| 0 <= k < i ==> (#[trigger] r@[k])@ == keys_of(self.clients.pairs())[k],
            decreases n - i,
        {
            let (name, _) = self.clients.entry_at(i);
            r.push(name.clone());
            i = i + 1;
        }
        r
    }

    /// The number of registered clients.
    pub fn len(&self) -> (n: usize)
        ensures
            n == self.client_map().len(),
    {
        self.clients.keys_are_unique();
        proof {
            crate::assoc::lemma_len_view(self.clients);
        }
        self.clients.len()
    }

    /// Whether no client is registered.
    pub fn is_empty(&self) -> (b: bool)
        ensures
            b == (self.client_map().len() == 0),
    {
        self.clients.keys_are_unique();
        proof {
            crate::assoc::lemma_len_view(self.clients);
        }
        self.clients.is_empty()
    }

    /// Whether a client is registered as `name`.
    pub fn contains(&self, name: &str) -> (b: bool)
        ensures
            b == self.client_map().contains_key(name@),
    {
        self.clients.contains_key(name)
    }
}

/// Whatever is done to it, a registry keeps its invariant: registering sets a default when
/// there was none, unregistering the default hands the role to a remaining client, and a
/// default can only be set to a registered name. So the default client can be looked up
/// whenever the registry is not empty.
pub proof fn lemma_default_exists_when_nonempty<C>(r: ClientRegistry<C>)
    requires
        r.wf(),
        r.client_map().dom() != Set::<Seq<char>>::empty(),
    ensures
        r.default_of() matches Some(n) && r.client_map().contains_key(n),
{
    r.lemma_wf();
}

} // verus!
