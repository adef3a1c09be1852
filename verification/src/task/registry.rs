//! A registry of tasks by id, each with its metadata, searchable by tag and by name.

use vstd::prelude::*;
use crate::assoc::{keys_of, StrMap};
use crate::error::Error;
use crate::foreign::timestamp_in_range;
use crate::text::{blank, contains_part, has_part, is_blank, lowercase, to_lowercase};
use super::task_metadata::TaskMetadata;

verus! {

/// The ids of the entries whose metadata carries `tag`, in order.
pub open spec fn tagged_ids(p: Seq<(Seq<char>, TaskMetadata)>, tag: Seq<char>) -> Seq<Seq<char>>
    decreases p.len(),
{
    if p.len() == 0 {
        Seq::empty()
    } else {
        let prev = tagged_ids(p.drop_last(), tag);
        if p.last().1.tags@.map_values(|t: String| t@).contains(tag) {
            prev.push(p.last().0)
        } else {
            prev
        }
    }
}

/// Whether a task named `task_name` matches the search text `query`: the query, in lower case,
/// occurs in the lower-case name.
pub open spec fn name_matches(task_name: Seq<char>, query: Seq<char>) -> bool {
    has_part(lowercase(task_name), lowercase(query))
}

/// The ids of the entries whose name matches `query`, in order.
pub open spec fn named_ids(p: Seq<(Seq<char>, TaskMetadata)>, query: Seq<char>) -> Seq<Seq<char>>
    decreases p.len(),
{
    if p.len() == 0 {
        Seq::empty()
    } else {
        let prev = named_ids(p.drop_last(), query);
        if name_matches(p.last().1.name@, query) {
            prev.push(p.last().0)
        } else {
            prev
        }
    }
}

/// A search by tag finds exactly the entries whose metadata lists the tag.
pub proof fn lemma_tag_search_finds_the_tagged(p: Seq<(Seq<char>, TaskMetadata)>, tag: Seq<char>)
    ensures
        forall|id: Seq<char>| #[trigger] tagged_ids(p, tag).contains(id) <==> exists|i: int, j: int|
            #![trigger p[i].0, p[i].1.tags@[j]]
            0 <= i < p.len() && p[i].0 == id && 0 <= j < p[i].1.tags@.len() && p[i].1.tags@[j]@ == tag,
    decreases p.len(),
{
    if p.len() > 0 {
        let rest = p.drop_last();
        lemma_tag_search_finds_the_tagged(rest, tag);
        let prev = tagged_ids(rest, tag);
        let ids = tagged_ids(p, tag);
        let last = p.len() - 1;
        assert(p[last] == p.last());
        let ts = p.last().1.tags@.map_values(|t: String| t@);
        assert forall|id: Seq<char>| #[trigger] ids.contains(id) <==> exists|i: int, j: int|
            #![trigger p[i].0, p[i].1.tags@[j]]
            0 <= i < p.len() && p[i].0 == id && 0 <= j < p[i].1.tags@.len() && p[i].1.tags@[j]@ == tag by {
            if ids.contains(id) {
                let x = choose|x: int| 0 <= x < ids.len() && ids[x] == id;
                if x < prev.len() {
                    assert(ids[x] == prev[x]);
                    assert(prev.contains(id));
                    let (i, j) = choose|i: int, j: int|
                        #![trigger rest[i].0, rest[i].1.tags@[j]]
                        0 <= i < rest.len() && rest[i].0 == id && 0 <= j < rest[i].1.tags@.len() && rest[i].1.tags@[j]@ == tag;
                    assert(p[i] == rest[i]);
                } else {
                    assert(ts.contains(tag));
                    let j = choose|j: int| 0 <= j < ts.len() && ts[j] == tag;
                    assert(p[last].1.tags@[j]@ == tag);
                }
            }
            if exists|i: int, j: int|
                #![trigger p[i].0, p[i].1.tags@[j]]
                0 <= i < p.len() && p[i].0 == id && 0 <= j < p[i].1.tags@.len() && p[i].1.tags@[j]@ == tag {
                let (i, j) = choose|i: int, j: int|
                    #![trigger p[i].0, p[i].1.tags@[j]]
                    0 <= i < p.len() && p[i].0 == id && 0 <= j < p[i].1.tags@.len() && p[i].1.tags@[j]@ == tag;
                if i < last {
                    assert(rest[i] == p[i]);
                    assert(rest[i].1.tags@[j]@ == tag);
                    assert(prev.contains(id));
                    let x = choose|x: int| 0 <= x < prev.len() && prev[x] == id;
                    assert(ids[x] == prev[x]);
                } else {
                    assert(ts[j] == tag);
                    assert(ts.contains(tag));
                    assert(ids[ids.len() - 1] == id);
                }
            }
        }
    }
}

/// A search by name finds exactly the entries whose lower-case name holds the lower-case query
/// as a run of consecutive characters.
pub proof fn lemma_name_search_finds_the_matches(p: Seq<(Seq<char>, TaskMetadata)>, query: Seq<char>)
    ensures
        forall|id: Seq<char>| #[trigger] named_ids(p, query).contains(id) <==> exists|i: int, k: int|
            #![trigger p[i].0, lowercase(p[i].1.name@).subrange(k, k + lowercase(query).len())]
            0 <= i < p.len() && p[i].0 == id && 0 <= k && k + lowercase(query).len() <= lowercase(
                p[i].1.name@,
            ).len() && lowercase(p[i].1.name@).subrange(k, k + lowercase(query).len()) == lowercase(query),
    decreases p.len(),
{
    if p.len() > 0 {
        let rest = p.drop_last();
        lemma_name_search_finds_the_matches(rest, query);
        let q = lowercase(query);
        let prev = named_ids(rest, query);
        let ids = named_ids(p, query);
        let last = p.len() - 1;
        assert(p[last] == p.last());
        assert forall|id: Seq<char>| #[trigger] ids.contains(id) <==> exists|i: int, k: int|
            #![trigger p[i].0, lowercase(p[i].1.name@).subrange(k, k + lowercase(query).len())]
            0 <= i < p.len() && p[i].0 == id && 0 <= k && k + lowercase(query).len() <= lowercase(
                p[i].1.name@,
            ).len() && lowercase(p[i].1.name@).subrange(k, k + lowercase(query).len()) == lowercase(query) by {
            if ids.contains(id) {
                let j = choose|j: int| 0 <= j < ids.len() && ids[j] == id;
                if j < prev.len() {
                    assert(ids[j] == prev[j]);
                    assert(prev.contains(id));
                    let (i, k) = choose|i: int, k: int|
                        #![trigger rest[i].0, lowercase(rest[i].1.name@).subrange(k, k + lowercase(query).len())]
                        0 <= i < rest.len() && rest[i].0 == id && 0 <= k && k + lowercase(query).len() <= lowercase(
                rest[i].1.name@,
            ).len() && lowercase(rest[i].1.name@).subrange(k, k + lowercase(query).len()) == lowercase(query);
                    assert(p[i] == rest[i]);
                    assert(lowercase(p[i].1.name@).subrange(k, k + q.len()) == q);
                } else {
                    assert(name_matches(p.last().1.name@, query));
                    let k = choose|k: int| crate::text::occurs_at(lowercase(p.last().1.name@), q, k);
                    assert(p[last].0 == id);
                    assert(lowercase(p[last].1.name@).subrange(k, k + q.len()) == q);
                }
            }
            if exists|i: int, k: int|
            #![trigger p[i].0, lowercase(p[i].1.name@).subrange(k, k + lowercase(query).len())]
            0 <= i < p.len() && p[i].0 == id && 0 <= k && k + lowercase(query).len() <= lowercase(
                p[i].1.name@,
            ).len() && lowercase(p[i].1.name@).subrange(k, k + lowercase(query).len()) == lowercase(query) {
                let (i, k) = choose|i: int, k: int|
                        #![trigger p[i].0, lowercase(p[i].1.name@).subrange(k, k + lowercase(query).len())]
                        0 <= i < p.len() && p[i].0 == id && 0 <= k && k + lowercase(query).len() <= lowercase(
                p[i].1.name@,
            ).len() && lowercase(p[i].1.name@).subrange(k, k + lowercase(query).len()) == lowercase(query);
                if i < last {
                    assert(rest[i] == p[i]);
                    assert(lowercase(rest[i].1.name@).subrange(k, k + q.len()) == q);
                    assert(prev.contains(id));
                    let j = choose|j: int| 0 <= j < prev.len() && prev[j] == id;
                    assert(ids[j] == prev[j]);
                } else {
                    assert(crate::text::occurs_at(lowercase(p.last().1.name@), q, k));
                    assert(name_matches(p.last().1.name@, query));
                    assert(ids[ids.len() - 1] == id);
                }
            }
        }
    }
}

/// Why a task with this id and name cannot be registered, if it cannot: an id or a name with
/// nothing but white space in it.
pub open spec fn registration_problem(id: Seq<char>, name: Seq<char>) -> Option<Seq<char>> {
    if blank(id) {
        Some("Task ID cannot be empty"@)
    } else if blank(name) {
        Some("Task name cannot be empty (task_id: "@ + id + ")"@)
    } else {
        None
    }
}

/// Tasks by id, and the metadata of each. A task is registered with its metadata and removed
/// with it, so the two always have the same ids.
pub struct TaskRegistry<E> {
    tasks: StrMap<E>,
    metadata: StrMap<TaskMetadata>,
}

impl<E> TaskRegistry<E> {
    /// The registered tasks by id.
    pub closed spec fn task_map(&self) -> Map<Seq<char>, E> {
        self.tasks@
    }

    /// The metadata by task id.
    pub closed spec fn metadata_map(&self) -> Map<Seq<char>, TaskMetadata> {
        self.metadata@
    }

    /// The task ids in the order they were first registered.
    pub closed spec fn id_order(&self) -> Seq<Seq<char>> {
        keys_of(self.tasks.pairs())
    }

    /// The metadata entries in the order their tasks were first registered.
    pub closed spec fn metadata_entries(&self) -> Seq<(Seq<char>, TaskMetadata)> {
        self.metadata.pairs()
    }

    /// Every task has metadata and every metadata has a task.
    pub closed spec fn wf(&self) -> bool {
        self.tasks@.dom() == self.metadata@.dom()
    }

    /// Every entry of metadata belongs to a registered task.
    proof fn lemma_metadata_has_task(&self)
        requires
            self.wf(),
        ensures
            forall|i: int| 0 <= i < self.metadata_entries().len() ==> self.task_map().contains_key(
                #[trigger] self.metadata_entries()[i].0,
            ),
    {
        crate::assoc::lemma_dom_keys(self.metadata);
        assert forall|i: int| 0 <= i < self.metadata_entries().len() implies self.task_map().contains_key(
            #[trigger] self.metadata_entries()[i].0,
        ) by {
            assert(keys_of(self.metadata.pairs())[i] == self.metadata.pairs()[i].0);
        }
    }

    /// A registry holds finitely many tasks and entries of metadata.
    pub proof fn lemma_finite(&self)
        ensures
            self.task_map().dom().finite(),
            self.metadata_map().dom().finite(),
    {
        crate::assoc::lemma_dom_finite(self.tasks);
        crate::assoc::lemma_dom_finite(self.metadata);
    }

    /// An empty registry.
    pub fn new() -> (r: Self)
        ensures
            r.wf(),
            r.task_map() == Map::<Seq<char>, E>::empty(),
            r.metadata_map() == Map::<Seq<char>, TaskMetadata>::empty(),
    {
        let r = TaskRegistry { tasks: StrMap::new(), metadata: StrMap::new() };
        proof {
            assert(r.tasks@ =~= Map::<Seq<char>, E>::empty());
            assert(r.metadata@ =~= Map::<Seq<char>, TaskMetadata>::empty());
        }
        r
    }

    /// Puts a task and its metadata under `id`, replacing what was there.
    fn put(&mut self, id: &str, task: E, metadata: TaskMetadata)
        requires
            old(self).wf(),
        ensures
            final(self).wf(),
            final(self).task_map() == old(self).task_map().insert(id@, task),
            final(self).metadata_map() == old(self).metadata_map().insert(id@, metadata),
    {
        let _ = self.metadata.insert(id.to_owned(), metadata);
        let _ = self.tasks.insert(id.to_owned(), task);
        proof {
            assert(self.tasks@.dom() =~= self.metadata@.dom());
        }
    }

    /// Registers a task whose executor reports id `id`, name `name` and, optionally, a
    /// description. It is refused when the id or the name is blank; otherwise it replaces any
    /// task with the same id, with fresh metadata: the id, the name, the description, no tags
    /// and no properties.
    pub fn register(&mut self, task: E, id: &str, name: &str, description: Option<&str>) -> (r: Result<(), Error>)
        requires
            old(self).wf(),
        ensures
            final(self).wf(),
            r is Ok <==> registration_problem(id@, name@) is None,
            registration_problem(id@, name@) matches Some(m) ==> (r matches Err(Error::Validation(d)) && d@ == m
                && *final(self) == *old(self)),
            r is Ok ==> {
                &&& final(self).task_map() == old(self).task_map().insert(id@, task)
                &&& final(self).task_map().len() == old(self).task_map().len() + if old(self).task_map().contains_key(
                    id@,
                ) {
                    0int
                } else {
                    1int
                }
                &&& final(self).metadata_map() == old(self).metadata_map().insert(
                    id@,
                    final(self).metadata_map()[id@],
                )
                &&& final(self).metadata_map()[id@].id@ == id@
                &&& final(self).metadata_map()[id@].name@ == name@
                &&& match description {
                    Some(d) => final(self).metadata_map()[id@].description matches Some(x) && x@ == d@,
                    None => final(self).metadata_map()[id@].description is None,
                }
                &&& timestamp_in_range(final(self).metadata_map()[id@].created_at as int)
                &&& final(self).metadata_map()[id@].tags@.len() == 0
                &&& final(self).metadata_map()[id@].properties@ == Map::<Seq<char>, serde_json::Value>::empty()
            },
    {
        match Self::check(id, name) {
            Some(e) => return Err(e),
            None => {},
        }
        let meta = TaskMetadata::new(id, name);
        let meta = match description {
            Some(d) => meta.with_description(d),
            None => meta,
        };
        proof {
            self.lemma_finite();
        }
        self.put(id, task, meta);
        proof {
            assert(self.task_map().dom() == old(self).task_map().dom().insert(id@));
        }
        Ok(())
    }

    /// Registers a task with the metadata given, refused as [`TaskRegistry::register`] refuses
    /// one.
    pub fn register_with_metadata(&mut self, task: E, id: &str, name: &str, metadata: TaskMetadata) -> (r: Result<(), Error>)
        requires
            old(self).wf(),
        ensures
            final(self).wf(),
            r is Ok <==> registration_problem(id@, name@) is None,
            registration_problem(id@, name@) matches Some(m) ==> (r matches Err(Error::Validation(d)) && d@ == m
                && *final(self) == *old(self)),
            r is Ok ==> final(self).task_map() == old(self).task_map().insert(id@, task)
                && final(self).metadata_map() == old(self).metadata_map().insert(id@, metadata)
                && final(self).task_map().len() == old(self).task_map().len() + if old(self).task_map().contains_key(
                    id@,
                ) {
                    0int
                } else {
                    1int
                },
    {
        match Self::check(id, name) {
            Some(e) => return Err(e),
            None => {},
        }
        proof {
            self.lemma_finite();
        }
        self.put(id, task, metadata);
        proof {
            assert(self.task_map().dom() == old(self).task_map().dom().insert(id@));
        }
        Ok(())
    }

    /// The validation error for a task with this id and name, if any.
    fn check(id: &str, name: &str) -> (e: Option<Error>)
        ensures
            registration_problem(id@, name@) is None ==> e is None,
            registration_problem(id@, name@) matches Some(m) ==> (e matches Some(Error::Validation(d)) && d@ == m),
    {
        if is_blank(id) {
            return Some(Error::Validation("Task ID cannot be empty".to_owned()));
        }
        if is_blank(name) {
            let mut m = "Task name cannot be empty (task_id: ".to_owned();
            m.append(id);
            m.append(")");
            return Some(Error::Validation(m));
        }
        None
    }

    /// Removes task `id` and its metadata, giving back the task.
    pub fn unregister(&mut self, id: &str) -> (r: Option<E>)
        requires
            old(self).wf(),
        ensures
            final(self).wf(),
            r is Some <==> old(self).task_map().contains_key(id@),
            r matches Some(t) ==> t == old(self).task_map()[id@],
            final(self).task_map() == old(self).task_map().remove(id@),
            final(self).metadata_map() == old(self).metadata_map().remove(id@),
    {
        proof {
            crate::assoc::lemma_lookup_view(self.tasks, id@);
        }
        let _ = self.metadata.remove(id);
        let r = self.tasks.remove(id);
        proof {
            assert(self.tasks@.dom() =~= self.metadata@.dom());
        }
        r
    }

    /// Task `id`, if registered.
    pub fn get(&self, id: &str) -> (r: Option<&E>)
        ensures
            r is Some <==> self.task_map().contains_key(id@),
            r matches Some(t) ==> *t == self.task_map()[id@],
    {
        self.tasks.get(id)
    }

    /// The metadata of task `id`, if registered.
    pub fn get_metadata(&self, id: &str) -> (r: Option<&TaskMetadata>)
        ensures
            r is Some <==> self.metadata_map().contains_key(id@),
            r matches Some(m) ==> *m == self.metadata_map()[id@],
    {
        self.metadata.get(id)
    }

    /// Whether task `id` is registered.
    pub fn contains(&self, id: &str) -> (b: bool)
        ensures
            b == self.task_map().contains_key(id@),
    {
        self.tasks.contains_key(id)
    }

    /// The tasks whose metadata carries `tag`, in the order they were first registered.
    pub fn find_by_tag(&self, tag: &str) -> (r: Vec<&E>)
        requires
            self.wf(),
        ensures
            r@.len() == tagged_ids(self.metadata_entries(), tag@).len(),
            forall|i: int| 0 <= i < r@.len() ==> *r@[i] == self.task_map()[
                #[trigger] tagged_ids(self.metadata_entries(), tag@)[i]],
    {
        proof {
            self.lemma_metadata_has_task();
        }
        let mut r: Vec<&E> = Vec::new();
        let mut i: usize = 0;
        let n = self.metadata.len();
        while i < n
            invariant
                self.wf(),
                n == self.metadata_entries().len(),
                i <= n,
                forall|k: int| 0 <= k < n ==> self.task_map().contains_key(#[trigger] self.metadata_entries()[k].0),
                r@.len() == tagged_ids(self.metadata_entries().take(i as int), tag@).len(),
                forall|k: int| 0 <= k < r@.len() ==> *r@[k] == self.task_map()[
                    #[trigger] tagged_ids(self.metadata_entries().take(i as int), tag@)[k]],
            decreases n - i,
        {
            let (id, meta) = self.metadata.entry_at(i);
            proof {
                assert(self.metadata_entries().take(i + 1).drop_last() =~= self.metadata_entries().take(i as int));
            }
            let ghost before = r@;
            let ghost prev = tagged_ids(self.metadata_entries().take(i as int), tag@);
            if meta.has_tag(tag) {
                proof {
                    assert(self.task_map().contains_key(self.metadata_entries()[i as int].0));
                }
                match self.tasks.get(id.as_str()) {
                    Some(t) => {
                        r.push(t);
                        proof {
                            let now = tagged_ids(self.metadata_entries().take(i + 1), tag@);
                            assert(now == prev.push(id@));
                            assert forall|k: int| 0 <= k < r@.len() implies *r@[k] == self.task_map()[
                                #[trigger] now[k]] by {
                                if k < before.len() {
                                    assert(now[k] == prev[k]);
                                }
                            }
                        }
                    },
                    None => {},
                }
            }
            i = i + 1;
        }
        proof {
            assert(self.metadata_entries().take(n as int) =~= self.metadata_entries());
        }
        r
    }

    /// The tasks whose name contains `name`, ignoring case, in the order they were first
    /// registered.
    pub fn find_by_name(&self, name: &str) -> (r: Vec<&E>)
        requires
            self.wf(),
        ensures
            r@.len() == named_ids(self.metadata_entries(), name@).len(),
            forall|i: int| 0 <= i < r@.len() ==> *r@[i] == self.task_map()[
                #[trigger] named_ids(self.metadata_entries(), name@)[i]],
    {
        proof {
            self.lemma_metadata_has_task();
        }
        let query = to_lowercase(name);
        let mut r: Vec<&E> = Vec::new();
        let mut i: usize = 0;
        let n = self.metadata.len();
        while i < n
            invariant
                self.wf(),
                n == self.metadata_entries().len(),
                i <= n,
                query@ == lowercase(name@),
                forall|k: int| 0 <= k < n ==> self.task_map().contains_key(#[trigger] self.metadata_entries()[k].0),
                r@.len() == named_ids(self.metadata_entries().take(i as int), name@).len(),
                forall|k: int| 0 <= k < r@.len() ==> *r@[k] == self.task_map()[
                    #[trigger] named_ids(self.metadata_entries().take(i as int), name@)[k]],
            decreases n - i,
        {
            let (id, meta) = self.metadata.entry_at(i);
            proof {
                assert(self.metadata_entries().take(i + 1).drop_last() =~= self.metadata_entries().take(i as int));
            }
            let ghost before = r@;
            let ghost prev = named_ids(self.metadata_entries().take(i as int), name@);
            let lower = to_lowercase(meta.name.as_str());
            if contains_part(lower.as_str(), query.as_str()) {
                proof {
                    assert(self.task_map().contains_key(self.metadata_entries()[i as int].0));
                }
                match self.tasks.get(id.as_str()) {
                    Some(t) => {
                        r.push(t);
                        proof {
                            let now = named_ids(self.metadata_entries().take(i + 1), name@);
                            assert(now == prev.push(id@));
                            assert forall|k: int| 0 <= k < r@.len() implies *r@[k] == self.task_map()[
                                #[trigger] now[k]] by {
                                if k < before.len() {
                                    assert(now[k] == prev[k]);
                                }
                            }
                        }
                    },
                    None => {},
                }
            }
            i = i + 1;
        }
        proof {
            assert(self.metadata_entries().take(n as int) =~= self.metadata_entries());
        }
        r
    }

    /// The ids of the registered tasks, in the order they were first registered.
    pub fn ids(&self) -> (r: Vec<&String>)
        ensures
            r@.len() == self.id_order().len(),
            forall|i: int| 0 <= i < r@.len() ==> (#[trigger] r@[i])@ == self.id_order()[i],
    {
        let mut r: Vec<&String> = Vec::new();
        let mut i: usize = 0;
        let n = self.tasks.len();
        while i < n
            invariant
                n == self.tasks.pairs().len(),
                i <= n,
                r@.len() == i,
                forall|k: int| 0 <= k < i ==> (#[trigger] r@[k])@ == keys_of(self.tasks.pairs())[k],
            decreases n - i,
        {
            let (id, _) = self.tasks.entry_at(i);
            r.push(id);
            i = i + 1;
        }
        r
    }

    /// The metadata of every registered task, in the order the tasks were first registered.
    pub fn all_metadata(&self) -> (r: Vec<&TaskMetadata>)
        ensures
            r@.len() == self.metadata_entries().len(),
            forall|i: int| 0 <= i < r@.len() ==> *(#[trigger] r@[i]) == self.metadata_entries()[i].1,
    {
        let mut r: Vec<&TaskMetadata> = Vec::new();
        let mut i: usize = 0;
        let n = self.metadata.len();
        while i < n
            invariant
                n == self.metadata.pairs().len(),
                i <= n,
                r@.len() == i,
                forall|k: int| 0 <= k < i ==> *(#[trigger] r@[k]) == self.metadata.pairs()[k].1,
            decreases n - i,
        {
            let (_, m) = self.metadata.entry_at(i);
            r.push(m);
            i = i + 1;
        }
        r
    }

    /// The number of registered tasks.
    pub fn len(&self) -> (n: usize)
        requires
            self.wf(),
        ensures
            n == self.task_map().len(),
            self.task_map().dom().finite(),
    {
        proof {
            self.lemma_finite();
        }
        self.tasks.keys_are_unique();
        proof {
            crate::assoc::lemma_len_view(self.tasks);
        }
        self.tasks.len()
    }

    /// Whether no task is registered.
    pub fn is_empty(&self) -> (b: bool)
        requires
            self.wf(),
        ensures
            b == (self.task_map().len() == 0),
    {
        self.tasks.keys_are_unique();
        proof {
            crate::assoc::lemma_len_view(self.tasks);
        }
        self.tasks.is_empty()
    }

    /// Removes every task and its metadata.
    pub fn clear(&mut self)
        ensures
            final(self).wf(),
            final(self).task_map() == Map::<Seq<char>, E>::empty(),
            final(self).metadata_map() == Map::<Seq<char>, TaskMetadata>::empty(),
    {
        self.tasks.clear();
        self.metadata.clear();
        proof {
            assert(self.tasks@ =~= Map::<Seq<char>, E>::empty());
            assert(self.metadata@ =~= Map::<Seq<char>, TaskMetadata>::empty());
        }
    }
}

} // verus!
