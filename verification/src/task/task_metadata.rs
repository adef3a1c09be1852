//! Descriptive data about a task: id, name, description, creation time, tags and properties.

use vstd::prelude::*;
use crate::assoc::{copy_json_map, StrMap};
use crate::foreign::{new_uuid, now_millis, timestamp_in_range};
use crate::text::views_of;

verus! {

/// What is known about a task besides how to run it.
pub struct TaskMetadata {
    /// Task id.
    pub id: String,
    /// Task name.
    pub name: String,
    /// Description, if any.
    pub description: Option<String>,
    /// When the metadata was made, in milliseconds since the epoch (UTC).
    pub created_at: i64,
    /// Tags, in the order they were given.
    pub tags: Vec<String>,
    /// Custom properties by key.
    pub properties: StrMap<serde_json::Value>,
}

impl TaskMetadata {
    /// Metadata for task `id` named `name`, made now, with no description, tags or properties.
    pub fn new(id: &str, name: &str) -> (m: Self)
        ensures
            m.id@ == id@,
            m.name@ == name@,
            m.description is None,
            timestamp_in_range(m.created_at as int),
            m.tags@.len() == 0,
            m.properties@ == Map::<Seq<char>, serde_json::Value>::empty(),
    {
        let properties = StrMap::new();
        proof {
            assert(properties@ =~= Map::<Seq<char>, serde_json::Value>::empty());
        }
        TaskMetadata {
            id: id.to_owned(),
            name: name.to_owned(),
            description: None,
            created_at: now_millis(),
            tags: Vec::new(),
            properties,
        }
    }

    /// The same metadata with a description.
    pub fn with_description(self, description: &str) -> (m: Self)
        ensures
            m.description matches Some(d) && d@ == description@,
            m.id == self.id,
            m.name == self.name,
            m.created_at == self.created_at,
            m.tags == self.tags,
            m.properties == self.properties,
    {
        TaskMetadata { description: Some(description.to_owned()), ..self }
    }

    /// The same metadata with `tags` in place of its tags.
    pub fn with_tags(self, tags: Vec<String>) -> (m: Self)
        ensures
            m.tags == tags,
            m.id == self.id,
            m.name == self.name,
            m.description == self.description,
            m.created_at == self.created_at,
            m.properties == self.properties,
    {
        TaskMetadata { tags, ..self }
    }

    /// Adds a tag after the others.
    pub fn add_tag(&mut self, tag: &str)
        ensures
            views_of(final(self).tags@) == views_of(old(self).tags@).push(tag@),
            final(self).id == old(self).id,
            final(self).name == old(self).name,
            final(self).description == old(self).description,
            final(self).created_at == old(self).created_at,
            final(self).properties == old(self).properties,
    {
        let ghost before = self.tags@;
        self.tags.push(tag.to_owned());
        proof {
            assert(views_of(self.tags@) =~= views_of(before).push(tag@));
        }
    }

    /// The same metadata with property `key` set to `value`.
    pub fn with_property(self, key: &str, value: serde_json::Value) -> (m: Self)
        ensures
            m.properties@ == self.properties@.insert(key@, value),
            m.id == self.id,
            m.name == self.name,
            m.description == self.description,
            m.created_at == self.created_at,
            m.tags == self.tags,
    {
        let mut m = self;
        let _ = m.properties.insert(key.to_owned(), value);
        m
    }

    /// Property `key`, if set.
    pub fn get_property(&self, key: &str) -> (r: Option<&serde_json::Value>)
        ensures
            r is Some <==> self.properties@.contains_key(key@),
            r matches Some(v) ==> *v == self.properties@[key@],
    {
        self.properties.get(key)
    }

    /// Whether `tag` is among the tags.
    pub fn has_tag(&self, tag: &str) -> (b: bool)
        ensures
            b == views_of(self.tags@).contains(tag@),
    {
        let ghost tags = views_of(self.tags@);
        let wanted = tag.to_owned();
        let mut i: usize = 0;
        while i < self.tags.len()
            invariant
                i <= self.tags@.len(),
                tags == views_of(self.tags@),
                wanted@ == tag@,
                forall|j: int| 0 <= j < i ==> tags[j] != tag@,
            decreases self.tags@.len() - i,
        {
            if self.tags[i] == wanted {
                proof {
                    assert(tags[i as int] == tag@);
                }
                return true;
            }
            i = i + 1;
        }
        proof {
            if tags.contains(tag@) {
                let j = choose|j: int| 0 <= j < tags.len() && tags[j] == tag@;
                assert(tags[j] != tag@);
            }
        }
        false
    }
}

impl Default for TaskMetadata {
    /// Metadata with a fresh random id, an empty name, made now.
    fn default() -> (m: Self)
        ensures
            m.id@.len() == 36,
            m.name@ == Seq::<char>::empty(),
            m.description is None,
            timestamp_in_range(m.created_at as int),
            m.tags@.len() == 0,
            m.properties@ == Map::<Seq<char>, serde_json::Value>::empty(),
    {
        let properties = StrMap::new();
        proof {
            assert(properties@ =~= Map::<Seq<char>, serde_json::Value>::empty());
        }
        TaskMetadata {
            id: new_uuid(),
            name: String::new(),
            description: None,
            created_at: now_millis(),
            tags: Vec::new(),
            properties,
        }
    }
}

impl Clone for TaskMetadata {
    fn clone(&self) -> (m: Self)
        ensures
            m.id == self.id,
            m.name == self.name,
            m.description == self.description,
            m.created_at == self.created_at,
            views_of(m.tags@) == views_of(self.tags@),
            m.properties@ == self.properties@,
    {
        let tags = self.tags.clone();
        proof {
            assert(views_of(tags@) =~= views_of(self.tags@));
        }
        let description = match &self.description {
            Some(d) => Some(d.clone()),
            None => None,
        };
        TaskMetadata {
            id: self.id.clone(),
            name: self.name.clone(),
            description,
            created_at: self.created_at,
            tags,
            properties: copy_json_map(&self.properties),
        }
    }
}

} // verus!
