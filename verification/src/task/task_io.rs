//! The data a task receives and the data it hands on.

use vstd::prelude::*;
use crate::assoc::StrMap;
use crate::foreign::{json_from_option, json_of_option};

verus! {

/// What a task receives: data, where it came from, and metadata.
pub struct TaskInput {
    /// The data.
    pub data: serde_json::Value,
    /// The task that produced it, if any.
    pub source_task_id: Option<String>,
    /// Metadata by key.
    pub metadata: StrMap<serde_json::Value>,
}

impl TaskInput {
    /// Input holding `data`, from no task in particular.
    pub fn new(data: serde_json::Value) -> (i: Self)
        ensures
            i.data == data,
            i.source_task_id is None,
            i.metadata@ == Map::<Seq<char>, serde_json::Value>::empty(),
    {
        let metadata = StrMap::new();
        proof {
            assert(metadata@ =~= Map::<Seq<char>, serde_json::Value>::empty());
        }
        TaskInput { data, source_task_id: None, metadata }
    }

    /// Input holding `data`, produced by task `task_id`.
    pub fn from_task(task_id: &str, data: serde_json::Value) -> (i: Self)
        ensures
            i.data == data,
            i.source_task_id matches Some(t) && t@ == task_id@,
            i.metadata@ == Map::<Seq<char>, serde_json::Value>::empty(),
    {
        let metadata = StrMap::new();
        proof {
            assert(metadata@ =~= Map::<Seq<char>, serde_json::Value>::empty());
        }
        TaskInput { data, source_task_id: Some(task_id.to_owned()), metadata }
    }

    /// Adds a metadata entry.
    pub fn with_metadata(self, key: &str, value: serde_json::Value) -> (i: Self)
        ensures
            i.data == self.data,
            i.source_task_id == self.source_task_id,
            i.metadata@ == self.metadata@.insert(key@, value),
    {
        let mut i = self;
        let _ = i.metadata.insert(key.to_owned(), value);
        i
    }

    /// A metadata entry.
    pub fn get_metadata(&self, key: &str) -> (r: Option<&serde_json::Value>)
        ensures
            r is Some <==> self.metadata@.contains_key(key@),
            r matches Some(v) ==> *v == self.metadata@[key@],
    {
        self.metadata.get(key)
    }
}

impl Default for TaskInput {
    /// JSON `null`, from no task, without metadata.
    fn default() -> (i: Self)
        ensures
            i.data == json_of_option(None),
            i.source_task_id is None,
            i.metadata@ == Map::<Seq<char>, serde_json::Value>::empty(),
    {
        TaskInput::new(json_from_option(None))
    }
}

/// What a task hands on: data, the tasks it is meant for, and metadata.
pub struct TaskOutput {
    /// The data.
    pub data: serde_json::Value,
    /// The tasks the data is meant for.
    pub target_task_ids: Vec<String>,
    /// Metadata by key.
    pub metadata: StrMap<serde_json::Value>,
}

impl TaskOutput {
    /// Output holding `data`, for no task in particular.
    pub fn new(data: serde_json::Value) -> (o: Self)
        ensures
            o.data == data,
            o.target_task_ids@.len() == 0,
            o.metadata@ == Map::<Seq<char>, serde_json::Value>::empty(),
    {
        let metadata = StrMap::new();
        proof {
            assert(metadata@ =~= Map::<Seq<char>, serde_json::Value>::empty());
        }
        TaskOutput { data, target_task_ids: Vec::new(), metadata }
    }

    /// Sends the output to the given tasks.
    pub fn to_tasks(self, task_ids: Vec<String>) -> (o: Self)
        ensures
            o.data == self.data,
            o.target_task_ids == task_ids,
            o.metadata == self.metadata,
    {
        TaskOutput { target_task_ids: task_ids, ..self }
    }

    /// Adds a metadata entry.
    pub fn with_metadata(self, key: &str, value: serde_json::Value) -> (o: Self)
        ensures
            o.data == self.data,
            o.target_task_ids == self.target_task_ids,
            o.metadata@ == self.metadata@.insert(key@, value),
    {
        let mut o = self;
        let _ = o.metadata.insert(key.to_owned(), value);
        o
    }

    /// A metadata entry.
    pub fn get_metadata(&self, key: &str) -> (r: Option<&serde_json::Value>)
        ensures
            r is Some <==> self.metadata@.contains_key(key@),
            r matches Some(v) ==> *v == self.metadata@[key@],
    {
        self.metadata.get(key)
    }

    /// Adds a task the output is meant for.
    pub fn add_target(&mut self, task_id: &str)
        ensures
            final(self).target_task_ids@.len() == old(self).target_task_ids@.len() + 1,
            final(self).target_task_ids@.drop_last() == old(self).target_task_ids@,
            final(self).target_task_ids@.last()@ == task_id@,
            final(self).data == old(self).data,
            final(self).metadata == old(self).metadata,
    {
        self.target_task_ids.push(task_id.to_owned());
        proof {
            assert(self.target_task_ids@.drop_last() =~= old(self).target_task_ids@);
        }
    }
}

impl Default for TaskOutput {
    /// JSON `null`, for no task, without metadata.
    fn default() -> (o: Self)
        ensures
            o.data == json_of_option(None),
            o.target_task_ids@.len() == 0,
            o.metadata@ == Map::<Seq<char>, serde_json::Value>::empty(),
    {
        TaskOutput::new(json_from_option(None))
    }
}

} // verus!
