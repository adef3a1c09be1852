//! The data an execution shares among its tasks: a session id, key-value data and a log,
//! with snapshots that the data can be restored from.

use vstd::prelude::*;
use crate::assoc::{copy_json_map, StrMap};
use crate::foreign::{new_uuid, now_millis, timestamp_in_range};

verus! {

/// One line of an execution's log.
pub struct ContextLog {
    /// When it was written, in milliseconds since the epoch (UTC).
    pub timestamp: i64,
    /// Its level, such as `info`.
    pub level: String,
    /// The message.
    pub message: String,
    /// The task that wrote it, if one did.
    pub task_id: Option<String>,
}

impl Clone for ContextLog {
    fn clone(&self) -> (c: Self)
        ensures
            c == *self,
    {
        let task_id = match &self.task_id {
            Some(t) => Some(t.clone()),
            None => None,
        };
        ContextLog { timestamp: self.timestamp, level: self.level.clone(), message: self.message.clone(), task_id }
    }
}

/// The data of a context at one moment, to restore it from later.
pub struct ContextSnapshot {
    /// The session id.
    pub session_id: String,
    /// The data.
    pub data: StrMap<serde_json::Value>,
    /// How many log lines there were.
    pub log_count: usize,
}

impl ContextSnapshot {
    /// The number of keys in the snapshot's data.
    pub fn len(&self) -> (n: usize)
        ensures
            n == self.data.pairs().len(),
    {
        self.data.len()
    }

    /// Whether the snapshot holds no data.
    pub fn is_empty(&self) -> (b: bool)
        ensures
            b == (self.data.pairs().len() == 0),
    {
        self.data.is_empty()
    }
}

/// The shared state of an execution: a session id, key-value data and a log.
pub struct ContextStore {
    session_id: String,
    data: StrMap<serde_json::Value>,
    logs: Vec<ContextLog>,
}

/// A context's state as plain values: session id, data entries in order, log lines.
pub type StoreView = (Seq<char>, Seq<(Seq<char>, serde_json::Value)>, Seq<ContextLog>);

/// A snapshot as plain values: session id, data entries in order, log count.
pub type SnapshotView = (Seq<char>, Seq<(Seq<char>, serde_json::Value)>, nat);

/// The snapshot of a context's state.
pub open spec fn snapshot_of(s: StoreView) -> SnapshotView {
    (s.0, s.1, s.2.len())
}

/// A context's state once restored from a snapshot: the snapshot's session id and data, and
/// the context's own log.
pub open spec fn restored(s: StoreView, snap: SnapshotView) -> StoreView {
    (snap.0, snap.1, s.2)
}

/// The view of a snapshot.
pub open spec fn snapshot_view(snap: ContextSnapshot) -> SnapshotView {
    (snap.session_id@, snap.data.pairs(), snap.log_count as nat)
}

impl ContextStore {
    /// The state as plain values.
    pub closed spec fn view(&self) -> StoreView {
        (self.session_id@, self.data.pairs(), self.logs@)
    }

    /// The data by key.
    pub closed spec fn data_map(&self) -> Map<Seq<char>, serde_json::Value> {
        self.data@
    }

    /// A new context with a fresh random session id, no data and an empty log.
    pub fn new() -> (c: Self)
        ensures
            c@.0.len() == 36,
            c@.1 == Seq::<(Seq<char>, serde_json::Value)>::empty(),
            c@.2 == Seq::<ContextLog>::empty(),
            c.data_map() == Map::<Seq<char>, serde_json::Value>::empty(),
    {
        let c = ContextStore { session_id: new_uuid(), data: StrMap::new(), logs: Vec::new() };
        proof {
            assert(c.data@ =~= Map::<Seq<char>, serde_json::Value>::empty());
        }
        c
    }

    /// The session id.
    pub fn session_id(&self) -> (s: String)
        ensures
            s@ == self@.0,
    {
        self.session_id.clone()
    }

    /// The value stored under `key`.
    pub fn get(&self, key: &str) -> (r: Option<&serde_json::Value>)
        ensures
            r is Some <==> self.data_map().contains_key(key@),
            r matches Some(v) ==> *v == self.data_map()[key@],
    {
        self.data.get(key)
    }

    /// Stores `value` under `key`, replacing what was there.
    pub fn set(&mut self, key: &str, value: serde_json::Value)
        ensures
            final(self).data_map() == old(self).data_map().insert(key@, value),
            final(self)@.0 == old(self)@.0,
            final(self)@.2 == old(self)@.2,
    {
        let _ = self.data.insert(key.to_owned(), value);
    }

    /// Whether something is stored under `key`.
    pub fn contains(&self, key: &str) -> (b: bool)
        ensures
            b == self.data_map().contains_key(key@),
    {
        self.data.contains_key(key)
    }

    /// Removes and gives back the value under `key`.
    pub fn remove(&mut self, key: &str) -> (r: Option<serde_json::Value>)
        ensures
            r is Some <==> old(self).data_map().contains_key(key@),
            r matches Some(v) ==> v == old(self).data_map()[key@],
            final(self).data_map() == old(self).data_map().remove(key@),
            final(self)@.0 == old(self)@.0,
            final(self)@.2 == old(self)@.2,
    {
        proof {
            crate::assoc::lemma_lookup_view(self.data, key@);
        }
        self.data.remove(key)
    }

    /// The keys, in the order they were first set.
    pub fn keys(&self) -> (r: Vec<String>)
        ensures
            r@.len() == self@.1.len(),
            forall|i: int| 0 <= i < r@.len() ==> (#[trigger] r@[i])@ == self@.1[i].0,
    {
        let mut r: Vec<String> = Vec::new();
        let mut i: usize = 0;
        let n = self.data.len();
        while i < n
            invariant
                n == self.data.pairs().len(),
                i <= n,
                r@.len() == i,
                forall|k: int| 0 <= k < i ==> (#[trigger] r@[k])@ == self.data.pairs()[k].0,
            decreases n - i,
        {
            let (k, _) = self.data.entry_at(i);
            r.push(k.clone());
            i = i + 1;
        }
        r
    }

    /// The number of keys.
    pub fn len(&self) -> (n: usize)
        ensures
            n == self@.1.len(),
            n == self.data_map().len(),
    {
        self.data.keys_are_unique();
        proof {
            crate::assoc::lemma_len_view(self.data);
        }
        self.data.len()
    }

    /// Whether no data is stored.
    pub fn is_empty(&self) -> (b: bool)
        ensures
            b == (self@.1.len() == 0),
    {
        self.data.is_empty()
    }

    /// Adds a log line written now, with no task.
    pub fn log(&mut self, level: &str, message: &str)
        ensures
            final(self)@.2.len() == old(self)@.2.len() + 1,
            final(self)@.2.drop_last() == old(self)@.2,
            final(self)@.2.last().level@ == level@,
            final(self)@.2.last().message@ == message@,
            final(self)@.2.last().task_id is None,
            timestamp_in_range(final(self)@.2.last().timestamp as int),
            final(self)@.0 == old(self)@.0,
            final(self)@.1 == old(self)@.1,
            final(self).data_map() == old(self).data_map(),
    {
        self.logs.push(
            ContextLog { timestamp: now_millis(), level: level.to_owned(), message: message.to_owned(), task_id: None },
        );
        proof {
            assert(self@.2.drop_last() =~= old(self)@.2);
        }
    }

    /// Adds a log line written now by task `task_id`.
    pub fn log_with_task(&mut self, level: &str, message: &str, task_id: &str)
        ensures
            final(self)@.2.len() == old(self)@.2.len() + 1,
            final(self)@.2.drop_last() == old(self)@.2,
            final(self)@.2.last().level@ == level@,
            final(self)@.2.last().message@ == message@,
            final(self)@.2.last().task_id matches Some(t) && t@ == task_id@,
            timestamp_in_range(final(self)@.2.last().timestamp as int),
            final(self)@.0 == old(self)@.0,
            final(self)@.1 == old(self)@.1,
            final(self).data_map() == old(self).data_map(),
    {
        self.logs.push(
            ContextLog {
                timestamp: now_millis(),
                level: level.to_owned(),
                message: message.to_owned(),
                task_id: Some(task_id.to_owned()),
            },
        );
        proof {
            assert(self@.2.drop_last() =~= old(self)@.2);
        }
    }

    /// A copy of the log.
    pub fn logs(&self) -> (r: Vec<ContextLog>)
        ensures
            r@ == self@.2,
    {
        let mut r: Vec<ContextLog> = Vec::new();
        let mut i: usize = 0;
        while i < self.logs.len()
            invariant
                i <= self.logs@.len(),
                r@ == self.logs@.take(i as int),
            decreases self.logs@.len() - i,
        {
            r.push(self.logs[i].clone());
            proof {
                assert(self.logs@.take(i + 1) =~= self.logs@.take(i as int).push(self.logs@[i as int]));
            }
            i = i + 1;
        }
        proof {
            assert(self.logs@.take(i as int) =~= self.logs@);
        }
        r
    }

    /// A snapshot of the session id and the data, with the number of log lines.
    pub fn snapshot(&self) -> (s: ContextSnapshot)
        ensures
            snapshot_view(s) == snapshot_of(self@),
            s.data@ == self.data_map(),
    {
        ContextSnapshot {
            session_id: self.session_id.clone(),
            data: copy_json_map(&self.data),
            log_count: self.logs.len(),
        }
    }

    /// Replaces the session id and the data by the snapshot's. The log is kept as it is.
    pub fn restore(&mut self, snapshot: &ContextSnapshot)
        ensures
            final(self)@ == restored(old(self)@, snapshot_view(*snapshot)),
            final(self).data_map() == snapshot.data@,
    {
        self.session_id = snapshot.session_id.clone();
        self.data = copy_json_map(&snapshot.data);
    }

    /// Removes all data and the whole log; the session id stays.
    pub fn clear(&mut self)
        ensures
            final(self)@ == (old(self)@.0, Seq::<(Seq<char>, serde_json::Value)>::empty(), Seq::<ContextLog>::empty()),
            final(self).data_map() == Map::<Seq<char>, serde_json::Value>::empty(),
    {
        self.data.clear();
        self.logs.clear();
        proof {
            assert(self.data@ =~= Map::<Seq<char>, serde_json::Value>::empty());
            assert(self.logs@ =~= Seq::<ContextLog>::empty());
        }
    }
}

/// Restoring a snapshot gives back the session id and the data the snapshot was taken from,
/// whatever happened to the context in between; the log is never rolled back.
pub proof fn lemma_restore_undoes_changes(taken_from: StoreView, changed: StoreView)
    ensures
        restored(changed, snapshot_of(taken_from)).0 == taken_from.0,
        restored(changed, snapshot_of(taken_from)).1 == taken_from.1,
        restored(changed, snapshot_of(taken_from)).2 == changed.2,
{
}

} // verus!
