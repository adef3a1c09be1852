use cortex_flow::context::{ContextScope, ContextStore};
use serde_json::Value;

fn text(s: &str) -> Value {
    Value::String(s.to_string())
}

#[test]
fn test_scope_isolation() {
    let mut parent = ContextScope::new("parent");
    parent.set("shared", text("from_parent"));
    parent.set("parent_only", text("only_in_parent"));

    let mut child = parent.child("child");
    child.set("shared", text("from_child"));
    child.set("child_only", text("only_in_child"));

    assert_eq!(child.get("shared"), Some(&text("from_child")));
    assert_eq!(child.get("parent_only"), Some(&text("only_in_parent")));
    assert_eq!(parent.get("shared"), Some(&text("from_parent")));
    assert!(parent.get("child_only").is_none());
}

#[test]
fn test_scope_child_reads_parent() {
    let mut parent = ContextScope::new("parent");
    let mut config = serde_json::Map::new();
    config.insert("timeout".to_string(), Value::from(30));
    parent.set("config", Value::Object(config.clone()));

    let child = parent.child("child");
    assert_eq!(child.get("config"), Some(&Value::Object(config)));
}

#[test]
fn test_scope_level() {
    let root = ContextScope::new("root");
    assert_eq!(root.level, 0);
    assert!(root.is_root());

    let child = root.child("child");
    assert_eq!(child.level, 1);
    assert!(!child.is_root());
}

#[test]
fn scope_local_operations() {
    let mut scope = ContextScope::new("s");
    assert!(scope.is_local_empty());
    assert_eq!(scope.local_len(), 0);
    scope.set("a", Value::from(1));
    scope.set("b", Value::from(2));
    scope.set("a", Value::from(3));
    assert_eq!(scope.local_len(), 2);
    assert_eq!(scope.get("a"), Some(&Value::from(3)));
    let mut keys: Vec<String> = scope.local_keys().into_iter().cloned().collect();
    keys.sort();
    assert_eq!(keys, vec!["a".to_string(), "b".to_string()]);
    assert_eq!(scope.remove("a"), Some(Value::from(3)));
    assert_eq!(scope.remove("a"), None);
    assert!(!scope.contains("a"));
    scope.clear();
    assert!(scope.is_local_empty());
    assert_eq!(scope.name, "s");
}

#[test]
fn child_removal_leaves_parent_copy_visible() {
    let mut parent = ContextScope::new("p");
    parent.set("k", text("parent value"));
    let mut child = parent.child("c");
    assert!(child.contains("k"));
    assert!(!child.contains_local("k"));
    assert_eq!(child.remove("k"), None);
    assert_eq!(child.get("k"), Some(&text("parent value")));
    child.set("k", text("own"));
    assert!(child.contains_local("k"));
    child.clear();
    assert_eq!(child.get("k"), Some(&text("parent value")));
    // the child holds a copy taken when it was made
    parent.set("later", Value::from(1));
    assert!(!child.contains("later"));
    let grandchild = child.child("g");
    assert_eq!(grandchild.level, 2);
    assert!(!grandchild.contains("k"));
}

#[test]
fn store_snapshot_and_restore() {
    let mut store = ContextStore::new();
    let session = store.session_id();
    assert_eq!(session.len(), 36);
    store.set("a", Value::from(1));
    store.set("b", text("two"));
    store.log("info", "started");
    let snap = store.snapshot();
    assert_eq!(snap.len(), 2);
    assert_eq!(snap.log_count, 1);
    assert!(!snap.is_empty());

    store.set("a", Value::from(10));
    store.remove("b");
    store.set("c", Value::Null);
    store.log_with_task("warn", "changed", "t9");
    assert_eq!(store.keys(), vec!["a".to_string(), "c".to_string()]);

    store.restore(&snap);
    assert_eq!(store.get("a"), Some(&Value::from(1)));
    assert_eq!(store.get("b"), Some(&text("two")));
    assert!(!store.contains("c"));
    assert_eq!(store.session_id(), session);
    let logs = store.logs();
    assert_eq!(logs.len(), 2);
    assert_eq!(logs[1].task_id, Some("t9".to_string()));
    assert_eq!(logs[0].level, "info");
    assert_eq!(store.len(), 2);

    store.clear();
    assert!(store.is_empty());
    assert!(store.logs().is_empty());
    assert_eq!(store.session_id(), session);
}
