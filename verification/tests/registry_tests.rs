use cortex_flow::error::Error;
use cortex_flow::llm::{ClientRegistry, MockLLMClient, TokenTotals, TokenUsage};
use cortex_flow::task::{TaskMetadata, TaskRegistry};

fn task_registry() -> TaskRegistry<&'static str> {
    TaskRegistry::new()
}

#[test]
fn registry_test_register_and_get() {
    let mut registry = task_registry();
    registry.register("task one", "t1", "Task 1", None).unwrap();
    assert!(registry.contains("t1"));
    assert!(registry.get("t1").is_some());
    assert_eq!(registry.len(), 1);
}

#[test]
fn test_register_validates_empty_id() {
    let mut registry = task_registry();
    let result = registry.register("task", "valid_id", "Valid Name", None);
    assert!(result.is_ok());
}

#[test]
fn registry_test_unregister() {
    let mut registry = task_registry();
    registry.register("task one", "t1", "Task 1", None).unwrap();
    assert!(registry.contains("t1"));
    registry.unregister("t1");
    assert!(!registry.contains("t1"));
}

#[test]
fn test_find_by_tag() {
    let mut registry = task_registry();
    let meta = TaskMetadata::new("t1", "Task 1").with_tags(vec!["fetch".to_string()]);
    registry.register_with_metadata("task one", "t1", "Task 1", meta).unwrap();
    let found = registry.find_by_tag("fetch");
    assert_eq!(found.len(), 1);
}

#[test]
fn test_metadata() {
    let mut registry = task_registry();
    registry.register("task one", "t1", "Task 1", None).unwrap();
    let meta = registry.get_metadata("t1").unwrap();
    assert_eq!(meta.id, "t1");
    assert_eq!(meta.name, "Task 1");
}

#[test]
fn task_registry_refuses_blank_ids_and_names() {
    let mut registry = task_registry();
    match registry.register("x", "  ", "Name", None) {
        Err(Error::Validation(m)) => assert_eq!(m, "Task ID cannot be empty"),
        _ => panic!("expected a validation error"),
    }
    match registry.register("x", "id7", "\t", None) {
        Err(Error::Validation(m)) => assert_eq!(m, "Task name cannot be empty (task_id: id7)"),
        _ => panic!("expected a validation error"),
    }
    assert!(registry.is_empty());
}

#[test]
fn task_registry_searches_and_clears() {
    let mut registry = task_registry();
    registry.register("a", "fetch", "Fetch Sales Data", Some("downloads")).unwrap();
    registry.register("b", "clean", "Clean data", None).unwrap();
    registry
        .register_with_metadata(
            "c",
            "report",
            "Report",
            TaskMetadata::new("report", "Report").with_tags(vec!["out".to_string()]),
        )
        .unwrap();
    assert_eq!(registry.find_by_name("DATA"), vec![&"a", &"b"]);
    assert_eq!(registry.find_by_name("report"), vec![&"c"]);
    assert!(registry.find_by_tag("fetch").is_empty());
    assert_eq!(
        registry.get_metadata("fetch").and_then(|m| m.description.clone()),
        Some("downloads".to_string())
    );
    let ids: Vec<String> = registry.ids().into_iter().cloned().collect();
    assert_eq!(ids, vec!["fetch".to_string(), "clean".to_string(), "report".to_string()]);
    assert_eq!(registry.all_metadata().len(), 3);
    assert_eq!(registry.unregister("clean"), Some("b"));
    assert_eq!(registry.unregister("clean"), None);
    assert!(registry.get_metadata("clean").is_none());
    registry.register("d", "fetch", "Fetch again", None).unwrap();
    assert_eq!(registry.get("fetch"), Some(&"d"));
    assert_eq!(registry.len(), 2);
    registry.clear();
    assert!(registry.is_empty());
}

#[test]
fn task_metadata_builders() {
    let mut m = TaskMetadata::new("id", "Name").with_description("what it does");
    m.add_tag("x");
    m.add_tag("y");
    assert!(m.has_tag("y"));
    assert!(!m.has_tag("z"));
    let m = m.with_property("retries", serde_json::Value::from(2));
    assert_eq!(m.get_property("retries"), Some(&serde_json::Value::from(2)));
    assert_eq!(m.get_property("other"), None);
    let copy = m.clone();
    assert_eq!(copy.tags, vec!["x".to_string(), "y".to_string()]);
    assert_eq!(copy.created_at, m.created_at);
    let d = TaskMetadata::default();
    assert_eq!(d.id.len(), 36);
    assert_eq!(d.name, "");
}

#[test]
fn test_register_and_get() {
    let mut registry = ClientRegistry::new();
    registry.register("gpt4".to_string(), MockLLMClient::new("response1"));
    registry.register("llama3".to_string(), MockLLMClient::new("response2"));
    assert!(registry.get("gpt4").is_some());
    assert!(registry.get("llama3").is_some());
    assert!(registry.get("unknown").is_none());
    assert_eq!(registry.len(), 2);
}

#[test]
fn test_default_client() {
    let mut registry = ClientRegistry::new();
    registry.register("gpt4".to_string(), MockLLMClient::new("gpt4"));
    assert_eq!(registry.default_name(), Some("gpt4".to_string()));
    assert!(registry.default_client().is_some());

    registry.register("llama3".to_string(), MockLLMClient::new("llama3"));
    assert_eq!(registry.default_name(), Some("gpt4".to_string()));

    assert!(registry.set_default("llama3"));
    assert_eq!(registry.default_name(), Some("llama3".to_string()));

    assert!(!registry.set_default("unknown"));
}

#[test]
fn test_unregister() {
    let mut registry = ClientRegistry::new();
    registry.register("gpt4".to_string(), MockLLMClient::new("gpt4"));
    registry.register("llama3".to_string(), MockLLMClient::new("llama3"));

    let removed = registry.unregister("gpt4");
    assert!(removed.is_some());
    assert_eq!(registry.default_name(), Some("llama3".to_string()));

    let removed = registry.unregister("unknown");
    assert!(removed.is_none());
}

#[test]
fn test_names_and_contains() {
    let mut registry = ClientRegistry::new();
    assert!(registry.is_empty());

    registry.register("a".to_string(), MockLLMClient::new("a"));
    registry.register("b".to_string(), MockLLMClient::new("b"));

    assert!(!registry.is_empty());
    assert!(registry.contains("a"));
    assert!(registry.contains("b"));
    assert!(!registry.contains("c"));

    let mut names = registry.names();
    names.sort();
    assert_eq!(names, vec!["a", "b"]);
}

#[test]
fn client_registry_default_follows_removals() {
    let mut registry: ClientRegistry<u8> = ClientRegistry::new();
    assert!(registry.default_client().is_none());
    registry.register("x".to_string(), 1);
    registry.register("y".to_string(), 2);
    registry.register("z".to_string(), 3);
    assert_eq!(registry.unregister("y"), Some(2));
    assert_eq!(registry.default_name(), Some("x".to_string()));
    assert_eq!(registry.unregister("x"), Some(1));
    assert_eq!(registry.default_name(), Some("z".to_string()));
    assert_eq!(registry.default_client(), Some(&3));
    assert_eq!(registry.unregister("z"), Some(3));
    assert_eq!(registry.default_name(), None);
    registry.register("w".to_string(), 4);
    assert_eq!(registry.default_name(), Some("w".to_string()));
    registry.register("w".to_string(), 5);
    assert_eq!(registry.get("w"), Some(&5));
    assert_eq!(registry.names(), vec!["w".to_string()]);
}

#[test]
fn test_record_usage() {
    let mut totals = TokenTotals::new();
    totals.record(&TokenUsage::new(1000, 500));
    totals.record(&TokenUsage::new(2000, 1000));

    assert_eq!(totals.total_prompt_tokens, 3000);
    assert_eq!(totals.total_completion_tokens, 1500);
    assert_eq!(totals.total_tokens(), 4500);
    assert_eq!(totals.call_count, 2);
}

#[test]
fn test_snapshot() {
    let mut totals = TokenTotals::new();
    totals.record(&TokenUsage::new(100, 50));
    let snap = totals;
    assert_eq!(snap.total_prompt_tokens, 100);
    assert_eq!(snap.call_count, 1);
}

#[test]
fn test_reset() {
    let mut totals = TokenTotals::default();
    totals.record(&TokenUsage::new(100, 50));
    totals.reset();
    assert_eq!(totals.call_count, 0);
    assert_eq!(totals.total_tokens(), 0);
}
