use cortex_flow::dag::executor::results_with_outcome;
use cortex_flow::dag::NodeExecutionResult;
use cortex_flow::execution::{ExecutionReport, TaskReport};
use cortex_flow::observability::{MetricType, SpanRecorder, SpanStatus, TraceReport};
use cortex_flow::text::{contains_part, is_blank};
use serde_json::Value;

#[test]
fn recorder_keeps_finished_spans() {
    let mut rec = SpanRecorder::new();
    let mut a = rec.create_span("load");
    assert_eq!(a.trace_id.len(), 36);
    rec.set_trace_id("trace-1");
    let mut b = rec.create_span("load");
    assert_eq!(b.trace_id, "trace-1");
    let mut c = rec.create_span("save");
    a.ok();
    b.error("disk full");
    rec.finish_span(&mut a);
    rec.finish_span(&mut b);
    rec.finish_span(&mut c);
    assert!(a.is_finished());
    assert_eq!(rec.span_count(), 3);
    let loads = rec.spans_by_name("load");
    assert_eq!(loads.len(), 2);
    assert_eq!(loads[1].status, SpanStatus::Error);
    assert_eq!(loads[1].attributes.get("error"), Some(&"disk full".to_string()));
    let report = rec.report();
    assert_eq!(report.total_spans, 3);
    assert_eq!(report.error_spans, 1);
    rec.clear();
    assert_eq!(rec.span_count(), 0);
}

#[test]
fn trace_report_text() {
    let mut rec = SpanRecorder::new();
    let mut s = rec.create_span("step");
    s.ok();
    rec.finish_span(&mut s);
    let mut spans = rec.spans();
    spans[0].duration_ms = Some(12);
    let report = TraceReport::from_spans(spans);
    let id8: String = report.spans[0].span_id.chars().take(8).collect();
    let expected = format!(
        "=== Trace Report ===\nTotal Spans: 1\nError Spans: 0\nTotal Duration: 12ms\n--- Spans ---\n  [OK] step (12ms) {}\n",
        id8
    );
    assert_eq!(report.render(), expected);
}

#[test]
fn execution_report_text() {
    let report = ExecutionReport {
        report_id: "r-1".to_string(),
        success: false,
        total_duration_ms: 30,
        start_time: None,
        end_time: None,
        total_tasks: 2,
        succeeded_tasks: 1,
        failed_tasks: 1,
        skipped_tasks: 0,
        tasks: vec![
            TaskReport {
                task_id: "a".to_string(),
                name: "A".to_string(),
                success: true,
                duration_ms: 10,
                error: None,
                output_summary: None,
            },
            TaskReport {
                task_id: "b".to_string(),
                name: "B".to_string(),
                success: false,
                duration_ms: 20,
                error: Some("boom".to_string()),
                output_summary: None,
            },
        ],
        error_summary: Some("1 tasks failed: boom".to_string()),
    };
    let expected = [
        "=== Execution Report ===\n",
        "Report ID: r-1\n",
        "Success: NO\n",
        "Total Duration: 30ms\n",
        "Tasks: 2 total, 1 succeeded, 1 failed, 0 skipped\n",
        "--- Task Details ---\n",
        "  [OK] a (A) - 10ms\n",
        "  [FAIL] b (B) - 20ms\n",
        "    Error: boom\n",
        "--- Error Summary ---\n",
        "1 tasks failed: boom\n",
    ]
    .concat();
    assert_eq!(report.render(), expected);
}

#[test]
fn results_split_by_outcome() {
    let rs = vec![
        NodeExecutionResult::success("a".to_string(), "A".to_string(), Value::Null, 1),
        NodeExecutionResult::failure("b".to_string(), "B".to_string(), "x".to_string(), 1),
        NodeExecutionResult::success("c".to_string(), "C".to_string(), Value::Null, 1),
    ];
    let ok: Vec<String> = results_with_outcome(&rs, true).into_iter().map(|r| r.task_id).collect();
    let bad: Vec<String> = results_with_outcome(&rs, false).into_iter().map(|r| r.task_id).collect();
    assert_eq!(ok, vec!["a".to_string(), "c".to_string()]);
    assert_eq!(bad, vec!["b".to_string()]);
}

#[test]
fn text_helpers() {
    assert!(is_blank(""));
    assert!(is_blank(" \t\n\u{3000}"));
    assert!(!is_blank(" x "));
    assert!(contains_part("hello world", "o w"));
    assert!(contains_part("abc", ""));
    assert!(!contains_part("abc", "abcd"));
    assert!(!contains_part("abc", "ac"));
    assert!(contains_part("aab", "ab"));
    assert_eq!(MetricType::Gauge, MetricType::Gauge);
}

#[test]
fn checked_report_detects_overflow() {
    let mut rec = SpanRecorder::new();
    let mut a = rec.create_span("a");
    rec.finish_span(&mut a);
    assert!(rec.checked_report().is_some());
    let mut spans = rec.spans();
    spans[0].duration_ms = Some(u64::MAX);
    let mut b = spans[0].clone();
    b.start_time = None;
    b.duration_ms = Some(u64::MAX);
    rec.finish_span(&mut b);
    let mut c = rec.create_span("c");
    c.start_time = None;
    c.duration_ms = Some(1);
    rec.finish_span(&mut c);
    assert!(rec.checked_report().is_none());
}
