//! Reports on finished executions: per-task lines, counts, durations and an error summary.

use vstd::prelude::*;
use vstd::string::StringSliceAdditionalSpecFns;
use vstd::utf8::{encode_utf8, decode_utf8, is_char_boundary};
use crate::dag::NodeExecutionResult;
use crate::foreign::{json_text, json_text_of, new_uuid, now_millis, timestamp_in_range};
use crate::strategy::strategy_trait::{count_success, lemma_count_success_bound, success_count_of};
use crate::strategy::ExecutionResult;
use crate::text::{concat_all, decimal, joined, join, push_decimal, views_of};

verus! {

/// The longest output text a report shows in full, in bytes.
pub const SUMMARY_LIMIT: usize = 200;

/// A report's view of an output's text: the text itself, or its first 200 bytes followed by
/// `...` when it is longer.
pub open spec fn summary_of(text: Seq<char>) -> Seq<char> {
    let b = encode_utf8(text);
    if b.len() > 200 {
        decode_utf8(b.subrange(0, 200)) + "..."@
    } else {
        text
    }
}

/// The text can be cut after 200 bytes without splitting a character (or need not be cut).
pub open spec fn summary_fits(text: Seq<char>) -> bool {
    encode_utf8(text).len() > 200 ==> is_char_boundary(encode_utf8(text), 200)
}

/// The result's output, if any, can be summarized.
pub open spec fn output_fits(r: NodeExecutionResult) -> bool {
    match r.output {
        Some(o) => summary_fits(json_text_of(o)),
        None => true,
    }
}

/// Every output among the results can be summarized.
pub open spec fn outputs_fit(rs: Seq<NodeExecutionResult>) -> bool {
    forall|i: int| 0 <= i < rs.len() ==> output_fits(#[trigger] rs[i])
}

/// The sum of the durations of the results.
pub open spec fn total_duration(rs: Seq<NodeExecutionResult>) -> nat
    decreases rs.len(),
{
    if rs.len() == 0 {
        0
    } else {
        total_duration(rs.drop_last()) + rs.last().duration_ms as nat
    }
}

/// The error messages of the failed results that carry one, in order.
pub open spec fn failure_errors(rs: Seq<NodeExecutionResult>) -> Seq<Seq<char>>
    decreases rs.len(),
{
    if rs.len() == 0 {
        Seq::empty()
    } else {
        let prev = failure_errors(rs.drop_last());
        let r = rs.last();
        if !r.success && r.error is Some {
            prev.push(r.error.unwrap()@)
        } else {
            prev
        }
    }
}

/// The error summary of a report with `failed` failures and these error messages.
pub open spec fn error_summary_of(failed: nat, errors: Seq<Seq<char>>) -> Seq<char> {
    decimal(failed) + " tasks failed: "@ + joined(errors, "; "@)
}

/// The report of one task.
pub struct TaskReport {
    /// Task id.
    pub task_id: String,
    /// Task name.
    pub name: String,
    /// Whether the task succeeded.
    pub success: bool,
    /// How long it ran, in milliseconds.
    pub duration_ms: u64,
    /// Its error message, if any.
    pub error: Option<String>,
    /// Its output as JSON text, cut after 200 bytes.
    pub output_summary: Option<String>,
}

/// `t` reports the result `r`.
pub open spec fn reports(t: TaskReport, r: NodeExecutionResult) -> bool {
    &&& t.task_id == r.task_id
    &&& t.name == r.name
    &&& t.success == r.success
    &&& t.duration_ms == r.duration_ms
    &&& t.error == r.error
    &&& match r.output {
        Some(o) => t.output_summary matches Some(s) && s@ == summary_of(json_text_of(o)),
        None => t.output_summary is None,
    }
}

/// The report of a whole execution.
pub struct ExecutionReport {
    /// A random identifier of the report.
    pub report_id: String,
    /// Whether the execution succeeded.
    pub success: bool,
    /// Total duration in milliseconds.
    pub total_duration_ms: u64,
    /// When the execution started, in milliseconds since the epoch.
    pub start_time: Option<i64>,
    /// When the execution ended, in milliseconds since the epoch.
    pub end_time: Option<i64>,
    /// The number of tasks.
    pub total_tasks: usize,
    /// The number of tasks that succeeded.
    pub succeeded_tasks: usize,
    /// The number of tasks that failed.
    pub failed_tasks: usize,
    /// The number of tasks skipped.
    pub skipped_tasks: usize,
    /// One report per task, in the order of the results.
    pub tasks: Vec<TaskReport>,
    /// What failed, when something did.
    pub error_summary: Option<String>,
}

/// The parts of a report every way of making one shares: ids, counts, task lines and the
/// error summary, for the results `rs`.
pub open spec fn reports_results(rep: ExecutionReport, rs: Seq<NodeExecutionResult>) -> bool {
    &&& rep.report_id@.len() == 36
    &&& rep.total_tasks == rs.len()
    &&& rep.succeeded_tasks == count_success(rs)
    &&& rep.failed_tasks == rs.len() - count_success(rs)
    &&& rep.skipped_tasks == 0
    &&& rep.tasks@.len() == rs.len()
    &&& forall|i: int| 0 <= i < rs.len() ==> reports(#[trigger] rep.tasks@[i], rs[i])
    &&& if rep.failed_tasks > 0 {
        rep.error_summary matches Some(m) && m@ == error_summary_of(rep.failed_tasks as nat, failure_errors(rs))
    } else {
        rep.error_summary is None
    }
}

/// The line of a task in a report's text, with its error on a line of its own.
pub open spec fn task_line(t: TaskReport) -> Seq<char> {
    "  ["@ + (if t.success { "OK"@ } else { "FAIL"@ }) + "] "@ + t.task_id@ + " ("@ + t.name@ + ") - "@
        + decimal(t.duration_ms as nat) + "ms\n"@ + match t.error {
        Some(e) => "    Error: "@ + e@ + "\n"@,
        None => Seq::empty(),
    }
}

/// The text of a report: a header with the id, the outcome, the duration and the counts,
/// then a line per task, then the error summary when there is one.
pub open spec fn report_text(r: ExecutionReport) -> Seq<char> {
    "=== Execution Report ===\n"@ + "Report ID: "@ + r.report_id@ + "\n"@ + "Success: "@ + (if r.success {
        "YES"@
    } else {
        "NO"@
    }) + "\n"@ + "Total Duration: "@ + decimal(r.total_duration_ms as nat) + "ms\n"@ + "Tasks: "@ + decimal(
        r.total_tasks as nat,
    ) + " total, "@ + decimal(r.succeeded_tasks as nat) + " succeeded, "@ + decimal(r.failed_tasks as nat)
        + " failed, "@ + decimal(r.skipped_tasks as nat) + " skipped\n"@ + "--- Task Details ---\n"@ + concat_all(
        r.tasks@.map_values(|t: TaskReport| task_line(t)),
    ) + match r.error_summary {
        Some(m) => "--- Error Summary ---\n"@ + m@ + "\n"@,
        None => Seq::empty(),
    }
}

/// Appends the line of a task.
fn push_task_line(s: &mut String, t: &TaskReport)
    ensures
        final(s)@ == old(s)@ + task_line(*t),
{
    s.append("  [");
    if t.success {
        s.append("OK");
    } else {
        s.append("FAIL");
    }
    s.append("] ");
    s.append(t.task_id.as_str());
    s.append(" (");
    s.append(t.name.as_str());
    s.append(") - ");
    push_decimal(s, t.duration_ms);
    s.append("ms\n");
    match &t.error {
        Some(e) => {
            s.append("    Error: ");
            s.append(e.as_str());
            s.append("\n");
        },
        None => {},
    }
    proof {
        let status = if t.success { "OK"@ } else { "FAIL"@ };
        let err = match &t.error {
            Some(e) => "    Error: "@ + e@ + "\n"@,
            None => Seq::<char>::empty(),
        };
        assert(final(s)@ =~= old(s)@ + ("  ["@ + status + "] "@ + t.task_id@ + " ("@ + t.name@ + ") - "@
            + decimal(t.duration_ms as nat) + "ms\n"@ + err));
    }
}

impl ExecutionReport {
    /// The report as text.
    pub fn render(&self) -> (s: String)
        ensures
            s@ == report_text(*self),
    {
        let mut s = "=== Execution Report ===\n".to_owned();
        s.append("Report ID: ");
        s.append(self.report_id.as_str());
        s.append("\n");
        s.append("Success: ");
        if self.success {
            s.append("YES");
        } else {
            s.append("NO");
        }
        s.append("\n");
        s.append("Total Duration: ");
        push_decimal(&mut s, self.total_duration_ms);
        s.append("ms\n");
        s.append("Tasks: ");
        push_decimal(&mut s, self.total_tasks as u64);
        s.append(" total, ");
        push_decimal(&mut s, self.succeeded_tasks as u64);
        s.append(" succeeded, ");
        push_decimal(&mut s, self.failed_tasks as u64);
        s.append(" failed, ");
        push_decimal(&mut s, self.skipped_tasks as u64);
        s.append(" skipped\n");
        s.append("--- Task Details ---\n");
        let ghost head = s@;
        let ghost lines = self.tasks@.map_values(|t: TaskReport| task_line(t));
        let mut i: usize = 0;
        while i < self.tasks.len()
            invariant
                i <= self.tasks@.len(),
                lines == self.tasks@.map_values(|t: TaskReport| task_line(t)),
                s@ == head + concat_all(lines.take(i as int)),
            decreases self.tasks@.len() - i,
        {
            push_task_line(&mut s, &self.tasks[i]);
            proof {
                assert(lines.take(i + 1).drop_last() =~= lines.take(i as int));
                assert(lines.take(i + 1).last() == task_line(self.tasks@[i as int]));
            }
            i = i + 1;
        }
        proof {
            assert(lines.take(i as int) =~= lines);
        }
        match &self.error_summary {
            Some(m) => {
                s.append("--- Error Summary ---\n");
                s.append(m.as_str());
                s.append("\n");
            },
            None => {},
        }
        proof {
            let status = if self.success { "YES"@ } else { "NO"@ };
            let tail = match &self.error_summary {
                Some(m) => "--- Error Summary ---\n"@ + m@ + "\n"@,
                None => Seq::<char>::empty(),
            };
            assert(s@ =~= "=== Execution Report ===\n"@ + "Report ID: "@ + self.report_id@ + "\n"@ + "Success: "@
                + status + "\n"@ + "Total Duration: "@ + decimal(self.total_duration_ms as nat) + "ms\n"@
                + "Tasks: "@ + decimal(self.total_tasks as nat) + " total, "@ + decimal(self.succeeded_tasks as nat)
                + " succeeded, "@ + decimal(self.failed_tasks as nat) + " failed, "@ + decimal(
                self.skipped_tasks as nat,
            ) + " skipped\n"@ + "--- Task Details ---\n"@ + concat_all(lines) + tail);
        }
        s
    }
}

/// An output's text as a report shows it: cut after 200 bytes, with `...` added.
pub fn output_summary(text: &str) -> (s: String)
    requires
        summary_fits(text@),
    ensures
        s@ == summary_of(text@),
{
    let byte_len = text.as_bytes().len();
    if byte_len > SUMMARY_LIMIT {
        let (head, _) = text.split_at(SUMMARY_LIMIT);
        let mut s = head.to_owned();
        s.append("...");
        proof {
            broadcast use vstd::utf8::encode_utf8_decode_utf8;
            assert(head.spec_bytes() == encode_utf8(head@));
            assert(decode_utf8(encode_utf8(head@)) == head@);
        }
        s
    } else {
        text.to_owned()
    }
}

/// Whether an output's text can be summarized.
fn summary_fits_text(text: &str) -> (b: bool)
    ensures
        b == summary_fits(text@),
{
    let byte_len = text.as_bytes().len();
    if byte_len > SUMMARY_LIMIT {
        text.is_char_boundary(SUMMARY_LIMIT)
    } else {
        true
    }
}

/// The report of one result.
fn task_report(r: &NodeExecutionResult) -> (t: TaskReport)
    requires
        output_fits(*r),
    ensures
        reports(t, *r),
{
    let output_summary = match &r.output {
        Some(o) => {
            let text = json_text(o);
            Some(output_summary(text.as_str()))
        },
        None => None,
    };
    let error = match &r.error {
        Some(e) => Some(e.clone()),
        None => None,
    };
    TaskReport {
        task_id: r.task_id.clone(),
        name: r.name.clone(),
        success: r.success,
        duration_ms: r.duration_ms,
        error,
        output_summary,
    }
}

/// Makes reports.
pub struct ReportGenerator;

impl ReportGenerator {
    /// The task lines of the results, in order.
    fn task_reports(rs: &[NodeExecutionResult]) -> (ts: Vec<TaskReport>)
        requires
            outputs_fit(rs@),
        ensures
            ts@.len() == rs@.len(),
            forall|i: int| 0 <= i < rs@.len() ==> reports(#[trigger] ts@[i], rs@[i]),
    {
        let mut ts: Vec<TaskReport> = Vec::new();
        let mut i: usize = 0;
        while i < rs.len()
            invariant
                i <= rs@.len(),
                outputs_fit(rs@),
                ts@.len() == i,
                forall|j: int| 0 <= j < i ==> reports(#[trigger] ts@[j], rs@[j]),
            decreases rs@.len() - i,
        {
            proof {
                assert(output_fits(rs@[i as int]));
            }
            ts.push(task_report(&rs[i]));
            i = i + 1;
        }
        ts
    }

    /// The error messages of the failed results that carry one, in order.
    fn failure_messages(rs: &[NodeExecutionResult]) -> (es: Vec<String>)
        ensures
            views_of(es@) == failure_errors(rs@),
    {
        let mut es: Vec<String> = Vec::new();
        let mut i: usize = 0;
        while i < rs.len()
            invariant
                i <= rs@.len(),
                views_of(es@) == failure_errors(rs@.take(i as int)),
            decreases rs@.len() - i,
        {
            let ghost before = es@;
            proof {
                assert(rs@.take(i + 1).drop_last() =~= rs@.take(i as int));
            }
            if !rs[i].success {
                match &rs[i].error {
                    Some(e) => {
                        es.push(e.clone());
                        proof {
                            assert(views_of(es@) =~= views_of(before).push(e@));
                        }
                    },
                    None => {},
                }
            }
            i = i + 1;
        }
        proof {
            assert(rs@.take(i as int) =~= rs@);
        }
        es
    }

    /// The error summary for `failed` failures among `rs`.
    fn error_summary(failed: usize, rs: &[NodeExecutionResult]) -> (s: Option<String>)
        ensures
            failed > 0 ==> (s matches Some(m) && m@ == error_summary_of(failed as nat, failure_errors(rs@))),
            failed == 0 ==> s is None,
    {
        if failed > 0 {
            let errors = Self::failure_messages(rs);
            let mut m = String::new();
            push_decimal(&mut m, failed as u64);
            m.append(" tasks failed: ");
            let j = join(&errors, "; ");
            m.append(j.as_str());
            proof {
                assert(m@ == Seq::<char>::empty() + decimal(failed as nat) + " tasks failed: "@ + joined(failure_errors(rs@), "; "@));
                assert(Seq::<char>::empty() + decimal(failed as nat) =~= decimal(failed as nat));
            }
            Some(m)
        } else {
            None
        }
    }

    /// The sum of the results' durations.
    fn sum_durations(rs: &[NodeExecutionResult]) -> (t: u64)
        requires
            total_duration(rs@) <= u64::MAX,
        ensures
            t == total_duration(rs@),
    {
        let mut t: u64 = 0;
        let mut i: usize = 0;
        while i < rs.len()
            invariant
                i <= rs@.len(),
                total_duration(rs@) <= u64::MAX,
                t == total_duration(rs@.take(i as int)),
            decreases rs@.len() - i,
        {
            proof {
                assert(rs@.take(i + 1).drop_last() =~= rs@.take(i as int));
                lemma_total_duration_prefix(rs@, i + 1);
            }
            t = t + rs[i].duration_ms;
            i = i + 1;
        }
        proof {
            assert(rs@.take(i as int) =~= rs@);
        }
        t
    }

    /// Reports on the results of a strategy run: its success, duration and times, and a line
    /// per node result.
    pub fn from_execution_result(result: &ExecutionResult) -> (rep: ExecutionReport)
        requires
            outputs_fit(result.node_results@),
        ensures
            reports_results(rep, result.node_results@),
            rep.success == result.success,
            rep.total_duration_ms == result.total_duration_ms,
            rep.start_time == Some(result.start_time),
            rep.end_time == Some(result.end_time),
    {
        let rs = result.node_results.as_slice();
        let succeeded = success_count_of(rs);
        proof {
            lemma_count_success_bound(rs@);
        }
        let failed = rs.len() - succeeded;
        let tasks = Self::task_reports(rs);
        let error_summary = Self::error_summary(failed, rs);
        ExecutionReport {
            report_id: new_uuid(),
            success: result.success,
            total_duration_ms: result.total_duration_ms,
            start_time: Some(result.start_time),
            end_time: Some(result.end_time),
            total_tasks: rs.len(),
            succeeded_tasks: succeeded,
            failed_tasks: failed,
            skipped_tasks: 0,
            tasks,
            error_summary,
        }
    }

    /// Reports on node results: successful when none failed, the durations summed, the start
    /// of the first and the end of the last (now, when the last has none).
    pub fn from_node_results(results: &[NodeExecutionResult]) -> (rep: ExecutionReport)
        requires
            outputs_fit(results@),
            total_duration(results@) <= u64::MAX,
        ensures
            reports_results(rep, results@),
            rep.success == (rep.failed_tasks == 0),
            rep.total_duration_ms == total_duration(results@),
            rep.start_time == if results@.len() > 0 { results@[0].start_time } else { None },
            results@.len() > 0 && results@.last().end_time is Some ==> rep.end_time == results@.last().end_time,
            !(results@.len() > 0 && results@.last().end_time is Some) ==> (rep.end_time matches Some(t)
                && timestamp_in_range(t as int)),
    {
        let succeeded = success_count_of(results);
        proof {
            lemma_count_success_bound(results@);
        }
        let failed = results.len() - succeeded;
        let total = Self::sum_durations(results);
        let now = now_millis();
        let tasks = Self::task_reports(results);
        let error_summary = Self::error_summary(failed, results);
        let n = results.len();
        let start_time = if n > 0 { results[0].start_time } else { None };
        let end_time = if n > 0 {
            match results[n - 1].end_time {
                Some(t) => Some(t),
                None => Some(now),
            }
        } else {
            Some(now)
        };
        ExecutionReport {
            report_id: new_uuid(),
            success: failed == 0,
            total_duration_ms: total,
            start_time,
            end_time,
            total_tasks: n,
            succeeded_tasks: succeeded,
            failed_tasks: failed,
            skipped_tasks: 0,
            tasks,
            error_summary,
        }
    }

    /// Reports on node results as [`ReportGenerator::from_node_results`] does, when every
    /// output can be summarized and the durations add up within range; `None` otherwise.
    pub fn try_from_node_results(results: &[NodeExecutionResult]) -> (r: Option<ExecutionReport>)
        ensures
            r is Some <==> (outputs_fit(results@) && total_duration(results@) <= u64::MAX),
            r matches Some(rep) ==> reports_results(rep, results@) && rep.total_duration_ms == total_duration(results@),
    {
        let mut i: usize = 0;
        let mut total: u64 = 0;
        while i < results.len()
            invariant
                i <= results@.len(),
                forall|j: int| 0 <= j < i ==> output_fits(#[trigger] results@[j]),
                total == total_duration(results@.take(i as int)),
            decreases results@.len() - i,
        {
            match &results[i].output {
                Some(o) => {
                    let text = json_text(o);
                    if !summary_fits_text(text.as_str()) {
                        proof {
                            assert(!outputs_fit(results@)) by {
                                assert(!output_fits(results@[i as int]));
                            }
                        }
                        return None;
                    }
                },
                None => {},
            }
            proof {
                assert(results@.take(i + 1).drop_last() =~= results@.take(i as int));
            }
            if results[i].duration_ms > u64::MAX - total {
                proof {
                    lemma_total_duration_prefix(results@, i + 1);
                    lemma_total_duration_prefix(results@, results@.len() as int);
                    assert(results@.take(results@.len() as int) =~= results@);
                }
                return None;
            }
            total = total + results[i].duration_ms;
            i = i + 1;
        }
        proof {
            assert(results@.take(i as int) =~= results@);
        }
        Some(Self::from_node_results(results))
    }
}

/// Sums over prefixes grow.
proof fn lemma_total_duration_prefix(rs: Seq<NodeExecutionResult>, k: int)
    requires
        0 <= k <= rs.len(),
    ensures
        total_duration(rs.take(k)) <= total_duration(rs),
    decreases rs.len() - k,
{
    if k < rs.len() {
        lemma_total_duration_prefix(rs, k + 1);
        assert(rs.take(k + 1).drop_last() =~= rs.take(k));
    } else {
        assert(rs.take(k) =~= rs);
    }
}

} // verus!
