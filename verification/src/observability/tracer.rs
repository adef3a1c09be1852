//! Spans: timed, named pieces of work with attributes, events and a status.

use vstd::prelude::*;
use crate::assoc::{copy_text_map, StrMap};
use crate::text::{concat_all, decimal, push_char, push_decimal};
use crate::foreign::{new_uuid, now_millis, timestamp_in_range};

verus! {

/// Something that records spans. Implementations keep spans where they like.
pub trait Tracer: Send + Sync {
    /// Starts a span named `name`.
    fn start_span(&self, name: &str) -> Span;

    /// Ends `span` and records it.
    fn end_span(&self, span: &mut Span);

    /// Records an event outside any span.
    fn event(&self, name: &str, attributes: Option<StrMap<String>>);
}

/// How a span ended.
#[derive(Debug, Clone, Copy, PartialEq, Eq, Structural)]
pub enum SpanStatus {
    /// Not set.
    Unset,
    /// It succeeded.
    Succeeded,
    /// It failed.
    Error,
}

impl Default for SpanStatus {
    fn default() -> (s: Self)
        ensures
            s == SpanStatus::Unset,
    {
        SpanStatus::Unset
    }
}

/// Something that happened during a span.
pub struct SpanEvent {
    /// Event name.
    pub name: String,
    /// When it happened, in milliseconds since the epoch.
    pub timestamp: i64,
    /// Its attributes.
    pub attributes: StrMap<String>,
}

/// A timed, named piece of work.
pub struct Span {
    /// A random identifier of the span.
    pub span_id: String,
    /// The trace the span belongs to.
    pub trace_id: String,
    /// Span name.
    pub name: String,
    /// When it started, in milliseconds since the epoch.
    pub start_time: Option<i64>,
    /// When it ended, in milliseconds since the epoch.
    pub end_time: Option<i64>,
    /// How long it took, in milliseconds.
    pub duration_ms: Option<u64>,
    /// Its attributes.
    pub attributes: StrMap<String>,
    /// How it ended.
    pub status: SpanStatus,
    /// What happened during it, in order.
    pub events: Vec<SpanEvent>,
}

impl Span {
    /// A span named `name` in trace `trace_id`, starting now.
    pub fn new(name: &str, trace_id: &str) -> (s: Self)
        ensures
            s.span_id@.len() == 36,
            s.trace_id@ == trace_id@,
            s.name@ == name@,
            s.start_time matches Some(t) && timestamp_in_range(t as int),
            s.end_time is None,
            s.duration_ms is None,
            s.attributes@ == Map::<Seq<char>, String>::empty(),
            s.status == SpanStatus::Unset,
            s.events@.len() == 0,
    {
        let attributes = StrMap::new();
        proof {
            assert(attributes@ =~= Map::<Seq<char>, String>::empty());
        }
        Span {
            span_id: new_uuid(),
            trace_id: trace_id.to_owned(),
            name: name.to_owned(),
            start_time: Some(now_millis()),
            end_time: None,
            duration_ms: None,
            attributes,
            status: SpanStatus::Unset,
            events: Vec::new(),
        }
    }

    /// Sets an attribute.
    pub fn set_attribute(&mut self, key: &str, value: &str)
        ensures
            final(self).attributes@ == old(self).attributes@.insert(key@, final(self).attributes@[key@]),
            final(self).attributes@[key@]@ == value@,
            final(self).span_id == old(self).span_id,
            final(self).trace_id == old(self).trace_id,
            final(self).name == old(self).name,
            final(self).start_time == old(self).start_time,
            final(self).end_time == old(self).end_time,
            final(self).duration_ms == old(self).duration_ms,
            final(self).status == old(self).status,
            final(self).events == old(self).events,
    {
        let _ = self.attributes.insert(key.to_owned(), value.to_owned());
    }

    /// Records an event, happening now.
    pub fn add_event(&mut self, name: &str, attributes: StrMap<String>)
        ensures
            final(self).events@.len() == old(self).events@.len() + 1,
            final(self).events@.drop_last() == old(self).events@,
            final(self).events@.last().name@ == name@,
            final(self).events@.last().attributes == attributes,
            timestamp_in_range(final(self).events@.last().timestamp as int),
            final(self).span_id == old(self).span_id,
            final(self).trace_id == old(self).trace_id,
            final(self).name == old(self).name,
            final(self).attributes == old(self).attributes,
            final(self).status == old(self).status,
            final(self).start_time == old(self).start_time,
            final(self).end_time == old(self).end_time,
            final(self).duration_ms == old(self).duration_ms,
    {
        let ev = SpanEvent { name: name.to_owned(), timestamp: now_millis(), attributes };
        self.events.push(ev);
        proof {
            assert(self.events@.drop_last() =~= old(self).events@);
        }
    }

    /// Marks the span successful.
    pub fn ok(&mut self)
        ensures
            final(self).status == SpanStatus::Succeeded,
            final(self).span_id == old(self).span_id,
            final(self).trace_id == old(self).trace_id,
            final(self).name == old(self).name,
            final(self).attributes == old(self).attributes,
            final(self).events == old(self).events,
            final(self).start_time == old(self).start_time,
            final(self).end_time == old(self).end_time,
            final(self).duration_ms == old(self).duration_ms,
    {
        self.status = SpanStatus::Succeeded;
    }

    /// Marks the span failed, keeping `message` as its `error` attribute.
    pub fn error(&mut self, message: &str)
        ensures
            final(self).status == SpanStatus::Error,
            final(self).attributes@ == old(self).attributes@.insert("error"@, final(self).attributes@["error"@]),
            final(self).attributes@["error"@]@ == message@,
            final(self).span_id == old(self).span_id,
            final(self).trace_id == old(self).trace_id,
            final(self).name == old(self).name,
            final(self).events == old(self).events,
            final(self).start_time == old(self).start_time,
            final(self).end_time == old(self).end_time,
            final(self).duration_ms == old(self).duration_ms,
    {
        self.status = SpanStatus::Error;
        self.set_attribute("error", message);
    }

    /// Ends the span now; with a start time, its duration is the time since then.
    pub fn end(&mut self)
        requires
            old(self).start_time matches Some(s) ==> timestamp_in_range(s as int),
        ensures
            final(self).end_time matches Some(t) && timestamp_in_range(t as int) && match old(self).start_time {
                Some(s) => final(self).duration_ms == Some((t - s) as u64),
                None => final(self).duration_ms == old(self).duration_ms,
            },
            final(self).start_time == old(self).start_time,
            final(self).attributes == old(self).attributes,
            final(self).events == old(self).events,
            final(self).status == old(self).status,
            final(self).span_id == old(self).span_id,
            final(self).trace_id == old(self).trace_id,
            final(self).name == old(self).name,
    {
        let now = now_millis();
        self.end_time = Some(now);
        match self.start_time {
            Some(start) => {
                self.duration_ms = Some((now - start) as u64);
            },
            None => {},
        }
    }

    /// Whether the span has ended.
    pub fn is_finished(&self) -> (b: bool)
        ensures
            b == self.end_time is Some,
    {
        self.end_time.is_some()
    }
}

/// What a copy of a span keeps: every field, attributes and events entry by entry.
pub open spec fn same_span(a: Span, b: Span) -> bool {
    &&& a.span_id@ == b.span_id@
    &&& a.trace_id@ == b.trace_id@
    &&& a.name@ == b.name@
    &&& a.start_time == b.start_time
    &&& a.end_time == b.end_time
    &&& a.duration_ms == b.duration_ms
    &&& a.attributes.pairs() == b.attributes.pairs()
    &&& a.status == b.status
    &&& a.events@.len() == b.events@.len()
    &&& forall|i: int| 0 <= i < a.events@.len() ==> same_event(#[trigger] a.events@[i], b.events@[i])
}

/// What a copy of an event keeps.
pub open spec fn same_event(a: SpanEvent, b: SpanEvent) -> bool {
    &&& a.name@ == b.name@
    &&& a.timestamp == b.timestamp
    &&& a.attributes.pairs() == b.attributes.pairs()
}

impl Clone for SpanEvent {
    fn clone(&self) -> (e: Self)
        ensures
            same_event(e, *self),
    {
        SpanEvent { name: self.name.clone(), timestamp: self.timestamp, attributes: copy_text_map(&self.attributes) }
    }
}

impl Clone for Span {
    fn clone(&self) -> (c: Self)
        ensures
            same_span(c, *self),
    {
        let mut events: Vec<SpanEvent> = Vec::new();
        let mut i: usize = 0;
        while i < self.events.len()
            invariant
                i <= self.events@.len(),
                events@.len() == i,
                forall|j: int| 0 <= j < i ==> same_event(#[trigger] events@[j], self.events@[j]),
            decreases self.events@.len() - i,
        {
            events.push(self.events[i].clone());
            i = i + 1;
        }
        Span {
            span_id: self.span_id.clone(),
            trace_id: self.trace_id.clone(),
            name: self.name.clone(),
            start_time: self.start_time,
            end_time: self.end_time,
            duration_ms: self.duration_ms,
            attributes: copy_text_map(&self.attributes),
            status: self.status,
            events,
        }
    }
}

/// The label of a status in a trace report.
pub open spec fn status_label(s: SpanStatus) -> Seq<char> {
    match s {
        SpanStatus::Succeeded => "OK"@,
        SpanStatus::Error => "ERROR"@,
        SpanStatus::Unset => "UNSET"@,
    }
}

/// The first `n` characters of `s`, or all of it when it is shorter.
pub open spec fn first_chars(s: Seq<char>, n: nat) -> Seq<char> {
    if s.len() <= n {
        s
    } else {
        s.take(n as int)
    }
}

/// The line of a span in a trace report: status, name, duration and the start of its id.
pub open spec fn span_line(sp: Span) -> Seq<char> {
    "  ["@ + status_label(sp.status) + "] "@ + sp.name@ + " ("@ + decimal(
        match sp.duration_ms {
            Some(d) => d as nat,
            None => 0nat,
        },
    ) + "ms) "@ + first_chars(sp.span_id@, 8) + "\n"@
}

/// The text of a trace report: the counts, then a line per span.
pub open spec fn trace_text(r: TraceReport) -> Seq<char> {
    "=== Trace Report ===\n"@ + "Total Spans: "@ + decimal(r.total_spans as nat) + "\n"@ + "Error Spans: "@
        + decimal(r.error_spans as nat) + "\n"@ + "Total Duration: "@ + decimal(r.total_duration_ms as nat)
        + "ms\n"@ + "--- Spans ---\n"@ + concat_all(r.spans@.map_values(|sp: Span| span_line(sp)))
}

/// Appends the first `n` characters of `s`.
fn push_first_chars(out: &mut String, s: &str, n: usize)
    ensures
        final(out)@ == old(out)@ + first_chars(s@, n as nat),
{
    let mut count: usize = 0;
    for ch in it: s.chars()
        invariant
            it.seq() == s@,
            count == if it.index() <= n { it.index() } else { n as int },
            out@ == old(out)@ + first_chars(s@.take(it.index() as int), n as nat),
    {
        proof {
            assert(s@[it.index() as int] == ch);
            assert(s@.take(it.index() + 1) =~= s@.take(it.index() as int).push(ch));
        }
        if count < n {
            push_char(out, ch);
            count = count + 1;
            proof {
                assert(first_chars(s@.take(it.index() + 1), n as nat) =~= first_chars(
                    s@.take(it.index() as int),
                    n as nat,
                ).push(ch));
            }
        } else {
            proof {
                assert(first_chars(s@.take(it.index() + 1), n as nat) =~= first_chars(
                    s@.take(it.index() as int),
                    n as nat,
                ));
            }
        }
    }
    proof {
        assert(s@.take(s@.len() as int) =~= s@);
    }
}

/// Appends the line of a span.
fn push_span_line(out: &mut String, sp: &Span)
    ensures
        final(out)@ == old(out)@ + span_line(*sp),
{
    out.append("  [");
    match sp.status {
        SpanStatus::Succeeded => out.append("OK"),
        SpanStatus::Error => out.append("ERROR"),
        SpanStatus::Unset => out.append("UNSET"),
    }
    out.append("] ");
    out.append(sp.name.as_str());
    out.append(" (");
    let d = match sp.duration_ms {
        Some(d) => d,
        None => 0,
    };
    push_decimal(out, d);
    out.append("ms) ");
    push_first_chars(out, sp.span_id.as_str(), 8);
    out.append("\n");
    proof {
        assert(final(out)@ =~= old(out)@ + ("  ["@ + status_label(sp.status) + "] "@ + sp.name@ + " ("@
            + decimal(d as nat) + "ms) "@ + first_chars(sp.span_id@, 8) + "\n"@));
    }
}

/// The number of spans with status `Error`.
pub open spec fn error_count(spans: Seq<Span>) -> nat
    decreases spans.len(),
{
    if spans.len() == 0 {
        0
    } else {
        error_count(spans.drop_last()) + if spans.last().status == SpanStatus::Error { 1nat } else { 0nat }
    }
}

/// The sum of the known span durations.
pub open spec fn duration_sum(spans: Seq<Span>) -> nat
    decreases spans.len(),
{
    if spans.len() == 0 {
        0
    } else {
        duration_sum(spans.drop_last()) + match spans.last().duration_ms {
            Some(d) => d as nat,
            None => 0nat,
        }
    }
}

/// A summary of recorded spans.
pub struct TraceReport {
    /// The number of spans.
    pub total_spans: usize,
    /// The number of failed spans.
    pub error_spans: usize,
    /// The sum of the span durations, in milliseconds.
    pub total_duration_ms: u64,
    /// The spans, in the order they were recorded.
    pub spans: Vec<Span>,
}

impl TraceReport {
    /// Summarizes recorded spans: how many, how many failed, and their total duration.
    pub fn from_spans(spans: Vec<Span>) -> (r: Self)
        requires
            duration_sum(spans@) <= u64::MAX,
        ensures
            r.total_spans == spans@.len(),
            r.error_spans == error_count(spans@),
            r.total_duration_ms == duration_sum(spans@),
            r.spans == spans,
    {
        let mut errors: usize = 0;
        let mut total: u64 = 0;
        let mut i: usize = 0;
        while i < spans.len()
            invariant
                i <= spans@.len(),
                duration_sum(spans@) <= u64::MAX,
                errors == error_count(spans@.take(i as int)),
                errors <= i,
                total == duration_sum(spans@.take(i as int)),
            decreases spans@.len() - i,
        {
            proof {
                assert(spans@.take(i + 1).drop_last() =~= spans@.take(i as int));
                lemma_duration_sum_prefix(spans@, i + 1);
            }
            if spans[i].status == SpanStatus::Error {
                errors = errors + 1;
            }
            match spans[i].duration_ms {
                Some(d) => {
                    total = total + d;
                },
                None => {},
            }
            i = i + 1;
        }
        proof {
            assert(spans@.take(i as int) =~= spans@);
        }
        TraceReport { total_spans: spans.len(), error_spans: errors, total_duration_ms: total, spans }
    }

    /// The report as text.
    pub fn render(&self) -> (s: String)
        ensures
            s@ == trace_text(*self),
    {
        let mut s = "=== Trace Report ===\n".to_owned();
        s.append("Total Spans: ");
        push_decimal(&mut s, self.total_spans as u64);
        s.append("\n");
        s.append("Error Spans: ");
        push_decimal(&mut s, self.error_spans as u64);
        s.append("\n");
        s.append("Total Duration: ");
        push_decimal(&mut s, self.total_duration_ms);
        s.append("ms\n");
        s.append("--- Spans ---\n");
        let ghost head = s@;
        let ghost lines = self.spans@.map_values(|sp: Span| span_line(sp));
        let mut i: usize = 0;
        while i < self.spans.len()
            invariant
                i <= self.spans@.len(),
                lines == self.spans@.map_values(|sp: Span| span_line(sp)),
                s@ == head + concat_all(lines.take(i as int)),
            decreases self.spans@.len() - i,
        {
            push_span_line(&mut s, &self.spans[i]);
            proof {
                assert(lines.take(i + 1).drop_last() =~= lines.take(i as int));
            }
            i = i + 1;
        }
        proof {
            assert(lines.take(i as int) =~= lines);
            assert(s@ =~= "=== Trace Report ===\n"@ + "Total Spans: "@ + decimal(self.total_spans as nat) + "\n"@
                + "Error Spans: "@ + decimal(self.error_spans as nat) + "\n"@ + "Total Duration: "@ + decimal(
                self.total_duration_ms as nat,
            ) + "ms\n"@ + "--- Spans ---\n"@ + concat_all(lines));
        }
        s
    }
}

/// Spans in the same positions are copies of each other.
pub open spec fn same_spans(a: Seq<Span>, b: Seq<Span>) -> bool {
    a.len() == b.len() && forall|i: int| 0 <= i < a.len() ==> same_span(#[trigger] a[i], b[i])
}

/// Copies have the same counts.
proof fn lemma_same_spans_counts(a: Seq<Span>, b: Seq<Span>)
    requires
        same_spans(a, b),
    ensures
        error_count(a) == error_count(b),
        duration_sum(a) == duration_sum(b),
    decreases a.len(),
{
    if a.len() > 0 {
        assert(same_span(a[a.len() - 1], b[b.len() - 1]));
        lemma_same_spans_counts(a.drop_last(), b.drop_last());
    }
}

/// The spans named `name`, in order.
pub open spec fn named_spans(spans: Seq<Span>, name: Seq<char>) -> Seq<Span>
    decreases spans.len(),
{
    if spans.len() == 0 {
        Seq::empty()
    } else {
        let prev = named_spans(spans.drop_last(), name);
        if spans.last().name@ == name {
            prev.push(spans.last())
        } else {
            prev
        }
    }
}

/// Keeps finished spans in the order they finished, and the trace new spans belong to.
pub struct SpanRecorder {
    spans: Vec<Span>,
    current_trace_id: Option<String>,
}

impl SpanRecorder {
    /// The finished spans, in order.
    pub closed spec fn recorded(&self) -> Seq<Span> {
        self.spans@
    }

    /// The trace new spans join, once set.
    pub closed spec fn trace_of(&self) -> Option<Seq<char>> {
        match self.current_trace_id {
            Some(t) => Some(t@),
            None => None,
        }
    }

    /// No spans and no trace set.
    pub fn new() -> (r: Self)
        ensures
            r.recorded() == Seq::<Span>::empty(),
            r.trace_of() is None,
    {
        SpanRecorder { spans: Vec::new(), current_trace_id: None }
    }

    /// Starts a span named `name`: in the current trace, or in a fresh random one when no
    /// trace is set.
    pub fn create_span(&self, name: &str) -> (s: Span)
        ensures
            self.trace_of() matches Some(t) ==> s.trace_id@ == t,
            self.trace_of() is None ==> s.trace_id@.len() == 36,
            s.span_id@.len() == 36,
            s.name@ == name@,
            s.start_time matches Some(t) && timestamp_in_range(t as int),
            s.end_time is None,
            s.duration_ms is None,
            s.attributes@ == Map::<Seq<char>, String>::empty(),
            s.status == SpanStatus::Unset,
            s.events@.len() == 0,
    {
        let trace_id = match &self.current_trace_id {
            Some(t) => t.clone(),
            None => new_uuid(),
        };
        Span::new(name, trace_id.as_str())
    }

    /// Ends `span` and records a copy of it.
    pub fn finish_span(&mut self, span: &mut Span)
        requires
            old(span).start_time matches Some(s) ==> timestamp_in_range(s as int),
        ensures
            final(span).end_time matches Some(t) && timestamp_in_range(t as int) && match old(span).start_time {
                Some(s) => final(span).duration_ms == Some((t - s) as u64),
                None => final(span).duration_ms == old(span).duration_ms,
            },
            final(span).start_time == old(span).start_time,
            final(span).status == old(span).status,
            final(self).recorded().len() == old(self).recorded().len() + 1,
            final(self).recorded().drop_last() == old(self).recorded(),
            same_span(final(self).recorded().last(), *final(span)),
            final(self).trace_of() == old(self).trace_of(),
    {
        span.end();
        self.spans.push(span.clone());
        proof {
            assert(self.spans@.drop_last() =~= old(self).spans@);
        }
    }

    /// Makes new spans join trace `trace_id`.
    pub fn set_trace_id(&mut self, trace_id: &str)
        ensures
            final(self).trace_of() == Some(trace_id@),
            final(self).recorded() == old(self).recorded(),
    {
        self.current_trace_id = Some(trace_id.to_owned());
    }

    /// Copies of the recorded spans.
    pub fn spans(&self) -> (r: Vec<Span>)
        ensures
            same_spans(r@, self.recorded()),
    {
        let mut r: Vec<Span> = Vec::new();
        let mut i: usize = 0;
        while i < self.spans.len()
            invariant
                i <= self.spans@.len(),
                r@.len() == i,
                forall|j: int| 0 <= j < i ==> same_span(#[trigger] r@[j], self.spans@[j]),
            decreases self.spans@.len() - i,
        {
            r.push(self.spans[i].clone());
            i = i + 1;
        }
        r
    }

    /// Copies of the recorded spans named `name`, in order.
    pub fn spans_by_name(&self, name: &str) -> (r: Vec<Span>)
        ensures
            same_spans(r@, named_spans(self.recorded(), name@)),
    {
        let wanted = name.to_owned();
        let mut r: Vec<Span> = Vec::new();
        let mut i: usize = 0;
        while i < self.spans.len()
            invariant
                i <= self.spans@.len(),
                wanted@ == name@,
                same_spans(r@, named_spans(self.spans@.take(i as int), name@)),
            decreases self.spans@.len() - i,
        {
            proof {
                assert(self.spans@.take(i + 1).drop_last() =~= self.spans@.take(i as int));
            }
            if self.spans[i].name == wanted {
                r.push(self.spans[i].clone());
            }
            i = i + 1;
        }
        proof {
            assert(self.spans@.take(i as int) =~= self.spans@);
        }
        r
    }

    /// Forgets the recorded spans; the trace stays.
    pub fn clear(&mut self)
        ensures
            final(self).recorded() == Seq::<Span>::empty(),
            final(self).trace_of() == old(self).trace_of(),
    {
        self.spans.clear();
        proof {
            assert(self.spans@ =~= Seq::<Span>::empty());
        }
    }

    /// The number of recorded spans.
    pub fn span_count(&self) -> (n: usize)
        ensures
            n == self.recorded().len(),
    {
        self.spans.len()
    }

    /// A report on the recorded spans: their number, how many failed, their total duration,
    /// and copies of them.
    pub fn report(&self) -> (r: TraceReport)
        requires
            duration_sum(self.recorded()) <= u64::MAX,
        ensures
            r.total_spans == self.recorded().len(),
            r.error_spans == error_count(self.recorded()),
            r.total_duration_ms == duration_sum(self.recorded()),
            same_spans(r.spans@, self.recorded()),
    {
        let copies = self.spans();
        proof {
            lemma_same_spans_counts(copies@, self.spans@);
        }
        TraceReport::from_spans(copies)
    }

    /// The report of [`SpanRecorder::report`], when the durations add up within range;
    /// `None` otherwise.
    pub fn checked_report(&self) -> (r: Option<TraceReport>)
        ensures
            r is Some <==> duration_sum(self.recorded()) <= u64::MAX,
            r matches Some(rep) ==> {
                &&& rep.total_spans == self.recorded().len()
                &&& rep.error_spans == error_count(self.recorded())
                &&& rep.total_duration_ms == duration_sum(self.recorded())
                &&& same_spans(rep.spans@, self.recorded())
            },
    {
        let mut total: u64 = 0;
        let mut i: usize = 0;
        while i < self.spans.len()
            invariant
                i <= self.spans@.len(),
                total == duration_sum(self.spans@.take(i as int)),
            decreases self.spans@.len() - i,
        {
            proof {
                assert(self.spans@.take(i + 1).drop_last() =~= self.spans@.take(i as int));
            }
            match self.spans[i].duration_ms {
                Some(d) => {
                    if d > u64::MAX - total {
                        proof {
                            lemma_duration_sum_prefix(self.spans@, i + 1);
                        }
                        return None;
                    }
                    total = total + d;
                },
                None => {},
            }
            i = i + 1;
        }
        proof {
            assert(self.spans@.take(i as int) =~= self.spans@);
        }
        Some(self.report())
    }
}

/// Sums over prefixes grow.
proof fn lemma_duration_sum_prefix(spans: Seq<Span>, k: int)
    requires
        0 <= k <= spans.len(),
    ensures
        duration_sum(spans.take(k)) <= duration_sum(spans),
    decreases spans.len() - k,
{
    if k < spans.len() {
        lemma_duration_sum_prefix(spans, k + 1);
        assert(spans.take(k + 1).drop_last() =~= spans.take(k));
    } else {
        assert(spans.take(k) =~= spans);
    }
}

} // verus!
