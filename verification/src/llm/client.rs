//! A scripted LLM client, and the pieces of streamed answers.

use vstd::prelude::*;
use super::response::{LLMResponse, TokenUsage};
use crate::error::{recoverable, Error};
use crate::text::{decimal, push_decimal};

verus! {

/// A piece of a streamed answer.
pub struct StreamChunk {
    /// The text of the piece.
    pub content: String,
    /// Why the answer ended, on the last piece.
    pub finish_reason: Option<String>,
    /// The tokens used, on the last piece.
    pub usage: Option<TokenUsage>,
}

/// A client that answers every request with the same text, or always fails.
pub struct MockLLMClient {
    response_content: String,
    should_fail: bool,
}

impl MockLLMClient {
    /// The text the client answers with.
    pub closed spec fn content(&self) -> Seq<char> {
        self.response_content@
    }

    /// Whether every request fails.
    pub closed spec fn fails(&self) -> bool {
        self.should_fail
    }

    /// A client answering `response_content`.
    pub fn new(response_content: &str) -> (c: Self)
        ensures
            c.content() == response_content@,
            !c.fails(),
    {
        MockLLMClient { response_content: response_content.to_owned(), should_fail: false }
    }

    /// A client whose every request fails.
    pub fn failing() -> (c: Self)
        ensures
            c.content() == Seq::<char>::empty(),
            c.fails(),
    {
        MockLLMClient { response_content: String::new(), should_fail: true }
    }

    /// The answer to a request for `model`: the scripted text, finished with `stop`, using 10
    /// prompt and 5 completion tokens; or, for a failing client, an LLM error.
    pub fn reply(&self, model: &str) -> (r: Result<LLMResponse, Error>)
        ensures
            self.fails() ==> (r matches Err(Error::LLMCall(m)) && m@ == "Mock LLM client error"@),
            !self.fails() ==> (r matches Ok(resp) && resp.content@ == self.content() && resp.model@ == model@
                && (resp.finish_reason matches Some(f) && f@ == "stop"@) && resp.usage == (TokenUsage {
                prompt_tokens: 10,
                completion_tokens: 5,
                total_tokens: 15,
            }) && resp.metadata is None),
    {
        if self.should_fail {
            return Err(Error::LLMCall("Mock LLM client error".to_owned()));
        }
        Ok(LLMResponse {
            content: self.response_content.clone(),
            usage: TokenUsage::new(10, 5),
            model: model.to_owned(),
            finish_reason: Some("stop".to_owned()),
            metadata: None,
        })
    }
}

/// How one attempt at an LLM call ended.
pub enum AttemptOutcome {
    /// It answered.
    Answered,
    /// It failed with an error.
    Failed(Error),
    /// It did not answer in time.
    TimedOut,
}

/// What a client does after an attempt.
pub enum AttemptStep {
    /// Hand the answer back.
    Done,
    /// Wait, then try again; the error is kept in case no attempt succeeds.
    Retry(Error),
    /// Give up with this error.
    GiveUp(Error),
}

/// The error of an attempt that timed out.
pub open spec fn timeout_message(timeout_secs: u64, attempt: u32, max_retries: u32) -> Seq<char> {
    "LLM request timed out after "@ + decimal(timeout_secs as nat) + "s (attempt "@ + decimal((attempt + 1) as nat)
        + "/"@ + decimal((max_retries + 1) as nat) + ")"@
}

/// Decides what follows attempt number `attempt` (from zero) of a call allowed `max_retries`
/// retries with a timeout of `timeout_secs` seconds: an answer ends the call; an error is
/// retried while attempts remain if it is recoverable; a timeout is retried while attempts
/// remain; otherwise the call fails with the error.
pub fn attempt_step(attempt: u32, max_retries: u32, timeout_secs: u64, outcome: AttemptOutcome) -> (s: AttemptStep)
    requires
        attempt <= max_retries,
        max_retries < u32::MAX,
    ensures
        outcome is Answered ==> s is Done,
        outcome matches AttemptOutcome::Failed(e) ==> if recoverable(e) && attempt < max_retries {
            s == AttemptStep::Retry(e)
        } else {
            s == AttemptStep::GiveUp(e)
        },
        outcome is TimedOut ==> match s {
            AttemptStep::Retry(Error::Timeout(m)) => attempt < max_retries && m@ == timeout_message(
                timeout_secs,
                attempt,
                max_retries,
            ),
            AttemptStep::GiveUp(Error::Timeout(m)) => attempt >= max_retries && m@ == timeout_message(
                timeout_secs,
                attempt,
                max_retries,
            ),
            _ => false,
        },
{
    match outcome {
        AttemptOutcome::Answered => AttemptStep::Done,
        AttemptOutcome::Failed(e) => {
            if e.is_recoverable() && attempt < max_retries {
                AttemptStep::Retry(e)
            } else {
                AttemptStep::GiveUp(e)
            }
        },
        AttemptOutcome::TimedOut => {
            let mut m = "LLM request timed out after ".to_owned();
            push_decimal(&mut m, timeout_secs);
            m.append("s (attempt ");
            push_decimal(&mut m, (attempt + 1) as u64);
            m.append("/");
            push_decimal(&mut m, (max_retries + 1) as u64);
            m.append(")");
            proof {
                assert(m@ =~= timeout_message(timeout_secs, attempt, max_retries));
            }
            if attempt < max_retries {
                AttemptStep::Retry(Error::Timeout(m))
            } else {
                AttemptStep::GiveUp(Error::Timeout(m))
            }
        },
    }
}

/// How long to wait before attempt number `attempt` (from zero): nothing before the first,
/// then half a second more for each attempt.
pub fn retry_delay_ms(attempt: u32) -> (d: u64)
    ensures
        d == 500 * attempt,
{
    500 * (attempt as u64)
}

/// The error a call ends with when every attempt was retried: the last error kept, or a
/// generic one when there is none.
pub fn exhausted_error(last_error: Option<Error>) -> (e: Error)
    ensures
        last_error matches Some(l) ==> e == l,
        last_error is None ==> (e matches Error::LLMCall(m) && m@ == "All retries exhausted"@),
{
    match last_error {
        Some(e) => e,
        None => Error::LLMCall("All retries exhausted".to_owned()),
    }
}

/// The prompt tokens the offline client counts for messages of these lengths: a quarter of
/// each message's length in bytes, rounded down, summed.
pub open spec fn quarter_sum(lengths: Seq<usize>) -> nat
    decreases lengths.len(),
{
    if lengths.len() == 0 {
        0
    } else {
        quarter_sum(lengths.drop_last()) + (lengths.last() / 4) as nat
    }
}

/// The answer of the offline client, which calls no service, to messages of these lengths
/// (in bytes) for `model`: a text naming the number of messages, finished with `stop`, with
/// the prompt tokens counted from the lengths and 10 completion tokens.
pub fn offline_reply(message_lengths: &Vec<usize>, model: &str) -> (r: LLMResponse)
    requires
        forall|i: int| 0 <= i < message_lengths@.len() ==> message_lengths@[i] <= u32::MAX,
        quarter_sum(message_lengths@) + 10 <= u32::MAX,
    ensures
        r.content@ == "[Mock] Response to "@ + decimal(message_lengths@.len()) + " messages"@,
        r.model@ == model@,
        r.finish_reason matches Some(f) && f@ == "stop"@,
        r.usage == (TokenUsage {
            prompt_tokens: quarter_sum(message_lengths@) as u32,
            completion_tokens: 10,
            total_tokens: (quarter_sum(message_lengths@) + 10) as u32,
        }),
        r.metadata is None,
{
    let mut prompt: u32 = 0;
    let mut i: usize = 0;
    while i < message_lengths.len()
        invariant
            i <= message_lengths@.len(),
            forall|j: int| 0 <= j < message_lengths@.len() ==> message_lengths@[j] <= u32::MAX,
            quarter_sum(message_lengths@) + 10 <= u32::MAX,
            prompt == quarter_sum(message_lengths@.take(i as int)),
        decreases message_lengths@.len() - i,
    {
        proof {
            assert(message_lengths@.take(i + 1).drop_last() =~= message_lengths@.take(i as int));
            lemma_quarter_sum_prefix(message_lengths@, i + 1);
        }
        let len = message_lengths[i];
        prompt = prompt + (len as u32) / 4;
        i = i + 1;
    }
    proof {
        assert(message_lengths@.take(i as int) =~= message_lengths@);
    }
    let mut content = "[Mock] Response to ".to_owned();
    push_decimal(&mut content, message_lengths.len() as u64);
    content.append(" messages");
    LLMResponse {
        content,
        usage: TokenUsage::new(prompt, 10),
        model: model.to_owned(),
        finish_reason: Some("stop".to_owned()),
        metadata: None,
    }
}

/// Sums over prefixes grow.
proof fn lemma_quarter_sum_prefix(lengths: Seq<usize>, k: int)
    requires
        0 <= k <= lengths.len(),
    ensures
        quarter_sum(lengths.take(k)) <= quarter_sum(lengths),
    decreases lengths.len() - k,
{
    if k < lengths.len() {
        lemma_quarter_sum_prefix(lengths, k + 1);
        assert(lengths.take(k + 1).drop_last() =~= lengths.take(k));
    } else {
        assert(lengths.take(k) =~= lengths);
    }
}

} // verus!
