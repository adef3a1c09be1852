//! Token counts accumulated over many LLM calls.

use vstd::prelude::*;
use super::response::TokenUsage;

verus! {

/// The tokens used so far, over all recorded calls, and the number of calls.
#[derive(Debug, Clone, Copy, PartialEq, Eq, Structural)]
pub struct TokenTotals {
    /// Prompt tokens, summed.
    pub total_prompt_tokens: u64,
    /// Completion tokens, summed.
    pub total_completion_tokens: u64,
    /// Calls recorded.
    pub call_count: u64,
}

/// Recording one more call cannot overflow the counts.
pub open spec fn can_record(t: TokenTotals, usage: TokenUsage) -> bool {
    &&& t.total_prompt_tokens + usage.prompt_tokens <= u64::MAX
    &&& t.total_completion_tokens + usage.completion_tokens <= u64::MAX
    &&& t.call_count + 1 <= u64::MAX
}

/// The totals after recording one more call.
pub open spec fn recorded(t: TokenTotals, usage: TokenUsage) -> TokenTotals {
    TokenTotals {
        total_prompt_tokens: (t.total_prompt_tokens + usage.prompt_tokens) as u64,
        total_completion_tokens: (t.total_completion_tokens + usage.completion_tokens) as u64,
        call_count: (t.call_count + 1) as u64,
    }
}

/// The totals of a sequence of calls, recorded in order from zero.
pub open spec fn totals_of(usages: Seq<TokenUsage>) -> (nat, nat, nat)
    decreases usages.len(),
{
    if usages.len() == 0 {
        (0, 0, 0)
    } else {
        let prev = totals_of(usages.drop_last());
        (
            prev.0 + usages.last().prompt_tokens as nat,
            prev.1 + usages.last().completion_tokens as nat,
            prev.2 + 1,
        )
    }
}

impl TokenTotals {
    /// No calls, no tokens.
    pub fn new() -> (t: Self)
        ensures
            t == (TokenTotals { total_prompt_tokens: 0, total_completion_tokens: 0, call_count: 0 }),
    {
        TokenTotals { total_prompt_tokens: 0, total_completion_tokens: 0, call_count: 0 }
    }

    /// Records one call: its prompt and completion tokens are added, and the call counted.
    pub fn record(&mut self, usage: &TokenUsage)
        requires
            can_record(*old(self), *usage),
        ensures
            *final(self) == recorded(*old(self), *usage),
    {
        self.total_prompt_tokens = self.total_prompt_tokens + usage.prompt_tokens as u64;
        self.total_completion_tokens = self.total_completion_tokens + usage.completion_tokens as u64;
        self.call_count = self.call_count + 1;
    }

    /// All tokens: prompt and completion together.
    pub fn total_tokens(&self) -> (n: u64)
        requires
            self.total_prompt_tokens + self.total_completion_tokens <= u64::MAX,
        ensures
            n == self.total_prompt_tokens + self.total_completion_tokens,
    {
        self.total_prompt_tokens + self.total_completion_tokens
    }

    /// Back to no calls and no tokens.
    pub fn reset(&mut self)
        ensures
            *final(self) == TokenTotals::new_spec(),
    {
        self.total_prompt_tokens = 0;
        self.total_completion_tokens = 0;
        self.call_count = 0;
    }

    /// The totals of no calls.
    pub open spec fn new_spec() -> TokenTotals {
        TokenTotals { total_prompt_tokens: 0, total_completion_tokens: 0, call_count: 0 }
    }
}

impl Default for TokenTotals {
    fn default() -> (t: Self)
        ensures
            t == TokenTotals::new_spec(),
    {
        TokenTotals::new()
    }
}

/// Recording calls one by one from zero gives, for each count, the sum over the calls: the
/// totals depend only on the calls recorded, not on how recording was split up.
pub proof fn lemma_record_sums(usages: Seq<TokenUsage>, t: TokenTotals)
    requires
        t == TokenTotals::new_spec(),
        totals_of(usages).0 <= u64::MAX,
        totals_of(usages).1 <= u64::MAX,
        totals_of(usages).2 <= u64::MAX,
    ensures
        ({
            let r = usages.fold_left(t, |acc: TokenTotals, u: TokenUsage| recorded(acc, u));
            &&& r.total_prompt_tokens == totals_of(usages).0
            &&& r.total_completion_tokens == totals_of(usages).1
            &&& r.call_count == totals_of(usages).2
        }),
    decreases usages.len(),
{
    if usages.len() > 0 {
        let init = usages.drop_last();
        lemma_totals_grow(usages);
        lemma_record_sums(init, t);
        assert(usages.fold_left(t, |acc: TokenTotals, u: TokenUsage| recorded(acc, u)) == recorded(
            init.fold_left(t, |acc: TokenTotals, u: TokenUsage| recorded(acc, u)),
            usages.last(),
        ));
    }
}

/// The totals of a prefix are no larger.
proof fn lemma_totals_grow(usages: Seq<TokenUsage>)
    requires
        usages.len() > 0,
    ensures
        totals_of(usages.drop_last()).0 <= totals_of(usages).0,
        totals_of(usages.drop_last()).1 <= totals_of(usages).1,
        totals_of(usages.drop_last()).2 < totals_of(usages).2,
{
}

} // verus!
