//! When a failed operation is tried again.

use vstd::prelude::*;
use super::handler::{ErrorAction, ErrorHandler, chosen_action};
use crate::error::{code_of, Error};
use crate::text::views_of;

verus! {

/// Whether attempt number `attempt` (from zero) may be retried: only below the retry limit,
/// and, when retryable codes are listed, only for an error with one of them.
pub open spec fn retry_allowed(max_retries: u32, codes: Seq<Seq<char>>, attempt: u32, code: Option<Seq<char>>) -> bool {
    attempt < max_retries && (codes.len() == 0 || (code matches Some(c) && codes.contains(c)))
}

/// The retry rule: never at or past the limit; below it, always when no codes are listed, and
/// otherwise exactly when the error has a code equal to some listed code, wherever it stands
/// in the list.
pub proof fn lemma_retry_rule(max_retries: u32, codes: Seq<Seq<char>>, attempt: u32, code: Option<Seq<char>>)
    ensures
        attempt >= max_retries ==> !retry_allowed(max_retries, codes, attempt, code),
        attempt < max_retries && codes.len() == 0 ==> retry_allowed(max_retries, codes, attempt, code),
        attempt < max_retries && codes.len() > 0 ==> (retry_allowed(max_retries, codes, attempt, code) <==> exists|j: int|
            0 <= j < codes.len() && code == Some(#[trigger] codes[j])),
{
    if attempt < max_retries && codes.len() > 0 {
        if retry_allowed(max_retries, codes, attempt, code) {
            let c = code->0;
            let j = choose|j: int| 0 <= j < codes.len() && codes[j] == c;
            assert(code == Some(codes[j]));
        }
        if exists|j: int| 0 <= j < codes.len() && code == Some(#[trigger] codes[j]) {
            let j = choose|j: int| 0 <= j < codes.len() && code == Some(#[trigger] codes[j]);
            assert(codes.contains(codes[j]));
        }
    }
}

/// Decides whether to retry after attempt number `attempt` (from zero) failed with an error
/// whose code is `error_code`.
pub fn should_retry(max_retries: u32, retryable_error_codes: &Vec<String>, attempt: u32, error_code: Option<&str>) -> (b: bool)
    ensures
        b == retry_allowed(
            max_retries,
            views_of(retryable_error_codes@),
            attempt,
            match error_code {
                Some(c) => Some(c@),
                None => None,
            },
        ),
{
    let ghost codes = views_of(retryable_error_codes@);
    if attempt >= max_retries {
        return false;
    }
    if retryable_error_codes.len() > 0 {
        match error_code {
            Some(code) => {
                let c = code.to_owned();
                let mut i: usize = 0;
                while i < retryable_error_codes.len()
                    invariant
                        i <= retryable_error_codes@.len(),
                        attempt < max_retries,
                        error_code == Some(code),
                        c@ == code@,
                        codes == views_of(retryable_error_codes@),
                        forall|j: int| 0 <= j < i ==> codes[j] != code@,
                    decreases retryable_error_codes@.len() - i,
                {
                    if retryable_error_codes[i] == c {
                        proof {
                            assert(codes[i as int] == code@);
                            assert(codes.contains(code@));
                        }
                        return true;
                    }
                    i = i + 1;
                }
                proof {
                    if codes.contains(code@) {
                        let j = choose|j: int| 0 <= j < codes.len() && codes[j] == code@;
                        assert(codes[j] != code@);
                    }
                }
                return false;
            },
            None => {
                return false;
            },
        }
    }
    true
}

/// What to do after an attempt failed.
#[derive(Debug, Clone, Copy, PartialEq, Eq, Structural)]
pub enum RecoveryStep {
    /// Wait, then try again.
    Retry,
    /// Run the compensation, then give up.
    Compensate,
    /// Give up.
    GiveUp,
}

/// Decides what follows a failed attempt: the handler decides about the error; a retry
/// decision stands only while the retry policy allows another attempt.
pub fn recovery_step(
    handler: &mut ErrorHandler,
    max_retries: u32,
    retryable_error_codes: &Vec<String>,
    attempt: u32,
    error: &Error,
) -> (s: RecoveryStep)
    requires
        old(handler).count() < u32::MAX,
    ensures
        final(handler).count() == old(handler).count() + 1,
        final(handler).actions() == old(handler).actions(),
        final(handler).default_action() == old(handler).default_action(),
        final(handler).max_errors() == old(handler).max_errors(),
        ({
            let action = if final(handler).count() > final(handler).max_errors() {
                ErrorAction::Abort
            } else {
                chosen_action(old(handler).actions(), old(handler).default_action(), *error)
            };
            s == if action == ErrorAction::Retry {
                if retry_allowed(max_retries, views_of(retryable_error_codes@), attempt, Some(code_of(*error))) {
                    RecoveryStep::Retry
                } else {
                    RecoveryStep::GiveUp
                }
            } else if action == ErrorAction::Compensate {
                RecoveryStep::Compensate
            } else {
                RecoveryStep::GiveUp
            }
        }),
{
    let decision = handler.handle(error);
    match decision.action {
        ErrorAction::Retry => {
            if should_retry(max_retries, retryable_error_codes, attempt, Some(error.error_code())) {
                RecoveryStep::Retry
            } else {
                RecoveryStep::GiveUp
            }
        },
        ErrorAction::Compensate => RecoveryStep::Compensate,
        _ => RecoveryStep::GiveUp,
    }
}

} // verus!
