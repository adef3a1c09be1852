//! Deciding what to do about an error: retry, skip, abort, compensate or ignore.

use vstd::prelude::*;
use crate::assoc::StrMap;
use crate::error::{code_of, message_of, recoverable, Error};
use crate::text::{decimal, push_decimal};

verus! {

/// What to do about an error.
#[derive(Debug, Clone, Copy, PartialEq, Eq, Structural)]
pub enum ErrorAction {
    /// Try again.
    Retry,
    /// Skip the task.
    Skip,
    /// Stop everything.
    Abort,
    /// Undo what was done.
    Compensate,
    /// Carry on as if nothing happened.
    Ignore,
}

/// How recoverable an error is.
#[derive(Debug, Clone, Copy, PartialEq, Eq, Structural)]
pub enum ErrorCategory {
    /// Retrying may help.
    Recoverable,
    /// Retrying cannot help.
    Unrecoverable,
    /// Retrying may help in part.
    PartiallyRecoverable,
}

/// The decision about one error.
pub struct ErrorHandleResult {
    /// What to do.
    pub action: ErrorAction,
    /// How recoverable the error is.
    pub category: ErrorCategory,
    /// A message describing the error or the decision.
    pub message: String,
}

/// The category of an error: recoverable errors are recoverable; task and LLM errors that are
/// not are partly recoverable; all others unrecoverable.
pub open spec fn category_of(e: Error) -> ErrorCategory {
    if recoverable(e) {
        ErrorCategory::Recoverable
    } else {
        match e {
            Error::TaskExecution(_) | Error::LLMCall(_) => ErrorCategory::PartiallyRecoverable,
            _ => ErrorCategory::Unrecoverable,
        }
    }
}

/// Task-execution, timeout, LLM-call and resource errors are recoverable; every other error
/// is unrecoverable, and so no error ends up partly recoverable.
pub proof fn lemma_category_of_each_error(e: Error)
    ensures
        category_of(e) == match e {
            Error::TaskExecution(_) | Error::Timeout(_) | Error::LLMCall(_) | Error::Resource(_) => ErrorCategory::Recoverable,
            _ => ErrorCategory::Unrecoverable,
        },
        category_of(e) != ErrorCategory::PartiallyRecoverable,
{
}

/// The action registered for the error's code, or the default action.
pub open spec fn chosen_action(actions: Map<Seq<char>, ErrorAction>, default: ErrorAction, e: Error) -> ErrorAction {
    if actions.contains_key(code_of(e)) {
        actions[code_of(e)]
    } else {
        default
    }
}

/// The message given when too many errors came in a row.
pub open spec fn too_many_message(count: nat) -> Seq<char> {
    "Too many consecutive errors ("@ + decimal(count) + "), aborting"@
}

/// Decides about errors by their codes, and aborts after too many errors in a row.
pub struct ErrorHandler {
    default_action: ErrorAction,
    action_map: StrMap<ErrorAction>,
    max_consecutive_errors: u32,
    consecutive_errors: u32,
}

impl ErrorHandler {
    /// The action for codes without a registered action.
    pub closed spec fn default_action(&self) -> ErrorAction {
        self.default_action
    }

    /// The registered actions by error code.
    pub closed spec fn actions(&self) -> Map<Seq<char>, ErrorAction> {
        self.action_map@
    }

    /// The most errors in a row that are decided by code.
    pub closed spec fn max_errors(&self) -> u32 {
        self.max_consecutive_errors
    }

    /// The errors seen in a row so far.
    pub closed spec fn count(&self) -> u32 {
        self.consecutive_errors
    }

    /// The handler once one more error has come: the count grows by one, all else stays.
    pub closed spec fn after_error(self) -> ErrorHandler {
        ErrorHandler {
            default_action: self.default_action,
            action_map: self.action_map,
            max_consecutive_errors: self.max_consecutive_errors,
            consecutive_errors: (self.consecutive_errors + 1) as u32,
        }
    }

    /// The handler once `k` more errors have come.
    pub open spec fn after_errors(self, k: nat) -> ErrorHandler
        decreases k,
    {
        if k == 0 {
            self
        } else {
            self.after_errors((k - 1) as nat).after_error()
        }
    }

    /// A handler with no registered actions, allowing 10 errors in a row.
    pub fn new(default_action: ErrorAction) -> (h: Self)
        ensures
            h.default_action() == default_action,
            h.actions() == Map::<Seq<char>, ErrorAction>::empty(),
            h.max_errors() == 10,
            h.count() == 0,
    {
        let h = ErrorHandler {
            default_action,
            action_map: StrMap::new(),
            max_consecutive_errors: 10,
            consecutive_errors: 0,
        };
        proof {
            assert(h.action_map@ =~= Map::<Seq<char>, ErrorAction>::empty());
        }
        h
    }

    /// The standard handler: recoverable errors are retried, unrecoverable ones abort. The
    /// codes of the recoverable errors (task, LLM, timeout and resource errors) are registered
    /// for a retry; DAG, configuration and validation errors are registered to abort, and
    /// every other code aborts by default.
    pub fn default_handler() -> (h: Self)
        ensures
            h.default_action() == ErrorAction::Abort,
            h.actions() == map![
                "DAG_001"@ => ErrorAction::Abort,
                "DAG_002"@ => ErrorAction::Abort,
                "CFG_001"@ => ErrorAction::Abort,
                "VAL_001"@ => ErrorAction::Abort,
                "TASK_001"@ => ErrorAction::Retry,
                "LLM_001"@ => ErrorAction::Retry,
                "TMO_001"@ => ErrorAction::Retry,
                "RES_001"@ => ErrorAction::Retry,
            ],
            forall|e: Error| #[trigger] chosen_action(h.actions(), h.default_action(), e) == if recoverable(e) {
                ErrorAction::Retry
            } else {
                ErrorAction::Abort
            },
            h.max_errors() == 10,
            h.count() == 0,
    {
        let mut h = Self::new(ErrorAction::Abort);
        h.register_action("DAG_001", ErrorAction::Abort);
        h.register_action("DAG_002", ErrorAction::Abort);
        h.register_action("CFG_001", ErrorAction::Abort);
        h.register_action("VAL_001", ErrorAction::Abort);
        h.register_action("TASK_001", ErrorAction::Retry);
        h.register_action("LLM_001", ErrorAction::Retry);
        h.register_action("TMO_001", ErrorAction::Retry);
        h.register_action("RES_001", ErrorAction::Retry);
        proof {
            lemma_default_actions(h.actions());
        }
        h
    }

    /// Registers `action` for errors with code `error_code`, replacing any earlier one.
    pub fn register_action(&mut self, error_code: &str, action: ErrorAction)
        ensures
            final(self).actions() == old(self).actions().insert(error_code@, action),
            final(self).default_action() == old(self).default_action(),
            final(self).max_errors() == old(self).max_errors(),
            final(self).count() == old(self).count(),
    {
        let _ = self.action_map.insert(error_code.to_owned(), action);
    }

    /// Sets how many errors in a row are decided by code.
    pub fn with_max_consecutive_errors(self, max: u32) -> (h: Self)
        ensures
            h.max_errors() == max,
            h.default_action() == self.default_action(),
            h.actions() == self.actions(),
            h.count() == self.count(),
    {
        ErrorHandler { max_consecutive_errors: max, ..self }
    }

    /// Decides about an error. It counts as one more error in a row; past the limit the
    /// answer is to abort, as unrecoverable. Otherwise the action is the one registered for
    /// the error's code, or the default, with the error's category and message.
    pub fn handle(&mut self, error: &Error) -> (r: ErrorHandleResult)
        requires
            old(self).count() < u32::MAX,
        ensures
            *final(self) == old(self).after_error(),
            final(self).count() == old(self).count() + 1,
            final(self).default_action() == old(self).default_action(),
            final(self).actions() == old(self).actions(),
            final(self).max_errors() == old(self).max_errors(),
            final(self).count() > final(self).max_errors() ==> r.action == ErrorAction::Abort && r.category
                == ErrorCategory::Unrecoverable && r.message@ == too_many_message(final(self).count() as nat),
            final(self).count() <= final(self).max_errors() ==> r.action == chosen_action(
                old(self).actions(),
                old(self).default_action(),
                *error,
            ) && r.category == category_of(*error) && r.message@ == message_of(*error),
    {
        self.consecutive_errors = self.consecutive_errors + 1;
        let category = Self::categorize(error);
        let code = error.error_code();
        if self.consecutive_errors > self.max_consecutive_errors {
            let mut message = "Too many consecutive errors (".to_owned();
            push_decimal(&mut message, self.consecutive_errors as u64);
            message.append("), aborting");
            return ErrorHandleResult { action: ErrorAction::Abort, category: ErrorCategory::Unrecoverable, message };
        }
        let action = match self.action_map.get(code) {
            Some(a) => *a,
            None => self.default_action,
        };
        ErrorHandleResult { action, category, message: error.message() }
    }

    /// The category of an error.
    pub fn categorize(error: &Error) -> (c: ErrorCategory)
        ensures
            c == category_of(*error),
    {
        if error.is_recoverable() {
            ErrorCategory::Recoverable
        } else {
            match error {
                Error::TaskExecution(_) | Error::LLMCall(_) => ErrorCategory::PartiallyRecoverable,
                _ => ErrorCategory::Unrecoverable,
            }
        }
    }

    /// Starts counting errors in a row afresh.
    pub fn reset_consecutive_errors(&mut self)
        ensures
            final(self).count() == 0,
            final(self).default_action() == old(self).default_action(),
            final(self).actions() == old(self).actions(),
            final(self).max_errors() == old(self).max_errors(),
    {
        self.consecutive_errors = 0;
    }

    /// The errors seen in a row so far.
    pub fn consecutive_error_count(&self) -> (n: u32)
        ensures
            n == self.count(),
    {
        self.consecutive_errors
    }
}

impl Default for ErrorHandler {
    fn default() -> (h: Self)
        ensures
            h.default_action() == ErrorAction::Abort,
            forall|e: Error| #[trigger] chosen_action(h.actions(), h.default_action(), e) == if recoverable(e) {
                ErrorAction::Retry
            } else {
                ErrorAction::Abort
            },
            h.max_errors() == 10,
            h.count() == 0,
    {
        Self::default_handler()
    }
}

/// With the standard actions, a recoverable error is retried and any other aborts.
proof fn lemma_default_actions(actions: Map<Seq<char>, ErrorAction>)
    requires
        actions == map![
            "DAG_001"@ => ErrorAction::Abort,
            "DAG_002"@ => ErrorAction::Abort,
            "CFG_001"@ => ErrorAction::Abort,
            "VAL_001"@ => ErrorAction::Abort,
            "TASK_001"@ => ErrorAction::Retry,
            "LLM_001"@ => ErrorAction::Retry,
            "TMO_001"@ => ErrorAction::Retry,
            "RES_001"@ => ErrorAction::Retry,
        ],
    ensures
        forall|e: Error| #[trigger] chosen_action(actions, ErrorAction::Abort, e) == if recoverable(e) {
            ErrorAction::Retry
        } else {
            ErrorAction::Abort
        },
{
    reveal_strlit("DAG_001");
    reveal_strlit("DAG_002");
    reveal_strlit("CFG_001");
    reveal_strlit("VAL_001");
    reveal_strlit("TASK_001");
    reveal_strlit("TASK_002");
    reveal_strlit("LLM_001");
    reveal_strlit("TMO_001");
    reveal_strlit("RES_001");
    reveal_strlit("CTX_001");
    reveal_strlit("STR_001");
    reveal_strlit("SER_001");
    reveal_strlit("CNL_001");
    reveal_strlit("INT_001");
    reveal_strlit("IO_001");
    reveal_strlit("JSON_001");
    reveal_strlit("TOML_001");
    reveal_strlit("TOML_002");
    reveal_strlit("OTH_001");
    let d1 = "DAG_001"@;
    let d2 = "DAG_002"@;
    let cf = "CFG_001"@;
    let va = "VAL_001"@;
    let ta = "TASK_001"@;
    let ll = "LLM_001"@;
    let tm = "TMO_001"@;
    let rs = "RES_001"@;
    // The registered codes are told apart by these characters.
    assert(d1[6] != d2[6]);
    assert(d1[0] != cf[0] && d1[0] != va[0] && d1[0] != ll[0] && d1[0] != tm[0] && d1[0] != rs[0]);
    assert(cf[0] != va[0] && cf[0] != ll[0] && cf[0] != tm[0] && cf[0] != rs[0]);
    assert(va[0] != ll[0] && va[0] != tm[0] && va[0] != rs[0]);
    assert(ll[0] != tm[0] && ll[0] != rs[0] && tm[0] != rs[0]);
    assert forall|e: Error| #[trigger] chosen_action(actions, ErrorAction::Abort, e) == if recoverable(e) {
        ErrorAction::Retry
    } else {
        ErrorAction::Abort
    } by {
        let c = code_of(e);
        match e {
            Error::TaskNotFound(_) => {
                assert(c[7] != ta[7]);
                assert(c != ta);
                assert(c.len() != d1.len());
                assert(!actions.contains_key(c));
            },
            Error::Context(_) | Error::Cancelled(_) => {
                assert(c[1] != cf[1]);
                assert(c[0] != d1[0] && c[0] != va[0] && c[0] != ll[0] && c[0] != tm[0] && c[0] != rs[0]);
                assert(!actions.contains_key(c));
            },
            Error::Strategy(_) | Error::Serialization(_) | Error::Internal(_) | Error::Other(_) => {
                assert(c[0] != d1[0] && c[0] != cf[0] && c[0] != va[0] && c[0] != ll[0] && c[0] != tm[0]
                    && c[0] != rs[0]);
                assert(!actions.contains_key(c));
            },
            Error::Json(_) => {
                assert(c[0] != ta[0]);
                assert(!actions.contains_key(c));
            },
            Error::TomlParse(_) | Error::TomlSerialize(_) => {
                assert(c[1] != ta[1]);
                assert(!actions.contains_key(c));
            },
            Error::Io(_) => {
                assert(c.len() != d1.len() && c.len() != ta.len());
                assert(!actions.contains_key(c));
            },
            _ => {},
        }
    }
}

/// The count of errors in a row is the number of errors handled since the handler was made
/// or last reset; the actions and the limit stay as they were.
pub proof fn lemma_count_counts_errors(h: ErrorHandler, k: nat)
    requires
        h.count() == 0,
        k <= u32::MAX,
    ensures
        h.after_errors(k).count() == k,
        h.after_errors(k).default_action() == h.default_action(),
        h.after_errors(k).actions() == h.actions(),
        h.after_errors(k).max_errors() == h.max_errors(),
    decreases k,
{
    if k > 0 {
        lemma_count_counts_errors(h, (k - 1) as nat);
    }
}

/// Registering an action for a code decides every error with that code, as long as the
/// limit of errors in a row is not passed.
pub proof fn lemma_registered_action_decides(
    actions: Map<Seq<char>, ErrorAction>,
    default: ErrorAction,
    code: Seq<char>,
    action: ErrorAction,
    e: Error,
)
    requires
        code_of(e) == code,
    ensures
        chosen_action(actions.insert(code, action), default, e) == action,
{
}

/// An error whose code has no registered action gets the default action.
pub proof fn lemma_unregistered_gets_default(actions: Map<Seq<char>, ErrorAction>, default: ErrorAction, e: Error)
    requires
        !actions.contains_key(code_of(e)),
    ensures
        chosen_action(actions, default, e) == default,
{
}

} // verus!
