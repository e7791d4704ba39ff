//! One-time installation and scope bookkeeping of the thin lifecycle
//! integration that embeds Relay into a host agent.

use vstd::prelude::*;
use crate::text::{chars_eq, to_chars};

verus! {

/// Scope name of a top-level agent session.
pub const SESSION_NAME: &'static str = "grok.session";
/// Scope name of a session started under a parent session.
pub const SUBAGENT_NAME: &'static str = "grok.subagent";
/// Scope name of one turn.
pub const TURN_NAME: &'static str = "grok.turn";
/// Scope name of one tool call.
pub const TOOL_NAME: &'static str = "grok.tool";
/// Scope name of one model call.
pub const LLM_NAME: &'static str = "grok.llm";

/// Remembers the outcome of the one installation attempt of a process.
pub struct InstallLatch {
    outcome: Option<bool>,
}

impl InstallLatch {
    /// The recorded outcome: `None` before the first attempt.
    pub closed spec fn outcome(&self) -> Option<bool> {
        self.outcome
    }

    /// A latch on which no installation has been attempted.
    pub fn new() -> (latch: Self)
        ensures
            latch.outcome() is None,
    {
        InstallLatch { outcome: None }
    }
}

/// One call of `initialize` on a latch that recorded `before`, returning
/// `ok` and leaving `after`: a recorded outcome is returned and kept; on a
/// fresh latch the installation runs and its outcome is recorded.
pub open spec fn latch_step(before: Option<bool>, ok: bool, after: Option<bool>) -> bool {
    match before {
        Some(recorded) => ok == recorded && after == Some(recorded),
        None => after == Some(ok),
    }
}

/// Runs `install` on the first call only and reports whether installation
/// succeeded; later calls return the recorded outcome without running it.
pub fn initialize<F: FnOnce() -> Result<(), String>>(latch: &mut InstallLatch, install: F) -> (ok: bool)
    requires
        call_requires(install, ()),
    ensures
        latch_step(old(latch).outcome(), ok, final(latch).outcome()),
        match old(latch).outcome() {
            Some(recorded) => ok == recorded && final(latch).outcome() == Some(recorded),
            None => final(latch).outcome() == Some(ok) && exists|r: Result<(), String>|
                call_ensures(install, (), r) && ok == (r is Ok),
        },
{
    match latch.outcome {
        Some(recorded) => recorded,
        None => {
            let result = install();
            let ok = result.is_ok();
            latch.outcome = Some(ok);
            ok
        },
    }
}

/// Any run of `initialize` calls on one fresh latch (`outcomes[i]` the
/// latch before call `i`, `results[i]` what the call returned) gives every
/// caller the same answer, and only the first call finds the latch empty,
/// so the installation is attempted at most once.
pub proof fn lemma_initialize_answers_alike(outcomes: Seq<Option<bool>>, results: Seq<bool>)
    requires
        outcomes.len() == results.len() + 1,
        outcomes[0] is None,
        forall|i: int| 0 <= i < results.len() ==> latch_step(outcomes[i], #[trigger] results[i], outcomes[i + 1]),
    ensures
        forall|i: int| 0 <= i < results.len() ==> #[trigger] results[i] == results[0],
        forall|i: int| 1 <= i < outcomes.len() ==> #[trigger] outcomes[i] == Some(results[0]),
    decreases results.len(),
{
    if results.len() > 1 {
        let n = results.len() - 1;
        lemma_initialize_answers_alike(outcomes.take(n + 1), results.take(n));
        assert(outcomes.take(n + 1)[n] == outcomes[n]);
        assert(results.take(n)[0] == results[0]);
        assert forall|i: int| 0 <= i < results.len() implies #[trigger] results[i] == results[0] by {
            if i < n {
                assert(results.take(n)[i] == results[i]);
            } else {
                assert(outcomes.take(n + 1)[n] == Some(results[0]));
                assert(latch_step(outcomes[n], results[n], outcomes[n + 1]));
            }
        }
        assert forall|i: int| 1 <= i < outcomes.len() implies #[trigger] outcomes[i] == Some(results[0]) by {
            if i <= n {
                assert(outcomes.take(n + 1)[i] == outcomes[i]);
            } else {
                assert(latch_step(outcomes[n], results[n], outcomes[n + 1]));
            }
        }
    } else if results.len() == 1 {
        assert(latch_step(outcomes[0], results[0], outcomes[1]));
    }
}

/// The scope names the stdout subscriber reports.
pub open spec fn allowlisted_spec(kind: Seq<char>, name: Seq<char>) -> bool {
    kind == "scope"@ && (name == SESSION_NAME@ || name == SUBAGENT_NAME@ || name == TURN_NAME@
        || name == TOOL_NAME@ || name == LLM_NAME@)
}

/// Whether an event of `kind` named `name` is one of the lifecycle scopes.
pub fn is_allowlisted(kind: &str, name: &str) -> (allowed: bool)
    ensures
        allowed == allowlisted_spec(kind@, name@),
{
    let k = to_chars(kind);
    let scope = to_chars("scope");
    if !chars_eq(k.as_slice(), scope.as_slice()) {
        return false;
    }
    let n = to_chars(name);
    let session = to_chars(SESSION_NAME);
    let subagent = to_chars(SUBAGENT_NAME);
    let turn = to_chars(TURN_NAME);
    let tool = to_chars(TOOL_NAME);
    let llm = to_chars(LLM_NAME);
    chars_eq(n.as_slice(), session.as_slice()) || chars_eq(n.as_slice(), subagent.as_slice())
        || chars_eq(n.as_slice(), turn.as_slice()) || chars_eq(n.as_slice(), tool.as_slice())
        || chars_eq(n.as_slice(), llm.as_slice())
}

} // verus!
