//! What is written to the session log.

use vstd::prelude::*;

verus! {

/// One entry of the session log.
pub enum SessionEvent {
    /// An agent was run in `mode`, on `note` where it works on one note; it
    /// succeeded or not, and `summary` is its answer or the error.
    AgentRun { mode: String, note: Option<String>, success: bool, summary: String },
    /// The user decided `decision` on the proposal at `path`.
    Decision { path: String, decision: String },
}

} // verus!
