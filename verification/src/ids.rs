//! Identifiers that scope the projections to a terminal, a debug session and
//! a thread of the debuggee.

use vstd::prelude::*;

verus! {

/// Identifies the terminal that backs a run/debug process.
#[derive(Clone, Copy, Debug, PartialEq, Eq, Structural, Hash)]
pub struct TermId(pub u64);

/// Identifies a debug-adapter session.
#[derive(Clone, Copy, Debug, PartialEq, Eq, Structural, Hash)]
pub struct DapId(pub u64);

/// Identifies a thread of the debuggee.
#[derive(Clone, Copy, Debug, PartialEq, Eq, Structural, Hash)]
pub struct ThreadId(pub i64);

/// Whether `current` names the thread `id`.
pub fn is_current_thread(current: Option<ThreadId>, id: ThreadId) -> (r: bool)
    ensures
        r == (current == Some(id)),
{
    match current {
        Some(c) => c == id,
        None => false,
    }
}

} // verus!
