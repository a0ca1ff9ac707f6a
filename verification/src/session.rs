//! A debug session, and the rule that decides when its data is shown.
//!
//! The variables of a session are shown only while the debuggee is stopped
//! and its process has not ended: what was fetched at an earlier stop is
//! out of date as soon as the debuggee runs. The threads are listed as long
//! as the process has not ended, and show their frames only while the
//! debuggee is stopped.

use vstd::prelude::*;
use crate::ids::{DapId, TermId, ThreadId};
use crate::stack::{
    thread_row_views, thread_rows, thread_rows_of, trace_views, ThreadRow, ThreadRowView,
    ThreadTrace,
};
use crate::variable_laws::lemma_forest_with_same;
use crate::variables::{
    clone_path, copy_scopes, filled, filled_outcome, leaves_of, node_at, path_view, row_views,
    scope_views,
    toggled, toggled_outcome, tree_rows, NodeView, Outcome, RowView, ScopeVariables, ScopeView,
    Variable, VariableRow, VariableTree,
};

verus! {

/// A debug session as the panel reads it.
#[derive(Debug)]
pub struct DebugSession {
    pub term_id: TermId,
    pub dap_id: DapId,
    /// Whether the debuggee is stopped, at a breakpoint or after a step.
    pub stopped: bool,
    /// The thread that the adapter reported as the current one.
    pub thread_id: Option<ThreadId>,
    /// The traces of the threads, in the order in which they were reported.
    pub stack_traces: Vec<ThreadTrace>,
    pub variables: VariableTree,
    /// The scopes with their variables, for the plain view.
    pub scopes: Vec<ScopeVariables>,
}

/// Whether a process counts as ended. `process_stopped` is the flag of the
/// process, `None` where the process is not known: an unknown process
/// counts as ended.
pub open spec fn process_ended(process_stopped: Option<bool>) -> bool {
    match process_stopped {
        Some(stopped) => stopped,
        None => true,
    }
}

/// Whether the variables of a session are shown.
pub open spec fn shows_variables(session_stopped: bool, process_stopped: Option<bool>) -> bool {
    session_stopped && !process_ended(process_stopped)
}

/// The rows of the variable view.
pub open spec fn variable_rows_of(
    active: Option<&DebugSession>,
    process_stopped: Option<bool>,
) -> Seq<RowView> {
    match active {
        Some(s) => if shows_variables(s.stopped, process_stopped) {
            tree_rows(s.variables@)
        } else {
            Seq::empty()
        },
        None => Seq::empty(),
    }
}

/// The scopes of the plain variable view.
pub open spec fn scope_rows_of(
    active: Option<&DebugSession>,
    process_stopped: Option<bool>,
) -> Seq<ScopeView> {
    match active {
        Some(s) => if shows_variables(s.stopped, process_stopped) {
            scope_views(s.scopes@)
        } else {
            Seq::empty()
        },
        None => Seq::empty(),
    }
}

/// The rows of the stack view.
pub open spec fn stack_rows_of(
    active: Option<&DebugSession>,
    process_stopped: Option<bool>,
) -> Seq<ThreadRowView> {
    match active {
        Some(s) => if process_ended(process_stopped) {
            Seq::empty()
        } else {
            thread_rows_of(trace_views(s.stack_traces@), s.dap_id, s.stopped, s.thread_id)
        },
        None => Seq::empty(),
    }
}

/// Whether a process counts as ended.
pub fn has_ended(process_stopped: Option<bool>) -> (r: bool)
    ensures
        r == process_ended(process_stopped),
{
    match process_stopped {
        Some(stopped) => stopped,
        None => true,
    }
}

/// The rows of the variable view for the session `active`, `None` where no
/// session is selected. Without a session, while the debuggee runs, and
/// after the process has ended there are no rows.
pub fn variable_rows(active: Option<&DebugSession>, process_stopped: Option<bool>) -> (rows: Vec<
    VariableRow,
>)
    ensures
        row_views(rows@) == variable_rows_of(active, process_stopped),
{
    match active {
        Some(session) => {
            if session.stopped && !has_ended(process_stopped) {
                session.variables.flatten()
            } else {
                let rows: Vec<VariableRow> = Vec::new();
                assert(row_views(rows@) =~= Seq::<RowView>::empty());
                rows
            }
        },
        None => {
            let rows: Vec<VariableRow> = Vec::new();
            assert(row_views(rows@) =~= Seq::<RowView>::empty());
            rows
        },
    }
}

/// The scopes of the plain variable view for the session `active`, under
/// the same rule as the rows of the tree.
pub fn scope_rows(active: Option<&DebugSession>, process_stopped: Option<bool>) -> (rows: Vec<
    ScopeVariables,
>)
    ensures
        scope_views(rows@) == scope_rows_of(active, process_stopped),
{
    match active {
        Some(session) => {
            if session.stopped && !has_ended(process_stopped) {
                copy_scopes(&session.scopes)
            } else {
                let rows: Vec<ScopeVariables> = Vec::new();
                assert(scope_views(rows@) =~= Seq::<ScopeView>::empty());
                rows
            }
        },
        None => {
            let rows: Vec<ScopeVariables> = Vec::new();
            assert(scope_views(rows@) =~= Seq::<ScopeView>::empty());
            rows
        },
    }
}

/// The rows of the stack view for the session `active`. Without a session
/// and after the process has ended there are none. Else every thread has a
/// row, the main thread first, and shows its frames while it is opened and
/// the debuggee is stopped.
pub fn stack_rows(active: Option<&DebugSession>, process_stopped: Option<bool>) -> (rows: Vec<
    ThreadRow,
>)
    ensures
        thread_row_views(rows@) == stack_rows_of(active, process_stopped),
{
    match active {
        Some(session) => {
            if has_ended(process_stopped) {
                let rows: Vec<ThreadRow> = Vec::new();
                assert(thread_row_views(rows@) =~= Seq::<ThreadRowView>::empty());
                rows
            } else {
                thread_rows(
                    &session.stack_traces,
                    session.dap_id,
                    session.stopped,
                    session.thread_id,
                )
            }
        },
        None => {
            let rows: Vec<ThreadRow> = Vec::new();
            assert(thread_row_views(rows@) =~= Seq::<ThreadRowView>::empty());
            rows
        },
    }
}

/// A request to fetch the children of a node.
#[derive(Clone, Debug, PartialEq, Eq)]
pub struct FetchRequest {
    pub dap_id: DapId,
    pub path: Vec<usize>,
    pub reference: usize,
}

/// The answer to a [`FetchRequest`].
#[derive(Clone, Debug, PartialEq, Eq)]
pub struct FetchResponse {
    pub dap_id: DapId,
    pub path: Vec<usize>,
    pub reference: usize,
    pub variables: Vec<Variable>,
}

/// Whether the answer `response` is still of use to the session `s`: it was
/// asked by this session, and the session shows variables.
pub open spec fn answer_in_time(
    s: DebugSession,
    response: FetchResponse,
    process_stopped: Option<bool>,
) -> bool {
    response.dap_id == s.dap_id && shows_variables(s.stopped, process_stopped)
}

impl DebugSession {
    /// A click on the row of the node at `path`. Where the children of the
    /// node have to be fetched, the result is the request to send.
    pub fn toggle_variable(&mut self, path: &Vec<usize>) -> (request: Option<FetchRequest>)
        ensures
            final(self).variables@ == toggled(old(self).variables@, path_view(path@)),
            final(self).term_id == old(self).term_id,
            final(self).dap_id == old(self).dap_id,
            final(self).stopped == old(self).stopped,
            final(self).thread_id == old(self).thread_id,
            final(self).stack_traces == old(self).stack_traces,
            final(self).scopes == old(self).scopes,
            match toggled_outcome(old(self).variables@, path_view(path@)) {
                Outcome::Fetch { reference } => request matches Some(r) && r.dap_id == old(
                    self,
                ).dap_id && r.path@ == path@ && r.reference == reference,
                _ => request is None,
            },
    {
        match self.variables.toggle(path) {
            Outcome::Fetch { reference } => Some(
                FetchRequest { dap_id: self.dap_id, path: clone_path(path), reference },
            ),
            _ => None,
        }
    }

    /// The answer to a fetch arrives. It is applied where it is still of
    /// use: the session is the one that asked, it shows variables, and the
    /// node at the path of the answer still waits for it. Any other answer
    /// is dropped and the session stays as it is.
    pub fn variables_fetched(&mut self, response: &FetchResponse, process_stopped: Option<bool>) -> (
    applied: bool)
        ensures
            final(self).term_id == old(self).term_id,
            final(self).dap_id == old(self).dap_id,
            final(self).stopped == old(self).stopped,
            final(self).thread_id == old(self).thread_id,
            final(self).stack_traces == old(self).stack_traces,
            final(self).scopes == old(self).scopes,
            final(self).variables@ == if answer_in_time(*old(self), *response, process_stopped) {
                filled(
                    old(self).variables@,
                    path_view(response.path@),
                    response.reference,
                    leaves_of(response.variables@),
                )
            } else {
                old(self).variables@
            },
            applied == (answer_in_time(*old(self), *response, process_stopped) && filled_outcome(
                old(self).variables@,
                path_view(response.path@),
                response.reference,
            ) == Outcome::Filled),
            !applied ==> final(self).variables@ == old(self).variables@,
    {
        if response.dap_id == self.dap_id && self.stopped && !has_ended(process_stopped) {
            let outcome = self.variables.children_fetched(
                &response.path,
                response.reference,
                &response.variables,
            );
            proof {
                lemma_dropped_answer(
                    old(self).variables@,
                    path_view(response.path@),
                    response.reference,
                    leaves_of(response.variables@),
                );
            }
            match outcome {
                Outcome::Filled => true,
                _ => false,
            }
        } else {
            false
        }
    }
}

/// An answer that no node takes leaves the tree as it is.
pub proof fn lemma_dropped_answer(
    roots: Seq<NodeView>,
    path: Seq<int>,
    reference: usize,
    children: Seq<NodeView>,
)
    ensures
        filled_outcome(roots, path, reference) != Outcome::Filled ==> filled(
            roots,
            path,
            reference,
            children,
        ) == roots,
{
    if node_at(roots, path) is Some {
        lemma_forest_with_same(roots, path);
    }
}

} // verus!
