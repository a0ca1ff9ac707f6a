//! The panel as a whole: the processes, their sessions, the selected
//! terminal, the breakpoints and the workspace root, owned by one value.
//!
//! All reading goes through the four projections, all writing through the
//! methods that stand for a click or an arriving answer. The variables and
//! the stack are always those of the one session that is selected: the
//! session of the process in the selected terminal.

use vstd::prelude::*;
use crate::breakpoints::{
    has_entry, row_views as breakpoint_row_views, rows_of, toggled as toggled_entries, without,
    BreakpointIndex, BreakpointRow,
};
use crate::ids::{DapId, TermId, ThreadId};
use crate::process::{
    process_row, process_row_of, process_row_views, select_process, DebugProcess, ProcessCommand,
    ProcessRow, ProcessRowView,
};
use crate::session::{
    answer_in_time, scope_rows, scope_rows_of, stack_rows, stack_rows_of, variable_rows,
    variable_rows_of, DebugSession, FetchRequest, FetchResponse,
};
use crate::stack::{
    has_thread, header_clicked, thread_row_views, toggle_thread, trace_views, ThreadRow,
    ThreadTraceView,
};
use crate::variables::{
    filled, filled_outcome, leaves_of, opt_text, path_view, row_views, scope_views, toggled,
    toggled_outcome, Outcome, ScopeVariables, VariableRow,
};

verus! {

/// The state of the debug panel.
#[derive(Debug)]
pub struct DebugPanel {
    /// The run and debug processes, in the order of their rows.
    pub processes: Vec<DebugProcess>,
    /// The debug sessions.
    pub sessions: Vec<DebugSession>,
    /// The terminal whose process the variable and stack views show.
    pub active_term: Option<TermId>,
    pub breakpoints: BreakpointIndex,
    /// The root of the workspace, against which paths are shown.
    pub workspace_root: Option<String>,
}

/// The index of the first process from `from` on that runs in `term`.
pub open spec fn process_from(processes: Seq<DebugProcess>, term: TermId, from: int) -> Option<int>
    decreases processes.len() - from,
{
    if from < 0 || from >= processes.len() {
        None
    } else if processes[from].term_id == term {
        Some(from)
    } else {
        process_from(processes, term, from + 1)
    }
}

/// The index of the first session from `from` on with the id `dap`.
pub open spec fn session_from(sessions: Seq<DebugSession>, dap: DapId, from: int) -> Option<int>
    decreases sessions.len() - from,
{
    if from < 0 || from >= sessions.len() {
        None
    } else if sessions[from].dap_id == dap {
        Some(from)
    } else {
        session_from(sessions, dap, from + 1)
    }
}

/// The stopped signal of the session `dap`, `None` where there is no such
/// session.
pub open spec fn stopped_signal(sessions: Seq<DebugSession>, dap: DapId) -> Option<bool> {
    match session_from(sessions, dap, 0) {
        Some(i) => Some(sessions[i].stopped),
        None => None,
    }
}

/// The flag of the process in `term` that says whether it has ended,
/// `None` where no process runs there.
pub open spec fn process_flag(processes: Seq<DebugProcess>, term: TermId) -> Option<bool> {
    match process_from(processes, term, 0) {
        Some(i) => Some(processes[i].stopped),
        None => None,
    }
}

/// Finds the process that runs in `term`.
pub fn find_process(processes: &Vec<DebugProcess>, term: TermId) -> (r: Option<usize>)
    ensures
        match r {
            Some(i) => process_from(processes@, term, 0) == Some(i as int) && i < processes.len()
                && processes[i as int].term_id == term,
            None => process_from(processes@, term, 0) is None,
        },
{
    let mut i: usize = 0;
    while i < processes.len()
        invariant
            i <= processes.len(),
            process_from(processes@, term, 0) == process_from(processes@, term, i as int),
        decreases processes.len() - i,
    {
        if processes[i].term_id == term {
            return Some(i);
        }
        i += 1;
    }
    None
}

/// Finds the session with the id `dap`.
pub fn find_session(sessions: &Vec<DebugSession>, dap: DapId) -> (r: Option<usize>)
    ensures
        match r {
            Some(i) => session_from(sessions@, dap, 0) == Some(i as int) && i < sessions.len()
                && sessions[i as int].dap_id == dap,
            None => session_from(sessions@, dap, 0) is None,
        },
{
    let mut i: usize = 0;
    while i < sessions.len()
        invariant
            i <= sessions.len(),
            session_from(sessions@, dap, 0) == session_from(sessions@, dap, i as int),
        decreases sessions.len() - i,
    {
        if sessions[i].dap_id == dap {
            return Some(i);
        }
        i += 1;
    }
    None
}

/// The index of the selected session: that of the process in the selected
/// terminal. Without a selected terminal, without a process in it, and
/// without a session for that process there is none.
pub open spec fn selected_session(
    processes: Seq<DebugProcess>,
    sessions: Seq<DebugSession>,
    active_term: Option<TermId>,
) -> Option<int> {
    match active_term {
        Some(term) => match process_from(processes, term, 0) {
            Some(p) => session_from(sessions, processes[p].dap_id, 0),
            None => None,
        },
        None => None,
    }
}

/// `after` is `before` but for the variable tree.
pub open spec fn same_but_variables(before: DebugSession, after: DebugSession) -> bool {
    &&& after.term_id == before.term_id
    &&& after.dap_id == before.dap_id
    &&& after.stopped == before.stopped
    &&& after.thread_id == before.thread_id
    &&& after.stack_traces == before.stack_traces
    &&& after.scopes == before.scopes
}

/// `after` is `before` but for the traces of its threads.
pub open spec fn same_but_traces(before: DebugSession, after: DebugSession) -> bool {
    &&& after.term_id == before.term_id
    &&& after.dap_id == before.dap_id
    &&& after.stopped == before.stopped
    &&& after.thread_id == before.thread_id
    &&& after.variables == before.variables
    &&& after.scopes == before.scopes
}

/// `after` holds the sessions of `before` but for the one at `i`.
pub open spec fn same_but_at(before: Seq<DebugSession>, after: Seq<DebugSession>, i: int) -> bool {
    &&& after.len() == before.len()
    &&& forall|j: int| 0 <= j < before.len() && j != i ==> #[trigger] after[j] == before[j]
}

impl DebugPanel {
    /// The breakpoints are listed in order.
    pub open spec fn wf(&self) -> bool {
        self.breakpoints.wf()
    }

    /// The index of the selected session.
    pub open spec fn active_session(&self) -> Option<int> {
        selected_session(self.processes@, self.sessions@, self.active_term)
    }

    /// The selected session.
    pub open spec fn active_ref(&self) -> Option<&DebugSession> {
        match self.active_session() {
            Some(i) => Some(&self.sessions@[i]),
            None => None,
        }
    }

    /// The flag of the process of the selected session.
    pub open spec fn active_process_flag(&self) -> Option<bool> {
        match self.active_session() {
            Some(i) => process_flag(self.processes@, self.sessions@[i].term_id),
            None => None,
        }
    }

    /// The rows of the process list.
    pub open spec fn process_rows_spec(&self) -> Seq<ProcessRowView> {
        self.processes@.map_values(
            |p: DebugProcess|
                process_row_of(p, stopped_signal(self.sessions@, p.dap_id), self.active_term),
        )
    }

    /// Everything but the sessions is as in `before`.
    pub open spec fn same_frame(&self, before: &DebugPanel) -> bool {
        &&& self.processes == before.processes
        &&& self.active_term == before.active_term
        &&& self.breakpoints == before.breakpoints
        &&& self.workspace_root == before.workspace_root
    }

    /// A panel without processes, sessions and breakpoints, with nothing
    /// selected.
    pub fn new(workspace_root: Option<String>) -> (panel: Self)
        ensures
            panel.wf(),
            panel.processes@.len() == 0,
            panel.sessions@.len() == 0,
            panel.active_term is None,
            panel.breakpoints@.len() == 0,
            panel.workspace_root == workspace_root,
            panel.active_session() is None,
    {
        DebugPanel {
            processes: Vec::new(),
            sessions: Vec::new(),
            active_term: None,
            breakpoints: BreakpointIndex::new(),
            workspace_root,
        }
    }

    /// The index of the selected session, if one is selected.
    pub fn active_session_index(&self) -> (r: Option<usize>)
        ensures
            match r {
                Some(i) => self.active_session() == Some(i as int) && i < self.sessions@.len(),
                None => self.active_session() is None,
            },
    {
        match self.active_term {
            Some(term) => match find_process(&self.processes, term) {
                Some(p) => find_session(&self.sessions, self.processes[p].dap_id),
                None => None,
            },
            None => None,
        }
    }

    /// Whether the process of the session at `i` has ended, `None` where it
    /// is not known.
    fn process_flag_of(&self, i: usize) -> (r: Option<bool>)
        requires
            i < self.sessions@.len(),
        ensures
            r == process_flag(self.processes@, self.sessions@[i as int].term_id),
    {
        match find_process(&self.processes, self.sessions[i].term_id) {
            Some(p) => Some(self.processes[p].stopped),
            None => None,
        }
    }

    /// The rows of the process list, one for each process in their order.
    /// The row of the process in the selected terminal is marked active.
    pub fn process_rows(&self) -> (rows: Vec<ProcessRow>)
        ensures
            process_row_views(rows@) == self.process_rows_spec(),
    {
        let ghost all = self.process_rows_spec();
        let mut rows: Vec<ProcessRow> = Vec::new();
        let mut i: usize = 0;
        while i < self.processes.len()
            invariant
                i <= self.processes.len(),
                all == self.process_rows_spec(),
                process_row_views(rows@) == all.take(i as int),
            decreases self.processes.len() - i,
        {
            let p = &self.processes[i];
            let session_stopped = match find_session(&self.sessions, p.dap_id) {
                Some(s) => Some(self.sessions[s].stopped),
                None => None,
            };
            rows.push(process_row(p, session_stopped, self.active_term));
            proof {
                assert(process_row_views(rows@) =~= all.take(i as int).push(all[i as int]));
                assert(all.take(i + 1) =~= all.take(i as int).push(all[i as int]));
            }
            i += 1;
        }
        proof {
            assert(all.take(i as int) =~= all);
        }
        rows
    }

    /// The rows of the variable view: those of the selected session, and
    /// none where nothing is selected, the debuggee runs or the process has
    /// ended.
    pub fn variable_rows(&self) -> (rows: Vec<VariableRow>)
        ensures
            row_views(rows@) == variable_rows_of(self.active_ref(), self.active_process_flag()),
    {
        match self.active_session_index() {
            Some(i) => variable_rows(Some(&self.sessions[i]), self.process_flag_of(i)),
            None => variable_rows(None, None),
        }
    }

    /// The scopes of the plain variable view, under the same rule.
    pub fn scope_rows(&self) -> (rows: Vec<ScopeVariables>)
        ensures
            scope_views(rows@) == scope_rows_of(self.active_ref(), self.active_process_flag()),
    {
        match self.active_session_index() {
            Some(i) => scope_rows(Some(&self.sessions[i]), self.process_flag_of(i)),
            None => scope_rows(None, None),
        }
    }

    /// The rows of the stack view: the threads of the selected session.
    pub fn stack_rows(&self) -> (rows: Vec<ThreadRow>)
        ensures
            thread_row_views(rows@) == stack_rows_of(
                self.active_ref(),
                self.active_process_flag(),
            ),
    {
        match self.active_session_index() {
            Some(i) => stack_rows(Some(&self.sessions[i]), self.process_flag_of(i)),
            None => stack_rows(None, None),
        }
    }

    /// The rows of the breakpoint view, in the listing order, with paths
    /// shown against the workspace root.
    pub fn breakpoint_rows(&self) -> (rows: Vec<BreakpointRow>)
        ensures
            breakpoint_row_views(rows@) == rows_of(
                self.breakpoints@,
                opt_text(self.workspace_root),
            ),
    {
        match &self.workspace_root {
            Some(root) => self.breakpoints.rows(Some(root.as_str())),
            None => self.breakpoints.rows(None),
        }
    }

    /// A click on the row of the process in `term_id`: that terminal becomes
    /// the selected one, and the result asks to bring it to the front.
    /// Nothing else selects a session.
    pub fn click_process(&mut self, term_id: TermId) -> (command: ProcessCommand)
        ensures
            final(self).active_term == Some(term_id),
            command == ProcessCommand::Focus(term_id),
            final(self).processes == old(self).processes,
            final(self).sessions == old(self).sessions,
            final(self).breakpoints == old(self).breakpoints,
            final(self).workspace_root == old(self).workspace_root,
    {
        select_process(&mut self.active_term, term_id)
    }

    /// A click on the variable row of the node at `path`, in the selected
    /// session. Where children have to be fetched the result is the request
    /// to send. Without a selected session nothing happens.
    pub fn toggle_variable(&mut self, path: &Vec<usize>) -> (request: Option<FetchRequest>)
        ensures
            final(self).same_frame(old(self)),
            match old(self).active_session() {
                Some(i) => {
                    let before = old(self).sessions@[i];
                    let after = final(self).sessions@[i];
                    &&& same_but_at(old(self).sessions@, final(self).sessions@, i)
                    &&& same_but_variables(before, after)
                    &&& after.variables@ == toggled(before.variables@, path_view(path@))
                    &&& match toggled_outcome(before.variables@, path_view(path@)) {
                        Outcome::Fetch { reference } => request matches Some(r) && r.dap_id
                            == before.dap_id && r.path@ == path@ && r.reference == reference,
                        _ => request is None,
                    }
                },
                None => final(self).sessions == old(self).sessions && request is None,
            },
    {
        match self.active_session_index() {
            Some(i) => {
                let session = &mut self.sessions[i];
                session.toggle_variable(path)
            },
            None => None,
        }
    }

    /// The answer to a fetch arrives. It is applied to the selected session
    /// where it is still of use: that session asked for it, its variables
    /// are shown, and the node still waits. An answer for a session that is
    /// no longer selected, or that ran on or ended meanwhile, is dropped.
    pub fn variables_fetched(&mut self, response: &FetchResponse) -> (applied: bool)
        ensures
            final(self).same_frame(old(self)),
            match old(self).active_session() {
                Some(i) => {
                    let before = old(self).sessions@[i];
                    let after = final(self).sessions@[i];
                    let flag = old(self).active_process_flag();
                    &&& same_but_at(old(self).sessions@, final(self).sessions@, i)
                    &&& same_but_variables(before, after)
                    &&& after.variables@ == if answer_in_time(before, *response, flag) {
                        filled(
                            before.variables@,
                            path_view(response.path@),
                            response.reference,
                            leaves_of(response.variables@),
                        )
                    } else {
                        before.variables@
                    }
                    &&& applied == (answer_in_time(before, *response, flag) && filled_outcome(
                        before.variables@,
                        path_view(response.path@),
                        response.reference,
                    ) == Outcome::Filled)
                    &&& !applied ==> after.variables@ == before.variables@
                },
                None => final(self).sessions == old(self).sessions && !applied,
            },
    {
        match self.active_session_index() {
            Some(i) => {
                let flag = self.process_flag_of(i);
                let session = &mut self.sessions[i];
                session.variables_fetched(response, flag)
            },
            None => false,
        }
    }

    /// A click on the header of the thread `thread_id` in the selected
    /// session opens or closes its trace. The result says whether the
    /// selected session has such a thread.
    pub fn toggle_thread(&mut self, thread_id: ThreadId) -> (found: bool)
        ensures
            final(self).same_frame(old(self)),
            match old(self).active_session() {
                Some(i) => {
                    let before = old(self).sessions@[i];
                    let after = final(self).sessions@[i];
                    &&& same_but_at(old(self).sessions@, final(self).sessions@, i)
                    &&& same_but_traces(before, after)
                    &&& trace_views(after.stack_traces@) == trace_views(
                        before.stack_traces@,
                    ).map_values(|t: ThreadTraceView| header_clicked(t, thread_id))
                    &&& found == has_thread(trace_views(before.stack_traces@), thread_id)
                },
                None => final(self).sessions == old(self).sessions && !found,
            },
    {
        match self.active_session_index() {
            Some(i) => {
                let session = &mut self.sessions[i];
                toggle_thread(&mut session.stack_traces, thread_id)
            },
            None => false,
        }
    }

    /// A click on the box of the breakpoint on `line` of `path` flips its
    /// `active` flag. Without such a breakpoint nothing changes, and none is
    /// created.
    pub fn toggle_breakpoint(&mut self, path: &str, line: usize) -> (found: bool)
        requires
            old(self).wf(),
        ensures
            final(self).wf(),
            found == has_entry(old(self).breakpoints@, path@, line),
            final(self).breakpoints@ == toggled_entries(old(self).breakpoints@, path@, line),
            !found ==> final(self).breakpoints@ == old(self).breakpoints@,
            final(self).processes == old(self).processes,
            final(self).sessions == old(self).sessions,
            final(self).active_term == old(self).active_term,
            final(self).workspace_root == old(self).workspace_root,
    {
        self.breakpoints.toggle(path, line)
    }

    /// A click on the cross of the breakpoint on `line` of `path` deletes
    /// it. Without such a breakpoint nothing changes.
    pub fn remove_breakpoint(&mut self, path: &str, line: usize) -> (removed: bool)
        requires
            old(self).wf(),
        ensures
            final(self).wf(),
            removed == has_entry(old(self).breakpoints@, path@, line),
            final(self).breakpoints@ == without(old(self).breakpoints@, path@, line),
            !removed ==> final(self).breakpoints@ == old(self).breakpoints@,
            final(self).processes == old(self).processes,
            final(self).sessions == old(self).sessions,
            final(self).active_term == old(self).active_term,
            final(self).workspace_root == old(self).workspace_root,
    {
        self.breakpoints.remove(path, line)
    }
}

} // verus!
