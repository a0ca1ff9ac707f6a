//! The list of run and debug processes: the state each row shows, the
//! actions it offers, and the commands that pressing them sends.

use vstd::prelude::*;
use crate::ids::{DapId, TermId};

verus! {

/// How a process was started.
#[derive(Clone, Copy, Debug, PartialEq, Eq, Structural)]
pub enum RunDebugMode {
    Run,
    Debug,
}

/// A process that runs in a terminal, with or without a debugger.
#[derive(Clone, Debug, PartialEq, Eq)]
pub struct DebugProcess {
    pub term_id: TermId,
    pub dap_id: DapId,
    pub mode: RunDebugMode,
    /// Whether the process has ended.
    pub stopped: bool,
    /// The name of the configuration that started it.
    pub name: String,
}

/// The state that the row of a process shows.
#[derive(Clone, Copy, Debug, PartialEq, Eq, Structural)]
pub enum ProcessIcon {
    /// Started without a debugger and still running.
    Start,
    /// Started without a debugger and ended.
    RunErrors,
    /// Under a debugger and still running.
    Debug,
    /// Under a debugger and ended.
    DebugDisconnect,
}

/// What can be done to a process.
#[derive(Clone, Copy, Debug, PartialEq, Eq, Structural, Hash)]
pub enum ProcessAction {
    Continue,
    Pause,
    Restart,
    Stop,
    Close,
}

/// An action that a row offers, and whether it can be pressed.
#[derive(Clone, Copy, Debug, PartialEq, Eq, Structural)]
pub struct ActionButton {
    pub action: ProcessAction,
    pub disabled: bool,
}

/// A command for the process behind a terminal. Commands are sent and not
/// answered.
#[derive(Clone, Copy, Debug, PartialEq, Eq, Structural)]
pub enum ProcessCommand {
    Continue(TermId),
    Pause(TermId),
    Restart(TermId),
    Stop(TermId),
    Close(TermId),
    /// Bring the terminal to the front.
    Focus(TermId),
}

/// The icon for a process of the given mode that has or has not ended.
pub open spec fn icon_for(mode: RunDebugMode, stopped: bool) -> ProcessIcon {
    match (mode, stopped) {
        (RunDebugMode::Run, false) => ProcessIcon::Start,
        (RunDebugMode::Run, true) => ProcessIcon::RunErrors,
        (RunDebugMode::Debug, false) => ProcessIcon::Debug,
        (RunDebugMode::Debug, true) => ProcessIcon::DebugDisconnect,
    }
}

/// Whether the debuggee is paused, given the stopped signal of its session.
/// A process without a session is not paused.
pub open spec fn paused_of(session_stopped: Option<bool>) -> bool {
    match session_stopped {
        Some(stopped) => stopped,
        None => false,
    }
}

/// The buttons of a process. `paused` says whether its debuggee is paused,
/// `stopped` whether the process has ended.
///
/// A process that runs without a debugger can be restarted, stopped and
/// closed. Under a debugger it can also be continued and paused: continued
/// only while it is paused and has not ended, paused only while it is
/// neither. Stopping is disabled once the process has ended.
pub open spec fn buttons_for(mode: RunDebugMode, paused: bool, stopped: bool) -> Seq<ActionButton> {
    match mode {
        RunDebugMode::Run => seq![
            ActionButton { action: ProcessAction::Restart, disabled: false },
            ActionButton { action: ProcessAction::Stop, disabled: stopped },
            ActionButton { action: ProcessAction::Close, disabled: false },
        ],
        RunDebugMode::Debug => seq![
            ActionButton { action: ProcessAction::Continue, disabled: !paused || stopped },
            ActionButton { action: ProcessAction::Pause, disabled: paused || stopped },
            ActionButton { action: ProcessAction::Restart, disabled: false },
            ActionButton { action: ProcessAction::Stop, disabled: stopped },
            ActionButton { action: ProcessAction::Close, disabled: false },
        ],
    }
}

/// The command that `action` sends to the terminal `term_id`.
pub open spec fn command_for(action: ProcessAction, term_id: TermId) -> ProcessCommand {
    match action {
        ProcessAction::Continue => ProcessCommand::Continue(term_id),
        ProcessAction::Pause => ProcessCommand::Pause(term_id),
        ProcessAction::Restart => ProcessCommand::Restart(term_id),
        ProcessAction::Stop => ProcessCommand::Stop(term_id),
        ProcessAction::Close => ProcessCommand::Close(term_id),
    }
}

/// The icon of a process.
pub fn process_icon(mode: RunDebugMode, stopped: bool) -> (icon: ProcessIcon)
    ensures
        icon == icon_for(mode, stopped),
{
    match mode {
        RunDebugMode::Run => if stopped {
            ProcessIcon::RunErrors
        } else {
            ProcessIcon::Start
        },
        RunDebugMode::Debug => if stopped {
            ProcessIcon::DebugDisconnect
        } else {
            ProcessIcon::Debug
        },
    }
}

/// Whether the debuggee of a process is paused. `session_stopped` is the
/// stopped signal of the session of the process, `None` where it has none.
pub fn session_paused(session_stopped: Option<bool>) -> (paused: bool)
    ensures
        paused == paused_of(session_stopped),
{
    match session_stopped {
        Some(stopped) => stopped,
        None => false,
    }
}

/// The buttons of a process, in the order in which they are shown.
pub fn process_actions(mode: RunDebugMode, paused: bool, stopped: bool) -> (buttons: Vec<
    ActionButton,
>)
    ensures
        buttons@ == buttons_for(mode, paused, stopped),
{
    let mut buttons: Vec<ActionButton> = Vec::new();
    match mode {
        RunDebugMode::Run => {},
        RunDebugMode::Debug => {
            buttons.push(
                ActionButton { action: ProcessAction::Continue, disabled: !paused || stopped },
            );
            buttons.push(ActionButton { action: ProcessAction::Pause, disabled: paused || stopped });
        },
    }
    buttons.push(ActionButton { action: ProcessAction::Restart, disabled: false });
    buttons.push(ActionButton { action: ProcessAction::Stop, disabled: stopped });
    buttons.push(ActionButton { action: ProcessAction::Close, disabled: false });
    assert(buttons@ =~= buttons_for(mode, paused, stopped));
    buttons
}

/// The command that pressing `button` on the row of `term_id` sends. A
/// disabled button sends none.
pub fn press(button: ActionButton, term_id: TermId) -> (command: Option<ProcessCommand>)
    ensures
        command == if button.disabled {
            None
        } else {
            Some(command_for(button.action, term_id))
        },
{
    if button.disabled {
        None
    } else {
        Some(
            match button.action {
                ProcessAction::Continue => ProcessCommand::Continue(term_id),
                ProcessAction::Pause => ProcessCommand::Pause(term_id),
                ProcessAction::Restart => ProcessCommand::Restart(term_id),
                ProcessAction::Stop => ProcessCommand::Stop(term_id),
                ProcessAction::Close => ProcessCommand::Close(term_id),
            },
        )
    }
}

/// A process together with the stopped signal of its debug session, `None`
/// where no session is registered for it.
#[derive(Clone, Debug, PartialEq, Eq)]
pub struct ProcessState {
    pub process: DebugProcess,
    pub session_stopped: Option<bool>,
}

/// The row of a process.
#[derive(Clone, Debug, PartialEq, Eq)]
pub struct ProcessRow {
    pub term_id: TermId,
    pub name: String,
    pub icon: ProcessIcon,
    /// Whether the process has ended.
    pub stopped: bool,
    /// Whether this is the process that the other views show.
    pub active: bool,
    pub actions: Vec<ActionButton>,
}

/// The mathematical value of a row.
pub ghost struct ProcessRowView {
    pub term_id: TermId,
    pub name: Seq<char>,
    pub icon: ProcessIcon,
    pub stopped: bool,
    pub active: bool,
    pub actions: Seq<ActionButton>,
}

impl View for ProcessRow {
    type V = ProcessRowView;

    open spec fn view(&self) -> ProcessRowView {
        ProcessRowView {
            term_id: self.term_id,
            name: self.name@,
            icon: self.icon,
            stopped: self.stopped,
            active: self.active,
            actions: self.actions@,
        }
    }
}

/// The values of a run of rows.
pub open spec fn process_row_views(rows: Seq<ProcessRow>) -> Seq<ProcessRowView> {
    rows.map_values(|r: ProcessRow| r@)
}

/// The row for a process, given the stopped signal of its session and the
/// terminal that is selected.
pub open spec fn process_row_of(
    p: DebugProcess,
    session_stopped: Option<bool>,
    active_term: Option<TermId>,
) -> ProcessRowView {
    ProcessRowView {
        term_id: p.term_id,
        name: p.name@,
        icon: icon_for(p.mode, p.stopped),
        stopped: p.stopped,
        active: active_term == Some(p.term_id),
        actions: buttons_for(p.mode, paused_of(session_stopped), p.stopped),
    }
}

/// The rows for a run of processes, one for each, in the same order.
pub open spec fn process_rows_of(states: Seq<ProcessState>, active_term: Option<TermId>) -> Seq<
    ProcessRowView,
> {
    states.map_values(|s: ProcessState| process_row_of(s.process, s.session_stopped, active_term))
}

/// What tells one row from another when the list is drawn again: the
/// terminal and whether the process has ended.
pub open spec fn process_row_key(r: ProcessRowView) -> (TermId, bool) {
    (r.term_id, r.stopped)
}

/// Whether `term_id` is the selected terminal.
pub fn is_active(active_term: Option<TermId>, term_id: TermId) -> (r: bool)
    ensures
        r == (active_term == Some(term_id)),
{
    match active_term {
        Some(t) => t == term_id,
        None => false,
    }
}

/// Builds the row of a process. `session_stopped` is the stopped signal of
/// its session, `None` where it has none.
pub fn process_row(
    p: &DebugProcess,
    session_stopped: Option<bool>,
    active_term: Option<TermId>,
) -> (row: ProcessRow)
    ensures
        row@ == process_row_of(*p, session_stopped, active_term),
{
    ProcessRow {
        term_id: p.term_id,
        name: p.name.clone(),
        icon: process_icon(p.mode, p.stopped),
        stopped: p.stopped,
        active: is_active(active_term, p.term_id),
        actions: process_actions(p.mode, session_paused(session_stopped), p.stopped),
    }
}

/// Builds the rows of all processes, in their order.
pub fn process_rows(states: &Vec<ProcessState>, active_term: Option<TermId>) -> (rows: Vec<
    ProcessRow,
>)
    ensures
        process_row_views(rows@) == process_rows_of(states@, active_term),
        rows@.len() == states@.len(),
{
    let mut rows: Vec<ProcessRow> = Vec::new();
    let mut i: usize = 0;
    while i < states.len()
        invariant
            i <= states.len(),
            process_row_views(rows@) == process_rows_of(states@, active_term).take(i as int),
        decreases states.len() - i,
    {
        let ghost all = process_rows_of(states@, active_term);
        rows.push(process_row(&states[i].process, states[i].session_stopped, active_term));
        proof {
            assert(process_row_views(rows@) =~= all.take(i as int).push(all[i as int]));
            assert(all.take(i + 1) =~= all.take(i as int).push(all[i as int]));
        }
        i += 1;
    }
    proof {
        let all = process_rows_of(states@, active_term);
        assert(all.take(i as int) =~= all);
        assert(process_row_views(rows@).len() == rows@.len());
    }
    rows
}

impl ProcessRow {
    /// The key of the row.
    pub fn key(&self) -> (k: (TermId, bool))
        ensures
            k == process_row_key(self@),
    {
        (self.term_id, self.stopped)
    }
}

/// A click on the row of `term_id`: that terminal becomes the selected one,
/// and it is brought to the front.
pub fn select_process(active_term: &mut Option<TermId>, term_id: TermId) -> (command: ProcessCommand)
    ensures
        *final(active_term) == Some(term_id),
        command == ProcessCommand::Focus(term_id),
{
    *active_term = Some(term_id);
    ProcessCommand::Focus(term_id)
}

} // verus!
