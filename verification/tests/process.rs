use dap_view_model::ids::{DapId, TermId};
use dap_view_model::process::{
    is_active, press, process_actions, process_icon, process_row, process_rows, select_process,
    session_paused, ActionButton, DebugProcess, ProcessAction, ProcessCommand, ProcessIcon,
    ProcessState, RunDebugMode,
};

fn process(term: u64, mode: RunDebugMode, stopped: bool, name: &str) -> DebugProcess {
    DebugProcess {
        term_id: TermId(term),
        dap_id: DapId(term + 100),
        mode,
        stopped,
        name: name.to_string(),
    }
}

fn button(action: ProcessAction, disabled: bool) -> ActionButton {
    ActionButton { action, disabled }
}

#[test]
fn icon_for_each_mode_and_state() {
    assert_eq!(process_icon(RunDebugMode::Run, false), ProcessIcon::Start);
    assert_eq!(process_icon(RunDebugMode::Run, true), ProcessIcon::RunErrors);
    assert_eq!(process_icon(RunDebugMode::Debug, false), ProcessIcon::Debug);
    assert_eq!(process_icon(RunDebugMode::Debug, true), ProcessIcon::DebugDisconnect);
}

#[test]
fn process_without_session_is_not_paused() {
    assert!(!session_paused(None));
    assert!(!session_paused(Some(false)));
    assert!(session_paused(Some(true)));
}

#[test]
fn run_mode_offers_restart_stop_close() {
    assert_eq!(
        process_actions(RunDebugMode::Run, false, false),
        vec![
            button(ProcessAction::Restart, false),
            button(ProcessAction::Stop, false),
            button(ProcessAction::Close, false),
        ]
    );
    assert_eq!(
        process_actions(RunDebugMode::Run, true, true),
        vec![
            button(ProcessAction::Restart, false),
            button(ProcessAction::Stop, true),
            button(ProcessAction::Close, false),
        ]
    );
}

#[test]
fn debug_mode_running_can_pause_and_not_continue() {
    assert_eq!(
        process_actions(RunDebugMode::Debug, false, false),
        vec![
            button(ProcessAction::Continue, true),
            button(ProcessAction::Pause, false),
            button(ProcessAction::Restart, false),
            button(ProcessAction::Stop, false),
            button(ProcessAction::Close, false),
        ]
    );
}

#[test]
fn debug_mode_paused_can_continue_and_not_pause() {
    assert_eq!(
        process_actions(RunDebugMode::Debug, true, false),
        vec![
            button(ProcessAction::Continue, false),
            button(ProcessAction::Pause, true),
            button(ProcessAction::Restart, false),
            button(ProcessAction::Stop, false),
            button(ProcessAction::Close, false),
        ]
    );
}

#[test]
fn debug_mode_ended_can_neither_continue_nor_pause_nor_stop() {
    for paused in [false, true] {
        assert_eq!(
            process_actions(RunDebugMode::Debug, paused, true),
            vec![
                button(ProcessAction::Continue, true),
                button(ProcessAction::Pause, true),
                button(ProcessAction::Restart, false),
                button(ProcessAction::Stop, true),
                button(ProcessAction::Close, false),
            ]
        );
    }
}

#[test]
fn pressing_an_enabled_button_sends_its_command() {
    let term = TermId(7);
    assert_eq!(press(button(ProcessAction::Continue, false), term), Some(ProcessCommand::Continue(term)));
    assert_eq!(press(button(ProcessAction::Pause, false), term), Some(ProcessCommand::Pause(term)));
    assert_eq!(press(button(ProcessAction::Restart, false), term), Some(ProcessCommand::Restart(term)));
    assert_eq!(press(button(ProcessAction::Stop, false), term), Some(ProcessCommand::Stop(term)));
    assert_eq!(press(button(ProcessAction::Close, false), term), Some(ProcessCommand::Close(term)));
}

#[test]
fn pressing_a_disabled_button_sends_nothing() {
    let term = TermId(7);
    assert_eq!(press(button(ProcessAction::Continue, true), term), None);
    assert_eq!(press(button(ProcessAction::Stop, true), term), None);
}

#[test]
fn row_of_a_paused_debug_process() {
    let p = process(3, RunDebugMode::Debug, false, "server");
    let row = process_row(&p, Some(true), Some(TermId(3)));
    assert_eq!(row.term_id, TermId(3));
    assert_eq!(row.name, "server");
    assert_eq!(row.icon, ProcessIcon::Debug);
    assert!(!row.stopped);
    assert!(row.active);
    assert_eq!(row.actions, process_actions(RunDebugMode::Debug, true, false));
    assert_eq!(row.key(), (TermId(3), false));
}

#[test]
fn row_key_changes_when_the_process_ends() {
    let running = process_row(&process(3, RunDebugMode::Run, false, "job"), None, None);
    let ended = process_row(&process(3, RunDebugMode::Run, true, "job"), None, None);
    assert_ne!(running.key(), ended.key());
    assert_eq!(ended.icon, ProcessIcon::RunErrors);
    assert!(!ended.active);
}

#[test]
fn rows_keep_the_order_and_mark_one_active() {
    let states = vec![
        ProcessState { process: process(1, RunDebugMode::Run, false, "one"), session_stopped: None },
        ProcessState {
            process: process(2, RunDebugMode::Debug, false, "two"),
            session_stopped: Some(false),
        },
        ProcessState {
            process: process(3, RunDebugMode::Debug, true, "three"),
            session_stopped: Some(true),
        },
    ];
    let rows = process_rows(&states, Some(TermId(2)));
    let names: Vec<&str> = rows.iter().map(|r| r.name.as_str()).collect();
    assert_eq!(names, vec!["one", "two", "three"]);
    let active: Vec<bool> = rows.iter().map(|r| r.active).collect();
    assert_eq!(active, vec![false, true, false]);
    assert_eq!(rows[0].actions.len(), 3);
    assert_eq!(rows[1].actions.len(), 5);
    assert_eq!(rows[2].icon, ProcessIcon::DebugDisconnect);
}

#[test]
fn rows_of_no_processes_are_empty() {
    assert!(process_rows(&Vec::new(), None).is_empty());
}

#[test]
fn selecting_a_process_focuses_its_terminal() {
    let mut active = None;
    assert_eq!(select_process(&mut active, TermId(5)), ProcessCommand::Focus(TermId(5)));
    assert_eq!(active, Some(TermId(5)));
    assert_eq!(select_process(&mut active, TermId(6)), ProcessCommand::Focus(TermId(6)));
    assert_eq!(active, Some(TermId(6)));
    assert!(is_active(active, TermId(6)));
    assert!(!is_active(active, TermId(5)));
    assert!(!is_active(None, TermId(5)));
}
