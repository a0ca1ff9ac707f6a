use dap_view_model::frames::StackFrame;
use dap_view_model::ids::{is_current_thread, DapId, ThreadId};
use dap_view_model::navigation::JumpPosition;
use dap_view_model::stack::{
    frame_row, frame_rows, new_trace, order_threads, thread_rows, toggle_expanded, toggle_thread,
    visible_frames, StackTraceData, ThreadTrace,
};

fn frame(id: usize, name: &str, path: Option<&str>, line: usize, column: usize) -> StackFrame {
    StackFrame { id, name: name.to_string(), path: path.map(|p| p.to_string()), line, column }
}

fn trace(expanded: bool, frames: Vec<StackFrame>) -> StackTraceData {
    StackTraceData { expanded, frames: frames.into_iter().collect() }
}

fn thread(id: i64, expanded: bool, frames: Vec<StackFrame>) -> ThreadTrace {
    ThreadTrace { thread_id: ThreadId(id), trace: trace(expanded, frames) }
}

fn ids(traces: &[ThreadTrace]) -> Vec<i64> {
    traces.iter().map(|t| t.thread_id.0).collect()
}

fn two_frames() -> Vec<StackFrame> {
    vec![frame(1, "main", Some("/ws/src/main.rs"), 12, 5), frame(2, "start", None, 0, 0)]
}

#[test]
fn main_thread_sorts_first() {
    let traces = vec![thread(1, false, vec![]), thread(2, false, vec![]), thread(3, false, vec![])];
    let ordered = order_threads(&traces, Some(ThreadId(3)));
    assert_eq!(ids(&ordered), vec![3, 1, 2]);
}

#[test]
fn other_threads_keep_their_order() {
    let traces = vec![
        thread(9, false, vec![]),
        thread(4, false, vec![]),
        thread(7, false, vec![]),
        thread(1, false, vec![]),
    ];
    let ordered = order_threads(&traces, Some(ThreadId(7)));
    assert_eq!(ids(&ordered), vec![7, 9, 4, 1]);
}

#[test]
fn order_is_kept_without_a_main_thread() {
    let traces = vec![thread(2, false, vec![]), thread(1, false, vec![]), thread(3, false, vec![])];
    assert_eq!(ids(&order_threads(&traces, None)), vec![2, 1, 3]);
    assert_eq!(ids(&order_threads(&traces, Some(ThreadId(42)))), vec![2, 1, 3]);
}

#[test]
fn main_thread_already_first_stays_first() {
    let traces = vec![thread(1, false, vec![]), thread(2, false, vec![])];
    assert_eq!(ids(&order_threads(&traces, Some(ThreadId(1)))), vec![1, 2]);
}

#[test]
fn ordering_no_threads_gives_none() {
    assert!(order_threads(&Vec::new(), Some(ThreadId(1))).is_empty());
}

#[test]
fn ordering_keeps_frames_and_flags() {
    let traces = vec![thread(1, false, vec![]), thread(2, true, two_frames())];
    let ordered = order_threads(&traces, Some(ThreadId(2)));
    assert_eq!(ordered[0].thread_id, ThreadId(2));
    assert!(ordered[0].trace.expanded);
    assert_eq!(ordered[0].trace.frames.len(), 2);
    assert_eq!(ordered[0].trace.frames[0].name, "main");
    assert!(!ordered[1].trace.expanded);
    assert_eq!(ordered[1].trace.frames.len(), 0);
}

#[test]
fn current_thread_is_compared_by_id() {
    assert!(is_current_thread(Some(ThreadId(4)), ThreadId(4)));
    assert!(!is_current_thread(Some(ThreadId(4)), ThreadId(5)));
    assert!(!is_current_thread(None, ThreadId(4)));
}

#[test]
fn frames_are_visible_when_expanded_and_stopped() {
    let shown = visible_frames(&trace(true, two_frames()), true);
    assert_eq!(shown.len(), 2);
    assert_eq!(shown[0].id, 1);
    assert_eq!(shown[1].id, 2);
}

#[test]
fn frames_are_hidden_while_the_debuggee_runs() {
    assert_eq!(visible_frames(&trace(true, two_frames()), false).len(), 0);
    assert!(frame_rows(&trace(true, two_frames()), false).is_empty());
}

#[test]
fn frames_are_hidden_while_the_thread_is_closed() {
    assert_eq!(visible_frames(&trace(false, two_frames()), true).len(), 0);
    assert_eq!(visible_frames(&trace(false, two_frames()), false).len(), 0);
    assert!(frame_rows(&trace(false, two_frames()), true).is_empty());
}

#[test]
fn new_trace_starts_closed() {
    let t = new_trace(two_frames().into_iter().collect());
    assert!(!t.expanded);
    assert_eq!(t.frames.len(), 2);
}

#[test]
fn toggle_expanded_flips_and_keeps_frames() {
    let mut t = trace(false, two_frames());
    toggle_expanded(&mut t);
    assert!(t.expanded);
    assert_eq!(t.frames.len(), 2);
    toggle_expanded(&mut t);
    assert!(!t.expanded);
    assert_eq!(t.frames.len(), 2);
}

#[test]
fn frame_row_converts_to_zero_based() {
    let row = frame_row(&frame(8, "run", Some("/ws/src/lib.rs"), 12, 5));
    assert_eq!(row.id, 8);
    assert_eq!(row.key(), 8);
    assert_eq!(row.name, "run");
    assert_eq!(row.file_name, "lib.rs");
    assert_eq!(row.line, 12);
    assert!(!row.dimmed);
    let target = row.click().unwrap();
    assert_eq!(target.path, "/ws/src/lib.rs");
    assert_eq!(target.position, JumpPosition::Position { line: 11, column: 4 });
}

#[test]
fn frame_row_floors_malformed_coordinates_at_zero() {
    let row = frame_row(&frame(1, "f", Some("/a.rs"), 0, 0));
    assert_eq!(row.click().unwrap().position, JumpPosition::Position { line: 0, column: 0 });
    let row = frame_row(&frame(1, "f", Some("/a.rs"), 1, 0));
    assert_eq!(row.click().unwrap().position, JumpPosition::Position { line: 0, column: 0 });
    let row = frame_row(&frame(1, "f", Some("/a.rs"), 0, 3));
    assert_eq!(row.click().unwrap().position, JumpPosition::Position { line: 0, column: 2 });
}

#[test]
fn frame_without_source_is_dimmed_and_leads_nowhere() {
    let row = frame_row(&frame(2, "start", None, 30, 1));
    assert!(row.dimmed);
    assert!(row.target.is_none());
    assert!(row.click().is_none());
    assert_eq!(row.file_name, "");
    assert_eq!(row.line, 30);
}

#[test]
fn frame_whose_path_has_no_file_name_is_dimmed() {
    let row = frame_row(&frame(3, "root", Some("/"), 1, 1));
    assert!(row.dimmed);
    assert_eq!(row.file_name, "");
    assert_eq!(row.click().unwrap().path, "/");
}

#[test]
fn frame_rows_follow_the_frames() {
    let rows = frame_rows(&trace(true, two_frames()), true);
    assert_eq!(rows.len(), 2);
    assert_eq!(rows[0].name, "main");
    assert_eq!(rows[0].file_name, "main.rs");
    assert!(!rows[0].dimmed);
    assert_eq!(rows[1].name, "start");
    assert!(rows[1].dimmed);
    assert!(rows[1].target.is_none());
}

#[test]
fn frame_rows_of_a_long_trace() {
    let frames: Vec<StackFrame> =
        (0..200).map(|i| frame(i, "f", Some("/ws/a.rs"), i + 1, 1)).collect();
    let rows = frame_rows(&trace(true, frames), true);
    assert_eq!(rows.len(), 200);
    for (i, row) in rows.iter().enumerate() {
        assert_eq!(row.id, i);
        assert_eq!(row.line, i + 1);
        assert_eq!(
            row.click().unwrap().position,
            JumpPosition::Position { line: i, column: 0 }
        );
    }
}

#[test]
fn thread_rows_show_frames_only_when_stopped() {
    let traces = vec![thread(1, true, two_frames()), thread(2, false, two_frames())];
    let rows = thread_rows(&traces, DapId(5), true, Some(ThreadId(2)));
    assert_eq!(rows.len(), 2);
    assert_eq!(rows[0].thread_id, ThreadId(2));
    assert!(!rows[0].expanded);
    assert!(rows[0].frames.is_empty());
    assert_eq!(rows[1].thread_id, ThreadId(1));
    assert_eq!(rows[1].frames.len(), 2);
    assert_eq!(rows[1].key(), (DapId(5), ThreadId(1), true));

    let running = thread_rows(&traces, DapId(5), false, Some(ThreadId(2)));
    assert_eq!(running.len(), 2);
    assert!(running[0].frames.is_empty());
    assert!(running[1].frames.is_empty());
    assert_eq!(running[1].key(), (DapId(5), ThreadId(1), false));
}

#[test]
fn toggle_thread_opens_and_closes_the_trace() {
    let mut traces = vec![thread(1, false, two_frames()), thread(2, false, vec![])];
    assert!(toggle_thread(&mut traces, ThreadId(1)));
    assert!(traces[0].trace.expanded);
    assert!(!traces[1].trace.expanded);
    assert_eq!(traces[0].trace.frames.len(), 2);
    assert!(toggle_thread(&mut traces, ThreadId(1)));
    assert!(!traces[0].trace.expanded);
}

#[test]
fn toggle_thread_of_unknown_thread_changes_nothing() {
    let mut traces = vec![thread(1, true, two_frames()), thread(2, false, vec![])];
    assert!(!toggle_thread(&mut traces, ThreadId(3)));
    assert!(traces[0].trace.expanded);
    assert!(!traces[1].trace.expanded);
    assert_eq!(ids(&traces), vec![1, 2]);
}
