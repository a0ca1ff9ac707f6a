//! The stack traces of a session: the threads in the order in which they
//! are shown, and for each thread the frames that are visible.

use vstd::prelude::*;
use crate::frames::{frame_at, frame_count, frames_of, no_frames, share_frames, StackFrame};
use crate::ids::{is_current_thread, DapId, ThreadId};
use crate::navigation::{to_zero_based_pair, zero_based, JumpPosition, JumpTarget, JumpTargetView};
use crate::paths::{file_name_or_empty, path_file_name, text_or_empty};
use crate::seq_facts::{lemma_filter_drops_all, lemma_filter_keeps_all, lemma_filter_push};

verus! {

/// The stack of one thread: its frames, and whether the user has opened it.
/// A trace starts closed.
#[derive(Debug)]
pub struct StackTraceData {
    pub expanded: bool,
    pub frames: im::Vector<StackFrame>,
}

/// A thread and its stack.
#[derive(Debug)]
pub struct ThreadTrace {
    pub thread_id: ThreadId,
    pub trace: StackTraceData,
}

/// The mathematical value of a [`ThreadTrace`].
pub ghost struct ThreadTraceView {
    pub thread_id: ThreadId,
    pub expanded: bool,
    pub frames: Seq<StackFrame>,
}

impl View for ThreadTrace {
    type V = ThreadTraceView;

    open spec fn view(&self) -> ThreadTraceView {
        ThreadTraceView {
            thread_id: self.thread_id,
            expanded: self.trace.expanded,
            frames: frames_of(self.trace.frames),
        }
    }
}

/// The values of a run of thread traces.
pub open spec fn trace_views(traces: Seq<ThreadTrace>) -> Seq<ThreadTraceView> {
    traces.map_values(|t: ThreadTrace| t@)
}

/// The frames of a thread that are shown: all of them while the thread is
/// opened and the session is stopped, and none otherwise.
pub open spec fn shown_frames(expanded: bool, stopped: bool, frames: Seq<StackFrame>) -> Seq<
    StackFrame,
> {
    if expanded && stopped {
        frames
    } else {
        Seq::empty()
    }
}

/// Whether `t` is the trace of the thread `main_thread`.
pub open spec fn is_main(t: ThreadTraceView, main_thread: Option<ThreadId>) -> bool {
    main_thread == Some(t.thread_id)
}

/// The traces with that of the main thread first. The others follow in the
/// order in which they stood.
pub open spec fn main_first(traces: Seq<ThreadTraceView>, main_thread: Option<ThreadId>) -> Seq<
    ThreadTraceView,
> {
    traces.filter(|t: ThreadTraceView| is_main(t, main_thread)) + traces.filter(
        |t: ThreadTraceView| !is_main(t, main_thread),
    )
}

/// A new trace for `frames`, closed.
pub fn new_trace(frames: im::Vector<StackFrame>) -> (trace: StackTraceData)
    ensures
        !trace.expanded,
        trace.frames == frames,
{
    StackTraceData { expanded: false, frames }
}

/// A click on the header of a thread: opens a closed trace and closes an
/// open one. The frames stay as they are.
pub fn toggle_expanded(trace: &mut StackTraceData)
    ensures
        final(trace).expanded == !old(trace).expanded,
        final(trace).frames == old(trace).frames,
{
    trace.expanded = !trace.expanded;
}

/// The frames of `trace` to show. `stopped` says whether the session is
/// stopped. While the debuggee runs, or while the thread is closed, no
/// frame is shown.
pub fn visible_frames(trace: &StackTraceData, stopped: bool) -> (shown: im::Vector<StackFrame>)
    ensures
        frames_of(shown) == shown_frames(trace.expanded, stopped, frames_of(trace.frames)),
{
    if trace.expanded && stopped {
        share_frames(&trace.frames)
    } else {
        no_frames()
    }
}

/// A frame as the panel shows it.
#[derive(Clone, Debug, PartialEq, Eq)]
pub struct FrameRow {
    /// The id of the frame, which tells its row from the others.
    pub id: usize,
    pub name: String,
    /// The final component of the source path, empty where the frame has no
    /// source or its path has no final component.
    pub file_name: String,
    /// The line as the adapter reported it, counted from one.
    pub line: usize,
    /// Whether the row is shown dimmed, as one that shows no source.
    pub dimmed: bool,
    /// Where a click leads. A frame without a source path leads nowhere.
    pub target: Option<JumpTarget>,
}

/// The mathematical value of a [`FrameRow`].
pub ghost struct FrameRowView {
    pub id: usize,
    pub name: Seq<char>,
    pub file_name: Seq<char>,
    pub line: usize,
    pub dimmed: bool,
    pub target: Option<JumpTargetView>,
}

impl View for FrameRow {
    type V = FrameRowView;

    open spec fn view(&self) -> FrameRowView {
        FrameRowView {
            id: self.id,
            name: self.name@,
            file_name: self.file_name@,
            line: self.line,
            dimmed: self.dimmed,
            target: match self.target {
                Some(t) => Some(t@),
                None => None,
            },
        }
    }
}

/// The values of a run of frame rows.
pub open spec fn frame_row_views(rows: Seq<FrameRow>) -> Seq<FrameRowView> {
    rows.map_values(|r: FrameRow| r@)
}

/// The file name that the row of `frame` shows.
pub open spec fn frame_file_name(frame: StackFrame) -> Seq<char> {
    match frame.path {
        Some(p) => text_or_empty(path_file_name(p@)),
        None => Seq::empty(),
    }
}

/// Where a click on the row of `frame` leads: to the place of the frame in
/// its source file, counted from zero, and nowhere without a source path.
pub open spec fn frame_target(frame: StackFrame) -> Option<JumpTargetView> {
    match frame.path {
        Some(p) => Some(
            JumpTargetView {
                path: p@,
                position: JumpPosition::Position {
                    line: zero_based(frame.line),
                    column: zero_based(frame.column),
                },
            },
        ),
        None => None,
    }
}

/// The row of `frame`.
pub open spec fn frame_row_of(frame: StackFrame) -> FrameRowView {
    FrameRowView {
        id: frame.id,
        name: frame.name@,
        file_name: frame_file_name(frame),
        line: frame.line,
        dimmed: frame_file_name(frame).len() == 0,
        target: frame_target(frame),
    }
}

/// The rows of a run of frames, one for each, in the same order.
pub open spec fn frame_rows_of(frames: Seq<StackFrame>) -> Seq<FrameRowView> {
    frames.map_values(|f: StackFrame| frame_row_of(f))
}

/// Builds the row of `frame`.
pub fn frame_row(frame: &StackFrame) -> (row: FrameRow)
    ensures
        row@ == frame_row_of(*frame),
{
    let (line, column) = to_zero_based_pair(frame.line, frame.column);
    let file_name = match &frame.path {
        Some(p) => file_name_or_empty(p.as_str()),
        None => String::new(),
    };
    let dimmed = file_name.as_str().is_empty();
    let target = match &frame.path {
        Some(p) => Some(
            JumpTarget { path: p.clone(), position: JumpPosition::Position { line, column } },
        ),
        None => None,
    };
    FrameRow { id: frame.id, name: frame.name.clone(), file_name, line: frame.line, dimmed, target }
}

/// Builds the rows of the frames of `trace` that are shown, in their order.
pub fn frame_rows(trace: &StackTraceData, stopped: bool) -> (rows: Vec<FrameRow>)
    ensures
        frame_row_views(rows@) == frame_rows_of(
            shown_frames(trace.expanded, stopped, frames_of(trace.frames)),
        ),
        rows@.len() == shown_frames(trace.expanded, stopped, frames_of(trace.frames)).len(),
{
    let shown = visible_frames(trace, stopped);
    let count = frame_count(&shown);
    let ghost all = frame_rows_of(frames_of(shown));
    let mut rows: Vec<FrameRow> = Vec::new();
    let mut i: usize = 0;
    while i < count
        invariant
            i <= count,
            count == frames_of(shown).len(),
            all == frame_rows_of(frames_of(shown)),
            frame_row_views(rows@) == all.take(i as int),
        decreases count - i,
    {
        match frame_at(&shown, i) {
            Some(frame) => {
                rows.push(frame_row(frame));
            },
            None => {},
        }
        proof {
            assert(frame_row_views(rows@) =~= all.take(i as int).push(all[i as int]));
            assert(all.take(i + 1) =~= all.take(i as int).push(all[i as int]));
        }
        i += 1;
    }
    proof {
        assert(all.take(i as int) =~= all);
        assert(frame_row_views(rows@).len() == rows@.len());
    }
    rows
}

impl FrameRow {
    /// The key of the row: the id of the frame.
    pub fn key(&self) -> (k: usize)
        ensures
            k == self@.id,
    {
        self.id
    }

    /// The request that a click on the row sends, if it sends one.
    pub fn click(&self) -> (t: Option<JumpTarget>)
        ensures
            crate::navigation::target_view(t) == self@.target,
    {
        match &self.target {
            Some(target) => Some(JumpTarget { path: target.path.clone(), position: target.position }),
            None => None,
        }
    }
}

/// The traces in the order in which they are shown: that of the main thread
/// first, the others behind it in the order in which they stand in `traces`.
pub fn order_threads(traces: &Vec<ThreadTrace>, main_thread: Option<ThreadId>) -> (ordered: Vec<
    ThreadTrace,
>)
    ensures
        trace_views(ordered@) == main_first(trace_views(traces@), main_thread),
        ordered@.len() == traces@.len(),
{
    let ghost views = trace_views(traces@);
    let ghost first = |t: ThreadTraceView| is_main(t, main_thread);
    let ghost rest = |t: ThreadTraceView| !is_main(t, main_thread);
    let mut ordered: Vec<ThreadTrace> = Vec::new();
    let mut i: usize = 0;
    while i < traces.len()
        invariant
            i <= traces.len(),
            views == trace_views(traces@),
            first == |t: ThreadTraceView| is_main(t, main_thread),
            trace_views(ordered@) == views.take(i as int).filter(first),
        decreases traces.len() - i,
    {
        let t = &traces[i];
        proof {
            assert(views.take(i + 1) =~= views.take(i as int).push(views[i as int]));
            lemma_filter_push(views.take(i as int), views[i as int], first);
        }
        if is_current_thread(main_thread, t.thread_id) {
            ordered.push(copy_trace(t));
            assert(trace_views(ordered@) =~= views.take(i as int).filter(first).push(t@));
        }
        i += 1;
    }
    assert(views.take(i as int) =~= views);
    let ghost head = trace_views(ordered@);
    let mut j: usize = 0;
    while j < traces.len()
        invariant
            j <= traces.len(),
            views == trace_views(traces@),
            rest == |t: ThreadTraceView| !is_main(t, main_thread),
            trace_views(ordered@) == head + views.take(j as int).filter(rest),
        decreases traces.len() - j,
    {
        let t = &traces[j];
        proof {
            assert(views.take(j + 1) =~= views.take(j as int).push(views[j as int]));
            lemma_filter_push(views.take(j as int), views[j as int], rest);
        }
        if !is_current_thread(main_thread, t.thread_id) {
            ordered.push(copy_trace(t));
            assert(trace_views(ordered@) =~= (head + views.take(j as int).filter(rest)).push(t@));
        }
        j += 1;
    }
    proof {
        assert(views.take(j as int) =~= views);
        lemma_partition_len(views, first, rest);
        assert(trace_views(ordered@).len() == ordered@.len());
    }
    ordered
}

/// A copy of `t` that shares its frames.
fn copy_trace(t: &ThreadTrace) -> (r: ThreadTrace)
    ensures
        r@ == t@,
{
    ThreadTrace {
        thread_id: t.thread_id,
        trace: StackTraceData { expanded: t.trace.expanded, frames: share_frames(&t.trace.frames) },
    }
}

/// Splitting a sequence by a test and its negation loses and adds nothing.
proof fn lemma_partition_len(
    s: Seq<ThreadTraceView>,
    first: spec_fn(ThreadTraceView) -> bool,
    rest: spec_fn(ThreadTraceView) -> bool,
)
    requires
        forall|t: ThreadTraceView| #[trigger] rest(t) == !first(t),
    ensures
        s.filter(first).len() + s.filter(rest).len() == s.len(),
    decreases s.len(),
{
    reveal(Seq::filter);
    if s.len() > 0 {
        lemma_partition_len(s.drop_last(), first, rest);
    }
}

/// In the order that is shown no other thread stands before the main
/// thread: once a trace is not that of the main thread, none behind it is.
pub proof fn lemma_main_thread_first(
    traces: Seq<ThreadTraceView>,
    main_thread: Option<ThreadId>,
    i: int,
    j: int,
)
    requires
        0 <= i <= j < main_first(traces, main_thread).len(),
        is_main(main_first(traces, main_thread)[j], main_thread),
    ensures
        is_main(main_first(traces, main_thread)[i], main_thread),
{
    let first = |t: ThreadTraceView| is_main(t, main_thread);
    let rest = |t: ThreadTraceView| !is_main(t, main_thread);
    let head = traces.filter(first);
    let tail = traces.filter(rest);
    if j >= head.len() {
        traces.lemma_filter_pred(rest, j - head.len());
        assert(main_first(traces, main_thread)[j] == tail[j - head.len()]);
    } else {
        traces.lemma_filter_pred(first, i);
        assert(main_first(traces, main_thread)[i] == head[i]);
    }
}

/// Where the main thread has a trace, the first trace shown is its own.
pub proof fn lemma_main_thread_leads(
    traces: Seq<ThreadTraceView>,
    main_thread: Option<ThreadId>,
    k: int,
)
    requires
        0 <= k < traces.len(),
        is_main(traces[k], main_thread),
    ensures
        main_first(traces, main_thread).len() > 0,
        is_main(main_first(traces, main_thread)[0], main_thread),
{
    let first = |t: ThreadTraceView| is_main(t, main_thread);
    let head = traces.filter(first);
    traces.lemma_filter_contains(first, k);
    assert(head.contains(traces[k]));
    assert(head.len() > 0);
    traces.lemma_filter_pred(first, 0);
}

/// The threads other than the main thread keep the order in which they
/// stood, and the order shown has every trace once: none is lost or added.
pub proof fn lemma_other_threads_keep_order(
    traces: Seq<ThreadTraceView>,
    main_thread: Option<ThreadId>,
)
    ensures
        main_first(traces, main_thread).filter(|t: ThreadTraceView| !is_main(t, main_thread))
            == traces.filter(|t: ThreadTraceView| !is_main(t, main_thread)),
        main_first(traces, main_thread).filter(|t: ThreadTraceView| is_main(t, main_thread))
            == traces.filter(|t: ThreadTraceView| is_main(t, main_thread)),
        main_first(traces, main_thread).len() == traces.len(),
        main_thread is None ==> main_first(traces, main_thread) == traces,
{
    let first = |t: ThreadTraceView| is_main(t, main_thread);
    let rest = |t: ThreadTraceView| !is_main(t, main_thread);
    let head = traces.filter(first);
    let tail = traces.filter(rest);
    assert forall|i: int| 0 <= i < head.len() implies first(#[trigger] head[i]) && !rest(
        head[i],
    ) by {
        traces.lemma_filter_pred(first, i);
    }
    assert forall|i: int| 0 <= i < tail.len() implies rest(#[trigger] tail[i]) && !first(
        tail[i],
    ) by {
        traces.lemma_filter_pred(rest, i);
    }
    lemma_filter_keeps_all(head, first);
    lemma_filter_drops_all(head, rest);
    lemma_filter_keeps_all(tail, rest);
    lemma_filter_drops_all(tail, first);
    Seq::filter_distributes_over_add(head, tail, first);
    Seq::filter_distributes_over_add(head, tail, rest);
    assert(head + Seq::<ThreadTraceView>::empty() =~= head);
    assert(Seq::<ThreadTraceView>::empty() + tail =~= tail);
    lemma_partition_len(traces, first, rest);
    if main_thread is None {
        assert forall|i: int| 0 <= i < traces.len() implies rest(#[trigger] traces[i]) by {}
        lemma_filter_keeps_all(traces, rest);
        lemma_filter_drops_all(traces, first);
        assert(main_first(traces, main_thread) =~= traces);
    }
}

/// The row of a thread: its header and the rows of its visible frames.
#[derive(Clone, Debug, PartialEq, Eq)]
pub struct ThreadRow {
    pub dap_id: DapId,
    pub thread_id: ThreadId,
    /// Whether the session is stopped.
    pub stopped: bool,
    pub expanded: bool,
    pub frames: Vec<FrameRow>,
}

/// The mathematical value of a [`ThreadRow`].
pub ghost struct ThreadRowView {
    pub dap_id: DapId,
    pub thread_id: ThreadId,
    pub stopped: bool,
    pub expanded: bool,
    pub frames: Seq<FrameRowView>,
}

impl View for ThreadRow {
    type V = ThreadRowView;

    open spec fn view(&self) -> ThreadRowView {
        ThreadRowView {
            dap_id: self.dap_id,
            thread_id: self.thread_id,
            stopped: self.stopped,
            expanded: self.expanded,
            frames: frame_row_views(self.frames@),
        }
    }
}

/// The values of a run of thread rows.
pub open spec fn thread_row_views(rows: Seq<ThreadRow>) -> Seq<ThreadRowView> {
    rows.map_values(|r: ThreadRow| r@)
}

/// The row of the thread `t` in the session `dap_id`.
pub open spec fn thread_row_of(t: ThreadTraceView, dap_id: DapId, stopped: bool) -> ThreadRowView {
    ThreadRowView {
        dap_id,
        thread_id: t.thread_id,
        stopped,
        expanded: t.expanded,
        frames: frame_rows_of(shown_frames(t.expanded, stopped, t.frames)),
    }
}

/// The rows of the threads of a session: the main thread first, the others
/// in their order.
pub open spec fn thread_rows_of(
    traces: Seq<ThreadTraceView>,
    dap_id: DapId,
    stopped: bool,
    main_thread: Option<ThreadId>,
) -> Seq<ThreadRowView> {
    main_first(traces, main_thread).map_values(
        |t: ThreadTraceView| thread_row_of(t, dap_id, stopped),
    )
}

/// What tells one thread row from another when the list is drawn again:
/// the session, the thread, and whether the session is stopped.
pub open spec fn thread_row_key(r: ThreadRowView) -> (DapId, ThreadId, bool) {
    (r.dap_id, r.thread_id, r.stopped)
}

impl ThreadRow {
    /// The key of the row.
    pub fn key(&self) -> (k: (DapId, ThreadId, bool))
        ensures
            k == thread_row_key(self@),
    {
        (self.dap_id, self.thread_id, self.stopped)
    }
}

/// Builds the rows of the threads of the session `dap_id`: the main thread
/// first, and under each thread the frames that are shown.
pub fn thread_rows(
    traces: &Vec<ThreadTrace>,
    dap_id: DapId,
    stopped: bool,
    main_thread: Option<ThreadId>,
) -> (rows: Vec<ThreadRow>)
    ensures
        thread_row_views(rows@) == thread_rows_of(
            trace_views(traces@),
            dap_id,
            stopped,
            main_thread,
        ),
        rows@.len() == traces@.len(),
{
    let ordered = order_threads(traces, main_thread);
    let ghost all = thread_rows_of(trace_views(traces@), dap_id, stopped, main_thread);
    let mut rows: Vec<ThreadRow> = Vec::new();
    let mut i: usize = 0;
    while i < ordered.len()
        invariant
            i <= ordered.len(),
            trace_views(ordered@) == main_first(trace_views(traces@), main_thread),
            all == thread_rows_of(trace_views(traces@), dap_id, stopped, main_thread),
            thread_row_views(rows@) == all.take(i as int),
        decreases ordered.len() - i,
    {
        let t = &ordered[i];
        let row = ThreadRow {
            dap_id,
            thread_id: t.thread_id,
            stopped,
            expanded: t.trace.expanded,
            frames: frame_rows(&t.trace, stopped),
        };
        proof {
            assert(trace_views(ordered@)[i as int] == t@);
            assert(row@ == all[i as int]);
        }
        rows.push(row);
        proof {
            assert(thread_row_views(rows@) =~= all.take(i as int).push(all[i as int]));
            assert(all.take(i + 1) =~= all.take(i as int).push(all[i as int]));
        }
        i += 1;
    }
    proof {
        assert(trace_views(ordered@).len() == ordered@.len());
        assert(all.take(i as int) =~= all);
        assert(thread_row_views(rows@).len() == rows@.len());
    }
    rows
}

/// The trace `t` after a click on the header of the thread `thread_id`:
/// opened or closed where it is the trace of that thread, else as it was.
pub open spec fn header_clicked(t: ThreadTraceView, thread_id: ThreadId) -> ThreadTraceView {
    if t.thread_id == thread_id {
        ThreadTraceView { expanded: !t.expanded, ..t }
    } else {
        t
    }
}

/// Whether one of the traces is that of the thread `thread_id`.
pub open spec fn has_thread(traces: Seq<ThreadTraceView>, thread_id: ThreadId) -> bool {
    exists|i: int| 0 <= i < traces.len() && (#[trigger] traces[i]).thread_id == thread_id
}

/// A click on the header of the thread `thread_id`: its trace is opened if
/// it was closed, and closed if it was open. The traces of the other
/// threads, the frames and the order stay as they are. The result says
/// whether the thread has a trace.
pub fn toggle_thread(traces: &mut Vec<ThreadTrace>, thread_id: ThreadId) -> (found: bool)
    ensures
        trace_views(final(traces)@) == trace_views(old(traces)@).map_values(
            |t: ThreadTraceView| header_clicked(t, thread_id),
        ),
        found == has_thread(trace_views(old(traces)@), thread_id),
        !found ==> trace_views(final(traces)@) == trace_views(old(traces)@),
{
    let ghost before = trace_views(traces@);
    let n = traces.len();
    let mut found = false;
    let mut i: usize = 0;
    while i < n
        invariant
            i <= n,
            n == traces@.len(),
            before.len() == n,
            forall|j: int| 0 <= j < i ==> (#[trigger] traces@[j])@ == header_clicked(
                before[j],
                thread_id,
            ),
            forall|j: int| i <= j < n ==> (#[trigger] traces@[j])@ == before[j],
            found == exists|j: int| 0 <= j < i && (#[trigger] before[j]).thread_id == thread_id,
        decreases n - i,
    {
        let ghost prev = traces@;
        if traces[i].thread_id == thread_id {
            let t = &mut traces[i];
            t.trace.expanded = !t.trace.expanded;
            found = true;
            assert(before[i as int].thread_id == thread_id);
        }
        proof {
            assert forall|j: int| 0 <= j < n && j != i implies traces@[j] == prev[j] by {}
            assert(traces@[i as int]@ == header_clicked(before[i as int], thread_id));
        }
        i += 1;
    }
    proof {
        let after = trace_views(traces@);
        let want = before.map_values(|t: ThreadTraceView| header_clicked(t, thread_id));
        assert(after =~= want);
        if !found {
            assert(want =~= before);
        }
    }
    found
}

} // verus!
