use dap_view_model::breakpoints::{
    breakpoint_row, order_entry, Breakpoint, BreakpointEntry, BreakpointIndex,
};
use dap_view_model::navigation::JumpPosition;
use dap_view_model::text_order::TextOrder;

fn listed(index: &BreakpointIndex) -> Vec<(String, usize, bool)> {
    index
        .list()
        .into_iter()
        .map(|e| (e.path, e.breakpoint.line, e.breakpoint.active))
        .collect()
}

fn two_in_one_file() -> BreakpointIndex {
    let mut index = BreakpointIndex::new();
    index.insert("/a.rs", Breakpoint { line: 10, active: true });
    index.insert("/a.rs", Breakpoint { line: 20, active: false });
    index
}

#[test]
fn new_index_is_empty() {
    let index = BreakpointIndex::new();
    assert_eq!(index.len(), 0);
    assert!(index.list().is_empty());
    assert!(index.rows(None).is_empty());
}

#[test]
fn toggle_flips_only_the_named_breakpoint() {
    let mut index = two_in_one_file();
    assert!(index.toggle("/a.rs", 20));
    assert_eq!(
        listed(&index),
        vec![("/a.rs".to_string(), 10, true), ("/a.rs".to_string(), 20, true)]
    );
}

#[test]
fn toggle_twice_restores_the_index() {
    let mut index = two_in_one_file();
    assert!(index.toggle("/a.rs", 10));
    assert_eq!(index.get("/a.rs", 10), Some(Breakpoint { line: 10, active: false }));
    assert!(index.toggle("/a.rs", 10));
    assert_eq!(listed(&index), listed(&two_in_one_file()));
}

#[test]
fn toggle_of_absent_line_changes_nothing() {
    let mut index = two_in_one_file();
    assert!(!index.toggle("/a.rs", 30));
    assert_eq!(listed(&index), listed(&two_in_one_file()));
    assert_eq!(index.len(), 2);
}

#[test]
fn toggle_of_absent_path_changes_nothing() {
    let mut index = two_in_one_file();
    assert!(!index.toggle("/b.rs", 10));
    assert_eq!(listed(&index), listed(&two_in_one_file()));
}

#[test]
fn toggle_on_empty_index_creates_nothing() {
    let mut index = BreakpointIndex::new();
    assert!(!index.toggle("/a.rs", 1));
    assert_eq!(index.len(), 0);
}

#[test]
fn remove_deletes_only_the_named_breakpoint() {
    let mut index = two_in_one_file();
    assert!(index.remove("/a.rs", 10));
    assert_eq!(listed(&index), vec![("/a.rs".to_string(), 20, false)]);
    assert_eq!(index.get("/a.rs", 10), None);
}

#[test]
fn remove_of_absent_key_changes_nothing() {
    let mut index = two_in_one_file();
    assert!(!index.remove("/a.rs", 11));
    assert!(!index.remove("/zzz.rs", 10));
    assert_eq!(listed(&index), listed(&two_in_one_file()));
}

#[test]
fn remove_twice_is_a_no_op_the_second_time() {
    let mut index = two_in_one_file();
    assert!(index.remove("/a.rs", 20));
    assert!(!index.remove("/a.rs", 20));
    assert_eq!(index.len(), 1);
}

#[test]
fn removing_the_last_breakpoint_of_a_file_leaves_the_others_listed() {
    let mut index = BreakpointIndex::new();
    index.insert("/b.rs", Breakpoint { line: 1, active: true });
    index.insert("/a.rs", Breakpoint { line: 2, active: true });
    index.insert("/c.rs", Breakpoint { line: 3, active: false });
    assert!(index.remove("/b.rs", 1));
    assert_eq!(
        listed(&index),
        vec![("/a.rs".to_string(), 2, true), ("/c.rs".to_string(), 3, false)]
    );
}

#[test]
fn list_is_grouped_by_path_with_ascending_lines() {
    let mut index = BreakpointIndex::new();
    index.insert("/b.rs", Breakpoint { line: 7, active: true });
    index.insert("/a.rs", Breakpoint { line: 30, active: false });
    index.insert("/b.rs", Breakpoint { line: 2, active: false });
    index.insert("/a.rs", Breakpoint { line: 4, active: true });
    index.insert("/a", Breakpoint { line: 100, active: true });
    assert_eq!(
        listed(&index),
        vec![
            ("/a".to_string(), 100, true),
            ("/a.rs".to_string(), 4, true),
            ("/a.rs".to_string(), 30, false),
            ("/b.rs".to_string(), 2, false),
            ("/b.rs".to_string(), 7, true),
        ]
    );
}

#[test]
fn list_order_does_not_depend_on_insertion_order() {
    let mut forward = BreakpointIndex::new();
    forward.insert("/a.rs", Breakpoint { line: 1, active: true });
    forward.insert("/a.rs", Breakpoint { line: 2, active: true });
    forward.insert("/b.rs", Breakpoint { line: 1, active: false });
    let mut backward = BreakpointIndex::new();
    backward.insert("/b.rs", Breakpoint { line: 1, active: false });
    backward.insert("/a.rs", Breakpoint { line: 2, active: true });
    backward.insert("/a.rs", Breakpoint { line: 1, active: true });
    assert_eq!(listed(&forward), listed(&backward));
}

#[test]
fn insert_replaces_a_breakpoint_on_the_same_line() {
    let mut index = two_in_one_file();
    index.insert("/a.rs", Breakpoint { line: 10, active: false });
    assert_eq!(index.len(), 2);
    assert_eq!(index.get("/a.rs", 10), Some(Breakpoint { line: 10, active: false }));
    assert_eq!(index.get("/a.rs", 20), Some(Breakpoint { line: 20, active: false }));
}

#[test]
fn get_finds_only_what_is_there() {
    let index = two_in_one_file();
    assert_eq!(index.get("/a.rs", 10), Some(Breakpoint { line: 10, active: true }));
    assert_eq!(index.get("/a.rs", 15), None);
    assert_eq!(index.get("/a.r", 10), None);
    assert_eq!(index.get("", 10), None);
}

#[test]
fn paths_are_ordered_by_their_bytes() {
    let mut index = BreakpointIndex::new();
    index.insert("/é.rs", Breakpoint { line: 1, active: true });
    index.insert("/z.rs", Breakpoint { line: 1, active: true });
    index.insert("/Z.rs", Breakpoint { line: 1, active: true });
    let paths: Vec<String> = index.list().into_iter().map(|e| e.path).collect();
    assert_eq!(paths, vec!["/Z.rs".to_string(), "/z.rs".to_string(), "/é.rs".to_string()]);
}

#[test]
fn order_entry_compares_path_then_line() {
    let entry = BreakpointEntry {
        path: "/m.rs".to_string(),
        breakpoint: Breakpoint { line: 5, active: true },
    };
    assert_eq!(order_entry(&entry, "/m.rs", 5), TextOrder::Same);
    assert_eq!(order_entry(&entry, "/m.rs", 6), TextOrder::Before);
    assert_eq!(order_entry(&entry, "/m.rs", 4), TextOrder::After);
    assert_eq!(order_entry(&entry, "/n.rs", 0), TextOrder::Before);
    assert_eq!(order_entry(&entry, "/a.rs", 9), TextOrder::After);
}

#[test]
fn row_shows_path_relative_to_the_workspace() {
    let entry = BreakpointEntry {
        path: "/ws/src/main.rs".to_string(),
        breakpoint: Breakpoint { line: 41, active: true },
    };
    let row = breakpoint_row(&entry, Some("/ws"));
    assert_eq!(row.path, "/ws/src/main.rs");
    assert_eq!(row.line, 41);
    assert_eq!(row.display_line, 42);
    assert!(row.active);
    assert_eq!(row.file_name, "main.rs");
    assert_eq!(row.folder, "src");
    assert!(!row.folder_hidden);
}

#[test]
fn row_hides_an_empty_folder() {
    let entry = BreakpointEntry {
        path: "/ws/main.rs".to_string(),
        breakpoint: Breakpoint { line: 0, active: false },
    };
    let row = breakpoint_row(&entry, Some("/ws"));
    assert_eq!(row.file_name, "main.rs");
    assert_eq!(row.folder, "");
    assert!(row.folder_hidden);
    assert_eq!(row.display_line, 1);
}

#[test]
fn row_falls_back_to_the_full_path() {
    let entry = BreakpointEntry {
        path: "/other/lib.rs".to_string(),
        breakpoint: Breakpoint { line: 3, active: true },
    };
    let outside = breakpoint_row(&entry, Some("/ws"));
    assert_eq!(outside.file_name, "lib.rs");
    assert_eq!(outside.folder, "/other");
    let unrooted = breakpoint_row(&entry, None);
    assert_eq!(unrooted.file_name, "lib.rs");
    assert_eq!(unrooted.folder, "/other");
    assert_eq!(unrooted.path, "/other/lib.rs");
}

#[test]
fn row_display_line_saturates() {
    let entry = BreakpointEntry {
        path: "/a.rs".to_string(),
        breakpoint: Breakpoint { line: usize::MAX, active: true },
    };
    assert_eq!(breakpoint_row(&entry, None).display_line, usize::MAX);
}

#[test]
fn row_key_and_jump_target_use_the_stored_path() {
    let entry = BreakpointEntry {
        path: "/ws/src/main.rs".to_string(),
        breakpoint: Breakpoint { line: 9, active: false },
    };
    let row = breakpoint_row(&entry, Some("/ws"));
    assert_eq!(row.key(), ("/ws/src/main.rs".to_string(), 9, false));
    let target = row.jump_target();
    assert_eq!(target.path, "/ws/src/main.rs");
    assert_eq!(target.position, JumpPosition::Line(9));
}

#[test]
fn rows_follow_the_listing_order() {
    let mut index = BreakpointIndex::new();
    index.insert("/ws/b.rs", Breakpoint { line: 1, active: true });
    index.insert("/ws/a.rs", Breakpoint { line: 5, active: false });
    let rows = index.rows(Some("/ws"));
    assert_eq!(rows.len(), 2);
    assert_eq!(rows[0].file_name, "a.rs");
    assert_eq!(rows[0].display_line, 6);
    assert_eq!(rows[1].file_name, "b.rs");
    assert_eq!(rows[1].display_line, 2);
}

#[test]
fn relativizing_does_not_change_the_stored_key() {
    let mut index = BreakpointIndex::new();
    index.insert("/ws/a.rs", Breakpoint { line: 5, active: false });
    let _ = index.rows(Some("/ws"));
    assert_eq!(listed(&index), vec![("/ws/a.rs".to_string(), 5, false)]);
    assert!(index.toggle("/ws/a.rs", 5));
    assert!(!index.toggle("a.rs", 5));
}
