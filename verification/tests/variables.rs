use dap_view_model::variables::{
    clone_path, clone_text, copy_row, copy_scopes, window, FetchState, ItemIcon, Outcome, Scope,
    ScopeVariables, Variable, VariableNode, VariableRow, VariableTree, INDENT_STEP,
};

fn scope(name: &str, reference: usize) -> Scope {
    Scope { name: name.to_string(), variables_reference: reference }
}

fn var(name: &str, value: &str, reference: usize) -> Variable {
    Variable {
        name: name.to_string(),
        value: value.to_string(),
        presentation_hint: None,
        evaluate_name: None,
        variables_reference: reference,
    }
}

fn node(name: &str, expanded: bool, children: Vec<VariableNode>) -> VariableNode {
    VariableNode {
        name: name.to_string(),
        value: Some(format!("{name}-value")),
        reference: 1,
        expanded,
        state: FetchState::Fetched,
        children,
    }
}

fn leaf(name: &str) -> VariableNode {
    VariableNode {
        name: name.to_string(),
        value: Some(format!("{name}-value")),
        reference: 0,
        expanded: false,
        state: FetchState::Unfetched,
        children: Vec::new(),
    }
}

fn shape(rows: &[VariableRow]) -> Vec<(String, usize, bool, Vec<usize>)> {
    rows.iter().map(|r| (r.name.clone(), r.level, r.expanded, r.path.clone())).collect()
}

fn names(rows: &[VariableRow]) -> Vec<String> {
    rows.iter().map(|r| r.name.clone()).collect()
}

fn sample() -> VariableTree {
    VariableTree {
        roots: vec![
            node(
                "a",
                true,
                vec![
                    node("a0", true, vec![leaf("a00"), leaf("a01")]),
                    node("a1", false, vec![leaf("a10")]),
                    leaf("a2"),
                ],
            ),
            node("b", false, vec![node("b0", true, vec![leaf("b00")])]),
            leaf("c"),
        ],
    }
}

fn locals() -> VariableTree {
    let mut tree = VariableTree::from_scopes(&vec![scope("Locals", 1)]);
    assert_eq!(tree.toggle(&vec![0]), Outcome::Fetch { reference: 1 });
    assert_eq!(
        tree.children_fetched(&vec![0], 1, &vec![var("x", "1", 0), var("y", "2", 0)]),
        Outcome::Filled
    );
    tree
}

#[test]
fn empty_tree_has_no_rows() {
    assert!(VariableTree::new().flatten().is_empty());
}

#[test]
fn scopes_become_collapsed_roots() {
    let tree = VariableTree::from_scopes(&vec![scope("Locals", 1), scope("Globals", 2)]);
    let rows = tree.flatten();
    assert_eq!(
        shape(&rows),
        vec![
            ("Locals".to_string(), 0, false, vec![0]),
            ("Globals".to_string(), 0, false, vec![1]),
        ]
    );
    assert_eq!(rows[0].value, None);
    assert_eq!(rows[0].reference, 1);
    assert_eq!(rows[1].reference, 2);
}

#[test]
fn locals_scope_projects_to_three_rows() {
    let rows = locals().flatten();
    assert_eq!(rows.len(), 3);
    assert_eq!(rows[0].name, "Locals");
    assert_eq!(rows[0].level, 0);
    assert!(rows[0].expanded);
    assert_eq!(rows[1].name, "x");
    assert_eq!(rows[1].value, Some("1".to_string()));
    assert_eq!(rows[1].level, 1);
    assert_eq!(rows[1].reference, 0);
    assert!(!rows[1].can_expand());
    assert_eq!(rows[2].name, "y");
    assert_eq!(rows[2].value, Some("2".to_string()));
    assert_eq!(rows[2].level, 1);
    assert_eq!(rows[2].path, vec![0, 1]);
}

#[test]
fn flatten_is_depth_first_and_skips_collapsed_subtrees() {
    assert_eq!(
        shape(&sample().flatten()),
        vec![
            ("a".to_string(), 0, true, vec![0]),
            ("a0".to_string(), 1, true, vec![0, 0]),
            ("a00".to_string(), 2, false, vec![0, 0, 0]),
            ("a01".to_string(), 2, false, vec![0, 0, 1]),
            ("a1".to_string(), 1, false, vec![0, 1]),
            ("a2".to_string(), 1, false, vec![0, 2]),
            ("b".to_string(), 0, false, vec![1]),
            ("c".to_string(), 0, false, vec![2]),
        ]
    );
}

#[test]
fn flatten_twice_gives_the_same_rows_and_keys() {
    let tree = sample();
    let first = tree.flatten();
    let second = tree.flatten();
    assert_eq!(shape(&first), shape(&second));
    let first_keys: Vec<_> = first.iter().map(|r| r.key()).collect();
    let second_keys: Vec<_> = second.iter().map(|r| r.key()).collect();
    assert_eq!(first_keys, second_keys);
}

#[test]
fn node_below_a_collapsed_ancestor_has_no_row() {
    let rows = sample().flatten();
    let all = names(&rows);
    assert!(!all.contains(&"a10".to_string()));
    assert!(!all.contains(&"b0".to_string()));
    assert!(!all.contains(&"b00".to_string()));
}

#[test]
fn level_is_the_number_of_ancestors() {
    for row in sample().flatten() {
        assert_eq!(row.level + 1, row.path.len());
    }
}

#[test]
fn collapsing_removes_exactly_the_subtree() {
    let mut tree = sample();
    assert_eq!(tree.toggle(&vec![0, 0]), Outcome::Collapsed);
    assert_eq!(names(&tree.flatten()), vec!["a", "a0", "a1", "a2", "b", "c"]);
    assert!(!tree.flatten()[1].expanded);
}

#[test]
fn expanding_adds_exactly_the_subtree() {
    let mut tree = sample();
    assert_eq!(tree.toggle(&vec![0, 1]), Outcome::Expanded);
    assert_eq!(
        names(&tree.flatten()),
        vec!["a", "a0", "a00", "a01", "a1", "a10", "a2", "b", "c"]
    );
    let rows = tree.flatten();
    assert_eq!(rows[5].level, 2);
    assert_eq!(rows[5].path, vec![0, 1, 0]);
}

#[test]
fn expanding_a_root_shows_what_was_expanded_below_it() {
    let mut tree = sample();
    assert_eq!(tree.toggle(&vec![1]), Outcome::Expanded);
    assert_eq!(
        names(&tree.flatten()),
        vec!["a", "a0", "a00", "a01", "a1", "a2", "b", "b0", "b00", "c"]
    );
}

#[test]
fn collapsing_a_root_hides_all_its_descendants() {
    let mut tree = sample();
    assert_eq!(tree.toggle(&vec![0]), Outcome::Collapsed);
    assert_eq!(names(&tree.flatten()), vec!["a", "b", "c"]);
}

#[test]
fn toggle_and_toggle_back_restores_the_rows() {
    let mut tree = sample();
    let before = shape(&tree.flatten());
    assert_eq!(tree.toggle(&vec![0, 0]), Outcome::Collapsed);
    assert_eq!(tree.toggle(&vec![0, 0]), Outcome::Expanded);
    assert_eq!(shape(&tree.flatten()), before);
}

#[test]
fn toggling_a_hidden_node_changes_no_row() {
    let mut tree = sample();
    let before = shape(&tree.flatten());
    assert_eq!(tree.toggle(&vec![1, 0]), Outcome::Collapsed);
    assert_eq!(shape(&tree.flatten()), before);
}

#[test]
fn toggle_of_a_missing_path_changes_nothing() {
    let mut tree = sample();
    let before = shape(&tree.flatten());
    assert_eq!(tree.toggle(&vec![]), Outcome::NotFound);
    assert_eq!(tree.toggle(&vec![3]), Outcome::NotFound);
    assert_eq!(tree.toggle(&vec![0, 7]), Outcome::NotFound);
    assert_eq!(tree.toggle(&vec![2, 0]), Outcome::NotFound);
    assert_eq!(shape(&tree.flatten()), before);
}

#[test]
fn toggle_of_a_leaf_is_ignored() {
    let mut tree = sample();
    let before = shape(&tree.flatten());
    assert_eq!(tree.toggle(&vec![2]), Outcome::Ignored);
    assert_eq!(tree.toggle(&vec![0, 2]), Outcome::Ignored);
    assert_eq!(shape(&tree.flatten()), before);
}

#[test]
fn first_expansion_asks_for_the_children_once() {
    let mut tree = VariableTree::from_scopes(&vec![scope("Locals", 5)]);
    assert_eq!(tree.toggle(&vec![0]), Outcome::Fetch { reference: 5 });
    assert_eq!(shape(&tree.flatten()), vec![("Locals".to_string(), 0, false, vec![0])]);
    assert_eq!(tree.toggle(&vec![0]), Outcome::Ignored);
    assert_eq!(tree.toggle(&vec![0]), Outcome::Ignored);
    assert_eq!(shape(&tree.flatten()), vec![("Locals".to_string(), 0, false, vec![0])]);
}

#[test]
fn re_expanding_after_collapse_does_not_fetch_again() {
    let mut tree = locals();
    assert_eq!(tree.toggle(&vec![0]), Outcome::Collapsed);
    assert_eq!(names(&tree.flatten()), vec!["Locals"]);
    assert_eq!(tree.toggle(&vec![0]), Outcome::Expanded);
    assert_eq!(names(&tree.flatten()), vec!["Locals", "x", "y"]);
}

#[test]
fn answer_for_a_node_that_does_not_wait_is_dropped() {
    let mut tree = VariableTree::from_scopes(&vec![scope("Locals", 1)]);
    assert_eq!(tree.children_fetched(&vec![0], 1, &vec![var("x", "1", 0)]), Outcome::Ignored);
    assert_eq!(names(&tree.flatten()), vec!["Locals"]);
}

#[test]
fn answer_for_another_handle_is_dropped() {
    let mut tree = VariableTree::from_scopes(&vec![scope("Locals", 1)]);
    assert_eq!(tree.toggle(&vec![0]), Outcome::Fetch { reference: 1 });
    assert_eq!(tree.children_fetched(&vec![0], 2, &vec![var("x", "1", 0)]), Outcome::Ignored);
    assert_eq!(names(&tree.flatten()), vec!["Locals"]);
    assert_eq!(tree.children_fetched(&vec![0], 1, &vec![var("x", "1", 0)]), Outcome::Filled);
    assert_eq!(names(&tree.flatten()), vec!["Locals", "x"]);
}

#[test]
fn answer_for_a_missing_path_is_dropped() {
    let mut tree = VariableTree::from_scopes(&vec![scope("Locals", 1)]);
    assert_eq!(tree.toggle(&vec![0]), Outcome::Fetch { reference: 1 });
    assert_eq!(tree.children_fetched(&vec![1], 1, &vec![var("x", "1", 0)]), Outcome::NotFound);
    assert_eq!(tree.children_fetched(&vec![], 1, &vec![var("x", "1", 0)]), Outcome::NotFound);
    assert_eq!(names(&tree.flatten()), vec!["Locals"]);
}

#[test]
fn second_answer_is_dropped() {
    let mut tree = locals();
    assert_eq!(tree.children_fetched(&vec![0], 1, &vec![var("z", "3", 0)]), Outcome::Ignored);
    assert_eq!(names(&tree.flatten()), vec!["Locals", "x", "y"]);
}

#[test]
fn fetched_children_can_be_expanded_in_turn() {
    let mut tree = VariableTree::from_scopes(&vec![scope("Locals", 1), scope("Globals", 2)]);
    assert_eq!(tree.toggle(&vec![0]), Outcome::Fetch { reference: 1 });
    assert_eq!(
        tree.children_fetched(&vec![0], 1, &vec![var("p", "Point", 7), var("n", "3", 0)]),
        Outcome::Filled
    );
    assert_eq!(tree.toggle(&vec![0, 0]), Outcome::Fetch { reference: 7 });
    assert_eq!(
        tree.children_fetched(&vec![0, 0], 7, &vec![var("x", "1", 0), var("y", "2", 0)]),
        Outcome::Filled
    );
    assert_eq!(
        shape(&tree.flatten()),
        vec![
            ("Locals".to_string(), 0, true, vec![0]),
            ("p".to_string(), 1, true, vec![0, 0]),
            ("x".to_string(), 2, false, vec![0, 0, 0]),
            ("y".to_string(), 2, false, vec![0, 0, 1]),
            ("n".to_string(), 1, false, vec![0, 1]),
            ("Globals".to_string(), 0, false, vec![1]),
        ]
    );
    assert_eq!(tree.toggle(&vec![0, 1]), Outcome::Ignored);
}

#[test]
fn empty_answer_expands_to_no_children() {
    let mut tree = VariableTree::from_scopes(&vec![scope("Locals", 1)]);
    assert_eq!(tree.toggle(&vec![0]), Outcome::Fetch { reference: 1 });
    assert_eq!(tree.children_fetched(&vec![0], 1, &Vec::new()), Outcome::Filled);
    assert_eq!(shape(&tree.flatten()), vec![("Locals".to_string(), 0, true, vec![0])]);
}

#[test]
fn row_key_holds_name_value_handle_flag_and_level() {
    let rows = locals().flatten();
    assert_eq!(rows[0].key(), ("Locals".to_string(), None, 1, true, 0));
    assert_eq!(rows[1].key(), ("x".to_string(), Some("1".to_string()), 0, false, 1));
}

#[test]
fn row_key_changes_with_expansion() {
    let mut tree = locals();
    let open = tree.flatten()[0].key();
    tree.toggle(&vec![0]);
    let closed = tree.flatten()[0].key();
    assert_ne!(open, closed);
    assert_eq!(closed, ("Locals".to_string(), None, 1, false, 0));
}

#[test]
fn icon_follows_the_expansion_flag() {
    let rows = locals().flatten();
    assert_eq!(rows[0].icon(), ItemIcon::Opened);
    assert_eq!(rows[1].icon(), ItemIcon::Closed);
    assert!(rows[0].can_expand());
}

#[test]
fn indent_is_ten_per_level() {
    assert_eq!(INDENT_STEP, 10);
    let rows = sample().flatten();
    assert_eq!(rows[0].indent(), 0);
    assert_eq!(rows[1].indent(), 10);
    assert_eq!(rows[2].indent(), 20);
}

#[test]
fn indent_saturates() {
    let row = VariableRow {
        path: vec![0],
        name: String::new(),
        value: None,
        reference: 0,
        expanded: false,
        level: usize::MAX / 10 + 1,
    };
    assert_eq!(row.indent(), usize::MAX);
    let row = VariableRow { level: usize::MAX / 10, ..row };
    assert_eq!(row.indent(), (usize::MAX / 10) * 10);
}

#[test]
fn copies_hold_what_was_copied() {
    assert_eq!(clone_path(&vec![3, 1, 4]), vec![3, 1, 4]);
    assert_eq!(clone_path(&Vec::new()), Vec::<usize>::new());
    assert_eq!(clone_text(&Some("v".to_string())), Some("v".to_string()));
    assert_eq!(clone_text(&None), None);
}

#[test]
fn plain_scopes_are_copied_in_order() {
    let scopes = vec![
        ScopeVariables {
            scope: scope("Locals", 1),
            variables: vec![
                Variable {
                    name: "x".to_string(),
                    value: "1".to_string(),
                    presentation_hint: Some("property".to_string()),
                    evaluate_name: Some("self.x".to_string()),
                    variables_reference: 0,
                },
                var("y", "2", 9),
            ],
        },
        ScopeVariables { scope: scope("Globals", 2), variables: Vec::new() },
    ];
    let copy = copy_scopes(&scopes);
    assert_eq!(copy.len(), 2);
    assert_eq!(copy[0].key(), ("Locals".to_string(), 1));
    assert_eq!(copy[0].variables.len(), 2);
    assert_eq!(copy[0].variables[0].key(), ("x".to_string(), "1".to_string()));
    assert_eq!(copy[0].variables[0].presentation_hint, Some("property".to_string()));
    assert_eq!(copy[0].variables[0].evaluate_name, Some("self.x".to_string()));
    assert_eq!(copy[0].variables[1].variables_reference, 9);
    assert_eq!(copy[1].key(), ("Globals".to_string(), 2));
    assert!(copy[1].variables.is_empty());
}

#[test]
fn window_is_a_slice_of_the_rows() {
    let rows = sample().flatten();
    assert_eq!(names(&window(&rows, 0, 3)), vec!["a", "a0", "a00"]);
    assert_eq!(names(&window(&rows, 2, 5)), vec!["a00", "a01", "a1"]);
    assert_eq!(window(&rows, 0, rows.len()), rows);
    assert_eq!(window(&rows, 6, 8), rows[6..8].to_vec());
}

#[test]
fn window_is_cut_to_the_rows() {
    let rows = sample().flatten();
    assert_eq!(names(&window(&rows, 6, 100)), vec!["b", "c"]);
    assert!(window(&rows, 8, 100).is_empty());
    assert!(window(&rows, 50, 100).is_empty());
    assert!(window(&rows, 5, 5).is_empty());
    assert!(window(&rows, 5, 2).is_empty());
    assert!(window(&Vec::new(), 0, 10).is_empty());
}

#[test]
fn copied_row_equals_the_row() {
    for row in sample().flatten() {
        assert_eq!(copy_row(&row), row);
    }
}
