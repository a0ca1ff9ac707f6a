//! The tree of scopes and variables, and its projection to a flat list of
//! rows.
//!
//! A node is addressed by its path: the index of a root scope, then the
//! index of a child below it, and so on. The rows list the nodes depth first,
//! a parent right before its children, and leave out whatever stands below a
//! node that is not expanded. The level of a row is the number of its
//! ancestors; it is computed on each traversal and stored nowhere.
//!
//! Children are fetched on demand. Toggling a node whose children were never
//! fetched marks it as waiting and asks for them once; until the answer is
//! applied the node stays collapsed.

use vstd::prelude::*;

verus! {

/// A scope of a stack frame, as the debug adapter reports it.
#[derive(Clone, Debug, PartialEq, Eq)]
pub struct Scope {
    pub name: String,
    /// The handle under which the variables of the scope are fetched.
    pub variables_reference: usize,
}

/// A variable, as the debug adapter reports it.
#[derive(Clone, Debug, PartialEq, Eq)]
pub struct Variable {
    pub name: String,
    pub value: String,
    pub presentation_hint: Option<String>,
    pub evaluate_name: Option<String>,
    /// The handle under which the children of the variable are fetched, zero
    /// where it has none.
    pub variables_reference: usize,
}

/// Whether the children of a node are known.
#[derive(Clone, Copy, Debug, PartialEq, Eq, Structural)]
pub enum FetchState {
    /// Never asked for.
    Unfetched,
    /// Asked for, and not answered yet.
    Pending,
    /// Known, and held by the node.
    Fetched,
}

/// A node of the tree: a scope or a variable.
#[derive(Debug)]
pub struct VariableNode {
    pub name: String,
    /// The value of a variable; a scope has none.
    pub value: Option<String>,
    /// The handle under which the children are fetched. Zero marks a leaf.
    pub reference: usize,
    pub expanded: bool,
    pub state: FetchState,
    pub children: Vec<VariableNode>,
}

/// The mathematical value of a node.
pub ghost struct NodeView {
    pub name: Seq<char>,
    pub value: Option<Seq<char>>,
    pub reference: usize,
    pub expanded: bool,
    pub state: FetchState,
    pub children: Seq<NodeView>,
}

/// The text of an optional string.
pub open spec fn opt_text(s: Option<String>) -> Option<Seq<char>> {
    match s {
        Some(t) => Some(t@),
        None => None,
    }
}

/// The value of a node: its own fields and the values of its children.
pub open spec fn node_view(node: VariableNode) -> NodeView
    decreases node,
{
    NodeView {
        name: node.name@,
        value: opt_text(node.value),
        reference: node.reference,
        expanded: node.expanded,
        state: node.state,
        children: Seq::new(
            node.children@.len(),
            |i: int|
                if 0 <= i < node.children@.len() {
                    node_view(node.children@[i])
                } else {
                    arbitrary()
                },
        ),
    }
}

impl View for VariableNode {
    type V = NodeView;

    open spec fn view(&self) -> NodeView {
        node_view(*self)
    }
}

/// The values of a run of nodes.
pub open spec fn forest_view(nodes: Seq<VariableNode>) -> Seq<NodeView> {
    Seq::new(nodes.len(), |i: int| nodes[i]@)
}

/// A path as a sequence of integers.
pub open spec fn path_view(path: Seq<usize>) -> Seq<int> {
    path.map_values(|i: usize| i as int)
}

/// A row of the flattened tree.
#[derive(Clone, Debug, PartialEq, Eq)]
pub struct VariableRow {
    /// The path of the node that the row shows.
    pub path: Vec<usize>,
    pub name: String,
    pub value: Option<String>,
    pub reference: usize,
    pub expanded: bool,
    /// The number of ancestors of the node.
    pub level: usize,
}

/// The mathematical value of a row.
pub ghost struct RowView {
    pub path: Seq<int>,
    pub name: Seq<char>,
    pub value: Option<Seq<char>>,
    pub reference: usize,
    pub expanded: bool,
    pub level: nat,
}

impl View for VariableRow {
    type V = RowView;

    open spec fn view(&self) -> RowView {
        RowView {
            path: path_view(self.path@),
            name: self.name@,
            value: opt_text(self.value),
            reference: self.reference,
            expanded: self.expanded,
            level: self.level as nat,
        }
    }
}

/// The values of a run of rows.
pub open spec fn row_views(rows: Seq<VariableRow>) -> Seq<RowView> {
    rows.map_values(|r: VariableRow| r@)
}

/// The row of the node `n` that stands at `path`.
pub open spec fn row_of(n: NodeView, path: Seq<int>) -> RowView {
    RowView {
        path,
        name: n.name,
        value: n.value,
        reference: n.reference,
        expanded: n.expanded,
        level: (path.len() - 1) as nat,
    }
}

/// The rows of the first `count` nodes of `nodes`, which stand below the
/// node at `prefix` (or are the roots, where `prefix` is empty): for each
/// node its own row and, where it is expanded, the rows of its children.
pub open spec fn forest_rows(nodes: Seq<NodeView>, prefix: Seq<int>, count: nat) -> Seq<RowView>
    decreases nodes, count,
{
    if count == 0 || count > nodes.len() {
        Seq::empty()
    } else {
        let i = (count - 1) as int;
        forest_rows(nodes, prefix, (count - 1) as nat) + seq![row_of(nodes[i], prefix.push(i))]
            + if nodes[i].expanded {
            forest_rows(nodes[i].children, prefix.push(i), nodes[i].children.len())
        } else {
            Seq::empty()
        }
    }
}

/// The rows of the node `n` at `path`: its own row and, where it is
/// expanded, the rows of its children right behind it.
pub open spec fn node_rows(n: NodeView, path: Seq<int>) -> Seq<RowView> {
    seq![row_of(n, path)] + if n.expanded {
        forest_rows(n.children, path, n.children.len())
    } else {
        Seq::empty()
    }
}

/// The rows of a whole tree with the roots `roots`.
pub open spec fn tree_rows(roots: Seq<NodeView>) -> Seq<RowView> {
    forest_rows(roots, Seq::empty(), roots.len())
}

/// What tells one row from another when the list is drawn again: name,
/// value, handle, expansion flag and level.
pub open spec fn row_key(r: RowView) -> (Seq<char>, Option<Seq<char>>, usize, bool, nat) {
    (r.name, r.value, r.reference, r.expanded, r.level)
}

/// The node at `path` below `nodes`, if the path leads to one.
pub open spec fn node_at(nodes: Seq<NodeView>, path: Seq<int>) -> Option<NodeView>
    decreases path.len(),
{
    if path.len() == 0 || !(0 <= path[0] < nodes.len()) {
        None
    } else if path.len() == 1 {
        Some(nodes[path[0]])
    } else {
        node_at(nodes[path[0]].children, path.skip(1))
    }
}

/// `nodes` with the node at `path` replaced by `node`. Where the path leads
/// to no node, `nodes` as they are.
pub open spec fn forest_with(nodes: Seq<NodeView>, path: Seq<int>, node: NodeView) -> Seq<NodeView>
    decreases path.len(),
{
    if path.len() == 0 || !(0 <= path[0] < nodes.len()) {
        nodes
    } else if path.len() == 1 {
        nodes.update(path[0], node)
    } else {
        let parent = nodes[path[0]];
        nodes.update(
            path[0],
            NodeView { children: forest_with(parent.children, path.skip(1), node), ..parent },
        )
    }
}

/// Whether `path` leads to a node all of whose ancestors are expanded.
pub open spec fn path_visible(nodes: Seq<NodeView>, path: Seq<int>) -> bool
    decreases path.len(),
{
    &&& path.len() > 0
    &&& 0 <= path[0] < nodes.len()
    &&& (path.len() == 1 || (nodes[path[0]].expanded && path_visible(
        nodes[path[0]].children,
        path.skip(1),
    )))
}

/// The children of the value of a node are the values of its children.
pub proof fn lemma_children_view(node: VariableNode)
    ensures
        node@.children == forest_view(node.children@),
{
    assert(node@.children.len() == node.children@.len());
    assert forall|i: int| 0 <= i < node.children@.len() implies node@.children[i]
        == #[trigger] node.children@[i]@ by {}
    assert(node@.children =~= forest_view(node.children@));
}

/// A copy of a path.
pub fn clone_path(path: &Vec<usize>) -> (r: Vec<usize>)
    ensures
        r@ == path@,
{
    let mut r: Vec<usize> = Vec::new();
    let mut i: usize = 0;
    while i < path.len()
        invariant
            i <= path.len(),
            r@ == path@.take(i as int),
        decreases path.len() - i,
    {
        r.push(path[i]);
        assert(r@ =~= path@.take(i + 1));
        i += 1;
    }
    assert(path@.take(i as int) =~= path@);
    r
}

/// A copy of an optional string.
pub fn clone_text(s: &Option<String>) -> (r: Option<String>)
    ensures
        opt_text(r) == opt_text(*s),
{
    match s {
        Some(t) => Some(t.clone()),
        None => None,
    }
}

/// Appends to `out` the rows of `nodes`, which stand below the node at
/// `prefix`.
fn collect_rows(nodes: &Vec<VariableNode>, prefix: &Vec<usize>, out: &mut Vec<VariableRow>)
    ensures
        row_views(final(out)@) == row_views(old(out)@) + forest_rows(
            forest_view(nodes@),
            path_view(prefix@),
            nodes@.len(),
        ),
    decreases nodes,
{
    let ghost start = row_views(out@);
    let ghost views = forest_view(nodes@);
    let ghost base = path_view(prefix@);
    let mut i: usize = 0;
    while i < nodes.len()
        invariant
            i <= nodes.len(),
            views == forest_view(nodes@),
            base == path_view(prefix@),
            row_views(out@) == start + forest_rows(views, base, i as nat),
        decreases nodes.len() - i,
    {
        let node = &nodes[i];
        let mut path = clone_path(prefix);
        path.push(i);
        let row = VariableRow {
            path: clone_path(&path),
            name: node.name.clone(),
            value: clone_text(&node.value),
            reference: node.reference,
            expanded: node.expanded,
            level: prefix.len(),
        };
        proof {
            assert(path_view(path@) =~= base.push(i as int));
            assert(views[i as int] == node@);
            assert(row@ == row_of(views[i as int], base.push(i as int)));
            lemma_children_view(*node);
        }
        let ghost before = row_views(out@);
        out.push(row);
        assert(row_views(out@) =~= before.push(row@));
        if node.expanded {
            collect_rows(&node.children, &path, out);
        }
        proof {
            assert(row_views(out@) =~= start + forest_rows(views, base, (i + 1) as nat));
        }
        i += 1;
    }
}

/// What an operation on the tree did.
#[derive(Clone, Copy, Debug, PartialEq, Eq, Structural)]
pub enum Outcome {
    /// The path leads to no node. The tree is unchanged.
    NotFound,
    /// The node does not take the operation: a leaf cannot be expanded, a
    /// node that waits for its children is not asked again, and an answer
    /// that no node waits for is dropped. The tree is unchanged.
    Ignored,
    /// The node was expanded and is now collapsed.
    Collapsed,
    /// The node was collapsed and is now expanded, with the children it held.
    Expanded,
    /// The node now waits for its children, which are to be fetched under
    /// `reference`.
    Fetch { reference: usize },
    /// The node received its children and is now expanded.
    Filled,
}

/// The node that a toggle makes of `n`.
///
/// An expanded node is collapsed and keeps its children. A collapsed node
/// that holds its children is expanded. A collapsed node whose children were
/// never asked for, and which has a handle, now waits for them. A leaf and
/// a node that waits stay as they are.
pub open spec fn toggle_node(n: NodeView) -> NodeView {
    if n.expanded {
        NodeView { expanded: false, ..n }
    } else if n.state == FetchState::Fetched {
        NodeView { expanded: true, ..n }
    } else if n.state == FetchState::Unfetched && n.reference > 0 {
        NodeView { state: FetchState::Pending, ..n }
    } else {
        n
    }
}

/// What a toggle of `n` reports.
pub open spec fn toggle_outcome(n: NodeView) -> Outcome {
    if n.expanded {
        Outcome::Collapsed
    } else if n.state == FetchState::Fetched {
        Outcome::Expanded
    } else if n.state == FetchState::Unfetched && n.reference > 0 {
        Outcome::Fetch { reference: n.reference }
    } else {
        Outcome::Ignored
    }
}

/// Whether `n` waits for the children that were asked for under `reference`.
pub open spec fn awaits(n: NodeView, reference: usize) -> bool {
    n.state == FetchState::Pending && n.reference == reference
}

/// The node for a variable that was just fetched: collapsed, its own
/// children not asked for.
pub open spec fn leaf_of(v: Variable) -> NodeView {
    NodeView {
        name: v.name@,
        value: Some(v.value@),
        reference: v.variables_reference,
        expanded: false,
        state: FetchState::Unfetched,
        children: Seq::empty(),
    }
}

/// The nodes for a run of variables, in their order.
pub open spec fn leaves_of(variables: Seq<Variable>) -> Seq<NodeView> {
    Seq::new(variables.len(), |i: int| leaf_of(variables[i]))
}

/// The node for a scope: collapsed, without a value, its variables not
/// asked for.
pub open spec fn scope_node(s: Scope) -> NodeView {
    NodeView {
        name: s.name@,
        value: None,
        reference: s.variables_reference,
        expanded: false,
        state: FetchState::Unfetched,
        children: Seq::empty(),
    }
}

/// The roots for a run of scopes, in their order.
pub open spec fn scope_nodes(scopes: Seq<Scope>) -> Seq<NodeView> {
    Seq::new(scopes.len(), |i: int| scope_node(scopes[i]))
}

/// The node that an answer with `children` makes of `n`: where `n` waits
/// for it, `n` expanded over these children; else `n` as it is.
pub open spec fn fill_node(n: NodeView, reference: usize, children: Seq<NodeView>) -> NodeView {
    if awaits(n, reference) {
        NodeView { expanded: true, state: FetchState::Fetched, children, ..n }
    } else {
        n
    }
}

/// What applying an answer to `n` reports.
pub open spec fn fill_outcome(n: NodeView, reference: usize) -> Outcome {
    if awaits(n, reference) {
        Outcome::Filled
    } else {
        Outcome::Ignored
    }
}

/// The tree after a toggle of the node at `path`.
pub open spec fn toggled(roots: Seq<NodeView>, path: Seq<int>) -> Seq<NodeView> {
    match node_at(roots, path) {
        Some(n) => forest_with(roots, path, toggle_node(n)),
        None => roots,
    }
}

/// What a toggle of the node at `path` reports.
pub open spec fn toggled_outcome(roots: Seq<NodeView>, path: Seq<int>) -> Outcome {
    match node_at(roots, path) {
        Some(n) => toggle_outcome(n),
        None => Outcome::NotFound,
    }
}

/// The tree after the answer `children` for `reference` was applied to the
/// node at `path`.
pub open spec fn filled(
    roots: Seq<NodeView>,
    path: Seq<int>,
    reference: usize,
    children: Seq<NodeView>,
) -> Seq<NodeView> {
    match node_at(roots, path) {
        Some(n) => forest_with(roots, path, fill_node(n, reference, children)),
        None => roots,
    }
}

/// What applying an answer for `reference` to the node at `path` reports.
pub open spec fn filled_outcome(roots: Seq<NodeView>, path: Seq<int>, reference: usize) -> Outcome {
    match node_at(roots, path) {
        Some(n) => fill_outcome(n, reference),
        None => Outcome::NotFound,
    }
}

/// An operation on one node.
enum NodeOp<'a> {
    Toggle,
    Fill { reference: usize, variables: &'a Vec<Variable> },
}

/// The node that `op` makes of `n`.
spec fn op_node(n: NodeView, op: NodeOp) -> NodeView {
    match op {
        NodeOp::Toggle => toggle_node(n),
        NodeOp::Fill { reference, variables } => fill_node(n, reference, leaves_of(variables@)),
    }
}

/// What `op` reports when applied to `n`.
spec fn op_outcome(n: NodeView, op: NodeOp) -> Outcome {
    match op {
        NodeOp::Toggle => toggle_outcome(n),
        NodeOp::Fill { reference, variables } => fill_outcome(n, reference),
    }
}

/// The forest after `op` was applied to the node at `path`.
spec fn applied(nodes: Seq<NodeView>, path: Seq<int>, op: NodeOp) -> Seq<NodeView> {
    match node_at(nodes, path) {
        Some(n) => forest_with(nodes, path, op_node(n, op)),
        None => nodes,
    }
}

/// What `op` reports when applied to the node at `path`.
spec fn applied_outcome(nodes: Seq<NodeView>, path: Seq<int>, op: NodeOp) -> Outcome {
    match node_at(nodes, path) {
        Some(n) => op_outcome(n, op),
        None => Outcome::NotFound,
    }
}

/// Builds the nodes for the variables of an answer.
fn make_leaves(variables: &Vec<Variable>) -> (nodes: Vec<VariableNode>)
    ensures
        forest_view(nodes@) == leaves_of(variables@),
{
    let mut nodes: Vec<VariableNode> = Vec::new();
    let mut i: usize = 0;
    while i < variables.len()
        invariant
            i <= variables.len(),
            nodes@.len() == i,
            forest_view(nodes@) == leaves_of(variables@).take(i as int),
        decreases variables.len() - i,
    {
        let v = &variables[i];
        let node = VariableNode {
            name: v.name.clone(),
            value: Some(v.value.clone()),
            reference: v.variables_reference,
            expanded: false,
            state: FetchState::Unfetched,
            children: Vec::new(),
        };
        proof {
            lemma_children_view(node);
            assert(node@.children =~= Seq::<NodeView>::empty());
            assert(node@ == leaf_of(*v));
        }
        let ghost prev = nodes@;
        nodes.push(node);
        proof {
            let want = leaves_of(variables@);
            assert forall|j: int| 0 <= j < i + 1 implies forest_view(nodes@)[j] == want[j] by {
                if j < i {
                    assert(forest_view(prev)[j] == want.take(i as int)[j]);
                }
            }
            assert(forest_view(nodes@) =~= want.take(i + 1));
        }
        i += 1;
    }
    assert(leaves_of(variables@).take(i as int) =~= leaves_of(variables@));
    nodes
}

/// Applies `op` to `node`.
fn apply_to(node: &mut VariableNode, op: &NodeOp) -> (outcome: Outcome)
    ensures
        final(node)@ == op_node(old(node)@, *op),
        outcome == op_outcome(old(node)@, *op),
{
    proof {
        lemma_children_view(*node);
    }
    match op {
        NodeOp::Toggle => {
            if node.expanded {
                node.expanded = false;
                proof {
                    lemma_children_view(*node);
                }
                Outcome::Collapsed
            } else {
                match node.state {
                    FetchState::Fetched => {
                        node.expanded = true;
                        proof {
                            lemma_children_view(*node);
                        }
                        Outcome::Expanded
                    },
                    FetchState::Unfetched => {
                        if node.reference > 0 {
                            node.state = FetchState::Pending;
                            proof {
                                lemma_children_view(*node);
                            }
                            Outcome::Fetch { reference: node.reference }
                        } else {
                            Outcome::Ignored
                        }
                    },
                    FetchState::Pending => Outcome::Ignored,
                }
            }
        },
        NodeOp::Fill { reference, variables } => {
            let waits = match node.state {
                FetchState::Pending => node.reference == *reference,
                _ => false,
            };
            if waits {
                node.children = make_leaves(variables);
                node.state = FetchState::Fetched;
                node.expanded = true;
                proof {
                    lemma_children_view(*node);
                }
                Outcome::Filled
            } else {
                Outcome::Ignored
            }
        },
    }
}

/// Applies `op` to the node at the rest of `path` from `depth` on, below
/// `nodes`.
fn apply_at(nodes: &mut Vec<VariableNode>, path: &Vec<usize>, depth: usize, op: &NodeOp) -> (outcome:
    Outcome)
    requires
        depth <= path.len(),
    ensures
        forest_view(final(nodes)@) == applied(
            forest_view(old(nodes)@),
            path_view(path@).skip(depth as int),
            *op,
        ),
        outcome == applied_outcome(
            forest_view(old(nodes)@),
            path_view(path@).skip(depth as int),
            *op,
        ),
    decreases path.len() - depth,
{
    let ghost before = forest_view(nodes@);
    let ghost rest = path_view(path@).skip(depth as int);
    if depth >= path.len() {
        return Outcome::NotFound;
    }
    let i = path[depth];
    assert(rest[0] == i as int);
    if i >= nodes.len() {
        return Outcome::NotFound;
    }
    assert(rest.skip(1) =~= path_view(path@).skip(depth + 1));
    let ghost parent = nodes@[i as int];
    proof {
        lemma_children_view(parent);
    }
    let node = &mut nodes[i];
    let outcome = if depth + 1 == path.len() {
        apply_to(node, op)
    } else {
        apply_at(&mut node.children, path, depth + 1, op)
    };
    proof {
        let after = nodes@[i as int];
        lemma_children_view(after);
        assert(forest_view(nodes@) =~= before.update(i as int, after@));
        if depth + 1 != path.len() {
            let below = node_at(parent@.children, rest.skip(1));
            if below is None {
                assert(after@ == parent@);
                assert(before.update(i as int, after@) =~= before);
            }
        }
    }
    outcome
}

/// The tree of the scopes and variables of a session.
#[derive(Debug)]
pub struct VariableTree {
    pub roots: Vec<VariableNode>,
}

impl View for VariableTree {
    type V = Seq<NodeView>;

    open spec fn view(&self) -> Seq<NodeView> {
        forest_view(self.roots@)
    }
}

impl VariableTree {
    /// A tree without scopes.
    pub fn new() -> (tree: Self)
        ensures
            tree@ == Seq::<NodeView>::empty(),
    {
        let tree = VariableTree { roots: Vec::new() };
        assert(tree@ =~= Seq::<NodeView>::empty());
        tree
    }

    /// The rows of the tree: every node all of whose ancestors are expanded,
    /// depth first, a parent right before its children. The tree is not
    /// changed, and the rows depend on nothing but the tree.
    pub fn flatten(&self) -> (rows: Vec<VariableRow>)
        ensures
            row_views(rows@) == tree_rows(self@),
            rows@.len() == tree_rows(self@).len(),
    {
        let mut rows: Vec<VariableRow> = Vec::new();
        let prefix: Vec<usize> = Vec::new();
        assert(row_views(rows@) =~= Seq::<RowView>::empty());
        assert(path_view(prefix@) =~= Seq::<int>::empty());
        collect_rows(&self.roots, &prefix, &mut rows);
        assert(row_views(rows@) =~= tree_rows(self@));
        assert(row_views(rows@).len() == rows@.len());
        rows
    }

    /// The tree for the scopes of a frame: one collapsed root for each
    /// scope, in their order, with no variables fetched.
    pub fn from_scopes(scopes: &Vec<Scope>) -> (tree: Self)
        ensures
            tree@ == scope_nodes(scopes@),
    {
        let mut roots: Vec<VariableNode> = Vec::new();
        let mut i: usize = 0;
        while i < scopes.len()
            invariant
                i <= scopes.len(),
                roots@.len() == i,
                forest_view(roots@) == scope_nodes(scopes@).take(i as int),
            decreases scopes.len() - i,
        {
            let scope = &scopes[i];
            let node = VariableNode {
                name: scope.name.clone(),
                value: None,
                reference: scope.variables_reference,
                expanded: false,
                state: FetchState::Unfetched,
                children: Vec::new(),
            };
            proof {
                lemma_children_view(node);
                assert(node@.children =~= Seq::<NodeView>::empty());
                assert(node@ == scope_node(*scope));
            }
            let ghost prev = roots@;
            roots.push(node);
            proof {
                let want = scope_nodes(scopes@);
                assert forall|j: int| 0 <= j < i + 1 implies forest_view(roots@)[j] == want[j] by {
                    if j < i {
                        assert(forest_view(prev)[j] == want.take(i as int)[j]);
                    }
                }
                assert(forest_view(roots@) =~= want.take(i + 1));
            }
            i += 1;
        }
        assert(scope_nodes(scopes@).take(i as int) =~= scope_nodes(scopes@));
        VariableTree { roots }
    }

    /// A click on the node at `path`.
    ///
    /// An expanded node is collapsed; a collapsed node that holds its
    /// children is expanded. A node whose children were never asked for is
    /// marked as waiting, and the result asks the caller to fetch them: this
    /// happens once for a node, whatever is toggled later. A path that leads
    /// to no node, a leaf, and a node that waits leave the tree as it is.
    pub fn toggle(&mut self, path: &Vec<usize>) -> (outcome: Outcome)
        ensures
            final(self)@ == toggled(old(self)@, path_view(path@)),
            outcome == toggled_outcome(old(self)@, path_view(path@)),
    {
        let op = NodeOp::Toggle;
        let outcome = apply_at(&mut self.roots, path, 0, &op);
        assert(path_view(path@).skip(0) =~= path_view(path@));
        outcome
    }

    /// The answer to a fetch arrives: `variables` are the children that were
    /// asked for under `reference` for the node at `path`.
    ///
    /// The answer is applied where the node at `path` still waits for
    /// children under that handle: it then holds them, collapsed, and is
    /// expanded. Any other answer is out of date and is dropped.
    pub fn children_fetched(&mut self, path: &Vec<usize>, reference: usize, variables: &Vec<
        Variable,
    >) -> (outcome: Outcome)
        ensures
            final(self)@ == filled(
                old(self)@,
                path_view(path@),
                reference,
                leaves_of(variables@),
            ),
            outcome == filled_outcome(old(self)@, path_view(path@), reference),
    {
        let op = NodeOp::Fill { reference, variables };
        let outcome = apply_at(&mut self.roots, path, 0, &op);
        assert(path_view(path@).skip(0) =~= path_view(path@));
        outcome
    }
}

/// The sign in front of a row.
#[derive(Clone, Copy, Debug, PartialEq, Eq, Structural)]
pub enum ItemIcon {
    Opened,
    Closed,
}

/// The width of one level of indentation.
pub const INDENT_STEP: usize = 10;

/// The indentation of a row on `level`: a fixed step for each level, and
/// the largest value where that does not fit.
pub open spec fn indent_of(level: usize) -> usize {
    if level <= usize::MAX / INDENT_STEP {
        (level * INDENT_STEP) as usize
    } else {
        usize::MAX
    }
}

impl VariableRow {
    /// The key of the row: name, value, handle, expansion flag and level.
    /// It is the same whenever the row shows the same, and differs as soon
    /// as one of them differs.
    pub fn key(&self) -> (k: (String, Option<String>, usize, bool, usize))
        ensures
            (k.0@, opt_text(k.1), k.2, k.3, k.4 as nat) == row_key(self@),
    {
        (self.name.clone(), clone_text(&self.value), self.reference, self.expanded, self.level)
    }

    /// Whether the node has children to show or to fetch: its handle is not
    /// zero. The sign of a row that cannot be expanded is not drawn.
    pub fn can_expand(&self) -> (r: bool)
        ensures
            r == (self@.reference > 0),
    {
        self.reference > 0
    }

    /// The sign in front of the row.
    pub fn icon(&self) -> (icon: ItemIcon)
        ensures
            icon == if self@.expanded {
                ItemIcon::Opened
            } else {
                ItemIcon::Closed
            },
    {
        if self.expanded {
            ItemIcon::Opened
        } else {
            ItemIcon::Closed
        }
    }

    /// The indentation of the row.
    pub fn indent(&self) -> (r: usize)
        ensures
            r == indent_of(self.level),
    {
        if self.level <= usize::MAX / INDENT_STEP {
            self.level * INDENT_STEP
        } else {
            usize::MAX
        }
    }
}

/// The bounds of the window from `start` up to, not including, `end`, cut
/// to a list of `len` rows: the end is cut to the length, and the start to
/// the end.
pub open spec fn window_bounds(start: usize, end: usize, len: nat) -> (int, int) {
    let hi = if end <= len {
        end as int
    } else {
        len as int
    };
    let lo = if start <= hi {
        start as int
    } else {
        hi
    };
    (lo, hi)
}

/// A copy of a row.
pub fn copy_row(row: &VariableRow) -> (r: VariableRow)
    ensures
        r@ == row@,
{
    VariableRow {
        path: clone_path(&row.path),
        name: row.name.clone(),
        value: clone_text(&row.value),
        reference: row.reference,
        expanded: row.expanded,
        level: row.level,
    }
}

/// The rows from index `start` up to, not including, `end`, for a list that
/// draws only the rows in sight. A window that reaches past the last row is
/// cut there.
pub fn window(rows: &Vec<VariableRow>, start: usize, end: usize) -> (r: Vec<VariableRow>)
    ensures
        row_views(r@) == row_views(rows@).subrange(
            window_bounds(start, end, rows@.len()).0,
            window_bounds(start, end, rows@.len()).1,
        ),
{
    let hi = if end <= rows.len() {
        end
    } else {
        rows.len()
    };
    let lo = if start <= hi {
        start
    } else {
        hi
    };
    let ghost all = row_views(rows@);
    let mut out: Vec<VariableRow> = Vec::new();
    let mut i: usize = lo;
    while i < hi
        invariant
            lo <= i <= hi,
            hi <= rows.len(),
            all == row_views(rows@),
            row_views(out@) == all.subrange(lo as int, i as int),
        decreases hi - i,
    {
        out.push(copy_row(&rows[i]));
        proof {
            assert(row_views(out@) =~= all.subrange(lo as int, i as int).push(all[i as int]));
            assert(all.subrange(lo as int, i + 1) =~= all.subrange(lo as int, i as int).push(
                all[i as int],
            ));
        }
        i += 1;
    }
    out
}

/// A node asks for its children at most once. A toggle asks exactly when
/// the node is collapsed, has a handle, and its children were never asked
/// for; after it the node waits, and neither a node that waits nor one that
/// holds its children ever asks again, however often it is toggled.
pub proof fn lemma_fetch_once(n: NodeView)
    ensures
        toggle_outcome(n) is Fetch <==> !n.expanded && n.state == FetchState::Unfetched
            && n.reference > 0,
        toggle_outcome(n) is Fetch ==> toggle_node(n).state == FetchState::Pending
            && !toggle_node(n).expanded,
        n.state != FetchState::Unfetched ==> toggle_node(n).state == n.state && !(toggle_outcome(
            toggle_node(n),
        ) is Fetch),
        toggle_outcome(n) is Fetch ==> !(toggle_outcome(toggle_node(n)) is Fetch),
        toggle_node(n).children == n.children,
{
}

/// An answer changes a node only where the node waits for it, and a node
/// that received its answer does not take another: a second answer, and an
/// answer for a node that was never asked about, are dropped.
pub proof fn lemma_answer_once(n: NodeView, reference: usize, children: Seq<NodeView>)
    ensures
        !awaits(n, reference) ==> fill_node(n, reference, children) == n,
        awaits(n, reference) ==> fill_node(n, reference, children).expanded && fill_node(
            n,
            reference,
            children,
        ).children == children,
        forall|r: usize, c: Seq<NodeView>|
            awaits(n, reference) ==> #[trigger] fill_node(
                fill_node(n, reference, children),
                r,
                c,
            ) == fill_node(n, reference, children),
{
}

/// A scope with the variables that were fetched for it, as the plain view
/// of the variables shows them.
#[derive(Clone, Debug, PartialEq, Eq)]
pub struct ScopeVariables {
    pub scope: Scope,
    pub variables: Vec<Variable>,
}

/// The mathematical value of a [`Variable`].
pub ghost struct VariableView {
    pub name: Seq<char>,
    pub value: Seq<char>,
    pub presentation_hint: Option<Seq<char>>,
    pub evaluate_name: Option<Seq<char>>,
    pub variables_reference: usize,
}

impl View for Variable {
    type V = VariableView;

    open spec fn view(&self) -> VariableView {
        VariableView {
            name: self.name@,
            value: self.value@,
            presentation_hint: opt_text(self.presentation_hint),
            evaluate_name: opt_text(self.evaluate_name),
            variables_reference: self.variables_reference,
        }
    }
}

/// The mathematical value of a [`ScopeVariables`].
pub ghost struct ScopeView {
    pub name: Seq<char>,
    pub variables_reference: usize,
    pub variables: Seq<VariableView>,
}

impl View for ScopeVariables {
    type V = ScopeView;

    open spec fn view(&self) -> ScopeView {
        ScopeView {
            name: self.scope.name@,
            variables_reference: self.scope.variables_reference,
            variables: self.variables@.map_values(|v: Variable| v@),
        }
    }
}

/// The values of a run of scopes.
pub open spec fn scope_views(scopes: Seq<ScopeVariables>) -> Seq<ScopeView> {
    scopes.map_values(|s: ScopeVariables| s@)
}

/// What tells one scope of the plain view from another: its name and its
/// handle.
pub open spec fn scope_key(s: ScopeView) -> (Seq<char>, usize) {
    (s.name, s.variables_reference)
}

/// What tells one variable of a scope from another: its name and its value.
pub open spec fn variable_key(v: VariableView) -> (Seq<char>, Seq<char>) {
    (v.name, v.value)
}

/// A copy of a variable.
pub fn copy_variable(v: &Variable) -> (r: Variable)
    ensures
        r@ == v@,
{
    Variable {
        name: v.name.clone(),
        value: v.value.clone(),
        presentation_hint: clone_text(&v.presentation_hint),
        evaluate_name: clone_text(&v.evaluate_name),
        variables_reference: v.variables_reference,
    }
}

/// A copy of a scope with its variables, in their order.
pub fn copy_scope(s: &ScopeVariables) -> (r: ScopeVariables)
    ensures
        r@ == s@,
{
    let mut variables: Vec<Variable> = Vec::new();
    let ghost want = s.variables@.map_values(|v: Variable| v@);
    let mut i: usize = 0;
    while i < s.variables.len()
        invariant
            i <= s.variables.len(),
            want == s.variables@.map_values(|v: Variable| v@),
            variables@.map_values(|v: Variable| v@) == want.take(i as int),
        decreases s.variables.len() - i,
    {
        variables.push(copy_variable(&s.variables[i]));
        proof {
            assert(variables@.map_values(|v: Variable| v@) =~= want.take(i as int).push(
                want[i as int],
            ));
            assert(want.take(i + 1) =~= want.take(i as int).push(want[i as int]));
        }
        i += 1;
    }
    proof {
        assert(want.take(i as int) =~= want);
    }
    ScopeVariables {
        scope: Scope {
            name: s.scope.name.clone(),
            variables_reference: s.scope.variables_reference,
        },
        variables,
    }
}

/// The scopes as the plain view lists them: each scope with its variables,
/// in their order.
pub fn copy_scopes(scopes: &Vec<ScopeVariables>) -> (r: Vec<ScopeVariables>)
    ensures
        scope_views(r@) == scope_views(scopes@),
{
    let mut out: Vec<ScopeVariables> = Vec::new();
    let ghost want = scope_views(scopes@);
    let mut i: usize = 0;
    while i < scopes.len()
        invariant
            i <= scopes.len(),
            want == scope_views(scopes@),
            scope_views(out@) == want.take(i as int),
        decreases scopes.len() - i,
    {
        out.push(copy_scope(&scopes[i]));
        proof {
            assert(scope_views(out@) =~= want.take(i as int).push(want[i as int]));
            assert(want.take(i + 1) =~= want.take(i as int).push(want[i as int]));
        }
        i += 1;
    }
    proof {
        assert(want.take(i as int) =~= want);
    }
    out
}

impl ScopeVariables {
    /// The key of the scope in the plain view.
    pub fn key(&self) -> (k: (String, usize))
        ensures
            (k.0@, k.1) == scope_key(self@),
    {
        (self.scope.name.clone(), self.scope.variables_reference)
    }
}

impl Variable {
    /// The key of the variable in the plain view.
    pub fn key(&self) -> (k: (String, String))
        ensures
            (k.0@, k.1@) == variable_key(self@),
    {
        (self.name.clone(), self.value.clone())
    }
}

} // verus!
