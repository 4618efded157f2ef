//! A plain-value model of a parsed syntax tree.
//!
//! The tree is flattened in pre-order into a vector of nodes, each
//! carrying its kind, its parent's index, the grammar field it occupies
//! in its parent, its rank among its siblings, and its byte and
//! row/column extent. Reference validation reads only this model; the
//! trusted `parse_flat_nodes` below produces it, and its outcome is
//! named `flat_nodes_of`, a function of the grammar and content alone.

use vstd::prelude::*;

verus! {

use crate::engine::{ts_end_byte, ts_end_position, ts_kind, ts_start_byte, ts_start_position};

/// One node of the flattened tree.
pub struct FlatNode {
    pub kind: String,
    pub field: Option<String>,
    pub parent: usize,
    pub child_rank: usize,
    pub start_byte: usize,
    pub end_byte: usize,
    pub start_row: usize,
    pub start_col: usize,
    pub end_row: usize,
    pub end_col: usize,
}

/// Mathematical model of a `FlatNode`.
pub ghost struct NodeModel {
    pub kind: Seq<char>,
    pub field: Option<Seq<char>>,
    pub parent: usize,
    pub child_rank: usize,
    pub start_byte: usize,
    pub end_byte: usize,
    pub start_row: usize,
    pub start_col: usize,
    pub end_row: usize,
    pub end_col: usize,
}

impl View for FlatNode {
    type V = NodeModel;

    open spec fn view(&self) -> NodeModel {
        NodeModel {
            kind: self.kind@,
            field: match self.field {
                Some(ref f) => Some(f@),
                None => None,
            },
            parent: self.parent,
            child_rank: self.child_rank,
            start_byte: self.start_byte,
            end_byte: self.end_byte,
            start_row: self.start_row,
            start_col: self.start_col,
            end_row: self.end_row,
            end_col: self.end_col,
        }
    }
}

impl DeepView for FlatNode {
    type V = NodeModel;

    open spec fn deep_view(&self) -> NodeModel {
        self.view()
    }
}

/// Well-formed flat tree: pre-order, so every non-root node's parent
/// stands strictly before it, and the root is its own parent.
pub open spec fn tree_wf(nodes: Seq<NodeModel>) -> bool {
    &&& forall|i: int| 0 < i < nodes.len() ==> (#[trigger] nodes[i]).parent < i
    &&& nodes.len() > 0 ==> nodes[0].parent == 0
}

/// Build one flat node from a parse node.
fn flat_of(
    node: &tree_sitter::Node<'_>,
    parent: usize,
    field: Option<&str>,
    child_rank: usize,
) -> (r: FlatNode)
    ensures
        r@.parent == parent,
        r@.child_rank == child_rank,
{
    let sp = ts_start_position(node);
    let ep = ts_end_position(node);
    let field_name: Option<String> = match field {
        Some(f) => Some(f.to_owned()),
        None => None,
    };
    FlatNode {
        kind: ts_kind(node),
        field: field_name,
        parent,
        child_rank,
        start_byte: ts_start_byte(node),
        end_byte: ts_end_byte(node),
        start_row: sp.row,
        start_col: sp.column,
        end_row: ep.row,
        end_col: ep.column,
    }
}

/// The flattened parse tree of `content` under the grammar of `lang`:
/// a function of the grammar and the content alone. `None` when the
/// language is unsupported, its grammar cannot be installed, or parsing
/// fails fatally.
pub uninterp spec fn flat_nodes_of(lang: Seq<char>, content: Seq<char>) -> Option<Seq<NodeModel>>;

/// Relies on tree_sitter::Parser::parse, Tree::root_node, and
/// Node::{child_count, child, field_name_for_child}: parse `content` and
/// list the tree's nodes in pre-order, one flat node per parse node. The
/// outcome depends on the grammar and the content alone. The walk lists
/// every node after its parent and starts at the root, so a returned
/// tree is well formed and non-empty.
#[verifier::external_body]
pub(crate) fn parse_flat_nodes(lang_id: &str, content: &str) -> (r: Option<Vec<FlatNode>>)
    ensures
        r.deep_view() == flat_nodes_of(lang_id@, content@),
        (match r {
            Some(nodes) => tree_wf(nodes.deep_view()) && nodes.deep_view().len() > 0,
            None => true,
        }),
{
    let language = crate::indexer::language_for(lang_id)?;
    let mut parser = tree_sitter::Parser::new();
    parser.set_language(&language).ok()?;
    let tree = parser.parse(content, None)?;
    let mut nodes: Vec<FlatNode> = Vec::new();
    let mut stack = vec![(tree.root_node(), 0usize, None::<&str>, 0usize)];
    while let Some((node, parent, field, rank)) = stack.pop() {
        let idx = nodes.len();
        nodes.push(flat_of(&node, parent, field, rank));
        for i in (0..node.child_count()).rev() {
            stack.push((node.child(i)?, idx, node.field_name_for_child(i), i as usize));
        }
    }
    Some(nodes)
}

/// Whether the point (`row`, `col`) falls inside a node's extent: at or
/// after its start and strictly before its end, or exactly at an empty
/// node's position.
pub open spec fn point_in_node(n: NodeModel, row: int, col: int) -> bool {
    let after_start = n.start_row < row || (n.start_row == row && n.start_col <= col);
    let before_end = row < n.end_row || (row == n.end_row && col < n.end_col);
    let empty_at = n.start_row == n.end_row && n.start_col == n.end_col && row == n.start_row
        && col == n.start_col;
    (after_start && before_end) || empty_at
}

/// Index of the first child of `cur` at or after position `i` that
/// covers the point, or -1.
pub open spec fn find_child_from(
    nodes: Seq<NodeModel>,
    cur: int,
    i: int,
    row: int,
    col: int,
) -> int
    decreases nodes.len() - i,
        when i >= 0
{
    if i < 0 || i >= nodes.len() {
        -1
    } else if nodes[i].parent == cur && i != cur && point_in_node(nodes[i], row, col) {
        i
    } else {
        find_child_from(nodes, cur, i + 1, row, col)
    }
}

/// Descend from `cur` toward the smallest node covering the point,
/// taking at most `fuel` steps.
pub open spec fn descend_from(
    nodes: Seq<NodeModel>,
    cur: int,
    row: int,
    col: int,
    fuel: nat,
) -> int
    decreases fuel,
{
    if fuel == 0 {
        cur
    } else {
        let c = find_child_from(nodes, cur, cur + 1, row, col);
        if c < 0 {
            cur
        } else {
            descend_from(nodes, c, row, col, (fuel - 1) as nat)
        }
    }
}

/// The smallest node covering the point: start at the root and descend
/// into the first covering child while one exists.
pub open spec fn node_at_point(nodes: Seq<NodeModel>, row: int, col: int) -> int {
    descend_from(nodes, 0, row, col, nodes.len())
}

proof fn lemma_find_child_range(nodes: Seq<NodeModel>, cur: int, i: int, row: int, col: int)
    requires
        0 <= i,
    ensures
        find_child_from(nodes, cur, i, row, col) == -1 || (i <= find_child_from(
            nodes,
            cur,
            i,
            row,
            col,
        ) < nodes.len()),
    decreases nodes.len() - i,
{
    if i >= nodes.len() {
    } else if nodes[i].parent == cur && i != cur && point_in_node(nodes[i], row, col) {
    } else {
        lemma_find_child_range(nodes, cur, i + 1, row, col);
    }
}

/// First covering child of `cur`, if any.
fn find_child(nodes: &Vec<FlatNode>, cur: usize, row: usize, col: usize) -> (r: Option<usize>)
    requires
        cur < nodes.deep_view().len(),
    ensures
        match r {
            Some(c) => find_child_from(nodes.deep_view(), cur as int, cur + 1, row as int, col as int)
                == c && cur < c < nodes.deep_view().len(),
            None => find_child_from(nodes.deep_view(), cur as int, cur + 1, row as int, col as int)
                == -1,
        },
{
    let ghost all = nodes.deep_view();
    let n = nodes.len();
    let mut i: usize = cur + 1;
    while i < n
        invariant
            cur + 1 <= i <= n,
            n == all.len(),
            all == nodes.deep_view(),
            find_child_from(all, cur as int, cur + 1, row as int, col as int) == find_child_from(
                all,
                cur as int,
                i as int,
                row as int,
                col as int,
            ),
        decreases n - i,
    {
        let nd = &nodes[i];
        proof {
            assert(nd@ == all[i as int]);
        }
        let after_start = nd.start_row < row || (nd.start_row == row && nd.start_col <= col);
        let before_end = row < nd.end_row || (row == nd.end_row && col < nd.end_col);
        let empty_at = nd.start_row == nd.end_row && nd.start_col == nd.end_col && row
            == nd.start_row && col == nd.start_col;
        if nd.parent == cur && ((after_start && before_end) || empty_at) {
            return Some(i);
        }
        i += 1;
    }
    None
}

/// The smallest node covering the point.
pub fn node_at(nodes: &Vec<FlatNode>, row: usize, col: usize) -> (r: usize)
    requires
        nodes.deep_view().len() > 0,
    ensures
        r == node_at_point(nodes.deep_view(), row as int, col as int),
        r < nodes.deep_view().len(),
{
    let ghost all = nodes.deep_view();
    let n = nodes.len();
    let mut cur: usize = 0;
    let mut fuel: usize = n;
    while fuel > 0
        invariant
            cur < n,
            fuel <= n,
            n == all.len(),
            all == nodes.deep_view(),
            node_at_point(all, row as int, col as int) == descend_from(
                all,
                cur as int,
                row as int,
                col as int,
                fuel as nat,
            ),
        decreases fuel,
    {
        match find_child(nodes, cur, row, col) {
            Some(c) => {
                cur = c;
                fuel -= 1;
            },
            None => {
                return cur;
            },
        }
    }
    cur
}

} // verus!
