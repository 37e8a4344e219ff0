//! Control-flow graphs of function bodies.
//!
//! A body is turned into a graph of [`Node`]s held in a `petgraph` graph. Straight-line
//! statements are grouped into basic blocks; `while` loops become a loop head, a
//! condition node and a loop foot joined by a back edge; `if` chains become stacked branch splits and
//! merges. Building the graph also checks that `break` and `continue` only occur
//! inside loops.

use vstd::prelude::*;

use petgraph::graph::{Graph, NodeIndex};
use petgraph::visit::EdgeRef;
use petgraph::{Directed, Direction};

use crate::ast::{Block, Branch, ExprStmt, Ident, If, Stmt, TypeAnnotation, While};
use crate::error::{AnalysisError, ControlFlowError};
use crate::expr_flow::{flatten, flatten_path, Expr};
use crate::span::Span;
use crate::types::{same_type, AbstractType};

verus! {

#[verifier::external_type_specification]
#[verifier::external_body]
#[verifier::reject_recursive_types(N)]
#[verifier::reject_recursive_types(E)]
#[verifier::reject_recursive_types(Ty)]
#[verifier::reject_recursive_types(Ix)]
pub struct ExGraph<N, E, Ty, Ix>(Graph<N, E, Ty, Ix>);

#[verifier::external_type_specification]
#[verifier::external_body]
pub struct ExDirected(Directed);

/// A flattened expression and where it stands in the source.
pub struct ExprData {
    pub expr: Expr,
    pub span: Span,
}

/// A local variable declaration: `let name: annotation = init;`.
pub struct LocalVarDeclData {
    pub var_name: Ident,
    pub type_annotation: Option<TypeAnnotation>,
    pub init_expr: Expr,
    pub span: Span,
}

/// An assignment: the field access that is assigned to, and the new value.
pub struct AssignmentData {
    pub assignee: Expr,
    pub value: Expr,
    pub span: Span,
}

/// A statement of a basic block.
pub enum BlockNode {
    Expr(ExprData),
    LocalVarDecl(LocalVarDeclData),
    Assignment(AssignmentData),
}

/// Statements that run one after the other without any jump.
pub struct BasicBlock(pub Vec<BlockNode>);

/// Identifies a loop: the graph index of its loop head.
#[derive(Clone, Copy, Debug, PartialEq, Eq, Structural)]
pub struct LoopData {
    pub loop_id: usize,
    pub span: Span,
}

/// Identifies a branching: the graph index of its branch split.
#[derive(Clone, Copy, Debug, PartialEq, Eq, Structural)]
pub struct BranchingData {
    pub branch_id: usize,
}

pub struct ReturnData {
    pub expr: Option<Expr>,
    pub span: Span,
}

/// A node of the control-flow graph.
pub enum Node {
    Start,
    End,
    BranchSplit(BranchingData),
    BranchMerge(BranchingData),
    LoopHead(LoopData),
    LoopFoot(LoopData),
    Continue(LoopData),
    Break(LoopData),
    EnterScope,
    ExitScope,
    Block(BasicBlock),
    Condition(ExprData),
    Return(ReturnData),
}

/// The kind of an edge: plain sequence, the true or false path of a condition,
/// or the back edge from a loop foot to its head.
#[derive(Clone, Copy, Debug, PartialEq, Eq, Structural)]
pub enum Edge {
    Normal,
    True,
    False,
    BackEdge,
}

/// The node weights of a graph, in the order in which the nodes were added; a
/// node's index is its position here.
pub uninterp spec fn graph_nodes(g: Graph<Node, Edge>) -> Seq<Node>;

/// The edges of a graph as (source, target, weight), in the order in which they
/// were added.
pub uninterp spec fn graph_edges(g: Graph<Node, Edge>) -> Seq<(usize, usize, Edge)>;

/// `petgraph::graph::Graph::new`: the new graph has no nodes and no edges.
#[verifier::external_body]
fn graph_new() -> (g: Graph<Node, Edge>)
    ensures
        graph_nodes(g) == Seq::<Node>::empty(),
        graph_edges(g) == Seq::<(usize, usize, Edge)>::empty(),
{
    Graph::new()
}

/// `petgraph::graph::Graph::add_node`: appends the node, whose index is the
/// previous node count. It panics only when the count has reached `u32::MAX`.
#[verifier::external_body]
fn graph_add_node(g: &mut Graph<Node, Edge>, n: Node) -> (i: usize)
    requires
        graph_nodes(*old(g)).len() < 0xffff_ffff,
    ensures
        graph_nodes(*final(g)) == graph_nodes(*old(g)).push(n),
        graph_edges(*final(g)) == graph_edges(*old(g)),
        i == graph_nodes(*old(g)).len(),
{
    g.add_node(n).index()
}

/// `petgraph::graph::Graph::add_edge`: appends the edge. It panics when an end
/// point does not exist or the edge count has reached `u32::MAX`.
#[verifier::external_body]
fn graph_add_edge(g: &mut Graph<Node, Edge>, a: usize, b: usize, e: Edge)
    requires
        a < graph_nodes(*old(g)).len(),
        b < graph_nodes(*old(g)).len(),
        graph_edges(*old(g)).len() < 0xffff_ffff,
    ensures
        graph_nodes(*final(g)) == graph_nodes(*old(g)),
        graph_edges(*final(g)) == graph_edges(*old(g)).push((a, b, e)),
{
    g.add_edge(NodeIndex::new(a), NodeIndex::new(b), e);
}

/// The edges in `edges` that leave `a` (when `outgoing`) or enter `a`, most
/// recently added first.
pub open spec fn edges_at(edges: Seq<(usize, usize, Edge)>, a: usize, outgoing: bool) -> Seq<(usize, usize, Edge)>
    decreases edges.len(),
{
    if edges.len() == 0 {
        Seq::empty()
    } else {
        let rest = edges_at(edges.drop_last(), a, outgoing);
        let e = edges.last();
        if (outgoing && e.0 == a) || (!outgoing && e.1 == a) {
            seq![e].add(rest)
        } else {
            rest
        }
    }
}

/// `petgraph::graph::Graph::node_count`: the number of nodes.
#[verifier::external_body]
fn graph_node_count(g: &Graph<Node, Edge>) -> (r: usize)
    ensures
        r == graph_nodes(*g).len(),
{
    g.node_count()
}

/// `petgraph::graph::Graph::edges_directed` on a directed graph: the edges
/// leaving (or entering) `a`, most recently added first, as (source, target, weight).
#[verifier::external_body]
fn graph_edges_directed(g: &Graph<Node, Edge>, a: usize, outgoing: bool) -> (r: Vec<(usize, usize, Edge)>)
    requires
        a < 0xffff_ffff,
    ensures
        r@ == edges_at(graph_edges(*g), a, outgoing),
{
    let dir = if outgoing { Direction::Outgoing } else { Direction::Incoming };
    let mut out: Vec<(usize, usize, Edge)> = Vec::new();
    for e in g.edges_directed(NodeIndex::new(a), dir) {
        out.push((e.source().index(), e.target().index(), *e.weight()));
    }
    out
}

/// `petgraph::graph::Graph::node_weight`: the weight of node `a`, if it exists.
#[verifier::external_body]
fn graph_node_weight(g: &Graph<Node, Edge>, a: usize) -> (r: Option<&Node>)
    requires
        a < 0xffff_ffff,
    ensures
        a < graph_nodes(*g).len() ==> r == Some(&graph_nodes(*g)[a as int]),
        a >= graph_nodes(*g).len() ==> r is None,
{
    g.node_weight(NodeIndex::new(a))
}


/// Every edge joins two existing nodes.
pub open spec fn edges_valid(g: Graph<Node, Edge>) -> bool {
    forall|k: int|
        0 <= k < graph_edges(g).len() ==> (#[trigger] graph_edges(g)[k]).0 < graph_nodes(g).len()
            && graph_edges(g)[k].1 < graph_nodes(g).len()
}

/// No edge leads into the start or the end node (indices 0 and 1).
pub open spec fn targets_untouched(g: Graph<Node, Edge>) -> bool {
    forall|k: int| 0 <= k < graph_edges(g).len() ==> (#[trigger] graph_edges(g)[k]).1 >= 2
}

/// No edge leaves the start or the end node.
pub open spec fn sources_untouched(g: Graph<Node, Edge>) -> bool {
    forall|k: int| 0 <= k < graph_edges(g).len() ==> (#[trigger] graph_edges(g)[k]).0 >= 2
}

/// No edge touches the start or the end node (indices 0 and 1).
pub open spec fn ends_untouched(g: Graph<Node, Edge>) -> bool {
    targets_untouched(g) && sources_untouched(g)
}

/// `new` was obtained from `old` by adding nodes and edges only.
pub open spec fn grows(old: Graph<Node, Edge>, new: Graph<Node, Edge>) -> bool {
    &&& graph_nodes(new).len() >= graph_nodes(old).len()
    &&& forall|k: int| 0 <= k < graph_nodes(old).len() ==> #[trigger] graph_nodes(new)[k] == graph_nodes(old)[k]
    &&& graph_edges(new).len() >= graph_edges(old).len()
    &&& forall|k: int| 0 <= k < graph_edges(old).len() ==> #[trigger] graph_edges(new)[k] == graph_edges(old)[k]
}

/// `es` holds an edge from `a` to `b` of kind `e`.
pub open spec fn has_edge(es: Seq<(usize, usize, Edge)>, a: int, b: int, e: Edge) -> bool {
    exists|k: int| 0 <= k < es.len() && #[trigger] es[k] == (a as usize, b as usize, e)
}

/// The node at index `k` stands where its kind requires: a loop head, identified
/// by its own index, is followed by its loop foot, which leads back to it by a
/// back edge; a `break` or `continue` names an earlier loop head; a branch split,
/// identified by its own index, is followed by its branch merge.
pub open spec fn node_in_place(ns: Seq<Node>, es: Seq<(usize, usize, Edge)>, k: int) -> bool {
    match ns[k] {
        Node::LoopHead(d) => d.loop_id == k && k + 1 < ns.len() && ns[k + 1] == Node::LoopFoot(d)
            && has_edge(es, k + 1, k, Edge::BackEdge),
        Node::LoopFoot(d) => k >= 1 && d.loop_id == k - 1 && (ns[k - 1] matches Node::LoopHead(h) && h == d),
        Node::Break(d) => d.loop_id < k && (ns[d.loop_id as int] matches Node::LoopHead(h) && h.loop_id == d.loop_id),
        Node::Continue(d) => d.loop_id < k && (ns[d.loop_id as int] matches Node::LoopHead(h) && h.loop_id
            == d.loop_id),
        Node::BranchSplit(b) => b.branch_id == k && k + 1 < ns.len() && ns[k + 1] == Node::BranchMerge(b),
        Node::BranchMerge(b) => k >= 1 && b.branch_id == k - 1 && ns[k - 1] == Node::BranchSplit(b),
        _ => true,
    }
}

/// Every node stands where its kind requires (see `node_in_place`).
pub open spec fn nodes_in_place(ns: Seq<Node>, es: Seq<(usize, usize, Edge)>) -> bool {
    forall|k: int| 0 <= k < ns.len() ==> #[trigger] node_in_place(ns, es, k)
}

/// The nodes of `g` stand where their kinds require.
pub open spec fn graph_in_place(g: Graph<Node, Edge>) -> bool {
    nodes_in_place(graph_nodes(g), graph_edges(g))
}

/// `n` can be added to `g` as a node on its own: it is no loop head, loop foot,
/// branch split or branch merge, and a `break` or `continue` names a loop head of `g`.
pub open spec fn fits(g: Graph<Node, Edge>, n: Node) -> bool {
    match n {
        Node::LoopHead(_) | Node::LoopFoot(_) | Node::BranchSplit(_) | Node::BranchMerge(_) => false,
        Node::Break(d) | Node::Continue(d) => d.loop_id < graph_nodes(g).len() && (graph_nodes(g)[d.loop_id as int] matches Node::LoopHead(
            h,
        ) && h.loop_id == d.loop_id),
        _ => true,
    }
}

/// The nodes of a graph stay in place when it grows.
proof fn lemma_in_place_grows(g0: Graph<Node, Edge>, g: Graph<Node, Edge>)
    requires
        grows(g0, g),
        graph_in_place(g0),
    ensures
        forall|k: int| 0 <= k < graph_nodes(g0).len() ==> #[trigger] node_in_place(graph_nodes(g), graph_edges(g), k),
{
    let ns0 = graph_nodes(g0);
    let es0 = graph_edges(g0);
    let ns = graph_nodes(g);
    let es = graph_edges(g);
    assert forall|k: int| 0 <= k < ns0.len() implies #[trigger] node_in_place(ns, es, k) by {
        assert(node_in_place(ns0, es0, k));
        assert(ns[k] == ns0[k]);
        match ns0[k] {
            Node::LoopHead(d) => {
                assert(ns[k + 1] == ns0[k + 1]);
                let j = choose|j: int| 0 <= j < es0.len() && #[trigger] es0[j] == ((k + 1) as usize, k as usize, Edge::BackEdge);
                assert(es[j] == es0[j]);
            },
            Node::LoopFoot(d) => {
                assert(ns[k - 1] == ns0[k - 1]);
            },
            Node::Break(d) => {
                assert(ns[d.loop_id as int] == ns0[d.loop_id as int]);
            },
            Node::Continue(d) => {
                assert(ns[d.loop_id as int] == ns0[d.loop_id as int]);
            },
            Node::BranchSplit(b) => {
                assert(ns[k + 1] == ns0[k + 1]);
            },
            Node::BranchMerge(b) => {
                assert(ns[k - 1] == ns0[k - 1]);
            },
            _ => {},
        }
    }
}

/// A node that fits, added with edges added too, leaves every node in place.
proof fn lemma_new_node_in_place(g0: Graph<Node, Edge>, g: Graph<Node, Edge>, n: Node)
    requires
        grows(g0, g),
        graph_in_place(g0),
        fits(g0, n),
        graph_nodes(g) == graph_nodes(g0).push(n),
    ensures
        graph_in_place(g),
{
    lemma_in_place_grows(g0, g);
    let ns = graph_nodes(g);
    let last = graph_nodes(g0).len() as int;
    assert forall|k: int| 0 <= k < ns.len() implies #[trigger] node_in_place(ns, graph_edges(g), k) by {
        if k == last {
            assert(ns[k] == n);
            match n {
                Node::Break(d) => {
                    assert(ns[d.loop_id as int] == graph_nodes(g0)[d.loop_id as int]);
                },
                Node::Continue(d) => {
                    assert(ns[d.loop_id as int] == graph_nodes(g0)[d.loop_id as int]);
                },
                _ => {},
            }
        }
    }
}

/// The edges leaving `k` in `es` are one true edge and one false edge.
pub open spec fn two_way(es: Seq<(usize, usize, Edge)>, k: int) -> bool {
    let out = edges_at(es, k as usize, true);
    &&& out.len() == 2
    &&& (out[0].2 == Edge::True && out[1].2 == Edge::False) || (out[0].2 == Edge::False && out[1].2 == Edge::True)
}

/// Some edge of kind `e` leaves `k` in `es`.
pub open spec fn has_out(es: Seq<(usize, usize, Edge)>, k: int, e: Edge) -> bool {
    exists|j: int| 0 <= j < es.len() && (#[trigger] es[j]).0 == k && es[j].2 == e
}

/// The loop whose head is at `k` (and foot at `k + 1`) has the shape of a `while`:
/// the head leads to a condition generated after the loop's body; its false edge
/// leads to the foot; its true edge leads to the foot too when the body is empty,
/// else to the `EnterScope` just after the condition, whose `ExitScope` (the node
/// after it) leads to the foot.
pub open spec fn loop_shape(ns: Seq<Node>, es: Seq<(usize, usize, Edge)>, k: int) -> bool {
    exists|c: int|
        #![trigger has_edge(es, k, c, Edge::Normal)]
        k + 1 < c < ns.len() && ns[c] is Condition && has_edge(es, k, c, Edge::Normal) && has_edge(es, c, k + 1, Edge::False)
            && (has_edge(es, c, k + 1, Edge::True) || (c + 2 < ns.len() && ns[c + 1] is EnterScope && ns[c + 2] is ExitScope
            && has_edge(es, c, c + 1, Edge::True) && has_edge(es, c + 2, k + 1, Edge::Normal)))
}

/// The node at `k` branches as its kind requires: a condition has exactly one
/// true and one false edge leaving it, and a loop head heads a loop of the shape
/// of a `while` (see `loop_shape`).
pub open spec fn branch_ok(ns: Seq<Node>, es: Seq<(usize, usize, Edge)>, k: int) -> bool {
    match ns[k] {
        Node::Condition(_) => two_way(es, k),
        Node::LoopHead(_) => loop_shape(ns, es, k),
        _ => true,
    }
}

/// An edge stays when the graph grows.
proof fn lemma_has_edge_grows(es1: Seq<(usize, usize, Edge)>, es2: Seq<(usize, usize, Edge)>, a: int, b: int, e: Edge)
    requires
        es1.len() <= es2.len(),
        forall|j: int| 0 <= j < es1.len() ==> #[trigger] es2[j] == es1[j],
        has_edge(es1, a, b, e),
    ensures
        has_edge(es2, a, b, e),
{
    let j = choose|j: int| 0 <= j < es1.len() && #[trigger] es1[j] == (a as usize, b as usize, e);
    assert(es2[j] == es1[j]);
}

/// The shape of a loop stays when the graph grows.
proof fn lemma_loop_shape_grows(ns1: Seq<Node>, es1: Seq<(usize, usize, Edge)>, ns2: Seq<Node>, es2: Seq<(usize, usize, Edge)>, k: int)
    requires
        0 <= k,
        ns1.len() <= ns2.len(),
        forall|j: int| 0 <= j < ns1.len() ==> #[trigger] ns2[j] == ns1[j],
        es1.len() <= es2.len(),
        forall|j: int| 0 <= j < es1.len() ==> #[trigger] es2[j] == es1[j],
        loop_shape(ns1, es1, k),
    ensures
        loop_shape(ns2, es2, k),
{
    let c = choose|c: int|
        #![trigger has_edge(es1, k, c, Edge::Normal)]
        k + 1 < c < ns1.len() && ns1[c] is Condition && has_edge(es1, k, c, Edge::Normal) && has_edge(es1, c, k + 1, Edge::False)
            && (has_edge(es1, c, k + 1, Edge::True) || (c + 2 < ns1.len() && ns1[c + 1] is EnterScope && ns1[c + 2] is ExitScope
            && has_edge(es1, c, c + 1, Edge::True) && has_edge(es1, c + 2, k + 1, Edge::Normal)));
    assert(ns2[c] == ns1[c]);
    lemma_has_edge_grows(es1, es2, k, c, Edge::Normal);
    lemma_has_edge_grows(es1, es2, c, k + 1, Edge::False);
    if has_edge(es1, c, k + 1, Edge::True) {
        lemma_has_edge_grows(es1, es2, c, k + 1, Edge::True);
    } else {
        assert(ns2[c + 1] == ns1[c + 1]);
        assert(ns2[c + 2] == ns1[c + 2]);
        lemma_has_edge_grows(es1, es2, c, c + 1, Edge::True);
        lemma_has_edge_grows(es1, es2, c + 2, k + 1, Edge::Normal);
    }
}

/// The nodes from index `from` on, but for the one at `except`, branch both ways.
pub open spec fn branches_from(ns: Seq<Node>, es: Seq<(usize, usize, Edge)>, from: int, except: int) -> bool {
    forall|k: int| from <= k < ns.len() && k != except ==> #[trigger] branch_ok(ns, es, k)
}

/// No edge that `new` adds to `old` leaves a condition node of `old`.
pub open spec fn conditions_closed(old: Graph<Node, Edge>, new: Graph<Node, Edge>) -> bool {
    closed_except(old, new, -1)
}

/// No edge that `new` adds to `old` leaves a condition node of `old` other than `x`.
pub open spec fn closed_except(old: Graph<Node, Edge>, new: Graph<Node, Edge>, x: int) -> bool {
    forall|j: int|
        graph_edges(old).len() <= j < graph_edges(new).len() ==> (#[trigger] graph_edges(new)[j]).0 >= graph_nodes(
            old,
        ).len() || !(graph_nodes(old)[graph_edges(new)[j].0 as int] is Condition) || graph_edges(new)[j].0 == x
}

/// `k` is no condition node of `g`.
pub open spec fn not_condition(g: Graph<Node, Edge>, k: Option<usize>) -> bool {
    k matches Some(x) ==> x < graph_nodes(g).len() && !(graph_nodes(g)[x as int] is Condition)
}

/// Pushing an edge adds it in front of the edges leaving its source, and leaves
/// those of every other node as they are.
proof fn lemma_edges_at_push(es: Seq<(usize, usize, Edge)>, e: (usize, usize, Edge), k: usize)
    ensures
        edges_at(es.push(e), k, true) == (if e.0 == k {
            seq![e].add(edges_at(es, k, true))
        } else {
            edges_at(es, k, true)
        }),
{
    assert(es.push(e).drop_last() =~= es);
}

/// Edges added from other nodes leave the edges leaving `k` as they are.
proof fn lemma_out_unchanged(es0: Seq<(usize, usize, Edge)>, es1: Seq<(usize, usize, Edge)>, k: usize)
    requires
        es1.len() >= es0.len(),
        forall|j: int| 0 <= j < es0.len() ==> #[trigger] es1[j] == es0[j],
        forall|j: int| es0.len() <= j < es1.len() ==> (#[trigger] es1[j]).0 != k,
    ensures
        edges_at(es1, k, true) == edges_at(es0, k, true),
    decreases es1.len(),
{
    if es1.len() > es0.len() {
        let es = es1.drop_last();
        assert(es1 =~= es.push(es1.last()));
        lemma_edges_at_push(es, es1.last(), k);
        lemma_out_unchanged(es0, es, k);
    } else {
        assert(es1 =~= es0);
    }
}

/// Growing a graph without edges from its conditions keeps its nodes branching
/// both ways.
proof fn lemma_branches_grow(g1: Graph<Node, Edge>, g2: Graph<Node, Edge>, from: int, except: int)
    requires
        0 <= from,
        graph_nodes(g2).len() < 0xffff_ffff,
        grows(g1, g2),
        closed_except(g1, g2, except),
        branches_from(graph_nodes(g1), graph_edges(g1), from, except),
        branches_from(graph_nodes(g2), graph_edges(g2), graph_nodes(g1).len() as int, except),
    ensures
        branches_from(graph_nodes(g2), graph_edges(g2), from, except),
{
    let ns1 = graph_nodes(g1);
    let es1 = graph_edges(g1);
    let ns2 = graph_nodes(g2);
    let es2 = graph_edges(g2);
    assert forall|k: int| from <= k < ns2.len() && k != except implies #[trigger] branch_ok(ns2, es2, k) by {
        if k < ns1.len() {
            assert(branch_ok(ns1, es1, k));
            assert(ns2[k] == ns1[k]);
            match ns1[k] {
                Node::Condition(_) => {
                    assert forall|j: int| es1.len() <= j < es2.len() implies (#[trigger] es2[j]).0 != k as usize by {
                        if es2[j].0 < ns1.len() && es2[j].0 != except {
                            assert(!(ns1[es2[j].0 as int] is Condition));
                        }
                    }
                    lemma_out_unchanged(es1, es2, k as usize);
                },
                Node::LoopHead(_) => {
                    lemma_loop_shape_grows(ns1, es1, ns2, es2, k);
                },
                _ => {},
            }
        }
    }
}

/// Closing conditions is transitive.
proof fn lemma_closed_trans(g0: Graph<Node, Edge>, g1: Graph<Node, Edge>, g2: Graph<Node, Edge>, x: int)
    requires
        grows(g0, g1),
        grows(g1, g2),
        conditions_closed(g0, g1),
        closed_except(g1, g2, x),
        x < 0 || x >= graph_nodes(g0).len(),
    ensures
        grows(g0, g2),
        conditions_closed(g0, g2),
{
    assert forall|j: int| graph_edges(g0).len() <= j < graph_edges(g2).len() implies (#[trigger] graph_edges(g2)[j]).0
        >= graph_nodes(g0).len() || !(graph_nodes(g0)[graph_edges(g2)[j].0 as int] is Condition) || graph_edges(g2)[j].0
        == -1 by {
        let src = graph_edges(g2)[j].0;
        if j < graph_edges(g1).len() {
            assert(graph_edges(g2)[j] == graph_edges(g1)[j]);
        } else if src < graph_nodes(g0).len() {
            assert(graph_nodes(g1)[src as int] == graph_nodes(g0)[src as int]);
        }
    }
}

/// One more step of growing a graph from `g0` keeps its conditions closed and
/// its nodes from `from` on, but for `except`, branching both ways.
proof fn lemma_step(g0: Graph<Node, Edge>, ga: Graph<Node, Edge>, gb: Graph<Node, Edge>, from: int, except: int)
    requires
        0 <= from,
        graph_nodes(gb).len() < 0xffff_ffff,
        grows(g0, ga),
        grows(ga, gb),
        conditions_closed(g0, ga),
        closed_except(ga, gb, except),
        except < 0 || except >= graph_nodes(g0).len(),
        branches_from(graph_nodes(ga), graph_edges(ga), from, except),
        branches_from(graph_nodes(gb), graph_edges(gb), graph_nodes(ga).len() as int, except),
    ensures
        grows(g0, gb),
        conditions_closed(g0, gb),
        branches_from(graph_nodes(gb), graph_edges(gb), from, except),
{
    lemma_branches_grow(ga, gb, from, except);
    lemma_closed_trans(g0, ga, gb, except);
}

/// The nodes from index `from` on, but for those at `x` and `y`, branch both ways.
pub open spec fn branches_from2(ns: Seq<Node>, es: Seq<(usize, usize, Edge)>, from: int, x: int, y: int) -> bool {
    forall|k: int| from <= k < ns.len() && k != x && k != y ==> #[trigger] branch_ok(ns, es, k)
}

/// `lemma_branches_grow` with two nodes left out.
proof fn lemma_branches_grow2(g1: Graph<Node, Edge>, g2: Graph<Node, Edge>, from: int, x: int, y: int)
    requires
        0 <= from,
        graph_nodes(g2).len() < 0xffff_ffff,
        grows(g1, g2),
        closed_except(g1, g2, x),
        branches_from2(graph_nodes(g1), graph_edges(g1), from, x, y),
        branches_from2(graph_nodes(g2), graph_edges(g2), graph_nodes(g1).len() as int, x, y),
    ensures
        branches_from2(graph_nodes(g2), graph_edges(g2), from, x, y),
{
    let ns1 = graph_nodes(g1);
    let es1 = graph_edges(g1);
    let ns2 = graph_nodes(g2);
    let es2 = graph_edges(g2);
    assert forall|k: int| from <= k < ns2.len() && k != x && k != y implies #[trigger] branch_ok(ns2, es2, k) by {
        if k < ns1.len() {
            assert(branch_ok(ns1, es1, k));
            assert(ns2[k] == ns1[k]);
            match ns1[k] {
                Node::Condition(_) => {
                    assert forall|j: int| es1.len() <= j < es2.len() implies (#[trigger] es2[j]).0 != k as usize by {
                        if es2[j].0 < ns1.len() && es2[j].0 != x {
                            assert(!(ns1[es2[j].0 as int] is Condition));
                        }
                    }
                    lemma_out_unchanged(es1, es2, k as usize);
                },
                Node::LoopHead(_) => {
                    lemma_loop_shape_grows(ns1, es1, ns2, es2, k);
                },
                _ => {},
            }
        }
    }
}

/// `lemma_step` with two nodes left out.
proof fn lemma_step2(g0: Graph<Node, Edge>, ga: Graph<Node, Edge>, gb: Graph<Node, Edge>, from: int, x: int, y: int)
    requires
        0 <= from,
        graph_nodes(gb).len() < 0xffff_ffff,
        grows(g0, ga),
        grows(ga, gb),
        conditions_closed(g0, ga),
        closed_except(ga, gb, x),
        x < 0 || x >= graph_nodes(g0).len(),
        branches_from2(graph_nodes(ga), graph_edges(ga), from, x, y),
        branches_from2(graph_nodes(gb), graph_edges(gb), graph_nodes(ga).len() as int, x, y),
    ensures
        grows(g0, gb),
        conditions_closed(g0, gb),
        branches_from2(graph_nodes(gb), graph_edges(gb), from, x, y),
{
    lemma_branches_grow2(ga, gb, from, x, y);
    lemma_closed_trans(g0, ga, gb, x);
}

/// The edges leaving a pending condition `k` are its true edge alone, and no
/// edge that `g2` adds to `g1` leaves it.
proof fn lemma_pending_kept(g1: Graph<Node, Edge>, g2: Graph<Node, Edge>, k: usize)
    requires
        grows(g1, g2),
        closed_except(g1, g2, -1),
        k < graph_nodes(g1).len(),
        graph_nodes(g1)[k as int] is Condition,
    ensures
        edges_at(graph_edges(g2), k, true) == edges_at(graph_edges(g1), k, true),
{
    let es1 = graph_edges(g1);
    let es2 = graph_edges(g2);
    assert forall|j: int| es1.len() <= j < es2.len() implies (#[trigger] es2[j]).0 != k by {
        if es2[j].0 < graph_nodes(g1).len() {
            assert(!(graph_nodes(g1)[es2[j].0 as int] is Condition));
        }
    }
    lemma_out_unchanged(es1, es2, k);
}

/// Every node branches as its kind requires (see `branch_ok`): a condition has
/// exactly one true and one false edge leaving it, and a loop head heads a loop
/// of the shape of a `while`.
pub open spec fn branches_both_ways(ns: Seq<Node>, es: Seq<(usize, usize, Edge)>) -> bool {
    branches_from(ns, es, 0, -1)
}

/// `loop_data`, when present, holds the index of a loop head of `g`.
pub open spec fn names_loop(g: Graph<Node, Edge>, loop_data: Option<(usize, usize)>) -> bool {
    loop_data matches Some((h, _)) ==> h < graph_nodes(g).len() && (graph_nodes(g)[h as int] matches Node::LoopHead(
        d,
    ) && d.loop_id == h)
}

/// Two nodes added together, each in place, leave every node in place.
proof fn lemma_pair_in_place(g0: Graph<Node, Edge>, g: Graph<Node, Edge>)
    requires
        grows(g0, g),
        graph_in_place(g0),
        graph_nodes(g).len() == graph_nodes(g0).len() + 2,
        node_in_place(graph_nodes(g), graph_edges(g), graph_nodes(g0).len() as int),
        node_in_place(graph_nodes(g), graph_edges(g), graph_nodes(g0).len() + 1int),
    ensures
        graph_in_place(g),
{
    lemma_in_place_grows(g0, g);
}

/// The first `break` or `continue` in `stmts[i..]` that stands outside every loop,
/// in source order; `in_loop` tells whether `stmts` are part of a loop body.
pub open spec fn jump_error(stmts: Seq<Stmt>, i: int, in_loop: bool) -> Option<ControlFlowError>
    decreases stmts, stmts.len() - i,
{
    if 0 <= i < stmts.len() {
        match stmt_jump_error(stmts[i], in_loop) {
            Some(e) => Some(e),
            None => jump_error(stmts, i + 1, in_loop),
        }
    } else {
        None
    }
}

/// The first misplaced `break` or `continue` in one statement.
pub open spec fn stmt_jump_error(s: Stmt, in_loop: bool) -> Option<ControlFlowError>
    decreases s, 0int,
{
    match s {
        Stmt::ExprStmt(ExprStmt::Break(span), _) => if in_loop {
            None
        } else {
            Some(ControlFlowError::BadBreak(span))
        },
        Stmt::ExprStmt(ExprStmt::Continue(span), _) => if in_loop {
            None
        } else {
            Some(ControlFlowError::BadContinue(span))
        },
        Stmt::ExprStmt(ExprStmt::While(w), _) => jump_error(w.block.0@, 0, true),
        Stmt::ExprStmt(ExprStmt::If(f), _) => if_jump_error(f, in_loop),
        _ => None,
    }
}

/// The first misplaced `break` or `continue` in an `if` chain: in its conditional
/// branches, in order, then in its `else` block.
pub open spec fn if_jump_error(f: If, in_loop: bool) -> Option<ControlFlowError>
    decreases f, 0int,
{
    match branches_jump_error(f.branches@, 0, in_loop) {
        Some(e) => Some(e),
        None => match f.default_block {
            Some(b) => jump_error(b.0@, 0, in_loop),
            None => None,
        },
    }
}

/// The first misplaced `break` or `continue` in the branch bodies `bs[j..]`.
pub open spec fn branches_jump_error(bs: Seq<Branch>, j: int, in_loop: bool) -> Option<ControlFlowError>
    decreases bs, bs.len() - j,
{
    if 0 <= j < bs.len() {
        match jump_error(bs[j].block.0@, 0, in_loop) {
            Some(e) => Some(e),
            None => branches_jump_error(bs, j + 1, in_loop),
        }
    } else {
        None
    }
}

/// Every `if` in `stmts[i..]`, nested ones included, has at least one conditional branch.
pub open spec fn stmts_ok(stmts: Seq<Stmt>, i: int) -> bool
    decreases stmts, stmts.len() - i,
{
    if 0 <= i < stmts.len() {
        stmt_ok(stmts[i]) && stmts_ok(stmts, i + 1)
    } else {
        true
    }
}

pub open spec fn stmt_ok(s: Stmt) -> bool
    decreases s, 0int,
{
    match s {
        Stmt::ExprStmt(ExprStmt::While(w), _) => stmts_ok(w.block.0@, 0),
        Stmt::ExprStmt(ExprStmt::If(f), _) => if_ok(f),
        _ => true,
    }
}

pub open spec fn if_ok(f: If) -> bool
    decreases f, 0int,
{
    &&& f.branches@.len() > 0
    &&& branches_ok(f.branches@, 0)
    &&& match f.default_block {
        Some(b) => stmts_ok(b.0@, 0),
        None => true,
    }
}

pub open spec fn branches_ok(bs: Seq<Branch>, j: int) -> bool
    decreases bs, bs.len() - j,
{
    if 0 <= j < bs.len() {
        stmts_ok(bs[j].block.0@, 0) && branches_ok(bs, j + 1)
    } else {
        true
    }
}

/// A bound on the number of nodes, and on the number of edges, that the graph of
/// `stmts[i..]` takes.
/// The statement is straight-line code: an expression, an assignment or a local
/// variable declaration.
pub open spec fn straight(s: Stmt) -> bool {
    match s {
        Stmt::Expr(_, _) => true,
        Stmt::ExprStmt(ExprStmt::Assignment(_), _) => true,
        Stmt::ExprStmt(ExprStmt::LocalVarDecl(_), _) => true,
        _ => false,
    }
}

/// Every statement of `stmts` is straight-line code.
pub open spec fn all_straight(stmts: Seq<Stmt>) -> bool {
    forall|k: int| 0 <= k < stmts.len() ==> #[trigger] straight(stmts[k])
}

/// The first `i + 1` statements are straight-line code when the first `i` are and
/// the next one is.
proof fn lemma_all_straight_push(stmts: Seq<Stmt>, i: int)
    requires
        0 <= i < stmts.len(),
    ensures
        all_straight(stmts.subrange(0, i + 1)) == (all_straight(stmts.subrange(0, i)) && straight(stmts[i])),
{
    let a = stmts.subrange(0, i);
    let b = stmts.subrange(0, i + 1);
    assert(b[i] == stmts[i]);
    if all_straight(a) && straight(stmts[i]) {
        assert forall|k: int| 0 <= k < b.len() implies #[trigger] straight(b[k]) by {
            if k < i {
                assert(b[k] == a[k]);
            }
        }
    }
    if all_straight(b) {
        assert forall|k: int| 0 <= k < a.len() implies #[trigger] straight(a[k]) by {
            assert(b[k] == a[k]);
            assert(straight(b[k]));
        }
        assert(straight(b[i]));
    }
}

/// Straight-line code has no `break` or `continue` in it.
proof fn lemma_straight_no_jump(stmts: Seq<Stmt>, i: int, in_loop: bool)
    requires
        all_straight(stmts),
        0 <= i,
    ensures
        jump_error(stmts, i, in_loop) is None,
    decreases stmts.len() - i,
{
    if i < stmts.len() {
        assert(straight(stmts[i]));
        assert(stmt_jump_error(stmts[i], in_loop) is None);
        lemma_straight_no_jump(stmts, i + 1, in_loop);
        assert(jump_error(stmts, i, in_loop) == jump_error(stmts, i + 1, in_loop));
    }
}

pub open spec fn stmts_cost(stmts: Seq<Stmt>, i: int) -> nat
    decreases stmts, stmts.len() - i,
{
    if 0 <= i < stmts.len() {
        stmt_cost(stmts[i]) + stmts_cost(stmts, i + 1)
    } else {
        0
    }
}

pub open spec fn stmt_cost(s: Stmt) -> nat
    decreases s, 0int,
{
    match s {
        Stmt::ExprStmt(ExprStmt::While(w), _) => 8 + stmts_cost(w.block.0@, 0),
        Stmt::ExprStmt(ExprStmt::If(f), _) => if_cost(f),
        _ => 1,
    }
}

pub open spec fn if_cost(f: If) -> nat
    decreases f, 0int,
{
    3 + branches_cost(f.branches@, 0) + match f.default_block {
        Some(b) => 5 + stmts_cost(b.0@, 0),
        None => 1,
    }
}

pub open spec fn branches_cost(bs: Seq<Branch>, j: int) -> nat
    decreases bs, bs.len() - j,
{
    if 0 <= j < bs.len() {
        7 + stmts_cost(bs[j].block.0@, 0) + branches_cost(bs, j + 1)
    } else {
        0
    }
}

/// The two ends of a generated subgraph, the `head` that the node before it is
/// joined to and the `foot` that is joined to the node after it; both are `None`
/// when it is empty. A block of statements whose trailing straight-line code
/// follows other statements has that trailing basic block as its head, and the
/// node generated just before it as its foot.
pub struct BranchData {
    pub head: Option<usize>,
    pub foot: Option<usize>,
}

/// Adds `n`, joins it to `previous` by an edge of kind `e`, makes it the head if there
/// is none yet, and makes it the new `previous`.
fn append_node(g: &mut Graph<Node, Edge>, head: &mut Option<usize>, previous: &mut Option<usize>, n: Node, e: Edge)
    requires
        graph_nodes(*old(g)).len() + 1 < 0xffff_ffff,
        graph_edges(*old(g)).len() + 1 < 0xffff_ffff,
        edges_valid(*old(g)),
        *old(previous) matches Some(p) ==> p < graph_nodes(*old(g)).len(),
    ensures
        graph_nodes(*final(g)) == graph_nodes(*old(g)).push(n),
        graph_edges(*final(g)) == (match *old(previous) {
            Some(p) => graph_edges(*old(g)).push((p, graph_nodes(*old(g)).len() as usize, e)),
            None => graph_edges(*old(g)),
        }),
        *final(head) == (if *old(head) is None {
            Some(graph_nodes(*old(g)).len() as usize)
        } else {
            *old(head)
        }),
        *final(previous) == Some(graph_nodes(*old(g)).len() as usize),
        edges_valid(*final(g)),
        grows(*old(g), *final(g)),
        targets_untouched(*old(g)) && graph_nodes(*old(g)).len() >= 2 ==> targets_untouched(*final(g)),
        ends_untouched(*old(g)) && graph_nodes(*old(g)).len() >= 2 && (*old(previous) matches Some(p) ==> p >= 2)
            ==> ends_untouched(*final(g)),
        graph_in_place(*old(g)) && fits(*old(g), n) ==> graph_in_place(*final(g)),
{
    let ghost g0 = *g;
    let temp = graph_add_node(g, n);
    if let Some(p) = *previous {
        graph_add_edge(g, p, temp, e);
    }
    if head.is_none() {
        *head = Some(temp);
    }
    *previous = Some(temp);
    proof {
        if graph_in_place(g0) && fits(g0, n) {
            lemma_new_node_in_place(g0, *g, n);
        }
    }
}

/// Joins the existing node `n` to `previous`, makes it the head if there is none
/// yet, and makes it the new `previous`.
fn append_index(g: &mut Graph<Node, Edge>, head: &mut Option<usize>, previous: &mut Option<usize>, n: usize, e: Edge)
    requires
        graph_edges(*old(g)).len() + 1 < 0xffff_ffff,
        edges_valid(*old(g)),
        n < graph_nodes(*old(g)).len(),
        *old(previous) matches Some(p) ==> p < graph_nodes(*old(g)).len(),
    ensures
        graph_nodes(*final(g)) == graph_nodes(*old(g)),
        graph_edges(*final(g)) == (match *old(previous) {
            Some(p) => graph_edges(*old(g)).push((p, n, e)),
            None => graph_edges(*old(g)),
        }),
        *final(head) == (if *old(head) is None {
            Some(n)
        } else {
            *old(head)
        }),
        *final(previous) == Some(n),
        edges_valid(*final(g)),
        grows(*old(g), *final(g)),
        targets_untouched(*old(g)) && n >= 2 ==> targets_untouched(*final(g)),
        ends_untouched(*old(g)) && n >= 2 && (*old(previous) matches Some(p) ==> p >= 2) ==> ends_untouched(*final(g)),
        graph_in_place(*old(g)) ==> graph_in_place(*final(g)),
{
    let ghost g0 = *g;
    if let Some(p) = *previous {
        graph_add_edge(g, p, n, e);
    }
    proof {
        if graph_in_place(g0) {
            lemma_in_place_grows(g0, *g);
        }
    }
    if head.is_none() {
        *head = Some(n);
    }
    *previous = Some(n);
}

/// Adds an edge between existing nodes.
fn add_edge(g: &mut Graph<Node, Edge>, a: usize, b: usize, e: Edge)
    requires
        graph_edges(*old(g)).len() + 1 < 0xffff_ffff,
        edges_valid(*old(g)),
        a < graph_nodes(*old(g)).len(),
        b < graph_nodes(*old(g)).len(),
    ensures
        graph_nodes(*final(g)) == graph_nodes(*old(g)),
        graph_edges(*final(g)) == graph_edges(*old(g)).push((a, b, e)),
        edges_valid(*final(g)),
        grows(*old(g), *final(g)),
        targets_untouched(*old(g)) && b >= 2 ==> targets_untouched(*final(g)),
        ends_untouched(*old(g)) && a >= 2 && b >= 2 ==> ends_untouched(*final(g)),
        graph_in_place(*old(g)) ==> graph_in_place(*final(g)),
{
    let ghost g0 = *g;
    graph_add_edge(g, a, b, e);
    proof {
        if graph_in_place(g0) {
            lemma_in_place_grows(g0, *g);
        }
    }
}

/// Adds a node.
fn add_node(g: &mut Graph<Node, Edge>, n: Node) -> (i: usize)
    requires
        graph_nodes(*old(g)).len() + 1 < 0xffff_ffff,
        edges_valid(*old(g)),
    ensures
        graph_nodes(*final(g)) == graph_nodes(*old(g)).push(n),
        graph_edges(*final(g)) == graph_edges(*old(g)),
        i == graph_nodes(*old(g)).len(),
        edges_valid(*final(g)),
        grows(*old(g), *final(g)),
        targets_untouched(*old(g)) ==> targets_untouched(*final(g)),
        ends_untouched(*old(g)) ==> ends_untouched(*final(g)),
        graph_in_place(*old(g)) && fits(*old(g), n) ==> graph_in_place(*final(g)),
{
    let ghost g0 = *g;
    let i = graph_add_node(g, n);
    proof {
        if graph_in_place(g0) && fits(g0, n) {
            lemma_new_node_in_place(g0, *g, n);
        }
    }
    i
}

/// The graph of a branch body, wrapped in `EnterScope` and `ExitScope` and, for a
/// conditional branch, preceded by its `Condition` node (joined by a true edge).
/// Head and foot are always present.
fn generate_branch(
    g: &mut Graph<Node, Edge>,
    body: Block,
    condition: Option<(crate::ast::Expr, Span)>,
    loop_data: Option<(usize, usize)>,
) -> (r: Result<BranchData, ControlFlowError>)
    requires
        edges_valid(*old(g)),
        stmts_ok(body.0@, 0),
        graph_nodes(*old(g)).len() + 3 + stmts_cost(body.0@, 0) < 0xffff_ffff,
        graph_edges(*old(g)).len() + 3 + stmts_cost(body.0@, 0) < 0xffff_ffff,
        loop_data matches Some((h, f)) ==> h < graph_nodes(*old(g)).len() && f < graph_nodes(*old(g)).len(),
        ends_untouched(*old(g)),
        graph_nodes(*old(g)).len() >= 2,
        loop_data matches Some((h, f)) ==> h >= 2 && f >= 2,
        graph_in_place(*old(g)),
        names_loop(*old(g), loop_data),
    ensures
        r is Err <==> jump_error(body.0@, 0, loop_data is Some) is Some,
        r matches Err(e) ==> jump_error(body.0@, 0, loop_data is Some) == Some(e),
        r matches Ok(bd) ==> {
            &&& edges_valid(*final(g))
            &&& grows(*old(g), *final(g))
            &&& graph_in_place(*final(g))
            &&& graph_nodes(*final(g)).len() <= graph_nodes(*old(g)).len() + 3 + stmts_cost(body.0@, 0)
            &&& graph_edges(*final(g)).len() <= graph_edges(*old(g)).len() + 3 + stmts_cost(body.0@, 0)
            &&& bd.head matches Some(h) && 2 <= h < graph_nodes(*final(g)).len()
            &&& bd.foot matches Some(f) && 2 <= f < graph_nodes(*final(g)).len()
            &&& ends_untouched(*final(g))
            &&& conditions_closed(*old(g), *final(g))
            &&& not_condition(*final(g), bd.foot)
            &&& bd.head->0 >= graph_nodes(*old(g)).len()
            &&& branches_from(
                graph_nodes(*final(g)),
                graph_edges(*final(g)),
                graph_nodes(*old(g)).len() as int,
                if condition is Some { bd.head->0 as int } else { -1 },
            )
            &&& (condition is None ==> not_condition(*final(g), bd.head))
            &&& (condition is Some ==> {
                &&& graph_nodes(*final(g))[bd.head->0 as int] is Condition
                &&& edges_at(graph_edges(*final(g)), bd.head->0, true).len() == 1
                &&& edges_at(graph_edges(*final(g)), bd.head->0, true)[0].2 == Edge::True
            })
        },
    decreases body.0@, 2nat,
{
    let ghost g0 = *g;
    let ghost n0 = graph_nodes(g0).len() as int;
    let ghost has_condition = condition is Some;
    let branch_graph = generate_scoped_block(g, body.0, loop_data)?;
    let ghost g1 = *g;
    let scope_enter = add_node(g, Node::EnterScope);
    let scope_exit = add_node(g, Node::ExitScope);
    let ghost g2 = *g;
    proof {
        lemma_branches_grow(g1, g2, n0, -1);
        lemma_closed_trans(g0, g1, g2, -1);
    }
    match (branch_graph.head, branch_graph.foot) {
        (Some(head), Some(foot)) => {
            add_edge(g, scope_enter, head, Edge::Normal);
            let ghost g3 = *g;
            proof {
                lemma_branches_grow(g2, g3, n0, -1);
                lemma_closed_trans(g0, g2, g3, -1);
            }
            add_edge(g, foot, scope_exit, Edge::Normal);
            proof {
                lemma_branches_grow(g3, *g, n0, -1);
                lemma_closed_trans(g0, g3, *g, -1);
            }
        },
        _ => {
            add_edge(g, scope_enter, scope_exit, Edge::Normal);
            proof {
                lemma_branches_grow(g2, *g, n0, -1);
                lemma_closed_trans(g0, g2, *g, -1);
            }
        },
    }
    match condition {
        Some((conditional, con_span)) => {
            let expr = flatten(&conditional, con_span);
            let ghost g4 = *g;
            let condition_node = add_node(g, Node::Condition(ExprData { expr, span: con_span }));
            let ghost g5 = *g;
            proof {
                lemma_branches_grow(g4, g5, n0, condition_node as int);
                lemma_closed_trans(g0, g4, g5, -1);
                assert(edges_at(graph_edges(g5), condition_node, true).len() == 0) by {
                    assert forall|k: int| 0 <= k < graph_edges(g5).len() implies (#[trigger] graph_edges(g5)[k]).0
                        != condition_node by {
                        assert(graph_edges(g5)[k].0 < graph_nodes(g4).len());
                    }
                    lemma_out_unchanged(Seq::empty(), graph_edges(g5), condition_node);
                }
            }
            add_edge(g, condition_node, scope_enter, Edge::True);
            proof {
                lemma_edges_at_push(graph_edges(g5), (condition_node, scope_enter, Edge::True), condition_node);
                lemma_branches_grow(g5, *g, n0, condition_node as int);
                lemma_closed_trans(g0, g5, *g, condition_node as int);
            }
            Ok(BranchData { head: Some(condition_node), foot: Some(scope_exit) })
        },
        None => Ok(BranchData { head: Some(scope_enter), foot: Some(scope_exit) }),
    }
}

/// One step of the recursive definitions over a statement list.
proof fn lemma_unfold_stmts(all: Seq<Stmt>, i: int, in_loop: bool)
    requires
        0 <= i < all.len(),
    ensures
        stmts_cost(all, i) == stmt_cost(all[i]) + stmts_cost(all, i + 1),
        stmts_ok(all, i) == (stmt_ok(all[i]) && stmts_ok(all, i + 1)),
        jump_error(all, i, in_loop) == (match stmt_jump_error(all[i], in_loop) {
            Some(e) => Some(e),
            None => jump_error(all, i + 1, in_loop),
        }),
{
}

/// One step of the recursive definitions over a branch list.
proof fn lemma_unfold_branches(bs: Seq<Branch>, j: int, in_loop: bool)
    requires
        0 <= j < bs.len(),
    ensures
        branches_cost(bs, j) == 7 + stmts_cost(bs[j].block.0@, 0) + branches_cost(bs, j + 1),
        branches_ok(bs, j) == (stmts_ok(bs[j].block.0@, 0) && branches_ok(bs, j + 1)),
        branches_jump_error(bs, j, in_loop) == (match jump_error(bs[j].block.0@, 0, in_loop) {
            Some(e) => Some(e),
            None => branches_jump_error(bs, j + 1, in_loop),
        }),
{
}

/// Appends a `while` loop after `previous`: a loop head (holding the condition)
/// and a loop foot joined by a back edge, with the body, wrapped in `EnterScope`
/// and `ExitScope`, on the true path and the foot on the false path. The foot
/// becomes the new `previous`.
#[verifier::loop_isolation(false)]
fn generate_while(
    g: &mut Graph<Node, Edge>,
    head: &mut Option<usize>,
    previous: &mut Option<usize>,
    while_data: While,
    stmt_span: Span,
) -> (r: Result<(), ControlFlowError>)
    requires
        edges_valid(*old(g)),
        stmts_ok(while_data.block.0@, 0),
        graph_nodes(*old(g)).len() + 8 + stmts_cost(while_data.block.0@, 0) < 0xffff_ffff,
        graph_edges(*old(g)).len() + 8 + stmts_cost(while_data.block.0@, 0) < 0xffff_ffff,
        *old(head) is Some <==> *old(previous) is Some,
        *old(head) matches Some(h) ==> h < graph_nodes(*old(g)).len(),
        *old(previous) matches Some(p) ==> p < graph_nodes(*old(g)).len(),
        ends_untouched(*old(g)),
        graph_nodes(*old(g)).len() >= 2,
        *old(head) matches Some(h) ==> h >= 2,
        *old(previous) matches Some(p) ==> p >= 2,
        graph_in_place(*old(g)),
        not_condition(*old(g), *old(previous)),
        not_condition(*old(g), *old(head)),
    ensures
        r is Err <==> jump_error(while_data.block.0@, 0, true) is Some,
        r matches Err(e) ==> jump_error(while_data.block.0@, 0, true) == Some(e),
        r is Ok ==> {
            &&& edges_valid(*final(g))
            &&& grows(*old(g), *final(g))
            &&& graph_in_place(*final(g))
            &&& conditions_closed(*old(g), *final(g))
            &&& branches_from(graph_nodes(*final(g)), graph_edges(*final(g)), graph_nodes(*old(g)).len() as int, -1)
            &&& not_condition(*final(g), *final(head))
            &&& not_condition(*final(g), *final(previous))
            &&& graph_nodes(*final(g)).len() <= graph_nodes(*old(g)).len() + 8 + stmts_cost(while_data.block.0@, 0)
            &&& graph_edges(*final(g)).len() <= graph_edges(*old(g)).len() + 8 + stmts_cost(while_data.block.0@, 0)
            &&& *final(head) matches Some(h) && 2 <= h < graph_nodes(*final(g)).len()
            &&& *final(previous) matches Some(p) && 2 <= p < graph_nodes(*final(g)).len()
            &&& ends_untouched(*final(g))
            &&& (*old(head) is Some ==> *final(head) == *old(head))
        },
    decreases while_data, 0nat,
{
    let loop_id = graph_node_count(g);
    let loop_data = LoopData { loop_id, span: Span::new(stmt_span.start, stmt_span.start) };
    let ghost g0 = *g;
    let ghost n0 = graph_nodes(g0).len() as int;
    let loop_head = add_node(g, Node::LoopHead(loop_data));
    let ghost ga = *g;
    let loop_foot = add_node(g, Node::LoopFoot(loop_data));
    add_edge(g, loop_foot, loop_head, Edge::BackEdge);
    proof {
        let es = graph_edges(*g);
        assert(es[es.len() - 1] == (loop_foot, loop_head, Edge::BackEdge));
        assert(has_edge(es, loop_foot as int, loop_head as int, Edge::BackEdge));
        lemma_pair_in_place(g0, *g);
        lemma_step2(g0, ga, *g, n0, -1, n0);
    }
    let ghost gc = *g;
    append_index(g, head, previous, loop_head, Edge::Normal);
    proof {
        lemma_step2(g0, gc, *g, n0, -1, n0);
    }
    let ghost gd = *g;
    let loop_body = generate_scoped_block(g, while_data.block.0, Some((loop_head, loop_foot)))?;
    let ghost ge = *g;
    proof {
        lemma_step2(g0, gd, ge, n0, -1, n0);
    }
    let expr_data = ExprData { expr: flatten(&while_data.conditional, stmt_span), span: stmt_span };
    let condition = add_node(g, Node::Condition(expr_data));
    let ghost x = condition as int;
    let ghost g5 = *g;
    proof {
        lemma_step2(g0, ge, g5, n0, x, n0);
        assert(edges_at(graph_edges(g5), condition, true).len() == 0) by {
            assert forall|k: int| 0 <= k < graph_edges(g5).len() implies (#[trigger] graph_edges(g5)[k]).0
                != condition by {
                assert(graph_edges(g5)[k].0 < graph_nodes(ge).len());
            }
            lemma_out_unchanged(Seq::empty(), graph_edges(g5), condition);
        }
    }
    add_edge(g, loop_head, condition, Edge::Normal);
    let ghost g6 = *g;
    proof {
        assert(graph_edges(g6)[graph_edges(g5).len() as int] == (loop_head, condition, Edge::Normal));
        assert(has_edge(graph_edges(g6), n0, x, Edge::Normal));
        lemma_edges_at_push(graph_edges(g5), (loop_head, condition, Edge::Normal), condition);
        lemma_step2(g0, g5, g6, n0, x, n0);
    }
    add_edge(g, condition, loop_foot, Edge::False);
    let ghost gf = *g;
    proof {
        assert(graph_edges(gf)[graph_edges(g6).len() as int] == (condition, loop_foot, Edge::False));
        assert(has_edge(graph_edges(gf), x, n0 + 1, Edge::False));
        lemma_has_edge_grows(graph_edges(g6), graph_edges(gf), n0, x, Edge::Normal);
        lemma_edges_at_push(graph_edges(g6), (condition, loop_foot, Edge::False), condition);
        lemma_step2(g0, g6, gf, n0, x, n0);
    }
    match (loop_body.head, loop_body.foot) {
        (Some(body_head), Some(body_foot)) => {
            let scope_enter = add_node(g, Node::EnterScope);
            let scope_exit = add_node(g, Node::ExitScope);
            let ghost gg = *g;
            proof {
                lemma_step2(g0, gf, gg, n0, x, n0);
            }
            add_edge(g, condition, scope_enter, Edge::True);
            let ghost gh = *g;
            proof {
                assert(graph_edges(gh)[graph_edges(gg).len() as int] == (condition, scope_enter, Edge::True));
                assert(has_edge(graph_edges(gh), x, x + 1, Edge::True));
                lemma_edges_at_push(graph_edges(gg), (condition, scope_enter, Edge::True), condition);
                lemma_step2(g0, gg, gh, n0, x, n0);
            }
            add_edge(g, scope_enter, body_head, Edge::Normal);
            let ghost gi = *g;
            proof {
                lemma_edges_at_push(graph_edges(gh), (scope_enter, body_head, Edge::Normal), condition);
                lemma_step2(g0, gh, gi, n0, x, n0);
            }
            add_edge(g, body_foot, scope_exit, Edge::Normal);
            let ghost gj = *g;
            proof {
                lemma_edges_at_push(graph_edges(gi), (body_foot, scope_exit, Edge::Normal), condition);
                lemma_step2(g0, gi, gj, n0, x, n0);
            }
            add_edge(g, scope_exit, loop_foot, Edge::Normal);
            proof {
                assert(graph_edges(*g)[graph_edges(gj).len() as int] == (scope_exit, loop_foot, Edge::Normal));
                assert(has_edge(graph_edges(*g), x + 2, n0 + 1, Edge::Normal));
                lemma_has_edge_grows(graph_edges(gf), graph_edges(*g), n0, x, Edge::Normal);
                lemma_has_edge_grows(graph_edges(gf), graph_edges(*g), x, n0 + 1, Edge::False);
                lemma_has_edge_grows(graph_edges(gh), graph_edges(*g), x, x + 1, Edge::True);
                assert(graph_nodes(*g)[x + 1] is EnterScope);
                assert(graph_nodes(*g)[x + 2] is ExitScope);
                assert(graph_nodes(*g)[x] is Condition);
                assert(loop_shape(graph_nodes(*g), graph_edges(*g), n0));
                lemma_edges_at_push(graph_edges(gj), (scope_exit, loop_foot, Edge::Normal), condition);
                lemma_step2(g0, gj, *g, n0, x, n0);
                assert(two_way(graph_edges(*g), x));
                assert(branch_ok(graph_nodes(*g), graph_edges(*g), x));
            }
        },
        _ => {
            add_edge(g, condition, loop_foot, Edge::True);
            proof {
                assert(graph_edges(*g)[graph_edges(gf).len() as int] == (condition, loop_foot, Edge::True));
                assert(has_edge(graph_edges(*g), x, n0 + 1, Edge::True));
                lemma_has_edge_grows(graph_edges(gf), graph_edges(*g), n0, x, Edge::Normal);
                lemma_has_edge_grows(graph_edges(gf), graph_edges(*g), x, n0 + 1, Edge::False);
                assert(graph_nodes(*g)[x] is Condition);
                assert(loop_shape(graph_nodes(*g), graph_edges(*g), n0));
                lemma_edges_at_push(graph_edges(gf), (condition, loop_foot, Edge::True), condition);
                lemma_step2(g0, gf, *g, n0, x, n0);
                assert(two_way(graph_edges(*g), x));
                assert(branch_ok(graph_nodes(*g), graph_edges(*g), x));
            }
        },
    }
    proof {
        assert(branch_ok(graph_nodes(*g), graph_edges(*g), n0));
        assert(branch_ok(graph_nodes(*g), graph_edges(*g), x));
        assert forall|k: int| n0 <= k < graph_nodes(*g).len() implies #[trigger] branch_ok(graph_nodes(*g), graph_edges(*g), k) by {
            if k != x && k != n0 {
                assert(branches_from2(graph_nodes(*g), graph_edges(*g), n0, x, n0));
            }
        }
    }
    *previous = Some(loop_foot);
    Ok(())
}

/// Appends an `if` chain after `previous`. Each conditional branch gets a branch
/// split and a branch merge; the false edge of each condition leads to the split
/// of the next branch, or to the `else` block, or (without one) to the merge of
/// the last branch. The merge of the first branch becomes the new `previous`.
#[verifier::loop_isolation(false)]
#[verifier::rlimit(30)]
fn generate_if(
    g: &mut Graph<Node, Edge>,
    head: &mut Option<usize>,
    previous: &mut Option<usize>,
    if_data: If,
    stmt_span: Span,
    loop_data: Option<(usize, usize)>,
) -> (r: Result<(), ControlFlowError>)
    requires
        edges_valid(*old(g)),
        if_ok(if_data),
        graph_nodes(*old(g)).len() + if_cost(if_data) < 0xffff_ffff,
        graph_edges(*old(g)).len() + if_cost(if_data) < 0xffff_ffff,
        *old(head) is Some <==> *old(previous) is Some,
        *old(head) matches Some(h) ==> h < graph_nodes(*old(g)).len(),
        *old(previous) matches Some(p) ==> p < graph_nodes(*old(g)).len(),
        loop_data matches Some((h, f)) ==> h < graph_nodes(*old(g)).len() && f < graph_nodes(*old(g)).len(),
        ends_untouched(*old(g)),
        graph_nodes(*old(g)).len() >= 2,
        *old(head) matches Some(h) ==> h >= 2,
        *old(previous) matches Some(p) ==> p >= 2,
        loop_data matches Some((h, f)) ==> h >= 2 && f >= 2,
        graph_in_place(*old(g)),
        names_loop(*old(g), loop_data),
        not_condition(*old(g), *old(previous)),
        not_condition(*old(g), *old(head)),
    ensures
        r is Err <==> if_jump_error(if_data, loop_data is Some) is Some,
        r matches Err(e) ==> if_jump_error(if_data, loop_data is Some) == Some(e),
        r is Ok ==> {
            &&& edges_valid(*final(g))
            &&& grows(*old(g), *final(g))
            &&& graph_in_place(*final(g))
            &&& conditions_closed(*old(g), *final(g))
            &&& branches_from(graph_nodes(*final(g)), graph_edges(*final(g)), graph_nodes(*old(g)).len() as int, -1)
            &&& not_condition(*final(g), *final(head))
            &&& not_condition(*final(g), *final(previous))
            &&& graph_nodes(*final(g)).len() <= graph_nodes(*old(g)).len() + if_cost(if_data)
            &&& graph_edges(*final(g)).len() <= graph_edges(*old(g)).len() + if_cost(if_data)
            &&& *final(head) matches Some(h) && 2 <= h < graph_nodes(*final(g)).len()
            &&& *final(previous) matches Some(p) && 2 <= p < graph_nodes(*final(g)).len()
            &&& ends_untouched(*final(g))
            &&& (*old(head) is Some ==> *final(head) == *old(head))
        },
    decreases if_data, 0nat,
{
    let ghost in_loop = loop_data is Some;
    let ghost g0 = *g;
    let ghost bs = if_data.branches@;
    let ghost dflt: Option<Block> = if_data.default_block;
    let ghost else_cost: nat = match dflt {
        Some(b) => 5 + stmts_cost(b.0@, 0),
        None => 1,
    };
    let mut branches = if_data.branches;
    let ghost n0 = graph_nodes(g0).len() as int;
    let first_id = graph_node_count(g);
    let first_split = add_node(g, Node::BranchSplit(BranchingData { branch_id: first_id }));
    let first_merge = add_node(g, Node::BranchMerge(BranchingData { branch_id: first_id }));
    proof {
        lemma_pair_in_place(g0, *g);
        lemma_step(g0, g0, *g, n0, -1);
    }
    let ghost ga = *g;
    append_index(g, head, previous, first_split, Edge::Normal);
    proof {
        lemma_step(g0, ga, *g, n0, -1);
    }
    let first_branch = branches.remove(0);
    assert(first_branch == bs[0]);
    proof {
        lemma_unfold_branches(bs, 0, in_loop);
    }
    let ghost gb = *g;
    let first = generate_branch(
        g,
        first_branch.block,
        Some((first_branch.conditional, stmt_span)),
        loop_data,
    )?;
    let first_head = first.head.unwrap();
    let first_foot = first.foot.unwrap();
    let ghost h1 = first_head as int;
    proof {
        lemma_step(g0, gb, *g, n0, h1);
    }
    let ghost gc = *g;
    add_edge(g, first_split, first_head, Edge::True);
    let ghost gd = *g;
    proof {
        lemma_step(g0, gc, gd, n0, h1);
        lemma_edges_at_push(graph_edges(gc), (first_split, first_head, Edge::True), first_head);
    }
    add_edge(g, first_foot, first_merge, Edge::Normal);
    proof {
        lemma_step(g0, gd, *g, n0, h1);
        lemma_edges_at_push(graph_edges(gd), (first_foot, first_merge, Edge::Normal), first_head);
    }
    let mut previous_head = first_head;
    let mut previous_foot = first_merge;
    let ghost mut j: int = 1;
    assert(branches@ =~= bs.subrange(1, bs.len() as int));
    while branches.len() > 0
        invariant
            1 <= j <= bs.len(),
            branches@ == bs.subrange(j, bs.len() as int),
            branches_ok(bs, j),
            branches_jump_error(bs, 0, in_loop) == branches_jump_error(bs, j, in_loop),
            edges_valid(*g),
            grows(g0, *g),
            graph_nodes(*g).len() + branches_cost(bs, j) + else_cost <= graph_nodes(g0).len() + if_cost(if_data),
            graph_edges(*g).len() + branches_cost(bs, j) + else_cost <= graph_edges(g0).len() + if_cost(if_data),
            2 <= previous_head < graph_nodes(*g).len(),
            2 <= previous_foot < graph_nodes(*g).len(),
            2 <= first_merge < graph_nodes(*g).len(),
            ends_untouched(*g),
            graph_in_place(*g),
            names_loop(*g, loop_data),
            n0 == graph_nodes(g0).len(),
            conditions_closed(g0, *g),
            branches_from(graph_nodes(*g), graph_edges(*g), n0, previous_head as int),
            previous_head >= n0,
            graph_nodes(*g)[previous_head as int] is Condition,
            edges_at(graph_edges(*g), previous_head, true).len() == 1,
            edges_at(graph_edges(*g), previous_head, true)[0].2 == Edge::True,
            not_condition(*g, Some(previous_foot)),
            not_condition(*g, Some(first_merge)),
            not_condition(*g, *head),
        decreases branches.len(),
    {
        let branch = branches.remove(0);
        assert(branch == bs[j]);
        assert(branches@ =~= bs.subrange(j + 1, bs.len() as int));
        proof {
            lemma_unfold_branches(bs, j, in_loop);
        }
        let ghost ge = *g;
        let ghost ph = previous_head as int;
        let b = generate_branch(g, branch.block, Some((branch.conditional, stmt_span)), loop_data)?;
        let branch_head = b.head.unwrap();
        let branch_foot = b.foot.unwrap();
        let ghost h2 = branch_head as int;
        let ghost gf = *g;
        proof {
            lemma_pending_kept(ge, gf, previous_head);
            lemma_step2(g0, ge, gf, n0, ph, h2);
        }
        let branch_id = graph_node_count(g);
        let split = add_node(g, Node::BranchSplit(BranchingData { branch_id }));
        let merge = add_node(g, Node::BranchMerge(BranchingData { branch_id }));
        let ghost gg = *g;
        proof {
            lemma_pair_in_place(gf, gg);
            lemma_step2(g0, gf, gg, n0, ph, h2);
        }
        add_edge(g, split, branch_head, Edge::Normal);
        let ghost gh = *g;
        proof {
            lemma_step2(g0, gg, gh, n0, ph, h2);
            lemma_edges_at_push(graph_edges(gg), (split, branch_head, Edge::Normal), previous_head);
            lemma_edges_at_push(graph_edges(gg), (split, branch_head, Edge::Normal), branch_head);
        }
        add_edge(g, branch_foot, merge, Edge::Normal);
        let ghost gi = *g;
        proof {
            lemma_step2(g0, gh, gi, n0, ph, h2);
            lemma_edges_at_push(graph_edges(gh), (branch_foot, merge, Edge::Normal), previous_head);
            lemma_edges_at_push(graph_edges(gh), (branch_foot, merge, Edge::Normal), branch_head);
        }
        add_edge(g, previous_head, split, Edge::False);
        let ghost gj = *g;
        proof {
            lemma_step2(g0, gi, gj, n0, ph, h2);
            lemma_edges_at_push(graph_edges(gi), (previous_head, split, Edge::False), previous_head);
            lemma_edges_at_push(graph_edges(gi), (previous_head, split, Edge::False), branch_head);
            assert(two_way(graph_edges(gj), ph));
            assert(branch_ok(graph_nodes(gj), graph_edges(gj), ph));
        }
        add_edge(g, merge, previous_foot, Edge::Normal);
        proof {
            lemma_step2(g0, gj, *g, n0, ph, h2);
            lemma_edges_at_push(graph_edges(gj), (merge, previous_foot, Edge::Normal), previous_head);
            lemma_edges_at_push(graph_edges(gj), (merge, previous_foot, Edge::Normal), branch_head);
            assert(branch_ok(graph_nodes(*g), graph_edges(*g), ph));
            assert(branches_from(graph_nodes(*g), graph_edges(*g), n0, h2));
        }
        previous_head = branch_head;
        previous_foot = merge;
        proof {
            j = j + 1;
        }
    }
    let ghost ph = previous_head as int;
    match if_data.default_block {
        Some(block) => {
            let ghost gk = *g;
            let else_branch = generate_branch(g, block, None, loop_data)?;
            let else_head = else_branch.head.unwrap();
            let else_foot = else_branch.foot.unwrap();
            let ghost gl = *g;
            proof {
                lemma_pending_kept(gk, gl, previous_head);
                lemma_step(g0, gk, gl, n0, ph);
            }
            add_edge(g, previous_head, else_head, Edge::False);
            let ghost gm = *g;
            proof {
                lemma_step(g0, gl, gm, n0, ph);
                lemma_edges_at_push(graph_edges(gl), (previous_head, else_head, Edge::False), previous_head);
                assert(branch_ok(graph_nodes(gm), graph_edges(gm), ph));
                assert(branches_from(graph_nodes(gm), graph_edges(gm), n0, -1));
            }
            add_edge(g, else_foot, previous_foot, Edge::Normal);
            proof {
                lemma_step(g0, gm, *g, n0, -1);
            }
        },
        None => {
            let ghost gk = *g;
            add_edge(g, previous_head, previous_foot, Edge::False);
            proof {
                lemma_step(g0, gk, *g, n0, ph);
                lemma_edges_at_push(graph_edges(gk), (previous_head, previous_foot, Edge::False), previous_head);
                assert(branch_ok(graph_nodes(*g), graph_edges(*g), ph));
                assert(branches_from(graph_nodes(*g), graph_edges(*g), n0, -1));
            }
        },
    }
    *previous = Some(first_merge);
    Ok(())
}

/// Builds the graph of a block and returns its ends (see [`BranchData`]).
///
/// Straight-line statements are collected into basic blocks; a `return`,
/// `break` or `continue` closes the current block and adds its own node.
/// `loop_data` holds the head and foot of the innermost enclosing loop, if any: a
/// `break` or `continue` without one is an error.
#[verifier::rlimit(80)]
#[verifier::loop_isolation(false)]
fn generate_scoped_block(g: &mut Graph<Node, Edge>, stmts: Vec<Stmt>, loop_data: Option<(usize, usize)>) -> (r: Result<
    BranchData,
    ControlFlowError,
>)
    requires
        edges_valid(*old(g)),
        stmts_ok(stmts@, 0),
        graph_nodes(*old(g)).len() + stmts_cost(stmts@, 0) < 0xffff_ffff,
        graph_edges(*old(g)).len() + stmts_cost(stmts@, 0) < 0xffff_ffff,
        loop_data matches Some((h, f)) ==> h < graph_nodes(*old(g)).len() && f < graph_nodes(*old(g)).len(),
        ends_untouched(*old(g)),
        graph_nodes(*old(g)).len() >= 2,
        loop_data matches Some((h, f)) ==> h >= 2 && f >= 2,
        graph_in_place(*old(g)),
        names_loop(*old(g), loop_data),
    ensures
        r is Err <==> jump_error(stmts@, 0, loop_data is Some) is Some,
        r matches Err(e) ==> jump_error(stmts@, 0, loop_data is Some) == Some(e),
        r matches Ok(bd) ==> {
            &&& edges_valid(*final(g))
            &&& grows(*old(g), *final(g))
            &&& graph_in_place(*final(g))
            &&& conditions_closed(*old(g), *final(g))
            &&& branches_from(graph_nodes(*final(g)), graph_edges(*final(g)), graph_nodes(*old(g)).len() as int, -1)
            &&& not_condition(*final(g), bd.head)
            &&& not_condition(*final(g), bd.foot)
            &&& graph_nodes(*final(g)).len() <= graph_nodes(*old(g)).len() + stmts_cost(stmts@, 0)
            &&& graph_edges(*final(g)).len() <= graph_edges(*old(g)).len() + stmts_cost(stmts@, 0)
            &&& (bd.head is Some <==> stmts@.len() > 0)
            &&& (bd.foot is Some <==> stmts@.len() > 0)
            &&& (bd.head matches Some(h) ==> 2 <= h < graph_nodes(*final(g)).len())
            &&& (bd.foot matches Some(f) ==> 2 <= f < graph_nodes(*final(g)).len())
            &&& ends_untouched(*final(g))
            &&& (stmts@.len() > 0 && straight(stmts@.last()) && !all_straight(stmts@) ==> {
                &&& bd.head == Some((graph_nodes(*final(g)).len() - 1) as usize)
                &&& graph_nodes(*final(g)).last() is Block
                &&& bd.foot matches Some(f) && f < graph_nodes(*final(g)).len() - 1
            })
            &&& (all_straight(stmts@) && stmts@.len() > 0 ==> {
                &&& graph_nodes(*final(g)).len() == graph_nodes(*old(g)).len() + 1
                &&& graph_nodes(*final(g)).last() is Block
                &&& graph_edges(*final(g)) == graph_edges(*old(g))
                &&& bd.head == Some(graph_nodes(*old(g)).len() as usize)
                &&& bd.foot == Some(graph_nodes(*old(g)).len() as usize)
            })
        },
    decreases stmts@, 1nat,
{
    let ghost all = stmts@;
    let ghost in_loop = loop_data is Some;
    let ghost g0 = *g;
    let ghost total = stmts_cost(all, 0);
    let mut rest = stmts;
    let mut previous: Option<usize> = None;
    let mut head: Option<usize> = None;
    let mut current_block = BasicBlock(Vec::new());
    let ghost mut i: int = 0;
    assert(rest@ =~= all.subrange(0, all.len() as int));
    while rest.len() > 0
        invariant
            0 <= i <= all.len(),
            rest@ == all.subrange(i, all.len() as int),
            stmts_ok(all, i),
            jump_error(all, 0, in_loop) == jump_error(all, i, in_loop),
            edges_valid(*g),
            grows(g0, *g),
            graph_nodes(*g).len() + (if current_block.0@.len() > 0 { 1int } else { 0 }) + stmts_cost(all, i)
                <= graph_nodes(g0).len() + total,
            graph_edges(*g).len() + (if current_block.0@.len() > 0 { 1int } else { 0 }) + stmts_cost(all, i)
                <= graph_edges(g0).len() + total,
            head is Some <==> previous is Some,
            (head is Some || current_block.0@.len() > 0) <==> i > 0,
            head matches Some(h) ==> 2 <= h < graph_nodes(*g).len(),
            previous matches Some(p) ==> 2 <= p < graph_nodes(*g).len(),
            ends_untouched(*g),
            graph_nodes(*g).len() >= 2,
            graph_in_place(*g),
            names_loop(*g, loop_data),
            conditions_closed(g0, *g),
            branches_from(graph_nodes(*g), graph_edges(*g), graph_nodes(g0).len() as int, -1),
            not_condition(*g, head),
            not_condition(*g, previous),
            all_straight(all) ==> head is None && previous is None && *g == g0 && current_block.0@.len() == i,
            current_block.0@.len() > 0 <==> (i > 0 && straight(all[i - 1])),
            head is Some <==> !all_straight(all.subrange(0, i)),
        decreases rest.len(),
    {
        proof {
            lemma_all_straight_push(all, i);
        }
        let next = rest.remove(0);
        assert(next == all[i]);
        assert(rest@ =~= all.subrange(i + 1, all.len() as int));
        proof {
            lemma_unfold_stmts(all, i, in_loop);
        }
        assert(all_straight(all) ==> straight(all[i]));
        match next {
            Stmt::Expr(e, span) => {
                assert(stmt_cost(all[i]) == 1 && stmt_jump_error(all[i], in_loop) is None);
                let expr = flatten(&e, span);
                current_block.0.push(BlockNode::Expr(ExprData { expr, span }));
            },
            Stmt::ExprStmt(expr_stmt, stmt_span) => {
                match expr_stmt {
                    ExprStmt::Assignment(assignment) => {
                        assert(stmt_cost(all[i]) == 1 && stmt_jump_error(all[i], in_loop) is None);
                        let assignee = flatten_path(&assignment.name, stmt_span);
                        let value = flatten(&assignment.value, stmt_span);
                        current_block.0.push(
                            BlockNode::Assignment(AssignmentData { assignee, value, span: stmt_span }),
                        );
                    },
                    ExprStmt::LocalVarDecl(decl) => {
                        assert(stmt_cost(all[i]) == 1 && stmt_jump_error(all[i], in_loop) is None);
                        let init_expr = flatten(&decl.var_init, stmt_span);
                        current_block.0.push(
                            BlockNode::LocalVarDecl(
                                LocalVarDeclData {
                                    var_name: decl.var_name,
                                    type_annotation: decl.var_type,
                                    init_expr,
                                    span: stmt_span,
                                },
                            ),
                        );
                    },
                    ExprStmt::Return(span, expr) => {
                        assert(stmt_cost(all[i]) == 1 && stmt_jump_error(all[i], in_loop) is None);
                        if current_block.0.len() > 0 {
                            let block = current_block;
                            current_block = BasicBlock(Vec::new());
                            let ghost ga = *g;
                            append_node(g, &mut head, &mut previous, Node::Block(block), Edge::Normal);
                            proof {
                                lemma_step(g0, ga, *g, graph_nodes(g0).len() as int, -1);
                            }
                        }
                        let expr = match expr {
                            Some(e) => Some(flatten(&e, span)),
                            None => None,
                        };
                        let ghost ga = *g;
                        append_node(
                            g,
                            &mut head,
                            &mut previous,
                            Node::Return(ReturnData { expr, span }),
                            Edge::Normal,
                        );
                        proof {
                            lemma_step(g0, ga, *g, graph_nodes(g0).len() as int, -1);
                        }
                    },
                    ExprStmt::Break(span) => {
                        assert(stmt_cost(all[i]) == 1);
                        match loop_data {
                            Some((loop_head, _)) => {
                                assert(stmt_jump_error(all[i], in_loop) is None);
                                if current_block.0.len() > 0 {
                                    let block = current_block;
                                    current_block = BasicBlock(Vec::new());
                                    let ghost ga = *g;
                            append_node(g, &mut head, &mut previous, Node::Block(block), Edge::Normal);
                            proof {
                                lemma_step(g0, ga, *g, graph_nodes(g0).len() as int, -1);
                            }
                                }
                                let ghost ga = *g;
                                append_node(
                                    g,
                                    &mut head,
                                    &mut previous,
                                    Node::Break(LoopData { loop_id: loop_head, span }),
                                    Edge::Normal,
                                );
                                proof {
                                    lemma_step(g0, ga, *g, graph_nodes(g0).len() as int, -1);
                                }
                            },
                            None => {
                                assert(stmt_jump_error(all[i], in_loop) == Some(ControlFlowError::BadBreak(span)));
                                return Err(ControlFlowError::BadBreak(span));
                            },
                        }
                    },
                    ExprStmt::Continue(span) => {
                        assert(stmt_cost(all[i]) == 1);
                        match loop_data {
                            Some((loop_head, _)) => {
                                assert(stmt_jump_error(all[i], in_loop) is None);
                                if current_block.0.len() > 0 {
                                    let block = current_block;
                                    current_block = BasicBlock(Vec::new());
                                    let ghost ga = *g;
                            append_node(g, &mut head, &mut previous, Node::Block(block), Edge::Normal);
                            proof {
                                lemma_step(g0, ga, *g, graph_nodes(g0).len() as int, -1);
                            }
                                }
                                let ghost ga = *g;
                                append_node(
                                    g,
                                    &mut head,
                                    &mut previous,
                                    Node::Continue(LoopData { loop_id: loop_head, span }),
                                    Edge::Normal,
                                );
                                proof {
                                    lemma_step(g0, ga, *g, graph_nodes(g0).len() as int, -1);
                                }
                            },
                            None => {
                                assert(stmt_jump_error(all[i], in_loop) == Some(ControlFlowError::BadContinue(span)));
                                return Err(ControlFlowError::BadContinue(span));
                            },
                        }
                    },
                    ExprStmt::While(while_data) => {
                        if current_block.0.len() > 0 {
                            let block = current_block;
                            current_block = BasicBlock(Vec::new());
                            let ghost ga = *g;
                            append_node(g, &mut head, &mut previous, Node::Block(block), Edge::Normal);
                            proof {
                                lemma_step(g0, ga, *g, graph_nodes(g0).len() as int, -1);
                            }
                        }
                        proof {
                            assert(decreases_to!(all => all[i]));
                        }
                        let ghost ga = *g;
                        generate_while(g, &mut head, &mut previous, while_data, stmt_span)?;
                        proof {
                            lemma_step(g0, ga, *g, graph_nodes(g0).len() as int, -1);
                        }
                    },
                    ExprStmt::If(if_data) => {
                        if current_block.0.len() > 0 {
                            let block = current_block;
                            current_block = BasicBlock(Vec::new());
                            let ghost ga = *g;
                            append_node(g, &mut head, &mut previous, Node::Block(block), Edge::Normal);
                            proof {
                                lemma_step(g0, ga, *g, graph_nodes(g0).len() as int, -1);
                            }
                        }
                        proof {
                            assert(decreases_to!(all => all[i]));
                        }
                        let ghost ga = *g;
                        generate_if(g, &mut head, &mut previous, if_data, stmt_span, loop_data)?;
                        proof {
                            lemma_step(g0, ga, *g, graph_nodes(g0).len() as int, -1);
                        }
                    },
                }
            },
        }
        proof {
            i = i + 1;
        }
    }
    proof {
        assert(all.subrange(0, all.len() as int) =~= all);
        if all.len() > 0 {
            assert(all.last() == all[all.len() - 1]);
        }
    }
    if current_block.0.len() > 0 {
        // The trailing block is appended with head and foot in swapped roles.
        let ghost ga = *g;
        append_node(g, &mut previous, &mut head, Node::Block(current_block), Edge::Normal);
        proof {
            lemma_step(g0, ga, *g, graph_nodes(g0).len() as int, -1);
        }
    }
    Ok(BranchData { head, foot: previous })
}

/// The targets (when `outgoing`) or sources of a list of edges.
pub open spec fn other_ends(es: Seq<(usize, usize, Edge)>, outgoing: bool) -> Seq<usize> {
    es.map_values(|e: (usize, usize, Edge)| if outgoing { e.1 } else { e.0 })
}

/// A node that no edge leads into has no incoming edges.
pub proof fn lemma_edges_at_none(edges: Seq<(usize, usize, Edge)>, a: usize)
    requires
        forall|k: int| 0 <= k < edges.len() ==> (#[trigger] edges[k]).1 != a,
    ensures
        edges_at(edges, a, false).len() == 0,
    decreases edges.len(),
{
    if edges.len() > 0 {
        let rest = edges.drop_last();
        assert forall|k: int| 0 <= k < rest.len() implies (#[trigger] rest[k]).1 != a by {
            assert(rest[k] == edges[k]);
        }
        lemma_edges_at_none(rest, a);
        assert(edges.last() == edges[edges.len() - 1]);
    }
}

/// Every edge but the one at index `j` leaves a node other than the start and
/// the end.
pub open spec fn one_start_edge(es: Seq<(usize, usize, Edge)>, j: int) -> bool {
    &&& 0 <= j < es.len()
    &&& forall|k: int| 0 <= k < es.len() && k != j ==> (#[trigger] es[k]).0 >= 2
}

proof fn lemma_one_start_edge_push(es: Seq<(usize, usize, Edge)>, j: int, e: (usize, usize, Edge))
    requires
        one_start_edge(es, j),
        e.0 >= 2,
    ensures
        one_start_edge(es.push(e), j),
{
    assert forall|k: int| 0 <= k < es.push(e).len() && k != j implies (#[trigger] es.push(e)[k]).0 >= 2 by {
        if k < es.len() {
            assert(es.push(e)[k] == es[k]);
        }
    }
}

/// The edges leaving `a` when only the edge at index `j` leaves it.
proof fn lemma_edges_from_one(es: Seq<(usize, usize, Edge)>, a: usize, j: int)
    requires
        0 <= j < es.len(),
        es[j].0 == a,
        forall|k: int| 0 <= k < es.len() && k != j ==> (#[trigger] es[k]).0 != a,
    ensures
        edges_at(es, a, true) == seq![es[j]],
    decreases es.len(),
{
    let rest = es.drop_last();
    if j == es.len() - 1 {
        assert forall|k: int| 0 <= k < rest.len() implies (#[trigger] rest[k]).0 != a by {
            assert(rest[k] == es[k]);
        }
        lemma_edges_from_none(rest, a);
        assert(edges_at(es, a, true) =~= seq![es[j]]);
    } else {
        assert forall|k: int| 0 <= k < rest.len() && k != j implies (#[trigger] rest[k]).0 != a by {
            assert(rest[k] == es[k]);
        }
        assert(rest[j] == es[j]);
        lemma_edges_from_one(rest, a, j);
        assert(es.last() == es[es.len() - 1]);
    }
}

/// No edge leaves `a`.
proof fn lemma_edges_from_none(es: Seq<(usize, usize, Edge)>, a: usize)
    requires
        forall|k: int| 0 <= k < es.len() ==> (#[trigger] es[k]).0 != a,
    ensures
        edges_at(es, a, true).len() == 0,
    decreases es.len(),
{
    if es.len() > 0 {
        let rest = es.drop_last();
        assert forall|k: int| 0 <= k < rest.len() implies (#[trigger] rest[k]).0 != a by {
            assert(rest[k] == es[k]);
        }
        lemma_edges_from_none(rest, a);
        assert(es.last() == es[es.len() - 1]);
    }
}

/// The edges at a node are edges of the graph, so their ends exist when those of
/// every edge do.
pub proof fn lemma_edges_at_valid(edges: Seq<(usize, usize, Edge)>, a: usize, outgoing: bool, n: nat)
    requires
        forall|k: int| 0 <= k < edges.len() ==> (#[trigger] edges[k]).0 < n && edges[k].1 < n,
    ensures
        forall|k: int| 0 <= k < edges_at(edges, a, outgoing).len() ==> (#[trigger] edges_at(edges, a, outgoing)[k]).0 < n
            && edges_at(edges, a, outgoing)[k].1 < n,
    decreases edges.len(),
{
    if edges.len() > 0 {
        let rest = edges.drop_last();
        assert forall|k: int| 0 <= k < rest.len() implies (#[trigger] rest[k]).0 < n && rest[k].1 < n by {
            assert(rest[k] == edges[k]);
        }
        lemma_edges_at_valid(rest, a, outgoing, n);
        let e = edges.last();
        assert(e == edges[edges.len() - 1]);
        let ra = edges_at(rest, a, outgoing);
        if (outgoing && e.0 == a) || (!outgoing && e.1 == a) {
            let full = seq![e].add(ra);
            assert forall|k: int| 0 <= k < full.len() implies (#[trigger] full[k]).0 < n && full[k].1 < n by {
                if k > 0 {
                    assert(full[k] == ra[k - 1]);
                }
            }
        }
    }
}

/// Node `n` is the loop head of the loop that the loop foot `foot` ends.
pub open spec fn same_loop_head(nodes: Seq<Node>, foot: Node, n: usize) -> bool {
    n < nodes.len() && match (foot, nodes[n as int]) {
        (Node::LoopFoot(f), Node::LoopHead(h)) => f.loop_id == h.loop_id,
        _ => false,
    }
}

/// The control-flow graph of a function body, with its start and end nodes.
pub struct CFG {
    graph: Graph<Node, Edge>,
    start: usize,
    end: usize,
}

impl CFG {
    /// The nodes, indexed by their position.
    pub closed spec fn nodes(self) -> Seq<Node> {
        graph_nodes(self.graph)
    }

    /// The edges as (source, target, weight), in the order they were added.
    pub closed spec fn edges(self) -> Seq<(usize, usize, Edge)> {
        graph_edges(self.graph)
    }

    pub closed spec fn start_node(self) -> usize {
        self.start
    }

    pub closed spec fn end_node(self) -> usize {
        self.end
    }

    /// Every edge joins existing nodes, and the start and end nodes exist.
    pub open spec fn wf(self) -> bool {
        &&& forall|k: int|
            0 <= k < self.edges().len() ==> (#[trigger] self.edges()[k]).0 < self.nodes().len()
                && self.edges()[k].1 < self.nodes().len()
        &&& self.start_node() < self.nodes().len()
        &&& self.end_node() < self.nodes().len()
        &&& self.nodes().len() < 0xffff_ffff
    }

    /// Builds the control-flow graph of a function body whose declared return type
    /// is `return_type`.
    ///
    /// The graph runs from `Start` through `EnterScope`, the body, an implicit
    /// `return` when the function returns unit, and `ExitScope` to `End`. A `break`
    /// or `continue` outside of a loop is refused.
    pub fn generate(body: Block, return_type: &AbstractType) -> (r: Result<CFG, AnalysisError>)
        requires
            stmts_ok(body.0@, 0),
            stmts_cost(body.0@, 0) + 6 < 0xffff_ffff,
        ensures
            all_straight(body.0@) && body.0@.len() > 0 && *return_type == AbstractType::Unit ==> (r matches Ok(cfg)
                && cfg.nodes().len() == 6 && cfg.nodes()[2] is Block && cfg.nodes()[3] is EnterScope && cfg.nodes()[4] is Return
                && cfg.nodes()[5] is ExitScope && cfg.edges() == seq![
                (0usize, 3usize, Edge::Normal),
                (3usize, 2usize, Edge::Normal),
                (2usize, 4usize, Edge::Normal),
                (4usize, 5usize, Edge::Normal),
                (5usize, 1usize, Edge::Normal),
            ]),
            r is Err <==> jump_error(body.0@, 0, false) is Some,
            r matches Err(e) ==> (jump_error(body.0@, 0, false) matches Some(ce) && e
                == AnalysisError::ControlFlowError(ce)),
            r matches Ok(cfg) ==> {
                &&& cfg.wf()
                &&& cfg.start_node() == 0
                &&& cfg.end_node() == 1
                &&& cfg.nodes()[0] is Start
                &&& cfg.nodes()[1] is End
                &&& cfg.nodes().len() <= 5 + stmts_cost(body.0@, 0)
                &&& cfg.nodes().last() is ExitScope
                &&& cfg.edges().last() == ((cfg.nodes().len() - 1) as usize, 1usize, Edge::Normal)
                &&& (*return_type == AbstractType::Unit) ==> cfg.nodes()[cfg.nodes().len() - 2]
                    == Node::Return(ReturnData { expr: None, span: Span { start: 0, end: 0 } })
                &&& (*return_type != AbstractType::Unit) ==> !(cfg.nodes()[cfg.nodes().len() - 2] is Return)
                &&& edges_at(cfg.edges(), 1, false).len() == 1
                &&& edges_at(cfg.edges(), 1, false)[0].0 == cfg.nodes().len() - 1
                &&& edges_at(cfg.edges(), (cfg.nodes().len() - 1) as usize, false).len() == 1
                &&& (*return_type == AbstractType::Unit) ==> edges_at(cfg.edges(), (cfg.nodes().len() - 1) as usize, false)[0].0
                    == cfg.nodes().len() - 2
                &&& nodes_in_place(cfg.nodes(), cfg.edges())
                &&& branches_both_ways(cfg.nodes(), cfg.edges())
                &&& edges_at(cfg.edges(), 0, true).len() == 1
                &&& cfg.nodes()[edges_at(cfg.edges(), 0, true)[0].1 as int] is EnterScope
                &&& edges_at(cfg.edges(), 1, true).len() == 0
            },
    {
        proof {
            if all_straight(body.0@) {
                lemma_straight_no_jump(body.0@, 0, false);
            }
        }
        let mut g = graph_new();
        let ghost g0 = g;
        let start = add_node(&mut g, Node::Start);
        let end = add_node(&mut g, Node::End);
        proof {
            lemma_step(g0, g0, g, 0, -1);
        }
        let ghost ga = g;
        let function_body = match generate_scoped_block(&mut g, body.0, None) {
            Ok(b) => b,
            Err(e) => {
                return Err(AnalysisError::ControlFlowError(e));
            },
        };
        let ghost gb = g;
        proof {
            lemma_step(g0, ga, gb, 0, -1);
        }
        let mut previous = Some(start);
        let mut head = previous;
        append_node(&mut g, &mut head, &mut previous, Node::EnterScope, Edge::Normal);
        let ghost gc = g;
        let ghost jb = graph_edges(gb).len() as int;
        let ghost nb = graph_nodes(gb).len() as usize;
        proof {
            lemma_step(g0, gb, gc, 0, -1);
            assert(graph_edges(gc)[jb] == (0usize, nb, Edge::Normal));
            assert forall|k: int| 0 <= k < graph_edges(gc).len() && k != jb implies (#[trigger] graph_edges(gc)[k]).0 >= 2 by {
                assert(graph_edges(gc)[k] == graph_edges(gb)[k]);
            }
        }
        if let Some(branch_head) = function_body.head {
            add_edge(&mut g, previous.unwrap(), branch_head, Edge::Normal);
            previous = Some(function_body.foot.unwrap());
            proof {
                lemma_step(g0, gc, g, 0, -1);
                lemma_one_start_edge_push(graph_edges(gc), jb, (nb, branch_head, Edge::Normal));
            }
        }
        let ghost before_return = graph_nodes(g);
        if same_type(return_type, &AbstractType::Unit) {
            let ghost gd = g;
            append_node(
                &mut g,
                &mut head,
                &mut previous,
                Node::Return(ReturnData { expr: None, span: Span::dummy() }),
                Edge::Normal,
            );
            proof {
                lemma_step(g0, gd, g, 0, -1);
                lemma_one_start_edge_push(graph_edges(gd), jb, graph_edges(g).last());
            }
        }
        assert(targets_untouched(g));
        let ghost e0 = graph_edges(g);
        let ghost x = graph_nodes(g).len() as usize;
        let ghost ge = g;
        append_node(&mut g, &mut head, &mut previous, Node::ExitScope, Edge::Normal);
        let ghost gf = g;
        let ghost e1 = graph_edges(g);
        append_index(&mut g, &mut head, &mut previous, end, Edge::Normal);
        proof {
            lemma_step(g0, ge, gf, 0, -1);
            lemma_step(g0, gf, g, 0, -1);
            lemma_one_start_edge_push(graph_edges(ge), jb, graph_edges(gf).last());
            lemma_one_start_edge_push(graph_edges(gf), jb, graph_edges(g).last());
            assert(graph_edges(g)[jb] == (0usize, nb, Edge::Normal));
            lemma_edges_from_one(graph_edges(g), 0, jb);
            lemma_edges_from_none(graph_edges(g), 1);
            assert forall|k: int| 0 <= k < e1.len() implies (#[trigger] e1[k]).1 != 1 by {
                assert(e1[k].1 >= 2);
            }
            lemma_edges_at_none(e1, 1);
            assert(graph_edges(g).drop_last() == e1);
            assert forall|k: int| 0 <= k < e0.len() implies (#[trigger] e0[k]).1 != x by {
                assert(e0[k].1 < x);
            }
            lemma_edges_at_none(e0, x);
            assert(e1.drop_last() == e0);
            assert(edges_at(graph_edges(g), 1, false).len() == 1);
            assert(graph_nodes(g).len() - 1 == x);
            assert(edges_at(e1, x, false).len() == 1);
            assert(edges_at(graph_edges(g), x, false).len() == 1);
        }
        Ok(CFG { graph: g, start, end })
    }

    /// The underlying graph.
    pub fn graph(&self) -> (r: &Graph<Node, Edge>)
        ensures
            graph_nodes(*r) == self.nodes(),
            graph_edges(*r) == self.edges(),
    {
        &self.graph
    }

    pub fn start(&self) -> (r: usize)
        ensures
            r == self.start_node(),
    {
        self.start
    }

    pub fn end(&self) -> (r: usize)
        ensures
            r == self.end_node(),
    {
        self.end
    }

    pub fn node_count(&self) -> (r: usize)
        ensures
            r == self.nodes().len(),
    {
        graph_node_count(&self.graph)
    }

    /// The node with index `node`.
    pub fn node_weight(&self, node: usize) -> (r: &Node)
        requires
            self.wf(),
            node < self.nodes().len(),
        ensures
            *r == self.nodes()[node as int],
    {
        graph_node_weight(&self.graph, node).unwrap()
    }

    /// The nodes that edges leaving `node` lead to, most recently added edge first.
    pub fn neighbors_out(&self, node: usize) -> (r: Vec<usize>)
        requires
            self.wf(),
            node < self.nodes().len(),
        ensures
            r@ == other_ends(edges_at(self.edges(), node, true), true),
    {
        self.neighbors(node, true)
    }

    /// The nodes that edges entering `node` come from, most recently added edge first.
    pub fn neighbors_in(&self, node: usize) -> (r: Vec<usize>)
        requires
            self.wf(),
            node < self.nodes().len(),
        ensures
            r@ == other_ends(edges_at(self.edges(), node, false), false),
    {
        self.neighbors(node, false)
    }

    fn neighbors(&self, node: usize, outgoing: bool) -> (r: Vec<usize>)
        requires
            self.wf(),
            node < self.nodes().len(),
        ensures
            r@ == other_ends(edges_at(self.edges(), node, outgoing), outgoing),
    {
        let es = graph_edges_directed(&self.graph, node, outgoing);
        let mut out: Vec<usize> = Vec::new();
        let mut i: usize = 0;
        while i < es.len()
            invariant
                i <= es@.len(),
                out@ == other_ends(es@.subrange(0, i as int), outgoing),
            decreases es.len() - i,
        {
            let e = es[i];
            out.push(if outgoing { e.1 } else { e.0 });
            i = i + 1;
            assert(other_ends(es@.subrange(0, i as int), outgoing) =~= other_ends(es@.subrange(0, i - 1), outgoing).push(
                if outgoing { e.1 } else { e.0 }));
        }
        assert(es@.subrange(0, es@.len() as int) =~= es@);
        out
    }

    /// The edges leaving `node`, most recently added first.
    pub fn edges_out(&self, node: usize) -> (r: Vec<(usize, usize, Edge)>)
        requires
            self.wf(),
            node < self.nodes().len(),
        ensures
            r@ == edges_at(self.edges(), node, true),
    {
        graph_edges_directed(&self.graph, node, true)
    }

    /// The successor of a node, when it has exactly one outgoing edge; `None` when
    /// it has none (the end) or several (a condition, a loop foot, ...).
    pub fn next(&self, node: usize) -> (r: Option<usize>)
        requires
            self.wf(),
            node < self.nodes().len(),
        ensures
            r is Some <==> edges_at(self.edges(), node, true).len() == 1,
            r matches Some(n) ==> n == edges_at(self.edges(), node, true)[0].1,
    {
        let es = graph_edges_directed(&self.graph, node, true);
        if es.len() == 1 {
            Some(es[0].1)
        } else {
            None
        }
    }

    /// The predecessor of a node, when it has exactly one incoming edge; `None`
    /// otherwise.
    pub fn previous(&self, node: usize) -> (r: Option<usize>)
        requires
            self.wf(),
            node < self.nodes().len(),
        ensures
            r is Some <==> edges_at(self.edges(), node, false).len() == 1,
            r matches Some(n) ==> n == edges_at(self.edges(), node, false)[0].0,
    {
        let es = graph_edges_directed(&self.graph, node, false);
        if es.len() == 1 {
            Some(es[0].0)
        } else {
            None
        }
    }

    /// The predecessors of a branch merge, most recently added edge first.
    pub fn before_branch_merge(&self, node: usize) -> (r: Vec<usize>)
        requires
            self.wf(),
            node < self.nodes().len(),
            self.nodes()[node as int] is BranchMerge,
        ensures
            r@ == other_ends(edges_at(self.edges(), node, false), false),
    {
        self.neighbors_in(node)
    }

    /// The true and the false successor of a condition node, which has exactly two
    /// outgoing edges, a true one and a false one.
    pub fn after_condition(&self, node: usize) -> (r: (usize, usize))
        requires
            self.wf(),
            node < self.nodes().len(),
            self.nodes()[node as int] is Condition,
            edges_at(self.edges(), node, true).len() == 2,
            edges_at(self.edges(), node, true)[0].2 == Edge::True && edges_at(self.edges(), node, true)[1].2 == Edge::False
                || edges_at(self.edges(), node, true)[0].2 == Edge::False && edges_at(self.edges(), node, true)[1].2
                == Edge::True,
        ensures
            exists|k: int| 0 <= k < 2 && edges_at(self.edges(), node, true)[k].2 == Edge::True
                && edges_at(self.edges(), node, true)[k].1 == r.0,
            exists|k: int| 0 <= k < 2 && edges_at(self.edges(), node, true)[k].2 == Edge::False
                && edges_at(self.edges(), node, true)[k].1 == r.1,
    {
        let es = graph_edges_directed(&self.graph, node, true);
        if es[0].2 == Edge::True {
            (es[0].1, es[1].1)
        } else {
            (es[1].1, es[0].1)
        }
    }

    /// The successor of a loop foot that is not its own loop head: of its two
    /// outgoing edges, the first (most recent) one that leads to a node other than
    /// a loop head of the same loop.
    #[verifier::loop_isolation(false)]
    pub fn after_loop_foot(&self, node: usize) -> (r: usize)
        requires
            self.wf(),
            node < self.nodes().len(),
            self.nodes()[node as int] is LoopFoot,
            edges_at(self.edges(), node, true).len() == 2,
            exists|k: int| 0 <= k < 2 && !same_loop_head(self.nodes(), self.nodes()[node as int],
                #[trigger] edges_at(self.edges(), node, true)[k].1),
        ensures
            exists|k: int| 0 <= k < 2 && edges_at(self.edges(), node, true)[k].1 == r
                && !same_loop_head(self.nodes(), self.nodes()[node as int], r)
                && forall|j: int| 0 <= j < k ==> same_loop_head(self.nodes(), self.nodes()[node as int],
                    #[trigger] edges_at(self.edges(), node, true)[j].1),
    {
        let es = graph_edges_directed(&self.graph, node, true);
        proof {
            lemma_edges_at_valid(self.edges(), node, true, self.nodes().len());
        }
        let foot_id = match self.node_weight(node) {
            Node::LoopFoot(d) => d.loop_id,
            _ => 0,
        };
        let mut k: usize = 0;
        while k < 2
            invariant
                k <= 2,
                es@ == edges_at(self.edges(), node, true),
                es@.len() == 2,
                self.nodes()[node as int] matches Node::LoopFoot(d) && d.loop_id == foot_id,
                exists|k: int| 0 <= k < 2 && !same_loop_head(self.nodes(), self.nodes()[node as int],
                    #[trigger] edges_at(self.edges(), node, true)[k].1),
                forall|j: int| 0 <= j < k ==> same_loop_head(self.nodes(), self.nodes()[node as int],
                    #[trigger] edges_at(self.edges(), node, true)[j].1),
            decreases 2 - k,
        {
            let n = es[k].1;
            let is_head = match self.node_weight(n) {
                Node::LoopHead(d) => d.loop_id == foot_id,
                _ => false,
            };
            if !is_head {
                return n;
            }
            k = k + 1;
        }
        0
    }
    /// The node after a return: its only successor, or, of two, the first that is
    /// not the end node (the second when both are).
    pub fn after_return(&self, node: usize) -> (r: usize)
        requires
            self.wf(),
            node < self.nodes().len(),
            self.nodes()[node as int] is Return,
            1 <= edges_at(self.edges(), node, true).len() <= 2,
        ensures
            ({
                let out = edges_at(self.edges(), node, true);
                if out.len() == 1 {
                    r == out[0].1
                } else {
                    r == if !(self.nodes()[out[0].1 as int] is End) { out[0].1 } else { out[1].1 }
                }
            }),
    {
        let es = graph_edges_directed(&self.graph, node, true);
        proof {
            lemma_edges_at_valid(self.edges(), node, true, self.nodes().len());
        }
        if es.len() == 1 {
            return es[0].1;
        }
        match self.node_weight(es[0].1) {
            Node::End => es[1].1,
            _ => es[0].1,
        }
    }

    /// The node after a `continue`: its only successor, or, of two, the first that
    /// is not a loop head (the second when both are).
    pub fn after_continue(&self, node: usize) -> (r: usize)
        requires
            self.wf(),
            node < self.nodes().len(),
            self.nodes()[node as int] is Continue,
            1 <= edges_at(self.edges(), node, true).len() <= 2,
        ensures
            ({
                let out = edges_at(self.edges(), node, true);
                if out.len() == 1 {
                    r == out[0].1
                } else {
                    r == if !(self.nodes()[out[0].1 as int] is LoopHead) { out[0].1 } else { out[1].1 }
                }
            }),
    {
        let es = graph_edges_directed(&self.graph, node, true);
        proof {
            lemma_edges_at_valid(self.edges(), node, true, self.nodes().len());
        }
        if es.len() == 1 {
            return es[0].1;
        }
        match self.node_weight(es[0].1) {
            Node::LoopHead(_) => es[1].1,
            _ => es[0].1,
        }
    }

    /// The node after a `break` with two successors: the first that is not a loop
    /// foot (the second when both are).
    pub fn after_break(&self, node: usize) -> (r: usize)
        requires
            self.wf(),
            node < self.nodes().len(),
            self.nodes()[node as int] is Break,
            edges_at(self.edges(), node, true).len() == 2,
        ensures
            ({
                let out = edges_at(self.edges(), node, true);
                r == if !(self.nodes()[out[0].1 as int] is LoopFoot) { out[0].1 } else { out[1].1 }
            }),
    {
        let es = graph_edges_directed(&self.graph, node, true);
        proof {
            lemma_edges_at_valid(self.edges(), node, true, self.nodes().len());
        }
        match self.node_weight(es[0].1) {
            Node::LoopFoot(_) => es[1].1,
            _ => es[0].1,
        }
    }

    /// The single successor of the start node.
    pub fn after_start(&self) -> (r: usize)
        requires
            self.wf(),
            edges_at(self.edges(), self.start_node(), true).len() == 1,
        ensures
            r == edges_at(self.edges(), self.start_node(), true)[0].1,
    {
        match self.next(self.start) {
            Some(n) => n,
            None => self.start,
        }
    }
}


/// `a + b`, or `cap` when that is larger.
fn add_capped(a: u64, b: u64, cap: u64) -> (r: u64)
    requires
        a <= cap,
        b <= cap,
    ensures
        r == (if a + b > cap { cap as int } else { a + b }),
{
    if a > cap - b {
        cap
    } else {
        a + b
    }
}

/// The graph-size bound of the statements, or `cap` when it is larger.
pub fn stmts_cost_capped(stmts: &Vec<Stmt>, cap: u64) -> (r: u64)
    ensures
        r == (if stmts_cost(stmts@, 0) > cap { cap as int } else { stmts_cost(stmts@, 0) as int }),
    decreases stmts@, 1nat,
{
    let mut acc: u64 = 0;
    let mut i: usize = 0;
    while i < stmts.len()
        invariant
            i <= stmts@.len(),
            acc == (if stmts_cost(stmts@, 0) - stmts_cost(stmts@, i as int) > cap {
                cap as int
            } else {
                stmts_cost(stmts@, 0) - stmts_cost(stmts@, i as int)
            }),
            stmts_cost(stmts@, 0) >= stmts_cost(stmts@, i as int),
        decreases stmts.len() - i,
    {
        proof {
            lemma_unfold_stmts(stmts@, i as int, false);
            vstd::std_specs::vec::axiom_vec_index_decreases(*stmts, i as int);
        }
        let c = stmt_cost_capped(&stmts[i], cap);
        acc = add_capped(acc, c, cap);
        i = i + 1;
    }
    acc
}

/// The graph-size bound of one statement, or `cap` when it is larger.
#[verifier::loop_isolation(false)]
pub fn stmt_cost_capped(s: &Stmt, cap: u64) -> (r: u64)
    ensures
        r == (if stmt_cost(*s) > cap { cap as int } else { stmt_cost(*s) as int }),
    decreases s, 0nat,
{
    match s {
        Stmt::ExprStmt(ExprStmt::While(w), _) => {
            let body = stmts_cost_capped(&w.block.0, cap);
            add_capped(if cap < 8 { cap } else { 8 }, body, cap)
        },
        Stmt::ExprStmt(ExprStmt::If(f), _) => {
            let mut acc: u64 = if cap < 3 { cap } else { 3 };
            let mut j: usize = 0;
            while j < f.branches.len()
                invariant
                    j <= f.branches@.len(),
                    acc == (if 3 + branches_cost(f.branches@, 0) - branches_cost(f.branches@, j as int) > cap {
                        cap as int
                    } else {
                        3 + branches_cost(f.branches@, 0) - branches_cost(f.branches@, j as int)
                    }),
                    branches_cost(f.branches@, 0) >= branches_cost(f.branches@, j as int),
                decreases f.branches.len() - j,
            {
                proof {
                    lemma_unfold_branches(f.branches@, j as int, false);
                    vstd::std_specs::vec::axiom_vec_index_decreases(f.branches, j as int);
                }
                let body = stmts_cost_capped(&f.branches[j].block.0, cap);
                acc = add_capped(acc, if cap < 7 { cap } else { 7 }, cap);
                acc = add_capped(acc, body, cap);
                j = j + 1;
            }
            let tail: u64 = match &f.default_block {
                Some(b) => add_capped(if cap < 5 { cap } else { 5 }, stmts_cost_capped(&b.0, cap), cap),
                None => if cap < 1 { cap } else { 1 },
            };
            add_capped(acc, tail, cap)
        },
        _ => if cap < 1 { cap } else { 1 },
    }
}

/// Whether every `if` in the statements, nested ones included, has a conditional branch.
pub fn stmts_well_shaped(stmts: &Vec<Stmt>) -> (r: bool)
    ensures
        r == stmts_ok(stmts@, 0),
    decreases stmts@, 1nat,
{
    let mut i: usize = 0;
    while i < stmts.len()
        invariant
            i <= stmts@.len(),
            stmts_ok(stmts@, 0) == stmts_ok(stmts@, i as int),
        decreases stmts.len() - i,
    {
        proof {
            lemma_unfold_stmts(stmts@, i as int, false);
            vstd::std_specs::vec::axiom_vec_index_decreases(*stmts, i as int);
        }
        if !stmt_well_shaped(&stmts[i]) {
            return false;
        }
        i = i + 1;
    }
    true
}

/// Whether every `if` in the statement has a conditional branch.
#[verifier::loop_isolation(false)]
pub fn stmt_well_shaped(s: &Stmt) -> (r: bool)
    ensures
        r == stmt_ok(*s),
    decreases s, 0nat,
{
    match s {
        Stmt::ExprStmt(ExprStmt::While(w), _) => stmts_well_shaped(&w.block.0),
        Stmt::ExprStmt(ExprStmt::If(f), _) => {
            if f.branches.len() == 0 {
                return false;
            }
            let mut j: usize = 0;
            while j < f.branches.len()
                invariant
                    j <= f.branches@.len(),
                    branches_ok(f.branches@, 0) == branches_ok(f.branches@, j as int),
                decreases f.branches.len() - j,
            {
                proof {
                    lemma_unfold_branches(f.branches@, j as int, false);
                    vstd::std_specs::vec::axiom_vec_index_decreases(f.branches, j as int);
                }
                if !stmts_well_shaped(&f.branches[j].block.0) {
                    return false;
                }
                j = j + 1;
            }
            match &f.default_block {
                Some(b) => stmts_well_shaped(&b.0),
                None => true,
            }
        },
        _ => true,
    }
}


/// The first `break` or `continue` in the statements that stands outside every
/// loop; `in_loop` tells whether the statements are part of a loop body.
pub fn first_jump_error(stmts: &Vec<Stmt>, in_loop: bool) -> (r: Option<ControlFlowError>)
    ensures
        r == jump_error(stmts@, 0, in_loop),
    decreases stmts@, 1nat,
{
    let mut i: usize = 0;
    while i < stmts.len()
        invariant
            i <= stmts@.len(),
            jump_error(stmts@, 0, in_loop) == jump_error(stmts@, i as int, in_loop),
        decreases stmts.len() - i,
    {
        proof {
            lemma_unfold_stmts(stmts@, i as int, in_loop);
            vstd::std_specs::vec::axiom_vec_index_decreases(*stmts, i as int);
        }
        let e = stmt_jump_error_exec(&stmts[i], in_loop);
        if e.is_some() {
            return e;
        }
        i = i + 1;
    }
    None
}

/// The first misplaced `break` or `continue` in one statement.
#[verifier::loop_isolation(false)]
fn stmt_jump_error_exec(s: &Stmt, in_loop: bool) -> (r: Option<ControlFlowError>)
    ensures
        r == stmt_jump_error(*s, in_loop),
    decreases s, 0nat,
{
    match s {
        Stmt::ExprStmt(ExprStmt::Break(span), _) => if in_loop {
            None
        } else {
            Some(ControlFlowError::BadBreak(*span))
        },
        Stmt::ExprStmt(ExprStmt::Continue(span), _) => if in_loop {
            None
        } else {
            Some(ControlFlowError::BadContinue(*span))
        },
        Stmt::ExprStmt(ExprStmt::While(w), _) => first_jump_error(&w.block.0, true),
        Stmt::ExprStmt(ExprStmt::If(f), _) => {
            let mut j: usize = 0;
            while j < f.branches.len()
                invariant
                    j <= f.branches@.len(),
                    branches_jump_error(f.branches@, 0, in_loop) == branches_jump_error(f.branches@, j as int, in_loop),
                decreases f.branches.len() - j,
            {
                proof {
                    lemma_unfold_branches(f.branches@, j as int, in_loop);
                    vstd::std_specs::vec::axiom_vec_index_decreases(f.branches, j as int);
                }
                let e = first_jump_error(&f.branches[j].block.0, in_loop);
                if e.is_some() {
                    return e;
                }
                j = j + 1;
            }
            match &f.default_block {
                Some(b) => first_jump_error(&b.0, in_loop),
                None => None,
            }
        },
        _ => None,
    }
}


/// A node that can end a path that returns: a return, or a branch merge or scope
/// exit whose own predecessors all do.
pub open spec fn return_like(n: Node) -> bool {
    n is Return || n is BranchMerge || n is ExitScope
}

/// `t` is a set of nodes that contains `from`, holds only returns, branch merges and
/// scope exits, and holds every predecessor of each merge and scope exit in it: so
/// every path that reaches `from` through merges and scope exits leaves a return.
pub open spec fn return_closed(cfg: CFG, from: usize, t: Set<usize>) -> bool {
    &&& t.contains(from)
    &&& forall|x: usize| #[trigger] t.contains(x) ==> x < cfg.nodes().len() && return_like(cfg.nodes()[x as int])
    &&& forall|x: usize, k: int|
        #![trigger t.contains(x), edges_at(cfg.edges(), x, false)[k]]
        t.contains(x) && !(cfg.nodes()[x as int] is Return) && 0 <= k < edges_at(cfg.edges(), x, false).len()
            ==> t.contains(edges_at(cfg.edges(), x, false)[k].0)
}

/// The node that the trace of returns starts from: the predecessor of the scope
/// exit that precedes the end node.
pub open spec fn trace_start(cfg: CFG) -> usize {
    edges_at(cfg.edges(), edges_at(cfg.edges(), cfg.end_node(), false)[0].0, false)[0].0
}

/// The number of `false` entries.
pub open spec fn count_false(s: Seq<bool>) -> nat
    decreases s.len(),
{
    if s.len() == 0 {
        0
    } else {
        count_false(s.drop_last()) + if s.last() { 0nat } else { 1nat }
    }
}

proof fn lemma_count_false_set(s: Seq<bool>, i: int)
    requires
        0 <= i < s.len(),
        !s[i],
    ensures
        count_false(s.update(i, true)) + 1 == count_false(s),
    decreases s.len(),
{
    if i < s.len() - 1 {
        assert(s.update(i, true).drop_last() =~= s.drop_last().update(i, true));
        lemma_count_false_set(s.drop_last(), i);
    } else {
        assert(s.update(i, true).drop_last() =~= s.drop_last());
    }
}

/// Every path through the graph that reaches its end leaves a return first: the
/// trace of returns from the node before the final scope exit closes.
pub open spec fn returns_on_all_paths(cfg: CFG) -> bool {
    exists|t: Set<usize>| return_closed(cfg, trace_start(cfg), t)
}

/// Checks that the function returns on every path: walking back from the node
/// before the final scope exit, through branch merges and scope exits, every node
/// met must be a return.
#[verifier::loop_isolation(false)]
pub fn return_trace(cfg: &CFG) -> (r: Result<(), ControlFlowError>)
    requires
        cfg.wf(),
        edges_at(cfg.edges(), cfg.end_node(), false).len() == 1,
        edges_at(cfg.edges(), edges_at(cfg.edges(), cfg.end_node(), false)[0].0, false).len() == 1,
    ensures
        r is Ok <==> exists|t: Set<usize>| return_closed(*cfg, trace_start(*cfg), t),
        r is Err ==> r == Err::<(), ControlFlowError>(ControlFlowError::MissingReturn(Span { start: 0, end: 0 })),
{
    proof {
        lemma_edges_at_valid(cfg.edges(), cfg.end_node(), false, cfg.nodes().len());
    }
    let end = cfg.end();
    let scope_exit = match cfg.previous(end) {
        Some(x) => x,
        None => end,
    };
    proof {
        lemma_edges_at_valid(cfg.edges(), scope_exit, false, cfg.nodes().len());
    }
    let unknown = match cfg.previous(scope_exit) {
        Some(x) => x,
        None => scope_exit,
    };
    let ghost from = trace_start(*cfg);
    assert(unknown == from);
    let n = cfg.node_count();
    let mut traced: Vec<bool> = Vec::new();
    let mut i: usize = 0;
    while i < n
        invariant
            i <= n,
            traced@.len() == i,
            forall|k: int| 0 <= k < i ==> !traced@[k],
            count_false(traced@) == i,
        decreases n - i,
    {
        let ghost before = traced@;
        traced.push(false);
        assert(traced@.drop_last() =~= before);
        i = i + 1;
    }
    let mut unvisited: usize = n;
    let mut stack: Vec<usize> = vec![unknown];
    assert(stack@[0] == from);
    while stack.len() > 0
        invariant
            traced@.len() == n,
            n == cfg.nodes().len(),
            unvisited == count_false(traced@),
            forall|k: int| 0 <= k < stack@.len() ==> #[trigger] stack@[k] < n,
            // Every node traced or still to trace is in every closed set.
            forall|t: Set<usize>, k: int|
                return_closed(*cfg, from, t) && 0 <= k < stack@.len() ==> #[trigger] t.contains(stack@[k]),
            forall|t: Set<usize>, x: usize|
                return_closed(*cfg, from, t) && x < n && traced@[x as int] ==> #[trigger] t.contains(x),
            // Traced nodes are return-like, and the predecessors of traced merges and
            // scope exits are traced or still to trace.
            forall|x: usize| x < n && #[trigger] traced@[x as int] ==> return_like(cfg.nodes()[x as int]),
            forall|x: usize, k: int|
                #![trigger traced@[x as int], edges_at(cfg.edges(), x, false)[k]]
                x < n && traced@[x as int] && !(cfg.nodes()[x as int] is Return) && 0 <= k < edges_at(cfg.edges(), x, false).len()
                    ==> (traced@[edges_at(cfg.edges(), x, false)[k].0 as int] || stack@.contains(edges_at(cfg.edges(), x, false)[k].0)),
            stack@.contains(from) || traced@[from as int],
        decreases unvisited, stack.len(),
    {
        let ghost old_stack = stack@;
        let ghost old_traced = traced@;
        let id = stack.pop().unwrap();
        assert(old_stack[old_stack.len() - 1] == id);
        assert(stack@ == old_stack.drop_last());
        assert(id < n);
        assert(forall|t: Set<usize>| return_closed(*cfg, from, t) ==> t.contains(id));
        if !traced[id] {
            proof {
                lemma_count_false_set(traced@, id as int);
            }
            traced.set(id, true);
            unvisited = unvisited - 1;
            match cfg.node_weight(id) {
                Node::Return(_) => {},
                Node::BranchMerge(_) | Node::ExitScope => {
                    let preds = cfg.neighbors_in(id);
                    let ghost es = edges_at(cfg.edges(), id, false);
                    let ghost s0 = stack@;
                    proof {
                        lemma_edges_at_valid(cfg.edges(), id, false, n as nat);
                        assert forall|j: int| 0 <= j < es.len() implies #[trigger] preds@[j] == es[j].0 by {
                        }
                    }
                    let mut k: usize = 0;
                    while k < preds.len()
                        invariant
                            k <= preds@.len(),
                            preds@.len() == es.len(),
                            forall|j: int| 0 <= j < es.len() ==> #[trigger] preds@[j] == es[j].0,
                            stack@ == s0 + preds@.subrange(0, k as int),
                        decreases preds.len() - k,
                    {
                        stack.push(preds[k]);
                        k = k + 1;
                        assert(stack@ =~= s0 + preds@.subrange(0, k as int));
                    }
                    assert(stack@ =~= s0 + preds@);
                    proof {
                        assert forall|j: int| 0 <= j < stack@.len() implies #[trigger] stack@[j] < n by {
                            if j >= s0.len() {
                                assert(stack@[j] == preds@[j - s0.len()]);
                            } else {
                                assert(stack@[j] == s0[j]);
                            }
                        }
                        assert forall|t: Set<usize>, j: int|
                            return_closed(*cfg, from, t) && 0 <= j < stack@.len() implies #[trigger] t.contains(stack@[j]) by {
                            if j >= s0.len() {
                                assert(stack@[j] == es[j - s0.len()].0);
                                assert(t.contains(id));
                                assert(t.contains(edges_at(cfg.edges(), id, false)[j - s0.len()].0));
                            } else {
                                assert(stack@[j] == s0[j]);
                                assert(s0[j] == old_stack[j]);
                            }
                        }
                        assert forall|k2: int| 0 <= k2 < edges_at(cfg.edges(), id, false).len()
                            implies stack@.contains(#[trigger] edges_at(cfg.edges(), id, false)[k2].0) by {
                            assert(stack@[s0.len() + k2] == preds@[k2]);
                        }
                        assert forall|w: int| 0 <= w < s0.len() implies stack@[w] == old_stack[w] by {
                            assert(stack@[w] == s0[w]);
                        }
                    }
                },
                _ => {
                    proof {
                        assert forall|t: Set<usize>| !return_closed(*cfg, from, t) by {
                            if return_closed(*cfg, from, t) {
                                assert(t.contains(id));
                            }
                        }
                    }
                    return Err(ControlFlowError::MissingReturn(Span::dummy()));
                },
            }
            proof {
                assert(!(cfg.nodes()[id as int] is Return) ==> forall|k2: int|
                    0 <= k2 < edges_at(cfg.edges(), id, false).len()
                        ==> stack@.contains(#[trigger] edges_at(cfg.edges(), id, false)[k2].0));
            }
        }
        assert(forall|w: int| 0 <= w < old_stack.len() - 1 ==> #[trigger] stack@[w] == old_stack[w]);
        assert(forall|y: int| 0 <= y < n && old_traced[y] ==> #[trigger] traced@[y]);
        assert(!old_traced[id as int] && !(cfg.nodes()[id as int] is Return) ==> forall|k2: int|
            0 <= k2 < edges_at(cfg.edges(), id, false).len()
                ==> stack@.contains(#[trigger] edges_at(cfg.edges(), id, false)[k2].0));
        proof {
            assert(traced@[id as int]);
            assert forall|x: usize, k2: int|
                x < n && traced@[x as int] && !(cfg.nodes()[x as int] is Return) && 0 <= k2 < edges_at(cfg.edges(), x, false).len()
                implies (traced@[edges_at(cfg.edges(), x, false)[k2].0 as int] || stack@.contains(#[trigger] edges_at(cfg.edges(), x, false)[k2].0)) by {
                let p = edges_at(cfg.edges(), x, false)[k2].0;
                if old_traced[x as int] {
                    if !traced@[p as int] {
                        lemma_edges_at_valid(cfg.edges(), x, false, n as nat);
                        assert(old_stack.contains(p));
                        let w = choose|w: int| 0 <= w < old_stack.len() && old_stack[w] == p;
                        if w < old_stack.len() - 1 {
                            assert(stack@[w] == old_stack[w]);
                        }
                    }
                } else {
                    assert(x == id);
                }
            }
            assert forall|t: Set<usize>, x: usize|
                return_closed(*cfg, from, t) && x < n && traced@[x as int] implies #[trigger] t.contains(x) by {
                if x != id {
                    assert(old_traced[x as int]);
                }
            }
            if !traced@[from as int] {
                let w = choose|w: int| 0 <= w < old_stack.len() && old_stack[w] == from;
                if w < old_stack.len() - 1 {
                    assert(stack@[w] == from);
                }
            }
        }
    }
    let ghost t = Set::new(|x: usize| x < n && traced@[x as int]);
    proof {
        assert(t.contains(from));
        assert forall|x: usize, k2: int|
            #![trigger t.contains(x), edges_at(cfg.edges(), x, false)[k2]]
            t.contains(x) && !(cfg.nodes()[x as int] is Return) && 0 <= k2 < edges_at(cfg.edges(), x, false).len()
            implies t.contains(edges_at(cfg.edges(), x, false)[k2].0) by {
            lemma_edges_at_valid(cfg.edges(), x, false, n as nat);
            assert(traced@[x as int]);
        }
    }
    assert(return_closed(*cfg, from, t));
    Ok(())
}

} // verus!
