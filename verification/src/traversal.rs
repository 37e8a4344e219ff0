//! A linear walk over a control-flow graph: each node is visited once in the
//! order a passenger would see it, loops and branches path by path, and the walk
//! yields the events that a passenger is told of, in order.

use vstd::prelude::*;

use crate::control_flow::{edges_at, Edge, Node, CFG};

verus! {

/// What a passenger is told of at a node, with the node's index.
#[derive(Clone, Copy, Debug, PartialEq, Eq, Structural)]
pub enum VisitEvent {
    Start(usize),
    End(usize),
    LoopHead(usize),
    LoopFoot(usize),
    Continue(usize),
    Break(usize),
    EnterScope(usize),
    ExitScope(usize),
    Block(usize),
    Return(usize),
    LoopCondition(usize),
    LoopStartTruePath(usize),
    LoopEndTruePath(usize),
    BranchSplit(usize),
    BranchMerge(usize),
    BranchCondition(usize),
    BranchStartTruePath(usize),
    BranchStartFalsePath(usize),
    BranchEndTruePath(usize),
    BranchEndFalsePath(usize),
}

/// The event of visiting a node that is not a condition.
pub open spec fn node_event(n: Node, id: usize) -> VisitEvent {
    match n {
        Node::Start => VisitEvent::Start(id),
        Node::End => VisitEvent::End(id),
        Node::BranchSplit(_) => VisitEvent::BranchSplit(id),
        Node::BranchMerge(_) => VisitEvent::BranchMerge(id),
        Node::LoopHead(_) => VisitEvent::LoopHead(id),
        Node::LoopFoot(_) => VisitEvent::LoopFoot(id),
        Node::Continue(_) => VisitEvent::Continue(id),
        Node::Break(_) => VisitEvent::Break(id),
        Node::EnterScope => VisitEvent::EnterScope(id),
        Node::ExitScope => VisitEvent::ExitScope(id),
        Node::Block(_) => VisitEvent::Block(id),
        Node::Return(_) => VisitEvent::Return(id),
        Node::Condition(_) => VisitEvent::BranchCondition(id),
    }
}

/// The node `n` is a loop head whose loop is that of the loop foot `foot`.
pub open spec fn own_head(nodes: Seq<Node>, foot: Node, n: usize) -> bool {
    n < nodes.len() && match (foot, nodes[n as int]) {
        (Node::LoopFoot(f), Node::LoopHead(h)) => f.loop_id == h.loop_id,
        _ => false,
    }
}

/// Where the walk goes after a node that is not a condition: `Some(None)` after
/// the end, `Some(Some(n))` to go on at `n`, and `None` when the node's edges do
/// not have the shape its kind asks for.
///
/// A node goes on to its only successor. A loop foot goes on to the first of its
/// two successors that is not its own loop head. A `continue` or `return` with
/// two successors goes on to the first that is not a loop head (for `continue`)
/// or not the end (for `return`); a `break` has two successors and goes on to
/// the first that is not a loop foot.
pub open spec fn next_of(nodes: Seq<Node>, edges: Seq<(usize, usize, Edge)>, id: usize) -> Option<Option<usize>> {
    let out = edges_at(edges, id, true);
    match nodes[id as int] {
        Node::End => Some(None),
        Node::LoopFoot(_) => if out.len() == 2 {
            if !own_head(nodes, nodes[id as int], out[0].1) {
                Some(Some(out[0].1))
            } else if !own_head(nodes, nodes[id as int], out[1].1) {
                Some(Some(out[1].1))
            } else {
                None
            }
        } else {
            None
        },
        Node::Continue(_) => if out.len() == 1 {
            Some(Some(out[0].1))
        } else if out.len() == 2 {
            Some(Some(if !(nodes[out[0].1 as int] is LoopHead) { out[0].1 } else { out[1].1 }))
        } else {
            None
        },
        Node::Return(_) => if out.len() == 1 {
            Some(Some(out[0].1))
        } else if out.len() == 2 {
            Some(Some(if !(nodes[out[0].1 as int] is End) { out[0].1 } else { out[1].1 }))
        } else {
            None
        },
        Node::Break(_) => if out.len() == 2 {
            Some(Some(if !(nodes[out[0].1 as int] is LoopFoot) { out[0].1 } else { out[1].1 }))
        } else {
            None
        },
        _ => if out.len() == 1 {
            Some(Some(out[0].1))
        } else {
            None
        },
    }
}

/// Where the walk goes after the node `id`, which is not a condition.
fn step(cfg: &CFG, id: usize) -> (r: Option<Option<usize>>)
    requires
        cfg.wf(),
        id < cfg.nodes().len(),
        !(cfg.nodes()[id as int] is Condition),
    ensures
        r == next_of(cfg.nodes(), cfg.edges(), id),
        r matches Some(Some(n)) ==> n < cfg.nodes().len(),
{
    let es = cfg.edges_out(id);
    proof {
        crate::control_flow::lemma_edges_at_valid(cfg.edges(), id, true, cfg.nodes().len());
    }
    match cfg.node_weight(id) {
        Node::End => Some(None),
        Node::LoopFoot(f) => {
            if es.len() != 2 {
                return None;
            }
            let a = es[0].1;
            let b = es[1].1;
            let a_head = match cfg.node_weight(a) {
                Node::LoopHead(h) => h.loop_id == f.loop_id,
                _ => false,
            };
            let b_head = match cfg.node_weight(b) {
                Node::LoopHead(h) => h.loop_id == f.loop_id,
                _ => false,
            };
            if !a_head {
                Some(Some(a))
            } else if !b_head {
                Some(Some(b))
            } else {
                None
            }
        },
        Node::Continue(_) => {
            if es.len() == 1 {
                Some(Some(es[0].1))
            } else if es.len() == 2 {
                match cfg.node_weight(es[0].1) {
                    Node::LoopHead(_) => Some(Some(es[1].1)),
                    _ => Some(Some(es[0].1)),
                }
            } else {
                None
            }
        },
        Node::Return(_) => {
            if es.len() == 1 {
                Some(Some(es[0].1))
            } else if es.len() == 2 {
                match cfg.node_weight(es[0].1) {
                    Node::End => Some(Some(es[1].1)),
                    _ => Some(Some(es[0].1)),
                }
            } else {
                None
            }
        },
        Node::Break(_) => {
            if es.len() == 2 {
                match cfg.node_weight(es[0].1) {
                    Node::LoopFoot(_) => Some(Some(es[1].1)),
                    _ => Some(Some(es[0].1)),
                }
            } else {
                None
            }
        },
        _ => {
            if es.len() == 1 {
                Some(Some(es[0].1))
            } else {
                None
            }
        },
    }
}

/// The true and the false successor of a condition with exactly one true and
/// one false edge leaving it; `None` for any other set of edges.
pub open spec fn cond_targets(edges: Seq<(usize, usize, Edge)>, id: usize) -> Option<(usize, usize)> {
    let out = edges_at(edges, id, true);
    if out.len() == 2 && out[0].2 == Edge::True && out[1].2 == Edge::False {
        Some((out[0].1, out[1].1))
    } else if out.len() == 2 && out[0].2 == Edge::False && out[1].2 == Edge::True {
        Some((out[1].1, out[0].1))
    } else {
        None
    }
}

/// The true and the false successor of a condition.
fn condition_targets(cfg: &CFG, id: usize) -> (r: Option<(usize, usize)>)
    requires
        cfg.wf(),
        id < cfg.nodes().len(),
    ensures
        r == cond_targets(cfg.edges(), id),
        r matches Some((t, f)) ==> t < cfg.nodes().len() && f < cfg.nodes().len(),
{
    let es = cfg.edges_out(id);
    proof {
        crate::control_flow::lemma_edges_at_valid(cfg.edges(), id, true, cfg.nodes().len());
    }
    if es.len() != 2 {
        return None;
    }
    if es[0].2 == Edge::True && es[1].2 == Edge::False {
        Some((es[0].1, es[1].1))
    } else if es[0].2 == Edge::False && es[1].2 == Edge::True {
        Some((es[1].1, es[0].1))
    } else {
        None
    }
}

/// Which path out of a condition is walked: the true path of a loop, which ends
/// at the loop foot, or the true or false path of a branch, which ends at the
/// branch merge.
#[derive(Clone, Copy, Debug, PartialEq, Eq, Structural)]
pub enum PathKind {
    LoopTrue,
    BranchTrue,
    BranchFalse,
}

/// The path of kind `kind` ends at a node `n`.
pub open spec fn path_stops(kind: PathKind, n: Node) -> bool {
    match kind {
        PathKind::LoopTrue => n is LoopFoot,
        _ => n is BranchMerge,
    }
}

/// The event told at the node `id` that ends a path of kind `kind`.
pub open spec fn path_end(kind: PathKind, id: usize) -> VisitEvent {
    match kind {
        PathKind::LoopTrue => VisitEvent::LoopEndTruePath(id),
        PathKind::BranchTrue => VisitEvent::BranchEndTruePath(id),
        PathKind::BranchFalse => VisitEvent::BranchEndFalsePath(id),
    }
}

/// The node `prev` is a loop head, so that a condition reached from it is a
/// loop condition.
pub open spec fn after_loop_head(nodes: Seq<Node>, prev: Option<usize>) -> bool {
    match prev {
        Some(p) => nodes[p as int] is LoopHead,
        None => false,
    }
}

/// The events of a visit put in front of those of the rest of a walk.
pub open spec fn prepend(s: Seq<VisitEvent>, r: Option<(Seq<VisitEvent>, Option<usize>)>) -> Option<(Seq<VisitEvent>, Option<usize>)> {
    match r {
        Some((e, x)) => Some((s + e, x)),
        None => None,
    }
}

/// A result of a visit or a path walk, its events taken as a sequence.
pub open spec fn visit_view(r: Option<(Vec<VisitEvent>, Option<usize>)>) -> Option<(Seq<VisitEvent>, Option<usize>)> {
    match r {
        Some((v, x)) => Some((v@, x)),
        None => None,
    }
}

/// Visiting the node `cur`, reached from `prev`, with conditions nested at most
/// `fuel` deep: the events told, in order, and where the walk goes on (`None`
/// after the end); `None` when the graph does not have the shape the walk expects.
///
/// A node that is not a condition tells its own event and goes on as `next_of`
/// says. A condition reached from a loop head tells `LoopCondition`, then
/// `LoopStartTruePath` of its true successor, walks the true path up to the loop
/// foot, and goes on after its false successor, which must be a loop foot. Any
/// other condition tells `BranchCondition`, then `BranchStartTruePath`, walks the
/// true path up to a branch merge, tells `BranchStartFalsePath`, walks the false
/// path up to a branch merge, and goes on after that merge.
pub open spec fn visit_spec(nodes: Seq<Node>, edges: Seq<(usize, usize, Edge)>, prev: Option<usize>, cur: usize, fuel: nat) -> Option<(Seq<VisitEvent>, Option<usize>)>
    decreases fuel, 0nat, 0nat,
{
    if !(nodes[cur as int] is Condition) {
        match next_of(nodes, edges, cur) {
            Some(next) => Some((seq![node_event(nodes[cur as int], cur)], next)),
            None => None,
        }
    } else if fuel == 0 {
        None
    } else {
        match cond_targets(edges, cur) {
            None => None,
            Some((t, f)) => if after_loop_head(nodes, prev) {
                let head = seq![VisitEvent::LoopCondition(cur), VisitEvent::LoopStartTruePath(t)];
                match path_spec(nodes, edges, PathKind::LoopTrue, cur, t, (fuel - 1) as nat, nodes.len()) {
                    None => None,
                    Some((tp, None)) => Some((head + tp, None)),
                    Some((tp, Some(_))) => if nodes[f as int] is LoopFoot {
                        match next_of(nodes, edges, f) {
                            Some(next) => Some((head + tp, next)),
                            None => None,
                        }
                    } else {
                        None
                    },
                }
            } else {
                let head = seq![VisitEvent::BranchCondition(cur), VisitEvent::BranchStartTruePath(t)];
                match path_spec(nodes, edges, PathKind::BranchTrue, cur, t, (fuel - 1) as nat, nodes.len()) {
                    None => None,
                    Some((tp, None)) => Some((head + tp, None)),
                    Some((tp, Some(_))) => {
                        let mid = head + tp + seq![VisitEvent::BranchStartFalsePath(f)];
                        match path_spec(nodes, edges, PathKind::BranchFalse, cur, f, (fuel - 1) as nat, nodes.len()) {
                            None => None,
                            Some((fp, None)) => Some((mid + fp, None)),
                            Some((fp, Some(m))) => match next_of(nodes, edges, m) {
                                Some(next) => Some((mid + fp, next)),
                                None => None,
                            },
                        }
                    },
                }
            },
        }
    }
}

/// Walking a path of kind `kind` from `node`, reached from `last`, visiting at
/// most `k` nodes before its end: the events told, and `Some(m)` for the node `m`
/// that ends the path (whose end event is the last one told) or `None` when the
/// walk passed the end of the graph; `None` when the path does not end within
/// `k` visits or a visit fails.
pub open spec fn path_spec(nodes: Seq<Node>, edges: Seq<(usize, usize, Edge)>, kind: PathKind, last: usize, node: usize, fuel: nat, k: nat) -> Option<(Seq<VisitEvent>, Option<usize>)>
    decreases fuel, 1nat, k,
{
    if k == 0 || node >= nodes.len() {
        None
    } else if path_stops(kind, nodes[node as int]) {
        Some((seq![path_end(kind, node)], Some(node)))
    } else {
        match visit_spec(nodes, edges, Some(last), node, fuel) {
            None => None,
            Some((evs, None)) => Some((evs, None)),
            Some((evs, Some(m))) => prepend(evs, path_spec(nodes, edges, kind, node, m, fuel, (k - 1) as nat)),
        }
    }
}

proof fn lemma_prepend_assoc(a: Seq<VisitEvent>, b: Seq<VisitEvent>, r: Option<(Seq<VisitEvent>, Option<usize>)>)
    ensures
        prepend(a, prepend(b, r)) == prepend(a + b, r),
{
    if let Some((e, x)) = r {
        assert(a + (b + e) =~= (a + b) + e);
    }
}

/// Visits `current`, reached from `prev`: the events a passenger is told of, in
/// order, and the node to go on at (`None` after the end), as `visit_spec` says
/// with conditions nested at most as deep as the graph has nodes.
pub fn visit_node(cfg: &CFG, prev: Option<usize>, current: usize) -> (r: Option<(Vec<VisitEvent>, Option<usize>)>)
    requires
        cfg.wf(),
        current < cfg.nodes().len(),
        prev matches Some(p) ==> p < cfg.nodes().len(),
    ensures
        visit_view(r) == visit_spec(cfg.nodes(), cfg.edges(), prev, current, cfg.nodes().len()),
        r matches Some((_, Some(n))) ==> n < cfg.nodes().len(),
{
    let fuel = cfg.node_count();
    visit_with_fuel(cfg, prev, current, fuel)
}

/// `visit_node`, nesting at most `fuel` conditions deep.
fn visit_with_fuel(cfg: &CFG, prev: Option<usize>, current: usize, fuel: usize) -> (r: Option<(Vec<VisitEvent>, Option<usize>)>)
    requires
        cfg.wf(),
        current < cfg.nodes().len(),
        prev matches Some(p) ==> p < cfg.nodes().len(),
    ensures
        visit_view(r) == visit_spec(cfg.nodes(), cfg.edges(), prev, current, fuel as nat),
        r matches Some((_, Some(n))) ==> n < cfg.nodes().len(),
    decreases fuel, 0nat,
{
    let ghost nodes = cfg.nodes();
    let ghost edges = cfg.edges();
    let is_condition = match cfg.node_weight(current) {
        Node::Condition(_) => true,
        _ => false,
    };
    if !is_condition {
        let ev = event_of(cfg.node_weight(current), current);
        return match step(cfg, current) {
            Some(next) => Some((vec![ev], next)),
            None => None,
        };
    }
    if fuel == 0 {
        return None;
    }
    let after_head = match prev {
        Some(p) => match cfg.node_weight(p) {
            Node::LoopHead(_) => true,
            _ => false,
        },
        None => false,
    };
    let (true_path, false_path) = match condition_targets(cfg, current) {
        Some(x) => x,
        None => return None,
    };
    let ghost len = nodes.len();
    if after_head {
        let (mut tp, tend) = match walk_path(cfg, PathKind::LoopTrue, current, true_path, fuel - 1) {
            Some(x) => x,
            None => return None,
        };
        let ghost tpv = tp@;
        let mut events = vec![VisitEvent::LoopCondition(current), VisitEvent::LoopStartTruePath(true_path)];
        events.append(&mut tp);
        assert(events@ =~= seq![VisitEvent::LoopCondition(current), VisitEvent::LoopStartTruePath(true_path)] + tpv);
        if tend.is_none() {
            return Some((events, None));
        }
        match cfg.node_weight(false_path) {
            Node::LoopFoot(_) => match step(cfg, false_path) {
                Some(next) => Some((events, next)),
                None => None,
            },
            _ => None,
        }
    } else {
        let (mut tp, tend) = match walk_path(cfg, PathKind::BranchTrue, current, true_path, fuel - 1) {
            Some(x) => x,
            None => return None,
        };
        let ghost tpv = tp@;
        let ghost head = seq![VisitEvent::BranchCondition(current), VisitEvent::BranchStartTruePath(true_path)];
        let mut events = vec![VisitEvent::BranchCondition(current), VisitEvent::BranchStartTruePath(true_path)];
        events.append(&mut tp);
        assert(events@ =~= head + tpv);
        if tend.is_none() {
            return Some((events, None));
        }
        events.push(VisitEvent::BranchStartFalsePath(false_path));
        let ghost mid = events@;
        assert(mid =~= head + tpv + seq![VisitEvent::BranchStartFalsePath(false_path)]);
        let (mut fp, fend) = match walk_path(cfg, PathKind::BranchFalse, current, false_path, fuel - 1) {
            Some(x) => x,
            None => return None,
        };
        let ghost fpv = fp@;
        events.append(&mut fp);
        assert(events@ =~= mid + fpv);
        match fend {
            None => Some((events, None)),
            Some(m) => match step(cfg, m) {
                Some(next) => Some((events, next)),
                None => None,
            },
        }
    }
}

/// The node `n` ends a path of kind `kind`.
fn stops_at(kind: PathKind, n: &Node) -> (r: bool)
    ensures
        r == path_stops(kind, *n),
{
    match kind {
        PathKind::LoopTrue => match n {
            Node::LoopFoot(_) => true,
            _ => false,
        },
        _ => match n {
            Node::BranchMerge(_) => true,
            _ => false,
        },
    }
}

/// The event told at the node `id` that ends a path of kind `kind`.
fn end_event(kind: PathKind, id: usize) -> (r: VisitEvent)
    ensures
        r == path_end(kind, id),
{
    match kind {
        PathKind::LoopTrue => VisitEvent::LoopEndTruePath(id),
        PathKind::BranchTrue => VisitEvent::BranchEndTruePath(id),
        PathKind::BranchFalse => VisitEvent::BranchEndFalsePath(id),
    }
}

/// Walks a path of kind `kind` from `start`, reached from the condition `from`,
/// visiting at most as many nodes as the graph has, as `path_spec` says.
fn walk_path(cfg: &CFG, kind: PathKind, from: usize, start: usize, fuel: usize) -> (r: Option<(Vec<VisitEvent>, Option<usize>)>)
    requires
        cfg.wf(),
        from < cfg.nodes().len(),
        start < cfg.nodes().len(),
    ensures
        visit_view(r) == path_spec(cfg.nodes(), cfg.edges(), kind, from, start, fuel as nat, cfg.nodes().len()),
        r matches Some((_, Some(m))) ==> m < cfg.nodes().len() && path_stops(kind, cfg.nodes()[m as int]),
    decreases fuel, 1nat,
{
    let n = cfg.node_count();
    let ghost nodes = cfg.nodes();
    let ghost edges = cfg.edges();
    let ghost whole = path_spec(nodes, edges, kind, from, start, fuel as nat, n as nat);
    let mut events: Vec<VisitEvent> = Vec::new();
    let mut node = start;
    let mut last = from;
    let mut k: usize = 0;
    assert(events@ + seq![] =~= seq![]);
    assert(prepend(events@, path_spec(nodes, edges, kind, last, node, fuel as nat, (n - k) as nat)) == whole) by {
        match path_spec(nodes, edges, kind, last, node, fuel as nat, (n - k) as nat) {
            Some((e, x)) => {
                assert(events@ + e =~= e);
            },
            None => {},
        }
    }
    while k < n
        invariant
            cfg.wf(),
            nodes == cfg.nodes(),
            edges == cfg.edges(),
            n == nodes.len(),
            node < n,
            last < n,
            k <= n,
            whole == path_spec(nodes, edges, kind, from, start, fuel as nat, n as nat),
            whole == prepend(events@, path_spec(nodes, edges, kind, last, node, fuel as nat, (n - k) as nat)),
        decreases n - k,
    {
        if stops_at(kind, cfg.node_weight(node)) {
            let ghost before = events@;
            events.push(end_event(kind, node));
            assert(events@ =~= before + seq![path_end(kind, node)]);
            return Some((events, Some(node)));
        }
        let (mut evs, next) = match visit_with_fuel(cfg, Some(last), node, fuel) {
            Some(x) => x,
            None => return None,
        };
        let ghost before = events@;
        let ghost ev = evs@;
        events.append(&mut evs);
        assert(events@ =~= before + ev);
        match next {
            Some(m) => {
                proof {
                    lemma_prepend_assoc(before, ev, path_spec(nodes, edges, kind, node, m, fuel as nat, (n - k - 1) as nat));
                }
                last = node;
                node = m;
            },
            None => return Some((events, None)),
        }
        k = k + 1;
    }
    None
}

/// The event of visiting a node that is not a condition.
fn event_of(n: &Node, id: usize) -> (r: VisitEvent)
    ensures
        r == node_event(*n, id),
{
    match n {
        Node::Start => VisitEvent::Start(id),
        Node::End => VisitEvent::End(id),
        Node::BranchSplit(_) => VisitEvent::BranchSplit(id),
        Node::BranchMerge(_) => VisitEvent::BranchMerge(id),
        Node::LoopHead(_) => VisitEvent::LoopHead(id),
        Node::LoopFoot(_) => VisitEvent::LoopFoot(id),
        Node::Continue(_) => VisitEvent::Continue(id),
        Node::Break(_) => VisitEvent::Break(id),
        Node::EnterScope => VisitEvent::EnterScope(id),
        Node::ExitScope => VisitEvent::ExitScope(id),
        Node::Block(_) => VisitEvent::Block(id),
        Node::Return(_) => VisitEvent::Return(id),
        Node::Condition(_) => VisitEvent::BranchCondition(id),
    }
}

/// The walk over a whole graph from `cur`, reached from `prev`, visiting at most
/// `k` nodes: all the events told, up to and including the end, or `None` when
/// a visit fails or the end is not reached within `k` visits.
pub open spec fn walk_spec(nodes: Seq<Node>, edges: Seq<(usize, usize, Edge)>, prev: Option<usize>, cur: Option<usize>, k: nat) -> Option<Seq<VisitEvent>>
    decreases k,
{
    match cur {
        None => Some(Seq::empty()),
        Some(c) => if k == 0 {
            None
        } else {
            match visit_spec(nodes, edges, prev, c, nodes.len()) {
                None => None,
                Some((evs, next)) => match walk_spec(nodes, edges, Some(c), next, (k - 1) as nat) {
                    Some(rest) => Some(evs + rest),
                    None => None,
                },
            }
        },
    }
}

/// A result of a whole walk, its events taken as a sequence.
pub open spec fn walk_view(r: Option<Vec<VisitEvent>>) -> Option<Seq<VisitEvent>> {
    match r {
        Some(v) => Some(v@),
        None => None,
    }
}

/// A walk over a whole graph.
pub struct Traverser<'a> {
    graph: &'a CFG,
    node_count: usize,
}

impl<'a> Traverser<'a> {
    /// A walk over `graph`.
    pub fn new(graph: &'a CFG) -> (r: Traverser<'a>)
        requires
            graph.wf(),
        ensures
            r.graph() == graph,
            r.limit() == graph.nodes().len(),
    {
        Traverser { graph, node_count: graph.node_count() }
    }

    /// The graph walked over.
    pub closed spec fn graph(self) -> &'a CFG {
        self.graph
    }

    /// How many nodes the walk visits at most.
    pub closed spec fn limit(self) -> nat {
        self.node_count as nat
    }

    /// Walks the graph from its start node, visiting at most `limit()` nodes: the
    /// events in order, as `walk_spec` gives them, when every visit succeeds and
    /// the end is reached within that many visits; `None` otherwise.
    pub fn traverse(&self) -> (r: Option<Vec<VisitEvent>>)
        requires
            self.graph().wf(),
        ensures
            walk_view(r) == walk_spec(self.graph().nodes(), self.graph().edges(), None, Some(self.graph().start_node()), self.limit()),
    {
        let cfg = self.graph;
        let ghost nodes = cfg.nodes();
        let ghost edges = cfg.edges();
        let ghost whole = walk_spec(nodes, edges, None, Some(cfg.start_node()), self.limit());
        let mut events: Vec<VisitEvent> = Vec::new();
        let mut current: Option<usize> = Some(cfg.start());
        let mut prev: Option<usize> = None;
        let mut k: usize = 0;
        assert(whole == match walk_spec(nodes, edges, prev, current, (self.limit() - k) as nat) {
            Some(rest) => Some(events@ + rest),
            None => None,
        }) by {
            match walk_spec(nodes, edges, prev, current, (self.limit() - k) as nat) {
                Some(rest) => {
                    assert(events@ + rest =~= rest);
                },
                None => {},
            }
        }
        while k < self.node_count
            invariant
                cfg.wf(),
                cfg == self.graph(),
                nodes == cfg.nodes(),
                edges == cfg.edges(),
                self.limit() == self.node_count,
                k <= self.node_count,
                current matches Some(c) ==> c < cfg.nodes().len(),
                prev matches Some(p) ==> p < cfg.nodes().len(),
                whole == walk_spec(nodes, edges, None, Some(cfg.start_node()), self.limit()),
                whole == match walk_spec(nodes, edges, prev, current, (self.limit() - k) as nat) {
                    Some(rest) => Some(events@ + rest),
                    None => None,
                },
            ensures
                current is None || k == self.node_count,
            decreases self.node_count - k,
        {
            let to_visit = match current {
                Some(c) => c,
                None => break,
            };
            let (mut evs, next) = match visit_node(cfg, prev, to_visit) {
                Some(x) => x,
                None => return None,
            };
            let ghost before = events@;
            let ghost ev = evs@;
            events.append(&mut evs);
            proof {
                match walk_spec(nodes, edges, Some(to_visit), next, (self.limit() - k - 1) as nat) {
                    Some(rest) => {
                        assert(before + (ev + rest) =~= events@ + rest);
                    },
                    None => {},
                }
            }
            prev = Some(to_visit);
            current = next;
            k = k + 1;
        }
        if current.is_some() {
            return None;
        }
        proof {
            assert(events@ + Seq::<VisitEvent>::empty() =~= events@);
        }
        Some(events)
    }
}

} // verus!
