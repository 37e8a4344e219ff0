//! One step of running a function: what its control-flow graph does at a node.
//!
//! The expressions of a node are evaluated beforehand with
//! [`crate::eval::eval_expr`] by the caller, which also performs float arithmetic
//! and calls; the step takes their values and decides where to go and how the
//! environment changes.

use vstd::prelude::*;

use crate::control_flow::{edges_at, BlockNode, Edge, Node, CFG};
use crate::env::Env;
use crate::eval::EvalError;
use crate::expr_flow::{Segment, Tmp, Value as Flow};
use crate::ast::Ident;
use crate::value::{field_value, update_field, Value, ValueView};

verus! {

/// What the step at a node leads to.
#[derive(Clone, Copy, Debug, PartialEq, Eq, Structural)]
pub enum NodeEval {
    /// Go on at this node.
    Next(usize),
    /// The function returns (the value is that of the return node's expression,
    /// or unit).
    Return,
}

/// Why a step could not be taken.
#[derive(Clone, Copy, Debug, PartialEq, Eq, Structural)]
pub enum StepError {
    /// Evaluating the node's expressions failed.
    Eval(EvalError),
    /// The node's edges do not have the shape its kind asks for, or a loop is
    /// left that was not entered.
    Malformed,
    /// The values handed in do not fit the node.
    MissingValue,
    /// An assignment to a path that indexes an array.
    Unsupported,
}

/// The loops being run: the innermost last, and for each loop head the value of
/// its condition when it was last evaluated.
pub struct LoopState {
    pub stack: Vec<usize>,
    pub results: Vec<bool>,
}

impl LoopState {
    /// No loop is being run; `n` loop heads can be recorded.
    pub fn new(n: usize) -> (r: LoopState)
        ensures
            r.stack@.len() == 0,
            r.results@.len() == n,
            forall|k: int| 0 <= k < n ==> !#[trigger] r.results@[k],
    {
        let mut results: Vec<bool> = Vec::new();
        let mut k: usize = 0;
        while k < n
            invariant
                k <= n,
                results@.len() == k,
                forall|j: int| 0 <= j < k ==> !#[trigger] results@[j],
            decreases n - k,
        {
            results.push(false);
            k = k + 1;
        }
        LoopState { stack: Vec::new(), results }
    }
}

/// The condition was reached from a loop head: it is that loop's own condition.
pub open spec fn from_loop_head(nodes: Seq<Node>, prev: Option<usize>) -> bool {
    match prev {
        Some(p) => p < nodes.len() && nodes[p as int] is LoopHead,
        None => false,
    }
}

/// The loop results after a condition that evaluated to `b` is stepped, reached
/// from `prev`, while the loops of `stack` are run.
pub open spec fn condition_results(nodes: Seq<Node>, prev: Option<usize>, stack: Seq<usize>, results: Seq<bool>, b: bool) -> Seq<bool> {
    if from_loop_head(nodes, prev) && stack.len() > 0 && stack.last() < results.len() {
        results.update(stack.last() as int, b)
    } else {
        results
    }
}

/// Only a loop's own condition decides whether the loop runs again: a condition
/// reached from anything but a loop head (a branch of an `if`) leaves every loop
/// result as it was, and a loop's condition sets the result of the innermost
/// loop being run to the condition's value and leaves the others as they were.
pub proof fn law_only_loop_conditions_decide(nodes: Seq<Node>, prev: Option<usize>, stack: Seq<usize>, results: Seq<bool>, b: bool)
    requires
        stack.len() > 0 ==> stack.last() < results.len(),
    ensures
        (prev matches Some(p) && p < nodes.len() && !(nodes[p as int] is LoopHead)) ==> condition_results(
            nodes,
            prev,
            stack,
            results,
            b,
        ) == results,
        prev is None ==> condition_results(nodes, prev, stack, results, b) == results,
        (prev matches Some(p) && p < nodes.len() && nodes[p as int] is LoopHead) && stack.len() > 0 ==> {
            &&& condition_results(nodes, prev, stack, results, b).len() == results.len()
            &&& condition_results(nodes, prev, stack, results, b)[stack.last() as int] == b
            &&& forall|k: int| 0 <= k < results.len() && k != stack.last() ==> #[trigger] condition_results(
                nodes,
                prev,
                stack,
                results,
                b,
            )[k] == results[k]
        },
{
}

/// The single successor of `id`, if it has exactly one.
pub open spec fn single_next(cfg: CFG, id: usize) -> Option<usize> {
    let out = edges_at(cfg.edges(), id, true);
    if out.len() == 1 {
        Some(out[0].1)
    } else {
        None
    }
}

/// The first successor of `id` whose node satisfies `p`, by edges most recently
/// added first.
pub open spec fn first_next(cfg: CFG, id: usize, p: spec_fn(Node) -> bool) -> Option<usize> {
    let out = edges_at(cfg.edges(), id, true);
    if exists|k: int| 0 <= k < out.len() && p(cfg.nodes()[out[k].1 as int]) {
        let k = choose|k: int| 0 <= k < out.len() && p(cfg.nodes()[out[k].1 as int]) && forall|j: int|
            0 <= j < k ==> !p(cfg.nodes()[out[j].1 as int]);
        Some(out[k].1)
    } else {
        None
    }
}

/// Every segment of the path is a name, none an indexing.
pub open spec fn all_names(segs: Seq<Segment>) -> bool {
    forall|k: int| 0 <= k < segs.len() ==> #[trigger] segs[k] is Ident
}

/// The names of the segments of a path.
pub open spec fn field_names(segs: Seq<Segment>) -> Seq<Seq<char>> {
    Seq::new(
        segs.len(),
        |k: int|
            match segs[k] {
                Segment::Ident(n) => n.0@,
                Segment::Indexing(n, _) => n.0@,
            },
    )
}

/// The variable and the field names that an assignment target stands for, when
/// it is a path of names (`x`, `x.a.b`).
pub open spec fn path_target(tmps: Seq<Tmp>) -> Option<(Ident, Seq<Seq<char>>)> {
    if tmps.len() == 1 {
        match tmps[0].value {
            Flow::FieldAccess(segs) => if segs@.len() >= 1 && all_names(segs@) {
                match segs@[0] {
                    Segment::Ident(n) => Some((n, field_names(segs@.drop_first()))),
                    _ => None,
                }
            } else {
                None
            },
            _ => None,
        }
    } else {
        None
    }
}

/// The value `v` with the field reached by the path `names` set to `new`: `v`
/// itself replaced when the path is empty, else the first field named
/// `names[0]` of the struct `v` set along the rest of the path.
pub open spec fn set_field_path(v: ValueView, names: Seq<Seq<char>>, new: ValueView) -> Result<ValueView, EvalError>
    decreases names.len(),
{
    if names.len() == 0 {
        Ok(new)
    } else {
        match v {
            ValueView::Struct(fs) => match field_value(fs, names[0]) {
                Some(inner) => match set_field_path(inner, names.drop_first(), new) {
                    Ok(x) => Ok(ValueView::Struct(update_field(fs, names[0], x))),
                    Err(e) => Err(e),
                },
                None => Err(EvalError::UnknownField),
            },
            _ => Err(EvalError::TypeMismatch),
        }
    }
}

/// The named values after the entries `entries[k..]` of a basic block have run,
/// the value of each entry's expression being `values[k]`.
pub open spec fn block_effect(
    vals: Map<Seq<char>, ValueView>,
    entries: Seq<BlockNode>,
    values: Seq<ValueView>,
    k: int,
) -> Result<Map<Seq<char>, ValueView>, StepError>
    decreases entries.len() - k,
{
    if k < 0 || k >= entries.len() {
        Ok(vals)
    } else {
        match entries[k] {
            BlockNode::Expr(_) => block_effect(vals, entries, values, k + 1),
            BlockNode::LocalVarDecl(d) => block_effect(vals.insert(d.var_name.0@, values[k]), entries, values, k + 1),
            BlockNode::Assignment(a) => match path_target(a.assignee.tmps@) {
                Some((n, names)) => if vals.dom().contains(n.0@) {
                    match set_field_path(vals[n.0@], names, values[k]) {
                        Ok(nv) => block_effect(vals.insert(n.0@, nv), entries, values, k + 1),
                        Err(e) => Err(StepError::Eval(e)),
                    }
                } else {
                    Err(StepError::Eval(EvalError::UnknownName))
                },
                None => Err(StepError::Unsupported),
            },
        }
    }
}

/// The values of `vs`.
pub open spec fn views(vs: Seq<Value>) -> Seq<ValueView> {
    Seq::new(vs.len(), |k: int| vs[k].deep())
}

/// The single successor of `id`, if it has exactly one.
fn next_single(cfg: &CFG, id: usize) -> (r: Result<usize, StepError>)
    requires
        cfg.wf(),
        id < cfg.nodes().len(),
    ensures
        match single_next(*cfg, id) {
            Some(n) => r == Ok::<usize, StepError>(n) && n < cfg.nodes().len(),
            None => r == Err::<usize, StepError>(StepError::Malformed),
        },
{
    match cfg.next(id) {
        Some(n) => {
            proof {
                crate::control_flow::lemma_edges_at_valid(cfg.edges(), id, true, cfg.nodes().len());
            }
            Ok(n)
        },
        None => Err(StepError::Malformed),
    }
}

/// Runs the entries of a basic block, given the value of each entry's expression.
fn run_block(env: &mut Env, entries: &Vec<BlockNode>, values: &Vec<Value>) -> (r: Result<(), StepError>)
    requires
        entries@.len() == values@.len(),
    ensures
        match block_effect(old(env).values(), entries@, views(values@), 0) {
            Ok(m) => r is Ok && final(env).values() == m,
            Err(e) => r == Err::<(), StepError>(e),
        },
{
    let mut k: usize = 0;
    while k < entries.len()
        invariant
            k <= entries@.len(),
            entries@.len() == values@.len(),
            block_effect(old(env).values(), entries@, views(values@), 0) == block_effect(
                env.values(),
                entries@,
                views(values@),
                k as int,
            ),
        decreases entries.len() - k,
    {
        match &entries[k] {
            BlockNode::Expr(_) => {},
            BlockNode::LocalVarDecl(d) => {
                env.map_value(d.var_name.0.clone(), values[k].duplicate());
            },
            BlockNode::Assignment(a) => {
                let (name, segs) = match path_of(&a.assignee.tmps) {
                    Some(x) => x,
                    None => return Err(StepError::Unsupported),
                };
                let current = match env.get_value(name.as_str()) {
                    Some(v) => v,
                    None => return Err(StepError::Eval(EvalError::UnknownName)),
                };
                proof {
                    assert(segs@.subrange(1, segs@.len() as int) =~= segs@.drop_first());
                }
                let updated = match set_path(current, segs, 1, values[k].duplicate()) {
                    Ok(v) => v,
                    Err(e) => return Err(StepError::Eval(e)),
                };
                env.map_value(name.0.clone(), updated);
            },
        }
        k = k + 1;
    }
    Ok(())
}

/// The variable and the path of an assignment target that is a path of names.
fn path_of(tmps: &Vec<Tmp>) -> (r: Option<(&Ident, &Vec<Segment>)>)
    ensures
        r is Some <==> path_target(tmps@) is Some,
        r matches Some((n, segs)) ==> segs@.len() >= 1 && all_names(segs@) && segs@[0] == Segment::Ident(*n)
            && path_target(tmps@) == Some((*n, field_names(segs@.drop_first()))),
{
    if tmps.len() != 1 {
        return None;
    }
    match &tmps[0].value {
        Flow::FieldAccess(segs) => {
            if segs.len() == 0 {
                return None;
            }
            let mut k: usize = 0;
            while k < segs.len()
                invariant
                    k <= segs@.len(),
                    tmps@.len() == 1,
                    tmps@[0].value matches Flow::FieldAccess(s2) && s2@ == segs@,
                    forall|j: int| 0 <= j < k ==> #[trigger] segs@[j] is Ident,
                decreases segs.len() - k,
            {
                if let Segment::Indexing(_, _) = &segs[k] {
                    assert(!(segs@[k as int] is Ident));
                    assert(!all_names(segs@));
                    return None;
                }
                k = k + 1;
            }
            match &segs[0] {
                Segment::Ident(n) => Some((n, segs)),
                _ => None,
            }
        },
        _ => None,
    }
}

/// Sets the field of `v` that the names of `segs[k..]` lead to.
fn set_path(v: Value, segs: &Vec<Segment>, k: usize, new: Value) -> (r: Result<Value, EvalError>)
    requires
        1 <= k <= segs@.len(),
        all_names(segs@),
    ensures
        match set_field_path(v.deep(), field_names(segs@.subrange(k as int, segs@.len() as int)), new.deep()) {
            Ok(x) => r matches Ok(y) && y.deep() == x,
            Err(e) => r == Err::<Value, EvalError>(e),
        },
    decreases segs.len() - k,
{
    let ghost names = field_names(segs@.subrange(k as int, segs@.len() as int));
    if k == segs.len() {
        assert(names.len() == 0);
        return Ok(new);
    }
    assert(segs@[k as int] is Ident);
    let name = match &segs[k] {
        Segment::Ident(n) => n,
        Segment::Indexing(n, _) => n,
    };
    assert(names[0] == name.0@);
    assert(names.drop_first() =~= field_names(segs@.subrange(k + 1, segs@.len() as int)));
    match v {
        Value::Struct(mut st) => {
            match st.get_field(&name.0) {
                Some(inner) => {
                    let x = match set_path(inner, segs, k + 1, new) {
                        Ok(x) => x,
                        Err(e) => return Err(e),
                    };
                    st.set_field(name.0.clone(), x);
                    Ok(Value::Struct(st))
                },
                None => Err(EvalError::UnknownField),
            }
        },
        _ => Err(EvalError::TypeMismatch),
    }
}

/// The target of the first edge of kind `want` among `es`.
fn edge_target(es: &Vec<(usize, usize, Edge)>, want: Edge) -> (r: Option<usize>)
    ensures
        r is Some <==> exists|k: int| 0 <= k < es@.len() && es@[k].2 == want,
        r matches Some(n) ==> exists|k: int| 0 <= k < es@.len() && es@[k].1 == n && es@[k].2 == want,
{
    let mut k: usize = 0;
    while k < es.len()
        invariant
            k <= es@.len(),
            forall|j: int| 0 <= j < k ==> es@[j].2 != want,
        decreases es.len() - k,
    {
        if es[k].2 == want {
            return Some(es[k].1);
        }
        k = k + 1;
    }
    None
}

/// The step at `current`, reached from `prev`.
///
/// Most nodes go on to their single successor. A loop head enters its loop. A
/// condition goes on along its true or its false edge, as `cond` says; reached
/// from a loop head, it also records the value for that loop. A loop foot leaves
/// the innermost loop and goes back to its head when the loop's condition last
/// held, else on to its successor that is not a loop head. `continue` leaves the
/// innermost loop and goes back to its head; `break` records that its loop's
/// condition no longer holds and goes on to its loop foot. A basic block runs
/// its entries, `values` holding the value of each entry's expression. The end
/// node and a return node return.
#[verifier::loop_isolation(false)]
pub fn eval_node(
    cfg: &CFG,
    env: &mut Env,
    state: &mut LoopState,
    prev: Option<usize>,
    current: usize,
    cond: Option<bool>,
    values: &Vec<Value>,
) -> (r: Result<NodeEval, StepError>)
    requires
        cfg.wf(),
        current < cfg.nodes().len(),
        prev matches Some(p) ==> p < cfg.nodes().len(),
        old(state).results@.len() == cfg.nodes().len(),
    ensures
        final(state).results@.len() == cfg.nodes().len(),
        !(cfg.nodes()[current as int] is Block) ==> final(env).values() == old(env).values(),
        !(cfg.nodes()[current as int] is Condition) && !(cfg.nodes()[current as int] is Break) ==> final(state).results@
            == old(state).results@,
        !(cfg.nodes()[current as int] is LoopHead) && !(cfg.nodes()[current as int] is LoopFoot)
            && !(cfg.nodes()[current as int] is Continue) ==> final(state).stack@ == old(state).stack@,
        match cfg.nodes()[current as int] {
            Node::End | Node::Return(_) => r == Ok::<NodeEval, StepError>(NodeEval::Return),
            Node::Start | Node::BranchSplit(_) | Node::BranchMerge(_) | Node::EnterScope | Node::ExitScope => match single_next(*cfg, current) {
                Some(n) => r == Ok::<NodeEval, StepError>(NodeEval::Next(n)),
                None => r == Err::<NodeEval, StepError>(StepError::Malformed),
            },
            Node::LoopHead(d) => match single_next(*cfg, current) {
                Some(n) => r == Ok::<NodeEval, StepError>(NodeEval::Next(n)) && final(state).stack@ == old(state).stack@.push(d.loop_id),
                None => r == Err::<NodeEval, StepError>(StepError::Malformed),
            },
            Node::Condition(_) => match cond {
                None => r == Err::<NodeEval, StepError>(StepError::MissingValue),
                Some(b) => {
                    let out = edges_at(cfg.edges(), current, true);
                    let want = if b { Edge::True } else { Edge::False };
                    &&& (r is Ok <==> exists|k: int| 0 <= k < out.len() && out[k].2 == want)
                    &&& (r matches Ok(NodeEval::Next(n)) ==> exists|k: int| 0 <= k < out.len() && out[k].1 == n && out[k].2 == want)
                    &&& (r is Ok && (prev matches Some(p) && cfg.nodes()[p as int] is LoopHead) && old(state).stack@.len() > 0
                        && old(state).stack@.last() < cfg.nodes().len() ==> final(state).results@[old(state).stack@.last() as int] == b)
                    &&& final(state).stack@ == old(state).stack@
                    &&& final(state).results@ == (if r is Ok {
                        condition_results(cfg.nodes(), prev, old(state).stack@, old(state).results@, b)
                    } else {
                        old(state).results@
                    })
                },
            },
            Node::Block(bb) => match block_effect(old(env).values(), bb.0@, views(values@), 0) {
                Ok(m) => values@.len() == bb.0@.len() && single_next(*cfg, current) is Some ==> (r == Ok::<NodeEval, StepError>(
                    NodeEval::Next(single_next(*cfg, current)->0),
                ) && final(env).values() == m),
                Err(e) => values@.len() == bb.0@.len() ==> r == Err::<NodeEval, StepError>(e),
            },
            Node::Continue(_) => if old(state).stack@.len() == 0 {
                r == Err::<NodeEval, StepError>(StepError::Malformed)
            } else {
                old(state).stack@.last() < cfg.nodes().len() ==> (r == Ok::<NodeEval, StepError>(NodeEval::Next(old(state).stack@.last()))
                    && final(state).stack@ == old(state).stack@.drop_last())
            },
            Node::LoopFoot(_) => if old(state).stack@.len() == 0 {
                r == Err::<NodeEval, StepError>(StepError::Malformed)
            } else {
                let id = old(state).stack@.last();
                &&& (r is Ok ==> final(state).stack@ == old(state).stack@.drop_last())
                &&& (id < cfg.nodes().len() && old(state).results@[id as int] ==> r == Ok::<NodeEval, StepError>(NodeEval::Next(id)))
                &&& (r matches Ok(NodeEval::Next(n)) ==> (n != id ==> n < cfg.nodes().len() && !(cfg.nodes()[n as int] is LoopHead)))
                &&& (!(id < cfg.nodes().len() && old(state).results@[id as int]) ==> (r matches Ok(NodeEval::Next(n)) ==> n
                    < cfg.nodes().len() && !(cfg.nodes()[n as int] is LoopHead)))
            },
            Node::Break(d) => r is Ok ==> (r matches Ok(NodeEval::Next(n)) && n < cfg.nodes().len() && cfg.nodes()[n as int] is LoopFoot
                && (d.loop_id < cfg.nodes().len() ==> !final(state).results@[d.loop_id as int])),
        },
{
    match cfg.node_weight(current) {
        Node::End => Ok(NodeEval::Return),
        Node::Return(_) => Ok(NodeEval::Return),
        Node::Start | Node::BranchSplit(_) | Node::BranchMerge(_) | Node::EnterScope | Node::ExitScope => {
            match next_single(cfg, current) {
                Ok(n) => Ok(NodeEval::Next(n)),
                Err(e) => Err(e),
            }
        },
        Node::LoopHead(d) => {
            let n = match next_single(cfg, current) {
                Ok(n) => n,
                Err(e) => return Err(e),
            };
            state.stack.push(d.loop_id);
            Ok(NodeEval::Next(n))
        },
        Node::Condition(_) => {
            let b = match cond {
                Some(b) => b,
                None => return Err(StepError::MissingValue),
            };
            let es = cfg.edges_out(current);
            proof {
                crate::control_flow::lemma_edges_at_valid(cfg.edges(), current, true, cfg.nodes().len());
            }
            let want = if b { Edge::True } else { Edge::False };
            let target = match edge_target(&es, want) {
                Some(t) => t,
                None => return Err(StepError::Malformed),
            };
            let after_loop_head = match prev {
                Some(p) => match cfg.node_weight(p) {
                    Node::LoopHead(_) => true,
                    _ => false,
                },
                None => false,
            };
            if after_loop_head && state.stack.len() > 0 {
                let id = state.stack[state.stack.len() - 1];
                if id < state.results.len() {
                    state.results.set(id, b);
                }
            }
            Ok(NodeEval::Next(target))
        },
        Node::Block(bb) => {
            if values.len() != bb.0.len() {
                return Err(StepError::MissingValue);
            }
            run_block(env, &bb.0, values)?;
            match next_single(cfg, current) {
                Ok(n) => Ok(NodeEval::Next(n)),
                Err(e) => Err(e),
            }
        },
        Node::Continue(_) => {
            let id = match state.stack.pop() {
                Some(id) => id,
                None => return Err(StepError::Malformed),
            };
            if id < cfg.node_count() {
                Ok(NodeEval::Next(id))
            } else {
                Err(StepError::Malformed)
            }
        },
        Node::LoopFoot(_) => {
            if state.stack.len() == 0 {
                return Err(StepError::Malformed);
            }
            let id = state.stack[state.stack.len() - 1];
            if id < state.results.len() && state.results[id] {
                state.stack.pop();
                return Ok(NodeEval::Next(id));
            }
            let es = cfg.edges_out(current);
            proof {
                crate::control_flow::lemma_edges_at_valid(cfg.edges(), current, true, cfg.nodes().len());
            }
            let mut k: usize = 0;
            while k < es.len()
                invariant
                    k <= es@.len(),
                    es@ == edges_at(cfg.edges(), current, true),
                    forall|j: int| 0 <= j < es@.len() ==> es@[j].1 < cfg.nodes().len(),
                    state.results@ == old(state).results@,
                    state.stack@ == old(state).stack@,
                    state.stack@.len() > 0,
                    id == state.stack@.last(),
                    !(id < cfg.nodes().len() && state.results@[id as int]),
                decreases es.len() - k,
            {
                let n = es[k].1;
                let is_head = match cfg.node_weight(n) {
                    Node::LoopHead(_) => true,
                    _ => false,
                };
                if !is_head {
                    state.stack.pop();
                    return Ok(NodeEval::Next(n));
                }
                k = k + 1;
            }
            Err(StepError::Malformed)
        },
        Node::Break(d) => {
            let es = cfg.edges_out(current);
            proof {
                crate::control_flow::lemma_edges_at_valid(cfg.edges(), current, true, cfg.nodes().len());
            }
            let mut k: usize = 0;
            while k < es.len()
                invariant
                    k <= es@.len(),
                    es@ == edges_at(cfg.edges(), current, true),
                    forall|j: int| 0 <= j < es@.len() ==> es@[j].1 < cfg.nodes().len(),
                    state.results@.len() == cfg.nodes().len(),
                    state.results@ == old(state).results@,
                    state.stack@ == old(state).stack@,
                decreases es.len() - k,
            {
                let n = es[k].1;
                let is_foot = match cfg.node_weight(n) {
                    Node::LoopFoot(_) => true,
                    _ => false,
                };
                if is_foot {
                    let id = d.loop_id;
                    if id < state.results.len() {
                        state.results.set(id, false);
                    }
                    return Ok(NodeEval::Next(n));
                }
                k = k + 1;
            }
            Err(StepError::Malformed)
        },
    }
}

} // verus!
