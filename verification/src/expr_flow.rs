//! Flattening of expression trees into a sequence of temporaries in execution order.
//!
//! Each temporary is identified by its index in the sequence; the operands of a
//! temporary are always temporaries that come before it, so evaluating the sequence
//! from first to last evaluates every operand before it is used.

use vstd::prelude::*;

use crate::ast::{
    ArrayInit, BinOp, Expr as AstExpr, FnCall as AstFnCall, FnCallChain, Ident, Literal, ModulePath, Path,
    PathSegment, StructInit as AstStructInit, UniOp,
};
use crate::span::Span;

verus! {

/// A segment of a flattened field access path; an indexing refers to the
/// temporary that holds the index.
pub enum Segment {
    Ident(Ident),
    Indexing(Ident, u64),
}

/// The value computed by one temporary. Operands are indices of earlier temporaries.
pub enum Value {
    Literal(Literal),
    Binding(Ident),
    FieldAccess(Vec<Segment>),
    ModAccess(ModulePath),
    FnCall(ModulePath, Option<Vec<u64>>),
    BinExpr(BinOp, u64, u64),
    UniExpr(UniOp, u64),
    Indexing(u64, u64),
    StructInit(ModulePath, Option<Vec<(Ident, u64)>>),
    ArrayInitList(Vec<u64>),
    ArrayInitValue(u64, u64),
    AnonymousFn,
}

/// The content of a [`Value`], with its paths and operand lists as sequences.
pub enum ValueView {
    Literal(Literal),
    Binding(Ident),
    FieldAccess(Seq<Segment>),
    ModAccess(Seq<Ident>),
    FnCall(Seq<Ident>, Option<Seq<u64>>),
    BinExpr(BinOp, u64, u64),
    UniExpr(UniOp, u64),
    Indexing(u64, u64),
    StructInit(Seq<Ident>, Option<Seq<(Ident, u64)>>),
    ArrayInitList(Seq<u64>),
    ArrayInitValue(u64, u64),
    AnonymousFn,
}

impl View for Value {
    type V = ValueView;

    open spec fn view(&self) -> ValueView {
        match *self {
            Value::Literal(l) => ValueView::Literal(l),
            Value::Binding(n) => ValueView::Binding(n),
            Value::FieldAccess(segs) => ValueView::FieldAccess(segs@),
            Value::ModAccess(p) => ValueView::ModAccess(p.0@),
            Value::FnCall(p, args) => ValueView::FnCall(
                p.0@,
                match args {
                    Some(a) => Some(a@),
                    None => None,
                },
            ),
            Value::BinExpr(op, a, b) => ValueView::BinExpr(op, a, b),
            Value::UniExpr(op, a) => ValueView::UniExpr(op, a),
            Value::Indexing(a, b) => ValueView::Indexing(a, b),
            Value::StructInit(p, fields) => ValueView::StructInit(
                p.0@,
                match fields {
                    Some(f) => Some(f@),
                    None => None,
                },
            ),
            Value::ArrayInitList(es) => ValueView::ArrayInitList(es@),
            Value::ArrayInitValue(a, n) => ValueView::ArrayInitValue(a, n),
            Value::AnonymousFn => ValueView::AnonymousFn,
        }
    }
}

pub struct Tmp {
    pub value: Value,
    pub span: Span,
}

/// The contents of the values of a sequence of temporaries.
pub open spec fn tmp_views(tmps: Seq<Tmp>) -> Seq<ValueView> {
    tmps.map_values(|t: Tmp| t.value@)
}

/// A flattened expression: its temporaries in execution order. The last one holds
/// the value of the whole expression.
pub struct Expr {
    pub tmps: Vec<Tmp>,
}

/// Every operand of `v` is a temporary with index below `bound`.
pub open spec fn refs_below(v: Value, bound: int) -> bool {
    match v {
        Value::BinExpr(_, a, b) => a < bound && b < bound,
        Value::UniExpr(_, a) => a < bound,
        Value::Indexing(a, b) => a < bound && b < bound,
        Value::ArrayInitValue(a, _) => a < bound,
        Value::ArrayInitList(es) => forall|k: int| 0 <= k < es@.len() ==> es@[k] < bound,
        Value::FnCall(_, Some(args)) => forall|k: int| 0 <= k < args@.len() ==> args@[k] < bound,
        Value::StructInit(_, Some(fs)) => forall|k: int| 0 <= k < fs@.len() ==> fs@[k].1 < bound,
        Value::FieldAccess(segs) => forall|k: int|
            0 <= k < segs@.len() ==> (#[trigger] segs@[k] matches Segment::Indexing(_, t) ==> t < bound),
        _ => true,
    }
}

/// Every temporary only uses temporaries that come before it.
pub open spec fn well_ordered(tmps: Seq<Tmp>) -> bool {
    forall|i: int| 0 <= i < tmps.len() ==> refs_below(#[trigger] tmps[i].value, i)
}

/// `new` extends `old` with at least one temporary and keeps it well ordered.
pub open spec fn extends(old: Seq<Tmp>, new: Seq<Tmp>) -> bool {
    &&& new.len() > old.len()
    &&& new.subrange(0, old.len() as int) == old
    &&& well_ordered(new)
}

/// Temporary `id` of `tmps` computes the expression `e`: it holds the operation at
/// the root of `e`, and its operands are earlier temporaries that compute the
/// subexpressions of `e`, in order.
pub open spec fn encodes(tmps: Seq<Tmp>, id: int, e: AstExpr) -> bool
    decreases e, 0int,
{
    0 <= id < tmps.len() && match e {
        AstExpr::Bin(b) => match tmps[id].value {
            Value::BinExpr(op, l, r) => op == b.op && l < id && r < id && encodes(tmps, l as int, *b.lhs)
                && encodes(tmps, r as int, *b.rhs),
            _ => false,
        },
        AstExpr::Uni(u) => match tmps[id].value {
            Value::UniExpr(op, x) => op == u.op && x < id && encodes(tmps, x as int, *u.expr),
            _ => false,
        },
        AstExpr::Literal(l) => tmps[id].value == Value::Literal(l),
        AstExpr::Binding(n) => tmps[id].value == Value::Binding(n),
        AstExpr::ModAccess(p) => match tmps[id].value {
            Value::ModAccess(q) => q.0@ == p.0@,
            _ => false,
        },
        AstExpr::FieldAccess(path) => match tmps[id].value {
            Value::FieldAccess(segs) => segs_encode(tmps, id, segs@, path.0@),
            _ => false,
        },
        AstExpr::FnCall(c) => match tmps[id].value {
            Value::FnCall(p, args) => p.0@ == c.path.0@ && match c.args {
                None => args is None,
                Some(es) => match args {
                    Some(ids) => all_encode(tmps, id, ids@, es@),
                    None => false,
                },
            },
            _ => false,
        },
        AstExpr::FnCallChain(ch) => chain_encodes(tmps, id, ch, ch.chain@.len() as int),
        AstExpr::Indexing(ix) => match tmps[id].value {
            Value::Indexing(a, i) => a < id && i < id && encodes(tmps, a as int, *ix.array) && encodes(
                tmps,
                i as int,
                *ix.indexer,
            ),
            _ => false,
        },
        AstExpr::StructInit(init) => match tmps[id].value {
            Value::StructInit(name, fields) => name.0@ == init.struct_name.0@ && match init.field_init {
                None => fields is None,
                Some(fs) => match fields {
                    Some(ids) => fields_encode(tmps, id, ids@, fs@),
                    None => false,
                },
            },
            _ => false,
        },
        AstExpr::ArrayInit(ArrayInit::InitList(list)) => match tmps[id].value {
            Value::ArrayInitList(ids) => all_encode(tmps, id, ids@, list@),
            _ => false,
        },
        AstExpr::ArrayInit(ArrayInit::Value(v, n)) => match tmps[id].value {
            Value::ArrayInitValue(x, m) => m == n && x < id && encodes(tmps, x as int, *v),
            _ => false,
        },
        AstExpr::AnonymousFn(_) => tmps[id].value == Value::AnonymousFn,
    }
}

/// The temporaries `ids`, all before `id`, compute the expressions `es`, one for one.
pub open spec fn all_encode(tmps: Seq<Tmp>, id: int, ids: Seq<u64>, es: Seq<AstExpr>) -> bool
    decreases es, 1int,
{
    &&& ids.len() == es.len()
    &&& forall|k: int| 0 <= k < ids.len() ==> #[trigger] ids[k] < id
    &&& forall|k: int| 0 <= k < ids.len() ==> encodes(tmps, ids[k] as int, #[trigger] es[k])
}

/// A flattened path segment names the same field as `p`; an indexing refers to a
/// temporary before `id`.
pub open spec fn segment_matches(s: Segment, p: PathSegment, id: int) -> bool {
    match (p, s) {
        (PathSegment::Ident(n), Segment::Ident(m)) => n == m,
        (PathSegment::Indexing(n, _), Segment::Indexing(m, t)) => n == m && t < id,
        _ => false,
    }
}

/// The flattened segments `segs` stand for the path segments `ps`, one for one,
/// each index temporary computing the index expression.
pub open spec fn segs_encode(tmps: Seq<Tmp>, id: int, segs: Seq<Segment>, ps: Seq<PathSegment>) -> bool
    decreases ps, 1int,
{
    &&& segs.len() == ps.len()
    &&& forall|k: int| 0 <= k < segs.len() ==> segment_matches(#[trigger] segs[k], ps[k], id)
    &&& forall|k: int| 0 <= k < segs.len() ==> match #[trigger] ps[k] {
        PathSegment::Indexing(_, x) => match segs[k] {
            Segment::Indexing(_, t) => encodes(tmps, t as int, *x),
            _ => false,
        },
        _ => true,
    }
}

/// The temporaries of `ids`, all before `id`, compute the field initializers `fs`,
/// one for one and under the same field names.
pub open spec fn fields_encode(tmps: Seq<Tmp>, id: int, ids: Seq<(Ident, u64)>, fs: Seq<(Ident, Box<AstExpr>)>) -> bool
    decreases fs, 1int,
{
    &&& ids.len() == fs.len()
    &&& forall|k: int| 0 <= k < ids.len() ==> (#[trigger] ids[k]).0 == fs[k].0 && ids[k].1 < id
    &&& forall|k: int| 0 <= k < ids.len() ==> encodes(tmps, ids[k].1 as int, *(#[trigger] fs[k]).1)
}

/// Temporary `id` computes the call chain `ch` cut after its first `n` piped
/// calls: `n == 0` is the base call; each piped call passes the previous call's
/// temporary as its first argument, before its own arguments.
pub open spec fn chain_encodes(tmps: Seq<Tmp>, id: int, ch: FnCallChain, n: int) -> bool
    decreases ch, n,
{
    if n <= 0 {
        0 <= id < tmps.len() && match tmps[id].value {
            Value::FnCall(p, args) => p.0@ == ch.base.path.0@ && match ch.base.args {
                None => args is None,
                Some(es) => match args {
                    Some(ids) => all_encode(tmps, id, ids@, es@),
                    None => false,
                },
            },
            _ => false,
        }
    } else if n <= ch.chain@.len() {
        0 <= id < tmps.len() && match tmps[id].value {
            Value::FnCall(p, Some(all)) => p.0@ == ch.chain@[n - 1].path.0@ && all@.len() >= 1 && all@[0] < id
                && chain_encodes(tmps, all@[0] as int, ch, n - 1) && match ch.chain@[n - 1].args {
                None => all@.len() == 1,
                Some(es) => all_encode(tmps, id, all@.drop_first(), es@),
            },
            _ => false,
        }
    } else {
        false
    }
}

/// What flattening `e` appends, when its first temporary gets index `base`: the
/// temporaries of the operands, left to right, each operand's last temporary
/// holding its value, and then the temporary of `e` itself.
pub open spec fn flat_view(e: AstExpr, base: int) -> Seq<ValueView>
    decreases e, 0int,
{
    match e {
        AstExpr::Bin(b) => {
            let l = flat_view(*b.lhs, base);
            let r = flat_view(*b.rhs, base + l.len());
            (l + r).push(ValueView::BinExpr(b.op, (base + l.len() - 1) as u64, (base + l.len() + r.len() - 1) as u64))
        },
        AstExpr::Uni(u) => {
            let x = flat_view(*u.expr, base);
            x.push(ValueView::UniExpr(u.op, (base + x.len() - 1) as u64))
        },
        AstExpr::Literal(l) => seq![ValueView::Literal(l)],
        AstExpr::Binding(n) => seq![ValueView::Binding(n)],
        AstExpr::ModAccess(p) => seq![ValueView::ModAccess(p.0@)],
        AstExpr::FieldAccess(path) => segs_view(path.0@, base).push(
            ValueView::FieldAccess(segs_of(path.0@, base)),
        ),
        AstExpr::FnCall(c) => call_view(c, base),
        AstExpr::FnCallChain(ch) => chain_view(ch, base, ch.chain@.len() as int),
        AstExpr::Indexing(ix) => {
            let a = flat_view(*ix.array, base);
            let i = flat_view(*ix.indexer, base + a.len());
            (a + i).push(ValueView::Indexing((base + a.len() - 1) as u64, (base + a.len() + i.len() - 1) as u64))
        },
        AstExpr::StructInit(init) => match init.field_init {
            None => seq![ValueView::StructInit(init.struct_name.0@, None)],
            Some(fs) => fields_view(fs@, base).push(
                ValueView::StructInit(init.struct_name.0@, Some(field_ids(fs@, base))),
            ),
        },
        AstExpr::ArrayInit(ArrayInit::InitList(list)) => list_view(list@, base).push(
            ValueView::ArrayInitList(list_ids(list@, base)),
        ),
        AstExpr::ArrayInit(ArrayInit::Value(v, n)) => {
            let x = flat_view(*v, base);
            x.push(ValueView::ArrayInitValue((base + x.len() - 1) as u64, n))
        },
        AstExpr::AnonymousFn(_) => seq![ValueView::AnonymousFn],
    }
}

/// What flattening the expressions `es` one after the other appends.
pub open spec fn list_view(es: Seq<AstExpr>, base: int) -> Seq<ValueView>
    decreases es, es.len(),
{
    if es.len() == 0 {
        Seq::empty()
    } else {
        let init = list_view(es.drop_last(), base);
        init + flat_view(es.last(), base + init.len())
    }
}

/// The indices of the temporaries that hold the values of `es`, flattened one
/// after the other from index `base`.
pub open spec fn list_ids(es: Seq<AstExpr>, base: int) -> Seq<u64>
    decreases es, es.len() + 1,
{
    if es.len() == 0 {
        Seq::empty()
    } else {
        list_ids(es.drop_last(), base).push((base + list_view(es, base).len() - 1) as u64)
    }
}

/// What flattening the arguments of a call and then the call appends.
pub open spec fn call_view(c: AstFnCall, base: int) -> Seq<ValueView>
    decreases c, 0int,
{
    match c.args {
        None => seq![ValueView::FnCall(c.path.0@, None)],
        Some(es) => list_view(es@, base).push(ValueView::FnCall(c.path.0@, Some(list_ids(es@, base)))),
    }
}

/// What flattening a call chain cut after its first `n` piped calls appends:
/// each piped call gets the previous call's temporary as its first argument.
pub open spec fn chain_view(ch: FnCallChain, base: int, n: int) -> Seq<ValueView>
    decreases ch, n,
{
    if n <= 0 || n > ch.chain@.len() {
        call_view(ch.base, base)
    } else {
        let prev = chain_view(ch, base, n - 1);
        let prev_id = (base + prev.len() - 1) as u64;
        let c = ch.chain@[n - 1];
        match c.args {
            None => prev.push(ValueView::FnCall(c.path.0@, Some(seq![prev_id]))),
            Some(es) => (prev + list_view(es@, base + prev.len())).push(
                ValueView::FnCall(c.path.0@, Some(seq![prev_id] + list_ids(es@, base + prev.len()))),
            ),
        }
    }
}

/// What flattening the index expressions of the path segments `ps` appends.
pub open spec fn segs_view(ps: Seq<PathSegment>, base: int) -> Seq<ValueView>
    decreases ps, ps.len(),
{
    if ps.len() == 0 {
        Seq::empty()
    } else {
        let init = segs_view(ps.drop_last(), base);
        match ps.last() {
            PathSegment::Ident(_) => init,
            PathSegment::Indexing(_, x) => init + flat_view(*x, base + init.len()),
        }
    }
}

/// The flattened segments of the path segments `ps`, whose index expressions are
/// flattened from index `base`.
pub open spec fn segs_of(ps: Seq<PathSegment>, base: int) -> Seq<Segment>
    decreases ps, ps.len() + 1,
{
    if ps.len() == 0 {
        Seq::empty()
    } else {
        segs_of(ps.drop_last(), base).push(
            match ps.last() {
                PathSegment::Ident(n) => Segment::Ident(n),
                PathSegment::Indexing(n, _) => Segment::Indexing(n, (base + segs_view(ps, base).len() - 1) as u64),
            },
        )
    }
}

/// What flattening the initializers of the fields `fs` one after the other appends.
pub open spec fn fields_view(fs: Seq<(Ident, Box<AstExpr>)>, base: int) -> Seq<ValueView>
    decreases fs, fs.len(),
{
    if fs.len() == 0 {
        Seq::empty()
    } else {
        let init = fields_view(fs.drop_last(), base);
        init + flat_view(*fs.last().1, base + init.len())
    }
}

/// The field names of `fs` with the indices of the temporaries that hold their
/// initial values.
pub open spec fn field_ids(fs: Seq<(Ident, Box<AstExpr>)>, base: int) -> Seq<(Ident, u64)>
    decreases fs, fs.len() + 1,
{
    if fs.len() == 0 {
        Seq::empty()
    } else {
        field_ids(fs.drop_last(), base).push((fs.last().0, (base + fields_view(fs, base).len() - 1) as u64))
    }
}

/// Every temporary of `tmps` carries the span `span`.
pub open spec fn spans_all(tmps: Seq<Tmp>, span: Span) -> bool {
    forall|k: int| 0 <= k < tmps.len() ==> (#[trigger] tmps[k]).span == span
}

/// `new` starts with `old`.
pub open spec fn prefix_of(old: Seq<Tmp>, new: Seq<Tmp>) -> bool {
    new.len() >= old.len() && new.subrange(0, old.len() as int) == old
}

/// What a temporary computes stays so when temporaries are appended.
pub proof fn lemma_encodes_extend(old: Seq<Tmp>, new: Seq<Tmp>, id: int, e: AstExpr)
    requires
        prefix_of(old, new),
        encodes(old, id, e),
    ensures
        encodes(new, id, e),
    decreases e, 0int,
{
    assert(new[id] == old[id]);
    match e {
        AstExpr::Bin(b) => {
            if let Value::BinExpr(op, l, r) = old[id].value {
                lemma_encodes_extend(old, new, l as int, *b.lhs);
                lemma_encodes_extend(old, new, r as int, *b.rhs);
            }
        },
        AstExpr::Uni(u) => {
            if let Value::UniExpr(op, x) = old[id].value {
                lemma_encodes_extend(old, new, x as int, *u.expr);
            }
        },
        AstExpr::FieldAccess(path) => {
            if let Value::FieldAccess(segs) = old[id].value {
                lemma_segs_encode_extend(old, new, id, segs@, path.0@);
            }
        },
        AstExpr::FnCall(c) => {
            if let Value::FnCall(p, Some(ids)) = old[id].value {
                if let Some(es) = c.args {
                    lemma_all_encode_extend(old, new, id, ids@, es@);
                }
            }
        },
        AstExpr::FnCallChain(ch) => {
            lemma_chain_encodes_extend(old, new, id, ch, ch.chain@.len() as int);
        },
        AstExpr::Indexing(ix) => {
            if let Value::Indexing(a, i) = old[id].value {
                lemma_encodes_extend(old, new, a as int, *ix.array);
                lemma_encodes_extend(old, new, i as int, *ix.indexer);
            }
        },
        AstExpr::StructInit(init) => {
            if let Value::StructInit(name, Some(ids)) = old[id].value {
                if let Some(fs) = init.field_init {
                    lemma_fields_encode_extend(old, new, id, ids@, fs@);
                }
            }
        },
        AstExpr::ArrayInit(ArrayInit::InitList(list)) => {
            if let Value::ArrayInitList(ids) = old[id].value {
                lemma_all_encode_extend(old, new, id, ids@, list@);
            }
        },
        AstExpr::ArrayInit(ArrayInit::Value(v, n)) => {
            if let Value::ArrayInitValue(x, m) = old[id].value {
                lemma_encodes_extend(old, new, x as int, *v);
            }
        },
        _ => {},
    }
}

/// What temporaries compute of a list of expressions stays so when temporaries
/// are appended.
pub proof fn lemma_all_encode_extend(old: Seq<Tmp>, new: Seq<Tmp>, id: int, ids: Seq<u64>, es: Seq<AstExpr>)
    requires
        prefix_of(old, new),
        all_encode(old, id, ids, es),
    ensures
        all_encode(new, id, ids, es),
    decreases es, 1int,
{
    assert forall|k: int| 0 <= k < ids.len() implies encodes(new, ids[k] as int, #[trigger] es[k]) by {
        lemma_encodes_extend(old, new, ids[k] as int, es[k]);
    }
}

/// What the temporaries of flattened path segments compute stays so when
/// temporaries are appended.
pub proof fn lemma_segs_encode_extend(old: Seq<Tmp>, new: Seq<Tmp>, id: int, segs: Seq<Segment>, ps: Seq<PathSegment>)
    requires
        prefix_of(old, new),
        segs_encode(old, id, segs, ps),
    ensures
        segs_encode(new, id, segs, ps),
    decreases ps, 1int,
{
    assert forall|k: int| 0 <= k < segs.len() implies match #[trigger] ps[k] {
        PathSegment::Indexing(_, x) => match segs[k] {
            Segment::Indexing(_, t) => encodes(new, t as int, *x),
            _ => false,
        },
        _ => true,
    } by {
        if let PathSegment::Indexing(_, x) = ps[k] {
            if let Segment::Indexing(_, t) = segs[k] {
                lemma_encodes_extend(old, new, t as int, *x);
            }
        }
    }
}

/// What temporaries compute of field initializers stays so when temporaries are
/// appended.
pub proof fn lemma_fields_encode_extend(
    old: Seq<Tmp>,
    new: Seq<Tmp>,
    id: int,
    ids: Seq<(Ident, u64)>,
    fs: Seq<(Ident, Box<AstExpr>)>,
)
    requires
        prefix_of(old, new),
        fields_encode(old, id, ids, fs),
    ensures
        fields_encode(new, id, ids, fs),
    decreases fs, 1int,
{
    assert forall|k: int| 0 <= k < ids.len() implies encodes(new, ids[k].1 as int, *(#[trigger] fs[k]).1) by {
        lemma_encodes_extend(old, new, ids[k].1 as int, *fs[k].1);
    }
}

/// What a temporary computes of a call chain stays so when temporaries are appended.
pub proof fn lemma_chain_encodes_extend(old: Seq<Tmp>, new: Seq<Tmp>, id: int, ch: FnCallChain, n: int)
    requires
        prefix_of(old, new),
        chain_encodes(old, id, ch, n),
    ensures
        chain_encodes(new, id, ch, n),
    decreases ch, n,
{
    assert(new[id] == old[id]);
    if n <= 0 {
        if let Value::FnCall(p, Some(ids)) = old[id].value {
            if let Some(es) = ch.base.args {
                lemma_all_encode_extend(old, new, id, ids@, es@);
            }
        }
    } else {
        if let Value::FnCall(p, Some(all)) = old[id].value {
            lemma_chain_encodes_extend(old, new, all@[0] as int, ch, n - 1);
            if let Some(es) = ch.chain@[n - 1].args {
                lemma_all_encode_extend(old, new, id, all@.drop_first(), es@);
            }
        }
    }
}

impl Expr {
    /// The indices of the temporaries in execution order.
    pub fn execution_order(&self) -> (r: Vec<u64>)
        ensures
            r@.len() == self.tmps@.len(),
            forall|i: int| 0 <= i < r@.len() ==> r@[i] == i,
    {
        let mut order: Vec<u64> = Vec::new();
        let mut i: usize = 0;
        while i < self.tmps.len()
            invariant
                i <= self.tmps@.len(),
                order@.len() == i,
                forall|j: int| 0 <= j < i ==> order@[j] == j,
            decreases self.tmps.len() - i,
        {
            order.push(i as u64);
            i = i + 1;
        }
        order
    }

    /// The temporary with the given index.
    pub fn get_tmp(&self, id: u64) -> (r: &Tmp)
        requires
            id < self.tmps@.len(),
        ensures
            *r == self.tmps@[id as int],
    {
        let n = self.tmps.len();
        assert(id < n);
        let i = id as usize;
        &self.tmps[i]
    }

    /// The index of the temporary that holds the value of the whole expression.
    pub fn last(&self) -> (r: u64)
        requires
            self.tmps@.len() > 0,
        ensures
            r == self.tmps@.len() - 1,
    {
        (self.tmps.len() - 1) as u64
    }
}

fn dup_literal(l: &Literal) -> (r: Literal)
    ensures
        r == *l,
{
    match l {
        Literal::Int(i) => Literal::Int(*i),
        Literal::Float(f) => Literal::Float(f.clone()),
        Literal::String(s) => Literal::String(s.clone()),
        Literal::Bool(b) => Literal::Bool(*b),
    }
}

/// A prefix of a prefix is a prefix.
proof fn lemma_prefix_trans(a: Seq<Tmp>, b: Seq<Tmp>, c: Seq<Tmp>)
    requires
        b.len() >= a.len(),
        c.len() >= b.len(),
        b.subrange(0, a.len() as int) == a,
        c.subrange(0, b.len() as int) == b,
    ensures
        c.subrange(0, a.len() as int) == a,
{
    assert(c.subrange(0, a.len() as int) =~= b.subrange(0, a.len() as int));
}

/// Appends a temporary whose operands are all below the current length.
fn push_tmp(tmps: &mut Vec<Tmp>, value: Value, span: Span) -> (id: u64)
    requires
        spans_all(old(tmps)@, span),
        well_ordered(old(tmps)@),
        refs_below(value, old(tmps)@.len() as int),
    ensures
        spans_all(final(tmps)@, span),
        extends(old(tmps)@, final(tmps)@),
        final(tmps)@.len() == old(tmps)@.len() + 1,
        final(tmps)@[old(tmps)@.len() as int] == (Tmp { value, span }),
        tmp_views(final(tmps)@) == tmp_views(old(tmps)@).push(value@),
        id == old(tmps)@.len(),
{
    let id = tmps.len() as u64;
    let ghost before = tmps@;
    tmps.push(Tmp { value, span });
    assert(final(tmps)@.subrange(0, old(tmps)@.len() as int) =~= old(tmps)@);
    assert forall|k: int| 0 <= k < tmps@.len() implies (#[trigger] tmps@[k]).span == span by {
        if k < before.len() {
            assert(tmps@[k] == before[k]);
        }
    }
    assert(tmp_views(final(tmps)@) =~= tmp_views(old(tmps)@).push(value@));
    id
}

/// Flattens the expressions `es` one after the other and returns the indices of
/// the temporaries that hold their values.
#[verifier::loop_isolation(false)]
fn flatten_list(es: &Vec<AstExpr>, tmps: &mut Vec<Tmp>, span: Span) -> (ids: Vec<u64>)
    requires
        spans_all(old(tmps)@, span),
        well_ordered(old(tmps)@),
    ensures
        spans_all(final(tmps)@, span),
        well_ordered(final(tmps)@),
        prefix_of(old(tmps)@, final(tmps)@),
        tmp_views(final(tmps)@) == tmp_views(old(tmps)@) + list_view(es@, old(tmps)@.len() as int),
        ids@ == list_ids(es@, old(tmps)@.len() as int),
        all_encode(final(tmps)@, final(tmps)@.len() as int, ids@, es@),
    decreases es, 0nat,
{
    let ghost start = tmps@;
    let ghost n0 = start.len() as int;
    let mut ids: Vec<u64> = Vec::new();
    let mut i: usize = 0;
    assert(tmps@.subrange(0, start.len() as int) =~= start);
    assert(es@.take(0) =~= Seq::<AstExpr>::empty());
    assert(tmp_views(tmps@) =~= tmp_views(start) + list_view(es@.take(0), n0));
    while i < es.len()
        invariant
        spans_all(tmps@, span),
            i <= es@.len(),
            n0 == start.len(),
            well_ordered(tmps@),
            prefix_of(start, tmps@),
            tmp_views(tmps@) == tmp_views(start) + list_view(es@.take(i as int), n0),
            ids@ == list_ids(es@.take(i as int), n0),
            ids@.len() == i,
            forall|k: int| 0 <= k < ids@.len() ==> #[trigger] ids@[k] < tmps@.len(),
            forall|k: int| 0 <= k < ids@.len() ==> encodes(tmps@, ids@[k] as int, #[trigger] es@[k]),
        decreases es.len() - i,
    {
        proof {
            vstd::std_specs::vec::axiom_vec_index_decreases(*es, i as int);
        }
        let ghost before = tmps@;
        let ghost before_ids = ids@;
        let id = flatten_expr(&es[i], tmps, span);
        ids.push(id);
        proof {
            assert(tmps@.subrange(0, start.len() as int) =~= before.subrange(0, start.len() as int));
            let t = es@.take(i + 1);
            assert(t.drop_last() =~= es@.take(i as int));
            assert(t.last() == es@[i as int]);
            assert(tmp_views(before).len() == before.len());
            assert(tmp_views(tmps@) =~= tmp_views(start) + list_view(t, n0));
            assert(ids@ =~= list_ids(t, n0));
            assert forall|k: int| 0 <= k < ids@.len() implies encodes(tmps@, ids@[k] as int, #[trigger] es@[k]) by {
                if k < i {
                    assert(ids@[k] == before_ids[k]);
                    lemma_encodes_extend(before, tmps@, ids@[k] as int, es@[k]);
                }
            }
        }
        i = i + 1;
    }
    assert(es@.take(es@.len() as int) =~= es@);
    ids
}

/// Flattens a call's arguments, in order, and returns the call's path and the
/// temporaries of its arguments.
fn flatten_fn_call(call: &AstFnCall, tmps: &mut Vec<Tmp>, span: Span) -> (r: (ModulePath, Option<Vec<u64>>))
    requires
        spans_all(old(tmps)@, span),
        well_ordered(old(tmps)@),
    ensures
        spans_all(final(tmps)@, span),
        well_ordered(final(tmps)@),
        prefix_of(old(tmps)@, final(tmps)@),
        refs_below(Value::FnCall(r.0, r.1), final(tmps)@.len() as int),
        r.0.0@ == call.path.0@,
        match call.args {
            None => r.1 is None && final(tmps)@ == old(tmps)@,
            Some(es) => r.1 matches Some(ids) && all_encode(final(tmps)@, final(tmps)@.len() as int, ids@, es@)
                && ids@ == list_ids(es@, old(tmps)@.len() as int) && tmp_views(final(tmps)@) == tmp_views(old(tmps)@)
                + list_view(es@, old(tmps)@.len() as int),
        },
    decreases call, 0nat,
{
    let path = call.path.duplicate();
    match &call.args {
        None => {
            assert(tmps@.subrange(0, tmps@.len() as int) =~= tmps@);
            (path, None)
        },
        Some(args) => {
            let ids = flatten_list(args, tmps, span);
            (path, Some(ids))
        },
    }
}

/// Flattens the indexing expressions of a field access path, appending their
/// temporaries, and returns the path's segments.
#[verifier::loop_isolation(false)]
fn flatten_path_into(path: &Path, tmps: &mut Vec<Tmp>, span: Span) -> (segs: Vec<Segment>)
    requires
        spans_all(old(tmps)@, span),
        well_ordered(old(tmps)@),
    ensures
        spans_all(final(tmps)@, span),
        well_ordered(final(tmps)@),
        prefix_of(old(tmps)@, final(tmps)@),
        refs_below(Value::FieldAccess(segs), final(tmps)@.len() as int),
        segs_encode(final(tmps)@, final(tmps)@.len() as int, segs@, path.0@),
        tmp_views(final(tmps)@) == tmp_views(old(tmps)@) + segs_view(path.0@, old(tmps)@.len() as int),
        segs@ == segs_of(path.0@, old(tmps)@.len() as int),
    decreases path, 0nat,
{
    let ghost start = tmps@;
    let ghost n0 = start.len() as int;
    let mut segs: Vec<Segment> = Vec::new();
    let mut i: usize = 0;
    assert(tmps@.subrange(0, start.len() as int) =~= start);
    assert(path.0@.take(0) =~= Seq::<PathSegment>::empty());
    assert(tmp_views(tmps@) =~= tmp_views(start) + segs_view(path.0@.take(0), n0));
    while i < path.0.len()
        invariant
        spans_all(tmps@, span),
            i <= path.0@.len(),
            n0 == start.len(),
            well_ordered(tmps@),
            prefix_of(start, tmps@),
            segs@.len() == i,
            tmp_views(tmps@) == tmp_views(start) + segs_view(path.0@.take(i as int), n0),
            segs@ == segs_of(path.0@.take(i as int), n0),
            forall|k: int|
                0 <= k < segs@.len() ==> segment_matches(#[trigger] segs@[k], path.0@[k], tmps@.len() as int),
            forall|k: int| 0 <= k < segs@.len() ==> match #[trigger] path.0@[k] {
                PathSegment::Indexing(_, x) => match segs@[k] {
                    Segment::Indexing(_, t) => encodes(tmps@, t as int, *x),
                    _ => false,
                },
                _ => true,
            },
        decreases path.0.len() - i,
    {
        proof {
            vstd::std_specs::vec::axiom_vec_index_decreases(path.0, i as int);
        }
        let ghost before = tmps@;
        let ghost before_segs = segs@;
        let ghost t = path.0@.take(i + 1);
        assert(t.drop_last() =~= path.0@.take(i as int));
        assert(t.last() == path.0@[i as int]);
        match &path.0[i] {
            PathSegment::Ident(name) => {
                segs.push(Segment::Ident(name.duplicate()));
                assert(tmp_views(tmps@) =~= tmp_views(start) + segs_view(t, n0));
            },
            PathSegment::Indexing(name, indexer) => {
                let id = flatten_expr(indexer, tmps, span);
                assert(tmps@.subrange(0, start.len() as int) =~= before.subrange(
                    0,
                    start.len() as int,
                ));
                segs.push(Segment::Indexing(name.duplicate(), id));
                assert(tmp_views(before).len() == before.len());
                assert(tmp_views(tmps@) =~= tmp_views(start) + segs_view(t, n0));
            },
        }
        proof {
            assert(segs@ =~= segs_of(t, n0));
            assert(tmps@.subrange(0, before.len() as int) =~= before);
            assert forall|k: int| 0 <= k < segs@.len() implies segment_matches(
                #[trigger] segs@[k],
                path.0@[k],
                tmps@.len() as int,
            ) by {
                if k < i {
                    assert(segs@[k] == before_segs[k]);
                }
            }
            assert forall|k: int| 0 <= k < segs@.len() implies match #[trigger] path.0@[k] {
                PathSegment::Indexing(_, x) => match segs@[k] {
                    Segment::Indexing(_, t) => encodes(tmps@, t as int, *x),
                    _ => false,
                },
                _ => true,
            } by {
                if k < i {
                    assert(segs@[k] == before_segs[k]);
                    if let PathSegment::Indexing(_, x) = path.0@[k] {
                        if let Segment::Indexing(_, t) = segs@[k] {
                            lemma_encodes_extend(before, tmps@, t as int, *x);
                        }
                    }
                }
            }
        }
        i = i + 1;
    }
    assert(path.0@.take(path.0@.len() as int) =~= path.0@);
    segs
}

/// Flattens a call chain: the base call, then each piped call with the previous
/// call's temporary as its first argument.
#[verifier::loop_isolation(false)]
#[verifier::rlimit(30)]
fn flatten_chain(chain: &FnCallChain, tmps: &mut Vec<Tmp>, span: Span) -> (id: u64)
    requires
        spans_all(old(tmps)@, span),
        well_ordered(old(tmps)@),
    ensures
        spans_all(final(tmps)@, span),
        extends(old(tmps)@, final(tmps)@),
        id == final(tmps)@.len() - 1,
        chain_encodes(final(tmps)@, id as int, *chain, chain.chain@.len() as int),
        tmp_views(final(tmps)@) == tmp_views(old(tmps)@) + chain_view(*chain, old(tmps)@.len() as int, chain.chain@.len() as int),
    decreases chain, 0nat,
{
    let ghost start = tmps@;
    let ghost n0 = start.len() as int;
    let (path, args) = flatten_fn_call(&chain.base, tmps, span);
    let ghost mid0 = tmps@;
    let ghost av = args;
    let mut last = push_tmp(tmps, Value::FnCall(path, args), span);
    assert(tmps@.subrange(0, start.len() as int) =~= mid0.subrange(0, start.len() as int));
    proof {
        if chain.base.args is Some {
            let es = chain.base.args->0;
            if let Some(ids) = av {
                lemma_all_encode_extend(mid0, tmps@, last as int, ids@, es@);
            }
        }
        assert(chain_encodes(tmps@, last as int, *chain, 0));
        if chain.base.args is Some {
            let es = chain.base.args->0;
            let v = ValueView::FnCall(chain.base.path.0@, Some(list_ids(es@, n0)));
            assert(tmps@[last as int].value@ == v);
            assert(chain_view(*chain, n0, 0) == call_view(chain.base, n0));
            assert(call_view(chain.base, n0) == list_view(es@, n0).push(v));
            assert(tmp_views(tmps@) == (tmp_views(start) + list_view(es@, n0)).push(v));
        } else {
            assert(mid0 == start);
            assert(tmps@[last as int].value@ == ValueView::FnCall(chain.base.path.0@, None));
            assert(chain_view(*chain, n0, 0) == call_view(chain.base, n0));
        }
        assert(tmp_views(tmps@) =~= tmp_views(start) + chain_view(*chain, n0, 0));
    }
    let mut i: usize = 0;
    while i < chain.chain.len()
        invariant
        spans_all(tmps@, span),
            i <= chain.chain@.len(),
            n0 == start.len(),
            well_ordered(tmps@),
            tmps@.len() > start.len(),
            tmps@.subrange(0, start.len() as int) == start,
            last == tmps@.len() - 1,
            chain_encodes(tmps@, last as int, *chain, i as int),
            tmp_views(tmps@) == tmp_views(start) + chain_view(*chain, n0, i as int),
        decreases chain.chain.len() - i,
    {
        proof {
            vstd::std_specs::vec::axiom_vec_index_decreases(chain.chain, i as int);
        }
        let ghost before = tmps@;
        let (p, args) = flatten_fn_call(&chain.chain[i], tmps, span);
        let ghost mid = tmps@;
        let ghost av = args;
        let mut all: Vec<u64> = vec![last];
        match args {
            Some(a) => {
                let mut j: usize = 0;
                while j < a.len()
                    invariant
                    spans_all(tmps@, span),
                        j <= a@.len(),
                        forall|k: int| 0 <= k < a@.len() ==> a@[k] < tmps@.len(),
                        forall|k: int| 0 <= k < all@.len() ==> all@[k] < tmps@.len(),
                        all@ == seq![last].add(a@.subrange(0, j as int)),
                    decreases a.len() - j,
                {
                    all.push(a[j]);
                    j = j + 1;
                    assert(all@ =~= seq![last].add(a@.subrange(0, j as int)));
                }
                assert(all@.drop_first() =~= a@);
                assert(a@.subrange(0, a@.len() as int) =~= a@);
            },
            None => {},
        }
        let ghost allv = all@;
        last = push_tmp(tmps, Value::FnCall(p, Some(all)), span);
        assert(tmps@.subrange(0, start.len() as int) =~= before.subrange(0, start.len() as int));
        proof {
            assert(tmps@.subrange(0, before.len() as int) =~= before);
            lemma_chain_encodes_extend(before, tmps@, allv[0] as int, *chain, i as int);
            if let Some(es) = chain.chain@[i as int].args {
                if let Some(ids) = av {
                    lemma_all_encode_extend(mid, tmps@, last as int, ids@, es@);
                }
            }
            assert(chain_encodes(tmps@, last as int, *chain, i + 1));
            assert(tmp_views(before).len() == before.len());
            assert(tmp_views(mid).len() == mid.len());
            let prev = chain_view(*chain, n0, i as int);
            assert(before.len() == n0 + prev.len());
            match chain.chain@[i as int].args {
                None => {
                    assert(allv =~= seq![(n0 + prev.len() - 1) as u64]);
                },
                Some(es) => {
                    assert(allv =~= seq![(n0 + prev.len() - 1) as u64] + list_ids(es@, n0 + prev.len()));
                },
            }
            assert(tmp_views(tmps@) =~= tmp_views(start) + chain_view(*chain, n0, i + 1));
        }
        i = i + 1;
    }
    last
}

/// Flattens a struct initializer: the field initializers in order, then the
/// initializer itself.
#[verifier::loop_isolation(false)]
#[verifier::rlimit(30)]
fn flatten_struct_init(init: &AstStructInit, tmps: &mut Vec<Tmp>, span: Span) -> (id: u64)
    requires
        spans_all(old(tmps)@, span),
        well_ordered(old(tmps)@),
    ensures
        spans_all(final(tmps)@, span),
        extends(old(tmps)@, final(tmps)@),
        id == final(tmps)@.len() - 1,
        encodes(final(tmps)@, id as int, AstExpr::StructInit(*init)),
        tmp_views(final(tmps)@) == tmp_views(old(tmps)@) + flat_view(AstExpr::StructInit(*init), old(tmps)@.len() as int),
    decreases init, 0nat,
{
    let ghost start = tmps@;
    let ghost n0 = start.len() as int;
    let name = init.struct_name.duplicate();
    let fields = match &init.field_init {
        None => None,
        Some(list) => {
            let mut out: Vec<(Ident, u64)> = Vec::new();
            let mut i: usize = 0;
            assert(tmps@.subrange(0, start.len() as int) =~= start);
            assert(list@.take(0) =~= Seq::<(Ident, Box<AstExpr>)>::empty());
            assert(tmp_views(tmps@) =~= tmp_views(start) + fields_view(list@.take(0), n0));
            while i < list.len()
                invariant
                spans_all(tmps@, span),
                    i <= list@.len(),
                    n0 == start.len(),
                    well_ordered(tmps@),
                    prefix_of(start, tmps@),
                    out@.len() == i,
                    tmp_views(tmps@) == tmp_views(start) + fields_view(list@.take(i as int), n0),
                    out@ == field_ids(list@.take(i as int), n0),
                    forall|k: int|
                        0 <= k < out@.len() ==> (#[trigger] out@[k]).0 == list@[k].0 && out@[k].1 < tmps@.len(),
                    forall|k: int| 0 <= k < out@.len() ==> encodes(tmps@, out@[k].1 as int, *(#[trigger] list@[k]).1),
                decreases list.len() - i,
            {
                proof {
                    vstd::std_specs::vec::axiom_vec_index_decreases(*list, i as int);
                }
                let ghost before = tmps@;
                let ghost before_out = out@;
                let (fname, fexpr) = &list[i];
                let t = flatten_expr(fexpr, tmps, span);
                out.push((fname.duplicate(), t));
                proof {
                    assert(tmps@.subrange(0, start.len() as int) =~= before.subrange(0, start.len() as int));
                    let tk = list@.take(i + 1);
                    assert(tk.drop_last() =~= list@.take(i as int));
                    assert(tk.last() == list@[i as int]);
                    assert(tmp_views(before).len() == before.len());
                    assert(tmp_views(tmps@) =~= tmp_views(start) + fields_view(tk, n0));
                    assert(out@ =~= field_ids(tk, n0));
                    assert forall|k: int| 0 <= k < out@.len() implies (#[trigger] out@[k]).0 == list@[k].0
                        && out@[k].1 < tmps@.len() by {
                        if k < i {
                            assert(out@[k] == before_out[k]);
                        }
                    }
                    assert forall|k: int| 0 <= k < out@.len() implies encodes(
                        tmps@,
                        out@[k].1 as int,
                        *(#[trigger] list@[k]).1,
                    ) by {
                        if k < i {
                            assert(out@[k] == before_out[k]);
                            lemma_encodes_extend(before, tmps@, out@[k].1 as int, *list@[k].1);
                        }
                    }
                }
                i = i + 1;
            }
            assert(list@.take(list@.len() as int) =~= list@);
            Some(out)
        },
    };
    let ghost mid = tmps@;
    let ghost fv = fields;
    let id = push_tmp(tmps, Value::StructInit(name, fields), span);
    assert(tmps@.subrange(0, start.len() as int) =~= mid.subrange(0, start.len() as int));
    proof {
        if init.field_init is Some {
            let list = init.field_init->0;
            if let Some(out) = fv {
                assert(fields_encode(mid, mid.len() as int, out@, list@));
                lemma_fields_encode_extend(mid, tmps@, id as int, out@, list@);
            }
        } else {
            assert(mid == start);
        }
        assert(tmp_views(tmps@) =~= tmp_views(start) + flat_view(AstExpr::StructInit(*init), n0));
    }
    id
}

/// Flattens `e`, appending its temporaries (operands first), and returns the
/// index of the temporary that holds its value.
#[verifier::loop_isolation(false)]
#[verifier::rlimit(40)]
pub fn flatten_expr(e: &AstExpr, tmps: &mut Vec<Tmp>, span: Span) -> (id: u64)
    requires
        spans_all(old(tmps)@, span),
        well_ordered(old(tmps)@),
    ensures
        spans_all(final(tmps)@, span),
        extends(old(tmps)@, final(tmps)@),
        id == final(tmps)@.len() - 1,
        encodes(final(tmps)@, id as int, *e),
        tmp_views(final(tmps)@) == tmp_views(old(tmps)@) + flat_view(*e, old(tmps)@.len() as int),
    decreases e, 1nat,
{
    let ghost start = tmps@;
    let ghost n0 = start.len() as int;
    match e {
        AstExpr::Bin(bin) => {
            let lhs = flatten_expr(&bin.lhs, tmps, span);
            let ghost mid = tmps@;
            let rhs = flatten_expr(&bin.rhs, tmps, span);
            let ghost mid2 = tmps@;
            let id = push_tmp(tmps, Value::BinExpr(bin.op, lhs, rhs), span);
            proof {
                lemma_prefix_trans(start, mid, mid2);
                lemma_prefix_trans(start, mid2, tmps@);
                lemma_prefix_trans(mid, mid2, tmps@);
                lemma_encodes_extend(mid, tmps@, lhs as int, *bin.lhs);
                lemma_encodes_extend(mid2, tmps@, rhs as int, *bin.rhs);
                assert(tmp_views(mid).len() == mid.len());
                assert(tmp_views(mid2).len() == mid2.len());
                assert(tmp_views(tmps@) =~= tmp_views(start) + flat_view(*e, n0));
            }
            id
        },
        AstExpr::Uni(uni) => {
            let inner = flatten_expr(&uni.expr, tmps, span);
            let ghost mid = tmps@;
            let id = push_tmp(tmps, Value::UniExpr(uni.op, inner), span);
            assert(tmps@.subrange(0, start.len() as int) =~= mid.subrange(0, start.len() as int));
            proof {
                lemma_encodes_extend(mid, tmps@, inner as int, *uni.expr);
                assert(tmp_views(mid).len() == mid.len());
                assert(tmp_views(tmps@) =~= tmp_views(start) + flat_view(*e, n0));
            }
            id
        },
        AstExpr::Literal(l) => {
            let id = push_tmp(tmps, Value::Literal(dup_literal(l)), span);
            assert(tmp_views(tmps@) =~= tmp_views(start) + flat_view(*e, n0));
            id
        },
        AstExpr::Binding(name) => {
            let id = push_tmp(tmps, Value::Binding(name.duplicate()), span);
            assert(tmp_views(tmps@) =~= tmp_views(start) + flat_view(*e, n0));
            id
        },
        AstExpr::ModAccess(path) => {
            let id = push_tmp(tmps, Value::ModAccess(path.duplicate()), span);
            assert(tmp_views(tmps@) =~= tmp_views(start) + flat_view(*e, n0));
            id
        },
        AstExpr::FieldAccess(path) => {
            let segs = flatten_path_into(path, tmps, span);
            let ghost mid = tmps@;
            let ghost sv = segs@;
            let id = push_tmp(tmps, Value::FieldAccess(segs), span);
            assert(tmps@.subrange(0, start.len() as int) =~= mid.subrange(0, start.len() as int));
            proof {
                lemma_segs_encode_extend(mid, tmps@, id as int, sv, path.0@);
                assert(tmp_views(tmps@) =~= tmp_views(start) + flat_view(*e, n0));
            }
            id
        },
        AstExpr::FnCall(call) => {
            let (path, args) = flatten_fn_call(call, tmps, span);
            let ghost mid = tmps@;
            let ghost av = args;
            let id = push_tmp(tmps, Value::FnCall(path, args), span);
            assert(tmps@.subrange(0, start.len() as int) =~= mid.subrange(0, start.len() as int));
            proof {
                if call.args is Some {
                    let es = call.args->0;
                    if let Some(ids) = av {
                        lemma_all_encode_extend(mid, tmps@, id as int, ids@, es@);
                    }
                }
                if call.args is Some {
                    let es = call.args->0;
                    let v = ValueView::FnCall(call.path.0@, Some(list_ids(es@, n0)));
                    assert(tmps@[id as int].value@ == v);
                    assert(flat_view(*e, n0) == call_view(*call, n0));
                    assert(call_view(*call, n0) == list_view(es@, n0).push(v));
                    assert(tmp_views(tmps@) == (tmp_views(start) + list_view(es@, n0)).push(v));
                } else {
                    assert(mid == start);
                    assert(tmps@[id as int].value@ == ValueView::FnCall(call.path.0@, None));
                    assert(flat_view(*e, n0) == call_view(*call, n0));
                }
                assert(tmp_views(tmps@) =~= tmp_views(start) + flat_view(*e, n0));
            }
            id
        },
        AstExpr::FnCallChain(chain) => flatten_chain(chain, tmps, span),
        AstExpr::Indexing(idx) => {
            let array = flatten_expr(&idx.array, tmps, span);
            let ghost mid = tmps@;
            let indexer = flatten_expr(&idx.indexer, tmps, span);
            let ghost mid2 = tmps@;
            let id = push_tmp(tmps, Value::Indexing(array, indexer), span);
            proof {
                lemma_prefix_trans(start, mid, mid2);
                lemma_prefix_trans(start, mid2, tmps@);
                lemma_prefix_trans(mid, mid2, tmps@);
                lemma_encodes_extend(mid, tmps@, array as int, *idx.array);
                lemma_encodes_extend(mid2, tmps@, indexer as int, *idx.indexer);
                assert(tmp_views(mid).len() == mid.len());
                assert(tmp_views(mid2).len() == mid2.len());
                assert(tmp_views(tmps@) =~= tmp_views(start) + flat_view(*e, n0));
            }
            id
        },
        AstExpr::StructInit(init) => flatten_struct_init(init, tmps, span),
        AstExpr::ArrayInit(ArrayInit::InitList(list)) => {
            let out = flatten_list(list, tmps, span);
            let ghost mid = tmps@;
            let ghost ov = out@;
            let id = push_tmp(tmps, Value::ArrayInitList(out), span);
            assert(tmps@.subrange(0, start.len() as int) =~= mid.subrange(0, start.len() as int));
            proof {
                lemma_all_encode_extend(mid, tmps@, id as int, ov, list@);
                assert(tmp_views(tmps@) =~= tmp_views(start) + flat_view(*e, n0));
            }
            id
        },
        AstExpr::ArrayInit(ArrayInit::Value(v, n)) => {
            let t = flatten_expr(v, tmps, span);
            let ghost mid = tmps@;
            let id = push_tmp(tmps, Value::ArrayInitValue(t, *n), span);
            assert(tmps@.subrange(0, start.len() as int) =~= mid.subrange(0, start.len() as int));
            proof {
                lemma_encodes_extend(mid, tmps@, t as int, **v);
                assert(tmp_views(mid).len() == mid.len());
                assert(tmp_views(tmps@) =~= tmp_views(start) + flat_view(*e, n0));
            }
            id
        },
        AstExpr::AnonymousFn(_) => {
            let id = push_tmp(tmps, Value::AnonymousFn, span);
            assert(tmp_views(tmps@) =~= tmp_views(start) + flat_view(*e, n0));
            id
        },
    }
}

/// What flattening the field access `path` on its own gives: the temporaries of
/// its index expressions, then the access.
pub open spec fn path_view(path: Path) -> Seq<ValueView> {
    flat_view(AstExpr::FieldAccess(path), 0)
}

/// Flattens a field access path such as the target of an assignment; the
/// last temporary is the access itself.
pub fn flatten_path(path: &Path, span: Span) -> (r: Expr)
    ensures
        r.tmps@.len() > 0,
        well_ordered(r.tmps@),
        r.tmps@.last().value is FieldAccess,
        encodes(r.tmps@, r.tmps@.len() - 1, AstExpr::FieldAccess(*path)),
        tmp_views(r.tmps@) == path_view(*path),
        spans_all(r.tmps@, span),
{
    let mut tmps: Vec<Tmp> = Vec::new();
    let segs = flatten_path_into(path, &mut tmps, span);
    let ghost mid = tmps@;
    let ghost sv = segs@;
    let id = push_tmp(&mut tmps, Value::FieldAccess(segs), span);
    proof {
        assert(tmps@.subrange(0, mid.len() as int) =~= mid);
        lemma_segs_encode_extend(mid, tmps@, id as int, sv, path.0@);
        assert(tmp_views(Seq::<Tmp>::empty()) =~= Seq::<ValueView>::empty());
        assert(tmp_views(tmps@) =~= path_view(*path));
    }
    Expr { tmps }
}

/// Flattens an expression tree into temporaries in execution order.
pub fn flatten(e: &AstExpr, span: Span) -> (r: Expr)
    ensures
        r.tmps@.len() > 0,
        well_ordered(r.tmps@),
        encodes(r.tmps@, r.tmps@.len() - 1, *e),
        tmp_views(r.tmps@) == flat_view(*e, 0),
        spans_all(r.tmps@, span),
{
    let mut tmps: Vec<Tmp> = Vec::new();
    assert(tmp_views(tmps@) =~= Seq::<ValueView>::empty());
    let _root = flatten_expr(e, &mut tmps, span);
    assert(tmp_views(tmps@) =~= flat_view(*e, 0));
    Expr { tmps }
}

} // verus!
