//! Evaluation of a flattened expression, temporary by temporary, given the
//! values of the temporaries before each one and the environment of the running
//! function.
//!
//! What needs floating-point arithmetic or a call into another function is not
//! done here: the evaluation names it, and the caller performs it and pushes the
//! result as the temporary's value before the evaluation resumes.

use vstd::prelude::*;

use crate::ast::{BinOp, Ident, Literal, ModulePath, UniOp};
use crate::env::Env;
use crate::expr_flow::{refs_below, Expr, Segment, Value as Flow, ValueView as FlowView};
use crate::value::{deep_fields, deep_seq, field_value, lemma_deep_fields, lemma_deep_seq, Struct, Value, ValueView};

verus! {

/// The outcome of evaluating a temporary.
pub enum TmpEval {
    /// The temporary's value.
    Value(Value),
    /// A float literal, by its source text.
    FloatLiteral(String),
    /// A binary operation on two floats, by their bit patterns.
    FloatOp(BinOp, u64, u64),
    /// The negation of a float, by its bit pattern.
    FloatNegate(u64),
    /// A call of the function at the path with the argument values.
    Call(ModulePath, Option<Vec<Value>>),
    /// A reference to the function at the path.
    FnRef(ModulePath),
    /// An anonymous function.
    AnonymousFn,
}

/// The mathematical content of a [`TmpEval`].
pub enum TmpEvalView {
    Value(ValueView),
    FloatLiteral(Seq<char>),
    FloatOp(BinOp, u64, u64),
    FloatNegate(u64),
    Call(Seq<Ident>, Option<Seq<ValueView>>),
    FnRef(Seq<Ident>),
    AnonymousFn,
}

impl TmpEval {
    pub open spec fn view(self) -> TmpEvalView {
        match self {
            TmpEval::Value(v) => TmpEvalView::Value(v.deep()),
            TmpEval::FloatLiteral(s) => TmpEvalView::FloatLiteral(s@),
            TmpEval::FloatOp(op, a, b) => TmpEvalView::FloatOp(op, a, b),
            TmpEval::FloatNegate(a) => TmpEvalView::FloatNegate(a),
            TmpEval::Call(p, args) => TmpEvalView::Call(
                p.0@,
                match args {
                    Some(a) => Some(deep_seq(a@)),
                    None => None,
                },
            ),
            TmpEval::FnRef(p) => TmpEvalView::FnRef(p.0@),
            TmpEval::AnonymousFn => TmpEvalView::AnonymousFn,
        }
    }
}

/// Why a temporary could not be evaluated.
#[derive(Clone, Copy, Debug, PartialEq, Eq, Structural)]
pub enum EvalError {
    /// A name that the environment does not bind.
    UnknownName,
    /// A field that the struct does not have.
    UnknownField,
    /// Operands of kinds the operation does not take.
    TypeMismatch,
    /// An integer result outside the 64-bit range.
    Overflow,
    /// Division or remainder by zero.
    DivisionByZero,
    /// An index outside the array.
    OutOfBounds(i64),
}

/// An integer operation other than division and remainder; `Overflow` when the
/// result leaves the 64-bit range.
pub open spec fn int_op(op: BinOp, x: i64, y: i64) -> Result<ValueView, EvalError> {
    let wide: int = match op {
        BinOp::Add => x + y,
        BinOp::Sub => x - y,
        BinOp::Mul => x * y,
        _ => 0,
    };
    match op {
        BinOp::Add | BinOp::Sub | BinOp::Mul => if i64::MIN <= wide <= i64::MAX {
            Ok(ValueView::Int(wide as i64))
        } else {
            Err(EvalError::Overflow)
        },
        BinOp::Div | BinOp::Mod => Err(EvalError::TypeMismatch),
        BinOp::GreaterEq => Ok(ValueView::Bool(x >= y)),
        BinOp::Greater => Ok(ValueView::Bool(x > y)),
        BinOp::LesserEq => Ok(ValueView::Bool(x <= y)),
        BinOp::Lesser => Ok(ValueView::Bool(x < y)),
        BinOp::Eq => Ok(ValueView::Bool(x == y)),
        BinOp::InEq => Ok(ValueView::Bool(x != y)),
        BinOp::LogicalAnd | BinOp::LogicalOr => Err(EvalError::TypeMismatch),
    }
}

/// The result of a binary operation on two values.
pub open spec fn bin_result(op: BinOp, a: ValueView, b: ValueView) -> Result<TmpEvalView, EvalError> {
    match (a, b) {
        (ValueView::Int(x), ValueView::Int(y)) => match op {
            BinOp::Div | BinOp::Mod => if y == 0 {
                Err(EvalError::DivisionByZero)
            } else if x == i64::MIN && y == -1 {
                Err(EvalError::Overflow)
            } else {
                Ok(TmpEvalView::Value(ValueView::Int(if op == BinOp::Div { spec_div(x, y) } else { spec_rem(x, y) })))
            },
            _ => match int_op(op, x, y) {
                Ok(v) => Ok(TmpEvalView::Value(v)),
                Err(e) => Err(e),
            },
        },
        (ValueView::Bool(x), ValueView::Bool(y)) => match op {
            BinOp::LogicalAnd => Ok(TmpEvalView::Value(ValueView::Bool(x && y))),
            BinOp::LogicalOr => Ok(TmpEvalView::Value(ValueView::Bool(x || y))),
            BinOp::Eq => Ok(TmpEvalView::Value(ValueView::Bool(x == y))),
            BinOp::InEq => Ok(TmpEvalView::Value(ValueView::Bool(x != y))),
            _ => Err(EvalError::TypeMismatch),
        },
        (ValueView::Float(x), ValueView::Float(y)) => Ok(TmpEvalView::FloatOp(op, x, y)),
        _ => match op {
            BinOp::Eq => Ok(TmpEvalView::Value(ValueView::Bool(a == b))),
            BinOp::InEq => Ok(TmpEvalView::Value(ValueView::Bool(a != b))),
            _ => Err(EvalError::TypeMismatch),
        },
    }
}

/// Integer division rounding toward zero, as Rust's `/` does.
pub open spec fn spec_div(x: i64, y: i64) -> i64 {
    (if (x < 0) != (y < 0) { -(abs(x) / abs(y)) } else { abs(x) / abs(y) }) as i64
}

/// The remainder of `spec_div`, with the sign of `x`, as Rust's `%` gives it.
pub open spec fn spec_rem(x: i64, y: i64) -> i64 {
    (if x < 0 { -(abs(x) % abs(y)) } else { abs(x) % abs(y) }) as i64
}

/// The absolute value.
pub open spec fn abs(x: i64) -> int {
    if x < 0 { -(x as int) } else { x as int }
}

/// The element `t` of `tmps` selects from the array `v`.
pub open spec fn index_into(v: ValueView, tmps: Seq<ValueView>, t: u64) -> Result<ValueView, EvalError> {
    match (v, tmps[t as int]) {
        (ValueView::Array(vs), ValueView::Int(k)) => if 0 <= k < vs.len() {
            Ok(vs[k as int])
        } else {
            Err(EvalError::OutOfBounds(k))
        },
        _ => Err(EvalError::TypeMismatch),
    }
}

/// The name of a segment of a field access.
pub open spec fn seg_name(s: Segment) -> Ident {
    match s {
        Segment::Ident(n) => n,
        Segment::Indexing(n, _) => n,
    }
}

/// Follows the segments `segs[k..]` of a field access from the value `v`.
pub open spec fn walk(v: ValueView, segs: Seq<Segment>, tmps: Seq<ValueView>, k: int) -> Result<ValueView, EvalError>
    decreases segs.len() - k,
{
    if k < 0 || k >= segs.len() {
        Ok(v)
    } else {
        match v {
            ValueView::Struct(fs) => match field_value(fs, seg_name(segs[k]).0@) {
                Some(f) => match segs[k] {
                    Segment::Ident(_) => walk(f, segs, tmps, k + 1),
                    Segment::Indexing(_, t) => match index_into(f, tmps, t) {
                        Ok(x) => walk(x, segs, tmps, k + 1),
                        Err(e) => Err(e),
                    },
                },
                None => Err(EvalError::UnknownField),
            },
            _ => Err(EvalError::TypeMismatch),
        }
    }
}

/// The value of a field access in the environment `env`.
pub open spec fn access_result(env: Map<Seq<char>, ValueView>, segs: Seq<Segment>, tmps: Seq<ValueView>) -> Result<
    ValueView,
    EvalError,
> {
    if segs.len() == 0 {
        Err(EvalError::UnknownName)
    } else if !env.dom().contains(seg_name(segs[0]).0@) {
        Err(EvalError::UnknownName)
    } else {
        let root = env[seg_name(segs[0]).0@];
        match segs[0] {
            Segment::Ident(_) => walk(root, segs, tmps, 1),
            Segment::Indexing(_, t) => match index_into(root, tmps, t) {
                Ok(x) => walk(x, segs, tmps, 1),
                Err(e) => Err(e),
            },
        }
    }
}

/// The outcome of evaluating the temporary `v`, given the values `tmps` of the
/// temporaries before it and the named values `env`.
pub open spec fn tmp_result(env: Map<Seq<char>, ValueView>, tmps: Seq<ValueView>, v: FlowView) -> Result<TmpEvalView, EvalError> {
    match v {
        FlowView::Literal(Literal::Int(i)) => Ok(TmpEvalView::Value(ValueView::Int(i))),
        FlowView::Literal(Literal::Bool(b)) => Ok(TmpEvalView::Value(ValueView::Bool(b))),
        FlowView::Literal(Literal::String(s)) => Ok(TmpEvalView::Value(ValueView::String(s@))),
        FlowView::Literal(Literal::Float(s)) => Ok(TmpEvalView::FloatLiteral(s@)),
        FlowView::Binding(n) => if env.dom().contains(n.0@) {
            Ok(TmpEvalView::Value(env[n.0@]))
        } else {
            Err(EvalError::UnknownName)
        },
        FlowView::FieldAccess(segs) => match access_result(env, segs, tmps) {
            Ok(x) => Ok(TmpEvalView::Value(x)),
            Err(e) => Err(e),
        },
        FlowView::ModAccess(p) => Ok(TmpEvalView::FnRef(p)),
        FlowView::FnCall(p, args) => Ok(TmpEvalView::Call(
            p,
            match args {
                Some(a) => Some(Seq::new(a.len(), |k: int| tmps[a[k] as int])),
                None => None,
            },
        )),
        FlowView::BinExpr(op, a, b) => bin_result(op, tmps[a as int], tmps[b as int]),
        FlowView::UniExpr(op, a) => match (op, tmps[a as int]) {
            (UniOp::Negate, ValueView::Int(x)) => if x == i64::MIN {
                Err(EvalError::Overflow)
            } else {
                Ok(TmpEvalView::Value(ValueView::Int((-x) as i64)))
            },
            (UniOp::Negate, ValueView::Float(x)) => Ok(TmpEvalView::FloatNegate(x)),
            (UniOp::LogicalInvert, ValueView::Bool(b)) => Ok(TmpEvalView::Value(ValueView::Bool(!b))),
            _ => Err(EvalError::TypeMismatch),
        },
        FlowView::Indexing(a, b) => match index_into(tmps[a as int], tmps, b) {
            Ok(x) => Ok(TmpEvalView::Value(x)),
            Err(e) => Err(e),
        },
        FlowView::StructInit(_, fields) => Ok(TmpEvalView::Value(ValueView::Struct(
            match fields {
                Some(fs) => Seq::new(fs.len(), |k: int| (fs[k].0.0@, tmps[fs[k].1 as int])),
                None => Seq::empty(),
            },
        ))),
        FlowView::ArrayInitList(es) => Ok(TmpEvalView::Value(ValueView::Array(Seq::new(es.len(), |k: int| tmps[es[k] as int])))),
        FlowView::ArrayInitValue(a, n) => Ok(TmpEvalView::Value(ValueView::Array(Seq::new(n as nat, |k: int| tmps[a as int])))),
        FlowView::AnonymousFn => Ok(TmpEvalView::AnonymousFn),
    }
}

/// The integer result of `x op y` for an arithmetic or comparison operator.
fn int_bin(op: BinOp, x: i64, y: i64) -> (r: Result<Value, EvalError>)
    ensures
        (op != BinOp::Div && op != BinOp::Mod) ==> match int_op(op, x, y) {
            Ok(v) => r matches Ok(w) && w.deep() == v,
            Err(e) => r == Err::<Value, EvalError>(e),
        },
        (op == BinOp::Div || op == BinOp::Mod) ==> (if y == 0 {
            r == Err::<Value, EvalError>(EvalError::DivisionByZero)
        } else if x == i64::MIN && y == -1 {
            r == Err::<Value, EvalError>(EvalError::Overflow)
        } else {
            r matches Ok(w) && w.deep() == ValueView::Int(if op == BinOp::Div { spec_div(x, y) } else { spec_rem(x, y) })
        }),
{
    match op {
        BinOp::Add => match x.checked_add(y) {
            Some(v) => Ok(Value::Int(v)),
            None => Err(EvalError::Overflow),
        },
        BinOp::Sub => match x.checked_sub(y) {
            Some(v) => Ok(Value::Int(v)),
            None => Err(EvalError::Overflow),
        },
        BinOp::Mul => match x.checked_mul(y) {
            Some(v) => Ok(Value::Int(v)),
            None => Err(EvalError::Overflow),
        },
        BinOp::Div | BinOp::Mod => {
            if y == 0 {
                return Err(EvalError::DivisionByZero);
            }
            if x == i64::MIN && y == -1 {
                return Err(EvalError::Overflow);
            }
            let ax: u64 = if x < 0 { (0i128 - x as i128) as u64 } else { x as u64 };
            let ay: u64 = if y < 0 { (0i128 - y as i128) as u64 } else { y as u64 };
            let q: u64 = ax / ay;
            let neg = (x < 0) != (y < 0);
            proof {
                assert(ax as int == abs(x));
                assert(ay as int == abs(y));
                assert(q <= ax);
            }
            let sq: i64 = if neg { (0i128 - q as i128) as i64 } else { q as i64 };
            proof {
                assert(sq == spec_div(x, y)) by {
                    assert(q as int == abs(x) / abs(y));
                }
            }
            if op == BinOp::Div {
                Ok(Value::Int(sq))
            } else {
                let ra: u64 = ax % ay;
                proof {
                    assert(ra < ay);
                    assert(ra as int == abs(x) % abs(y));
                }
                let rem: i64 = if x < 0 { (0i128 - ra as i128) as i64 } else { ra as i64 };
                Ok(Value::Int(rem))
            }
        },
        BinOp::GreaterEq => Ok(Value::Bool(x >= y)),
        BinOp::Greater => Ok(Value::Bool(x > y)),
        BinOp::LesserEq => Ok(Value::Bool(x <= y)),
        BinOp::Lesser => Ok(Value::Bool(x < y)),
        BinOp::Eq => Ok(Value::Bool(x == y)),
        BinOp::InEq => Ok(Value::Bool(x != y)),
        BinOp::LogicalAnd | BinOp::LogicalOr => Err(EvalError::TypeMismatch),
    }
}

/// The values of the temporaries `tmps`.
pub open spec fn tmp_values(tmps: Seq<Value>) -> Seq<ValueView> {
    Seq::new(tmps.len(), |k: int| tmps[k].deep())
}

/// A copy of the temporary `t`.
fn tmp_at(tmps: &Vec<Value>, t: u64) -> (r: Value)
    requires
        t < tmps@.len(),
    ensures
        r.deep() == tmp_values(tmps@)[t as int],
{
    let n = tmps.len();
    assert(t < n);
    let idx = t as usize;
    assert(idx == t);
    tmps[idx].duplicate()
}

/// The element of the array `v` that the integer temporary `t` selects.
fn index_value(v: &Value, tmps: &Vec<Value>, t: u64) -> (r: Result<Value, EvalError>)
    requires
        t < tmps@.len(),
    ensures
        match index_into(v.deep(), tmp_values(tmps@), t) {
            Ok(x) => r matches Ok(w) && w.deep() == x,
            Err(e) => r == Err::<Value, EvalError>(e),
        },
{
    let n = tmps.len();
    assert(t < n);
    let idx = t as usize;
    assert(idx == t);
    let k = match &tmps[idx] {
        Value::Int(k) => *k,
        _ => return Err(EvalError::TypeMismatch),
    };
    match v {
        Value::Array(vs) => {
            proof {
                lemma_deep_seq(vs@);
            }
            if 0 <= k && (k as u64) < (vs.len() as u64) {
                Ok(vs[k as usize].duplicate())
            } else {
                Err(EvalError::OutOfBounds(k))
            }
        },
        _ => Err(EvalError::TypeMismatch),
    }
}

/// Follows the segments of a field access from `root`.
fn walk_value(root: Value, segs: &Vec<Segment>, tmps: &Vec<Value>) -> (r: Result<Value, EvalError>)
    requires
        forall|k: int| 0 <= k < segs@.len() ==> (#[trigger] segs@[k] matches Segment::Indexing(_, t) ==> t < tmps@.len()),
    ensures
        match walk(root.deep(), segs@, tmp_values(tmps@), 1) {
            Ok(x) => r matches Ok(w) && w.deep() == x,
            Err(e) => r == Err::<Value, EvalError>(e),
        },
{
    let mut current = root;
    let mut k: usize = 1;
    while k < segs.len()
        invariant
            1 <= k,
            forall|j: int| 0 <= j < segs@.len() ==> (#[trigger] segs@[j] matches Segment::Indexing(_, t) ==> t < tmps@.len()),
            walk(root.deep(), segs@, tmp_values(tmps@), 1) == walk(current.deep(), segs@, tmp_values(tmps@), k as int),
        decreases segs.len() - k,
    {
        let (name, index) = match &segs[k] {
            Segment::Ident(n) => (n, None),
            Segment::Indexing(n, t) => (n, Some(*t)),
        };
        let field = match &current {
            Value::Struct(st) => match st.get_field(&name.0) {
                Some(f) => f,
                None => return Err(EvalError::UnknownField),
            },
            _ => return Err(EvalError::TypeMismatch),
        };
        current = match index {
            None => field,
            Some(t) => {
                assert(segs@[k as int] matches Segment::Indexing(_, tt) && tt == t);
                index_value(&field, tmps, t)?
            },
        };
        k = k + 1;
    }
    Ok(current)
}

/// Evaluates the temporary `i` of `expr`, given the values `tmps` of the
/// temporaries before it and the environment `env` of the running function.
pub fn eval_tmp(env: &Env, tmps: &Vec<Value>, expr: &Expr, i: usize) -> (r: Result<TmpEval, EvalError>)
    requires
        i < expr.tmps@.len(),
        tmps@.len() == i,
        refs_below(expr.tmps@[i as int].value, i as int),
    ensures
        match tmp_result(env.values(), tmp_values(tmps@), expr.tmps@[i as int].value@) {
            Ok(x) => r matches Ok(w) && w.view() == x,
            Err(e) => r == Err::<TmpEval, EvalError>(e),
        },
{
    match &expr.tmps[i].value {
        Flow::Literal(Literal::Int(v)) => Ok(TmpEval::Value(Value::Int(*v))),
        Flow::Literal(Literal::Bool(b)) => Ok(TmpEval::Value(Value::Bool(*b))),
        Flow::Literal(Literal::String(s)) => Ok(TmpEval::Value(Value::String(s.clone()))),
        Flow::Literal(Literal::Float(s)) => Ok(TmpEval::FloatLiteral(s.clone())),
        Flow::Binding(n) => match env.get_value(n.as_str()) {
            Some(v) => Ok(TmpEval::Value(v)),
            None => Err(EvalError::UnknownName),
        },
        Flow::FieldAccess(segs) => {
            if segs.len() == 0 {
                return Err(EvalError::UnknownName);
            }
            let (root_name, root_index) = match &segs[0] {
                Segment::Ident(n) => (n, None),
                Segment::Indexing(n, t) => (n, Some(*t)),
            };
            let root = match env.get_value(root_name.as_str()) {
                Some(v) => v,
                None => return Err(EvalError::UnknownName),
            };
            let start = match root_index {
                None => root,
                Some(t) => {
                    assert(segs@[0] matches Segment::Indexing(_, tt) && tt == t);
                    index_value(&root, tmps, t)?
                },
            };
            let v = walk_value(start, segs, tmps)?;
            Ok(TmpEval::Value(v))
        },
        Flow::ModAccess(p) => Ok(TmpEval::FnRef(p.duplicate())),
        Flow::FnCall(p, args) => {
            let values = match args {
                Some(a) => {
                    let mut out: Vec<Value> = Vec::new();
                    let mut k: usize = 0;
                    while k < a.len()
                        invariant
                            k <= a@.len(),
                            forall|j: int| 0 <= j < a@.len() ==> a@[j] < tmps@.len(),
                            out@.len() == k,
                            forall|j: int| 0 <= j < k ==> (#[trigger] out@[j]).deep() == tmp_values(tmps@)[a@[j] as int],
                        decreases a.len() - k,
                    {
                        out.push(tmp_at(tmps, a[k]));
                        k = k + 1;
                    }
                    proof {
                        lemma_deep_seq(out@);
                        assert(deep_seq(out@) =~= Seq::new(a@.len(), |j: int| tmp_values(tmps@)[a@[j] as int]));
                    }
                    Some(out)
                },
                None => None,
            };
            Ok(TmpEval::Call(p.duplicate(), values))
        },
        Flow::BinExpr(op, a, b) => {
            let x = tmp_at(tmps, *a);
            let y = tmp_at(tmps, *b);
            match (&x, &y) {
                (Value::Int(u), Value::Int(w)) => match int_bin(*op, *u, *w) {
                    Ok(v) => Ok(TmpEval::Value(v)),
                    Err(e) => Err(e),
                },
                (Value::Bool(u), Value::Bool(w)) => match op {
                    BinOp::LogicalAnd => Ok(TmpEval::Value(Value::Bool(*u && *w))),
                    BinOp::LogicalOr => Ok(TmpEval::Value(Value::Bool(*u || *w))),
                    BinOp::Eq => Ok(TmpEval::Value(Value::Bool(*u == *w))),
                    BinOp::InEq => Ok(TmpEval::Value(Value::Bool(*u != *w))),
                    _ => Err(EvalError::TypeMismatch),
                },
                (Value::Float(u), Value::Float(w)) => Ok(TmpEval::FloatOp(*op, *u, *w)),
                _ => match op {
                    BinOp::Eq => Ok(TmpEval::Value(Value::Bool(crate::value::values_equal(&x, &y)))),
                    BinOp::InEq => Ok(TmpEval::Value(Value::Bool(!crate::value::values_equal(&x, &y)))),
                    _ => Err(EvalError::TypeMismatch),
                },
            }
        },
        Flow::UniExpr(op, a) => {
            let x = tmp_at(tmps, *a);
            match (op, &x) {
                (UniOp::Negate, Value::Int(v)) => if *v == i64::MIN {
                    Err(EvalError::Overflow)
                } else {
                    Ok(TmpEval::Value(Value::Int(-*v)))
                },
                (UniOp::Negate, Value::Float(f)) => Ok(TmpEval::FloatNegate(*f)),
                (UniOp::LogicalInvert, Value::Bool(b)) => Ok(TmpEval::Value(Value::Bool(!*b))),
                _ => Err(EvalError::TypeMismatch),
            }
        },
        Flow::Indexing(a, b) => {
            let x = tmp_at(tmps, *a);
            let v = index_value(&x, tmps, *b)?;
            Ok(TmpEval::Value(v))
        },
        Flow::StructInit(_, fields) => {
            let mut out: Vec<(String, Value)> = Vec::new();
            match fields {
                Some(fs) => {
                    let mut k: usize = 0;
                    while k < fs.len()
                        invariant
                            k <= fs@.len(),
                            forall|j: int| 0 <= j < fs@.len() ==> fs@[j].1 < tmps@.len(),
                            out@.len() == k,
                            forall|j: int| 0 <= j < k ==> (#[trigger] out@[j]).0@ == fs@[j].0.0@
                                && out@[j].1.deep() == tmp_values(tmps@)[fs@[j].1 as int],
                        decreases fs.len() - k,
                    {
                        out.push((fs[k].0.0.clone(), tmp_at(tmps, fs[k].1)));
                        k = k + 1;
                    }
                    proof {
                        lemma_deep_fields(out@);
                        assert(deep_fields(out@) =~= Seq::new(fs@.len(), |j: int| (fs@[j].0.0@, tmp_values(tmps@)[fs@[j].1 as int])));
                    }
                },
                None => {
                    assert(deep_fields(out@) =~= Seq::<(Seq<char>, ValueView)>::empty());
                },
            }
            Ok(TmpEval::Value(Value::Struct(Struct { fields: out })))
        },
        Flow::ArrayInitList(es) => {
            let mut out: Vec<Value> = Vec::new();
            let mut k: usize = 0;
            while k < es.len()
                invariant
                    k <= es@.len(),
                    forall|j: int| 0 <= j < es@.len() ==> es@[j] < tmps@.len(),
                    out@.len() == k,
                    forall|j: int| 0 <= j < k ==> (#[trigger] out@[j]).deep() == tmp_values(tmps@)[es@[j] as int],
                decreases es.len() - k,
            {
                out.push(tmp_at(tmps, es[k]));
                k = k + 1;
            }
            proof {
                lemma_deep_seq(out@);
                assert(deep_seq(out@) =~= Seq::new(es@.len(), |j: int| tmp_values(tmps@)[es@[j] as int]));
            }
            Ok(TmpEval::Value(Value::Array(out)))
        },
        Flow::ArrayInitValue(a, n) => {
            let mut out: Vec<Value> = Vec::new();
            let mut k: u64 = 0;
            while k < *n
                invariant
                    k <= *n,
                    *a < tmps@.len(),
                    out@.len() == k,
                    forall|j: int| 0 <= j < k ==> (#[trigger] out@[j]).deep() == tmp_values(tmps@)[*a as int],
                decreases *n - k,
            {
                out.push(tmp_at(tmps, *a));
                k = k + 1;
            }
            proof {
                lemma_deep_seq(out@);
                assert(deep_seq(out@) =~= Seq::new(*n as nat, |j: int| tmp_values(tmps@)[*a as int]));
            }
            Ok(TmpEval::Value(Value::Array(out)))
        },
        Flow::AnonymousFn => Ok(TmpEval::AnonymousFn),
    }
}

/// Comparing two integer temporaries gives the truth of the comparison of the
/// two integers: `<` is the mathematical order, `>=` its negation (so `x >= x`
/// holds), `>` and `<=` are `<` and `>=` with the operands swapped, and `==`
/// and `!=` are equality and its negation.
pub proof fn law_int_comparisons(env: Map<Seq<char>, ValueView>, tmps: Seq<ValueView>, a: u64, b: u64, x: i64, y: i64)
    requires
        a < tmps.len(),
        b < tmps.len(),
        tmps[a as int] == ValueView::Int(x),
        tmps[b as int] == ValueView::Int(y),
    ensures
        tmp_result(env, tmps, FlowView::BinExpr(BinOp::Lesser, a, b)) == Ok::<TmpEvalView, EvalError>(
            TmpEvalView::Value(ValueView::Bool((x as int) < (y as int))),
        ),
        tmp_result(env, tmps, FlowView::BinExpr(BinOp::GreaterEq, a, b)) == Ok::<TmpEvalView, EvalError>(
            TmpEvalView::Value(ValueView::Bool(!((x as int) < (y as int)))),
        ),
        tmp_result(env, tmps, FlowView::BinExpr(BinOp::Greater, a, b)) == Ok::<TmpEvalView, EvalError>(
            TmpEvalView::Value(ValueView::Bool((y as int) < (x as int))),
        ),
        tmp_result(env, tmps, FlowView::BinExpr(BinOp::LesserEq, a, b)) == Ok::<TmpEvalView, EvalError>(
            TmpEvalView::Value(ValueView::Bool(!((y as int) < (x as int)))),
        ),
        tmp_result(env, tmps, FlowView::BinExpr(BinOp::Eq, a, b)) == Ok::<TmpEvalView, EvalError>(
            TmpEvalView::Value(ValueView::Bool(x as int == y as int)),
        ),
        tmp_result(env, tmps, FlowView::BinExpr(BinOp::InEq, a, b)) == Ok::<TmpEvalView, EvalError>(
            TmpEvalView::Value(ValueView::Bool(x as int != y as int)),
        ),
        tmp_result(env, tmps, FlowView::BinExpr(BinOp::GreaterEq, a, a)) == Ok::<TmpEvalView, EvalError>(
            TmpEvalView::Value(ValueView::Bool(true)),
        ),
        tmp_result(env, tmps, FlowView::BinExpr(BinOp::LesserEq, a, a)) == Ok::<TmpEvalView, EvalError>(
            TmpEvalView::Value(ValueView::Bool(true)),
        ),
{
}

/// Adding, subtracting or multiplying two integer temporaries gives the exact
/// mathematical result when it fits in 64 bits, and `Overflow` otherwise;
/// addition and multiplication do not depend on the order of the operands.
pub proof fn law_int_arithmetic(env: Map<Seq<char>, ValueView>, tmps: Seq<ValueView>, a: u64, b: u64, x: i64, y: i64)
    requires
        a < tmps.len(),
        b < tmps.len(),
        tmps[a as int] == ValueView::Int(x),
        tmps[b as int] == ValueView::Int(y),
    ensures
        i64::MIN <= x + y <= i64::MAX ==> tmp_result(env, tmps, FlowView::BinExpr(BinOp::Add, a, b)) == Ok::<
            TmpEvalView,
            EvalError,
        >(TmpEvalView::Value(ValueView::Int((x + y) as i64))),
        !(i64::MIN <= x + y <= i64::MAX) ==> tmp_result(env, tmps, FlowView::BinExpr(BinOp::Add, a, b)) == Err::<
            TmpEvalView,
            EvalError,
        >(EvalError::Overflow),
        i64::MIN <= x - y <= i64::MAX ==> tmp_result(env, tmps, FlowView::BinExpr(BinOp::Sub, a, b)) == Ok::<
            TmpEvalView,
            EvalError,
        >(TmpEvalView::Value(ValueView::Int((x - y) as i64))),
        !(i64::MIN <= x - y <= i64::MAX) ==> tmp_result(env, tmps, FlowView::BinExpr(BinOp::Sub, a, b)) == Err::<
            TmpEvalView,
            EvalError,
        >(EvalError::Overflow),
        i64::MIN <= x * y <= i64::MAX ==> tmp_result(env, tmps, FlowView::BinExpr(BinOp::Mul, a, b)) == Ok::<
            TmpEvalView,
            EvalError,
        >(TmpEvalView::Value(ValueView::Int((x * y) as i64))),
        !(i64::MIN <= x * y <= i64::MAX) ==> tmp_result(env, tmps, FlowView::BinExpr(BinOp::Mul, a, b)) == Err::<
            TmpEvalView,
            EvalError,
        >(EvalError::Overflow),
        tmp_result(env, tmps, FlowView::BinExpr(BinOp::Add, a, b)) == tmp_result(env, tmps, FlowView::BinExpr(BinOp::Add, b, a)),
        tmp_result(env, tmps, FlowView::BinExpr(BinOp::Mul, a, b)) == tmp_result(env, tmps, FlowView::BinExpr(BinOp::Mul, b, a)),
{
    assert(x * y == y * x) by (nonlinear_arith);
}

/// Dividing two integer temporaries truncates toward zero: the quotient `q` and
/// remainder `r` satisfy `q * y + r == x`, `|r| < |y|`, and `r` is zero or has
/// the sign of `x`. Division by zero and `i64::MIN / -1` are errors.
pub proof fn law_int_division(env: Map<Seq<char>, ValueView>, tmps: Seq<ValueView>, a: u64, b: u64, x: i64, y: i64)
    requires
        a < tmps.len(),
        b < tmps.len(),
        tmps[a as int] == ValueView::Int(x),
        tmps[b as int] == ValueView::Int(y),
    ensures
        y == 0 ==> tmp_result(env, tmps, FlowView::BinExpr(BinOp::Div, a, b)) == Err::<TmpEvalView, EvalError>(
            EvalError::DivisionByZero,
        ) && tmp_result(env, tmps, FlowView::BinExpr(BinOp::Mod, a, b)) == Err::<TmpEvalView, EvalError>(
            EvalError::DivisionByZero,
        ),
        x == i64::MIN && y == -1 ==> tmp_result(env, tmps, FlowView::BinExpr(BinOp::Div, a, b)) == Err::<TmpEvalView, EvalError>(
            EvalError::Overflow,
        ),
        y != 0 && !(x == i64::MIN && y == -1) ==> (tmp_result(env, tmps, FlowView::BinExpr(BinOp::Div, a, b)) matches Ok(
            TmpEvalView::Value(ValueView::Int(q)),
        ) && tmp_result(env, tmps, FlowView::BinExpr(BinOp::Mod, a, b)) matches Ok(TmpEvalView::Value(ValueView::Int(r)))
            && q * y + r == x && abs(r) < abs(y) && (r == 0 || (r < 0) == (x < 0))),
{
    if y != 0 && !(x == i64::MIN && y == -1) {
        let ax = abs(x);
        let ay = abs(y);
        let qa = ax / ay;
        let ra = ax % ay;
        assert(ax == qa * ay + ra && 0 <= ra < ay) by (nonlinear_arith)
            requires
                ay > 0,
                ax >= 0,
                qa == ax / ay,
                ra == ax % ay,
        ;
        assert(0 <= qa <= ax) by (nonlinear_arith)
            requires
                ay >= 1,
                ax >= 0,
                qa == ax / ay,
        ;
        assert(ax <= 0x8000_0000_0000_0000);
        if ay >= 2 {
            assert(qa * 2 <= ax) by (nonlinear_arith)
                requires
                    ay >= 2,
                    ax >= 0,
                    qa >= 0,
                    ax == qa * ay + ra,
                    ra >= 0,
            ;
        }
        let neg = (x < 0) != (y < 0);
        let qi: int = if neg { -qa } else { qa };
        let ri: int = if x < 0 { -ra } else { ra };
        assert(i64::MIN <= qi <= i64::MAX);
        assert(i64::MIN <= ri <= i64::MAX);
        assert(spec_div(x, y) == qi);
        assert(spec_rem(x, y) == ri);
        assert(qi * y + ri == x) by (nonlinear_arith)
            requires
                ax == qa * ay + ra,
                ax == (if x < 0 { -(x as int) } else { x as int }),
                ay == (if y < 0 { -(y as int) } else { y as int }),
                qi == (if (x < 0) != (y < 0) { -qa } else { qa }),
                ri == (if x < 0 { -ra } else { ra }),
        ;
    }
}

/// On boolean temporaries `&&` and `||` are conjunction and disjunction, `==`
/// and `!=` equality and its negation, and `!` is negation; negating an integer
/// gives its opposite, or `Overflow` for `i64::MIN`.
pub proof fn law_logic_and_negation(env: Map<Seq<char>, ValueView>, tmps: Seq<ValueView>, a: u64, b: u64, x: bool, y: bool, n: i64)
    requires
        a < tmps.len(),
        b < tmps.len(),
    ensures
        tmps[a as int] == ValueView::Bool(x) && tmps[b as int] == ValueView::Bool(y) ==> {
            &&& tmp_result(env, tmps, FlowView::BinExpr(BinOp::LogicalAnd, a, b)) == Ok::<TmpEvalView, EvalError>(
                TmpEvalView::Value(ValueView::Bool(x && y)),
            )
            &&& tmp_result(env, tmps, FlowView::BinExpr(BinOp::LogicalOr, a, b)) == Ok::<TmpEvalView, EvalError>(
                TmpEvalView::Value(ValueView::Bool(x || y)),
            )
            &&& tmp_result(env, tmps, FlowView::BinExpr(BinOp::Eq, a, b)) == Ok::<TmpEvalView, EvalError>(
                TmpEvalView::Value(ValueView::Bool(x == y)),
            )
            &&& tmp_result(env, tmps, FlowView::BinExpr(BinOp::InEq, a, b)) == Ok::<TmpEvalView, EvalError>(
                TmpEvalView::Value(ValueView::Bool(x != y)),
            )
            &&& tmp_result(env, tmps, FlowView::UniExpr(UniOp::LogicalInvert, a)) == Ok::<TmpEvalView, EvalError>(
                TmpEvalView::Value(ValueView::Bool(!x)),
            )
        },
        tmps[a as int] == ValueView::Int(n) && n != i64::MIN ==> tmp_result(env, tmps, FlowView::UniExpr(UniOp::Negate, a))
            == Ok::<TmpEvalView, EvalError>(TmpEvalView::Value(ValueView::Int((0 - n) as i64))),
        tmps[a as int] == ValueView::Int(i64::MIN) ==> tmp_result(env, tmps, FlowView::UniExpr(UniOp::Negate, a)) == Err::<
            TmpEvalView,
            EvalError,
        >(EvalError::Overflow),
{
}

/// Indexing an array temporary by an integer temporary gives the element at that
/// position when it lies inside the array, and `OutOfBounds` with the index
/// otherwise; an operation on two float temporaries is handed to the caller with
/// its operator and both operands, in order.
pub proof fn law_indexing_and_floats(env: Map<Seq<char>, ValueView>, tmps: Seq<ValueView>, a: u64, b: u64, vs: Seq<ValueView>, k: i64, op: BinOp, x: u64, y: u64)
    requires
        a < tmps.len(),
        b < tmps.len(),
    ensures
        tmps[a as int] == ValueView::Array(vs) && tmps[b as int] == ValueView::Int(k) ==> {
            &&& 0 <= k < vs.len() ==> tmp_result(env, tmps, FlowView::Indexing(a, b)) == Ok::<TmpEvalView, EvalError>(
                TmpEvalView::Value(vs[k as int]),
            )
            &&& !(0 <= k < vs.len()) ==> tmp_result(env, tmps, FlowView::Indexing(a, b)) == Err::<TmpEvalView, EvalError>(
                EvalError::OutOfBounds(k),
            )
        },
        tmps[a as int] == ValueView::Float(x) && tmps[b as int] == ValueView::Float(y) ==> tmp_result(
            env,
            tmps,
            FlowView::BinExpr(op, a, b),
        ) == Ok::<TmpEvalView, EvalError>(TmpEvalView::FloatOp(op, x, y)),
{
}

/// How far the evaluation of an expression got.
pub enum ExprStep {
    /// Every temporary has its value; this is the last one's.
    Done(Value),
    /// The next temporary needs work that is not done here (float arithmetic or
    /// a call): its value is to be pushed to the values before evaluating on.
    Pending(TmpEval),
}

/// The view of an [`ExprStep`].
pub enum ExprStepView {
    Done(ValueView),
    Pending(TmpEvalView),
}

impl ExprStep {
    pub open spec fn view(self) -> ExprStepView {
        match self {
            ExprStep::Done(v) => ExprStepView::Done(v.deep()),
            ExprStep::Pending(t) => ExprStepView::Pending(t.view()),
        }
    }
}

/// Evaluating the temporaries of `tmps` in order, from the first one that has no
/// value yet (`vals` holds the values of those before it): the value of the last
/// one when all get one, or the first that needs work not done here, with the
/// values before it, or the first error.
pub open spec fn run_tmps(env: Map<Seq<char>, ValueView>, tmps: Seq<crate::expr_flow::Tmp>, vals: Seq<ValueView>) -> Result<
    (ExprStepView, Seq<ValueView>),
    EvalError,
>
    decreases tmps.len() - vals.len(),
{
    if vals.len() >= tmps.len() {
        Ok((ExprStepView::Done(vals.last()), vals))
    } else {
        match tmp_result(env, vals, tmps[vals.len() as int].value@) {
            Err(e) => Err(e),
            Ok(TmpEvalView::Value(v)) => run_tmps(env, tmps, vals.push(v)),
            Ok(other) => Ok((ExprStepView::Pending(other), vals)),
        }
    }
}

/// Evaluates the temporaries of `expr` in order, from the first one that has no
/// value in `tmps` yet, pushing each value to `tmps`, until all have one or one
/// needs work that is not done here (as `run_tmps` says).
pub fn eval_expr(env: &Env, expr: &Expr, tmps: &mut Vec<Value>) -> (r: Result<ExprStep, EvalError>)
    requires
        old(tmps)@.len() <= expr.tmps@.len(),
        expr.tmps@.len() > 0,
        crate::expr_flow::well_ordered(expr.tmps@),
    ensures
        match run_tmps(env.values(), expr.tmps@, tmp_values(old(tmps)@)) {
            Ok((step, vals)) => r matches Ok(s) && s.view() == step && tmp_values(final(tmps)@) == vals,
            Err(e) => r == Err::<ExprStep, EvalError>(e),
        },
    decreases expr.tmps@.len() - old(tmps)@.len(),
{
    let n = expr.tmps.len();
    if tmps.len() >= n {
        let k = tmps.len();
        let last = tmps[k - 1].duplicate();
        proof {
            assert(tmp_values(tmps@).last() == tmps@[k - 1].deep());
        }
        return Ok(ExprStep::Done(last));
    }
    let i = tmps.len();
    proof {
        assert(refs_below(expr.tmps@[i as int].value, i as int));
    }
    match eval_tmp(env, tmps, expr, i) {
        Err(e) => Err(e),
        Ok(TmpEval::Value(v)) => {
            let ghost before = tmp_values(tmps@);
            let ghost vv = v.deep();
            tmps.push(v);
            proof {
                assert(tmp_values(tmps@) =~= before.push(vv));
            }
            eval_expr(env, expr, tmps)
        },
        Ok(other) => Ok(ExprStep::Pending(other)),
    }
}

} // verus!
