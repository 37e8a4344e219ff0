//! Type checking of flattened expressions and of the statements of function bodies.

use vstd::prelude::*;

use crate::ast::{BinOp, Block, Branch, Expr as AstExpr, ExprStmt, Ident, Literal, ModulePath, Stmt, TypeAnnotation, UniOp};
use crate::error::{AnalysisError, TypeError};
use crate::expr_flow::{flat_view, flatten, flatten_path, path_view, refs_below, tmp_views, well_ordered, Expr, Segment, Tmp, Value, ValueView};
use crate::control_flow::{AssignmentData, ExprData, LocalVarDeclData, ReturnData};
use crate::span::Span;
use crate::types::{same_type, same_types, AbstractType, FnType, RecordType, TypeTable};

verus! {

/// Two names are the same.
pub open spec fn same_name(a: Ident, b: Ident) -> bool {
    a.0@ == b.0@
}

/// Two module paths, given by their names, name the same thing.
pub open spec fn same_path(a: Seq<Ident>, b: Seq<Ident>) -> bool {
    &&& a.len() == b.len()
    &&& forall|i: int| 0 <= i < a.len() ==> same_name(#[trigger] a[i], b[i])
}

/// The type bound to `name` by the last binding of it in `s`.
pub open spec fn lookup_name(s: Seq<(Ident, AbstractType)>, name: Ident) -> Option<AbstractType>
    decreases s.len(),
{
    if s.len() == 0 {
        None
    } else if same_name(s.last().0, name) {
        Some(s.last().1)
    } else {
        lookup_name(s.drop_last(), name)
    }
}

/// The type bound to `path` by the last binding of it in `s`.
pub open spec fn lookup_path(s: Seq<(ModulePath, AbstractType)>, path: Seq<Ident>) -> Option<AbstractType>
    decreases s.len(),
{
    if s.len() == 0 {
        None
    } else if same_path(s.last().0.0@, path) {
        Some(s.last().1)
    } else {
        lookup_path(s.drop_last(), path)
    }
}

/// The type bound to `id` by the first binding of it in `s`.
pub open spec fn lookup_id(s: Seq<(u64, AbstractType)>, id: u64) -> Option<AbstractType>
    decreases s.len(),
{
    if s.len() == 0 {
        None
    } else if s[0].0 == id {
        Some(s[0].1)
    } else {
        lookup_id(s.drop_first(), id)
    }
}

pub fn names_equal(a: &Ident, b: &Ident) -> (r: bool)
    ensures
        r == same_name(*a, *b),
{
    a.0 == b.0
}

pub fn paths_equal(a: &ModulePath, b: &ModulePath) -> (r: bool)
    ensures
        r == same_path(a.0@, b.0@),
{
    if a.0.len() != b.0.len() {
        return false;
    }
    let mut i: usize = 0;
    while i < a.0.len()
        invariant
            a.0@.len() == b.0@.len(),
            i <= a.0@.len(),
            forall|j: int| 0 <= j < i ==> same_name(a.0@[j], b.0@[j]),
        decreases a.0.len() - i,
    {
        if !names_equal(&a.0[i], &b.0[i]) {
            return false;
        }
        i = i + 1;
    }
    true
}

/// The type bound to `name` (the last binding wins).
pub fn find_name(s: &Vec<(Ident, AbstractType)>, name: &Ident) -> (r: Option<AbstractType>)
    ensures
        r == lookup_name(s@, *name),
{
    let mut i = s.len();
    assert(s@.subrange(0, i as int) =~= s@);
    while i > 0
        invariant
            i <= s@.len(),
            lookup_name(s@, *name) == lookup_name(s@.subrange(0, i as int), *name),
        decreases i,
    {
        let ghost prefix = s@.subrange(0, i as int);
        assert(prefix.drop_last() =~= s@.subrange(0, i - 1));
        if names_equal(&s[i - 1].0, name) {
            return Some(s[i - 1].1.duplicate());
        }
        i = i - 1;
    }
    None
}

/// The type bound to `path` (the last binding wins).
pub fn find_path(s: &Vec<(ModulePath, AbstractType)>, path: &ModulePath) -> (r: Option<AbstractType>)
    ensures
        r == lookup_path(s@, path.0@),
{
    let mut i = s.len();
    assert(s@.subrange(0, i as int) =~= s@);
    while i > 0
        invariant
            i <= s@.len(),
            lookup_path(s@, path.0@) == lookup_path(s@.subrange(0, i as int), path.0@),
        decreases i,
    {
        let ghost prefix = s@.subrange(0, i as int);
        assert(prefix.drop_last() =~= s@.subrange(0, i - 1));
        if paths_equal(&s[i - 1].0, path) {
            return Some(s[i - 1].1.duplicate());
        }
        i = i - 1;
    }
    None
}

/// What the type checker knows while checking one function: the types of type
/// variables, of the variables in scope, of the functions in scope, and of the
/// temporaries of the expression being checked.
pub struct TypingContext {
    pub type_vars: Vec<(u64, AbstractType)>,
    pub var_types: Vec<(Ident, AbstractType)>,
    pub fn_types: Vec<(ModulePath, AbstractType)>,
    pub tmp_types: Vec<AbstractType>,
}

impl TypingContext {
    /// A context that knows nothing.
    pub fn empty() -> (r: TypingContext)
        ensures
            r.type_vars@.len() == 0,
            r.var_types@.len() == 0,
            r.fn_types@.len() == 0,
            r.tmp_types@.len() == 0,
    {
        TypingContext {
            type_vars: Vec::new(),
            var_types: Vec::new(),
            fn_types: Vec::new(),
            tmp_types: Vec::new(),
        }
    }

    /// The type of a type variable.
    pub fn get_type_var(&self, id: u64) -> (r: Option<&AbstractType>)
        ensures
            r matches Some(t) ==> lookup_id(self.type_vars@, id) == Some(*t),
            r is None ==> lookup_id(self.type_vars@, id) is None,
    {
        let mut i: usize = 0;
        assert(self.type_vars@.subrange(0, self.type_vars@.len() as int) =~= self.type_vars@);
        while i < self.type_vars.len()
            invariant
                i <= self.type_vars@.len(),
                lookup_id(self.type_vars@, id) == lookup_id(self.type_vars@.subrange(i as int, self.type_vars@.len() as int), id),
            decreases self.type_vars.len() - i,
        {
            let ghost rest = self.type_vars@.subrange(i as int, self.type_vars@.len() as int);
            assert(rest.drop_first() =~= self.type_vars@.subrange(i + 1, self.type_vars@.len() as int));
            if self.type_vars[i].0 == id {
                return Some(&self.type_vars[i].1);
            }
            i = i + 1;
        }
        None
    }
}

/// The variables of one lexical scope.
pub struct ScopedData {
    pub vars: Vec<(Ident, AbstractType)>,
}

impl ScopedData {
    /// A copy of the scope.
    pub fn fork(&self) -> (r: ScopedData)
        ensures
            r.vars@ == self.vars@,
    {
        let mut vars: Vec<(Ident, AbstractType)> = Vec::new();
        let mut i: usize = 0;
        while i < self.vars.len()
            invariant
                i <= self.vars@.len(),
                vars@ == self.vars@.subrange(0, i as int),
            decreases self.vars.len() - i,
        {
            vars.push((self.vars[i].0.duplicate(), self.vars[i].1.duplicate()));
            i = i + 1;
        }
        ScopedData { vars }
    }
}

/// `+ - * / %` on two ints or two floats.
pub open spec fn arith_type(l: AbstractType, r: AbstractType) -> Option<AbstractType> {
    match (l, r) {
        (AbstractType::Int, AbstractType::Int) => Some(AbstractType::Int),
        (AbstractType::Float, AbstractType::Float) => Some(AbstractType::Float),
        _ => None,
    }
}

/// The type of `lhs op rhs`, if the operand types are accepted.
pub open spec fn spec_bin_op_type(op: BinOp, l: AbstractType, r: AbstractType) -> Option<AbstractType> {
    match op {
        BinOp::Add | BinOp::Sub | BinOp::Mul | BinOp::Div | BinOp::Mod => arith_type(l, r),
        BinOp::LogicalAnd | BinOp::LogicalOr => if l == AbstractType::Bool && r
            == AbstractType::Bool {
            Some(AbstractType::Bool)
        } else {
            None
        },
        BinOp::GreaterEq | BinOp::LesserEq | BinOp::Greater | BinOp::Lesser => if arith_type(
            l,
            r,
        ) is Some {
            Some(AbstractType::Bool)
        } else {
            None
        },
        BinOp::Eq | BinOp::InEq => if l == r {
            Some(AbstractType::Bool)
        } else {
            None
        },
    }
}

/// The type rules of the binary operators: arithmetic takes two ints or two
/// floats and gives that type; a comparison takes exactly the operands that
/// arithmetic takes and gives a bool; `&&` and `||` take two bools; `==` and
/// `!=` take two operands of one type; every other pair is refused.
pub proof fn law_bin_op_types(op: BinOp, l: AbstractType, r: AbstractType)
    ensures
        (op == BinOp::Add || op == BinOp::Sub || op == BinOp::Mul || op == BinOp::Div || op == BinOp::Mod) ==> spec_bin_op_type(
            op,
            l,
            r,
        ) == (if l == r && (l == AbstractType::Int || l == AbstractType::Float) {
            Some(l)
        } else {
            None
        }),
        (op == BinOp::Lesser || op == BinOp::LesserEq || op == BinOp::Greater || op == BinOp::GreaterEq) ==> spec_bin_op_type(
            op,
            l,
            r,
        ) == (if l == r && (l == AbstractType::Int || l == AbstractType::Float) {
            Some(AbstractType::Bool)
        } else {
            None
        }),
        (op == BinOp::Lesser || op == BinOp::LesserEq || op == BinOp::Greater || op == BinOp::GreaterEq) ==> (spec_bin_op_type(
            op,
            l,
            r,
        ) is Some <==> spec_bin_op_type(BinOp::Add, l, r) is Some),
        (op == BinOp::LogicalAnd || op == BinOp::LogicalOr) ==> spec_bin_op_type(op, l, r) == (if l == AbstractType::Bool && r
            == AbstractType::Bool {
            Some(AbstractType::Bool)
        } else {
            None
        }),
        (op == BinOp::Eq || op == BinOp::InEq) ==> spec_bin_op_type(op, l, r) == (if l == r {
            Some(AbstractType::Bool)
        } else {
            None
        }),
{
}

/// The operand types that an arithmetic, logical or comparison operator expects.
pub open spec fn spec_expected_operands(op: BinOp) -> Seq<AbstractType> {
    match op {
        BinOp::LogicalAnd | BinOp::LogicalOr => seq![AbstractType::Bool],
        _ => seq![AbstractType::Int, AbstractType::Float],
    }
}

/// The type of `op e` where `e` has type `t`, if accepted.
pub open spec fn spec_uni_op_type(op: UniOp, t: AbstractType) -> Option<AbstractType> {
    match op {
        UniOp::Negate => if t == AbstractType::Int || t == AbstractType::Float {
            Some(t)
        } else {
            None
        },
        UniOp::LogicalInvert => if t == AbstractType::Bool {
            Some(t)
        } else {
            None
        },
    }
}

/// Checks that the synthesized type `synthesis` meets `constraint`: the types must be equal.
pub fn resolve_types(synthesis: &AbstractType, constraint: &AbstractType, span: Span) -> (r: Result<(), AnalysisError>)
    ensures
        r is Ok <==> *synthesis == *constraint,
        r is Err ==> r == Err::<(), AnalysisError>(
            AnalysisError::TypeError(
                TypeError::UnexpectedType { found: *synthesis, expected: *constraint, span },
            ),
        ),
{
    if same_type(synthesis, constraint) {
        Ok(())
    } else {
        Err(
            AnalysisError::TypeError(
                TypeError::UnexpectedType {
                    found: synthesis.duplicate(),
                    expected: constraint.duplicate(),
                    span,
                },
            ),
        )
    }
}

/// The type of a binary operation on operands of the given types.
pub fn resolve_bin_op(op: &BinOp, lhs: &AbstractType, rhs: &AbstractType, span: Span) -> (r: Result<AbstractType, AnalysisError>)
    ensures
        r is Ok <==> spec_bin_op_type(*op, *lhs, *rhs) is Some,
        r matches Ok(t) ==> spec_bin_op_type(*op, *lhs, *rhs) == Some(t),
        r matches Err(AnalysisError::TypeError(TypeError::BinOp { op: o, expected, lhs: l, rhs: rr, span: s })) ==> o == *op
            && l == *lhs && rr == *rhs && s == span && expected@ == spec_expected_operands(*op),
        r is Err && (*op == BinOp::Eq || *op == BinOp::InEq) ==> r == Err::<AbstractType, AnalysisError>(
            AnalysisError::TypeError(TypeError::UnexpectedType { found: *lhs, expected: *rhs, span }),
        ),
        r is Err && !(*op == BinOp::Eq || *op == BinOp::InEq) ==> (r matches Err(
            AnalysisError::TypeError(TypeError::BinOp { .. }),
        )),
{
    let arith = match (lhs, rhs) {
        (AbstractType::Int, AbstractType::Int) => Some(AbstractType::Int),
        (AbstractType::Float, AbstractType::Float) => Some(AbstractType::Float),
        _ => None,
    };
    let err_expected = match op {
        BinOp::LogicalAnd | BinOp::LogicalOr => vec![AbstractType::Bool],
        _ => vec![AbstractType::Int, AbstractType::Float],
    };
    assert(err_expected@ =~= spec_expected_operands(*op));
    match op {
        BinOp::Add | BinOp::Sub | BinOp::Mul | BinOp::Div | BinOp::Mod => match arith {
            Some(t) => Ok(t),
            None => Err(
                AnalysisError::TypeError(
                    TypeError::BinOp {
                        op: *op,
                        expected: err_expected,
                        lhs: lhs.duplicate(),
                        rhs: rhs.duplicate(),
                        span,
                    },
                ),
            ),
        },
        BinOp::LogicalAnd | BinOp::LogicalOr => match (lhs, rhs) {
            (AbstractType::Bool, AbstractType::Bool) => Ok(AbstractType::Bool),
            _ => Err(
                AnalysisError::TypeError(
                    TypeError::BinOp {
                        op: *op,
                        expected: err_expected,
                        lhs: lhs.duplicate(),
                        rhs: rhs.duplicate(),
                        span,
                    },
                ),
            ),
        },
        BinOp::GreaterEq | BinOp::LesserEq | BinOp::Greater | BinOp::Lesser => match arith {
            Some(_) => Ok(AbstractType::Bool),
            None => Err(
                AnalysisError::TypeError(
                    TypeError::BinOp {
                        op: *op,
                        expected: err_expected,
                        lhs: lhs.duplicate(),
                        rhs: rhs.duplicate(),
                        span,
                    },
                ),
            ),
        },
        BinOp::Eq | BinOp::InEq => {
            resolve_types(lhs, rhs, span)?;
            Ok(AbstractType::Bool)
        },
    }
}

/// The type of a unary operation on an operand of the given type.
pub fn resolve_uni_op(op: &UniOp, tmp_type: &AbstractType, span: Span) -> (r: Result<AbstractType, AnalysisError>)
    ensures
        r is Ok <==> spec_uni_op_type(*op, *tmp_type) is Some,
        r matches Ok(t) ==> spec_uni_op_type(*op, *tmp_type) == Some(t),
        r matches Err(e) ==> (e matches AnalysisError::TypeError(TypeError::UniOp { op: o, expr, expected, span: sp })
            && o == *op && expr == *tmp_type && sp == span && expected@ == match *op {
            UniOp::Negate => seq![AbstractType::Int, AbstractType::Float],
            UniOp::LogicalInvert => seq![AbstractType::Bool],
        }),
{
    match op {
        UniOp::Negate => match tmp_type {
            AbstractType::Int | AbstractType::Float => Ok(tmp_type.duplicate()),
            _ => Err(
                AnalysisError::TypeError(
                    TypeError::UniOp {
                        op: *op,
                        expected: vec![AbstractType::Int, AbstractType::Float],
                        expr: tmp_type.duplicate(),
                        span,
                    },
                ),
            ),
        },
        UniOp::LogicalInvert => match tmp_type {
            AbstractType::Bool => Ok(tmp_type.duplicate()),
            _ => Err(
                AnalysisError::TypeError(
                    TypeError::UniOp {
                        op: *op,
                        expected: vec![AbstractType::Bool],
                        expr: tmp_type.duplicate(),
                        span,
                    },
                ),
            ),
        },
    }
}

/// The element type of an indexing `array[indexer]`.
pub fn resolve_indexing(array: &AbstractType, indexer: &AbstractType, span: Span) -> (r: Result<AbstractType, AnalysisError>)
    ensures
        !(array is Array) ==> r == Err::<AbstractType, AnalysisError>(
            AnalysisError::TypeError(TypeError::NotAnArray { found: *array, span }),
        ),
        array is Array && *indexer != AbstractType::Int ==> r == Err::<AbstractType, AnalysisError>(
            AnalysisError::TypeError(TypeError::InvalidIndex { found: *indexer, span }),
        ),
        array is Array && *indexer == AbstractType::Int ==> r == Ok::<AbstractType, AnalysisError>(
            *array->element_type,
        ),
{
    let element = match array {
        AbstractType::Array { element_type, .. } => element_type.duplicate(),
        _ => {
            return Err(
                AnalysisError::TypeError(TypeError::NotAnArray { found: array.duplicate(), span }),
            );
        },
    };
    match indexer {
        AbstractType::Int => Ok(element),
        _ => Err(AnalysisError::TypeError(TypeError::InvalidIndex { found: indexer.duplicate(), span })),
    }
}

/// The type of an array initialized from a list of elements of the given types:
/// all elements must have the type of the first.
pub fn resolve_array_list(element_types: &Vec<AbstractType>, span: Span) -> (r: Result<AbstractType, AnalysisError>)
    requires
        element_types@.len() > 0,
    ensures
        r is Ok <==> (forall|i: int| 0 <= i < element_types@.len() ==> #[trigger] element_types@[i] == element_types@[0]),
        r matches Ok(t) ==> t == (AbstractType::Array {
            element_type: Box::new(element_types@[0]),
            size: element_types@.len() as u64,
        }),
        r matches Err(e) ==> (e matches AnalysisError::TypeError(TypeError::HeterogenousArray { expected, found, index, .. })
            && expected == element_types@[0] && 0 < index < element_types@.len() && found == element_types@[index as int]
            && found != expected && forall|j: int| 0 < j < index ==> #[trigger] element_types@[j] == element_types@[0]),
{
    let expected = element_types[0].duplicate();
    let mut i: usize = 1;
    while i < element_types.len()
        invariant
            1 <= i <= element_types@.len(),
            expected == element_types@[0],
            forall|j: int| 0 <= j < i ==> #[trigger] element_types@[j] == element_types@[0],
        decreases element_types.len() - i,
    {
        if !same_type(&element_types[i], &expected) {
            return Err(
                AnalysisError::TypeError(
                    TypeError::HeterogenousArray {
                        expected,
                        found: element_types[i].duplicate(),
                        index: i,
                        span,
                    },
                ),
            );
        }
        i = i + 1;
    }
    Ok(AbstractType::Array { element_type: Box::new(expected), size: element_types.len() as u64 })
}


/// `p` is the one-segment path `name`.
pub open spec fn is_single(p: ModulePath, name: Ident) -> bool {
    p.0@.len() == 1 && same_name(p.0@[0], name)
}

/// The type of the last function bound to the one-segment path `name`.
pub open spec fn lookup_fn_name(s: Seq<(ModulePath, AbstractType)>, name: Ident) -> Option<AbstractType>
    decreases s.len(),
{
    if s.len() == 0 {
        None
    } else if is_single(s.last().0, name) {
        Some(s.last().1)
    } else {
        lookup_fn_name(s.drop_last(), name)
    }
}

/// The type of a name used as a value: a variable in scope, else a function of
/// that name.
pub open spec fn binding_type(vars: Seq<(Ident, AbstractType)>, fns: Seq<(ModulePath, AbstractType)>, name: Ident) -> Option<AbstractType> {
    match lookup_name(vars, name) {
        Some(t) => Some(t),
        None => lookup_fn_name(fns, name),
    }
}

/// The type of the callee of a call through `path`: a variable of that name if
/// the path has one segment and such a variable is in scope, else the function
/// bound to the path.
pub open spec fn callee_type(vars: Seq<(Ident, AbstractType)>, fns: Seq<(ModulePath, AbstractType)>, path: Seq<Ident>) -> Option<AbstractType> {
    if path.len() == 1 && lookup_name(vars, path[0]) is Some {
        lookup_name(vars, path[0])
    } else {
        lookup_path(fns, path)
    }
}

/// The type of a call of a value of type `callee` with `nargs` arguments (`None`
/// for a call written without an argument list): a checked function returns its
/// return type when the argument count equals its parameter count; an unchecked
/// function returns its return type whatever the arguments.
pub open spec fn call_type(table: &TypeTable, callee: AbstractType, nargs: nat) -> Option<AbstractType> {
    match callee {
        AbstractType::Function(i) => if i < table.fns@.len() && table.fns@[i as int].params@.len() == nargs {
            Some(table.fns@[i as int].return_type)
        } else {
            None
        },
        AbstractType::UncheckedFunction(i) => if i < table.unchecked_fns@.len() {
            Some(table.unchecked_fns@[i as int])
        } else {
            None
        },
        _ => None,
    }
}

/// The fields of a record or width-constraint type.
pub open spec fn struct_fields(table: &TypeTable, t: AbstractType) -> Option<Seq<(Ident, AbstractType)>> {
    match t {
        AbstractType::Record(i) => if i < table.records@.len() {
            Some(table.records@[i as int].fields@)
        } else {
            None
        },
        AbstractType::WidthConstraint(i) => if i < table.widths@.len() {
            Some(table.widths@[i as int]@)
        } else {
            None
        },
        _ => None,
    }
}

/// The type reached by following `segs[k..]` from a value of type `current`: each
/// segment names a field of the current struct type, and an indexed segment also
/// indexes that field, which must be an array, by an `int` temporary.
pub open spec fn walk_fields(table: &TypeTable, tys: Seq<AbstractType>, segs: Seq<Segment>, k: int, current: AbstractType) -> Option<AbstractType>
    decreases segs.len() - k,
{
    if k < 0 || k >= segs.len() {
        Some(current)
    } else {
        match struct_fields(table, current) {
            None => None,
            Some(fs) => match segs[k] {
                Segment::Ident(name) => match lookup_name(fs, name) {
                    Some(t) => walk_fields(table, tys, segs, k + 1, t),
                    None => None,
                },
                Segment::Indexing(name, tmp) => match lookup_name(fs, name) {
                    Some(AbstractType::Array { element_type, .. }) => if tmp < tys.len() && tys[tmp as int] == AbstractType::Int {
                        walk_fields(table, tys, segs, k + 1, *element_type)
                    } else {
                        None
                    },
                    _ => None,
                },
            },
        }
    }
}

/// Why a field access has no type.
pub enum AccessFailure {
    /// The root variable is not in scope.
    Unbound,
    /// The value reached after the segment at this index is no struct.
    NotAStruct(usize),
    /// The struct reached has no field of this name.
    NoField(Ident),
    /// An index temporary is not an `int`.
    BadIndex,
    /// An indexed value is not an array.
    NotArray,
}

/// The first failure of the walk from segment `k` on, starting at a value of
/// type `current`, in the order the checks are made; `None` when it succeeds.
pub open spec fn walk_failure(table: &TypeTable, tys: Seq<AbstractType>, segs: Seq<Segment>, k: int, current: AbstractType) -> Option<AccessFailure>
    decreases segs.len() - k,
{
    if k < 0 || k >= segs.len() {
        None
    } else {
        match struct_fields(table, current) {
            None => Some(AccessFailure::NotAStruct((k - 1) as usize)),
            Some(fs) => match segs[k] {
                Segment::Ident(name) => match lookup_name(fs, name) {
                    Some(t) => walk_failure(table, tys, segs, k + 1, t),
                    None => Some(AccessFailure::NoField(name)),
                },
                Segment::Indexing(name, tmp) => match lookup_name(fs, name) {
                    None => Some(AccessFailure::NoField(name)),
                    Some(ft) => if !(tmp < tys.len() && tys[tmp as int] == AbstractType::Int) {
                        Some(AccessFailure::BadIndex)
                    } else {
                        match ft {
                            AbstractType::Array { element_type, .. } => walk_failure(table, tys, segs, k + 1, *element_type),
                            _ => Some(AccessFailure::NotArray),
                        }
                    },
                },
            },
        }
    }
}

/// The first failure of a field access, in the order the checks are made;
/// `None` when it has a type.
pub open spec fn access_failure(table: &TypeTable, vars: Seq<(Ident, AbstractType)>, tys: Seq<AbstractType>, segs: Seq<Segment>) -> Option<AccessFailure> {
    if segs.len() == 0 {
        Some(AccessFailure::NotAStruct(0))
    } else {
        match segs[0] {
            Segment::Ident(root) => match lookup_name(vars, root) {
                Some(t) => walk_failure(table, tys, segs, 1, t),
                None => Some(AccessFailure::Unbound),
            },
            Segment::Indexing(root, tmp) => match lookup_name(vars, root) {
                None => Some(AccessFailure::Unbound),
                Some(t) => if !(tmp < tys.len() && tys[tmp as int] == AbstractType::Int) {
                    Some(AccessFailure::BadIndex)
                } else {
                    match t {
                        AbstractType::Array { element_type, .. } => walk_failure(table, tys, segs, 1, *element_type),
                        _ => Some(AccessFailure::NotArray),
                    }
                },
            },
        }
    }
}

/// The type of a field access `root.f1.f2...`, whose root is a variable (possibly
/// indexed).
pub open spec fn field_access_type(table: &TypeTable, vars: Seq<(Ident, AbstractType)>, tys: Seq<AbstractType>, segs: Seq<Segment>) -> Option<AbstractType> {
    if segs.len() == 0 {
        None
    } else {
        match segs[0] {
            Segment::Ident(root) => match lookup_name(vars, root) {
                Some(t) => walk_fields(table, tys, segs, 1, t),
                None => None,
            },
            Segment::Indexing(root, tmp) => match lookup_name(vars, root) {
                Some(AbstractType::Array { element_type, .. }) => if tmp < tys.len() && tys[tmp as int] == AbstractType::Int {
                    walk_fields(table, tys, segs, 1, *element_type)
                } else {
                    None
                },
                _ => None,
            },
        }
    }
}

/// Some entry of `inits` is named `name`.
pub open spec fn named_in(inits: Seq<(Ident, u64)>, name: Ident) -> bool {
    exists|k: int| 0 <= k < inits.len() && same_name(#[trigger] inits[k].0, name)
}

/// The names of the fields in `fs` that some entry of `inits` names, in field order.
pub open spec fn initialized_names(fs: Seq<(Ident, AbstractType)>, inits: Seq<(Ident, u64)>) -> Seq<Ident>
    decreases fs.len(),
{
    if fs.len() == 0 {
        Seq::empty()
    } else {
        let rest = initialized_names(fs.drop_last(), inits);
        if named_in(inits, fs.last().0) {
            rest.push(fs.last().0)
        } else {
            rest
        }
    }
}

/// A struct initialization `path { f1: t1, ... }` is well typed: `path` names a
/// record type, every initialized name is a field of it and is initialized once,
/// every field is initialized, and each initializer has the field's type.
pub open spec fn struct_init_ok(table: &TypeTable, path: Seq<Ident>, fields: Seq<(Ident, u64)>, tys: Seq<AbstractType>) -> bool {
    match lookup_path(table.names@, path) {
        Some(AbstractType::Record(r)) => {
            &&& r < table.records@.len()
            &&& fields.len() == table.records@[r as int].fields@.len()
            &&& forall|j: int, k: int| 0 <= j < k < fields.len() ==> !same_name(#[trigger] fields[j].0, #[trigger] fields[k].0)
            &&& forall|k: int| 0 <= k < fields.len() ==> {
                &&& (#[trigger] fields[k]).1 < tys.len()
                &&& lookup_name(table.records@[r as int].fields@, fields[k].0) == Some(tys[fields[k].1 as int])
            }
        },
        _ => false,
    }
}


/// The type of the last function bound to the one-segment path `name`.
pub fn find_fn_name(s: &Vec<(ModulePath, AbstractType)>, name: &Ident) -> (r: Option<AbstractType>)
    ensures
        r == lookup_fn_name(s@, *name),
{
    let mut i = s.len();
    assert(s@.subrange(0, i as int) =~= s@);
    while i > 0
        invariant
            i <= s@.len(),
            lookup_fn_name(s@, *name) == lookup_fn_name(s@.subrange(0, i as int), *name),
        decreases i,
    {
        let ghost prefix = s@.subrange(0, i as int);
        assert(prefix.drop_last() =~= s@.subrange(0, i - 1));
        let p = &s[i - 1].0;
        if p.0.len() == 1 && names_equal(&p.0[0], name) {
            return Some(s[i - 1].1.duplicate());
        }
        i = i - 1;
    }
    None
}

/// The type of a variable or function name used as a value.
pub fn resolve_binding(scope: &ScopedData, context: &TypingContext, name: &Ident, span: Span) -> (r: Result<
    AbstractType,
    AnalysisError,
>)
    ensures
        r is Ok <==> binding_type(scope.vars@, context.fn_types@, *name) is Some,
        r matches Ok(t) ==> binding_type(scope.vars@, context.fn_types@, *name) == Some(t),
        r is Err ==> r == Err::<AbstractType, AnalysisError>(AnalysisError::UnknownBinding(*name, span)),
{
    match find_name(&scope.vars, name) {
        Some(t) => Ok(t),
        None => match find_fn_name(&context.fn_types, name) {
            Some(t) => Ok(t),
            None => Err(AnalysisError::UnknownBinding(name.duplicate(), span)),
        },
    }
}

/// The type of the function that a module path such as `mod1::f` names.
pub fn resolve_mod_access(context: &TypingContext, path: &ModulePath, span: Span) -> (r: Result<
    AbstractType,
    AnalysisError,
>)
    ensures
        r is Ok <==> lookup_path(context.fn_types@, path.0@) is Some,
        r matches Ok(t) ==> lookup_path(context.fn_types@, path.0@) == Some(t),
        r matches Err(e) ==> (e matches AnalysisError::UnknownFn(p, s) && p.0@ == path.0@ && s == span),
{
    match find_path(&context.fn_types, path) {
        Some(t) => Ok(t),
        None => Err(AnalysisError::UnknownFn(path.duplicate(), span)),
    }
}

/// The type of the callee named by `path` in a call.
pub fn resolve_callee(scope: &ScopedData, context: &TypingContext, path: &ModulePath, span: Span) -> (r: Result<
    AbstractType,
    AnalysisError,
>)
    ensures
        r is Ok <==> callee_type(scope.vars@, context.fn_types@, path.0@) is Some,
        r matches Ok(t) ==> callee_type(scope.vars@, context.fn_types@, path.0@) == Some(t),
        r matches Err(e) ==> (e matches AnalysisError::UnknownFn(p, s) && p.0@ == path.0@ && s == span),
{
    if path.0.len() == 1 {
        if let Some(t) = find_name(&scope.vars, &path.0[0]) {
            return Ok(t);
        }
    }
    resolve_mod_access(context, path, span)
}

/// The type of a call of a value of type `fn_value_type` with the arguments
/// `args` (temporaries; `None` when the call has no argument list).
///
/// A checked function must get as many arguments as it has parameters; the
/// argument types themselves are not compared with the parameter types. An
/// unchecked function accepts any arguments.
pub fn resolve_fn_call(table: &TypeTable, fn_value_type: &AbstractType, args: &Option<Vec<u64>>, span: Span) -> (r: Result<
    AbstractType,
    AnalysisError,
>)
    ensures
        r is Ok <==> call_type(table, *fn_value_type, match args { Some(a) => a@.len(), None => 0 }) is Some,
        r matches Ok(t) ==> call_type(table, *fn_value_type, match args { Some(a) => a@.len(), None => 0 }) == Some(t),
        r matches Err(e) ==> match *fn_value_type {
            AbstractType::Function(i) => i < table.fns@.len() ==> e == AnalysisError::TypeError(TypeError::Arity {
                fn_type: *fn_value_type,
                found_args: match args { Some(a) => a@.len() as usize, None => 0 },
                expected_param: table.fns@[i as int].params@.len() as usize,
                span,
            }),
            _ => e == AnalysisError::TypeError(TypeError::NotAFunction { found: *fn_value_type, span }),
        },
{
    let found_args: usize = match args {
        Some(a) => a.len(),
        None => 0,
    };
    match fn_value_type {
        AbstractType::Function(i) => {
            if *i >= table.fns.len() as u64 {
                return Err(AnalysisError::TypeError(TypeError::NotAFunction { found: fn_value_type.duplicate(), span }));
            }
            let f = &table.fns[*i as usize];
            if f.params.len() != found_args {
                return Err(
                    AnalysisError::TypeError(
                        TypeError::Arity {
                            fn_type: fn_value_type.duplicate(),
                            found_args,
                            expected_param: f.params.len(),
                            span,
                        },
                    ),
                );
            }
            Ok(f.return_type.duplicate())
        },
        AbstractType::UncheckedFunction(i) => {
            if *i >= table.unchecked_fns.len() as u64 {
                return Err(AnalysisError::TypeError(TypeError::NotAFunction { found: fn_value_type.duplicate(), span }));
            }
            Ok(table.unchecked_fns[*i as usize].duplicate())
        },
        _ => Err(AnalysisError::TypeError(TypeError::NotAFunction { found: fn_value_type.duplicate(), span })),
    }
}


/// The fields of a record or width-constraint type, if `t` is one.
fn fields_of<'a>(table: &'a TypeTable, t: &AbstractType) -> (r: Option<&'a Vec<(Ident, AbstractType)>>)
    ensures
        r is Some <==> struct_fields(table, *t) is Some,
        r matches Some(fs) ==> struct_fields(table, *t) == Some(fs@),
{
    match t {
        AbstractType::Record(i) => if *i < table.records.len() as u64 {
            Some(&table.records[*i as usize].fields)
        } else {
            None
        },
        AbstractType::WidthConstraint(i) => if *i < table.widths.len() as u64 {
            Some(&table.widths[*i as usize])
        } else {
            None
        },
        _ => None,
    }
}

/// Checks that the temporary `tmp` has type `int`, as an index must.
fn check_index(tys: &Vec<AbstractType>, tmp: u64, span: Span) -> (r: Result<(), AnalysisError>)
    ensures
        r is Ok <==> (tmp < tys@.len() && tys@[tmp as int] == AbstractType::Int),
        r matches Err(e) ==> (tmp < tys@.len() ==> e == AnalysisError::TypeError(TypeError::InvalidIndex { found: tys@[tmp as int], span })),
        r matches Err(e) ==> e matches AnalysisError::TypeError(TypeError::InvalidIndex { span: s, .. }) && s == span,
{
    if tmp >= tys.len() as u64 {
        return Err(AnalysisError::TypeError(TypeError::InvalidIndex { found: AbstractType::Unit, span }));
    }
    match &tys[tmp as usize] {
        AbstractType::Int => Ok(()),
        t => Err(AnalysisError::TypeError(TypeError::InvalidIndex { found: t.duplicate(), span })),
    }
}

/// The name a segment of a field access stands for.
pub open spec fn segment_name(s: Segment) -> Ident {
    match s {
        Segment::Ident(n) => n,
        Segment::Indexing(n, _) => n,
    }
}

/// The type of a field access such as `a.b[i].c`: the root is a variable in scope
/// (possibly indexed), and each further segment names a field of the struct type
/// reached so far (possibly indexed). Index temporaries must be `int`s and indexed
/// values arrays.
pub fn resolve_field_access(
    table: &TypeTable,
    scope: &ScopedData,
    tys: &Vec<AbstractType>,
    segs: &Vec<Segment>,
    span: Span,
) -> (r: Result<AbstractType, AnalysisError>)
    ensures
        r is Ok <==> field_access_type(table, scope.vars@, tys@, segs@) is Some,
        r matches Ok(t) ==> field_access_type(table, scope.vars@, tys@, segs@) == Some(t),
        r matches Err(AnalysisError::UnknownBinding(n, s)) ==> s == span && segs@.len() > 0 && n == segment_name(segs@[0])
            && lookup_name(scope.vars@, n) is None,
        r matches Err(AnalysisError::TypeError(TypeError::UnknownField { name, span: s, .. })) ==> s == span && exists|k: int|
            1 <= k < segs@.len() && #[trigger] segment_name(segs@[k]) == name,
        segs@.len() == 0 ==> (r matches Err(AnalysisError::TypeError(TypeError::FieldAccessOnNonStruct { index, span: s, .. }))
            && index == 0 && s == span),
        match access_failure(table, scope.vars@, tys@, segs@) {
            None => r is Ok,
            Some(AccessFailure::Unbound) => r matches Err(AnalysisError::UnknownBinding(_, _)),
            Some(AccessFailure::NotAStruct(i)) => r matches Err(AnalysisError::TypeError(TypeError::FieldAccessOnNonStruct { index, .. }))
                && index == i,
            Some(AccessFailure::NoField(n)) => r matches Err(AnalysisError::TypeError(TypeError::UnknownField { name, .. })) && name == n,
            Some(AccessFailure::BadIndex) => r matches Err(AnalysisError::TypeError(TypeError::InvalidIndex { .. })),
            Some(AccessFailure::NotArray) => r matches Err(AnalysisError::TypeError(TypeError::NotAnArray { .. })),
        },
{
    if segs.len() == 0 {
        return Err(AnalysisError::TypeError(TypeError::FieldAccessOnNonStruct {
            index: 0,
            invalid_type: AbstractType::Unit,
            root_type: AbstractType::Unit,
            span,
        }));
    }
    let (root, root_index) = match &segs[0] {
        Segment::Ident(root) => (root, None),
        Segment::Indexing(root, tmp) => (root, Some(*tmp)),
    };
    let root_type = match find_name(&scope.vars, root) {
        Some(t) => t,
        None => {
            return Err(AnalysisError::UnknownBinding(root.duplicate(), span));
        },
    };
    let mut current = root_type.duplicate();
    if let Some(tmp) = root_index {
        check_index(tys, tmp, span)?;
        current = match &root_type {
            AbstractType::Array { element_type, .. } => element_type.duplicate(),
            t => {
                return Err(AnalysisError::TypeError(TypeError::NotAnArray { found: t.duplicate(), span }));
            },
        };
    }
    let mut k: usize = 1;
    while k < segs.len()
        invariant
            1 <= k <= segs@.len(),
            field_access_type(table, scope.vars@, tys@, segs@) == walk_fields(table, tys@, segs@, k as int, current),
            access_failure(table, scope.vars@, tys@, segs@) == walk_failure(table, tys@, segs@, k as int, current),
        decreases segs.len() - k,
    {
        let fields = match fields_of(table, &current) {
            Some(fs) => fs,
            None => {
                return Err(AnalysisError::TypeError(TypeError::FieldAccessOnNonStruct {
                    index: k - 1,
                    invalid_type: current,
                    root_type: root_type.duplicate(),
                    span,
                }));
            },
        };
        let (name, index) = match &segs[k] {
            Segment::Ident(name) => (name, None),
            Segment::Indexing(name, tmp) => (name, Some(*tmp)),
        };
        let field_type = match find_name(fields, name) {
            Some(t) => t,
            None => {
                assert(segment_name(segs@[k as int]) == *name);
                return Err(AnalysisError::TypeError(TypeError::UnknownField {
                    name: name.duplicate(),
                    struct_type: current,
                    span,
                }));
            },
        };
        match index {
            None => {
                current = field_type;
            },
            Some(tmp) => {
                check_index(tys, tmp, span)?;
                current = match field_type {
                    AbstractType::Array { element_type, .. } => *element_type,
                    t => {
                        return Err(AnalysisError::TypeError(TypeError::NotAnArray { found: t, span }));
                    },
                };
            },
        }
        k = k + 1;
    }
    Ok(current)
}


/// Whether some entry of `inits` is named `name`.
fn is_named_in(inits: &Vec<(Ident, u64)>, name: &Ident) -> (r: bool)
    ensures
        r == named_in(inits@, *name),
{
    let mut k: usize = 0;
    while k < inits.len()
        invariant
            k <= inits@.len(),
            forall|j: int| 0 <= j < k ==> !same_name(#[trigger] inits@[j].0, *name),
        decreases inits.len() - k,
    {
        if names_equal(&inits[k].0, name) {
            return true;
        }
        k = k + 1;
    }
    false
}

/// The initializer at `k` names a field of the record, names it for the first
/// time, and refers to a typed temporary.
pub open spec fn init_item_ok(rf: Seq<(Ident, AbstractType)>, fs: Seq<(Ident, u64)>, tys: Seq<AbstractType>, k: int) -> bool {
    &&& lookup_name(rf, fs[k].0) is Some
    &&& forall|j: int| 0 <= j < k ==> !same_name(#[trigger] fs[j].0, fs[k].0)
    &&& fs[k].1 < tys.len()
}

/// The first initializer from `k` on that is not `init_item_ok`.
pub open spec fn first_bad_init(rf: Seq<(Ident, AbstractType)>, fs: Seq<(Ident, u64)>, tys: Seq<AbstractType>, k: int) -> Option<int>
    decreases fs.len() - k,
{
    if k < 0 || k >= fs.len() {
        None
    } else if !init_item_ok(rf, fs, tys, k) {
        Some(k)
    } else {
        first_bad_init(rf, fs, tys, k + 1)
    }
}

/// The initializers of a struct initialization, none when it has none.
pub open spec fn init_seq(fields: Option<Vec<(Ident, u64)>>) -> Seq<(Ident, u64)> {
    match fields {
        Some(f) => f@,
        None => Seq::empty(),
    }
}


/// The type of a struct initialization `path { f1: e1, ... }`, whose initializers
/// are the temporaries in `fields` (`None` when no field list is written).
///
/// `path` must name a record type; each initialized name must be one of its fields,
/// named once; all of its fields must be initialized; and each initializer must have
/// the type of its field. When fields are left out, the error lists the names of the
/// fields that were initialized.
#[verifier::loop_isolation(false)]
pub fn resolve_struct_init(
    table: &TypeTable,
    tys: &Vec<AbstractType>,
    path: &ModulePath,
    fields: &Option<Vec<(Ident, u64)>>,
    span: Span,
) -> (r: Result<AbstractType, AnalysisError>)
    ensures
        r is Ok <==> struct_init_ok(table, path.0@, match fields { Some(f) => f@, None => Seq::empty() }, tys@),
        r matches Ok(t) ==> lookup_path(table.names@, path.0@) == Some(t),
        r matches Err(AnalysisError::UnknownType(p, s)) ==> lookup_path(table.names@, path.0@) is None && p.0@ == path.0@ && s == span,
        r matches Err(AnalysisError::TypeError(TypeError::NotAStruct { struct_name, found, .. })) ==> struct_name.0@ == path.0@
            && lookup_path(table.names@, path.0@) == Some(found),
        r matches Err(AnalysisError::TypeError(TypeError::UnknownField { name, struct_type, span: s })) ==> s == span
            && lookup_path(table.names@, path.0@) == Some(struct_type) && (fields matches Some(f) && exists|k: int|
            0 <= k < f@.len() && #[trigger] f@[k].0 == name),
        lookup_path(table.names@, path.0@) is None ==> r matches Err(AnalysisError::UnknownType(_, _)),
        lookup_path(table.names@, path.0@) matches Some(t) ==> (!(t matches AbstractType::Record(x) && x < table.records@.len())
            ==> r matches Err(AnalysisError::TypeError(TypeError::NotAStruct { .. }))),
        lookup_path(table.names@, path.0@) matches Some(AbstractType::Record(x)) ==> (x < table.records@.len() ==> {
            let rf = table.records@[x as int].fields@;
            let fs = init_seq(*fields);
            match first_bad_init(rf, fs, tys@, 0) {
                Some(k) => if lookup_name(rf, fs[k].0) is None {
                    r matches Err(AnalysisError::TypeError(TypeError::UnknownField { name, .. })) && name == fs[k].0
                } else {
                    r matches Err(AnalysisError::TypeError(TypeError::InvalidInitialization { fields: fl, .. })) && fl@ == seq![fs[k].0]
                },
                None => if fs.len() != rf.len() {
                    r matches Err(AnalysisError::TypeError(TypeError::StructNotFullyInitialized { missing_fields, .. }))
                        && missing_fields@ == initialized_names(rf, fs)
                } else {
                    r is Err ==> r matches Err(AnalysisError::TypeError(TypeError::UnexpectedType { .. }))
                },
            }
        }),
{
    let struct_type = match find_path(&table.names, path) {
        Some(t) => t,
        None => {
            return Err(AnalysisError::UnknownType(path.duplicate(), span));
        },
    };
    let r = match &struct_type {
        AbstractType::Record(r) => {
            if *r < table.records.len() as u64 {
                *r as usize
            } else {
                return Err(AnalysisError::TypeError(TypeError::NotAStruct { struct_name: path.duplicate(), found: struct_type, span }));
            }
        },
        _ => {
            return Err(AnalysisError::TypeError(TypeError::NotAStruct { struct_name: path.duplicate(), found: struct_type, span }));
        },
    };
    let record_fields = &table.records[r].fields;
    let empty: Vec<(Ident, u64)> = Vec::new();
    let inits = match fields {
        Some(f) => f,
        None => &empty,
    };
    let ghost fs = match fields {
        Some(f) => f@,
        None => Seq::<(Ident, u64)>::empty(),
    };
    assert(inits@ == fs);
    assert(lookup_path(table.names@, path.0@) == Some(AbstractType::Record(r as u64)));
    assert(record_fields@ == table.records@[r as int].fields@);
    // Each initialized name must be a field, named once.
    let ghost rf = record_fields@;
    let mut k: usize = 0;
    while k < inits.len()
        invariant
            k <= inits@.len(),
            inits@ == fs,
            rf == record_fields@,
            first_bad_init(rf, fs, tys@, 0) == first_bad_init(rf, fs, tys@, k as int),
            forall|i: int| 0 <= i < k ==> (#[trigger] inits@[i]).1 < tys@.len(),
            forall|i: int| 0 <= i < k ==> lookup_name(record_fields@, (#[trigger] inits@[i]).0) is Some,
            forall|i: int, j: int| 0 <= i < j < k ==> !same_name(#[trigger] inits@[i].0, #[trigger] inits@[j].0),
        decreases inits.len() - k,
    {
        let name = &inits[k].0;
        let tmp = inits[k].1;
        if find_name(record_fields, name).is_none() {
            assert(!struct_init_ok(table, path.0@, fs, tys@)) by {
                assert(lookup_name(record_fields@, fs[k as int].0) is None);
            }
            return Err(AnalysisError::TypeError(TypeError::UnknownField {
                name: name.duplicate(),
                struct_type,
                span,
            }));
        }
        let mut j: usize = 0;
        while j < k
            invariant
                j <= k,
                k < inits@.len(),
                *name == inits@[k as int].0,
                forall|i: int| 0 <= i < j ==> !same_name(#[trigger] inits@[i].0, inits@[k as int].0),
            decreases k - j,
        {
            if names_equal(&inits[j].0, name) {
                assert(!struct_init_ok(table, path.0@, fs, tys@)) by {
                    assert(same_name(fs[j as int].0, fs[k as int].0));
                }
                return Err(AnalysisError::TypeError(TypeError::InvalidInitialization {
                    fields: vec![name.duplicate()],
                    span,
                }));
            }
            j = j + 1;
        }
        if tmp >= tys.len() as u64 {
            assert(!struct_init_ok(table, path.0@, fs, tys@)) by {
                assert(fs[k as int].1 >= tys@.len());
            }
            return Err(AnalysisError::TypeError(TypeError::InvalidInitialization {
                fields: vec![name.duplicate()],
                span,
            }));
        }
        k = k + 1;
    }
    // Every field must be initialized.
    if inits.len() != record_fields.len() {
        let mut named: Vec<Ident> = Vec::new();
        let mut i: usize = 0;
        while i < record_fields.len()
            invariant
                i <= record_fields@.len(),
                named@ == initialized_names(record_fields@.subrange(0, i as int), inits@),
            decreases record_fields.len() - i,
        {
            assert(record_fields@.subrange(0, i + 1).drop_last() =~= record_fields@.subrange(0, i as int));
            if is_named_in(inits, &record_fields[i].0) {
                named.push(record_fields[i].0.duplicate());
            }
            i = i + 1;
        }
        assert(record_fields@.subrange(0, record_fields@.len() as int) =~= record_fields@);
        assert(first_bad_init(rf, fs, tys@, inits@.len() as int) is None);
        return Err(AnalysisError::TypeError(TypeError::StructNotFullyInitialized {
            struct_name: path.duplicate(),
            struct_type,
            missing_fields: named,
            span,
        }));
    }
    // Each initializer must have the type of its field.
    let mut k: usize = 0;
    while k < inits.len()
        invariant
            k <= inits@.len(),
            forall|i: int| 0 <= i < inits@.len() ==> (#[trigger] inits@[i]).1 < tys@.len(),
            forall|i: int| 0 <= i < k ==> lookup_name(record_fields@, (#[trigger] inits@[i]).0) == Some(
                tys@[inits@[i].1 as int],
            ),
        decreases inits.len() - k,
    {
        let name = &inits[k].0;
        let tmp = inits[k].1;
        let found = find_name(record_fields, name);
        assert(lookup_name(record_fields@, inits@[k as int].0) is Some);
        assert(found is Some);
        let field_type = found.unwrap();
        assert(Some(field_type) == lookup_name(record_fields@, inits@[k as int].0));
        assert(inits@[k as int].1 < tys@.len());
        assert(tmp == inits@[k as int].1);
        assert(tmp < tys.len());
        let t = tmp as usize;
        assert(t == tmp);
        if !same_type(&tys[t], &field_type) {
            assert(!struct_init_ok(table, path.0@, fs, tys@)) by {
                assert(lookup_name(record_fields@, fs[k as int].0) != Some(tys@[fs[k as int].1 as int]));
            }
            return Err(AnalysisError::TypeError(TypeError::UnexpectedType {
                found: tys[t].duplicate(),
                expected: field_type,
                span,
            }));
        }
        k = k + 1;
    }
    Ok(struct_type)
}


/// The names in `fs` that an earlier entry already used, in order.
pub open spec fn dup_names(fs: Seq<(Ident, u64)>) -> Seq<Ident>
    decreases fs.len(),
{
    if fs.len() == 0 {
        Seq::empty()
    } else {
        let rest = dup_names(fs.drop_last());
        if named_in(fs.drop_last(), fs.last().0) {
            rest.push(fs.last().0)
        } else {
            rest
        }
    }
}

/// The type of an anonymous struct initialization `{ f1: e1, ... }`: a new width
/// constraint whose fields are the initialized names with the types of their
/// initializers. A name initialized twice is an error that lists every repeated
/// initialization.
pub fn resolve_anon_struct_init(
    table: &mut TypeTable,
    tys: &Vec<AbstractType>,
    fields: &Vec<(Ident, u64)>,
    span: Span,
) -> (r: Result<AbstractType, AnalysisError>)
    requires
        forall|k: int| 0 <= k < fields@.len() ==> (#[trigger] fields@[k]).1 < tys@.len(),
    ensures
        r is Ok <==> dup_names(fields@).len() == 0,
        r matches Ok(t) ==> {
            &&& t == AbstractType::WidthConstraint(old(table).widths@.len() as u64)
            &&& final(table).widths@.len() == old(table).widths@.len() + 1
            &&& final(table).widths@.subrange(0, old(table).widths@.len() as int) == old(table).widths@
            &&& final(table).widths@[old(table).widths@.len() as int]@ == fields@.map_values(
                |f: (Ident, u64)| (f.0, tys@[f.1 as int]),
            )
        },
        r matches Err(e) ==> (e matches AnalysisError::TypeError(TypeError::InvalidInitialization { fields: d, span: s })
            && d@ == dup_names(fields@) && s == span && final(table).widths@ == old(table).widths@),
        final(table).records@ == old(table).records@,
        final(table).fns@ == old(table).fns@,
        final(table).unchecked_fns@ == old(table).unchecked_fns@,
        final(table).names@ == old(table).names@,
{
    let mut width: Vec<(Ident, AbstractType)> = Vec::new();
    let mut duplicates: Vec<Ident> = Vec::new();
    let mut k: usize = 0;
    while k < fields.len()
        invariant
            k <= fields@.len(),
            forall|i: int| 0 <= i < fields@.len() ==> (#[trigger] fields@[i]).1 < tys@.len(),
            duplicates@ == dup_names(fields@.subrange(0, k as int)),
            width@ == fields@.subrange(0, k as int).map_values(|f: (Ident, u64)| (f.0, tys@[f.1 as int])),
        decreases fields.len() - k,
    {
        let ghost prefix = fields@.subrange(0, k as int);
        assert(fields@.subrange(0, k + 1).drop_last() =~= prefix);
        let name = &fields[k].0;
        let tmp = fields[k].1;
        assert(tmp < tys.len());
        let mut seen = false;
        let mut j: usize = 0;
        while j < k
            invariant
                j <= k,
                k < fields@.len(),
                prefix == fields@.subrange(0, k as int),
                *name == fields@[k as int].0,
                seen <==> exists|i: int| 0 <= i < j && same_name(#[trigger] prefix[i].0, *name),
            decreases k - j,
        {
            assert(prefix[j as int] == fields@[j as int]);
            if names_equal(&fields[j].0, name) {
                seen = true;
            }
            j = j + 1;
        }
        if seen {
            duplicates.push(name.duplicate());
        }
        width.push((name.duplicate(), tys[tmp as usize].duplicate()));
        assert(width@ =~= fields@.subrange(0, k + 1).map_values(|f: (Ident, u64)| (f.0, tys@[f.1 as int])));
        k = k + 1;
    }
    assert(fields@.subrange(0, fields@.len() as int) =~= fields@);
    if duplicates.len() != 0 {
        return Err(AnalysisError::TypeError(TypeError::InvalidInitialization { fields: duplicates, span }));
    }
    let id = table.widths.len() as u64;
    table.widths.push(width);
    assert(table.widths@.subrange(0, old(table).widths@.len() as int) =~= old(table).widths@);
    Ok(AbstractType::WidthConstraint(id))
}


pub open spec fn literal_type(l: Literal) -> AbstractType {
    match l {
        Literal::Int(_) => AbstractType::Int,
        Literal::Float(_) => AbstractType::Float,
        Literal::String(_) => AbstractType::String,
        Literal::Bool(_) => AbstractType::Bool,
    }
}

/// The type of a temporary whose value is `v`, where `tys` holds the types of the
/// temporaries before it; `None` when the value is ill typed.
pub open spec fn tmp_type(
    table: &TypeTable,
    vars: Seq<(Ident, AbstractType)>,
    fns: Seq<(ModulePath, AbstractType)>,
    tys: Seq<AbstractType>,
    v: ValueView,
) -> Option<AbstractType> {
    match v {
        ValueView::Literal(l) => Some(literal_type(l)),
        ValueView::Binding(name) => binding_type(vars, fns, name),
        ValueView::FieldAccess(segs) => field_access_type(table, vars, tys, segs),
        ValueView::ModAccess(path) => lookup_path(fns, path),
        ValueView::FnCall(path, args) => match callee_type(vars, fns, path) {
            Some(c) => call_type(table, c, match args { Some(a) => a.len(), None => 0 }),
            None => None,
        },
        ValueView::BinExpr(op, a, b) => spec_bin_op_type(op, tys[a as int], tys[b as int]),
        ValueView::UniExpr(op, a) => spec_uni_op_type(op, tys[a as int]),
        ValueView::Indexing(a, b) => match tys[a as int] {
            AbstractType::Array { element_type, .. } => if tys[b as int] == AbstractType::Int {
                Some(*element_type)
            } else {
                None
            },
            _ => None,
        },
        ValueView::StructInit(path, fields) => if struct_init_ok(
            table,
            path,
            match fields { Some(f) => f, None => Seq::empty() },
            tys,
        ) {
            lookup_path(table.names@, path)
        } else {
            None
        },
        ValueView::ArrayInitList(es) => if es.len() > 0 && forall|k: int|
            0 <= k < es.len() ==> tys[#[trigger] es[k] as int] == tys[es[0] as int] {
            Some(AbstractType::Array { element_type: Box::new(tys[es[0] as int]), size: es.len() as u64 })
        } else {
            None
        },
        ValueView::ArrayInitValue(a, n) => Some(AbstractType::Array { element_type: Box::new(tys[a as int]), size: n }),
        ValueView::AnonymousFn => None,
    }
}

/// The types of the first `n` temporaries of an expression, each computed from the
/// types of those before it; `None` if one of them is ill typed.
pub open spec fn expr_types(
    table: &TypeTable,
    vars: Seq<(Ident, AbstractType)>,
    fns: Seq<(ModulePath, AbstractType)>,
    tmps: Seq<ValueView>,
    n: nat,
) -> Option<Seq<AbstractType>>
    decreases n,
{
    if n == 0 {
        Some(Seq::empty())
    } else {
        match expr_types(table, vars, fns, tmps, (n - 1) as nat) {
            Some(tys) => match tmp_type(table, vars, fns, tys, tmps[n - 1]) {
                Some(t) => Some(tys.push(t)),
                None => None,
            },
            None => None,
        }
    }
}

/// Once a prefix of an expression is ill typed, so is every longer prefix.
proof fn lemma_expr_types_none(
    table: &TypeTable,
    vars: Seq<(Ident, AbstractType)>,
    fns: Seq<(ModulePath, AbstractType)>,
    tmps: Seq<ValueView>,
    n: nat,
    m: nat,
)
    requires
        n <= m,
        expr_types(table, vars, fns, tmps, n) is None,
    ensures
        expr_types(table, vars, fns, tmps, m) is None,
    decreases m - n,
{
    if n < m {
        lemma_expr_types_none(table, vars, fns, tmps, (n + 1) as nat, m);
    }
}

/// The types of a prefix of `n` temporaries are `n` types.
proof fn lemma_expr_types_len(
    table: &TypeTable,
    vars: Seq<(Ident, AbstractType)>,
    fns: Seq<(ModulePath, AbstractType)>,
    tmps: Seq<ValueView>,
    n: nat,
)
    requires
        expr_types(table, vars, fns, tmps, n) is Some,
    ensures
        expr_types(table, vars, fns, tmps, n)->0.len() == n,
    decreases n,
{
    if n > 0 {
        lemma_expr_types_len(table, vars, fns, tmps, (n - 1) as nat);
    }
}

/// The type of one temporary, given the types `tys` of the temporaries before it.
#[verifier::rlimit(30)]
pub fn resolve_tmp(
    table: &TypeTable,
    scope: &ScopedData,
    context: &TypingContext,
    tys: &Vec<AbstractType>,
    tmp: &Tmp,
) -> (r: Result<AbstractType, AnalysisError>)
    requires
        refs_below(tmp.value, tys@.len() as int),
    ensures
        r is Ok <==> tmp_type(table, scope.vars@, context.fn_types@, tys@, tmp.value@) is Some,
        r matches Ok(t) ==> tmp_type(table, scope.vars@, context.fn_types@, tys@, tmp.value@) == Some(t),
{
    let span = tmp.span;
    match &tmp.value {
        Value::Literal(l) => Ok(match l {
            Literal::Int(_) => AbstractType::Int,
            Literal::Float(_) => AbstractType::Float,
            Literal::String(_) => AbstractType::String,
            Literal::Bool(_) => AbstractType::Bool,
        }),
        Value::Binding(name) => resolve_binding(scope, context, name, span),
        Value::FieldAccess(segs) => resolve_field_access(table, scope, tys, segs, span),
        Value::ModAccess(path) => resolve_mod_access(context, path, span),
        Value::FnCall(path, args) => {
            let callee = resolve_callee(scope, context, path, span)?;
            resolve_fn_call(table, &callee, args, span)
        },
        Value::BinExpr(op, a, b) => {
            let (a, b) = (*a, *b);
            assert(a < tys.len() && b < tys.len());
            let (ia, ib) = (a as usize, b as usize);
            assert(ia == a && ib == b);
            resolve_bin_op(op, &tys[ia], &tys[ib], span)
        },
        Value::UniExpr(op, a) => {
            let a = *a;
            assert(a < tys.len());
            let ia = a as usize;
            assert(ia == a);
            resolve_uni_op(op, &tys[ia], span)
        },
        Value::Indexing(a, b) => {
            let (a, b) = (*a, *b);
            assert(a < tys.len() && b < tys.len());
            let (ia, ib) = (a as usize, b as usize);
            assert(ia == a && ib == b);
            resolve_indexing(&tys[ia], &tys[ib], span)
        },
        Value::StructInit(path, fields) => resolve_struct_init(table, tys, path, fields, span),
        Value::ArrayInitList(es) => {
            if es.len() == 0 {
                return Err(AnalysisError::TypeError(TypeError::EmptyArrayInit { span }));
            }
            let mut element_types: Vec<AbstractType> = Vec::new();
            let mut k: usize = 0;
            while k < es.len()
                invariant
                    k <= es@.len(),
                    forall|i: int| 0 <= i < es@.len() ==> es@[i] < tys@.len(),
                    element_types@.len() == k,
                    forall|i: int| 0 <= i < k ==> element_types@[i] == tys@[#[trigger] es@[i] as int],
                decreases es.len() - k,
            {
                let e = es[k];
                assert(e < tys.len());
                let ie = e as usize;
                assert(ie == e);
                element_types.push(tys[ie].duplicate());
                k = k + 1;
            }
            let r = resolve_array_list(&element_types, span);
            proof {
                if r is Ok {
                    assert forall|i: int| 0 <= i < es@.len() implies tys@[#[trigger] es@[i] as int] == tys@[es@[0] as int] by {
                        assert(element_types@[i] == element_types@[0]);
                    }
                } else {
                    let i = choose|i: int| 0 <= i < element_types@.len() && #[trigger] element_types@[i] != element_types@[0];
                    assert(tys@[es@[i] as int] != tys@[es@[0] as int]);
                }
            }
            r
        },
        Value::ArrayInitValue(a, n) => {
            let a = *a;
            assert(a < tys.len());
            let ia = a as usize;
            assert(ia == a);
            Ok(AbstractType::Array { element_type: Box::new(tys[ia].duplicate()), size: *n })
        },
        Value::AnonymousFn => Err(AnalysisError::TypeError(TypeError::UnsupportedAnonymousFn { span })),
    }
}

/// The type of a flattened expression: every temporary is typed in execution
/// order, and their types are recorded in `context.tmp_types`. The expression's
/// type is that of its last temporary.
pub fn resolve_expr(table: &TypeTable, scope: &ScopedData, context: &mut TypingContext, expr: &Expr) -> (r: Result<
    AbstractType,
    AnalysisError,
>)
    requires
        well_ordered(expr.tmps@),
        expr.tmps@.len() > 0,
    ensures
        r is Ok <==> expr_types(table, scope.vars@, old(context).fn_types@, tmp_views(expr.tmps@), expr.tmps@.len()) is Some,
        r matches Ok(t) ==> {
            &&& final(context).tmp_types@ == expr_types(table, scope.vars@, old(context).fn_types@, tmp_views(expr.tmps@), expr.tmps@.len())->0
            &&& t == final(context).tmp_types@.last()
        },
        final(context).fn_types@ == old(context).fn_types@,
        final(context).var_types@ == old(context).var_types@,
        final(context).type_vars@ == old(context).type_vars@,
{
    context.tmp_types = Vec::new();
    let mut i: usize = 0;
    while i < expr.tmps.len()
        invariant
            i <= expr.tmps@.len(),
            well_ordered(expr.tmps@),
            context.fn_types@ == old(context).fn_types@,
            context.var_types@ == old(context).var_types@,
            context.type_vars@ == old(context).type_vars@,
            expr_types(table, scope.vars@, context.fn_types@, tmp_views(expr.tmps@), i as nat) == Some(context.tmp_types@),
        decreases expr.tmps.len() - i,
    {
        let tmp = &expr.tmps[i];
        assert(refs_below(expr.tmps@[i as int].value, i as int));
        assert(tmp_views(expr.tmps@)[i as int] == tmp.value@);
        proof {
            lemma_expr_types_len(table, scope.vars@, context.fn_types@, tmp_views(expr.tmps@), i as nat);
        }
        let t = match resolve_tmp(table, scope, context, &context.tmp_types, tmp) {
            Ok(t) => t,
            Err(e) => {
                proof {
                    lemma_expr_types_none(
                        table,
                        scope.vars@,
                        context.fn_types@,
                        tmp_views(expr.tmps@),
                        (i + 1) as nat,
                        expr.tmps@.len(),
                    );
                }
                return Err(e);
            },
        };
        context.tmp_types.push(t);
        i = i + 1;
    }
    Ok(context.tmp_types[context.tmp_types.len() - 1].duplicate())
}


/// `t` is the type that the annotation `ann` denotes in `table`: a path names a
/// type in scope, an array annotation denotes an array type of its size, and a
/// function annotation denotes a stored function type with the denoted parameter
/// types and return type (unit when none is written).
pub open spec fn denotes(table: &TypeTable, ann: TypeAnnotation, t: AbstractType) -> bool
    decreases ann,
{
    match ann {
        TypeAnnotation::Path(p) => lookup_path(table.names@, p.0@) == Some(t),
        TypeAnnotation::Array(elem, n) => match t {
            AbstractType::Array { element_type, size } => size == n && denotes(table, *elem, *element_type),
            _ => false,
        },
        TypeAnnotation::FnType(params, ret) => match t {
            AbstractType::Function(i) => {
                &&& i < table.fns@.len()
                &&& match params {
                    Some(ps) => {
                        &&& table.fns@[i as int].params@.len() == ps@.len()
                        &&& forall|k: int|
                            0 <= k < ps@.len() ==> denotes(table, #[trigger] ps@[k], table.fns@[i as int].params@[k])
                    },
                    None => table.fns@[i as int].params@.len() == 0,
                }
                &&& match ret {
                    Some(r) => denotes(table, *r, table.fns@[i as int].return_type),
                    None => table.fns@[i as int].return_type == AbstractType::Unit,
                }
            },
            _ => false,
        },
    }
}

/// Every type name that the annotation uses is in scope.
pub open spec fn ann_resolves(names: Seq<(ModulePath, AbstractType)>, ann: TypeAnnotation) -> bool
    decreases ann,
{
    match ann {
        TypeAnnotation::Path(p) => lookup_path(names, p.0@) is Some,
        TypeAnnotation::Array(elem, _) => ann_resolves(names, *elem),
        TypeAnnotation::FnType(params, ret) => {
            &&& match params {
                Some(ps) => forall|k: int| 0 <= k < ps@.len() ==> ann_resolves(names, #[trigger] ps@[k]),
                None => true,
            }
            &&& match ret {
                Some(r) => ann_resolves(names, *r),
                None => true,
            }
        },
    }
}

/// `new` has the type names of `old` and extends its function types.
pub open spec fn table_extends(old: &TypeTable, new: &TypeTable) -> bool {
    &&& new.names@ == old.names@
    &&& new.records@ == old.records@
    &&& new.widths@ == old.widths@
    &&& new.unchecked_fns@ == old.unchecked_fns@
    &&& new.fns@.len() >= old.fns@.len()
    &&& forall|k: int| 0 <= k < old.fns@.len() ==> #[trigger] new.fns@[k] == old.fns@[k]
}

/// What an annotation denotes stays so when the table grows.
pub(crate) proof fn lemma_denotes_extends(old: &TypeTable, new: &TypeTable, ann: TypeAnnotation, t: AbstractType)
    requires
        table_extends(old, new),
        denotes(old, ann, t),
    ensures
        denotes(new, ann, t),
    decreases ann,
{
    match ann {
        TypeAnnotation::Path(p) => {},
        TypeAnnotation::Array(elem, n) => {
            if let AbstractType::Array { element_type, size } = t {
                lemma_denotes_extends(old, new, *elem, *element_type);
            }
        },
        TypeAnnotation::FnType(params, ret) => {
            if let AbstractType::Function(i) = t {
                assert(new.fns@[i as int] == old.fns@[i as int]);
                if let Some(ps) = params {
                    assert forall|k: int| 0 <= k < ps@.len() implies denotes(new, #[trigger] ps@[k], new.fns@[i as int].params@[k]) by {
                        lemma_denotes_extends(old, new, ps@[k], old.fns@[i as int].params@[k]);
                    }
                }
                if let Some(r) = ret {
                    lemma_denotes_extends(old, new, *r, old.fns@[i as int].return_type);
                }
            }
        },
    }
}

/// Whether a table is extended by itself.
pub(crate) proof fn lemma_table_extends_trans(a: &TypeTable, b: &TypeTable, c: &TypeTable)
    requires
        table_extends(a, b),
        table_extends(b, c),
    ensures
        table_extends(a, c),
{
}

/// The index of the stored function type with these parameter and return types,
/// storing it first if there is none.
pub(crate) fn intern_fn_type(table: &mut TypeTable, params: Vec<AbstractType>, return_type: AbstractType) -> (r: u64)
    requires
        fns_unique(old(table)),
    ensures
        fns_unique(final(table)),
        table_extends(old(table), final(table)),
        r < final(table).fns@.len(),
        final(table).fns@[r as int].params@ == params@,
        final(table).fns@[r as int].return_type == return_type,
        final(table).fns@.len() <= old(table).fns@.len() + 1,
        r < old(table).fns@.len() || forall|k: int| 0 <= k < old(table).fns@.len() ==> !(
            #[trigger] old(table).fns@[k].params@ == params@ && old(table).fns@[k].return_type == return_type),
{
    let mut k: usize = 0;
    while k < table.fns.len()
        invariant
            k <= table.fns@.len(),
            *table == *old(table),
            fns_unique(table),
            forall|j: int| 0 <= j < k ==> !(#[trigger] table.fns@[j].params@ == params@ && table.fns@[j].return_type
                == return_type),
        decreases table.fns.len() - k,
    {
        if same_types(&table.fns[k].params, &params) && same_type(&table.fns[k].return_type, &return_type) {
            return k as u64;
        }
        k = k + 1;
    }
    let id = table.fns.len() as u64;
    let ghost pv = params@;
    let ghost old_fns = table.fns@;
    table.fns.push(FnType { params, return_type });
    proof {
        assert forall|i: int, j: int| 0 <= i < j < table.fns@.len() implies !(#[trigger] table.fns@[i].params@
            == #[trigger] table.fns@[j].params@ && table.fns@[i].return_type == table.fns@[j].return_type) by {
            if j == old_fns.len() {
                assert(table.fns@[i] == old_fns[i]);
                assert(!(old_fns[i].params@ == pv && old_fns[i].return_type == return_type));
            } else {
                assert(table.fns@[i] == old_fns[i]);
                assert(table.fns@[j] == old_fns[j]);
                assert(!(old_fns[i].params@ == old_fns[j].params@ && old_fns[i].return_type == old_fns[j].return_type));
            }
        }
    }
    id
}


/// The type that a type annotation denotes. Function types are stored in the
/// table once each, so the table may grow by the function types the annotation
/// writes. A type name that is not in scope is an error.
#[verifier::loop_isolation(false)]
pub fn type_from_ann(table: &mut TypeTable, ann: &TypeAnnotation, span: Span) -> (r: Result<AbstractType, AnalysisError>)
    requires
        fns_unique(old(table)),
    ensures
        fns_unique(final(table)),
        table_extends(old(table), final(table)),
        r is Ok <==> ann_resolves(old(table).names@, *ann),
        r matches Ok(t) ==> denotes(final(table), *ann, t),
        r matches Err(e) ==> e is UnknownType,
    decreases ann,
{
    match ann {
        TypeAnnotation::Path(p) => match find_path(&table.names, p) {
            Some(t) => Ok(t),
            None => Err(AnalysisError::UnknownType(p.duplicate(), span)),
        },
        TypeAnnotation::Array(elem, n) => {
            let e = type_from_ann(table, elem, span)?;
            Ok(AbstractType::Array { element_type: Box::new(e), size: *n })
        },
        TypeAnnotation::FnType(params, ret) => {
            let ghost t0 = *table;
            let mut ps: Vec<AbstractType> = Vec::new();
            match params {
                Some(v) => {
                    let mut k: usize = 0;
                    while k < v.len()
                        invariant
                            k <= v@.len(),
                            ps@.len() == k,
                            table_extends(&t0, table),
                            fns_unique(table),
                            forall|j: int| 0 <= j < k ==> ann_resolves(t0.names@, #[trigger] v@[j]),
                            forall|j: int| 0 <= j < k ==> denotes(table, #[trigger] v@[j], ps@[j]),
                        decreases v.len() - k,
                    {
                        proof {
                            vstd::std_specs::vec::axiom_vec_index_decreases(*v, k as int);
                        }
                        let ghost tk = *table;
                        let t = match type_from_ann(table, &v[k], span) {
                            Ok(t) => t,
                            Err(e) => {
                                assert(!ann_resolves(t0.names@, *ann)) by {
                                    assert(!ann_resolves(t0.names@, v@[k as int]));
                                }
                                return Err(e);
                            },
                        };
                        proof {
                            lemma_table_extends_trans(&t0, &tk, table);
                            assert forall|j: int| 0 <= j < k implies denotes(table, #[trigger] v@[j], ps@[j]) by {
                                lemma_denotes_extends(&tk, table, v@[j], ps@[j]);
                            }
                        }
                        ps.push(t);
                        k = k + 1;
                    }
                },
                None => {},
            }
            let ghost t1 = *table;
            let rt = match ret {
                Some(r) => type_from_ann(table, r, span)?,
                None => AbstractType::Unit,
            };
            let ghost t2 = *table;
            let ghost pv = ps@;
            let i = intern_fn_type(table, ps, rt);
            proof {
                lemma_table_extends_trans(&t1, &t2, table);
                lemma_table_extends_trans(&t0, &t1, table);
                if let Some(v) = params {
                    assert forall|j: int| 0 <= j < v@.len() implies denotes(table, #[trigger] v@[j], table.fns@[i as int].params@[j]) by {
                        lemma_denotes_extends(&t1, table, v@[j], pv[j]);
                    }
                }
                if let Some(r) = ret {
                    lemma_denotes_extends(&t2, table, **r, rt);
                }
            }
            Ok(AbstractType::Function(i))
        },
    }
}


/// Whether the annotation denotes `t` in `table`; nothing is stored.
#[verifier::loop_isolation(false)]
pub fn ann_denotes(table: &TypeTable, ann: &TypeAnnotation, t: &AbstractType) -> (r: bool)
    ensures
        r == denotes(table, *ann, *t),
    decreases ann,
{
    match ann {
        TypeAnnotation::Path(p) => match find_path(&table.names, p) {
            Some(found) => same_type(&found, t),
            None => false,
        },
        TypeAnnotation::Array(elem, n) => match t {
            AbstractType::Array { element_type, size } => *size == *n && ann_denotes(table, elem, element_type),
            _ => false,
        },
        TypeAnnotation::FnType(params, ret) => match t {
            AbstractType::Function(i) => {
                if *i >= table.fns.len() as u64 {
                    return false;
                }
                let f = &table.fns[*i as usize];
                match params {
                    Some(ps) => {
                        if f.params.len() != ps.len() {
                            return false;
                        }
                        let mut k: usize = 0;
                        while k < ps.len()
                            invariant
                                k <= ps@.len(),
                                f.params@.len() == ps@.len(),
                                *f == table.fns@[*i as int],
                                forall|j: int| 0 <= j < k ==> denotes(table, #[trigger] ps@[j], f.params@[j]),
                            decreases ps.len() - k,
                        {
                            proof {
                                vstd::std_specs::vec::axiom_vec_index_decreases(*ps, k as int);
                            }
                            if !ann_denotes(table, &ps[k], &f.params[k]) {
                                return false;
                            }
                            k = k + 1;
                        }
                    },
                    None => {
                        if f.params.len() != 0 {
                            return false;
                        }
                    },
                }
                match ret {
                    Some(r) => ann_denotes(table, r, &f.return_type),
                    None => same_type(&f.return_type, &AbstractType::Unit),
                }
            },
            _ => false,
        },
    }
}

/// No function type is stored twice.
pub open spec fn fns_unique(table: &TypeTable) -> bool {
    forall|i: int, j: int|
        0 <= i < j < table.fns@.len() ==> !(#[trigger] table.fns@[i].params@ == #[trigger] table.fns@[j].params@
            && table.fns@[i].return_type == table.fns@[j].return_type)
}

/// With every function type stored once, an annotation denotes one type only.
pub proof fn lemma_denotes_unique(table: &TypeTable, ann: TypeAnnotation, t1: AbstractType, t2: AbstractType)
    requires
        fns_unique(table),
        denotes(table, ann, t1),
        denotes(table, ann, t2),
    ensures
        t1 == t2,
    decreases ann,
{
    match ann {
        TypeAnnotation::Path(p) => {},
        TypeAnnotation::Array(elem, n) => {
            if let (AbstractType::Array { element_type: e1, .. }, AbstractType::Array { element_type: e2, .. }) = (t1, t2) {
                lemma_denotes_unique(table, *elem, *e1, *e2);
            }
        },
        TypeAnnotation::FnType(params, ret) => {
            if let (AbstractType::Function(i), AbstractType::Function(j)) = (t1, t2) {
                if let Some(ps) = params {
                    assert forall|k: int| 0 <= k < ps@.len() implies table.fns@[i as int].params@[k]
                        == table.fns@[j as int].params@[k] by {
                        lemma_denotes_unique(table, ps@[k], table.fns@[i as int].params@[k], table.fns@[j as int].params@[k]);
                    }
                    assert(table.fns@[i as int].params@ =~= table.fns@[j as int].params@);
                } else {
                    assert(table.fns@[i as int].params@ =~= table.fns@[j as int].params@);
                }
                if let Some(r) = ret {
                    lemma_denotes_unique(table, *r, table.fns@[i as int].return_type, table.fns@[j as int].return_type);
                }
                if i < j {
                    assert(!(table.fns@[i as int].params@ == table.fns@[j as int].params@
                        && table.fns@[i as int].return_type == table.fns@[j as int].return_type));
                } else if j < i {
                    assert(!(table.fns@[j as int].params@ == table.fns@[i as int].params@
                        && table.fns@[j as int].return_type == table.fns@[i as int].return_type));
                }
            }
        },
    }
}


/// The type of a well-formed flattened expression under the given variables and
/// functions, if it is well typed.
pub open spec fn flat_type(
    table: &TypeTable,
    vars: Seq<(Ident, AbstractType)>,
    fns: Seq<(ModulePath, AbstractType)>,
    e: Expr,
) -> Option<AbstractType> {
    views_type(table, vars, fns, tmp_views(e.tmps@))
}

/// The type of the last of the temporaries `vs`, if each of them is well typed.
pub open spec fn views_type(
    table: &TypeTable,
    vars: Seq<(Ident, AbstractType)>,
    fns: Seq<(ModulePath, AbstractType)>,
    vs: Seq<ValueView>,
) -> Option<AbstractType> {
    match expr_types(table, vars, fns, vs, vs.len()) {
        Some(tys) => Some(tys.last()),
        None => None,
    }
}

/// The type of the expression tree `e`: the type of `e` flattened.
pub open spec fn ast_type(
    table: &TypeTable,
    vars: Seq<(Ident, AbstractType)>,
    fns: Seq<(ModulePath, AbstractType)>,
    e: AstExpr,
) -> Option<AbstractType> {
    views_type(table, vars, fns, flat_view(e, 0))
}

/// The variables in scope after the statement `s`, if it type checks with `vars`
/// in scope and `ret` as the function's return type: an expression must be well
/// typed; a declaration adds its variable with the type of its initializer, which
/// an annotation must denote; an assignment needs both sides well typed and of
/// one type; `return` needs the return type (unit when nothing is returned); a
/// loop or branch condition must be `bool`, and each body is checked in a scope
/// of its own.
pub open spec fn stmt_check(
    table: &TypeTable,
    vars: Seq<(Ident, AbstractType)>,
    fns: Seq<(ModulePath, AbstractType)>,
    ret: AbstractType,
    s: Stmt,
) -> Option<Seq<(Ident, AbstractType)>>
    decreases s, 0int,
{
    match s {
        Stmt::Expr(e, _) => if ast_type(table, vars, fns, e) is Some {
            Some(vars)
        } else {
            None
        },
        Stmt::ExprStmt(es, _) => match es {
            ExprStmt::LocalVarDecl(d) => match ast_type(table, vars, fns, d.var_init) {
                Some(t) => if (match d.var_type {
                    Some(a) => denotes(table, a, t),
                    None => true,
                }) {
                    Some(vars.push((d.var_name, t)))
                } else {
                    None
                },
                None => None,
            },
            ExprStmt::Assignment(a) => {
                let v = ast_type(table, vars, fns, a.value);
                if v is Some && v == views_type(table, vars, fns, path_view(a.name)) {
                    Some(vars)
                } else {
                    None
                }
            },
            ExprStmt::Return(_, e) => if (match e {
                Some(e) => ast_type(table, vars, fns, e) == Some(ret),
                None => ret == AbstractType::Unit,
            }) {
                Some(vars)
            } else {
                None
            },
            ExprStmt::Break(_) => Some(vars),
            ExprStmt::Continue(_) => Some(vars),
            ExprStmt::While(w) => if ast_type(table, vars, fns, w.conditional) == Some(AbstractType::Bool)
                && stmts_check(table, vars, fns, ret, w.block.0@, 0) {
                Some(vars)
            } else {
                None
            },
            ExprStmt::If(f) => if branches_check(table, vars, fns, ret, f.branches@, 0) && match f.default_block {
                Some(b) => stmts_check(table, vars, fns, ret, b.0@, 0),
                None => true,
            } {
                Some(vars)
            } else {
                None
            },
        },
    }
}

/// The statements of `stmts` from index `i` on type check one after the other,
/// starting with `vars` in scope.
pub open spec fn stmts_check(
    table: &TypeTable,
    vars: Seq<(Ident, AbstractType)>,
    fns: Seq<(ModulePath, AbstractType)>,
    ret: AbstractType,
    stmts: Seq<Stmt>,
    i: int,
) -> bool
    decreases stmts, stmts.len() - i,
{
    if i < 0 || i >= stmts.len() {
        true
    } else {
        match stmt_check(table, vars, fns, ret, stmts[i]) {
            Some(next) => stmts_check(table, next, fns, ret, stmts, i + 1),
            None => false,
        }
    }
}

/// The branches of `bs` from index `i` on type check: each condition is `bool`
/// and each body type checks with `vars` in scope.
pub open spec fn branches_check(
    table: &TypeTable,
    vars: Seq<(Ident, AbstractType)>,
    fns: Seq<(ModulePath, AbstractType)>,
    ret: AbstractType,
    bs: Seq<Branch>,
    i: int,
) -> bool
    decreases bs, bs.len() - i,
{
    if i < 0 || i >= bs.len() {
        true
    } else {
        &&& ast_type(table, vars, fns, bs[i].conditional) == Some(AbstractType::Bool)
        &&& stmts_check(table, vars, fns, ret, bs[i].block.0@, 0)
        &&& branches_check(table, vars, fns, ret, bs, i + 1)
    }
}

/// The expression can be type checked: it has temporaries, each using only earlier ones.
pub open spec fn expr_ok(e: Expr) -> bool {
    e.tmps@.len() > 0 && well_ordered(e.tmps@)
}

/// Type checks the statements of one function body.
pub struct TypeChecker {
    pub table: TypeTable,
    pub scopes: Vec<ScopedData>,
    pub typing_context: TypingContext,
    pub return_type: AbstractType,
}

impl TypeChecker {
    /// The variables visible in the innermost scope.
    pub open spec fn vars(self) -> Seq<(Ident, AbstractType)> {
        self.scopes@.last().vars@
    }

    /// The checker is usable: there is a scope and no function type is stored twice.
    pub open spec fn ready(self) -> bool {
        self.scopes@.len() > 0 && fns_unique(&self.table)
    }

    /// A checker for a function body: its parameters form the outermost scope.
    pub fn new(table: TypeTable, params: Vec<(Ident, AbstractType)>, fn_types: Vec<(ModulePath, AbstractType)>, return_type: AbstractType) -> (r: TypeChecker)
        ensures
            r.table == table,
            r.scopes@.len() == 1,
            r.vars() == params@,
            r.typing_context.fn_types@ == fn_types@,
            r.return_type == return_type,
    {
        let mut context = TypingContext::empty();
        context.fn_types = fn_types;
        TypeChecker { table, scopes: vec![ScopedData { vars: params }], typing_context: context, return_type }
    }

    /// The innermost scope.
    pub fn current(&self) -> (r: &ScopedData)
        requires
            self.scopes@.len() > 0,
        ensures
            *r == self.scopes@.last(),
    {
        &self.scopes[self.scopes.len() - 1]
    }

    /// Opens a new scope that starts with the variables of the current one.
    pub fn fork_current(&mut self)
        requires
            old(self).scopes@.len() > 0,
        ensures
            final(self).scopes@.len() == old(self).scopes@.len() + 1,
            final(self).scopes@.drop_last() == old(self).scopes@,
            final(self).vars() == old(self).vars(),
            final(self).table == old(self).table,
            final(self).typing_context == old(self).typing_context,
            final(self).return_type == old(self).return_type,
    {
        let fork = self.current().fork();
        self.scopes.push(fork);
        assert(self.scopes@.drop_last() =~= old(self).scopes@);
    }

    /// Closes the innermost scope and returns it.
    pub fn pop_current(&mut self) -> (r: ScopedData)
        requires
            old(self).scopes@.len() > 0,
        ensures
            final(self).scopes@ == old(self).scopes@.drop_last(),
            r == old(self).scopes@.last(),
            final(self).table == old(self).table,
            final(self).typing_context == old(self).typing_context,
            final(self).return_type == old(self).return_type,
    {
        self.scopes.pop().unwrap()
    }

    /// Adds a variable to the innermost scope.
    fn bind(&mut self, name: Ident, t: AbstractType)
        requires
            old(self).scopes@.len() > 0,
        ensures
            final(self).scopes@.len() == old(self).scopes@.len(),
            final(self).scopes@.drop_last() == old(self).scopes@.drop_last(),
            final(self).vars() == old(self).vars().push((name, t)),
            final(self).table == old(self).table,
            final(self).typing_context == old(self).typing_context,
            final(self).return_type == old(self).return_type,
    {
        let mut cur = self.scopes.pop().unwrap();
        cur.vars.push((name, t));
        self.scopes.push(cur);
        assert(self.scopes@.drop_last() =~= old(self).scopes@.drop_last());
    }

    /// Types an expression in the innermost scope.
    fn expr_type(&mut self, e: &Expr) -> (r: Result<AbstractType, AnalysisError>)
        requires
            old(self).scopes@.len() > 0,
            expr_ok(*e),
        ensures
            r is Ok <==> flat_type(&old(self).table, old(self).vars(), old(self).typing_context.fn_types@, *e) is Some,
            r matches Ok(t) ==> flat_type(&old(self).table, old(self).vars(), old(self).typing_context.fn_types@, *e) == Some(t),
            final(self).scopes == old(self).scopes,
            final(self).table == old(self).table,
            final(self).typing_context.fn_types@ == old(self).typing_context.fn_types@,
            final(self).typing_context.var_types@ == old(self).typing_context.var_types@,
            final(self).return_type == old(self).return_type,
    {
        let n = self.scopes.len();
        resolve_expr(&self.table, &self.scopes[n - 1], &mut self.typing_context, e)
    }

    /// `let name: annotation = init;`: the initializer must be well typed and, when
    /// there is an annotation, have the annotated type. The variable is added to the
    /// innermost scope with that type.
    pub fn local_var_decl(&mut self, decl: &LocalVarDeclData) -> (r: Result<(), AnalysisError>)
        requires
            old(self).ready(),
            expr_ok(decl.init_expr),
        ensures
            final(self).ready(),
            table_extends(&old(self).table, &final(self).table),
            r is Ok <==> (flat_type(&old(self).table, old(self).vars(), old(self).typing_context.fn_types@, decl.init_expr) matches Some(t)
                && match decl.type_annotation {
                    None => true,
                    Some(a) => denotes(&old(self).table, a, t),
                }),
            r is Ok ==> final(self).table == old(self).table,
            r is Ok ==> final(self).vars() == old(self).vars().push((decl.var_name,
                flat_type(&old(self).table, old(self).vars(), old(self).typing_context.fn_types@, decl.init_expr)->0)),
            final(self).scopes@.len() == old(self).scopes@.len(),
            final(self).scopes@.drop_last() == old(self).scopes@.drop_last(),
            r is Err ==> final(self).vars() == old(self).vars(),
            final(self).typing_context.fn_types@ == old(self).typing_context.fn_types@,
            final(self).return_type == old(self).return_type,
    {
        self.declare(&decl.var_name, &decl.type_annotation, &decl.init_expr, decl.span)
    }

    fn declare(&mut self, var_name: &Ident, type_annotation: &Option<TypeAnnotation>, init_expr: &Expr, span: Span) -> (r: Result<(), AnalysisError>)
        requires
            old(self).ready(),
            expr_ok(*init_expr),
        ensures
            final(self).ready(),
            table_extends(&old(self).table, &final(self).table),
            r is Ok <==> (flat_type(&old(self).table, old(self).vars(), old(self).typing_context.fn_types@, *init_expr) matches Some(t)
                && match *type_annotation {
                    None => true,
                    Some(a) => denotes(&old(self).table, a, t),
                }),
            r is Ok ==> final(self).table == old(self).table,
            r is Ok ==> final(self).vars() == old(self).vars().push((*var_name,
                flat_type(&old(self).table, old(self).vars(), old(self).typing_context.fn_types@, *init_expr)->0)),
            final(self).scopes@.len() == old(self).scopes@.len(),
            final(self).scopes@.drop_last() == old(self).scopes@.drop_last(),
            r is Err ==> final(self).vars() == old(self).vars(),
            final(self).typing_context.fn_types@ == old(self).typing_context.fn_types@,
            final(self).return_type == old(self).return_type,
    {
        let expr_type = self.expr_type(init_expr)?;
        if let Some(ann) = type_annotation {
            if !ann_denotes(&self.table, ann, &expr_type) {
                // Either the annotation names a type that is not in scope, or it
                // denotes another type than the initializer's.
                let ann_type = type_from_ann(&mut self.table, ann, span)?;
                return Err(AnalysisError::TypeError(TypeError::UnexpectedType {
                    found: expr_type,
                    expected: ann_type,
                    span,
                }));
            }
        }
        self.typing_context.var_types.push((var_name.duplicate(), expr_type.duplicate()));
        self.bind(var_name.duplicate(), expr_type);
        Ok(())
    }

    /// `assignee = value;`: both sides must be well typed, with the same type.
    pub fn assignment(&mut self, assign: &AssignmentData) -> (r: Result<(), AnalysisError>)
        requires
            old(self).ready(),
            expr_ok(assign.value),
            expr_ok(assign.assignee),
        ensures
            final(self).ready(),
            final(self).scopes == old(self).scopes,
            final(self).table == old(self).table,
            final(self).typing_context.fn_types@ == old(self).typing_context.fn_types@,
            final(self).return_type == old(self).return_type,
            r is Ok <==> ({
                let v = flat_type(&old(self).table, old(self).vars(), old(self).typing_context.fn_types@, assign.value);
                let a = flat_type(&old(self).table, old(self).vars(), old(self).typing_context.fn_types@, assign.assignee);
                v is Some && a is Some && v == a
            }),
    {
        let value_type = self.expr_type(&assign.value)?;
        let assignee_type = self.expr_type(&assign.assignee)?;
        resolve_types(&value_type, &assignee_type, assign.span)
    }

    /// An expression statement: the expression must be well typed.
    pub fn expr(&mut self, e: &ExprData) -> (r: Result<(), AnalysisError>)
        requires
            old(self).ready(),
            expr_ok(e.expr),
        ensures
            final(self).ready(),
            final(self).scopes == old(self).scopes,
            final(self).table == old(self).table,
            final(self).typing_context.fn_types@ == old(self).typing_context.fn_types@,
            final(self).return_type == old(self).return_type,
            r is Ok <==> flat_type(&old(self).table, old(self).vars(), old(self).typing_context.fn_types@, e.expr) is Some,
    {
        let _t = self.expr_type(&e.expr)?;
        Ok(())
    }

    /// A loop or branch condition: it must be a well typed `bool`.
    pub fn condition(&mut self, e: &ExprData) -> (r: Result<(), AnalysisError>)
        requires
            old(self).ready(),
            expr_ok(e.expr),
        ensures
            final(self).ready(),
            final(self).scopes == old(self).scopes,
            final(self).table == old(self).table,
            final(self).typing_context.fn_types@ == old(self).typing_context.fn_types@,
            final(self).return_type == old(self).return_type,
            r is Ok <==> flat_type(&old(self).table, old(self).vars(), old(self).typing_context.fn_types@, e.expr)
                == Some(AbstractType::Bool),
    {
        let t = self.expr_type(&e.expr)?;
        resolve_types(&t, &AbstractType::Bool, e.span)
    }

    /// `return e;` or `return;`: the returned type must be the function's return type
    /// (unit for a bare `return`).
    pub fn ret(&mut self, rdata: &ReturnData) -> (r: Result<(), AnalysisError>)
        requires
            old(self).ready(),
            rdata.expr matches Some(e) ==> expr_ok(e),
        ensures
            final(self).ready(),
            final(self).scopes == old(self).scopes,
            final(self).table == old(self).table,
            final(self).typing_context.fn_types@ == old(self).typing_context.fn_types@,
            final(self).return_type == old(self).return_type,
            r is Ok <==> match rdata.expr {
                Some(e) => flat_type(&old(self).table, old(self).vars(), old(self).typing_context.fn_types@, e)
                    == Some(old(self).return_type),
                None => old(self).return_type == AbstractType::Unit,
            },
    {
        match &rdata.expr {
            Some(e) => {
                let t = self.expr_type(e)?;
                resolve_types(&t, &self.return_type, rdata.span)
            },
            None => resolve_types(&AbstractType::Unit, &self.return_type, rdata.span),
        }
    }

    /// Type checks the statements of a block in order: declarations extend the
    /// innermost scope, and each loop or branch body is checked in a scope of its
    /// own, after its condition.
    #[verifier::loop_isolation(false)]
    pub fn check_block(&mut self, stmts: &Vec<Stmt>) -> (r: Result<(), AnalysisError>)
        requires
            old(self).ready(),
        ensures
            final(self).ready(),
            table_extends(&old(self).table, &final(self).table),
            final(self).typing_context.fn_types@ == old(self).typing_context.fn_types@,
            final(self).return_type == old(self).return_type,
            r is Ok <==> stmts_check(
                &old(self).table,
                old(self).vars(),
                old(self).typing_context.fn_types@,
                old(self).return_type,
                stmts@,
                0,
            ),
            r is Ok ==> final(self).table == old(self).table,
            r is Ok ==> final(self).scopes@.len() == old(self).scopes@.len(),
            r is Ok ==> final(self).scopes@.drop_last() == old(self).scopes@.drop_last(),
        decreases stmts@, 1int,
    {
        let ghost table0 = self.table;
        let ghost fns = self.typing_context.fn_types@;
        let ghost ret = self.return_type;
        let ghost vars0 = self.vars();
        let mut i: usize = 0;
        while i < stmts.len()
            invariant
                i <= stmts@.len(),
                self.ready(),
                self.scopes@.len() == old(self).scopes@.len(),
                self.scopes@.drop_last() == old(self).scopes@.drop_last(),
                self.table == table0,
                table0 == old(self).table,
                fns == old(self).typing_context.fn_types@,
                ret == old(self).return_type,
                vars0 == old(self).vars(),
                self.typing_context.fn_types@ == fns,
                self.return_type == ret,
                stmts_check(&table0, vars0, fns, ret, stmts@, 0) == stmts_check(
                    &table0,
                    self.vars(),
                    fns,
                    ret,
                    stmts@,
                    i as int,
                ),
            decreases stmts.len() - i,
        {
            let ghost vars_i = self.vars();
            let r = self.check_stmt(&stmts[i]);
            if r.is_err() {
                return r;
            }
            assert(stmts_check(&table0, vars_i, fns, ret, stmts@, i as int) == stmts_check(
                &table0,
                self.vars(),
                fns,
                ret,
                stmts@,
                i + 1,
            ));
            i = i + 1;
        }
        Ok(())
    }

    /// Type checks one statement (see `stmt_check`).
    #[verifier::loop_isolation(false)]
    #[verifier::rlimit(40)]
    fn check_stmt(&mut self, stmt: &Stmt) -> (r: Result<(), AnalysisError>)
        requires
            old(self).ready(),
        ensures
            final(self).ready(),
            table_extends(&old(self).table, &final(self).table),
            final(self).typing_context.fn_types@ == old(self).typing_context.fn_types@,
            final(self).return_type == old(self).return_type,
            r is Ok <==> stmt_check(
                &old(self).table,
                old(self).vars(),
                old(self).typing_context.fn_types@,
                old(self).return_type,
                *stmt,
            ) is Some,
            r is Ok ==> final(self).vars() == stmt_check(
                &old(self).table,
                old(self).vars(),
                old(self).typing_context.fn_types@,
                old(self).return_type,
                *stmt,
            )->0,
            r is Ok ==> final(self).table == old(self).table,
            r is Ok ==> final(self).scopes@.len() == old(self).scopes@.len(),
            r is Ok ==> final(self).scopes@.drop_last() == old(self).scopes@.drop_last(),
        decreases stmt, 0int,
    {
        let ghost table0 = self.table;
        let ghost fns = self.typing_context.fn_types@;
        let ghost ret = self.return_type;
        let ghost vars0 = self.vars();
        match stmt {
            Stmt::Expr(e, span) => {
                let fe = flatten(e, *span);
                self.expr(&ExprData { expr: fe, span: *span })
            },
            Stmt::ExprStmt(es, span) => match es {
                ExprStmt::LocalVarDecl(d) => {
                    let fe = flatten(&d.var_init, *span);
                    self.declare(&d.var_name, &d.var_type, &fe, *span)
                },
                ExprStmt::Assignment(a) => {
                    let data = AssignmentData {
                        assignee: flatten_path(&a.name, *span),
                        value: flatten(&a.value, *span),
                        span: *span,
                    };
                    self.assignment(&data)
                },
                ExprStmt::Return(rspan, e) => {
                    let expr = match e {
                        Some(e) => Some(flatten(e, *rspan)),
                        None => None,
                    };
                    self.ret(&ReturnData { expr, span: *rspan })
                },
                ExprStmt::Break(_) | ExprStmt::Continue(_) => Ok(()),
                ExprStmt::While(w) => {
                    let fe = flatten(&w.conditional, *span);
                    self.condition(&ExprData { expr: fe, span: *span })?;
                    self.fork_current();
                    self.check_block(&w.block.0)?;
                    self.pop_current();
                    assert(self.scopes@ =~= old(self).scopes@);
                    Ok(())
                },
                ExprStmt::If(f) => {
                    let mut k: usize = 0;
                    while k < f.branches.len()
                        invariant
                            k <= f.branches@.len(),
                            self.ready(),
                            self.scopes@ == old(self).scopes@,
                            self.table == table0,
                            self.typing_context.fn_types@ == fns,
                            self.return_type == ret,
                            table0 == old(self).table,
                            fns == old(self).typing_context.fn_types@,
                            ret == old(self).return_type,
                            vars0 == old(self).vars(),
                            branches_check(&table0, vars0, fns, ret, f.branches@, 0) == branches_check(
                                &table0,
                                vars0,
                                fns,
                                ret,
                                f.branches@,
                                k as int,
                            ),
                        decreases f.branches.len() - k,
                    {
                        proof {
                            vstd::std_specs::vec::axiom_vec_index_decreases(f.branches, k as int);
                        }
                        let b = &f.branches[k];
                        let fe = flatten(&b.conditional, *span);
                        self.condition(&ExprData { expr: fe, span: *span })?;
                        self.fork_current();
                        self.check_block(&b.block.0)?;
                        self.pop_current();
                        assert(self.scopes@ =~= old(self).scopes@);
                        k = k + 1;
                    }
                    if let Some(b) = &f.default_block {
                        self.fork_current();
                        self.check_block(&b.0)?;
                        self.pop_current();
                        assert(self.scopes@ =~= old(self).scopes@);
                    }
                    Ok(())
                },
            },
        }
    }
}

/// Type checks a function body: the body is checked in a scope of its own, opened
/// on top of the checker's current scope.
pub fn type_check(checker: &mut TypeChecker, body: &Block) -> (r: Result<(), AnalysisError>)
    requires
        old(checker).ready(),
    ensures
        final(checker).ready(),
        table_extends(&old(checker).table, &final(checker).table),
        r is Ok <==> stmts_check(
            &old(checker).table,
            old(checker).vars(),
            old(checker).typing_context.fn_types@,
            old(checker).return_type,
            body.0@,
            0,
        ),
        r is Ok ==> final(checker).table == old(checker).table,
        r is Ok ==> final(checker).scopes@ == old(checker).scopes@,
        final(checker).typing_context.fn_types@ == old(checker).typing_context.fn_types@,
        final(checker).return_type == old(checker).return_type,
{
    checker.fork_current();
    checker.check_block(&body.0)?;
    checker.pop_current();
    assert(checker.scopes@ =~= old(checker).scopes@);
    Ok(())
}

} // verus!
