//! Errors of semantic analysis.

use vstd::prelude::*;

use crate::ast::{BinOp, Ident, ModulePath, UniOp};
use crate::span::Span;
use crate::types::AbstractType;

verus! {

/// Errors of control-flow analysis.
pub enum ControlFlowError {
    MissingReturn(Span),
    BadBreak(Span),
    BadContinue(Span),
}

/// Errors of control-flow analysis, without source locations.
#[derive(Clone, Copy, Debug, PartialEq, Eq, Structural)]
pub enum ControlFlowErr {
    MissingReturn,
    BadBreak,
    BadContinue,
}

/// Errors in applying a type constructor to type arguments.
#[allow(inconsistent_fields)]
pub enum ApplicationError {
    Arity { expected: usize, found: usize },
    ExpectedNumber { param_position: usize },
    ExpectedType { param_position: usize },
    InvalidNumber { param_position: usize, found: i64 },
    /// Applying type arguments nested deeper than the recursion limit.
    RecursionLimit,
}

/// Type errors.
#[allow(inconsistent_fields)]
pub enum TypeError {
    UnexpectedType { found: AbstractType, expected: AbstractType, span: Span },
    Arity { fn_type: AbstractType, found_args: usize, expected_param: usize, span: Span },
    BinOp {
        op: BinOp,
        expected: Vec<AbstractType>,
        lhs: AbstractType,
        rhs: AbstractType,
        span: Span,
    },
    UniOp { op: UniOp, expected: Vec<AbstractType>, expr: AbstractType, span: Span },
    FieldAccessOnNonStruct {
        index: usize,
        invalid_type: AbstractType,
        root_type: AbstractType,
        span: Span,
    },
    NotAStruct { struct_name: ModulePath, found: AbstractType, span: Span },
    StructNotFullyInitialized {
        struct_name: ModulePath,
        struct_type: AbstractType,
        missing_fields: Vec<Ident>,
        span: Span,
    },
    InvalidInitialization { fields: Vec<Ident>, span: Span },
    UnknownField { name: Ident, struct_type: AbstractType, span: Span },
    HeterogenousArray { expected: AbstractType, found: AbstractType, index: usize, span: Span },
    NotAnArray { found: AbstractType, span: Span },
    InvalidIndex { found: AbstractType, span: Span },
    NotAFunction { found: AbstractType, span: Span },
    EmptyArrayInit { span: Span },
    UnsupportedAnonymousFn { span: Span },
    /// A struct type that holds itself, directly or through other structs: the
    /// index of the struct from which the nesting was followed.
    CyclicType(u64),
    ApplicationError(ApplicationError),
}

/// Errors of semantic analysis.
pub enum AnalysisError {
    ControlFlowError(ControlFlowError),
    TypeError(TypeError),
    UnknownType(ModulePath, Span),
    UnknownBinding(Ident, Span),
    UnknownFn(ModulePath, Span),
    MultipleMainFns,
    MissingModName,
    /// `use` declarations that name no module.
    UnresolvedUses(Vec<Ident>),
    /// A function body that the control-flow graph cannot hold: an `if` without a
    /// conditional branch, or more nodes than the graph's index type allows.
    MalformedBody(Ident),
}

} // verus!
