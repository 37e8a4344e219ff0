//! The abstract syntax tree produced by the parser.

use vstd::prelude::*;

use crate::span::Span;

verus! {

/// A name.
pub struct Ident(pub String);

impl Ident {
    pub fn as_str(&self) -> (r: &str)
        ensures
            r@ == self.0@,
    {
        self.0.as_str()
    }

    pub fn duplicate(&self) -> (r: Ident)
        ensures
            r == *self,
    {
        Ident(self.0.clone())
    }
}

/// A `::`-separated path of names, such as `mod1::add`.
pub struct ModulePath(pub Vec<Ident>);

impl ModulePath {
    /// A copy of the path.
    pub fn duplicate(&self) -> (r: ModulePath)
        ensures
            r.0@ == self.0@,
    {
        let mut v: Vec<Ident> = Vec::new();
        let mut i: usize = 0;
        while i < self.0.len()
            invariant
                i <= self.0@.len(),
                v@ == self.0@.subrange(0, i as int),
            decreases self.0.len() - i,
        {
            v.push(self.0[i].duplicate());
            i = i + 1;
        }
        ModulePath(v)
    }
}

#[derive(Clone, Copy, Debug, PartialEq, Eq, Structural)]
pub enum BinOp {
    Add,
    Sub,
    Mul,
    Div,
    Mod,
    LogicalAnd,
    LogicalOr,
    GreaterEq,
    LesserEq,
    Greater,
    Lesser,
    Eq,
    InEq,
}

#[derive(Clone, Copy, Debug, PartialEq, Eq, Structural)]
pub enum UniOp {
    Negate,
    LogicalInvert,
}

/// A literal value. Float literals keep their source text.
pub enum Literal {
    Int(i64),
    Float(String),
    String(String),
    Bool(bool),
}

pub struct BinExpr {
    pub op: BinOp,
    pub lhs: Box<Expr>,
    pub rhs: Box<Expr>,
}

pub struct UniExpr {
    pub op: UniOp,
    pub expr: Box<Expr>,
}

pub struct FnCall {
    pub path: ModulePath,
    pub args: Option<Vec<Expr>>,
}

pub enum PathSegment {
    Ident(Ident),
    Indexing(Ident, Box<Expr>),
}

/// A field access path such as `a.b[i].c`.
pub struct Path(pub Vec<PathSegment>);

pub struct Indexing {
    pub array: Box<Expr>,
    pub indexer: Box<Expr>,
}

pub struct StructInit {
    pub struct_name: ModulePath,
    pub field_init: Option<Vec<(Ident, Box<Expr>)>>,
}

pub enum ArrayInit {
    InitList(Vec<Expr>),
    Value(Box<Expr>, u64),
}

pub struct FnCallChain {
    pub base: FnCall,
    pub chain: Vec<FnCall>,
}

pub struct AnonymousFn {
    pub params: Option<Vec<FnParameter>>,
    pub return_type: Option<TypeAnnotation>,
    pub body: Block,
}

pub enum Expr {
    Bin(BinExpr),
    Uni(UniExpr),
    Literal(Literal),
    Binding(Ident),
    FieldAccess(Path),
    ModAccess(ModulePath),
    FnCall(FnCall),
    FnCallChain(FnCallChain),
    Indexing(Indexing),
    StructInit(StructInit),
    ArrayInit(ArrayInit),
    AnonymousFn(AnonymousFn),
}

pub enum TypeAnnotation {
    Path(ModulePath),
    Array(Box<TypeAnnotation>, u64),
    FnType(Option<Vec<TypeAnnotation>>, Option<Box<TypeAnnotation>>),
}

pub struct FnParameter {
    pub name: Ident,
    pub param_type: TypeAnnotation,
}

pub struct LocalVarDecl {
    pub var_type: Option<TypeAnnotation>,
    pub var_name: Ident,
    pub var_init: Expr,
}

pub struct Assignment {
    pub name: Path,
    pub value: Expr,
}

pub struct Branch {
    pub conditional: Expr,
    pub block: Block,
}

pub struct If {
    pub branches: Vec<Branch>,
    pub default_block: Option<Block>,
}

pub struct While {
    pub conditional: Expr,
    pub block: Block,
}

pub enum ExprStmt {
    LocalVarDecl(LocalVarDecl),
    Assignment(Assignment),
    If(If),
    While(While),
    Break(Span),
    Continue(Span),
    Return(Span, Option<Expr>),
}

pub enum Stmt {
    Expr(Expr, Span),
    ExprStmt(ExprStmt, Span),
}

pub struct Block(pub Vec<Stmt>);

pub struct Annotation {
    pub keys: Vec<(Ident, Option<String>)>,
}

pub struct UseDecl(pub Ident);

pub enum BuiltinFnParams {
    Unchecked,
    Checked(Option<Vec<FnParameter>>),
}

pub struct Function {
    pub name: Ident,
    pub params: Option<Vec<FnParameter>>,
    pub return_type: Option<TypeAnnotation>,
    pub body: Block,
    pub annotations: Vec<Annotation>,
}

pub struct BuiltinFunction {
    pub name: Ident,
    pub params: BuiltinFnParams,
    pub return_type: Option<TypeAnnotation>,
    pub annotations: Vec<Annotation>,
}

pub struct StructField {
    pub name: Ident,
    pub field_type: TypeAnnotation,
}

pub struct StructBody(pub Option<Vec<StructField>>);

pub struct Struct {
    pub name: Ident,
    pub body: StructBody,
    pub annotations: Vec<Annotation>,
}

pub enum DeclStmt {
    Use(UseDecl, Span),
    Struct(Struct, Span),
    Function(Function, Span),
    BuiltinFunction(BuiltinFunction, Span),
}

/// A parsed module: its optional `mod name;` declaration and its top-level declarations.
pub struct Module(pub Option<Ident>, pub Vec<DeclStmt>);

} // verus!
