//! Types as the type checker sees them, and the table of named, record and
//! function types they refer to.

use vstd::prelude::*;

use crate::ast::{Ident, ModulePath};

verus! {

/// A type. Records, width constraints and function types are entries of a
/// [`TypeTable`] and are referred to by their index there.
pub enum AbstractType {
    Int,
    Float,
    String,
    Bool,
    Unit,
    Array { element_type: Box<AbstractType>, size: u64 },
    Record(u64),
    WidthConstraint(u64),
    Function(u64),
    UncheckedFunction(u64),
}

impl AbstractType {
    /// A copy of the type.
    pub fn duplicate(&self) -> (r: AbstractType)
        ensures
            r == *self,
        decreases self,
    {
        match self {
            AbstractType::Int => AbstractType::Int,
            AbstractType::Float => AbstractType::Float,
            AbstractType::String => AbstractType::String,
            AbstractType::Bool => AbstractType::Bool,
            AbstractType::Unit => AbstractType::Unit,
            AbstractType::Array { element_type, size } => AbstractType::Array {
                element_type: Box::new(element_type.duplicate()),
                size: *size,
            },
            AbstractType::Record(i) => AbstractType::Record(*i),
            AbstractType::WidthConstraint(i) => AbstractType::WidthConstraint(*i),
            AbstractType::Function(i) => AbstractType::Function(*i),
            AbstractType::UncheckedFunction(i) => AbstractType::UncheckedFunction(*i),
        }
    }
}

/// Structural equality of types.
pub fn same_type(a: &AbstractType, b: &AbstractType) -> (r: bool)
    ensures
        r == (*a == *b),
    decreases a,
{
    match (a, b) {
        (AbstractType::Int, AbstractType::Int) => true,
        (AbstractType::Float, AbstractType::Float) => true,
        (AbstractType::String, AbstractType::String) => true,
        (AbstractType::Bool, AbstractType::Bool) => true,
        (AbstractType::Unit, AbstractType::Unit) => true,
        (
            AbstractType::Array { element_type: e1, size: s1 },
            AbstractType::Array { element_type: e2, size: s2 },
        ) => *s1 == *s2 && same_type(e1, e2),
        (AbstractType::Record(i), AbstractType::Record(j)) => *i == *j,
        (AbstractType::WidthConstraint(i), AbstractType::WidthConstraint(j)) => *i == *j,
        (AbstractType::Function(i), AbstractType::Function(j)) => *i == *j,
        (AbstractType::UncheckedFunction(i), AbstractType::UncheckedFunction(j)) => *i == *j,
        _ => false,
    }
}

/// Elementwise equality of two lists of types.
pub fn same_types(a: &Vec<AbstractType>, b: &Vec<AbstractType>) -> (r: bool)
    ensures
        r == (a@ == b@),
{
    if a.len() != b.len() {
        return false;
    }
    let mut i: usize = 0;
    while i < a.len()
        invariant
            a@.len() == b@.len(),
            i <= a@.len(),
            forall|j: int| 0 <= j < i ==> a@[j] == b@[j],
        decreases a.len() - i,
    {
        if !same_type(&a[i], &b[i]) {
            return false;
        }
        i = i + 1;
    }
    assert(a@ =~= b@);
    true
}

/// A struct type: its name and its fields in declaration order.
pub struct RecordType {
    pub name: Ident,
    pub fields: Vec<(Ident, AbstractType)>,
}

/// A function type.
pub struct FnType {
    pub params: Vec<AbstractType>,
    pub return_type: AbstractType,
}

/// The record, width-constraint and function types that [`AbstractType`]s refer to,
/// and the type names in scope. Function types are stored once each, so two
/// function types are equal exactly when their indices are.
pub struct TypeTable {
    pub records: Vec<RecordType>,
    pub widths: Vec<Vec<(Ident, AbstractType)>>,
    pub fns: Vec<FnType>,
    pub unchecked_fns: Vec<AbstractType>,
    pub names: Vec<(ModulePath, AbstractType)>,
}

/// Every table index that `t` uses exists in `table`.
pub open spec fn valid_type(table: &TypeTable, t: AbstractType) -> bool
    decreases t,
{
    match t {
        AbstractType::Array { element_type, .. } => valid_type(table, *element_type),
        AbstractType::Record(i) => i < table.records@.len(),
        AbstractType::WidthConstraint(i) => i < table.widths@.len(),
        AbstractType::Function(i) => i < table.fns@.len(),
        AbstractType::UncheckedFunction(i) => i < table.unchecked_fns@.len(),
        _ => true,
    }
}

impl TypeTable {
    /// The table is consistent: every stored type only refers to existing entries,
    /// and no function type is stored twice.
    pub open spec fn wf(&self) -> bool {
        &&& forall|i: int, j: int|
            0 <= i < self.records@.len() && 0 <= j < self.records@[i].fields@.len() ==> valid_type(
                self,
                #[trigger] self.records@[i].fields@[j].1,
            )
        &&& forall|i: int, j: int|
            0 <= i < self.widths@.len() && 0 <= j < self.widths@[i]@.len() ==> valid_type(
                self,
                #[trigger] self.widths@[i]@[j].1,
            )
        &&& forall|i: int, j: int|
            0 <= i < self.fns@.len() && 0 <= j < self.fns@[i].params@.len() ==> valid_type(
                self,
                #[trigger] self.fns@[i].params@[j],
            )
        &&& forall|i: int| 0 <= i < self.fns@.len() ==> valid_type(self, #[trigger] self.fns@[i].return_type)
        &&& forall|i: int|
            0 <= i < self.unchecked_fns@.len() ==> valid_type(self, #[trigger] self.unchecked_fns@[i])
        &&& forall|i: int| 0 <= i < self.names@.len() ==> valid_type(self, #[trigger] self.names@[i].1)
        &&& forall|i: int, j: int|
            0 <= i < j < self.fns@.len() ==> !(#[trigger] self.fns@[i].params@ =~= #[trigger] self.fns@[j].params@
                && self.fns@[i].return_type == self.fns@[j].return_type)
    }

    /// A table that only knows the built-in type names `int`, `float`, `String`, `bool`.
    pub fn with_builtins() -> (r: TypeTable)
        ensures
            r.wf(),
            r.records@.len() == 0,
            r.fns@.len() == 0,
            r.widths@.len() == 0,
            r.unchecked_fns@.len() == 0,
            r.names@.len() == 4,
            forall|i: int| 0 <= i < 4 ==> (#[trigger] r.names@[i]).0.0@.len() == 1,
            r.names@[0].0.0@[0].0@ == "int"@ && r.names@[0].1 == AbstractType::Int,
            r.names@[1].0.0@[0].0@ == "float"@ && r.names@[1].1 == AbstractType::Float,
            r.names@[2].0.0@[0].0@ == "String"@ && r.names@[2].1 == AbstractType::String,
            r.names@[3].0.0@[0].0@ == "bool"@ && r.names@[3].1 == AbstractType::Bool,
    {
        let mut names: Vec<(ModulePath, AbstractType)> = Vec::new();
        names.push((ModulePath(vec![Ident("int".to_string())]), AbstractType::Int));
        names.push((ModulePath(vec![Ident("float".to_string())]), AbstractType::Float));
        names.push((ModulePath(vec![Ident("String".to_string())]), AbstractType::String));
        names.push((ModulePath(vec![Ident("bool".to_string())]), AbstractType::Bool));
        proof {
            reveal_strlit("int");
            reveal_strlit("float");
            reveal_strlit("String");
            reveal_strlit("bool");
        }
        TypeTable {
            records: Vec::new(),
            widths: Vec::new(),
            fns: Vec::new(),
            unchecked_fns: Vec::new(),
            names,
        }
    }
}

} // verus!
