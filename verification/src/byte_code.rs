//! The instruction set of the byte-code back end.
//!
//! Floats are held as the bits of their IEEE 754 binary64 encoding; maps from
//! names are held as lists of named entries, in insertion order.

use vstd::prelude::*;

verus! {

/// A straight-line sequence of instructions.
pub struct Block {
    pub instructions: Vec<Instruction>,
}

pub enum Instruction {
    Store(Location, Arg),
    StoreStructure(Location, Vec<(String, Arg)>),
    StoreArray1(Location, Vec<Arg>),
    StoreArray2(Location, Arg, u64),
    Add(Location, Arg, Arg),
    Sub(Location, Arg, Arg),
    Mul(Location, Arg, Arg),
    Div(Location, Arg, Arg),
    Mod(Location, Arg, Arg),
    And(Location, Arg, Arg),
    Or(Location, Arg, Arg),
    GEq(Location, Arg, Arg),
    LEq(Location, Arg, Arg),
    GE(Location, Arg, Arg),
    LE(Location, Arg, Arg),
    Eq(Location, Arg, Arg),
    InEq(Location, Arg, Arg),
    Negate(Location, Arg),
    Invert(Location, Arg),
    FnCall(Location, Location, Vec<Arg>),
    Return(Option<Arg>),
    Jump(JumpTarget),
    /// Jumps when the argument is true.
    JumpCondition(JumpTarget, Arg),
    /// Jumps when the argument is false.
    JumpNegateCondition(JumpTarget, Arg),
    JumpE(JumpTarget, Arg, Arg),
    JumpNE(JumpTarget, Arg, Arg),
    JumpGE(JumpTarget, Arg, Arg),
    JumpLE(JumpTarget, Arg, Arg),
    JumpG(JumpTarget, Arg, Arg),
    JumpL(JumpTarget, Arg, Arg),
    RelJump(RelJumpTarget),
    /// Jumps when the argument is true.
    RelJumpCondition(RelJumpTarget, Arg),
    /// Jumps when the argument is false.
    RelJumpNegateCondition(RelJumpTarget, Arg),
    RelJumpE(RelJumpTarget, Arg, Arg),
    RelJumpNE(RelJumpTarget, Arg, Arg),
    RelJumpGE(RelJumpTarget, Arg, Arg),
    RelJumpLE(RelJumpTarget, Arg, Arg),
    RelJumpG(RelJumpTarget, Arg, Arg),
    RelJumpL(RelJumpTarget, Arg, Arg),
}

/// An absolute jump target: the index of an instruction.
pub struct JumpTarget(pub u64);

/// A relative jump target: an offset from the jumping instruction.
pub struct RelJumpTarget(pub u64);

/// Where a value is read from or stored to.
pub enum Location {
    Compound { root: String, root_index: Option<String>, path: Vec<FieldAccess> },
    Namespace(String),
    Tmp(String),
}

/// One step of a compound location: a field, or an indexed field whose index is
/// held by a temporary.
pub enum FieldAccess {
    Field(String),
    FieldIndex { field: String, index_tmp: String },
}

/// An instruction operand.
pub enum Arg {
    Location(Location),
    FieldAccess(Location, Vec<String>),
    Int(i64),
    Float(u64),
    Bool(bool),
    String(String),
    Struct(Struct),
}

/// A structure constant: its fields by name.
pub struct Struct {
    pub field_map: Vec<(String, StructField)>,
}

pub enum StructField {
    Int(i64),
    Float(i64),
    Bool(bool),
    String(String),
    Struct(Box<Struct>),
}

} // verus!
