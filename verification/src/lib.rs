//! SMPL: a small statically typed language, its parser, type checker,
//! control-flow graph construction and interpreter support.

pub mod span;
pub mod tokens;
pub mod ast;
pub mod parse_base;
pub mod expr_parser;
pub mod parser;
pub mod expr_flow;
pub mod types;
pub mod error;
pub mod type_checker;
pub mod control_flow;
pub mod traversal;
pub mod value;
pub mod vec_builtins;
pub mod env;
pub mod eval;
pub mod interp;
pub mod type_cons;
pub mod program;
pub mod byte_code;
