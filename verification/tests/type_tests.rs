use smpl::ast::{BinOp, Expr, Ident, Literal, ModulePath, TypeAnnotation, UniOp};
use smpl::error::{AnalysisError, ApplicationError, TypeError};
use smpl::expr_parser::{piped_expr, Delimiter};
use smpl::span::Span;
use smpl::tokens::{SpannedToken, Token};
use smpl::type_checker::{resolve_anon_struct_init, resolve_array_list, resolve_bin_op, resolve_indexing, resolve_types, resolve_uni_op};
use smpl::type_cons::{type_app_from_annotation, TypeApp, TypeCons, TypeScope, Universe};
use smpl::types::{AbstractType, TypeTable};

fn span() -> Span {
    Span { start: 0, end: 0 }
}

fn toks(list: Vec<Token>) -> Vec<SpannedToken> {
    list.into_iter()
        .enumerate()
        .map(|(i, token)| SpannedToken { token, span: Span { start: i as u64, end: i as u64 + 1 } })
        .collect()
}

fn parse_expr(list: Vec<Token>) -> Expr {
    let input = toks(list);
    let ((e, _), p) = piped_expr(&input, 0, &vec![Delimiter::Semi]).ok().unwrap();
    assert_eq!(p, input.len() - 1);
    e
}

fn int_of(e: &Expr) -> i64 {
    match e {
        Expr::Literal(Literal::Int(i)) => *i,
        _ => panic!("expected an integer literal"),
    }
}

fn int_array(size: u64) -> AbstractType {
    AbstractType::Array { element_type: Box::new(AbstractType::Int), size }
}

#[test]
fn multiplication_binds_tighter_than_addition() {
    // 1 + 2 * 3;
    let e = parse_expr(vec![
        Token::IntLiteral(1),
        Token::Plus,
        Token::IntLiteral(2),
        Token::Star,
        Token::IntLiteral(3),
        Token::Semi,
    ]);
    match e {
        Expr::Bin(b) => {
            assert!(matches!(b.op, BinOp::Add));
            assert_eq!(int_of(&b.lhs), 1);
            match *b.rhs {
                Expr::Bin(inner) => {
                    assert!(matches!(inner.op, BinOp::Mul));
                    assert_eq!(int_of(&inner.lhs), 2);
                    assert_eq!(int_of(&inner.rhs), 3);
                }
                _ => panic!("expected a product on the right"),
            }
        }
        _ => panic!("expected a sum"),
    }
}

#[test]
fn subtraction_is_left_associative() {
    // 1 - 2 - 3;
    let e = parse_expr(vec![
        Token::IntLiteral(1),
        Token::Minus,
        Token::IntLiteral(2),
        Token::Minus,
        Token::IntLiteral(3),
        Token::Semi,
    ]);
    match e {
        Expr::Bin(b) => {
            assert!(matches!(b.op, BinOp::Sub));
            assert_eq!(int_of(&b.rhs), 3);
            match *b.lhs {
                Expr::Bin(inner) => {
                    assert!(matches!(inner.op, BinOp::Sub));
                    assert_eq!(int_of(&inner.lhs), 1);
                    assert_eq!(int_of(&inner.rhs), 2);
                }
                _ => panic!("expected a difference on the left"),
            }
        }
        _ => panic!("expected a difference"),
    }
}

#[test]
fn arithmetic_on_ints_gives_int() {
    let t = resolve_bin_op(&BinOp::Add, &AbstractType::Int, &AbstractType::Int, span()).ok().unwrap();
    assert!(matches!(t, AbstractType::Int));
    let t = resolve_bin_op(&BinOp::Mod, &AbstractType::Float, &AbstractType::Float, span()).ok().unwrap();
    assert!(matches!(t, AbstractType::Float));
}

#[test]
fn comparisons_give_bool() {
    let t = resolve_bin_op(&BinOp::Lesser, &AbstractType::Int, &AbstractType::Int, span()).ok().unwrap();
    assert!(matches!(t, AbstractType::Bool));
    let t = resolve_bin_op(&BinOp::Eq, &AbstractType::Bool, &AbstractType::Bool, span()).ok().unwrap();
    assert!(matches!(t, AbstractType::Bool));
}

#[test]
fn logical_operators_need_bools() {
    let t = resolve_bin_op(&BinOp::LogicalAnd, &AbstractType::Bool, &AbstractType::Bool, span()).ok().unwrap();
    assert!(matches!(t, AbstractType::Bool));
    assert!(matches!(
        resolve_bin_op(&BinOp::LogicalOr, &AbstractType::Int, &AbstractType::Int, span()),
        Err(AnalysisError::TypeError(TypeError::BinOp { .. }))
    ));
}

#[test]
fn mismatched_operands_are_refused() {
    assert!(matches!(
        resolve_bin_op(&BinOp::Add, &AbstractType::Int, &AbstractType::Bool, span()),
        Err(AnalysisError::TypeError(TypeError::BinOp { .. }))
    ));
}

#[test]
fn unary_operators() {
    let t = resolve_uni_op(&UniOp::Negate, &AbstractType::Int, span()).ok().unwrap();
    assert!(matches!(t, AbstractType::Int));
    let t = resolve_uni_op(&UniOp::LogicalInvert, &AbstractType::Bool, span()).ok().unwrap();
    assert!(matches!(t, AbstractType::Bool));
    assert!(matches!(
        resolve_uni_op(&UniOp::LogicalInvert, &AbstractType::Int, span()),
        Err(AnalysisError::TypeError(TypeError::UniOp { .. }))
    ));
    assert!(resolve_uni_op(&UniOp::Negate, &AbstractType::String, span()).is_err());
}

#[test]
fn indexing_an_array() {
    let t = resolve_indexing(&int_array(3), &AbstractType::Int, span()).ok().unwrap();
    assert!(matches!(t, AbstractType::Int));
    assert!(matches!(
        resolve_indexing(&AbstractType::Int, &AbstractType::Int, span()),
        Err(AnalysisError::TypeError(TypeError::NotAnArray { .. }))
    ));
    assert!(matches!(
        resolve_indexing(&int_array(3), &AbstractType::Bool, span()),
        Err(AnalysisError::TypeError(TypeError::InvalidIndex { .. }))
    ));
}

#[test]
fn array_literal_types() {
    let t = resolve_array_list(&vec![AbstractType::Int, AbstractType::Int], span()).ok().unwrap();
    match t {
        AbstractType::Array { element_type, size } => {
            assert!(matches!(*element_type, AbstractType::Int));
            assert_eq!(size, 2);
        }
        _ => panic!("expected an array"),
    }
    match resolve_array_list(&vec![AbstractType::Int, AbstractType::Bool], span()) {
        Err(AnalysisError::TypeError(TypeError::HeterogenousArray { index, .. })) => assert_eq!(index, 1),
        _ => panic!("expected a heterogenous array"),
    }
}

#[test]
fn type_equality_check() {
    assert!(resolve_types(&int_array(2), &int_array(2), span()).is_ok());
    assert!(matches!(
        resolve_types(&int_array(2), &int_array(3), span()),
        Err(AnalysisError::TypeError(TypeError::UnexpectedType { .. }))
    ));
}

fn path_ann(name: &str) -> TypeAnnotation {
    TypeAnnotation::Path(ModulePath(vec![Ident(name.to_string())]))
}

#[test]
fn builtin_type_names_resolve() {
    let mut u = Universe::with_builtins();
    let scope = TypeScope::with_builtins();
    let t = type_app_from_annotation(&mut u, &scope, &path_ann("bool"), span()).ok().unwrap();
    assert_eq!(t.type_cons(), Some(3));
    assert_eq!(u.type_cons.len(), 5);
}

#[test]
fn unknown_type_name_is_refused() {
    let mut u = Universe::with_builtins();
    let scope = TypeScope::with_builtins();
    assert!(matches!(
        type_app_from_annotation(&mut u, &scope, &path_ann("Nope"), span()),
        Err(AnalysisError::UnknownType(_, _))
    ));
}

#[test]
fn array_annotation_stores_a_constructor() {
    let mut u = Universe::with_builtins();
    let scope = TypeScope::with_builtins();
    let ann = TypeAnnotation::Array(Box::new(path_ann("int")), 4);
    let t = type_app_from_annotation(&mut u, &scope, &ann, span()).ok().unwrap();
    assert_eq!(u.type_cons.len(), 6);
    assert_eq!(t.type_cons(), Some(5));
    match &u.type_cons[5] {
        TypeCons::Array { element_type, size } => {
            assert_eq!(*size, 4);
            assert_eq!(element_type.type_cons(), Some(0));
        }
        _ => panic!("expected an array constructor"),
    }
}

#[test]
fn function_annotation_without_return_returns_unit() {
    let mut u = Universe::with_builtins();
    let scope = TypeScope::with_builtins();
    let ann = TypeAnnotation::FnType(Some(vec![path_ann("int")]), None);
    let t = type_app_from_annotation(&mut u, &scope, &ann, span()).ok().unwrap();
    let id = t.type_cons().unwrap() as usize;
    match &u.type_cons[id] {
        TypeCons::Function { parameters, return_type, .. } => {
            assert_eq!(parameters.len(), 1);
            assert_eq!(return_type.type_cons(), Some(u.unit()));
        }
        _ => panic!("expected a function constructor"),
    }
    assert!(!u.type_cons[id].is_unchecked_fn());
}

#[test]
fn applying_a_builtin_keeps_it() {
    let mut u = Universe::with_builtins();
    let t = TypeApp::Applied { type_cons: 0, args: None };
    let applied = t.apply(&mut u).ok().unwrap();
    assert_eq!(applied.type_cons(), Some(0));
    assert_eq!(u.type_cons.len(), 5);
}

#[test]
fn applying_with_arguments_to_a_plain_type_is_an_arity_error() {
    let mut u = Universe::with_builtins();
    let t = TypeApp::Applied { type_cons: 0, args: Some(vec![TypeApp::Applied { type_cons: 1, args: None }]) };
    assert!(matches!(t.apply(&mut u), Err(TypeError::ApplicationError(ApplicationError::Arity { .. }))));
}

#[test]
fn application_without_depth_hits_the_limit() {
    let mut u = Universe::with_builtins();
    let t = TypeApp::Applied { type_cons: 0, args: None };
    assert!(matches!(
        t.apply_internal(&mut u, &vec![], 0),
        Err(TypeError::ApplicationError(ApplicationError::RecursionLimit))
    ));
}

#[test]
fn unchecked_function_constructor_is_recognised() {
    let c = TypeCons::UncheckedFunction { type_params: None, return_type: TypeApp::Applied { type_cons: 4, args: None } };
    assert!(c.is_unchecked_fn());
    assert!(!TypeCons::Int.is_unchecked_fn());
}

fn parse_ann(list: Vec<Token>) -> Option<(TypeAnnotation, usize)> {
    let input = toks(list);
    smpl::parser::type_annotation(&input, 0).ok().map(|((a, _), p)| (a, p))
}

#[test]
fn array_annotation_parses() {
    // [int; 3];
    let (a, p) = parse_ann(vec![
        Token::LBracket,
        Token::Identifier("int".to_string()),
        Token::Semi,
        Token::IntLiteral(3),
        Token::RBracket,
        Token::Semi,
    ])
    .unwrap();
    assert_eq!(p, 5);
    match a {
        TypeAnnotation::Array(elem, n) => {
            assert_eq!(n, 3);
            assert!(matches!(*elem, TypeAnnotation::Path(_)));
        }
        _ => panic!("expected an array annotation"),
    }
}

#[test]
fn array_size_must_be_positive() {
    assert!(parse_ann(vec![
        Token::LBracket,
        Token::Identifier("int".to_string()),
        Token::Semi,
        Token::IntLiteral(0),
        Token::RBracket,
    ])
    .is_none());
}

#[test]
fn function_annotation_takes_a_trailing_comma() {
    // fn(int, bool,) -> int;
    let (a, p) = parse_ann(vec![
        Token::Fn,
        Token::LParen,
        Token::Identifier("int".to_string()),
        Token::Comma,
        Token::Identifier("bool".to_string()),
        Token::Comma,
        Token::RParen,
        Token::Arrow,
        Token::Identifier("int".to_string()),
        Token::Semi,
    ])
    .unwrap();
    assert_eq!(p, 9);
    match a {
        TypeAnnotation::FnType(Some(params), Some(_)) => assert_eq!(params.len(), 2),
        _ => panic!("expected a function annotation with a return type"),
    }
}

#[test]
fn function_annotation_without_parameters() {
    // fn();
    let (a, p) = parse_ann(vec![Token::Fn, Token::LParen, Token::RParen, Token::Semi]).unwrap();
    assert_eq!(p, 3);
    assert!(matches!(a, TypeAnnotation::FnType(None, None)));
}

#[test]
fn module_path_annotation() {
    // mod1::Foo;
    let (a, p) = parse_ann(vec![
        Token::Identifier("mod1".to_string()),
        Token::ColonColon,
        Token::Identifier("Foo".to_string()),
        Token::Semi,
    ])
    .unwrap();
    assert_eq!(p, 3);
    match a {
        TypeAnnotation::Path(path) => {
            assert_eq!(path.0.len(), 2);
            assert_eq!(path.0[1].0, "Foo");
        }
        _ => panic!("expected a path"),
    }
}

#[test]
fn parameter_lists_parse() {
    // a: int, b: [bool; 2])
    let input = toks(vec![
        Token::Identifier("a".to_string()),
        Token::Colon,
        Token::Identifier("int".to_string()),
        Token::Comma,
        Token::Identifier("b".to_string()),
        Token::Colon,
        Token::LBracket,
        Token::Identifier("bool".to_string()),
        Token::Semi,
        Token::IntLiteral(2),
        Token::RBracket,
        Token::RParen,
    ]);
    let (params, p) = smpl::parser::fn_param_list(&input, 0).ok().unwrap();
    assert_eq!(p, 11);
    assert_eq!(params.len(), 2);
    assert_eq!(params[1].name.0, "b");
    assert!(matches!(params[1].param_type, TypeAnnotation::Array(_, 2)));
}

#[test]
fn struct_declarations_parse() {
    // struct Point { x: int, y: int, }
    let input = toks(vec![
        Token::Struct,
        Token::Identifier("Point".to_string()),
        Token::LBrace,
        Token::Identifier("x".to_string()),
        Token::Colon,
        Token::Identifier("int".to_string()),
        Token::Comma,
        Token::Identifier("y".to_string()),
        Token::Colon,
        Token::Identifier("int".to_string()),
        Token::Comma,
        Token::RBrace,
    ]);
    let (s, p) = smpl::parser::teststruct_decl(&input, 0).ok().unwrap();
    assert_eq!(p, 12);
    assert_eq!(s.name.0, "Point");
    assert_eq!(s.body.0.unwrap().len(), 2);
    // struct Empty { }
    let input = toks(vec![Token::Struct, Token::Identifier("Empty".to_string()), Token::LBrace, Token::RBrace]);
    let (s, p) = smpl::parser::teststruct_decl(&input, 0).ok().unwrap();
    assert_eq!(p, 4);
    assert!(s.body.0.is_none());
}

#[test]
fn anonymous_struct_init_makes_a_width_constraint() {
    let mut table = TypeTable::with_builtins();
    let tys = vec![AbstractType::Int, AbstractType::Bool];
    let fields = vec![(Ident("a".to_string()), 0u64), (Ident("b".to_string()), 1u64)];
    match resolve_anon_struct_init(&mut table, &tys, &fields, span()) {
        Ok(AbstractType::WidthConstraint(0)) => {},
        _ => panic!("expected the first width constraint"),
    }
    assert_eq!(table.widths.len(), 1);
    assert_eq!(table.widths[0].len(), 2);
    assert_eq!(table.widths[0][1].0 .0, "b");
    assert!(matches!(table.widths[0][1].1, AbstractType::Bool));
}

#[test]
fn anonymous_struct_init_refuses_repeated_fields() {
    let mut table = TypeTable::with_builtins();
    let tys = vec![AbstractType::Int];
    let fields = vec![(Ident("a".to_string()), 0u64), (Ident("a".to_string()), 0u64)];
    match resolve_anon_struct_init(&mut table, &tys, &fields, span()) {
        Err(AnalysisError::TypeError(TypeError::InvalidInitialization { fields: dups, .. })) => {
            assert_eq!(dups.len(), 1);
            assert_eq!(dups[0].0, "a");
        },
        _ => panic!("expected a repeated field"),
    }
    assert_eq!(table.widths.len(), 0);
}
