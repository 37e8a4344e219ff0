use smpl::program::check_modules;
use smpl::ast::{BinOp, BuiltinFnParams, DeclStmt, Expr, ExprStmt, Ident, Literal, PathSegment, Stmt, TypeAnnotation};
use smpl::error::AnalysisError;
use smpl::parse_base::ParserErrorKind;
use smpl::expr_parser::{expr_module_path, fn_args, piped_expr, Delimiter};
use smpl::parser::{module, testfn_decl, teststmt};
use smpl::span::Span;
use smpl::tokens::{SpannedToken, Token};
use smpl::type_cons::{TypeApp, Universe};

fn ident(s: &str) -> Token {
    Token::Identifier(s.to_string())
}

fn toks(list: Vec<Token>) -> Vec<SpannedToken> {
    list.into_iter()
        .enumerate()
        .map(|(i, token)| SpannedToken { token, span: Span { start: i as u64, end: i as u64 + 1 } })
        .collect()
}

#[test]
fn module_of_a_name_alone_has_no_declarations() {
    let m = module(&toks(vec![Token::Mod, ident("m"), Token::Semi])).ok().unwrap();
    assert_eq!(m.0.map(|n| n.0), Some("m".to_string()));
    assert_eq!(m.1.len(), 0);
}

#[test]
fn module_of_a_single_use_is_unnamed() {
    let m = module(&toks(vec![Token::Use, ident("a"), Token::Semi])).ok().unwrap();
    assert!(m.0.is_none());
    assert_eq!(m.1.len(), 1);
    match &m.1[0] {
        DeclStmt::Use(u, _) => assert_eq!(u.0 .0, "a"),
        _ => panic!("expected a use declaration"),
    }
}

#[test]
fn empty_function_parses_to_its_parts() {
    let input = toks(vec![Token::Fn, ident("f"), Token::LParen, Token::RParen, Token::LBrace, Token::RBrace]);
    let (f, p) = testfn_decl(&input, 0).ok().unwrap();
    assert_eq!(f.name.0, "f");
    assert!(f.params.is_none());
    assert!(f.return_type.is_none());
    assert_eq!(f.body.0.len(), 0);
    assert_eq!(p, 6);
}

#[test]
fn literal_operand_stands_alone() {
    let input = toks(vec![Token::IntLiteral(5), Token::Semi]);
    let ((e, span), p) = piped_expr(&input, 0, &vec![Delimiter::Semi]).ok().unwrap();
    assert!(matches!(e, Expr::Literal(Literal::Int(5))));
    assert_eq!(span, Span { start: 0, end: 1 });
    assert_eq!(p, 1);
}

#[test]
fn empty_argument_list_is_none() {
    let input = toks(vec![Token::LParen, Token::RParen, Token::Semi]);
    let ((args, span), p) = fn_args(&input, 0).ok().unwrap();
    assert!(args.is_none());
    assert_eq!(span, Span { start: 0, end: 2 });
    assert_eq!(p, 2);
}

#[test]
fn argument_list_must_open_with_a_parenthesis() {
    let input = toks(vec![Token::Semi]);
    let e = fn_args(&input, 0).err().unwrap();
    assert_eq!(e.pos, 0);
}

#[test]
fn module_path_of_one_segment() {
    let input = toks(vec![Token::ColonColon, ident("b"), Token::Semi]);
    let ((e, span), p) = expr_module_path(&input, 0, Ident("a".to_string()), Span { start: 9, end: 10 }).ok().unwrap();
    match e {
        Expr::ModAccess(path) => {
            let names: Vec<String> = path.0.into_iter().map(|n| n.0).collect();
            assert_eq!(names, vec!["a".to_string(), "b".to_string()]);
        }
        _ => panic!("expected a module access"),
    }
    assert_eq!(span, Span { start: 9, end: 2 });
    assert_eq!(p, 2);
}

#[test]
fn module_path_without_segments_is_the_base() {
    let input = toks(vec![Token::Semi]);
    let ((e, span), p) = expr_module_path(&input, 0, Ident("a".to_string()), Span { start: 9, end: 10 }).ok().unwrap();
    match e {
        Expr::ModAccess(path) => assert_eq!(path.0.len(), 1),
        _ => panic!("expected a module access"),
    }
    assert_eq!(span, Span { start: 9, end: 10 });
    assert_eq!(p, 0);
}

#[test]
fn applying_a_parameter_keeps_it() {
    let mut u = Universe::with_builtins();
    let t = TypeApp::Param(7);
    let applied = t.apply(&mut u).ok().unwrap();
    assert!(matches!(applied, TypeApp::Param(7)));
}

#[test]
fn single_argument_list_holds_its_operand() {
    let input = toks(vec![Token::LParen, Token::BoolLiteral(true), Token::RParen]);
    let ((args, span), p) = fn_args(&input, 0).ok().unwrap();
    let args = args.unwrap();
    assert_eq!(args.len(), 1);
    assert!(matches!(args[0], Expr::Literal(Literal::Bool(true))));
    assert_eq!(span, Span { start: 0, end: 3 });
    assert_eq!(p, 3);
}

#[test]
fn modules_of_resolving_uses_alone_check() {
    let a = module(&toks(vec![Token::Mod, ident("a"), Token::Semi])).ok().unwrap();
    let b = module(&toks(vec![Token::Mod, ident("b"), Token::Semi, Token::Use, ident("a"), Token::Semi])).ok().unwrap();
    let p = check_modules(vec![a, b]).ok().unwrap();
    assert_eq!(p.fns.len(), 0);
}

/// `l op r` as (op, l, r), when `e` is a binary expression.
fn parts(e: &Expr) -> (BinOp, &Expr, &Expr) {
    match e {
        Expr::Bin(b) => (b.op, &*b.lhs, &*b.rhs),
        _ => panic!("expected a binary expression"),
    }
}

fn int_of(e: &Expr) -> i64 {
    match e {
        Expr::Literal(Literal::Int(i)) => *i,
        _ => panic!("expected an integer literal"),
    }
}

#[test]
fn multiplication_binds_tighter_on_the_right() {
    let input = toks(vec![Token::IntLiteral(1), Token::Minus, Token::IntLiteral(2), Token::Star, Token::IntLiteral(3), Token::Semi]);
    let ((e, _), p) = piped_expr(&input, 0, &vec![Delimiter::Semi]).ok().unwrap();
    assert_eq!(p, 5);
    let (op, l, r) = parts(&e);
    assert_eq!(op, BinOp::Sub);
    assert_eq!(int_of(l), 1);
    let (op2, l2, r2) = parts(r);
    assert_eq!(op2, BinOp::Mul);
    assert_eq!((int_of(l2), int_of(r2)), (2, 3));
}

#[test]
fn equal_precedence_groups_to_the_left() {
    let input = toks(vec![Token::IntLiteral(1), Token::Minus, Token::IntLiteral(2), Token::Minus, Token::IntLiteral(3), Token::Semi]);
    let ((e, _), _) = piped_expr(&input, 0, &vec![Delimiter::Semi]).ok().unwrap();
    let (op, l, r) = parts(&e);
    assert_eq!(op, BinOp::Sub);
    assert_eq!(int_of(r), 3);
    let (op2, l2, r2) = parts(l);
    assert_eq!(op2, BinOp::Sub);
    assert_eq!((int_of(l2), int_of(r2)), (1, 2));
}

#[test]
fn and_binds_tighter_than_or() {
    let input = toks(vec![
        Token::BoolLiteral(true),
        Token::LOr,
        Token::BoolLiteral(false),
        Token::LAnd,
        Token::BoolLiteral(false),
        Token::Semi,
    ]);
    let ((e, _), _) = piped_expr(&input, 0, &vec![Delimiter::Semi]).ok().unwrap();
    let (op, l, r) = parts(&e);
    assert_eq!(op, BinOp::LogicalOr);
    assert!(matches!(l, Expr::Literal(Literal::Bool(true))));
    let (op2, _, _) = parts(r);
    assert_eq!(op2, BinOp::LogicalAnd);
}

#[test]
fn assignment_to_a_field_keeps_the_whole_path() {
    let input = toks(vec![ident("a"), Token::Dot, ident("b"), Token::Assign, Token::IntLiteral(3), Token::Semi]);
    let (s, p) = teststmt(&input, 0).ok().unwrap();
    assert_eq!(p, 6);
    match s {
        Stmt::ExprStmt(ExprStmt::Assignment(a), _) => {
            let names: Vec<String> = a
                .name
                .0
                .iter()
                .map(|seg| match seg {
                    PathSegment::Ident(n) => n.0.clone(),
                    _ => panic!("expected a name"),
                })
                .collect();
            assert_eq!(names, vec!["a".to_string(), "b".to_string()]);
            assert_eq!(int_of(&a.value), 3);
        }
        _ => panic!("expected an assignment"),
    }
}

#[test]
fn two_arguments_are_both_kept_in_order() {
    let input = toks(vec![Token::LParen, Token::IntLiteral(4), Token::Comma, Token::IntLiteral(5), Token::RParen]);
    let ((args, _), p) = fn_args(&input, 0).ok().unwrap();
    let args = args.unwrap();
    assert_eq!(args.len(), 2);
    assert_eq!((int_of(&args[0]), int_of(&args[1])), (4, 5));
    assert_eq!(p, 5);
}

#[test]
fn unchecked_parameters_need_a_builtin() {
    let input = toks(vec![Token::Fn, ident("f"), Token::LParen, Token::Unchecked, Token::RParen, Token::LBrace, Token::RBrace]);
    assert!(testfn_decl(&input, 0).is_err());
}

#[test]
fn a_name_followed_by_an_operator_is_an_expression_statement() {
    let input = toks(vec![ident("x"), Token::Plus, Token::IntLiteral(1), Token::Semi]);
    let (s, p) = teststmt(&input, 0).ok().unwrap();
    assert_eq!(p, 4);
    match s {
        Stmt::Expr(e, _) => {
            let (op, l, r) = parts(&e);
            assert_eq!(op, BinOp::Add);
            assert!(matches!(l, Expr::Binding(n) if n.0 == "x"));
            assert_eq!(int_of(r), 1);
        }
        _ => panic!("expected an expression statement"),
    }
}

#[test]
fn unchecked_parameters_outside_a_builtin_have_their_own_error() {
    let input = toks(vec![Token::Fn, ident("f"), Token::LParen, Token::Unchecked, Token::RParen, Token::LBrace, Token::RBrace]);
    let e = testfn_decl(&input, 0).err().unwrap();
    assert!(matches!(e.kind, ParserErrorKind::NonbuiltinUncheckedParameters));
}

#[test]
fn a_builtin_with_unchecked_parameters_keeps_its_return_type() {
    let input = toks(vec![
        Token::Builtin,
        Token::Fn,
        ident("f"),
        Token::LParen,
        Token::Unchecked,
        Token::RParen,
        Token::Arrow,
        ident("int"),
        Token::Semi,
    ]);
    let m = module(&input).ok().unwrap();
    assert_eq!(m.1.len(), 1);
    match &m.1[0] {
        DeclStmt::BuiltinFunction(f, _) => {
            assert_eq!(f.name.0, "f");
            assert!(matches!(f.params, BuiltinFnParams::Unchecked));
            match &f.return_type {
                Some(TypeAnnotation::Path(p)) => {
                    assert_eq!(p.0.len(), 1);
                    assert_eq!(p.0[0].0, "int");
                }
                _ => panic!("expected the return type int"),
            }
        }
        _ => panic!("expected a builtin function"),
    }
}

#[test]
fn an_unresolved_use_is_named_in_the_error() {
    let m = module(&toks(vec![Token::Mod, ident("a"), Token::Semi, Token::Use, ident("b"), Token::Semi])).ok().unwrap();
    match check_modules(vec![m]) {
        Err(AnalysisError::UnresolvedUses(names)) => {
            assert_eq!(names.len(), 1);
            assert_eq!(names[0].0, "b");
        }
        _ => panic!("expected an unresolved use"),
    }
}

#[test]
fn an_arity_error_leaves_the_universe_unchanged() {
    let mut u = Universe::with_builtins();
    let t = TypeApp::Applied { type_cons: 0, args: Some(vec![TypeApp::Applied { type_cons: 1, args: None }]) };
    assert!(t.apply(&mut u).is_err());
    assert_eq!(u.type_cons.len(), 5);
}

#[test]
fn three_arguments_are_kept_in_order() {
    let input = toks(vec![
        Token::LParen,
        Token::IntLiteral(1),
        Token::Comma,
        ident("b"),
        Token::Comma,
        Token::IntLiteral(3),
        Token::RParen,
    ]);
    let ((args, span), p) = fn_args(&input, 0).ok().unwrap();
    let args = args.unwrap();
    assert_eq!(args.len(), 3);
    assert_eq!(int_of(&args[0]), 1);
    assert!(matches!(&args[1], Expr::Binding(n) if n.0 == "b"));
    assert_eq!(int_of(&args[2]), 3);
    assert_eq!(span, Span { start: 0, end: 7 });
    assert_eq!(p, 7);
}

#[test]
fn modules_of_empty_functions_check() {
    let m = module(&toks(vec![
        Token::Mod,
        ident("a"),
        Token::Semi,
        Token::Fn,
        ident("f"),
        Token::LParen,
        Token::RParen,
        Token::LBrace,
        Token::RBrace,
        Token::Fn,
        ident("g"),
        Token::LParen,
        Token::RParen,
        Token::LBrace,
        Token::RBrace,
    ]))
    .ok()
    .unwrap();
    let p = check_modules(vec![m]).ok().unwrap();
    assert_eq!(p.fns.len(), 2);
}
