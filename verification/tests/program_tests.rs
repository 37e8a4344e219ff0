use smpl::ast::Module;
use smpl::control_flow::{return_trace, Node, CFG};
use smpl::error::{AnalysisError, ControlFlowError};
use smpl::parser::{module, testfn_decl};
use smpl::program::check_modules;
use smpl::span::Span;
use smpl::tokens::{SpannedToken, Token};
use smpl::types::AbstractType;

fn ident(s: &str) -> Token {
    Token::Identifier(s.to_string())
}

fn toks(list: Vec<Token>) -> Vec<SpannedToken> {
    list.into_iter()
        .enumerate()
        .map(|(i, token)| SpannedToken { token, span: Span { start: i as u64, end: i as u64 + 1 } })
        .collect()
}

/// `mod <name>;` followed by `rest`.
fn parse_module_of(name: Option<&str>, rest: Vec<Token>) -> Module {
    let mut all = Vec::new();
    if let Some(n) = name {
        all.extend(vec![Token::Mod, ident(n), Token::Semi]);
    }
    all.extend(rest);
    module(&toks(all)).ok().unwrap()
}

/// `fn <name>() -> <ret> { <body> }`, or without `-> <ret>` when `ret` is `None`.
fn fn_tokens(name: &str, ret: Option<&str>, body: Vec<Token>) -> Vec<Token> {
    let mut all = vec![Token::Fn, ident(name), Token::LParen, Token::RParen];
    if let Some(r) = ret {
        all.push(Token::Arrow);
        all.push(ident(r));
    }
    all.push(Token::LBrace);
    all.extend(body);
    all.push(Token::RBrace);
    all
}

fn return_int(v: i64) -> Vec<Token> {
    vec![Token::Return, Token::IntLiteral(v), Token::Semi]
}

/// `if <flag> { return 1; }`, with `else { return 2; }` when `with_else`.
fn if_returning(with_else: bool) -> Vec<Token> {
    let mut body = vec![Token::If, Token::BoolLiteral(true), Token::LBrace];
    body.extend(return_int(1));
    body.push(Token::RBrace);
    if with_else {
        body.extend(vec![Token::Else, Token::LBrace]);
        body.extend(return_int(2));
        body.push(Token::RBrace);
    }
    body
}

fn cfg_of(ret: &AbstractType, body: Vec<Token>) -> CFG {
    let f = testfn_decl(&toks(fn_tokens("f", Some("int"), body)), 0).ok().unwrap().0;
    CFG::generate(f.body, ret).ok().unwrap()
}

#[test]
fn program_with_returning_function_checks() {
    let m = parse_module_of(Some("m"), fn_tokens("f", Some("int"), return_int(1)));
    let p = check_modules(vec![m]).ok().unwrap();
    assert_eq!(p.module_names.len(), 1);
    assert_eq!(p.module_names[0].0, "m");
    assert_eq!(p.fns.len(), 1);
    assert_eq!(p.fns[0].name.0, "f");
    assert!(p.fns[0].cfg.is_some());
    assert!(matches!(p.fns[0].fn_type, AbstractType::Function(_)));
}

#[test]
fn unit_function_needs_no_return() {
    let body = vec![Token::Let, ident("a"), Token::Colon, ident("int"), Token::Assign, Token::IntLiteral(1), Token::Semi];
    let m = parse_module_of(Some("m"), fn_tokens("f", None, body));
    assert!(check_modules(vec![m]).is_ok());
}

#[test]
fn function_without_return_is_refused() {
    let body = vec![Token::Let, ident("a"), Token::Colon, ident("int"), Token::Assign, Token::IntLiteral(1), Token::Semi];
    let m = parse_module_of(Some("m"), fn_tokens("f", Some("int"), body));
    assert!(matches!(
        check_modules(vec![m]),
        Err(AnalysisError::ControlFlowError(ControlFlowError::MissingReturn(_)))
    ));
}

#[test]
fn unnamed_module_is_refused() {
    let m = parse_module_of(None, fn_tokens("f", Some("int"), return_int(1)));
    assert!(matches!(check_modules(vec![m]), Err(AnalysisError::MissingModName)));
}

#[test]
fn use_of_unknown_module_is_refused() {
    let mut rest = vec![Token::Use, ident("nowhere"), Token::Semi];
    rest.extend(fn_tokens("f", Some("int"), return_int(1)));
    let m = parse_module_of(Some("m"), rest);
    match check_modules(vec![m]) {
        Err(AnalysisError::UnresolvedUses(names)) => {
            assert_eq!(names.len(), 1);
            assert_eq!(names[0].0, "nowhere");
        }
        _ => panic!("expected an unresolved use"),
    }
}

#[test]
fn use_of_known_module_is_accepted() {
    let a = parse_module_of(Some("a"), fn_tokens("g", Some("int"), return_int(3)));
    let mut rest = vec![Token::Use, ident("a"), Token::Semi];
    rest.extend(fn_tokens("f", Some("int"), return_int(1)));
    let b = parse_module_of(Some("b"), rest);
    let p = check_modules(vec![a, b]).ok().unwrap();
    assert_eq!(p.fns.len(), 2);
    assert_eq!(p.fns[0].module, 0);
    assert_eq!(p.fns[1].module, 1);
}

#[test]
fn type_error_in_body_is_reported() {
    let body = vec![Token::Return, Token::BoolLiteral(true), Token::Semi];
    let m = parse_module_of(Some("m"), fn_tokens("f", Some("int"), body));
    assert!(matches!(check_modules(vec![m]), Err(AnalysisError::TypeError(_))));
}

#[test]
fn return_trace_accepts_direct_return() {
    let cfg = cfg_of(&AbstractType::Int, return_int(1));
    assert!(return_trace(&cfg).is_ok());
}

#[test]
fn return_trace_accepts_unit_function() {
    let cfg = cfg_of(&AbstractType::Unit, vec![]);
    assert!(return_trace(&cfg).is_ok());
}

#[test]
fn return_trace_accepts_returns_on_both_branches() {
    let cfg = cfg_of(&AbstractType::Int, if_returning(true));
    assert!(return_trace(&cfg).is_ok());
}

#[test]
fn return_trace_refuses_branch_without_else() {
    let cfg = cfg_of(&AbstractType::Int, if_returning(false));
    assert!(matches!(return_trace(&cfg), Err(ControlFlowError::MissingReturn(_))));
}

#[test]
fn return_trace_refuses_missing_return() {
    let cfg = cfg_of(&AbstractType::Int, vec![Token::Let, ident("a"), Token::Colon, ident("int"), Token::Assign, Token::IntLiteral(1), Token::Semi]);
    assert!(matches!(return_trace(&cfg), Err(ControlFlowError::MissingReturn(_))));
}

#[test]
fn end_and_final_scope_exit_have_one_predecessor() {
    let cfg = cfg_of(&AbstractType::Int, if_returning(true));
    let exit = cfg.previous(cfg.end()).unwrap();
    assert_eq!(exit, cfg.node_count() - 1);
    assert!(matches!(cfg.node_weight(exit), Node::ExitScope));
    let before = cfg.previous(exit).unwrap();
    assert!(cfg.next(cfg.end()).is_none());
    assert!(matches!(cfg.node_weight(before), Node::BranchMerge(_)));
}

#[test]
fn condition_leads_to_true_and_false_paths() {
    let cfg = cfg_of(&AbstractType::Int, if_returning(true));
    let condition = (0..cfg.node_count())
        .find(|&i| matches!(cfg.node_weight(i), Node::Condition(_)))
        .unwrap();
    let (t, f) = cfg.after_condition(condition);
    assert!(matches!(cfg.node_weight(t), Node::EnterScope));
    assert!(matches!(cfg.node_weight(f), Node::EnterScope));
    assert_ne!(t, f);
}

#[test]
fn main_function_is_found() {
    let mut rest = fn_tokens("helper", Some("int"), return_int(1));
    rest.extend(fn_tokens("main", None, vec![]));
    let m = parse_module_of(Some("m"), rest);
    let p = check_modules(vec![m]).ok().unwrap();
    assert_eq!(p.find_main().ok().unwrap(), Some(1));
}

#[test]
fn program_without_main_has_none() {
    let m = parse_module_of(Some("m"), fn_tokens("f", Some("int"), return_int(1)));
    let p = check_modules(vec![m]).ok().unwrap();
    assert_eq!(p.find_main().ok().unwrap(), None);
}

#[test]
fn main_in_two_modules_is_refused() {
    let a = parse_module_of(Some("a"), fn_tokens("main", None, vec![]));
    let b = parse_module_of(Some("b"), fn_tokens("main", None, vec![]));
    let p = check_modules(vec![a, b]).ok().unwrap();
    assert!(matches!(p.find_main(), Err(AnalysisError::MultipleMainFns)));
}

#[test]
fn module_functions_are_found_by_name() {
    let mut rest = fn_tokens("f", Some("int"), return_int(1));
    rest.extend(fn_tokens("g", Some("int"), return_int(2)));
    rest.extend(vec![
        Token::Builtin,
        Token::Fn,
        ident("add"),
        Token::LParen,
        ident("a"),
        Token::Colon,
        ident("int"),
        Token::RParen,
        Token::Arrow,
        ident("int"),
        Token::Semi,
    ]);
    let m = parse_module_of(Some("m"), rest);
    let p = check_modules(vec![m]).ok().unwrap();
    let g = p.module_fn(0, &smpl::ast::Ident("g".to_string())).unwrap();
    assert_eq!(p.fns[g].name.0, "g");
    assert!(p.module_fn(0, &smpl::ast::Ident("h".to_string())).is_none());
    assert!(p.module_fn(1, &smpl::ast::Ident("g".to_string())).is_none());
    let add = p.module_fn(0, &smpl::ast::Ident("add".to_string())).unwrap();
    assert!(p.is_builtin(add));
    assert!(!p.is_builtin(g));
    assert!(!p.is_builtin_params_unchecked(add));
}

/// `struct <name> { <field>: <type>, ... }`
fn struct_tokens(name: &str, fields: Vec<(&str, Vec<Token>)>) -> Vec<Token> {
    let mut out = vec![Token::Struct, ident(name), Token::LBrace];
    for (i, (f, t)) in fields.into_iter().enumerate() {
        if i > 0 {
            out.push(Token::Comma);
        }
        out.push(ident(f));
        out.push(Token::Colon);
        out.extend(t);
    }
    out.push(Token::RBrace);
    out
}

#[test]
fn mutually_holding_structs_are_refused() {
    let mut rest = struct_tokens("A", vec![("b", vec![ident("B")])]);
    rest.extend(struct_tokens("B", vec![("a", vec![ident("A")])]));
    let m = parse_module_of(Some("m"), rest);
    assert!(matches!(
        check_modules(vec![m]),
        Err(AnalysisError::TypeError(smpl::error::TypeError::CyclicType(0)))
    ));
}

#[test]
fn struct_holding_an_array_of_itself_is_refused() {
    let array_of_a = vec![Token::LBracket, ident("A"), Token::Semi, Token::IntLiteral(2), Token::RBracket];
    let m = parse_module_of(Some("m"), struct_tokens("A", vec![("xs", array_of_a)]));
    assert!(matches!(
        check_modules(vec![m]),
        Err(AnalysisError::TypeError(smpl::error::TypeError::CyclicType(0)))
    ));
}

#[test]
fn struct_used_twice_is_no_cycle() {
    let mut rest = struct_tokens("A", vec![("x", vec![ident("int")])]);
    rest.extend(struct_tokens("B", vec![("a", vec![ident("A")]), ("c", vec![ident("A")])]));
    rest.extend(struct_tokens("C", vec![("b", vec![ident("B")]), ("a", vec![ident("A")])]));
    let m = parse_module_of(Some("m"), rest);
    let p = check_modules(vec![m]).ok().unwrap();
    assert_eq!(p.table.records.len(), 3);
}
