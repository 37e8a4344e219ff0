use smpl::ast::{BinOp, Block, Ident, Literal, ModulePath};
use smpl::control_flow::{Edge, Node, CFG};
use smpl::expr_flow::{flatten, Segment, Value};
use smpl::expr_parser::{piped_expr, Delimiter};
use smpl::parser::testfn_decl;
use smpl::span::Span;
use smpl::tokens::{SpannedToken, Token};
use smpl::type_checker::{resolve_field_access, resolve_struct_init, ScopedData};
use smpl::error::{AnalysisError, TypeError};
use smpl::types::{AbstractType, RecordType, TypeTable};

fn ident(s: &str) -> Token {
    Token::Identifier(s.to_string())
}

fn toks(list: Vec<Token>) -> Vec<SpannedToken> {
    list.into_iter()
        .enumerate()
        .map(|(i, token)| SpannedToken { token, span: Span { start: i as u64, end: i as u64 + 1 } })
        .collect()
}

/// Parses `fn test(arg: int) { <body> }` and returns its body.
fn test_fn_body(body: Vec<Token>) -> Block {
    let mut all = vec![
        Token::Fn,
        ident("test"),
        Token::LParen,
        ident("arg"),
        Token::Colon,
        ident("int"),
        Token::RParen,
        Token::LBrace,
    ];
    all.extend(body);
    all.push(Token::RBrace);
    testfn_decl(&toks(all), 0).ok().unwrap().0.body
}

/// `let <name>: int = <value>;`
fn let_int(name: &str, value: i64) -> Vec<Token> {
    vec![Token::Let, ident(name), Token::Colon, ident("int"), Token::Assign, Token::IntLiteral(value), Token::Semi]
}

/// `if (<flag>) { <body> }`, as the start of a chain.
fn branch(keyword: Token, flag: bool, body: Vec<Token>) -> Vec<Token> {
    let mut out = vec![keyword, Token::LParen, Token::BoolLiteral(flag), Token::RParen, Token::LBrace];
    out.extend(body);
    out.push(Token::RBrace);
    out
}

fn next(cfg: &CFG, n: usize) -> usize {
    cfg.neighbors_out(n)[0]
}

/// The targets of the true and the false edge leaving a condition node.
fn true_false(cfg: &CFG, condition: usize) -> (usize, usize) {
    let edges = cfg.edges_out(condition);
    assert_eq!(edges.len(), 2);
    let mut t = None;
    let mut f = None;
    for e in edges {
        match e.2 {
            Edge::True => t = Some(e.1),
            Edge::False => f = Some(e.1),
            _ => panic!("Expected true or false edge"),
        }
    }
    (t.unwrap(), f.unwrap())
}

#[test]
fn linear_cfg_generation() {
    // fn test(arg: int) { let a: int = 2; let b: int = 3; }
    let mut body = let_int("a", 2);
    body.extend(let_int("b", 3));
    let cfg = CFG::generate(test_fn_body(body), &AbstractType::Unit).ok().unwrap();

    assert!(matches!(cfg.node_weight(cfg.start()), Node::Start));
    assert!(matches!(cfg.node_weight(cfg.end()), Node::End));
    // start -> enter_scope -> block -> implicit return -> exit_scope -> end
    assert_eq!(cfg.node_count(), 6);

    let enter = next(&cfg, cfg.start());
    assert!(matches!(cfg.node_weight(enter), Node::EnterScope), "Expected to find Node::EnterScope");
    let block = next(&cfg, enter);
    assert!(matches!(cfg.node_weight(block), Node::Block(_)), "Expected to find Node::LocalVarDecl");
    let ret = next(&cfg, block);
    assert!(matches!(cfg.node_weight(ret), Node::Return(_)), "Expected to find Node::Return");
    let exit = next(&cfg, ret);
    assert!(matches!(cfg.node_weight(exit), Node::ExitScope), "Expected to find Node::ExitScope");
    let end = next(&cfg, exit);
    assert_eq!(cfg.neighbors_out(end).len(), 0);
    assert!(matches!(cfg.node_weight(end), Node::End), "Expected to find Node::End");
}

#[test]
fn branching_cfg_generation() {
    // fn test(arg: int) { if (test) { let c: int = 4; } }
    let mut body = vec![Token::If, Token::LParen, ident("test"), Token::RParen, Token::LBrace];
    body.extend(let_int("c", 4));
    body.push(Token::RBrace);
    let cfg = CFG::generate(test_fn_body(body), &AbstractType::Unit).ok().unwrap();

    assert!(matches!(cfg.node_weight(cfg.start()), Node::Start));
    assert!(matches!(cfg.node_weight(cfg.end()), Node::End));
    assert_eq!(cfg.node_count(), 11);

    let enter = next(&cfg, cfg.start());
    assert!(matches!(cfg.node_weight(enter), Node::EnterScope));
    let split = next(&cfg, enter);
    assert!(matches!(cfg.node_weight(split), Node::BranchSplit(_)), "Expected BranchSplit node");
    let condition = next(&cfg, split);
    assert!(matches!(cfg.node_weight(condition), Node::Condition(_)), "Not a condition node");

    let (t, f) = true_false(&cfg, condition);
    assert!(matches!(cfg.node_weight(t), Node::EnterScope));
    let decl = next(&cfg, t);
    assert!(matches!(cfg.node_weight(decl), Node::Block(_)));
    let exit_scope = next(&cfg, decl);
    assert!(matches!(cfg.node_weight(exit_scope), Node::ExitScope));
    assert!(matches!(cfg.node_weight(f), Node::BranchMerge(_)));

    let merge = f;
    let ret = next(&cfg, merge);
    assert!(matches!(cfg.node_weight(ret), Node::Return(_)), "Expected to find Node::Return");
    let exit = next(&cfg, ret);
    assert!(matches!(cfg.node_weight(exit), Node::ExitScope));
    let end = next(&cfg, exit);
    assert!(matches!(cfg.node_weight(end), Node::End));
    assert_eq!(cfg.neighbors_out(end).len(), 0);
}

#[test]
fn complex_branching_cfg_generation() {
    // fn test(arg: int) { if (false) { let c: int = 4; } elif (true) { } else { } }
    let mut body = branch(Token::If, false, let_int("c", 4));
    body.extend(branch(Token::Elif, true, vec![]));
    body.extend(vec![Token::Else, Token::LBrace, Token::RBrace]);
    let cfg = CFG::generate(test_fn_body(body), &AbstractType::Unit).ok().unwrap();

    assert_eq!(cfg.node_count(), 18);
    assert_eq!(cfg.neighbors_out(cfg.start()).len(), 1);

    let enter = next(&cfg, cfg.start());
    assert!(matches!(cfg.node_weight(enter), Node::EnterScope), "Expected to find Node::Enter");
    let split_a = next(&cfg, enter);
    assert!(matches!(cfg.node_weight(split_a), Node::BranchSplit(_)));
    let condition_b = next(&cfg, split_a);
    assert!(matches!(cfg.node_weight(condition_b), Node::Condition(_)), "Expected a condition node");

    // The true path of condition B.
    let (b_true, split_c) = true_false(&cfg, condition_b);
    assert!(matches!(cfg.node_weight(b_true), Node::EnterScope));
    let var_decl = next(&cfg, b_true);
    assert_eq!(cfg.neighbors_out(var_decl).len(), 1);
    assert!(matches!(cfg.node_weight(var_decl), Node::Block(_)), "Expected local variable declartion");
    let exit = next(&cfg, var_decl);
    assert!(matches!(cfg.node_weight(exit), Node::ExitScope));
    let merge = next(&cfg, exit);
    assert!(matches!(cfg.node_weight(merge), Node::BranchMerge(_)));

    // The false path of condition B: branch split C.
    let condition_d = next(&cfg, split_c);
    assert!(matches!(cfg.node_weight(condition_d), Node::Condition(_)));
    let (d_true, d_false) = true_false(&cfg, condition_d);
    for target in [d_true, d_false] {
        assert!(matches!(cfg.node_weight(target), Node::EnterScope));
        let exit = next(&cfg, target);
        assert!(matches!(cfg.node_weight(exit), Node::ExitScope));
        let merge = next(&cfg, exit);
        assert!(matches!(cfg.node_weight(merge), Node::BranchMerge(_)));
    }
    let merge_c = next(&cfg, next(&cfg, d_false));

    let merge_a = next(&cfg, merge_c);
    assert!(matches!(cfg.node_weight(merge_a), Node::BranchMerge(_)), "Expected BranchMerge");
    let implicit_return = next(&cfg, merge_a);
    assert_eq!(cfg.neighbors_out(implicit_return).len(), 1);
    assert!(matches!(cfg.node_weight(implicit_return), Node::Return(_)));
    let exit = next(&cfg, implicit_return);
    assert!(matches!(cfg.node_weight(exit), Node::ExitScope), "Expected to find Node::Exit");
    let end = next(&cfg, exit);
    assert!(matches!(cfg.node_weight(end), Node::End));
}

#[test]
fn test_walk_field_access() {
    // struct foo { field1: int, field2: bool }  struct bar { foo_field: foo }  baz: bar
    let mut table = TypeTable::with_builtins();
    table.records.push(RecordType {
        name: Ident("foo".to_string()),
        fields: vec![(Ident("field1".to_string()), AbstractType::Int), (Ident("field2".to_string()), AbstractType::Bool)],
    });
    table.records.push(RecordType {
        name: Ident("bar".to_string()),
        fields: vec![(Ident("foo_field".to_string()), AbstractType::Record(0))],
    });
    let scope = ScopedData { vars: vec![(Ident("baz".to_string()), AbstractType::Record(1))] };
    let segs = vec![
        Segment::Ident(Ident("baz".to_string())),
        Segment::Ident(Ident("foo_field".to_string())),
        Segment::Ident(Ident("field1".to_string())),
    ];
    let field_type = resolve_field_access(&table, &scope, &vec![], &segs, Span { start: 0, end: 0 }).ok().unwrap();
    assert!(matches!(field_type, AbstractType::Int));
}

#[test]
fn expr_exec_order_ck() {
    // 5 + 2 / 3
    let input = toks(vec![
        Token::IntLiteral(5),
        Token::Plus,
        Token::IntLiteral(2),
        Token::Slash,
        Token::IntLiteral(3),
        Token::Semi,
    ]);
    let ((expr, span), _) = piped_expr(&input, 0, &vec![Delimiter::Semi]).ok().unwrap();
    let expr = flatten(&expr, span);

    let order = expr.execution_order();
    assert_eq!(order.len(), 5);

    let literal = |id: u64, expected: i64| match &expr.get_tmp(id).value {
        Value::Literal(Literal::Int(i)) => assert_eq!(*i, expected),
        _ => panic!("Unexpected value. Expected a literal number {}", expected),
    };
    let five = order[0];
    literal(five, 5);
    let two = order[1];
    literal(two, 2);
    let three = order[2];
    literal(three, 3);

    let div = order[3];
    match &expr.get_tmp(div).value {
        Value::BinExpr(op, l, r) => {
            assert!(matches!(op, BinOp::Div));
            assert_eq!(*l, two);
            assert_eq!(*r, three);
        }
        _ => panic!("Unexpected value. Expected a division expr"),
    }

    let add = order[4];
    match &expr.get_tmp(add).value {
        Value::BinExpr(op, l, r) => {
            assert!(matches!(op, BinOp::Add));
            assert_eq!(*l, five);
            assert_eq!(*r, div);
        }
        _ => panic!("Unexpected value. Expected an addition expr"),
    }
}

#[test]
fn field_access_reports_the_missing_field_by_name() {
    let mut table = TypeTable::with_builtins();
    table.records.push(RecordType {
        name: Ident("foo".to_string()),
        fields: vec![(Ident("field1".to_string()), AbstractType::Int)],
    });
    let scope = ScopedData { vars: vec![(Ident("baz".to_string()), AbstractType::Record(0))] };
    let segs = vec![Segment::Ident(Ident("baz".to_string())), Segment::Ident(Ident("nope".to_string()))];
    match resolve_field_access(&table, &scope, &vec![], &segs, Span { start: 0, end: 0 }) {
        Err(AnalysisError::TypeError(TypeError::UnknownField { name, .. })) => assert_eq!(name.0, "nope"),
        _ => panic!("expected an unknown field"),
    }
    let segs = vec![
        Segment::Ident(Ident("baz".to_string())),
        Segment::Ident(Ident("field1".to_string())),
        Segment::Ident(Ident("deeper".to_string())),
    ];
    match resolve_field_access(&table, &scope, &vec![], &segs, Span { start: 0, end: 0 }) {
        Err(AnalysisError::TypeError(TypeError::FieldAccessOnNonStruct { index, .. })) => assert_eq!(index, 1),
        _ => panic!("expected an access on a non-struct"),
    }
}

#[test]
fn a_partial_struct_init_lists_the_fields_given() {
    let mut table = TypeTable::with_builtins();
    table.records.push(RecordType {
        name: Ident("foo".to_string()),
        fields: vec![(Ident("a".to_string()), AbstractType::Int), (Ident("b".to_string()), AbstractType::Bool)],
    });
    table.names.push((ModulePath(vec![Ident("foo".to_string())]), AbstractType::Record(0)));
    let path = ModulePath(vec![Ident("foo".to_string())]);
    let inits = Some(vec![(Ident("a".to_string()), 0u64)]);
    match resolve_struct_init(&table, &vec![AbstractType::Int], &path, &inits, Span { start: 0, end: 0 }) {
        Err(AnalysisError::TypeError(TypeError::StructNotFullyInitialized { missing_fields, .. })) => {
            assert_eq!(missing_fields.len(), 1);
            assert_eq!(missing_fields[0].0, "a");
        }
        _ => panic!("expected a partial initialization"),
    }
}
