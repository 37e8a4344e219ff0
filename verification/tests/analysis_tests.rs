use smpl::traversal::{Traverser, VisitEvent};
use smpl::ast::{Block, Stmt};
use smpl::control_flow::{Edge, Node, CFG};
use smpl::error::{AnalysisError, ControlFlowError, TypeError};
use smpl::parser::testfn_decl;
use smpl::span::Span;
use smpl::tokens::{SpannedToken, Token};
use smpl::ast::{Ident, ModulePath, TypeAnnotation};
use smpl::type_checker::{ann_denotes, type_check, TypeChecker};
use smpl::types::{AbstractType, TypeTable};

fn ident(s: &str) -> Token {
    Token::Identifier(s.to_string())
}

fn toks(list: Vec<Token>) -> Vec<SpannedToken> {
    list.into_iter()
        .enumerate()
        .map(|(i, token)| SpannedToken { token, span: Span { start: i as u64, end: i as u64 + 1 } })
        .collect()
}

/// Parses `fn test(arg: int) { <body> }` and returns its body.
fn fn_body(body: Vec<Token>) -> Block {
    let mut all = vec![
        Token::Fn,
        ident("test"),
        Token::LParen,
        ident("arg"),
        Token::Colon,
        ident("int"),
        Token::RParen,
        Token::LBrace,
    ];
    all.extend(body);
    all.push(Token::RBrace);
    let input = toks(all);
    let (f, _) = testfn_decl(&input, 0).ok().unwrap();
    f.body
}

/// `let <name>: int = <value>;`
fn let_int(name: &str, value: i64) -> Vec<Token> {
    vec![Token::Let, ident(name), Token::Colon, ident("int"), Token::Assign, Token::IntLiteral(value), Token::Semi]
}

fn node_kind(n: &Node) -> &'static str {
    match n {
        Node::Start => "start",
        Node::End => "end",
        Node::BranchSplit(_) => "split",
        Node::BranchMerge(_) => "merge",
        Node::LoopHead(_) => "loop_head",
        Node::LoopFoot(_) => "loop_foot",
        Node::Continue(_) => "continue",
        Node::Break(_) => "break",
        Node::EnterScope => "enter",
        Node::ExitScope => "exit",
        Node::Block(_) => "block",
        Node::Condition(_) => "condition",
        Node::Return(_) => "return",
    }
}

/// The kinds of the nodes met from the start node by always taking the first
/// outgoing edge, up to the end node.
fn first_path(cfg: &CFG) -> Vec<&'static str> {
    let mut out = Vec::new();
    let mut current = cfg.start();
    for _ in 0..cfg.node_count() {
        out.push(node_kind(cfg.node_weight(current)));
        let next = cfg.neighbors_out(current);
        if next.is_empty() {
            break;
        }
        current = next[0];
    }
    out
}

#[test]
fn linear_body_graph() {
    let mut body = let_int("a", 2);
    body.extend(let_int("b", 3));
    let cfg = CFG::generate(fn_body(body), &AbstractType::Unit).ok().unwrap();
    // start -> enter -> block -> implicit return -> exit -> end
    assert_eq!(cfg.node_count(), 6);
    assert_eq!(first_path(&cfg), vec!["start", "enter", "block", "return", "exit", "end"]);
    assert!(cfg.neighbors_out(cfg.end()).is_empty());
}

#[test]
fn non_unit_function_has_no_implicit_return() {
    let cfg = CFG::generate(fn_body(let_int("a", 2)), &AbstractType::Int).ok().unwrap();
    assert_eq!(cfg.node_count(), 5);
    assert_eq!(first_path(&cfg), vec!["start", "enter", "block", "exit", "end"]);
}

#[test]
fn branching_body_graph() {
    let mut body = vec![Token::If, Token::LParen, ident("test"), Token::RParen, Token::LBrace];
    body.extend(let_int("c", 4));
    body.push(Token::RBrace);
    let cfg = CFG::generate(fn_body(body), &AbstractType::Unit).ok().unwrap();
    assert_eq!(cfg.node_count(), 11);
    let path = first_path(&cfg);
    assert_eq!(&path[..4], &["start", "enter", "split", "condition"]);
    assert!(path.contains(&"merge"));
    assert_eq!(&path[path.len() - 3..], &["return", "exit", "end"]);
}

#[test]
fn condition_has_true_and_false_edges() {
    let mut body = vec![Token::If, Token::LParen, ident("test"), Token::RParen, Token::LBrace];
    body.extend(let_int("c", 4));
    body.push(Token::RBrace);
    let cfg = CFG::generate(fn_body(body), &AbstractType::Unit).ok().unwrap();
    let condition = (0..cfg.node_count())
        .find(|&i| matches!(cfg.node_weight(i), Node::Condition(_)))
        .unwrap();
    let out = cfg.edges_out(condition);
    assert_eq!(out.len(), 2);
    assert!(out.iter().any(|e| e.2 == smpl::control_flow::Edge::True));
    assert!(out.iter().any(|e| e.2 == smpl::control_flow::Edge::False));
}

#[test]
fn while_loop_generation() {
    let body = vec![Token::While, Token::LParen, Token::BoolLiteral(true), Token::RParen, Token::LBrace, Token::RBrace];
    let cfg = CFG::generate(fn_body(body), &AbstractType::Unit).ok().unwrap();

    // start -> enter_scope -> loop_head(A) -> condition(B)
    //       -[true]> loop_foot(A)
    //       -[false]> loop_foot(A)
    // loop_foot(A) -> implicit_return -> exit_scope -> end
    // loop_head(A) << loop_foot(A)
    assert_eq!(cfg.node_count(), 8);

    let start_neighbors = cfg.neighbors_out(cfg.start());
    assert_eq!(start_neighbors.len(), 1);
    let enter = start_neighbors[0];
    assert!(matches!(cfg.node_weight(enter), Node::EnterScope));

    let loop_head = cfg.neighbors_out(enter)[0];
    let loop_id = match cfg.node_weight(loop_head) {
        Node::LoopHead(d) => d.loop_id,
        _ => panic!("expected a loop head"),
    };

    let head_neighbors = cfg.neighbors_out(loop_head);
    assert_eq!(head_neighbors.len(), 1);
    let condition = head_neighbors[0];
    assert!(matches!(cfg.node_weight(condition), Node::Condition(_)));

    let condition_edges = cfg.edges_out(condition);
    assert_eq!(condition_edges.len(), 2);
    let mut truth_target = None;
    let mut false_target = None;
    for (_, target, weight) in condition_edges {
        match weight {
            Edge::True => truth_target = Some(target),
            Edge::False => false_target = Some(target),
            e => panic!("expected a true or false edge, found {:?}", e),
        }
    }
    let truth_target = truth_target.unwrap();
    let false_target = false_target.unwrap();
    match cfg.node_weight(truth_target) {
        Node::LoopFoot(d) => assert_eq!(d.loop_id, loop_id),
        _ => panic!("expected a loop foot"),
    }
    assert_eq!(truth_target, false_target);

    let foot_neighbors = cfg.neighbors_out(truth_target);
    assert_eq!(foot_neighbors.len(), 2);
    let implicit_return = foot_neighbors[0];
    let return_neighbors = cfg.neighbors_out(implicit_return);
    assert_eq!(return_neighbors.len(), 1);
    assert!(matches!(cfg.node_weight(implicit_return), Node::Return(_)));

    let exit = return_neighbors[0];
    assert!(matches!(cfg.node_weight(exit), Node::ExitScope));
    let end = cfg.neighbors_out(exit)[0];
    assert_eq!(cfg.neighbors_out(end).len(), 0);
    assert!(matches!(cfg.node_weight(end), Node::End));
}

#[test]
fn break_outside_loop_is_refused() {
    let body = vec![Token::Break, Token::Semi];
    match CFG::generate(fn_body(body), &AbstractType::Unit) {
        Err(AnalysisError::ControlFlowError(ControlFlowError::BadBreak(_))) => {}
        _ => panic!("expected a bad break"),
    }
}

#[test]
fn continue_outside_loop_is_refused() {
    let mut body = vec![Token::If, Token::LParen, Token::BoolLiteral(true), Token::RParen, Token::LBrace];
    body.extend(vec![Token::Continue, Token::Semi, Token::RBrace]);
    match CFG::generate(fn_body(body), &AbstractType::Unit) {
        Err(AnalysisError::ControlFlowError(ControlFlowError::BadContinue(_))) => {}
        _ => panic!("expected a bad continue"),
    }
}

#[test]
fn break_inside_loop_is_accepted() {
    let body = vec![
        Token::While,
        Token::LParen,
        Token::BoolLiteral(true),
        Token::RParen,
        Token::LBrace,
        Token::Break,
        Token::Semi,
        Token::RBrace,
    ];
    let cfg = CFG::generate(fn_body(body), &AbstractType::Unit).ok().unwrap();
    assert!((0..cfg.node_count()).any(|i| matches!(cfg.node_weight(i), Node::Break(_))));
}

fn checker(return_type: AbstractType) -> TypeChecker {
    TypeChecker::new(TypeTable::with_builtins(), vec![], vec![], return_type)
}

#[test]
fn well_typed_body_checks() {
    // let a: int = 2; let b: int = a + 3; return b;
    let mut body = let_int("a", 2);
    body.extend(vec![
        Token::Let,
        ident("b"),
        Token::Colon,
        ident("int"),
        Token::Assign,
        ident("a"),
        Token::Plus,
        Token::IntLiteral(3),
        Token::Semi,
        Token::Return,
        ident("b"),
        Token::Semi,
    ]);
    let mut c = checker(AbstractType::Int);
    assert!(type_check(&mut c, &fn_body(body)).is_ok());
}

#[test]
fn annotation_mismatch_is_refused() {
    // let a: bool = 2;
    let body = vec![Token::Let, ident("a"), Token::Colon, ident("bool"), Token::Assign, Token::IntLiteral(2), Token::Semi];
    let mut c = checker(AbstractType::Unit);
    match type_check(&mut c, &fn_body(body)) {
        Err(AnalysisError::TypeError(TypeError::UnexpectedType { found, expected, .. })) => {
            assert!(matches!(found, AbstractType::Int));
            assert!(matches!(expected, AbstractType::Bool));
        }
        _ => panic!("expected a type mismatch"),
    }
}

#[test]
fn unknown_variable_is_refused() {
    let body = vec![Token::Return, ident("nope"), Token::Semi];
    let mut c = checker(AbstractType::Int);
    assert!(matches!(type_check(&mut c, &fn_body(body)), Err(AnalysisError::UnknownBinding(_, _))));
}

#[test]
fn condition_must_be_bool() {
    let mut body = vec![Token::If, Token::LParen, Token::IntLiteral(1), Token::RParen, Token::LBrace];
    body.push(Token::RBrace);
    let mut c = checker(AbstractType::Unit);
    assert!(matches!(
        type_check(&mut c, &fn_body(body)),
        Err(AnalysisError::TypeError(TypeError::UnexpectedType { .. }))
    ));
}

#[test]
fn return_type_must_match() {
    let body = vec![Token::Return, Token::BoolLiteral(true), Token::Semi];
    let mut c = checker(AbstractType::Int);
    assert!(type_check(&mut c, &fn_body(body)).is_err());
    let body = vec![Token::Return, Token::BoolLiteral(true), Token::Semi];
    let mut c = checker(AbstractType::Bool);
    assert!(type_check(&mut c, &fn_body(body)).is_ok());
}

#[test]
fn mixed_arithmetic_is_refused() {
    // return 1 + true;
    let body = vec![Token::Return, Token::IntLiteral(1), Token::Plus, Token::BoolLiteral(true), Token::Semi];
    let mut c = checker(AbstractType::Int);
    assert!(matches!(
        type_check(&mut c, &fn_body(body)),
        Err(AnalysisError::TypeError(TypeError::BinOp { .. }))
    ));
}

#[test]
fn variables_of_an_inner_scope_are_gone_after_it() {
    // if (true) { let x: int = 1; } return x;
    let mut body = vec![Token::If, Token::LParen, Token::BoolLiteral(true), Token::RParen, Token::LBrace];
    body.extend(let_int("x", 1));
    body.extend(vec![Token::RBrace, Token::Return, ident("x"), Token::Semi]);
    let mut c = checker(AbstractType::Int);
    assert!(matches!(type_check(&mut c, &fn_body(body)), Err(AnalysisError::UnknownBinding(_, _))));
}

#[test]
fn statements_parse_in_order() {
    let body = fn_body({
        let mut b = let_int("a", 1);
        b.extend(vec![Token::Return, ident("a"), Token::Semi]);
        b
    });
    assert_eq!(body.0.len(), 2);
    assert!(matches!(body.0[1], Stmt::ExprStmt(smpl::ast::ExprStmt::Return(_, Some(_)), _)));
}

#[test]
fn unknown_annotation_type_is_refused() {
    // let a: Foo = 2;
    let body = vec![Token::Let, ident("a"), Token::Colon, ident("Foo"), Token::Assign, Token::IntLiteral(2), Token::Semi];
    let mut c = checker(AbstractType::Unit);
    assert!(matches!(type_check(&mut c, &fn_body(body)), Err(AnalysisError::UnknownType(_, _))));
}

#[test]
fn annotation_denotes_its_type_only() {
    let table = TypeTable::with_builtins();
    let int_ann = TypeAnnotation::Path(ModulePath(vec![Ident("int".to_string())]));
    assert!(ann_denotes(&table, &int_ann, &AbstractType::Int));
    assert!(!ann_denotes(&table, &int_ann, &AbstractType::Bool));
    let arr = TypeAnnotation::Array(Box::new(int_ann), 3);
    let arr_type = AbstractType::Array { element_type: Box::new(AbstractType::Int), size: 3 };
    assert!(ann_denotes(&table, &arr, &arr_type));
    let other_size = AbstractType::Array { element_type: Box::new(AbstractType::Int), size: 4 };
    assert!(!ann_denotes(&table, &arr, &other_size));
    // No function type is stored yet, so no function annotation denotes one.
    let fn_ann = TypeAnnotation::FnType(None, None);
    assert!(!ann_denotes(&table, &fn_ann, &AbstractType::Function(0)));
}

#[test]
fn loop_body_is_checked_against_the_return_type() {
    // while (true) { return 1; }
    let body = || {
        vec![
            Token::While,
            Token::LParen,
            Token::BoolLiteral(true),
            Token::RParen,
            Token::LBrace,
            Token::Return,
            Token::IntLiteral(1),
            Token::Semi,
            Token::RBrace,
        ]
    };
    let mut c = checker(AbstractType::Int);
    assert!(type_check(&mut c, &fn_body(body())).is_ok());
    let mut c = checker(AbstractType::Bool);
    assert!(type_check(&mut c, &fn_body(body())).is_err());
}

#[test]
fn function_parameters_are_in_scope() {
    // return p + 1; with a parameter p: int
    let body = vec![Token::Return, ident("p"), Token::Plus, Token::IntLiteral(1), Token::Semi];
    let mut c = TypeChecker::new(
        TypeTable::with_builtins(),
        vec![(Ident("p".to_string()), AbstractType::Int)],
        vec![],
        AbstractType::Int,
    );
    assert!(type_check(&mut c, &fn_body(body)).is_ok());
}

#[test]
fn loop_and_branch_nodes_stand_in_pairs() {
    // while (true) { if (true) { break; } }
    let body = vec![
        Token::While,
        Token::LParen,
        Token::BoolLiteral(true),
        Token::RParen,
        Token::LBrace,
        Token::If,
        Token::LParen,
        Token::BoolLiteral(true),
        Token::RParen,
        Token::LBrace,
        Token::Break,
        Token::Semi,
        Token::RBrace,
        Token::RBrace,
    ];
    let cfg = CFG::generate(fn_body(body), &AbstractType::Unit).ok().unwrap();
    let n = cfg.node_count();
    let head = (0..n).find(|&i| matches!(cfg.node_weight(i), Node::LoopHead(_))).unwrap();
    match (cfg.node_weight(head), cfg.node_weight(head + 1)) {
        (Node::LoopHead(d), Node::LoopFoot(f)) => {
            assert_eq!(d.loop_id, head);
            assert_eq!(f.loop_id, head);
        },
        _ => panic!("a loop head must be followed by its foot"),
    }
    assert!(cfg.edges_out(head + 1).iter().any(|e| e.1 == head && e.2 == Edge::BackEdge));
    let brk = (0..n).find(|&i| matches!(cfg.node_weight(i), Node::Break(_))).unwrap();
    match cfg.node_weight(brk) {
        Node::Break(d) => assert_eq!(d.loop_id, head),
        _ => unreachable!(),
    }
    let split = (0..n).find(|&i| matches!(cfg.node_weight(i), Node::BranchSplit(_))).unwrap();
    match (cfg.node_weight(split), cfg.node_weight(split + 1)) {
        (Node::BranchSplit(s), Node::BranchMerge(m)) => {
            assert_eq!(s.branch_id, split);
            assert_eq!(m.branch_id, split);
        },
        _ => panic!("a branch split must be followed by its merge"),
    }
}

#[test]
fn conditions_branch_both_ways() {
    // while (true) { if (false) { return; } elif (true) { break; } else { continue; } }
    let body = vec![
        Token::While,
        Token::LParen,
        Token::BoolLiteral(true),
        Token::RParen,
        Token::LBrace,
        Token::If,
        Token::LParen,
        Token::BoolLiteral(false),
        Token::RParen,
        Token::LBrace,
        Token::Return,
        Token::Semi,
        Token::RBrace,
        Token::Elif,
        Token::LParen,
        Token::BoolLiteral(true),
        Token::RParen,
        Token::LBrace,
        Token::Break,
        Token::Semi,
        Token::RBrace,
        Token::Else,
        Token::LBrace,
        Token::Continue,
        Token::Semi,
        Token::RBrace,
        Token::RBrace,
    ];
    let cfg = CFG::generate(fn_body(body), &AbstractType::Unit).ok().unwrap();
    let mut conditions = 0;
    for i in 0..cfg.node_count() {
        match cfg.node_weight(i) {
            Node::Condition(_) => {
                conditions += 1;
                let out = cfg.edges_out(i);
                assert_eq!(out.len(), 2);
                assert!(out.iter().any(|e| e.2 == Edge::True));
                assert!(out.iter().any(|e| e.2 == Edge::False));
                let (t, f) = cfg.after_condition(i);
                assert_ne!(t, f);
            },
            Node::LoopHead(_) => {
                let out = cfg.edges_out(i);
                assert_eq!(out.len(), 1);
                assert!(matches!(cfg.node_weight(out[0].1), Node::Condition(_)));
            },
            _ => {},
        }
    }
    assert_eq!(conditions, 3);
}

#[test]
fn walk_of_a_while_loop_tells_its_paths() {
    let body = vec![Token::While, Token::LParen, Token::BoolLiteral(true), Token::RParen, Token::LBrace, Token::RBrace];
    let cfg = CFG::generate(fn_body(body), &AbstractType::Unit).ok().unwrap();
    let events = Traverser::new(&cfg).traverse().unwrap();
    let kinds: Vec<&str> = events
        .iter()
        .map(|e| match e {
            VisitEvent::Start(_) => "start",
            VisitEvent::EnterScope(_) => "enter",
            VisitEvent::LoopHead(_) => "loop_head",
            VisitEvent::LoopCondition(_) => "loop_condition",
            VisitEvent::LoopStartTruePath(_) => "loop_true_start",
            VisitEvent::LoopEndTruePath(_) => "loop_true_end",
            VisitEvent::Return(_) => "return",
            VisitEvent::ExitScope(_) => "exit",
            VisitEvent::End(_) => "end",
            _ => "other",
        })
        .collect();
    assert_eq!(
        kinds,
        vec!["start", "enter", "loop_head", "loop_condition", "loop_true_start", "loop_true_end", "return", "exit", "end"]
    );
}

#[test]
fn walk_of_an_if_tells_both_paths() {
    let mut body = vec![Token::If, Token::LParen, Token::BoolLiteral(true), Token::RParen, Token::LBrace];
    body.extend(let_int("c", 4));
    body.push(Token::RBrace);
    let cfg = CFG::generate(fn_body(body), &AbstractType::Unit).ok().unwrap();
    let events = Traverser::new(&cfg).traverse().unwrap();
    assert!(matches!(events[0], VisitEvent::Start(_)));
    assert!(events.iter().any(|e| matches!(e, VisitEvent::BranchCondition(_))));
    assert!(events.iter().any(|e| matches!(e, VisitEvent::BranchEndTruePath(_))));
    assert!(events.iter().any(|e| matches!(e, VisitEvent::BranchEndFalsePath(_))));
    assert!(events.iter().any(|e| matches!(e, VisitEvent::Block(_))));
    assert!(matches!(events[events.len() - 1], VisitEvent::End(_)));
}

#[test]
fn walk_of_an_if_tells_events_in_order() {
    let mut body = vec![Token::If, Token::LParen, Token::BoolLiteral(true), Token::RParen, Token::LBrace];
    body.extend(let_int("c", 4));
    body.push(Token::RBrace);
    let cfg = CFG::generate(fn_body(body), &AbstractType::Unit).ok().unwrap();
    let events = Traverser::new(&cfg).traverse().unwrap();
    let kinds: Vec<&str> = events
        .iter()
        .map(|e| match e {
            VisitEvent::Start(_) => "start",
            VisitEvent::EnterScope(_) => "enter",
            VisitEvent::ExitScope(_) => "exit",
            VisitEvent::BranchSplit(_) => "split",
            VisitEvent::BranchMerge(_) => "merge",
            VisitEvent::BranchCondition(_) => "condition",
            VisitEvent::BranchStartTruePath(_) => "true_start",
            VisitEvent::BranchEndTruePath(_) => "true_end",
            VisitEvent::BranchStartFalsePath(_) => "false_start",
            VisitEvent::BranchEndFalsePath(_) => "false_end",
            VisitEvent::Block(_) => "block",
            VisitEvent::Return(_) => "return",
            VisitEvent::End(_) => "end",
            _ => "other",
        })
        .collect();
    assert_eq!(
        kinds,
        vec![
            "start", "enter", "split", "condition", "true_start", "enter", "block", "exit", "true_end",
            "false_start", "false_end", "return", "exit", "end"
        ]
    );
}

#[test]
fn start_leads_to_a_scope_and_end_leads_nowhere() {
    let mut body = vec![Token::While, Token::LParen, Token::BoolLiteral(true), Token::RParen, Token::LBrace];
    body.extend(let_int("c", 4));
    body.push(Token::RBrace);
    let cfg = CFG::generate(fn_body(body), &AbstractType::Unit).ok().unwrap();
    let out = cfg.edges_out(cfg.start());
    assert_eq!(out.len(), 1);
    assert!(matches!(cfg.node_weight(out[0].1), Node::EnterScope));
    assert_eq!(cfg.edges_out(cfg.end()).len(), 0);
}
