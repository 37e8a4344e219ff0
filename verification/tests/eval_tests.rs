use smpl::control_flow::{Node, CFG};
use smpl::env::Env;
use smpl::interp::{eval_node, LoopState, NodeEval, StepError};
use smpl::parser::testfn_decl;
use smpl::types::AbstractType;
use smpl::eval::{eval_expr, eval_tmp, EvalError, ExprStep, TmpEval};
use smpl::expr_flow::flatten;
use smpl::expr_parser::{piped_expr, Delimiter};
use smpl::span::Span;
use smpl::tokens::{SpannedToken, Token};
use smpl::value::{Struct, Value};

fn ident(s: &str) -> Token {
    Token::Identifier(s.to_string())
}

fn toks(list: Vec<Token>) -> Vec<SpannedToken> {
    list.into_iter()
        .enumerate()
        .map(|(i, token)| SpannedToken { token, span: Span { start: i as u64, end: i as u64 + 1 } })
        .collect()
}

/// Parses `tokens ;` as an expression and evaluates its temporaries in order;
/// the outcome of the last one.
fn evaluate(env: &Env, mut tokens: Vec<Token>) -> Result<TmpEval, EvalError> {
    tokens.push(Token::Semi);
    let input = toks(tokens);
    let ((e, span), _) = piped_expr(&input, 0, &vec![Delimiter::Semi]).ok().unwrap();
    let flat = flatten(&e, span);
    let mut values: Vec<Value> = Vec::new();
    let n = flat.tmps.len();
    for i in 0..n {
        let r = eval_tmp(env, &values, &flat, i)?;
        if i + 1 == n {
            return Ok(r);
        }
        match r {
            TmpEval::Value(v) => values.push(v),
            _ => panic!("expected a value"),
        }
    }
    unreachable!()
}

#[test]
fn arithmetic_follows_precedence() {
    let env = Env::new();
    let r = evaluate(&env, vec![Token::IntLiteral(1), Token::Plus, Token::IntLiteral(2), Token::Star, Token::IntLiteral(3)]);
    assert!(matches!(r, Ok(TmpEval::Value(Value::Int(7)))));
}

#[test]
fn division_truncates_and_remainder_keeps_the_sign() {
    let env = Env::new();
    let q = evaluate(&env, vec![Token::Minus, Token::IntLiteral(7), Token::Slash, Token::IntLiteral(2)]);
    assert!(matches!(q, Ok(TmpEval::Value(Value::Int(-3)))));
    let m = evaluate(&env, vec![Token::Minus, Token::IntLiteral(7), Token::Percent, Token::IntLiteral(2)]);
    assert!(matches!(m, Ok(TmpEval::Value(Value::Int(-1)))));
}

#[test]
fn division_by_zero_is_an_error() {
    let env = Env::new();
    let r = evaluate(&env, vec![Token::IntLiteral(1), Token::Slash, Token::IntLiteral(0)]);
    assert!(matches!(r, Err(EvalError::DivisionByZero)));
}

#[test]
fn overflow_is_an_error() {
    let env = Env::new();
    let r = evaluate(&env, vec![Token::IntLiteral(i64::MAX), Token::Plus, Token::IntLiteral(1)]);
    assert!(matches!(r, Err(EvalError::Overflow)));
}

#[test]
fn names_read_the_environment() {
    let mut env = Env::new();
    env.map_value("a".to_string(), Value::Int(40));
    let r = evaluate(&env, vec![ident("a"), Token::Plus, Token::IntLiteral(2)]);
    assert!(matches!(r, Ok(TmpEval::Value(Value::Int(42)))));
    let u = evaluate(&env, vec![ident("b")]);
    assert!(matches!(u, Err(EvalError::UnknownName)));
}

#[test]
fn comparisons_and_logic_give_booleans() {
    let env = Env::new();
    let r = evaluate(&env, vec![Token::IntLiteral(1), Token::Lt, Token::IntLiteral(2), Token::LAnd, Token::BoolLiteral(false)]);
    assert!(matches!(r, Ok(TmpEval::Value(Value::Bool(false)))));
}

#[test]
fn floats_are_left_to_the_caller() {
    let env = Env::new();
    let r = evaluate(&env, vec![Token::FloatLiteral("1.5".to_string())]);
    assert!(matches!(r, Ok(TmpEval::FloatLiteral(ref s)) if s == "1.5"));
}

#[test]
fn arrays_are_indexed() {
    let mut env = Env::new();
    env.map_value("xs".to_string(), Value::Array(vec![Value::Int(5), Value::Int(6)]));
    let r = evaluate(&env, vec![ident("xs"), Token::LBracket, Token::IntLiteral(1), Token::RBracket]);
    assert!(matches!(r, Ok(TmpEval::Value(Value::Int(6)))));
    let o = evaluate(&env, vec![ident("xs"), Token::LBracket, Token::IntLiteral(2), Token::RBracket]);
    assert!(matches!(o, Err(EvalError::OutOfBounds(2))));
}

#[test]
fn calls_are_left_to_the_caller() {
    let env = Env::new();
    let r = evaluate(&env, vec![ident("f"), Token::LParen, Token::IntLiteral(3), Token::RParen]);
    match r {
        Ok(TmpEval::Call(path, Some(args))) => {
            assert_eq!(path.0[0].0, "f");
            assert!(matches!(args[0], Value::Int(3)));
        }
        _ => panic!("expected a call"),
    }
}

/// The control-flow graph of `fn test() { <body> }`, returning unit.
fn cfg_of(body: Vec<Token>) -> CFG {
    let mut all = vec![Token::Fn, ident("test"), Token::LParen, Token::RParen, Token::LBrace];
    all.extend(body);
    all.push(Token::RBrace);
    let input = toks(all);
    let (f, _) = testfn_decl(&input, 0).ok().unwrap();
    CFG::generate(f.body, &AbstractType::Unit).ok().unwrap()
}

#[test]
fn a_block_binds_and_assigns() {
    let body = vec![
        Token::Let,
        ident("a"),
        Token::Assign,
        Token::IntLiteral(1),
        Token::Semi,
        ident("a"),
        Token::Assign,
        Token::IntLiteral(2),
        Token::Semi,
    ];
    let cfg = cfg_of(body);
    let block = (0..cfg.node_count()).find(|&i| matches!(cfg.node_weight(i), Node::Block(_))).unwrap();
    let mut env = Env::new();
    let mut state = LoopState::new(cfg.node_count());
    let r = eval_node(&cfg, &mut env, &mut state, None, block, None, &vec![Value::Int(1), Value::Int(2)]);
    assert!(matches!(r, Ok(NodeEval::Next(_))));
    assert!(matches!(env.get_value("a"), Some(Value::Int(2))));
}

#[test]
fn a_loop_runs_until_its_condition_fails() {
    // while (c) { } with the condition true twice, then false
    let body = vec![Token::While, Token::LParen, ident("c"), Token::RParen, Token::LBrace, Token::RBrace];
    let cfg = cfg_of(body);
    let mut env = Env::new();
    let mut state = LoopState::new(cfg.node_count());
    let mut answers = vec![true, true, false].into_iter();
    let mut prev = None;
    let mut current = cfg.start();
    let mut conditions = 0;
    for _ in 0..50 {
        let cond = match cfg.node_weight(current) {
            Node::Condition(_) => {
                conditions += 1;
                answers.next()
            }
            _ => None,
        };
        match eval_node(&cfg, &mut env, &mut state, prev, current, cond, &vec![]).unwrap() {
            NodeEval::Next(n) => {
                prev = Some(current);
                current = n;
            }
            NodeEval::Return => break,
        }
    }
    assert_eq!(conditions, 3);
    assert!(matches!(cfg.node_weight(current), Node::Return(_) | Node::End));
}

#[test]
fn every_temporary_carries_the_expression_span() {
    let input = toks(vec![Token::IntLiteral(1), Token::Plus, Token::IntLiteral(2), Token::Semi]);
    let ((e, _), _) = piped_expr(&input, 0, &vec![Delimiter::Semi]).ok().unwrap();
    let span = Span { start: 40, end: 44 };
    let flat = flatten(&e, span);
    assert_eq!(flat.tmps.len(), 3);
    assert!(flat.tmps.iter().all(|t| t.span == span));
}

#[test]
fn assignment_to_a_field_updates_the_struct() {
    let body = vec![
        Token::Let,
        ident("s"),
        Token::Assign,
        ident("x"),
        Token::Semi,
        ident("s"),
        Token::Dot,
        ident("a"),
        Token::Assign,
        Token::IntLiteral(2),
        Token::Semi,
    ];
    let cfg = cfg_of(body);
    let block = (0..cfg.node_count()).find(|&i| matches!(cfg.node_weight(i), Node::Block(_))).unwrap();
    let mut env = Env::new();
    let mut state = LoopState::new(cfg.node_count());
    let initial = Value::Struct(Struct {
        fields: vec![("a".to_string(), Value::Int(1)), ("b".to_string(), Value::Bool(true))],
    });
    let r = eval_node(&cfg, &mut env, &mut state, None, block, None, &vec![initial, Value::Int(2)]);
    assert!(matches!(r, Ok(NodeEval::Next(_))));
    match env.get_value("s") {
        Some(Value::Struct(st)) => {
            assert_eq!(st.fields.len(), 2);
            assert_eq!(st.fields[0].0, "a");
            assert!(matches!(st.fields[0].1, Value::Int(2)));
            assert!(matches!(st.fields[1].1, Value::Bool(true)));
        }
        _ => panic!("expected a struct"),
    }
}

#[test]
fn assignment_to_a_missing_field_is_an_error() {
    let body = vec![
        Token::Let,
        ident("s"),
        Token::Assign,
        ident("x"),
        Token::Semi,
        ident("s"),
        Token::Dot,
        ident("c"),
        Token::Assign,
        Token::IntLiteral(2),
        Token::Semi,
    ];
    let cfg = cfg_of(body);
    let block = (0..cfg.node_count()).find(|&i| matches!(cfg.node_weight(i), Node::Block(_))).unwrap();
    let mut env = Env::new();
    let mut state = LoopState::new(cfg.node_count());
    let initial = Value::Struct(Struct { fields: vec![("a".to_string(), Value::Int(1))] });
    let r = eval_node(&cfg, &mut env, &mut state, None, block, None, &vec![initial, Value::Int(2)]);
    assert!(matches!(r, Err(StepError::Eval(EvalError::UnknownField))));
}

#[test]
fn an_expression_is_evaluated_to_its_last_temporary() {
    let mut tokens = vec![Token::IntLiteral(1), Token::Plus, Token::IntLiteral(2), Token::Star, Token::IntLiteral(3)];
    tokens.push(Token::Semi);
    let input = toks(tokens);
    let ((e, span), _) = piped_expr(&input, 0, &vec![Delimiter::Semi]).ok().unwrap();
    let flat = flatten(&e, span);
    let env = Env::new();
    let mut values: Vec<Value> = Vec::new();
    match eval_expr(&env, &flat, &mut values) {
        Ok(ExprStep::Done(Value::Int(7))) => {}
        _ => panic!("expected 7"),
    }
    assert_eq!(values.len(), flat.tmps.len());
}

#[test]
fn an_expression_stops_at_a_float_and_resumes() {
    let mut tokens = vec![ident("a"), Token::Plus, Token::FloatLiteral("1.5".to_string())];
    tokens.push(Token::Semi);
    let input = toks(tokens);
    let ((e, span), _) = piped_expr(&input, 0, &vec![Delimiter::Semi]).ok().unwrap();
    let flat = flatten(&e, span);
    let mut env = Env::new();
    env.map_value("a".to_string(), Value::Int(1));
    let mut values: Vec<Value> = Vec::new();
    let first = eval_expr(&env, &flat, &mut values);
    assert!(matches!(first, Ok(ExprStep::Pending(_))));
    let done_before = values.len();
    assert!(done_before < flat.tmps.len());
}
