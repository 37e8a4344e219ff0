//! The expression parser: precedence climbing over binary operators, primary
//! expressions, access paths, module paths, calls and function piping (`|>`).

use vstd::prelude::*;

use crate::ast::{Ident, ModulePath, BinOp, UniOp, Literal, BinExpr, UniExpr, FnCall, PathSegment, Path, Indexing, StructInit, ArrayInit, FnCallChain, AnonymousFn, Expr};
use crate::parse_base::{TokKind, kind_of, kind_at, at, error_at, literal_at, ParserErrorKind, ParserError, unexpected, peek_kind, next_is, consume, ident_at, consume_ident, consume_int};
use crate::parser::{block, fn_param_list, module_binding, type_annotation, pair_span};
use crate::span::Span;
use crate::tokens::{SpannedToken, Token};

verus! {

/// Tokens that end an expression in a given context.
#[derive(Clone, Copy, Debug, PartialEq, Eq, Structural)]
pub enum Delimiter {
    RParen,
    RBracket,
    Comma,
    Semi,
    LBrace,
    Pipe,
}

/// A parse result: the parsed value and the position after it.
pub type ParseErr<T> = Result<T, ParserError>;

/// A successful parse consumed at least one token and stayed within the input.
pub open spec fn advanced<T>(r: ParseErr<(T, usize)>, pos: int, len: int) -> bool {
    r matches Ok((_, p)) ==> pos < p <= len
}

/// A successful parse stayed within the input and did not move backwards.
pub open spec fn moved<T>(r: ParseErr<(T, usize)>, pos: int, len: int) -> bool {
    r matches Ok((_, p)) ==> pos <= p <= len
}

/// The delimiter that a token kind stands for, if any.
pub open spec fn delimiter_of(k: TokKind) -> Option<Delimiter> {
    match k {
        TokKind::RParen => Some(Delimiter::RParen),
        TokKind::RBracket => Some(Delimiter::RBracket),
        TokKind::Comma => Some(Delimiter::Comma),
        TokKind::Semi => Some(Delimiter::Semi),
        TokKind::LBrace => Some(Delimiter::LBrace),
        TokKind::Pipe => Some(Delimiter::Pipe),
        _ => None,
    }
}

/// A token of kind `k` is one of `delims`.
pub open spec fn spec_is_delim(k: TokKind, delims: Seq<Delimiter>) -> bool {
    match delimiter_of(k) {
        Some(d) => delims.contains(d),
        None => false,
    }
}

/// The binary operator that a token kind stands for, if any.
pub open spec fn spec_get_op(k: TokKind) -> Option<BinOp> {
    match k {
        TokKind::Plus => Some(BinOp::Add),
        TokKind::Minus => Some(BinOp::Sub),
        TokKind::Star => Some(BinOp::Mul),
        TokKind::Slash => Some(BinOp::Div),
        TokKind::Percent => Some(BinOp::Mod),
        TokKind::Gte => Some(BinOp::GreaterEq),
        TokKind::Gt => Some(BinOp::Greater),
        TokKind::Lte => Some(BinOp::LesserEq),
        TokKind::Lt => Some(BinOp::Lesser),
        TokKind::LAnd => Some(BinOp::LogicalAnd),
        TokKind::LOr => Some(BinOp::LogicalOr),
        TokKind::Eq => Some(BinOp::Eq),
        TokKind::NEq => Some(BinOp::InEq),
        _ => None,
    }
}

/// Binding strength of a binary operator (higher binds tighter).
pub open spec fn spec_precedence(op: BinOp) -> u64 {
    match op {
        BinOp::Add | BinOp::Sub => 13,
        BinOp::Mul | BinOp::Div | BinOp::Mod => 14,
        BinOp::LogicalAnd => 5,
        BinOp::LogicalOr => 4,
        BinOp::GreaterEq | BinOp::LesserEq | BinOp::Greater | BinOp::Lesser => 10,
        BinOp::Eq | BinOp::InEq => 9,
    }
}

/// The operator is `+`, `-`, `*`, `/` or `%`.
pub open spec fn is_arith_op(op: BinOp) -> bool {
    op == BinOp::Add || op == BinOp::Sub || op == BinOp::Mul || op == BinOp::Div || op == BinOp::Mod
}

/// The operator is `<`, `<=`, `>` or `>=`.
pub open spec fn is_order_op(op: BinOp) -> bool {
    op == BinOp::Lesser || op == BinOp::LesserEq || op == BinOp::Greater || op == BinOp::GreaterEq
}

/// The binding strengths of the operators, from loosest to tightest: `||`,
/// `&&`, then `==` and `!=`, then the comparisons, then `+` and `-`, then `*`,
/// `/` and `%`. Operators of one group bind equally.
pub proof fn law_precedence_order(a: BinOp, b: BinOp)
    ensures
        is_order_op(a) && is_arith_op(b) ==> spec_precedence(a) < spec_precedence(b),
        (a == BinOp::Eq || a == BinOp::InEq) && is_order_op(b) ==> spec_precedence(a) < spec_precedence(b),
        (a == BinOp::Add || a == BinOp::Sub) && (b == BinOp::Mul || b == BinOp::Div || b == BinOp::Mod) ==> spec_precedence(a)
            < spec_precedence(b),
        a == BinOp::LogicalOr && b != BinOp::LogicalOr ==> spec_precedence(a) < spec_precedence(b),
        a == BinOp::LogicalAnd && b != BinOp::LogicalOr && b != BinOp::LogicalAnd ==> spec_precedence(a) < spec_precedence(b),
        is_order_op(a) && is_order_op(b) ==> spec_precedence(a) == spec_precedence(b),
        (a == BinOp::Add || a == BinOp::Sub) && (b == BinOp::Add || b == BinOp::Sub) ==> spec_precedence(a) == spec_precedence(b),
        (a == BinOp::Mul || a == BinOp::Div || a == BinOp::Mod) && (b == BinOp::Mul || b == BinOp::Div || b == BinOp::Mod)
            ==> spec_precedence(a) == spec_precedence(b),
{
}

/// Each operator token stands for its operator: `>=` for `GreaterEq`, `>` for
/// `Greater`, `<=` for `LesserEq`, `<` for `Lesser`, `==` and `!=` for equality
/// and inequality, `+ - * / %` for the arithmetic operators, `&&` and `||` for
/// the logical ones; no other token is an operator.
pub proof fn law_operator_tokens(k: TokKind)
    ensures
        spec_get_op(TokKind::Gte) == Some(BinOp::GreaterEq),
        spec_get_op(TokKind::Gt) == Some(BinOp::Greater),
        spec_get_op(TokKind::Lte) == Some(BinOp::LesserEq),
        spec_get_op(TokKind::Lt) == Some(BinOp::Lesser),
        spec_get_op(TokKind::Eq) == Some(BinOp::Eq),
        spec_get_op(TokKind::NEq) == Some(BinOp::InEq),
        spec_get_op(TokKind::Plus) == Some(BinOp::Add),
        spec_get_op(TokKind::Minus) == Some(BinOp::Sub),
        spec_get_op(TokKind::Star) == Some(BinOp::Mul),
        spec_get_op(TokKind::Slash) == Some(BinOp::Div),
        spec_get_op(TokKind::Percent) == Some(BinOp::Mod),
        spec_get_op(TokKind::LAnd) == Some(BinOp::LogicalAnd),
        spec_get_op(TokKind::LOr) == Some(BinOp::LogicalOr),
        k != TokKind::Gte && k != TokKind::Gt && k != TokKind::Lte && k != TokKind::Lt && k != TokKind::Eq && k != TokKind::NEq
            && k != TokKind::Plus && k != TokKind::Minus && k != TokKind::Star && k != TokKind::Slash && k != TokKind::Percent
            && k != TokKind::LAnd && k != TokKind::LOr ==> spec_get_op(k) is None,
{
}

/// In `a op1 b op2 c` an arithmetic operator groups before a comparison on
/// either side of it: `a + b < c` is `(a + b) < c` and `a < b + c` is
/// `a < (b + c)`.
pub proof fn law_arith_binds_tighter_than_order(toks: Seq<SpannedToken>, pos: int, a: Expr)
    requires
        0 <= pos,
        pos + 3 < toks.len(),
        spec_get_op(kind_of(toks[pos].token)) is Some,
        spec_get_op(kind_of(toks[pos + 2].token)) is Some,
    ensures
        is_arith_op(spec_get_op(kind_of(toks[pos].token))->0) && is_order_op(spec_get_op(kind_of(toks[pos + 2].token))->0)
            ==> two_operations_tree(toks, pos, a) == bin(
            spec_get_op(kind_of(toks[pos + 2].token))->0,
            bin(spec_get_op(kind_of(toks[pos].token))->0, a, simple_operand(toks, pos + 1)->0),
            simple_operand(toks, pos + 3)->0,
        ),
        is_order_op(spec_get_op(kind_of(toks[pos].token))->0) && is_arith_op(spec_get_op(kind_of(toks[pos + 2].token))->0)
            ==> two_operations_tree(toks, pos, a) == bin(
            spec_get_op(kind_of(toks[pos].token))->0,
            a,
            bin(spec_get_op(kind_of(toks[pos + 2].token))->0, simple_operand(toks, pos + 1)->0, simple_operand(toks, pos + 3)->0),
        ),
{
    law_precedence_order(spec_get_op(kind_of(toks[pos].token))->0, spec_get_op(kind_of(toks[pos + 2].token))->0);
    law_precedence_order(spec_get_op(kind_of(toks[pos + 2].token))->0, spec_get_op(kind_of(toks[pos].token))->0);
}

/// At position `i` the binary-operator loop of `expr` goes on: there is a token,
/// it is not a delimiter, and it is an operator of precedence at least `min`.
pub open spec fn continues(toks: Seq<SpannedToken>, i: int, delims: Seq<Delimiter>, min: u64) -> bool {
    &&& 0 <= i < toks.len()
    &&& !spec_is_delim(kind_of(toks[i].token), delims)
    &&& spec_get_op(kind_of(toks[i].token)) matches Some(op)
    &&& spec_precedence(op) >= min
}

/// The token at position `i` is a binary operator.
pub open spec fn op_at(toks: Seq<SpannedToken>, i: int) -> bool {
    0 <= i < toks.len() && spec_get_op(kind_of(toks[i].token)) is Some
}

/// The identifier at position `i` stands alone as a binding: a token follows
/// it, and that token opens no field access, module path, call or indexing.
pub open spec fn plain_ident_at(toks: Seq<SpannedToken>, i: int) -> Option<Ident> {
    match (ident_at(toks, i), kind_at(toks, i + 1)) {
        (Some(n), Some(k)) => if k != TokKind::Dot && k != TokKind::ColonColon && k != TokKind::LParen && k
            != TokKind::LBracket {
            Some(n)
        } else {
            None
        },
        _ => None,
    }
}

/// The expression that the single token at position `i` forms on its own: a
/// literal, or a plain binding.
pub open spec fn simple_operand(toks: Seq<SpannedToken>, i: int) -> Option<Expr> {
    match literal_at(toks, i) {
        Some(l) => Some(Expr::Literal(l)),
        None => match plain_ident_at(toks, i) {
            Some(n) => Some(Expr::Binding(n)),
            None => None,
        },
    }
}

fn contains_delimiter(delims: &Vec<Delimiter>, d: Delimiter) -> (r: bool)
    ensures
        r == delims@.contains(d),
{
    let mut i: usize = 0;
    while i < delims.len()
        invariant
            i <= delims.len(),
            forall|j: int| 0 <= j < i ==> delims@[j] != d,
        decreases delims.len() - i,
    {
        if delims[i] == d {
            return true;
        }
        i = i + 1;
    }
    false
}

/// The token is one of the delimiters.
pub fn is_delim(token: &Token, delim: &Vec<Delimiter>) -> (r: bool)
    ensures
        r == spec_is_delim(kind_of(*token), delim@),
{
    let d = match token {
        Token::RParen => Delimiter::RParen,
        Token::RBracket => Delimiter::RBracket,
        Token::Comma => Delimiter::Comma,
        Token::Semi => Delimiter::Semi,
        Token::LBrace => Delimiter::LBrace,
        Token::Pipe => Delimiter::Pipe,
        _ => return false,
    };
    contains_delimiter(delim, d)
}

/// The binary operator that a token stands for, if any.
pub fn get_op(token: &Token) -> (r: Option<BinOp>)
    ensures
        r == spec_get_op(kind_of(*token)),
{
    match token {
        Token::Plus => Some(BinOp::Add),
        Token::Minus => Some(BinOp::Sub),
        Token::Star => Some(BinOp::Mul),
        Token::Slash => Some(BinOp::Div),
        Token::Percent => Some(BinOp::Mod),
        Token::Gte => Some(BinOp::GreaterEq),
        Token::Gt => Some(BinOp::Greater),
        Token::Lte => Some(BinOp::LesserEq),
        Token::Lt => Some(BinOp::Lesser),
        Token::LAnd => Some(BinOp::LogicalAnd),
        Token::LOr => Some(BinOp::LogicalOr),
        Token::Eq => Some(BinOp::Eq),
        Token::NEq => Some(BinOp::InEq),
        _ => None,
    }
}

/// Binding strength of a binary operator, after Clang's precedence table:
/// `&&` (5) binds tighter than `||` (4).
pub fn bin_op_precedence(op: &BinOp) -> (r: u64)
    ensures
        r == spec_precedence(*op),
{
    match op {
        BinOp::Add => 13,
        BinOp::Sub => 13,
        BinOp::Mul => 14,
        BinOp::Div => 14,
        BinOp::Mod => 14,
        BinOp::LogicalAnd => 5,
        BinOp::LogicalOr => 4,
        BinOp::GreaterEq => 10,
        BinOp::LesserEq => 10,
        BinOp::Greater => 10,
        BinOp::Lesser => 10,
        BinOp::Eq => 9,
        BinOp::InEq => 9,
    }
}

/// Every binary operator is left-associative.
pub fn is_left_associative(op: &BinOp) -> (r: bool)
    ensures
        r,
{
    match op {
        BinOp::Add => true,
        BinOp::Sub => true,
        BinOp::Mul => true,
        BinOp::Div => true,
        BinOp::Mod => true,
        BinOp::LogicalAnd => true,
        BinOp::LogicalOr => true,
        BinOp::GreaterEq => true,
        BinOp::LesserEq => true,
        BinOp::Greater => true,
        BinOp::Lesser => true,
        BinOp::Eq => true,
        BinOp::InEq => true,
    }
}

/// The operator at `pos` if the binary-operator loop goes on there (see `continues`).
fn next_operator(toks: &Vec<SpannedToken>, pos: usize, delims: &Vec<Delimiter>, min: u64) -> (r: Option<BinOp>)
    ensures
        r is Some <==> continues(toks@, pos as int, delims@, min),
        r matches Some(op) ==> spec_get_op(kind_of(toks@[pos as int].token)) == Some(op),
{
    if pos >= toks.len() {
        return None;
    }
    let tok = &toks[pos].token;
    if is_delim(tok, delims) {
        return None;
    }
    match get_op(tok) {
        Some(op) => {
            if bin_op_precedence(&op) >= min {
                Some(op)
            } else {
                None
            }
        },
        None => None,
    }
}

/// Parses an expression that may be followed by `|>`-piped function calls.
pub fn piped_expr(toks: &Vec<SpannedToken>, pos: usize, delim_tokens: &Vec<Delimiter>) -> (r: ParseErr<((Expr, Span), usize)>)
    requires
        pos <= toks.len(),
    ensures
        advanced(r, pos as int, toks.len() as int),
        simple_operand(toks@, pos as int) matches Some(e) ==> (!op_at(toks@, pos + 1) && !at(toks@, pos + 1, TokKind::Pipe)
            ==> r == Ok::<((Expr, Span), usize), ParserError>(((e, toks@[pos as int].span), (pos + 1) as usize))),
        simple_operand(toks@, pos as int) matches Some(a) ==> (one_operation(toks@, pos + 1, delim_tokens@, 0) && !at(
            toks@,
            pos + 3,
            TokKind::Pipe,
        ) ==> (r matches Ok(((e, _), p)) && e == bin(
            spec_get_op(kind_of(toks@[pos + 1].token))->0,
            a,
            simple_operand(toks@, pos + 2)->0,
        ) && p == pos + 3)),
        simple_operand(toks@, pos as int) matches Some(a) ==> (two_operations(toks@, pos + 1, delim_tokens@, 0) && !at(
            toks@,
            pos + 5,
            TokKind::Pipe,
        ) ==> (r matches Ok(((e, _), p)) && e == two_operations_tree(toks@, pos + 1, a) && p == pos + 5)),
    decreases toks.len() - pos, 3nat,
{
    let (primary_base, p1) = parse_primary(toks, pos)?;
    let (expr_base, p2) = expr(toks, p1, primary_base, delim_tokens, 0)?;
    prebase_piped_expr(toks, p2, expr_base, delim_tokens)
}

/// Parses the `|> call` chain that follows an already parsed expression.
/// Without a `|>` the expression is returned unchanged.
#[verifier::loop_isolation(false)]
pub fn prebase_piped_expr(
    toks: &Vec<SpannedToken>,
    pos: usize,
    expr_base: (Expr, Span),
    delim_tokens: &Vec<Delimiter>,
) -> (r: ParseErr<((Expr, Span), usize)>)
    requires
        pos <= toks.len(),
    ensures
        moved(r, pos as int, toks.len() as int),
        !at(toks@, pos as int, TokKind::Pipe) ==> r == Ok::<((Expr, Span), usize), ParserError>(
            (expr_base, pos),
        ),
        at(toks@, pos as int, TokKind::Pipe) ==> (r matches Ok((e, p)) ==> pos < p && (e.0 matches Expr::FnCallChain(c)
            && (expr_base.0 matches Expr::FnCall(b) && c.base == b) && c.chain@.len() >= 1)),
        at(toks@, pos as int, TokKind::Pipe) && !(expr_base.0 is FnCall) ==> r is Err,
        r matches Ok((_, p)) ==> !at(toks@, p as int, TokKind::Pipe),
    decreases toks.len() - pos, 0nat,
{
    let mut cur = pos;
    let mut piped_exprs: Vec<(Expr, Span)> = Vec::new();
    while cur < toks.len() && next_is(toks, cur, TokKind::Pipe)
        invariant
            pos <= cur <= toks.len(),
            piped_exprs.len() == 0 ==> cur == pos,
            piped_exprs.len() > 0 ==> at(toks@, pos as int, TokKind::Pipe),
        decreases toks.len() - cur,
    {
        let _pipe = consume(toks, cur, TokKind::Pipe)?;
        let (primary, p1) = parse_primary(toks, cur + 1)?;
        let (e, p2) = expr(toks, p1, primary, delim_tokens, 0)?;
        piped_exprs.push(e);
        cur = p2;
    }
    if piped_exprs.len() == 0 {
        return Ok((expr_base, cur));
    }
    let (base_expr, eloc) = expr_base;
    let base = match base_expr {
        Expr::FnCall(f) => f,
        other => return Err(ParserError { kind: ParserErrorKind::InvalidPiping(other), pos }),
    };
    let n = piped_exprs.len();
    let end = piped_exprs[n - 1].1;
    let mut chain: Vec<FnCall> = Vec::new();
    let mut rest = piped_exprs;
    while rest.len() > 0
        invariant
            chain@.len() + rest@.len() == n,
            n >= 1,
        decreases rest.len(),
    {
        let (e, _espan) = rest.remove(0);
        match e {
            Expr::FnCall(f) => chain.push(f),
            other => return Err(ParserError { kind: ParserErrorKind::InvalidPiping(other), pos }),
        }
    }
    let span = Span::combine(eloc, end);
    Ok(((Expr::FnCallChain(FnCallChain { base, chain }), span), cur))
}

/// The binary expression `l op r`.
pub open spec fn bin(op: BinOp, l: Expr, r: Expr) -> Expr {
    Expr::Bin(BinExpr { op, lhs: Box::new(l), rhs: Box::new(r) })
}

/// At `pos` stand an operator that the loop of `expr` takes, then a one-token
/// operand, and no operator after it.
pub open spec fn one_operation(toks: Seq<SpannedToken>, pos: int, delims: Seq<Delimiter>, min: u64) -> bool {
    &&& continues(toks, pos, delims, min)
    &&& simple_operand(toks, pos + 1) is Some
    &&& !op_at(toks, pos + 2)
}

/// At `pos` stand two operators that the loop of `expr` takes, each followed by
/// a one-token operand, and no operator after them.
pub open spec fn two_operations(toks: Seq<SpannedToken>, pos: int, delims: Seq<Delimiter>, min: u64) -> bool {
    &&& continues(toks, pos, delims, min)
    &&& simple_operand(toks, pos + 1) is Some
    &&& continues(toks, pos + 2, delims, min)
    &&& simple_operand(toks, pos + 3) is Some
    &&& !op_at(toks, pos + 4)
}

/// The tree of `a op1 b op2 c` for the operands and operators at `pos`: the
/// second operator binds first when it binds tighter, else the first does
/// (every operator is left-associative).
pub open spec fn two_operations_tree(toks: Seq<SpannedToken>, pos: int, a: Expr) -> Expr {
    let op1 = spec_get_op(kind_of(toks[pos].token))->0;
    let op2 = spec_get_op(kind_of(toks[pos + 2].token))->0;
    let b = simple_operand(toks, pos + 1)->0;
    let c = simple_operand(toks, pos + 3)->0;
    if spec_precedence(op2) > spec_precedence(op1) {
        bin(op1, a, bin(op2, b, c))
    } else {
        bin(op2, bin(op1, a, b), c)
    }
}

/// Precedence climbing: extends `lhs` with binary operators of precedence at least
/// `min_precedence`. The result ends where the operator loop cannot go on.
#[verifier::loop_isolation(false)]
fn expr(
    toks: &Vec<SpannedToken>,
    pos: usize,
    lhs: (Expr, Span),
    delim_tokens: &Vec<Delimiter>,
    min_precedence: u64,
) -> (r: ParseErr<((Expr, Span), usize)>)
    requires
        pos <= toks.len(),
    ensures
        moved(r, pos as int, toks.len() as int),
        r matches Ok((e, p)) ==> !continues(toks@, p as int, delim_tokens@, min_precedence),
        r matches Ok((e, p)) ==> (p == pos ==> e == lhs),
        !continues(toks@, pos as int, delim_tokens@, min_precedence) ==> r == Ok::<
            ((Expr, Span), usize),
            ParserError,
        >((lhs, pos)),
        one_operation(toks@, pos as int, delim_tokens@, min_precedence) ==> (r matches Ok(((e, _), p)) && e == bin(
            spec_get_op(kind_of(toks@[pos as int].token))->0,
            lhs.0,
            simple_operand(toks@, pos + 1)->0,
        ) && p == pos + 2),
        two_operations(toks@, pos as int, delim_tokens@, min_precedence) ==> (r matches Ok(((e, _), p)) && e
            == two_operations_tree(toks@, pos as int, lhs.0) && p == pos + 4),
    decreases toks.len() - pos, 0nat,
{
    let mut lhs = lhs;
    let ghost lhs0 = lhs;
    let ghost one = one_operation(toks@, pos as int, delim_tokens@, min_precedence);
    let ghost two = two_operations(toks@, pos as int, delim_tokens@, min_precedence);
    let ghost op1 = spec_get_op(kind_of(toks@[pos as int].token))->0;
    let ghost op2 = spec_get_op(kind_of(toks@[pos + 2].token))->0;
    let ghost b = simple_operand(toks@, pos + 1)->0;
    let ghost c = simple_operand(toks@, pos + 3)->0;
    let mut cur = pos;
    loop
        invariant
            pos <= cur <= toks.len(),
            cur == pos ==> lhs == lhs0,
            cur != pos ==> continues(toks@, pos as int, delim_tokens@, min_precedence),
            one ==> cur == pos || (cur == pos + 2 && lhs.0 == bin(
                spec_get_op(kind_of(toks@[pos as int].token))->0,
                lhs0.0,
                simple_operand(toks@, pos + 1)->0,
            )),
            two ==> (cur == pos || (cur == pos + 2 && spec_precedence(op2) <= spec_precedence(op1) && lhs.0 == bin(
                op1,
                lhs0.0,
                b,
            )) || (cur == pos + 4 && lhs.0 == two_operations_tree(toks@, pos as int, lhs0.0))),
        decreases toks.len() - cur,
    {
        let main_op = match next_operator(toks, cur, delim_tokens, min_precedence) {
            Some(op) => op,
            None => {
                return Ok((lhs, cur));
            },
        };
        let main_prec = bin_op_precedence(&main_op);
        let (rhs0, p1) = parse_primary(toks, cur + 1)?;
        let mut rhs = rhs0;
        let mut q = p1;
        loop
            invariant
                cur < q <= toks.len(),
                one && cur == pos ==> q == pos + 2 && rhs.0 == simple_operand(toks@, pos + 1)->0,
                two && cur == pos ==> (q == pos + 2 && rhs.0 == b) || (q == pos + 4 && spec_precedence(op2) > spec_precedence(
                    op1,
                ) && rhs.0 == bin(op2, b, c)),
                two && cur == pos + 2 ==> q == pos + 4 && rhs.0 == c,
                two && cur == pos ==> main_op == op1,
                two && cur == pos + 2 ==> main_op == op2,
            decreases toks.len() - q,
        {
            if q >= toks.len() {
                break;
            }
            let tok = &toks[q].token;
            if is_delim(tok, delim_tokens) {
                break;
            }
            let op = match get_op(tok) {
                Some(op) => op,
                None => break,
            };
            let prec = bin_op_precedence(&op);
            if !(prec > main_prec || (is_left_associative(&op) == false && prec == main_prec)) {
                break;
            }
            let (next_rhs, q2) = expr(toks, q, rhs, delim_tokens, prec)?;
            rhs = next_rhs;
            q = q2;
        }
        let (lhs_e, lhs_span) = lhs;
        let (rhs_e, rhs_span) = rhs;
        let span = Span::combine(lhs_span, rhs_span);
        let bin_expr = BinExpr { op: main_op, lhs: Box::new(lhs_e), rhs: Box::new(rhs_e) };
        lhs = (Expr::Bin(bin_expr), span);
        cur = q;
    }
}

/// Parses a primary expression: a unary expression, a literal, a parenthesized
/// expression, an identifier form, a struct or array initializer, or an anonymous function.
fn parse_primary(toks: &Vec<SpannedToken>, pos: usize) -> (r: ParseErr<((Expr, Span), usize)>)
    requires
        pos <= toks.len(),
    ensures
        advanced(r, pos as int, toks.len() as int),
        simple_operand(toks@, pos as int) matches Some(e) ==> r == Ok::<((Expr, Span), usize), ParserError>(
            ((e, toks@[pos as int].span), (pos + 1) as usize),
        ),
        kind_at(toks@, pos as int) is None ==> r == Err::<((Expr, Span), usize), ParserError>(error_at(toks@, pos as int)),
    decreases toks.len() - pos, 2nat,
{
    if pos >= toks.len() {
        return Err(unexpected(toks, pos));
    }
    let uspan = toks[pos].span;
    match &toks[pos].token {
        Token::Plus => parse_primary(toks, pos + 1),
        Token::Minus => {
            let ((base, sbase), p) = parse_primary(toks, pos + 1)?;
            let span = Span::combine(uspan, sbase);
            Ok(((Expr::Uni(UniExpr { op: UniOp::Negate, expr: Box::new(base) }), span), p))
        },
        Token::Invert => {
            let ((base, sbase), p) = parse_primary(toks, pos + 1)?;
            let span = Span::combine(uspan, sbase);
            Ok(((Expr::Uni(UniExpr { op: UniOp::LogicalInvert, expr: Box::new(base) }), span), p))
        },
        Token::IntLiteral(i) => Ok(((Expr::Literal(Literal::Int(*i)), uspan), pos + 1)),
        Token::FloatLiteral(f) => Ok(((Expr::Literal(Literal::Float(f.clone())), uspan), pos + 1)),
        Token::BoolLiteral(b) => Ok(((Expr::Literal(Literal::Bool(*b)), uspan), pos + 1)),
        Token::StringLiteral(s) => Ok(((Expr::Literal(Literal::String(s.clone())), uspan), pos + 1)),
        Token::LParen => {
            let delims = vec![Delimiter::RParen];
            let (inner, p) = piped_expr(toks, pos + 1, &delims)?;
            let _rspan = consume(toks, p, TokKind::RParen)?;
            Ok((inner, p + 1))
        },
        Token::Identifier(_) => parse_ident_leaf(toks, pos),
        Token::Init => struct_init(toks, pos),
        Token::LBracket => array_init(toks, pos),
        Token::Fn => anonymous_fn(toks, pos),
        _ => Err(unexpected(toks, pos)),
    }
}

/// Parses an expression that starts with an identifier: a binding, an access path,
/// a module path, a call or an indexing.
fn parse_ident_leaf(toks: &Vec<SpannedToken>, pos: usize) -> (r: ParseErr<((Expr, Span), usize)>)
    requires
        pos <= toks.len(),
    ensures
        advanced(r, pos as int, toks.len() as int),
        plain_ident_at(toks@, pos as int) matches Some(n) ==> r == Ok::<((Expr, Span), usize), ParserError>(
            ((Expr::Binding(n), toks@[pos as int].span), (pos + 1) as usize),
        ),
        ident_at(toks@, pos as int) is Some && kind_at(toks@, pos + 1) is None ==> r == Err::<((Expr, Span), usize), ParserError>(
            error_at(toks@, pos + 1),
        ),
    decreases toks.len() - pos, 0nat,
{
    let (base_ident, base_span) = consume_ident(toks, pos)?;
    let p = pos + 1;
    let k = match peek_kind(toks, p) {
        Some(k) => k,
        None => return Err(unexpected(toks, p)),
    };
    if k == TokKind::Dot {
        access_path(toks, p, PathSegment::Ident(base_ident), base_span)
    } else if k == TokKind::ColonColon {
        expr_module_path(toks, p, base_ident, base_span)
    } else if k == TokKind::LParen {
        let ((args, arg_span), p2) = fn_args(toks, p)?;
        let called = ModulePath(vec![base_ident]);
        let fn_call = FnCall { path: called, args };
        let span = Span::combine(base_span, arg_span);
        Ok(((Expr::FnCall(fn_call), span), p2))
    } else if k == TokKind::LBracket {
        let delims = vec![Delimiter::RBracket];
        let ((indexer, _ispan), p2) = piped_expr(toks, p + 1, &delims)?;
        let rspan = consume(toks, p2, TokKind::RBracket)?;
        let p3 = p2 + 1;
        let k3 = match peek_kind(toks, p3) {
            Some(k3) => k3,
            None => return Err(unexpected(toks, p3)),
        };
        if k3 == TokKind::Dot {
            let root = PathSegment::Indexing(base_ident, Box::new(indexer));
            access_path(toks, p3, root, base_span)
        } else {
            let binding = Expr::Binding(base_ident);
            let indexing = Indexing { array: Box::new(binding), indexer: Box::new(indexer) };
            let span = Span::combine(base_span, rspan);
            Ok(((Expr::Indexing(indexing), span), p3))
        }
    } else {
        Ok(((Expr::Binding(base_ident), base_span), p))
    }
}

/// Parses the `.field` segments that follow `root`, giving a field access.
pub fn access_path(toks: &Vec<SpannedToken>, pos: usize, root: PathSegment, start: Span) -> (r: ParseErr<((Expr, Span), usize)>)
    requires
        pos <= toks.len(),
    ensures
        moved(r, pos as int, toks.len() as int),
        r matches Ok((e, p)) ==> e.0 is FieldAccess,
        r matches Ok(((Expr::FieldAccess(path), _), p)) ==> path.0@.len() >= 1 && path.0@[0] == root,
        !at(toks@, pos as int, TokKind::Dot) ==> (r matches Ok(((Expr::FieldAccess(path), _), p)) && p == pos
            && path.0@ == seq![root]),
        ident_at(toks@, pos + 1) matches Some(n) ==> (at(toks@, pos as int, TokKind::Dot) && kind_at(toks@, pos + 2) is Some
            && !at(toks@, pos + 2, TokKind::LBracket) && !at(toks@, pos + 2, TokKind::Dot) ==> (r matches Ok(
            ((Expr::FieldAccess(path), _), p),
        ) && p == pos + 2 && path.0@ == seq![root, PathSegment::Ident(n)])),
    decreases toks.len() - pos, 0nat,
{
    let ghost root0 = root;
    let mut end = start;
    let mut path: Vec<PathSegment> = vec![root];
    let mut cur = pos;
    assert(path@ == seq![root0]);
    while cur < toks.len() && next_is(toks, cur, TokKind::Dot)
        invariant
            pos <= cur <= toks.len(),
            path@.len() >= 1,
            path@[0] == root0,
            cur == pos ==> path@ == seq![root0],
            cur > pos ==> at(toks@, pos as int, TokKind::Dot),
            (ident_at(toks@, pos + 1) is Some && kind_at(toks@, pos + 2) is Some && !at(toks@, pos + 2, TokKind::LBracket)
                && !at(toks@, pos + 2, TokKind::Dot)) ==> (cur == pos || (cur == pos + 2 && path@ == seq![
                root0,
                PathSegment::Ident(ident_at(toks@, pos + 1)->0),
            ])),
        decreases toks.len() - cur,
    {
        let _dot = consume(toks, cur, TokKind::Dot)?;
        let ((segment, seg_span), p) = path_segment(toks, cur + 1)?;
        end = seg_span;
        path.push(segment);
        cur = p;
    }
    let span = Span::combine(start, end);
    Ok(((Expr::FieldAccess(Path(path)), span), cur))
}

/// Parses one segment of an access path: a field name, possibly indexed.
fn path_segment(toks: &Vec<SpannedToken>, pos: usize) -> (r: ParseErr<((PathSegment, Span), usize)>)
    requires
        pos <= toks.len(),
    ensures
        advanced(r, pos as int, toks.len() as int),
        r is Ok ==> ident_at(toks@, pos as int) is Some,
        r matches Ok(((PathSegment::Ident(name), _), p)) ==> ident_at(toks@, pos as int) == Some(name)
            && p == pos + 1,
        ident_at(toks@, pos as int) matches Some(n) ==> (kind_at(toks@, pos + 1) is Some && !at(toks@, pos + 1, TokKind::LBracket)
            ==> r == Ok::<((PathSegment, Span), usize), ParserError>(((PathSegment::Ident(n), toks@[pos as int].span), (pos + 1) as usize))),
        ident_at(toks@, pos as int) is None ==> r == Err::<((PathSegment, Span), usize), ParserError>(error_at(toks@, pos as int)),
    decreases toks.len() - pos, 0nat,
{
    let (ident, ispan) = consume_ident(toks, pos)?;
    let p = pos + 1;
    let k = match peek_kind(toks, p) {
        Some(k) => k,
        None => return Err(unexpected(toks, p)),
    };
    if k == TokKind::LBracket {
        let delims = vec![Delimiter::RBracket];
        let ((indexer, _), p2) = piped_expr(toks, p + 1, &delims)?;
        let _rbracket = consume(toks, p2, TokKind::RBracket)?;
        Ok(((PathSegment::Indexing(ident, Box::new(indexer)), ispan), p2 + 1))
    } else {
        Ok(((PathSegment::Ident(ident), ispan), p))
    }
}

/// The tokens at `pos` spell `(a, b)` for two one-token operands.
pub open spec fn two_arguments_at(toks: Seq<SpannedToken>, pos: int) -> bool {
    &&& at(toks, pos, TokKind::LParen)
    &&& simple_operand(toks, pos + 1) is Some
    &&& at(toks, pos + 2, TokKind::Comma)
    &&& simple_operand(toks, pos + 3) is Some
    &&& at(toks, pos + 4, TokKind::RParen)
}

/// The position of the `i`-th argument of a list that opens at `pos`, when each
/// argument is a single token.
pub open spec fn arg_pos(pos: int, i: int) -> int {
    pos + 1 + 2 * i
}

/// At `pos` stands `(a0, a1, ..., a(n-1))` with `n >= 1` one-token operands.
pub open spec fn simple_args_at(toks: Seq<SpannedToken>, pos: int, n: int) -> bool {
    &&& n >= 1
    &&& at(toks, pos, TokKind::LParen)
    &&& forall|i: int| 0 <= i < n ==> #[trigger] simple_operand(toks, arg_pos(pos, i)) is Some
    &&& forall|i: int| 0 <= i < n - 1 ==> #[trigger] at(toks, arg_pos(pos, i) + 1, TokKind::Comma)
    &&& at(toks, pos + 2 * n, TokKind::RParen)
}

/// The operands of such a list, in order.
pub open spec fn simple_args(toks: Seq<SpannedToken>, pos: int, n: int) -> Seq<Expr> {
    Seq::new(n as nat, |i: int| simple_operand(toks, arg_pos(pos, i))->0)
}

/// A list of one-token operands has one length only.
proof fn lemma_simple_args_unique(toks: Seq<SpannedToken>, pos: int, n: int, m: int)
    requires
        simple_args_at(toks, pos, n),
        simple_args_at(toks, pos, m),
    ensures
        n == m,
{
    if n < m {
        assert(at(toks, arg_pos(pos, n - 1) + 1, TokKind::Comma));
        assert(arg_pos(pos, n - 1) + 1 == pos + 2 * n);
    } else if m < n {
        assert(at(toks, arg_pos(pos, m - 1) + 1, TokKind::Comma));
        assert(arg_pos(pos, m - 1) + 1 == pos + 2 * m);
    }
}

/// Parses a parenthesized, comma-separated argument list. `None` stands for `()`.
pub fn fn_args(toks: &Vec<SpannedToken>, pos: usize) -> (r: ParseErr<((Option<Vec<Expr>>, Span), usize)>)
    requires
        pos <= toks.len(),
    ensures
        advanced(r, pos as int, toks.len() as int),
        r matches Ok((_, p)) ==> at(toks@, pos as int, TokKind::LParen) && at(
            toks@,
            p - 1,
            TokKind::RParen,
        ),
        at(toks@, pos as int, TokKind::LParen) && at(toks@, pos + 1, TokKind::RParen) ==> r == Ok::<
            ((Option<Vec<Expr>>, Span), usize),
            ParserError,
        >(((None, pair_span(toks@, pos as int)), (pos + 2) as usize)),
        !at(toks@, pos as int, TokKind::LParen) ==> r == Err::<((Option<Vec<Expr>>, Span), usize), ParserError>(
            error_at(toks@, pos as int),
        ),
        simple_operand(toks@, pos + 1) matches Some(e) ==> (at(toks@, pos as int, TokKind::LParen) && at(toks@, pos + 2, TokKind::RParen)
            ==> (r matches Ok(((Some(a), sp), p)) && a@ == seq![e] && sp == Span {
            start: toks@[pos as int].span.start,
            end: toks@[pos + 2].span.end,
        } && p == pos + 3)),
        two_arguments_at(toks@, pos as int) ==> (r matches Ok(((Some(a), _), p)) && a@ == seq![
            simple_operand(toks@, pos + 1)->0,
            simple_operand(toks@, pos + 3)->0,
        ] && p == pos + 5),
        forall|n: int| #[trigger] simple_args_at(toks@, pos as int, n) ==> (r matches Ok(((Some(a), sp), p)) && a@ == simple_args(
            toks@,
            pos as int,
            n,
        ) && p == pos + 2 * n + 1 && sp == Span { start: toks@[pos as int].span.start, end: toks@[pos + 2 * n].span.end }),
    decreases toks.len() - pos, 0nat,
{
    let ghost general = exists|n: int| #[trigger] simple_args_at(toks@, pos as int, n);
    let ghost nn = choose|n: int| #[trigger] simple_args_at(toks@, pos as int, n);
    let ghost mut m: int = 0;
    assert forall|n: int| #[trigger] simple_args_at(toks@, pos as int, n) implies general by {}
    let lspan = consume(toks, pos, TokKind::LParen)?;
    let mut cur = pos + 1;
    let mut args: Option<Vec<Expr>> = None;
    let delims = vec![Delimiter::RParen, Delimiter::Comma];
    while cur < toks.len() && !next_is(toks, cur, TokKind::RParen)
        invariant
            forall|n: int| #[trigger] simple_args_at(toks@, pos as int, n) ==> general,
            general ==> simple_args_at(toks@, pos as int, nn),
            general ==> 0 <= m <= nn,
            general ==> (m < nn ==> cur == arg_pos(pos as int, m)),
            general ==> (m == nn ==> cur == pos + 2 * nn),
            general ==> (m == 0 ==> args is None),
            general ==> (m > 0 ==> (args matches Some(a) && a@ == simple_args(toks@, pos as int, m))),
            delims@ == seq![Delimiter::RParen, Delimiter::Comma],
            pos < cur <= toks.len(),
            at(toks@, pos as int, TokKind::LParen),
            cur == pos + 1 ==> args is None,
            at(toks@, pos + 1, TokKind::RParen) ==> cur == pos + 1,
            (simple_operand(toks@, pos + 1) is Some && at(toks@, pos + 2, TokKind::RParen)) ==> ((cur == pos + 1 && args is None)
                || (cur == pos + 2 && (args matches Some(a) && a@ == seq![simple_operand(toks@, pos + 1)->0]))),
            two_arguments_at(toks@, pos as int) ==> ((cur == pos + 1 && args is None) || (cur == pos + 3 && (args matches Some(a)
                && a@ == seq![simple_operand(toks@, pos + 1)->0])) || (cur == pos + 4 && (args matches Some(a) && a@ == seq![
                simple_operand(toks@, pos + 1)->0,
                simple_operand(toks@, pos + 3)->0,
            ]))),
        decreases toks.len() - cur,
    {
        proof {
            if general {
                if m == nn {
                    assert(at(toks@, pos + 2 * nn, TokKind::RParen));
                }
                assert(m < nn);
                assert(simple_operand(toks@, arg_pos(pos as int, m)) is Some);
                if m < nn - 1 {
                    assert(at(toks@, arg_pos(pos as int, m) + 1, TokKind::Comma));
                } else {
                    assert(arg_pos(pos as int, m) + 1 == pos + 2 * nn);
                }
            }
            assert(general ==> (simple_operand(toks@, cur as int) is Some && !op_at(toks@, cur + 1) && !at(
                toks@,
                cur + 1,
                TokKind::Pipe,
            ) && cur + 1 < toks@.len() && (at(toks@, cur + 1, TokKind::Comma) || (at(toks@, cur + 1, TokKind::RParen)
                && m == nn - 1))));
        }
        let ((arg, _), p) = piped_expr(toks, cur, &delims)?;
        let ghost arg0 = arg;
        args = match args {
            Some(mut a) => {
                let ghost a0 = a@;
                a.push(arg);
                proof {
                    if a0.len() == 1 {
                        assert(a@ =~= seq![a0[0], arg0]);
                    }
                }
                Some(a)
            },
            None => {
                let v = vec![arg];
                assert(v@ == seq![arg0]);
                Some(v)
            },
        };
        cur = p;
        let k = match peek_kind(toks, cur) {
            Some(k) => k,
            None => return Err(unexpected(toks, cur)),
        };
        if k == TokKind::Comma {
            cur = cur + 1;
        }
        proof {
            if general {
                assert(args matches Some(a) && a@ =~= simple_args(toks@, pos as int, m + 1));
                m = m + 1;
            }
        }
    }
    let rspan = consume(toks, cur, TokKind::RParen)?;
    let span = Span::new(lspan.start, rspan.end);
    proof {
        if general {
            if m < nn {
                assert(simple_operand(toks@, arg_pos(pos as int, m)) is Some);
            }
            assert(m == nn);
        }
        assert forall|n: int| #[trigger] simple_args_at(toks@, pos as int, n) implies n == nn by {
            lemma_simple_args_unique(toks@, pos as int, n, nn);
        }
    }
    Ok(((args, span), cur + 1))
}

/// Parses the rest of a module path (`base::a::b`) and, if a call follows, the call.
pub fn expr_module_path(toks: &Vec<SpannedToken>, pos: usize, base: Ident, base_span: Span) -> (r: ParseErr<((Expr, Span), usize)>)
    requires
        pos <= toks.len(),
    ensures
        moved(r, pos as int, toks.len() as int),
        r matches Ok((e, p)) ==> (e.0 is FnCall || e.0 is ModAccess),
        !at(toks@, pos as int, TokKind::ColonColon) && !at(toks@, pos as int, TokKind::LParen) ==> (r matches Ok(
            ((Expr::ModAccess(mp), sp), p),
        ) && mp.0@ == seq![base] && sp == base_span && p == pos),
        ident_at(toks@, pos + 1) matches Some(n) ==> (at(toks@, pos as int, TokKind::ColonColon) && !at(
            toks@,
            pos + 2,
            TokKind::ColonColon,
        ) && !at(toks@, pos + 2, TokKind::LParen) ==> (r matches Ok(((Expr::ModAccess(mp), sp), p))
            && mp.0@ == seq![base, n] && sp == Span { start: base_span.start, end: toks@[pos + 1].span.end }
            && p == pos + 2)),
    decreases toks.len() - pos, 1nat,
{
    let ghost base0 = base;
    let mut path: Vec<Ident> = vec![base];
    let mut end = base_span;
    let mut cur = pos;
    assert(path@ == seq![base0]);
    while cur < toks.len() && next_is(toks, cur, TokKind::ColonColon)
        invariant
            pos <= cur <= toks.len(),
            path@.len() >= 1,
            path@[0] == base0,
            cur == pos + 2 * (path@.len() - 1),
            cur == pos ==> end == base_span,
            cur > pos ==> end == toks@[cur - 1].span && at(toks@, pos as int, TokKind::ColonColon),
            path@.len() >= 2 ==> at(toks@, pos as int, TokKind::ColonColon) && ident_at(toks@, pos + 1) == Some(path@[1]),
            path@.len() >= 3 ==> at(toks@, pos + 2, TokKind::ColonColon),
        decreases toks.len() - cur,
    {
        let _c = consume(toks, cur, TokKind::ColonColon)?;
        let (ident, ispan) = consume_ident(toks, cur + 1)?;
        end = ispan;
        let ghost before = path@;
        path.push(ident);
        cur = cur + 2;
        proof {
            if before.len() >= 2 {
                assert(path@[1] == before[1]);
            }
        }
    }
    proof {
        if path@.len() == 2 {
            assert(path@ =~= seq![base0, path@[1]]);
        }
        if path@.len() == 1 {
            assert(path@ =~= seq![base0]);
        }
    }
    if cur < toks.len() && next_is(toks, cur, TokKind::LParen) {
        let ((args, args_span), p) = fn_args(toks, cur)?;
        let span = Span::combine(base_span, args_span);
        let fn_call = FnCall { path: ModulePath(path), args };
        Ok(((Expr::FnCall(fn_call), span), p))
    } else {
        let span = Span::new(base_span.start, end.end);
        Ok(((Expr::ModAccess(ModulePath(path)), span), cur))
    }
}

/// The tokens at `pos` spell `name: e` for a name and an expression of a single
/// token, and no operator follows.
pub open spec fn field_init_at(toks: Seq<SpannedToken>, pos: int) -> Option<(Ident, Expr)> {
    match (ident_at(toks, pos), simple_operand(toks, pos + 2)) {
        (Some(x), Some(e)) => if at(toks, pos + 1, TokKind::Colon) && !op_at(toks, pos + 3) {
            Some((x, e))
        } else {
            None
        },
        _ => None,
    }
}

/// Parses `init Path { field: expr, ... }`.
fn struct_init(toks: &Vec<SpannedToken>, pos: usize) -> (r: ParseErr<((Expr, Span), usize)>)
    requires
        pos <= toks.len(),
    ensures
        advanced(r, pos as int, toks.len() as int),
        r matches Ok((e, p)) ==> e.0 is StructInit && at(toks@, pos as int, TokKind::Init),
        ident_at(toks@, pos + 1) matches Some(n) ==> (at(toks@, pos as int, TokKind::Init) && at(toks@, pos + 2, TokKind::LBrace)
            && at(toks@, pos + 3, TokKind::RBrace) ==> (r matches Ok(((Expr::StructInit(si), _), p))
            && si.struct_name.0@ == seq![n] && si.field_init is None && p == pos + 4)),
        ident_at(toks@, pos + 1) matches Some(n) ==> (field_init_at(toks@, pos + 3) matches Some((x, e)) ==> (at(
            toks@,
            pos as int,
            TokKind::Init,
        ) && at(toks@, pos + 2, TokKind::LBrace) && at(toks@, pos + 6, TokKind::RBrace) ==> (r matches Ok(
            ((Expr::StructInit(si), _), p),
        ) && si.struct_name.0@ == seq![n] && p == pos + 7 && (si.field_init matches Some(l) && l@.len() == 1
            && l@[0].0 == x && *l@[0].1 == e)))),
    decreases toks.len() - pos, 0nat,
{
    let linit = consume(toks, pos, TokKind::Init)?;
    let ((path, _), p) = module_binding(toks, pos + 1)?;
    let _lbrace = consume(toks, p, TokKind::LBrace)?;
    let mut cur = p + 1;
    let k = match peek_kind(toks, cur) {
        Some(k) => k,
        None => return Err(unexpected(toks, cur)),
    };
    let mut init = None;
    if k != TokKind::RBrace {
        let (list, p2) = struct_field_init_list(toks, cur)?;
        init = Some(list);
        cur = p2;
    }
    let rspan = consume(toks, cur, TokKind::RBrace)?;
    let span = Span::new(linit.start, rspan.end);
    let struct_init = StructInit { struct_name: path, field_init: init };
    Ok(((Expr::StructInit(struct_init), span), cur + 1))
}

fn struct_field_init_list(toks: &Vec<SpannedToken>, pos: usize) -> (r: ParseErr<(Vec<(Ident, Box<Expr>)>, usize)>)
    requires
        pos <= toks.len(),
    ensures
        advanced(r, pos as int, toks.len() as int),
        r matches Ok((list, _)) ==> list.len() >= 1,
        field_init_at(toks@, pos as int) matches Some((x, e)) ==> (!at(toks@, pos + 3, TokKind::Comma) ==> (r matches Ok(
            (list, p),
        ) && list@.len() == 1 && list@[0].0 == x && *list@[0].1 == e && p == pos + 3)),
    decreases toks.len() - pos, 1nat,
{
    let (first, p) = struct_field_init(toks, pos)?;
    let ghost first0 = first;
    let mut list = vec![first];
    let mut cur = p;
    assert(list@ == seq![first0]);
    while cur < toks.len()
        invariant
            pos < cur <= toks.len(),
            list.len() >= 1,
            p <= cur,
            cur == p ==> list@ == seq![first0],
            (field_init_at(toks@, pos as int) is Some && !at(toks@, pos + 3, TokKind::Comma)) ==> cur == p,
            field_init_at(toks@, pos as int) is Some ==> p == pos + 3,
        decreases toks.len() - cur,
    {
        if next_is(toks, cur, TokKind::Comma) {
            cur = cur + 1;
            if cur < toks.len() && !next_is(toks, cur, TokKind::RBrace) {
                let (item, p2) = struct_field_init(toks, cur)?;
                list.push(item);
                cur = p2;
                continue;
            }
        }
        break;
    }
    Ok((list, cur))
}

fn struct_field_init(toks: &Vec<SpannedToken>, pos: usize) -> (r: ParseErr<((Ident, Box<Expr>), usize)>)
    requires
        pos <= toks.len(),
    ensures
        advanced(r, pos as int, toks.len() as int),
        r matches Ok(((name, _), _)) ==> ident_at(toks@, pos as int) == Some(name),
        field_init_at(toks@, pos as int) matches Some((x, e)) ==> (r matches Ok(((n, b), p)) && n == x && *b == e
            && p == pos + 3),
    decreases toks.len() - pos, 0nat,
{
    let (ident, _iloc) = consume_ident(toks, pos)?;
    let _colon = consume(toks, pos + 1, TokKind::Colon)?;
    let (field_init, p) = parse_primary(toks, pos + 2)?;
    let delims = vec![Delimiter::Comma, Delimiter::RParen];
    let ((e, _), p2) = expr(toks, p, field_init, &delims, 0)?;
    Ok(((ident, Box::new(e)), p2))
}

/// Parses `[e1, e2, ...]` or `[e; n]`.
fn array_init(toks: &Vec<SpannedToken>, pos: usize) -> (r: ParseErr<((Expr, Span), usize)>)
    requires
        pos <= toks.len(),
    ensures
        advanced(r, pos as int, toks.len() as int),
        r matches Ok((e, p)) ==> e.0 is ArrayInit,
        r matches Ok(((Expr::ArrayInit(ArrayInit::Value(_, n)), _), _)) ==> n > 0,
        simple_operand(toks@, pos + 1) matches Some(e) ==> (at(toks@, pos as int, TokKind::LBracket) && at(
            toks@,
            pos + 2,
            TokKind::RBracket,
        ) ==> (r matches Ok(((Expr::ArrayInit(ArrayInit::InitList(l)), sp), p)) && l@ == seq![e] && sp
            == Span { start: toks@[pos as int].span.start, end: toks@[pos + 2].span.end } && p == pos + 3)),
        !at(toks@, pos as int, TokKind::LBracket) ==> r == Err::<((Expr, Span), usize), ParserError>(error_at(toks@, pos as int)),
    decreases toks.len() - pos, 0nat,
{
    let lloc = consume(toks, pos, TokKind::LBracket)?;
    let (base0, p1) = parse_primary(toks, pos + 1)?;
    let delims = vec![Delimiter::Comma, Delimiter::RBracket];
    let ((base_expr, _), p2) = expr(toks, p1, base0, &delims, 0)?;
    let mut cur = p2;
    if cur >= toks.len() {
        return Err(unexpected(toks, cur));
    }
    let init = match &toks[cur].token {
        Token::Comma => {
            let (mut list, p3) = array_init_list(toks, cur)?;
            list.insert(0, base_expr);
            cur = p3;
            ArrayInit::InitList(list)
        },
        Token::Semi => {
            let (number, _) = consume_int(toks, cur + 1)?;
            if number <= 0 {
                return Err(ParserError { kind: ParserErrorKind::InvalidArraySize(number), pos: cur + 1 });
            }
            cur = cur + 2;
            ArrayInit::Value(Box::new(base_expr), number as u64)
        },
        Token::RBracket => ArrayInit::InitList(vec![base_expr]),
        _ => return Err(unexpected(toks, cur)),
    };
    let rloc = consume(toks, cur, TokKind::RBracket)?;
    let span = Span::new(lloc.start, rloc.end);
    Ok(((Expr::ArrayInit(init), span), cur + 1))
}

/// Parses the `, e` items that follow the first element of an array initializer.
fn array_init_list(toks: &Vec<SpannedToken>, pos: usize) -> (r: ParseErr<(Vec<Expr>, usize)>)
    requires
        pos <= toks.len(),
    ensures
        moved(r, pos as int, toks.len() as int),
        !at(toks@, pos as int, TokKind::Comma) ==> (r matches Ok((l, p)) && l@.len() == 0 && p == pos),
        simple_operand(toks@, pos + 1) matches Some(e) ==> (at(toks@, pos as int, TokKind::Comma) && !op_at(toks@, pos + 2)
            && !at(toks@, pos + 2, TokKind::Comma) ==> (r matches Ok((l, p)) && l@ == seq![e] && p == pos + 2)),
    decreases toks.len() - pos, 0nat,
{
    let mut list: Vec<Expr> = Vec::new();
    let mut cur = pos;
    let delims = vec![Delimiter::Comma, Delimiter::RBracket];
    while cur < toks.len()
        invariant
            pos <= cur <= toks.len(),
            cur == pos ==> list@.len() == 0,
            !at(toks@, pos as int, TokKind::Comma) ==> cur == pos,
            (simple_operand(toks@, pos + 1) is Some && at(toks@, pos as int, TokKind::Comma) && !op_at(toks@, pos + 2)
                && !at(toks@, pos + 2, TokKind::Comma)) ==> (cur == pos || (cur == pos + 2 && list@ == seq![
                simple_operand(toks@, pos + 1)->0,
            ])),
        ensures
            pos <= cur <= toks.len(),
            !at(toks@, pos as int, TokKind::Comma) ==> cur == pos && list@.len() == 0,
            (simple_operand(toks@, pos + 1) is Some && at(toks@, pos as int, TokKind::Comma) && !op_at(toks@, pos + 2)
                && !at(toks@, pos + 2, TokKind::Comma)) ==> (cur == pos + 2 && list@ == seq![
                simple_operand(toks@, pos + 1)->0,
            ]),
        decreases toks.len() - cur,
    {
        if next_is(toks, cur, TokKind::Comma) {
            cur = cur + 1;
            if cur < toks.len() && !next_is(toks, cur, TokKind::RBracket) {
                let (data, p) = parse_primary(toks, cur)?;
                let ((e, _), p2) = expr(toks, p, data, &delims, 0)?;
                list.push(e);
                cur = p2;
                continue;
            }
        }
        break;
    }
    Ok((list, cur))
}

/// Parses `fn (params) -> type { body }`.
fn anonymous_fn(toks: &Vec<SpannedToken>, pos: usize) -> (r: ParseErr<((Expr, Span), usize)>)
    requires
        pos <= toks.len(),
    ensures
        advanced(r, pos as int, toks.len() as int),
        r matches Ok((e, p)) ==> e.0 is AnonymousFn,
        at(toks@, pos as int, TokKind::Fn) && at(toks@, pos + 1, TokKind::LParen) && at(toks@, pos + 2, TokKind::RParen)
            && at(toks@, pos + 3, TokKind::LBrace) && at(toks@, pos + 4, TokKind::RBrace) ==> (r matches Ok(
            ((Expr::AnonymousFn(f), _), p),
        ) && f.params is None && f.return_type is None && f.body.0@.len() == 0 && p == pos + 5),
        !at(toks@, pos as int, TokKind::Fn) ==> r == Err::<((Expr, Span), usize), ParserError>(error_at(toks@, pos as int)),
    decreases toks.len() - pos, 0nat,
{
    let fnloc = consume(toks, pos, TokKind::Fn)?;
    let _lparen = consume(toks, pos + 1, TokKind::LParen)?;
    let mut cur = pos + 2;
    let k = match peek_kind(toks, cur) {
        Some(k) => k,
        None => return Err(unexpected(toks, cur)),
    };
    let mut params = None;
    if k != TokKind::RParen {
        let (list, p) = fn_param_list(toks, cur)?;
        params = Some(list);
        cur = p;
    }
    let _rparen = consume(toks, cur, TokKind::RParen)?;
    cur = cur + 1;
    let k2 = match peek_kind(toks, cur) {
        Some(k2) => k2,
        None => return Err(unexpected(toks, cur)),
    };
    let mut return_type = None;
    if k2 == TokKind::Arrow {
        let ((ann, _), p) = type_annotation(toks, cur + 1)?;
        return_type = Some(ann);
        cur = p;
    }
    let ((body, body_span), p) = block(toks, cur)?;
    let span = Span::combine(fnloc, body_span);
    let anon = AnonymousFn { params, return_type, body };
    Ok(((Expr::AnonymousFn(anon), span), p))
}

} // verus!
