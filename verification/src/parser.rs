//! The declaration, type annotation and statement parser.

use vstd::prelude::*;

use crate::ast::{Ident, ModulePath, FnCall, PathSegment, Path, Indexing, Expr, TypeAnnotation, FnParameter, LocalVarDecl, Assignment, Branch, If, While, ExprStmt, Stmt, Block, Annotation, UseDecl, BuiltinFnParams, Function, BuiltinFunction, StructField, StructBody, Struct, DeclStmt, Module};
use crate::expr_parser::{Delimiter, ParseErr, advanced, moved, op_at, simple_operand, one_operation, bin, spec_get_op, piped_expr, prebase_piped_expr, access_path, fn_args, expr_module_path};
use crate::parse_base::{TokKind, at, kind_at, kind_of, int_at, string_at, ParserErrorKind, ParserError, unexpected, peek_kind, next_is, consume, ident_at, consume_ident, consume_int, consume_string};
use crate::span::Span;
use crate::tokens::{SpannedToken, Token};

verus! {

/// Parses a whole module: an optional `mod name;` followed by declarations.
pub fn module(toks: &Vec<SpannedToken>) -> (r: ParseErr<Module>)
    ensures
        r matches Ok(m) ==> (m.0 is Some <==> at(toks@, 0, TokKind::Mod)),
        r matches Ok(m) ==> (m.0 matches Some(n) ==> ident_at(toks@, 1) == Some(n) && at(toks@, 2, TokKind::Semi)),
        toks@.len() == 0 ==> r is Err,
        ident_at(toks@, 1) matches Some(n) ==> (toks@.len() == 3 && at(toks@, 0, TokKind::Mod) && at(toks@, 2, TokKind::Semi)
            ==> (r matches Ok(m) && m.0 == Some(n) && m.1@.len() == 0)),
        ident_at(toks@, 1) matches Some(n) ==> (toks@.len() == 3 && at(toks@, 0, TokKind::Use) && at(toks@, 2, TokKind::Semi)
            ==> (r matches Ok(m) && m.0 is None && m.1@.len() == 1 && (m.1@[0] matches DeclStmt::Use(u, _) && u.0 == n))),
{
    let mut cur: usize = 0;
    let k = match peek_kind(toks, cur) {
        Some(k) => k,
        None => return Err(unexpected(toks, cur)),
    };
    let mut name = None;
    if k == TokKind::Mod {
        let ((ident, _), p) = module_decl(toks, cur)?;
        name = Some(ident);
        cur = p;
    }
    let mut decls: Vec<DeclStmt> = Vec::new();
    let mut anno: Vec<Annotation> = Vec::new();
    while cur < toks.len()
        invariant
            cur <= toks.len(),
            name is Some ==> cur >= 3 && name == ident_at(toks@, 1),
            toks@.len() == 3 && name is Some ==> decls@.len() == 0,
            (toks@.len() == 3 && at(toks@, 0, TokKind::Mod) && ident_at(toks@, 1) is Some && at(toks@, 2, TokKind::Semi))
                ==> name is Some,
            (toks@.len() == 3 && at(toks@, 0, TokKind::Use) && ident_at(toks@, 1) is Some && at(toks@, 2, TokKind::Semi))
                ==> name is None && ((cur == 0 && decls@.len() == 0) || (cur == 3 && decls@.len() == 1 && (decls@[0] matches DeclStmt::Use(
                u,
                _,
            ) && u.0 == ident_at(toks@, 1)->0))),
        decreases toks.len() - cur,
    {
        match &toks[cur].token {
            Token::Struct => {
                let ((s, span), p) = struct_decl(toks, cur, anno)?;
                decls.push(DeclStmt::Struct(s, span));
                anno = Vec::new();
                cur = p;
            },
            Token::Pound => {
                let (a, p) = annotations(toks, cur)?;
                anno = a;
                cur = p;
            },
            Token::Fn => {
                let (d, p) = fn_decl(toks, cur, anno, false)?;
                decls.push(d);
                anno = Vec::new();
                cur = p;
            },
            Token::Builtin => {
                let (d, p) = fn_decl(toks, cur, anno, true)?;
                decls.push(d);
                anno = Vec::new();
                cur = p;
            },
            Token::Use => {
                let (d, p) = use_decl(toks, cur)?;
                decls.push(d);
                anno = Vec::new();
                cur = p;
            },
            _ => return Err(unexpected(toks, cur)),
        }
    }
    Ok(Module(name, decls))
}

/// Parses one or more `#[key = "value", ...]` annotations.
#[verifier::loop_isolation(false)]
fn annotations(toks: &Vec<SpannedToken>, pos: usize) -> (r: ParseErr<(Vec<Annotation>, usize)>)
    requires
        pos <= toks.len(),
    ensures
        moved(r, pos as int, toks.len() as int),
        r matches Ok((_, p)) ==> (p == pos ==> !at(toks@, pos as int, TokKind::Pound)),
        !at(toks@, pos as int, TokKind::Pound) ==> (r matches Ok((l, p)) && l@.len() == 0 && p == pos),
        ident_at(toks@, pos + 2) matches Some(key) ==> (at(toks@, pos as int, TokKind::Pound) && at(toks@, pos + 1, TokKind::LBracket)
            && at(toks@, pos + 3, TokKind::RBracket) && !at(toks@, pos + 4, TokKind::Pound) ==> (r matches Ok((l, p))
            && l@.len() == 1 && l@[0].keys@ == seq![(key, None::<String>)] && p == pos + 4)),
{
    let mut list: Vec<Annotation> = Vec::new();
    let mut cur = pos;
    while cur < toks.len() && next_is(toks, cur, TokKind::Pound)
        invariant
            pos <= cur <= toks.len(),
            cur == pos ==> list@.len() == 0,
            cur > pos ==> at(toks@, pos as int, TokKind::Pound),
            (ident_at(toks@, pos + 2) is Some && at(toks@, pos + 1, TokKind::LBracket) && at(toks@, pos + 3, TokKind::RBracket)
                && !at(toks@, pos + 4, TokKind::Pound)) ==> (cur == pos || (cur == pos + 4 && list@.len() == 1 && list@[0].keys@ == seq![
                (ident_at(toks@, pos + 2)->0, None::<String>),
            ])),
        decreases toks.len() - cur,
    {
        let _pound = consume(toks, cur, TokKind::Pound)?;
        let _lbracket = consume(toks, cur + 1, TokKind::LBracket)?;
        let (keys, p) = kv_list(toks, cur + 2)?;
        let _rbracket = consume(toks, p, TokKind::RBracket)?;
        list.push(Annotation { keys });
        cur = p + 1;
    }
    Ok((list, cur))
}

fn kv_list(toks: &Vec<SpannedToken>, pos: usize) -> (r: ParseErr<(Vec<(Ident, Option<String>)>, usize)>)
    requires
        pos <= toks.len(),
    ensures
        advanced(r, pos as int, toks.len() as int),
        ident_at(toks@, pos as int) matches Some(key) ==> (kind_at(toks@, pos + 1) is Some && !at(toks@, pos + 1, TokKind::Assign)
            && !at(toks@, pos + 1, TokKind::Comma) ==> (r matches Ok((l, p)) && l@ == seq![(key, None::<String>)] && p == pos + 1)),
{
    let (first, p) = kv_pair(toks, pos)?;
    let ghost first0 = first;
    let mut list = vec![first];
    let mut cur = p;
    assert(list@ == seq![first0]);
    while cur < toks.len()
        invariant
            pos < cur <= toks.len(),
            p <= cur,
            cur == p ==> list@ == seq![first0],
            (p == pos + 1 && !at(toks@, pos + 1, TokKind::Comma)) ==> cur == p,
            (ident_at(toks@, pos as int) is Some && kind_at(toks@, pos + 1) is Some && !at(toks@, pos + 1, TokKind::Assign))
                ==> p == pos + 1 && first0 == (ident_at(toks@, pos as int)->0, None::<String>),
        decreases toks.len() - cur,
    {
        if next_is(toks, cur, TokKind::Comma) {
            cur = cur + 1;
            if cur < toks.len() && !next_is(toks, cur, TokKind::RBracket) {
                let (item, p2) = kv_pair(toks, cur)?;
                list.push(item);
                cur = p2;
                continue;
            }
        }
        break;
    }
    Ok((list, cur))
}

fn kv_pair(toks: &Vec<SpannedToken>, pos: usize) -> (r: ParseErr<((Ident, Option<String>), usize)>)
    requires
        pos <= toks.len(),
    ensures
        advanced(r, pos as int, toks.len() as int),
        r matches Ok(((key, value), p)) ==> ident_at(toks@, pos as int) == Some(key) && (value is Some
            <==> at(toks@, pos + 1, TokKind::Assign)),
        r is Ok <==> (ident_at(toks@, pos as int) is Some && kind_at(toks@, pos + 1) is Some && (at(toks@, pos + 1, TokKind::Assign)
            ==> string_at(toks@, pos + 2) is Some)),
        ident_at(toks@, pos as int) matches Some(key) ==> (kind_at(toks@, pos + 1) is Some && !at(toks@, pos + 1, TokKind::Assign)
            ==> r == Ok::<((Ident, Option<String>), usize), ParserError>(((key, None), (pos + 1) as usize))),
        ident_at(toks@, pos as int) matches Some(key) ==> (string_at(toks@, pos + 2) matches Some(v) ==> (at(
            toks@,
            pos + 1,
            TokKind::Assign,
        ) ==> r == Ok::<((Ident, Option<String>), usize), ParserError>(((key, Some(v)), (pos + 3) as usize)))),
{
    let (ident, _) = consume_ident(toks, pos)?;
    let k = match peek_kind(toks, pos + 1) {
        Some(k) => k,
        None => return Err(unexpected(toks, pos + 1)),
    };
    if k == TokKind::Assign {
        let (v, _) = consume_string(toks, pos + 2)?;
        Ok(((ident, Some(v)), pos + 3))
    } else {
        Ok(((ident, None), pos + 1))
    }
}

/// Parses `use name;`.
fn use_decl(toks: &Vec<SpannedToken>, pos: usize) -> (r: ParseErr<(DeclStmt, usize)>)
    requires
        pos <= toks.len(),
    ensures
        r matches Ok((d, p)) ==> (p == pos + 3 && (d matches DeclStmt::Use(u, _) && ident_at(
            toks@,
            pos + 1,
        ) == Some(u.0))),
        r is Ok <==> (at(toks@, pos as int, TokKind::Use) && ident_at(toks@, pos + 1) is Some && at(
            toks@,
            pos + 2,
            TokKind::Semi,
        )),
{
    let uspan = consume(toks, pos, TokKind::Use)?;
    let (module, mspan) = consume_ident(toks, pos + 1)?;
    let _semi = consume(toks, pos + 2, TokKind::Semi)?;
    let span = Span::new(uspan.start, mspan.end);
    Ok((DeclStmt::Use(UseDecl(module), span), pos + 3))
}

/// The tokens at `pos` spell the head of a function declaration,
/// `fn name(params) -> ret`: `params` as `(name, type)` pairs, `None` for `()`,
/// and no `->` when `ret` is `None`. The position after it, where the body must
/// start.
pub open spec fn fn_head_end(
    toks: Seq<SpannedToken>,
    pos: int,
    name: Ident,
    params: Option<Seq<(Ident, TypeAnnotation)>>,
    ret: Option<TypeAnnotation>,
) -> Option<int> {
    if at(toks, pos, TokKind::Fn) && ident_at(toks, pos + 1) == Some(name) && at(toks, pos + 2, TokKind::LParen) {
        let close = match params {
            None => if at(toks, pos + 3, TokKind::RParen) {
                Some(pos + 3)
            } else {
                None
            },
            Some(ps) => if kind_at(toks, pos + 3) is Some && !at(toks, pos + 3, TokKind::RParen) && !at(
                toks,
                pos + 3,
                TokKind::Unchecked,
            ) {
                named_list_close(toks, pos + 3, ps, TokKind::RParen)
            } else {
                None
            },
        };
        match close {
            Some(c) => if at(toks, c, TokKind::RParen) && kind_at(toks, c + 1) is Some {
                match ret {
                    Some(a) => if at(toks, c + 1, TokKind::Arrow) {
                        ann_end(toks, c + 2, a)
                    } else {
                        None
                    },
                    None => if !at(toks, c + 1, TokKind::Arrow) {
                        Some(c + 1)
                    } else {
                        None
                    },
                }
            } else {
                None
            },
            None => None,
        }
    } else {
        None
    }
}

/// The parameters of a function as `(name, type)` pairs.
pub open spec fn opt_param_pairs(ps: Option<Vec<FnParameter>>) -> Option<Seq<(Ident, TypeAnnotation)>> {
    match ps {
        Some(v) => Some(param_pairs(v@)),
        None => None,
    }
}

/// Parses a function declaration without annotations.
pub fn testfn_decl(toks: &Vec<SpannedToken>, pos: usize) -> (r: ParseErr<(Function, usize)>)
    requires
        pos <= toks.len(),
    ensures
        advanced(r, pos as int, toks.len() as int),
        r matches Ok((f, _)) ==> ident_at(toks@, pos + 1) == Some(f.name),
        r matches Ok((f, p)) ==> (fn_head_end(toks@, pos as int, f.name, opt_param_pairs(f.params), f.return_type)
            matches Some(b) && at(toks@, b, TokKind::LBrace) && b < p && at(toks@, p - 1, TokKind::RBrace)),
        r matches Ok((f, _)) ==> f.annotations@.len() == 0,
        ident_at(toks@, pos + 1) matches Some(n) ==> (at(toks@, pos as int, TokKind::Fn) && at(toks@, pos + 2, TokKind::LParen)
            && at(toks@, pos + 3, TokKind::RParen) && at(toks@, pos + 4, TokKind::LBrace) && at(toks@, pos + 5, TokKind::RBrace)
            ==> (r matches Ok((f, p)) && f.name == n && f.params is None && f.return_type is None && f.body.0@.len() == 0
            && p == pos + 6)),
{
    let (decl, p) = fn_decl(toks, pos, Vec::new(), false)?;
    match decl {
        DeclStmt::Function(f, _) => Ok((f, p)),
        _ => Err(unexpected(toks, pos)),
    }
}

/// Parses `fn name(params) -> type { body }`, or, for a builtin,
/// `builtin fn name(params) -> type;` where the parameters may be `UNCHECKED`.
#[verifier::rlimit(40)]
#[verifier::spinoff_prover]
fn fn_decl(toks: &Vec<SpannedToken>, pos: usize, annotations: Vec<Annotation>, is_builtin: bool) -> (r: ParseErr<(DeclStmt, usize)>)
    requires
        pos <= toks.len(),
    ensures
        advanced(r, pos as int, toks.len() as int),
        r matches Ok((d, _)) ==> (is_builtin <==> d is BuiltinFunction),
        r matches Ok((DeclStmt::Function(f, _), _)) ==> ident_at(toks@, pos + 1) == Some(f.name),
        r matches Ok((DeclStmt::BuiltinFunction(f, _), _)) ==> ident_at(toks@, pos + 2) == Some(f.name),
        r matches Ok((DeclStmt::Function(f, _), p)) ==> (fn_head_end(
            toks@,
            pos as int,
            f.name,
            opt_param_pairs(f.params),
            f.return_type,
        ) matches Some(b) && at(toks@, b, TokKind::LBrace) && b < p && at(toks@, p - 1, TokKind::RBrace)),
        r matches Ok((DeclStmt::Function(f, _), _)) ==> f.annotations == annotations,
        r matches Ok((DeclStmt::BuiltinFunction(f, _), _)) ==> f.annotations == annotations,
        ident_at(toks@, pos + 1) matches Some(n) ==> (!is_builtin && at(toks@, pos as int, TokKind::Fn) && at(toks@, pos + 2, TokKind::LParen)
            && at(toks@, pos + 3, TokKind::RParen) && at(toks@, pos + 4, TokKind::LBrace) && at(toks@, pos + 5, TokKind::RBrace)
            ==> (r matches Ok((DeclStmt::Function(f, _), p)) && f.name == n && f.params is None && f.return_type is None
            && f.body.0@.len() == 0 && p == pos + 6)),
        ident_at(toks@, pos + 2) matches Some(n) ==> (is_builtin && at(toks@, pos as int, TokKind::Builtin) && at(toks@, pos + 1, TokKind::Fn)
            && at(toks@, pos + 3, TokKind::LParen) && at(toks@, pos + 4, TokKind::RParen) && at(toks@, pos + 5, TokKind::Semi)
            ==> (r matches Ok((DeclStmt::BuiltinFunction(f, _), p)) && f.name == n && f.return_type is None && p == pos + 6
            && (f.params matches BuiltinFnParams::Checked(None)))),
        ident_at(toks@, pos + 2) matches Some(n) ==> (is_builtin && at(toks@, pos as int, TokKind::Builtin) && at(toks@, pos + 1, TokKind::Fn)
            && at(toks@, pos + 3, TokKind::LParen) && at(toks@, pos + 4, TokKind::Unchecked) && at(toks@, pos + 5, TokKind::RParen)
            && at(toks@, pos + 6, TokKind::Semi) ==> (r matches Ok((DeclStmt::BuiltinFunction(f, _), p)) && f.name == n
            && f.return_type is None && p == pos + 7 && (f.params is Unchecked))),
        !is_builtin && at(toks@, pos + 3, TokKind::Unchecked) ==> r is Err,
        !is_builtin && at(toks@, pos as int, TokKind::Fn) && ident_at(toks@, pos + 1) is Some && at(toks@, pos + 2, TokKind::LParen)
            && at(toks@, pos + 3, TokKind::Unchecked) && at(toks@, pos + 4, TokKind::RParen) && at(toks@, pos + 5, TokKind::LBrace)
            && at(toks@, pos + 6, TokKind::RBrace) ==> (r matches Err(e) && e.kind == ParserErrorKind::NonbuiltinUncheckedParameters),
        ident_at(toks@, pos + 2) matches Some(n) ==> (is_builtin && at(toks@, pos as int, TokKind::Builtin) && at(toks@, pos + 1, TokKind::Fn)
            && at(toks@, pos + 3, TokKind::LParen) && at(toks@, pos + 4, TokKind::Unchecked) && at(toks@, pos + 5, TokKind::RParen)
            && at(toks@, pos + 6, TokKind::Arrow) ==> forall|a: TypeAnnotation| #[trigger] ann_end(toks@, pos + 7, a) matches Some(m)
            ==> (at(toks@, m, TokKind::Semi) ==> (r matches Ok((DeclStmt::BuiltinFunction(f, _), p)) && f.name == n
            && f.params is Unchecked && (f.return_type matches Some(ra) && ann_end(toks@, pos + 7, ra) == Some(m)) && p == m + 1))),
{
    let mut cur = pos;
    let mut span = Span::dummy();
    if is_builtin {
        let bloc = consume(toks, cur, TokKind::Builtin)?;
        span = bloc;
        cur = cur + 1;
    }
    let fnloc = consume(toks, cur, TokKind::Fn)?;
    if !is_builtin {
        span = fnloc;
    }
    let ghost name_pos = cur + 1;
    let (ident, _idloc) = consume_ident(toks, cur + 1)?;
    let _lparen = consume(toks, cur + 2, TokKind::LParen)?;
    cur = cur + 3;
    let k = match peek_kind(toks, cur) {
        Some(k) => k,
        None => return Err(unexpected(toks, cur)),
    };
    let params = if k == TokKind::Unchecked {
        cur = cur + 1;
        BuiltinFnParams::Unchecked
    } else if k != TokKind::RParen {
        let (list, p) = fn_param_list(toks, cur)?;
        cur = p;
        BuiltinFnParams::Checked(Some(list))
    } else {
        BuiltinFnParams::Checked(None)
    };
    let rloc = consume(toks, cur, TokKind::RParen)?;
    span = Span::combine(span, rloc);
    cur = cur + 1;
    let k2 = match peek_kind(toks, cur) {
        Some(k2) => k2,
        None => return Err(unexpected(toks, cur)),
    };
    let mut return_type = None;
    if k2 == TokKind::Arrow {
        let ((ann, _), p) = type_annotation(toks, cur + 1)?;
        proof {
            assert forall|a: TypeAnnotation| #[trigger] ann_end(toks@, cur + 1, a) is Some implies ann_end(toks@, cur + 1, a) == Some(
                p as int,
            ) by {
                lemma_ann_end_unique(toks@, cur + 1, ann, a);
            }
        }
        return_type = Some(ann);
        cur = p;
    }
    if is_builtin {
        let semiloc = consume(toks, cur, TokKind::Semi)?;
        span = Span::combine(span, semiloc);
        let f = BuiltinFunction { name: ident, params, return_type, annotations };
        Ok((DeclStmt::BuiltinFunction(f, span), cur + 1))
    } else {
        let ((body, _), p) = block(toks, cur)?;
        let params = match params {
            BuiltinFnParams::Unchecked => {
                return Err(
                    ParserError { kind: ParserErrorKind::NonbuiltinUncheckedParameters, pos: cur },
                );
            },
            BuiltinFnParams::Checked(p) => p,
        };
        let f = Function { name: ident, params, return_type, body, annotations };
        Ok((DeclStmt::Function(f, span), p))
    }
}

/// Parses a comma-separated list of `name: type` parameters.
#[verifier::rlimit(40)]
#[verifier::spinoff_prover]
pub fn fn_param_list(toks: &Vec<SpannedToken>, pos: usize) -> (r: ParseErr<(Vec<FnParameter>, usize)>)
    requires
        pos <= toks.len(),
    ensures
        advanced(r, pos as int, toks.len() as int),
        r matches Ok((list, _)) ==> list.len() >= 1,
        r matches Ok((list, p)) ==> named_list_close(toks@, pos as int, param_pairs(list@), TokKind::RParen) == Some(p as int),
        (exists|items: Seq<(Ident, TypeAnnotation)>| #[trigger] named_list_close(toks@, pos as int, items, TokKind::RParen) is Some)
            ==> r is Ok,
{
    let (first, p) = match fn_param(toks, pos) {
        Ok(x) => x,
        Err(e) => {
            proof {
                assert forall|items: Seq<(Ident, TypeAnnotation)>| !(#[trigger] named_list_close(toks@, pos as int, items, TokKind::RParen) is Some) by {
                    if named_list_close(toks@, pos as int, items, TokKind::RParen) is Some {
                        lemma_named_items_shorter(toks@, pos as int, items, 1, items.len() as int, TokKind::RParen);
                        assert(ann_end(toks@, pos + 2, items[0].1) is Some);
                    }
                }
            }
            return Err(e);
        },
    };
    let mut list = vec![first];
    let mut cur = p;
    proof {
        assert(param_pairs(list@) =~= seq![(first.name, first.param_type)]);
        assert forall|items: Seq<(Ident, TypeAnnotation)>| #[trigger] named_list_close(toks@, pos as int, items, TokKind::RParen) is Some
            implies 1 <= items.len() && named_items_end(toks@, pos as int, items, 1, TokKind::RParen) == Some(p as int) by {
            lemma_named_items_shorter(toks@, pos as int, items, 1, items.len() as int, TokKind::RParen);
            lemma_ann_end_unique(toks@, pos + 2, first.param_type, items[0].1);
        }
    }
    loop
        invariant
            pos < cur <= toks.len(),
            list.len() >= 1,
            named_items_end(toks@, pos as int, param_pairs(list@), list@.len() as int, TokKind::RParen) == Some(cur as int),
            forall|items: Seq<(Ident, TypeAnnotation)>| #[trigger] named_list_close(toks@, pos as int, items, TokKind::RParen) is Some
                ==> list@.len() <= items.len() && named_items_end(toks@, pos as int, items, list@.len() as int, TokKind::RParen)
                    == Some(cur as int),
        decreases toks.len() - cur,
    {
        if !next_is(toks, cur, TokKind::Comma) {
            return Ok((list, cur));
        }
        let after = cur + 1;
        if after < toks.len() && !next_is(toks, after, TokKind::RParen) {
            let ghost k = list@.len() as int;
            let (item, p2) = match fn_param(toks, after) {
                Ok(x) => x,
                Err(e) => {
                    proof {
                        assert forall|items: Seq<(Ident, TypeAnnotation)>| !(#[trigger] named_list_close(toks@, pos as int, items, TokKind::RParen) is Some) by {
                            if named_list_close(toks@, pos as int, items, TokKind::RParen) is Some {
                                if k < items.len() {
                                    lemma_named_items_shorter(toks@, pos as int, items, k + 1, items.len() as int, TokKind::RParen);
                                    assert(ann_end(toks@, after + 2, items[k].1) is Some);
                                }
                            }
                        }
                    }
                    return Err(e);
                },
            };
            let ghost before = list@;
            list.push(item);
            proof {
                assert(param_pairs(list@) =~= param_pairs(before).push((item.name, item.param_type)));
                lemma_named_items_prefix(toks@, pos as int, param_pairs(before), param_pairs(list@), before.len() as int, TokKind::RParen);
                assert forall|items: Seq<(Ident, TypeAnnotation)>| #[trigger] named_list_close(toks@, pos as int, items, TokKind::RParen) is Some
                    implies list@.len() <= items.len() && named_items_end(toks@, pos as int, items, list@.len() as int, TokKind::RParen)
                        == Some(p2 as int) by {
                    if k < items.len() {
                        lemma_named_items_shorter(toks@, pos as int, items, k + 1, items.len() as int, TokKind::RParen);
                        lemma_ann_end_unique(toks@, after + 2, item.param_type, items[k].1);
                    }
                }
            }
            cur = p2;
        } else {
            return Ok((list, after));
        }
    }
}

/// Parses `name: type`.
fn fn_param(toks: &Vec<SpannedToken>, pos: usize) -> (r: ParseErr<(FnParameter, usize)>)
    requires
        pos <= toks.len(),
    ensures
        advanced(r, pos as int, toks.len() as int),
        r matches Ok((param, _)) ==> ident_at(toks@, pos as int) == Some(param.name),
        r matches Ok((param, p)) ==> typed_name_end(toks@, pos as int, param.name, param.param_type) == Some(p as int),
        r is Ok <==> (ident_at(toks@, pos as int) is Some && at(toks@, pos + 1, TokKind::Colon)
            && exists|a: TypeAnnotation| #[trigger] ann_end(toks@, pos + 2, a) is Some),
{
    let (ident, _) = consume_ident(toks, pos)?;
    let _colon = consume(toks, pos + 1, TokKind::Colon)?;
    let ((ann, _), p) = type_annotation(toks, pos + 2)?;
    Ok((FnParameter { name: ident, param_type: ann }, p))
}

/// Parses a struct declaration without annotations.
pub fn teststruct_decl(toks: &Vec<SpannedToken>, pos: usize) -> (r: ParseErr<(Struct, usize)>)
    requires
        pos <= toks.len(),
    ensures
        advanced(r, pos as int, toks.len() as int),
        r matches Ok((s, _)) ==> ident_at(toks@, pos + 1) == Some(s.name),
        r matches Ok((s, p)) ==> struct_end(toks@, pos as int, body_pairs(s.body)) == Some(p as int) && s.annotations@.len()
            == 0,
        r is Ok <==> exists|b: Option<Seq<(Ident, TypeAnnotation)>>| #[trigger] struct_end(toks@, pos as int, b) is Some,
{
    let ((decl, _), p) = struct_decl(toks, pos, Vec::new())?;
    Ok((decl, p))
}

/// The tokens at `pos` spell `struct Name { ... }` with the fields `body` (none
/// for an empty body): the position after it.
pub open spec fn struct_end(toks: Seq<SpannedToken>, pos: int, body: Option<Seq<(Ident, TypeAnnotation)>>) -> Option<int> {
    if at(toks, pos, TokKind::Struct) && ident_at(toks, pos + 1) is Some && at(toks, pos + 2, TokKind::LBrace) {
        match body {
            None => if at(toks, pos + 3, TokKind::RBrace) {
                Some(pos + 4)
            } else {
                None
            },
            Some(fs) => if kind_at(toks, pos + 3) is Some && !at(toks, pos + 3, TokKind::RBrace) {
                match named_list_close(toks, pos + 3, fs, TokKind::RBrace) {
                    Some(c) => if at(toks, c, TokKind::RBrace) {
                        Some(c + 1)
                    } else {
                        None
                    },
                    None => None,
                }
            } else {
                None
            },
        }
    } else {
        None
    }
}

/// The fields of a struct body as `(name, type)` pairs.
pub open spec fn body_pairs(b: StructBody) -> Option<Seq<(Ident, TypeAnnotation)>> {
    match b.0 {
        None => None,
        Some(fs) => Some(field_pairs(fs@)),
    }
}

/// Parses `struct Name { field: type, ... }`.
#[verifier::loop_isolation(false)]
#[verifier::rlimit(40)]
#[verifier::spinoff_prover]
fn struct_decl(toks: &Vec<SpannedToken>, pos: usize, anns: Vec<Annotation>) -> (r: ParseErr<((Struct, Span), usize)>)
    requires
        pos <= toks.len(),
    ensures
        advanced(r, pos as int, toks.len() as int),
        r matches Ok(((s, _), _)) ==> ident_at(toks@, pos + 1) == Some(s.name) && (s.body.0 is None
            <==> at(toks@, pos + 3, TokKind::RBrace)),
        r matches Ok(((s, _), p)) ==> struct_end(toks@, pos as int, body_pairs(s.body)) == Some(p as int) && s.annotations
            == anns,
        r is Ok <==> exists|b: Option<Seq<(Ident, TypeAnnotation)>>| #[trigger] struct_end(toks@, pos as int, b) is Some,
{
    let struct_loc = consume(toks, pos, TokKind::Struct)?;
    let (struct_name, _name_loc) = consume_ident(toks, pos + 1)?;
    let _lbrace = consume(toks, pos + 2, TokKind::LBrace)?;
    let mut cur = pos + 3;
    let k = match peek_kind(toks, cur) {
        Some(k) => k,
        None => return Err(unexpected(toks, cur)),
    };
    let body = if k != TokKind::RBrace {
        let (list, p) = match struct_field_list(toks, cur) {
            Ok(x) => x,
            Err(e) => {
                proof {
                    assert forall|b: Option<Seq<(Ident, TypeAnnotation)>>| !(#[trigger] struct_end(toks@, pos as int, b) is Some) by {
                        if struct_end(toks@, pos as int, b) is Some {
                            if let Some(fs) = b {
                                assert(named_list_close(toks@, pos + 3, fs, TokKind::RBrace) is Some);
                            }
                        }
                    }
                }
                return Err(e);
            },
        };
        proof {
            assert forall|b: Option<Seq<(Ident, TypeAnnotation)>>| #[trigger] struct_end(toks@, pos as int, b) is Some implies (b
                matches Some(fs) && named_list_close(toks@, pos + 3, fs, TokKind::RBrace) == Some(p as int)) by {
                if let Some(fs) = b {
                    lemma_named_list_close_unique(toks@, pos + 3, field_pairs(list@), fs, TokKind::RBrace);
                }
            }
        }
        cur = p;
        StructBody(Some(list))
    } else {
        StructBody(None)
    };
    assert forall|b: Option<Seq<(Ident, TypeAnnotation)>>| #[trigger] struct_end(toks@, pos as int, b) is Some implies match b {
        None => cur == pos + 3,
        Some(fs) => named_list_close(toks@, pos + 3, fs, TokKind::RBrace) == Some(cur as int),
    } by {};
    let rloc = consume(toks, cur, TokKind::RBrace)?;
    let overall_span = Span::new(struct_loc.start, rloc.start);
    let r = Ok(((Struct { name: struct_name, body, annotations: anns }, overall_span), cur + 1));
    proof {
        assert(struct_end(toks@, pos as int, body_pairs(body)) is Some);
    }
    r
}

#[verifier::loop_isolation(false)]
#[verifier::rlimit(40)]
#[verifier::spinoff_prover]
fn struct_field_list(toks: &Vec<SpannedToken>, pos: usize) -> (r: ParseErr<(Vec<StructField>, usize)>)
    requires
        pos <= toks.len(),
    ensures
        advanced(r, pos as int, toks.len() as int),
        r matches Ok((list, _)) ==> list.len() >= 1,
        r matches Ok((list, p)) ==> named_list_close(toks@, pos as int, field_pairs(list@), TokKind::RBrace) == Some(p as int),
        (exists|items: Seq<(Ident, TypeAnnotation)>| #[trigger] named_list_close(toks@, pos as int, items, TokKind::RBrace) is Some)
            ==> r is Ok,
{
    let (first, p) = match struct_field(toks, pos) {
        Ok(x) => x,
        Err(e) => {
            proof {
                assert forall|items: Seq<(Ident, TypeAnnotation)>| !(#[trigger] named_list_close(toks@, pos as int, items, TokKind::RBrace) is Some) by {
                    if named_list_close(toks@, pos as int, items, TokKind::RBrace) is Some {
                        lemma_named_items_shorter(toks@, pos as int, items, 1, items.len() as int, TokKind::RBrace);
                        assert(ann_end(toks@, pos + 2, items[0].1) is Some);
                    }
                }
            }
            return Err(e);
        },
    };
    let mut list = vec![first];
    let mut cur = p;
    proof {
        assert(field_pairs(list@) =~= seq![(first.name, first.field_type)]);
        assert forall|items: Seq<(Ident, TypeAnnotation)>| #[trigger] named_list_close(toks@, pos as int, items, TokKind::RBrace) is Some
            implies 1 <= items.len() && named_items_end(toks@, pos as int, items, 1, TokKind::RBrace) == Some(p as int) by {
            lemma_named_items_shorter(toks@, pos as int, items, 1, items.len() as int, TokKind::RBrace);
            lemma_ann_end_unique(toks@, pos + 2, first.field_type, items[0].1);
        }
    }
    loop
        invariant
            pos < cur <= toks.len(),
            list.len() >= 1,
            named_items_end(toks@, pos as int, field_pairs(list@), list@.len() as int, TokKind::RBrace) == Some(cur as int),
            forall|items: Seq<(Ident, TypeAnnotation)>| #[trigger] named_list_close(toks@, pos as int, items, TokKind::RBrace) is Some
                ==> list@.len() <= items.len() && named_items_end(toks@, pos as int, items, list@.len() as int, TokKind::RBrace)
                    == Some(cur as int),
        decreases toks.len() - cur,
    {
        if !next_is(toks, cur, TokKind::Comma) {
            return Ok((list, cur));
        }
        let after = cur + 1;
        if after < toks.len() && !next_is(toks, after, TokKind::RBrace) {
            let ghost k = list@.len() as int;
            let (item, p2) = match struct_field(toks, after) {
                Ok(x) => x,
                Err(e) => {
                    proof {
                        assert forall|items: Seq<(Ident, TypeAnnotation)>| !(#[trigger] named_list_close(toks@, pos as int, items, TokKind::RBrace) is Some) by {
                            if named_list_close(toks@, pos as int, items, TokKind::RBrace) is Some {
                                if k < items.len() {
                                    lemma_named_items_shorter(toks@, pos as int, items, k + 1, items.len() as int, TokKind::RBrace);
                                    assert(ann_end(toks@, after + 2, items[k].1) is Some);
                                }
                            }
                        }
                    }
                    return Err(e);
                },
            };
            let ghost before = list@;
            list.push(item);
            proof {
                assert(field_pairs(list@) =~= field_pairs(before).push((item.name, item.field_type)));
                lemma_named_items_prefix(toks@, pos as int, field_pairs(before), field_pairs(list@), before.len() as int, TokKind::RBrace);
                assert forall|items: Seq<(Ident, TypeAnnotation)>| #[trigger] named_list_close(toks@, pos as int, items, TokKind::RBrace) is Some
                    implies list@.len() <= items.len() && named_items_end(toks@, pos as int, items, list@.len() as int, TokKind::RBrace)
                        == Some(p2 as int) by {
                    if k < items.len() {
                        lemma_named_items_shorter(toks@, pos as int, items, k + 1, items.len() as int, TokKind::RBrace);
                        lemma_ann_end_unique(toks@, after + 2, item.field_type, items[k].1);
                    }
                }
            }
            cur = p2;
        } else {
            return Ok((list, after));
        }
    }
}

/// Parses `name: type`.
fn struct_field(toks: &Vec<SpannedToken>, pos: usize) -> (r: ParseErr<(StructField, usize)>)
    requires
        pos <= toks.len(),
    ensures
        advanced(r, pos as int, toks.len() as int),
        r matches Ok((f, _)) ==> ident_at(toks@, pos as int) == Some(f.name),
        r matches Ok((f, p)) ==> typed_name_end(toks@, pos as int, f.name, f.field_type) == Some(p as int),
        r is Ok <==> (ident_at(toks@, pos as int) is Some && at(toks@, pos + 1, TokKind::Colon)
            && exists|a: TypeAnnotation| #[trigger] ann_end(toks@, pos + 2, a) is Some),
{
    let (ident, _) = consume_ident(toks, pos)?;
    let _colon = consume(toks, pos + 1, TokKind::Colon)?;
    let ((ann, _), p) = type_annotation(toks, pos + 2)?;
    Ok((StructField { name: ident, field_type: ann }, p))
}

/// Parses `mod name;`.
fn module_decl(toks: &Vec<SpannedToken>, pos: usize) -> (r: ParseErr<((Ident, Span), usize)>)
    requires
        pos <= toks.len(),
    ensures
        r matches Ok(((name, _), p)) ==> p == pos + 3 && ident_at(toks@, pos + 1) == Some(name),
        r is Ok <==> (at(toks@, pos as int, TokKind::Mod) && ident_at(toks@, pos + 1) is Some && at(
            toks@,
            pos + 2,
            TokKind::Semi,
        )),
{
    let modloc = consume(toks, pos, TokKind::Mod)?;
    let (ident, _) = consume_ident(toks, pos + 1)?;
    let semiloc = consume(toks, pos + 2, TokKind::Semi)?;
    let span = Span::new(modloc.start, semiloc.end);
    Ok(((ident, span), pos + 3))
}

/// The tokens at `pos` spell `name: ann`: the position after it.
pub open spec fn typed_name_end(toks: Seq<SpannedToken>, pos: int, name: Ident, ann: TypeAnnotation) -> Option<int> {
    if ident_at(toks, pos) == Some(name) && at(toks, pos + 1, TokKind::Colon) {
        ann_end(toks, pos + 2, ann)
    } else {
        None
    }
}

/// The tokens at `pos` spell the first `n` of `items`, each `name: type`,
/// separated by commas that are each followed by a token other than `close`: the
/// position after the last of them.
pub open spec fn named_items_end(
    toks: Seq<SpannedToken>,
    pos: int,
    items: Seq<(Ident, TypeAnnotation)>,
    n: int,
    close: TokKind,
) -> Option<int>
    decreases n,
{
    if n <= 0 || n > items.len() {
        None
    } else if n == 1 {
        typed_name_end(toks, pos, items[0].0, items[0].1)
    } else {
        match named_items_end(toks, pos, items, n - 1, close) {
            Some(m) => if at(toks, m, TokKind::Comma) && kind_at(toks, m + 1) is Some && !at(toks, m + 1, close) {
                typed_name_end(toks, m + 1, items[n - 1].0, items[n - 1].1)
            } else {
                None
            },
            None => None,
        }
    }
}

/// The tokens at `pos` spell the list `items` (at least one), with an optional
/// comma after the last that is followed by `close` or by nothing: the position
/// after it.
pub open spec fn named_list_close(toks: Seq<SpannedToken>, pos: int, items: Seq<(Ident, TypeAnnotation)>, close: TokKind) -> Option<int> {
    if items.len() == 0 {
        None
    } else {
        match named_items_end(toks, pos, items, items.len() as int, close) {
            Some(m) => if at(toks, m, TokKind::Comma) {
                if kind_at(toks, m + 1) is None || at(toks, m + 1, close) {
                    Some(m + 1)
                } else {
                    None
                }
            } else {
                Some(m)
            },
            None => None,
        }
    }
}

/// Parameters as `(name, type)` pairs.
pub open spec fn param_pairs(ps: Seq<FnParameter>) -> Seq<(Ident, TypeAnnotation)> {
    ps.map_values(|f: FnParameter| (f.name, f.param_type))
}

/// Struct fields as `(name, type)` pairs.
pub open spec fn field_pairs(fs: Seq<StructField>) -> Seq<(Ident, TypeAnnotation)> {
    fs.map_values(|f: StructField| (f.name, f.field_type))
}

/// The first `n` items of a list depend on its first `n` elements only.
proof fn lemma_named_items_prefix(
    toks: Seq<SpannedToken>,
    pos: int,
    a: Seq<(Ident, TypeAnnotation)>,
    b: Seq<(Ident, TypeAnnotation)>,
    n: int,
    close: TokKind,
)
    requires
        0 <= n <= a.len() <= b.len(),
        forall|k: int| 0 <= k < a.len() ==> #[trigger] a[k] == b[k],
    ensures
        named_items_end(toks, pos, a, n, close) == named_items_end(toks, pos, b, n, close),
    decreases n,
{
    if n > 1 {
        lemma_named_items_prefix(toks, pos, a, b, n - 1, close);
    }
}

/// The items of a spelled list before its last are spelled too.
proof fn lemma_named_items_shorter(toks: Seq<SpannedToken>, pos: int, items: Seq<(Ident, TypeAnnotation)>, j: int, k: int, close: TokKind)
    requires
        1 <= j <= k,
        named_items_end(toks, pos, items, k, close) is Some,
    ensures
        named_items_end(toks, pos, items, j, close) is Some,
    decreases k - j,
{
    if j < k {
        lemma_named_items_shorter(toks, pos, items, j, k - 1, close);
    }
}

/// Two spelled lists agree on where their first `k` items end.
proof fn lemma_named_items_agree(
    toks: Seq<SpannedToken>,
    pos: int,
    a: Seq<(Ident, TypeAnnotation)>,
    b: Seq<(Ident, TypeAnnotation)>,
    k: int,
    close: TokKind,
)
    requires
        named_items_end(toks, pos, a, k, close) is Some,
        named_items_end(toks, pos, b, k, close) is Some,
    ensures
        named_items_end(toks, pos, a, k, close) == named_items_end(toks, pos, b, k, close),
    decreases k,
{
    if k == 1 {
        lemma_ann_end_unique(toks, pos + 2, a[0].1, b[0].1);
    } else if k > 1 {
        lemma_named_items_agree(toks, pos, a, b, k - 1, close);
        let m = named_items_end(toks, pos, a, k - 1, close)->0;
        lemma_ann_end_unique(toks, m + 3, a[k - 1].1, b[k - 1].1);
    }
}

/// A spelled list closes at one place only.
proof fn lemma_named_list_close_unique(
    toks: Seq<SpannedToken>,
    pos: int,
    a: Seq<(Ident, TypeAnnotation)>,
    b: Seq<(Ident, TypeAnnotation)>,
    close: TokKind,
)
    requires
        named_list_close(toks, pos, a, close) is Some,
        named_list_close(toks, pos, b, close) is Some,
    ensures
        named_list_close(toks, pos, a, close) == named_list_close(toks, pos, b, close),
{
    let n = a.len() as int;
    let m = b.len() as int;
    if n == m {
        lemma_named_items_agree(toks, pos, a, b, n, close);
    } else if n < m {
        lemma_named_items_shorter(toks, pos, b, n, m, close);
        lemma_named_items_shorter(toks, pos, b, n + 1, m, close);
        lemma_named_items_agree(toks, pos, a, b, n, close);
    } else {
        lemma_named_items_shorter(toks, pos, a, m, n, close);
        lemma_named_items_shorter(toks, pos, a, m + 1, n, close);
        lemma_named_items_agree(toks, pos, a, b, m, close);
    }
}

/// The tokens at `pos` spell the path `p`, `name` or `module::name`, and a token
/// follows a one-name path: the position after the path.
pub open spec fn path_end(toks: Seq<SpannedToken>, pos: int, p: ModulePath) -> Option<int> {
    if p.0@.len() == 1 && ident_at(toks, pos) == Some(p.0@[0]) && kind_at(toks, pos + 1) is Some && !at(
        toks,
        pos + 1,
        TokKind::ColonColon,
    ) {
        Some(pos + 1)
    } else if p.0@.len() == 2 && ident_at(toks, pos) == Some(p.0@[0]) && at(toks, pos + 1, TokKind::ColonColon)
        && ident_at(toks, pos + 2) == Some(p.0@[1]) {
        Some(pos + 3)
    } else {
        None
    }
}

/// The tokens at `pos` spell the type annotation `ann`: the position after it.
/// Array sizes are positive; the parameters of a function type are separated by
/// commas, with an optional comma after the last; a function type has a return
/// type exactly when `->` follows its parameters.
pub open spec fn ann_end(toks: Seq<SpannedToken>, pos: int, ann: TypeAnnotation) -> Option<int>
    decreases ann, 0int,
{
    match ann {
        TypeAnnotation::Path(p) => path_end(toks, pos, p),
        TypeAnnotation::Array(elem, n) => if at(toks, pos, TokKind::LBracket) {
            match ann_end(toks, pos + 1, *elem) {
                Some(m) => if at(toks, m, TokKind::Semi) && 0 < n <= i64::MAX && int_at(toks, m + 1) == Some(n as i64)
                    && at(toks, m + 2, TokKind::RBracket) {
                    Some(m + 3)
                } else {
                    None
                },
                None => None,
            }
        } else {
            None
        },
        TypeAnnotation::FnType(params, ret) => if at(toks, pos, TokKind::Fn) && at(toks, pos + 1, TokKind::LParen) {
            let close = match params {
                None => if at(toks, pos + 2, TokKind::RParen) {
                    Some(pos + 2)
                } else {
                    None
                },
                Some(ps) => if !at(toks, pos + 2, TokKind::RParen) {
                    params_close(toks, pos + 2, ps@)
                } else {
                    None
                },
            };
            match close {
                Some(c) => if at(toks, c, TokKind::RParen) {
                    match ret {
                        None => if !at(toks, c + 1, TokKind::Arrow) {
                            Some(c + 1)
                        } else {
                            None
                        },
                        Some(r) => if at(toks, c + 1, TokKind::Arrow) {
                            ann_end(toks, c + 2, *r)
                        } else {
                            None
                        },
                    }
                } else {
                    None
                },
                None => None,
            }
        } else {
            None
        },
    }
}

/// The tokens at `pos` spell the parameter annotations `ps` (at least one),
/// separated by commas, with an optional comma after the last that is followed by
/// `)` or by nothing: the position after them.
pub open spec fn params_close(toks: Seq<SpannedToken>, pos: int, ps: Seq<TypeAnnotation>) -> Option<int>
    decreases ps, ps.len() + 1,
{
    if ps.len() == 0 {
        None
    } else {
        match items_end(toks, pos, ps, ps.len() as int) {
            Some(m) => if at(toks, m, TokKind::Comma) {
                if kind_at(toks, m + 1) is None || at(toks, m + 1, TokKind::RParen) {
                    Some(m + 1)
                } else {
                    None
                }
            } else {
                Some(m)
            },
            None => None,
        }
    }
}

/// The tokens at `pos` spell the first `n` annotations of `ps`, separated by
/// commas that are each followed by a token other than `)`: the position after
/// the last of them.
pub open spec fn items_end(toks: Seq<SpannedToken>, pos: int, ps: Seq<TypeAnnotation>, n: int) -> Option<int>
    decreases ps, n,
{
    if n <= 0 || n > ps.len() {
        None
    } else if n == 1 {
        ann_end(toks, pos, ps[0])
    } else {
        match items_end(toks, pos, ps, n - 1) {
            Some(m) => if at(toks, m, TokKind::Comma) && kind_at(toks, m + 1) is Some && !at(
                toks,
                m + 1,
                TokKind::RParen,
            ) {
                ann_end(toks, m + 1, ps[n - 1])
            } else {
                None
            },
            None => None,
        }
    }
}

/// A spelled annotation ends at one place only: the grammar of annotations is
/// unambiguous.
proof fn lemma_ann_end_unique(toks: Seq<SpannedToken>, pos: int, a: TypeAnnotation, b: TypeAnnotation)
    requires
        ann_end(toks, pos, a) is Some,
        ann_end(toks, pos, b) is Some,
    ensures
        ann_end(toks, pos, a) == ann_end(toks, pos, b),
    decreases a, 0int,
{
    match a {
        TypeAnnotation::Array(e1, _) => {
            if let TypeAnnotation::Array(e2, _) = b {
                lemma_ann_end_unique(toks, pos + 1, *e1, *e2);
            }
        },
        TypeAnnotation::FnType(p1, r1) => {
            if let TypeAnnotation::FnType(p2, r2) = b {
                if p1 is Some && p2 is Some {
                    lemma_params_close_unique(toks, pos + 2, p1->0@, p2->0@);
                }
                if r1 is Some && r2 is Some {
                    let c = match p1 {
                        None => pos + 2,
                        Some(ps) => params_close(toks, pos + 2, ps@)->0,
                    };
                    lemma_ann_end_unique(toks, c + 2, *r1->0, *r2->0);
                }
            }
        },
        _ => {},
    }
}

/// Two spelled lists agree on where their first `k` items end.
proof fn lemma_items_end_agree(toks: Seq<SpannedToken>, pos: int, ps: Seq<TypeAnnotation>, qs: Seq<TypeAnnotation>, k: int)
    requires
        items_end(toks, pos, ps, k) is Some,
        items_end(toks, pos, qs, k) is Some,
    ensures
        items_end(toks, pos, ps, k) == items_end(toks, pos, qs, k),
    decreases ps, k,
{
    if k == 1 {
        lemma_ann_end_unique(toks, pos, ps[0], qs[0]);
    } else if k > 1 {
        lemma_items_end_agree(toks, pos, ps, qs, k - 1);
        let m = items_end(toks, pos, ps, k - 1)->0;
        lemma_ann_end_unique(toks, m + 1, ps[k - 1], qs[k - 1]);
    }
}

/// The items of a spelled list before its last are spelled too.
proof fn lemma_items_end_shorter(toks: Seq<SpannedToken>, pos: int, ps: Seq<TypeAnnotation>, j: int, k: int)
    requires
        1 <= j <= k,
        items_end(toks, pos, ps, k) is Some,
    ensures
        items_end(toks, pos, ps, j) is Some,
    decreases k - j,
{
    if j < k {
        lemma_items_end_shorter(toks, pos, ps, j, k - 1);
    }
}

/// A spelled parameter list closes at one place only.
proof fn lemma_params_close_unique(toks: Seq<SpannedToken>, pos: int, ps: Seq<TypeAnnotation>, qs: Seq<TypeAnnotation>)
    requires
        params_close(toks, pos, ps) is Some,
        params_close(toks, pos, qs) is Some,
    ensures
        params_close(toks, pos, ps) == params_close(toks, pos, qs),
    decreases ps, ps.len() + 1,
{
    let n = ps.len() as int;
    let m = qs.len() as int;
    if n == m {
        lemma_items_end_agree(toks, pos, ps, qs, n);
    } else if n < m {
        lemma_items_end_shorter(toks, pos, qs, n, m);
        lemma_items_end_shorter(toks, pos, qs, n + 1, m);
        lemma_items_end_agree(toks, pos, ps, qs, n);
    } else {
        lemma_items_end_shorter(toks, pos, ps, m, n);
        lemma_items_end_shorter(toks, pos, ps, m + 1, n);
        lemma_items_end_agree(toks, pos, ps, qs, m);
    }
}

/// The first `n` items of a list depend on its first `n` elements only.
proof fn lemma_items_end_prefix(toks: Seq<SpannedToken>, pos: int, a: Seq<TypeAnnotation>, b: Seq<TypeAnnotation>, n: int)
    requires
        0 <= n <= a.len() <= b.len(),
        forall|k: int| 0 <= k < a.len() ==> #[trigger] a[k] == b[k],
    ensures
        items_end(toks, pos, a, n) == items_end(toks, pos, b, n),
    decreases n,
{
    if n > 1 {
        lemma_items_end_prefix(toks, pos, a, b, n - 1);
    }
}

/// Parses a type annotation: a (module) path, a function type or an array type.
pub fn type_annotation(toks: &Vec<SpannedToken>, pos: usize) -> (r: ParseErr<((TypeAnnotation, Span), usize)>)
    requires
        pos <= toks.len(),
    ensures
        advanced(r, pos as int, toks.len() as int),
        r matches Ok(((TypeAnnotation::Path(_), _), _)) ==> at(toks@, pos as int, TokKind::Identifier),
        r matches Ok(((TypeAnnotation::Array(_, n), _), _)) ==> n > 0 && at(
            toks@,
            pos as int,
            TokKind::LBracket,
        ),
        r matches Ok(((TypeAnnotation::FnType(_, _), _), _)) ==> at(toks@, pos as int, TokKind::Fn),
        r matches Ok(((a, _), p)) ==> ann_end(toks@, pos as int, a) == Some(p as int),
        r is Ok <==> exists|a: TypeAnnotation| #[trigger] ann_end(toks@, pos as int, a) is Some,
    decreases toks.len() - pos, 2nat,
{
    if pos >= toks.len() {
        return Err(unexpected(toks, pos));
    }
    match &toks[pos].token {
        Token::Identifier(_) => {
            match module_binding(toks, pos) {
                Ok(((bind, span), p)) => {
                    let r = Ok(((TypeAnnotation::Path(bind), span), p));
                    proof {
                        assert(ann_end(toks@, pos as int, TypeAnnotation::Path(bind)) is Some);
                    }
                    r
                },
                Err(e) => Err(e),
            }
        },
        Token::Fn => fn_type(toks, pos),
        Token::LBracket => array_type(toks, pos),
        _ => Err(unexpected(toks, pos)),
    }
}

/// Parses a path of one or two names: `name` or `module::name`.
pub fn module_binding(toks: &Vec<SpannedToken>, pos: usize) -> (r: ParseErr<((ModulePath, Span), usize)>)
    requires
        pos <= toks.len(),
    ensures
        advanced(r, pos as int, toks.len() as int),
        r matches Ok(((path, _), p)) ==> (path.0.len() == 1 && p == pos + 1) || (path.0.len() == 2 && p
            == pos + 3),
        r matches Ok(((path, _), p)) ==> ident_at(toks@, pos as int) == Some(path.0@[0]),
        r matches Ok(((path, _), p)) ==> path_end(toks@, pos as int, path) == Some(p as int),
        r is Ok <==> exists|path: ModulePath| #[trigger] path_end(toks@, pos as int, path) is Some,
        ident_at(toks@, pos as int) matches Some(n) ==> (kind_at(toks@, pos + 1) is Some && !at(toks@, pos + 1, TokKind::ColonColon)
            ==> (r matches Ok(((path, _), p)) && path.0@ == seq![n] && p == pos + 1)),
{
    let (first, floc) = consume_ident(toks, pos)?;
    let k = match peek_kind(toks, pos + 1) {
        Some(k) => k,
        None => return Err(unexpected(toks, pos + 1)),
    };
    if k == TokKind::ColonColon {
        let (next, nloc) = consume_ident(toks, pos + 2)?;
        let span = Span::new(floc.start, nloc.end);
        let path = ModulePath(vec![first, next]);
        proof {
            assert(path.0@ =~= seq![first, next]);
            assert(path_end(toks@, pos as int, path) is Some);
        }
        Ok(((path, span), pos + 3))
    } else {
        let span = Span::new(floc.start, floc.end);
        let path = ModulePath(vec![first]);
        proof {
            assert(path.0@ =~= seq![first]);
            assert(path_end(toks@, pos as int, path) is Some);
        }
        Ok(((path, span), pos + 1))
    }
}

/// Parses `[type; n]`.
#[verifier::rlimit(40)]
#[verifier::spinoff_prover]
fn array_type(toks: &Vec<SpannedToken>, pos: usize) -> (r: ParseErr<((TypeAnnotation, Span), usize)>)
    requires
        pos <= toks.len(),
    ensures
        advanced(r, pos as int, toks.len() as int),
        r matches Ok(((t, _), _)) ==> (t matches TypeAnnotation::Array(_, n) && n > 0),
        r is Ok ==> at(toks@, pos as int, TokKind::LBracket),
        r matches Ok(((a, _), p)) ==> ann_end(toks@, pos as int, a) == Some(p as int),
        at(toks@, pos as int, TokKind::LBracket) && (exists|a: TypeAnnotation| #[trigger] ann_end(toks@, pos as int, a) is Some)
            ==> r is Ok,
    decreases toks.len() - pos, 0nat,
{
    let lloc = consume(toks, pos, TokKind::LBracket)?;
    let ((base_type, _), p) = match type_annotation(toks, pos + 1) {
        Ok(x) => x,
        Err(e) => {
            proof {
                assert forall|a: TypeAnnotation| !(#[trigger] ann_end(toks@, pos as int, a) is Some) by {
                    if ann_end(toks@, pos as int, a) is Some {
                        if let TypeAnnotation::Array(el, _) = a {
                            assert(ann_end(toks@, pos + 1, *el) is Some);
                        }
                    }
                }
            }
            return Err(e);
        },
    };
    proof {
        assert forall|a: TypeAnnotation| #[trigger] ann_end(toks@, pos as int, a) is Some implies (a matches TypeAnnotation::Array(el, _) && ann_end(toks@, pos + 1, *el) == Some(p as int)) by {
            if let TypeAnnotation::Array(el, _) = a {
                lemma_ann_end_unique(toks@, pos + 1, base_type, *el);
            }
        }
    }
    let _semi = consume(toks, p, TokKind::Semi)?;
    let (number, _) = consume_int(toks, p + 1)?;
    let rloc = consume(toks, p + 2, TokKind::RBracket)?;
    let span = Span::new(lloc.start, rloc.end);
    if number <= 0 {
        return Err(ParserError { kind: ParserErrorKind::InvalidArraySize(number), pos: p + 1 });
    }
    Ok(((TypeAnnotation::Array(Box::new(base_type), number as u64), span), p + 3))
}

/// Parses `fn(type, ...) -> type`.
#[verifier::loop_isolation(false)]
#[verifier::rlimit(40)]
#[verifier::spinoff_prover]
fn fn_type(toks: &Vec<SpannedToken>, pos: usize) -> (r: ParseErr<((TypeAnnotation, Span), usize)>)
    requires
        pos <= toks.len(),
    ensures
        advanced(r, pos as int, toks.len() as int),
        r matches Ok(((t, _), _)) ==> t is FnType,
        r is Ok ==> at(toks@, pos as int, TokKind::Fn),
        r matches Ok(((a, _), p)) ==> ann_end(toks@, pos as int, a) == Some(p as int),
        at(toks@, pos as int, TokKind::Fn) && (exists|a: TypeAnnotation| #[trigger] ann_end(toks@, pos as int, a) is Some)
            ==> r is Ok,
    decreases toks.len() - pos, 0nat,
{
    let fnloc = consume(toks, pos, TokKind::Fn)?;
    let _lparen = consume(toks, pos + 1, TokKind::LParen)?;
    let mut cur = pos + 2;
    let mut params = None;
    if cur < toks.len() && !next_is(toks, cur, TokKind::RParen) {
        let (list, p) = match fn_type_params(toks, cur) {
            Ok(x) => x,
            Err(e) => {
                proof {
                    assert forall|a: TypeAnnotation| !(#[trigger] ann_end(toks@, pos as int, a) is Some) by {
                        if ann_end(toks@, pos as int, a) is Some {
                            if let TypeAnnotation::FnType(Some(v), _) = a {
                                assert(params_close(toks@, pos + 2, v@) is Some);
                            }
                        }
                    }
                }
                return Err(e);
            },
        };
        proof {
            assert forall|a: TypeAnnotation| #[trigger] ann_end(toks@, pos as int, a) is Some implies (a matches TypeAnnotation::FnType(Some(v), _) && params_close(toks@, pos + 2, v@) == Some(p as int)) by {
                if let TypeAnnotation::FnType(Some(v), _) = a {
                    lemma_params_close_unique(toks@, pos + 2, list@, v@);
                }
            }
        }
        params = Some(list);
        cur = p;
    }
    assert forall|a: TypeAnnotation| #[trigger] ann_end(toks@, pos as int, a) is Some implies (a matches TypeAnnotation::FnType(ps, _) && match ps {
        None => cur == pos + 2,
        Some(v) => params_close(toks@, pos + 2, v@) == Some(cur as int),
    }) by {
        if let TypeAnnotation::FnType(Some(v), _) = a {
            if v@.len() > 0 {
                lemma_items_end_shorter(toks@, pos + 2, v@, 1, v@.len() as int);
            }
        }
    };
    let rparenloc = consume(toks, cur, TokKind::RParen)?;
    cur = cur + 1;
    let mut fn_type_span = Span::new(fnloc.start, rparenloc.end);
    let mut return_type = None;
    if cur < toks.len() && next_is(toks, cur, TokKind::Arrow) {
        let ((ret, return_span), p) = match type_annotation(toks, cur + 1) {
            Ok(x) => x,
            Err(e) => {
                proof {
                    assert forall|a: TypeAnnotation| !(#[trigger] ann_end(toks@, pos as int, a) is Some) by {
                        if ann_end(toks@, pos as int, a) is Some {
                            if let TypeAnnotation::FnType(_, Some(rt)) = a {
                                assert(ann_end(toks@, cur + 1, *rt) is Some);
                            }
                        }
                    }
                }
                return Err(e);
            },
        };
        return_type = Some(Box::new(ret));
        fn_type_span = Span::combine(fn_type_span, return_span);
        cur = p;
    }
    Ok(((TypeAnnotation::FnType(params, return_type), fn_type_span), cur))
}

#[verifier::loop_isolation(false)]
#[verifier::rlimit(40)]
#[verifier::spinoff_prover]
fn fn_type_params(toks: &Vec<SpannedToken>, pos: usize) -> (r: ParseErr<(Vec<TypeAnnotation>, usize)>)
    requires
        pos <= toks.len(),
    ensures
        advanced(r, pos as int, toks.len() as int),
        r matches Ok((list, _)) ==> list.len() >= 1,
        r matches Ok((list, p)) ==> params_close(toks@, pos as int, list@) == Some(p as int),
        (exists|ps: Seq<TypeAnnotation>| #[trigger] params_close(toks@, pos as int, ps) is Some) ==> r is Ok,
    decreases toks.len() - pos, 3nat,
{
    let ((first, _), p) = match type_annotation(toks, pos) {
        Ok(x) => x,
        Err(e) => {
            proof {
                assert forall|ps: Seq<TypeAnnotation>| !(#[trigger] params_close(toks@, pos as int, ps) is Some) by {
                    if params_close(toks@, pos as int, ps) is Some {
                        lemma_items_end_shorter(toks@, pos as int, ps, 1, ps.len() as int);
                        assert(ann_end(toks@, pos as int, ps[0]) is Some);
                    }
                }
            }
            return Err(e);
        },
    };
    let mut list = vec![first];
    let mut cur = p;
    assert(items_end(toks@, pos as int, list@, 1) == Some(p as int));
    proof {
        assert forall|ps: Seq<TypeAnnotation>| #[trigger] params_close(toks@, pos as int, ps) is Some implies 1 <= ps.len()
            && items_end(toks@, pos as int, ps, 1) == Some(p as int) by {
            lemma_items_end_shorter(toks@, pos as int, ps, 1, ps.len() as int);
            lemma_ann_end_unique(toks@, pos as int, first, ps[0]);
        }
    }
    loop
        invariant
            pos < cur <= toks.len(),
            list.len() >= 1,
            items_end(toks@, pos as int, list@, list@.len() as int) == Some(cur as int),
            forall|ps: Seq<TypeAnnotation>| #[trigger] params_close(toks@, pos as int, ps) is Some ==> list@.len() <= ps.len()
                && items_end(toks@, pos as int, ps, list@.len() as int) == Some(cur as int),
        decreases toks.len() - cur,
    {
        if !next_is(toks, cur, TokKind::Comma) {
            return Ok((list, cur));
        }
        let after = cur + 1;
        if after < toks.len() && !next_is(toks, after, TokKind::RParen) {
            let ghost k = list@.len() as int;
            let ((item, _), p2) = match type_annotation(toks, after) {
                Ok(x) => x,
                Err(e) => {
                    proof {
                        assert forall|ps: Seq<TypeAnnotation>| !(#[trigger] params_close(toks@, pos as int, ps) is Some) by {
                            if params_close(toks@, pos as int, ps) is Some {
                                if k < ps.len() {
                                    lemma_items_end_shorter(toks@, pos as int, ps, k + 1, ps.len() as int);
                                    assert(ann_end(toks@, after as int, ps[k]) is Some);
                                }
                            }
                        }
                    }
                    return Err(e);
                },
            };
            let ghost before = list@;
            list.push(item);
            proof {
                lemma_items_end_prefix(toks@, pos as int, before, list@, before.len() as int);
                assert forall|ps: Seq<TypeAnnotation>| #[trigger] params_close(toks@, pos as int, ps) is Some implies list@.len() <= ps.len()
                    && items_end(toks@, pos as int, ps, list@.len() as int) == Some(p2 as int) by {
                    if k < ps.len() {
                        lemma_items_end_shorter(toks@, pos as int, ps, k + 1, ps.len() as int);
                        lemma_ann_end_unique(toks@, after as int, item, ps[k]);
                    }
                }
            }
            cur = p2;
        } else {
            return Ok((list, after));
        }
    }
}

/// Parses `{ stmt* }`.
#[verifier::loop_isolation(false)]
pub fn block(toks: &Vec<SpannedToken>, pos: usize) -> (r: ParseErr<((Block, Span), usize)>)
    requires
        pos <= toks.len(),
    ensures
        advanced(r, pos as int, toks.len() as int),
        r matches Ok((_, p)) ==> at(toks@, pos as int, TokKind::LBrace) && at(
            toks@,
            p - 1,
            TokKind::RBrace,
        ),
        at(toks@, pos as int, TokKind::LBrace) && at(toks@, pos + 1, TokKind::RBrace) ==> (r matches Ok(
            ((b, _), p),
        ) && b.0.len() == 0 && p == pos + 2),
    decreases toks.len() - pos, 0nat,
{
    let lloc = consume(toks, pos, TokKind::LBrace)?;
    let mut cur = pos + 1;
    let mut stmts: Vec<Stmt> = Vec::new();
    while cur < toks.len() && !next_is(toks, cur, TokKind::RBrace)
        invariant
            pos < cur <= toks.len(),
            cur == pos + 1 ==> stmts.len() == 0,
            at(toks@, pos + 1, TokKind::RBrace) ==> cur == pos + 1,
        decreases toks.len() - cur,
    {
        let (s, p) = stmt(toks, cur)?;
        stmts.push(s);
        cur = p;
    }
    let rloc = consume(toks, cur, TokKind::RBrace)?;
    let span = Span::new(lloc.start, rloc.end);
    Ok(((Block(stmts), span), cur + 1))
}

/// Parses one statement.
pub fn teststmt(toks: &Vec<SpannedToken>, pos: usize) -> (r: ParseErr<(Stmt, usize)>)
    requires
        pos <= toks.len(),
    ensures
        advanced(r, pos as int, toks.len() as int),
        stmt_shape(toks@, pos as int, r),
{
    stmt(toks, pos)
}

/// What the first token of a statement decides about the parsed statement.
pub open spec fn stmt_shape(toks: Seq<SpannedToken>, pos: int, r: ParseErr<(Stmt, usize)>) -> bool {
    &&& r matches Ok((s, _)) ==> {
        &&& at(toks, pos, TokKind::Continue) ==> (s matches Stmt::ExprStmt(ExprStmt::Continue(_), _))
        &&& at(toks, pos, TokKind::Break) ==> (s matches Stmt::ExprStmt(ExprStmt::Break(_), _))
        &&& at(toks, pos, TokKind::Return) ==> (s matches Stmt::ExprStmt(ExprStmt::Return(_, _), _))
        &&& at(toks, pos, TokKind::While) ==> (s matches Stmt::ExprStmt(ExprStmt::While(_), _))
        &&& at(toks, pos, TokKind::If) ==> (s matches Stmt::ExprStmt(ExprStmt::If(_), _))
        &&& at(toks, pos, TokKind::Let) ==> (s matches Stmt::ExprStmt(ExprStmt::LocalVarDecl(d), _)
            && ident_at(toks, pos + 1) == Some(d.var_name) && let_head_end(toks, pos, d.var_type) is Some)
    }
    &&& at(toks, pos, TokKind::Continue) && at(toks, pos + 1, TokKind::Semi) ==> r == Ok::<(Stmt, usize), ParserError>(
        (Stmt::ExprStmt(ExprStmt::Continue(pair_span(toks, pos)), pair_span(toks, pos)), (pos + 2) as usize),
    )
    &&& at(toks, pos, TokKind::Continue) && !at(toks, pos + 1, TokKind::Semi) ==> r is Err
    &&& at(toks, pos, TokKind::Break) && at(toks, pos + 1, TokKind::Semi) ==> r == Ok::<(Stmt, usize), ParserError>(
        (Stmt::ExprStmt(ExprStmt::Break(pair_span(toks, pos)), pair_span(toks, pos)), (pos + 2) as usize),
    )
    &&& at(toks, pos, TokKind::Break) && !at(toks, pos + 1, TokKind::Semi) ==> r is Err
    &&& at(toks, pos, TokKind::Return) && at(toks, pos + 1, TokKind::Semi) ==> r == Ok::<(Stmt, usize), ParserError>(
        (
            Stmt::ExprStmt(ExprStmt::Return(pair_span(toks, pos), None), pair_span(toks, pos)),
            (pos + 2) as usize,
        ),
    )
}

fn stmt(toks: &Vec<SpannedToken>, pos: usize) -> (r: ParseErr<(Stmt, usize)>)
    requires
        pos <= toks.len(),
    ensures
        advanced(r, pos as int, toks.len() as int),
        stmt_shape(toks@, pos as int, r),
    decreases toks.len() - pos, 5nat,
{
    if pos >= toks.len() {
        return Err(unexpected(toks, pos));
    }
    match &toks[pos].token {
        Token::Continue => {
            let ((s, span), p) = continue_stmt(toks, pos)?;
            Ok((Stmt::ExprStmt(s, span), p))
        },
        Token::Break => {
            let ((s, span), p) = break_stmt(toks, pos)?;
            Ok((Stmt::ExprStmt(s, span), p))
        },
        Token::Return => {
            let ((s, span), p) = return_stmt(toks, pos)?;
            Ok((Stmt::ExprStmt(s, span), p))
        },
        Token::While => {
            let ((s, span), p) = while_stmt(toks, pos)?;
            Ok((Stmt::ExprStmt(s, span), p))
        },
        Token::If => {
            let ((s, span), p) = if_stmt(toks, pos)?;
            Ok((Stmt::ExprStmt(s, span), p))
        },
        Token::Let => {
            let ((s, span), p) = local_var_decl(toks, pos)?;
            Ok((Stmt::ExprStmt(s, span), p))
        },
        Token::Identifier(_) => potential_assign(toks, pos),
        _ => {
            let delims = vec![Delimiter::Semi];
            let ((e, span), p) = piped_expr(toks, pos, &delims)?;
            let _semi = consume(toks, p, TokKind::Semi)?;
            Ok((Stmt::Expr(e, span), p + 1))
        },
    }
}

/// Parses a statement that starts with an identifier: an assignment to a path,
/// or an expression statement.
#[verifier::rlimit(40)]
#[verifier::spinoff_prover]
fn potential_assign(toks: &Vec<SpannedToken>, pos: usize) -> (r: ParseErr<(Stmt, usize)>)
    requires
        pos <= toks.len(),
    ensures
        advanced(r, pos as int, toks.len() as int),
        r is Ok ==> ident_at(toks@, pos as int) is Some,
        r matches Ok((Stmt::ExprStmt(s, _), _)) ==> s is Assignment,
        r matches Ok((_, p)) ==> at(toks@, p - 1, TokKind::Semi),
        r matches Ok((Stmt::ExprStmt(ExprStmt::Assignment(a), _), _)) ==> a.name.0@.len() >= 1 && match a.name.0@[0] {
            PathSegment::Ident(n) => ident_at(toks@, pos as int) == Some(n),
            PathSegment::Indexing(n, _) => ident_at(toks@, pos as int) == Some(n),
        },
        at(toks@, pos + 1, TokKind::Assign) ==> (r matches Ok((s, _)) ==> (s matches Stmt::ExprStmt(
            ExprStmt::Assignment(a),
            _,
        ) && a.name.0@.len() == 1 && a.name.0@[0] matches PathSegment::Ident(_))),
        at(toks@, pos + 1, TokKind::LParen) || at(toks@, pos + 1, TokKind::ColonColon) ==> (r matches Ok((s, _)) ==> s is Expr),
        ident_at(toks@, pos as int) matches Some(x) ==> (simple_operand(toks@, pos + 2) matches Some(e) ==> (at(toks@, pos + 1, TokKind::Assign)
            && at(toks@, pos + 3, TokKind::Semi) ==> (r matches Ok((Stmt::ExprStmt(ExprStmt::Assignment(a), _), p))
            && a.name.0@ == seq![PathSegment::Ident(x)] && a.value == e && p == pos + 4))),
        ident_at(toks@, pos as int) matches Some(x) ==> (ident_at(toks@, pos + 2) matches Some(n) ==> (simple_operand(toks@, pos + 4) matches Some(e)
            ==> (at(toks@, pos + 1, TokKind::Dot) && at(toks@, pos + 3, TokKind::Assign) && at(toks@, pos + 5, TokKind::Semi)
            ==> (r matches Ok((Stmt::ExprStmt(ExprStmt::Assignment(a), _), p)) && a.name.0@ == seq![
            PathSegment::Ident(x),
            PathSegment::Ident(n),
        ] && a.value == e && p == pos + 6)))),
        ident_at(toks@, pos as int) matches Some(x) ==> (one_operation(toks@, pos + 1, seq![Delimiter::Semi], 0) && at(
            toks@,
            pos + 3,
            TokKind::Semi,
        ) ==> (r matches Ok((Stmt::Expr(e, _), p)) && e == bin(
            spec_get_op(kind_of(toks@[pos + 1].token))->0,
            Expr::Binding(x),
            simple_operand(toks@, pos + 2)->0,
        ) && p == pos + 4)),
    decreases toks.len() - pos, 4nat,
{
    let (base_ident, base_span) = consume_ident(toks, pos)?;
    let p = pos + 1;
    let k = match peek_kind(toks, p) {
        Some(k) => k,
        None => return Err(unexpected(toks, p)),
    };
    let semi = vec![Delimiter::Semi];
    let mut cur: usize;
    let path: Path;
    let path_span: Span;
    if k == TokKind::Dot {
        let ((e, sp), p2) = access_path(toks, p, PathSegment::Ident(base_ident), base_span)?;
        match e {
            Expr::FieldAccess(fa) => {
                path = fa;
            },
            _ => return Err(unexpected(toks, p)),
        }
        path_span = sp;
        cur = p2;
    } else if k == TokKind::ColonColon {
        let (path_e, p2) = expr_module_path(toks, p, base_ident, base_span)?;
        let ((e, span), p3) = prebase_piped_expr(toks, p2, path_e, &semi)?;
        let _semi = consume(toks, p3, TokKind::Semi)?;
        return Ok((Stmt::Expr(e, span), p3 + 1));
    } else if k == TokKind::LParen {
        let ((args, arg_span), p2) = fn_args(toks, p)?;
        let called = ModulePath(vec![base_ident]);
        let fn_call = FnCall { path: called, args };
        let span = Span::combine(base_span, arg_span);
        let expr_base = (Expr::FnCall(fn_call), span);
        let ((e, espan), p3) = prebase_piped_expr(toks, p2, expr_base, &semi)?;
        let _semi = consume(toks, p3, TokKind::Semi)?;
        return Ok((Stmt::Expr(e, espan), p3 + 1));
    } else if k == TokKind::LBracket {
        let rbracket = vec![Delimiter::RBracket];
        let ((indexer, _), p2) = piped_expr(toks, p + 1, &rbracket)?;
        let _rbracket = consume(toks, p2, TokKind::RBracket)?;
        let p3 = p2 + 1;
        let k3 = match peek_kind(toks, p3) {
            Some(k3) => k3,
            None => return Err(unexpected(toks, p3)),
        };
        if k3 == TokKind::Dot {
            let root = PathSegment::Indexing(base_ident, Box::new(indexer));
            let ((e, sp), p4) = access_path(toks, p3, root, base_span)?;
            match e {
                Expr::FieldAccess(fa) => {
                    path = fa;
                },
                _ => return Err(unexpected(toks, p3)),
            }
            path_span = sp;
            cur = p4;
        } else {
            let root = PathSegment::Indexing(base_ident, Box::new(indexer));
            path = Path(vec![root]);
            path_span = base_span;
            cur = p3;
        }
    } else if k == TokKind::Assign {
        let ((value, value_span), p2) = piped_expr(toks, p + 1, &semi)?;
        let _semi = consume(toks, p2, TokKind::Semi)?;
        let segment = PathSegment::Ident(base_ident);
        let assignment_span = Span::combine(base_span, value_span);
        let assignment = Assignment { name: Path(vec![segment]), value };
        return Ok((Stmt::ExprStmt(ExprStmt::Assignment(assignment), assignment_span), p2 + 1));
    } else {
        // `ident op ...` is no place to assign to: the statement is the expression.
        let ((e, span), p2) = piped_expr(toks, pos, &semi)?;
        let _semi = consume(toks, p2, TokKind::Semi)?;
        return Ok((Stmt::Expr(e, span), p2 + 1));
    }
    if cur >= toks.len() {
        return Err(unexpected(toks, cur));
    }
    if next_is(toks, cur, TokKind::Assign) {
        let ((value, value_span), p2) = piped_expr(toks, cur + 1, &semi)?;
        let _semi = consume(toks, p2, TokKind::Semi)?;
        let span = Span::combine(path_span, value_span);
        let assignment = Assignment { name: path, value };
        Ok((Stmt::ExprStmt(ExprStmt::Assignment(assignment), span), p2 + 1))
    } else {
        // The path is no place to assign to: the statement is the expression.
        let ((e, span), p2) = piped_expr(toks, pos, &semi)?;
        let _semi = consume(toks, p2, TokKind::Semi)?;
        Ok((Stmt::Expr(e, span), p2 + 1))
    }
}

/// The tokens at `pos` spell `let name: ann =`, or `let name =` when there is no
/// annotation: the position after the `=`.
pub open spec fn let_head_end(toks: Seq<SpannedToken>, pos: int, ann: Option<TypeAnnotation>) -> Option<int> {
    if at(toks, pos, TokKind::Let) && ident_at(toks, pos + 1) is Some {
        match ann {
            Some(a) => if at(toks, pos + 2, TokKind::Colon) {
                match ann_end(toks, pos + 3, a) {
                    Some(m) => if at(toks, m, TokKind::Assign) {
                        Some(m + 1)
                    } else {
                        None
                    },
                    None => None,
                }
            } else {
                None
            },
            None => if at(toks, pos + 2, TokKind::Assign) {
                Some(pos + 3)
            } else {
                None
            },
        }
    } else {
        None
    }
}

/// Parses `let name: type = expr;` (the type annotation is optional).
fn local_var_decl(toks: &Vec<SpannedToken>, pos: usize) -> (r: ParseErr<((ExprStmt, Span), usize)>)
    requires
        pos <= toks.len(),
    ensures
        advanced(r, pos as int, toks.len() as int),
        r matches Ok(((s, _), p)) ==> (s matches ExprStmt::LocalVarDecl(d) && ident_at(toks@, pos + 1)
            == Some(d.var_name) && (d.var_type is Some <==> at(toks@, pos + 2, TokKind::Colon)) && at(
            toks@,
            p - 1,
            TokKind::Semi,
        ) && let_head_end(toks@, pos as int, d.var_type) is Some),
        r is Ok ==> at(toks@, pos as int, TokKind::Let),
        ident_at(toks@, pos + 1) matches Some(n) ==> (simple_operand(toks@, pos + 3) matches Some(e) ==> (at(toks@, pos as int, TokKind::Let)
            && at(toks@, pos + 2, TokKind::Assign) && at(toks@, pos + 4, TokKind::Semi) ==> (r matches Ok(
            ((ExprStmt::LocalVarDecl(d), _), p),
        ) && d.var_name == n && d.var_type is None && d.var_init == e && p == pos + 5))),
    decreases toks.len() - pos, 0nat,
{
    let letloc = consume(toks, pos, TokKind::Let)?;
    let (ident, _) = consume_ident(toks, pos + 1)?;
    let mut cur = pos + 2;
    if cur >= toks.len() {
        return Err(unexpected(toks, cur));
    }
    let mut type_anno = None;
    if next_is(toks, cur, TokKind::Colon) {
        let ((ann, _), p) = type_annotation(toks, cur + 1)?;
        type_anno = Some(ann);
        cur = p;
    }
    let _assign = consume(toks, cur, TokKind::Assign)?;
    let semi = vec![Delimiter::Semi];
    let ((init_value, _), p) = piped_expr(toks, cur + 1, &semi)?;
    let semiloc = consume(toks, p, TokKind::Semi)?;
    let span = Span::new(letloc.start, semiloc.end);
    let decl = LocalVarDecl { var_type: type_anno, var_name: ident, var_init: init_value };
    Ok(((ExprStmt::LocalVarDecl(decl), span), p + 1))
}

/// Parses `if cond { ... } elif cond { ... } else { ... }`.
fn if_stmt(toks: &Vec<SpannedToken>, pos: usize) -> (r: ParseErr<((ExprStmt, Span), usize)>)
    requires
        pos <= toks.len(),
    ensures
        advanced(r, pos as int, toks.len() as int),
        r matches Ok(((s, _), _)) ==> (s matches ExprStmt::If(data) && data.branches.len() >= 1),
        r is Ok ==> at(toks@, pos as int, TokKind::If),
        simple_operand(toks@, pos + 1) matches Some(e) ==> (at(toks@, pos as int, TokKind::If) && at(toks@, pos + 2, TokKind::LBrace)
            && at(toks@, pos + 3, TokKind::RBrace) && !at(toks@, pos + 4, TokKind::Elif) && !at(toks@, pos + 4, TokKind::Else)
            ==> (r matches Ok(((ExprStmt::If(d), _), p)) && d.branches@.len() == 1 && d.branches@[0].conditional == e
            && d.branches@[0].block.0@.len() == 0 && d.default_block is None && p == pos + 4)),
    decreases toks.len() - pos, 0nat,
{
    let ifloc = consume(toks, pos, TokKind::If)?;
    let ((first_branch, first_end), p) = if_branch(toks, pos + 1)?;
    let ghost first0 = first_branch;
    let mut end = first_end;
    let mut branches = vec![first_branch];
    let mut default_branch = None;
    let mut cur = p;
    assert(branches@ == seq![first0]);
    while cur < toks.len()
        invariant
            pos < cur <= toks.len(),
            branches.len() >= 1,
            (simple_operand(toks@, pos + 1) is Some && at(toks@, pos + 2, TokKind::LBrace) && at(toks@, pos + 3, TokKind::RBrace))
                ==> p == pos + 4,
            (p == pos + 4 && !at(toks@, pos + 4, TokKind::Elif) && !at(toks@, pos + 4, TokKind::Else)) ==> (cur == p
                && branches@ == seq![first0] && default_branch is None),
        decreases toks.len() - cur,
    {
        match &toks[cur].token {
            Token::Elif => {
                let ((branch, bend), p2) = if_branch(toks, cur + 1)?;
                end = bend;
                branches.push(branch);
                cur = p2;
            },
            Token::Else => {
                let ((b, bspan), p2) = block(toks, cur + 1)?;
                end = bspan;
                default_branch = Some(b);
                cur = p2;
                break;
            },
            _ => break,
        }
    }
    let span = Span::combine(ifloc, end);
    let if_data = If { branches, default_block: default_branch };
    Ok(((ExprStmt::If(if_data), span), cur))
}

/// Parses `cond { ... }`; the span is that of the block.
fn if_branch(toks: &Vec<SpannedToken>, pos: usize) -> (r: ParseErr<((Branch, Span), usize)>)
    requires
        pos <= toks.len(),
    ensures
        advanced(r, pos as int, toks.len() as int),
        simple_operand(toks@, pos as int) matches Some(e) ==> (at(toks@, pos + 1, TokKind::LBrace) && at(toks@, pos + 2, TokKind::RBrace)
            ==> (r matches Ok(((b, _), p)) && b.conditional == e && b.block.0@.len() == 0 && p == pos + 3)),
    decreases toks.len() - pos, 4nat,
{
    let lbrace = vec![Delimiter::LBrace];
    let ((conditional, _), p) = piped_expr(toks, pos, &lbrace)?;
    let ((b, bspan), p2) = block(toks, p)?;
    Ok(((Branch { conditional, block: b }, bspan), p2))
}

/// Parses `while cond { ... }`.
fn while_stmt(toks: &Vec<SpannedToken>, pos: usize) -> (r: ParseErr<((ExprStmt, Span), usize)>)
    requires
        pos <= toks.len(),
    ensures
        advanced(r, pos as int, toks.len() as int),
        r matches Ok(((s, _), _)) ==> s is While,
        r is Ok ==> at(toks@, pos as int, TokKind::While),
        simple_operand(toks@, pos + 1) matches Some(e) ==> (at(toks@, pos as int, TokKind::While) && at(toks@, pos + 2, TokKind::LBrace)
            && at(toks@, pos + 3, TokKind::RBrace) ==> (r matches Ok(((ExprStmt::While(w), _), p)) && w.conditional == e
            && w.block.0@.len() == 0 && p == pos + 4)),
    decreases toks.len() - pos, 0nat,
{
    let whileloc = consume(toks, pos, TokKind::While)?;
    let lbrace = vec![Delimiter::LBrace];
    let ((conditional, _), p) = piped_expr(toks, pos + 1, &lbrace)?;
    let ((b, bspan), p2) = block(toks, p)?;
    let span = Span::combine(whileloc, bspan);
    Ok(((ExprStmt::While(While { conditional, block: b }), span), p2))
}

/// Parses `return;` or `return expr;`.
fn return_stmt(toks: &Vec<SpannedToken>, pos: usize) -> (r: ParseErr<((ExprStmt, Span), usize)>)
    requires
        pos <= toks.len(),
    ensures
        advanced(r, pos as int, toks.len() as int),
        r matches Ok(((s, _), _)) ==> s is Return,
        r is Ok ==> at(toks@, pos as int, TokKind::Return),
        at(toks@, pos as int, TokKind::Return) && at(toks@, pos + 1, TokKind::Semi) ==> r
            == Ok::<((ExprStmt, Span), usize), ParserError>(
            (
                (
                    ExprStmt::Return(
                        Span { start: toks@[pos as int].span.start, end: toks@[pos + 1].span.end },
                        None,
                    ),
                    Span { start: toks@[pos as int].span.start, end: toks@[pos + 1].span.end },
                ),
                (pos + 2) as usize,
            ),
        ),
    decreases toks.len() - pos, 0nat,
{
    let returnloc = consume(toks, pos, TokKind::Return)?;
    let k = match peek_kind(toks, pos + 1) {
        Some(k) => k,
        None => return Err(unexpected(toks, pos + 1)),
    };
    if k == TokKind::Semi {
        let semiloc = toks[pos + 1].span;
        let span = Span::combine(returnloc, semiloc);
        Ok(((ExprStmt::Return(span, None), span), pos + 2))
    } else {
        let semi = vec![Delimiter::Semi];
        let ((e, espan), p) = piped_expr(toks, pos + 1, &semi)?;
        let _semi = consume(toks, p, TokKind::Semi)?;
        let span = Span::combine(returnloc, espan);
        Ok(((ExprStmt::Return(span, Some(e)), span), p + 1))
    }
}

/// The span from the token at `i` to the token at `i + 1`.
pub open spec fn pair_span(toks: Seq<SpannedToken>, i: int) -> Span {
    Span { start: toks[i].span.start, end: toks[i + 1].span.end }
}

/// Parses `continue;`.
fn continue_stmt(toks: &Vec<SpannedToken>, pos: usize) -> (r: ParseErr<((ExprStmt, Span), usize)>)
    requires
        pos <= toks.len(),
    ensures
        at(toks@, pos as int, TokKind::Continue) && at(toks@, pos + 1, TokKind::Semi) ==> r == Ok::<
            ((ExprStmt, Span), usize),
            ParserError,
        >(
            (
                (ExprStmt::Continue(pair_span(toks@, pos as int)), pair_span(toks@, pos as int)),
                (pos + 2) as usize,
            ),
        ),
        !(at(toks@, pos as int, TokKind::Continue) && at(toks@, pos + 1, TokKind::Semi)) ==> r is Err,
{
    let contloc = consume(toks, pos, TokKind::Continue)?;
    let semiloc = consume(toks, pos + 1, TokKind::Semi)?;
    let span = Span::new(contloc.start, semiloc.end);
    Ok(((ExprStmt::Continue(span), span), pos + 2))
}

/// Parses `break;`.
fn break_stmt(toks: &Vec<SpannedToken>, pos: usize) -> (r: ParseErr<((ExprStmt, Span), usize)>)
    requires
        pos <= toks.len(),
    ensures
        at(toks@, pos as int, TokKind::Break) && at(toks@, pos + 1, TokKind::Semi) ==> r == Ok::<
            ((ExprStmt, Span), usize),
            ParserError,
        >(
            (
                (ExprStmt::Break(pair_span(toks@, pos as int)), pair_span(toks@, pos as int)),
                (pos + 2) as usize,
            ),
        ),
        !(at(toks@, pos as int, TokKind::Break) && at(toks@, pos + 1, TokKind::Semi)) ==> r is Err,
{
    let contloc = consume(toks, pos, TokKind::Break)?;
    let semiloc = consume(toks, pos + 1, TokKind::Semi)?;
    let span = Span::new(contloc.start, semiloc.end);
    Ok(((ExprStmt::Break(span), span), pos + 2))
}

} // verus!
