//! From tokens to a tree.
//!
//! The grammar is stated as functions from a position to what stands there and where
//! it ends, one for each form. Each takes a bound on how deeply forms may nest.

use crate::error::{err, errs_v, opt_str, ErrV, ErrorKind, QuinceError};
use crate::syntax::ast::{
    call_args_v, class_decl_v, expr_v, exprs_v, field_decls_v, fn_decls_v, group_models,
    import_names_v, op_named, op_of, pairs_v, params_v, stmt_kind_v, stmt_v, stmts_v, type_exprs_v,
    type_params_v, BinaryOp, Bind, Block, BlockV, CallArg, CallArgV, ClassDecl, ClassDeclV,
    ConstArg, ConstArgV, Expr, ExprKind, ExprKindV, ExprV, FieldDecl, FieldDeclV, FnDecl, FnDeclV,
    ImportName, ImportNameV, LogicalOp, Op, Openness, Pair, PairV, Param, ParamKind, ParamKindV,
    ParamV, Stmt, StmtKind, StmtKindV, StmtV, TypeExpr, TypeExprV, TypeName, TypeNameV, TypeParam,
    TypeParamV, UnaryOp, Visibility,
};
use crate::syntax::token::{
    bits_of, int_of, tok_of, tokens_view, word_of, Span, Tok, Token, TokenKindV, TokenV,
};
use crate::text::{digits, digits_of, same};
use std::rc::Rc;
use vstd::prelude::*;

verus! {

broadcast use group_models;

/// How deeply forms may nest, and how many may follow one another in a list.
pub const PARSE_DEPTH: usize = 1_000_000;

// -- the grammar: small forms -----------------------------------------------------

/// The token at a position; past the last one, the end of the text.
pub open spec fn at(ts: Seq<TokenV>, p: int) -> TokenV {
    if 0 <= p < ts.len() {
        ts[p]
    } else {
        TokenV { kind: TokenKindV::Eof, span: Span { start: 0, end: 0 }, newline_before: true }
    }
}

/// What kind of token stands at a position.
pub open spec fn tk(ts: Seq<TokenV>, p: int) -> Tok {
    if 0 <= p < ts.len() {
        tok_of(ts[p].kind)
    } else {
        Tok::Eof
    }
}

/// The span from the start of one token to the end of the one before `q`.
pub open spec fn between(ts: Seq<TokenV>, p: int, q: int) -> Span {
    Span { start: at(ts, p).span.start, end: at(ts, q - 1).span.end }
}

pub open spec fn expected(ts: Seq<TokenV>, p: int, what: Seq<char>) -> ErrV {
    err(ErrorKind::Syntax, "expected "@ + what, at(ts, p).span)
}

pub open spec fn too_deep(ts: Seq<TokenV>, p: int) -> ErrV {
    err(ErrorKind::Syntax, "this nests too deeply to read"@, at(ts, p).span)
}

pub open spec fn s_expect(ts: Seq<TokenV>, p: int, kind: Tok, what: Seq<char>) -> Result<
    int,
    ErrV,
> {
    if tk(ts, p) == kind {
        Ok(p + 1)
    } else {
        Err(expected(ts, p, what))
    }
}

/// Whether a token is a name. `from` is one wherever it does not start an import.
pub open spec fn names(t: Tok) -> bool {
    t == Tok::Ident || t == Tok::From
}

pub open spec fn s_name(ts: Seq<TokenV>, p: int, what: Seq<char>) -> Result<(Seq<char>, int), ErrV> {
    if names(tk(ts, p)) {
        Ok((word_of(at(ts, p).kind), p + 1))
    } else {
        Err(expected(ts, p, what))
    }
}

/// A statement ends at a semicolon, a line break, a closing brace or the end.
pub open spec fn s_end(ts: Seq<TokenV>, p: int) -> Result<int, ErrV> {
    let t = at(ts, p);
    if tk(ts, p) == Tok::Semi {
        Ok(p + 1)
    } else if t.newline_before || tk(ts, p) == Tok::RBrace || tk(ts, p) == Tok::Eof {
        Ok(p)
    } else {
        Err(expected(ts, p, "a new line or `;`"@))
    }
}

// -- the grammar: types ----------------------------------------------------------------

pub open spec fn s_type_name(ts: Seq<TokenV>, p: int) -> Result<(TypeNameV, int), ErrV> {
    match tk(ts, p) {
        Tok::Ident => if word_of(at(ts, p).kind) == "any"@ || word_of(at(ts, p).kind) == "_"@ {
            Ok((TypeNameV::Any, p + 1))
        } else {
            Ok((TypeNameV::Named(word_of(at(ts, p).kind)), p + 1))
        },
        Tok::Int => Ok((TypeNameV::Const(ConstArgV::Int(int_of(at(ts, p).kind))), p + 1)),
        Tok::Str => Ok((TypeNameV::Const(ConstArgV::Str(word_of(at(ts, p).kind))), p + 1)),
        Tok::True => Ok((TypeNameV::Const(ConstArgV::Bool(true)), p + 1)),
        Tok::False => Ok((TypeNameV::Const(ConstArgV::Bool(false)), p + 1)),
        _ => Err(expected(ts, p, "a type"@)),
    }
}

/// A type: `const` in front freezes, brackets apply it, a `?` behind admits `nil`.
pub open spec fn s_type(f: nat, ts: Seq<TokenV>, p: int) -> Result<(TypeExprV, int), ErrV>
    decreases f,
{
    if f == 0 {
        Err(too_deep(ts, p))
    } else {
        let frozen = tk(ts, p) == Tok::Const;
        let q = if frozen {
            p + 1
        } else {
            p
        };
        match s_type_name(ts, q) {
            Err(e) => Err(e),
            Ok((name, q1)) => if tk(ts, q1) == Tok::LBracket && !at(
                ts,
                q1,
            ).newline_before {
                match s_type_args((f - 1) as nat, ts, q1 + 1, Seq::empty()) {
                    Err(e) => Err(e),
                    Ok((args, q2)) => Ok(s_type_end(ts, p, q2, name, args, true, frozen)),
                }
            } else {
                Ok(s_type_end(ts, p, q1, name, Seq::empty(), false, frozen))
            },
        }
    }
}

pub open spec fn s_type_end(
    ts: Seq<TokenV>,
    start: int,
    p: int,
    name: TypeNameV,
    args: Seq<TypeExprV>,
    applied: bool,
    frozen: bool,
) -> (TypeExprV, int) {
    let nullable = tk(ts, p) == Tok::Question;
    let q = if nullable {
        p + 1
    } else {
        p
    };
    (TypeExprV { name, args, applied, nullable, frozen, span: between(ts, start, q) }, q)
}

pub open spec fn s_type_args(f: nat, ts: Seq<TokenV>, p: int, done: Seq<TypeExprV>) -> Result<
    (Seq<TypeExprV>, int),
    ErrV,
>
    decreases f,
{
    if f == 0 {
        Err(too_deep(ts, p))
    } else if tk(ts, p) == Tok::RBracket {
        Ok((done, p + 1))
    } else {
        match s_type((f - 1) as nat, ts, p) {
            Err(e) => Err(e),
            Ok((ty, q)) => if tk(ts, q) == Tok::Comma {
                s_type_args((f - 1) as nat, ts, q + 1, done.push(ty))
            } else if tk(ts, q) == Tok::RBracket {
                Ok((done.push(ty), q + 1))
            } else {
                Err(expected(ts, q, "`,` or `]`"@))
            },
        }
    }
}

/// A type behind a colon, where there is a colon.
pub open spec fn s_annotation(f: nat, ts: Seq<TokenV>, p: int) -> Result<
    (Option<TypeExprV>, int),
    ErrV,
> {
    if tk(ts, p) == Tok::Colon {
        match s_type(f, ts, p + 1) {
            Err(e) => Err(e),
            Ok((ty, q)) => Ok((Some(ty), q)),
        }
    } else {
        Ok((None, p))
    }
}

// -- the grammar: expressions --------------------------------------------------------------

/// What an infix operator does.
#[derive(Clone, Copy, PartialEq, Eq, Structural)]
pub enum Infix {
    Binary(BinaryOp),
    Logical(LogicalOp),
    Is,
}

/// The infix operator a token is, and how tightly it binds.
pub open spec fn s_infix(kind: Tok) -> Option<(Infix, nat)> {
    match kind {
        Tok::OrOr => Some((Infix::Logical(LogicalOp::Or), 1)),
        Tok::AndAnd => Some((Infix::Logical(LogicalOp::And), 2)),
        Tok::Eq => Some((Infix::Binary(BinaryOp::Eq), 3)),
        Tok::Ne => Some((Infix::Binary(BinaryOp::Ne), 3)),
        Tok::Lt => Some((Infix::Binary(BinaryOp::Lt), 4)),
        Tok::Le => Some((Infix::Binary(BinaryOp::Le), 4)),
        Tok::Gt => Some((Infix::Binary(BinaryOp::Gt), 4)),
        Tok::Ge => Some((Infix::Binary(BinaryOp::Ge), 4)),
        Tok::In => Some((Infix::Binary(BinaryOp::In), 4)),
        Tok::Is => Some((Infix::Is, 4)),
        Tok::Plus => Some((Infix::Binary(BinaryOp::Add), 5)),
        Tok::Minus => Some((Infix::Binary(BinaryOp::Sub), 5)),
        Tok::Star => Some((Infix::Binary(BinaryOp::Mul), 6)),
        Tok::Slash => Some((Infix::Binary(BinaryOp::Div), 6)),
        Tok::SlashSlash => Some((Infix::Binary(BinaryOp::FloorDiv), 6)),
        Tok::Percent => Some((Infix::Binary(BinaryOp::Rem), 6)),
        _ => None,
    }
}

/// The operator a compound assignment applies.
pub open spec fn s_compound(kind: Tok) -> Option<BinaryOp> {
    match kind {
        Tok::PlusAssign => Some(BinaryOp::Add),
        Tok::MinusAssign => Some(BinaryOp::Sub),
        Tok::StarAssign => Some(BinaryOp::Mul),
        Tok::SlashAssign => Some(BinaryOp::Div),
        Tok::PercentAssign => Some(BinaryOp::Rem),
        _ => None,
    }
}

pub open spec fn joint(a: Span, b: Span) -> Span {
    Span { start: a.start, end: b.end }
}

/// An assignment, or whatever binds tighter.
pub open spec fn s_expr(f: nat, ts: Seq<TokenV>, p: int) -> Result<(ExprV, int), ErrV>
    decreases f,
{
    if f == 0 {
        Err(too_deep(ts, p))
    } else {
        match s_binary((f - 1) as nat, ts, p, 1) {
            Err(e) => Err(e),
            Ok((lhs, q)) => if tk(ts, q) == Tok::Assign {
                match s_expr((f - 1) as nat, ts, q + 1) {
                    Err(e) => Err(e),
                    Ok((rhs, q2)) => Ok(
                        (
                            ExprV {
                                kind: ExprKindV::Assign {
                                    target: Box::new(lhs),
                                    value: Box::new(rhs),
                                },
                                span: joint(lhs.span, rhs.span),
                            },
                            q2,
                        ),
                    ),
                }
            } else {
                match s_compound(tk(ts, q)) {
                    None => Ok((lhs, q)),
                    Some(op) => match s_expr((f - 1) as nat, ts, q + 1) {
                        Err(e) => Err(e),
                        Ok((rhs, q2)) => Ok(
                            (
                                ExprV {
                                    kind: ExprKindV::AssignOp {
                                        op,
                                        target: Box::new(lhs),
                                        value: Box::new(rhs),
                                    },
                                    span: joint(lhs.span, rhs.span),
                                },
                                q2,
                            ),
                        ),
                    },
                }
            },
        }
    }
}

/// Operands joined by infix operators that bind at least as tightly as `min`.
pub open spec fn s_binary(f: nat, ts: Seq<TokenV>, p: int, min: nat) -> Result<(ExprV, int), ErrV>
    decreases f,
{
    if f == 0 {
        Err(too_deep(ts, p))
    } else {
        match s_unary((f - 1) as nat, ts, p) {
            Err(e) => Err(e),
            Ok((lhs, q)) => s_infixes((f - 1) as nat, ts, q, lhs, min),
        }
    }
}

/// What a left operand grows into. A minus at the start of a line starts a statement
/// of its own.
pub open spec fn s_infixes(f: nat, ts: Seq<TokenV>, p: int, lhs: ExprV, min: nat) -> Result<
    (ExprV, int),
    ErrV,
>
    decreases f,
{
    if f == 0 {
        Err(too_deep(ts, p))
    } else {
        match s_infix(tk(ts, p)) {
            None => Ok((lhs, p)),
            Some((infix, power)) => if power < min || (tk(ts, p) == Tok::Minus && at(
                ts,
                p,
            ).newline_before) {
                Ok((lhs, p))
            } else {
                match infix {
                    Infix::Is => match s_type((f - 1) as nat, ts, p + 1) {
                        Err(e) => Err(e),
                        Ok((ty, q)) => s_infixes(
                            (f - 1) as nat,
                            ts,
                            q,
                            ExprV {
                                kind: ExprKindV::Is { value: Box::new(lhs), ty },
                                span: joint(lhs.span, ty.span),
                            },
                            min,
                        ),
                    },
                    Infix::Binary(op) => match s_binary((f - 1) as nat, ts, p + 1, power + 1) {
                        Err(e) => Err(e),
                        Ok((rhs, q)) => s_infixes(
                            (f - 1) as nat,
                            ts,
                            q,
                            ExprV {
                                kind: ExprKindV::Binary {
                                    op,
                                    lhs: Box::new(lhs),
                                    rhs: Box::new(rhs),
                                },
                                span: joint(lhs.span, rhs.span),
                            },
                            min,
                        ),
                    },
                    Infix::Logical(op) => match s_binary((f - 1) as nat, ts, p + 1, power + 1) {
                        Err(e) => Err(e),
                        Ok((rhs, q)) => s_infixes(
                            (f - 1) as nat,
                            ts,
                            q,
                            ExprV {
                                kind: ExprKindV::Logical {
                                    op,
                                    lhs: Box::new(lhs),
                                    rhs: Box::new(rhs),
                                },
                                span: joint(lhs.span, rhs.span),
                            },
                            min,
                        ),
                    },
                }
            },
        }
    }
}

/// A prefix operator before an operand, or an operand and what is applied to it.
pub open spec fn s_unary(f: nat, ts: Seq<TokenV>, p: int) -> Result<(ExprV, int), ErrV>
    decreases f,
{
    if f == 0 {
        Err(too_deep(ts, p))
    } else if tk(ts, p) == Tok::Minus || tk(ts, p) == Tok::Not {
        let op = if tk(ts, p) == Tok::Minus {
            UnaryOp::Neg
        } else {
            UnaryOp::Not
        };
        match s_unary((f - 1) as nat, ts, p + 1) {
            Err(e) => Err(e),
            Ok((rhs, q)) => Ok(
                (
                    ExprV {
                        kind: ExprKindV::Unary { op, rhs: Box::new(rhs) },
                        span: joint(at(ts, p).span, rhs.span),
                    },
                    q,
                ),
            ),
        }
    } else {
        match s_primary((f - 1) as nat, ts, p) {
            Err(e) => Err(e),
            Ok((e, q)) => s_postfix((f - 1) as nat, ts, q, e),
        }
    }
}

/// The literals and names an expression is built from.
pub open spec fn s_atom(ts: Seq<TokenV>, p: int) -> Option<ExprKindV> {
    let kind = at(ts, p).kind;
    match tk(ts, p) {
        Tok::Int => Some(ExprKindV::Int(int_of(kind))),
        Tok::Float => Some(ExprKindV::Float(bits_of(kind))),
        Tok::Str => Some(ExprKindV::Str(word_of(kind))),
        Tok::True => Some(ExprKindV::Bool(true)),
        Tok::False => Some(ExprKindV::Bool(false)),
        Tok::Nil => Some(ExprKindV::Nil),
        Tok::Ident | Tok::From => Some(ExprKindV::Var(word_of(kind))),
        _ => None,
    }
}

pub open spec fn s_primary(f: nat, ts: Seq<TokenV>, p: int) -> Result<(ExprV, int), ErrV>
    decreases f,
{
    if f == 0 {
        Err(too_deep(ts, p))
    } else {
        match s_atom(ts, p) {
            Some(kind) => Ok((ExprV { kind, span: at(ts, p).span }, p + 1)),
            None => match tk(ts, p) {
                Tok::Super => match s_expect(ts, p + 1, Tok::Dot, "`.`"@) {
                    Err(e) => Err(e),
                    Ok(q) => match s_name(ts, q, "a method name"@) {
                        Err(e) => Err(e),
                        Ok((name, q2)) => Ok(
                            (
                                ExprV {
                                    kind: ExprKindV::Super { name },
                                    span: between(ts, p, q2),
                                },
                                q2,
                            ),
                        ),
                    },
                },
                Tok::LParen => match s_expr((f - 1) as nat, ts, p + 1) {
                    Err(e) => Err(e),
                    Ok((e, q)) => match s_expect(ts, q, Tok::RParen, "`)`"@) {
                        Err(x) => Err(x),
                        Ok(q2) => Ok((e, q2)),
                    },
                },
                Tok::LBracket => match s_items((f - 1) as nat, ts, p + 1, Seq::empty()) {
                    Err(e) => Err(e),
                    Ok((items, q)) => Ok(
                        (ExprV { kind: ExprKindV::List(items), span: between(ts, p, q) }, q),
                    ),
                },
                Tok::LBrace => match s_pairs((f - 1) as nat, ts, p + 1, Seq::empty()) {
                    Err(e) => Err(e),
                    Ok((pairs, q)) => Ok(
                        (ExprV { kind: ExprKindV::Dict(pairs), span: between(ts, p, q) }, q),
                    ),
                },
                _ => Err(expected(ts, p, "an expression"@)),
            },
        }
    }
}

/// Expressions up to a closing bracket.
pub open spec fn s_items(f: nat, ts: Seq<TokenV>, p: int, done: Seq<ExprV>) -> Result<
    (Seq<ExprV>, int),
    ErrV,
>
    decreases f,
{
    if f == 0 {
        Err(too_deep(ts, p))
    } else if tk(ts, p) == Tok::RBracket {
        Ok((done, p + 1))
    } else {
        match s_expr((f - 1) as nat, ts, p) {
            Err(e) => Err(e),
            Ok((item, q)) => if tk(ts, q) == Tok::Comma {
                s_items((f - 1) as nat, ts, q + 1, done.push(item))
            } else if tk(ts, q) == Tok::RBracket {
                Ok((done.push(item), q + 1))
            } else {
                Err(expected(ts, q, "`,` or `]`"@))
            },
        }
    }
}

/// Entries of a dict literal up to its closing brace.
pub open spec fn s_pairs(f: nat, ts: Seq<TokenV>, p: int, done: Seq<PairV>) -> Result<
    (Seq<PairV>, int),
    ErrV,
>
    decreases f,
{
    if f == 0 {
        Err(too_deep(ts, p))
    } else if tk(ts, p) == Tok::RBrace {
        Ok((done, p + 1))
    } else {
        match s_expr((f - 1) as nat, ts, p) {
            Err(e) => Err(e),
            Ok((key, q)) => match s_expect(ts, q, Tok::Colon, "`:`"@) {
                Err(e) => Err(e),
                Ok(q1) => match s_expr((f - 1) as nat, ts, q1) {
                    Err(e) => Err(e),
                    Ok((value, q2)) => if tk(ts, q2) == Tok::Comma {
                        s_pairs((f - 1) as nat, ts, q2 + 1, done.push(PairV { key, value }))
                    } else if tk(ts, q2) == Tok::RBrace {
                        Ok((done.push(PairV { key, value }), q2 + 1))
                    } else {
                        Err(expected(ts, q2, "`,` or `}`"@))
                    },
                },
            },
        }
    }
}

/// Calls, subscripts and members applied to an operand. A parenthesis or a bracket
/// at the start of a line starts a statement of its own.
pub open spec fn s_postfix(f: nat, ts: Seq<TokenV>, p: int, lhs: ExprV) -> Result<(ExprV, int), ErrV>
    decreases f,
{
    let t = at(ts, p);
    if f == 0 {
        Err(too_deep(ts, p))
    } else if tk(ts, p) == Tok::LParen && !t.newline_before {
        match s_args((f - 1) as nat, ts, p + 1, Seq::empty()) {
            Err(e) => Err(e),
            Ok((args, q)) => s_postfix(
                (f - 1) as nat,
                ts,
                q,
                ExprV {
                    kind: ExprKindV::Call { callee: Box::new(lhs), args },
                    span: Span { start: lhs.span.start, end: at(ts, q - 1).span.end },
                },
            ),
        }
    } else if tk(ts, p) == Tok::LBracket && !t.newline_before {
        match s_subscript((f - 1) as nat, ts, p + 1, lhs) {
            Err(e) => Err(e),
            Ok((e, q)) => s_postfix((f - 1) as nat, ts, q, e),
        }
    } else if tk(ts, p) == Tok::Dot {
        match s_name(ts, p + 1, "a member name"@) {
            Err(e) => Err(e),
            Ok((name, q)) => s_postfix(
                (f - 1) as nat,
                ts,
                q,
                ExprV {
                    kind: ExprKindV::Field { target: Box::new(lhs), name },
                    span: Span { start: lhs.span.start, end: at(ts, q - 1).span.end },
                },
            ),
        }
    } else {
        Ok((lhs, p))
    }
}

/// What stands between brackets behind an operand: an index, a slice or several type
/// arguments.
pub open spec fn s_subscript(f: nat, ts: Seq<TokenV>, p: int, target: ExprV) -> Result<
    (ExprV, int),
    ErrV,
>
    decreases f,
{
    if f == 0 {
        Err(too_deep(ts, p))
    } else if tk(ts, p) == Tok::Colon {
        s_slice((f - 1) as nat, ts, p + 1, target, None)
    } else {
        match s_expr((f - 1) as nat, ts, p) {
            Err(e) => Err(e),
            Ok((first, q)) => if tk(ts, q) == Tok::Colon {
                s_slice((f - 1) as nat, ts, q + 1, target, Some(Box::new(first)))
            } else if tk(ts, q) == Tok::Comma {
                match s_items((f - 1) as nat, ts, q + 1, seq![first]) {
                    Err(e) => Err(e),
                    Ok((args, q2)) => Ok(
                        (
                            ExprV {
                                kind: ExprKindV::TypeArgs { target: Box::new(target), args },
                                span: Span {
                                    start: target.span.start,
                                    end: at(ts, q2 - 1).span.end,
                                },
                            },
                            q2,
                        ),
                    ),
                }
            } else if tk(ts, q) == Tok::RBracket {
                Ok(
                    (
                        ExprV {
                            kind: ExprKindV::Index {
                                target: Box::new(target),
                                index: Box::new(first),
                            },
                            span: Span { start: target.span.start, end: at(ts, q).span.end },
                        },
                        q + 1,
                    ),
                )
            } else {
                Err(expected(ts, q, "`]`"@))
            },
        }
    }
}

/// A slice from behind its colon.
pub open spec fn s_slice(
    f: nat,
    ts: Seq<TokenV>,
    p: int,
    target: ExprV,
    start: Option<Box<ExprV>>,
) -> Result<(ExprV, int), ErrV>
    decreases f,
{
    if f == 0 {
        Err(too_deep(ts, p))
    } else if tk(ts, p) == Tok::RBracket {
        Ok(
            (
                ExprV {
                    kind: ExprKindV::Slice { target: Box::new(target), start, end: None },
                    span: Span { start: target.span.start, end: at(ts, p).span.end },
                },
                p + 1,
            ),
        )
    } else {
        match s_expr((f - 1) as nat, ts, p) {
            Err(e) => Err(e),
            Ok((last, q)) => match s_expect(ts, q, Tok::RBracket, "`]`"@) {
                Err(e) => Err(e),
                Ok(q2) => Ok(
                    (
                        ExprV {
                            kind: ExprKindV::Slice {
                                target: Box::new(target),
                                start,
                                end: Some(Box::new(last)),
                            },
                            span: Span { start: target.span.start, end: at(ts, q).span.end },
                        },
                        q2,
                    ),
                ),
            },
        }
    }
}

/// Arguments up to a closing parenthesis, the positional ones before the named ones.
pub open spec fn s_args(f: nat, ts: Seq<TokenV>, p: int, done: Seq<CallArgV>) -> Result<
    (Seq<CallArgV>, int),
    ErrV,
>
    decreases f,
{
    if f == 0 {
        Err(too_deep(ts, p))
    } else if tk(ts, p) == Tok::RParen {
        Ok((done, p + 1))
    } else {
        let named = names(tk(ts, p)) && tk(ts, p + 1) == Tok::Colon;
        if !named && done.len() > 0 && done.last().name is Some {
            Err(
                err(
                    ErrorKind::Syntax,
                    "a positional argument cannot follow a named one"@,
                    at(ts, p).span,
                ),
            )
        } else {
            let q = if named {
                p + 2
            } else {
                p
            };
            match s_expr((f - 1) as nat, ts, q) {
                Err(e) => Err(e),
                Ok((value, q2)) => {
                    let arg = CallArgV {
                        name: if named {
                            Some(word_of(at(ts, p).kind))
                        } else {
                            None
                        },
                        name_span: at(ts, p).span,
                        value,
                    };
                    if tk(ts, q2) == Tok::Comma {
                        s_args((f - 1) as nat, ts, q2 + 1, done.push(arg))
                    } else if tk(ts, q2) == Tok::RParen {
                        Ok((done.push(arg), q2 + 1))
                    } else {
                        Err(expected(ts, q2, "`,` or `)`"@))
                    }
                },
            }
        }
    }
}

// -- the grammar: declarations ---------------------------------------------------------------

/// The receiver a method is handed.
pub open spec fn s_self() -> ParamV {
    ParamV { name: "self"@, ty: None, default: None, bind: Bind::Final, receiver: true }
}

/// How a word binds a name.
pub open spec fn s_bind(kind: Tok) -> Option<Bind> {
    match kind {
        Tok::Let => Some(Bind::Let),
        Tok::Final => Some(Bind::Final),
        Tok::Const => Some(Bind::Const),
        _ => None,
    }
}

/// An expression behind an `=`, where there is one.
pub open spec fn s_initializer(f: nat, ts: Seq<TokenV>, p: int) -> Result<(Option<ExprV>, int), ErrV> {
    if tk(ts, p) == Tok::Assign {
        match s_expr(f, ts, p + 1) {
            Err(e) => Err(e),
            Ok((value, q)) => Ok((Some(value), q)),
        }
    } else {
        Ok((None, p))
    }
}

/// Parameters up to a closing parenthesis.
pub open spec fn s_params(f: nat, ts: Seq<TokenV>, p: int, done: Seq<ParamV>) -> Result<
    (Seq<ParamV>, int),
    ErrV,
>
    decreases f,
{
    if f == 0 {
        Err(too_deep(ts, p))
    } else if tk(ts, p) == Tok::RParen {
        Ok((done, p + 1))
    } else {
        let bind = match s_bind(tk(ts, p)) {
            Some(b) => b,
            None => Bind::Let,
        };
        let q = if s_bind(tk(ts, p)) is Some {
            p + 1
        } else {
            p
        };
        match s_name(ts, q, "a parameter name"@) {
            Err(e) => Err(e),
            Ok((name, q1)) => match s_annotation((f - 1) as nat, ts, q1) {
                Err(e) => Err(e),
                Ok((ty, q2)) => match s_initializer((f - 1) as nat, ts, q2) {
                    Err(e) => Err(e),
                    Ok((default, q3)) => {
                        let param = ParamV { name, ty, default, bind, receiver: false };
                        if tk(ts, q3) == Tok::Comma {
                            s_params((f - 1) as nat, ts, q3 + 1, done.push(param))
                        } else if tk(ts, q3) == Tok::RParen {
                            Ok((done.push(param), q3 + 1))
                        } else {
                            Err(expected(ts, q3, "`,` or `)`"@))
                        }
                    },
                },
            },
        }
    }
}

/// What stands in front of a function's name.
pub struct HeadV {
    pub visibility: Visibility,
    pub explicit: bool,
    pub method: bool,
    pub is_op: bool,
}

/// A function from its name on.
pub open spec fn s_fn(f: nat, ts: Seq<TokenV>, p: int, head: HeadV) -> Result<(FnDeclV, int), ErrV>
    decreases f,
{
    if f == 0 {
        Err(too_deep(ts, p))
    } else {
        match s_name(ts, p, "a function name"@) {
            Err(e) => Err(e),
            Ok((name, q)) => if head.is_op && op_named(name) is None {
                Err(err(ErrorKind::Syntax, "there is no `op "@ + name + "`"@, at(ts, p).span))
            } else {
                let op = if head.is_op {
                    op_named(name)
                } else {
                    None
                };
                match s_expect(ts, q, Tok::LParen, "`(`"@) {
                    Err(e) => Err(e),
                    Ok(q1) => match s_params(
                        (f - 1) as nat,
                        ts,
                        q1,
                        if head.method {
                            seq![s_self()]
                        } else {
                            Seq::empty()
                        },
                    ) {
                        Err(e) => Err(e),
                        Ok((params, q2)) => if s_wrong_operands(op, params.len() as int) {
                            Err(
                                err(
                                    ErrorKind::Syntax,
                                    "`op "@ + name + "` takes "@ + digits(op->0.operands()->0)
                                        + " besides the receiver"@,
                                    at(ts, p).span,
                                ),
                            )
                        } else {
                            match s_annotation((f - 1) as nat, ts, q2) {
                                Err(e) => Err(e),
                                Ok((result, q3)) => match s_block((f - 1) as nat, ts, q3) {
                                    Err(e) => Err(e),
                                    Ok((body, q4)) => Ok(
                                        (
                                            FnDeclV {
                                                name,
                                                name_span: at(ts, p).span,
                                                params,
                                                result,
                                                body,
                                                op,
                                                visibility: head.visibility,
                                                explicit: head.explicit,
                                            },
                                            q4,
                                        ),
                                    ),
                                },
                            }
                        },
                    },
                }
            },
        }
    }
}

/// Whether an `op` was declared with a number of parameters the language never passes.
pub open spec fn s_wrong_operands(op: Option<Op>, params: int) -> bool {
    match op {
        Some(op) => match op.operands() {
            Some(n) => params != n + 1,
            None => false,
        },
        None => false,
    }
}

/// The words in front of a member.
pub open spec fn s_modifiers(f: nat, ts: Seq<TokenV>, p: int, head: HeadV) -> Result<(HeadV, int), ErrV>
    decreases f,
{
    if f == 0 {
        Err(too_deep(ts, p))
    } else {
        match tk(ts, p) {
            Tok::Public => s_modifiers(
                (f - 1) as nat,
                ts,
                p + 1,
                HeadV { visibility: Visibility::Public, ..head },
            ),
            Tok::Protected => s_modifiers(
                (f - 1) as nat,
                ts,
                p + 1,
                HeadV { visibility: Visibility::Protected, ..head },
            ),
            Tok::Private => s_modifiers(
                (f - 1) as nat,
                ts,
                p + 1,
                HeadV { visibility: Visibility::Private, ..head },
            ),
            Tok::Explicit => s_modifiers(
                (f - 1) as nat,
                ts,
                p + 1,
                HeadV { explicit: true, ..head },
            ),
            Tok::Override => s_modifiers((f - 1) as nat, ts, p + 1, head),
            _ => Ok((head, p)),
        }
    }
}

/// The members of a class, or of an `extend` block, up to the closing brace.
pub open spec fn s_members(
    f: nat,
    ts: Seq<TokenV>,
    p: int,
    methods: Seq<FnDeclV>,
    fields: Seq<FieldDeclV>,
) -> Result<(Seq<FnDeclV>, Seq<FieldDeclV>, int), ErrV>
    decreases f,
{
    if f == 0 {
        Err(too_deep(ts, p))
    } else if tk(ts, p) == Tok::Semi {
        s_members((f - 1) as nat, ts, p + 1, methods, fields)
    } else if tk(ts, p) == Tok::RBrace {
        Ok((methods, fields, p + 1))
    } else {
        match s_modifiers(
            (f - 1) as nat,
            ts,
            p,
            HeadV {
                visibility: Visibility::Unsaid,
                explicit: false,
                method: true,
                is_op: false,
            },
        ) {
            Err(e) => Err(e),
            Ok((head, q)) => match tk(ts, q) {
                Tok::Fn => match s_fn((f - 1) as nat, ts, q + 1, head) {
                    Err(e) => Err(e),
                    Ok((decl, q2)) => s_members((f - 1) as nat, ts, q2, methods.push(decl), fields),
                },
                Tok::Op => match s_fn(
                    (f - 1) as nat,
                    ts,
                    q + 1,
                    HeadV { is_op: true, ..head },
                ) {
                    Err(e) => Err(e),
                    Ok((decl, q2)) => s_members((f - 1) as nat, ts, q2, methods.push(decl), fields),
                },
                _ => match s_field((f - 1) as nat, ts, q, head.visibility) {
                    Err(e) => Err(e),
                    Ok((field, q2)) => s_members(
                        (f - 1) as nat,
                        ts,
                        q2,
                        methods,
                        fields.push(field),
                    ),
                },
            },
        }
    }
}

/// A field, from the word that binds it on.
pub open spec fn s_field(f: nat, ts: Seq<TokenV>, p: int, visibility: Visibility) -> Result<
    (FieldDeclV, int),
    ErrV,
> {
    match s_bind(tk(ts, p)) {
        None => Err(expected(ts, p, "a member"@)),
        Some(bind) => match s_name(ts, p + 1, "a field name"@) {
            Err(e) => Err(e),
            Ok((name, q)) => match s_annotation(f, ts, q) {
                Err(e) => Err(e),
                Ok((ty, q1)) => match s_initializer(f, ts, q1) {
                    Err(e) => Err(e),
                    Ok((value, q2)) => match s_end(ts, q2) {
                        Err(e) => Err(e),
                        Ok(q3) => Ok(
                            (
                                FieldDeclV {
                                    name,
                                    name_span: at(ts, p + 1).span,
                                    ty,
                                    value,
                                    bind,
                                    visibility,
                                },
                                q3,
                            ),
                        ),
                    },
                },
            },
        },
    }
}

/// Type parameters up to a closing bracket.
pub open spec fn s_type_params(f: nat, ts: Seq<TokenV>, p: int, done: Seq<TypeParamV>) -> Result<
    (Seq<TypeParamV>, int),
    ErrV,
>
    decreases f,
{
    if f == 0 {
        Err(too_deep(ts, p))
    } else if tk(ts, p) == Tok::RBracket {
        Ok((done, p + 1))
    } else {
        let is_const = tk(ts, p) == Tok::Const;
        let q = if is_const {
            p + 1
        } else {
            p
        };
        match s_name(ts, q, "a type parameter"@) {
            Err(e) => Err(e),
            Ok((name, q1)) => match s_annotation((f - 1) as nat, ts, q1) {
                Err(e) => Err(e),
                Ok((ty, q2)) => if is_const && ty is None {
                    Err(expected(ts, q2, "`:`"@))
                } else {
                    let param = TypeParamV {
                        name,
                        kind: if is_const {
                            ParamKindV::Const { ty: ty->0 }
                        } else {
                            ParamKindV::Type { bound: ty }
                        },
                    };
                    if tk(ts, q2) == Tok::Comma {
                        s_type_params((f - 1) as nat, ts, q2 + 1, done.push(param))
                    } else if tk(ts, q2) == Tok::RBracket {
                        Ok((done.push(param), q2 + 1))
                    } else {
                        Err(expected(ts, q2, "`,` or `]`"@))
                    }
                },
            },
        }
    }
}

/// The parameter list of a class, where there is one.
pub open spec fn s_class_params(f: nat, ts: Seq<TokenV>, p: int) -> Result<
    (Seq<TypeParamV>, int),
    ErrV,
> {
    if tk(ts, p) == Tok::LBracket {
        s_type_params(f, ts, p + 1, Seq::empty())
    } else {
        Ok((Seq::empty(), p))
    }
}

/// The class another extends, where it does.
pub open spec fn s_parent(ts: Seq<TokenV>, p: int) -> Result<(Option<Seq<char>>, int), ErrV> {
    if tk(ts, p) == Tok::Extends {
        match s_name(ts, p + 1, "a class name"@) {
            Err(e) => Err(e),
            Ok((name, q)) => Ok((Some(name), q)),
        }
    } else {
        Ok((None, p))
    }
}

/// A class, from its name on.
pub open spec fn s_class(
    f: nat,
    ts: Seq<TokenV>,
    p: int,
    visibility: Visibility,
    openness: Openness,
) -> Result<(ClassDeclV, int), ErrV>
    decreases f,
{
    if f == 0 {
        Err(too_deep(ts, p))
    } else {
        match s_name(ts, p, "a class name"@) {
            Err(e) => Err(e),
            Ok((name, q)) => match s_class_params((f - 1) as nat, ts, q) {
                Err(e) => Err(e),
                Ok((params, q1)) => match s_parent(ts, q1) {
                    Err(e) => Err(e),
                    Ok((parent, q2)) => match s_expect(ts, q2, Tok::LBrace, "`{`"@) {
                        Err(e) => Err(e),
                        Ok(q3) => match s_members(
                            (f - 1) as nat,
                            ts,
                            q3,
                            Seq::empty(),
                            Seq::empty(),
                        ) {
                            Err(e) => Err(e),
                            Ok((methods, fields, q4)) => Ok(
                                (
                                    ClassDeclV {
                                        name,
                                        name_span: at(ts, p).span,
                                        params,
                                        parent,
                                        parent_span: at(ts, q2 - 1).span,
                                        methods,
                                        fields,
                                        openness,
                                        visibility,
                                    },
                                    q4,
                                ),
                            ),
                        },
                    },
                },
            },
        }
    }
}

// -- the grammar: statements --------------------------------------------------------------------

/// A statement of this kind, from the token at `p` up to the one before `q`.
pub open spec fn s_made(ts: Seq<TokenV>, p: int, q: int, kind: StmtKindV) -> StmtV {
    StmtV { kind, span: between(ts, p, q) }
}

pub open spec fn s_block(f: nat, ts: Seq<TokenV>, p: int) -> Result<(BlockV, int), ErrV>
    decreases f,
{
    if f == 0 {
        Err(too_deep(ts, p))
    } else {
        match s_expect(ts, p, Tok::LBrace, "`{`"@) {
            Err(e) => Err(e),
            Ok(q) => match s_stmts((f - 1) as nat, ts, q, Seq::empty(), false) {
                Err(e) => Err(e),
                Ok((stmts, q2)) => Ok((BlockV { stmts, span: between(ts, p, q2) }, q2)),
            },
        }
    }
}

/// Statements up to a closing brace, or, for a whole program, up to the end.
pub open spec fn s_stmts(f: nat, ts: Seq<TokenV>, p: int, done: Seq<StmtV>, top: bool) -> Result<
    (Seq<StmtV>, int),
    ErrV,
>
    decreases f,
{
    if f == 0 {
        Err(too_deep(ts, p))
    } else if tk(ts, p) == Tok::Semi {
        s_stmts((f - 1) as nat, ts, p + 1, done, top)
    } else if top && tk(ts, p) == Tok::Eof {
        Ok((done, p))
    } else if !top && tk(ts, p) == Tok::RBrace {
        Ok((done, p + 1))
    } else if tk(ts, p) == Tok::Eof {
        Err(expected(ts, p, "`}`"@))
    } else {
        match s_stmt((f - 1) as nat, ts, p) {
            Err(e) => Err(e),
            Ok((stmt, q)) => s_stmts((f - 1) as nat, ts, q, done.push(stmt), top),
        }
    }
}

/// A function as a statement, from its name on.
pub open spec fn s_fn_stmt(f: nat, ts: Seq<TokenV>, start: int, p: int, visibility: Visibility) -> Result<
    (StmtV, int),
    ErrV,
>
    decreases f,
{
    if f == 0 {
        Err(too_deep(ts, p))
    } else {
        match s_fn(
            (f - 1) as nat,
            ts,
            p,
            HeadV { visibility, explicit: false, method: false, is_op: false },
        ) {
            Err(e) => Err(e),
            Ok((decl, q)) => Ok((s_made(ts, start, q, StmtKindV::Fn(Box::new(decl))), q)),
        }
    }
}

/// A class as a statement, from its name on.
pub open spec fn s_class_stmt(
    f: nat,
    ts: Seq<TokenV>,
    start: int,
    p: int,
    visibility: Visibility,
    openness: Openness,
) -> Result<(StmtV, int), ErrV>
    decreases f,
{
    if f == 0 {
        Err(too_deep(ts, p))
    } else {
        match s_class((f - 1) as nat, ts, p, visibility, openness) {
            Err(e) => Err(e),
            Ok((decl, q)) => Ok((s_made(ts, start, q, StmtKindV::Class(Box::new(decl))), q)),
        }
    }
}

/// The word in front of `class` that closes it.
pub open spec fn s_openness(kind: Tok) -> Option<Openness> {
    match kind {
        Tok::Final => Some(Openness::Final),
        Tok::Sealed => Some(Openness::Sealed),
        Tok::Complete => Some(Openness::Complete),
        _ => None,
    }
}

/// A declaration, `start` being where its first word stands.
pub open spec fn s_declaration(f: nat, ts: Seq<TokenV>, start: int, p: int, visibility: Visibility) -> Result<
    (StmtV, int),
    ErrV,
>
    decreases f,
{
    if f == 0 {
        Err(too_deep(ts, p))
    } else if tk(ts, p) == Tok::Fn {
        s_fn_stmt((f - 1) as nat, ts, start, p + 1, visibility)
    } else if tk(ts, p) == Tok::Class {
        s_class_stmt((f - 1) as nat, ts, start, p + 1, visibility, Openness::Open)
    } else if s_openness(tk(ts, p)) is Some && tk(ts, p + 1) == Tok::Class {
        s_class_stmt((f - 1) as nat, ts, start, p + 2, visibility, s_openness(tk(ts, p))->0)
    } else {
        s_let((f - 1) as nat, ts, start, p, visibility)
    }
}

/// A binding, from the word that binds it on. It needs a value, or a type to take
/// one from.
pub open spec fn s_let(f: nat, ts: Seq<TokenV>, start: int, p: int, visibility: Visibility) -> Result<
    (StmtV, int),
    ErrV,
> {
    match s_bind(tk(ts, p)) {
        None => Err(expected(ts, p, "a declaration"@)),
        Some(bind) => match s_name(ts, p + 1, "a name"@) {
            Err(e) => Err(e),
            Ok((name, q)) => match s_annotation(f, ts, q) {
                Err(e) => Err(e),
                Ok((ty, q1)) => match s_initializer(f, ts, q1) {
                    Err(e) => Err(e),
                    Ok((value, q2)) => if ty is None && value is None {
                        Err(expected(ts, q2, "`=`"@))
                    } else {
                        match s_end(ts, q2) {
                            Err(e) => Err(e),
                            Ok(q3) => Ok(
                                (
                                    s_made(
                                        ts,
                                        start,
                                        q2,
                                        StmtKindV::Let {
                                            name,
                                            name_span: at(ts, p + 1).span,
                                            ty,
                                            value,
                                            bind,
                                            visibility,
                                        },
                                    ),
                                    q3,
                                ),
                            ),
                        }
                    },
                },
            },
        },
    }
}

/// Names with commas between them.
pub open spec fn s_import_names(f: nat, ts: Seq<TokenV>, p: int, done: Seq<ImportNameV>) -> Result<
    (Seq<ImportNameV>, int),
    ErrV,
>
    decreases f,
{
    if f == 0 {
        Err(too_deep(ts, p))
    } else {
        match s_name(ts, p, "a name to import"@) {
            Err(e) => Err(e),
            Ok((name, q)) => {
                let one = ImportNameV { name, span: at(ts, p).span };
                if tk(ts, q) == Tok::Comma {
                    s_import_names((f - 1) as nat, ts, q + 1, done.push(one))
                } else {
                    Ok((done.push(one), q))
                }
            },
        }
    }
}

/// An import, in either of its two forms.
pub open spec fn s_import(f: nat, ts: Seq<TokenV>, p: int) -> Result<(StmtV, int), ErrV> {
    match s_name(ts, p + 1, "a module name"@) {
        Err(e) => Err(e),
        Ok((module, q)) => if tk(ts, p) == Tok::Import {
            match s_end(ts, q) {
                Err(e) => Err(e),
                Ok(q2) => Ok(
                    (
                        s_made(
                            ts,
                            p,
                            q,
                            StmtKindV::Import {
                                module,
                                module_span: at(ts, p + 1).span,
                                names: None,
                            },
                        ),
                        q2,
                    ),
                ),
            }
        } else {
            match s_expect(ts, q, Tok::Import, "`import`"@) {
                Err(e) => Err(e),
                Ok(q1) => match s_import_names(f, ts, q1, Seq::empty()) {
                    Err(e) => Err(e),
                    Ok((names, q2)) => match s_end(ts, q2) {
                        Err(e) => Err(e),
                        Ok(q3) => Ok(
                            (
                                s_made(
                                    ts,
                                    p,
                                    q2,
                                    StmtKindV::Import {
                                        module,
                                        module_span: at(ts, p + 1).span,
                                        names: Some(names),
                                    },
                                ),
                                q3,
                            ),
                        ),
                    },
                },
            }
        },
    }
}

/// An `else` behind an `if`, where there is one.
pub open spec fn s_else(f: nat, ts: Seq<TokenV>, p: int) -> Result<(Option<Box<StmtV>>, int), ErrV>
    decreases f,
{
    if f == 0 {
        Err(too_deep(ts, p))
    } else if tk(ts, p) != Tok::Else {
        Ok((None, p))
    } else if tk(ts, p + 1) == Tok::If {
        match s_if((f - 1) as nat, ts, p + 1) {
            Err(e) => Err(e),
            Ok((stmt, q)) => Ok((Some(Box::new(stmt)), q)),
        }
    } else {
        match s_block((f - 1) as nat, ts, p + 1) {
            Err(e) => Err(e),
            Ok((block, q)) => Ok(
                (Some(Box::new(s_made(ts, p + 1, q, StmtKindV::Block(block)))), q),
            ),
        }
    }
}

pub open spec fn s_if(f: nat, ts: Seq<TokenV>, p: int) -> Result<(StmtV, int), ErrV>
    decreases f,
{
    if f == 0 {
        Err(too_deep(ts, p))
    } else {
        match s_expr((f - 1) as nat, ts, p + 1) {
            Err(e) => Err(e),
            Ok((cond, q)) => match s_block((f - 1) as nat, ts, q) {
                Err(e) => Err(e),
                Ok((consequent, q1)) => match s_else((f - 1) as nat, ts, q1) {
                    Err(e) => Err(e),
                    Ok((otherwise, q2)) => Ok(
                        (
                            s_made(ts, p, q2, StmtKindV::If { cond, consequent, otherwise }),
                            q2,
                        ),
                    ),
                },
            },
        }
    }
}

pub open spec fn s_while(f: nat, ts: Seq<TokenV>, p: int) -> Result<(StmtV, int), ErrV>
    decreases f,
{
    if f == 0 {
        Err(too_deep(ts, p))
    } else {
        match s_expr((f - 1) as nat, ts, p + 1) {
            Err(e) => Err(e),
            Ok((cond, q)) => match s_block((f - 1) as nat, ts, q) {
                Err(e) => Err(e),
                Ok((body, q1)) => Ok((s_made(ts, p, q1, StmtKindV::While { cond, body }), q1)),
            },
        }
    }
}

pub open spec fn s_for(f: nat, ts: Seq<TokenV>, p: int) -> Result<(StmtV, int), ErrV>
    decreases f,
{
    if f == 0 {
        Err(too_deep(ts, p))
    } else {
        match s_name(ts, p + 1, "a loop variable"@) {
            Err(e) => Err(e),
            Ok((var, q)) => match s_expect(ts, q, Tok::In, "`in`"@) {
                Err(e) => Err(e),
                Ok(q1) => match s_expr((f - 1) as nat, ts, q1) {
                    Err(e) => Err(e),
                    Ok((iter, q2)) => match s_block((f - 1) as nat, ts, q2) {
                        Err(e) => Err(e),
                        Ok((body, q3)) => Ok(
                            (s_made(ts, p, q3, StmtKindV::For { var, iter, body }), q3),
                        ),
                    },
                },
            },
        }
    }
}

pub open spec fn s_try(f: nat, ts: Seq<TokenV>, p: int) -> Result<(StmtV, int), ErrV>
    decreases f,
{
    if f == 0 {
        Err(too_deep(ts, p))
    } else {
        match s_block((f - 1) as nat, ts, p + 1) {
            Err(e) => Err(e),
            Ok((body, q)) => match s_expect(ts, q, Tok::Catch, "`catch`"@) {
                Err(e) => Err(e),
                Ok(q1) => match s_name(ts, q1, "a name for the error"@) {
                    Err(e) => Err(e),
                    Ok((binding, q2)) => match s_block((f - 1) as nat, ts, q2) {
                        Err(e) => Err(e),
                        Ok((handler, q3)) => Ok(
                            (s_made(ts, p, q3, StmtKindV::Try { body, binding, handler }), q3),
                        ),
                    },
                },
            },
        }
    }
}

/// A `return`, with the value on its line where there is one.
pub open spec fn s_return(f: nat, ts: Seq<TokenV>, p: int) -> Result<(StmtV, int), ErrV> {
    let next = at(ts, p + 1);
    if next.newline_before || tk(ts, p + 1) == Tok::RBrace || tk(ts, p + 1) == Tok::Eof
        || tk(ts, p + 1) == Tok::Semi {
        match s_end(ts, p + 1) {
            Err(e) => Err(e),
            Ok(q) => Ok((s_made(ts, p, p + 1, StmtKindV::Return(None)), q)),
        }
    } else {
        match s_expr(f, ts, p + 1) {
            Err(e) => Err(e),
            Ok((value, q)) => match s_end(ts, q) {
                Err(e) => Err(e),
                Ok(q2) => Ok((s_made(ts, p, q, StmtKindV::Return(Some(value))), q2)),
            },
        }
    }
}

/// An `extend` block, which adds methods and nothing else.
pub open spec fn s_extend(f: nat, ts: Seq<TokenV>, p: int) -> Result<(StmtV, int), ErrV>
    decreases f,
{
    if f == 0 {
        Err(too_deep(ts, p))
    } else {
        match s_name(ts, p + 1, "a type to extend"@) {
            Err(e) => Err(e),
            Ok((target, q)) => match s_expect(ts, q, Tok::LBrace, "`{`"@) {
                Err(e) => Err(e),
                Ok(q1) => match s_members((f - 1) as nat, ts, q1, Seq::empty(), Seq::empty()) {
                    Err(e) => Err(e),
                    Ok((methods, fields, q2)) => if fields.len() > 0 {
                        Err(
                            err(
                                ErrorKind::Syntax,
                                "an `extend` block adds methods, not fields"@,
                                fields[0].name_span,
                            ),
                        )
                    } else {
                        Ok(
                            (
                                s_made(
                                    ts,
                                    p,
                                    q2,
                                    StmtKindV::Extend {
                                        target,
                                        target_span: at(ts, p + 1).span,
                                        methods,
                                    },
                                ),
                                q2,
                            ),
                        )
                    },
                },
            },
        }
    }
}

/// One statement.
pub open spec fn s_stmt(f: nat, ts: Seq<TokenV>, p: int) -> Result<(StmtV, int), ErrV>
    decreases f,
{
    if f == 0 {
        Err(too_deep(ts, p))
    } else {
        let g = (f - 1) as nat;
        match tk(ts, p) {
            Tok::Let | Tok::Final | Tok::Const | Tok::Fn
            | Tok::Class | Tok::Sealed | Tok::Complete => s_declaration(
                g,
                ts,
                p,
                p,
                Visibility::Unsaid,
            ),
            Tok::Public => s_declaration(g, ts, p, p + 1, Visibility::Public),
            Tok::Protected => s_declaration(g, ts, p, p + 1, Visibility::Protected),
            Tok::Private => s_declaration(g, ts, p, p + 1, Visibility::Private),
            Tok::Extend => s_extend(g, ts, p),
            Tok::Import | Tok::From => s_import(g, ts, p),
            Tok::If => s_if(g, ts, p),
            Tok::While => s_while(g, ts, p),
            Tok::For => s_for(g, ts, p),
            Tok::Try => s_try(g, ts, p),
            Tok::Return => s_return(g, ts, p),
            Tok::Throw => match s_expr(g, ts, p + 1) {
                Err(e) => Err(e),
                Ok((value, q)) => match s_end(ts, q) {
                    Err(e) => Err(e),
                    Ok(q2) => Ok((s_made(ts, p, q, StmtKindV::Throw(value)), q2)),
                },
            },
            Tok::LBrace => match s_block(g, ts, p) {
                Err(e) => Err(e),
                Ok((block, q)) => Ok((s_made(ts, p, q, StmtKindV::Block(block)), q)),
            },
            _ => match s_expr(g, ts, p) {
                Err(e) => Err(e),
                Ok((value, q)) => match s_end(ts, q) {
                    Err(e) => Err(e),
                    Ok(q2) => Ok((s_made(ts, p, q, StmtKindV::Expr(value)), q2)),
                },
            },
        }
    }
}

/// The program a sequence of tokens writes, or the first error in it.
pub open spec fn program_of(ts: Seq<TokenV>) -> Result<Seq<StmtV>, ErrV> {
    match s_stmts(PARSE_DEPTH as nat, ts, 0, Seq::empty(), true) {
        Err(e) => Err(e),
        Ok((stmts, _)) => Ok(stmts),
    }
}

/// How many braces are open behind a token, of those opened since some place.
pub open spec fn braces_behind(tok: Tok, open: nat) -> nat {
    if tok == Tok::LBrace {
        open + 1
    } else if tok == Tok::RBrace && open > 0 {
        (open - 1) as nat
    } else {
        open
    }
}

/// Where the next statement starts behind one that cannot be read: at the first token of a
/// row, outside of every brace opened since.
pub open spec fn next_start(ts: Seq<TokenV>, p: int, open: nat) -> int
    decreases ts.len() - p,
{
    if tk(ts, p) == Tok::Eof || p < 0 || (open == 0 && at(ts, p).newline_before && tk(ts, p)
        != Tok::RBrace) {
        p
    } else {
        next_start(ts, p + 1, braces_behind(tk(ts, p), open))
    }
}

/// The statements of a program that can be read, and the errors in the others.
pub open spec fn s_recovered(f: nat, ts: Seq<TokenV>, p: int, done: Seq<StmtV>, errors: Seq<ErrV>) -> (
    Seq<StmtV>,
    Seq<ErrV>,
)
    decreases f,
{
    if f == 0 {
        (done, errors.push(too_deep(ts, p)))
    } else if tk(ts, p) == Tok::Semi {
        s_recovered((f - 1) as nat, ts, p + 1, done, errors)
    } else if tk(ts, p) == Tok::Eof {
        (done, errors)
    } else {
        match s_stmt((f - 1) as nat, ts, p) {
            Err(e) => s_recovered(
                (f - 1) as nat,
                ts,
                next_start(ts, p + 1, braces_behind(tk(ts, p), 0)),
                done,
                errors.push(e),
            ),
            Ok((stmt, q)) => s_recovered((f - 1) as nat, ts, q, done.push(stmt), errors),
        }
    }
}

/// What can be read of a program, and the errors in the rest.
pub open spec fn recovered_of(ts: Seq<TokenV>) -> (Seq<StmtV>, Seq<ErrV>) {
    s_recovered(PARSE_DEPTH as nat, ts, 0, Seq::empty(), Seq::empty())
}

proof fn lemma_errors_stay(f: nat, ts: Seq<TokenV>, p: int, done: Seq<StmtV>, errors: Seq<ErrV>)
    requires
        errors.len() > 0,
    ensures
        s_recovered(f, ts, p, done, errors).1.len() > 0,
        s_recovered(f, ts, p, done, errors).1[0] == errors[0],
    decreases f,
{
    if f > 0 {
        if tk(ts, p) == Tok::Semi {
            lemma_errors_stay((f - 1) as nat, ts, p + 1, done, errors);
        } else if tk(ts, p) != Tok::Eof {
            match s_stmt((f - 1) as nat, ts, p) {
                Err(e) => {
                    lemma_errors_stay(
                        (f - 1) as nat,
                        ts,
                        next_start(ts, p + 1, braces_behind(tk(ts, p), 0)),
                        done,
                        errors.push(e),
                    );
                },
                Ok((stmt, q)) => {
                    lemma_errors_stay((f - 1) as nat, ts, q, done.push(stmt), errors);
                },
            }
        }
    }
}

proof fn lemma_recovered(f: nat, ts: Seq<TokenV>, p: int, done: Seq<StmtV>)
    ensures
        match s_stmts(f, ts, p, done, true) {
            Ok((stmts, _)) => s_recovered(f, ts, p, done, Seq::empty()) == (
                stmts,
                Seq::<ErrV>::empty(),
            ),
            Err(e) => s_recovered(f, ts, p, done, Seq::empty()).1.len() > 0 && s_recovered(
                f,
                ts,
                p,
                done,
                Seq::empty(),
            ).1[0] == e,
        },
    decreases f,
{
    if f > 0 {
        if tk(ts, p) == Tok::Semi {
            lemma_recovered((f - 1) as nat, ts, p + 1, done);
        } else if tk(ts, p) != Tok::Eof {
            match s_stmt((f - 1) as nat, ts, p) {
                Err(e) => {
                    lemma_errors_stay(
                        (f - 1) as nat,
                        ts,
                        next_start(ts, p + 1, braces_behind(tk(ts, p), 0)),
                        done,
                        Seq::empty().push(e),
                    );
                },
                Ok((stmt, q)) => {
                    lemma_recovered((f - 1) as nat, ts, q, done.push(stmt));
                },
            }
        }
    }
}

/// Reading on past errors finds the program that has none, and finds the first error first.
pub proof fn law_reading_on_agrees_with_reading(ts: Seq<TokenV>)
    ensures
        match program_of(ts) {
            Ok(stmts) => recovered_of(ts) == (stmts, Seq::<ErrV>::empty()),
            Err(e) => recovered_of(ts).1.len() > 0 && recovered_of(ts).1[0] == e,
        },
{
    lemma_recovered(PARSE_DEPTH as nat, ts, 0, Seq::empty());
}

// -- the parser ---------------------------------------------------------------------------------

/// What an outcome says of a tree and of where it ends.
pub open spec fn parsed<T: View>(r: Result<(T, usize), QuinceError>) -> Result<(T::V, int), ErrV> {
    match r {
        Ok((tree, q)) => Ok((tree@, q as int)),
        Err(e) => Err(e@),
    }
}

/// A slice of an operand.
fn sliced(target: Expr, start: Option<Box<Expr>>, end: Option<Box<Expr>>, span: Span) -> (r: Expr)
    ensures
        r@ == (ExprV {
            kind: ExprKindV::Slice {
                target: Box::new(target@),
                start: opt_boxed(start),
                end: opt_boxed(end),
            },
            span,
        }),
{
    Expr { kind: ExprKind::Slice { target: Box::new(target), start, end }, span }
}

/// An operand at an index.
fn indexed(target: Expr, index: Expr, span: Span) -> (r: Expr)
    ensures
        r@ == (ExprV {
            kind: ExprKindV::Index { target: Box::new(target@), index: Box::new(index@) },
            span,
        }),
{
    Expr { kind: ExprKind::Index { target: Box::new(target), index: Box::new(index) }, span }
}

/// An operand with type arguments.
fn applied(target: Expr, args: Vec<Expr>, span: Span) -> (r: Expr)
    ensures
        r@ == (ExprV {
            kind: ExprKindV::TypeArgs { target: Box::new(target@), args: exprs_v(args@) },
            span,
        }),
{
    Expr { kind: ExprKind::TypeArgs { target: Box::new(target), args }, span }
}

/// Tokens, read from any position.
pub struct Parser {
    pub tokens: Vec<Token>,
}

/// [`HeadV`], held.
#[derive(Clone, Copy)]
struct Head {
    visibility: Visibility,
    explicit: bool,
    method: bool,
    is_op: bool,
}

impl View for Head {
    type V = HeadV;

    closed spec fn view(&self) -> HeadV {
        HeadV {
            visibility: self.visibility,
            explicit: self.explicit,
            method: self.method,
            is_op: self.is_op,
        }
    }
}

impl Parser {
    pub open spec fn ts(&self) -> Seq<TokenV> {
        tokens_view(self.tokens@)
    }

    pub fn new(tokens: Vec<Token>) -> (r: Parser)
        ensures
            r.ts() == tokens_view(tokens@),
    {
        Parser { tokens }
    }

    fn tok(&self, p: usize) -> (r: Tok)
        ensures
            r == tk(self.ts(), p as int),
            r != Tok::Eof ==> p < self.tokens@.len(),
            self.tokens@.len() <= usize::MAX,
    {
        if p < self.tokens.len() {
            self.tokens[p].kind.tok()
        } else {
            Tok::Eof
        }
    }

    fn word(&self, p: usize) -> (r: String)
        requires
            p < self.tokens@.len(),
        ensures
            r@ == word_of(at(self.ts(), p as int).kind),
    {
        self.tokens[p].kind.word()
    }

    fn span(&self, p: usize) -> (r: Span)
        ensures
            r == at(self.ts(), p as int).span,
    {
        if p < self.tokens.len() {
            self.tokens[p].span
        } else {
            Span { start: 0, end: 0 }
        }
    }

    fn newline(&self, p: usize) -> (r: bool)
        ensures
            r == at(self.ts(), p as int).newline_before,
    {
        if p < self.tokens.len() {
            self.tokens[p].newline_before
        } else {
            true
        }
    }

    /// The end of the token before `q`.
    fn end_before(&self, q: usize) -> (r: usize)
        ensures
            r == at(self.ts(), q - 1).span.end,
    {
        if q > 0 {
            self.span(q - 1).end
        } else {
            0
        }
    }

    fn between(&self, p: usize, q: usize) -> (r: Span)
        ensures
            r == between(self.ts(), p as int, q as int),
    {
        Span { start: self.span(p).start, end: self.end_before(q) }
    }

    fn expected(&self, p: usize, what: &str) -> (r: QuinceError)
        ensures
            r@ == expected(self.ts(), p as int, what@),
    {
        let mut message = String::from_str("expected ");
        message.append(what);
        QuinceError::new(ErrorKind::Syntax, message, self.span(p))
    }

    fn too_deep(&self, p: usize) -> (r: QuinceError)
        ensures
            r@ == too_deep(self.ts(), p as int),
    {
        QuinceError::new(
            ErrorKind::Syntax,
            "this nests too deeply to read".to_owned(),
            self.span(p),
        )
    }

    fn expect(&self, p: usize, kind: Tok, what: &str) -> (r: Result<usize, QuinceError>)
        requires
            kind != Tok::Eof,
        ensures
            match r {
                Ok(q) => s_expect(self.ts(), p as int, kind, what@) == Ok::<int, ErrV>(q as int),
                Err(e) => s_expect(self.ts(), p as int, kind, what@) == Err::<int, ErrV>(e@),
            },
    {
        if self.tok(p) == kind {
            Ok(p + 1)
        } else {
            Err(self.expected(p, what))
        }
    }

    fn name(&self, p: usize, what: &str) -> (r: Result<(String, usize), QuinceError>)
        ensures
            parsed(r) == s_name(self.ts(), p as int, what@),
    {
        let kind = self.tok(p);
        if kind == Tok::Ident || kind == Tok::From {
            Ok((self.word(p), p + 1))
        } else {
            Err(self.expected(p, what))
        }
    }

    fn end(&self, p: usize) -> (r: Result<usize, QuinceError>)
        ensures
            match r {
                Ok(q) => s_end(self.ts(), p as int) == Ok::<int, ErrV>(q as int),
                Err(e) => s_end(self.ts(), p as int) == Err::<int, ErrV>(e@),
            },
    {
        match self.tok(p) {
            Tok::Semi => Ok(p + 1),
            Tok::RBrace => Ok(p),
            Tok::Eof => Ok(p),
            _ => if self.newline(p) {
                Ok(p)
            } else {
                Err(self.expected(p, "a new line or `;`"))
            },
        }
    }

    fn type_word(&self, p: usize) -> (r: Result<(TypeName, usize), QuinceError>)
        ensures
            parsed(r) == s_type_name(self.ts(), p as int),
    {
        match self.tok(p) {
            Tok::Ident => {
                let name = self.word(p);
                if same(name.as_str(), "any") || same(name.as_str(), "_") {
                    Ok((TypeName::Any, p + 1))
                } else {
                    Ok((TypeName::Named(name), p + 1))
                }
            },
            Tok::Int => Ok((TypeName::Const(ConstArg::Int(self.tokens[p].kind.number())), p + 1)),
            Tok::Str => Ok((TypeName::Const(ConstArg::Str(self.word(p))), p + 1)),
            Tok::True => Ok((TypeName::Const(ConstArg::Bool(true)), p + 1)),
            Tok::False => Ok((TypeName::Const(ConstArg::Bool(false)), p + 1)),
            _ => Err(self.expected(p, "a type")),
        }
    }

    fn type_expr(&self, f: usize, p: usize) -> (r: Result<(TypeExpr, usize), QuinceError>)
        ensures
            parsed(r) == s_type(f as nat, self.ts(), p as int),
        decreases f,
    {
        if f == 0 {
            return Err(self.too_deep(p));
        }
        let frozen = self.tok(p) == Tok::Const;
        let q: usize = if frozen {
            p + 1
        } else {
            p
        };
        let (name, q1) = self.type_word(q)?;
        if self.tok(q1) == Tok::LBracket && !self.newline(q1) {
            let (args, q2) = self.type_args(f - 1, q1 + 1, Vec::new())?;
            Ok(self.type_end(p, q2, name, args, true, frozen))
        } else {
            Ok(self.type_end(p, q1, name, Vec::new(), false, frozen))
        }
    }

    fn type_end(
        &self,
        start: usize,
        p: usize,
        name: TypeName,
        args: Vec<TypeExpr>,
        applied: bool,
        frozen: bool,
    ) -> (r: (TypeExpr, usize))
        ensures
            (r.0@, r.1 as int) == s_type_end(
                self.ts(),
                start as int,
                p as int,
                name@,
                type_exprs_v(args@),
                applied,
                frozen,
            ),
    {
        let nullable = self.tok(p) == Tok::Question;
        let q: usize = if nullable {
            p + 1
        } else {
            p
        };
        let span = self.between(start, q);
        (TypeExpr { name, args, applied, nullable, frozen, span }, q)
    }

    fn type_args(&self, f: usize, p: usize, done: Vec<TypeExpr>) -> (r: Result<
        (Vec<TypeExpr>, usize),
        QuinceError,
    >)
        ensures
            match r {
                Ok((args, q)) => s_type_args(
                    f as nat,
                    self.ts(),
                    p as int,
                    type_exprs_v(done@),
                ) == Ok::<(Seq<TypeExprV>, int), ErrV>((type_exprs_v(args@), q as int)),
                Err(e) => s_type_args(f as nat, self.ts(), p as int, type_exprs_v(done@)) == Err::<
                    (Seq<TypeExprV>, int),
                    ErrV,
                >(e@),
            },
        decreases f,
    {
        if f == 0 {
            return Err(self.too_deep(p));
        }
        if self.tok(p) == Tok::RBracket {
            return Ok((done, p + 1));
        }
        let (ty, q) = self.type_expr(f - 1, p)?;
        let mut done = done;
        done.push(ty);
        match self.tok(q) {
            Tok::Comma => self.type_args(f - 1, q + 1, done),
            Tok::RBracket => Ok((done, q + 1)),
            _ => Err(self.expected(q, "`,` or `]`")),
        }
    }

    fn annotation(&self, f: usize, p: usize) -> (r: Result<(Option<TypeExpr>, usize), QuinceError>)
        ensures
            match r {
                Ok((ty, q)) => s_annotation(f as nat, self.ts(), p as int) == Ok::<
                    (Option<TypeExprV>, int),
                    ErrV,
                >((opt_type(ty), q as int)),
                Err(e) => s_annotation(f as nat, self.ts(), p as int) == Err::<
                    (Option<TypeExprV>, int),
                    ErrV,
                >(e@),
            },
        decreases f, 1int,
    {
        if self.tok(p) == Tok::Colon {
            let (ty, q) = self.type_expr(f, p + 1)?;
            Ok((Some(ty), q))
        } else {
            Ok((None, p))
        }
    }

    fn infix(kind: Tok) -> (r: Option<(Infix, usize)>)
        ensures
            match r {
                Some((infix, power)) => s_infix(kind) == Some((infix, power as nat)) && power < 7
                    && kind != Tok::Eof,
                None => s_infix(kind) is None,
            },
    {
        match kind {
            Tok::OrOr => Some((Infix::Logical(LogicalOp::Or), 1)),
            Tok::AndAnd => Some((Infix::Logical(LogicalOp::And), 2)),
            Tok::Eq => Some((Infix::Binary(BinaryOp::Eq), 3)),
            Tok::Ne => Some((Infix::Binary(BinaryOp::Ne), 3)),
            Tok::Lt => Some((Infix::Binary(BinaryOp::Lt), 4)),
            Tok::Le => Some((Infix::Binary(BinaryOp::Le), 4)),
            Tok::Gt => Some((Infix::Binary(BinaryOp::Gt), 4)),
            Tok::Ge => Some((Infix::Binary(BinaryOp::Ge), 4)),
            Tok::In => Some((Infix::Binary(BinaryOp::In), 4)),
            Tok::Is => Some((Infix::Is, 4)),
            Tok::Plus => Some((Infix::Binary(BinaryOp::Add), 5)),
            Tok::Minus => Some((Infix::Binary(BinaryOp::Sub), 5)),
            Tok::Star => Some((Infix::Binary(BinaryOp::Mul), 6)),
            Tok::Slash => Some((Infix::Binary(BinaryOp::Div), 6)),
            Tok::SlashSlash => Some((Infix::Binary(BinaryOp::FloorDiv), 6)),
            Tok::Percent => Some((Infix::Binary(BinaryOp::Rem), 6)),
            _ => None,
        }
    }

    fn compound(kind: Tok) -> (r: Option<BinaryOp>)
        ensures
            r == s_compound(kind),
            r is Some ==> kind != Tok::Eof,
    {
        match kind {
            Tok::PlusAssign => Some(BinaryOp::Add),
            Tok::MinusAssign => Some(BinaryOp::Sub),
            Tok::StarAssign => Some(BinaryOp::Mul),
            Tok::SlashAssign => Some(BinaryOp::Div),
            Tok::PercentAssign => Some(BinaryOp::Rem),
            _ => None,
        }
    }

    fn expr(&self, f: usize, p: usize) -> (r: Result<(Expr, usize), QuinceError>)
        ensures
            parsed(r) == s_expr(f as nat, self.ts(), p as int),
        decreases f,
    {
        if f == 0 {
            return Err(self.too_deep(p));
        }
        let (lhs, q) = self.binary(f - 1, p, 1)?;
        if self.tok(q) == Tok::Assign {
            let (rhs, q2) = self.expr(f - 1, q + 1)?;
            let span = Span { start: lhs.span.start, end: rhs.span.end };
            let kind = ExprKind::Assign { target: Box::new(lhs), value: Box::new(rhs) };
            return Ok((Expr { kind, span }, q2));
        }
        match Parser::compound(self.tok(q)) {
            None => Ok((lhs, q)),
            Some(op) => {
                let (rhs, q2) = self.expr(f - 1, q + 1)?;
                let span = Span { start: lhs.span.start, end: rhs.span.end };
                let kind = ExprKind::AssignOp { op, target: Box::new(lhs), value: Box::new(rhs) };
                Ok((Expr { kind, span }, q2))
            },
        }
    }

    fn binary(&self, f: usize, p: usize, min: usize) -> (r: Result<(Expr, usize), QuinceError>)
        ensures
            parsed(r) == s_binary(f as nat, self.ts(), p as int, min as nat),
        decreases f,
    {
        if f == 0 {
            return Err(self.too_deep(p));
        }
        let (lhs, q) = self.unary(f - 1, p)?;
        self.infixes(f - 1, q, lhs, min)
    }

    fn infixes(&self, f: usize, p: usize, lhs: Expr, min: usize) -> (r: Result<
        (Expr, usize),
        QuinceError,
    >)
        ensures
            parsed(r) == s_infixes(f as nat, self.ts(), p as int, lhs@, min as nat),
        decreases f,
    {
        if f == 0 {
            return Err(self.too_deep(p));
        }
        let (infix, power): (Infix, usize) = match Parser::infix(self.tok(p)) {
            None => {
                return Ok((lhs, p));
            },
            Some(found) => found,
        };
        if power < min || (self.tok(p) == Tok::Minus && self.newline(p)) {
            return Ok((lhs, p));
        }
        match infix {
            Infix::Is => {
                let (ty, q) = self.type_expr(f - 1, p + 1)?;
                let span = Span { start: lhs.span.start, end: ty.span.end };
                let kind = ExprKind::Is { value: Box::new(lhs), ty };
                self.infixes(f - 1, q, Expr { kind, span }, min)
            },
            Infix::Binary(op) => {
                let (rhs, q) = self.binary(f - 1, p + 1, power + 1)?;
                let span = Span { start: lhs.span.start, end: rhs.span.end };
                let kind = ExprKind::Binary { op, lhs: Box::new(lhs), rhs: Box::new(rhs) };
                self.infixes(f - 1, q, Expr { kind, span }, min)
            },
            Infix::Logical(op) => {
                let (rhs, q) = self.binary(f - 1, p + 1, power + 1)?;
                let span = Span { start: lhs.span.start, end: rhs.span.end };
                let kind = ExprKind::Logical { op, lhs: Box::new(lhs), rhs: Box::new(rhs) };
                self.infixes(f - 1, q, Expr { kind, span }, min)
            },
        }
    }

    fn unary(&self, f: usize, p: usize) -> (r: Result<(Expr, usize), QuinceError>)
        ensures
            parsed(r) == s_unary(f as nat, self.ts(), p as int),
        decreases f,
    {
        if f == 0 {
            return Err(self.too_deep(p));
        }
        let op: Option<UnaryOp> = match self.tok(p) {
            Tok::Minus => Some(UnaryOp::Neg),
            Tok::Not => Some(UnaryOp::Not),
            _ => None,
        };
        match op {
            Some(op) => {
                let (rhs, q) = self.unary(f - 1, p + 1)?;
                let span = Span { start: self.span(p).start, end: rhs.span.end };
                Ok((Expr { kind: ExprKind::Unary { op, rhs: Box::new(rhs) }, span }, q))
            },
            None => {
                let (e, q) = self.primary(f - 1, p)?;
                self.postfix(f - 1, q, e)
            },
        }
    }

    fn atom(&self, p: usize) -> (r: Option<ExprKind>)
        ensures
            match r {
                Some(kind) => s_atom(self.ts(), p as int) == Some(kind@) && p
                    < self.tokens@.len() <= usize::MAX,
                None => s_atom(self.ts(), p as int) is None,
            },
    {
        match self.tok(p) {
            Tok::Int => Some(ExprKind::Int(self.tokens[p].kind.number())),
            Tok::Float => Some(ExprKind::Float(self.tokens[p].kind.bits())),
            Tok::Str => Some(ExprKind::Str(self.word(p))),
            Tok::True => Some(ExprKind::Bool(true)),
            Tok::False => Some(ExprKind::Bool(false)),
            Tok::Nil => Some(ExprKind::Nil),
            Tok::Ident => Some(ExprKind::Var(self.word(p))),
            Tok::From => Some(ExprKind::Var(self.word(p))),
            _ => None,
        }
    }

    fn primary(&self, f: usize, p: usize) -> (r: Result<(Expr, usize), QuinceError>)
        ensures
            parsed(r) == s_primary(f as nat, self.ts(), p as int),
        decreases f,
    {
        if f == 0 {
            return Err(self.too_deep(p));
        }
        if let Some(kind) = self.atom(p) {
            return Ok((Expr { kind, span: self.span(p) }, p + 1));
        }
        match self.tok(p) {
            Tok::Super => {
                let q: usize = self.expect(p + 1, Tok::Dot, "`.`")?;
                let (name, q2) = self.name(q, "a method name")?;
                Ok((Expr { kind: ExprKind::Super { name }, span: self.between(p, q2) }, q2))
            },
            Tok::LParen => {
                let (e, q) = self.expr(f - 1, p + 1)?;
                let q2: usize = self.expect(q, Tok::RParen, "`)`")?;
                Ok((e, q2))
            },
            Tok::LBracket => {
                let (items, q) = self.items(f - 1, p + 1, Vec::new())?;
                Ok((Expr { kind: ExprKind::List(items), span: self.between(p, q) }, q))
            },
            Tok::LBrace => {
                let (pairs, q) = self.pairs(f - 1, p + 1, Vec::new())?;
                Ok((Expr { kind: ExprKind::Dict(pairs), span: self.between(p, q) }, q))
            },
            _ => Err(self.expected(p, "an expression")),
        }
    }

    fn items(&self, f: usize, p: usize, done: Vec<Expr>) -> (r: Result<
        (Vec<Expr>, usize),
        QuinceError,
    >)
        ensures
            match r {
                Ok((items, q)) => s_items(f as nat, self.ts(), p as int, exprs_v(done@)) == Ok::<
                    (Seq<ExprV>, int),
                    ErrV,
                >((exprs_v(items@), q as int)),
                Err(e) => s_items(f as nat, self.ts(), p as int, exprs_v(done@)) == Err::<
                    (Seq<ExprV>, int),
                    ErrV,
                >(e@),
            },
        decreases f,
    {
        if f == 0 {
            return Err(self.too_deep(p));
        }
        if self.tok(p) == Tok::RBracket {
            return Ok((done, p + 1));
        }
        let (item, q) = self.expr(f - 1, p)?;
        let mut done = done;
        done.push(item);
        match self.tok(q) {
            Tok::Comma => self.items(f - 1, q + 1, done),
            Tok::RBracket => Ok((done, q + 1)),
            _ => Err(self.expected(q, "`,` or `]`")),
        }
    }

    fn pairs(&self, f: usize, p: usize, done: Vec<Pair>) -> (r: Result<
        (Vec<Pair>, usize),
        QuinceError,
    >)
        ensures
            match r {
                Ok((items, q)) => s_pairs(f as nat, self.ts(), p as int, pairs_v(done@)) == Ok::<
                    (Seq<PairV>, int),
                    ErrV,
                >((pairs_v(items@), q as int)),
                Err(e) => s_pairs(f as nat, self.ts(), p as int, pairs_v(done@)) == Err::<
                    (Seq<PairV>, int),
                    ErrV,
                >(e@),
            },
        decreases f,
    {
        if f == 0 {
            return Err(self.too_deep(p));
        }
        if self.tok(p) == Tok::RBrace {
            return Ok((done, p + 1));
        }
        let (key, q) = self.expr(f - 1, p)?;
        let q1: usize = self.expect(q, Tok::Colon, "`:`")?;
        let (value, q2) = self.expr(f - 1, q1)?;
        let mut done = done;
        done.push(Pair { key, value });
        match self.tok(q2) {
            Tok::Comma => self.pairs(f - 1, q2 + 1, done),
            Tok::RBrace => Ok((done, q2 + 1)),
            _ => Err(self.expected(q2, "`,` or `}`")),
        }
    }

    fn postfix(&self, f: usize, p: usize, lhs: Expr) -> (r: Result<(Expr, usize), QuinceError>)
        ensures
            parsed(r) == s_postfix(f as nat, self.ts(), p as int, lhs@),
        decreases f,
    {
        if f == 0 {
            return Err(self.too_deep(p));
        }
        if self.tok(p) == Tok::LParen && !self.newline(p) {
            let (args, q) = self.args(f - 1, p + 1, Vec::new())?;
            let span = Span { start: lhs.span.start, end: self.end_before(q) };
            let kind = ExprKind::Call { callee: Box::new(lhs), args };
            self.postfix(f - 1, q, Expr { kind, span })
        } else if self.tok(p) == Tok::LBracket && !self.newline(p) {
            let (e, q) = self.subscript(f - 1, p + 1, lhs)?;
            self.postfix(f - 1, q, e)
        } else if self.tok(p) == Tok::Dot {
            let (name, q) = self.name(p + 1, "a member name")?;
            let span = Span { start: lhs.span.start, end: self.end_before(q) };
            let kind = ExprKind::Field { target: Box::new(lhs), name };
            self.postfix(f - 1, q, Expr { kind, span })
        } else {
            Ok((lhs, p))
        }
    }

    fn subscript(&self, f: usize, p: usize, target: Expr) -> (r: Result<(Expr, usize), QuinceError>)
        ensures
            parsed(r) == s_subscript(f as nat, self.ts(), p as int, target@),
        decreases f,
    {
        if f == 0 {
            return Err(self.too_deep(p));
        }
        if self.tok(p) == Tok::Colon {
            return self.slice(f - 1, p + 1, target, None);
        }
        let (first, q) = self.expr(f - 1, p)?;
        match self.tok(q) {
            Tok::Colon => self.slice(f - 1, q + 1, target, Some(Box::new(first))),
            Tok::Comma => {
                let mut items: Vec<Expr> = Vec::new();
                let ghost first_v = first@;
                items.push(first);
                assert(exprs_v(items@) =~= seq![first_v]);
                let (args, q2) = self.items(f - 1, q + 1, items)?;
                let span = Span { start: target.span.start, end: self.end_before(q2) };
                Ok((applied(target, args, span), q2))
            },
            Tok::RBracket => {
                let span = Span { start: target.span.start, end: self.span(q).end };
                Ok((indexed(target, first, span), q + 1))
            },
            _ => Err(self.expected(q, "`]`")),
        }
    }

    fn slice(&self, f: usize, p: usize, target: Expr, start: Option<Box<Expr>>) -> (r: Result<
        (Expr, usize),
        QuinceError,
    >)
        ensures
            parsed(r) == s_slice(f as nat, self.ts(), p as int, target@, opt_boxed(start)),
        decreases f,
    {
        if f == 0 {
            return Err(self.too_deep(p));
        }
        if self.tok(p) == Tok::RBracket {
            let span = Span { start: target.span.start, end: self.span(p).end };
            return Ok((sliced(target, start, None, span), p + 1));
        }
        let (last, q) = self.expr(f - 1, p)?;
        let q2: usize = self.expect(q, Tok::RBracket, "`]`")?;
        let span = Span { start: target.span.start, end: self.span(q).end };
        Ok((sliced(target, start, Some(Box::new(last)), span), q2))
    }

    fn args(&self, f: usize, p: usize, done: Vec<CallArg>) -> (r: Result<
        (Vec<CallArg>, usize),
        QuinceError,
    >)
        ensures
            match r {
                Ok((items, q)) => s_args(f as nat, self.ts(), p as int, call_args_v(done@))
                    == Ok::<(Seq<CallArgV>, int), ErrV>((call_args_v(items@), q as int)),
                Err(e) => s_args(f as nat, self.ts(), p as int, call_args_v(done@)) == Err::<
                    (Seq<CallArgV>, int),
                    ErrV,
                >(e@),
            },
        decreases f,
    {
        if f == 0 {
            return Err(self.too_deep(p));
        }
        if self.tok(p) == Tok::RParen {
            return Ok((done, p + 1));
        }
        let name: Option<String> = match self.tok(p) {
            Tok::Ident => if self.tok(p + 1) == Tok::Colon {
                Some(self.word(p))
            } else {
                None
            },
            Tok::From => if self.tok(p + 1) == Tok::Colon {
                Some(self.word(p))
            } else {
                None
            },
            _ => None,
        };
        if name.is_none() && done.len() > 0 && done[done.len() - 1].name.is_some() {
            return Err(
                QuinceError::new(
                    ErrorKind::Syntax,
                    "a positional argument cannot follow a named one".to_owned(),
                    self.span(p),
                ),
            );
        }
        let q: usize = if name.is_some() {
            p + 2
        } else {
            p
        };
        let (value, q2) = self.expr(f - 1, q)?;
        let mut done = done;
        done.push(CallArg { name, name_span: self.span(p), value });
        match self.tok(q2) {
            Tok::Comma => self.args(f - 1, q2 + 1, done),
            Tok::RParen => Ok((done, q2 + 1)),
            _ => Err(self.expected(q2, "`,` or `)`")),
        }
    }

    fn bind(kind: Tok) -> (r: Option<Bind>)
        ensures
            r == s_bind(kind),
            r is Some ==> kind != Tok::Eof,
    {
        match kind {
            Tok::Let => Some(Bind::Let),
            Tok::Final => Some(Bind::Final),
            Tok::Const => Some(Bind::Const),
            _ => None,
        }
    }

    fn initializer(&self, f: usize, p: usize) -> (r: Result<(Option<Expr>, usize), QuinceError>)
        ensures
            match r {
                Ok((value, q)) => s_initializer(f as nat, self.ts(), p as int) == Ok::<
                    (Option<ExprV>, int),
                    ErrV,
                >((opt_expr(value), q as int)),
                Err(e) => s_initializer(f as nat, self.ts(), p as int) == Err::<
                    (Option<ExprV>, int),
                    ErrV,
                >(e@),
            },
        decreases f, 1int,
    {
        if self.tok(p) == Tok::Assign {
            let (value, q) = self.expr(f, p + 1)?;
            Ok((Some(value), q))
        } else {
            Ok((None, p))
        }
    }

    fn params(&self, f: usize, p: usize, done: Vec<Param>) -> (r: Result<
        (Vec<Param>, usize),
        QuinceError,
    >)
        ensures
            match r {
                Ok((items, q)) => s_params(f as nat, self.ts(), p as int, params_v(done@)) == Ok::<
                    (Seq<ParamV>, int),
                    ErrV,
                >((params_v(items@), q as int)),
                Err(e) => s_params(f as nat, self.ts(), p as int, params_v(done@)) == Err::<
                    (Seq<ParamV>, int),
                    ErrV,
                >(e@),
            },
        decreases f,
    {
        if f == 0 {
            return Err(self.too_deep(p));
        }
        if self.tok(p) == Tok::RParen {
            return Ok((done, p + 1));
        }
        let written: Option<Bind> = Parser::bind(self.tok(p));
        let q: usize = if written.is_some() {
            p + 1
        } else {
            p
        };
        let bind: Bind = match written {
            Some(b) => b,
            None => Bind::Let,
        };
        let (name, q1) = self.name(q, "a parameter name")?;
        let (ty, q2) = self.annotation(f - 1, q1)?;
        let (default, q3) = self.initializer(f - 1, q2)?;
        let mut done = done;
        done.push(Param { name, ty, default, bind, receiver: false });
        match self.tok(q3) {
            Tok::Comma => self.params(f - 1, q3 + 1, done),
            Tok::RParen => Ok((done, q3 + 1)),
            _ => Err(self.expected(q3, "`,` or `)`")),
        }
    }

    fn wrong_operands(op: Option<Op>, params: usize) -> (r: bool)
        ensures
            r == s_wrong_operands(op, params as int),
    {
        match op {
            Some(op) => match op.arity() {
                Some(n) => params == 0 || params - 1 != n,
                None => false,
            },
            None => false,
        }
    }

    fn fn_decl(&self, f: usize, p: usize, head: Head) -> (r: Result<(FnDecl, usize), QuinceError>)
        ensures
            parsed(r) == s_fn(f as nat, self.ts(), p as int, head@),
        decreases f,
    {
        if f == 0 {
            return Err(self.too_deep(p));
        }
        let (name, q) = self.name(p, "a function name")?;
        let op: Option<Op> = if head.is_op {
            op_of(name.as_str())
        } else {
            None
        };
        if head.is_op && op.is_none() {
            let mut message = String::from_str("there is no `op ");
            message.append(name.as_str());
            message.append("`");
            return Err(QuinceError::new(ErrorKind::Syntax, message, self.span(p)));
        }
        let q1: usize = self.expect(q, Tok::LParen, "`(`")?;
        let mut first: Vec<Param> = Vec::new();
        if head.method {
            first.push(
                Param {
                    name: "self".to_owned(),
                    ty: None,
                    default: None,
                    bind: Bind::Final,
                    receiver: true,
                },
            );
            assert(params_v(first@) =~= seq![s_self()]);
        }
        let (params, q2) = self.params(f - 1, q1, first)?;
        if Parser::wrong_operands(op, params.len()) {
            let wanted: usize = match op {
                Some(op) => match op.arity() {
                    Some(n) => n,
                    None => 0,
                },
                None => 0,
            };
            let mut message = String::from_str("`op ");
            message.append(name.as_str());
            message.append("` takes ");
            let number = digits_of(wanted as u64);
            message.append(number.as_str());
            message.append(" besides the receiver");
            return Err(QuinceError::new(ErrorKind::Syntax, message, self.span(p)));
        }
        let (result, q3) = self.annotation(f - 1, q2)?;
        let (body, q4) = self.block(f - 1, q3)?;
        Ok(
            (
                FnDecl {
                    name,
                    name_span: self.span(p),
                    params,
                    result,
                    body,
                    op,
                    visibility: head.visibility,
                    explicit: head.explicit,
                },
                q4,
            ),
        )
    }

    fn modifiers(&self, f: usize, p: usize, head: Head) -> (r: Result<(Head, usize), QuinceError>)
        ensures
            parsed(r) == s_modifiers(f as nat, self.ts(), p as int, head@),
        decreases f,
    {
        if f == 0 {
            return Err(self.too_deep(p));
        }
        match self.tok(p) {
            Tok::Public => self.modifiers(
                f - 1,
                p + 1,
                Head { visibility: Visibility::Public, ..head },
            ),
            Tok::Protected => self.modifiers(
                f - 1,
                p + 1,
                Head { visibility: Visibility::Protected, ..head },
            ),
            Tok::Private => self.modifiers(
                f - 1,
                p + 1,
                Head { visibility: Visibility::Private, ..head },
            ),
            Tok::Explicit => self.modifiers(f - 1, p + 1, Head { explicit: true, ..head }),
            Tok::Override => self.modifiers(f - 1, p + 1, head),
            _ => Ok((head, p)),
        }
    }

    fn members(&self, f: usize, p: usize, methods: Vec<Rc<FnDecl>>, fields: Vec<FieldDecl>) -> (r:
        Result<(Vec<Rc<FnDecl>>, Vec<FieldDecl>, usize), QuinceError>)
        ensures
            match r {
                Ok((ms, fs, q)) => s_members(
                    f as nat,
                    self.ts(),
                    p as int,
                    fn_decls_v(methods@),
                    field_decls_v(fields@),
                ) == Ok::<(Seq<FnDeclV>, Seq<FieldDeclV>, int), ErrV>(
                    (fn_decls_v(ms@), field_decls_v(fs@), q as int),
                ),
                Err(e) => s_members(
                    f as nat,
                    self.ts(),
                    p as int,
                    fn_decls_v(methods@),
                    field_decls_v(fields@),
                ) == Err::<(Seq<FnDeclV>, Seq<FieldDeclV>, int), ErrV>(e@),
            },
        decreases f,
    {
        if f == 0 {
            return Err(self.too_deep(p));
        }
        if self.tok(p) == Tok::Semi {
            return self.members(f - 1, p + 1, methods, fields);
        }
        if self.tok(p) == Tok::RBrace {
            return Ok((methods, fields, p + 1));
        }
        let plain = Head {
            visibility: Visibility::Unsaid,
            explicit: false,
            method: true,
            is_op: false,
        };
        let (head, q) = self.modifiers(f - 1, p, plain)?;
        match self.tok(q) {
            Tok::Fn => {
                let (decl, q2) = self.fn_decl(f - 1, q + 1, head)?;
                let mut methods = methods;
                methods.push(Rc::new(decl));
                self.members(f - 1, q2, methods, fields)
            },
            Tok::Op => {
                let (decl, q2) = self.fn_decl(f - 1, q + 1, Head { is_op: true, ..head })?;
                let mut methods = methods;
                methods.push(Rc::new(decl));
                self.members(f - 1, q2, methods, fields)
            },
            _ => {
                let (field, q2) = self.field(f - 1, q, head.visibility)?;
                let mut fields = fields;
                fields.push(field);
                self.members(f - 1, q2, methods, fields)
            },
        }
    }

    fn field(&self, f: usize, p: usize, visibility: Visibility) -> (r: Result<
        (FieldDecl, usize),
        QuinceError,
    >)
        ensures
            parsed(r) == s_field(f as nat, self.ts(), p as int, visibility),
        decreases f, 2int,
    {
        let bind: Bind = match Parser::bind(self.tok(p)) {
            None => {
                return Err(self.expected(p, "a member"));
            },
            Some(bind) => bind,
        };
        let (name, q) = self.name(p + 1, "a field name")?;
        let (ty, q1) = self.annotation(f, q)?;
        let (value, q2) = self.initializer(f, q1)?;
        let q3: usize = self.end(q2)?;
        Ok((FieldDecl { name, name_span: self.span(p + 1), ty, value, bind, visibility }, q3))
    }

    fn type_params(&self, f: usize, p: usize, done: Vec<TypeParam>) -> (r: Result<
        (Vec<TypeParam>, usize),
        QuinceError,
    >)
        ensures
            match r {
                Ok((items, q)) => s_type_params(
                    f as nat,
                    self.ts(),
                    p as int,
                    type_params_v(done@),
                ) == Ok::<(Seq<TypeParamV>, int), ErrV>((type_params_v(items@), q as int)),
                Err(e) => s_type_params(f as nat, self.ts(), p as int, type_params_v(done@))
                    == Err::<(Seq<TypeParamV>, int), ErrV>(e@),
            },
        decreases f,
    {
        if f == 0 {
            return Err(self.too_deep(p));
        }
        if self.tok(p) == Tok::RBracket {
            return Ok((done, p + 1));
        }
        let is_const = self.tok(p) == Tok::Const;
        let q: usize = if is_const {
            p + 1
        } else {
            p
        };
        let (name, q1) = self.name(q, "a type parameter")?;
        let (ty, q2) = self.annotation(f - 1, q1)?;
        let kind = if is_const {
            match ty {
                Some(ty) => ParamKind::Const { ty },
                None => {
                    return Err(self.expected(q2, "`:`"));
                },
            }
        } else {
            ParamKind::Type { bound: ty }
        };
        let mut done = done;
        done.push(TypeParam { name, kind });
        match self.tok(q2) {
            Tok::Comma => self.type_params(f - 1, q2 + 1, done),
            Tok::RBracket => Ok((done, q2 + 1)),
            _ => Err(self.expected(q2, "`,` or `]`")),
        }
    }

    fn class_params(&self, f: usize, p: usize) -> (r: Result<(Vec<TypeParam>, usize), QuinceError>)
        ensures
            match r {
                Ok((items, q)) => s_class_params(f as nat, self.ts(), p as int) == Ok::<
                    (Seq<TypeParamV>, int),
                    ErrV,
                >((type_params_v(items@), q as int)),
                Err(e) => s_class_params(f as nat, self.ts(), p as int) == Err::<
                    (Seq<TypeParamV>, int),
                    ErrV,
                >(e@),
            },
        decreases f, 1int,
    {
        if self.tok(p) == Tok::LBracket {
            self.type_params(f, p + 1, Vec::new())
        } else {
            Ok((Vec::new(), p))
        }
    }

    fn parent(&self, p: usize) -> (r: Result<(Option<String>, usize), QuinceError>)
        ensures
            match r {
                Ok((name, q)) => s_parent(self.ts(), p as int) == Ok::<
                    (Option<Seq<char>>, int),
                    ErrV,
                >((opt_str(name), q as int)),
                Err(e) => s_parent(self.ts(), p as int) == Err::<(Option<Seq<char>>, int), ErrV>(e@),
            },
    {
        if self.tok(p) == Tok::Extends {
            let (name, q) = self.name(p + 1, "a class name")?;
            Ok((Some(name), q))
        } else {
            Ok((None, p))
        }
    }

    fn class(&self, f: usize, p: usize, visibility: Visibility, openness: Openness) -> (r: Result<
        (ClassDecl, usize),
        QuinceError,
    >)
        ensures
            parsed(r) == s_class(f as nat, self.ts(), p as int, visibility, openness),
        decreases f,
    {
        if f == 0 {
            return Err(self.too_deep(p));
        }
        let (name, q) = self.name(p, "a class name")?;
        let (params, q1) = self.class_params(f - 1, q)?;
        let (parent, q2) = self.parent(q1)?;
        let q3: usize = self.expect(q2, Tok::LBrace, "`{`")?;
        let (methods, fields, q4) = self.members(f - 1, q3, Vec::new(), Vec::new())?;
        let parent_span = if q2 > 0 {
            self.span(q2 - 1)
        } else {
            Span { start: 0, end: 0 }
        };
        Ok(
            (
                ClassDecl {
                    name,
                    name_span: self.span(p),
                    params,
                    parent,
                    parent_span,
                    methods,
                    fields,
                    openness,
                    visibility,
                },
                q4,
            ),
        )
    }

    fn block(&self, f: usize, p: usize) -> (r: Result<(Block, usize), QuinceError>)
        ensures
            parsed(r) == s_block(f as nat, self.ts(), p as int),
        decreases f,
    {
        if f == 0 {
            return Err(self.too_deep(p));
        }
        let q: usize = self.expect(p, Tok::LBrace, "`{`")?;
        let (stmts, q2) = self.stmts(f - 1, q, false)?;
        Ok((Block { stmts, span: self.between(p, q2) }, q2))
    }

    fn stmts(&self, f: usize, p: usize, top: bool) -> (r: Result<(Vec<Stmt>, usize), QuinceError>)
        ensures
            match r {
                Ok((stmts, q)) => s_stmts(f as nat, self.ts(), p as int, Seq::empty(), top) == Ok::<
                    (Seq<StmtV>, int),
                    ErrV,
                >((stmts_v(stmts@), q as int)),
                Err(e) => s_stmts(f as nat, self.ts(), p as int, Seq::empty(), top) == Err::<
                    (Seq<StmtV>, int),
                    ErrV,
                >(e@),
            },
        decreases f,
    {
        let mut done: Vec<Stmt> = Vec::new();
        let mut g: usize = f;
        let mut q: usize = p;
        let ghost ts = self.ts();
        while g > 0
            invariant
                g <= f,
                ts == self.ts(),
                s_stmts(f as nat, ts, p as int, Seq::empty(), top) == s_stmts(
                    g as nat,
                    ts,
                    q as int,
                    stmts_v(done@),
                    top,
                ),
            decreases g,
        {
            match self.tok(q) {
                Tok::Semi => {
                    q = q + 1;
                },
                Tok::Eof => {
                    if top {
                        return Ok((done, q));
                    }
                    return Err(self.expected(q, "`}`"));
                },
                Tok::RBrace if !top => {
                    return Ok((done, q + 1));
                },
                _ => {
                    let (stmt, next) = self.stmt(g - 1, q)?;
                    done.push(stmt);
                    q = next;
                },
            }
            g = g - 1;
        }
        Err(self.too_deep(q))
    }

    fn fn_stmt(&self, f: usize, start: usize, p: usize, visibility: Visibility) -> (r: Result<
        (Stmt, usize),
        QuinceError,
    >)
        ensures
            parsed(r) == s_fn_stmt(f as nat, self.ts(), start as int, p as int, visibility),
        decreases f,
    {
        if f == 0 {
            return Err(self.too_deep(p));
        }
        let head = Head { visibility, explicit: false, method: false, is_op: false };
        let (decl, q) = self.fn_decl(f - 1, p, head)?;
        Ok((Stmt { kind: StmtKind::Fn(Rc::new(decl)), span: self.between(start, q) }, q))
    }

    fn class_stmt(
        &self,
        f: usize,
        start: usize,
        p: usize,
        visibility: Visibility,
        openness: Openness,
    ) -> (r: Result<(Stmt, usize), QuinceError>)
        ensures
            parsed(r) == s_class_stmt(
                f as nat,
                self.ts(),
                start as int,
                p as int,
                visibility,
                openness,
            ),
        decreases f,
    {
        if f == 0 {
            return Err(self.too_deep(p));
        }
        match self.class(f - 1, p, visibility, openness) {
            Ok((decl, q)) => Ok((self.class_made(decl, start, q), q)),
            Err(e) => Err(e),
        }
    }

    fn class_made(&self, decl: ClassDecl, start: usize, q: usize) -> (r: Stmt)
        ensures
            stmt_v(r) == s_made(
                self.ts(),
                start as int,
                q as int,
                StmtKindV::Class(Box::new(class_decl_v(decl))),
            ),
    {
        let ghost model = class_decl_v(decl);
        let kind = StmtKind::Class(Rc::new(decl));
        assert(stmt_kind_v(kind) == StmtKindV::Class(Box::new(model)));
        Stmt { kind, span: self.between(start, q) }
    }

    fn openness(kind: Tok) -> (r: Option<Openness>)
        ensures
            r == s_openness(kind),
            r is Some ==> kind != Tok::Eof,
    {
        match kind {
            Tok::Final => Some(Openness::Final),
            Tok::Sealed => Some(Openness::Sealed),
            Tok::Complete => Some(Openness::Complete),
            _ => None,
        }
    }

    fn declaration(&self, f: usize, start: usize, p: usize, visibility: Visibility) -> (r: Result<
        (Stmt, usize),
        QuinceError,
    >)
        ensures
            parsed(r) == s_declaration(f as nat, self.ts(), start as int, p as int, visibility),
        decreases f,
    {
        if f == 0 {
            return Err(self.too_deep(p));
        }
        let first: Tok = self.tok(p);
        if first == Tok::Fn {
            return self.fn_stmt(f - 1, start, p + 1, visibility);
        }
        if first == Tok::Class {
            return self.class_stmt(f - 1, start, p + 1, visibility, Openness::Open);
        }
        if let Some(openness) = Parser::openness(first) {
            if self.tok(p + 1) == Tok::Class {
                return self.class_stmt(f - 1, start, p + 2, visibility, openness);
            }
        }
        self.let_stmt(f - 1, start, p, visibility)
    }

    fn let_stmt(&self, f: usize, start: usize, p: usize, visibility: Visibility) -> (r: Result<
        (Stmt, usize),
        QuinceError,
    >)
        ensures
            parsed(r) == s_let(f as nat, self.ts(), start as int, p as int, visibility),
        decreases f, 2int,
    {
        let bind: Bind = match Parser::bind(self.tok(p)) {
            None => {
                return Err(self.expected(p, "a declaration"));
            },
            Some(bind) => bind,
        };
        let (name, q) = self.name(p + 1, "a name")?;
        let (ty, q1) = self.annotation(f, q)?;
        let (value, q2) = self.initializer(f, q1)?;
        if ty.is_none() && value.is_none() {
            return Err(self.expected(q2, "`=`"));
        }
        let q3: usize = self.end(q2)?;
        let kind = StmtKind::Let {
            name,
            name_span: self.span(p + 1),
            ty,
            value,
            bind,
            visibility,
        };
        Ok((Stmt { kind, span: self.between(start, q2) }, q3))
    }

    fn import_names(&self, f: usize, p: usize, done: Vec<ImportName>) -> (r: Result<
        (Vec<ImportName>, usize),
        QuinceError,
    >)
        ensures
            match r {
                Ok((items, q)) => s_import_names(
                    f as nat,
                    self.ts(),
                    p as int,
                    import_names_v(done@),
                ) == Ok::<(Seq<ImportNameV>, int), ErrV>((import_names_v(items@), q as int)),
                Err(e) => s_import_names(f as nat, self.ts(), p as int, import_names_v(done@))
                    == Err::<(Seq<ImportNameV>, int), ErrV>(e@),
            },
        decreases f,
    {
        if f == 0 {
            return Err(self.too_deep(p));
        }
        let (name, q) = self.name(p, "a name to import")?;
        let mut done = done;
        done.push(ImportName { name, span: self.span(p) });
        if self.tok(q) == Tok::Comma {
            self.import_names(f - 1, q + 1, done)
        } else {
            Ok((done, q))
        }
    }

    fn import(&self, f: usize, p: usize) -> (r: Result<(Stmt, usize), QuinceError>)
        requires
            p < usize::MAX,
        ensures
            parsed(r) == s_import(f as nat, self.ts(), p as int),
        decreases f, 1int,
    {
        let (module, q) = self.name(p + 1, "a module name")?;
        let module_span = self.span(p + 1);
        if self.tok(p) == Tok::Import {
            let q2: usize = self.end(q)?;
            let kind = StmtKind::Import { module, module_span, names: None };
            Ok((Stmt { kind, span: self.between(p, q) }, q2))
        } else {
            let q1: usize = self.expect(q, Tok::Import, "`import`")?;
            let (names, q2) = self.import_names(f, q1, Vec::new())?;
            let q3: usize = self.end(q2)?;
            let kind = StmtKind::Import { module, module_span, names: Some(names) };
            Ok((Stmt { kind, span: self.between(p, q2) }, q3))
        }
    }

    fn else_branch(&self, f: usize, p: usize) -> (r: Result<
        (Option<Box<Stmt>>, usize),
        QuinceError,
    >)
        ensures
            match r {
                Ok((stmt, q)) => s_else(f as nat, self.ts(), p as int) == Ok::<
                    (Option<Box<StmtV>>, int),
                    ErrV,
                >((opt_stmt(stmt), q as int)),
                Err(e) => s_else(f as nat, self.ts(), p as int) == Err::<
                    (Option<Box<StmtV>>, int),
                    ErrV,
                >(e@),
            },
        decreases f,
    {
        if f == 0 {
            return Err(self.too_deep(p));
        }
        if self.tok(p) != Tok::Else {
            return Ok((None, p));
        }
        if self.tok(p + 1) == Tok::If {
            let (stmt, q) = self.if_stmt(f - 1, p + 1)?;
            Ok((Some(Box::new(stmt)), q))
        } else {
            let (block, q) = self.block(f - 1, p + 1)?;
            let stmt = Stmt { kind: StmtKind::Block(block), span: self.between(p + 1, q) };
            Ok((Some(Box::new(stmt)), q))
        }
    }

    fn if_stmt(&self, f: usize, p: usize) -> (r: Result<(Stmt, usize), QuinceError>)
        requires
            p < usize::MAX,
        ensures
            parsed(r) == s_if(f as nat, self.ts(), p as int),
        decreases f,
    {
        if f == 0 {
            return Err(self.too_deep(p));
        }
        let (cond, q) = self.expr(f - 1, p + 1)?;
        let (consequent, q1) = self.block(f - 1, q)?;
        let (otherwise, q2) = self.else_branch(f - 1, q1)?;
        let kind = StmtKind::If { cond, consequent, otherwise };
        Ok((Stmt { kind, span: self.between(p, q2) }, q2))
    }

    fn while_stmt(&self, f: usize, p: usize) -> (r: Result<(Stmt, usize), QuinceError>)
        requires
            p < usize::MAX,
        ensures
            parsed(r) == s_while(f as nat, self.ts(), p as int),
        decreases f,
    {
        if f == 0 {
            return Err(self.too_deep(p));
        }
        let (cond, q) = self.expr(f - 1, p + 1)?;
        let (body, q1) = self.block(f - 1, q)?;
        Ok((Stmt { kind: StmtKind::While { cond, body }, span: self.between(p, q1) }, q1))
    }

    fn for_stmt(&self, f: usize, p: usize) -> (r: Result<(Stmt, usize), QuinceError>)
        requires
            p < usize::MAX,
        ensures
            parsed(r) == s_for(f as nat, self.ts(), p as int),
        decreases f,
    {
        if f == 0 {
            return Err(self.too_deep(p));
        }
        let (var, q) = self.name(p + 1, "a loop variable")?;
        let q1: usize = self.expect(q, Tok::In, "`in`")?;
        let (iter, q2) = self.expr(f - 1, q1)?;
        let (body, q3) = self.block(f - 1, q2)?;
        Ok((Stmt { kind: StmtKind::For { var, iter, body }, span: self.between(p, q3) }, q3))
    }

    fn try_stmt(&self, f: usize, p: usize) -> (r: Result<(Stmt, usize), QuinceError>)
        requires
            p < usize::MAX,
        ensures
            parsed(r) == s_try(f as nat, self.ts(), p as int),
        decreases f,
    {
        if f == 0 {
            return Err(self.too_deep(p));
        }
        let (body, q) = self.block(f - 1, p + 1)?;
        let q1: usize = self.expect(q, Tok::Catch, "`catch`")?;
        let (binding, q2) = self.name(q1, "a name for the error")?;
        let (handler, q3) = self.block(f - 1, q2)?;
        Ok((Stmt { kind: StmtKind::Try { body, binding, handler }, span: self.between(p, q3) }, q3))
    }

    fn return_stmt(&self, f: usize, p: usize) -> (r: Result<(Stmt, usize), QuinceError>)
        requires
            p < usize::MAX,
        ensures
            parsed(r) == s_return(f as nat, self.ts(), p as int),
        decreases f, 1int,
    {
        let bare = self.newline(p + 1) || match self.tok(p + 1) {
            Tok::RBrace => true,
            Tok::Eof => true,
            Tok::Semi => true,
            _ => false,
        };
        if bare {
            let q: usize = self.end(p + 1)?;
            Ok((Stmt { kind: StmtKind::Return(None), span: self.between(p, p + 1) }, q))
        } else {
            let (value, q) = self.expr(f, p + 1)?;
            let q2: usize = self.end(q)?;
            Ok((Stmt { kind: StmtKind::Return(Some(value)), span: self.between(p, q) }, q2))
        }
    }

    fn extend_stmt(&self, f: usize, p: usize) -> (r: Result<(Stmt, usize), QuinceError>)
        requires
            p < usize::MAX,
        ensures
            parsed(r) == s_extend(f as nat, self.ts(), p as int),
        decreases f,
    {
        if f == 0 {
            return Err(self.too_deep(p));
        }
        let (target, q) = self.name(p + 1, "a type to extend")?;
        let q1: usize = self.expect(q, Tok::LBrace, "`{`")?;
        let (methods, fields, q2) = self.members(f - 1, q1, Vec::new(), Vec::new())?;
        if fields.len() > 0 {
            return Err(
                QuinceError::new(
                    ErrorKind::Syntax,
                    "an `extend` block adds methods, not fields".to_owned(),
                    fields[0].name_span,
                ),
            );
        }
        let kind = StmtKind::Extend { target, target_span: self.span(p + 1), methods };
        Ok((Stmt { kind, span: self.between(p, q2) }, q2))
    }

    #[verifier::spinoff_prover]
    fn stmt(&self, f: usize, p: usize) -> (r: Result<(Stmt, usize), QuinceError>)
        ensures
            parsed(r) == s_stmt(f as nat, self.ts(), p as int),
        decreases f,
    {
        if f == 0 {
            return Err(self.too_deep(p));
        }
        let g: usize = f - 1;
        match self.tok(p) {
            Tok::Let => self.declaration(g, p, p, Visibility::Unsaid),
            Tok::Final => self.declaration(g, p, p, Visibility::Unsaid),
            Tok::Const => self.declaration(g, p, p, Visibility::Unsaid),
            Tok::Fn => self.declaration(g, p, p, Visibility::Unsaid),
            Tok::Class => self.declaration(g, p, p, Visibility::Unsaid),
            Tok::Sealed => self.declaration(g, p, p, Visibility::Unsaid),
            Tok::Complete => self.declaration(g, p, p, Visibility::Unsaid),
            Tok::Public => self.declaration(g, p, p + 1, Visibility::Public),
            Tok::Protected => self.declaration(g, p, p + 1, Visibility::Protected),
            Tok::Private => self.declaration(g, p, p + 1, Visibility::Private),
            Tok::Extend => self.extend_stmt(g, p),
            Tok::Import => self.import(g, p),
            Tok::From => self.import(g, p),
            Tok::If => self.if_stmt(g, p),
            Tok::While => self.while_stmt(g, p),
            Tok::For => self.for_stmt(g, p),
            Tok::Try => self.try_stmt(g, p),
            Tok::Return => self.return_stmt(g, p),
            Tok::Throw => {
                let (value, q) = self.expr(g, p + 1)?;
                let q2: usize = self.end(q)?;
                Ok((Stmt { kind: StmtKind::Throw(value), span: self.between(p, q) }, q2))
            },
            Tok::LBrace => {
                let (block, q) = self.block(g, p)?;
                Ok((Stmt { kind: StmtKind::Block(block), span: self.between(p, q) }, q))
            },
            _ => {
                let (value, q) = self.expr(g, p)?;
                let q2: usize = self.end(q)?;
                Ok((Stmt { kind: StmtKind::Expr(value), span: self.between(p, q) }, q2))
            },
        }
    }

    /// The whole program, or the first error in it.
    pub fn parse(&self) -> (r: Result<Vec<Stmt>, QuinceError>)
        ensures
            match r {
                Ok(program) => program_of(self.ts()) == Ok::<Seq<StmtV>, ErrV>(stmts_v(program@)),
                Err(e) => program_of(self.ts()) == Err::<Seq<StmtV>, ErrV>(e@),
            },
    {
        let (stmts, _end) = self.stmts(PARSE_DEPTH, 0, true)?;
        Ok(stmts)
    }

    /// Where the next statement starts behind one that cannot be read.
    fn next_start(&self, p: usize, open: usize) -> (r: usize)
        requires
            open <= p,
        ensures
            r == next_start(self.ts(), p as int, open as nat),
    {
        let mut q: usize = p;
        let mut n: usize = open;
        let ghost ts = self.ts();
        loop
            invariant
                n <= q,
                ts == self.ts(),
                next_start(ts, p as int, open as nat) == next_start(ts, q as int, n as nat),
            decreases ts.len() - q,
        {
            match self.tok(q) {
                Tok::Eof => return q,
                Tok::LBrace => {
                    if n == 0 && self.newline(q) {
                        return q;
                    }
                    n = n + 1;
                },
                Tok::RBrace => {
                    if n > 0 {
                        n = n - 1;
                    }
                },
                _ => {
                    if n == 0 && self.newline(q) {
                        return q;
                    }
                },
            }
            q = q + 1;
        }
    }

    /// The statements that can be read, and the errors in the others.
    pub fn parse_recovering(&self) -> (r: (Vec<Stmt>, Vec<QuinceError>))
        ensures
            (stmts_v(r.0@), errs_v(r.1@)) == recovered_of(self.ts()),
    {
        let mut done: Vec<Stmt> = Vec::new();
        let mut errors: Vec<QuinceError> = Vec::new();
        let mut g: usize = PARSE_DEPTH;
        let mut q: usize = 0;
        let ghost ts = self.ts();
        assert(stmts_v(done@) =~= Seq::empty());
        assert(errs_v(errors@) =~= Seq::empty());
        while g > 0
            invariant
                ts == self.ts(),
                recovered_of(ts) == s_recovered(
                    g as nat,
                    ts,
                    q as int,
                    stmts_v(done@),
                    errs_v(errors@),
                ),
            decreases g,
        {
            let ghost ss = stmts_v(done@);
            let ghost es = errs_v(errors@);
            match self.tok(q) {
                Tok::Semi => {
                    q = q + 1;
                },
                Tok::Eof => return (done, errors),
                tok => match self.stmt(g - 1, q) {
                    Ok((stmt, next)) => {
                        done.push(stmt);
                        assert(stmts_v(done@) =~= ss.push(stmt_v(stmt)));
                        q = next;
                    },
                    Err(e) => {
                        errors.push(e);
                        assert(errs_v(errors@) =~= es.push(e@));
                        let open: usize = if tok == Tok::LBrace {
                            1
                        } else {
                            0
                        };
                        q = self.next_start(q + 1, open);
                    },
                },
            }
            g = g - 1;
        }
        let ghost es = errs_v(errors@);
        let e = self.too_deep(q);
        errors.push(e);
        assert(errs_v(errors@) =~= es.push(e@));
        (done, errors)
    }
}

/// The model of a type that may be absent.
pub open spec fn opt_type(ty: Option<TypeExpr>) -> Option<TypeExprV> {
    match ty {
        Some(ty) => Some(ty@),
        None => None,
    }
}

pub open spec fn opt_expr(e: Option<Expr>) -> Option<ExprV> {
    match e {
        Some(e) => Some(e@),
        None => None,
    }
}

pub open spec fn opt_boxed(e: Option<Box<Expr>>) -> Option<Box<ExprV>> {
    match e {
        Some(e) => Some(Box::new(expr_v(*e))),
        None => None,
    }
}

pub open spec fn opt_stmt(s: Option<Box<Stmt>>) -> Option<Box<StmtV>> {
    match s {
        Some(s) => Some(Box::new(stmt_v(*s))),
        None => None,
    }
}

} // verus!
