//! The colours an editor cannot work out from a grammar.

use crate::lsp::document::DocumentState;
use crate::lsp::navigate::{name_range, name_range_in};
use crate::lsp::position::{capped, wide, width_of_text};
use crate::syntax::ast::{CallArg, Expr, ExprKind, FnDecl, Param, Stmt, StmtKind};
use crate::syntax::token::Span;
use crate::text::{chars_of, same};
use std::rc::Rc;
use vstd::prelude::*;

verus! {

/// The kinds of token, in the order the legend lists them.
pub const CLASS: u32 = 0;

pub const FUNCTION: u32 = 1;

pub const METHOD: u32 = 2;

pub const VARIABLE: u32 = 3;

pub const PARAMETER: u32 = 4;

pub const PROPERTY: u32 = 5;

pub const KEYWORD: u32 = 7;

/// A name in a document, and what it is. `modifiers` is one where it is declared.
#[derive(Clone, Copy, Debug, PartialEq, Eq, Structural)]
pub struct RawSemanticToken {
    pub line: usize,
    pub col: usize,
    pub len: usize,
    pub token_type: u32,
    pub modifiers: u32,
}

/// The token for a name, where it stands in a span.
pub open spec fn token_for(cs: Seq<char>, span: Span, name: Seq<char>, token_type: u32, modifiers: u32) -> Seq<
    RawSemanticToken,
> {
    match name_range(cs, span, name) {
        Some(range) => seq![
            RawSemanticToken {
                line: range.start.line,
                col: range.start.character,
                len: capped(wide(name)),
                token_type,
                modifiers,
            },
        ],
        None => Seq::empty(),
    }
}

/// Adds the token for a name.
pub fn push_raw_token(
    cs: &Vec<char>,
    span: Span,
    name: &str,
    token_type: u32,
    modifiers: u32,
    raw_tokens: &mut Vec<RawSemanticToken>,
)
    ensures
        final(raw_tokens)@ == old(raw_tokens)@ + token_for(cs@, span, name@, token_type, modifiers),
{
    let ghost before = raw_tokens@;
    if let Some(range) = name_range_in(cs, span, name) {
        raw_tokens.push(
            RawSemanticToken {
                line: range.start.line,
                col: range.start.character,
                len: width_of_text(name),
                token_type,
                modifiers,
            },
        );
    }
    assert(raw_tokens@ =~= before + token_for(cs@, span, name@, token_type, modifiers));
}

// -- expressions -------------------------------------------------------------------------------------

pub open spec fn arg_tokens(cs: Seq<char>, args: Seq<CallArg>, n: int) -> Seq<RawSemanticToken>
    decreases args, n,
{
    if 0 < n <= args.len() {
        arg_tokens(cs, args, n - 1) + arg_token(cs, args[n - 1])
    } else {
        Seq::empty()
    }
}

pub open spec fn arg_token(cs: Seq<char>, arg: CallArg) -> Seq<RawSemanticToken>
    decreases arg,
{
    expr_tokens(cs, arg.value)
}

pub open spec fn item_tokens(cs: Seq<char>, items: Seq<Expr>, n: int) -> Seq<RawSemanticToken>
    decreases items, n,
{
    if 0 < n <= items.len() {
        item_tokens(cs, items, n - 1) + expr_tokens(cs, items[n - 1])
    } else {
        Seq::empty()
    }
}

/// The tokens of an expression.
pub open spec fn expr_tokens(cs: Seq<char>, e: Expr) -> Seq<RawSemanticToken>
    decreases e,
{
    match e.kind {
        ExprKind::Call { callee, args } => (match callee.kind {
            ExprKind::Var(name) => token_for(cs, callee.span, name@, FUNCTION, 0),
            _ => expr_tokens(cs, *callee),
        }) + arg_tokens(cs, args@, args@.len() as int),
        ExprKind::Field { target, name } => expr_tokens(cs, *target) + token_for(cs, e.span, name@, PROPERTY, 0),
        ExprKind::Var(name) => if name@ == "self"@ || name@ == "super"@ {
            token_for(cs, e.span, name@, KEYWORD, 0)
        } else {
            token_for(cs, e.span, name@, VARIABLE, 0)
        },
        ExprKind::Binary { op, lhs, rhs } => expr_tokens(cs, *lhs) + expr_tokens(cs, *rhs),
        ExprKind::Unary { op, rhs } => expr_tokens(cs, *rhs),
        ExprKind::List(items) => item_tokens(cs, items@, items@.len() as int),
        ExprKind::Assign { target, value } => expr_tokens(cs, *target) + expr_tokens(cs, *value),
        _ => Seq::empty(),
    }
}

fn collect_args(cs: &Vec<char>, args: &Vec<CallArg>, out: &mut Vec<RawSemanticToken>)
    ensures
        final(out)@ == old(out)@ + arg_tokens(cs@, args@, args@.len() as int),
    decreases args@,
{
    let ghost before = out@;
    let mut i: usize = 0;
    assert(before + Seq::<RawSemanticToken>::empty() =~= before);
    while i < args.len()
        invariant
            i <= args@.len(),
            before == old(out)@,
            out@ == before + arg_tokens(cs@, args@, i as int),
        decreases args@.len() - i,
    {
        collect_expr_semantic_tokens(cs, &args[i].value, out);
        i += 1;
        assert(arg_tokens(cs@, args@, i as int) == arg_tokens(cs@, args@, i - 1) + arg_token(cs@, args@[i - 1]));
        assert(out@ =~= before + arg_tokens(cs@, args@, i as int));
    }
}

fn collect_items(cs: &Vec<char>, items: &Vec<Expr>, out: &mut Vec<RawSemanticToken>)
    ensures
        final(out)@ == old(out)@ + item_tokens(cs@, items@, items@.len() as int),
    decreases items@,
{
    let ghost before = out@;
    let mut i: usize = 0;
    assert(before + Seq::<RawSemanticToken>::empty() =~= before);
    while i < items.len()
        invariant
            i <= items@.len(),
            before == old(out)@,
            out@ == before + item_tokens(cs@, items@, i as int),
        decreases items@.len() - i,
    {
        collect_expr_semantic_tokens(cs, &items[i], out);
        i += 1;
        assert(item_tokens(cs@, items@, i as int) == item_tokens(cs@, items@, i - 1) + expr_tokens(cs@, items@[i - 1]));
        assert(out@ =~= before + item_tokens(cs@, items@, i as int));
    }
}

/// Adds the tokens of an expression.
pub fn collect_expr_semantic_tokens(cs: &Vec<char>, expr: &Expr, raw_tokens: &mut Vec<RawSemanticToken>)
    ensures
        final(raw_tokens)@ == old(raw_tokens)@ + expr_tokens(cs@, *expr),
    decreases expr,
{
    let ghost before = raw_tokens@;
    match &expr.kind {
        ExprKind::Call { callee, args } => {
            match &callee.kind {
                ExprKind::Var(name) => push_raw_token(cs, callee.span, name.as_str(), FUNCTION, 0, raw_tokens),
                _ => collect_expr_semantic_tokens(cs, callee, raw_tokens),
            }
            collect_args(cs, args, raw_tokens);
        },
        ExprKind::Field { target, name } => {
            collect_expr_semantic_tokens(cs, target, raw_tokens);
            push_raw_token(cs, expr.span, name.as_str(), PROPERTY, 0, raw_tokens);
        },
        ExprKind::Var(name) => {
            if same(name.as_str(), "self") || same(name.as_str(), "super") {
                push_raw_token(cs, expr.span, name.as_str(), KEYWORD, 0, raw_tokens);
            } else {
                push_raw_token(cs, expr.span, name.as_str(), VARIABLE, 0, raw_tokens);
            }
        },
        ExprKind::Binary { op, lhs, rhs } => {
            collect_expr_semantic_tokens(cs, lhs, raw_tokens);
            collect_expr_semantic_tokens(cs, rhs, raw_tokens);
        },
        ExprKind::Unary { op, rhs } => collect_expr_semantic_tokens(cs, rhs, raw_tokens),
        ExprKind::List(items) => collect_items(cs, items, raw_tokens),
        ExprKind::Assign { target, value } => {
            collect_expr_semantic_tokens(cs, target, raw_tokens);
            collect_expr_semantic_tokens(cs, value, raw_tokens);
        },
        _ => {},
    }
    assert(raw_tokens@ =~= before + expr_tokens(cs@, *expr));
}

// -- statements -----------------------------------------------------------------------------------------

/// The tokens of the first `n` parameters, looked for in a span.
pub open spec fn param_tokens(cs: Seq<char>, span: Span, ps: Seq<Param>, n: int) -> Seq<RawSemanticToken>
    decreases n,
{
    if 0 < n <= ps.len() {
        param_tokens(cs, span, ps, n - 1) + token_for(cs, span, ps[n - 1].name@, PARAMETER, 1)
    } else {
        Seq::empty()
    }
}

/// Where a method's own name is looked for: its body, and a little before it.
pub open spec fn method_reach(body: Span) -> Span {
    Span {
        start: if body.start >= 40 {
            (body.start - 40) as usize
        } else {
            0
        },
        end: body.end,
    }
}

pub open spec fn method_tokens(cs: Seq<char>, ms: Seq<Rc<FnDecl>>, n: int) -> Seq<RawSemanticToken>
    decreases ms, n,
{
    if 0 < n <= ms.len() {
        method_tokens(cs, ms, n - 1) + one_method(cs, ms[n - 1])
    } else {
        Seq::empty()
    }
}

pub open spec fn one_method(cs: Seq<char>, m: Rc<FnDecl>) -> Seq<RawSemanticToken>
    decreases m, 1int,
{
    token_for(cs, method_reach(m.body.span), m.name@, METHOD, 1) + param_tokens(
        cs,
        method_reach(m.body.span),
        m.params@,
        m.params@.len() as int,
    ) + body_tokens(cs, m)
}

pub open spec fn body_tokens(cs: Seq<char>, m: Rc<FnDecl>) -> Seq<RawSemanticToken>
    decreases m, 0int,
{
    stmt_tokens(cs, m.body.stmts@, m.body.stmts@.len() as int)
}

pub open spec fn opt_tokens(cs: Seq<char>, e: Option<Expr>) -> Seq<RawSemanticToken> {
    match e {
        Some(e) => expr_tokens(cs, e),
        None => Seq::empty(),
    }
}

/// The tokens of one statement.
pub open spec fn one_stmt(cs: Seq<char>, s: Stmt) -> Seq<RawSemanticToken>
    decreases s,
{
    match s.kind {
        StmtKind::Fn(decl) => token_for(cs, s.span, decl.name@, FUNCTION, 1) + param_tokens(
            cs,
            s.span,
            decl.params@,
            decl.params@.len() as int,
        ) + body_tokens(cs, decl),
        StmtKind::Class(decl) => token_for(cs, s.span, decl.name@, CLASS, 1) + (match decl.parent {
            Some(parent) => token_for(cs, s.span, parent@, CLASS, 0),
            None => Seq::empty(),
        }) + method_tokens(cs, decl.methods@, decl.methods@.len() as int),
        StmtKind::Let { name, value, .. } => token_for(cs, s.span, name@, VARIABLE, 1) + opt_tokens(cs, value),
        StmtKind::Expr(e) => expr_tokens(cs, e),
        StmtKind::If { cond, consequent, otherwise } => expr_tokens(cs, cond) + stmt_tokens(
            cs,
            consequent.stmts@,
            consequent.stmts@.len() as int,
        ) + match otherwise {
            Some(other) => one_stmt(cs, *other),
            None => Seq::empty(),
        },
        StmtKind::While { cond, body } => expr_tokens(cs, cond) + stmt_tokens(cs, body.stmts@, body.stmts@.len() as int),
        StmtKind::For { var, iter, body } => token_for(cs, s.span, var@, VARIABLE, 1) + expr_tokens(cs, iter)
            + stmt_tokens(cs, body.stmts@, body.stmts@.len() as int),
        StmtKind::Try { body, binding, handler } => token_for(cs, s.span, binding@, VARIABLE, 1) + stmt_tokens(
            cs,
            body.stmts@,
            body.stmts@.len() as int,
        ) + stmt_tokens(cs, handler.stmts@, handler.stmts@.len() as int),
        StmtKind::Block(b) => stmt_tokens(cs, b.stmts@, b.stmts@.len() as int),
        _ => Seq::empty(),
    }
}

/// The tokens of the first `n` statements.
pub open spec fn stmt_tokens(cs: Seq<char>, ss: Seq<Stmt>, n: int) -> Seq<RawSemanticToken>
    decreases ss, n,
{
    if 0 < n <= ss.len() {
        stmt_tokens(cs, ss, n - 1) + one_stmt(cs, ss[n - 1])
    } else {
        Seq::empty()
    }
}

fn collect_params(cs: &Vec<char>, span: Span, params: &Vec<Param>, out: &mut Vec<RawSemanticToken>)
    ensures
        final(out)@ == old(out)@ + param_tokens(cs@, span, params@, params@.len() as int),
{
    let ghost before = out@;
    let mut i: usize = 0;
    assert(before + Seq::<RawSemanticToken>::empty() =~= before);
    while i < params.len()
        invariant
            i <= params@.len(),
            before == old(out)@,
            out@ == before + param_tokens(cs@, span, params@, i as int),
        decreases params@.len() - i,
    {
        push_raw_token(cs, span, params[i].name.as_str(), PARAMETER, 1, out);
        i += 1;
        assert(out@ =~= before + param_tokens(cs@, span, params@, i as int));
    }
}

fn collect_methods(cs: &Vec<char>, methods: &Vec<Rc<FnDecl>>, out: &mut Vec<RawSemanticToken>)
    ensures
        final(out)@ == old(out)@ + method_tokens(cs@, methods@, methods@.len() as int),
    decreases methods@,
{
    let ghost before = out@;
    let mut i: usize = 0;
    assert(before + Seq::<RawSemanticToken>::empty() =~= before);
    while i < methods.len()
        invariant
            i <= methods@.len(),
            before == old(out)@,
            out@ == before + method_tokens(cs@, methods@, i as int),
        decreases methods@.len() - i,
    {
        let ghost so_far = out@;
        let m: &Rc<FnDecl> = &methods[i];
        let body = m.body.span;
        let start: usize = if body.start >= 40 {
            body.start - 40
        } else {
            0
        };
        let span = Span { start, end: body.end };
        assert(span == method_reach(m.body.span));
        push_raw_token(cs, span, m.name.as_str(), METHOD, 1, out);
        collect_params(cs, span, &m.params, out);
        collect_stmt_semantic_tokens(cs, &m.body.stmts, out);
        i += 1;
        proof {
            assert(body_tokens(cs@, methods@[i - 1]) == stmt_tokens(cs@, m.body.stmts@, m.body.stmts@.len() as int));
            assert(out@ =~= so_far + one_method(cs@, methods@[i - 1]));
            assert(method_tokens(cs@, methods@, i as int) == method_tokens(cs@, methods@, i - 1) + one_method(
                cs@,
                methods@[i - 1],
            ));
            assert(out@ =~= before + method_tokens(cs@, methods@, i as int));
        }
    }
}

fn collect_one(cs: &Vec<char>, stmt: &Stmt, out: &mut Vec<RawSemanticToken>)
    ensures
        final(out)@ == old(out)@ + one_stmt(cs@, *stmt),
    decreases stmt,
{
    let ghost before = out@;
    match &stmt.kind {
        StmtKind::Fn(decl) => {
            push_raw_token(cs, stmt.span, decl.name.as_str(), FUNCTION, 1, out);
            collect_params(cs, stmt.span, &decl.params, out);
            collect_stmt_semantic_tokens(cs, &decl.body.stmts, out);
            assert(body_tokens(cs@, *decl) == stmt_tokens(cs@, decl.body.stmts@, decl.body.stmts@.len() as int));
            assert(out@ =~= before + one_stmt(cs@, *stmt));
        },
        StmtKind::Class(decl) => {
            push_raw_token(cs, stmt.span, decl.name.as_str(), CLASS, 1, out);
            if let Some(parent) = &decl.parent {
                push_raw_token(cs, stmt.span, parent.as_str(), CLASS, 0, out);
            }
            collect_methods(cs, &decl.methods, out);
            assert(out@ =~= before + one_stmt(cs@, *stmt));
        },
        StmtKind::Let { name, value, .. } => {
            push_raw_token(cs, stmt.span, name.as_str(), VARIABLE, 1, out);
            if let Some(value) = value {
                collect_expr_semantic_tokens(cs, value, out);
            }
            assert(out@ =~= before + one_stmt(cs@, *stmt));
        },
        StmtKind::Expr(e) => collect_expr_semantic_tokens(cs, e, out),
        StmtKind::If { cond, consequent, otherwise } => {
            collect_expr_semantic_tokens(cs, cond, out);
            collect_stmt_semantic_tokens(cs, &consequent.stmts, out);
            if let Some(other) = otherwise {
                collect_one(cs, other, out);
            }
            assert(out@ =~= before + one_stmt(cs@, *stmt));
        },
        StmtKind::While { cond, body } => {
            collect_expr_semantic_tokens(cs, cond, out);
            collect_stmt_semantic_tokens(cs, &body.stmts, out);
            assert(out@ =~= before + one_stmt(cs@, *stmt));
        },
        StmtKind::For { var, iter, body } => {
            push_raw_token(cs, stmt.span, var.as_str(), VARIABLE, 1, out);
            collect_expr_semantic_tokens(cs, iter, out);
            collect_stmt_semantic_tokens(cs, &body.stmts, out);
            assert(out@ =~= before + one_stmt(cs@, *stmt));
        },
        StmtKind::Try { body, binding, handler } => {
            push_raw_token(cs, stmt.span, binding.as_str(), VARIABLE, 1, out);
            collect_stmt_semantic_tokens(cs, &body.stmts, out);
            collect_stmt_semantic_tokens(cs, &handler.stmts, out);
            assert(out@ =~= before + one_stmt(cs@, *stmt));
        },
        StmtKind::Block(b) => collect_stmt_semantic_tokens(cs, &b.stmts, out),
        _ => {},
    }
    assert(out@ =~= before + one_stmt(cs@, *stmt));
}

/// Adds the tokens of some statements.
pub fn collect_stmt_semantic_tokens(cs: &Vec<char>, stmts: &Vec<Stmt>, raw_tokens: &mut Vec<RawSemanticToken>)
    ensures
        final(raw_tokens)@ == old(raw_tokens)@ + stmt_tokens(cs@, stmts@, stmts@.len() as int),
    decreases stmts@,
{
    let ghost before = raw_tokens@;
    let mut i: usize = 0;
    assert(before + Seq::<RawSemanticToken>::empty() =~= before);
    while i < stmts.len()
        invariant
            i <= stmts@.len(),
            before == old(raw_tokens)@,
            raw_tokens@ == before + stmt_tokens(cs@, stmts@, i as int),
        decreases stmts@.len() - i,
    {
        collect_one(cs, &stmts[i], raw_tokens);
        i += 1;
        assert(stmt_tokens(cs@, stmts@, i as int) == stmt_tokens(cs@, stmts@, i - 1) + one_stmt(cs@, stmts@[i - 1]));
        assert(raw_tokens@ =~= before + stmt_tokens(cs@, stmts@, i as int));
    }
}

// -- in the order of the text -----------------------------------------------------------------------------

/// Whether a token stands before another.
pub open spec fn stands_before(a: RawSemanticToken, b: RawSemanticToken) -> bool {
    a.line < b.line || (a.line == b.line && a.col < b.col)
}

/// A token put among others, behind those that do not stand after it.
pub open spec fn put_in(s: Seq<RawSemanticToken>, x: RawSemanticToken) -> Seq<RawSemanticToken>
    decreases s.len(),
{
    if s.len() > 0 && stands_before(x, s.last()) {
        put_in(s.drop_last(), x).push(s.last())
    } else {
        s.push(x)
    }
}

/// Tokens in the order of the text; those at one place stay as they were.
pub open spec fn ordered(s: Seq<RawSemanticToken>) -> Seq<RawSemanticToken>
    decreases s.len(),
{
    if s.len() == 0 {
        Seq::empty()
    } else {
        put_in(ordered(s.drop_last()), s.last())
    }
}

/// Whether no token stands before the one in front of it.
pub open spec fn is_ordered(s: Seq<RawSemanticToken>) -> bool {
    forall|i: int, j: int| 0 <= i < j < s.len() ==> !stands_before(#[trigger] s[j], #[trigger] s[i])
}

/// A token as the editor reads it: each place is counted from the token before.
#[derive(Clone, Copy, Debug, PartialEq, Eq, Structural)]
pub struct SemanticToken {
    pub delta_line: usize,
    pub delta_start: usize,
    pub length: usize,
    pub token_type: u32,
    pub token_modifiers_bitset: u32,
}

/// A token, counted from a place.
pub open spec fn counted_from(t: RawSemanticToken, line: int, col: int) -> SemanticToken {
    SemanticToken {
        delta_line: (t.line - line) as usize,
        delta_start: if t.line == line {
            (t.col - col) as usize
        } else {
            t.col
        },
        length: t.len,
        token_type: t.token_type,
        token_modifiers_bitset: t.modifiers,
    }
}

/// Tokens, each counted from the one before, and the first from the start.
pub open spec fn counted(s: Seq<RawSemanticToken>) -> Seq<SemanticToken> {
    Seq::new(
        s.len(),
        |i: int|
            if i == 0 {
                counted_from(s[0], 0, 0)
            } else {
                counted_from(s[i], s[i - 1].line as int, s[i - 1].col as int)
            },
    )
}

/// The tokens of a document.
pub open spec fn tokens(state: DocumentState) -> Seq<SemanticToken> {
    match state.ast {
        Some(ast) => counted(ordered(stmt_tokens(state.text@, ast@, ast@.len() as int))),
        None => Seq::empty(),
    }
}

proof fn lemma_put_in(s: Seq<RawSemanticToken>, x: RawSemanticToken)
    requires
        is_ordered(s),
    ensures
        is_ordered(put_in(s, x)),
        put_in(s, x).to_multiset() == s.to_multiset().insert(x),
    decreases s.len(),
{
    broadcast use vstd::seq_lib::group_to_multiset_ensures;

    if s.len() > 0 && stands_before(x, s.last()) {
        let front = s.drop_last();
        assert(s =~= front.push(s.last()));
        assert forall|i: int, j: int| 0 <= i < j < front.len() implies !stands_before(
            #[trigger] front[j],
            #[trigger] front[i],
        ) by {
            assert(front[i] == s[i] && front[j] == s[j]);
        }
        lemma_put_in(front, x);
        let inner = put_in(front, x);
        let r = inner.push(s.last());
        assert forall|i: int, j: int| 0 <= i < j < r.len() implies !stands_before(#[trigger] r[j], #[trigger] r[i]) by {
            if j < inner.len() {
                assert(inner[i] == r[i] && inner[j] == r[j]);
            } else {
                assert(inner.to_multiset().count(inner[i]) > 0) by {
                    assert(inner.contains(inner[i]));
                }
                if r[i] != x {
                    assert(front.to_multiset().count(r[i]) > 0);
                    assert(front.contains(r[i]));
                    let k = choose|k: int| 0 <= k < front.len() && front[k] == r[i];
                    assert(s[k] == r[i]);
                }
            }
        }
        assert(r.to_multiset() =~= s.to_multiset().insert(x));
    } else {
        let r = s.push(x);
        assert forall|i: int, j: int| 0 <= i < j < r.len() implies !stands_before(#[trigger] r[j], #[trigger] r[i]) by {
            if j < s.len() {
                assert(r[i] == s[i] && r[j] == s[j]);
            } else if i < s.len() - 1 {
                assert(!stands_before(s[s.len() - 1], s[i]));
            }
        }
    }
}

/// The tokens of a document come in the order of its text, and each of them comes.
pub proof fn law_tokens_come_in_order(s: Seq<RawSemanticToken>)
    ensures
        is_ordered(ordered(s)),
        ordered(s).to_multiset() == s.to_multiset(),
    decreases s.len(),
{
    broadcast use vstd::seq_lib::group_to_multiset_ensures;

    if s.len() > 0 {
        law_tokens_come_in_order(s.drop_last());
        lemma_put_in(ordered(s.drop_last()), s.last());
        assert(s =~= s.drop_last().push(s.last()));
    } else {
        assert(ordered(s) =~= s);
    }
}

fn before(a: &RawSemanticToken, b: &RawSemanticToken) -> (r: bool)
    ensures
        r == stands_before(*a, *b),
{
    a.line < b.line || (a.line == b.line && a.col < b.col)
}

fn put(s: &mut Vec<RawSemanticToken>, x: RawSemanticToken)
    ensures
        final(s)@ == put_in(old(s)@, x),
{
    let ghost all = s@;
    let mut n: usize = s.len();
    let ghost mut after = Seq::<RawSemanticToken>::empty();
    assert(put_in(all, x) =~= put_in(all.take(n as int), x) + after) by {
        assert(all.take(n as int) =~= all);
    }
    while n > 0 && before(&x, &s[n - 1])
        invariant
            n <= all.len(),
            s@ == all,
            after == all.subrange(n as int, all.len() as int),
            put_in(all, x) == put_in(all.take(n as int), x) + after,
        decreases n,
    {
        proof {
            let front = all.take(n as int);
            assert(front.last() == all[n - 1]);
            assert(front.drop_last() =~= all.take(n - 1));
            let longer = all.subrange(n - 1, all.len() as int);
            assert(put_in(front, x) == put_in(all.take(n - 1), x).push(all[n - 1]));
            assert(put_in(all.take(n - 1), x).push(all[n - 1]) + after =~= put_in(all.take(n - 1), x) + longer);
            after = longer;
        }
        n -= 1;
    }
    proof {
        if n > 0 {
            assert(all.take(n as int).last() == all[n - 1]);
        }
        assert(put_in(all.take(n as int), x) == all.take(n as int).push(x));
        assert(all.insert(n as int, x) =~= all.take(n as int).push(x) + after);
    }
    s.insert(n, x);
}

fn order(s: &Vec<RawSemanticToken>) -> (r: Vec<RawSemanticToken>)
    ensures
        r@ == ordered(s@),
{
    let mut r: Vec<RawSemanticToken> = Vec::new();
    let mut i: usize = 0;
    assert(r@ =~= ordered(s@.take(0)));
    while i < s.len()
        invariant
            i <= s@.len(),
            r@ == ordered(s@.take(i as int)),
        decreases s@.len() - i,
    {
        put(&mut r, s[i]);
        i += 1;
        assert(s@.take(i as int).drop_last() =~= s@.take(i - 1));
    }
    assert(s@.take(i as int) =~= s@);
    r
}

fn count(s: &Vec<RawSemanticToken>) -> (r: Vec<SemanticToken>)
    requires
        is_ordered(s@),
    ensures
        r@ == counted(s@),
{
    let mut out: Vec<SemanticToken> = Vec::new();
    let mut line: usize = 0;
    let mut col: usize = 0;
    let mut i: usize = 0;
    while i < s.len()
        invariant
            i <= s@.len(),
            is_ordered(s@),
            i == 0 ==> line == 0 && col == 0,
            i > 0 ==> line == s@[i - 1].line && col == s@[i - 1].col,
            out@ =~= counted(s@).take(i as int),
        decreases s@.len() - i,
    {
        let t = s[i];
        proof {
            if i > 0 {
                assert(!stands_before(s@[i as int], s@[i - 1]));
            }
        }
        let delta_line: usize = t.line - line;
        let delta_start: usize = if delta_line == 0 {
            t.col - col
        } else {
            t.col
        };
        out.push(
            SemanticToken {
                delta_line,
                delta_start,
                length: t.len,
                token_type: t.token_type,
                token_modifiers_bitset: t.modifiers,
            },
        );
        line = t.line;
        col = t.col;
        i += 1;
    }
    assert(out@ =~= counted(s@));
    out
}

/// The tokens of a document, in the order of its text.
pub fn get_semantic_tokens(state: Option<&DocumentState>) -> (r: Vec<SemanticToken>)
    ensures
        r@ == match state {
            Some(state) => tokens(*state),
            None => Seq::empty(),
        },
{
    let mut raw: Vec<RawSemanticToken> = Vec::new();
    let state = match state {
        Some(state) => state,
        None => return Vec::new(),
    };
    let ast = match &state.ast {
        Some(ast) => ast,
        None => return Vec::new(),
    };
    let cs = chars_of(state.text.as_str());
    let ghost none = raw@;
    collect_stmt_semantic_tokens(&cs, ast, &mut raw);
    assert(raw@ =~= stmt_tokens(state.text@, ast@, ast@.len() as int));
    let sorted = order(&raw);
    proof {
        law_tokens_come_in_order(raw@);
    }
    count(&sorted)
}

} // verus!
