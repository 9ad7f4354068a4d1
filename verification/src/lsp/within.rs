//! Nothing that stands inside a statement is passed over: what is folded, selected, marked,
//! hinted or offered of its parts is so of the whole.

use crate::lsp::folding::{
    block_folds, body_folds, folds, inner_folds, method_fold, method_folds, tall,
};
use crate::lsp::hints::{body_hints, one_hints, stmt_hints};
use crate::lsp::names::{declared, stmt_items};
use crate::lsp::selection::{
    body_spans, entered, expr_spans, inner_spans, inside, kind_spans, own_spans, stmt_spans,
};
use crate::lsp::semantic::{body_tokens, expr_tokens, one_stmt, stmt_tokens};
use crate::syntax::ast::{Expr, ExprKind, FnDecl, Stmt, StmtKind};
use std::rc::Rc;
use vstd::prelude::*;

verus! {

/// Whether everything in one sequence is in another.
pub open spec fn all_in<T>(a: Seq<T>, b: Seq<T>) -> bool {
    forall|i: int| 0 <= i < a.len() ==> b.contains(#[trigger] a[i])
}

proof fn lemma_left<T>(a: Seq<T>, b: Seq<T>)
    ensures
        all_in(a, a + b),
{
    assert forall|i: int| 0 <= i < a.len() implies (a + b).contains(#[trigger] a[i]) by {
        assert((a + b)[i] == a[i]);
    }
}

proof fn lemma_right<T>(a: Seq<T>, b: Seq<T>)
    ensures
        all_in(b, a + b),
{
    assert forall|i: int| 0 <= i < b.len() implies (a + b).contains(#[trigger] b[i]) by {
        assert((a + b)[a.len() + i] == b[i]);
    }
}

proof fn lemma_on<T>(a: Seq<T>, b: Seq<T>, c: Seq<T>)
    requires
        all_in(a, b),
        all_in(b, c),
    ensures
        all_in(a, c),
{
    assert forall|i: int| 0 <= i < a.len() implies c.contains(#[trigger] a[i]) by {
        assert(b.contains(a[i]));
        let k = choose|k: int| 0 <= k < b.len() && b[k] == a[i];
        assert(c.contains(b[k]));
    }
}

/// The first, the second and the third of three parts are in the three together.
proof fn lemma_three<T>(a: Seq<T>, b: Seq<T>, c: Seq<T>)
    ensures
        all_in(a, a + b + c),
        all_in(b, a + b + c),
        all_in(c, a + b + c),
{
    lemma_left(a, b);
    lemma_right(a, b);
    lemma_left(a + b, c);
    lemma_right(a + b, c);
    lemma_on(a, a + b, a + b + c);
    lemma_on(b, a + b, a + b + c);
}

// -- folds --------------------------------------------------------------------------------------------

proof fn lemma_method_folds(cs: Seq<char>, ms: Seq<Rc<FnDecl>>, n: int, k: int)
    requires
        0 <= k < n <= ms.len(),
    ensures
        all_in(method_fold(cs, ms[k]), method_folds(cs, ms, n)),
        all_in(body_folds(cs, ms[k]), method_folds(cs, ms, n)),
    decreases n,
{
    let before = method_folds(cs, ms, n - 1);
    lemma_three(before, method_fold(cs, ms[n - 1]), body_folds(cs, ms[n - 1]));
    if k < n - 1 {
        lemma_method_folds(cs, ms, n - 1, k);
        lemma_on(method_fold(cs, ms[k]), before, method_folds(cs, ms, n));
        lemma_on(body_folds(cs, ms[k]), before, method_folds(cs, ms, n));
    }
}

/// What is folded inside a statement that goes over lines is folded: in the body of a function,
/// in each method of a class, in both branches of an `if`, in the body of a loop, and in the
/// block and the handler of a `try`.
pub proof fn law_what_stands_inside_is_folded(cs: Seq<char>, s: Stmt, k: int)
    requires
        tall(cs, s.span),
    ensures
        match s.kind {
            StmtKind::Fn(decl) => all_in(block_folds(cs, decl.body), folds(cs, s)),
            StmtKind::Class(decl) => 0 <= k < decl.methods@.len() ==> all_in(
                method_fold(cs, decl.methods@[k]),
                folds(cs, s),
            ) && all_in(body_folds(cs, decl.methods@[k]), folds(cs, s)),
            StmtKind::If { cond, consequent, otherwise } => all_in(block_folds(cs, consequent), folds(cs, s)) && match otherwise {
                Some(other) => all_in(folds(cs, *other), folds(cs, s)),
                None => true,
            },
            StmtKind::While { cond, body } => all_in(block_folds(cs, body), folds(cs, s)),
            StmtKind::For { var, iter, body } => all_in(block_folds(cs, body), folds(cs, s)),
            StmtKind::Try { body, binding, handler } => all_in(block_folds(cs, body), folds(cs, s)) && all_in(
                block_folds(cs, handler),
                folds(cs, s),
            ),
            StmtKind::Block(b) => all_in(block_folds(cs, b), folds(cs, s)),
            _ => true,
        },
{
    let inner = inner_folds(cs, s);
    if let Some(text) = crate::lsp::folding::fold_text(s) {
        let own = seq![crate::lsp::folding::region_of(cs, s.span, text)];
        lemma_right(own, inner);
        assert(folds(cs, s) == own + inner);
    }
    match s.kind {
        StmtKind::Class(decl) => {
            if 0 <= k < decl.methods@.len() {
                lemma_method_folds(cs, decl.methods@, decl.methods@.len() as int, k);
                lemma_on(method_fold(cs, decl.methods@[k]), inner, folds(cs, s));
                lemma_on(body_folds(cs, decl.methods@[k]), inner, folds(cs, s));
            }
        },
        StmtKind::If { cond, consequent, otherwise } => {
            let first = block_folds(cs, consequent);
            match otherwise {
                Some(other) => {
                    lemma_left(first, folds(cs, *other));
                    lemma_right(first, folds(cs, *other));
                    assert(inner == first + folds(cs, *other));
                    lemma_on(folds(cs, *other), inner, folds(cs, s));
                },
                None => {
                    assert(inner =~= first);
                },
            }
            lemma_on(first, inner, folds(cs, s));
        },
        StmtKind::Try { body, binding, handler } => {
            lemma_left(block_folds(cs, body), block_folds(cs, handler));
            lemma_right(block_folds(cs, body), block_folds(cs, handler));
            lemma_on(block_folds(cs, body), inner, folds(cs, s));
            lemma_on(block_folds(cs, handler), inner, folds(cs, s));
        },
        _ => {},
    }
}

// -- selections ---------------------------------------------------------------------------------------

/// What a place stands in inside a statement may be selected: the condition of an `if`, what its
/// branches hold, what a loop goes over and holds, and what a `try` and its handler hold.
pub proof fn law_what_stands_inside_is_selected(s: Stmt, at: int)
    requires
        inside(s.span, at),
    ensures
        match s.kind {
            StmtKind::Let { value: Some(e), .. } => all_in(entered(e, at), own_spans(s, at)),
            StmtKind::Expr(e) => all_in(entered(e, at), own_spans(s, at)),
            StmtKind::Return(Some(e)) => all_in(entered(e, at), own_spans(s, at)),
            StmtKind::Throw(e) => all_in(entered(e, at), own_spans(s, at)),
            StmtKind::Fn(decl) => all_in(body_spans(decl, at), own_spans(s, at)),
            StmtKind::If { cond, consequent, otherwise } => all_in(entered(cond, at), own_spans(s, at)) && all_in(
                stmt_spans(consequent.stmts@, at, consequent.stmts@.len() as int),
                own_spans(s, at),
            ) && match otherwise {
                Some(other) => all_in(inner_spans(*other, at), own_spans(s, at)),
                None => true,
            },
            StmtKind::While { cond, body } => all_in(entered(cond, at), own_spans(s, at)) && all_in(
                stmt_spans(body.stmts@, at, body.stmts@.len() as int),
                own_spans(s, at),
            ),
            StmtKind::For { var, iter, body } => all_in(entered(iter, at), own_spans(s, at)) && all_in(
                stmt_spans(body.stmts@, at, body.stmts@.len() as int),
                own_spans(s, at),
            ),
            StmtKind::Try { body, binding, handler } => all_in(
                stmt_spans(body.stmts@, at, body.stmts@.len() as int),
                own_spans(s, at),
            ) && all_in(stmt_spans(handler.stmts@, at, handler.stmts@.len() as int), own_spans(s, at)),
            _ => true,
        },
{
    let inner = inner_spans(s, at);
    let all = own_spans(s, at);
    lemma_right(seq![s.span], inner);
    assert(all == seq![s.span] + inner);
    match s.kind {
        StmtKind::If { cond, consequent, otherwise } => {
            let a = entered(cond, at);
            let b = stmt_spans(consequent.stmts@, at, consequent.stmts@.len() as int);
            let c = match otherwise {
                Some(other) => inner_spans(*other, at),
                None => Seq::empty(),
            };
            lemma_three(a, b, c);
            assert(inner == a + b + c);
            lemma_on(a, inner, all);
            lemma_on(b, inner, all);
            lemma_on(c, inner, all);
        },
        StmtKind::While { cond, body } => {
            let a = entered(cond, at);
            let b = stmt_spans(body.stmts@, at, body.stmts@.len() as int);
            lemma_left(a, b);
            lemma_right(a, b);
            lemma_on(a, inner, all);
            lemma_on(b, inner, all);
        },
        StmtKind::For { var, iter, body } => {
            let a = entered(iter, at);
            let b = stmt_spans(body.stmts@, at, body.stmts@.len() as int);
            lemma_left(a, b);
            lemma_right(a, b);
            lemma_on(a, inner, all);
            lemma_on(b, inner, all);
        },
        StmtKind::Try { body, binding, handler } => {
            let a = stmt_spans(body.stmts@, at, body.stmts@.len() as int);
            let b = stmt_spans(handler.stmts@, at, handler.stmts@.len() as int);
            lemma_left(a, b);
            lemma_right(a, b);
            lemma_on(a, inner, all);
            lemma_on(b, inner, all);
        },
        _ => {},
    }
}

/// An expression that a place stands in may be selected, and so may its parts: both sides of an
/// operator and of an assignment, and what a call, a member and a subscript are of.
pub proof fn law_the_parts_of_an_expression_are_selected(e: Expr, at: int)
    ensures
        inside(e.span, at) ==> expr_spans(e, at).contains(e.span),
        all_in(kind_spans(e.kind, at), expr_spans(e, at)),
        match e.kind {
            ExprKind::Binary { op, lhs, rhs } => all_in(expr_spans(*lhs, at), kind_spans(e.kind, at)) && all_in(
                expr_spans(*rhs, at),
                kind_spans(e.kind, at),
            ),
            ExprKind::Logical { op, lhs, rhs } => all_in(expr_spans(*lhs, at), kind_spans(e.kind, at)) && all_in(
                expr_spans(*rhs, at),
                kind_spans(e.kind, at),
            ),
            ExprKind::Assign { target, value } => all_in(expr_spans(*target, at), kind_spans(e.kind, at)) && all_in(
                expr_spans(*value, at),
                kind_spans(e.kind, at),
            ),
            ExprKind::Index { target, index } => all_in(expr_spans(*target, at), kind_spans(e.kind, at)) && all_in(
                expr_spans(*index, at),
                kind_spans(e.kind, at),
            ),
            ExprKind::Call { callee, args } => all_in(expr_spans(*callee, at), kind_spans(e.kind, at)),
            _ => true,
        },
{
    let parts = kind_spans(e.kind, at);
    if inside(e.span, at) {
        lemma_right(seq![e.span], parts);
        assert(expr_spans(e, at) == seq![e.span] + parts);
        assert(expr_spans(e, at)[0] == e.span);
    } else {
        assert(expr_spans(e, at) =~= parts);
    }
    match e.kind {
        ExprKind::Binary { op, lhs, rhs } => {
            lemma_left(expr_spans(*lhs, at), expr_spans(*rhs, at));
            lemma_right(expr_spans(*lhs, at), expr_spans(*rhs, at));
        },
        ExprKind::Logical { op, lhs, rhs } => {
            lemma_left(expr_spans(*lhs, at), expr_spans(*rhs, at));
            lemma_right(expr_spans(*lhs, at), expr_spans(*rhs, at));
        },
        ExprKind::Assign { target, value } => {
            lemma_left(expr_spans(*target, at), expr_spans(*value, at));
            lemma_right(expr_spans(*target, at), expr_spans(*value, at));
        },
        ExprKind::Index { target, index } => {
            lemma_left(expr_spans(*target, at), expr_spans(*index, at));
            lemma_right(expr_spans(*target, at), expr_spans(*index, at));
        },
        ExprKind::Call { callee, args } => {
            lemma_left(
                expr_spans(*callee, at),
                crate::lsp::selection::arg_spans(args@, at, args@.len() as int),
            );
        },
        _ => {},
    }
}

// -- tokens -------------------------------------------------------------------------------------------

/// The names inside a statement are marked: in the condition and both branches of an `if`, in
/// loops, and in a `try` and its handler.
pub proof fn law_what_stands_inside_is_marked(cs: Seq<char>, s: Stmt)
    ensures
        match s.kind {
            StmtKind::If { cond, consequent, otherwise } => all_in(expr_tokens(cs, cond), one_stmt(cs, s)) && all_in(
                stmt_tokens(cs, consequent.stmts@, consequent.stmts@.len() as int),
                one_stmt(cs, s),
            ) && match otherwise {
                Some(other) => all_in(one_stmt(cs, *other), one_stmt(cs, s)),
                None => true,
            },
            StmtKind::While { cond, body } => all_in(expr_tokens(cs, cond), one_stmt(cs, s)) && all_in(
                stmt_tokens(cs, body.stmts@, body.stmts@.len() as int),
                one_stmt(cs, s),
            ),
            StmtKind::For { var, iter, body } => all_in(expr_tokens(cs, iter), one_stmt(cs, s)) && all_in(
                stmt_tokens(cs, body.stmts@, body.stmts@.len() as int),
                one_stmt(cs, s),
            ),
            StmtKind::Try { body, binding, handler } => all_in(
                stmt_tokens(cs, body.stmts@, body.stmts@.len() as int),
                one_stmt(cs, s),
            ) && all_in(stmt_tokens(cs, handler.stmts@, handler.stmts@.len() as int), one_stmt(cs, s)),
            StmtKind::Fn(decl) => all_in(body_tokens(cs, decl), one_stmt(cs, s)),
            _ => true,
        },
{
    match s.kind {
        StmtKind::If { cond, consequent, otherwise } => {
            let c = match otherwise {
                Some(other) => one_stmt(cs, *other),
                None => Seq::empty(),
            };
            let b = stmt_tokens(cs, consequent.stmts@, consequent.stmts@.len() as int);
            lemma_three(expr_tokens(cs, cond), b, c);
            assert(one_stmt(cs, s) == expr_tokens(cs, cond) + b + c);
        },
        StmtKind::While { cond, body } => {
            let b = stmt_tokens(cs, body.stmts@, body.stmts@.len() as int);
            lemma_left(expr_tokens(cs, cond), b);
            lemma_right(expr_tokens(cs, cond), b);
        },
        StmtKind::For { var, iter, body } => {
            let a = crate::lsp::semantic::token_for(cs, s.span, var@, crate::lsp::semantic::VARIABLE, 1);
            let b = stmt_tokens(cs, body.stmts@, body.stmts@.len() as int);
            lemma_three(a, expr_tokens(cs, iter), b);
        },
        StmtKind::Try { body, binding, handler } => {
            let a = crate::lsp::semantic::token_for(cs, s.span, binding@, crate::lsp::semantic::VARIABLE, 1);
            let b = stmt_tokens(cs, body.stmts@, body.stmts@.len() as int);
            let c = stmt_tokens(cs, handler.stmts@, handler.stmts@.len() as int);
            lemma_three(a, b, c);
        },
        StmtKind::Fn(decl) => {
            let a = crate::lsp::semantic::token_for(cs, s.span, decl.name@, crate::lsp::semantic::FUNCTION, 1);
            let b = crate::lsp::semantic::param_tokens(cs, s.span, decl.params@, decl.params@.len() as int);
            lemma_three(a, b, body_tokens(cs, decl));
        },
        _ => {},
    }
}

// -- hints and names ----------------------------------------------------------------------------------

/// The bindings inside a statement are hinted: in both branches of an `if` too.
pub proof fn law_what_stands_inside_is_hinted(p: Seq<Stmt>, s: Stmt)
    ensures
        match s.kind {
            StmtKind::If { cond, consequent, otherwise } => all_in(
                stmt_hints(p, consequent.stmts@, consequent.stmts@.len() as int),
                one_hints(p, s),
            ) && match otherwise {
                Some(other) => all_in(one_hints(p, *other), one_hints(p, s)),
                None => true,
            },
            StmtKind::Fn(decl) => all_in(body_hints(p, decl), one_hints(p, s)),
            _ => true,
        },
{
    match s.kind {
        StmtKind::If { cond, consequent, otherwise } => {
            let a = stmt_hints(p, consequent.stmts@, consequent.stmts@.len() as int);
            let b = match otherwise {
                Some(other) => one_hints(p, *other),
                None => Seq::empty(),
            };
            lemma_left(a, b);
            lemma_right(a, b);
            assert(one_hints(p, s) == a + b);
        },
        StmtKind::Fn(decl) => {
            lemma_left(body_hints(p, decl), Seq::empty());
        },
        _ => {},
    }
}

/// The names that are declared inside a statement are offered: in both branches of an `if`, in
/// loops, and in a `try` and its handler.
pub proof fn law_what_is_declared_inside_is_offered(cs: Seq<char>, s: Stmt, line: int)
    ensures
        match s.kind {
            StmtKind::If { cond, consequent, otherwise } => all_in(
                stmt_items(cs, consequent.stmts@, line, consequent.stmts@.len() as int),
                declared(cs, s, line),
            ) && match otherwise {
                Some(other) => all_in(crate::lsp::names::one_stmt(cs, *other, line), declared(cs, s, line)),
                None => true,
            },
            StmtKind::While { cond, body } => all_in(
                stmt_items(cs, body.stmts@, line, body.stmts@.len() as int),
                declared(cs, s, line),
            ),
            StmtKind::Try { body, binding, handler } => all_in(
                stmt_items(cs, body.stmts@, line, body.stmts@.len() as int),
                declared(cs, s, line),
            ) && all_in(
                stmt_items(cs, handler.stmts@, line, handler.stmts@.len() as int),
                declared(cs, s, line),
            ),
            _ => true,
        },
{
    match s.kind {
        StmtKind::If { cond, consequent, otherwise } => {
            let a = stmt_items(cs, consequent.stmts@, line, consequent.stmts@.len() as int);
            let b = match otherwise {
                Some(other) => crate::lsp::names::one_stmt(cs, *other, line),
                None => Seq::empty(),
            };
            lemma_left(a, b);
            lemma_right(a, b);
            assert(declared(cs, s, line) == a + b);
        },
        StmtKind::While { cond, body } => {
            lemma_left(stmt_items(cs, body.stmts@, line, body.stmts@.len() as int), Seq::empty());
            let a = stmt_items(cs, body.stmts@, line, body.stmts@.len() as int);
            assert(a + Seq::empty() =~= a);
        },
        StmtKind::Try { body, binding, handler } => {
            let a = seq![
                crate::lsp::item::item(
                    binding@,
                    crate::lsp::item::ItemKind::Variable,
                    "caught error variable"@,
                ),
            ];
            let b = stmt_items(cs, body.stmts@, line, body.stmts@.len() as int);
            let c = stmt_items(cs, handler.stmts@, line, handler.stmts@.len() as int);
            lemma_three(a, b, c);
        },
        _ => {},
    }
}

} // verus!
