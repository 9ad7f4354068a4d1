//! Growing a selection: the parts of a program a place stands in, from the outside in.

use crate::lsp::document::DocumentState;
use crate::lsp::position::{char_of, position_to_offset, range_of, span_to_range, Position, Range};
use crate::syntax::ast::{CallArg, Expr, ExprKind, FieldDecl, FnDecl, Pair, Stmt, StmtKind};
use crate::syntax::token::Span;
use crate::text::{byte_len, offset};
use std::rc::Rc;
use vstd::prelude::*;

verus! {

/// Whether a place stands inside a span, its ends too.
pub open spec fn inside(span: Span, at: int) -> bool {
    span.start <= at <= span.end
}

pub(crate) fn is_inside(span: Span, at: usize) -> (r: bool)
    ensures
        r == inside(span, at as int),
{
    span.start <= at && at <= span.end
}

// -- expressions -----------------------------------------------------------------------------------

pub open spec fn arg_spans(args: Seq<CallArg>, at: int, n: int) -> Seq<Span>
    decreases args, n,
{
    if 0 < n <= args.len() {
        arg_spans(args, at, n - 1) + arg_span(args[n - 1], at)
    } else {
        Seq::empty()
    }
}

pub open spec fn arg_span(arg: CallArg, at: int) -> Seq<Span>
    decreases arg,
{
    expr_spans(arg.value, at)
}

pub open spec fn item_spans(items: Seq<Expr>, at: int, n: int) -> Seq<Span>
    decreases items, n,
{
    if 0 < n <= items.len() {
        item_spans(items, at, n - 1) + expr_spans(items[n - 1], at)
    } else {
        Seq::empty()
    }
}

pub open spec fn pair_spans(pairs: Seq<Pair>, at: int, n: int) -> Seq<Span>
    decreases pairs, n,
{
    if 0 < n <= pairs.len() {
        pair_spans(pairs, at, n - 1) + pair_span(pairs[n - 1], at)
    } else {
        Seq::empty()
    }
}

pub open spec fn pair_span(pair: Pair, at: int) -> Seq<Span>
    decreases pair,
{
    expr_spans(pair.key, at) + expr_spans(pair.value, at)
}

pub open spec fn opt_spans(e: Option<Box<Expr>>, at: int) -> Seq<Span>
    decreases e,
{
    match e {
        Some(e) => expr_spans(*e, at),
        None => Seq::empty(),
    }
}

/// The spans that a place stands in, among the parts of an expression.
pub open spec fn kind_spans(k: ExprKind, at: int) -> Seq<Span>
    decreases k,
{
    match k {
        ExprKind::Call { callee, args } => expr_spans(*callee, at) + arg_spans(args@, at, args@.len() as int),
        ExprKind::Field { target, name } => expr_spans(*target, at),
        ExprKind::Unary { op, rhs } => expr_spans(*rhs, at),
        ExprKind::Binary { op, lhs, rhs } => expr_spans(*lhs, at) + expr_spans(*rhs, at),
        ExprKind::Logical { op, lhs, rhs } => expr_spans(*lhs, at) + expr_spans(*rhs, at),
        ExprKind::Assign { target, value } => expr_spans(*target, at) + expr_spans(*value, at),
        ExprKind::AssignOp { op, target, value } => expr_spans(*target, at) + expr_spans(*value, at),
        ExprKind::List(items) => item_spans(items@, at, items@.len() as int),
        ExprKind::Dict(pairs) => pair_spans(pairs@, at, pairs@.len() as int),
        ExprKind::Index { target, index } => expr_spans(*target, at) + expr_spans(*index, at),
        ExprKind::Slice { target, start, end } => expr_spans(*target, at) + opt_spans(start, at) + opt_spans(end, at),
        ExprKind::Is { value, ty } => expr_spans(*value, at),
        _ => Seq::empty(),
    }
}

/// The spans that a place stands in, among an expression and its parts.
pub open spec fn expr_spans(e: Expr, at: int) -> Seq<Span>
    decreases e,
{
    (if inside(e.span, at) {
        seq![e.span]
    } else {
        Seq::empty()
    }) + kind_spans(e.kind, at)
}

fn visit_args(args: &Vec<CallArg>, at: usize, out: &mut Vec<Span>)
    ensures
        final(out)@ == old(out)@ + arg_spans(args@, at as int, args@.len() as int),
    decreases args@,
{
    let ghost before = out@;
    let mut i: usize = 0;
    assert(before + Seq::<Span>::empty() =~= before);
    while i < args.len()
        invariant
            i <= args@.len(),
            before == old(out)@,
            out@ == before + arg_spans(args@, at as int, i as int),
        decreases args@.len() - i,
    {
        visit_expr_selection(&args[i].value, at, out);
        i += 1;
        assert(arg_spans(args@, at as int, i as int) == arg_spans(args@, at as int, i - 1) + arg_span(args@[i - 1], at as int));
        assert(out@ =~= before + arg_spans(args@, at as int, i as int));
    }
}

fn visit_items(items: &Vec<Expr>, at: usize, out: &mut Vec<Span>)
    ensures
        final(out)@ == old(out)@ + item_spans(items@, at as int, items@.len() as int),
    decreases items@,
{
    let ghost before = out@;
    let mut i: usize = 0;
    assert(before + Seq::<Span>::empty() =~= before);
    while i < items.len()
        invariant
            i <= items@.len(),
            before == old(out)@,
            out@ == before + item_spans(items@, at as int, i as int),
        decreases items@.len() - i,
    {
        visit_expr_selection(&items[i], at, out);
        i += 1;
        assert(item_spans(items@, at as int, i as int) == item_spans(items@, at as int, i - 1) + expr_spans(
            items@[i - 1],
            at as int,
        ));
        assert(out@ =~= before + item_spans(items@, at as int, i as int));
    }
}

fn visit_pairs(pairs: &Vec<Pair>, at: usize, out: &mut Vec<Span>)
    ensures
        final(out)@ == old(out)@ + pair_spans(pairs@, at as int, pairs@.len() as int),
    decreases pairs@,
{
    let ghost before = out@;
    let mut i: usize = 0;
    assert(before + Seq::<Span>::empty() =~= before);
    while i < pairs.len()
        invariant
            i <= pairs@.len(),
            before == old(out)@,
            out@ == before + pair_spans(pairs@, at as int, i as int),
        decreases pairs@.len() - i,
    {
        visit_expr_selection(&pairs[i].key, at, out);
        visit_expr_selection(&pairs[i].value, at, out);
        i += 1;
        assert(pair_spans(pairs@, at as int, i as int) == pair_spans(pairs@, at as int, i - 1) + pair_span(
            pairs@[i - 1],
            at as int,
        ));
        assert(out@ =~= before + pair_spans(pairs@, at as int, i as int));
    }
}

fn visit_opt(e: &Option<Box<Expr>>, at: usize, out: &mut Vec<Span>)
    ensures
        final(out)@ == old(out)@ + opt_spans(*e, at as int),
    decreases e,
{
    match e {
        Some(e) => visit_expr_selection(e, at, out),
        None => {
            assert(out@ + Seq::<Span>::empty() =~= out@);
        },
    }
}

fn visit_expr_selection(expr: &Expr, at: usize, out: &mut Vec<Span>)
    ensures
        final(out)@ == old(out)@ + expr_spans(*expr, at as int),
    decreases expr,
{
    let ghost before = out@;
    if is_inside(expr.span, at) {
        out.push(expr.span);
    }
    let ghost own = out@;
    match &expr.kind {
        ExprKind::Call { callee, args } => {
            visit_expr_selection(callee, at, out);
            visit_args(args, at, out);
        },
        ExprKind::Field { target, name } => visit_expr_selection(target, at, out),
        ExprKind::Unary { op, rhs } => visit_expr_selection(rhs, at, out),
        ExprKind::Binary { op, lhs, rhs } => {
            visit_expr_selection(lhs, at, out);
            visit_expr_selection(rhs, at, out);
        },
        ExprKind::Logical { op, lhs, rhs } => {
            visit_expr_selection(lhs, at, out);
            visit_expr_selection(rhs, at, out);
        },
        ExprKind::Assign { target, value } => {
            visit_expr_selection(target, at, out);
            visit_expr_selection(value, at, out);
        },
        ExprKind::AssignOp { op, target, value } => {
            visit_expr_selection(target, at, out);
            visit_expr_selection(value, at, out);
        },
        ExprKind::List(items) => visit_items(items, at, out),
        ExprKind::Dict(pairs) => visit_pairs(pairs, at, out),
        ExprKind::Index { target, index } => {
            visit_expr_selection(target, at, out);
            visit_expr_selection(index, at, out);
        },
        ExprKind::Slice { target, start, end } => {
            visit_expr_selection(target, at, out);
            visit_opt(start, at, out);
            visit_opt(end, at, out);
        },
        ExprKind::Is { value, ty } => visit_expr_selection(value, at, out),
        _ => {},
    }
    proof {
        assert(out@ =~= own + kind_spans(expr.kind, at as int));
        assert(out@ =~= before + expr_spans(*expr, at as int));
    }
}

// -- statements ---------------------------------------------------------------------------------------

/// The spans of an expression that the place stands in at all.
pub open spec fn entered(e: Expr, at: int) -> Seq<Span> {
    if inside(e.span, at) {
        expr_spans(e, at)
    } else {
        Seq::empty()
    }
}

pub open spec fn opt_entered(e: Option<Expr>, at: int) -> Seq<Span> {
    match e {
        Some(e) => entered(e, at),
        None => Seq::empty(),
    }
}

/// The spans of the first `n` statements that a place stands in.
pub open spec fn stmt_spans(ss: Seq<Stmt>, at: int, n: int) -> Seq<Span>
    decreases ss, n,
{
    if 0 < n <= ss.len() {
        stmt_spans(ss, at, n - 1) + own_spans(ss[n - 1], at)
    } else {
        Seq::empty()
    }
}

/// The spans of a statement, where a place stands in it.
pub open spec fn own_spans(s: Stmt, at: int) -> Seq<Span>
    decreases s, 1int,
{
    if inside(s.span, at) {
        seq![s.span] + inner_spans(s, at)
    } else {
        Seq::empty()
    }
}

pub open spec fn method_spans(ms: Seq<Rc<FnDecl>>, at: int, n: int) -> Seq<Span>
    decreases ms, n,
{
    if 0 < n <= ms.len() {
        method_spans(ms, at, n - 1) + body_spans(ms[n - 1], at)
    } else {
        Seq::empty()
    }
}

pub open spec fn body_spans(m: Rc<FnDecl>, at: int) -> Seq<Span>
    decreases m,
{
    stmt_spans(m.body.stmts@, at, m.body.stmts@.len() as int)
}

pub open spec fn field_spans(fs: Seq<FieldDecl>, at: int, n: int) -> Seq<Span>
    decreases n,
{
    if 0 < n <= fs.len() {
        field_spans(fs, at, n - 1) + opt_entered(fs[n - 1].value, at)
    } else {
        Seq::empty()
    }
}

/// The spans inside a statement that a place stands in.
pub open spec fn inner_spans(s: Stmt, at: int) -> Seq<Span>
    decreases s, 0int,
{
    match s.kind {
        StmtKind::Let { value, .. } => opt_entered(value, at),
        StmtKind::Fn(decl) => body_spans(decl, at),
        StmtKind::Class(decl) => field_spans(decl.fields@, at, decl.fields@.len() as int) + method_spans(
            decl.methods@,
            at,
            decl.methods@.len() as int,
        ),
        StmtKind::If { cond, consequent, otherwise } => entered(cond, at) + stmt_spans(
            consequent.stmts@,
            at,
            consequent.stmts@.len() as int,
        ) + match otherwise {
            Some(other) => inner_spans(*other, at),
            None => Seq::empty(),
        },
        StmtKind::While { cond, body } => entered(cond, at) + stmt_spans(body.stmts@, at, body.stmts@.len() as int),
        StmtKind::For { var, iter, body } => entered(iter, at) + stmt_spans(body.stmts@, at, body.stmts@.len() as int),
        StmtKind::Try { body, binding, handler } => stmt_spans(body.stmts@, at, body.stmts@.len() as int) + stmt_spans(
            handler.stmts@,
            at,
            handler.stmts@.len() as int,
        ),
        StmtKind::Return(value) => opt_entered(value, at),
        StmtKind::Throw(e) => entered(e, at),
        StmtKind::Expr(e) => entered(e, at),
        StmtKind::Block(b) => stmt_spans(b.stmts@, at, b.stmts@.len() as int),
        _ => Seq::empty(),
    }
}

fn enter(e: &Expr, at: usize, out: &mut Vec<Span>)
    ensures
        final(out)@ == old(out)@ + entered(*e, at as int),
{
    if is_inside(e.span, at) {
        visit_expr_selection(e, at, out);
    } else {
        assert(out@ + Seq::<Span>::empty() =~= out@);
    }
}

fn enter_opt(e: &Option<Expr>, at: usize, out: &mut Vec<Span>)
    ensures
        final(out)@ == old(out)@ + opt_entered(*e, at as int),
{
    match e {
        Some(e) => enter(e, at, out),
        None => {
            assert(out@ + Seq::<Span>::empty() =~= out@);
        },
    }
}

fn collect_containing_spans(stmts: &Vec<Stmt>, at: usize, out: &mut Vec<Span>)
    ensures
        final(out)@ == old(out)@ + stmt_spans(stmts@, at as int, stmts@.len() as int),
    decreases stmts@,
{
    let ghost before = out@;
    let mut i: usize = 0;
    assert(before + Seq::<Span>::empty() =~= before);
    while i < stmts.len()
        invariant
            i <= stmts@.len(),
            before == old(out)@,
            out@ == before + stmt_spans(stmts@, at as int, i as int),
        decreases stmts@.len() - i,
    {
        let ghost so_far = out@;
        let stmt = &stmts[i];
        if is_inside(stmt.span, at) {
            out.push(stmt.span);
            visit_stmt_selection(stmt, at, out);
        }
        i += 1;
        assert(out@ =~= so_far + own_spans(stmts@[i - 1], at as int));
        assert(stmt_spans(stmts@, at as int, i as int) == stmt_spans(stmts@, at as int, i - 1) + own_spans(
            stmts@[i - 1],
            at as int,
        ));
        assert(out@ =~= before + stmt_spans(stmts@, at as int, i as int));
    }
}

fn visit_fields(fields: &Vec<FieldDecl>, at: usize, out: &mut Vec<Span>)
    ensures
        final(out)@ == old(out)@ + field_spans(fields@, at as int, fields@.len() as int),
{
    let ghost before = out@;
    let mut i: usize = 0;
    assert(before + Seq::<Span>::empty() =~= before);
    while i < fields.len()
        invariant
            i <= fields@.len(),
            before == old(out)@,
            out@ == before + field_spans(fields@, at as int, i as int),
        decreases fields@.len() - i,
    {
        enter_opt(&fields[i].value, at, out);
        i += 1;
        assert(out@ =~= before + field_spans(fields@, at as int, i as int));
    }
}

fn visit_methods(methods: &Vec<Rc<FnDecl>>, at: usize, out: &mut Vec<Span>)
    ensures
        final(out)@ == old(out)@ + method_spans(methods@, at as int, methods@.len() as int),
    decreases methods@,
{
    let ghost before = out@;
    let mut i: usize = 0;
    assert(before + Seq::<Span>::empty() =~= before);
    while i < methods.len()
        invariant
            i <= methods@.len(),
            before == old(out)@,
            out@ == before + method_spans(methods@, at as int, i as int),
        decreases methods@.len() - i,
    {
        collect_containing_spans(&methods[i].body.stmts, at, out);
        i += 1;
        assert(method_spans(methods@, at as int, i as int) == method_spans(methods@, at as int, i - 1) + body_spans(
            methods@[i - 1],
            at as int,
        ));
        assert(out@ =~= before + method_spans(methods@, at as int, i as int));
    }
}

fn visit_stmt_selection(stmt: &Stmt, at: usize, out: &mut Vec<Span>)
    ensures
        final(out)@ == old(out)@ + inner_spans(*stmt, at as int),
    decreases stmt,
{
    let ghost before = out@;
    match &stmt.kind {
        StmtKind::Let { value, .. } => enter_opt(value, at, out),
        StmtKind::Fn(decl) => {
            collect_containing_spans(&decl.body.stmts, at, out);
            assert(out@ =~= before + body_spans(*decl, at as int));
        },
        StmtKind::Class(decl) => {
            visit_fields(&decl.fields, at, out);
            visit_methods(&decl.methods, at, out);
            assert(out@ =~= before + inner_spans(*stmt, at as int));
        },
        StmtKind::If { cond, consequent, otherwise } => {
            enter(cond, at, out);
            collect_containing_spans(&consequent.stmts, at, out);
            if let Some(other) = otherwise {
                visit_stmt_selection(other, at, out);
            }
            assert(out@ =~= before + inner_spans(*stmt, at as int));
        },
        StmtKind::While { cond, body } => {
            enter(cond, at, out);
            collect_containing_spans(&body.stmts, at, out);
            assert(out@ =~= before + inner_spans(*stmt, at as int));
        },
        StmtKind::For { var, iter, body } => {
            enter(iter, at, out);
            collect_containing_spans(&body.stmts, at, out);
            assert(out@ =~= before + inner_spans(*stmt, at as int));
        },
        StmtKind::Try { body, binding, handler } => {
            collect_containing_spans(&body.stmts, at, out);
            collect_containing_spans(&handler.stmts, at, out);
            assert(out@ =~= before + inner_spans(*stmt, at as int));
        },
        StmtKind::Return(value) => enter_opt(value, at, out),
        StmtKind::Throw(e) => enter(e, at, out),
        StmtKind::Expr(e) => enter(e, at, out),
        StmtKind::Block(b) => collect_containing_spans(&b.stmts, at, out),
        _ => {},
    }
    assert(out@ =~= before + inner_spans(*stmt, at as int));
}

// -- from the outside in ---------------------------------------------------------------------------------

/// How many bytes a span covers.
pub open spec fn reach(span: Span) -> int {
    if span.end >= span.start {
        span.end - span.start
    } else {
        0
    }
}

/// A span put among others, behind those that cover as much or more.
pub open spec fn placed(s: Seq<Span>, x: Span) -> Seq<Span>
    decreases s.len(),
{
    if s.len() > 0 && reach(s.last()) < reach(x) {
        placed(s.drop_last(), x).push(s.last())
    } else {
        s.push(x)
    }
}

/// Spans with the widest first; those as wide as each other stay in order.
pub open spec fn widest_first(s: Seq<Span>) -> Seq<Span>
    decreases s.len(),
{
    if s.len() == 0 {
        Seq::empty()
    } else {
        placed(widest_first(s.drop_last()), s.last())
    }
}

/// Spans without those that repeat the one before them.
pub open spec fn unrepeated(s: Seq<Span>) -> Seq<Span>
    decreases s.len(),
{
    if s.len() <= 1 {
        s
    } else if s.last() == s[s.len() - 2] {
        unrepeated(s.drop_last())
    } else {
        unrepeated(s.drop_last()).push(s.last())
    }
}

/// The ranges that a place of a document stands in, from the outside in.
pub open spec fn selection(state: DocumentState, ast: Seq<Stmt>, pos: Position) -> Seq<Range> {
    let cs = state.text@;
    let at = offset(cs, char_of(cs, pos)) as int;
    let whole = Span { start: 0, end: offset(cs, cs.len() as int) as usize };
    let spans = unrepeated(widest_first(seq![whole] + stmt_spans(ast, at, ast.len() as int)));
    Seq::new(spans.len(), |i: int| range_of(cs, spans[i]))
}

pub open spec fn ranges_v(s: Seq<Vec<Range>>) -> Seq<Seq<Range>> {
    Seq::new(s.len(), |i: int| s[i]@)
}

/// The selections for some places of a document.
pub open spec fn selections(state: DocumentState, positions: Seq<Position>) -> Seq<Seq<Range>> {
    match state.ast {
        Some(ast) => Seq::new(positions.len(), |i: int| selection(state, ast@, positions[i])),
        None => Seq::empty(),
    }
}

fn reach_of(span: Span) -> (r: usize)
    ensures
        r == reach(span),
{
    if span.end >= span.start {
        span.end - span.start
    } else {
        0
    }
}

fn place_span(s: &mut Vec<Span>, x: Span)
    ensures
        final(s)@ == placed(old(s)@, x),
{
    let ghost all = s@;
    let mut n: usize = s.len();
    let ghost mut after = Seq::<Span>::empty();
    assert(placed(all, x) =~= placed(all.take(n as int), x) + after) by {
        assert(all.take(n as int) =~= all);
    }
    while n > 0 && reach_of(s[n - 1]) < reach_of(x)
        invariant
            n <= all.len(),
            s@ == all,
            after == all.subrange(n as int, all.len() as int),
            placed(all, x) == placed(all.take(n as int), x) + after,
        decreases n,
    {
        proof {
            let front = all.take(n as int);
            assert(front.last() == all[n - 1]);
            assert(front.drop_last() =~= all.take(n - 1));
            let longer = all.subrange(n - 1, all.len() as int);
            assert(placed(front, x) == placed(all.take(n - 1), x).push(all[n - 1]));
            assert(placed(all.take(n - 1), x).push(all[n - 1]) + after =~= placed(all.take(n - 1), x) + longer);
            after = longer;
        }
        n -= 1;
    }
    proof {
        if n > 0 {
            assert(all.take(n as int).last() == all[n - 1]);
        }
        assert(placed(all.take(n as int), x) == all.take(n as int).push(x));
        assert(all.insert(n as int, x) =~= all.take(n as int).push(x) + after);
    }
    s.insert(n, x);
}

fn in_order(spans: &Vec<Span>) -> (r: Vec<Span>)
    ensures
        r@ == widest_first(spans@),
{
    let mut r: Vec<Span> = Vec::new();
    let mut i: usize = 0;
    assert(r@ =~= widest_first(spans@.take(0)));
    while i < spans.len()
        invariant
            i <= spans@.len(),
            r@ == widest_first(spans@.take(i as int)),
        decreases spans@.len() - i,
    {
        place_span(&mut r, spans[i]);
        i += 1;
        assert(spans@.take(i as int).drop_last() =~= spans@.take(i - 1));
    }
    assert(spans@.take(i as int) =~= spans@);
    r
}

fn without_repeats(spans: &Vec<Span>) -> (r: Vec<Span>)
    ensures
        r@ == unrepeated(spans@),
{
    let mut r: Vec<Span> = Vec::new();
    let mut i: usize = 0;
    assert(r@ =~= unrepeated(spans@.take(0)));
    while i < spans.len()
        invariant
            i <= spans@.len(),
            r@ == unrepeated(spans@.take(i as int)),
        decreases spans@.len() - i,
    {
        let ghost whole = spans@.take(i + 1);
        assert(whole.drop_last() =~= spans@.take(i as int));
        if i == 0 || spans[i].start != spans[i - 1].start || spans[i].end != spans[i - 1].end {
            r.push(spans[i]);
            if i == 0 {
                assert(r@ =~= whole);
            }
        }
        i += 1;
    }
    assert(spans@.take(i as int) =~= spans@);
    r
}

fn select(state: &DocumentState, ast: &Vec<Stmt>, pos: Position) -> (r: Vec<Range>)
    ensures
        r@ == selection(*state, ast@, pos),
{
    let at: usize = position_to_offset(state.text.as_str(), pos);
    let mut spans: Vec<Span> = Vec::new();
    let whole = Span { start: 0, end: byte_len(state.text.as_str()) };
    spans.push(whole);
    assert(spans@ =~= seq![whole]);
    collect_containing_spans(ast, at, &mut spans);
    let ordered = in_order(&spans);
    let single = without_repeats(&ordered);
    let mut out: Vec<Range> = Vec::new();
    let mut i: usize = 0;
    let ghost goal = selection(*state, ast@, pos);
    while i < single.len()
        invariant
            i <= single@.len(),
            goal == Seq::new(single@.len(), |j: int| range_of(state.text@, single@[j])),
            out@ =~= goal.take(i as int),
        decreases single@.len() - i,
    {
        out.push(span_to_range(state.text.as_str(), single[i]));
        i += 1;
    }
    assert(out@ =~= goal);
    out
}

/// For each of some places, the ranges it stands in, from the outside in.
pub fn get_selection_ranges(state: Option<&DocumentState>, positions: &Vec<Position>) -> (r: Vec<Vec<Range>>)
    ensures
        ranges_v(r@) == match state {
            Some(state) => selections(*state, positions@),
            None => Seq::empty(),
        },
{
    let mut out: Vec<Vec<Range>> = Vec::new();
    assert(ranges_v(out@) =~= Seq::empty());
    let state = match state {
        Some(state) => state,
        None => return out,
    };
    let ast = match &state.ast {
        Some(ast) => ast,
        None => return out,
    };
    let mut i: usize = 0;
    let ghost goal = selections(*state, positions@);
    while i < positions.len()
        invariant
            i <= positions@.len(),
            goal == Seq::new(positions@.len(), |j: int| selection(*state, ast@, positions@[j])),
            ranges_v(out@) =~= goal.take(i as int),
        decreases positions@.len() - i,
    {
        let ghost before = ranges_v(out@);
        out.push(select(state, ast, positions[i]));
        assert(ranges_v(out@) =~= before.push(goal[i as int]));
        i += 1;
    }
    assert(ranges_v(out@) =~= goal);
    out
}

} // verus!
