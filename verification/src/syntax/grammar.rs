//! How programs are read: what each form makes of the parts that are read inside it.

use crate::error::ErrV;
use crate::syntax::ast::{
    BinaryOp, Bind, BlockV, CallArgV, ExprKindV, ExprV, FieldDeclV, FnDeclV, LogicalOp, PairV,
    ParamV, StmtKindV, StmtV, TypeNameV, UnaryOp, Visibility,
};
use crate::syntax::parser::{
    at, names, s_args, s_atom, s_binary, s_block, s_class, s_declaration, s_end, s_expr, s_fn,
    s_for, s_if, s_infix, s_infixes, s_items, s_let, s_members, s_modifiers, s_pairs, s_params,
    s_postfix, s_primary, s_stmt, s_stmts, s_subscript, s_try, s_type, s_unary, s_while, tk, HeadV,
};
use crate::syntax::token::{bits_of, int_of, word_of, Span, Tok, TokenV};
use vstd::prelude::*;

verus! {

// -- operators ----------------------------------------------------------------------------------------

/// Whether an operand is read between two places, however deep one may go.
pub open spec fn operand(ts: Seq<TokenV>, p: int, q: int, e: ExprV, n: nat) -> bool {
    forall|f: nat| f >= n ==> #[trigger] s_unary(f, ts, p) == Ok::<(ExprV, int), ErrV>((e, q))
}

/// Which operators bind alike: the further down, the tighter.
pub open spec fn tightness(t: Tok) -> nat {
    match t {
        Tok::OrOr => 1,
        Tok::AndAnd => 2,
        Tok::Eq | Tok::Ne => 3,
        Tok::Lt | Tok::Le | Tok::Gt | Tok::Ge | Tok::In => 4,
        Tok::Plus | Tok::Minus => 5,
        Tok::Star | Tok::Slash | Tok::SlashSlash | Tok::Percent => 6,
        _ => 0,
    }
}

/// What an operator makes of two operands.
pub open spec fn made_of(t: Tok, a: ExprV, b: ExprV) -> ExprV {
    let lhs = Box::new(a);
    let rhs = Box::new(b);
    let kind = match t {
        Tok::OrOr => ExprKindV::Logical { op: LogicalOp::Or, lhs, rhs },
        Tok::AndAnd => ExprKindV::Logical { op: LogicalOp::And, lhs, rhs },
        Tok::Eq => ExprKindV::Binary { op: BinaryOp::Eq, lhs, rhs },
        Tok::Ne => ExprKindV::Binary { op: BinaryOp::Ne, lhs, rhs },
        Tok::Lt => ExprKindV::Binary { op: BinaryOp::Lt, lhs, rhs },
        Tok::Le => ExprKindV::Binary { op: BinaryOp::Le, lhs, rhs },
        Tok::Gt => ExprKindV::Binary { op: BinaryOp::Gt, lhs, rhs },
        Tok::Ge => ExprKindV::Binary { op: BinaryOp::Ge, lhs, rhs },
        Tok::In => ExprKindV::Binary { op: BinaryOp::In, lhs, rhs },
        Tok::Plus => ExprKindV::Binary { op: BinaryOp::Add, lhs, rhs },
        Tok::Minus => ExprKindV::Binary { op: BinaryOp::Sub, lhs, rhs },
        Tok::Star => ExprKindV::Binary { op: BinaryOp::Mul, lhs, rhs },
        Tok::Slash => ExprKindV::Binary { op: BinaryOp::Div, lhs, rhs },
        Tok::SlashSlash => ExprKindV::Binary { op: BinaryOp::FloorDiv, lhs, rhs },
        _ => ExprKindV::Binary { op: BinaryOp::Rem, lhs, rhs },
    };
    ExprV { kind, span: Span { start: a.span.start, end: b.span.end } }
}

proof fn lemma_infix(t: Tok)
    ensures
        tightness(t) > 0 ==> s_infix(t) is Some && (s_infix(t)->0).1 == tightness(t) && !((s_infix(t)->0).0 is Is),
        s_infix(t) is None ==> tightness(t) == 0,
{
}

/// One step of growing a left operand.
proof fn lemma_grows(f: nat, ts: Seq<TokenV>, q: int, a: ExprV, min: nat, b: ExprV, r: int)
    requires
        tightness(tk(ts, q)) > 0,
        tightness(tk(ts, q)) >= min,
        tk(ts, q) == Tok::Minus ==> !at(ts, q).newline_before,
        s_binary(f, ts, q + 1, tightness(tk(ts, q)) + 1) == Ok::<(ExprV, int), ErrV>((b, r)),
    ensures
        s_infixes(f + 1, ts, q, a, min) == s_infixes(f, ts, r, made_of(tk(ts, q), a, b), min),
{
    lemma_infix(tk(ts, q));
}

/// Where a left operand stops growing.
proof fn lemma_stops(f: nat, ts: Seq<TokenV>, q: int, a: ExprV, min: nat)
    requires
        f > 0,
        s_infix(tk(ts, q)) is None || (tightness(tk(ts, q)) > 0 && tightness(tk(ts, q)) < min) || (tk(ts, q)
            == Tok::Minus && at(ts, q).newline_before),
    ensures
        s_infixes(f, ts, q, a, min) == Ok::<(ExprV, int), ErrV>((a, q)),
{
    lemma_infix(tk(ts, q));
}

/// Two operands with an operator between them are read as that operator on those two, the left
/// one first.
pub proof fn law_an_operator_takes_the_operands_beside_it(
    f: nat,
    ts: Seq<TokenV>,
    p: int,
    q: int,
    r: int,
    a: ExprV,
    b: ExprV,
    n: nat,
)
    requires
        operand(ts, p, q, a, n),
        tightness(tk(ts, q)) > 0,
        tk(ts, q) == Tok::Minus ==> !at(ts, q).newline_before,
        operand(ts, q + 1, r, b, n),
        s_infix(tk(ts, r)) is None,
        f >= n + 4,
    ensures
        s_binary(f, ts, p, 1) == Ok::<(ExprV, int), ErrV>((made_of(tk(ts, q), a, b), r)),
{
    let t = tightness(tk(ts, q));
    assert(s_unary((f - 1) as nat, ts, p) == Ok::<(ExprV, int), ErrV>((a, q)));
    assert(s_unary((f - 3) as nat, ts, q + 1) == Ok::<(ExprV, int), ErrV>((b, r)));
    lemma_stops((f - 3) as nat, ts, r, b, t + 1);
    assert(s_binary((f - 2) as nat, ts, q + 1, t + 1) == Ok::<(ExprV, int), ErrV>((b, r)));
    lemma_grows((f - 2) as nat, ts, q, a, 1, b, r);
    lemma_stops((f - 2) as nat, ts, r, made_of(tk(ts, q), a, b), 1);
}

/// Of two operators the one that binds tighter takes its operands first; of two that bind
/// alike, the one on the left does.
pub proof fn law_what_binds_tighter_is_taken_first(
    f: nat,
    ts: Seq<TokenV>,
    p: int,
    q: int,
    r: int,
    s: int,
    a: ExprV,
    b: ExprV,
    c: ExprV,
    n: nat,
)
    requires
        operand(ts, p, q, a, n),
        operand(ts, q + 1, r, b, n),
        operand(ts, r + 1, s, c, n),
        tightness(tk(ts, q)) > 0,
        tightness(tk(ts, r)) > 0,
        tk(ts, q) == Tok::Minus ==> !at(ts, q).newline_before,
        tk(ts, r) == Tok::Minus ==> !at(ts, r).newline_before,
        s_infix(tk(ts, s)) is None,
        f >= n + 8,
    ensures
        tightness(tk(ts, q)) >= tightness(tk(ts, r)) ==> s_binary(f, ts, p, 1) == Ok::<(ExprV, int), ErrV>(
            (made_of(tk(ts, r), made_of(tk(ts, q), a, b), c), s),
        ),
        tightness(tk(ts, q)) < tightness(tk(ts, r)) ==> s_binary(f, ts, p, 1) == Ok::<(ExprV, int), ErrV>(
            (made_of(tk(ts, q), a, made_of(tk(ts, r), b, c)), s),
        ),
{
    let x = tk(ts, q);
    let y = tk(ts, r);
    let ab = made_of(x, a, b);
    let bc = made_of(y, b, c);
    assert(s_unary((f - 1) as nat, ts, p) == Ok::<(ExprV, int), ErrV>((a, q)));
    assert(s_unary((f - 3) as nat, ts, q + 1) == Ok::<(ExprV, int), ErrV>((b, r)));
    if tightness(x) >= tightness(y) {
        lemma_stops((f - 3) as nat, ts, r, b, tightness(x) + 1);
        assert(s_binary((f - 2) as nat, ts, q + 1, tightness(x) + 1) == Ok::<(ExprV, int), ErrV>((b, r)));
        lemma_grows((f - 2) as nat, ts, q, a, 1, b, r);
        assert(s_unary((f - 4) as nat, ts, r + 1) == Ok::<(ExprV, int), ErrV>((c, s)));
        lemma_stops((f - 4) as nat, ts, s, c, tightness(y) + 1);
        assert(s_binary((f - 3) as nat, ts, r + 1, tightness(y) + 1) == Ok::<(ExprV, int), ErrV>((c, s)));
        lemma_grows((f - 3) as nat, ts, r, ab, 1, c, s);
        lemma_stops((f - 3) as nat, ts, s, made_of(y, ab, c), 1);
    } else {
        assert(s_unary((f - 5) as nat, ts, r + 1) == Ok::<(ExprV, int), ErrV>((c, s)));
        lemma_stops((f - 5) as nat, ts, s, c, tightness(y) + 1);
        assert(s_binary((f - 4) as nat, ts, r + 1, tightness(y) + 1) == Ok::<(ExprV, int), ErrV>((c, s)));
        lemma_grows((f - 4) as nat, ts, r, b, tightness(x) + 1, c, s);
        lemma_stops((f - 4) as nat, ts, s, bc, tightness(x) + 1);
        assert(s_binary((f - 2) as nat, ts, q + 1, tightness(x) + 1) == Ok::<(ExprV, int), ErrV>((bc, s)));
        lemma_grows((f - 2) as nat, ts, q, a, 1, bc, s);
        lemma_stops((f - 2) as nat, ts, s, made_of(x, a, bc), 1);
    }
}

/// A minus and a `!` in front of an operand apply to that operand alone, whatever follows it.
pub proof fn law_a_prefix_binds_tightest(f: nat, ts: Seq<TokenV>, p: int, q: int, a: ExprV)
    requires
        tk(ts, p) == Tok::Minus || tk(ts, p) == Tok::Not,
        s_unary(f, ts, p + 1) == Ok::<(ExprV, int), ErrV>((a, q)),
    ensures
        ({
            let r = s_unary(f + 1, ts, p);
            let op = if tk(ts, p) == Tok::Minus {
                UnaryOp::Neg
            } else {
                UnaryOp::Not
            };
            &&& r is Ok
            &&& (r->Ok_0).1 == q
            &&& (r->Ok_0).0.kind == (ExprKindV::Unary { op, rhs: Box::new(a) })
        }),
{
}

/// A minus at the start of a line starts a statement of its own.
pub proof fn law_a_minus_on_a_new_line_is_no_operator(f: nat, ts: Seq<TokenV>, p: int, a: ExprV, min: nat)
    requires
        f > 0,
        tk(ts, p) == Tok::Minus,
        at(ts, p).newline_before,
    ensures
        s_infixes(f, ts, p, a, min) == Ok::<(ExprV, int), ErrV>((a, p)),
{
}

// -- operands -----------------------------------------------------------------------------------------

/// Whether nothing is applied to an operand that ends at a place.
pub open spec fn nothing_applied(ts: Seq<TokenV>, q: int) -> bool {
    &&& tk(ts, q) != Tok::Dot
    &&& tk(ts, q) == Tok::LParen || tk(ts, q) == Tok::LBracket ==> at(ts, q).newline_before
}

/// A literal and a name are operands, worth what they write.
pub proof fn law_a_literal_is_read_as_it_is_written(f: nat, ts: Seq<TokenV>, p: int)
    requires
        nothing_applied(ts, p + 1),
        f >= 2,
    ensures
        ({
            let r = s_unary(f, ts, p);
            let kind = at(ts, p).kind;
            let t = tk(ts, p);
            let read = t == Tok::Int || t == Tok::Float || t == Tok::Str || t == Tok::True || t == Tok::False || t
                == Tok::Nil || t == Tok::Ident;
            &&& read ==> r is Ok && (r->Ok_0).1 == p + 1 && (r->Ok_0).0.span == at(ts, p).span
            &&& t == Tok::Int ==> (r->Ok_0).0.kind == ExprKindV::Int(int_of(kind))
            &&& t == Tok::Float ==> (r->Ok_0).0.kind == ExprKindV::Float(bits_of(kind))
            &&& t == Tok::Str ==> (r->Ok_0).0.kind == ExprKindV::Str(word_of(kind))
            &&& t == Tok::True ==> (r->Ok_0).0.kind == ExprKindV::Bool(true)
            &&& t == Tok::False ==> (r->Ok_0).0.kind == ExprKindV::Bool(false)
            &&& t == Tok::Nil ==> (r->Ok_0).0.kind == ExprKindV::Nil
            &&& t == Tok::Ident ==> (r->Ok_0).0.kind == ExprKindV::Var(word_of(kind))
        }),
{
    let g = (f - 1) as nat;
    if s_atom(ts, p) is Some {
        let e = ExprV { kind: s_atom(ts, p)->0, span: at(ts, p).span };
        assert(s_primary(g, ts, p) == Ok::<(ExprV, int), ErrV>((e, p + 1)));
        assert(s_postfix(g, ts, p + 1, e) == Ok::<(ExprV, int), ErrV>((e, p + 1)));
    }
}

/// What stands in parentheses is one operand, whatever operators are in it.
pub proof fn law_parentheses_make_one_operand(f: nat, ts: Seq<TokenV>, p: int, q: int, e: ExprV)
    requires
        tk(ts, p) == Tok::LParen,
        s_expr(f, ts, p + 1) == Ok::<(ExprV, int), ErrV>((e, q)),
        tk(ts, q) == Tok::RParen,
        nothing_applied(ts, q + 1),
    ensures
        s_unary(f + 2, ts, p) == Ok::<(ExprV, int), ErrV>((e, q + 1)),
{
    assert(s_primary(f + 1, ts, p) == Ok::<(ExprV, int), ErrV>((e, q + 1)));
    assert(s_postfix(f + 1, ts, q + 1, e) == Ok::<(ExprV, int), ErrV>((e, q + 1)));
}

/// A point and a name behind an operand read the member of that name, and arguments in
/// parentheses call it; what follows applies to that.
pub proof fn law_what_follows_an_operand_applies_to_it(f: nat, ts: Seq<TokenV>, p: int, a: ExprV, args: Seq<CallArgV>, q: int)
    ensures
        tk(ts, p) == Tok::Dot && tk(ts, p + 1) == Tok::Ident ==> s_postfix(f + 1, ts, p, a) == s_postfix(
            f,
            ts,
            p + 2,
            ExprV {
                kind: ExprKindV::Field { target: Box::new(a), name: word_of(at(ts, p + 1).kind) },
                span: Span { start: a.span.start, end: at(ts, p + 1).span.end },
            },
        ),
        tk(ts, p) == Tok::LParen && !at(ts, p).newline_before && s_args(f, ts, p + 1, Seq::empty()) == Ok::<
            (Seq<CallArgV>, int),
            ErrV,
        >((args, q)) ==> s_postfix(f + 1, ts, p, a) == s_postfix(
            f,
            ts,
            q,
            ExprV {
                kind: ExprKindV::Call { callee: Box::new(a), args },
                span: Span { start: a.span.start, end: at(ts, q - 1).span.end },
            },
        ),
{
}

/// An expression in brackets behind an operand is an index of it; with a colon it is a slice,
/// from what stands before the colon to what stands behind it.
pub proof fn law_brackets_index_and_slice(
    f: nat,
    ts: Seq<TokenV>,
    p: int,
    q: int,
    r: int,
    a: ExprV,
    i: ExprV,
    j: ExprV,
)
    requires
        tk(ts, p) != Tok::Colon,
        s_expr(f + 1, ts, p) == Ok::<(ExprV, int), ErrV>((i, q)),
    ensures
        tk(ts, q) == Tok::RBracket ==> s_subscript(f + 2, ts, p, a) is Ok && (s_subscript(f + 2, ts, p, a)->Ok_0).1
            == q + 1 && (s_subscript(f + 2, ts, p, a)->Ok_0).0.kind == (ExprKindV::Index {
            target: Box::new(a),
            index: Box::new(i),
        }),
        tk(ts, q) == Tok::Colon && tk(ts, q + 1) == Tok::RBracket ==> s_subscript(f + 2, ts, p, a) is Ok
            && (s_subscript(f + 2, ts, p, a)->Ok_0).0.kind == (ExprKindV::Slice {
            target: Box::new(a),
            start: Some(Box::new(i)),
            end: None,
        }),
        tk(ts, q) == Tok::Colon && tk(ts, q + 1) != Tok::RBracket && s_expr(f, ts, q + 1) == Ok::<(ExprV, int), ErrV>(
            (j, r),
        ) && tk(ts, r) == Tok::RBracket ==> s_subscript(f + 2, ts, p, a) is Ok && (s_subscript(f + 2, ts, p, a)->Ok_0).1
            == r + 1 && (s_subscript(f + 2, ts, p, a)->Ok_0).0.kind == (ExprKindV::Slice {
            target: Box::new(a),
            start: Some(Box::new(i)),
            end: Some(Box::new(j)),
        }),
{
}

/// The items of a list, the entries of a dict and the arguments of a call are read one behind
/// the other and kept in order; an entry is its key and then its value.
pub proof fn law_what_is_listed_is_read_in_order(
    f: nat,
    ts: Seq<TokenV>,
    p: int,
    q: int,
    r: int,
    items: Seq<ExprV>,
    pairs: Seq<PairV>,
    a: ExprV,
    b: ExprV,
)
    requires
        s_expr(f, ts, p) == Ok::<(ExprV, int), ErrV>((a, q)),
    ensures
        tk(ts, p) != Tok::RBracket && tk(ts, q) == Tok::Comma ==> s_items(f + 1, ts, p, items) == s_items(
            f,
            ts,
            q + 1,
            items.push(a),
        ),
        tk(ts, p) != Tok::RBracket && tk(ts, q) == Tok::RBracket ==> s_items(f + 1, ts, p, items) == Ok::<
            (Seq<ExprV>, int),
            ErrV,
        >((items.push(a), q + 1)),
        tk(ts, p) != Tok::RBrace && tk(ts, q) == Tok::Colon && s_expr(f, ts, q + 1) == Ok::<(ExprV, int), ErrV>((b, r))
            && tk(ts, r) == Tok::Comma ==> s_pairs(f + 1, ts, p, pairs) == s_pairs(
            f,
            ts,
            r + 1,
            pairs.push(PairV { key: a, value: b }),
        ),
        tk(ts, p) != Tok::RBrace && tk(ts, q) == Tok::Colon && s_expr(f, ts, q + 1) == Ok::<(ExprV, int), ErrV>((b, r))
            && tk(ts, r) == Tok::RBrace ==> s_pairs(f + 1, ts, p, pairs) == Ok::<(Seq<PairV>, int), ErrV>(
            (pairs.push(PairV { key: a, value: b }), r + 1),
        ),
{
}

/// An argument with a name and a colon in front is given by that name, any other by its place;
/// none by place follows one by name.
pub proof fn law_arguments_are_read_in_order(f: nat, ts: Seq<TokenV>, p: int, q: int, done: Seq<CallArgV>, a: ExprV)
    requires
        tk(ts, p) != Tok::RParen,
    ensures
        ({
            let named = tk(ts, p) == Tok::Ident && tk(ts, p + 1) == Tok::Colon;
            let plain = !names(tk(ts, p)) || tk(ts, p + 1) != Tok::Colon;
            let after = |name: Option<Seq<char>>| done.push(CallArgV { name, name_span: at(ts, p).span, value: a });
            &&& named && s_expr(f, ts, p + 2) == Ok::<(ExprV, int), ErrV>((a, q)) && tk(ts, q) == Tok::RParen
                ==> s_args(f + 1, ts, p, done) == Ok::<(Seq<CallArgV>, int), ErrV>(
                (after(Some(word_of(at(ts, p).kind))), q + 1),
            )
            &&& plain && done.len() == 0 && s_expr(f, ts, p) == Ok::<(ExprV, int), ErrV>((a, q)) && tk(ts, q)
                == Tok::RParen ==> s_args(f + 1, ts, p, done) == Ok::<(Seq<CallArgV>, int), ErrV>(
                (after(None), q + 1),
            )
            &&& plain && done.len() == 0 && s_expr(f, ts, p) == Ok::<(ExprV, int), ErrV>((a, q)) && tk(ts, q)
                == Tok::Comma ==> s_args(f + 1, ts, p, done) == s_args(f, ts, q + 1, after(None))
            &&& plain && done.len() > 0 && done.last().name is Some ==> s_args(f + 1, ts, p, done) is Err
        }),
{
}

/// An assignment takes what stands behind it, further assignments too, as its value; a compound
/// one says which operator it applies.
pub proof fn law_an_assignment_takes_what_is_behind_it(f: nat, ts: Seq<TokenV>, p: int, q: int, r: int, a: ExprV, b: ExprV)
    requires
        s_binary(f, ts, p, 1) == Ok::<(ExprV, int), ErrV>((a, q)),
        s_expr(f, ts, q + 1) == Ok::<(ExprV, int), ErrV>((b, r)),
    ensures
        ({
            let e = s_expr(f + 1, ts, p);
            let t = tk(ts, q);
            let applied = |op: BinaryOp| ExprKindV::AssignOp { op, target: Box::new(a), value: Box::new(b) };
            let compound = t == Tok::PlusAssign || t == Tok::MinusAssign || t == Tok::StarAssign || t
                == Tok::SlashAssign || t == Tok::PercentAssign;
            &&& t == Tok::Assign || compound ==> e is Ok && (e->Ok_0).1 == r
            &&& t == Tok::Assign ==> (e->Ok_0).0.kind == (ExprKindV::Assign {
                target: Box::new(a),
                value: Box::new(b),
            })
            &&& t == Tok::PlusAssign ==> (e->Ok_0).0.kind == applied(BinaryOp::Add)
            &&& t == Tok::MinusAssign ==> (e->Ok_0).0.kind == applied(BinaryOp::Sub)
            &&& t == Tok::StarAssign ==> (e->Ok_0).0.kind == applied(BinaryOp::Mul)
            &&& t == Tok::SlashAssign ==> (e->Ok_0).0.kind == applied(BinaryOp::Div)
            &&& t == Tok::PercentAssign ==> (e->Ok_0).0.kind == applied(BinaryOp::Rem)
        }),
{
}

// -- statements ---------------------------------------------------------------------------------------

/// An `if` is its condition, the block behind it, and the block behind its `else`, where it has
/// one.
pub proof fn law_an_if_is_read(
    f: nat,
    ts: Seq<TokenV>,
    p: int,
    q: int,
    r: int,
    s: int,
    cond: ExprV,
    yes: BlockV,
    no: BlockV,
)
    requires
        tk(ts, p) == Tok::If,
        s_expr(f + 1, ts, p + 1) == Ok::<(ExprV, int), ErrV>((cond, q)),
        s_block(f + 1, ts, q) == Ok::<(BlockV, int), ErrV>((yes, r)),
    ensures
        tk(ts, r) != Tok::Else ==> s_stmt(f + 3, ts, p) is Ok && (s_stmt(f + 3, ts, p)->Ok_0).1 == r && (s_stmt(
            f + 3,
            ts,
            p,
        )->Ok_0).0.kind == (StmtKindV::If { cond, consequent: yes, otherwise: None }),
        tk(ts, r) == Tok::Else && tk(ts, r + 1) != Tok::If && s_block(f, ts, r + 1) == Ok::<(BlockV, int), ErrV>(
            (no, s),
        ) ==> {
            let got = s_stmt(f + 3, ts, p);
            &&& got is Ok
            &&& (got->Ok_0).1 == s
            &&& match (got->Ok_0).0.kind {
                StmtKindV::If { cond: c, consequent, otherwise: Some(other) } => c == cond && consequent == yes
                    && other.kind == StmtKindV::Block(no),
                _ => false,
            }
        },
{
    assert(s_stmt(f + 3, ts, p) == s_if(f + 2, ts, p));
}

/// A `while` is its condition and its block; a `for` its name, what it goes over, and its block.
pub proof fn law_a_loop_is_read(f: nat, ts: Seq<TokenV>, p: int, q: int, r: int, e: ExprV, body: BlockV)
    requires
        s_block(f, ts, q) == Ok::<(BlockV, int), ErrV>((body, r)),
    ensures
        tk(ts, p) == Tok::While && s_expr(f, ts, p + 1) == Ok::<(ExprV, int), ErrV>((e, q)) ==> s_stmt(f + 2, ts, p)
            is Ok && (s_stmt(f + 2, ts, p)->Ok_0).1 == r && (s_stmt(f + 2, ts, p)->Ok_0).0.kind
            == (StmtKindV::While { cond: e, body }),
        tk(ts, p) == Tok::For && tk(ts, p + 1) == Tok::Ident && tk(ts, p + 2) == Tok::In && s_expr(f, ts, p + 3)
            == Ok::<(ExprV, int), ErrV>((e, q)) ==> s_stmt(f + 2, ts, p) is Ok && (s_stmt(f + 2, ts, p)->Ok_0).1 == r
            && (s_stmt(f + 2, ts, p)->Ok_0).0.kind == (StmtKindV::For {
            var: word_of(at(ts, p + 1).kind),
            iter: e,
            body,
        }),
{
    if tk(ts, p) == Tok::While {
        assert(s_stmt(f + 2, ts, p) == s_while(f + 1, ts, p));
    } else if tk(ts, p) == Tok::For {
        assert(s_stmt(f + 2, ts, p) == s_for(f + 1, ts, p));
    }
}

/// A `try` is the block that may fail, the name of what is caught, and the block that handles
/// it.
pub proof fn law_a_try_is_read(f: nat, ts: Seq<TokenV>, p: int, q: int, r: int, body: BlockV, handler: BlockV)
    requires
        tk(ts, p) == Tok::Try,
        s_block(f, ts, p + 1) == Ok::<(BlockV, int), ErrV>((body, q)),
        tk(ts, q) == Tok::Catch,
        tk(ts, q + 1) == Tok::Ident,
        s_block(f, ts, q + 2) == Ok::<(BlockV, int), ErrV>((handler, r)),
    ensures
        s_stmt(f + 2, ts, p) is Ok,
        (s_stmt(f + 2, ts, p)->Ok_0).1 == r,
        (s_stmt(f + 2, ts, p)->Ok_0).0.kind == (StmtKindV::Try {
            body,
            binding: word_of(at(ts, q + 1).kind),
            handler,
        }),
{
    assert(s_stmt(f + 2, ts, p) == s_try(f + 1, ts, p));
}

/// A `return` and a `throw` take the expression on their line; a bare `return` takes none.
pub proof fn law_a_return_is_read(f: nat, ts: Seq<TokenV>, p: int, q: int, e: ExprV)
    ensures
        tk(ts, p) == Tok::Return && at(ts, p + 1).newline_before ==> s_stmt(f + 1, ts, p) is Ok && (s_stmt(
            f + 1,
            ts,
            p,
        )->Ok_0).0.kind == StmtKindV::Return(None),
        tk(ts, p) == Tok::Return && !at(ts, p + 1).newline_before && tk(ts, p + 1) != Tok::RBrace && tk(ts, p + 1)
            != Tok::Eof && tk(ts, p + 1) != Tok::Semi && s_expr(f, ts, p + 1) == Ok::<(ExprV, int), ErrV>((e, q))
            && s_end(ts, q) is Ok ==> s_stmt(f + 1, ts, p) is Ok && (s_stmt(f + 1, ts, p)->Ok_0).0.kind
            == StmtKindV::Return(Some(e)),
        tk(ts, p) == Tok::Throw && s_expr(f, ts, p + 1) == Ok::<(ExprV, int), ErrV>((e, q)) && s_end(ts, q) is Ok
            ==> s_stmt(f + 1, ts, p) is Ok && (s_stmt(f + 1, ts, p)->Ok_0).0.kind == StmtKindV::Throw(e),
{
}

/// A binding is read with the word that binds it, its name and its value.
pub proof fn law_a_binding_is_read(f: nat, ts: Seq<TokenV>, p: int, q: int, e: ExprV)
    requires
        tk(ts, p) == Tok::Let || tk(ts, p) == Tok::Final || tk(ts, p) == Tok::Const,
        tk(ts, p + 1) == Tok::Ident,
        tk(ts, p + 2) == Tok::Assign,
        s_expr(f, ts, p + 3) == Ok::<(ExprV, int), ErrV>((e, q)),
        s_end(ts, q) is Ok,
    ensures
        ({
            let got = s_stmt(f + 2, ts, p);
            &&& got is Ok
            &&& match (got->Ok_0).0.kind {
                StmtKindV::Let { name, ty, value, bind, visibility, .. } => {
                    &&& name == word_of(at(ts, p + 1).kind)
                    &&& value == Some(e)
                    &&& ty is None
                    &&& tk(ts, p) == Tok::Let ==> bind == Bind::Let
                    &&& tk(ts, p) == Tok::Final ==> bind == Bind::Final
                    &&& tk(ts, p) == Tok::Const ==> bind == Bind::Const
                    &&& visibility == Visibility::Unsaid
                },
                _ => false,
            }
        }),
{
    assert(s_stmt(f + 2, ts, p) == s_declaration(f + 1, ts, p, p, Visibility::Unsaid));
    assert(s_declaration(f + 1, ts, p, p, Visibility::Unsaid) == s_let(f, ts, p, p, Visibility::Unsaid));
}

/// The statements of a block stand in it in the order they are written, and end at its closing
/// brace; those of a program end at its end.
pub proof fn law_statements_are_read_in_order(f: nat, ts: Seq<TokenV>, p: int, q: int, done: Seq<StmtV>, top: bool, s: StmtV)
    ensures
        tk(ts, p) == Tok::RBrace && !top ==> s_stmts(f + 1, ts, p, done, top) == Ok::<(Seq<StmtV>, int), ErrV>(
            (done, p + 1),
        ),
        tk(ts, p) == Tok::Eof && top ==> s_stmts(f + 1, ts, p, done, top) == Ok::<(Seq<StmtV>, int), ErrV>((done, p)),
        tk(ts, p) == Tok::Eof && !top ==> s_stmts(f + 1, ts, p, done, top) is Err,
        tk(ts, p) != Tok::Semi && tk(ts, p) != Tok::Eof && !(tk(ts, p) == Tok::RBrace && !top) && s_stmt(f, ts, p)
            == Ok::<(StmtV, int), ErrV>((s, q)) ==> s_stmts(f + 1, ts, p, done, top) == s_stmts(
            f,
            ts,
            q,
            done.push(s),
            top,
        ),
{
}

// -- declarations -------------------------------------------------------------------------------------

/// A function is its name, its parameters, and its block; a method has the receiver in front of
/// its parameters.
pub proof fn law_a_function_is_read(f: nat, ts: Seq<TokenV>, p: int, q: int, r: int, head: HeadV, params: Seq<ParamV>, body: BlockV)
    requires
        tk(ts, p) == Tok::Ident,
        !head.is_op,
        tk(ts, p + 1) == Tok::LParen,
        s_params(
            f,
            ts,
            p + 2,
            if head.method {
                seq![crate::syntax::parser::s_self()]
            } else {
                Seq::empty()
            },
        ) == Ok::<(Seq<ParamV>, int), ErrV>((params, q)),
        tk(ts, q) != Tok::Colon,
        s_block(f, ts, q) == Ok::<(BlockV, int), ErrV>((body, r)),
    ensures
        ({
            let got = s_fn(f + 1, ts, p, head);
            let decl = (got->Ok_0).0;
            &&& got is Ok
            &&& (got->Ok_0).1 == r
            &&& decl.name == word_of(at(ts, p).kind)
            &&& decl.params == params
            &&& decl.body == body
            &&& decl.result is None
            &&& decl.op is None
            &&& decl.visibility == head.visibility
            &&& decl.explicit == head.explicit
        }),
{
}

/// A parameter keeps its place, its name and its default.
pub proof fn law_parameters_are_read_in_order(f: nat, ts: Seq<TokenV>, p: int, q: int, done: Seq<ParamV>, e: ExprV)
    requires
        tk(ts, p) == Tok::Ident,
    ensures
        ({
            let one = |default: Option<ExprV>| ParamV {
                name: word_of(at(ts, p).kind),
                ty: None,
                default,
                bind: Bind::Let,
                receiver: false,
            };
            &&& tk(ts, p + 1) == Tok::RParen ==> s_params(f + 1, ts, p, done) == Ok::<(Seq<ParamV>, int), ErrV>(
                (done.push(one(None)), p + 2),
            )
            &&& tk(ts, p + 1) == Tok::Comma ==> s_params(f + 1, ts, p, done) == s_params(
                f,
                ts,
                p + 2,
                done.push(one(None)),
            )
            &&& tk(ts, p + 1) == Tok::Assign && s_expr(f, ts, p + 2) == Ok::<(ExprV, int), ErrV>((e, q)) && tk(ts, q)
                == Tok::RParen ==> s_params(f + 1, ts, p, done) == Ok::<(Seq<ParamV>, int), ErrV>(
                (done.push(one(Some(e))), q + 1),
            )
        }),
{
}

/// A class is its name, the class it extends where it says so, and its members: methods and
/// fields, each in order.
pub proof fn law_a_class_is_read(
    f: nat,
    ts: Seq<TokenV>,
    p: int,
    q: int,
    visibility: Visibility,
    openness: crate::syntax::ast::Openness,
    methods: Seq<FnDeclV>,
    fields: Seq<FieldDeclV>,
)
    requires
        tk(ts, p) == Tok::Ident,
    ensures
        ({
            let got = s_class(f + 1, ts, p, visibility, openness);
            let decl = (got->Ok_0).0;
            let members = Ok::<(Seq<FnDeclV>, Seq<FieldDeclV>, int), ErrV>((methods, fields, q));
            let alone = tk(ts, p + 1) == Tok::LBrace && s_members(f, ts, p + 2, Seq::empty(), Seq::empty()) == members;
            let below = tk(ts, p + 1) == Tok::Extends && tk(ts, p + 2) == Tok::Ident && tk(ts, p + 3) == Tok::LBrace
                && s_members(f, ts, p + 4, Seq::empty(), Seq::empty()) == members;
            &&& alone || below ==> got is Ok && (got->Ok_0).1 == q && decl.name == word_of(at(ts, p).kind)
                && decl.methods == methods && decl.fields == fields && decl.openness == openness && decl.visibility
                == visibility
            &&& alone ==> decl.parent is None
            &&& below ==> decl.parent == Some(word_of(at(ts, p + 2).kind))
        }),
{
}

/// A word in front of a member says who may reach it.
pub proof fn law_a_member_is_reached_as_its_word_says(f: nat, ts: Seq<TokenV>, p: int, head: HeadV)
    requires
        ({
            let t = tk(ts, p + 1);
            t == Tok::Fn || t == Tok::Op || t == Tok::Let || t == Tok::Final || t == Tok::Const
        }),
    ensures
        ({
            let got = s_modifiers(f + 2, ts, p, head);
            let said = (got->Ok_0).0;
            let t = tk(ts, p);
            let word = t == Tok::Public || t == Tok::Protected || t == Tok::Private || t == Tok::Explicit;
            &&& word ==> got is Ok && (got->Ok_0).1 == p + 1 && said.method == head.method && said.is_op == head.is_op
            &&& t == Tok::Public ==> said.visibility == Visibility::Public && said.explicit == head.explicit
            &&& t == Tok::Protected ==> said.visibility == Visibility::Protected && said.explicit == head.explicit
            &&& t == Tok::Private ==> said.visibility == Visibility::Private && said.explicit == head.explicit
            &&& t == Tok::Explicit ==> said.explicit && said.visibility == head.visibility
        }),
{
    assert forall|h: HeadV| #[trigger] s_modifiers(f + 1, ts, p + 1, h) == Ok::<(HeadV, int), ErrV>((h, p + 1)) by {}
    match tk(ts, p) {
        Tok::Public => {
            let h = HeadV { visibility: Visibility::Public, ..head };
            assert(s_modifiers(f + 2, ts, p, head) == s_modifiers(f + 1, ts, p + 1, h));
        },
        Tok::Protected => {
            let h = HeadV { visibility: Visibility::Protected, ..head };
            assert(s_modifiers(f + 2, ts, p, head) == s_modifiers(f + 1, ts, p + 1, h));
        },
        Tok::Private => {
            let h = HeadV { visibility: Visibility::Private, ..head };
            assert(s_modifiers(f + 2, ts, p, head) == s_modifiers(f + 1, ts, p + 1, h));
        },
        Tok::Explicit => {
            let h = HeadV { explicit: true, ..head };
            assert(s_modifiers(f + 2, ts, p, head) == s_modifiers(f + 1, ts, p + 1, h));
        },
        _ => {},
    }
}

/// A type is its name; a `?` behind it admits nil, and a `const` in front freezes.
pub proof fn law_a_type_is_read(f: nat, ts: Seq<TokenV>, p: int)
    requires
        tk(ts, p) == Tok::Ident,
        tk(ts, p + 1) != Tok::LBracket || at(ts, p + 1).newline_before,
        word_of(at(ts, p).kind) != "any"@,
        word_of(at(ts, p).kind) != "_"@,
    ensures
        ({
            let got = s_type(f + 1, ts, p);
            let ty = (got->Ok_0).0;
            &&& got is Ok
            &&& ty.name == TypeNameV::Named(word_of(at(ts, p).kind))
            &&& ty.args.len() == 0
            &&& !ty.frozen
            &&& ty.nullable <==> tk(ts, p + 1) == Tok::Question
            &&& tk(ts, p - 1) == Tok::Const ==> {
                let firm = s_type(f + 1, ts, p - 1);
                firm is Ok && (firm->Ok_0).0.frozen && (firm->Ok_0).0.name == ty.name
            }
        }),
{
}

} // verus!
