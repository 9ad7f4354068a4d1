//! What the expressions of the language are worth, each told by what its parts are worth.

use crate::error::{ErrV, ErrorKind};
use crate::float::equal;
use crate::interp::declare::s_read;
use crate::interp::dict::{dict_get, s_key_of};
use crate::interp::equality::{comparable, equal_to, law_equality_goes_both_ways, steps};
use crate::interp::error::Spans;
use crate::interp::eval::{
    s_assign, s_assign_expr, s_assign_op_expr, s_binary_expr, s_combined, s_eval, s_field_expr,
    s_index_expr, s_is_expr, s_list_literal, s_logical_expr, s_op_var, s_pair, s_store_field,
    s_store_var, s_unary_expr, s_values,
};
use crate::interp::fit::{has_type, rebound_by};
use crate::interp::generic::substituted;
use crate::interp::native::length;
use crate::interp::object::DotSpans;
use crate::interp::operator::{half_order, s_plain_binary};
use crate::interp::ops::{
    items_of, s_arith, s_base_contains, s_binary, s_bool_op, s_call_op, s_compare, s_computed,
    s_contains, s_index_get, s_index_put, s_is_truthy, s_search, s_unary, PutSpans,
};
use crate::interp::params::current;
use crate::interp::sound::sound;
use crate::interp::state::{held, released, rooted, St};
use crate::runtime::class::{base, slot_of};
use crate::runtime::heap::{at_index, law_a_new_object_moves_nothing, HeapV};
use crate::runtime::object::{ObjV, VarV};
use crate::runtime::scope::{assigned, holder, lemma_var_place, var_of, var_place};
use crate::runtime::value::{ObjId, Value};
use crate::syntax::ast::{BinaryOp, Bind, ExprKindV, ExprV, LogicalOp, Op, UnaryOp};
use crate::syntax::token::Span;
use crate::text::{before, contains};
use vstd::prelude::*;

verus! {

// -- what counts as true ----------------------------------------------------------------------

/// What counts as true, where no class answers: nothing that is absent, false, zero or empty
/// does, and everything else does. A value that has a length counts as true just where it is
/// not empty.
pub proof fn law_only_what_is_absent_false_zero_or_empty_is_not_true(f: nat, st: St, v: Value)
    requires
        slot_of(st.heap, v, Op::Bool) is None,
    ensures
        s_is_truthy(f, st, v).0 == st,
        s_is_truthy(f, st, v).1 is Ok,
        ({
            let b = s_is_truthy(f, st, v).1->Ok_0;
            let held = base(st.heap, v);
            &&& held is Nil ==> !b
            &&& held is Bool ==> b == held->Bool_0
            &&& held is Int ==> (b <==> held->Int_0 != 0)
            &&& held is Float ==> (b <==> !equal(held->Float_0, 0))
            &&& length(st.heap, v) is Some ==> (b <==> length(st.heap, v)->0 > 0)
            &&& !(held is Nil || held is Bool || held is Int || held is Float) && length(st.heap, v) is None
                ==> b
        }),
{
    if let Value::Float(bits) = base(st.heap, v) {
        lemma_zero(bits);
    }
}

/// The floats that are zero are the two zeros.
proof fn lemma_zero(bits: u64)
    ensures
        equal(bits, 0) <==> bits == 0 || bits == 0x8000_0000_0000_0000,
{
    assert(crate::float::biased(0) == 0);
    if bits == 0x8000_0000_0000_0000 {
        assert(crate::float::fraction(bits) == 0);
    }
    if bits == 0 {
        assert(crate::float::fraction(bits) == 0);
    }
}

/// A class that declares `op bool` says itself what counts as true.
pub proof fn law_a_class_says_what_counts_as_true(f: nat, st: St, v: Value, method: Value, st1: St, answer: Value, b: bool)
    requires
        slot_of(st.heap, v, Op::Bool) == Some(method),
        s_call_op(f, st, method, v, Seq::empty()) == (st1, Ok::<Value, ErrV>(answer)),
        base(st1.heap, answer) == Value::Bool(b),
    ensures
        s_is_truthy(f + 2, st, v) == (st1, Ok::<bool, ErrV>(b)),
{
    assert(s_is_truthy(f + 2, st, v) == s_bool_op(f + 1, st, Op::Bool, method, v, Seq::empty()));
}

// -- `&&`, `||` and `!` -------------------------------------------------------------------------

/// Where the left side of `&&` does not count as true, that side is the value and the right
/// side is not evaluated; where it does, the right side is the value.
pub proof fn law_and_stops_at_what_is_not_true(
    f: nat,
    st: St,
    e: ExprV,
    lhs: ExprV,
    rhs: ExprV,
    env: ObjId,
    st1: St,
    x: Value,
    st2: St,
    b: bool,
)
    requires
        e.kind == (ExprKindV::Logical { op: LogicalOp::And, lhs: Box::new(lhs), rhs: Box::new(rhs) }),
        s_eval(f, st, lhs, env) == (st1, Ok::<Value, ErrV>(x)),
        s_is_truthy(f, st1, x) == (st2, Ok::<bool, ErrV>(b)),
    ensures
        !b ==> s_eval(f + 2, st, e, env) == (st2, Ok::<Value, ErrV>(x)),
        b ==> s_eval(f + 2, st, e, env) == s_eval(f, st2, rhs, env),
{
    assert(s_eval(f + 2, st, e, env) == s_logical_expr(f + 1, st, LogicalOp::And, lhs, rhs, env));
}

/// Where the left side of `||` counts as true, that side is the value and the right side is not
/// evaluated; where it does not, the right side is the value.
pub proof fn law_or_stops_at_what_is_true(
    f: nat,
    st: St,
    e: ExprV,
    lhs: ExprV,
    rhs: ExprV,
    env: ObjId,
    st1: St,
    x: Value,
    st2: St,
    b: bool,
)
    requires
        e.kind == (ExprKindV::Logical { op: LogicalOp::Or, lhs: Box::new(lhs), rhs: Box::new(rhs) }),
        s_eval(f, st, lhs, env) == (st1, Ok::<Value, ErrV>(x)),
        s_is_truthy(f, st1, x) == (st2, Ok::<bool, ErrV>(b)),
    ensures
        b ==> s_eval(f + 2, st, e, env) == (st2, Ok::<Value, ErrV>(x)),
        !b ==> s_eval(f + 2, st, e, env) == s_eval(f, st2, rhs, env),
{
    assert(s_eval(f + 2, st, e, env) == s_logical_expr(f + 1, st, LogicalOp::Or, lhs, rhs, env));
}

/// For operands whose truth no class answers for, `a && b` counts as true just where both do,
/// and `a || b` just where at least one does.
pub proof fn law_and_and_or_are_what_logic_says(
    f: nat,
    st: St,
    op: LogicalOp,
    e: ExprV,
    lhs: ExprV,
    rhs: ExprV,
    env: ObjId,
    st1: St,
    x: Value,
    st2: St,
    y: Value,
)
    requires
        e.kind == (ExprKindV::Logical { op, lhs: Box::new(lhs), rhs: Box::new(rhs) }),
        s_eval(f, st, lhs, env) == (st1, Ok::<Value, ErrV>(x)),
        slot_of(st1.heap, x, Op::Bool) is None,
        s_eval(f, st1, rhs, env) == (st2, Ok::<Value, ErrV>(y)),
        slot_of(st2.heap, y, Op::Bool) is None,
    ensures
        ({
            let (after, v) = s_eval(f + 2, st, e, env);
            let left = s_is_truthy(f, st1, x).1->Ok_0;
            let right = s_is_truthy(f, st2, y).1->Ok_0;
            &&& v is Ok
            &&& s_is_truthy(f, after, v->Ok_0).1 is Ok
            &&& op == LogicalOp::And ==> (s_is_truthy(f, after, v->Ok_0).1->Ok_0 <==> left && right)
            &&& op == LogicalOp::Or ==> (s_is_truthy(f, after, v->Ok_0).1->Ok_0 <==> left || right)
        }),
{
    let left = s_is_truthy(f, st1, x).1->Ok_0;
    assert(s_is_truthy(f, st1, x) == (st1, Ok::<bool, ErrV>(left)));
    match op {
        LogicalOp::And => law_and_stops_at_what_is_not_true(f, st, e, lhs, rhs, env, st1, x, st1, left),
        LogicalOp::Or => law_or_stops_at_what_is_true(f, st, e, lhs, rhs, env, st1, x, st1, left),
    }
}

/// A left side that fails fails the whole, and the right side is not evaluated.
pub proof fn law_a_failing_left_side_fails_the_whole(
    f: nat,
    st: St,
    op: LogicalOp,
    e: ExprV,
    lhs: ExprV,
    rhs: ExprV,
    env: ObjId,
    st1: St,
    why: ErrV,
)
    requires
        e.kind == (ExprKindV::Logical { op, lhs: Box::new(lhs), rhs: Box::new(rhs) }),
        s_eval(f, st, lhs, env) == (st1, Err::<Value, ErrV>(why)),
    ensures
        s_eval(f + 2, st, e, env) == (st1, Err::<Value, ErrV>(why)),
{
    assert(s_eval(f + 2, st, e, env) == s_logical_expr(f + 1, st, op, lhs, rhs, env));
}

/// `!` turns what counts as true round, and answers with a bool.
pub proof fn law_not_turns_truth_round(
    f: nat,
    st: St,
    e: ExprV,
    rhs: ExprV,
    env: ObjId,
    st1: St,
    v: Value,
    st2: St,
    b: bool,
)
    requires
        e.kind == (ExprKindV::Unary { op: UnaryOp::Not, rhs: Box::new(rhs) }),
        s_eval(f + 1, st, rhs, env) == (st1, Ok::<Value, ErrV>(v)),
        s_is_truthy(f, st1, v) == (st2, Ok::<bool, ErrV>(b)),
    ensures
        s_eval(f + 3, st, e, env).0 == st2,
        s_eval(f + 3, st, e, env).1 == Ok::<Value, ErrV>(Value::Bool(b != true)),
{
    assert(s_eval(f + 3, st, e, env) == s_unary_expr(f + 2, st, UnaryOp::Not, rhs, e.span, env));
    assert(s_unary_expr(f + 2, st, UnaryOp::Not, rhs, e.span, env) == s_unary(
        f + 1,
        st1,
        UnaryOp::Not,
        v,
        e.span,
    ));
}

/// `-` of an int is the int that it adds up to zero with, and is refused just where 64 bits do
/// not hold it. `~` of an int is the one it adds up to minus one with.
pub proof fn law_minus_and_complement_of_an_int(f: nat, st: St, op: UnaryOp, v: Value, n: i64, span: Span)
    requires
        f > 0,
        op != UnaryOp::Not,
        base(st.heap, v) == Value::Int(n),
        slot_of(st.heap, v, Op::Neg) is None,
        slot_of(st.heap, v, Op::BitNot) is None,
    ensures
        s_unary(f, st, op, v, span).0 == st,
        match s_unary(f, st, op, v, span).1 {
            Ok(Value::Int(m)) => op == UnaryOp::Neg ==> m + n == 0,
            Ok(_) => false,
            Err(e) => op == UnaryOp::Neg && n == i64::MIN && e.kind == ErrorKind::Overflow,
        },
        op == UnaryOp::BitNot ==> s_unary(f, st, op, v, span).1 is Ok && s_unary(f, st, op, v, span).1->Ok_0->Int_0
            + n == -1,
        op == UnaryOp::Neg && n != i64::MIN ==> s_unary(f, st, op, v, span).1 is Ok,
{
}

/// `-` of a float turns its sign round and nothing else, and is undone by another.
pub proof fn law_minus_of_a_float(f: nat, st: St, v: Value, bits: u64, span: Span)
    requires
        f > 0,
        base(st.heap, v) == Value::Float(bits),
        slot_of(st.heap, v, Op::Neg) is None,
    ensures
        s_unary(f, st, UnaryOp::Neg, v, span).0 == st,
        ({
            let r = s_unary(f, st, UnaryOp::Neg, v, span).1->Ok_0->Float_0;
            &&& s_unary(f, st, UnaryOp::Neg, v, span).1 == Ok::<Value, ErrV>(Value::Float(r))
            &&& crate::float::is_negative(r) != crate::float::is_negative(bits)
            &&& crate::float::mantissa(r) == crate::float::mantissa(bits)
            &&& crate::float::power(r) == crate::float::power(bits)
        }),
{
    lemma_sign_only(bits);
}

proof fn lemma_sign_only(bits: u64)
    ensures
        crate::float::is_negative(crate::float::negated(bits)) != crate::float::is_negative(bits),
        crate::float::mantissa(crate::float::negated(bits)) == crate::float::mantissa(bits),
        crate::float::power(crate::float::negated(bits)) == crate::float::power(bits),
{
    let other = crate::float::negated(bits);
    let low = if bits >= 0x8000_0000_0000_0000u64 {
        other
    } else {
        bits
    };
    let high = if bits >= 0x8000_0000_0000_0000u64 {
        bits
    } else {
        other
    };
    assert(high == low + 0x8000_0000_0000_0000u64);
    assert(low < 0x8000_0000_0000_0000u64);
    assert(high % 0x10_0000_0000_0000u64 == low % 0x10_0000_0000_0000u64 && (high / 0x10_0000_0000_0000u64) % 2048
        == (low / 0x10_0000_0000_0000u64) % 2048) by (bit_vector)
        requires
            high == low + (0x8000_0000_0000_0000u64),
            low < 0x8000_0000_0000_0000u64,
    ;
}

// -- literals and names -------------------------------------------------------------------------

/// A literal is the value it writes, and evaluating it changes nothing.
pub proof fn law_a_literal_is_what_it_writes(f: nat, st: St, e: ExprV, env: ObjId)
    ensures
        e.kind is Int ==> s_eval(f, st, e, env) == (st, Ok::<Value, ErrV>(Value::Int(e.kind->Int_0))),
        e.kind is Float ==> s_eval(f, st, e, env) == (
            st,
            Ok::<Value, ErrV>(Value::Float(e.kind->Float_0)),
        ),
        e.kind is Bool ==> s_eval(f, st, e, env) == (st, Ok::<Value, ErrV>(Value::Bool(e.kind->Bool_0))),
        e.kind is Nil ==> s_eval(f, st, e, env) == (st, Ok::<Value, ErrV>(Value::Nil)),
{
}

/// A text literal is a new text with those characters; everything else is as it was.
pub proof fn law_a_text_literal_is_a_new_text(f: nat, st: St, e: ExprV, env: ObjId)
    requires
        sound(st.heap, st.globals),
        st.heap.cells.len() < usize::MAX,
        e.kind is Str,
    ensures
        ({
            let (after, r) = s_eval(f, st, e, env);
            &&& r is Ok
            &&& r->Ok_0 is Str
            &&& after.heap.text(r->Ok_0->Str_0) == e.kind->Str_0
            &&& after.out == st.out
            &&& forall|id: ObjId|
                st.heap.cell(id) is Some ==> #[trigger] after.heap.cell(id) == st.heap.cell(id)
        }),
{
    let made = ObjV::Str(e.kind->Str_0);
    law_a_new_object_moves_nothing(st.heap, made);
    let (after, r) = s_eval(f, st, e, env);
    assert(after.heap == st.heap.with_new(made));
    assert(after.heap.obj(st.heap.next_id()) == Some(made));
}

/// A name reads as what the innermost scope gives it, whatever the scopes around it hold.
pub proof fn law_the_innermost_declaration_is_read(st: St, name: Seq<char>, env: ObjId, v: Value, span: Span)
    requires
        st.heap.cell(env) is Some,
        st.heap.scope(env).parent is Some,
        var_of(st.heap, env, name) is Some,
        var_of(st.heap, env, name)->0.value == Some(v),
    ensures
        s_read(st, name, env, span) == (st, Ok::<Value, ErrV>(v)),
{
    crate::interp::statements::lemma_own_name_reads(st, env, name, v, span);
}

proof fn lemma_holder_more(h: HeapV, env: ObjId, name: Seq<char>, n: nat)
    requires
        holder(h, env, name, n) is Some,
    ensures
        holder(h, env, name, n + 1) == holder(h, env, name, n),
    decreases n,
{
    if n > 0 && var_place(h.scope(env).vars, name, 0) is None {
        lemma_holder_more(h, h.scope(env).parent->0, name, (n - 1) as nat);
    }
}

/// A name that a scope does not declare reads in it as it reads in the scope around it.
pub proof fn law_an_outer_name_reads_as_it_does_outside(st: St, name: Seq<char>, env: ObjId, outer: ObjId, span: Span)
    requires
        st.heap.cells.len() > 0,
        st.heap.scope(env).parent == Some(outer),
        var_of(st.heap, env, name) is None,
        holder(st.heap, outer, name, (st.heap.cells.len() - 1) as nat) is Some,
    ensures
        s_read(st, name, env, span) == s_read(st, name, outer, span),
{
    let n = st.heap.cells.len();
    lemma_holder_more(st.heap, outer, name, (n - 1) as nat);
    assert(var_place(st.heap.scope(env).vars, name, 0) is None);
}

/// A name that no scope declares, and that is no parameter of a type, is refused.
pub proof fn law_an_undeclared_name_is_refused(st: St, name: Seq<char>, env: ObjId, span: Span)
    requires
        holder(st.heap, env, name, st.heap.cells.len()) is None,
        crate::interp::params::const_binding(st, name) is None,
    ensures
        s_read(st, name, env, span).0 == st,
        s_read(st, name, env, span).1 is Err,
        s_read(st, name, env, span).1->Err_0.kind == ErrorKind::Name,
        s_read(st, name, env, span).1->Err_0.span == span,
{
}

// -- assignment -----------------------------------------------------------------------------------

/// Assigning to a name that may be assigned gives it the value and leaves every other name, in
/// every scope, as it was. The assignment is worth the value.
pub proof fn law_assigning_gives_the_name_the_value(
    f: nat,
    st: St,
    e: ExprV,
    target: ExprV,
    value: ExprV,
    name: Seq<char>,
    env: ObjId,
    st1: St,
    v: Value,
    scope: ObjId,
)
    requires
        e.kind == (ExprKindV::Assign { target: Box::new(target), value: Box::new(value) }),
        target.kind == ExprKindV::Var(name),
        s_eval(f + 1, st, value, env) == (st1, Ok::<Value, ErrV>(v)),
        holder(st1.heap, env, name, st1.heap.cells.len()) == Some(scope),
        st1.heap.obj(scope) is Some,
        st1.heap.obj(scope)->0 is Scope,
        var_of(st1.heap, scope, name) is Some,
        var_of(st1.heap, scope, name)->0.bind == Bind::Let,
        var_of(st1.heap, scope, name)->0.ty is None,
    ensures
        ({
            let (after, r) = s_eval(f + 3, st, e, env);
            &&& r == Ok::<Value, ErrV>(v)
            &&& var_of(after.heap, scope, name) is Some
            &&& var_of(after.heap, scope, name)->0.value == Some(v)
            &&& var_of(after.heap, scope, name)->0.bind == Bind::Let
            &&& after.out == st1.out
            &&& forall|other: ObjId, n: Seq<char>|
                other != scope || n != name ==> #[trigger] var_of(after.heap, other, n) == var_of(
                    st1.heap,
                    other,
                    n,
                )
        }),
{
    lemma_assignment_stores(f, st, e, target, value, name, env, st1, v);
    lemma_assigned(st1.heap, scope, name, v);
}

/// Assigning to a name stores the value in it.
proof fn lemma_assignment_stores(
    f: nat,
    st: St,
    e: ExprV,
    target: ExprV,
    value: ExprV,
    name: Seq<char>,
    env: ObjId,
    st1: St,
    v: Value,
)
    requires
        e.kind == (ExprKindV::Assign { target: Box::new(target), value: Box::new(value) }),
        target.kind == ExprKindV::Var(name),
        s_eval(f + 1, st, value, env) == (st1, Ok::<Value, ErrV>(v)),
    ensures
        s_eval(f + 3, st, e, env) == s_store_var(f, st1, name, v, target.span, rebound_by(value), env),
{
    assert(s_eval(f + 3, st, e, env) == s_assign_expr(f + 2, st, target, value, env));
    assert(s_assign_expr(f + 2, st, target, value, env) == s_assign(f + 1, st1, target, v, value, env));
}

proof fn lemma_assigned(h: HeapV, scope: ObjId, name: Seq<char>, v: Value)
    requires
        h.obj(scope) is Some,
        h.obj(scope)->0 is Scope,
        var_of(h, scope, name) is Some,
    ensures
        var_of(assigned(h, scope, name, v), scope, name) == Some(
            VarV { value: Some(v), ..var_of(h, scope, name)->0 },
        ),
        forall|other: ObjId, n: Seq<char>|
            other != scope || n != name ==> #[trigger] var_of(assigned(h, scope, name, v), other, n)
                == var_of(h, other, n),
{
    let after = assigned(h, scope, name, v);
    let vars = h.scope(scope).vars;
    let at = var_place(vars, name, 0)->0;
    lemma_var_place(vars, name, 0);
    let next = vars.update(at, VarV { value: Some(v), ..vars[at] });
    assert(after.scope(scope).vars == next);
    assert forall|n: Seq<char>| #[trigger] var_place(next, n, 0) == var_place(vars, n, 0) by {
        lemma_places_agree(vars, next, n, 0);
    }
    assert forall|other: ObjId, n: Seq<char>| other != scope || n != name implies #[trigger] var_of(
        after,
        other,
        n,
    ) == var_of(h, other, n) by {
        if other == scope {
            assert(var_place(next, n, 0) == var_place(vars, n, 0));
            lemma_var_place(vars, n, 0);
        } else {
            assert(after.cell(other) == h.cell(other));
        }
    }
    assert(var_place(next, name, 0) == var_place(vars, name, 0));
}

proof fn lemma_places_agree(s: Seq<VarV>, t: Seq<VarV>, name: Seq<char>, from: int)
    requires
        s.len() == t.len(),
        forall|i: int| 0 <= i < s.len() ==> (#[trigger] s[i]).name == t[i].name,
    ensures
        var_place(t, name, from) == var_place(s, name, from),
    decreases s.len() - from,
{
    if 0 <= from < s.len() {
        assert(s[from].name == t[from].name);
        lemma_places_agree(s, t, name, from + 1);
    }
}

/// Assigning to a name that was declared `final` or `const` is refused and changes nothing; so
/// is assigning to a name that nothing declares.
pub proof fn law_what_stays_is_not_assigned(
    f: nat,
    st: St,
    e: ExprV,
    target: ExprV,
    value: ExprV,
    name: Seq<char>,
    env: ObjId,
    st1: St,
    v: Value,
)
    requires
        e.kind == (ExprKindV::Assign { target: Box::new(target), value: Box::new(value) }),
        target.kind == ExprKindV::Var(name),
        s_eval(f + 1, st, value, env) == (st1, Ok::<Value, ErrV>(v)),
    ensures
        ({
            let found = holder(st1.heap, env, name, st1.heap.cells.len());
            let (after, r) = s_eval(f + 3, st, e, env);
            &&& found is None ==> after == st1 && r is Err && r->Err_0.kind == ErrorKind::Name
            &&& found is Some && var_of(st1.heap, found->0, name) is Some && var_of(
                st1.heap,
                found->0,
                name,
            )->0.bind != Bind::Let ==> after == st1 && r is Err && r->Err_0.kind == ErrorKind::Frozen
        }),
{
    lemma_assignment_stores(f, st, e, target, value, name, env, st1, v);
}

/// `x op= e` is worth what `x op e` is, of what `x` was and what `e` is, and stores it in `x`.
pub proof fn law_a_compound_assignment_stores_what_the_operator_gives(
    f: nat,
    st: St,
    e: ExprV,
    op: BinaryOp,
    target: ExprV,
    value: ExprV,
    name: Seq<char>,
    env: ObjId,
    st1: St,
    was: Value,
    st2: St,
    v: Value,
    st3: St,
    made: Value,
)
    requires
        e.kind == (ExprKindV::AssignOp { op, target: Box::new(target), value: Box::new(value) }),
        target.kind == ExprKindV::Var(name),
        s_read(st, name, env, target.span) == (st1, Ok::<Value, ErrV>(was)),
        s_eval(f, held(rooted(st1, was), Seq::empty()), value, env) == (st2, Ok::<Value, ErrV>(v)),
        s_binary(
            f,
            st2,
            op,
            was,
            v,
            Spans { lhs: target.span, rhs: value.span, whole: e.span },
        ) == (st3, Ok::<Value, ErrV>(made)),
    ensures
        s_eval(f + 4, st, e, env) == s_store_var(
            f + 1,
            released(st3, st1.temps.len() as int),
            name,
            made,
            target.span,
            crate::interp::fit::produced_by(e.span),
            env,
        ),
{
    lemma_compound(f, st, e, op, target, value, name, env);
    lemma_combined(f, st1, op, was, target.span, value, e.span, env, st2, v, st3, made);
}

proof fn lemma_compound(f: nat, st: St, e: ExprV, op: BinaryOp, target: ExprV, value: ExprV, name: Seq<char>, env: ObjId)
    requires
        e.kind == (ExprKindV::AssignOp { op, target: Box::new(target), value: Box::new(value) }),
        target.kind == ExprKindV::Var(name),
    ensures
        s_eval(f + 4, st, e, env) == s_op_var(f + 2, st, op, name, target.span, value, e.span, env),
{
    assert(s_eval(f + 4, st, e, env) == s_assign_op_expr(f + 3, st, op, target, value, e.span, env));
}

proof fn lemma_combined(
    f: nat,
    st1: St,
    op: BinaryOp,
    was: Value,
    target: Span,
    value: ExprV,
    span: Span,
    env: ObjId,
    st2: St,
    v: Value,
    st3: St,
    made: Value,
)
    requires
        s_eval(f, held(rooted(st1, was), Seq::empty()), value, env) == (st2, Ok::<Value, ErrV>(v)),
        s_binary(f, st2, op, was, v, Spans { lhs: target, rhs: value.span, whole: span }) == (
            st3,
            Ok::<Value, ErrV>(made),
        ),
    ensures
        s_combined(f + 1, st1, op, was, Seq::empty(), target, value, span, env) == (
            released(st3, st1.temps.len() as int),
            Ok::<Value, ErrV>(made),
        ),
{
}

// -- both sides of an operator --------------------------------------------------------------------

/// An operator is given its left side and then its right side, each evaluated once.
pub proof fn law_an_operator_takes_its_sides_from_left_to_right(
    f: nat,
    st: St,
    e: ExprV,
    op: BinaryOp,
    lhs: ExprV,
    rhs: ExprV,
    env: ObjId,
    st1: St,
    x: Value,
    st2: St,
    y: Value,
)
    requires
        e.kind == (ExprKindV::Binary { op, lhs: Box::new(lhs), rhs: Box::new(rhs) }),
        s_eval(f, st, lhs, env) == (st1, Ok::<Value, ErrV>(x)),
        s_eval(f, rooted(st1, x), rhs, env) == (st2, Ok::<Value, ErrV>(y)),
    ensures
        s_eval(f + 3, st, e, env) == s_binary(
            f + 1,
            released(st2, st1.temps.len() as int),
            op,
            x,
            y,
            Spans { lhs: lhs.span, rhs: rhs.span, whole: e.span },
        ),
{
    assert(s_eval(f + 3, st, e, env) == s_binary_expr(f + 2, st, op, lhs, rhs, e.span, env));
    assert(s_pair(f + 1, st, lhs, rhs, env) == (
        released(st2, st1.temps.len() as int),
        Ok::<(Value, Value), ErrV>((x, y)),
    ));
}

/// Whether no class answers any operator for a value.
pub open spec fn plain(h: HeapV, v: Value) -> bool {
    forall|op: Op| #[trigger] slot_of(h, v, op) is None
}

/// What an operator other than `==`, `!=` and `in` does where no class answers.
pub(crate) proof fn lemma_plain_operator(f: nat, st: St, op: BinaryOp, x: Value, y: Value, spans: Spans)
    requires
        plain(st.heap, x),
        plain(st.heap, y),
        op != BinaryOp::Eq,
        op != BinaryOp::Ne,
        op != BinaryOp::In,
    ensures
        s_binary(f + 3, st, op, x, y, spans) == s_plain_binary(st, op, x, y, spans),
{
    let h = st.heap;
    assert(s_binary(f + 3, st, op, x, y, spans) == s_computed(f + 2, st, op, x, y, spans));
    assert forall|o: Op| slot_of(h, x, o) is None && slot_of(h, y, o) is None by {}
    assert(slot_of(h, x, Op::Lt) is None && slot_of(h, y, Op::Lt) is None);
    assert(slot_of(h, x, Op::Gt) is None && slot_of(h, y, Op::Gt) is None);
    assert(slot_of(h, x, Op::Cmp) is None && slot_of(h, y, Op::Cmp) is None);
    assert(half_order(h, x) is None && half_order(h, y) is None);
    assert(s_compare(f + 1, st, op, x, y, spans) == (st, Ok::<Option<Value>, ErrV>(None)));
    assert(s_arith(f + 1, st, op, x, y, spans) == (st, Ok::<Option<Value>, ErrV>(None))) by {
        if let Some(slot) = crate::interp::operator::slot_for(op) {
            assert(slot_of(h, x, slot) is None && slot_of(h, y, slot) is None);
        }
    }
}

/// Ints are compared as the integers they are: each comparison is what the sign of their
/// difference says, a comparison and its opposite never agree, and turning both the sides and
/// the comparison round changes nothing.
pub proof fn law_ints_are_compared_as_integers(f: nat, st: St, a: i64, b: i64, spans: Spans)
    requires
        plain(st.heap, Value::Int(a)),
        plain(st.heap, Value::Int(b)),
    ensures
        ({
            let d = a - b;
            let x = Value::Int(a);
            let y = Value::Int(b);
            &&& s_binary(f + 3, st, BinaryOp::Lt, x, y, spans) == (st, Ok::<Value, ErrV>(Value::Bool(d < 0)))
            &&& s_binary(f + 3, st, BinaryOp::Le, x, y, spans) == (st, Ok::<Value, ErrV>(Value::Bool(d <= 0)))
            &&& s_binary(f + 3, st, BinaryOp::Gt, x, y, spans) == (st, Ok::<Value, ErrV>(Value::Bool(d > 0)))
            &&& s_binary(f + 3, st, BinaryOp::Ge, x, y, spans) == (st, Ok::<Value, ErrV>(Value::Bool(d >= 0)))
            &&& s_binary(f + 3, st, BinaryOp::Ge, x, y, spans) == s_binary(
                f + 3,
                st,
                BinaryOp::Le,
                y,
                x,
                spans,
            )
            &&& s_binary(f + 3, st, BinaryOp::Gt, x, y, spans) == s_binary(
                f + 3,
                st,
                BinaryOp::Lt,
                y,
                x,
                spans,
            )
        }),
{
    let x = Value::Int(a);
    let y = Value::Int(b);
    lemma_plain_operator(f, st, BinaryOp::Lt, x, y, spans);
    lemma_plain_operator(f, st, BinaryOp::Le, x, y, spans);
    lemma_plain_operator(f, st, BinaryOp::Gt, x, y, spans);
    lemma_plain_operator(f, st, BinaryOp::Ge, x, y, spans);
    lemma_plain_operator(f, st, BinaryOp::Le, y, x, spans);
    lemma_plain_operator(f, st, BinaryOp::Lt, y, x, spans);
}

/// Adding, subtracting and multiplying ints gives the integer, or is refused as an overflow
/// just where 64 bits do not hold it.
pub proof fn law_int_arithmetic_is_exact_or_refused(f: nat, st: St, op: BinaryOp, a: i64, b: i64, spans: Spans)
    requires
        plain(st.heap, Value::Int(a)),
        plain(st.heap, Value::Int(b)),
        op == BinaryOp::Add || op == BinaryOp::Sub || op == BinaryOp::Mul,
    ensures
        ({
            let exact = if op == BinaryOp::Add {
                a + b
            } else if op == BinaryOp::Sub {
                a - b
            } else {
                a * b
            };
            let (after, r) = s_binary(f + 3, st, op, Value::Int(a), Value::Int(b), spans);
            &&& after == st
            &&& r is Ok <==> i64::MIN <= exact <= i64::MAX
            &&& r is Ok ==> r->Ok_0 is Int && r->Ok_0->Int_0 == exact
            &&& r is Err ==> r->Err_0.kind == ErrorKind::Overflow && r->Err_0.span == spans.whole
        }),
{
    lemma_plain_operator(f, st, op, Value::Int(a), Value::Int(b), spans);
}

/// Dividing ints: `a // b` and what it leaves make up `a`, the rest lying between zero and `b`;
/// `a % b` and some number of `b`s make up `a` too, with a rest nearer to zero than `b` is and
/// on the side of `a`. Nothing is divided by zero.
pub proof fn law_int_division_makes_up_the_dividend(f: nat, st: St, a: i64, b: i64, spans: Spans)
    requires
        plain(st.heap, Value::Int(a)),
        plain(st.heap, Value::Int(b)),
    ensures
        ({
            let (s1, quot) = s_binary(f + 3, st, BinaryOp::FloorDiv, Value::Int(a), Value::Int(b), spans);
            let (s2, rest) = s_binary(f + 3, st, BinaryOp::Rem, Value::Int(a), Value::Int(b), spans);
            let (s3, div) = s_binary(f + 3, st, BinaryOp::Div, Value::Int(a), Value::Int(b), spans);
            &&& s1 == st && s2 == st && s3 == st
            &&& b == 0 ==> quot is Err && quot->Err_0.kind == ErrorKind::ZeroDivision
            &&& b == 0 ==> rest is Err && rest->Err_0.kind == ErrorKind::ZeroDivision
            &&& b == 0 ==> div is Err && div->Err_0.kind == ErrorKind::ZeroDivision
            &&& b != 0 ==> div is Ok && div->Ok_0 is Float
            &&& b != 0 && !(a == i64::MIN && b == -1) ==> {
                &&& quot is Ok
                &&& quot->Ok_0 is Int
                &&& b > 0 ==> 0 <= a - quot->Ok_0->Int_0 * b < b
                &&& b < 0 ==> b < a - quot->Ok_0->Int_0 * b <= 0
                &&& rest is Ok
                &&& rest->Ok_0 is Int
                &&& exists|q: int| #[trigger] (q * b) + rest->Ok_0->Int_0 == a
                &&& b > 0 ==> -b < rest->Ok_0->Int_0 < b
                &&& b < 0 ==> b < rest->Ok_0->Int_0 < -b
                &&& a >= 0 ==> rest->Ok_0->Int_0 >= 0
                &&& a <= 0 ==> rest->Ok_0->Int_0 <= 0
            }
        }),
{
    let x = Value::Int(a);
    let y = Value::Int(b);
    lemma_plain_operator(f, st, BinaryOp::FloorDiv, x, y, spans);
    lemma_plain_operator(f, st, BinaryOp::Rem, x, y, spans);
    lemma_plain_operator(f, st, BinaryOp::Div, x, y, spans);
    if b != 0 && !(a == i64::MIN && b == -1) {
        crate::interp::arith::law_floor_division_leaves_a_remainder(a as int, b as int);
        let quot = crate::interp::arith::floor_quotient(a as int, b as int);
        crate::interp::arith::lemma_quotient_fits(a, b);
        let m: int = if b < 0 {
            -b
        } else {
            b as int
        };
        let n: int = if a < 0 {
            -a
        } else {
            a as int
        };
        vstd::arithmetic::div_mod::lemma_fundamental_div_mod(n, m);
        let k = n / m;
        let rest = crate::interp::arith::truncated_remainder(a as int, b as int);
        let q: int = if (a < 0) == (b < 0) {
            k
        } else {
            -k
        };
        assert(q * b + rest == a) by (nonlinear_arith)
            requires
                n == m * k + n % m,
                rest == (if a < 0 {
                    -(n % m)
                } else {
                    n % m
                }),
                m == (if b < 0 {
                    -b as int
                } else {
                    b as int
                }),
                n == (if a < 0 {
                    -a as int
                } else {
                    a as int
                }),
                q == (if (a < 0) == (b < 0) {
                    k
                } else {
                    -k
                }),
        ;
        assert((q * b) + rest == a);
    }
}

/// Powers of an int: to the power of zero it is one, each power is the one before it times the
/// int, and one is refused as an overflow just where 64 bits do not hold it.
pub proof fn law_int_powers_multiply(f: nat, st: St, a: i64, b: i64, spans: Spans)
    requires
        plain(st.heap, Value::Int(a)),
        plain(st.heap, Value::Int(b)),
        plain(st.heap, Value::Int((b + 1) as i64)),
        0 <= b < i64::MAX,
    ensures
        ({
            let (s1, low) = s_binary(f + 3, st, BinaryOp::Pow, Value::Int(a), Value::Int(b), spans);
            let (s2, high) = s_binary(
                f + 3,
                st,
                BinaryOp::Pow,
                Value::Int(a),
                Value::Int((b + 1) as i64),
                spans,
            );
            &&& s1 == st && s2 == st
            &&& b == 0 ==> low == Ok::<Value, ErrV>(Value::Int(1))
            &&& low is Ok ==> low->Ok_0 is Int && (high is Ok <==> i64::MIN <= low->Ok_0->Int_0 * a <= i64::MAX)
            &&& low is Ok && high is Ok ==> high->Ok_0 is Int && high->Ok_0->Int_0 == low->Ok_0->Int_0 * a
            &&& low is Err ==> low->Err_0.kind == ErrorKind::Overflow
        }),
{
    lemma_plain_operator(f, st, BinaryOp::Pow, Value::Int(a), Value::Int(b), spans);
    lemma_plain_operator(f, st, BinaryOp::Pow, Value::Int(a), Value::Int((b + 1) as i64), spans);
    vstd::arithmetic::power::lemma_pow0(a as int);
    reveal(vstd::arithmetic::power::pow);
    let low = vstd::arithmetic::power::pow(a as int, b as nat);
    assert(vstd::arithmetic::power::pow(a as int, (b + 1) as nat) == a * low);
    assert(a * low == low * a) by (nonlinear_arith);
}

/// Whether a bit of an int is set.
pub open spec fn bit(n: i64, i: u64) -> bool {
    ((n as u64) >> i) & 1u64 == 1u64
}

/// `&`, `|` and `^` work on each bit: one that both have, one that either has, and one that just
/// one of them has.
pub proof fn law_bits_are_combined_one_by_one(f: nat, st: St, a: i64, b: i64, i: u64, spans: Spans)
    requires
        plain(st.heap, Value::Int(a)),
        plain(st.heap, Value::Int(b)),
        i < 64,
    ensures
        ({
            let and = s_binary(f + 3, st, BinaryOp::BitAnd, Value::Int(a), Value::Int(b), spans);
            let or = s_binary(f + 3, st, BinaryOp::BitOr, Value::Int(a), Value::Int(b), spans);
            let xor = s_binary(f + 3, st, BinaryOp::BitXor, Value::Int(a), Value::Int(b), spans);
            &&& and.0 == st && or.0 == st && xor.0 == st
            &&& and.1 is Ok && and.1->Ok_0 is Int
            &&& or.1 is Ok && or.1->Ok_0 is Int
            &&& xor.1 is Ok && xor.1->Ok_0 is Int
            &&& bit(and.1->Ok_0->Int_0, i) <==> bit(a, i) && bit(b, i)
            &&& bit(or.1->Ok_0->Int_0, i) <==> bit(a, i) || bit(b, i)
            &&& bit(xor.1->Ok_0->Int_0, i) <==> bit(a, i) != bit(b, i)
        }),
{
    let x = Value::Int(a);
    let y = Value::Int(b);
    lemma_plain_operator(f, st, BinaryOp::BitAnd, x, y, spans);
    lemma_plain_operator(f, st, BinaryOp::BitOr, x, y, spans);
    lemma_plain_operator(f, st, BinaryOp::BitXor, x, y, spans);
    assert(((((a & b) as u64) >> i) & 1u64 == 1u64) == ((((a as u64) >> i) & 1u64 == 1u64) && (((b as u64) >> i)
        & 1u64 == 1u64))) by (bit_vector)
        requires
            i < 64,
    ;
    assert(((((a | b) as u64) >> i) & 1u64 == 1u64) == ((((a as u64) >> i) & 1u64 == 1u64) || (((b as u64) >> i)
        & 1u64 == 1u64))) by (bit_vector)
        requires
            i < 64,
    ;
    assert(((((a ^ b) as u64) >> i) & 1u64 == 1u64) == ((((a as u64) >> i) & 1u64 == 1u64) != (((b as u64) >> i)
        & 1u64 == 1u64))) by (bit_vector)
        requires
            i < 64,
    ;
}

/// Shifting to the left moves each bit up by the count and fills up with zeros; shifting to the
/// right moves each bit down and fills up with the sign. A count is refused just where it is
/// not between 0 and 63.
pub proof fn law_shifting_moves_each_bit(f: nat, st: St, a: i64, b: i64, i: u64, spans: Spans)
    requires
        plain(st.heap, Value::Int(a)),
        plain(st.heap, Value::Int(b)),
        i < 64,
    ensures
        ({
            let up = s_binary(f + 3, st, BinaryOp::Shl, Value::Int(a), Value::Int(b), spans);
            let down = s_binary(f + 3, st, BinaryOp::Shr, Value::Int(a), Value::Int(b), spans);
            &&& up.0 == st && down.0 == st
            &&& up.1 is Ok <==> 0 <= b < 64
            &&& down.1 is Ok <==> 0 <= b < 64
            &&& 0 <= b < 64 ==> {
                &&& up.1->Ok_0 is Int && down.1->Ok_0 is Int
                &&& bit(up.1->Ok_0->Int_0, i) <==> i >= b && bit(a, (i - b) as u64)
                &&& bit(down.1->Ok_0->Int_0, i) <==> if i + b < 64 {
                    bit(a, (i + b) as u64)
                } else {
                    a < 0
                }
            }
        }),
{
    let x = Value::Int(a);
    let y = Value::Int(b);
    lemma_plain_operator(f, st, BinaryOp::Shl, x, y, spans);
    lemma_plain_operator(f, st, BinaryOp::Shr, x, y, spans);
    if 0 <= b < 64 {
        let n = b as u64;
        assert(a << b == a << n && a >> b == a >> n);
        if i >= n {
            let k = (i - n) as u64;
            assert(((((a << n) as u64) >> i) & 1u64 == 1u64) == (((a as u64) >> k) & 1u64 == 1u64)) by (bit_vector)
                requires
                    i < 64,
                    n < 64,
                    i == k + n,
                    k <= i,
            ;
        } else {
            assert((((a << n) as u64) >> i) & 1u64 == 0u64) by (bit_vector)
                requires
                    i < 64,
                    n < 64,
                    i < n,
            ;
        }
        if i + n < 64 {
            let k = (i + n) as u64;
            assert(((((a >> n) as u64) >> i) & 1u64 == 1u64) == (((a as u64) >> k) & 1u64 == 1u64)) by (bit_vector)
                requires
                    i < 64,
                    n < 64,
                    k == i + n,
                    k < 64,
            ;
        } else {
            assert(((((a >> n) as u64) >> i) & 1u64 == 1u64) == (a < 0)) by (bit_vector)
                requires
                    i < 64,
                    n < 64,
                    i + n >= 64,
            ;
        }
    }
}

// -- equality and membership ------------------------------------------------------------------------

/// `!=` is `==` turned round: the same state, and the other bool.
pub proof fn law_not_equal_is_equal_turned_round(f: nat, st: St, x: Value, y: Value, spans: Spans)
    ensures
        s_binary(f, st, BinaryOp::Ne, x, y, spans).0 == s_binary(f, st, BinaryOp::Eq, x, y, spans).0,
        s_binary(f, st, BinaryOp::Eq, x, y, spans).1 is Ok ==> {
            let same = s_binary(f, st, BinaryOp::Eq, x, y, spans).1->Ok_0;
            &&& same is Bool
            &&& s_binary(f, st, BinaryOp::Ne, x, y, spans).1 == Ok::<Value, ErrV>(
                Value::Bool(!same->Bool_0),
            )
        },
        s_binary(f, st, BinaryOp::Eq, x, y, spans).1 is Err ==> s_binary(f, st, BinaryOp::Ne, x, y, spans).1
            is Err,
{
}

/// `==` on values without cycles that no class answers for is true just where they hold the
/// same: of ints and texts, just where they are the same int and the same characters.
pub proof fn law_equal_is_true_of_what_holds_the_same(
    f: nat,
    st: St,
    x: Value,
    y: Value,
    depth: nat,
    width: nat,
    spans: Spans,
)
    requires
        comparable(st.heap, x, depth, width),
        comparable(st.heap, y, depth, width),
        f >= steps(depth, width) + 1,
    ensures
        s_binary(f, st, BinaryOp::Eq, x, y, spans) == (
            st,
            Ok::<Value, ErrV>(Value::Bool(equal_to(st.heap, x, y, depth))),
        ),
        base(st.heap, x) is Int && base(st.heap, y) is Int ==> (equal_to(st.heap, x, y, depth)
            <==> base(st.heap, x)->Int_0 == base(st.heap, y)->Int_0),
        base(st.heap, x) is Bool && base(st.heap, y) is Bool ==> (equal_to(st.heap, x, y, depth)
            <==> base(st.heap, x)->Bool_0 == base(st.heap, y)->Bool_0),
        base(st.heap, x) is Str && base(st.heap, y) is Str ==> (equal_to(st.heap, x, y, depth)
            <==> st.heap.text(base(st.heap, x)->Str_0) == st.heap.text(base(st.heap, y)->Str_0)),
        base(st.heap, x) is Nil && base(st.heap, y) is Nil ==> equal_to(st.heap, x, y, depth),
        base(st.heap, x) is Nil != base(st.heap, y) is Nil ==> !equal_to(st.heap, x, y, depth),
        base(st.heap, x) is Str != base(st.heap, y) is Str ==> !equal_to(st.heap, x, y, depth),
        base(st.heap, x) is Bool != base(st.heap, y) is Bool ==> !equal_to(st.heap, x, y, depth),
{
    law_equality_goes_both_ways((f - 1) as nat, st, x, y, depth, width);
}

proof fn lemma_search(f: nat, st: St, held: Value, needle: Value, depth: nat, width: nat, i: int)
    requires
        0 <= i <= items_of(st.heap, held).len(),
        items_of(st.heap, held).len() <= width,
        comparable(st.heap, needle, depth, width),
        forall|k: int|
            0 <= k < items_of(st.heap, held).len() ==> comparable(
                st.heap,
                #[trigger] items_of(st.heap, held)[k],
                depth,
                width,
            ),
        f >= steps(depth, width) + 1 + items_of(st.heap, held).len() - i,
    ensures
        s_search(f, st, held, needle, i) == (
            st,
            Ok::<bool, ErrV>(
                exists|k: int|
                    i <= k < items_of(st.heap, held).len() && equal_to(
                        st.heap,
                        #[trigger] items_of(st.heap, held)[k],
                        needle,
                        depth,
                    ),
            ),
        ),
    decreases items_of(st.heap, held).len() - i,
{
    let items = items_of(st.heap, held);
    if i < items.len() {
        assert(at_index(items, i) == Some(items[i]));
        law_equality_goes_both_ways((f - 1) as nat, st, items[i], needle, depth, width);
        if !equal_to(st.heap, items[i], needle, depth) {
            lemma_search((f - 1) as nat, st, held, needle, depth, width, i + 1);
        }
    } else {
        assert(at_index(items, i) is None);
    }
}

/// `x in xs` of a list or a tuple is true just where some item of it equals `x`.
pub proof fn law_in_a_list_means_equal_to_an_item(
    f: nat,
    st: St,
    needle: Value,
    haystack: Value,
    depth: nat,
    width: nat,
    spans: Spans,
)
    requires
        slot_of(st.heap, haystack, Op::Contains) is None,
        base(st.heap, haystack) is List || base(st.heap, haystack) is Tuple,
        items_of(st.heap, base(st.heap, haystack)).len() <= width,
        comparable(st.heap, needle, depth, width),
        forall|k: int|
            0 <= k < items_of(st.heap, base(st.heap, haystack)).len() ==> comparable(
                st.heap,
                #[trigger] items_of(st.heap, base(st.heap, haystack))[k],
                depth,
                width,
            ),
        f >= steps(depth, width) + width + 4,
    ensures
        s_binary(f, st, BinaryOp::In, needle, haystack, spans) == (
            st,
            Ok::<Value, ErrV>(
                Value::Bool(
                    exists|k: int|
                        0 <= k < items_of(st.heap, base(st.heap, haystack)).len() && equal_to(
                            st.heap,
                            #[trigger] items_of(st.heap, base(st.heap, haystack))[k],
                            needle,
                            depth,
                        ),
                ),
            ),
        ),
{
    let held = base(st.heap, haystack);
    lemma_search((f - 3) as nat, st, held, needle, depth, width, 0);
    assert(s_binary(f, st, BinaryOp::In, needle, haystack, spans) == s_contains(
        (f - 1) as nat,
        st,
        haystack,
        needle,
        spans.whole,
    ));
    assert(s_base_contains((f - 2) as nat, st, haystack, needle, spans.whole) == s_search(
        (f - 3) as nat,
        st,
        held,
        needle,
        0,
    ));
}

/// What `in` does where no class answers and no list is searched.
proof fn lemma_in(f: nat, st: St, needle: Value, haystack: Value, spans: Spans)
    requires
        f >= 3,
        slot_of(st.heap, haystack, Op::Contains) is None,
        base(st.heap, haystack) is Dict || base(st.heap, haystack) is Str,
    ensures
        s_binary(f, st, BinaryOp::In, needle, haystack, spans) == (
            st,
            match crate::interp::ops::plain_contains(st.heap, haystack, needle, spans.whole) {
                Ok(b) => Ok::<Value, ErrV>(Value::Bool(b)),
                Err(e) => Err::<Value, ErrV>(e),
            },
        ),
{
    let g = (f - 1) as nat;
    assert(s_binary(f, st, BinaryOp::In, needle, haystack, spans) == s_contains(
        g,
        st,
        haystack,
        needle,
        spans.whole,
    ));
    assert(s_base_contains((f - 2) as nat, st, haystack, needle, spans.whole) == (
        st,
        crate::interp::ops::plain_contains(st.heap, haystack, needle, spans.whole),
    ));
}

/// `x in d` of a dict is true just where the dict holds a value under `x`.
pub proof fn law_in_a_dict_means_a_key(f: nat, st: St, needle: Value, haystack: Value, id: ObjId, key: Value, spans: Spans)
    requires
        f >= 3,
        slot_of(st.heap, haystack, Op::Contains) is None,
        base(st.heap, haystack) == Value::Dict(id),
        s_key_of(st.heap, needle, spans.whole) == Ok::<Value, ErrV>(key),
    ensures
        s_binary(f, st, BinaryOp::In, needle, haystack, spans) == (
            st,
            Ok::<Value, ErrV>(Value::Bool(dict_get(st.heap, st.heap.dict(id), key) is Some)),
        ),
{
    lemma_in(f, st, needle, haystack, spans);
}

/// Whether some part of a text reads as another.
pub open spec fn has_part(text: Seq<char>, part: Seq<char>) -> bool {
    exists|a: int, b: int| 0 <= a <= b <= text.len() && #[trigger] text.subrange(a, b) == part
}

proof fn lemma_has_part(text: Seq<char>, part: Seq<char>)
    ensures
        contains(text, part) <==> has_part(text, part),
{
    if contains(text, part) {
        let i = choose|i: int| crate::text::stands_at(text, part, i);
        assert(text.subrange(i, i + part.len()) == part);
    }
    if has_part(text, part) {
        let (a, b) = choose|a: int, b: int|
            0 <= a <= b <= text.len() && #[trigger] text.subrange(a, b) == part;
        assert(text.subrange(a, b).len() == b - a);
        assert(crate::text::stands_at(text, part, a));
    }
}

/// `a in b` of texts is true just where some part of `b` reads `a`.
pub proof fn law_in_a_text_means_a_part(f: nat, st: St, needle: Value, haystack: Value, part: ObjId, whole: ObjId, spans: Spans)
    requires
        f >= 3,
        slot_of(st.heap, haystack, Op::Contains) is None,
        base(st.heap, haystack) == Value::Str(whole),
        base(st.heap, needle) == Value::Str(part),
    ensures
        s_binary(f, st, BinaryOp::In, needle, haystack, spans) == (
            st,
            Ok::<Value, ErrV>(Value::Bool(has_part(st.heap.text(whole), st.heap.text(part)))),
        ),
{
    lemma_in(f, st, needle, haystack, spans);
    lemma_has_part(st.heap.text(whole), st.heap.text(part));
}

// -- texts and lists ----------------------------------------------------------------------------------

/// Adding texts makes a new one that reads as the first and then the second; adding lists makes
/// a new one that holds the items of the first and then those of the second. What was added is
/// as it was.
pub proof fn law_adding_puts_one_behind_the_other(f: nat, st: St, x: Value, y: Value, spans: Spans)
    requires
        sound(st.heap, st.globals),
        st.heap.cells.len() < usize::MAX,
        plain(st.heap, x),
        plain(st.heap, y),
        (base(st.heap, x) is Str && base(st.heap, y) is Str) || (base(st.heap, x) is List && base(
            st.heap,
            y,
        ) is List),
    ensures
        ({
            let (after, r) = s_binary(f + 3, st, BinaryOp::Add, x, y, spans);
            &&& r is Ok
            &&& base(st.heap, x) is Str ==> r->Ok_0 is Str && after.heap.text(r->Ok_0->Str_0) == st.heap.text(
                base(st.heap, x)->Str_0,
            ) + st.heap.text(base(st.heap, y)->Str_0)
            &&& base(st.heap, x) is List ==> r->Ok_0 is List && after.heap.list(r->Ok_0->List_0)
                == st.heap.list(base(st.heap, x)->List_0) + st.heap.list(base(st.heap, y)->List_0)
            &&& forall|id: ObjId|
                st.heap.cell(id) is Some ==> #[trigger] after.heap.cell(id) == st.heap.cell(id)
        }),
{
    lemma_plain_operator(f, st, BinaryOp::Add, x, y, spans);
    let (after, r) = s_plain_binary(st, BinaryOp::Add, x, y, spans);
    let made = match (base(st.heap, x), base(st.heap, y)) {
        (Value::Str(a), Value::Str(b)) => ObjV::Str(st.heap.text(a) + st.heap.text(b)),
        (Value::List(a), Value::List(b)) => ObjV::List(st.heap.list(a) + st.heap.list(b)),
        _ => ObjV::Str(Seq::empty()),
    };
    law_a_new_object_moves_nothing(st.heap, made);
    assert(after.heap == st.heap.with_new(made));
    assert(after.heap.obj(st.heap.next_id()) == Some(made));
}

/// How far two texts read the same.
pub open spec fn agree_up_to(a: Seq<char>, b: Seq<char>, k: int) -> bool {
    &&& 0 <= k <= a.len()
    &&& k <= b.len()
    &&& a.take(k) == b.take(k)
}

/// Whether one text comes first in the order of the dictionary: where they first differ it has
/// the lower character, or it ends there and the other does not.
pub open spec fn reads_first(a: Seq<char>, b: Seq<char>) -> bool {
    exists|k: int| #[trigger]
        agree_up_to(a, b, k) && k < b.len() && (k == a.len() || (k < a.len() && (a[k] as u32) < (b[k] as u32)))
}

proof fn lemma_before(a: Seq<char>, b: Seq<char>, i: int)
    requires
        agree_up_to(a, b, i),
    ensures
        before(a, b, i) <==> reads_first(a, b),
    decreases a.len() - i,
{
    if i >= b.len() {
        if reads_first(a, b) {
            let k = choose|k: int| #[trigger]
                agree_up_to(a, b, k) && k < b.len() && (k == a.len() || (k < a.len() && (a[k] as u32)
                    < (b[k] as u32)));
            assert(a.take(i)[k] == a[k] && b.take(i)[k] == b[k]);
        }
    } else if i >= a.len() {
        assert(agree_up_to(a, b, i));
    } else if a[i] != b[i] {
        if reads_first(a, b) {
            let k = choose|k: int| #[trigger]
                agree_up_to(a, b, k) && k < b.len() && (k == a.len() || (k < a.len() && (a[k] as u32)
                    < (b[k] as u32)));
            if k > i {
                assert(a.take(k)[i] == a[i] && b.take(k)[i] == b[i]);
            } else if k < i {
                assert(a.take(i)[k] == a[k] && b.take(i)[k] == b[k]);
            }
        }
    } else {
        assert(a.take(i + 1) =~= a.take(i).push(a[i]));
        assert(b.take(i + 1) =~= b.take(i).push(b[i]));
        lemma_before(a, b, i + 1);
    }
}

/// Two characters with one code are the same.
proof fn lemma_codes(x: char, y: char)
    ensures
        x as u32 == y as u32 ==> x == y,
{
}

proof fn lemma_one_reads_first(a: Seq<char>, b: Seq<char>, i: int)
    requires
        agree_up_to(a, b, i),
    ensures
        a == b ==> !before(a, b, i) && !before(b, a, i),
        a != b ==> before(a, b, i) != before(b, a, i),
    decreases a.len() - i,
{
    if i < a.len() && i < b.len() {
        if a[i] == b[i] {
            assert(a.take(i + 1) =~= a.take(i).push(a[i]));
            assert(b.take(i + 1) =~= b.take(i).push(b[i]));
            lemma_one_reads_first(a, b, i + 1);
        } else {
            lemma_codes(a[i], b[i]);
        }
    } else if i == a.len() && i == b.len() {
        assert(a.take(i) =~= a);
        assert(b.take(i) =~= b);
    }
}

/// Texts are compared as a dictionary orders them: `<` is true just where the left reads first,
/// `>` just where the right does, and `<=` and `>=` also where they are the same.
pub proof fn law_texts_are_compared_as_a_dictionary_orders_them(f: nat, st: St, x: Value, y: Value, spans: Spans)
    requires
        plain(st.heap, x),
        plain(st.heap, y),
        base(st.heap, x) is Str,
        base(st.heap, y) is Str,
    ensures
        ({
            let a = st.heap.text(base(st.heap, x)->Str_0);
            let b = st.heap.text(base(st.heap, y)->Str_0);
            &&& s_binary(f + 3, st, BinaryOp::Lt, x, y, spans) == (
                st,
                Ok::<Value, ErrV>(Value::Bool(reads_first(a, b))),
            )
            &&& s_binary(f + 3, st, BinaryOp::Gt, x, y, spans) == (
                st,
                Ok::<Value, ErrV>(Value::Bool(reads_first(b, a))),
            )
            &&& s_binary(f + 3, st, BinaryOp::Le, x, y, spans) == (
                st,
                Ok::<Value, ErrV>(Value::Bool(reads_first(a, b) || a == b)),
            )
            &&& s_binary(f + 3, st, BinaryOp::Ge, x, y, spans) == (
                st,
                Ok::<Value, ErrV>(Value::Bool(reads_first(b, a) || a == b)),
            )
        }),
{
    let a = st.heap.text(base(st.heap, x)->Str_0);
    let b = st.heap.text(base(st.heap, y)->Str_0);
    lemma_plain_operator(f, st, BinaryOp::Lt, x, y, spans);
    lemma_plain_operator(f, st, BinaryOp::Gt, x, y, spans);
    lemma_plain_operator(f, st, BinaryOp::Le, x, y, spans);
    lemma_plain_operator(f, st, BinaryOp::Ge, x, y, spans);
    assert(a.take(0) =~= b.take(0));
    assert(agree_up_to(a, b, 0) && agree_up_to(b, a, 0));
    lemma_before(a, b, 0);
    lemma_before(b, a, 0);
    lemma_one_reads_first(a, b, 0);
}

// -- containers ------------------------------------------------------------------------------------------

/// Expressions are evaluated in the order they are written, and each gives one value.
pub proof fn law_expressions_are_evaluated_in_order(
    f: nat,
    st: St,
    es: Seq<ExprV>,
    env: ObjId,
    mark: int,
    i: int,
    so_far: Seq<Value>,
    st1: St,
    v: Value,
)
    requires
        0 <= i < es.len(),
        s_eval(f, st, es[i], env) == (st1, Ok::<Value, ErrV>(v)),
    ensures
        s_values(f + 1, st, es, env, mark, i, so_far) == s_values(
            f,
            rooted(st1, v),
            es,
            env,
            mark,
            i + 1,
            so_far.push(v),
        ),
        s_values(f, st, es, env, mark, es.len() as int, so_far) == (
            released(st, mark),
            Ok::<Seq<Value>, ErrV>(so_far),
        ),
{
}

/// A list literal is a new list of what its items are, in the order they are written.
pub proof fn law_a_list_literal_holds_its_items(
    f: nat,
    st: St,
    e: ExprV,
    items: Seq<ExprV>,
    env: ObjId,
    st1: St,
    values: Seq<Value>,
)
    requires
        e.kind == ExprKindV::List(items),
        s_values(f, st, items, env, st.temps.len() as int, 0, Seq::empty()) == (
            st1,
            Ok::<Seq<Value>, ErrV>(values),
        ),
        sound(st1.heap, st1.globals),
        st1.heap.cells.len() < usize::MAX,
    ensures
        ({
            let (after, r) = s_eval(f + 2, st, e, env);
            &&& r is Ok
            &&& r->Ok_0 is List
            &&& after.heap.list(r->Ok_0->List_0) == values
            &&& st1.heap.cell(r->Ok_0->List_0) is None
            &&& !after.heap.frozen(r->Ok_0->List_0)
        }),
{
    assert(s_eval(f + 2, st, e, env) == s_list_literal(f + 1, st, items, env));
    let made = ObjV::List(values);
    law_a_new_object_moves_nothing(st1.heap, made);
    let after = s_eval(f + 2, st, e, env).0;
    assert(after.heap == st1.heap.with_new(made));
    assert(after.heap.obj(st1.heap.next_id()) == Some(made));
    assert(after.heap.cell(st1.heap.next_id()) is Some);
}

/// Reading a subscript of a list gives the item that stands there, counted from the front, or
/// from the back where it is negative; of a text the character that stands there; of a dict
/// what it holds under the key, or nil. Past either end is an error.
pub proof fn law_a_subscript_reads_what_stands_there(f: nat, st: St, target: Value, index: Value, span: Span)
    requires
        f > 0,
        slot_of(st.heap, target, Op::Get) is None,
    ensures
        ({
            let (after, r) = s_index_get(f, st, target, index, span);
            let held = base(st.heap, target);
            &&& held is List && index is Int ==> {
                let s = st.heap.list(held->List_0);
                let i = index->Int_0 as int;
                &&& after == st
                &&& 0 <= i < s.len() ==> r == Ok::<Value, ErrV>(s[i])
                &&& -s.len() <= i < 0 ==> r == Ok::<Value, ErrV>(s[s.len() + i])
                &&& !(-s.len() <= i < s.len()) ==> r is Err && r->Err_0.kind == ErrorKind::Index
            }
            &&& held is Dict && s_key_of(st.heap, index, span) is Ok ==> {
                let found = dict_get(
                    st.heap,
                    st.heap.dict(held->Dict_0),
                    s_key_of(st.heap, index, span)->Ok_0,
                );
                &&& after == st
                &&& found is Some ==> r == Ok::<Value, ErrV>(found->0)
                &&& found is None ==> r == Ok::<Value, ErrV>(Value::Nil)
            }
        }),
{
}

/// Reading a subscript of a text gives a new text of the one character that stands there.
pub proof fn law_a_subscript_of_a_text_is_its_character(f: nat, st: St, target: Value, i: i64, span: Span)
    requires
        f > 0,
        slot_of(st.heap, target, Op::Get) is None,
        base(st.heap, target) is Str,
        sound(st.heap, st.globals),
        st.heap.cells.len() < usize::MAX,
    ensures
        ({
            let (after, r) = s_index_get(f, st, target, Value::Int(i), span);
            let text = st.heap.text(base(st.heap, target)->Str_0);
            &&& 0 <= i < text.len() ==> r is Ok && r->Ok_0 is Str && after.heap.text(r->Ok_0->Str_0) == seq![text[i as int]]
            &&& -text.len() <= i < 0 ==> r is Ok && r->Ok_0 is Str && after.heap.text(r->Ok_0->Str_0) == seq![
                text[text.len() + i],
            ]
            &&& !(-text.len() <= i < text.len()) ==> r is Err && r->Err_0.kind == ErrorKind::Index
        }),
{
    let text = st.heap.text(base(st.heap, target)->Str_0);
    let k = if i < 0 {
        text.len() + i
    } else {
        i as int
    };
    if 0 <= k < text.len() {
        let made = ObjV::Str(seq![text[k]]);
        law_a_new_object_moves_nothing(st.heap, made);
        let after = s_index_get(f, st, target, Value::Int(i), span).0;
        assert(after.heap == st.heap.with_new(made));
        assert(after.heap.obj(st.heap.next_id()) == Some(made));
    }
}

/// Writing a subscript of a list changes the item that stands there and no other, and the list
/// stays as long as it is. Written to a dict, the value is what the dict then holds under the
/// key. The assignment is worth the value. What is frozen is not changed.
pub proof fn law_a_subscript_writes_what_stands_there(
    f: nat,
    st: St,
    target: Value,
    i: i64,
    v: Value,
    id: ObjId,
    at: PutSpans,
)
    requires
        f > 0,
        slot_of(st.heap, target, Op::Put) is None,
        base(st.heap, target) == Value::List(id),
        st.heap.obj(id) is Some,
        st.heap.obj(id)->0 is List,
        st.heap.descriptor(id) is None,
    ensures
        ({
            let (after, r) = s_index_put(f, st, target, Value::Int(i), v, at);
            let s = st.heap.list(id);
            let t = after.heap.list(id);
            let k = if i < 0 {
                s.len() + i
            } else {
                i as int
            };
            &&& !(0 <= k < s.len()) ==> after == st && r is Err && r->Err_0.kind == ErrorKind::Index
            &&& 0 <= k < s.len() && st.heap.frozen(id) ==> after == st && r is Err && r->Err_0.kind
                == ErrorKind::Frozen
            &&& 0 <= k < s.len() && !st.heap.frozen(id) ==> {
                &&& r == Ok::<Value, ErrV>(v)
                &&& t.len() == s.len()
                &&& t[k] == v
                &&& forall|j: int| 0 <= j < s.len() && j != k ==> #[trigger] t[j] == s[j]
                &&& forall|other: ObjId| other != id ==> #[trigger] after.heap.cell(other) == st.heap.cell(other)
            }
        }),
{
}

/// A field that is written is what reading it then gives, and no other field of the instance,
/// and no other object, is changed.
pub proof fn law_a_field_reads_as_it_was_written(st: St, id: ObjId, name: Seq<char>, v: Value, at: DotSpans, other: Seq<char>)
    requires
        st.heap.obj(id) is Some,
        st.heap.obj(id)->0 is Instance,
        crate::interp::object::s_may_reach(st, st.heap.instance(id).class, name, at.name) is Ok,
        !st.heap.frozen(id),
    ensures
        ({
            let (after, r) = s_store_field(st, Value::Instance(id), name, v, at);
            let fields = after.heap.instance(id).fields;
            &&& r == Ok::<Value, ErrV>(v)
            &&& crate::runtime::object::lookup(fields, name) == Some(v)
            &&& other != name ==> crate::runtime::object::lookup(fields, other)
                == crate::runtime::object::lookup(st.heap.instance(id).fields, other)
            &&& after.heap.instance(id).class == st.heap.instance(id).class
            &&& after.heap.instance(id).payload == st.heap.instance(id).payload
            &&& forall|o: ObjId| o != id ==> #[trigger] after.heap.cell(o) == st.heap.cell(o)
        }),
{
    let fields = st.heap.instance(id).fields;
    lemma_put_found(fields, name, v);
    if other != name {
        lemma_put_leaves(fields, name, v, other);
    }
}

proof fn lemma_named_place(s: Seq<crate::runtime::object::NamedV>, name: Seq<char>, from: int)
    requires
        0 <= from,
    ensures
        match crate::runtime::object::place(s, name, from) {
            Some(i) => from <= i < s.len() && s[i].name == name,
            None => forall|i: int| from <= i < s.len() ==> (#[trigger] s[i]).name != name,
        },
    decreases s.len() - from,
{
    if from < s.len() && s[from].name != name {
        lemma_named_place(s, name, from + 1);
    }
}

proof fn lemma_named_alike(
    s: Seq<crate::runtime::object::NamedV>,
    t: Seq<crate::runtime::object::NamedV>,
    name: Seq<char>,
    from: int,
)
    requires
        0 <= from,
        s.len() <= t.len(),
        forall|i: int| 0 <= i < s.len() ==> (#[trigger] s[i]).name == t[i].name,
        forall|i: int| s.len() <= i < t.len() ==> (#[trigger] t[i]).name != name,
    ensures
        crate::runtime::object::place(t, name, from) == crate::runtime::object::place(s, name, from),
    decreases t.len() - from,
{
    if from < t.len() {
        if from < s.len() {
            assert(s[from].name == t[from].name);
        }
        lemma_named_alike(s, t, name, from + 1);
    }
}

proof fn lemma_new_last(s: Seq<crate::runtime::object::NamedV>, e: crate::runtime::object::NamedV, from: int)
    requires
        0 <= from <= s.len(),
        forall|i: int| from <= i < s.len() ==> (#[trigger] s[i]).name != e.name,
    ensures
        crate::runtime::object::place(s.push(e), e.name, from) == Some(s.len() as int),
    decreases s.len() - from,
{
    if from < s.len() {
        assert(s.push(e)[from] == s[from]);
        lemma_new_last(s, e, from + 1);
    }
}

proof fn lemma_put_found(s: Seq<crate::runtime::object::NamedV>, name: Seq<char>, v: Value)
    ensures
        crate::runtime::object::lookup(crate::runtime::object::put(s, name, v), name) == Some(v),
{
    lemma_named_place(s, name, 0);
    match crate::runtime::object::place(s, name, 0) {
        Some(i) => {
            let t = s.update(i, crate::runtime::object::NamedV { name, value: v });
            lemma_named_alike(s, t, name, 0);
        },
        None => {
            lemma_new_last(s, crate::runtime::object::NamedV { name, value: v }, 0);
        },
    }
}

proof fn lemma_put_leaves(s: Seq<crate::runtime::object::NamedV>, name: Seq<char>, v: Value, other: Seq<char>)
    requires
        other != name,
    ensures
        crate::runtime::object::lookup(crate::runtime::object::put(s, name, v), other)
            == crate::runtime::object::lookup(s, other),
{
    lemma_named_place(s, name, 0);
    lemma_named_place(s, other, 0);
    let t = crate::runtime::object::put(s, name, v);
    lemma_named_alike(s, t, other, 0);
}

/// A dot reads a field of an instance, where it has one, whatever methods its class has.
pub proof fn law_a_dot_reads_the_field(
    f: nat,
    st: St,
    e: ExprV,
    target: ExprV,
    name: Seq<char>,
    env: ObjId,
    st1: St,
    id: ObjId,
    v: Value,
)
    requires
        e.kind == (ExprKindV::Field { target: Box::new(target), name }),
        s_eval(f, st, target, env) == (st1, Ok::<Value, ErrV>(Value::Instance(id))),
        crate::runtime::object::lookup(st1.heap.instance(id).fields, name) == Some(v),
        crate::interp::object::s_may_reach(
            st1,
            st1.heap.instance(id).class,
            name,
            crate::interp::eval::dot_spans(target.span, e.span).name,
        ) is Ok,
    ensures
        s_eval(f + 2, st, e, env) == (st1, Ok::<Value, ErrV>(v)),
{
    assert(s_eval(f + 2, st, e, env) == s_field_expr(f + 1, st, target, name, e.span, env));
}

/// A subscript, read, is given what it stands behind and then its index, each evaluated once.
pub proof fn law_a_subscript_takes_its_parts_from_left_to_right(
    f: nat,
    st: St,
    e: ExprV,
    target: ExprV,
    index: ExprV,
    env: ObjId,
    st1: St,
    x: Value,
    st2: St,
    y: Value,
)
    requires
        e.kind == (ExprKindV::Index { target: Box::new(target), index: Box::new(index) }),
        s_eval(f, st, target, env) == (st1, Ok::<Value, ErrV>(x)),
        s_eval(f, rooted(st1, x), index, env) == (st2, Ok::<Value, ErrV>(y)),
        !(x is Class),
    ensures
        s_eval(f + 3, st, e, env) == s_index_get(
            f + 1,
            released(st2, st1.temps.len() as int),
            x,
            y,
            e.span,
        ),
{
    assert(s_eval(f + 3, st, e, env) == s_index_expr(f + 2, st, target, index, e.span, env));
    assert(s_pair(f + 1, st, target, index, env) == (
        released(st2, st1.temps.len() as int),
        Ok::<(Value, Value), ErrV>((x, y)),
    ));
}

/// `x is T` is a bool that says whether the value is of the type, and changes nothing more than
/// evaluating `x` does.
pub proof fn law_is_answers_with_a_bool(f: nat, st: St, e: ExprV, value: ExprV, env: ObjId, st1: St, v: Value)
    requires
        e.kind is Is,
        *e.kind->Is_value == value,
        s_eval(f, st, value, env) == (st1, Ok::<Value, ErrV>(v)),
    ensures
        s_eval(f + 2, st, e, env) == (
            st1,
            Ok::<Value, ErrV>(
                Value::Bool(has_type(st1.heap, substituted(e.kind->Is_ty, current(st1)), v)),
            ),
        ),
{
    assert(s_eval(f + 2, st, e, env) == s_is_expr(f + 1, st, value, e.kind->Is_ty, env));
}

} // verus!
