//! What operators answer for containers and for instances of classes.

use crate::error::{ErrV, ErrorKind};
use crate::interp::dict::{dict_get, keys_of};
use crate::interp::dispatch::fitting;
use crate::interp::error::Spans;
use crate::interp::expressions::{lemma_plain_operator, plain};
use crate::interp::operator::{
    asked, binary_op_for, is_ordering, ordered, partly_ordered, slot_for, specific_for, Asked,
};
use crate::interp::ops::{
    items_of, negated_order, s_arith, s_asked_compare, s_asked_order, s_base_equals, s_binary,
    s_bool_op, s_call_op, s_compare, s_computed, s_contains, s_entries_equal, s_equals,
    s_index_get, s_index_put, s_items_equal, s_unasked_compare, PutSpans,
};
use crate::interp::state::St;
use crate::runtime::class::{base, slot_of};
use crate::runtime::heap::{at_index, HeapV};
use crate::runtime::value::{ObjId, Value};
use crate::syntax::ast::{BinaryOp, Op};
use crate::syntax::token::Span;
use vstd::prelude::*;

verus! {

// -- where no class answers ------------------------------------------------------------------------------

/// Where no class answers, an operator takes two numbers, two texts or two lists, and nothing
/// else; of lists it only adds. What it does not take is refused and changes nothing.
pub proof fn law_operators_do_not_mix_types(f: nat, st: St, op: BinaryOp, x: Value, y: Value, spans: Spans)
    requires
        plain(st.heap, x),
        plain(st.heap, y),
        op != BinaryOp::Eq,
        op != BinaryOp::Ne,
        op != BinaryOp::In,
    ensures
        ({
            let (after, r) = s_binary(f + 3, st, op, x, y, spans);
            let a = base(st.heap, x);
            let b = base(st.heap, y);
            let numbers = (a is Int || a is Float) && (b is Int || b is Float);
            let lists = a is List && b is List;
            let texts = a is Str && b is Str;
            &&& !numbers && !lists && !texts ==> after == st && r is Err && r->Err_0.kind == ErrorKind::Type
            &&& lists && op != BinaryOp::Add ==> after == st && r is Err && r->Err_0.kind == ErrorKind::Type
            &&& lists && op == BinaryOp::Add ==> r is Ok && r->Ok_0 is List
            &&& texts && op == BinaryOp::Add ==> r is Ok && r->Ok_0 is Str
        }),
{
    lemma_plain_operator(f, st, op, x, y, spans);
}

// -- classes that answer ------------------------------------------------------------------------------

/// The op that a class declares to answer an operator.
pub open spec fn answers(op: BinaryOp, slot: Op) -> bool {
    ||| op == BinaryOp::Add && slot == Op::Add
    ||| op == BinaryOp::Sub && slot == Op::Sub
    ||| op == BinaryOp::Mul && slot == Op::Mul
    ||| op == BinaryOp::Div && slot == Op::Div
    ||| op == BinaryOp::FloorDiv && slot == Op::FloorDiv
    ||| op == BinaryOp::Rem && slot == Op::Rem
    ||| op == BinaryOp::Pow && slot == Op::Pow
    ||| op == BinaryOp::BitAnd && slot == Op::BitAnd
    ||| op == BinaryOp::BitOr && slot == Op::BitOr
    ||| op == BinaryOp::BitXor && slot == Op::BitXor
    ||| op == BinaryOp::Shl && slot == Op::BitShl
    ||| op == BinaryOp::Shr && slot == Op::BitShr
}

/// What a comparison answers is what its operator answers.
proof fn lemma_compared(f: nat, st: St, op: BinaryOp, x: Value, y: Value, spans: Spans, st1: St, v: Value)
    requires
        op != BinaryOp::Eq && op != BinaryOp::Ne && op != BinaryOp::In,
        s_compare(f, st, op, x, y, spans) == (st1, Ok::<Option<Value>, ErrV>(Some(v))),
    ensures
        s_binary(f + 2, st, op, x, y, spans) == (st1, Ok::<Value, ErrV>(v)),
{
    assert(s_computed(f + 1, st, op, x, y, spans) == (st1, Ok::<Value, ErrV>(v)));
}

/// What an arithmetic operator answers where no comparison is asked.
proof fn lemma_reckoned(f: nat, st: St, op: BinaryOp, x: Value, y: Value, spans: Spans)
    requires
        op != BinaryOp::Eq && op != BinaryOp::Ne && op != BinaryOp::In,
        !is_ordering(op),
    ensures
        ({
            let (after, r) = s_arith(f + 1, st, op, x, y, spans);
            &&& r is Ok && r->Ok_0 is Some ==> s_binary(f + 3, st, op, x, y, spans) == (
                after,
                Ok::<Value, ErrV>(r->Ok_0->0),
            )
            &&& r is Err ==> s_binary(f + 3, st, op, x, y, spans) == (after, Err::<Value, ErrV>(r->Err_0))
        }),
{
    assert(s_compare(f + 1, st, op, x, y, spans) == (st, Ok::<Option<Value>, ErrV>(None)));
    lemma_computed(f + 1, st, op, x, y, spans);
}

proof fn lemma_computed(f: nat, st: St, op: BinaryOp, x: Value, y: Value, spans: Spans)
    requires
        op != BinaryOp::Eq && op != BinaryOp::Ne && op != BinaryOp::In,
        s_compare(f, st, op, x, y, spans) == (st, Ok::<Option<Value>, ErrV>(None)),
    ensures
        ({
            let (after, r) = s_arith(f, st, op, x, y, spans);
            &&& r is Ok && r->Ok_0 is Some ==> s_binary(f + 2, st, op, x, y, spans) == (
                after,
                Ok::<Value, ErrV>(r->Ok_0->0),
            )
            &&& r is Err ==> s_binary(f + 2, st, op, x, y, spans) == (after, Err::<Value, ErrV>(r->Err_0))
        }),
{
    assert(s_binary(f + 2, st, op, x, y, spans) == s_computed(f + 1, st, op, x, y, spans));
}

/// What an op that was asked for an arithmetic operator answers is the answer.
proof fn lemma_answered(
    f: nat,
    st: St,
    op: BinaryOp,
    slot: Op,
    found: Asked,
    x: Value,
    y: Value,
    spans: Spans,
    chosen: Value,
    st1: St,
    answer: Value,
)
    requires
        slot_for(op) == Some(slot),
        asked(st.heap, slot, x, y) == Some(found),
        binary_op_for(st.heap, op, slot, found, x, y, spans) == Ok::<Value, ErrV>(chosen),
        s_call_op(f, st, chosen, found.receiver, seq![found.other]) == (st1, Ok::<Value, ErrV>(answer)),
    ensures
        s_arith(f + 1, st, op, x, y, spans) == (st1, Ok::<Option<Value>, ErrV>(Some(answer))),
{
}

/// What `op cmp` answers, once it was asked.
proof fn lemma_ordered(
    f: nat,
    st: St,
    op: BinaryOp,
    found: Asked,
    x: Value,
    y: Value,
    spans: Spans,
    chosen: Value,
    st1: St,
    answer: Value,
    n: i64,
)
    requires
        binary_op_for(st.heap, op, Op::Cmp, found, x, y, spans) == Ok::<Value, ErrV>(chosen),
        s_call_op(f, st, chosen, found.receiver, seq![found.other]) == (st1, Ok::<Value, ErrV>(answer)),
        base(st1.heap, answer) == Value::Int(n),
    ensures
        s_asked_order(f + 1, st, op, found, x, y, spans) == (
            st1,
            Ok::<Option<Value>, ErrV>(
                Some(Value::Bool(ordered(op, if found.reflected { negated_order(n) } else { n as int }))),
            ),
        ),
{
}

/// What an op that says yes or no says.
proof fn lemma_said(f: nat, st: St, slot: Op, chosen: Value, x: Value, y: Value, st1: St, answer: Value, b: bool)
    requires
        s_call_op(f, st, chosen, x, seq![y]) == (st1, Ok::<Value, ErrV>(answer)),
        base(st1.heap, answer) == Value::Bool(b),
    ensures
        s_bool_op(f + 1, st, slot, chosen, x, seq![y]) == (st1, Ok::<bool, ErrV>(b)),
{
}

/// What a comparison's own op answers, once it was asked.
proof fn lemma_asked(
    f: nat,
    st: St,
    op: BinaryOp,
    slot: Op,
    found: Asked,
    x: Value,
    y: Value,
    spans: Spans,
    chosen: Value,
    st1: St,
    b: bool,
)
    requires
        binary_op_for(st.heap, op, slot, found, x, y, spans) == Ok::<Value, ErrV>(chosen),
        s_bool_op(f, st, slot, chosen, found.receiver, seq![found.other]) == (st1, Ok::<bool, ErrV>(b)),
    ensures
        s_asked_compare(f + 1, st, op, slot, found, x, y, spans) == (
            st1,
            Ok::<Option<Value>, ErrV>(Some(Value::Bool(b))),
        ),
{
}

/// Which op a comparison asks.
proof fn lemma_compare_asks(f: nat, st: St, op: BinaryOp, x: Value, y: Value, spans: Spans, found: Asked)
    requires
        is_ordering(op),
    ensures
        specific_for(op) is Some && asked(st.heap, specific_for(op)->0, x, y) == Some(found) ==> s_compare(
            f + 1,
            st,
            op,
            x,
            y,
            spans,
        ) == s_asked_compare(f, st, op, specific_for(op)->0, found, x, y, spans),
        (specific_for(op) is Some ==> asked(st.heap, specific_for(op)->0, x, y) is None) && asked(
            st.heap,
            Op::Cmp,
            x,
            y,
        ) == Some(found) ==> s_compare(f + 1, st, op, x, y, spans) == s_asked_order(f, st, op, found, x, y, spans),
{
}

/// An op that only the right side declares is not asked.
proof fn lemma_right_alone(f: nat, st: St, op: BinaryOp, slot: Op, x: Value, y: Value, spans: Spans)
    requires
        slot_for(op) == Some(slot),
        asked(st.heap, slot, x, y) is None,
        slot_of(st.heap, y, slot) is Some,
    ensures
        s_arith(f + 1, st, op, x, y, spans).0 == st,
        s_arith(f + 1, st, op, x, y, spans).1 is Err,
        s_arith(f + 1, st, op, x, y, spans).1->Err_0.kind == ErrorKind::Type,
{
}

proof fn lemma_answers(op: BinaryOp, slot: Op)
    requires
        answers(op, slot),
    ensures
        slot_for(op) == Some(slot),
        !is_ordering(op),
        op != BinaryOp::Eq && op != BinaryOp::Ne && op != BinaryOp::In,
{
}

proof fn lemma_left_asked(h: HeapV, op: BinaryOp, slot: Op, x: Value, y: Value, spans: Spans, method: Value, chosen: Value)
    requires
        slot_of(h, x, slot) == Some(method),
        fitting(h, method, seq![y], true) == Some(chosen),
    ensures
        ({
            let found = Asked { method, receiver: x, other: y, reflected: false };
            &&& asked(h, slot, x, y) == Some(found)
            &&& binary_op_for(h, op, slot, found, x, y, spans) == Ok::<Value, ErrV>(chosen)
        }),
{
}

proof fn lemma_left_answers(
    f: nat,
    st: St,
    op: BinaryOp,
    slot: Op,
    x: Value,
    y: Value,
    spans: Spans,
    found: Asked,
    chosen: Value,
    st1: St,
    answer: Value,
)
    requires
        slot_for(op) == Some(slot),
        !is_ordering(op),
        op != BinaryOp::Eq && op != BinaryOp::Ne && op != BinaryOp::In,
        asked(st.heap, slot, x, y) == Some(found),
        binary_op_for(st.heap, op, slot, found, x, y, spans) == Ok::<Value, ErrV>(chosen),
        s_call_op(f, st, chosen, found.receiver, seq![found.other]) == (st1, Ok::<Value, ErrV>(answer)),
    ensures
        s_binary(f + 3, st, op, x, y, spans) == (st1, Ok::<Value, ErrV>(answer)),
{
    lemma_answered(f, st, op, slot, found, x, y, spans, chosen, st1, answer);
    lemma_reckoned(f, st, op, x, y, spans);
}

proof fn lemma_right_refused(f: nat, st: St, op: BinaryOp, slot: Op, x: Value, y: Value, spans: Spans)
    requires
        slot_for(op) == Some(slot),
        !is_ordering(op),
        op != BinaryOp::Eq && op != BinaryOp::Ne && op != BinaryOp::In,
        asked(st.heap, slot, x, y) is None,
        slot_of(st.heap, y, slot) is Some,
    ensures
        s_binary(f + 3, st, op, x, y, spans).0 == st,
        s_binary(f + 3, st, op, x, y, spans).1 is Err,
        s_binary(f + 3, st, op, x, y, spans).1->Err_0.kind == ErrorKind::Type,
{
    lemma_right_alone(f, st, op, slot, x, y, spans);
    lemma_reckoned(f, st, op, x, y, spans);
}

/// A comparison that is refused refuses its operator.
proof fn lemma_compare_refused(f: nat, st: St, op: BinaryOp, x: Value, y: Value, spans: Spans, st1: St, e: ErrV)
    requires
        op != BinaryOp::Eq && op != BinaryOp::Ne && op != BinaryOp::In,
        s_compare(f, st, op, x, y, spans) == (st1, Err::<Option<Value>, ErrV>(e)),
    ensures
        s_binary(f + 2, st, op, x, y, spans) == (st1, Err::<Value, ErrV>(e)),
{
    assert(s_computed(f + 1, st, op, x, y, spans) == (st1, Err::<Value, ErrV>(e)));
}

proof fn lemma_half_refused(f: nat, st: St, op: BinaryOp, x: Value, y: Value, spans: Spans)
    requires
        op == BinaryOp::Le || op == BinaryOp::Ge,
        asked(st.heap, Op::Cmp, x, y) is None,
        partly_ordered(st.heap, op, x, y, spans.whole) is Err,
    ensures
        s_compare(f + 1, st, op, x, y, spans) == (
            st,
            Err::<Option<Value>, ErrV>(partly_ordered(st.heap, op, x, y, spans.whole)->Err_0),
        ),
{
    assert(s_compare(f + 1, st, op, x, y, spans) == s_unasked_compare(st, op, x, y, spans));
}

/// Where the class of the left side declares the op of an operator, what it answers for the
/// right side is the result.
pub proof fn law_the_left_side_answers_an_operator(
    f: nat,
    st: St,
    op: BinaryOp,
    slot: Op,
    x: Value,
    y: Value,
    spans: Spans,
    method: Value,
    chosen: Value,
    st1: St,
    answer: Value,
)
    requires
        answers(op, slot),
        slot_of(st.heap, x, slot) == Some(method),
        fitting(st.heap, method, seq![y], true) == Some(chosen),
        s_call_op(f, st, chosen, x, seq![y]) == (st1, Ok::<Value, ErrV>(answer)),
    ensures
        s_binary(f + 3, st, op, x, y, spans) == (st1, Ok::<Value, ErrV>(answer)),
{
    let found = Asked { method, receiver: x, other: y, reflected: false };
    lemma_answers(op, slot);
    lemma_left_asked(st.heap, op, slot, x, y, spans, method, chosen);
    lemma_left_answers(f, st, op, slot, x, y, spans, found, chosen, st1, answer);
}

/// Where only the class of the right side declares the op of an operator, it is not asked: the
/// operator is refused and nothing changes.
pub proof fn law_the_right_side_does_not_answer_an_operator(
    f: nat,
    st: St,
    op: BinaryOp,
    slot: Op,
    x: Value,
    y: Value,
    spans: Spans,
)
    requires
        answers(op, slot),
        slot_of(st.heap, x, slot) is None,
        slot_of(st.heap, y, slot) is Some,
    ensures
        s_binary(f + 3, st, op, x, y, spans).0 == st,
        s_binary(f + 3, st, op, x, y, spans).1 is Err,
        s_binary(f + 3, st, op, x, y, spans).1->Err_0.kind == ErrorKind::Type,
{
    lemma_answers(op, slot);
    assert(!slot.is_reflected());
    lemma_right_refused(f, st, op, slot, x, y, spans);
}

/// Where the class of the left side declares `op cmp`, and no op of its own for the comparison,
/// the sign of the int it answers decides each of the four comparisons.
pub proof fn law_the_sign_of_an_order_decides_each_comparison(
    f: nat,
    st: St,
    op: BinaryOp,
    x: Value,
    y: Value,
    spans: Spans,
    method: Value,
    chosen: Value,
    st1: St,
    answer: Value,
    n: i64,
)
    requires
        op == BinaryOp::Lt || op == BinaryOp::Le || op == BinaryOp::Gt || op == BinaryOp::Ge,
        slot_of(st.heap, x, Op::Lt) is None && slot_of(st.heap, y, Op::Lt) is None,
        slot_of(st.heap, x, Op::Gt) is None && slot_of(st.heap, y, Op::Gt) is None,
        slot_of(st.heap, x, Op::Cmp) == Some(method),
        fitting(st.heap, method, seq![y], true) == Some(chosen),
        s_call_op(f, st, chosen, x, seq![y]) == (st1, Ok::<Value, ErrV>(answer)),
        base(st1.heap, answer) == Value::Int(n),
    ensures
        ({
            let holds = (op == BinaryOp::Lt && n < 0) || (op == BinaryOp::Le && n <= 0) || (op == BinaryOp::Gt && n
                > 0) || (op == BinaryOp::Ge && n >= 0);
            s_binary(f + 4, st, op, x, y, spans) == (st1, Ok::<Value, ErrV>(Value::Bool(holds)))
        }),
{
    let found = Asked { method, receiver: x, other: y, reflected: false };
    assert(asked(st.heap, Op::Cmp, x, y) == Some(found));
    assert(binary_op_for(st.heap, op, Op::Cmp, found, x, y, spans) == Ok::<Value, ErrV>(chosen));
    lemma_ordered(f, st, op, found, x, y, spans, chosen, st1, answer, n);
    lemma_compare_asks(f + 1, st, op, x, y, spans, found);
    lemma_compared(f + 2, st, op, x, y, spans, st1, Value::Bool(ordered(op, n as int)));
}

/// Where only the class of the right side declares `op cmp`, it is asked about the left side,
/// and its answer is read the other way round.
pub proof fn law_an_order_asked_of_the_right_side_is_turned_round(
    f: nat,
    st: St,
    op: BinaryOp,
    x: Value,
    y: Value,
    spans: Spans,
    method: Value,
    chosen: Value,
    st1: St,
    answer: Value,
    n: i64,
)
    requires
        op == BinaryOp::Lt || op == BinaryOp::Le || op == BinaryOp::Gt || op == BinaryOp::Ge,
        slot_of(st.heap, x, Op::Lt) is None && slot_of(st.heap, y, Op::Lt) is None,
        slot_of(st.heap, x, Op::Gt) is None && slot_of(st.heap, y, Op::Gt) is None,
        slot_of(st.heap, x, Op::Cmp) is None,
        slot_of(st.heap, y, Op::Cmp) == Some(method),
        fitting(st.heap, method, seq![x], true) == Some(chosen),
        s_call_op(f, st, chosen, y, seq![x]) == (st1, Ok::<Value, ErrV>(answer)),
        base(st1.heap, answer) == Value::Int(n),
    ensures
        ({
            let holds = (op == BinaryOp::Lt && n > 0) || (op == BinaryOp::Le && n >= 0) || (op == BinaryOp::Gt && n
                < 0) || (op == BinaryOp::Ge && n <= 0);
            s_binary(f + 4, st, op, x, y, spans) == (st1, Ok::<Value, ErrV>(Value::Bool(holds)))
        }),
{
    let found = Asked { method, receiver: y, other: x, reflected: true };
    assert(asked(st.heap, Op::Cmp, x, y) == Some(found));
    assert(binary_op_for(st.heap, op, Op::Cmp, found, x, y, spans) == Ok::<Value, ErrV>(chosen));
    lemma_ordered(f, st, op, found, x, y, spans, chosen, st1, answer, n);
    lemma_compare_asks(f + 1, st, op, x, y, spans, found);
    lemma_compared(f + 2, st, op, x, y, spans, st1, Value::Bool(ordered(op, negated_order(n))));
}

/// `op lt` of the left side answers `<` and `op gt` answers `>`, also where it declares
/// `op cmp`.
pub proof fn law_a_comparison_of_its_own_is_asked_first(
    f: nat,
    st: St,
    op: BinaryOp,
    slot: Op,
    x: Value,
    y: Value,
    spans: Spans,
    method: Value,
    chosen: Value,
    st1: St,
    answer: Value,
    b: bool,
)
    requires
        (op == BinaryOp::Lt && slot == Op::Lt) || (op == BinaryOp::Gt && slot == Op::Gt),
        slot_of(st.heap, x, slot) == Some(method),
        fitting(st.heap, method, seq![y], true) == Some(chosen),
        s_call_op(f, st, chosen, x, seq![y]) == (st1, Ok::<Value, ErrV>(answer)),
        base(st1.heap, answer) == Value::Bool(b),
    ensures
        s_binary(f + 5, st, op, x, y, spans) == (st1, Ok::<Value, ErrV>(Value::Bool(b))),
{
    let found = Asked { method, receiver: x, other: y, reflected: false };
    lemma_left_asked(st.heap, op, slot, x, y, spans, method, chosen);
    lemma_said(f, st, slot, chosen, x, y, st1, answer, b);
    lemma_asked(f + 1, st, op, slot, found, x, y, spans, chosen, st1, b);
    assert(specific_for(op) == Some(slot) && is_ordering(op));
    lemma_compare_asks(f + 2, st, op, x, y, spans, found);
    lemma_compared(f + 3, st, op, x, y, spans, st1, Value::Bool(b));
}

/// A class that answers `<` or `>` alone does not answer `<=` and `>=`.
pub proof fn law_half_an_order_does_not_answer_the_rest(f: nat, st: St, op: BinaryOp, x: Value, y: Value, spans: Spans)
    requires
        op == BinaryOp::Le || op == BinaryOp::Ge,
        slot_of(st.heap, x, Op::Cmp) is None && slot_of(st.heap, y, Op::Cmp) is None,
        slot_of(st.heap, x, Op::Lt) is Some || slot_of(st.heap, x, Op::Gt) is Some || slot_of(st.heap, y, Op::Lt)
            is Some || slot_of(st.heap, y, Op::Gt) is Some,
    ensures
        s_binary(f + 3, st, op, x, y, spans).0 == st,
        s_binary(f + 3, st, op, x, y, spans).1 is Err,
        s_binary(f + 3, st, op, x, y, spans).1->Err_0.kind == ErrorKind::Type,
{
    let e = partly_ordered(st.heap, op, x, y, spans.whole);
    assert(e is Err && e->Err_0.kind == ErrorKind::Type);
    lemma_half_refused(f, st, op, x, y, spans);
    lemma_compare_refused(f + 1, st, op, x, y, spans, st, e->Err_0);
}

/// `op eq` answers `==` from the left side, and from the right one where the left declares none.
pub proof fn law_equality_is_asked_of_either_side(
    f: nat,
    st: St,
    x: Value,
    y: Value,
    spans: Spans,
    from_left: bool,
    method: Value,
    st1: St,
    answer: Value,
    b: bool,
)
    requires
        slot_of(st.heap, x, Op::Eq) is Some == from_left,
        slot_of(st.heap, if from_left { x } else { y }, Op::Eq) == Some(method),
        s_call_op(
            f,
            st,
            method,
            if from_left { x } else { y },
            seq![if from_left { y } else { x }],
        ) == (st1, Ok::<Value, ErrV>(answer)),
        base(st1.heap, answer) == Value::Bool(b),
    ensures
        s_binary(f + 3, st, BinaryOp::Eq, x, y, spans) == (st1, Ok::<Value, ErrV>(Value::Bool(b))),
        s_binary(f + 3, st, BinaryOp::Ne, x, y, spans) == (st1, Ok::<Value, ErrV>(Value::Bool(!b))),
{
    let receiver = if from_left { x } else { y };
    let other = if from_left { y } else { x };
    assert(s_equals(f + 2, st, x, y) == s_bool_op(f + 1, st, Op::Eq, method, receiver, seq![other]));
}

/// `op contains` of the right side answers `in`, and is handed the left side.
pub proof fn law_the_right_side_answers_in(
    f: nat,
    st: St,
    x: Value,
    y: Value,
    spans: Spans,
    method: Value,
    chosen: Value,
    st1: St,
    answer: Value,
    b: bool,
)
    requires
        slot_of(st.heap, y, Op::Contains) == Some(method),
        fitting(st.heap, method, seq![x], true) == Some(chosen),
        s_call_op(f, st, chosen, y, seq![x]) == (st1, Ok::<Value, ErrV>(answer)),
        base(st1.heap, answer) == Value::Bool(b),
    ensures
        s_binary(f + 3, st, BinaryOp::In, x, y, spans) == (st1, Ok::<Value, ErrV>(Value::Bool(b))),
{
    assert(s_binary(f + 3, st, BinaryOp::In, x, y, spans) == s_contains(f + 2, st, y, x, spans.whole));
    assert(s_bool_op(f + 1, st, Op::Contains, chosen, y, seq![x]) == (st1, Ok::<bool, ErrV>(b)));
}

/// `op get` answers a read through a subscript, and is handed the index.
pub proof fn law_a_class_answers_a_subscript(
    f: nat,
    st: St,
    x: Value,
    index: Value,
    span: Span,
    method: Value,
    chosen: Value,
    st1: St,
    answer: Value,
)
    requires
        slot_of(st.heap, x, Op::Get) == Some(method),
        fitting(st.heap, method, seq![index], true) == Some(chosen),
        s_call_op(f, st, chosen, x, seq![index]) == (st1, Ok::<Value, ErrV>(answer)),
    ensures
        s_index_get(f + 1, st, x, index, span) == (st1, Ok::<Value, ErrV>(answer)),
{
}

/// `op set` answers a write through a subscript, and is handed the index and the value, in that
/// order. The write is worth the value, whatever was answered.
pub proof fn law_a_class_answers_a_write(
    f: nat,
    st: St,
    x: Value,
    index: Value,
    v: Value,
    at: PutSpans,
    method: Value,
    chosen: Value,
    st1: St,
    answer: Value,
)
    requires
        slot_of(st.heap, x, Op::Put) == Some(method),
        !crate::interp::ops::is_frozen(st.heap, x),
        fitting(st.heap, method, seq![index, v], true) == Some(chosen),
        s_call_op(f, st, chosen, x, seq![index, v]) == (st1, Ok::<Value, ErrV>(answer)),
    ensures
        s_index_put(f + 1, st, x, index, v, at) == (st1, Ok::<Value, ErrV>(v)),
{
}

// -- containers -------------------------------------------------------------------------------------

proof fn lemma_items_equal(f: nat, g: nat, st: St, a: Value, b: Value, same: Seq<bool>, i: int)
    requires
        0 <= i <= same.len(),
        items_of(st.heap, a).len() == same.len(),
        items_of(st.heap, b).len() == same.len(),
        forall|k: int, n: nat|
            0 <= k < same.len() && n >= f ==> #[trigger] s_equals(
                n,
                st,
                items_of(st.heap, a)[k],
                items_of(st.heap, b)[k],
            ) == (st, Ok::<bool, ErrV>(same[k])),
        g >= f + same.len() - i + 1,
    ensures
        s_items_equal(g, st, a, b, i) == (
            st,
            Ok::<bool, ErrV>(forall|k: int| i <= k < same.len() ==> #[trigger] same[k]),
        ),
    decreases same.len() - i,
{
    let xs = items_of(st.heap, a);
    let ys = items_of(st.heap, b);
    if i < same.len() {
        assert(at_index(xs, i) == Some(xs[i]));
        assert(at_index(ys, i) == Some(ys[i]));
        assert(s_equals((g - 1) as nat, st, xs[i], ys[i]) == (st, Ok::<bool, ErrV>(same[i])));
        if same[i] {
            lemma_items_equal(f, (g - 1) as nat, st, a, b, same, i + 1);
        }
    } else {
        assert(at_index(xs, i) is None);
    }
}

/// Two lists, or two tuples, are equal just where they are as long as each other and each item
/// equals the one at the same place.
pub proof fn law_lists_are_equal_item_by_item(f: nat, g: nat, st: St, a: Value, b: Value, same: Seq<bool>)
    requires
        (base(st.heap, a) is List && base(st.heap, b) is List) || (base(st.heap, a) is Tuple && base(
            st.heap,
            b,
        ) is Tuple),
        base(st.heap, a) != base(st.heap, b),
        slot_of(st.heap, a, Op::Eq) is None,
        slot_of(st.heap, b, Op::Eq) is None,
        items_of(st.heap, base(st.heap, a)).len() == same.len(),
        items_of(st.heap, base(st.heap, b)).len() == same.len() ==> forall|k: int, n: nat|
            0 <= k < same.len() && n >= f ==> #[trigger] s_equals(
                n,
                st,
                items_of(st.heap, base(st.heap, a))[k],
                items_of(st.heap, base(st.heap, b))[k],
            ) == (st, Ok::<bool, ErrV>(same[k])),
        g >= f + same.len() + 4,
    ensures
        s_equals(g, st, a, b) == (
            st,
            Ok::<bool, ErrV>(
                items_of(st.heap, base(st.heap, b)).len() == same.len() && (forall|k: int|
                    0 <= k < same.len() ==> #[trigger] same[k]),
            ),
        ),
{
    let x = base(st.heap, a);
    let y = base(st.heap, b);
    assert(s_equals(g, st, a, b) == s_base_equals((g - 1) as nat, st, x, y));
    if items_of(st.heap, y).len() == same.len() {
        lemma_items_equal(f, (g - 2) as nat, st, x, y, same, 0);
    }
}

proof fn lemma_entries_equal(f: nat, g: nat, st: St, a: ObjId, b: ObjId, keys: Seq<Value>, same: Seq<bool>, i: int)
    requires
        0 <= i <= keys.len(),
        keys.len() == same.len(),
        forall|k: int, n: nat|
            0 <= k < same.len() && n >= f && dict_get(st.heap, st.heap.dict(a), keys[k]) is Some && dict_get(
                st.heap,
                st.heap.dict(b),
                keys[k],
            ) is Some ==> #[trigger] s_equals(
                n,
                st,
                dict_get(st.heap, st.heap.dict(a), keys[k])->0,
                dict_get(st.heap, st.heap.dict(b), keys[k])->0,
            ) == (st, Ok::<bool, ErrV>(same[k])),
        g >= f + same.len() - i + 1,
    ensures
        s_entries_equal(g, st, a, b, keys, i) == (
            st,
            Ok::<bool, ErrV>(
                forall|k: int|
                    i <= k < keys.len() ==> dict_get(st.heap, st.heap.dict(a), #[trigger] keys[k]) is Some && dict_get(
                        st.heap,
                        st.heap.dict(b),
                        keys[k],
                    ) is Some && same[k],
            ),
        ),
    decreases keys.len() - i,
{
    if i < keys.len() {
        assert(at_index(keys, i) == Some(keys[i]));
        let x = dict_get(st.heap, st.heap.dict(a), keys[i]);
        let y = dict_get(st.heap, st.heap.dict(b), keys[i]);
        if x is Some && y is Some {
            assert(s_equals((g - 1) as nat, st, x->0, y->0) == (st, Ok::<bool, ErrV>(same[i])));
            if same[i] {
                lemma_entries_equal(f, (g - 1) as nat, st, a, b, keys, same, i + 1);
            }
        }
    } else {
        assert(at_index(keys, i) is None);
    }
}

/// Two dicts are equal just where they have as many entries as each other and under each key of
/// one the other holds an equal value.
pub proof fn law_dicts_are_equal_key_by_key(f: nat, g: nat, st: St, a: Value, b: Value, x: ObjId, y: ObjId, same: Seq<bool>)
    requires
        base(st.heap, a) == Value::Dict(x),
        base(st.heap, b) == Value::Dict(y),
        x != y,
        slot_of(st.heap, a, Op::Eq) is None,
        slot_of(st.heap, b, Op::Eq) is None,
        st.heap.dict(x).len() == same.len(),
        crate::interp::dict::keys_stand_once(st.heap, st.heap.dict(x)),
        forall|k: int, n: nat|
            0 <= k < same.len() && n >= f && dict_get(st.heap, st.heap.dict(y), st.heap.dict(x)[k].key) is Some
                ==> #[trigger] s_equals(
                n,
                st,
                st.heap.dict(x)[k].value,
                dict_get(st.heap, st.heap.dict(y), st.heap.dict(x)[k].key)->0,
            ) == (st, Ok::<bool, ErrV>(same[k])),
        g >= f + same.len() + 4,
    ensures
        s_equals(g, st, a, b) == (
            st,
            Ok::<bool, ErrV>(
                st.heap.dict(y).len() == same.len() && (forall|k: int|
                    0 <= k < same.len() ==> dict_get(
                        st.heap,
                        st.heap.dict(y),
                        (#[trigger] st.heap.dict(x)[k]).key,
                    ) is Some && same[k]),
            ),
        ),
{
    let s = st.heap.dict(x);
    let t = st.heap.dict(y);
    let keys = keys_of(s);
    assert(s_equals(g, st, a, b) == s_base_equals((g - 1) as nat, st, Value::Dict(x), Value::Dict(y)));
    if t.len() == s.len() {
        assert forall|k: int| 0 <= k < keys.len() implies #[trigger] keys[k] == s[k].key && dict_get(
            st.heap,
            s,
            keys[k],
        ) == Some(s[k].value) by {
            crate::interp::equality::lemma_found(st.heap, s, keys[k], k);
        }
        lemma_entries_equal(f, (g - 2) as nat, st, x, y, keys, same, 0);
        let found = forall|k: int|
            0 <= k < keys.len() ==> dict_get(st.heap, s, #[trigger] keys[k]) is Some && dict_get(
                st.heap,
                t,
                keys[k],
            ) is Some && same[k];
        let wanted = forall|k: int|
            0 <= k < same.len() ==> dict_get(st.heap, t, (#[trigger] s[k]).key) is Some && same[k];
        assert(found ==> wanted) by {
            if found {
                assert forall|k: int| 0 <= k < same.len() implies dict_get(st.heap, t, (#[trigger] s[k]).key) is Some
                    && same[k] by {
                    assert(keys[k] == s[k].key);
                }
            }
        }
        assert(wanted ==> found) by {
            if wanted {
                assert forall|k: int| 0 <= k < keys.len() implies dict_get(st.heap, s, #[trigger] keys[k]) is Some
                    && dict_get(st.heap, t, keys[k]) is Some && same[k] by {
                    assert(keys[k] == s[k].key);
                }
            }
        }
    }
}

} // verus!
