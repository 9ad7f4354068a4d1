//! What operators answer for floats.

use crate::error::{ErrV, ErrorKind};
use crate::float::{
    equal, floored, int_bits, is_infinite, is_nan, is_negative, mantissa, negated, power,
};
use crate::interp::arith::s_float_op;
use crate::interp::error::Spans;
use crate::interp::expressions::{lemma_plain_operator, plain};
use crate::interp::ops::s_binary;
use crate::interp::signs::{
    lemma_float_arithmetic, lemma_float_order, lemma_floor_division, lemma_infinite_factor,
    lemma_over_infinite, lemma_times_zero,
};
use crate::interp::state::{Out, St};
use crate::runtime::class::base;
use crate::runtime::heap::HeapV;
use crate::runtime::value::Value;
use crate::syntax::ast::BinaryOp;
use vstd::prelude::*;

verus! {

/// What an operator answers for two values.
#[verifier::opaque]
pub open spec fn on_values(f: nat, st: St, op: BinaryOp, x: Value, y: Value, spans: Spans) -> Out<Value> {
    s_binary(f + 3, st, op, x, y, spans)
}

/// What an operator answers for two floats.
pub open spec fn on_floats(f: nat, st: St, op: BinaryOp, a: u64, b: u64, spans: Spans) -> Result<Value, ErrV> {
    on_values(f, st, op, Value::Float(a), Value::Float(b), spans).1
}

/// Whether no class answers any operator for a float.
pub open spec fn plain_floats(h: HeapV) -> bool {
    forall|bits: u64| #[trigger] plain(h, Value::Float(bits))
}

proof fn lemma_on_floats(f: nat, st: St, op: BinaryOp, a: u64, b: u64, spans: Spans)
    requires
        plain_floats(st.heap),
        op != BinaryOp::Eq,
        op != BinaryOp::Ne,
        op != BinaryOp::In,
    ensures
        on_values(f, st, op, Value::Float(a), Value::Float(b), spans) == (st, s_float_op(op, a, b, spans.whole)),
{
    reveal(on_values);
    assert(plain(st.heap, Value::Float(a)) && plain(st.heap, Value::Float(b)));
    lemma_plain_operator(f, st, op, Value::Float(a), Value::Float(b), spans);
    assert(base(st.heap, Value::Float(a)) == Value::Float(a));
    assert(base(st.heap, Value::Float(b)) == Value::Float(b));
}

/// Of two floats that are numbers exactly one of less, equal and greater holds; `<=` is `<` or
/// equal, and `>=` is `<=` with the sides turned round. A negative float is less than one that is
/// not, unless both are zero, and taking the negatives turns the order round. With something
/// that is not a number no comparison holds.
pub proof fn law_floats_are_ordered(f: nat, st: St, a: u64, b: u64, spans: Spans)
    requires
        plain_floats(st.heap),
    ensures
        ({
            let lt = on_floats(f, st, BinaryOp::Lt, a, b, spans);
            let gt = on_floats(f, st, BinaryOp::Gt, a, b, spans);
            let le = on_floats(f, st, BinaryOp::Le, a, b, spans);
            let ge = on_floats(f, st, BinaryOp::Ge, a, b, spans);
            let yes = Ok::<Value, ErrV>(Value::Bool(true));
            let no = Ok::<Value, ErrV>(Value::Bool(false));
            &&& (lt == yes || lt == no) && (gt == yes || gt == no)
            &&& (le == yes || le == no) && (ge == yes || ge == no)
            &&& lt == on_floats(f, st, BinaryOp::Gt, b, a, spans)
            &&& le == on_floats(f, st, BinaryOp::Ge, b, a, spans)
            &&& lt == on_floats(f, st, BinaryOp::Lt, negated(b), negated(a), spans)
            &&& is_nan(a) || is_nan(b) ==> lt == no && gt == no && le == no && ge == no
            &&& !is_nan(a) && !is_nan(b) ==> {
                &&& lt == yes <==> ge == no
                &&& gt == yes <==> le == no
                &&& le == yes && ge == yes <==> equal(a, b)
                &&& is_negative(a) && !is_negative(b) && !equal(a, b) ==> lt == yes
            }
        }),
{
    lemma_on_floats(f, st, BinaryOp::Lt, a, b, spans);
    lemma_on_floats(f, st, BinaryOp::Gt, a, b, spans);
    lemma_on_floats(f, st, BinaryOp::Le, a, b, spans);
    lemma_on_floats(f, st, BinaryOp::Ge, a, b, spans);
    lemma_on_floats(f, st, BinaryOp::Gt, b, a, spans);
    lemma_on_floats(f, st, BinaryOp::Ge, b, a, spans);
    lemma_on_floats(f, st, BinaryOp::Lt, negated(b), negated(a), spans);
    lemma_float_order(a, b, spans.whole);
}

/// Subtracting is adding the negative; adding and multiplying do not mind the order; a finite
/// float and its negative add up to zero; what is infinite swallows what is finite.
pub proof fn law_float_arithmetic(f: nat, st: St, a: u64, b: u64, spans: Spans)
    requires
        plain_floats(st.heap),
    ensures
        on_floats(f, st, BinaryOp::Sub, a, b, spans) == on_floats(f, st, BinaryOp::Add, a, negated(b), spans),
        on_floats(f, st, BinaryOp::Add, a, b, spans) == on_floats(f, st, BinaryOp::Add, b, a, spans),
        on_floats(f, st, BinaryOp::Mul, a, b, spans) == on_floats(f, st, BinaryOp::Mul, b, a, spans),
        !is_nan(a) && !is_infinite(a) ==> on_floats(f, st, BinaryOp::Add, a, negated(a), spans) == Ok::<
            Value,
            ErrV,
        >(Value::Float(0)),
        !is_nan(a) && !is_infinite(a) ==> on_floats(f, st, BinaryOp::Sub, a, a, spans) == Ok::<
            Value,
            ErrV,
        >(Value::Float(0)),
        is_infinite(a) && !is_infinite(b) && !is_nan(b) ==> on_floats(f, st, BinaryOp::Add, a, b, spans)
            == Ok::<Value, ErrV>(Value::Float(a)),
{
    lemma_on_floats(f, st, BinaryOp::Sub, a, b, spans);
    lemma_on_floats(f, st, BinaryOp::Sub, a, a, spans);
    lemma_on_floats(f, st, BinaryOp::Add, a, negated(b), spans);
    lemma_on_floats(f, st, BinaryOp::Add, a, b, spans);
    lemma_on_floats(f, st, BinaryOp::Add, b, a, spans);
    lemma_on_floats(f, st, BinaryOp::Mul, a, b, spans);
    lemma_on_floats(f, st, BinaryOp::Mul, b, a, spans);
    lemma_on_floats(f, st, BinaryOp::Add, a, negated(a), spans);
    lemma_float_arithmetic(a, b, spans.whole);
}

/// No float is divided by zero: `/`, `//` and `%` are all refused there, and nowhere else.
pub proof fn law_no_float_is_divided_by_zero(f: nat, st: St, op: BinaryOp, a: u64, b: u64, spans: Spans)
    requires
        plain_floats(st.heap),
        op == BinaryOp::Div || op == BinaryOp::FloorDiv || op == BinaryOp::Rem,
    ensures
        on_floats(f, st, op, a, b, spans) is Err <==> equal(b, 0),
        on_floats(f, st, op, a, b, spans) is Err ==> on_floats(f, st, op, a, b, spans)->Err_0.kind
            == ErrorKind::ZeroDivision,
        on_floats(f, st, op, a, b, spans) is Ok ==> on_floats(f, st, op, a, b, spans)->Ok_0 is Float,
{
    lemma_on_floats(f, st, op, a, b, spans);
}

/// Floats have no bits to combine: those operators are refused whatever the operands are.
pub proof fn law_floats_have_no_bits(f: nat, st: St, op: BinaryOp, a: u64, b: u64, spans: Spans)
    requires
        plain_floats(st.heap),
        op == BinaryOp::BitAnd || op == BinaryOp::BitOr || op == BinaryOp::BitXor || op == BinaryOp::Shl || op
            == BinaryOp::Shr,
    ensures
        on_floats(f, st, op, a, b, spans) is Err,
        on_floats(f, st, op, a, b, spans)->Err_0.kind == ErrorKind::Type,
{
    lemma_on_floats(f, st, op, a, b, spans);
}

/// An int beside a float stands for the float nearest to it, on either side and with every
/// operator.
pub proof fn law_an_int_beside_a_float_is_a_float(f: nat, st: St, op: BinaryOp, n: i64, b: u64, spans: Spans)
    requires
        plain_floats(st.heap),
        plain(st.heap, Value::Int(n)),
        op != BinaryOp::Eq,
        op != BinaryOp::Ne,
        op != BinaryOp::In,
    ensures
        on_values(f, st, op, Value::Int(n), Value::Float(b), spans) == on_values(
            f,
            st,
            op,
            Value::Float(int_bits(n as int)),
            Value::Float(b),
            spans,
        ),
        on_values(f, st, op, Value::Float(b), Value::Int(n), spans) == on_values(
            f,
            st,
            op,
            Value::Float(b),
            Value::Float(int_bits(n as int)),
            spans,
        ),
{
    let a = int_bits(n as int);
    lemma_on_floats(f, st, op, a, b, spans);
    lemma_on_floats(f, st, op, b, a, spans);
    reveal(on_values);
    assert(plain(st.heap, Value::Float(b)));
    lemma_plain_operator(f, st, op, Value::Int(n), Value::Float(b), spans);
    lemma_plain_operator(f, st, op, Value::Float(b), Value::Int(n), spans);
    assert(base(st.heap, Value::Float(b)) == Value::Float(b));
    assert(base(st.heap, Value::Int(n)) == Value::Int(n));
}

// -- floats multiplied and divided --------------------------------------------------------------------

/// An infinite float times one that is not zero is infinite, and negative just where one of the
/// two is.
pub proof fn law_an_infinite_factor_gives_an_infinite_product(f: nat, st: St, a: u64, b: u64, spans: Spans)
    requires
        plain_floats(st.heap),
        is_infinite(a),
        !is_nan(b) && mantissa(b) != 0,
    ensures
        ({
            let r = on_floats(f, st, BinaryOp::Mul, a, b, spans);
            &&& r is Ok && r->Ok_0 is Float
            &&& is_infinite(r->Ok_0->Float_0)
            &&& is_negative(r->Ok_0->Float_0) <==> is_negative(a) != is_negative(b)
        }),
{
    lemma_on_floats(f, st, BinaryOp::Mul, a, b, spans);
    lemma_infinite_factor(a, b, spans.whole);
}

/// A finite float times zero is zero.
pub proof fn law_nothing_times_a_float_is_nothing(f: nat, st: St, a: u64, spans: Spans)
    requires
        plain_floats(st.heap),
        !is_nan(a) && !is_infinite(a),
    ensures
        ({
            let r = on_floats(f, st, BinaryOp::Mul, a, 0, spans);
            &&& r is Ok && r->Ok_0 is Float
            &&& equal(r->Ok_0->Float_0, 0)
        }),
{
    lemma_on_floats(f, st, BinaryOp::Mul, a, 0, spans);
    lemma_times_zero(a, spans.whole);
}

/// A finite float over an infinite one is zero, an infinite one over a finite one is infinite,
/// and a finite one is its own remainder by an infinite one.
pub proof fn law_division_by_the_infinite(f: nat, st: St, a: u64, b: u64, spans: Spans)
    requires
        plain_floats(st.heap),
        !is_nan(a) && !is_infinite(a) && !equal(a, 0),
        is_infinite(b),
    ensures
        ({
            let small = on_floats(f, st, BinaryOp::Div, a, b, spans);
            let large = on_floats(f, st, BinaryOp::Div, b, a, spans);
            let rest = on_floats(f, st, BinaryOp::Rem, a, b, spans);
            &&& small is Ok && small->Ok_0 is Float && equal(small->Ok_0->Float_0, 0)
            &&& large is Ok && large->Ok_0 is Float && is_infinite(large->Ok_0->Float_0)
            &&& is_negative(large->Ok_0->Float_0) <==> is_negative(a) != is_negative(b)
            &&& rest == Ok::<Value, ErrV>(Value::Float(a))
        }),
{
    lemma_on_floats(f, st, BinaryOp::Div, a, b, spans);
    lemma_on_floats(f, st, BinaryOp::Div, b, a, spans);
    lemma_on_floats(f, st, BinaryOp::Rem, a, b, spans);
    lemma_over_infinite(a, b, spans.whole);
}

/// Dividing floats and rounding down is rounding down what dividing them gives; what is whole
/// already stays.
pub proof fn law_floor_division_rounds_the_quotient_down(f: nat, st: St, a: u64, b: u64, spans: Spans)
    requires
        plain_floats(st.heap),
        !equal(b, 0),
    ensures
        ({
            let q = on_floats(f, st, BinaryOp::Div, a, b, spans);
            let r = on_floats(f, st, BinaryOp::FloorDiv, a, b, spans);
            &&& q is Ok && q->Ok_0 is Float
            &&& r == Ok::<Value, ErrV>(Value::Float(floored(q->Ok_0->Float_0)))
            &&& power(q->Ok_0->Float_0) >= 0 ==> r == q
        }),
{
    lemma_on_floats(f, st, BinaryOp::Div, a, b, spans);
    lemma_on_floats(f, st, BinaryOp::FloorDiv, a, b, spans);
    lemma_floor_division(a, b, spans.whole);
}

} // verus!
