//! What the operators give for two floats, as numbers: their order, their signs, and what is
//! zero or infinite.

use crate::error::ErrV;
use crate::float::{
    biased, equal, floored, fraction, is_infinite, is_nan, is_negative, law_addition_commutes,
    law_multiplication_commutes, lemma_zero, less, mantissa, negated, power, quotient, rank,
    remainder, INFINITE, SIGN,
};
use crate::interp::arith::s_float_op;
use crate::runtime::value::Value;
use crate::syntax::ast::BinaryOp;
use crate::syntax::token::Span;
use vstd::prelude::*;

verus! {

/// A negative has the same parts, and the opposite sign and place.
proof fn lemma_negated(a: u64)
    ensures
        biased(negated(a)) == biased(a),
        fraction(negated(a)) == fraction(a),
        is_nan(negated(a)) == is_nan(a),
        is_infinite(negated(a)) == is_infinite(a),
        mantissa(negated(a)) == mantissa(a),
        power(negated(a)) == power(a),
        is_negative(negated(a)) != is_negative(a),
        rank(negated(a)) == -rank(a),
{
    let b = negated(a);
    assert(a < 0x8000_0000_0000_0000 ==> ((a + 0x8000_0000_0000_0000u64) as u64 / 0x10_0000_0000_0000)
        % 2048 == (a / 0x10_0000_0000_0000) % 2048 && (a + 0x8000_0000_0000_0000u64) as u64
        % 0x10_0000_0000_0000 == a % 0x10_0000_0000_0000) by (bit_vector);
    assert(a >= 0x8000_0000_0000_0000 ==> ((a - 0x8000_0000_0000_0000u64) as u64 / 0x10_0000_0000_0000)
        % 2048 == (a / 0x10_0000_0000_0000) % 2048 && (a - 0x8000_0000_0000_0000u64) as u64
        % 0x10_0000_0000_0000 == a % 0x10_0000_0000_0000) by (bit_vector);
}

proof fn lemma_infinite(a: u64)
    requires
        is_infinite(a),
    ensures
        mantissa(a) > 0,
        !is_nan(a),
        !equal(a, 0),
{
    lemma_both_zeros();
    if rank(a) == 0 {
        assert(a == 0 || a == SIGN);
    }
}

/// Both zeros equal zero, and are neither infinite nor anything but numbers.
proof fn lemma_both_zeros()
    ensures
        equal(0, 0),
        equal(SIGN, 0),
        !is_nan(0),
        !is_infinite(0),
        biased(0) == 0,
        fraction(0) == 0,
{
    assert(biased(0) == 0);
    assert(fraction(0) == 0);
    assert(biased(SIGN) == 0);
    assert(fraction(SIGN) == 0);
}

proof fn lemma_infinite_division(a: u64, b: u64)
    requires
        !is_nan(a) && !is_infinite(a) && !equal(a, 0),
        is_infinite(b),
    ensures
        equal(quotient(a, b), 0),
        is_infinite(quotient(b, a)),
        is_negative(quotient(b, a)) <==> is_negative(a) != is_negative(b),
        remainder(a, b) == a,
{
    lemma_infinite(b);
    lemma_both_zeros();
    lemma_infinities();
    assert(mantissa(b) > 0);
}

proof fn lemma_infinities()
    ensures
        is_infinite(INFINITE),
        is_infinite((INFINITE + SIGN) as u64),
{
    assert(biased(INFINITE) == 2047 && fraction(INFINITE) == 0);
    let least = (INFINITE + SIGN) as u64;
    assert(biased(least) == 2047 && fraction(least) == 0);
}


pub(crate) proof fn lemma_float_order(a: u64, b: u64, span: Span)
    ensures
        ({
            let lt = s_float_op(BinaryOp::Lt, a, b, span);
            let gt = s_float_op(BinaryOp::Gt, a, b, span);
            let le = s_float_op(BinaryOp::Le, a, b, span);
            let ge = s_float_op(BinaryOp::Ge, a, b, span);
            let yes = Ok::<Value, ErrV>(Value::Bool(true));
            let no = Ok::<Value, ErrV>(Value::Bool(false));
            &&& (lt == yes || lt == no) && (gt == yes || gt == no)
            &&& (le == yes || le == no) && (ge == yes || ge == no)
            &&& lt == s_float_op(BinaryOp::Gt, b, a, span)
            &&& le == s_float_op(BinaryOp::Ge, b, a, span)
            &&& lt == s_float_op(BinaryOp::Lt, negated(b), negated(a), span)
            &&& is_nan(a) || is_nan(b) ==> lt == no && gt == no && le == no && ge == no
            &&& !is_nan(a) && !is_nan(b) ==> {
                &&& lt == yes <==> ge == no
                &&& gt == yes <==> le == no
                &&& le == yes && ge == yes <==> equal(a, b)
                &&& is_negative(a) && !is_negative(b) && !equal(a, b) ==> lt == yes
            }
        }),
{
    lemma_negated(a);
    lemma_negated(b);
    assert(less(negated(b), negated(a)) == less(a, b));
}

pub(crate) proof fn lemma_float_arithmetic(a: u64, b: u64, span: Span)
    ensures
        s_float_op(BinaryOp::Sub, a, b, span) == s_float_op(BinaryOp::Add, a, negated(b), span),
        s_float_op(BinaryOp::Add, a, b, span) == s_float_op(BinaryOp::Add, b, a, span),
        s_float_op(BinaryOp::Mul, a, b, span) == s_float_op(BinaryOp::Mul, b, a, span),
        !is_nan(a) && !is_infinite(a) ==> s_float_op(BinaryOp::Add, a, negated(a), span) == Ok::<Value, ErrV>(
            Value::Float(0),
        ),
        !is_nan(a) && !is_infinite(a) ==> s_float_op(BinaryOp::Sub, a, a, span) == Ok::<Value, ErrV>(
            Value::Float(0),
        ),
        is_infinite(a) && !is_infinite(b) && !is_nan(b) ==> s_float_op(BinaryOp::Add, a, b, span) == Ok::<
            Value,
            ErrV,
        >(Value::Float(a)),
{
    law_addition_commutes(a, b);
    law_multiplication_commutes(a, b);
    lemma_negated(a);
}

pub(crate) proof fn lemma_infinite_factor(a: u64, b: u64, span: Span)
    requires
        is_infinite(a),
        !is_nan(b) && mantissa(b) != 0,
    ensures
        ({
            let r = s_float_op(BinaryOp::Mul, a, b, span);
            &&& r is Ok && r->Ok_0 is Float
            &&& is_infinite(r->Ok_0->Float_0)
            &&& is_negative(r->Ok_0->Float_0) <==> is_negative(a) != is_negative(b)
        }),
{
    lemma_infinite(a);
    lemma_infinities();
}

pub(crate) proof fn lemma_times_zero(a: u64, span: Span)
    requires
        !is_nan(a) && !is_infinite(a),
    ensures
        ({
            let r = s_float_op(BinaryOp::Mul, a, 0, span);
            &&& r is Ok && r->Ok_0 is Float
            &&& equal(r->Ok_0->Float_0, 0)
        }),
{
    lemma_both_zeros();
    assert(mantissa(0) == 0);
    assert(mantissa(a) * mantissa(0) == 0) by (nonlinear_arith)
        requires
            mantissa(0) == 0,
    ;
    lemma_zero(1, power(a) + power(0));
}

pub(crate) proof fn lemma_over_infinite(a: u64, b: u64, span: Span)
    requires
        !is_nan(a) && !is_infinite(a) && !equal(a, 0),
        is_infinite(b),
    ensures
        ({
            let small = s_float_op(BinaryOp::Div, a, b, span);
            let large = s_float_op(BinaryOp::Div, b, a, span);
            let rest = s_float_op(BinaryOp::Rem, a, b, span);
            &&& small is Ok && small->Ok_0 is Float && equal(small->Ok_0->Float_0, 0)
            &&& large is Ok && large->Ok_0 is Float && is_infinite(large->Ok_0->Float_0)
            &&& is_negative(large->Ok_0->Float_0) <==> is_negative(a) != is_negative(b)
            &&& rest == Ok::<Value, ErrV>(Value::Float(a))
        }),
{
    lemma_infinite(b);
    lemma_infinite_division(a, b);
}

pub(crate) proof fn lemma_floor_division(a: u64, b: u64, span: Span)
    requires
        !equal(b, 0),
    ensures
        ({
            let q = s_float_op(BinaryOp::Div, a, b, span);
            let r = s_float_op(BinaryOp::FloorDiv, a, b, span);
            &&& q is Ok && q->Ok_0 is Float
            &&& r == Ok::<Value, ErrV>(Value::Float(floored(q->Ok_0->Float_0)))
            &&& power(q->Ok_0->Float_0) >= 0 ==> r == q
        }),
{
}

} // verus!
