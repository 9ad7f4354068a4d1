//! Arithmetic on numbers: what each operator answers, and where it refuses.

use crate::error::{err, err_help, ErrV, ErrorKind, QuinceError};
use crate::float::{
    difference, divided, equal, floor, floored, from_int, int_bits, inverse_power, is_equal,
    is_less, less, minus, modulo, plus, product, quotient, remainder, sum, times, to_inverse_power,
};
use crate::runtime::value::Value;
use crate::syntax::ast::BinaryOp;
use crate::syntax::token::Span;
use crate::text::{cat2, decimal, decimal_of};
use vstd::arithmetic::power::pow;
use vstd::prelude::*;

verus! {

pub open spec fn overflow(span: Span) -> ErrV {
    err_help(
        ErrorKind::Overflow,
        "integer overflow"@,
        span,
        "an int holds 64 bits — convert with `float(x)` for a wider range, at the cost of exactness"@,
    )
}

pub fn overflow_error(span: Span) -> (r: QuinceError)
    ensures
        r@ == overflow(span),
{
    QuinceError::new(ErrorKind::Overflow, "integer overflow".to_owned(), span).with_help(
        "an int holds 64 bits — convert with `float(x)` for a wider range, at the cost of exactness".to_owned(),
    )
}

pub open spec fn division_by_zero(span: Span) -> ErrV {
    err_help(
        ErrorKind::ZeroDivision,
        "division by zero"@,
        span,
        "guard the divisor, or use `??` on a lookup that may be absent"@,
    )
}

pub fn zero_error(span: Span) -> (r: QuinceError)
    ensures
        r@ == division_by_zero(span),
{
    QuinceError::new(ErrorKind::ZeroDivision, "division by zero".to_owned(), span).with_help(
        "guard the divisor, or use `??` on a lookup that may be absent".to_owned(),
    )
}

pub open spec fn bad_shift(by: i64, span: Span) -> ErrV {
    err_help(
        ErrorKind::Value,
        "cannot shift by "@ + decimal(by as int),
        span,
        "a shift count is between 0 and 63 — an int has 64 bits"@,
    )
}

/// The report for a shift count a machine word cannot answer for.
pub fn shift_count(by: i64, span: Span) -> (r: QuinceError)
    ensures
        r@ == bad_shift(by, span),
{
    let number = decimal_of(by);
    QuinceError::new(ErrorKind::Value, cat2("cannot shift by ", number.as_str()), span).with_help(
        "a shift count is between 0 and 63 — an int has 64 bits".to_owned(),
    )
}

pub open spec fn no_power(span: Span) -> ErrV {
    err(ErrorKind::Value, "a float has no power here"@, span)
}

/// An integer, where 64 bits hold it.
pub open spec fn fitting_int(n: int, span: Span) -> Result<Value, ErrV> {
    if i64::MIN <= n <= i64::MAX {
        Ok(Value::Int(n as i64))
    } else {
        Err(overflow(span))
    }
}

/// A quotient rounded towards negative infinity.
pub open spec fn floor_quotient(a: int, b: int) -> int
    recommends
        b != 0,
{
    if b > 0 {
        a / b
    } else {
        (-a) / (-b)
    }
}

/// What is left of `a` once as many whole `b` as fit were taken, with the sign of `a`.
pub open spec fn truncated_remainder(a: int, b: int) -> int
    recommends
        b != 0,
{
    let m = if b < 0 {
        -b
    } else {
        b
    };
    if a < 0 {
        -((-a) % m)
    } else {
        a % m
    }
}

/// What an operator answers for two ints.
pub open spec fn s_int_op(op: BinaryOp, a: i64, b: i64, span: Span) -> Result<Value, ErrV> {
    match op {
        BinaryOp::BitAnd => Ok(Value::Int(a & b)),
        BinaryOp::BitOr => Ok(Value::Int(a | b)),
        BinaryOp::BitXor => Ok(Value::Int(a ^ b)),
        BinaryOp::Shl => if 0 <= b < 64 {
            Ok(Value::Int(a << b))
        } else {
            Err(bad_shift(b, span))
        },
        BinaryOp::Shr => if 0 <= b < 64 {
            Ok(Value::Int(a >> b))
        } else {
            Err(bad_shift(b, span))
        },
        BinaryOp::Add => fitting_int(a + b, span),
        BinaryOp::Sub => fitting_int(a - b, span),
        BinaryOp::Mul => fitting_int(a * b, span),
        BinaryOp::Pow => if b < 0 {
            Ok(Value::Float(inverse_power(a as int, (-b) as nat)))
        } else {
            fitting_int(pow(a as int, b as nat), span)
        },
        BinaryOp::Div => if b == 0 {
            Err(division_by_zero(span))
        } else {
            Ok(Value::Float(quotient(int_bits(a as int), int_bits(b as int))))
        },
        BinaryOp::FloorDiv => if b == 0 {
            Err(division_by_zero(span))
        } else {
            fitting_int(floor_quotient(a as int, b as int), span)
        },
        BinaryOp::Rem => if b == 0 {
            Err(division_by_zero(span))
        } else if a == i64::MIN && b == -1 {
            Err(overflow(span))
        } else {
            Ok(Value::Int(truncated_remainder(a as int, b as int) as i64))
        },
        BinaryOp::Lt => Ok(Value::Bool(a < b)),
        BinaryOp::Le => Ok(Value::Bool(a <= b)),
        BinaryOp::Gt => Ok(Value::Bool(a > b)),
        BinaryOp::Ge => Ok(Value::Bool(a >= b)),
        BinaryOp::Eq => Ok(Value::Bool(a == b)),
        BinaryOp::Ne => Ok(Value::Bool(a != b)),
        BinaryOp::In => Ok(Value::Bool(false)),
    }
}

/// A quotient rounded towards negative infinity, where there is one and 64 bits hold it.
pub fn floor_div(a: i64, b: i64) -> (r: Option<i64>)
    ensures
        match r {
            Some(n) => b != 0 && n == floor_quotient(a as int, b as int),
            None => b == 0 || !(i64::MIN <= floor_quotient(a as int, b as int) <= i64::MAX),
        },
        r is None <==> b == 0 || (a == i64::MIN && b == -1),
{
    if b == 0 {
        return None;
    }
    let (p, q): (i128, i128) = if b > 0 {
        (a as i128, b as i128)
    } else {
        (-(a as i128), -(b as i128))
    };
    // Rounding towards zero agrees with rounding down except on what is left of a
    // negative number.
    let n: i128 = if p >= 0 {
        p / q
    } else {
        let up: i128 = (-p - 1) / q;
        -up - 1
    };
    proof {
        lemma_floor(p as int, q as int, n as int);
        if q >= 2 && p >= 0 {
            assert(p / q <= p / 2) by (nonlinear_arith)
                requires
                    q >= 2,
                    p >= 0,
            ;
        }
        if q == 1 {
            vstd::arithmetic::div_mod::lemma_div_basics(p as int);
        }
    }
    if n >= i64::MIN as i128 && n <= i64::MAX as i128 {
        Some(n as i64)
    } else {
        None
    }
}

proof fn lemma_floor(p: int, q: int, n: int)
    requires
        q > 0,
        n == if p >= 0 {
            p / q
        } else {
            -((-p - 1) / q) - 1
        },
    ensures
        n == p / q,
        -0x8000_0000_0000_0000 <= p <= 0x8000_0000_0000_0000 ==> -0x8000_0000_0000_0000 <= n
            <= 0x8000_0000_0000_0000,
{
    if p < 0 {
        let m = -p - 1;
        let d = m / q;
        let e = m % q;
        vstd::arithmetic::div_mod::lemma_fundamental_div_mod(m, q);
        assert(p == q * (-d - 1) + (q - 1 - e)) by (nonlinear_arith)
            requires
                m == q * d + e,
                p == -m - 1,
        ;
        vstd::arithmetic::div_mod::lemma_fundamental_div_mod_converse(p, q, -d - 1, q - 1 - e);
    }
    vstd::arithmetic::div_mod::lemma_div_is_ordered_by_denominator(
        if p >= 0 {
            p
        } else {
            -p - 1
        },
        1,
        q,
    );
}

fn power(a: i64, b: i64) -> (r: Option<i64>)
    requires
        b >= 0,
    ensures
        match r {
            Some(n) => n == pow(a as int, b as nat),
            None => !(i64::MIN <= pow(a as int, b as nat) <= i64::MAX),
        },
    decreases b,
{
    if b == 0 {
        proof {
            vstd::arithmetic::power::lemma_pow0(a as int);
        }
        return Some(1);
    }
    proof {
        reveal(pow);
    }
    // Ones and zeros never grow, so a long run of factors needs no multiplying out.
    if a == 0 {
        proof {
            vstd::arithmetic::power::lemma0_pow(b as nat);
        }
        return Some(0);
    }
    if a == 1 {
        proof {
            vstd::arithmetic::power::lemma1_pow(b as nat);
        }
        return Some(1);
    }
    if a == -1 {
        proof {
            lemma_minus_one(b as nat);
        }
        return Some(
            if b % 2 == 0 {
                1
            } else {
                -1
            },
        );
    }
    match power(a, b - 1) {
        Some(n) => {
            assert(n * a == a * n) by (nonlinear_arith);
            assert(pow(a as int, b as nat) == a * pow(a as int, (b - 1) as nat));
            n.checked_mul(a)
        },
        None => {
            proof {
                let p = pow(a as int, (b - 1) as nat);
                assert(!(i64::MIN <= a * p <= i64::MAX)) by (nonlinear_arith)
                    requires
                        p < i64::MIN || p > i64::MAX,
                        a >= 2 || a <= -2,
                ;
            }
            None
        },
    }
}

proof fn lemma_minus_one(n: nat)
    ensures
        pow(-1, n) == if n % 2 == 0 {
            1int
        } else {
            -1int
        },
    decreases n,
{
    reveal(pow);
    if n > 0 {
        lemma_minus_one((n - 1) as nat);
    }
}

fn remainder_of(a: i64, b: i64) -> (r: i64)
    requires
        b != 0,
        !(a == i64::MIN && b == -1),
    ensures
        r == truncated_remainder(a as int, b as int),
{
    let m: i128 = if b < 0 {
        -(b as i128)
    } else {
        b as i128
    };
    let p: i128 = if a < 0 {
        -(a as i128)
    } else {
        a as i128
    };
    let left: i128 = p % m;
    if a < 0 {
        (-left) as i64
    } else {
        left as i64
    }
}

fn or_overflow(n: Option<i64>, span: Span) -> (r: Result<Value, QuinceError>)
    ensures
        match n {
            Some(n) => crate::error::res(r) == Ok::<Value, ErrV>(Value::Int(n)),
            None => crate::error::res(r) == Err::<Value, ErrV>(overflow(span)),
        },
{
    match n {
        Some(n) => Ok(Value::Int(n)),
        None => Err(overflow_error(span)),
    }
}

/// [`s_int_op`], computed.
pub fn int_op(op: BinaryOp, a: i64, b: i64, span: Span) -> (r: Result<Value, QuinceError>)
    ensures
        crate::error::res(r) == s_int_op(op, a, b, span),
{
    match op {
        BinaryOp::BitAnd => Ok(Value::Int(a & b)),
        BinaryOp::BitOr => Ok(Value::Int(a | b)),
        BinaryOp::BitXor => Ok(Value::Int(a ^ b)),
        BinaryOp::Shl => if 0 <= b && b < 64 {
            Ok(Value::Int(a << b))
        } else {
            Err(shift_count(b, span))
        },
        BinaryOp::Shr => if 0 <= b && b < 64 {
            Ok(Value::Int(a >> b))
        } else {
            Err(shift_count(b, span))
        },
        BinaryOp::Add => or_overflow(a.checked_add(b), span),
        BinaryOp::Sub => or_overflow(a.checked_sub(b), span),
        BinaryOp::Mul => or_overflow(a.checked_mul(b), span),
        BinaryOp::Pow => if b < 0 {
            let n: u64 = if b == i64::MIN {
                0x8000_0000_0000_0000
            } else {
                (-b) as u64
            };
            Ok(Value::Float(to_inverse_power(a, n)))
        } else {
            or_overflow(power(a, b), span)
        },
        BinaryOp::Div => if b == 0 {
            Err(zero_error(span))
        } else {
            Ok(Value::Float(divided(from_int(a), from_int(b))))
        },
        BinaryOp::FloorDiv => if b == 0 {
            Err(zero_error(span))
        } else {
            or_overflow(floor_div(a, b), span)
        },
        BinaryOp::Rem => if b == 0 {
            Err(zero_error(span))
        } else if a == i64::MIN && b == -1 {
            Err(overflow_error(span))
        } else {
            Ok(Value::Int(remainder_of(a, b)))
        },
        BinaryOp::Lt => Ok(Value::Bool(a < b)),
        BinaryOp::Le => Ok(Value::Bool(a <= b)),
        BinaryOp::Gt => Ok(Value::Bool(a > b)),
        BinaryOp::Ge => Ok(Value::Bool(a >= b)),
        BinaryOp::Eq => Ok(Value::Bool(a == b)),
        BinaryOp::Ne => Ok(Value::Bool(a != b)),
        BinaryOp::In => Ok(Value::Bool(false)),
    }
}

/// What an operator answers for two floats.
pub open spec fn s_float_op(op: BinaryOp, a: u64, b: u64, span: Span) -> Result<Value, ErrV> {
    match op {
        BinaryOp::BitAnd | BinaryOp::BitOr | BinaryOp::BitXor | BinaryOp::Shl | BinaryOp::Shr => Err(
            err_help(
                ErrorKind::Type,
                "a float has no bits to operate on"@,
                span,
                "convert it with `int(x)` first"@,
            ),
        ),
        BinaryOp::Add => Ok(Value::Float(sum(a, b))),
        BinaryOp::Sub => Ok(Value::Float(difference(a, b))),
        BinaryOp::Mul => Ok(Value::Float(product(a, b))),
        BinaryOp::Pow => Err(no_power(span)),
        BinaryOp::Div => if equal(b, 0) {
            Err(division_by_zero(span))
        } else {
            Ok(Value::Float(quotient(a, b)))
        },
        BinaryOp::FloorDiv => if equal(b, 0) {
            Err(division_by_zero(span))
        } else {
            Ok(Value::Float(floored(quotient(a, b))))
        },
        BinaryOp::Rem => if equal(b, 0) {
            Err(division_by_zero(span))
        } else {
            Ok(Value::Float(remainder(a, b)))
        },
        BinaryOp::Lt => Ok(Value::Bool(less(a, b))),
        BinaryOp::Le => Ok(Value::Bool(less(a, b) || equal(a, b))),
        BinaryOp::Gt => Ok(Value::Bool(less(b, a))),
        BinaryOp::Ge => Ok(Value::Bool(less(b, a) || equal(a, b))),
        BinaryOp::Eq => Ok(Value::Bool(equal(a, b))),
        BinaryOp::Ne => Ok(Value::Bool(!equal(a, b))),
        BinaryOp::In => Ok(Value::Bool(false)),
    }
}

/// [`s_float_op`], computed.
pub fn float_op(op: BinaryOp, a: u64, b: u64, span: Span) -> (r: Result<Value, QuinceError>)
    ensures
        crate::error::res(r) == s_float_op(op, a, b, span),
{
    match op {
        BinaryOp::Add => Ok(Value::Float(plus(a, b))),
        BinaryOp::Sub => Ok(Value::Float(minus(a, b))),
        BinaryOp::Mul => Ok(Value::Float(times(a, b))),
        BinaryOp::Pow => Err(
            QuinceError::new(ErrorKind::Value, "a float has no power here".to_owned(), span),
        ),
        BinaryOp::Div => if is_equal(b, 0) {
            Err(zero_error(span))
        } else {
            Ok(Value::Float(divided(a, b)))
        },
        BinaryOp::FloorDiv => if is_equal(b, 0) {
            Err(zero_error(span))
        } else {
            Ok(Value::Float(floor(divided(a, b))))
        },
        BinaryOp::Rem => if is_equal(b, 0) {
            Err(zero_error(span))
        } else {
            Ok(Value::Float(modulo(a, b)))
        },
        BinaryOp::Lt => Ok(Value::Bool(is_less(a, b))),
        BinaryOp::Le => Ok(Value::Bool(is_less(a, b) || is_equal(a, b))),
        BinaryOp::Gt => Ok(Value::Bool(is_less(b, a))),
        BinaryOp::Ge => Ok(Value::Bool(is_less(b, a) || is_equal(a, b))),
        BinaryOp::Eq => Ok(Value::Bool(is_equal(a, b))),
        BinaryOp::Ne => Ok(Value::Bool(!is_equal(a, b))),
        BinaryOp::In => Ok(Value::Bool(false)),
        _ => Err(
            QuinceError::new(
                ErrorKind::Type,
                "a float has no bits to operate on".to_owned(),
                span,
            ).with_help("convert it with `int(x)` first".to_owned()),
        ),
    }
}

/// Floor division and its remainder make up the dividend.
pub proof fn law_floor_division_leaves_a_remainder(a: int, b: int)
    requires
        b != 0,
    ensures
        b > 0 ==> 0 <= a - floor_quotient(a, b) * b < b,
        b < 0 ==> b < a - floor_quotient(a, b) * b <= 0,
{
    if b > 0 {
        vstd::arithmetic::div_mod::lemma_fundamental_div_mod(a, b);
        let q = a / b;
        assert(b * q == q * b) by (nonlinear_arith);
    } else {
        vstd::arithmetic::div_mod::lemma_fundamental_div_mod(-a, -b);
        let q = (-a) / (-b);
        assert((-b) * q == -(q * b)) by (nonlinear_arith);
    }
}

/// Integer arithmetic never wraps: what it answers with is the sum itself.
pub proof fn law_integer_addition_is_exact_or_refused(a: i64, b: i64, span: Span)
    ensures
        match s_int_op(BinaryOp::Add, a, b, span) {
            Ok(Value::Int(n)) => n == a + b,
            Ok(_) => false,
            Err(e) => e.kind == ErrorKind::Overflow && !(i64::MIN <= a + b <= i64::MAX),
        },
{
}

/// A floor quotient fits in 64 bits but for one.
pub(crate) proof fn lemma_quotient_fits(a: i64, b: i64)
    requires
        b != 0,
        !(a == i64::MIN && b == -1),
    ensures
        i64::MIN <= floor_quotient(a as int, b as int) <= i64::MAX,
{
    let q = floor_quotient(a as int, b as int);
    law_floor_division_leaves_a_remainder(a as int, b as int);
    if b > 0 {
        assert(q <= i64::MAX && q >= i64::MIN) by (nonlinear_arith)
            requires
                b > 0,
                0 <= a - q * b < b,
                i64::MIN <= a <= i64::MAX,
        ;
    } else {
        assert(q <= i64::MAX && q >= i64::MIN) by (nonlinear_arith)
            requires
                b < 0,
                b < a - q * b <= 0,
                i64::MIN <= a <= i64::MAX,
                !(a == i64::MIN && b == -1),
        ;
    }
}

} // verus!
