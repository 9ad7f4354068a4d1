//! Operators a class may answer for: which method is asked, and the reports for one that
//! cannot be.

use crate::error::{err_help, res, ErrV, ErrorKind, LabelV, QuinceError};
use crate::float::{equal, from_int, int_bits, is_equal};
use crate::interp::arith::{float_op, int_op, s_float_op, s_int_op};
use crate::interp::dispatch::{candidates, fitting, signatures, type_texts};
use crate::interp::error::{helped_type_error, make_type_error, type_error, Spans};
use crate::interp::state::{nowhere, s_list, s_text, Interp, Out, St};
use crate::runtime::class::{base, slot_of, type_text};
use crate::runtime::heap::{Heap, HeapV};
use crate::runtime::types::{an, with_article};
use crate::runtime::value::{ObjId, Value};
use crate::syntax::ast::{fn_decl_v, group_models, BinaryOp, Op};
use crate::syntax::token::Span;
use crate::text::{before, cat2, cat3, cat4, cat5, comes_before, join, joined, same};
use vstd::prelude::*;

verus! {

broadcast use group_models;

// -- where an op is declared ------------------------------------------------------------

pub open spec fn body_span(h: HeapV, id: ObjId) -> Span {
    match h.function(id) {
        Some(f) => f.decl.body.span,
        None => nowhere(),
    }
}

/// Where the body of an op's method stands; of a set, that of its first declaration.
pub open spec fn op_body(h: HeapV, method: Value) -> Span {
    match method {
        Value::Function(id) => body_span(h, id),
        Value::Overload(id) => if h.overload(id).len() > 0 {
            match h.overload(id)[0] {
                Value::Function(first) => body_span(h, first),
                _ => nowhere(),
            }
        } else {
            nowhere()
        },
        _ => nowhere(),
    }
}

/// The report for an op that answered with the wrong kind of value.
pub open spec fn op_returned(h: HeapV, op: Op, receiver: Value, expected: Seq<char>, got: Value) -> ErrV {
    err_help(
        ErrorKind::Type,
        "`op "@ + op.spelled() + "` must answer with "@ + expected + ", but "@ + type_text(
            h,
            receiver,
        ) + "'s returned "@ + type_text(h, got),
        match slot_of(h, receiver, op) {
            Some(method) => op_body(h, method),
            None => nowhere(),
        },
        "the language calls `op "@ + op.spelled() + "` itself and reads "@ + expected
            + " back, so a class chooses what it answers, not what it answers *with*"@,
    )
}

/// The report for operands that no declaration of an op takes.
pub open spec fn op_mismatch(
    h: HeapV,
    op: Op,
    method: Value,
    receiver: Value,
    args: Seq<Value>,
    span: Span,
) -> ErrV {
    err_help(
        ErrorKind::Type,
        "`op "@ + op.spelled() + "` on "@ + an(type_text(h, receiver)) + " does not take ("@
            + joined(type_texts(h, args), ", "@) + ")"@,
        span,
        "`"@ + type_text(h, receiver) + "` declares `op "@ + op.spelled() + "` for: "@ + joined(
            signatures(h, candidates(h, method), true),
            ", "@,
        ) + " — convert the operand, or declare one for these types beside the ones that are there"@,
    )
}

/// The declaration of an op that takes these operands.
pub open spec fn op_for(
    h: HeapV,
    op: Op,
    method: Value,
    receiver: Value,
    args: Seq<Value>,
    span: Span,
) -> Result<Value, ErrV> {
    match fitting(h, method, args, true) {
        Some(chosen) => Ok(chosen),
        None => Err(op_mismatch(h, op, method, receiver, args, span)),
    }
}

/// Which operand answers for a binary operator, and with what.
#[derive(Clone, Copy, PartialEq, Eq, Structural)]
pub struct Asked {
    pub method: Value,
    pub receiver: Value,
    pub other: Value,
    pub reflected: bool,
}

/// The left operand is asked first, and the right one only where the op reads the same
/// from either side.
pub open spec fn asked(h: HeapV, op: Op, lhs: Value, rhs: Value) -> Option<Asked> {
    match slot_of(h, lhs, op) {
        Some(method) => Some(Asked { method, receiver: lhs, other: rhs, reflected: false }),
        None => match slot_of(h, rhs, op) {
            Some(method) => if op.is_reflected() {
                Some(Asked { method, receiver: rhs, other: lhs, reflected: true })
            } else {
                None
            },
            None => None,
        },
    }
}

/// The declaration of a binary operator's op that takes the other operand.
pub open spec fn binary_op_for(
    h: HeapV,
    op: BinaryOp,
    slot: Op,
    found: Asked,
    lhs: Value,
    rhs: Value,
    spans: Spans,
) -> Result<Value, ErrV> {
    match fitting(h, found.method, seq![found.other], true) {
        Some(chosen) => Ok(chosen),
        None => Err(
            ErrV {
                help: Some(
                    "`"@ + type_text(h, found.receiver) + "` declares `op "@ + slot.spelled()
                        + "` for: "@ + joined(
                        signatures(h, candidates(h, found.method), true),
                        ", "@,
                    )
                        + " — convert the operand, or declare one for these types beside the ones that are there"@,
                ),
                ..type_error(h, op, lhs, rhs, spans)
            },
        ),
    }
}

/// The op a binary operator may be answered by.
pub open spec fn slot_for(op: BinaryOp) -> Option<Op> {
    match op {
        BinaryOp::Add => Some(Op::Add),
        BinaryOp::Sub => Some(Op::Sub),
        BinaryOp::Mul => Some(Op::Mul),
        BinaryOp::Div => Some(Op::Div),
        BinaryOp::FloorDiv => Some(Op::FloorDiv),
        BinaryOp::Rem => Some(Op::Rem),
        BinaryOp::BitAnd => Some(Op::BitAnd),
        BinaryOp::BitOr => Some(Op::BitOr),
        BinaryOp::BitXor => Some(Op::BitXor),
        BinaryOp::Shl => Some(Op::BitShl),
        BinaryOp::Shr => Some(Op::BitShr),
        BinaryOp::Pow => Some(Op::Pow),
        _ => None,
    }
}

/// The op that answers one comparison alone.
pub open spec fn specific_for(op: BinaryOp) -> Option<Op> {
    match op {
        BinaryOp::Lt => Some(Op::Lt),
        BinaryOp::Gt => Some(Op::Gt),
        _ => None,
    }
}

pub open spec fn is_ordering(op: BinaryOp) -> bool {
    op == BinaryOp::Lt || op == BinaryOp::Gt || op == BinaryOp::Le || op == BinaryOp::Ge
}

/// The op of a value that orders it in one direction only.
pub open spec fn half_order(h: HeapV, v: Value) -> Option<Op> {
    if slot_of(h, v, Op::Lt) is Some {
        Some(Op::Lt)
    } else if slot_of(h, v, Op::Gt) is Some {
        Some(Op::Gt)
    } else {
        None
    }
}

pub open spec fn needs_ordering(h: HeapV, op: BinaryOp, v: Value, declared: Op, span: Span) -> ErrV {
    err_help(
        ErrorKind::Type,
        "`"@ + (if op == BinaryOp::Le {
            "<="@
        } else {
            ">="@
        }) + "` needs `op cmp`, which "@ + type_text(h, v) + " does not declare"@,
        span,
        "`op "@ + declared.spelled() + "` answers `"@ + (if declared == Op::Lt {
            "<"@
        } else {
            ">"@
        })
            + "` alone. `op cmp` answers all four comparisons at once, returning a negative int, zero, or a positive one"@,
    )
}

/// A class that answers `<` or `>` alone does not answer `<=` and `>=`.
pub open spec fn partly_ordered(h: HeapV, op: BinaryOp, lhs: Value, rhs: Value, span: Span) -> Result<
    (),
    ErrV,
> {
    if op == BinaryOp::Le || op == BinaryOp::Ge {
        match half_order(h, lhs) {
            Some(declared) => Err(needs_ordering(h, op, lhs, declared, span)),
            None => match half_order(h, rhs) {
                Some(declared) => Err(needs_ordering(h, op, rhs, declared, span)),
                None => Ok(()),
            },
        }
    } else {
        Ok(())
    }
}

/// An op that only the right operand declares is not asked, and says so.
pub open spec fn only_asks_the_left(h: HeapV, slot: Op, lhs: Value, rhs: Value, spans: Spans) -> Result<
    (),
    ErrV,
> {
    if slot_of(h, rhs, slot) is None {
        Ok(())
    } else {
        Err(
            ErrV {
                labels: seq![
                    LabelV {
                        span: spans.lhs,
                        text: type_text(h, lhs) + ", and this is the side asked"@,
                    },
                    LabelV { span: spans.rhs, text: "`op "@ + slot.spelled() + "` is here"@ },
                ],
                ..err_help(
                    ErrorKind::Type,
                    "`op "@ + slot.spelled() + "` is "@ + type_text(h, rhs)
                        + "'s, and the value on the left is the one asked"@,
                    spans.whole,
                    "reaching "@ + type_text(h, rhs)
                        + " from the right would hand it the two values the other way round, so it is not asked — convert the "@
                        + type_text(h, lhs) + ", or swap the operands if that is what you meant"@,
                )
            },
        )
    }
}

/// What a comparison answers, once two values were ordered.
pub open spec fn ordered(op: BinaryOp, ordering: int) -> bool {
    match op {
        BinaryOp::Lt => ordering < 0,
        BinaryOp::Le => ordering <= 0,
        BinaryOp::Gt => ordering > 0,
        _ => ordering >= 0,
    }
}

impl Heap {
    fn body_span(&self, id: ObjId) -> (r: Span)
        ensures
            r == body_span(self@, id),
    {
        match self.function(id) {
            Some((decl, _env, _owner)) => {
                assert(fn_decl_v(*decl).body.span == decl.body.span);
                decl.body.span
            },
            None => Span { start: 0, end: 0 },
        }
    }

    /// Where the body of an op's method stands.
    pub(crate) fn op_body(&self, method: Value) -> (r: Span)
        ensures
            r == op_body(self@, method),
    {
        match method {
            Value::Function(id) => self.body_span(id),
            Value::Overload(id) => {
                let set = self.overload(id);
                if set.len() > 0 {
                    match set[0] {
                        Value::Function(first) => self.body_span(first),
                        _ => Span { start: 0, end: 0 },
                    }
                } else {
                    Span { start: 0, end: 0 }
                }
            },
            _ => Span { start: 0, end: 0 },
        }
    }

    pub(crate) fn op_returned(&self, op: Op, receiver: Value, expected: &str, got: Value) -> (r:
        QuinceError)
        ensures
            r@ == op_returned(self@, op, receiver, expected@, got),
    {
        let span = match self.slot_of(receiver, op) {
            Some(method) => self.op_body(method),
            None => Span { start: 0, end: 0 },
        };
        let whose = self.type_text(receiver);
        let kind = self.type_text(got);
        let mut message = cat4("`op ", op.name(), "` must answer with ", expected);
        message.append(", but ");
        message.append(whose.as_str());
        message.append("'s returned ");
        message.append(kind.as_str());
        let help = cat5(
            "the language calls `op ",
            op.name(),
            "` itself and reads ",
            expected,
            " back, so a class chooses what it answers, not what it answers *with*",
        );
        helped_type_error(message, span, help.as_str())
    }

    /// [`op_for`], decided.
    pub(crate) fn op_for(
        &self,
        op: Op,
        method: Value,
        receiver: Value,
        args: &Vec<Value>,
        span: Span,
    ) -> (r: Result<Value, QuinceError>)
        ensures
            res(r) == op_for(self@, op, method, receiver, args@, span),
    {
        if let Some(chosen) = self.fitting(method, args, true) {
            return Ok(chosen);
        }
        let whose = self.type_text(receiver);
        let noun = with_article(whose.as_str());
        let given = join(&self.type_texts(args), ", ");
        let taken = join(&self.signatures(method, true), ", ");
        let mut message = cat4("`op ", op.name(), "` on ", noun.as_str());
        message.append(" does not take (");
        message.append(given.as_str());
        message.append(")");
        let mut help = cat5("`", whose.as_str(), "` declares `op ", op.name(), "` for: ");
        help.append(taken.as_str());
        help.append(
            " — convert the operand, or declare one for these types beside the ones that are there",
        );
        Err(helped_type_error(message, span, help.as_str()))
    }

    /// [`asked`], decided.
    pub(crate) fn asked(&self, op: Op, lhs: Value, rhs: Value) -> (r: Option<Asked>)
        ensures
            r == asked(self@, op, lhs, rhs),
    {
        match self.slot_of(lhs, op) {
            Some(method) => Some(Asked { method, receiver: lhs, other: rhs, reflected: false }),
            None => match self.slot_of(rhs, op) {
                Some(method) => if op.reflects() {
                    Some(Asked { method, receiver: rhs, other: lhs, reflected: true })
                } else {
                    None
                },
                None => None,
            },
        }
    }

    /// [`binary_op_for`], decided.
    pub(crate) fn binary_op_for(
        &self,
        op: BinaryOp,
        slot: Op,
        found: Asked,
        lhs: Value,
        rhs: Value,
        spans: Spans,
    ) -> (r: Result<Value, QuinceError>)
        ensures
            res(r) == binary_op_for(self@, op, slot, found, lhs, rhs, spans),
    {
        let mut operands: Vec<Value> = Vec::new();
        operands.push(found.other);
        assert(operands@ =~= seq![found.other]);
        if let Some(chosen) = self.fitting(found.method, &operands, true) {
            return Ok(chosen);
        }
        let whose = self.type_text(found.receiver);
        let taken = join(&self.signatures(found.method, true), ", ");
        let mut help = cat5("`", whose.as_str(), "` declares `op ", slot.name(), "` for: ");
        help.append(taken.as_str());
        help.append(
            " — convert the operand, or declare one for these types beside the ones that are there",
        );
        Err(make_type_error(self, op, lhs, rhs, spans).with_help(help))
    }

    fn half_order(&self, v: Value) -> (r: Option<Op>)
        ensures
            r == half_order(self@, v),
    {
        if self.slot_of(v, Op::Lt).is_some() {
            Some(Op::Lt)
        } else if self.slot_of(v, Op::Gt).is_some() {
            Some(Op::Gt)
        } else {
            None
        }
    }

    fn needs_ordering(&self, op: BinaryOp, v: Value, declared: Op, span: Span) -> (r: QuinceError)
        ensures
            r@ == needs_ordering(self@, op, v, declared, span),
    {
        let symbol = if op == BinaryOp::Le {
            "<="
        } else {
            ">="
        };
        let whose = self.type_text(v);
        let answers = if declared == Op::Lt {
            "<"
        } else {
            ">"
        };
        let help = cat5(
            "`op ",
            declared.name(),
            "` answers `",
            answers,
            "` alone. `op cmp` answers all four comparisons at once, returning a negative int, zero, or a positive one",
        );
        helped_type_error(
            cat5("`", symbol, "` needs `op cmp`, which ", whose.as_str(), " does not declare"),
            span,
            help.as_str(),
        )
    }

    /// [`partly_ordered`], decided.
    pub(crate) fn partly_ordered(&self, op: BinaryOp, lhs: Value, rhs: Value, span: Span) -> (r:
        Result<(), QuinceError>)
        ensures
            res(r) == partly_ordered(self@, op, lhs, rhs, span),
    {
        if op != BinaryOp::Le && op != BinaryOp::Ge {
            return Ok(());
        }
        if let Some(declared) = self.half_order(lhs) {
            return Err(self.needs_ordering(op, lhs, declared, span));
        }
        if let Some(declared) = self.half_order(rhs) {
            return Err(self.needs_ordering(op, rhs, declared, span));
        }
        Ok(())
    }

    /// [`only_asks_the_left`], decided.
    pub(crate) fn only_asks_the_left(&self, slot: Op, lhs: Value, rhs: Value, spans: Spans) -> (r:
        Result<(), QuinceError>)
        ensures
            res(r) == only_asks_the_left(self@, slot, lhs, rhs, spans),
    {
        if self.slot_of(rhs, slot).is_none() {
            return Ok(());
        }
        let left = self.type_text(lhs);
        let right = self.type_text(rhs);
        let message = cat5(
            "`op ",
            slot.name(),
            "` is ",
            right.as_str(),
            "'s, and the value on the left is the one asked",
        );
        let help = cat5(
            "reaching ",
            right.as_str(),
            " from the right would hand it the two values the other way round, so it is not asked — convert the ",
            left.as_str(),
            ", or swap the operands if that is what you meant",
        );
        let r = QuinceError::new(ErrorKind::Type, message, spans.whole).with_label(
            spans.lhs,
            cat2(left.as_str(), ", and this is the side asked"),
        ).with_label(spans.rhs, cat3("`op ", slot.name(), "` is here")).with_help(help);
        assert(r@.labels =~= only_asks_the_left(self@, slot, lhs, rhs, spans)->Err_0.labels);
        Err(r)
    }
}

/// [`slot_for`], computed.
pub(crate) fn op_slot(op: BinaryOp) -> (r: Option<Op>)
    ensures
        r == slot_for(op),
{
    match op {
        BinaryOp::Add => Some(Op::Add),
        BinaryOp::Sub => Some(Op::Sub),
        BinaryOp::Mul => Some(Op::Mul),
        BinaryOp::Div => Some(Op::Div),
        BinaryOp::FloorDiv => Some(Op::FloorDiv),
        BinaryOp::Rem => Some(Op::Rem),
        BinaryOp::BitAnd => Some(Op::BitAnd),
        BinaryOp::BitOr => Some(Op::BitOr),
        BinaryOp::BitXor => Some(Op::BitXor),
        BinaryOp::Shl => Some(Op::BitShl),
        BinaryOp::Shr => Some(Op::BitShr),
        BinaryOp::Pow => Some(Op::Pow),
        _ => None,
    }
}

// -- what the builtin types answer ------------------------------------------------------------

pub open spec fn is_number(v: Value) -> bool {
    v is Int || v is Float
}

pub open spec fn number_bits(v: Value) -> u64 {
    match v {
        Value::Int(n) => int_bits(n as int),
        Value::Float(bits) => bits,
        _ => 0,
    }
}

/// A number, as a float.
pub(crate) fn as_float(v: Value) -> (r: u64)
    ensures
        r == number_bits(v),
{
    match v {
        Value::Int(n) => from_int(n),
        Value::Float(bits) => bits,
        _ => 0,
    }
}

/// What a binary operator makes of texts.
pub open spec fn s_text_op(
    st: St,
    op: BinaryOp,
    x: Seq<char>,
    y: Seq<char>,
    lhs: Value,
    rhs: Value,
    spans: Spans,
) -> Out<Value> {
    match op {
        BinaryOp::Add => {
            let (st1, v) = s_text(st, x + y);
            (st1, Ok(v))
        },
        BinaryOp::Lt => (st, Ok(Value::Bool(before(x, y, 0)))),
        BinaryOp::Le => (st, Ok(Value::Bool(!before(y, x, 0)))),
        BinaryOp::Gt => (st, Ok(Value::Bool(before(y, x, 0)))),
        BinaryOp::Ge => (st, Ok(Value::Bool(!before(x, y, 0)))),
        _ => (st, Err(type_error(st.heap, op, lhs, rhs, spans))),
    }
}

/// What a binary operator makes of operands no class answers for.
pub open spec fn s_plain_binary(st: St, op: BinaryOp, lhs: Value, rhs: Value, spans: Spans) -> Out<
    Value,
> {
    let a = base(st.heap, lhs);
    let b = base(st.heap, rhs);
    match (a, b) {
        (Value::Str(x), Value::Str(y)) => s_text_op(
            st,
            op,
            st.heap.text(x),
            st.heap.text(y),
            lhs,
            rhs,
            spans,
        ),
        (Value::List(x), Value::List(y)) => if op == BinaryOp::Add {
            let (st1, v) = s_list(st, st.heap.list(x) + st.heap.list(y));
            (st1, Ok(v))
        } else {
            (st, Err(type_error(st.heap, op, lhs, rhs, spans)))
        },
        (Value::Int(x), Value::Int(y)) => (st, s_int_op(op, x, y, spans.whole)),
        _ => if is_number(a) && is_number(b) {
            (st, s_float_op(op, number_bits(a), number_bits(b), spans.whole))
        } else {
            (st, Err(type_error(st.heap, op, lhs, rhs, spans)))
        },
    }
}

/// Whether two values no class answers for, and that hold no others, are equal.
pub open spec fn plain_equal(h: HeapV, a: Value, b: Value) -> bool {
    match (a, b) {
        (Value::Nil, Value::Nil) => true,
        (Value::Bool(x), Value::Bool(y)) => x == y,
        (Value::Int(x), Value::Int(y)) => x == y,
        (Value::Str(x), Value::Str(y)) => h.text(x) == h.text(y),
        (Value::BoundMethod(x), Value::BoundMethod(y)) => x == y || (h.bound(x).1 == h.bound(y).1
            && same_value(h, h.bound(x).0, h.bound(y).0)),
        _ => if is_number(a) && is_number(b) {
            equal(number_bits(a), number_bits(b))
        } else {
            a == b && !is_number(a)
        },
    }
}

/// Whether two receivers are the same value.
pub open spec fn same_value(h: HeapV, a: Value, b: Value) -> bool {
    match (a, b) {
        (Value::Str(x), Value::Str(y)) => h.text(x) == h.text(y),
        _ => a == b,
    }
}

impl Heap {
    fn same_value(&self, a: Value, b: Value) -> (r: bool)
        ensures
            r == same_value(self@, a, b),
    {
        match (a, b) {
            (Value::Str(x), Value::Str(y)) => same(self.text(x).as_str(), self.text(y).as_str()),
            _ => a == b,
        }
    }

    /// [`plain_equal`], decided.
    pub(crate) fn plain_equal(&self, a: Value, b: Value) -> (r: bool)
        ensures
            r == plain_equal(self@, a, b),
    {
        match (a, b) {
            (Value::Nil, Value::Nil) => true,
            (Value::Bool(x), Value::Bool(y)) => x == y,
            (Value::Int(x), Value::Int(y)) => x == y,
            (Value::Str(x), Value::Str(y)) => same(self.text(x).as_str(), self.text(y).as_str()),
            (Value::BoundMethod(x), Value::BoundMethod(y)) => {
                let (first, of_first) = self.bound(x);
                let (second, of_second) = self.bound(y);
                x == y || (of_first == of_second && self.same_value(first, second))
            },
            _ => {
                let numbers = match a {
                    Value::Int(_) => true,
                    Value::Float(_) => true,
                    _ => false,
                };
                let both = match b {
                    Value::Int(_) => numbers,
                    Value::Float(_) => numbers,
                    _ => false,
                };
                if both {
                    is_equal(as_float(a), as_float(b))
                } else {
                    a == b && !numbers
                }
            },
        }
    }
}

impl Interp {
    fn text_op(
        &mut self,
        op: BinaryOp,
        x: &str,
        y: &str,
        lhs: Value,
        rhs: Value,
        spans: Spans,
    ) -> (r: Result<Value, QuinceError>)
        ensures
            (final(self)@, res(r)) == s_text_op(old(self)@, op, x@, y@, lhs, rhs, spans),
    {
        match op {
            BinaryOp::Add => Ok(self.new_text(cat2(x, y))),
            BinaryOp::Lt => Ok(Value::Bool(comes_before(x, y))),
            BinaryOp::Le => Ok(Value::Bool(!comes_before(y, x))),
            BinaryOp::Gt => Ok(Value::Bool(comes_before(y, x))),
            BinaryOp::Ge => Ok(Value::Bool(!comes_before(x, y))),
            _ => Err(make_type_error(&self.heap, op, lhs, rhs, spans)),
        }
    }

    /// [`s_plain_binary`], computed.
    pub(crate) fn plain_binary(&mut self, op: BinaryOp, lhs: Value, rhs: Value, spans: Spans) -> (r:
        Result<Value, QuinceError>)
        ensures
            (final(self)@, res(r)) == s_plain_binary(old(self)@, op, lhs, rhs, spans),
    {
        let a = self.heap.base(lhs);
        let b = self.heap.base(rhs);
        match (a, b) {
            (Value::Str(x), Value::Str(y)) => {
                let left = self.heap.text(x);
                let right = self.heap.text(y);
                self.text_op(op, left.as_str(), right.as_str(), lhs, rhs, spans)
            },
            (Value::List(x), Value::List(y)) => {
                if op == BinaryOp::Add {
                    let mut items = self.heap.list(x);
                    let mut more = self.heap.list(y);
                    items.append(&mut more);
                    Ok(self.new_list(items))
                } else {
                    Err(make_type_error(&self.heap, op, lhs, rhs, spans))
                }
            },
            (Value::Int(x), Value::Int(y)) => int_op(op, x, y, spans.whole),
            _ => {
                let left = match a {
                    Value::Int(_) => true,
                    Value::Float(_) => true,
                    _ => false,
                };
                let right = match b {
                    Value::Int(_) => true,
                    Value::Float(_) => true,
                    _ => false,
                };
                if left && right {
                    float_op(op, as_float(a), as_float(b), spans.whole)
                } else {
                    Err(make_type_error(&self.heap, op, lhs, rhs, spans))
                }
            },
        }
    }
}

// -- laws ------------------------------------------------------------------------------------

/// The left operand is always the one asked first.
pub proof fn law_the_left_operand_is_asked_first(h: HeapV, op: Op, lhs: Value, rhs: Value)
    requires
        slot_of(h, lhs, op) is Some,
    ensures
        asked(h, op, lhs, rhs) matches Some(found) && found.receiver == lhs && !found.reflected,
{
}

/// Equality of values that hold no others does not depend on their order.
pub proof fn law_plain_equality_is_symmetric(h: HeapV, a: Value, b: Value)
    ensures
        plain_equal(h, a, b) == plain_equal(h, b, a),
{
}

} // verus!
