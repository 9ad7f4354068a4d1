//! Operators: truth, equality, comparison and arithmetic, subscripts and membership.
//!
//! Each is stated as a function of the state, and takes how far evaluation may still
//! nest.

use crate::error::{err, err_help, res, ErrV, ErrorKind, QuinceError};
use crate::interp::arith::{overflow, overflow_error};
use crate::interp::call::s_call_method;
use crate::interp::dict::{dict_get, entry_put, find_key, key_of, key_place, keys_of, s_key_of};
use crate::interp::error::{
    frozen, frozen_error, helped_type_error, plain_type_error, too_far, too_far_error, Spans,
};
use crate::interp::fit::admitted;
use crate::interp::index::{resolve_index, s_resolve_index, s_slice_bounds, slice_bounds};
use crate::interp::operator::{
    asked, binary_op_for, is_ordering, only_asks_the_left, op_body, op_for, op_returned, op_slot,
    ordered, partly_ordered, plain_equal, s_plain_binary, slot_for, specific_for, Asked,
};
use crate::interp::state::{
    held, nowhere, released, rooted, s_list, s_text, with_heap, Interp, Out, St,
};
use crate::float::{negate, negated};
use crate::runtime::class::{base, slot_of, truthy_base, type_text};
use crate::runtime::heap::{at_index, Heap, HeapV};
use crate::runtime::object::ObjV;
use crate::runtime::value::{ObjId, Value};
use crate::syntax::ast::{BinaryOp, Op, UnaryOp};
use crate::syntax::token::Span;
use crate::text::{cat2, cat3, chars_of, contains, contains_text, push_char, string_of};
use vstd::prelude::*;

verus! {

// -- asking a class ----------------------------------------------------------------------

/// Calls the method of an op, with everything it needs held.
pub open spec fn s_call_op(f: nat, st: St, method: Value, receiver: Value, args: Seq<Value>) -> Out<
    Value,
>
    decreases f,
{
    if f == 0 {
        (st, Err(too_far(op_body(st.heap, method))))
    } else {
        let (st1, r) = s_call_method(
            (f - 1) as nat,
            held(rooted(st, receiver), args),
            receiver,
            method,
            args,
            op_body(st.heap, method),
        );
        (released(st1, st.temps.len() as int), r)
    }
}

/// Calls the method of an op that answers with a bool.
pub open spec fn s_bool_op(
    f: nat,
    st: St,
    op: Op,
    method: Value,
    receiver: Value,
    args: Seq<Value>,
) -> Out<bool>
    decreases f,
{
    if f == 0 {
        (st, Err(too_far(op_body(st.heap, method))))
    } else {
        match s_call_op((f - 1) as nat, st, method, receiver, args) {
            (st1, Ok(v)) => match base(st1.heap, v) {
                Value::Bool(b) => (st1, Ok(b)),
                got => (st1, Err(op_returned(st1.heap, op, receiver, "a bool"@, got))),
            },
            (st1, Err(e)) => (st1, Err(e)),
        }
    }
}

/// Whether a value counts as true. A class that declares `op bool` is asked.
pub open spec fn s_is_truthy(f: nat, st: St, v: Value) -> Out<bool>
    decreases f,
{
    match slot_of(st.heap, v, Op::Bool) {
        None => (st, Ok(truthy_base(st.heap, v))),
        Some(method) => if f == 0 {
            (st, Err(too_far(op_body(st.heap, method))))
        } else {
            s_bool_op((f - 1) as nat, st, Op::Bool, method, v, Seq::empty())
        },
    }
}

impl Interp {
    pub(crate) fn call_op(
        &mut self,
        method: Value,
        receiver: Value,
        args: Vec<Value>,
        fuel: u64,
    ) -> (r: Result<Value, QuinceError>)
        ensures
            (final(self)@, res(r)) == s_call_op(
                fuel as nat,
                old(self)@,
                method,
                receiver,
                args@,
            ),
        decreases fuel,
    {
        let span = self.heap.op_body(method);
        if fuel == 0 {
            return Err(too_far_error(span));
        }
        let mark: usize = self.temps.len();
        self.root(receiver);
        self.hold(&args);
        let r = self.call_method(receiver, method, args, span, fuel - 1);
        self.release(mark);
        r
    }

    fn bool_op(
        &mut self,
        op: Op,
        method: Value,
        receiver: Value,
        args: Vec<Value>,
        fuel: u64,
    ) -> (r: Result<bool, QuinceError>)
        ensures
            (final(self)@, res(r)) == s_bool_op(
                fuel as nat,
                old(self)@,
                op,
                method,
                receiver,
                args@,
            ),
        decreases fuel,
    {
        if fuel == 0 {
            return Err(too_far_error(self.heap.op_body(method)));
        }
        let v = self.call_op(method, receiver, args, fuel - 1)?;
        match self.heap.base(v) {
            Value::Bool(b) => Ok(b),
            got => Err(self.heap.op_returned(op, receiver, "a bool", got)),
        }
    }

    /// Whether a value counts as true.
    pub(crate) fn truthy(&mut self, v: Value, fuel: u64) -> (r: Result<bool, QuinceError>)
        ensures
            (final(self)@, res(r)) == s_is_truthy(fuel as nat, old(self)@, v),
        decreases fuel,
    {
        match self.heap.slot_of(v, Op::Bool) {
            None => Ok(self.heap.truthy_base(v)),
            Some(method) => {
                if fuel == 0 {
                    return Err(too_far_error(self.heap.op_body(method)));
                }
                let none: Vec<Value> = Vec::new();
                assert(none@ =~= Seq::empty());
                self.bool_op(Op::Bool, method, v, none, fuel - 1)
            },
        }
    }
}

// -- equality ---------------------------------------------------------------------------------

/// The items of a list or a tuple.
pub open spec fn items_of(h: HeapV, v: Value) -> Seq<Value> {
    match v {
        Value::List(id) => h.list(id),
        Value::Tuple(id) => h.tuple(id),
        _ => Seq::empty(),
    }
}

impl Heap {
    pub(crate) fn items_of(&self, v: Value) -> (r: Vec<Value>)
        ensures
            r@ == items_of(self@, v),
    {
        match v {
            Value::List(id) => self.list(id),
            Value::Tuple(id) => self.tuple(id),
            _ => {
                let none: Vec<Value> = Vec::new();
                assert(none@ =~= Seq::empty());
                none
            },
        }
    }

    pub(crate) fn item_at(&self, v: Value, i: usize) -> (r: Option<Value>)
        ensures
            r == at_index(items_of(self@, v), i as int),
    {
        match v {
            Value::List(id) => self.list_item(id, i),
            _ => {
                let items = self.items_of(v);
                if i < items.len() {
                    Some(items[i])
                } else {
                    None
                }
            },
        }
    }

    pub(crate) fn items_len(&self, v: Value) -> (r: usize)
        ensures
            r == items_of(self@, v).len(),
    {
        match v {
            Value::List(id) => self.list_len(id),
            _ => self.items_of(v).len(),
        }
    }
}

/// Whether two values are equal. A class that declares `op eq` is asked, from either
/// side; containers are equal where what they hold is.
pub open spec fn s_equals(f: nat, st: St, lhs: Value, rhs: Value) -> Out<bool>
    decreases f,
{
    if f == 0 {
        (st, Err(too_far(nowhere())))
    } else {
        match asked(st.heap, Op::Eq, lhs, rhs) {
            Some(found) => s_bool_op(
                (f - 1) as nat,
                st,
                Op::Eq,
                found.method,
                found.receiver,
                seq![found.other],
            ),
            None => s_base_equals((f - 1) as nat, st, base(st.heap, lhs), base(st.heap, rhs)),
        }
    }
}

/// Equality of values no class answers for.
pub open spec fn s_base_equals(f: nat, st: St, a: Value, b: Value) -> Out<bool>
    decreases f,
{
    if f == 0 {
        (st, Err(too_far(nowhere())))
    } else {
        match (a, b) {
            (Value::List(x), Value::List(y)) => if x == y {
                (st, Ok(true))
            } else if st.heap.list(x).len() != st.heap.list(y).len() {
                (st, Ok(false))
            } else {
                s_items_equal((f - 1) as nat, st, a, b, 0)
            },
            (Value::Tuple(x), Value::Tuple(y)) => if x == y {
                (st, Ok(true))
            } else if st.heap.tuple(x).len() != st.heap.tuple(y).len() {
                (st, Ok(false))
            } else {
                s_items_equal((f - 1) as nat, st, a, b, 0)
            },
            (Value::Dict(x), Value::Dict(y)) => if x == y {
                (st, Ok(true))
            } else if st.heap.dict(x).len() != st.heap.dict(y).len() {
                (st, Ok(false))
            } else {
                s_entries_equal((f - 1) as nat, st, x, y, keys_of(st.heap.dict(x)), 0)
            },
            _ => (st, Ok(plain_equal(st.heap, a, b))),
        }
    }
}

/// Whether two lists or tuples hold equal items from `i` on. They are read as they are
/// at each step, since comparing items may run code that changes them.
pub open spec fn s_items_equal(f: nat, st: St, a: Value, b: Value, i: int) -> Out<bool>
    decreases f,
{
    match (at_index(items_of(st.heap, a), i), at_index(items_of(st.heap, b), i)) {
        (Some(x), Some(y)) => if f == 0 {
            (st, Err(too_far(nowhere())))
        } else {
            match s_equals((f - 1) as nat, st, x, y) {
                (st1, Ok(true)) => s_items_equal((f - 1) as nat, st1, a, b, i + 1),
                (st1, r) => (st1, r),
            }
        },
        _ => (st, Ok(items_of(st.heap, a).len() == items_of(st.heap, b).len())),
    }
}

/// Whether two dicts hold equal values under the keys from `i` on.
pub open spec fn s_entries_equal(f: nat, st: St, a: ObjId, b: ObjId, keys: Seq<Value>, i: int) -> Out<
    bool,
>
    decreases f,
{
    match at_index(keys, i) {
        None => (st, Ok(true)),
        Some(key) => match (
            dict_get(st.heap, st.heap.dict(a), key),
            dict_get(st.heap, st.heap.dict(b), key),
        ) {
            (Some(x), Some(y)) => if f == 0 {
                (st, Err(too_far(nowhere())))
            } else {
                match s_equals((f - 1) as nat, st, x, y) {
                    (st1, Ok(true)) => s_entries_equal((f - 1) as nat, st1, a, b, keys, i + 1),
                    (st1, r) => (st1, r),
                }
            },
            _ => (st, Ok(false)),
        },
    }
}

impl Interp {
    /// Whether two values are equal.
    pub(crate) fn equal(&mut self, lhs: Value, rhs: Value, fuel: u64) -> (r: Result<
        bool,
        QuinceError,
    >)
        ensures
            (final(self)@, res(r)) == s_equals(fuel as nat, old(self)@, lhs, rhs),
        decreases fuel,
    {
        if fuel == 0 {
            return Err(too_far_error(Span { start: 0, end: 0 }));
        }
        match self.heap.asked(Op::Eq, lhs, rhs) {
            Some(found) => {
                let args = one(found.other);
                self.bool_op(Op::Eq, found.method, found.receiver, args, fuel - 1)
            },
            None => {
                let a = self.heap.base(lhs);
                let b = self.heap.base(rhs);
                self.base_equal(a, b, fuel - 1)
            },
        }
    }

    fn base_equal(&mut self, a: Value, b: Value, fuel: u64) -> (r: Result<bool, QuinceError>)
        ensures
            (final(self)@, res(r)) == s_base_equals(fuel as nat, old(self)@, a, b),
        decreases fuel,
    {
        if fuel == 0 {
            return Err(too_far_error(Span { start: 0, end: 0 }));
        }
        match (a, b) {
            (Value::List(x), Value::List(y)) => {
                if x == y {
                    Ok(true)
                } else if self.heap.list_len(x) != self.heap.list_len(y) {
                    Ok(false)
                } else {
                    self.items_equal(a, b, fuel - 1)
                }
            },
            (Value::Tuple(x), Value::Tuple(y)) => {
                if x == y {
                    Ok(true)
                } else if self.heap.tuple(x).len() != self.heap.tuple(y).len() {
                    Ok(false)
                } else {
                    self.items_equal(a, b, fuel - 1)
                }
            },
            (Value::Dict(x), Value::Dict(y)) => {
                if x == y {
                    Ok(true)
                } else if self.heap.dict_len(x) != self.heap.dict_len(y) {
                    Ok(false)
                } else {
                    self.entries_equal(x, y, fuel - 1)
                }
            },
            _ => Ok(self.heap.plain_equal(a, b)),
        }
    }

    fn items_equal(&mut self, a: Value, b: Value, fuel: u64) -> (r: Result<bool, QuinceError>)
        ensures
            (final(self)@, res(r)) == s_items_equal(fuel as nat, old(self)@, a, b, 0),
        decreases fuel,
    {
        let ghost goal = s_items_equal(fuel as nat, self@, a, b, 0);
        let mut left: u64 = fuel;
        let mut i: usize = 0;
        loop
            invariant
                left <= fuel,
                goal == s_items_equal(fuel as nat, old(self)@, a, b, 0),
                goal == s_items_equal(left as nat, self@, a, b, i as int),
            decreases left,
        {
            let x = match self.heap.item_at(a, i) {
                Some(x) => x,
                None => {
                    return Ok(self.heap.items_len(a) == self.heap.items_len(b));
                },
            };
            let y = match self.heap.item_at(b, i) {
                Some(y) => y,
                None => {
                    return Ok(self.heap.items_len(a) == self.heap.items_len(b));
                },
            };
            if left == 0 {
                return Err(too_far_error(Span { start: 0, end: 0 }));
            }
            left -= 1;
            proof {
                assert(i < items_of(self@.heap, a).len());
            }
            let len: usize = self.heap.items_len(a);
            if !self.equal(x, y, left)? {
                return Ok(false);
            }
            i += 1;
        }
    }

    fn entries_equal(&mut self, a: ObjId, b: ObjId, fuel: u64) -> (r: Result<bool, QuinceError>)
        ensures
            (final(self)@, res(r)) == s_entries_equal(
                fuel as nat,
                old(self)@,
                a,
                b,
                keys_of(old(self)@.heap.dict(a)),
                0,
            ),
        decreases fuel,
    {
        let keys = crate::interp::dict::entry_keys(&self.heap.dict(a));
        let ghost goal = s_entries_equal(fuel as nat, self@, a, b, keys@, 0);
        let mut left: u64 = fuel;
        let mut i: usize = 0;
        while i < keys.len()
            invariant
                left <= fuel,
                i <= keys@.len(),
                goal == s_entries_equal(
                    fuel as nat,
                    old(self)@,
                    a,
                    b,
                    keys_of(old(self)@.heap.dict(a)),
                    0,
                ),
                goal == s_entries_equal(left as nat, self@, a, b, keys@, i as int),
            decreases keys@.len() - i,
        {
            let x = match self.heap.dict_get(a, keys[i]) {
                Some(x) => x,
                None => {
                    return Ok(false);
                },
            };
            let y = match self.heap.dict_get(b, keys[i]) {
                Some(y) => y,
                None => {
                    return Ok(false);
                },
            };
            if left == 0 {
                return Err(too_far_error(Span { start: 0, end: 0 }));
            }
            left -= 1;
            if !self.equal(x, y, left)? {
                return Ok(false);
            }
            i += 1;
        }
        Ok(true)
    }
}

pub(crate) fn one(v: Value) -> (r: Vec<Value>)
    ensures
        r@ == seq![v],
{
    let mut r: Vec<Value> = Vec::new();
    r.push(v);
    assert(r@ =~= seq![v]);
    r
}

pub(crate) fn two(a: Value, b: Value) -> (r: Vec<Value>)
    ensures
        r@ == seq![a, b],
{
    let mut r: Vec<Value> = Vec::new();
    r.push(a);
    r.push(b);
    assert(r@ =~= seq![a, b]);
    r
}

// -- unary operators -------------------------------------------------------------------------------

/// What `-` and `~` make of a value no class answers for.
pub open spec fn plain_unary(h: HeapV, op: UnaryOp, v: Value, span: Span) -> Result<Value, ErrV> {
    if op == UnaryOp::BitNot {
        match base(h, v) {
            Value::Int(n) => Ok(Value::Int((-1 - n) as i64)),
            other => Err(
                err_help(
                    ErrorKind::Type,
                    "`~` does not apply to "@ + type_text(h, other),
                    span,
                    "only an int has bits — convert with `int(x)` first"@,
                ),
            ),
        }
    } else {
        match base(h, v) {
            Value::Int(n) => if n == i64::MIN {
                Err(overflow(span))
            } else {
                Ok(Value::Int((-n) as i64))
            },
            Value::Float(bits) => Ok(Value::Float(negated(bits))),
            _ => Err(err(ErrorKind::Type, "cannot negate "@ + type_text(h, v), span)),
        }
    }
}

pub open spec fn unary_slot(op: UnaryOp) -> Op {
    if op == UnaryOp::BitNot {
        Op::BitNot
    } else {
        Op::Neg
    }
}

pub open spec fn s_unary(f: nat, st: St, op: UnaryOp, v: Value, span: Span) -> Out<Value>
    decreases f,
{
    if f == 0 {
        (st, Err(too_far(span)))
    } else if op == UnaryOp::Not {
        match s_is_truthy((f - 1) as nat, st, v) {
            (st1, Ok(b)) => (st1, Ok(Value::Bool(!b))),
            (st1, Err(e)) => (st1, Err(e)),
        }
    } else {
        match slot_of(st.heap, v, unary_slot(op)) {
            Some(method) => s_call_op((f - 1) as nat, st, method, v, Seq::empty()),
            None => (st, plain_unary(st.heap, op, v, span)),
        }
    }
}

fn negate_value(heap: &Heap, op: UnaryOp, v: Value, span: Span) -> (r: Result<Value, QuinceError>)
    ensures
        res(r) == plain_unary(heap@, op, v, span),
{
    if op == UnaryOp::BitNot {
        return match heap.base(v) {
            Value::Int(n) => Ok(Value::Int(-1 - n)),
            other => {
                let kind = heap.type_text(other);
                Err(
                    helped_type_error(
                        cat2("`~` does not apply to ", kind.as_str()),
                        span,
                        "only an int has bits — convert with `int(x)` first",
                    ),
                )
            },
        };
    }
    match heap.base(v) {
        Value::Int(n) => if n == i64::MIN {
            Err(overflow_error(span))
        } else {
            Ok(Value::Int(-n))
        },
        Value::Float(bits) => Ok(Value::Float(negate(bits))),
        _ => {
            let kind = heap.type_text(v);
            Err(plain_type_error(cat2("cannot negate ", kind.as_str()), span))
        },
    }
}

impl Interp {
    pub(crate) fn unary(&mut self, op: UnaryOp, v: Value, span: Span, fuel: u64) -> (r: Result<
        Value,
        QuinceError,
    >)
        ensures
            (final(self)@, res(r)) == s_unary(fuel as nat, old(self)@, op, v, span),
        decreases fuel,
    {
        if fuel == 0 {
            return Err(too_far_error(span));
        }
        if op == UnaryOp::Not {
            let b = self.truthy(v, fuel - 1)?;
            return Ok(Value::Bool(!b));
        }
        let slot = if op == UnaryOp::BitNot {
            Op::BitNot
        } else {
            Op::Neg
        };
        match self.heap.slot_of(v, slot) {
            Some(method) => {
                let none: Vec<Value> = Vec::new();
                assert(none@ =~= Seq::empty());
                self.call_op(method, v, none, fuel - 1)
            },
            None => negate_value(&self.heap, op, v, span),
        }
    }
}

// -- comparison and arithmetic -----------------------------------------------------------------------

pub open spec fn negated_order(n: i64) -> int {
    if n == i64::MIN {
        i64::MAX as int
    } else {
        -n
    }
}

/// Asks one comparison's own op.
pub open spec fn s_asked_compare(
    f: nat,
    st: St,
    op: BinaryOp,
    slot: Op,
    found: Asked,
    lhs: Value,
    rhs: Value,
    spans: Spans,
) -> Out<Option<Value>>
    decreases f,
{
    if f == 0 {
        (st, Err(too_far(spans.whole)))
    } else {
        match binary_op_for(st.heap, op, slot, found, lhs, rhs, spans) {
            Err(e) => (st, Err(e)),
            Ok(method) => match s_bool_op(
                (f - 1) as nat,
                st,
                slot,
                method,
                found.receiver,
                seq![found.other],
            ) {
                (st1, Ok(b)) => (st1, Ok(Some(Value::Bool(b)))),
                (st1, Err(e)) => (st1, Err(e)),
            },
        }
    }
}

/// Asks `op cmp`, which orders in all directions.
pub open spec fn s_asked_order(
    f: nat,
    st: St,
    op: BinaryOp,
    found: Asked,
    lhs: Value,
    rhs: Value,
    spans: Spans,
) -> Out<Option<Value>>
    decreases f,
{
    if f == 0 {
        (st, Err(too_far(spans.whole)))
    } else {
        match binary_op_for(st.heap, op, Op::Cmp, found, lhs, rhs, spans) {
            Err(e) => (st, Err(e)),
            Ok(method) => match s_call_op(
                (f - 1) as nat,
                st,
                method,
                found.receiver,
                seq![found.other],
            ) {
                (st1, Ok(v)) => match base(st1.heap, v) {
                    Value::Int(n) => (
                        st1,
                        Ok(
                            Some(
                                Value::Bool(
                                    ordered(
                                        op,
                                        if found.reflected {
                                            negated_order(n)
                                        } else {
                                            n as int
                                        },
                                    ),
                                ),
                            ),
                        ),
                    ),
                    got => (
                        st1,
                        Err(op_returned(st1.heap, Op::Cmp, found.receiver, "an int"@, got)),
                    ),
                },
                (st1, Err(e)) => (st1, Err(e)),
            },
        }
    }
}

/// A comparison no op answers, unless one that is declared should have been.
pub open spec fn s_unasked_compare(st: St, op: BinaryOp, lhs: Value, rhs: Value, spans: Spans) -> Out<
    Option<Value>,
> {
    match partly_ordered(st.heap, op, lhs, rhs, spans.whole) {
        Err(e) => (st, Err(e)),
        Ok(_) => match specific_for(op) {
            None => (st, Ok(None)),
            Some(slot) => match only_asks_the_left(st.heap, slot, lhs, rhs, spans) {
                Err(e) => (st, Err(e)),
                Ok(_) => (st, Ok(None)),
            },
        },
    }
}

/// What a class answers to a comparison, where one is asked.
pub open spec fn s_compare(f: nat, st: St, op: BinaryOp, lhs: Value, rhs: Value, spans: Spans) -> Out<
    Option<Value>,
>
    decreases f,
{
    if f == 0 {
        (st, Err(too_far(spans.whole)))
    } else if !is_ordering(op) {
        (st, Ok(None))
    } else if specific_for(op) is Some && asked(st.heap, specific_for(op)->0, lhs, rhs) is Some {
        s_asked_compare(
            (f - 1) as nat,
            st,
            op,
            specific_for(op)->0,
            asked(st.heap, specific_for(op)->0, lhs, rhs)->0,
            lhs,
            rhs,
            spans,
        )
    } else {
        match asked(st.heap, Op::Cmp, lhs, rhs) {
            Some(found) => s_asked_order((f - 1) as nat, st, op, found, lhs, rhs, spans),
            None => s_unasked_compare(st, op, lhs, rhs, spans),
        }
    }
}

/// What a class answers to an arithmetic operator, where one is asked.
pub open spec fn s_arith(f: nat, st: St, op: BinaryOp, lhs: Value, rhs: Value, spans: Spans) -> Out<
    Option<Value>,
>
    decreases f,
{
    if f == 0 {
        (st, Err(too_far(spans.whole)))
    } else {
        match slot_for(op) {
            None => (st, Ok(None)),
            Some(slot) => match asked(st.heap, slot, lhs, rhs) {
                None => match only_asks_the_left(st.heap, slot, lhs, rhs, spans) {
                    Err(e) => (st, Err(e)),
                    Ok(_) => (st, Ok(None)),
                },
                Some(found) => match binary_op_for(st.heap, op, slot, found, lhs, rhs, spans) {
                    Err(e) => (st, Err(e)),
                    Ok(method) => match s_call_op(
                        (f - 1) as nat,
                        st,
                        method,
                        found.receiver,
                        seq![found.other],
                    ) {
                        (st1, Ok(v)) => (st1, Ok(Some(v))),
                        (st1, Err(e)) => (st1, Err(e)),
                    },
                },
            },
        }
    }
}

/// A comparison or an arithmetic operator: a class answers where one is asked.
pub open spec fn s_computed(f: nat, st: St, op: BinaryOp, lhs: Value, rhs: Value, spans: Spans) -> Out<
    Value,
>
    decreases f,
{
    if f == 0 {
        (st, Err(too_far(spans.whole)))
    } else {
        match s_compare((f - 1) as nat, st, op, lhs, rhs, spans) {
            (st1, Err(e)) => (st1, Err(e)),
            (st1, Ok(Some(v))) => (st1, Ok(v)),
            (st1, Ok(None)) => match s_arith((f - 1) as nat, st1, op, lhs, rhs, spans) {
                (st2, Err(e)) => (st2, Err(e)),
                (st2, Ok(Some(v))) => (st2, Ok(v)),
                (st2, Ok(None)) => s_plain_binary(st2, op, lhs, rhs, spans),
            },
        }
    }
}

/// What a binary operator makes of its operands.
pub open spec fn s_binary(f: nat, st: St, op: BinaryOp, lhs: Value, rhs: Value, spans: Spans) -> Out<
    Value,
>
    decreases f,
{
    if f == 0 {
        (st, Err(too_far(spans.whole)))
    } else if op == BinaryOp::Eq || op == BinaryOp::Ne {
        match s_equals((f - 1) as nat, st, lhs, rhs) {
            (st1, Ok(b)) => (st1, Ok(Value::Bool(b == (op == BinaryOp::Eq)))),
            (st1, Err(e)) => (st1, Err(e)),
        }
    } else if op == BinaryOp::In {
        s_contains((f - 1) as nat, st, rhs, lhs, spans.whole)
    } else {
        s_computed((f - 1) as nat, st, op, lhs, rhs, spans)
    }
}

impl Interp {
    fn asked_compare(
        &mut self,
        op: BinaryOp,
        slot: Op,
        found: Asked,
        lhs: Value,
        rhs: Value,
        spans: Spans,
        fuel: u64,
    ) -> (r: Result<Option<Value>, QuinceError>)
        ensures
            (final(self)@, res(r)) == s_asked_compare(
                fuel as nat,
                old(self)@,
                op,
                slot,
                found,
                lhs,
                rhs,
                spans,
            ),
        decreases fuel,
    {
        if fuel == 0 {
            return Err(too_far_error(spans.whole));
        }
        let method = self.heap.binary_op_for(op, slot, found, lhs, rhs, spans)?;
        let args = one(found.other);
        let b = self.bool_op(slot, method, found.receiver, args, fuel - 1)?;
        Ok(Some(Value::Bool(b)))
    }

    fn asked_order(
        &mut self,
        op: BinaryOp,
        found: Asked,
        lhs: Value,
        rhs: Value,
        spans: Spans,
        fuel: u64,
    ) -> (r: Result<Option<Value>, QuinceError>)
        ensures
            (final(self)@, res(r)) == s_asked_order(
                fuel as nat,
                old(self)@,
                op,
                found,
                lhs,
                rhs,
                spans,
            ),
        decreases fuel,
    {
        if fuel == 0 {
            return Err(too_far_error(spans.whole));
        }
        let method = self.heap.binary_op_for(op, Op::Cmp, found, lhs, rhs, spans)?;
        let args = one(found.other);
        let v = self.call_op(method, found.receiver, args, fuel - 1)?;
        match self.heap.base(v) {
            Value::Int(n) => {
                let order: i64 = if !found.reflected {
                    n
                } else if n == i64::MIN {
                    i64::MAX
                } else {
                    -n
                };
                let b = match op {
                    BinaryOp::Lt => order < 0,
                    BinaryOp::Le => order <= 0,
                    BinaryOp::Gt => order > 0,
                    _ => order >= 0,
                };
                Ok(Some(Value::Bool(b)))
            },
            got => Err(self.heap.op_returned(Op::Cmp, found.receiver, "an int", got)),
        }
    }

    fn unasked_compare(&self, op: BinaryOp, lhs: Value, rhs: Value, spans: Spans) -> (r: Result<
        Option<Value>,
        QuinceError,
    >)
        ensures
            (self@, res(r)) == s_unasked_compare(self@, op, lhs, rhs, spans),
    {
        self.heap.partly_ordered(op, lhs, rhs, spans.whole)?;
        let slot = match op {
            BinaryOp::Lt => Op::Lt,
            BinaryOp::Gt => Op::Gt,
            _ => {
                return Ok(None);
            },
        };
        self.heap.only_asks_the_left(slot, lhs, rhs, spans)?;
        Ok(None)
    }

    fn compare(&mut self, op: BinaryOp, lhs: Value, rhs: Value, spans: Spans, fuel: u64) -> (r:
        Result<Option<Value>, QuinceError>)
        ensures
            (final(self)@, res(r)) == s_compare(fuel as nat, old(self)@, op, lhs, rhs, spans),
        decreases fuel,
    {
        if fuel == 0 {
            return Err(too_far_error(spans.whole));
        }
        let specific = match op {
            BinaryOp::Lt => Some(Op::Lt),
            BinaryOp::Gt => Some(Op::Gt),
            BinaryOp::Le => None,
            BinaryOp::Ge => None,
            _ => {
                return Ok(None);
            },
        };
        if let Some(slot) = specific {
            if let Some(found) = self.heap.asked(slot, lhs, rhs) {
                return self.asked_compare(op, slot, found, lhs, rhs, spans, fuel - 1);
            }
        }
        match self.heap.asked(Op::Cmp, lhs, rhs) {
            Some(found) => self.asked_order(op, found, lhs, rhs, spans, fuel - 1),
            None => self.unasked_compare(op, lhs, rhs, spans),
        }
    }

    fn arith(&mut self, op: BinaryOp, lhs: Value, rhs: Value, spans: Spans, fuel: u64) -> (r:
        Result<Option<Value>, QuinceError>)
        ensures
            (final(self)@, res(r)) == s_arith(fuel as nat, old(self)@, op, lhs, rhs, spans),
        decreases fuel,
    {
        if fuel == 0 {
            return Err(too_far_error(spans.whole));
        }
        let slot = match op_slot(op) {
            Some(slot) => slot,
            None => {
                return Ok(None);
            },
        };
        match self.heap.asked(slot, lhs, rhs) {
            None => {
                self.heap.only_asks_the_left(slot, lhs, rhs, spans)?;
                Ok(None)
            },
            Some(found) => {
                let method = self.heap.binary_op_for(op, slot, found, lhs, rhs, spans)?;
                let args = one(found.other);
                let v = self.call_op(method, found.receiver, args, fuel - 1)?;
                Ok(Some(v))
            },
        }
    }

    fn computed(&mut self, op: BinaryOp, lhs: Value, rhs: Value, spans: Spans, fuel: u64) -> (r:
        Result<Value, QuinceError>)
        ensures
            (final(self)@, res(r)) == s_computed(fuel as nat, old(self)@, op, lhs, rhs, spans),
        decreases fuel,
    {
        if fuel == 0 {
            return Err(too_far_error(spans.whole));
        }
        if let Some(v) = self.compare(op, lhs, rhs, spans, fuel - 1)? {
            return Ok(v);
        }
        if let Some(v) = self.arith(op, lhs, rhs, spans, fuel - 1)? {
            return Ok(v);
        }
        self.plain_binary(op, lhs, rhs, spans)
    }

    pub(crate) fn binary(
        &mut self,
        op: BinaryOp,
        lhs: Value,
        rhs: Value,
        spans: Spans,
        fuel: u64,
    ) -> (r: Result<Value, QuinceError>)
        ensures
            (final(self)@, res(r)) == s_binary(fuel as nat, old(self)@, op, lhs, rhs, spans),
        decreases fuel,
    {
        if fuel == 0 {
            return Err(too_far_error(spans.whole));
        }
        if op == BinaryOp::Eq || op == BinaryOp::Ne {
            let b = self.equal(lhs, rhs, fuel - 1)?;
            return Ok(Value::Bool(b == (op == BinaryOp::Eq)));
        }
        if op == BinaryOp::In {
            return self.contains(rhs, lhs, spans.whole, fuel - 1);
        }
        self.computed(op, lhs, rhs, spans, fuel - 1)
    }
}

// -- membership ----------------------------------------------------------------------------------------

/// Whether an equal of `needle` stands among the items from `i` on.
pub open spec fn s_search(f: nat, st: St, base: Value, needle: Value, i: int) -> Out<bool>
    decreases f,
{
    match at_index(items_of(st.heap, base), i) {
        None => (st, Ok(false)),
        Some(item) => if f == 0 {
            (st, Err(too_far(nowhere())))
        } else {
            match s_equals((f - 1) as nat, st, item, needle) {
                (st1, Ok(false)) => s_search((f - 1) as nat, st1, base, needle, i + 1),
                (st1, r) => (st1, r),
            }
        },
    }
}

/// Membership in a value that holds no items to compare one by one.
pub open spec fn plain_contains(h: HeapV, haystack: Value, needle: Value, span: Span) -> Result<
    bool,
    ErrV,
> {
    match base(h, haystack) {
        Value::Dict(id) => match s_key_of(h, needle, span) {
            Ok(key) => Ok(key_place(h, h.dict(id), key, 0) is Some),
            Err(e) => Err(e),
        },
        Value::Str(id) => match base(h, needle) {
            Value::Str(part) => Ok(contains(h.text(id), h.text(part))),
            _ => Err(
                err(
                    ErrorKind::Type,
                    "cannot look for "@ + type_text(h, needle) + " in a string"@,
                    span,
                ),
            ),
        },
        _ => Err(
            err_help(
                ErrorKind::Type,
                "cannot use `in` on "@ + type_text(h, haystack),
                span,
                "`in` searches a string, a list, or a dict's keys — a class answers for itself with `op contains`"@,
            ),
        ),
    }
}

/// What `in` answers for a value no class answers for.
pub open spec fn s_base_contains(f: nat, st: St, haystack: Value, needle: Value, span: Span) -> Out<
    bool,
>
    decreases f,
{
    let held = base(st.heap, haystack);
    if f == 0 {
        (st, Err(too_far(span)))
    } else if held is List || held is Tuple {
        s_search((f - 1) as nat, st, held, needle, 0)
    } else {
        (st, plain_contains(st.heap, haystack, needle, span))
    }
}

/// What `in` answers. A class that declares `op contains` is asked.
pub open spec fn s_contains(f: nat, st: St, haystack: Value, needle: Value, span: Span) -> Out<Value>
    decreases f,
{
    if f == 0 {
        (st, Err(too_far(span)))
    } else {
        let (st1, r) = match slot_of(st.heap, haystack, Op::Contains) {
            Some(method) => match op_for(
                st.heap,
                Op::Contains,
                method,
                haystack,
                seq![needle],
                span,
            ) {
                Ok(chosen) => s_bool_op(
                    (f - 1) as nat,
                    st,
                    Op::Contains,
                    chosen,
                    haystack,
                    seq![needle],
                ),
                Err(e) => (st, Err(e)),
            },
            None => s_base_contains((f - 1) as nat, st, haystack, needle, span),
        };
        match r {
            Ok(b) => (st1, Ok(Value::Bool(b))),
            Err(e) => (st1, Err(e)),
        }
    }
}

impl Interp {
    fn search(&mut self, base: Value, needle: Value, fuel: u64) -> (r: Result<bool, QuinceError>)
        ensures
            (final(self)@, res(r)) == s_search(fuel as nat, old(self)@, base, needle, 0),
        decreases fuel,
    {
        let ghost goal = s_search(fuel as nat, self@, base, needle, 0);
        let mut left: u64 = fuel;
        let mut i: usize = 0;
        loop
            invariant
                left <= fuel,
                goal == s_search(fuel as nat, old(self)@, base, needle, 0),
                goal == s_search(left as nat, self@, base, needle, i as int),
            decreases left,
        {
            let len: usize = self.heap.items_len(base);
            let item = match self.heap.item_at(base, i) {
                Some(item) => item,
                None => {
                    return Ok(false);
                },
            };
            if left == 0 {
                return Err(too_far_error(Span { start: 0, end: 0 }));
            }
            left -= 1;
            if self.equal(item, needle, left)? {
                return Ok(true);
            }
            i += 1;
        }
    }

    fn plain_contains(&self, haystack: Value, needle: Value, span: Span) -> (r: Result<
        bool,
        QuinceError,
    >)
        ensures
            res(r) == plain_contains(self@.heap, haystack, needle, span),
    {
        match self.heap.base(haystack) {
            Value::Dict(id) => {
                let key = key_of(&self.heap, needle, span)?;
                let entries = self.heap.dict(id);
                Ok(find_key(&self.heap, &entries, key).is_some())
            },
            Value::Str(id) => match self.heap.base(needle) {
                Value::Str(part) => Ok(
                    contains_text(self.heap.text(id).as_str(), self.heap.text(part).as_str()),
                ),
                _ => {
                    let kind = self.heap.type_text(needle);
                    Err(
                        plain_type_error(
                            cat3("cannot look for ", kind.as_str(), " in a string"),
                            span,
                        ),
                    )
                },
            },
            _ => {
                let kind = self.heap.type_text(haystack);
                Err(
                    helped_type_error(
                        cat2("cannot use `in` on ", kind.as_str()),
                        span,
                        "`in` searches a string, a list, or a dict's keys — a class answers for itself with `op contains`",
                    ),
                )
            },
        }
    }

    fn base_contains(&mut self, haystack: Value, needle: Value, span: Span, fuel: u64) -> (r:
        Result<bool, QuinceError>)
        ensures
            (final(self)@, res(r)) == s_base_contains(
                fuel as nat,
                old(self)@,
                haystack,
                needle,
                span,
            ),
        decreases fuel,
    {
        if fuel == 0 {
            return Err(too_far_error(span));
        }
        let held = self.heap.base(haystack);
        match held {
            Value::List(_) => self.search(held, needle, fuel - 1),
            Value::Tuple(_) => self.search(held, needle, fuel - 1),
            _ => self.plain_contains(haystack, needle, span),
        }
    }

    fn contains(&mut self, haystack: Value, needle: Value, span: Span, fuel: u64) -> (r: Result<
        Value,
        QuinceError,
    >)
        ensures
            (final(self)@, res(r)) == s_contains(
                fuel as nat,
                old(self)@,
                haystack,
                needle,
                span,
            ),
        decreases fuel,
    {
        if fuel == 0 {
            return Err(too_far_error(span));
        }
        let b = match self.heap.slot_of(haystack, Op::Contains) {
            Some(method) => {
                let args = one(needle);
                let chosen = self.heap.op_for(Op::Contains, method, haystack, &args, span)?;
                self.bool_op(Op::Contains, chosen, haystack, args, fuel - 1)?
            },
            None => self.base_contains(haystack, needle, span, fuel - 1)?,
        };
        Ok(Value::Bool(b))
    }
}

// -- subscripts ----------------------------------------------------------------------------------------

/// The list and the position a subscript selects.
pub open spec fn list_index(h: HeapV, target: Value, index: Value, span: Span) -> Result<
    (ObjId, int),
    ErrV,
> {
    match base(h, target) {
        Value::List(id) => match s_resolve_index(h, index, h.list(id).len(), "list"@, span) {
            Ok(i) => Ok((id, i)),
            Err(e) => Err(e),
        },
        _ => Err(
            err_help(
                ErrorKind::Type,
                "cannot index "@ + type_text(h, target),
                span,
                "only lists, dicts, and strings support indexing"@,
            ),
        ),
    }
}

/// What a subscript reads where no class answers for it. A key that is not there reads
/// as nil.
pub open spec fn s_plain_index(st: St, target: Value, index: Value, span: Span) -> Out<Value> {
    match base(st.heap, target) {
        Value::Dict(id) => match s_key_of(st.heap, index, span) {
            Err(e) => (st, Err(e)),
            Ok(key) => (
                st,
                Ok(
                    match dict_get(st.heap, st.heap.dict(id), key) {
                        Some(v) => v,
                        None => Value::Nil,
                    },
                ),
            ),
        },
        Value::Str(id) => match s_resolve_index(
            st.heap,
            index,
            st.heap.text(id).len(),
            "string"@,
            span,
        ) {
            Err(e) => (st, Err(e)),
            Ok(i) => {
                let (st1, v) = s_text(st, seq![st.heap.text(id)[i]]);
                (st1, Ok(v))
            },
        },
        _ => match list_index(st.heap, target, index, span) {
            Err(e) => (st, Err(e)),
            Ok((id, i)) => (st, Ok(st.heap.list(id)[i])),
        },
    }
}

/// What a subscript reads. A class that declares `op get` is asked.
pub open spec fn s_index_get(f: nat, st: St, target: Value, index: Value, span: Span) -> Out<Value>
    decreases f,
{
    if f == 0 {
        (st, Err(too_far(span)))
    } else {
        match slot_of(st.heap, target, Op::Get) {
            Some(method) => match op_for(st.heap, Op::Get, method, target, seq![index], span) {
                Ok(chosen) => s_call_op((f - 1) as nat, st, chosen, target, seq![index]),
                Err(e) => (st, Err(e)),
            },
            None => s_plain_index(st, target, index, span),
        }
    }
}

/// What a slice takes.
pub open spec fn s_slice(
    st: St,
    target: Value,
    start: Option<Value>,
    end: Option<Value>,
    span: Span,
) -> Out<Value> {
    if slot_of(st.heap, target, Op::Get) is Some {
        (
            st,
            Err(
                err_help(
                    ErrorKind::Type,
                    type_text(st.heap, target)
                        + " declares `op get`, which answers one index at a time"@,
                    span,
                    "read the elements one at a time — or slice `list(x)`, if the slice you want is of what the object holds rather than of what `op get` answers"@,
                ),
            ),
        )
    } else {
        match base(st.heap, target) {
            Value::Str(id) => match s_slice_bounds(
                st.heap,
                start,
                end,
                st.heap.text(id).len() as int,
                span,
            ) {
                Err(e) => (st, Err(e)),
                Ok((from, to)) => {
                    let (st1, v) = s_text(st, st.heap.text(id).subrange(from, to));
                    (st1, Ok(v))
                },
            },
            Value::List(id) => match s_slice_bounds(
                st.heap,
                start,
                end,
                st.heap.list(id).len() as int,
                span,
            ) {
                Err(e) => (st, Err(e)),
                Ok((from, to)) => {
                    let (st1, v) = s_list(st, st.heap.list(id).subrange(from, to));
                    (st1, Ok(v))
                },
            },
            _ => (
                st,
                Err(
                    err_help(
                        ErrorKind::Type,
                        "cannot slice "@ + type_text(st.heap, target),
                        span,
                        "only lists and strings support slicing"@,
                    ),
                ),
            ),
        }
    }
}

/// Where the parts of a write through a subscript stand.
#[derive(Clone, Copy, PartialEq, Eq, Structural)]
pub struct PutSpans {
    pub index: Span,
    pub value: Span,
    pub whole: Span,
}

/// A write under a dict's key.
pub open spec fn s_put_entry(
    st: St,
    id: ObjId,
    target: Value,
    index: Value,
    v: Value,
    at: PutSpans,
) -> Out<Value> {
    match admitted(st.heap, id, 0, index, "the key"@, at.index) {
        Err(e) => (st, Err(e)),
        Ok(_) => match admitted(st.heap, id, 1, v, "the value"@, at.value) {
            Err(e) => (st, Err(e)),
            Ok(value) => match s_key_of(st.heap, index, at.whole) {
                Err(e) => (st, Err(e)),
                Ok(key) => if st.heap.frozen(id) {
                    (st, Err(frozen_error(st.heap, target, at.whole)))
                } else {
                    (with_heap(st, entry_put(st.heap, id, key, value)), Ok(value))
                },
            },
        },
    }
}

/// A write to a position of a list.
pub open spec fn s_put_item(st: St, target: Value, index: Value, v: Value, at: PutSpans) -> Out<Value> {
    match list_index(st.heap, target, index, at.whole) {
        Err(e) => (st, Err(e)),
        Ok((id, i)) => match admitted(st.heap, id, 0, v, "the item"@, at.value) {
            Err(e) => (st, Err(e)),
            Ok(value) => if st.heap.frozen(id) {
                (st, Err(frozen_error(st.heap, target, at.whole)))
            } else {
                (
                    with_heap(
                        st,
                        st.heap.with_object(id, ObjV::List(st.heap.list(id).update(i, value))),
                    ),
                    Ok(value),
                )
            },
        },
    }
}

/// A write through a subscript. A class that declares `op set` is asked, unless the
/// value is frozen.
pub open spec fn s_index_put(
    f: nat,
    st: St,
    target: Value,
    index: Value,
    v: Value,
    at: PutSpans,
) -> Out<Value>
    decreases f,
{
    if f == 0 {
        (st, Err(too_far(at.whole)))
    } else {
        match slot_of(st.heap, target, Op::Put) {
            Some(method) => if is_frozen(st.heap, target) {
                (st, Err(frozen_error(st.heap, target, at.whole)))
            } else {
                match op_for(st.heap, Op::Put, method, target, seq![index, v], at.whole) {
                    Err(e) => (st, Err(e)),
                    Ok(chosen) => match s_call_op(
                        (f - 1) as nat,
                        st,
                        chosen,
                        target,
                        seq![index, v],
                    ) {
                        (st1, Ok(_)) => (st1, Ok(v)),
                        (st1, Err(e)) => (st1, Err(e)),
                    },
                }
            },
            None => match base(st.heap, target) {
                Value::Dict(id) => s_put_entry(st, id, target, index, v, at),
                _ => s_put_item(st, target, index, v, at),
            },
        }
    }
}

/// Whether a value is frozen.
pub open spec fn is_frozen(h: HeapV, v: Value) -> bool {
    match crate::runtime::value::handle_of(v) {
        Some(id) => h.frozen(id),
        None => false,
    }
}

impl Interp {
    fn list_index(&self, target: Value, index: Value, span: Span) -> (r: Result<
        (ObjId, usize),
        QuinceError,
    >)
        ensures
            match r {
                Ok((id, i)) => list_index(self@.heap, target, index, span) == Ok::<
                    (ObjId, int),
                    ErrV,
                >((id, i as int)) && i < self@.heap.list(id).len(),
                Err(e) => list_index(self@.heap, target, index, span) == Err::<(ObjId, int), ErrV>(
                    e@,
                ),
            },
    {
        match self.heap.base(target) {
            Value::List(id) => match resolve_index(
                &self.heap,
                index,
                self.heap.list_len(id),
                "list",
                span,
            ) {
                Ok(i) => Ok((id, i)),
                Err(e) => Err(e),
            },
            _ => {
                let kind = self.heap.type_text(target);
                Err(
                    helped_type_error(
                        cat2("cannot index ", kind.as_str()),
                        span,
                        "only lists, dicts, and strings support indexing",
                    ),
                )
            },
        }
    }

    fn plain_index(&mut self, target: Value, index: Value, span: Span) -> (r: Result<
        Value,
        QuinceError,
    >)
        ensures
            (final(self)@, res(r)) == s_plain_index(old(self)@, target, index, span),
    {
        match self.heap.base(target) {
            Value::Dict(id) => {
                let key = key_of(&self.heap, index, span)?;
                match self.heap.dict_get(id, key) {
                    Some(v) => Ok(v),
                    None => Ok(Value::Nil),
                }
            },
            Value::Str(id) => {
                let chars = chars_of(self.heap.text(id).as_str());
                let i = match resolve_index(&self.heap, index, chars.len(), "string", span) {
                    Ok(i) => i,
                    Err(e) => {
                        return Err(e);
                    },
                };
                let mut text = String::new();
                push_char(&mut text, chars[i]);
                assert(text@ =~= seq![chars@[i as int]]);
                Ok(self.new_text(text))
            },
            _ => match self.list_index(target, index, span) {
                Ok((id, i)) => match self.heap.list_item(id, i) {
                    Some(v) => Ok(v),
                    None => Ok(Value::Nil),
                },
                Err(e) => Err(e),
            },
        }
    }

    pub(crate) fn index_get(&mut self, target: Value, index: Value, span: Span, fuel: u64) -> (r:
        Result<Value, QuinceError>)
        ensures
            (final(self)@, res(r)) == s_index_get(
                fuel as nat,
                old(self)@,
                target,
                index,
                span,
            ),
        decreases fuel,
    {
        if fuel == 0 {
            return Err(too_far_error(span));
        }
        match self.heap.slot_of(target, Op::Get) {
            Some(method) => {
                let args = one(index);
                let chosen = self.heap.op_for(Op::Get, method, target, &args, span)?;
                self.call_op(chosen, target, args, fuel - 1)
            },
            None => self.plain_index(target, index, span),
        }
    }

    pub(crate) fn slice(
        &mut self,
        target: Value,
        start: Option<Value>,
        end: Option<Value>,
        span: Span,
    ) -> (r: Result<Value, QuinceError>)
        ensures
            (final(self)@, res(r)) == s_slice(old(self)@, target, start, end, span),
    {
        let kind = self.heap.type_text(target);
        if self.heap.slot_of(target, Op::Get).is_some() {
            return Err(
                helped_type_error(
                    cat2(
                        kind.as_str(),
                        " declares `op get`, which answers one index at a time",
                    ),
                    span,
                    "read the elements one at a time — or slice `list(x)`, if the slice you want is of what the object holds rather than of what `op get` answers",
                ),
            );
        }
        match self.heap.base(target) {
            Value::Str(id) => {
                let chars = chars_of(self.heap.text(id).as_str());
                match slice_bounds(&self.heap, start, end, chars.len(), span) {
                    Ok((from, to)) => {
                        let text = string_of(&chars, from, to);
                        Ok(self.new_text(text))
                    },
                    Err(e) => Err(e),
                }
            },
            Value::List(id) => {
                let items = self.heap.list(id);
                match slice_bounds(&self.heap, start, end, items.len(), span) {
                    Ok((from, to)) => {
                        let part = part_of(&items, from, to);
                        Ok(self.new_list(part))
                    },
                    Err(e) => Err(e),
                }
            },
            _ => Err(
                helped_type_error(
                    cat2("cannot slice ", kind.as_str()),
                    span,
                    "only lists and strings support slicing",
                ),
            ),
        }
    }

    fn put_entry(&mut self, id: ObjId, target: Value, index: Value, v: Value, at: PutSpans) -> (r:
        Result<Value, QuinceError>)
        ensures
            (final(self)@, res(r)) == s_put_entry(old(self)@, id, target, index, v, at),
    {
        let _key = self.heap.admitted(id, 0, index, "the key", at.index)?;
        let value = self.heap.admitted(id, 1, v, "the value", at.value)?;
        let key = key_of(&self.heap, index, at.whole)?;
        if self.heap.frozen(id) {
            return Err(frozen(&self.heap, target, at.whole));
        }
        self.heap.dict_put(id, key, value);
        Ok(value)
    }

    fn put_item(&mut self, target: Value, index: Value, v: Value, at: PutSpans) -> (r: Result<
        Value,
        QuinceError,
    >)
        ensures
            (final(self)@, res(r)) == s_put_item(old(self)@, target, index, v, at),
    {
        let (id, i) = match self.list_index(target, index, at.whole) {
            Ok(found) => found,
            Err(e) => {
                return Err(e);
            },
        };
        let value = self.heap.admitted(id, 0, v, "the item", at.value)?;
        if self.heap.frozen(id) {
            return Err(frozen(&self.heap, target, at.whole));
        }
        self.heap.set_item(id, i, value);
        Ok(value)
    }

    pub(crate) fn index_put(
        &mut self,
        target: Value,
        index: Value,
        v: Value,
        at: PutSpans,
        fuel: u64,
    ) -> (r: Result<Value, QuinceError>)
        ensures
            (final(self)@, res(r)) == s_index_put(
                fuel as nat,
                old(self)@,
                target,
                index,
                v,
                at,
            ),
        decreases fuel,
    {
        if fuel == 0 {
            return Err(too_far_error(at.whole));
        }
        match self.heap.slot_of(target, Op::Put) {
            Some(method) => {
                let fixed = match target.handle() {
                    Some(id) => self.heap.frozen(id),
                    None => false,
                };
                if fixed {
                    return Err(frozen(&self.heap, target, at.whole));
                }
                let args = two(index, v);
                let chosen = self.heap.op_for(Op::Put, method, target, &args, at.whole)?;
                let _answer = self.call_op(chosen, target, args, fuel - 1)?;
                Ok(v)
            },
            None => match self.heap.base(target) {
                Value::Dict(id) => self.put_entry(id, target, index, v, at),
                _ => self.put_item(target, index, v, at),
            },
        }
    }
}

fn part_of(items: &Vec<Value>, from: usize, to: usize) -> (r: Vec<Value>)
    requires
        from <= to <= items@.len(),
    ensures
        r@ == items@.subrange(from as int, to as int),
{
    let mut r: Vec<Value> = Vec::new();
    let mut i: usize = from;
    while i < to
        invariant
            from <= i <= to <= items@.len(),
            r@ == items@.subrange(from as int, i as int),
        decreases to - i,
    {
        r.push(items[i]);
        assert(r@ =~= items@.subrange(from as int, i + 1));
        i += 1;
    }
    r
}

} // verus!
