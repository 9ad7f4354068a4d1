//! Expressions: what each evaluates to, and what evaluating it changes.

use crate::error::{err, res, ErrV, ErrorKind, QuinceError};
use crate::interp::call::{s_call_evaluated, s_reach_attr, s_set_payload};
use crate::interp::coerce::{s_coerced, value_list};
use crate::interp::declare::s_read;
use crate::interp::dict::{dict_put, key_of, put_entry, s_key_of};
use crate::interp::error::{
    frozen, frozen_error, plain_type_error, too_far, too_far_error, undefined, undefined_error,
    Spans,
};
use crate::interp::fit::{has_type, produced_by, rebound_by, Written, WrittenV};
use crate::interp::generic::substituted;
use crate::interp::object::{s_attr, s_may_reach, s_super_method, Attr, DotSpans};
use crate::interp::ops::{
    s_binary, s_index_get, s_index_put, s_is_truthy, s_slice, s_unary, PutSpans,
};
use crate::interp::params::{
    checked_arguments, current, expr_refs_v, fixed_params, not_a_value, reified, s_type_arity,
    type_params,
};
use crate::interp::state::{
    held, nowhere, released, rooted, s_list, s_text, with_heap, with_new, Interp, Out, St,
};
use crate::runtime::class::type_text;
use crate::runtime::heap::{at_index, field_put, HeapV};
use crate::runtime::object::{Entry, ObjV, Object};
use crate::runtime::scope::{assigned, holder, var_of};
use crate::runtime::value::{ObjId, Value};
use crate::syntax::ast::{
    call_arg_v, call_args_v, expr_kind_v, expr_v, exprs_v, lemma_expr_kind, pair_v, pairs_v,
    type_expr_v, BinaryOp, CallArg, CallArgV, Expr, ExprKind, ExprKindV, ExprV, LogicalOp, Op,
    Pair, PairV, TypeExpr, TypeExprV, UnaryOp,
};
use crate::syntax::parser::opt_boxed;
use crate::syntax::token::Span;
use crate::text::{cat2, cat3, same};
use std::rc::Rc;
use vstd::prelude::*;

verus! {



// -- sequences --------------------------------------------------------------------------------

/// The expressions from `i` on evaluated left to right, each value held while the rest
/// are, and all let go of at the end.
pub open spec fn s_values(
    f: nat,
    st: St,
    es: Seq<ExprV>,
    env: ObjId,
    mark: int,
    i: int,
    so_far: Seq<Value>,
) -> Out<Seq<Value>>
    decreases f,
{
    if i < 0 || i >= es.len() {
        (released(st, mark), Ok(so_far))
    } else if f == 0 {
        (released(st, mark), Err(too_far(es[i].span)))
    } else {
        match s_eval((f - 1) as nat, st, es[i], env) {
            (st1, Ok(v)) => s_values(
                (f - 1) as nat,
                rooted(st1, v),
                es,
                env,
                mark,
                i + 1,
                so_far.push(v),
            ),
            (st1, Err(e)) => (released(st1, mark), Err(e)),
        }
    }
}

/// Two expressions evaluated, the first value held while the second is.
pub open spec fn s_pair(f: nat, st: St, a: ExprV, b: ExprV, env: ObjId) -> Out<(Value, Value)>
    decreases f,
{
    if f == 0 {
        (st, Err(too_far(a.span)))
    } else {
        match s_eval((f - 1) as nat, st, a, env) {
            (st1, Err(e)) => (st1, Err(e)),
            (st1, Ok(x)) => {
                let (st2, r) = s_eval((f - 1) as nat, rooted(st1, x), b, env);
                let st3 = released(st2, st1.temps.len() as int);
                match r {
                    Ok(y) => (st3, Ok((x, y))),
                    Err(e) => (st3, Err(e)),
                }
            },
        }
    }
}

/// The expressions a call's arguments are.
pub open spec fn arg_exprs(args: Seq<CallArgV>) -> Seq<ExprV> {
    Seq::new(args.len(), |i: int| args[i].value)
}

/// The keys and values of a dict literal, in the order they are evaluated.
pub open spec fn pair_exprs(pairs: Seq<PairV>) -> Seq<ExprV> {
    Seq::new(
        2 * pairs.len(),
        |i: int|
            if i % 2 == 0 {
                pairs[i / 2].key
            } else {
                pairs[i / 2].value
            },
    )
}

/// References to the expressions a call's arguments are.
pub(crate) fn arg_refs(args: &Vec<CallArg>) -> (r: Vec<&Expr>)
    ensures
        expr_refs_v(r@) == arg_exprs(call_args_v(args@)),
{
    let mut r: Vec<&Expr> = Vec::new();
    let mut i: usize = 0;
    let ghost goal = arg_exprs(call_args_v(args@));
    while i < args.len()
        invariant
            i <= args@.len(),
            goal == arg_exprs(call_args_v(args@)),
            expr_refs_v(r@) == goal.take(i as int),
        decreases args@.len() - i,
    {
        let ghost before = expr_refs_v(r@);
        r.push(&args[i].value);
        assert(call_args_v(args@)[i as int] == call_arg_v(args@[i as int]));
        assert(expr_refs_v(r@) =~= before.push(goal[i as int]));
        assert(expr_refs_v(r@) =~= goal.take(i + 1));
        i += 1;
    }
    assert(expr_refs_v(r@) =~= goal);
    r
}

fn expr_refs(es: &Vec<Expr>) -> (r: Vec<&Expr>)
    ensures
        expr_refs_v(r@) == exprs_v(es@),
{
    let mut r: Vec<&Expr> = Vec::new();
    let mut i: usize = 0;
    let ghost goal = exprs_v(es@);
    while i < es.len()
        invariant
            i <= es@.len(),
            goal == exprs_v(es@),
            expr_refs_v(r@) == goal.take(i as int),
        decreases es@.len() - i,
    {
        let ghost before = expr_refs_v(r@);
        r.push(&es[i]);
        assert(expr_refs_v(r@) =~= before.push(goal[i as int]));
        assert(expr_refs_v(r@) =~= goal.take(i + 1));
        i += 1;
    }
    assert(expr_refs_v(r@) =~= goal);
    r
}

fn pair_refs(pairs: &Vec<Pair>) -> (r: Vec<&Expr>)
    ensures
        expr_refs_v(r@) == pair_exprs(pairs_v(pairs@)),
{
    let mut r: Vec<&Expr> = Vec::new();
    let mut i: usize = 0;
    let ghost goal = pair_exprs(pairs_v(pairs@));
    while i < pairs.len()
        invariant
            i <= pairs@.len(),
            goal == pair_exprs(pairs_v(pairs@)),
            expr_refs_v(r@) == goal.take(2 * i),
        decreases pairs@.len() - i,
    {
        let ghost before = expr_refs_v(r@);
        r.push(&pairs[i].key);
        r.push(&pairs[i].value);
        proof {
            assert(pairs_v(pairs@)[i as int] == pair_v(pairs@[i as int]));
            assert((2 * i) % 2 == 0 && (2 * i) / 2 == i as int);
            assert((2 * i + 1) % 2 == 1 && (2 * i + 1) / 2 == i as int);
            assert(goal[2 * i] == pair_v(pairs@[i as int]).key);
            assert(goal[2 * i + 1] == pair_v(pairs@[i as int]).value);
            assert(expr_refs_v(r@) =~= before.push(goal[2 * i]).push(goal[2 * i + 1]));
            assert(expr_refs_v(r@) =~= goal.take(2 * (i + 1)));
        }
        i += 1;
    }
    assert(expr_refs_v(r@) =~= goal);
    r
}

impl Interp {
    /// Evaluates expressions left to right, holding each value while the rest are.
    pub(crate) fn values(&mut self, es: &Vec<&Expr>, env: ObjId, mark: usize, fuel: u64) -> (r:
        Result<Vec<Value>, QuinceError>)
        ensures
            (final(self)@, value_list(r)) == s_values(
                fuel as nat,
                old(self)@,
                expr_refs_v(es@),
                env,
                mark as int,
                0,
                Seq::empty(),
            ),
            r matches Ok(v) ==> v@.len() == es@.len(),
        decreases fuel,
    {
        let ghost all = expr_refs_v(es@);
        let ghost goal = s_values(
            fuel as nat,
            self@,
            all,
            env,
            mark as int,
            0,
            Seq::empty(),
        );
        let mut r: Vec<Value> = Vec::new();
        assert(r@ =~= Seq::empty());
        let mut left: u64 = fuel;
        let mut i: usize = 0;
        while i < es.len()
            invariant
                left <= fuel,
                i <= es@.len(),
                r@.len() == i,
                all == expr_refs_v(es@),
                goal == s_values(
                    fuel as nat,
                    old(self)@,
                    all,
                    env,
                    mark as int,
                    0,
                    Seq::empty(),
                ),
                goal == s_values(left as nat, self@, all, env, mark as int, i as int, r@),
            decreases es@.len() - i,
        {
            if left == 0 {
                self.release(mark);
                return Err(too_far_error(es[i].span));
            }
            left -= 1;
            match self.eval(es[i], env, left) {
                Ok(v) => {
                    self.root(v);
                    r.push(v);
                },
                Err(e) => {
                    self.release(mark);
                    return Err(e);
                },
            }
            i += 1;
        }
        self.release(mark);
        Ok(r)
    }

    fn pair(&mut self, a: &Expr, b: &Expr, env: ObjId, fuel: u64) -> (r: Result<
        (Value, Value),
        QuinceError,
    >)
        ensures
            (final(self)@, res(r)) == s_pair(fuel as nat, old(self)@, a@, b@, env),
        decreases fuel,
    {
        if fuel == 0 {
            return Err(too_far_error(a.span));
        }
        let x = match self.eval(a, env, fuel - 1) {
            Ok(x) => x,
            Err(e) => {
                return Err(e);
            },
        };
        let mark: usize = self.temps.len();
        self.root(x);
        let r = self.eval(b, env, fuel - 1);
        self.release(mark);
        match r {
            Ok(y) => Ok((x, y)),
            Err(e) => Err(e),
        }
    }
}

// -- literals ------------------------------------------------------------------------------------

pub open spec fn s_list_literal(f: nat, st: St, items: Seq<ExprV>, env: ObjId) -> Out<Value>
    decreases f,
{
    if f == 0 {
        (st, Err(too_far(nowhere())))
    } else {
        match s_values((f - 1) as nat, st, items, env, st.temps.len() as int, 0, Seq::empty()) {
            (st1, Err(e)) => (st1, Err(e)),
            (st1, Ok(values)) => {
                let (st2, v) = s_list(st1, values);
                (st2, Ok(v))
            },
        }
    }
}

/// Entries built from keys and values in turn, from the `i`th pair on.
pub open spec fn entries_from(h: HeapV, values: Seq<Value>, span: Span, i: int, so_far: Seq<Entry>) -> Result<
    Seq<Entry>,
    ErrV,
>
    decreases values.len() - 2 * i,
{
    if i < 0 || 2 * i + 1 >= values.len() {
        Ok(so_far)
    } else {
        match s_key_of(h, values[2 * i], span) {
            Err(e) => Err(e),
            Ok(key) => entries_from(
                h,
                values,
                span,
                i + 1,
                dict_put(h, so_far, key, values[2 * i + 1]),
            ),
        }
    }
}

pub open spec fn s_dict_literal(f: nat, st: St, pairs: Seq<PairV>, span: Span, env: ObjId) -> Out<Value>
    decreases f,
{
    if f == 0 {
        (st, Err(too_far(span)))
    } else {
        match s_values(
            (f - 1) as nat,
            st,
            pair_exprs(pairs),
            env,
            st.temps.len() as int,
            0,
            Seq::empty(),
        ) {
            (st1, Err(e)) => (st1, Err(e)),
            (st1, Ok(values)) => match entries_from(st1.heap, values, span, 0, Seq::empty()) {
                Err(e) => (st1, Err(e)),
                Ok(entries) => (
                    with_new(st1, ObjV::Dict(entries)),
                    Ok(Value::Dict(st1.heap.next_id())),
                ),
            },
        }
    }
}

impl Interp {
    fn list_literal(&mut self, items: &Vec<Expr>, env: ObjId, fuel: u64) -> (r: Result<
        Value,
        QuinceError,
    >)
        ensures
            (final(self)@, res(r)) == s_list_literal(
                fuel as nat,
                old(self)@,
                exprs_v(items@),
                env,
            ),
        decreases fuel,
    {
        if fuel == 0 {
            return Err(too_far_error(Span { start: 0, end: 0 }));
        }
        let refs = expr_refs(items);
        let mark: usize = self.temps.len();
        match self.values(&refs, env, mark, fuel - 1) {
            Ok(values) => Ok(self.new_list(values)),
            Err(e) => Err(e),
        }
    }

    fn entries_from(&self, values: &Vec<Value>, span: Span) -> (r: Result<Vec<Entry>, QuinceError>)
        ensures
            match r {
                Ok(entries) => entries_from(self@.heap, values@, span, 0, Seq::empty()) == Ok::<
                    Seq<Entry>,
                    ErrV,
                >(entries@),
                Err(e) => entries_from(self@.heap, values@, span, 0, Seq::empty()) == Err::<
                    Seq<Entry>,
                    ErrV,
                >(e@),
            },
    {
        let mut entries: Vec<Entry> = Vec::new();
        assert(entries@ =~= Seq::empty());
        let len: usize = values.len();
        let mut i: usize = 0;
        while i < len / 2
            invariant
                i <= len / 2,
                len == values@.len(),
                entries_from(self@.heap, values@, span, 0, Seq::empty()) == entries_from(
                    self@.heap,
                    values@,
                    span,
                    i as int,
                    entries@,
                ),
            decreases len - i,
        {
            let key = match key_of(&self.heap, values[2 * i], span) {
                Ok(key) => key,
                Err(e) => {
                    return Err(e);
                },
            };
            put_entry(&self.heap, &mut entries, key, values[2 * i + 1]);
            i += 1;
        }
        Ok(entries)
    }

    fn dict_literal(&mut self, pairs: &Vec<Pair>, span: Span, env: ObjId, fuel: u64) -> (r: Result<
        Value,
        QuinceError,
    >)
        ensures
            (final(self)@, res(r)) == s_dict_literal(
                fuel as nat,
                old(self)@,
                pairs_v(pairs@),
                span,
                env,
            ),
        decreases fuel,
    {
        if fuel == 0 {
            return Err(too_far_error(span));
        }
        let refs = pair_refs(pairs);
        let mark: usize = self.temps.len();
        let values = match self.values(&refs, env, mark, fuel - 1) {
            Ok(values) => values,
            Err(e) => {
                return Err(e);
            },
        };
        match self.entries_from(&values, span) {
            Ok(entries) => Ok(Value::Dict(self.heap.add_object(Object::Dict(entries)))),
            Err(e) => Err(e),
        }
    }
}

// -- operators ------------------------------------------------------------------------------------

pub open spec fn s_unary_expr(f: nat, st: St, op: UnaryOp, rhs: ExprV, span: Span, env: ObjId) -> Out<
    Value,
>
    decreases f,
{
    if f == 0 {
        (st, Err(too_far(span)))
    } else {
        match s_eval((f - 1) as nat, st, rhs, env) {
            (st1, Err(e)) => (st1, Err(e)),
            (st1, Ok(v)) => s_unary((f - 1) as nat, st1, op, v, span),
        }
    }
}

pub open spec fn s_binary_expr(
    f: nat,
    st: St,
    op: BinaryOp,
    lhs: ExprV,
    rhs: ExprV,
    span: Span,
    env: ObjId,
) -> Out<Value>
    decreases f,
{
    if f == 0 {
        (st, Err(too_far(span)))
    } else {
        match s_pair((f - 1) as nat, st, lhs, rhs, env) {
            (st1, Err(e)) => (st1, Err(e)),
            (st1, Ok((a, b))) => s_binary(
                (f - 1) as nat,
                st1,
                op,
                a,
                b,
                Spans { lhs: lhs.span, rhs: rhs.span, whole: span },
            ),
        }
    }
}

/// `and` and `or`: the right side is evaluated only where the left does not decide.
pub open spec fn s_logical_expr(
    f: nat,
    st: St,
    op: LogicalOp,
    lhs: ExprV,
    rhs: ExprV,
    env: ObjId,
) -> Out<Value>
    decreases f,
{
    if f == 0 {
        (st, Err(too_far(lhs.span)))
    } else {
        match s_eval((f - 1) as nat, st, lhs, env) {
            (st1, Err(e)) => (st1, Err(e)),
            (st1, Ok(v)) => match s_is_truthy((f - 1) as nat, st1, v) {
                (st2, Err(e)) => (st2, Err(e)),
                (st2, Ok(truthy)) => if truthy == (op == LogicalOp::Or) {
                    (st2, Ok(v))
                } else {
                    s_eval((f - 1) as nat, st2, rhs, env)
                },
            },
        }
    }
}

/// What `is` answers.
pub open spec fn s_is_expr(f: nat, st: St, value: ExprV, ty: TypeExprV, env: ObjId) -> Out<Value>
    decreases f,
{
    if f == 0 {
        (st, Err(too_far(value.span)))
    } else {
        match s_eval((f - 1) as nat, st, value, env) {
            (st1, Err(e)) => (st1, Err(e)),
            (st1, Ok(v)) => (
                st1,
                Ok(Value::Bool(has_type(st1.heap, substituted(ty, current(st1)), v))),
            ),
        }
    }
}

impl Interp {
    fn unary_expr(&mut self, op: UnaryOp, rhs: &Expr, span: Span, env: ObjId, fuel: u64) -> (r:
        Result<Value, QuinceError>)
        ensures
            (final(self)@, res(r)) == s_unary_expr(
                fuel as nat,
                old(self)@,
                op,
                rhs@,
                span,
                env,
            ),
        decreases fuel,
    {
        if fuel == 0 {
            return Err(too_far_error(span));
        }
        let v = self.eval(rhs, env, fuel - 1)?;
        self.unary(op, v, span, fuel - 1)
    }

    fn binary_expr(
        &mut self,
        op: BinaryOp,
        lhs: &Expr,
        rhs: &Expr,
        span: Span,
        env: ObjId,
        fuel: u64,
    ) -> (r: Result<Value, QuinceError>)
        ensures
            (final(self)@, res(r)) == s_binary_expr(
                fuel as nat,
                old(self)@,
                op,
                lhs@,
                rhs@,
                span,
                env,
            ),
        decreases fuel,
    {
        if fuel == 0 {
            return Err(too_far_error(span));
        }
        let (a, b) = match self.pair(lhs, rhs, env, fuel - 1) {
            Ok(both) => both,
            Err(e) => {
                return Err(e);
            },
        };
        let spans = Spans { lhs: lhs.span, rhs: rhs.span, whole: span };
        self.binary(op, a, b, spans, fuel - 1)
    }

    fn logical_expr(&mut self, op: LogicalOp, lhs: &Expr, rhs: &Expr, env: ObjId, fuel: u64) -> (r:
        Result<Value, QuinceError>)
        ensures
            (final(self)@, res(r)) == s_logical_expr(
                fuel as nat,
                old(self)@,
                op,
                lhs@,
                rhs@,
                env,
            ),
        decreases fuel,
    {
        if fuel == 0 {
            return Err(too_far_error(lhs.span));
        }
        let v = self.eval(lhs, env, fuel - 1)?;
        let truthy = match self.truthy(v, fuel - 1) {
            Ok(b) => b,
            Err(e) => {
                return Err(e);
            },
        };
        if truthy == (op == LogicalOp::Or) {
            return Ok(v);
        }
        self.eval(rhs, env, fuel - 1)
    }

    fn is_expr(&mut self, value: &Expr, ty: &TypeExpr, env: ObjId, fuel: u64) -> (r: Result<
        Value,
        QuinceError,
    >)
        ensures
            (final(self)@, res(r)) == s_is_expr(fuel as nat, old(self)@, value@, ty@, env),
        decreases fuel,
    {
        if fuel == 0 {
            return Err(too_far_error(value.span));
        }
        let v = self.eval(value, env, fuel - 1)?;
        let full = self.substituted(ty);
        Ok(Value::Bool(self.heap.has_type(&full, v)))
    }
}

// -- subscripts, slices and members ----------------------------------------------------------------

/// A subscript. A class with one in brackets is a type, and no value.
pub open spec fn s_index_expr(f: nat, st: St, target: ExprV, index: ExprV, span: Span, env: ObjId) -> Out<
    Value,
>
    decreases f,
{
    if f == 0 {
        (st, Err(too_far(span)))
    } else {
        match s_pair((f - 1) as nat, st, target, index, env) {
            (st1, Err(e)) => (st1, Err(e)),
            (st1, Ok((t, i))) => if t is Class {
                (st1, Err(not_a_value(st1.heap, t, span)))
            } else {
                s_index_get((f - 1) as nat, st1, t, i, span)
            },
        }
    }
}

/// The expressions a slice evaluates: what it slices, and the bounds it states.
pub open spec fn slice_exprs(
    target: ExprV,
    start: Option<Box<ExprV>>,
    end: Option<Box<ExprV>>,
) -> Seq<ExprV> {
    let first = match start {
        Some(e) => seq![target, *e],
        None => seq![target],
    };
    match end {
        Some(e) => first.push(*e),
        None => first,
    }
}

pub open spec fn s_slice_expr(
    f: nat,
    st: St,
    target: ExprV,
    start: Option<Box<ExprV>>,
    end: Option<Box<ExprV>>,
    span: Span,
    env: ObjId,
) -> Out<Value>
    decreases f,
{
    if f == 0 {
        (st, Err(too_far(span)))
    } else {
        match s_values(
            (f - 1) as nat,
            st,
            slice_exprs(target, start, end),
            env,
            st.temps.len() as int,
            0,
            Seq::empty(),
        ) {
            (st1, Err(e)) => (st1, Err(e)),
            (st1, Ok(values)) => s_slice(
                st1,
                crate::interp::native::arg(values, 0),
                if start is Some {
                    at_index(values, 1)
                } else {
                    None
                },
                if end is Some {
                    at_index(
                        values,
                        if start is Some {
                            2
                        } else {
                            1
                        },
                    )
                } else {
                    None
                },
                span,
            ),
        }
    }
}

/// Where a member access stands.
pub open spec fn dot_spans(target: Span, whole: Span) -> DotSpans {
    DotSpans {
        target,
        name: Span {
            start: if target.end < whole.end {
                (target.end + 1) as usize
            } else {
                whole.end
            },
            end: whole.end,
        },
        whole,
    }
}

/// What a dot hands out: a field as it is, a method bound to what it was reached on.
pub open spec fn s_bound(st: St, receiver: Value, attr: Attr) -> (St, Value) {
    match attr {
        Attr::Field(v) => (st, v),
        Attr::Method(method) => (
            with_new(st, ObjV::BoundMethod { receiver, method }),
            Value::BoundMethod(st.heap.next_id()),
        ),
    }
}

pub open spec fn s_field_expr(f: nat, st: St, target: ExprV, name: Seq<char>, span: Span, env: ObjId) -> Out<
    Value,
>
    decreases f,
{
    if f == 0 {
        (st, Err(too_far(span)))
    } else {
        match s_eval((f - 1) as nat, st, target, env) {
            (st1, Err(e)) => (st1, Err(e)),
            (st1, Ok(receiver)) => match s_attr(st1, receiver, name, dot_spans(target.span, span)) {
                Err(e) => (st1, Err(e)),
                Ok(attr) => {
                    let (st2, v) = s_bound(st1, receiver, attr);
                    (st2, Ok(v))
                },
            },
        }
    }
}

/// What `super` and `self` are where a method runs.
pub open spec fn s_super(st: St, span: Span, env: ObjId) -> Out<(ObjId, Value)> {
    match s_read(st, "super"@, env, span) {
        (st1, Err(e)) => (st1, Err(e)),
        (st1, Ok(Value::Class(class))) => match s_read(st1, "self"@, env, span) {
            (st2, Err(e)) => (st2, Err(e)),
            (st2, Ok(receiver)) => (st2, Ok((class, receiver))),
        },
        (st1, Ok(_)) => (st1, Err(undefined("super"@, span))),
    }
}

/// A method of the class above, bound to the receiver.
pub open spec fn s_super_expr(st: St, name: Seq<char>, span: Span, env: ObjId) -> Out<Value> {
    match s_super(st, span, env) {
        (st1, Err(e)) => (st1, Err(e)),
        (st1, Ok((class, receiver))) => match s_super_method(st1, class, name, span) {
            Err(e) => (st1, Err(e)),
            Ok(method) => {
                let (st2, v) = s_bound(st1, receiver, Attr::Method(method));
                (st2, Ok(v))
            },
        },
    }
}

/// [`dot_spans`], made.
fn spans_of_dot(target: Span, whole: Span) -> (r: DotSpans)
    ensures
        r == dot_spans(target, whole),
{
    let start: usize = if target.end < whole.end {
        target.end + 1
    } else {
        whole.end
    };
    DotSpans { target, name: Span { start, end: whole.end }, whole }
}

impl Interp {
    fn index_expr(&mut self, target: &Expr, index: &Expr, span: Span, env: ObjId, fuel: u64) -> (r:
        Result<Value, QuinceError>)
        ensures
            (final(self)@, res(r)) == s_index_expr(
                fuel as nat,
                old(self)@,
                target@,
                index@,
                span,
                env,
            ),
        decreases fuel,
    {
        if fuel == 0 {
            return Err(too_far_error(span));
        }
        let (t, i) = match self.pair(target, index, env, fuel - 1) {
            Ok(both) => both,
            Err(e) => {
                return Err(e);
            },
        };
        if let Value::Class(_) = t {
            return Err(self.heap.not_a_value(t, span));
        }
        self.index_get(t, i, span, fuel - 1)
    }

    fn slice_expr(
        &mut self,
        target: &Expr,
        start: &Option<Box<Expr>>,
        end: &Option<Box<Expr>>,
        span: Span,
        env: ObjId,
        fuel: u64,
    ) -> (r: Result<Value, QuinceError>)
        ensures
            (final(self)@, res(r)) == s_slice_expr(
                fuel as nat,
                old(self)@,
                target@,
                opt_boxed(*start),
                opt_boxed(*end),
                span,
                env,
            ),
        decreases fuel,
    {
        if fuel == 0 {
            return Err(too_far_error(span));
        }
        let mut refs: Vec<&Expr> = Vec::new();
        refs.push(target);
        let has_start = start.is_some();
        let has_end = end.is_some();
        if let Some(e) = start {
            refs.push(e);
        }
        if let Some(e) = end {
            refs.push(e);
        }
        assert(expr_refs_v(refs@) =~= slice_exprs(target@, opt_boxed(*start), opt_boxed(*end)));
        let mark: usize = self.temps.len();
        let values = match self.values(&refs, env, mark, fuel - 1) {
            Ok(values) => values,
            Err(e) => {
                return Err(e);
            },
        };
        let from = if has_start {
            value_at(&values, 1)
        } else {
            None
        };
        let to = if has_end {
            value_at(
                &values,
                if has_start {
                    2
                } else {
                    1
                },
            )
        } else {
            None
        };
        self.slice(crate::interp::native::argument(&values, 0), from, to, span)
    }

    fn bound(&mut self, receiver: Value, attr: Attr) -> (v: Value)
        ensures
            (final(self)@, v) == s_bound(old(self)@, receiver, attr),
    {
        match attr {
            Attr::Field(v) => v,
            Attr::Method(method) => Value::BoundMethod(
                self.heap.add_object(Object::BoundMethod { receiver, method }),
            ),
        }
    }

    fn field_expr(&mut self, target: &Expr, name: &str, span: Span, env: ObjId, fuel: u64) -> (r:
        Result<Value, QuinceError>)
        ensures
            (final(self)@, res(r)) == s_field_expr(
                fuel as nat,
                old(self)@,
                target@,
                name@,
                span,
                env,
            ),
        decreases fuel,
    {
        if fuel == 0 {
            return Err(too_far_error(span));
        }
        let receiver = self.eval(target, env, fuel - 1)?;
        let at = spans_of_dot(target.span, span);
        match self.attr(receiver, name, at) {
            Ok(attr) => Ok(self.bound(receiver, attr)),
            Err(e) => Err(e),
        }
    }

    fn above(&mut self, span: Span, env: ObjId) -> (r: Result<(ObjId, Value), QuinceError>)
        ensures
            (final(self)@, res(r)) == s_super(old(self)@, span, env),
    {
        let class = match self.read("super", env, span) {
            Ok(Value::Class(class)) => class,
            Ok(_) => {
                return Err(undefined_error("super", span));
            },
            Err(e) => {
                return Err(e);
            },
        };
        match self.read("self", env, span) {
            Ok(receiver) => Ok((class, receiver)),
            Err(e) => Err(e),
        }
    }

    fn super_expr(&mut self, name: &str, span: Span, env: ObjId) -> (r: Result<Value, QuinceError>)
        ensures
            (final(self)@, res(r)) == s_super_expr(old(self)@, name@, span, env),
    {
        let (class, receiver) = match self.above(span, env) {
            Ok(found) => found,
            Err(e) => {
                return Err(e);
            },
        };
        let method = self.super_method(class, name, span)?;
        Ok(self.bound(receiver, Attr::Method(method)))
    }
}

fn value_at(values: &Vec<Value>, i: usize) -> (r: Option<Value>)
    ensures
        r == at_index(values@, i as int),
{
    if i < values.len() {
        Some(values[i])
    } else {
        None
    }
}

// -- calls --------------------------------------------------------------------------------------------

/// A call of a member: the receiver is evaluated once and the member found before the
/// arguments are.
pub open spec fn s_method_call(
    f: nat,
    st: St,
    target: ExprV,
    name: Seq<char>,
    callee: Span,
    args: Seq<CallArgV>,
    span: Span,
    env: ObjId,
) -> Out<Value>
    decreases f,
{
    if f == 0 {
        (st, Err(too_far(span)))
    } else {
        match s_eval((f - 1) as nat, st, target, env) {
            (st1, Err(e)) => (st1, Err(e)),
            (st1, Ok(receiver)) => match s_attr(
                st1,
                receiver,
                name,
                dot_spans(target.span, callee),
            ) {
                Err(e) => (st1, Err(e)),
                Ok(attr) => match s_values(
                    (f - 1) as nat,
                    rooted(rooted(st1, receiver), attr.found()),
                    arg_exprs(args),
                    env,
                    st1.temps.len() as int,
                    0,
                    Seq::empty(),
                ) {
                    (st2, Err(e)) => (st2, Err(e)),
                    (st2, Ok(values)) => s_reach_attr(
                        (f - 1) as nat,
                        st2,
                        receiver,
                        attr,
                        args,
                        values,
                        span,
                    ),
                },
            },
        }
    }
}

/// A call of a method of the class above. `super.init` of a builtin gives the receiver
/// the value it is.
pub open spec fn s_super_call(
    f: nat,
    st: St,
    name: Seq<char>,
    callee: Span,
    args: Seq<CallArgV>,
    span: Span,
    env: ObjId,
) -> Out<Value>
    decreases f,
{
    if f == 0 {
        (st, Err(too_far(span)))
    } else {
        match s_super(st, callee, env) {
            (st1, Err(e)) => (st1, Err(e)),
            (st1, Ok((class, receiver))) => match s_super_target(st1, class, receiver, name, callee) {
                Err(e) => (st1, Err(e)),
                Ok(target) => match s_values(
                    (f - 1) as nat,
                    rooted(rooted(st1, receiver), target.0),
                    arg_exprs(args),
                    env,
                    st1.temps.len() as int,
                    0,
                    Seq::empty(),
                ) {
                    (st2, Err(e)) => (st2, Err(e)),
                    (st2, Ok(values)) => match target.1 {
                        Some((id, b)) => s_set_payload(
                            (f - 1) as nat,
                            st2,
                            id,
                            target.0,
                            b,
                            values,
                            span,
                        ),
                        None => s_reach_attr(
                            (f - 1) as nat,
                            st2,
                            receiver,
                            Attr::Method(target.0),
                            args,
                            values,
                            span,
                        ),
                    },
                },
            },
        }
    }
}

/// What a call through `super` reaches, and the instance and builtin where it is a
/// builtin's conversion.
pub open spec fn s_super_target(
    st: St,
    class: ObjId,
    receiver: Value,
    name: Seq<char>,
    span: Span,
) -> Result<(Value, Option<(ObjId, crate::runtime::value::Builtin)>), ErrV> {
    match (receiver, st.heap.class(class).builtin, st.heap.class_slot(class, Op::Init)) {
        (Value::Instance(id), Some(b), Some(init)) => if name == "init"@ {
            Ok((init, Some((id, b))))
        } else {
            match s_super_method(st, class, name, span) {
                Ok(m) => Ok((m, None)),
                Err(e) => Err(e),
            }
        },
        _ => match s_super_method(st, class, name, span) {
            Ok(m) => Ok((m, None)),
            Err(e) => Err(e),
        },
    }
}

/// A construction with type arguments.
pub open spec fn s_built_generic(
    f: nat,
    st: St,
    class: ObjId,
    type_args: Seq<ExprV>,
    args: Seq<CallArgV>,
    span: Span,
    env: ObjId,
) -> Out<Value>
    decreases f,
{
    if f == 0 {
        (st, Err(too_far(span)))
    } else {
        match s_type_arity(st.heap, class, type_args.len(), span) {
            Err(e) => (st, Err(e)),
            Ok(_) => match s_values(
                (f - 1) as nat,
                st,
                type_args,
                env,
                st.temps.len() as int,
                0,
                Seq::empty(),
            ) {
                (st1, Err(e)) => (st1, Err(e)),
                (st1, Ok(values)) => s_build_with(
                    (f - 1) as nat,
                    st1,
                    class,
                    values,
                    type_args,
                    args,
                    span,
                    env,
                ),
            },
        }
    }
}

/// A construction with type arguments that were evaluated.
pub open spec fn s_build_with(
    f: nat,
    st: St,
    class: ObjId,
    values: Seq<Value>,
    type_args: Seq<ExprV>,
    args: Seq<CallArgV>,
    span: Span,
    env: ObjId,
) -> Out<Value>
    decreases f,
{
    let params = type_params(st.heap, class);
    if f == 0 {
        (st, Err(too_far(span)))
    } else {
        match s_type_arity(st.heap, class, type_args.len(), span) {
            Err(e) => (st, Err(e)),
            Ok(_) => match checked_arguments(
                st,
                values,
                type_args,
                st.heap.class(class).name,
                params,
                fixed_params(params),
                env,
                0,
                Seq::empty(),
            ) {
                Err(e) => (st, Err(e)),
                Ok(bound) => {
                    let (st1, r) = s_call_evaluated(
                        (f - 1) as nat,
                        St { pending: Some(reified(st.heap, class, bound)), ..st },
                        Value::Class(class),
                        args,
                        env,
                        span,
                    );
                    (St { pending: st.pending, ..st1 }, r)
                },
            },
        }
    }
}

/// A call of something in brackets: type arguments of a class, or a subscript.
pub open spec fn s_bracket_call(
    f: nat,
    st: St,
    target: ExprV,
    index: ExprV,
    callee: Span,
    args: Seq<CallArgV>,
    span: Span,
    env: ObjId,
) -> Out<Value>
    decreases f,
{
    if f == 0 {
        (st, Err(too_far(span)))
    } else {
        match s_eval((f - 1) as nat, st, target, env) {
            (st1, Err(e)) => (st1, Err(e)),
            (st1, Ok(Value::Class(class))) => s_built_generic(
                (f - 1) as nat,
                st1,
                class,
                seq![index],
                args,
                span,
                env,
            ),
            (st1, Ok(t)) => {
                let (st2, r) = s_eval((f - 1) as nat, rooted(st1, t), index, env);
                let st3 = released(st2, st1.temps.len() as int);
                match r {
                    Err(e) => (st3, Err(e)),
                    Ok(i) => match s_index_get((f - 1) as nat, st3, t, i, callee) {
                        (st4, Err(e)) => (st4, Err(e)),
                        (st4, Ok(v)) => s_call_evaluated((f - 1) as nat, st4, v, args, env, span),
                    },
                }
            },
        }
    }
}

/// A call of a class with several type arguments.
pub open spec fn s_applied_call(
    f: nat,
    st: St,
    target: ExprV,
    type_args: Seq<ExprV>,
    callee: Span,
    args: Seq<CallArgV>,
    span: Span,
    env: ObjId,
) -> Out<Value>
    decreases f,
{
    if f == 0 {
        (st, Err(too_far(span)))
    } else {
        match s_eval((f - 1) as nat, st, target, env) {
            (st1, Err(e)) => (st1, Err(e)),
            (st1, Ok(Value::Class(class))) => s_built_generic(
                (f - 1) as nat,
                st1,
                class,
                type_args,
                args,
                span,
                env,
            ),
            (st1, Ok(t)) => (st1, Err(not_a_value(st1.heap, t, callee))),
        }
    }
}

pub open spec fn s_call_expr(
    f: nat,
    st: St,
    callee: ExprV,
    args: Seq<CallArgV>,
    span: Span,
    env: ObjId,
) -> Out<Value>
    decreases f,
{
    if f == 0 {
        (st, Err(too_far(span)))
    } else {
        match callee.kind {
            ExprKindV::Field { target, name } => s_method_call(
                (f - 1) as nat,
                st,
                *target,
                name,
                callee.span,
                args,
                span,
                env,
            ),
            ExprKindV::Super { name } => s_super_call(
                (f - 1) as nat,
                st,
                name,
                callee.span,
                args,
                span,
                env,
            ),
            ExprKindV::Index { target, index } => s_bracket_call(
                (f - 1) as nat,
                st,
                *target,
                *index,
                callee.span,
                args,
                span,
                env,
            ),
            ExprKindV::TypeArgs { target, args: type_args } => s_applied_call(
                (f - 1) as nat,
                st,
                *target,
                type_args,
                callee.span,
                args,
                span,
                env,
            ),
            _ => match s_eval((f - 1) as nat, st, callee, env) {
                (st1, Err(e)) => (st1, Err(e)),
                (st1, Ok(v)) => s_call_evaluated((f - 1) as nat, st1, v, args, env, span),
            },
        }
    }
}

/// A class with several type arguments where a value is wanted.
pub open spec fn s_applied_expr(f: nat, st: St, target: ExprV, span: Span, env: ObjId) -> Out<Value>
    decreases f,
{
    if f == 0 {
        (st, Err(too_far(span)))
    } else {
        match s_eval((f - 1) as nat, st, target, env) {
            (st1, Err(e)) => (st1, Err(e)),
            (st1, Ok(t)) => (st1, Err(not_a_value(st1.heap, t, span))),
        }
    }
}

impl Interp {
    fn method_call(
        &mut self,
        target: &Expr,
        name: &str,
        callee: Span,
        args: &Vec<CallArg>,
        span: Span,
        env: ObjId,
        fuel: u64,
    ) -> (r: Result<Value, QuinceError>)
        ensures
            (final(self)@, res(r)) == s_method_call(
                fuel as nat,
                old(self)@,
                target@,
                name@,
                callee,
                call_args_v(args@),
                span,
                env,
            ),
        decreases fuel,
    {
        if fuel == 0 {
            return Err(too_far_error(span));
        }
        let receiver = self.eval(target, env, fuel - 1)?;
        let at = spans_of_dot(target.span, callee);
        let attr = match self.attr(receiver, name, at) {
            Ok(attr) => attr,
            Err(e) => {
                return Err(e);
            },
        };
        let mark: usize = self.temps.len();
        self.root(receiver);
        self.root(attr.value());
        let refs = arg_refs(args);
        let values = match self.values(&refs, env, mark, fuel - 1) {
            Ok(values) => values,
            Err(e) => {
                return Err(e);
            },
        };
        self.reach_attr(receiver, attr, args, values, span, fuel - 1)
    }

    fn super_target(&self, class: ObjId, receiver: Value, name: &str, span: Span) -> (r: Result<
        (Value, Option<(ObjId, crate::runtime::value::Builtin)>),
        QuinceError,
    >)
        ensures
            res(r) == s_super_target(self@, class, receiver, name@, span),
    {
        match (receiver, self.heap.class_builtin(class), self.heap.class_slot(class, Op::Init)) {
            (Value::Instance(id), Some(b), Some(init)) => {
                if same(name, "init") {
                    return Ok((init, Some((id, b))));
                }
            },
            _ => {},
        }
        match self.super_method(class, name, span) {
            Ok(m) => Ok((m, None)),
            Err(e) => Err(e),
        }
    }

    #[verifier::spinoff_prover]
    fn super_call(
        &mut self,
        name: &str,
        callee: Span,
        args: &Vec<CallArg>,
        span: Span,
        env: ObjId,
        fuel: u64,
    ) -> (r: Result<Value, QuinceError>)
        ensures
            (final(self)@, res(r)) == s_super_call(
                fuel as nat,
                old(self)@,
                name@,
                callee,
                call_args_v(args@),
                span,
                env,
            ),
        decreases fuel,
    {
        if fuel == 0 {
            return Err(too_far_error(span));
        }
        let (class, receiver) = match self.above(callee, env) {
            Ok(found) => found,
            Err(e) => {
                return Err(e);
            },
        };
        let (m, payload) = match self.super_target(class, receiver, name, callee) {
            Ok(found) => found,
            Err(e) => {
                return Err(e);
            },
        };
        let mark: usize = self.temps.len();
        self.root(receiver);
        self.root(m);
        let refs = arg_refs(args);
        let values = match self.values(&refs, env, mark, fuel - 1) {
            Ok(values) => values,
            Err(e) => {
                return Err(e);
            },
        };
        match payload {
            Some((id, b)) => self.set_payload(id, m, b, values, span, fuel - 1),
            None => self.reach_attr(receiver, Attr::Method(m), args, values, span, fuel - 1),
        }
    }

    fn build_with(
        &mut self,
        class: ObjId,
        values: &Vec<Value>,
        type_args: &Vec<&Expr>,
        args: &Vec<CallArg>,
        span: Span,
        env: ObjId,
        fuel: u64,
    ) -> (r: Result<Value, QuinceError>)
        requires
            values@.len() == type_args@.len(),
        ensures
            (final(self)@, res(r)) == s_build_with(
                fuel as nat,
                old(self)@,
                class,
                values@,
                expr_refs_v(type_args@),
                call_args_v(args@),
                span,
                env,
            ),
        decreases fuel,
    {
        if fuel == 0 {
            return Err(too_far_error(span));
        }
        self.heap.type_arity(class, type_args.len(), span)?;
        let bound = match self.checked_arguments(values, type_args, class, env) {
            Ok(bound) => bound,
            Err(e) => {
                return Err(e);
            },
        };
        let header = self.heap.reified(class, bound);
        let before = self.take_pending();
        self.pending = Some(Rc::new(header));
        let r = self.call_evaluated(Value::Class(class), args, env, span, fuel - 1);
        self.pending = before;
        r
    }

    fn built_generic(
        &mut self,
        class: ObjId,
        type_args: &Vec<&Expr>,
        args: &Vec<CallArg>,
        span: Span,
        env: ObjId,
        fuel: u64,
    ) -> (r: Result<Value, QuinceError>)
        ensures
            (final(self)@, res(r)) == s_built_generic(
                fuel as nat,
                old(self)@,
                class,
                expr_refs_v(type_args@),
                call_args_v(args@),
                span,
                env,
            ),
        decreases fuel,
    {
        if fuel == 0 {
            return Err(too_far_error(span));
        }
        self.heap.type_arity(class, type_args.len(), span)?;
        let mark: usize = self.temps.len();
        let values = match self.values(type_args, env, mark, fuel - 1) {
            Ok(values) => values,
            Err(e) => {
                return Err(e);
            },
        };
        self.build_with(class, &values, type_args, args, span, env, fuel - 1)
    }

    fn bracket_call(
        &mut self,
        target: &Expr,
        index: &Expr,
        callee: Span,
        args: &Vec<CallArg>,
        span: Span,
        env: ObjId,
        fuel: u64,
    ) -> (r: Result<Value, QuinceError>)
        ensures
            (final(self)@, res(r)) == s_bracket_call(
                fuel as nat,
                old(self)@,
                target@,
                index@,
                callee,
                call_args_v(args@),
                span,
                env,
            ),
        decreases fuel,
    {
        if fuel == 0 {
            return Err(too_far_error(span));
        }
        let t = self.eval(target, env, fuel - 1)?;
        if let Value::Class(class) = t {
            let mut refs: Vec<&Expr> = Vec::new();
            refs.push(index);
            assert(expr_refs_v(refs@) =~= seq![index@]);
            return self.built_generic(class, &refs, args, span, env, fuel - 1);
        }
        let mark: usize = self.temps.len();
        self.root(t);
        let r = self.eval(index, env, fuel - 1);
        self.release(mark);
        let i = match r {
            Ok(i) => i,
            Err(e) => {
                return Err(e);
            },
        };
        let v = self.index_get(t, i, callee, fuel - 1)?;
        self.call_evaluated(v, args, env, span, fuel - 1)
    }

    fn applied_call(
        &mut self,
        target: &Expr,
        type_args: &Vec<Expr>,
        callee: Span,
        args: &Vec<CallArg>,
        span: Span,
        env: ObjId,
        fuel: u64,
    ) -> (r: Result<Value, QuinceError>)
        ensures
            (final(self)@, res(r)) == s_applied_call(
                fuel as nat,
                old(self)@,
                target@,
                exprs_v(type_args@),
                callee,
                call_args_v(args@),
                span,
                env,
            ),
        decreases fuel,
    {
        if fuel == 0 {
            return Err(too_far_error(span));
        }
        let t = self.eval(target, env, fuel - 1)?;
        if let Value::Class(class) = t {
            let refs = expr_refs(type_args);
            return self.built_generic(class, &refs, args, span, env, fuel - 1);
        }
        Err(self.heap.not_a_value(t, callee))
    }

    fn call_member(&mut self, callee: &Expr, args: &Vec<CallArg>, span: Span, env: ObjId, fuel: u64) -> (r:
        Result<Value, QuinceError>)
        requires
            fuel > 0,
            callee.kind is Field,
        ensures
            (final(self)@, res(r)) == s_call_expr(
                fuel as nat,
                old(self)@,
                callee@,
                call_args_v(args@),
                span,
                env,
            ),
        decreases fuel, 0int,
    {
        let ghost f = (fuel - 1) as nat;
        let ghost given = call_args_v(args@);
        let ghost goal = s_call_expr(fuel as nat, self@, callee@, given, span, env);
        assert(expr_v(*callee).kind == expr_kind_v(callee.kind));
        match &callee.kind {
            ExprKind::Field { target, name } => {
                assert(callee@.kind == ExprKindV::Field { target: Box::new(expr_v(**target)), name: name@ });
                assert(callee@.span == callee.span);
                assert(goal == s_method_call(f, self@, expr_v(**target), name@, callee.span, given, span, env));
                self.method_call(target, name.as_str(), callee.span, args, span, env, fuel - 1)
            },
            _ => Ok(Value::Nil),
        }
    }

    fn call_above(&mut self, callee: &Expr, args: &Vec<CallArg>, span: Span, env: ObjId, fuel: u64) -> (r:
        Result<Value, QuinceError>)
        requires
            fuel > 0,
            callee.kind is Super,
        ensures
            (final(self)@, res(r)) == s_call_expr(
                fuel as nat,
                old(self)@,
                callee@,
                call_args_v(args@),
                span,
                env,
            ),
        decreases fuel, 0int,
    {
        let ghost f = (fuel - 1) as nat;
        let ghost given = call_args_v(args@);
        let ghost goal = s_call_expr(fuel as nat, self@, callee@, given, span, env);
        assert(expr_v(*callee).kind == expr_kind_v(callee.kind));
        match &callee.kind {
            ExprKind::Super { name } => {
                assert(callee@.kind == ExprKindV::Super { name: name@ });
                assert(callee@.span == callee.span);
                assert(goal == s_super_call(f, self@, name@, callee.span, given, span, env));
                self.super_call(name.as_str(), callee.span, args, span, env, fuel - 1)
            },
            _ => Ok(Value::Nil),
        }
    }

    fn call_bracket(&mut self, callee: &Expr, args: &Vec<CallArg>, span: Span, env: ObjId, fuel: u64) -> (r:
        Result<Value, QuinceError>)
        requires
            fuel > 0,
            callee.kind is Index,
        ensures
            (final(self)@, res(r)) == s_call_expr(
                fuel as nat,
                old(self)@,
                callee@,
                call_args_v(args@),
                span,
                env,
            ),
        decreases fuel, 0int,
    {
        let ghost f = (fuel - 1) as nat;
        let ghost given = call_args_v(args@);
        let ghost goal = s_call_expr(fuel as nat, self@, callee@, given, span, env);
        assert(expr_v(*callee).kind == expr_kind_v(callee.kind));
        match &callee.kind {
            ExprKind::Index { target, index } => {
                assert(callee@.kind == ExprKindV::Index { target: Box::new(expr_v(**target)), index: Box::new(expr_v(**index)) });
                assert(callee@.span == callee.span);
                assert(goal == s_bracket_call(f, self@, expr_v(**target), expr_v(**index), callee.span, given, span, env));
                self.bracket_call(target, index, callee.span, args, span, env, fuel - 1)
            },
            _ => Ok(Value::Nil),
        }
    }

    fn call_applied(&mut self, callee: &Expr, args: &Vec<CallArg>, span: Span, env: ObjId, fuel: u64) -> (r:
        Result<Value, QuinceError>)
        requires
            fuel > 0,
            callee.kind is TypeArgs,
        ensures
            (final(self)@, res(r)) == s_call_expr(
                fuel as nat,
                old(self)@,
                callee@,
                call_args_v(args@),
                span,
                env,
            ),
        decreases fuel, 0int,
    {
        let ghost f = (fuel - 1) as nat;
        let ghost given = call_args_v(args@);
        let ghost goal = s_call_expr(fuel as nat, self@, callee@, given, span, env);
        assert(expr_v(*callee).kind == expr_kind_v(callee.kind));
        match &callee.kind {
            ExprKind::TypeArgs { target, args: type_args } => {
                assert(callee@.kind == ExprKindV::TypeArgs { target: Box::new(expr_v(**target)), args: exprs_v(type_args@) });
                assert(callee@.span == callee.span);
                assert(goal == s_applied_call(f, self@, expr_v(**target), exprs_v(type_args@), callee.span, given, span, env));
                self.applied_call(target, type_args, callee.span, args, span, env, fuel - 1)
            },
            _ => Ok(Value::Nil),
        }
    }

    fn call_other(&mut self, callee: &Expr, args: &Vec<CallArg>, span: Span, env: ObjId, fuel: u64) -> (r:
        Result<Value, QuinceError>)
        requires
            fuel > 0,
            !(callee.kind is Field || callee.kind is Super || callee.kind is Index
                || callee.kind is TypeArgs),
        ensures
            (final(self)@, res(r)) == s_call_expr(
                fuel as nat,
                old(self)@,
                callee@,
                call_args_v(args@),
                span,
                env,
            ),
        decreases fuel, 0int,
    {
        assert(expr_v(*callee).kind == expr_kind_v(callee.kind));
        assert(!(callee@.kind is Field || callee@.kind is Super || callee@.kind is Index
            || callee@.kind is TypeArgs));
        let v = self.eval(callee, env, fuel - 1)?;
        self.call_evaluated(v, args, env, span, fuel - 1)
    }

    fn call_expr(&mut self, callee: &Expr, args: &Vec<CallArg>, span: Span, env: ObjId, fuel: u64) -> (r:
        Result<Value, QuinceError>)
        ensures
            (final(self)@, res(r)) == s_call_expr(
                fuel as nat,
                old(self)@,
                callee@,
                call_args_v(args@),
                span,
                env,
            ),
        decreases fuel, 1int,
    {
        if fuel == 0 {
            return Err(too_far_error(span));
        }
        match &callee.kind {
            ExprKind::Field { target: _, name: _ } => self.call_member(callee, args, span, env, fuel),
            ExprKind::Super { name: _ } => self.call_above(callee, args, span, env, fuel),
            ExprKind::Index { target: _, index: _ } => self.call_bracket(
                callee,
                args,
                span,
                env,
                fuel,
            ),
            ExprKind::TypeArgs { target: _, args: _ } => self.call_applied(
                callee,
                args,
                span,
                env,
                fuel,
            ),
            _ => self.call_other(callee, args, span, env, fuel),
        }
    }

    fn applied_expr(&mut self, target: &Expr, span: Span, env: ObjId, fuel: u64) -> (r: Result<
        Value,
        QuinceError,
    >)
        ensures
            (final(self)@, res(r)) == s_applied_expr(fuel as nat, old(self)@, target@, span, env),
        decreases fuel,
    {
        if fuel == 0 {
            return Err(too_far_error(span));
        }
        let t = self.eval(target, env, fuel - 1)?;
        Err(self.heap.not_a_value(t, span))
    }
}

// -- assignment -----------------------------------------------------------------------------------------

pub open spec fn no_reassign(name: Seq<char>, span: Span) -> ErrV {
    err(ErrorKind::Frozen, "cannot reassign `"@ + name + "`"@, span)
}

/// A write to a name: where it was declared, with the type it was declared with.
pub open spec fn s_store_var(
    f: nat,
    st: St,
    name: Seq<char>,
    v: Value,
    span: Span,
    w: WrittenV,
    env: ObjId,
) -> Out<Value>
    decreases f,
{
    match holder(st.heap, env, name, st.heap.cells.len()) {
        None => (st, Err(undefined(name, span))),
        Some(scope) => match var_of(st.heap, scope, name) {
            None => (st, Err(undefined(name, span))),
            Some(var) => if !var.bind.is_mutable() {
                (st, Err(no_reassign(name, span)))
            } else {
                match var.ty {
                    None => (with_heap(st, assigned(st.heap, scope, name, v)), Ok(v)),
                    Some(ty) => if f == 0 {
                        (st, Err(too_far(span)))
                    } else {
                        match s_coerced((f - 1) as nat, st, ty, v, "`"@ + name + "`"@, span, w) {
                            (st1, Err(e)) => (st1, Err(e)),
                            (st1, Ok(given)) => (
                                with_heap(st1, assigned(st1.heap, scope, name, given)),
                                Ok(given),
                            ),
                        }
                    },
                }
            },
        },
    }
}

/// A write to a field of an instance.
pub open spec fn s_store_field(st: St, object: Value, name: Seq<char>, v: Value, at: DotSpans) -> Out<
    Value,
> {
    match object {
        Value::Instance(id) => match s_may_reach(
            st,
            st.heap.instance(id).class,
            name,
            at.name,
        ) {
            Err(e) => (st, Err(e)),
            Ok(_) => if st.heap.frozen(id) {
                (st, Err(frozen_error(st.heap, object, at.whole)))
            } else {
                (with_heap(st, field_put(st.heap, id, name, v)), Ok(v))
            },
        },
        _ => (
            st,
            Err(
                err(
                    ErrorKind::Type,
                    "cannot set a field on "@ + type_text(st.heap, object),
                    at.whole,
                ),
            ),
        ),
    }
}

/// A write through a subscript, its collection and index evaluated while the value is
/// held.
pub open spec fn s_assign_index(
    f: nat,
    st: St,
    target: ExprV,
    index: ExprV,
    v: Value,
    value: Span,
    whole: Span,
    env: ObjId,
) -> Out<Value>
    decreases f,
{
    if f == 0 {
        (st, Err(too_far(whole)))
    } else {
        let (st1, r) = s_pair((f - 1) as nat, rooted(st, v), target, index, env);
        let st2 = released(st1, st.temps.len() as int);
        match r {
            Err(e) => (st2, Err(e)),
            Ok((t, i)) => s_index_put(
                (f - 1) as nat,
                st2,
                t,
                i,
                v,
                PutSpans { index: index.span, value, whole },
            ),
        }
    }
}

/// A write to a member, what it belongs to evaluated while the value is held.
pub open spec fn s_assign_field(
    f: nat,
    st: St,
    target: ExprV,
    name: Seq<char>,
    v: Value,
    whole: Span,
    env: ObjId,
) -> Out<Value>
    decreases f,
{
    if f == 0 {
        (st, Err(too_far(whole)))
    } else {
        let (st1, r) = s_eval((f - 1) as nat, rooted(st, v), target, env);
        let st2 = released(st1, st.temps.len() as int);
        match r {
            Err(e) => (st2, Err(e)),
            Ok(object) => s_store_field(st2, object, name, v, dot_spans(target.span, whole)),
        }
    }
}

pub open spec fn no_target(span: Span) -> ErrV {
    err(ErrorKind::Type, "cannot assign to this expression"@, span)
}

/// A write of a value that was evaluated.
pub open spec fn s_assign(f: nat, st: St, target: ExprV, v: Value, value: ExprV, env: ObjId) -> Out<
    Value,
>
    decreases f,
{
    if f == 0 {
        (st, Err(too_far(target.span)))
    } else {
        match target.kind {
            ExprKindV::Var(name) => s_store_var(
                (f - 1) as nat,
                st,
                name,
                v,
                target.span,
                rebound_by(value),
                env,
            ),
            ExprKindV::Index { target: collection, index } => s_assign_index(
                (f - 1) as nat,
                st,
                *collection,
                *index,
                v,
                value.span,
                target.span,
                env,
            ),
            ExprKindV::Field { target: object, name } => s_assign_field(
                (f - 1) as nat,
                st,
                *object,
                name,
                v,
                target.span,
                env,
            ),
            _ => (st, Err(no_target(target.span))),
        }
    }
}

/// An assignment: the value is evaluated first.
pub open spec fn s_assign_expr(f: nat, st: St, target: ExprV, value: ExprV, env: ObjId) -> Out<Value>
    decreases f,
{
    if f == 0 {
        (st, Err(too_far(target.span)))
    } else {
        match s_eval((f - 1) as nat, st, value, env) {
            (st1, Err(e)) => (st1, Err(e)),
            (st1, Ok(v)) => s_assign((f - 1) as nat, st1, target, v, value, env),
        }
    }
}

/// The right side of a compound assignment evaluated, and the operator applied.
pub open spec fn s_combined(
    f: nat,
    st: St,
    op: BinaryOp,
    before: Value,
    hold: Seq<Value>,
    target: Span,
    value: ExprV,
    span: Span,
    env: ObjId,
) -> Out<Value>
    decreases f,
{
    if f == 0 {
        (st, Err(too_far(span)))
    } else {
        let (st1, r) = s_eval((f - 1) as nat, held(rooted(st, before), hold), value, env);
        match r {
            Err(e) => (released(st1, st.temps.len() as int), Err(e)),
            Ok(v) => {
                let (st2, made) = s_binary(
                    (f - 1) as nat,
                    st1,
                    op,
                    before,
                    v,
                    Spans { lhs: target, rhs: value.span, whole: span },
                );
                (released(st2, st.temps.len() as int), made)
            },
        }
    }
}

pub open spec fn s_op_var(
    f: nat,
    st: St,
    op: BinaryOp,
    name: Seq<char>,
    target: Span,
    value: ExprV,
    span: Span,
    env: ObjId,
) -> Out<Value>
    decreases f,
{
    if f == 0 {
        (st, Err(too_far(span)))
    } else {
        match s_read(st, name, env, target) {
            (st1, Err(e)) => (st1, Err(e)),
            (st1, Ok(before)) => match s_combined(
                (f - 1) as nat,
                st1,
                op,
                before,
                Seq::empty(),
                target,
                value,
                span,
                env,
            ) {
                (st2, Err(e)) => (st2, Err(e)),
                (st2, Ok(v)) => s_store_var(
                    (f - 1) as nat,
                    st2,
                    name,
                    v,
                    target,
                    produced_by(span),
                    env,
                ),
            },
        }
    }
}

/// A compound assignment through a subscript: the collection and the index are
/// evaluated once.
pub open spec fn s_op_index(
    f: nat,
    st: St,
    op: BinaryOp,
    collection: ExprV,
    index: ExprV,
    target: Span,
    value: ExprV,
    span: Span,
    env: ObjId,
) -> Out<Value>
    decreases f,
{
    if f == 0 {
        (st, Err(too_far(span)))
    } else {
        match s_pair((f - 1) as nat, st, collection, index, env) {
            (st1, Err(e)) => (st1, Err(e)),
            (st1, Ok((t, i))) => match s_index_get((f - 1) as nat, st1, t, i, target) {
                (st2, Err(e)) => (st2, Err(e)),
                (st2, Ok(before)) => match s_combined(
                    (f - 1) as nat,
                    st2,
                    op,
                    before,
                    seq![t, i],
                    target,
                    value,
                    span,
                    env,
                ) {
                    (st3, Err(e)) => (st3, Err(e)),
                    (st3, Ok(v)) => s_index_put(
                        (f - 1) as nat,
                        st3,
                        t,
                        i,
                        v,
                        PutSpans { index: index.span, value: span, whole: target },
                    ),
                },
            },
        }
    }
}

/// A compound assignment to a member: what it belongs to is evaluated once.
pub open spec fn s_op_field(
    f: nat,
    st: St,
    op: BinaryOp,
    object: ExprV,
    name: Seq<char>,
    target: Span,
    value: ExprV,
    span: Span,
    env: ObjId,
) -> Out<Value>
    decreases f,
{
    if f == 0 {
        (st, Err(too_far(span)))
    } else {
        match s_eval((f - 1) as nat, st, object, env) {
            (st1, Err(e)) => (st1, Err(e)),
            (st1, Ok(o)) => match s_attr(st1, o, name, dot_spans(object.span, target)) {
                Err(e) => (st1, Err(e)),
                Ok(attr) => match s_combined(
                    (f - 1) as nat,
                    st1,
                    op,
                    attr.found(),
                    seq![o],
                    target,
                    value,
                    span,
                    env,
                ) {
                    (st2, Err(e)) => (st2, Err(e)),
                    (st2, Ok(v)) => s_store_field(
                        st2,
                        o,
                        name,
                        v,
                        dot_spans(object.span, target),
                    ),
                },
            },
        }
    }
}

pub open spec fn s_assign_op_expr(
    f: nat,
    st: St,
    op: BinaryOp,
    target: ExprV,
    value: ExprV,
    span: Span,
    env: ObjId,
) -> Out<Value>
    decreases f,
{
    if f == 0 {
        (st, Err(too_far(span)))
    } else {
        match target.kind {
            ExprKindV::Var(name) => s_op_var(
                (f - 1) as nat,
                st,
                op,
                name,
                target.span,
                value,
                span,
                env,
            ),
            ExprKindV::Index { target: collection, index } => s_op_index(
                (f - 1) as nat,
                st,
                op,
                *collection,
                *index,
                target.span,
                value,
                span,
                env,
            ),
            ExprKindV::Field { target: object, name } => s_op_field(
                (f - 1) as nat,
                st,
                op,
                *object,
                name,
                target.span,
                value,
                span,
                env,
            ),
            _ => (st, Err(no_target(target.span))),
        }
    }
}

impl Interp {
    fn store_var(&mut self, name: &str, v: Value, span: Span, w: &Written, env: ObjId, fuel: u64) -> (r:
        Result<Value, QuinceError>)
        ensures
            (final(self)@, res(r)) == s_store_var(
                fuel as nat,
                old(self)@,
                name@,
                v,
                span,
                w@,
                env,
            ),
        decreases fuel,
    {
        let scope = match self.heap.holder(env, name) {
            Some(scope) => scope,
            None => {
                return Err(undefined_error(name, span));
            },
        };
        let (_value, bind, ty) = match self.heap.var(scope, name) {
            Some(var) => var,
            None => {
                return Err(undefined_error(name, span));
            },
        };
        if !bind.mutable() {
            return Err(
                QuinceError::new(ErrorKind::Frozen, cat3("cannot reassign `", name, "`"), span),
            );
        }
        match ty {
            None => {
                self.heap.assign(scope, name, v);
                Ok(v)
            },
            Some(ty) => {
                if fuel == 0 {
                    return Err(too_far_error(span));
                }
                let what = cat3("`", name, "`");
                let given = self.coerced(&ty, v, what.as_str(), span, w, fuel - 1)?;
                self.heap.assign(scope, name, given);
                Ok(given)
            },
        }
    }

    fn store_field(&mut self, object: Value, name: &str, v: Value, at: DotSpans) -> (r: Result<
        Value,
        QuinceError,
    >)
        ensures
            (final(self)@, res(r)) == s_store_field(old(self)@, object, name@, v, at),
    {
        match object {
            Value::Instance(id) => {
                let class = self.heap.instance_class(id);
                self.may_reach(class, name, at.name)?;
                if self.heap.frozen(id) {
                    return Err(frozen(&self.heap, object, at.whole));
                }
                self.heap.put_field(id, name, v);
                Ok(v)
            },
            _ => {
                let kind = self.heap.type_text(object);
                Err(plain_type_error(cat2("cannot set a field on ", kind.as_str()), at.whole))
            },
        }
    }

    fn assign_index(
        &mut self,
        target: &Expr,
        index: &Expr,
        v: Value,
        value: Span,
        whole: Span,
        env: ObjId,
        fuel: u64,
    ) -> (r: Result<Value, QuinceError>)
        ensures
            (final(self)@, res(r)) == s_assign_index(
                fuel as nat,
                old(self)@,
                target@,
                index@,
                v,
                value,
                whole,
                env,
            ),
        decreases fuel,
    {
        if fuel == 0 {
            return Err(too_far_error(whole));
        }
        let mark: usize = self.temps.len();
        self.root(v);
        let both = self.pair(target, index, env, fuel - 1);
        self.release(mark);
        let (t, i) = match both {
            Ok(both) => both,
            Err(e) => {
                return Err(e);
            },
        };
        let at = PutSpans { index: index.span, value, whole };
        self.index_put(t, i, v, at, fuel - 1)
    }

    fn assign_field(
        &mut self,
        target: &Expr,
        name: &str,
        v: Value,
        whole: Span,
        env: ObjId,
        fuel: u64,
    ) -> (r: Result<Value, QuinceError>)
        ensures
            (final(self)@, res(r)) == s_assign_field(
                fuel as nat,
                old(self)@,
                target@,
                name@,
                v,
                whole,
                env,
            ),
        decreases fuel,
    {
        if fuel == 0 {
            return Err(too_far_error(whole));
        }
        let mark: usize = self.temps.len();
        self.root(v);
        let r = self.eval(target, env, fuel - 1);
        self.release(mark);
        match r {
            Ok(object) => self.store_field(object, name, v, spans_of_dot(target.span, whole)),
            Err(e) => Err(e),
        }
    }

    fn assign_to_var(&mut self, target: &Expr, v: Value, value: &Expr, env: ObjId, fuel: u64) -> (r: Result<
        Value,
        QuinceError,
    >)
        requires
            fuel > 0,
            target.kind is Var,
        ensures
            (final(self)@, res(r)) == s_assign(
                fuel as nat,
                old(self)@,
                target@,
                v,
                value@,
                env,
            ),
        decreases fuel, 0int,
    {
        let ghost goal = s_assign(fuel as nat, self@, target@, v, value@, env);
        assert(expr_v(*target).kind == expr_kind_v(target.kind));
        match &target.kind {
            ExprKind::Var(name) => {
                assert(target@.kind == ExprKindV::Var(name@));
                assert(target@.span == target.span);
                assert(value@.span == value.span);
                assert(goal == s_store_var((fuel - 1) as nat, self@, name@, v, target.span, rebound_by(value@), env));
                let w = Written::rebound(value);
                assert(w@ == rebound_by(value@));
                self.store_var(name.as_str(), v, target.span, &w, env, fuel - 1)
            },
            _ => Ok(v),
        }
    }

    fn assign_to_index(&mut self, target: &Expr, v: Value, value: &Expr, env: ObjId, fuel: u64) -> (r: Result<
        Value,
        QuinceError,
    >)
        requires
            fuel > 0,
            target.kind is Index,
        ensures
            (final(self)@, res(r)) == s_assign(
                fuel as nat,
                old(self)@,
                target@,
                v,
                value@,
                env,
            ),
        decreases fuel, 0int,
    {
        let ghost goal = s_assign(fuel as nat, self@, target@, v, value@, env);
        assert(expr_v(*target).kind == expr_kind_v(target.kind));
        match &target.kind {
            ExprKind::Index { target: collection, index } => {
                assert(target@.kind == ExprKindV::Index { target: Box::new(expr_v(**collection)), index: Box::new(expr_v(**index)) });
                assert(target@.span == target.span);
                assert(value@.span == value.span);
                assert(goal == s_assign_index((fuel - 1) as nat, self@, expr_v(**collection), expr_v(**index), v, value.span, target.span, env));
                self.assign_index(collection, index, v, value.span, target.span, env, fuel - 1)
            },
            _ => Ok(v),
        }
    }

    fn assign_to_field(&mut self, target: &Expr, v: Value, value: &Expr, env: ObjId, fuel: u64) -> (r: Result<
        Value,
        QuinceError,
    >)
        requires
            fuel > 0,
            target.kind is Field,
        ensures
            (final(self)@, res(r)) == s_assign(
                fuel as nat,
                old(self)@,
                target@,
                v,
                value@,
                env,
            ),
        decreases fuel, 0int,
    {
        let ghost goal = s_assign(fuel as nat, self@, target@, v, value@, env);
        assert(expr_v(*target).kind == expr_kind_v(target.kind));
        match &target.kind {
            ExprKind::Field { target: object, name } => {
                assert(target@.kind == ExprKindV::Field { target: Box::new(expr_v(**object)), name: name@ });
                assert(target@.span == target.span);
                assert(value@.span == value.span);
                assert(goal == s_assign_field((fuel - 1) as nat, self@, expr_v(**object), name@, v, target.span, env));
                self.assign_field(object, name.as_str(), v, target.span, env, fuel - 1)
            },
            _ => Ok(v),
        }
    }

    #[verifier::spinoff_prover]
    fn assign_to_other(&self, target: &Expr, v: Value, value: &Expr, env: ObjId, fuel: u64) -> (r: QuinceError)
        requires
            fuel > 0,
            !(target.kind is Var || target.kind is Index || target.kind is Field),
        ensures
            (self@, Err::<Value, ErrV>(r@)) == s_assign(
                fuel as nat,
                self@,
                target@,
                v,
                value@,
                env,
            ),
    {
        proof {
            lemma_expr_kind(target.kind);
        }
        assert(expr_v(*target).kind == expr_kind_v(target.kind));
        plain_type_error("cannot assign to this expression".to_owned(), target.span)
    }

    fn assign(&mut self, target: &Expr, v: Value, value: &Expr, env: ObjId, fuel: u64) -> (r: Result<
        Value,
        QuinceError,
    >)
        ensures
            (final(self)@, res(r)) == s_assign(
                fuel as nat,
                old(self)@,
                target@,
                v,
                value@,
                env,
            ),
        decreases fuel, 1int,
    {
        if fuel == 0 {
            return Err(too_far_error(target.span));
        }
        match &target.kind {
            ExprKind::Var(_) => self.assign_to_var(target, v, value, env, fuel),
            ExprKind::Index { target: _, index: _ } => self.assign_to_index(
                target,
                v,
                value,
                env,
                fuel,
            ),
            ExprKind::Field { target: _, name: _ } => self.assign_to_field(
                target,
                v,
                value,
                env,
                fuel,
            ),
            _ => Err(self.assign_to_other(target, v, value, env, fuel)),
        }
    }

    fn assign_expr(&mut self, target: &Expr, value: &Expr, env: ObjId, fuel: u64) -> (r: Result<
        Value,
        QuinceError,
    >)
        ensures
            (final(self)@, res(r)) == s_assign_expr(
                fuel as nat,
                old(self)@,
                target@,
                value@,
                env,
            ),
        decreases fuel,
    {
        if fuel == 0 {
            return Err(too_far_error(target.span));
        }
        let v = self.eval(value, env, fuel - 1)?;
        self.assign(target, v, value, env, fuel - 1)
    }

    fn combined(
        &mut self,
        op: BinaryOp,
        before: Value,
        hold: &Vec<Value>,
        target: Span,
        value: &Expr,
        span: Span,
        env: ObjId,
        fuel: u64,
    ) -> (r: Result<Value, QuinceError>)
        ensures
            (final(self)@, res(r)) == s_combined(
                fuel as nat,
                old(self)@,
                op,
                before,
                hold@,
                target,
                value@,
                span,
                env,
            ),
        decreases fuel,
    {
        if fuel == 0 {
            return Err(too_far_error(span));
        }
        let mark: usize = self.temps.len();
        self.root(before);
        self.hold(hold);
        let r = self.eval(value, env, fuel - 1);
        match r {
            Err(e) => {
                self.release(mark);
                Err(e)
            },
            Ok(v) => {
                let spans = Spans { lhs: target, rhs: value.span, whole: span };
                let made = self.binary(op, before, v, spans, fuel - 1);
                self.release(mark);
                made
            },
        }
    }

    fn op_var(
        &mut self,
        op: BinaryOp,
        name: &str,
        target: Span,
        value: &Expr,
        span: Span,
        env: ObjId,
        fuel: u64,
    ) -> (r: Result<Value, QuinceError>)
        ensures
            (final(self)@, res(r)) == s_op_var(
                fuel as nat,
                old(self)@,
                op,
                name@,
                target,
                value@,
                span,
                env,
            ),
        decreases fuel,
    {
        if fuel == 0 {
            return Err(too_far_error(span));
        }
        let before = self.read(name, env, target)?;
        let none: Vec<Value> = Vec::new();
        assert(none@ =~= Seq::empty());
        let v = self.combined(op, before, &none, target, value, span, env, fuel - 1)?;
        let w = Written::produced(span);
        self.store_var(name, v, target, &w, env, fuel - 1)
    }

    fn op_index(
        &mut self,
        op: BinaryOp,
        collection: &Expr,
        index: &Expr,
        target: Span,
        value: &Expr,
        span: Span,
        env: ObjId,
        fuel: u64,
    ) -> (r: Result<Value, QuinceError>)
        ensures
            (final(self)@, res(r)) == s_op_index(
                fuel as nat,
                old(self)@,
                op,
                collection@,
                index@,
                target,
                value@,
                span,
                env,
            ),
        decreases fuel,
    {
        if fuel == 0 {
            return Err(too_far_error(span));
        }
        let (t, i) = match self.pair(collection, index, env, fuel - 1) {
            Ok(both) => both,
            Err(e) => {
                return Err(e);
            },
        };
        let before = self.index_get(t, i, target, fuel - 1)?;
        let hold = crate::interp::ops::two(t, i);
        let v = self.combined(op, before, &hold, target, value, span, env, fuel - 1)?;
        let at = PutSpans { index: index.span, value: span, whole: target };
        self.index_put(t, i, v, at, fuel - 1)
    }

    fn op_field(
        &mut self,
        op: BinaryOp,
        object: &Expr,
        name: &str,
        target: Span,
        value: &Expr,
        span: Span,
        env: ObjId,
        fuel: u64,
    ) -> (r: Result<Value, QuinceError>)
        ensures
            (final(self)@, res(r)) == s_op_field(
                fuel as nat,
                old(self)@,
                op,
                object@,
                name@,
                target,
                value@,
                span,
                env,
            ),
        decreases fuel,
    {
        if fuel == 0 {
            return Err(too_far_error(span));
        }
        let o = self.eval(object, env, fuel - 1)?;
        let at = spans_of_dot(object.span, target);
        let attr = match self.attr(o, name, at) {
            Ok(attr) => attr,
            Err(e) => {
                return Err(e);
            },
        };
        let hold = crate::interp::ops::one(o);
        let v = self.combined(
            op,
            attr.value(),
            &hold,
            target,
            value,
            span,
            env,
            fuel - 1,
        )?;
        self.store_field(o, name, v, at)
    }

    #[verifier::spinoff_prover]
    fn assign_op_expr(
        &mut self,
        op: BinaryOp,
        target: &Expr,
        value: &Expr,
        span: Span,
        env: ObjId,
        fuel: u64,
    ) -> (r: Result<Value, QuinceError>)
        ensures
            (final(self)@, res(r)) == s_assign_op_expr(
                fuel as nat,
                old(self)@,
                op,
                target@,
                value@,
                span,
                env,
            ),
        decreases fuel,
    {
        if fuel == 0 {
            return Err(too_far_error(span));
        }
        assert(expr_v(*target).kind == expr_kind_v(target.kind));
        proof {
            lemma_expr_kind(target.kind);
        }
        match &target.kind {
            ExprKind::Var(name) => {
                assert(target@.kind == ExprKindV::Var(name@));
                self.op_var(op, name.as_str(), target.span, value, span, env, fuel - 1)
            },
            ExprKind::Index { target: collection, index } => {
                assert(target@.kind == (ExprKindV::Index {
                    target: Box::new(expr_v(**collection)),
                    index: Box::new(expr_v(**index)),
                }));
                self.op_index(op, collection, index, target.span, value, span, env, fuel - 1)
            },
            ExprKind::Field { target: object, name } => {
                assert(target@.kind == (ExprKindV::Field { target: Box::new(expr_v(**object)), name: name@ }));
                self.op_field(op, object, name.as_str(), target.span, value, span, env, fuel - 1)
            },
            _ => Err(
                plain_type_error("cannot assign to this expression".to_owned(), target.span),
            ),
        }
    }
}

// -- all of them ----------------------------------------------------------------------------------------

/// Whether an expression has parts that are evaluated.
pub open spec fn is_simple(e: ExprV) -> bool {
    match e.kind {
        ExprKindV::Int(_) => true,
        ExprKindV::Float(_) => true,
        ExprKindV::Str(_) => true,
        ExprKindV::Bool(_) => true,
        ExprKindV::Nil => true,
        ExprKindV::Var(_) => true,
        ExprKindV::Super { .. } => true,
        _ => false,
    }
}

/// What an expression without parts evaluates to.
pub open spec fn s_simple(st: St, e: ExprV, env: ObjId) -> Out<Value> {
    match e.kind {
        ExprKindV::Int(n) => (st, Ok(Value::Int(n))),
        ExprKindV::Float(bits) => (st, Ok(Value::Float(bits))),
        ExprKindV::Str(text) => {
            let (st1, v) = s_text(st, text);
            (st1, Ok(v))
        },
        ExprKindV::Bool(b) => (st, Ok(Value::Bool(b))),
        ExprKindV::Var(name) => s_read(st, name, env, e.span),
        ExprKindV::Super { name } => s_super_expr(st, name, e.span, env),
        _ => (st, Ok(Value::Nil)),
    }
}

/// What an expression evaluates to, and the state evaluating it leaves.
pub open spec fn s_eval(f: nat, st: St, e: ExprV, env: ObjId) -> Out<Value>
    decreases f,
{
    if is_simple(e) {
        s_simple(st, e, env)
    } else if f == 0 {
        (st, Err(too_far(e.span)))
    } else {
        let g = (f - 1) as nat;
        match e.kind {
            ExprKindV::List(items) => s_list_literal(g, st, items, env),
            ExprKindV::Dict(pairs) => s_dict_literal(g, st, pairs, e.span, env),
            ExprKindV::Unary { op, rhs } => s_unary_expr(g, st, op, *rhs, e.span, env),
            ExprKindV::Binary { op, lhs, rhs } => s_binary_expr(
                g,
                st,
                op,
                *lhs,
                *rhs,
                e.span,
                env,
            ),
            ExprKindV::Logical { op, lhs, rhs } => s_logical_expr(g, st, op, *lhs, *rhs, env),
            ExprKindV::Call { callee, args } => s_call_expr(g, st, *callee, args, e.span, env),
            ExprKindV::Index { target, index } => s_index_expr(
                g,
                st,
                *target,
                *index,
                e.span,
                env,
            ),
            ExprKindV::TypeArgs { target, args } => s_applied_expr(g, st, *target, e.span, env),
            ExprKindV::Slice { target, start, end } => s_slice_expr(
                g,
                st,
                *target,
                start,
                end,
                e.span,
                env,
            ),
            ExprKindV::Field { target, name } => s_field_expr(g, st, *target, name, e.span, env),
            ExprKindV::Assign { target, value } => s_assign_expr(g, st, *target, *value, env),
            ExprKindV::AssignOp { op, target, value } => s_assign_op_expr(
                g,
                st,
                op,
                *target,
                *value,
                e.span,
                env,
            ),
            ExprKindV::Is { value, ty } => s_is_expr(g, st, *value, ty, env),
            _ => (st, Ok(Value::Nil)),
        }
    }
}

impl Interp {
    #[verifier::spinoff_prover]
    fn simple(&mut self, e: &Expr, env: ObjId) -> (r: Result<Value, QuinceError>)
        requires
            is_simple(e@),
        ensures
            (final(self)@, res(r)) == s_simple(old(self)@, e@, env),
    {
        assert(expr_v(*e).kind == expr_kind_v(e.kind));
        proof {
            lemma_expr_kind(e.kind);
        }
        match &e.kind {
            ExprKind::Int(n) => Ok(Value::Int(*n)),
            ExprKind::Float(bits) => Ok(Value::Float(*bits)),
            ExprKind::Str(text) => Ok(self.new_text(text.clone())),
            ExprKind::Bool(b) => Ok(Value::Bool(*b)),
            ExprKind::Var(name) => self.read(name.as_str(), env, e.span),
            ExprKind::Super { name } => self.super_expr(name.as_str(), e.span, env),
            _ => Ok(Value::Nil),
        }
    }

    fn eval_list(&mut self, e: &Expr, env: ObjId, fuel: u64) -> (r: Result<Value, QuinceError>)
        requires
            fuel > 0,
            e.kind is List,
        ensures
            (final(self)@, res(r)) == s_eval(fuel as nat, old(self)@, e@, env),
        decreases fuel, 0int,
    {
        let ghost f = (fuel - 1) as nat;
        let ghost goal = s_eval(fuel as nat, self@, e@, env);
        assert(expr_v(*e).kind == expr_kind_v(e.kind));
        match &e.kind {
            ExprKind::List(items) => {
                assert(e@.kind == ExprKindV::List(exprs_v(items@)));
                assert(e@.span == e.span);
                assert(goal == s_list_literal(f, self@, exprs_v(items@), env));
                self.list_literal(items, env, fuel - 1)
            },
            _ => Ok(Value::Nil),
        }
    }

    fn eval_dict(&mut self, e: &Expr, env: ObjId, fuel: u64) -> (r: Result<Value, QuinceError>)
        requires
            fuel > 0,
            e.kind is Dict,
        ensures
            (final(self)@, res(r)) == s_eval(fuel as nat, old(self)@, e@, env),
        decreases fuel, 0int,
    {
        let ghost f = (fuel - 1) as nat;
        let ghost goal = s_eval(fuel as nat, self@, e@, env);
        assert(expr_v(*e).kind == expr_kind_v(e.kind));
        match &e.kind {
            ExprKind::Dict(pairs) => {
                assert(e@.kind == ExprKindV::Dict(pairs_v(pairs@)));
                assert(e@.span == e.span);
                assert(goal == s_dict_literal(f, self@, pairs_v(pairs@), e.span, env));
                self.dict_literal(pairs, e.span, env, fuel - 1)
            },
            _ => Ok(Value::Nil),
        }
    }

    fn eval_unary(&mut self, e: &Expr, env: ObjId, fuel: u64) -> (r: Result<Value, QuinceError>)
        requires
            fuel > 0,
            e.kind is Unary,
        ensures
            (final(self)@, res(r)) == s_eval(fuel as nat, old(self)@, e@, env),
        decreases fuel, 0int,
    {
        let ghost f = (fuel - 1) as nat;
        let ghost goal = s_eval(fuel as nat, self@, e@, env);
        assert(expr_v(*e).kind == expr_kind_v(e.kind));
        match &e.kind {
            ExprKind::Unary { op, rhs } => {
                assert(e@.kind == ExprKindV::Unary { op: *op, rhs: Box::new(expr_v(**rhs)) });
                assert(e@.span == e.span);
                assert(goal == s_unary_expr(f, self@, *op, expr_v(**rhs), e.span, env));
                self.unary_expr(*op, rhs, e.span, env, fuel - 1)
            },
            _ => Ok(Value::Nil),
        }
    }

    fn eval_binary(&mut self, e: &Expr, env: ObjId, fuel: u64) -> (r: Result<Value, QuinceError>)
        requires
            fuel > 0,
            e.kind is Binary,
        ensures
            (final(self)@, res(r)) == s_eval(fuel as nat, old(self)@, e@, env),
        decreases fuel, 0int,
    {
        let ghost f = (fuel - 1) as nat;
        let ghost goal = s_eval(fuel as nat, self@, e@, env);
        assert(expr_v(*e).kind == expr_kind_v(e.kind));
        match &e.kind {
            ExprKind::Binary { op, lhs, rhs } => {
                assert(e@.kind == ExprKindV::Binary { op: *op, lhs: Box::new(expr_v(**lhs)), rhs: Box::new(expr_v(**rhs)) });
                assert(e@.span == e.span);
                assert(goal == s_binary_expr(f, self@, *op, expr_v(**lhs), expr_v(**rhs), e.span, env));
                self.binary_expr(*op, lhs, rhs, e.span, env, fuel - 1)
            },
            _ => Ok(Value::Nil),
        }
    }

    fn eval_logical(&mut self, e: &Expr, env: ObjId, fuel: u64) -> (r: Result<Value, QuinceError>)
        requires
            fuel > 0,
            e.kind is Logical,
        ensures
            (final(self)@, res(r)) == s_eval(fuel as nat, old(self)@, e@, env),
        decreases fuel, 0int,
    {
        let ghost f = (fuel - 1) as nat;
        let ghost goal = s_eval(fuel as nat, self@, e@, env);
        assert(expr_v(*e).kind == expr_kind_v(e.kind));
        match &e.kind {
            ExprKind::Logical { op, lhs, rhs } => {
                assert(e@.kind == ExprKindV::Logical { op: *op, lhs: Box::new(expr_v(**lhs)), rhs: Box::new(expr_v(**rhs)) });
                assert(e@.span == e.span);
                assert(goal == s_logical_expr(f, self@, *op, expr_v(**lhs), expr_v(**rhs), env));
                self.logical_expr(*op, lhs, rhs, env, fuel - 1)
            },
            _ => Ok(Value::Nil),
        }
    }

    fn eval_call(&mut self, e: &Expr, env: ObjId, fuel: u64) -> (r: Result<Value, QuinceError>)
        requires
            fuel > 0,
            e.kind is Call,
        ensures
            (final(self)@, res(r)) == s_eval(fuel as nat, old(self)@, e@, env),
        decreases fuel, 0int,
    {
        let ghost f = (fuel - 1) as nat;
        let ghost goal = s_eval(fuel as nat, self@, e@, env);
        assert(expr_v(*e).kind == expr_kind_v(e.kind));
        match &e.kind {
            ExprKind::Call { callee, args } => {
                assert(e@.kind == ExprKindV::Call { callee: Box::new(expr_v(**callee)), args: call_args_v(args@) });
                assert(e@.span == e.span);
                assert(goal == s_call_expr(f, self@, expr_v(**callee), call_args_v(args@), e.span, env));
                self.call_expr(callee, args, e.span, env, fuel - 1)
            },
            _ => Ok(Value::Nil),
        }
    }

    fn eval_index(&mut self, e: &Expr, env: ObjId, fuel: u64) -> (r: Result<Value, QuinceError>)
        requires
            fuel > 0,
            e.kind is Index,
        ensures
            (final(self)@, res(r)) == s_eval(fuel as nat, old(self)@, e@, env),
        decreases fuel, 0int,
    {
        let ghost f = (fuel - 1) as nat;
        let ghost goal = s_eval(fuel as nat, self@, e@, env);
        assert(expr_v(*e).kind == expr_kind_v(e.kind));
        match &e.kind {
            ExprKind::Index { target, index } => {
                assert(e@.kind == ExprKindV::Index { target: Box::new(expr_v(**target)), index: Box::new(expr_v(**index)) });
                assert(e@.span == e.span);
                assert(goal == s_index_expr(f, self@, expr_v(**target), expr_v(**index), e.span, env));
                self.index_expr(target, index, e.span, env, fuel - 1)
            },
            _ => Ok(Value::Nil),
        }
    }

    fn eval_applied(&mut self, e: &Expr, env: ObjId, fuel: u64) -> (r: Result<Value, QuinceError>)
        requires
            fuel > 0,
            e.kind is TypeArgs,
        ensures
            (final(self)@, res(r)) == s_eval(fuel as nat, old(self)@, e@, env),
        decreases fuel, 0int,
    {
        let ghost f = (fuel - 1) as nat;
        let ghost goal = s_eval(fuel as nat, self@, e@, env);
        assert(expr_v(*e).kind == expr_kind_v(e.kind));
        match &e.kind {
            ExprKind::TypeArgs { target, args } => {
                assert(e@.kind == ExprKindV::TypeArgs { target: Box::new(expr_v(**target)), args: exprs_v(args@) });
                assert(e@.span == e.span);
                assert(goal == s_applied_expr(f, self@, expr_v(**target), e.span, env));
                self.applied_expr(target, e.span, env, fuel - 1)
            },
            _ => Ok(Value::Nil),
        }
    }

    fn eval_slice(&mut self, e: &Expr, env: ObjId, fuel: u64) -> (r: Result<Value, QuinceError>)
        requires
            fuel > 0,
            e.kind is Slice,
        ensures
            (final(self)@, res(r)) == s_eval(fuel as nat, old(self)@, e@, env),
        decreases fuel, 0int,
    {
        let ghost f = (fuel - 1) as nat;
        let ghost goal = s_eval(fuel as nat, self@, e@, env);
        assert(expr_v(*e).kind == expr_kind_v(e.kind));
        match &e.kind {
            ExprKind::Slice { target, start, end } => {
                assert(e@.kind == ExprKindV::Slice { target: Box::new(expr_v(**target)), start: opt_boxed(*start), end: opt_boxed(*end) });
                assert(e@.span == e.span);
                assert(goal == s_slice_expr(f, self@, expr_v(**target), opt_boxed(*start), opt_boxed(*end), e.span, env));
                self.slice_expr(target, start, end, e.span, env, fuel - 1)
            },
            _ => Ok(Value::Nil),
        }
    }

    fn eval_field(&mut self, e: &Expr, env: ObjId, fuel: u64) -> (r: Result<Value, QuinceError>)
        requires
            fuel > 0,
            e.kind is Field,
        ensures
            (final(self)@, res(r)) == s_eval(fuel as nat, old(self)@, e@, env),
        decreases fuel, 0int,
    {
        let ghost f = (fuel - 1) as nat;
        let ghost goal = s_eval(fuel as nat, self@, e@, env);
        assert(expr_v(*e).kind == expr_kind_v(e.kind));
        match &e.kind {
            ExprKind::Field { target, name } => {
                assert(e@.kind == ExprKindV::Field { target: Box::new(expr_v(**target)), name: name@ });
                assert(e@.span == e.span);
                assert(goal == s_field_expr(f, self@, expr_v(**target), name@, e.span, env));
                self.field_expr(target, name.as_str(), e.span, env, fuel - 1)
            },
            _ => Ok(Value::Nil),
        }
    }

    fn eval_assign(&mut self, e: &Expr, env: ObjId, fuel: u64) -> (r: Result<Value, QuinceError>)
        requires
            fuel > 0,
            e.kind is Assign,
        ensures
            (final(self)@, res(r)) == s_eval(fuel as nat, old(self)@, e@, env),
        decreases fuel, 0int,
    {
        let ghost f = (fuel - 1) as nat;
        let ghost goal = s_eval(fuel as nat, self@, e@, env);
        assert(expr_v(*e).kind == expr_kind_v(e.kind));
        match &e.kind {
            ExprKind::Assign { target, value } => {
                assert(e@.kind == ExprKindV::Assign { target: Box::new(expr_v(**target)), value: Box::new(expr_v(**value)) });
                assert(e@.span == e.span);
                assert(goal == s_assign_expr(f, self@, expr_v(**target), expr_v(**value), env));
                self.assign_expr(target, value, env, fuel - 1)
            },
            _ => Ok(Value::Nil),
        }
    }

    fn eval_assign_op(&mut self, e: &Expr, env: ObjId, fuel: u64) -> (r: Result<Value, QuinceError>)
        requires
            fuel > 0,
            e.kind is AssignOp,
        ensures
            (final(self)@, res(r)) == s_eval(fuel as nat, old(self)@, e@, env),
        decreases fuel, 0int,
    {
        let ghost f = (fuel - 1) as nat;
        let ghost goal = s_eval(fuel as nat, self@, e@, env);
        assert(expr_v(*e).kind == expr_kind_v(e.kind));
        match &e.kind {
            ExprKind::AssignOp { op, target, value } => {
                assert(e@.kind == ExprKindV::AssignOp { op: *op, target: Box::new(expr_v(**target)), value: Box::new(expr_v(**value)) });
                assert(e@.span == e.span);
                assert(goal == s_assign_op_expr(f, self@, *op, expr_v(**target), expr_v(**value), e.span, env));
                self.assign_op_expr(*op, target, value, e.span, env, fuel - 1)
            },
            _ => Ok(Value::Nil),
        }
    }

    fn eval_is(&mut self, e: &Expr, env: ObjId, fuel: u64) -> (r: Result<Value, QuinceError>)
        requires
            fuel > 0,
            e.kind is Is,
        ensures
            (final(self)@, res(r)) == s_eval(fuel as nat, old(self)@, e@, env),
        decreases fuel, 0int,
    {
        let ghost f = (fuel - 1) as nat;
        let ghost goal = s_eval(fuel as nat, self@, e@, env);
        assert(expr_v(*e).kind == expr_kind_v(e.kind));
        match &e.kind {
            ExprKind::Is { value, ty } => {
                assert(e@.kind == ExprKindV::Is { value: Box::new(expr_v(**value)), ty: type_expr_v(*ty) });
                assert(e@.span == e.span);
                assert(goal == s_is_expr(f, self@, expr_v(**value), type_expr_v(*ty), env));
                self.is_expr(value, ty, env, fuel - 1)
            },
            _ => Ok(Value::Nil),
        }
    }

    /// Evaluates an expression.
    pub(crate) fn eval(&mut self, e: &Expr, env: ObjId, fuel: u64) -> (r: Result<
        Value,
        QuinceError,
    >)
        ensures
            (final(self)@, res(r)) == s_eval(fuel as nat, old(self)@, e@, env),
        decreases fuel, 1int,
    {
        if plain(e) {
            return self.simple(e, env);
        }
        assert(expr_v(*e).kind == expr_kind_v(e.kind));
        if fuel == 0 {
            return Err(too_far_error(e.span));
        }
        match &e.kind {
            ExprKind::List(_) => self.eval_list(e, env, fuel),
            ExprKind::Dict(_) => self.eval_dict(e, env, fuel),
            ExprKind::Unary { op: _, rhs: _ } => self.eval_unary(e, env, fuel),
            ExprKind::Binary { op: _, lhs: _, rhs: _ } => self.eval_binary(e, env, fuel),
            ExprKind::Logical { op: _, lhs: _, rhs: _ } => self.eval_logical(e, env, fuel),
            ExprKind::Call { callee: _, args: _ } => self.eval_call(e, env, fuel),
            ExprKind::Index { target: _, index: _ } => self.eval_index(e, env, fuel),
            ExprKind::TypeArgs { target: _, args: _ } => self.eval_applied(e, env, fuel),
            ExprKind::Slice { target: _, start: _, end: _ } => self.eval_slice(e, env, fuel),
            ExprKind::Field { target: _, name: _ } => self.eval_field(e, env, fuel),
            ExprKind::Assign { target: _, value: _ } => self.eval_assign(e, env, fuel),
            ExprKind::AssignOp { op: _, target: _, value: _ } => self.eval_assign_op(e, env, fuel),
            ExprKind::Is { value: _, ty: _ } => self.eval_is(e, env, fuel),
            _ => Ok(Value::Nil),
        }
    }
}

fn plain(e: &Expr) -> (r: bool)
    ensures
        r == is_simple(e@),
{
    assert(expr_v(*e).kind == expr_kind_v(e.kind));
    match &e.kind {
        ExprKind::Int(_) => true,
        ExprKind::Float(_) => true,
        ExprKind::Str(_) => true,
        ExprKind::Bool(_) => true,
        ExprKind::Nil => true,
        ExprKind::Var(_) => true,
        ExprKind::Super { name: _ } => true,
        _ => false,
    }
}

} // verus!
