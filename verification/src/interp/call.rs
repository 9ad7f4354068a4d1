//! Calls: functions, builtins, bound methods and classes, and the arguments they are
//! given.

use crate::error::{err_help, res, ErrV, ErrorKind, QuinceError};
use crate::interp::coerce::{s_coerced, s_initial, value_list};
use crate::interp::declare::{block_scope, make_scope};
use crate::interp::dispatch::{
    arrange, callable_name, called_name, opt_shape, param_names, param_refs_v, params_after,
    params_of, s_arrange, selected, shape_for, shape_for_method, Arranged, ArrangedV, Shape,
    ShapeV,
};
use crate::interp::error::{
    check_arity, frozen, frozen_error, helped_type_error, s_check_arity, too_far, too_far_error,
};
use crate::interp::eval::{arg_exprs, arg_refs, s_eval, s_values};
use crate::interp::exec::{s_stmts, Flow};
use crate::interp::files::located;
use crate::interp::fit::{unwritten, Written};
use crate::interp::generic::substituted;
use crate::interp::native::{arg, argument, not_a, s_plain_native};
use crate::interp::object::{no_payload, Attr};
use crate::interp::operator::op_returned;
use crate::interp::ops::{s_call_op, s_is_truthy};
use crate::interp::params::{bindings_for, bindings_of, current};
use crate::interp::show::{s_display, Ask};
use crate::interp::state::{
    bindings_v, cut, frames_v, held, popped, released, rooted, s_text, with_heap, with_new,
    Binding, BindingV, Interp, MAX_DEPTH, Out, St,
};
use crate::runtime::class::{base, builtin_base, class_of, lineage, method_in, slot_of, type_text};
use crate::runtime::heap::{at_index, field_put, frozen_by, payload_put, HeapV};
use crate::runtime::object::{nameds_v, opt_ty, FunctionV, Instance, InstanceV, Named, ObjV, Object};
use crate::runtime::scope::declared;
use crate::runtime::types::{an, with_article};
use crate::runtime::value::{Builtin, Native, ObjId, Value};
use crate::syntax::ast::{
    block_v, call_args_v, class_decl_v, field_decl_v, field_decls_v, fn_decl_v, group_models,
    param_v, params_v, stmts_v, CallArg, CallArgV, FieldDecl, FieldDeclV, FnDecl, Op, Param,
    ParamV, TypeExpr, TypeExprV,
};
use crate::syntax::token::Span;
use crate::text::{cat2, cat3, cat5, lemma_strs_push, strs};
use std::rc::Rc;
use vstd::prelude::*;

verus! {

broadcast use {group_models, lemma_strs_push};

// -- reports ----------------------------------------------------------------------------------

pub open spec fn not_callable(h: HeapV, v: Value, span: Span) -> ErrV {
    err_help(
        ErrorKind::Type,
        type_text(h, v) + " is not callable"@,
        span,
        "only functions and classes can be called"@,
    )
}

pub open spec fn recursion_limit(span: Span) -> ErrV {
    err_help(
        ErrorKind::Recursion,
        "recursion limit of 250 calls exceeded"@,
        span,
        "the recursion needs a base case that stops sooner, or rewriting as a loop — the limit is a fixed count and not a memory the program ran out of"@,
    )
}

fn recursion_limit_error(span: Span) -> (r: QuinceError)
    ensures
        r@ == recursion_limit(span),
{
    QuinceError::new(
        ErrorKind::Recursion,
        "recursion limit of 250 calls exceeded".to_owned(),
        span,
    ).with_help(
        "the recursion needs a base case that stops sooner, or rewriting as a loop — the limit is a fixed count and not a memory the program ran out of".to_owned(),
    )
}

pub open spec fn missing_argument(name: Seq<char>, param: Seq<char>, span: Span) -> ErrV {
    err_help(
        ErrorKind::Type,
        "`"@ + name + "` needs an argument for `"@ + param + "`"@,
        span,
        "it has no default, so every call has to say what it is — pass it in order, or write `"@
            + param + ": …`"@,
    )
}

fn missing_argument_error(name: &str, param: &str, span: Span) -> (r: QuinceError)
    ensures
        r@ == missing_argument(name@, param@, span),
{
    let help = cat3(
        "it has no default, so every call has to say what it is — pass it in order, or write `",
        param,
        ": …`",
    );
    helped_type_error(
        cat5("`", name, "` needs an argument for `", param, "`"),
        span,
        help.as_str(),
    )
}

impl Interp {
    fn not_callable(&self, v: Value, span: Span) -> (r: QuinceError)
        ensures
            r@ == not_callable(self@.heap, v, span),
    {
        let kind = self.heap.type_text(v);
        helped_type_error(
            cat2(kind.as_str(), " is not callable"),
            span,
            "only functions and classes can be called",
        )
    }
}

// -- arguments -----------------------------------------------------------------------------------

/// The parameters from `i` on given what they were filled with, or their defaults,
/// evaluated now in the scope of the declaration.
pub open spec fn s_fill_defaults(
    f: nat,
    st: St,
    params: Seq<ParamV>,
    filled: Seq<Option<Value>>,
    env: ObjId,
    name: Seq<char>,
    span: Span,
    i: int,
    so_far: Seq<Value>,
) -> Out<Seq<Value>>
    decreases f,
{
    if i < 0 || i >= params.len() || i >= filled.len() {
        (st, Ok(so_far))
    } else if f == 0 {
        (st, Err(too_far(span)))
    } else {
        match filled[i] {
            Some(v) => s_fill_defaults(
                (f - 1) as nat,
                st,
                params,
                filled,
                env,
                name,
                span,
                i + 1,
                so_far.push(v),
            ),
            None => match params[i].default {
                None => (st, Err(missing_argument(name, params[i].name, span))),
                Some(e) => match s_eval((f - 1) as nat, st, e, env) {
                    (st1, Ok(v)) => s_fill_defaults(
                        (f - 1) as nat,
                        rooted(st1, v),
                        params,
                        filled,
                        env,
                        name,
                        span,
                        i + 1,
                        so_far.push(v),
                    ),
                    (st1, Err(e)) => (st1, Err(e)),
                },
            },
        }
    }
}

/// The arguments of a call in the order its parameters take them.
pub open spec fn s_arranged(
    f: nat,
    st: St,
    hold: Seq<Value>,
    shape: Option<ShapeV>,
    args: Seq<CallArgV>,
    values: Seq<Value>,
    name: Seq<char>,
    span: Span,
) -> Out<Seq<Value>>
    decreases f,
{
    match s_arrange(shape, args, values, name, span) {
        Err(e) => (st, Err(e)),
        Ok(ArrangedV::Done(v)) => (st, Ok(v)),
        Ok(ArrangedV::Filled(filled)) => match shape {
            None => (st, Ok(values)),
            Some(s) => if f == 0 {
                (st, Err(too_far(span)))
            } else {
                let (st1, r) = s_fill_defaults(
                    (f - 1) as nat,
                    held(held(st, hold), values),
                    params_after(s.decl.params, s.receiver),
                    filled,
                    s.env,
                    name,
                    span,
                    0,
                    Seq::empty(),
                );
                (released(st1, st.temps.len() as int), r)
            },
        },
    }
}

impl Interp {
    fn fill_defaults(
        &mut self,
        params: &Vec<&Param>,
        filled: &Vec<Option<Value>>,
        env: ObjId,
        name: &str,
        span: Span,
        fuel: u64,
    ) -> (r: Result<Vec<Value>, QuinceError>)
        ensures
            (final(self)@, value_list(r)) == s_fill_defaults(
                fuel as nat,
                old(self)@,
                param_refs_v(params@),
                filled@,
                env,
                name@,
                span,
                0,
                Seq::empty(),
            ),
        decreases fuel,
    {
        let ghost all = param_refs_v(params@);
        let ghost goal = s_fill_defaults(
            fuel as nat,
            self@,
            all,
            filled@,
            env,
            name@,
            span,
            0,
            Seq::empty(),
        );
        let mut r: Vec<Value> = Vec::new();
        assert(r@ =~= Seq::empty());
        let mut left: u64 = fuel;
        let mut i: usize = 0;
        while i < params.len() && i < filled.len()
            invariant
                left <= fuel,
                i <= params@.len(),
                all == param_refs_v(params@),
                goal == s_fill_defaults(
                    fuel as nat,
                    old(self)@,
                    all,
                    filled@,
                    env,
                    name@,
                    span,
                    0,
                    Seq::empty(),
                ),
                goal == s_fill_defaults(
                    left as nat,
                    self@,
                    all,
                    filled@,
                    env,
                    name@,
                    span,
                    i as int,
                    r@,
                ),
            decreases params@.len() - i,
        {
            if left == 0 {
                return Err(too_far_error(span));
            }
            left -= 1;
            match filled[i] {
                Some(v) => {
                    r.push(v);
                },
                None => {
                    assert(all[i as int] == param_v(*params@[i as int]));
                    match &params[i].default {
                        None => {
                            return Err(
                                missing_argument_error(name, params[i].name.as_str(), span),
                            );
                        },
                        Some(e) => {
                            let v = match self.eval(e, env, left) {
                                Ok(v) => v,
                                Err(e) => {
                                    return Err(e);
                                },
                            };
                            self.root(v);
                            r.push(v);
                        },
                    }
                },
            }
            i += 1;
        }
        Ok(r)
    }

    fn arranged(
        &mut self,
        hold: &Vec<Value>,
        shape: &Option<Shape>,
        args: &Vec<CallArg>,
        values: Vec<Value>,
        name: &str,
        span: Span,
        fuel: u64,
    ) -> (r: Result<Vec<Value>, QuinceError>)
        ensures
            (final(self)@, value_list(r)) == s_arranged(
                fuel as nat,
                old(self)@,
                hold@,
                opt_shape(*shape),
                call_args_v(args@),
                values@,
                name@,
                span,
            ),
        decreases fuel,
    {
        let copy = crate::runtime::heap::copy_values(&values);
        match arrange(shape, args, values, name, span) {
            Err(e) => Err(e),
            Ok(Arranged::Done(v)) => Ok(v),
            Ok(Arranged::Filled(filled)) => match shape {
                None => Ok(copy),
                Some(s) => {
                    if fuel == 0 {
                        return Err(too_far_error(span));
                    }
                    let mark: usize = self.temps.len();
                    self.hold(hold);
                    self.hold(&copy);
                    let params = params_of(&s.decl, s.receiver);
                    let r = self.fill_defaults(&params, &filled, s.env, name, span, fuel - 1);
                    self.release(mark);
                    r
                },
            },
        }
    }
}

// -- call expressions -------------------------------------------------------------------------------

/// Calls what an expression reached, its arguments evaluated.
pub open spec fn s_reach(
    f: nat,
    st: St,
    target: Value,
    args: Seq<CallArgV>,
    values: Seq<Value>,
    header: Option<TypeExprV>,
    span: Span,
) -> Out<Value>
    decreases f,
{
    if f == 0 {
        (st, Err(too_far(span)))
    } else {
        match shape_for(st.heap, target, args, values, span) {
            Err(e) => (st, Err(e)),
            Ok(shape) => match s_arranged(
                (f - 1) as nat,
                st,
                seq![target],
                shape,
                args,
                values,
                called_name(st.heap, target),
                span,
            ) {
                (st1, Err(e)) => (st1, Err(e)),
                (st1, Ok(given)) => {
                    let (st2, r) = s_call(
                        (f - 1) as nat,
                        St { pending: header, ..st1 },
                        target,
                        given,
                        span,
                    );
                    (St { pending: None, ..st2 }, r)
                },
            },
        }
    }
}

/// Calls a value with arguments as a call expression writes them. What a construction
/// was to be described as is kept from its arguments.
pub open spec fn s_call_evaluated(
    f: nat,
    st: St,
    target: Value,
    args: Seq<CallArgV>,
    env: ObjId,
    span: Span,
) -> Out<Value>
    decreases f,
{
    if f == 0 {
        (st, Err(too_far(span)))
    } else {
        match s_values(
            (f - 1) as nat,
            rooted(St { pending: None, ..st }, target),
            arg_exprs(args),
            env,
            st.temps.len() as int,
            0,
            Seq::empty(),
        ) {
            (st1, Err(e)) => (st1, Err(e)),
            (st1, Ok(values)) => s_reach(
                (f - 1) as nat,
                st1,
                target,
                args,
                values,
                st.pending,
                span,
            ),
        }
    }
}

/// Calls what a dot found on a receiver, its arguments evaluated.
pub open spec fn s_reach_attr(
    f: nat,
    st: St,
    receiver: Value,
    attr: Attr,
    args: Seq<CallArgV>,
    values: Seq<Value>,
    span: Span,
) -> Out<Value>
    decreases f,
{
    if f == 0 {
        (st, Err(too_far(span)))
    } else {
        match attr {
            Attr::Field(v) => s_reach((f - 1) as nat, st, v, args, values, None, span),
            Attr::Method(m) => match shape_for_method(st.heap, m, args, values, true, span) {
                Err(e) => (st, Err(e)),
                Ok(shape) => match s_arranged(
                    (f - 1) as nat,
                    st,
                    seq![receiver, m],
                    shape,
                    args,
                    values,
                    callable_name(st.heap, m),
                    span,
                ) {
                    (st1, Err(e)) => (st1, Err(e)),
                    (st1, Ok(given)) => s_call_method((f - 1) as nat, st1, receiver, m, given, span),
                },
            },
        }
    }
}

impl Interp {
    fn reach(
        &mut self,
        target: Value,
        args: &Vec<CallArg>,
        values: Vec<Value>,
        header: Option<Rc<TypeExpr>>,
        span: Span,
        fuel: u64,
    ) -> (r: Result<Value, QuinceError>)
        ensures
            (final(self)@, res(r)) == s_reach(
                fuel as nat,
                old(self)@,
                target,
                call_args_v(args@),
                values@,
                opt_ty(header),
                span,
            ),
        decreases fuel,
    {
        if fuel == 0 {
            return Err(too_far_error(span));
        }
        let shape = match self.heap.shape_for(target, args, &values, span) {
            Ok(shape) => shape,
            Err(e) => {
                return Err(e);
            },
        };
        let name = self.heap.called_name(target);
        let hold = crate::interp::ops::one(target);
        let given = match self.arranged(
            &hold,
            &shape,
            args,
            values,
            name.as_str(),
            span,
            fuel - 1,
        ) {
            Ok(given) => given,
            Err(e) => {
                return Err(e);
            },
        };
        self.pending = header;
        let r = self.call(target, given, span, fuel - 1);
        self.pending = None;
        r
    }

    /// Calls a value with arguments as a call expression writes them.
    pub(crate) fn call_evaluated(
        &mut self,
        target: Value,
        args: &Vec<CallArg>,
        env: ObjId,
        span: Span,
        fuel: u64,
    ) -> (r: Result<Value, QuinceError>)
        ensures
            (final(self)@, res(r)) == s_call_evaluated(
                fuel as nat,
                old(self)@,
                target,
                call_args_v(args@),
                env,
                span,
            ),
        decreases fuel,
    {
        if fuel == 0 {
            return Err(too_far_error(span));
        }
        let mark: usize = self.temps.len();
        let header = self.take_pending();
        self.root(target);
        let exprs = arg_refs(args);
        let values = match self.values(&exprs, env, mark, fuel - 1) {
            Ok(values) => values,
            Err(e) => {
                return Err(e);
            },
        };
        self.reach(target, args, values, header, span, fuel - 1)
    }

    /// Calls what a dot found on a receiver.
    pub(crate) fn reach_attr(
        &mut self,
        receiver: Value,
        attr: Attr,
        args: &Vec<CallArg>,
        values: Vec<Value>,
        span: Span,
        fuel: u64,
    ) -> (r: Result<Value, QuinceError>)
        ensures
            (final(self)@, res(r)) == s_reach_attr(
                fuel as nat,
                old(self)@,
                receiver,
                attr,
                call_args_v(args@),
                values@,
                span,
            ),
        decreases fuel,
    {
        if fuel == 0 {
            return Err(too_far_error(span));
        }
        match attr {
            Attr::Field(v) => self.reach(v, args, values, None, span, fuel - 1),
            Attr::Method(m) => {
                let shape = match self.heap.shape_for_method(m, args, &values, true, span) {
                    Ok(shape) => shape,
                    Err(e) => {
                        return Err(e);
                    },
                };
                let name = self.heap.callable_name(m);
                let hold = crate::interp::ops::two(receiver, m);
                let given = match self.arranged(
                    &hold,
                    &shape,
                    args,
                    values,
                    name.as_str(),
                    span,
                    fuel - 1,
                ) {
                    Ok(given) => given,
                    Err(e) => {
                        return Err(e);
                    },
                };
                self.call_method(receiver, m, given, span, fuel - 1)
            },
        }
    }
}

// -- calls ---------------------------------------------------------------------------------------------

/// Calls a value with arguments in the order they are taken.
pub open spec fn s_call(f: nat, st: St, target: Value, args: Seq<Value>, span: Span) -> Out<Value>
    decreases f,
{
    if f == 0 {
        (st, Err(too_far(span)))
    } else {
        match target {
            Value::Overload(_) => match selected(
                st.heap,
                target,
                Seq::empty(),
                args,
                false,
                span,
            ) {
                Err(e) => (st, Err(e)),
                Ok(chosen) => s_call((f - 1) as nat, st, chosen, args, span),
            },
            Value::Native(native) => s_call_native((f - 1) as nat, st, native, args, span),
            Value::Function(id) => s_call_function((f - 1) as nat, st, id, args, span),
            Value::BoundMethod(id) => s_call_method(
                (f - 1) as nat,
                st,
                st.heap.bound(id).0,
                st.heap.bound(id).1,
                args,
                span,
            ),
            Value::Class(id) => s_call_class((f - 1) as nat, st, id, args, span),
            _ => (st, Err(not_callable(st.heap, target, span))),
        }
    }
}

impl Interp {
    /// Calls a value with arguments in the order they are taken.
    pub(crate) fn call(&mut self, target: Value, args: Vec<Value>, span: Span, fuel: u64) -> (r:
        Result<Value, QuinceError>)
        ensures
            (final(self)@, res(r)) == s_call(fuel as nat, old(self)@, target, args@, span),
        decreases fuel,
    {
        if fuel == 0 {
            return Err(too_far_error(span));
        }
        match target {
            Value::Overload(_) => {
                let none: Vec<CallArg> = Vec::new();
                let chosen = self.heap.selected(target, &none, &args, false, span)?;
                self.call(chosen, args, span, fuel - 1)
            },
            Value::Native(native) => self.call_native(native, args, span, fuel - 1),
            Value::Function(id) => self.call_function(id, args, span, fuel - 1),
            Value::BoundMethod(id) => {
                let (receiver, method) = self.heap.bound(id);
                self.call_method(receiver, method, args, span, fuel - 1)
            },
            Value::Class(id) => self.call_class(id, args, span, fuel - 1),
            _ => Err(self.not_callable(target, span)),
        }
    }
}

// -- functions -------------------------------------------------------------------------------------------

/// The bindings a call runs under: those of its receiver, for a method.
pub open spec fn frame_of(h: HeapV, params: Seq<ParamV>, args: Seq<Value>) -> Seq<BindingV> {
    if params.len() > 0 && params[0].receiver && args.len() > 0 {
        bindings_of(h, args[0])
    } else {
        Seq::empty()
    }
}

/// The state a function's parameters are bound in: its scope is there, and everything
/// the call needs is held.
pub open spec fn entered(st: St, fun: FunctionV, args: Seq<Value>) -> St {
    let st1 = with_new(
        st,
        block_scope(param_names(fun.decl.params), fun.decl.body.stmts, fun.env),
    );
    St {
        temps: st1.temps + args,
        scopes: st1.scopes.push(st.heap.next_id()),
        bindings: st1.bindings.push(frame_of(st1.heap, fun.decl.params, args)),
        pending: None,
        ..st1
    }
}

/// The state once a call is over.
pub open spec fn left_again(st: St, before: St) -> St {
    St {
        temps: cut(st.temps, before.temps.len() as int),
        scopes: popped(st.scopes),
        bindings: popped(st.bindings),
        ..st
    }
}

pub open spec fn opt_substituted(st: St, ty: Option<TypeExprV>) -> Option<TypeExprV> {
    match ty {
        Some(ty) => Some(substituted(ty, current(st))),
        None => None,
    }
}

/// A parameter given its value.
pub open spec fn param_bound(st: St, p: ParamV, v: Value, scope: ObjId) -> St {
    let h = if p.bind.does_freeze() {
        frozen_by(st.heap, v)
    } else {
        st.heap
    };
    with_heap(st, declared(h, scope, p.name, v, p.bind, opt_substituted(st, p.ty)))
}

/// A parameter given an argument, coerced to its type.
pub open spec fn s_bind_param(f: nat, st: St, p: ParamV, v: Value, scope: ObjId, span: Span) -> Out<()>
    decreases f,
{
    match p.ty {
        None => (param_bound(st, p, v, scope), Ok(())),
        Some(ty) => if f == 0 {
            (st, Err(too_far(span)))
        } else {
            match s_coerced(
                (f - 1) as nat,
                st,
                ty,
                v,
                "`"@ + p.name + "`"@,
                span,
                unwritten(),
            ) {
                (st1, Ok(given)) => (param_bound(st1, p, given, scope), Ok(())),
                (st1, Err(e)) => (st1, Err(e)),
            }
        },
    }
}

/// The parameters from `i` on given their arguments.
pub open spec fn s_bind_params(
    f: nat,
    st: St,
    params: Seq<ParamV>,
    args: Seq<Value>,
    scope: ObjId,
    span: Span,
    i: int,
) -> Out<()>
    decreases f,
{
    if i < 0 || i >= params.len() || i >= args.len() {
        (st, Ok(()))
    } else if f == 0 {
        (st, Err(too_far(span)))
    } else {
        match s_bind_param((f - 1) as nat, st, params[i], args[i], scope, span) {
            (st1, Ok(_)) => s_bind_params((f - 1) as nat, st1, params, args, scope, span, i + 1),
            (st1, Err(e)) => (st1, Err(e)),
        }
    }
}

pub open spec fn deeper(depth: usize) -> usize {
    if depth < usize::MAX {
        (depth + 1) as usize
    } else {
        depth
    }
}

/// Runs a function's body, one call deeper and in its class's name.
pub open spec fn s_run_body(f: nat, st: St, fun: FunctionV, scope: ObjId) -> Out<Value>
    decreases f,
{
    if f == 0 {
        (st, Err(too_far(fun.decl.body.span)))
    } else {
        let (st1, r) = s_stmts(
            (f - 1) as nat,
            St { depth: deeper(st.depth), reaching: st.reaching.push(fun.owner), ..st },
            fun.decl.body.stmts,
            scope,
            0,
        );
        let st2 = St { depth: st.depth, reaching: popped(st1.reaching), ..st1 };
        match r {
            Ok(Flow::Return(v)) => (st2, Ok(v)),
            Ok(Flow::Normal) => (st2, Ok(Value::Nil)),
            Err(e) => (st2, Err(located(st2, fun.env, e))),
        }
    }
}

/// Binds a function's parameters, runs its body and checks what it answers.
pub open spec fn s_invoke(
    f: nat,
    st: St,
    fun: FunctionV,
    args: Seq<Value>,
    scope: ObjId,
    span: Span,
) -> Out<Value>
    decreases f,
{
    if f == 0 {
        (st, Err(too_far(span)))
    } else {
        match s_bind_params((f - 1) as nat, st, fun.decl.params, args, scope, span, 0) {
            (st1, Err(e)) => (st1, Err(e)),
            (st1, Ok(_)) => match s_run_body((f - 1) as nat, st1, fun, scope) {
                (st2, Err(e)) => (st2, Err(e)),
                (st2, Ok(v)) => match fun.decl.result {
                    None => (st2, Ok(v)),
                    Some(ty) => s_coerced(
                        (f - 1) as nat,
                        st2,
                        ty,
                        v,
                        "`"@ + fun.decl.name + "`\u{2019}s return"@,
                        span,
                        unwritten(),
                    ),
                },
            },
        }
    }
}

/// Calls a function of the program.
pub open spec fn s_call_function(f: nat, st: St, id: ObjId, args: Seq<Value>, span: Span) -> Out<Value>
    decreases f,
{
    match st.heap.function(id) {
        None => (st, Err(not_callable(st.heap, Value::Function(id), span))),
        Some(fun) => match s_check_arity(
            fun.decl.name,
            fun.decl.params.len(),
            args.len(),
            span,
        ) {
            Err(e) => (st, Err(e)),
            Ok(_) => if st.depth >= MAX_DEPTH {
                (st, Err(recursion_limit(span)))
            } else if f == 0 {
                (st, Err(too_far(span)))
            } else {
                let (st1, r) = s_invoke(
                    (f - 1) as nat,
                    entered(st, fun, args),
                    fun,
                    args,
                    st.heap.next_id(),
                    span,
                );
                (left_again(st1, st), r)
            },
        },
    }
}

fn names_of_params(params: &Vec<Param>) -> (r: Vec<String>)
    ensures
        strs(r@) == param_names(params_v(params@)),
{
    let mut r: Vec<String> = Vec::new();
    let mut i: usize = 0;
    let ghost goal = param_names(params_v(params@));
    while i < params.len()
        invariant
            i <= params@.len(),
            goal == param_names(params_v(params@)),
            strs(r@) == goal.take(i as int),
        decreases params@.len() - i,
    {
        r.push(params[i].name.clone());
        assert(strs(r@) =~= goal.take(i + 1));
        i += 1;
    }
    assert(strs(r@) =~= goal);
    r
}

impl Interp {
    fn bind_value(&mut self, p: &Param, v: Value, scope: ObjId)
        ensures
            final(self)@ == param_bound(old(self)@, param_v(*p), v, scope),
    {
        let ty = match &p.ty {
            Some(ty) => Some(Rc::new(self.substituted(ty))),
            None => None,
        };
        if p.bind.freezes() {
            self.heap.freeze(v);
        }
        self.heap.declare(scope, p.name.as_str(), v, p.bind, ty);
    }

    #[verifier::spinoff_prover]
    fn bind_param(&mut self, p: &Param, v: Value, scope: ObjId, span: Span, fuel: u64) -> (r: Result<
        (),
        QuinceError,
    >)
        ensures
            (final(self)@, res(r)) == s_bind_param(
                fuel as nat,
                old(self)@,
                param_v(*p),
                v,
                scope,
                span,
            ),
        decreases fuel,
    {
        match &p.ty {
            None => {
                self.bind_value(p, v, scope);
                Ok(())
            },
            Some(ty) => {
                if fuel == 0 {
                    return Err(too_far_error(span));
                }
                let what = cat3("`", p.name.as_str(), "`");
                let w = Written::nowhere();
                let given = self.coerced(ty, v, what.as_str(), span, &w, fuel - 1)?;
                self.bind_value(p, given, scope);
                Ok(())
            },
        }
    }

    fn bind_params(
        &mut self,
        params: &Vec<Param>,
        args: &Vec<Value>,
        scope: ObjId,
        span: Span,
        fuel: u64,
    ) -> (r: Result<(), QuinceError>)
        ensures
            (final(self)@, res(r)) == s_bind_params(
                fuel as nat,
                old(self)@,
                params_v(params@),
                args@,
                scope,
                span,
                0,
            ),
        decreases fuel,
    {
        let ghost all = params_v(params@);
        let ghost goal = s_bind_params(fuel as nat, self@, all, args@, scope, span, 0);
        let mut left: u64 = fuel;
        let mut i: usize = 0;
        while i < params.len() && i < args.len()
            invariant
                left <= fuel,
                i <= params@.len(),
                all == params_v(params@),
                goal == s_bind_params(fuel as nat, old(self)@, all, args@, scope, span, 0),
                goal == s_bind_params(left as nat, self@, all, args@, scope, span, i as int),
            decreases params@.len() - i,
        {
            if left == 0 {
                return Err(too_far_error(span));
            }
            left -= 1;
            self.bind_param(&params[i], args[i], scope, span, left)?;
            i += 1;
        }
        Ok(())
    }

    fn run_body(
        &mut self,
        decl: &FnDecl,
        env: ObjId,
        owner: Option<ObjId>,
        scope: ObjId,
        fuel: u64,
    ) -> (r: Result<Value, QuinceError>)
        ensures
            (final(self)@, res(r)) == s_run_body(
                fuel as nat,
                old(self)@,
                FunctionV { decl: fn_decl_v(*decl), env, owner },
                scope,
            ),
        decreases fuel,
    {
        assert(fn_decl_v(*decl).body == block_v(decl.body));
        assert(block_v(decl.body).stmts == stmts_v(decl.body.stmts@));
        if fuel == 0 {
            return Err(too_far_error(decl.body.span));
        }
        let depth: usize = self.depth;
        self.depth = if depth < usize::MAX {
            depth + 1
        } else {
            depth
        };
        self.reaching.push(owner);
        let r = self.stmts(&decl.body.stmts, scope, fuel - 1);
        self.reaching.pop();
        self.depth = depth;
        match r {
            Ok(Flow::Return(v)) => Ok(v),
            Ok(Flow::Normal) => Ok(Value::Nil),
            Err(e) => Err(self.located(env, e)),
        }
    }

    #[verifier::spinoff_prover]
    fn invoke(
        &mut self,
        decl: &FnDecl,
        env: ObjId,
        owner: Option<ObjId>,
        args: &Vec<Value>,
        scope: ObjId,
        span: Span,
        fuel: u64,
    ) -> (r: Result<Value, QuinceError>)
        ensures
            (final(self)@, res(r)) == s_invoke(
                fuel as nat,
                old(self)@,
                FunctionV { decl: fn_decl_v(*decl), env, owner },
                args@,
                scope,
                span,
            ),
        decreases fuel,
    {
        assert(fn_decl_v(*decl).params == params_v(decl.params@));
        if fuel == 0 {
            return Err(too_far_error(span));
        }
        self.bind_params(&decl.params, args, scope, span, fuel - 1)?;
        let v = self.run_body(decl, env, owner, scope, fuel - 1)?;
        match &decl.result {
            None => Ok(v),
            Some(ty) => {
                let what = cat3("`", decl.name.as_str(), "`\u{2019}s return");
                let w = Written::nowhere();
                self.coerced(ty, v, what.as_str(), span, &w, fuel - 1)
            },
        }
    }
}

impl Interp {
    fn enter(&mut self, decl: &FnDecl, env: ObjId, owner: Option<ObjId>, args: &Vec<Value>) -> (scope:
        ObjId)
        ensures
            scope == old(self)@.heap.next_id(),
            final(self)@ == entered(
                old(self)@,
                FunctionV { decl: fn_decl_v(*decl), env, owner },
                args@,
            ),
    {
        assert(fn_decl_v(*decl).params == params_v(decl.params@));
        assert(fn_decl_v(*decl).body == block_v(decl.body));
        assert(block_v(decl.body).stmts == stmts_v(decl.body.stmts@));
        let ghost before = self@;
        let names = names_of_params(&decl.params);
        let scope = self.heap.add_object(make_scope(names, &decl.body.stmts, env));
        let frame = if decl.params.len() > 0 && decl.params[0].receiver && args.len() > 0 {
            self.heap.bindings_of(args[0])
        } else {
            let none: Vec<Binding> = Vec::new();
            assert(bindings_v(none@) =~= Seq::empty());
            none
        };
        let ghost model = bindings_v(frame@);
        let ghost frames = frames_v(self.bindings@);
        self.hold(args);
        self.scopes.push(scope);
        self.bindings.push(frame);
        assert(frames_v(self.bindings@) =~= frames.push(model));
        self.pending = None;
        scope
    }

    fn leave(&mut self, mark: usize)
        ensures
            final(self)@ == (St {
                temps: cut(old(self)@.temps, mark as int),
                scopes: popped(old(self)@.scopes),
                bindings: popped(old(self)@.bindings),
                ..old(self)@
            }),
    {
        let ghost frames = frames_v(self.bindings@);
        self.release(mark);
        self.scopes.pop();
        self.bindings.pop();
        assert(frames_v(self.bindings@) =~= popped(frames));
        assert(self.scopes@ =~= popped(old(self).scopes@));
    }

    fn call_function(&mut self, id: ObjId, args: Vec<Value>, span: Span, fuel: u64) -> (r: Result<
        Value,
        QuinceError,
    >)
        ensures
            (final(self)@, res(r)) == s_call_function(
                fuel as nat,
                old(self)@,
                id,
                args@,
                span,
            ),
        decreases fuel,
    {
        let (decl, env, owner) = match self.heap.function(id) {
            Some(found) => found,
            None => {
                return Err(self.not_callable(Value::Function(id), span));
            },
        };
        assert(fn_decl_v(*decl).params == params_v(decl.params@));
        check_arity(decl.name.as_str(), decl.params.len(), args.len(), span)?;
        if self.depth >= MAX_DEPTH {
            return Err(recursion_limit_error(span));
        }
        if fuel == 0 {
            return Err(too_far_error(span));
        }
        let mark: usize = self.temps.len();
        let scope = self.enter(&decl, env, owner, &args);
        let r = self.invoke(&decl, env, owner, &args, scope, span, fuel - 1);
        self.leave(mark);
        r
    }
}

// -- builtins --------------------------------------------------------------------------------------------

pub open spec fn native_arity(native: Native, given: nat, span: Span) -> Result<(), ErrV> {
    match native.takes() {
        Some(n) => s_check_arity(native.spelled(), n, given, span),
        None => Ok(()),
    }
}

/// What `print` does with what a value displays as: writes it and a line break.
pub open spec fn printed(shown: Out<Seq<char>>) -> Out<Value> {
    match shown.1 {
        Ok(text) => (St { out: shown.0.out + text + "\n"@, ..shown.0 }, Ok(Value::Nil)),
        Err(e) => (shown.0, Err(e)),
    }
}

/// What `string` makes of what a value displays as.
pub open spec fn made_text(shown: Out<Seq<char>>) -> Out<Value> {
    match shown.1 {
        Ok(text) => {
            let (st, v) = s_text(shown.0, text);
            (st, Ok(v))
        },
        Err(e) => (shown.0, Err(e)),
    }
}

/// What `bool` makes of whether a value counts as true.
pub open spec fn made_bool(truth: Out<bool>) -> Out<Value> {
    match truth.1 {
        Ok(b) => (truth.0, Ok(Value::Bool(b))),
        Err(e) => (truth.0, Err(e)),
    }
}

/// The items of a list from `i` on, each handed to a function, and what it answers added
/// to another list.
pub open spec fn s_map_items(
    f: nat,
    st: St,
    source: ObjId,
    function: Value,
    into: ObjId,
    span: Span,
    i: int,
) -> Out<Value>
    decreases f,
{
    match at_index(st.heap.list(source), i) {
        None => (st, Ok(Value::List(into))),
        Some(item) => if f == 0 {
            (st, Err(too_far(span)))
        } else {
            match s_call((f - 1) as nat, st, function, seq![item], span) {
                (st1, Err(e)) => (st1, Err(e)),
                (st1, Ok(v)) => s_map_items(
                    (f - 1) as nat,
                    with_heap(
                        st1,
                        match st1.heap.obj(into) {
                            Some(ObjV::List(s)) => st1.heap.with_object(
                                into,
                                ObjV::List(s.push(v)),
                            ),
                            _ => st1.heap,
                        },
                    ),
                    source,
                    function,
                    into,
                    span,
                    i + 1,
                ),
            }
        },
    }
}

/// What `map` makes of a list and a function.
pub open spec fn s_map_list(f: nat, st: St, target: Value, function: Value, span: Span) -> Out<Value>
    decreases f,
{
    match base(st.heap, target) {
        Value::List(source) => if f == 0 {
            (st, Err(too_far(span)))
        } else {
            let into = st.heap.next_id();
            let (st1, r) = s_map_items(
                (f - 1) as nat,
                held(
                    with_new(st, ObjV::List(Seq::empty())),
                    seq![Value::List(into), target, function],
                ),
                source,
                function,
                into,
                span,
                0,
            );
            (released(st1, st.temps.len() as int), r)
        },
        _ => (st, Err(not_a(st.heap, Native::MapList, "list"@, target, span))),
    }
}

/// Calls a builtin.
pub open spec fn s_call_native(f: nat, st: St, native: Native, args: Seq<Value>, span: Span) -> Out<
    Value,
>
    decreases f,
{
    match native_arity(native, args.len(), span) {
        Err(e) => (st, Err(e)),
        Ok(_) => if f == 0 {
            (st, Err(too_far(span)))
        } else {
            match native {
                Native::Print => printed(
                    s_display((f - 1) as nat, st, arg(args, 0), false, Ask::Class),
                ),
                Native::ToStr => made_text(
                    s_display((f - 1) as nat, st, arg(args, 0), false, Ask::Class),
                ),
                Native::ToBool => made_bool(s_is_truthy((f - 1) as nat, st, arg(args, 0))),
                Native::MapList => s_map_list(
                    (f - 1) as nat,
                    st,
                    arg(args, 0),
                    arg(args, 1),
                    span,
                ),
                _ => s_plain_native(st, native, args, span),
            }
        },
    }
}

impl Interp {
    fn map_items(
        &mut self,
        source: ObjId,
        function: Value,
        into: ObjId,
        span: Span,
        fuel: u64,
    ) -> (r: Result<Value, QuinceError>)
        ensures
            (final(self)@, res(r)) == s_map_items(
                fuel as nat,
                old(self)@,
                source,
                function,
                into,
                span,
                0,
            ),
        decreases fuel,
    {
        let ghost goal = s_map_items(fuel as nat, self@, source, function, into, span, 0);
        let mut left: u64 = fuel;
        let mut i: usize = 0;
        loop
            invariant
                left <= fuel,
                goal == s_map_items(
                    fuel as nat,
                    old(self)@,
                    source,
                    function,
                    into,
                    span,
                    0,
                ),
                goal == s_map_items(
                    left as nat,
                    self@,
                    source,
                    function,
                    into,
                    span,
                    i as int,
                ),
            decreases left,
        {
            let len: usize = self.heap.list_len(source);
            let item = match self.heap.list_item(source, i) {
                Some(item) => item,
                None => {
                    return Ok(Value::List(into));
                },
            };
            if left == 0 {
                return Err(too_far_error(span));
            }
            left -= 1;
            let args = crate::interp::ops::one(item);
            let v = self.call(function, args, span, left)?;
            self.heap.push_item(into, v);
            i += 1;
        }
    }

    fn map_list(&mut self, target: Value, function: Value, span: Span, fuel: u64) -> (r: Result<
        Value,
        QuinceError,
    >)
        ensures
            (final(self)@, res(r)) == s_map_list(
                fuel as nat,
                old(self)@,
                target,
                function,
                span,
            ),
        decreases fuel,
    {
        match self.heap.base(target) {
            Value::List(source) => {
                if fuel == 0 {
                    return Err(too_far_error(span));
                }
                let mark: usize = self.temps.len();
                let none: Vec<Value> = Vec::new();
                assert(none@ =~= Seq::empty());
                let into = self.heap.add_object(Object::List(none));
                let mut hold: Vec<Value> = Vec::new();
                hold.push(Value::List(into));
                hold.push(target);
                hold.push(function);
                assert(hold@ =~= seq![Value::List(into), target, function]);
                self.hold(&hold);
                let r = self.map_items(source, function, into, span, fuel - 1);
                self.release(mark);
                r
            },
            _ => Err(self.not_a(Native::MapList, "list", target, span)),
        }
    }

    fn call_native(&mut self, native: Native, args: Vec<Value>, span: Span, fuel: u64) -> (r: Result<
        Value,
        QuinceError,
    >)
        ensures
            (final(self)@, res(r)) == s_call_native(
                fuel as nat,
                old(self)@,
                native,
                args@,
                span,
            ),
        decreases fuel,
    {
        if let Some(n) = native.arity() {
            check_arity(native.name(), n, args.len(), span)?;
        }
        if fuel == 0 {
            return Err(too_far_error(span));
        }
        match native {
            Native::Print => {
                let text = match self.displayed(argument(&args, 0), false, Ask::Class, fuel - 1) {
                    Ok(text) => text,
                    Err(e) => {
                        return Err(e);
                    },
                };
                self.out.append(text.as_str());
                self.out.append("\n");
                Ok(Value::Nil)
            },
            Native::ToStr => match self.displayed(argument(&args, 0), false, Ask::Class, fuel - 1) {
                Ok(text) => Ok(self.new_text(text)),
                Err(e) => Err(e),
            },
            Native::ToBool => {
                let b = self.truthy(argument(&args, 0), fuel - 1)?;
                Ok(Value::Bool(b))
            },
            Native::MapList => self.map_list(
                argument(&args, 0),
                argument(&args, 1),
                span,
                fuel - 1,
            ),
            _ => self.plain_native(native, &args, span),
        }
    }
}

// -- methods ---------------------------------------------------------------------------------------------

/// Whether a method takes this many arguments behind its receiver.
pub open spec fn method_arity(h: HeapV, m: Value, given: nat, span: Span) -> Result<(), ErrV> {
    match m {
        Value::Native(native) => match native.takes() {
            Some(n) => s_check_arity(callable_name(h, m), less_one(n), given, span),
            None => Ok(()),
        },
        Value::Function(id) => match h.function(id) {
            Some(fun) => s_check_arity(
                callable_name(h, m),
                less_one(fun.decl.params.len()),
                given,
                span,
            ),
            None => Err(not_callable(h, m, span)),
        },
        _ => Err(not_callable(h, m, span)),
    }
}

pub open spec fn less_one(n: nat) -> nat {
    if n > 0 {
        (n - 1) as nat
    } else {
        0
    }
}

/// What a method is handed as its receiver: a builtin's method is handed the value that
/// an instance of a class extending the builtin is.
pub open spec fn method_receiver(st: St, m: Value, receiver: Value, span: Span) -> Result<Value, ErrV> {
    match (m, receiver) {
        (Value::Native(_), Value::Instance(id)) => match st.heap.instance(id).payload {
            Some(v) => Ok(v),
            None => Err(no_payload(st, id, span)),
        },
        _ => Ok(receiver),
    }
}

/// Calls a method with its receiver in front of its arguments.
pub open spec fn s_call_method(
    f: nat,
    st: St,
    receiver: Value,
    method: Value,
    args: Seq<Value>,
    span: Span,
) -> Out<Value>
    decreases f,
{
    match selected(st.heap, method, Seq::empty(), args, true, span) {
        Err(e) => (st, Err(e)),
        Ok(m) => match method_arity(st.heap, m, args.len(), span) {
            Err(e) => (st, Err(e)),
            Ok(_) => match method_receiver(st, m, receiver, span) {
                Err(e) => (st, Err(e)),
                Ok(first) => if f == 0 {
                    (st, Err(too_far(span)))
                } else {
                    s_call((f - 1) as nat, st, m, seq![first] + args, span)
                },
            },
        },
    }
}

impl Interp {
    fn method_arity(&self, m: Value, given: usize, span: Span) -> (r: Result<(), QuinceError>)
        ensures
            res(r) == method_arity(self@.heap, m, given as nat, span),
    {
        let name = self.heap.callable_name(m);
        match m {
            Value::Native(native) => match native.arity() {
                Some(n) => check_arity(
                    name.as_str(),
                    if n > 0 {
                        n - 1
                    } else {
                        0
                    },
                    given,
                    span,
                ),
                None => Ok(()),
            },
            Value::Function(id) => match self.heap.function(id) {
                Some((decl, _env, _owner)) => {
                    assert(fn_decl_v(*decl).params == params_v(decl.params@));
                    let n: usize = decl.params.len();
                    check_arity(
                        name.as_str(),
                        if n > 0 {
                            n - 1
                        } else {
                            0
                        },
                        given,
                        span,
                    )
                },
                None => Err(self.not_callable(m, span)),
            },
            _ => Err(self.not_callable(m, span)),
        }
    }

    fn method_receiver(&self, m: Value, receiver: Value, span: Span) -> (r: Result<
        Value,
        QuinceError,
    >)
        ensures
            res(r) == method_receiver(self@, m, receiver, span),
    {
        match (m, receiver) {
            (Value::Native(_), Value::Instance(id)) => match self.heap.payload(id) {
                Some(v) => Ok(v),
                None => Err(self.no_payload(id, span)),
            },
            _ => Ok(receiver),
        }
    }

    /// Calls a method with its receiver in front of its arguments.
    pub(crate) fn call_method(
        &mut self,
        receiver: Value,
        method: Value,
        args: Vec<Value>,
        span: Span,
        fuel: u64,
    ) -> (r: Result<Value, QuinceError>)
        ensures
            (final(self)@, res(r)) == s_call_method(
                fuel as nat,
                old(self)@,
                receiver,
                method,
                args@,
                span,
            ),
        decreases fuel,
    {
        let none: Vec<CallArg> = Vec::new();
        let m = self.heap.selected(method, &none, &args, true, span)?;
        self.method_arity(m, args.len(), span)?;
        let first = self.method_receiver(m, receiver, span)?;
        if fuel == 0 {
            return Err(too_far_error(span));
        }
        let mut rest = args;
        let ghost given = rest@;
        let mut all: Vec<Value> = Vec::new();
        all.push(first);
        all.append(&mut rest);
        assert(all@ =~= seq![first] + given);
        self.call(m, all, span, fuel - 1)
    }
}

// -- classes ---------------------------------------------------------------------------------------------

/// The op a builtin's conversion may be answered by.
pub open spec fn conversion_op(b: Builtin) -> Option<Op> {
    match b {
        Builtin::Int => Some(Op::Int),
        Builtin::Float => Some(Op::Float),
        Builtin::Str => Some(Op::Str),
        Builtin::Bool => Some(Op::Bool),
        Builtin::List => Some(Op::List),
        Builtin::Dict => Some(Op::Dict),
        _ => None,
    }
}

fn op_of_conversion(b: Builtin) -> (r: Option<Op>)
    ensures
        r == conversion_op(b),
{
    match b {
        Builtin::Int => Some(Op::Int),
        Builtin::Float => Some(Op::Float),
        Builtin::Str => Some(Op::Str),
        Builtin::Bool => Some(Op::Bool),
        Builtin::List => Some(Op::List),
        Builtin::Dict => Some(Op::Dict),
        _ => None,
    }
}

/// The method that answers a conversion, where the one argument's class declares it.
pub open spec fn converter_of(h: HeapV, b: Builtin, args: Seq<Value>) -> Option<(Op, Value)> {
    match conversion_op(b) {
        Some(op) => if args.len() == 1 {
            match slot_of(h, args[0], op) {
                Some(method) => Some((op, method)),
                None => None,
            }
        } else {
            None
        },
        None => None,
    }
}

pub open spec fn cannot_make(b: Builtin, span: Span) -> ErrV {
    err_help(
        ErrorKind::Type,
        "cannot make "@ + an(b.spelled()),
        span,
        "there is no value a "@ + b.spelled() + " could be made from — `fn` is how one is written"@,
    )
}

/// Makes a value of a builtin type.
pub open spec fn s_construct_builtin(
    f: nat,
    st: St,
    id: ObjId,
    b: Builtin,
    args: Seq<Value>,
    span: Span,
) -> Out<Value>
    decreases f,
{
    if f == 0 {
        (st, Err(too_far(span)))
    } else {
        match converter_of(st.heap, b, args) {
            Some((op, method)) => match s_call_op(
                (f - 1) as nat,
                st,
                method,
                args[0],
                Seq::empty(),
            ) {
                (st1, Err(e)) => (st1, Err(e)),
                (st1, Ok(v)) => if class_of(st1.heap, base(st1.heap, v)) != st1.heap.builtin_class(
                    b,
                ) {
                    (st1, Err(op_returned(st1.heap, op, args[0], an(b.spelled()), v)))
                } else {
                    (st1, Ok(v))
                },
            },
            None => match st.heap.class_slot(id, Op::Init) {
                None => (st, Err(cannot_make(b, span))),
                Some(init) => s_call((f - 1) as nat, st, init, args, span),
            },
        }
    }
}

pub open spec fn payload_twice(h: HeapV, id: ObjId, b: Builtin, span: Span) -> ErrV {
    let name = h.class(h.instance(id).class).name;
    err_help(
        ErrorKind::Type,
        "`super.init` was already called for this "@ + name,
        span,
        an(name) + " is given its "@ + b.spelled() + " once, and this would replace it"@,
    )
}

/// Gives an instance of a class extending a builtin the value it is, once.
pub open spec fn s_set_payload(
    f: nat,
    st: St,
    id: ObjId,
    init: Value,
    b: Builtin,
    args: Seq<Value>,
    span: Span,
) -> Out<Value>
    decreases f,
{
    if st.heap.instance(id).payload is Some {
        (st, Err(payload_twice(st.heap, id, b, span)))
    } else if f == 0 {
        (st, Err(too_far(span)))
    } else {
        match s_call((f - 1) as nat, st, init, args, span) {
            (st1, Err(e)) => (st1, Err(e)),
            (st1, Ok(v)) => if st1.heap.frozen(id) {
                (st1, Err(frozen_error(st1.heap, Value::Instance(id), span)))
            } else {
                (with_heap(st1, payload_put(st1.heap, id, v)), Ok(Value::Nil))
            },
        }
    }
}

/// An instance's field given its value.
pub open spec fn s_field_set(st: St, field: FieldDeclV, v: Value, id: ObjId, span: Span) -> Out<()> {
    let h = if field.bind.does_freeze() {
        frozen_by(st.heap, v)
    } else {
        st.heap
    };
    if h.frozen(id) {
        (with_heap(st, h), Err(frozen_error(h, Value::Instance(id), span)))
    } else {
        (with_heap(st, field_put(h, id, field.name, v)), Ok(()))
    }
}

/// A class's fields from `i` on, initialized on an instance.
pub open spec fn s_class_fields(
    f: nat,
    st: St,
    fields: Seq<FieldDeclV>,
    env: ObjId,
    id: ObjId,
    span: Span,
    i: int,
) -> Out<()>
    decreases f,
{
    if i < 0 || i >= fields.len() {
        (st, Ok(()))
    } else if f == 0 {
        (st, Err(too_far(span)))
    } else {
        match s_initial(
            (f - 1) as nat,
            st,
            fields[i].name,
            fields[i].name_span,
            fields[i].ty,
            fields[i].value,
            env,
        ) {
            (st1, Err(e)) => (st1, Err(e)),
            (st1, Ok(v)) => match s_field_set(st1, fields[i], v, id, span) {
                (st2, Err(e)) => (st2, Err(e)),
                (st2, Ok(_)) => s_class_fields(
                    (f - 1) as nat,
                    st2,
                    fields,
                    env,
                    id,
                    span,
                    i + 1,
                ),
            },
        }
    }
}

/// The fields one class declares, initialized under the bindings of its parameters.
pub open spec fn s_own_fields(f: nat, st: St, c: ObjId, class: ObjId, id: ObjId, span: Span) -> Out<()>
    decreases f,
{
    match st.heap.class(c).decl {
        None => (st, Ok(())),
        Some(decl) => if f == 0 {
            (st, Err(too_far(span)))
        } else {
            let frame = if c == class {
                bindings_for(st.heap, id)
            } else {
                Seq::empty()
            };
            let (st1, r) = s_class_fields(
                (f - 1) as nat,
                St { bindings: st.bindings.push(frame), ..st },
                decl.fields,
                st.heap.class(c).env,
                id,
                span,
                0,
            );
            (St { bindings: popped(st1.bindings), ..st1 }, r)
        },
    }
}

/// The fields the first `n` classes of a lineage declare, those of the furthest ancestor
/// first.
pub open spec fn s_init_fields(
    f: nat,
    st: St,
    chain: Seq<ObjId>,
    class: ObjId,
    id: ObjId,
    span: Span,
    n: int,
) -> Out<()>
    decreases f,
{
    if n <= 0 || n > chain.len() {
        (st, Ok(()))
    } else if f == 0 {
        (st, Err(too_far(span)))
    } else {
        match s_own_fields((f - 1) as nat, st, chain[n - 1], class, id, span) {
            (st1, Err(e)) => (st1, Err(e)),
            (st1, Ok(_)) => s_init_fields((f - 1) as nat, st1, chain, class, id, span, n - 1),
        }
    }
}

pub open spec fn built_from(h: HeapV, class: ObjId, b: Builtin, e: ErrV) -> ErrV {
    ErrV {
        help: Some(
            "`"@ + h.class(class).name + "` extends `"@ + b.spelled()
                + "`, so it is built from whatever a "@ + b.spelled() + " is"@,
        ),
        ..e
    }
}

/// A construction without a constructor takes no arguments.
pub open spec fn bare_arity(h: HeapV, class: ObjId, given: nat, span: Span) -> Result<(), ErrV> {
    let name = h.class(class).name;
    match s_check_arity(name, 0, given, span) {
        Ok(_) => Ok(()),
        Err(e) => Err(
            if method_in(h, class, "init"@, h.cells.len()) is Some {
                ErrV {
                    help: Some(
                        "`"@ + name
                            + "` has a method `init`, but only `op init` runs when a class is constructed"@,
                    ),
                    ..e
                }
            } else {
                e
            },
        ),
    }
}

/// Runs an instance's constructor.
pub open spec fn s_initialize(
    f: nat,
    st: St,
    class: ObjId,
    id: ObjId,
    args: Seq<Value>,
    span: Span,
) -> Out<()>
    decreases f,
{
    if f == 0 {
        (st, Err(too_far(span)))
    } else {
        match st.heap.class_slot(class, Op::Init) {
            None => (st, bare_arity(st.heap, class, args.len(), span)),
            Some(Value::Native(native)) => {
                let b = match builtin_base(st.heap, class, st.heap.cells.len()) {
                    Some(b) => b,
                    None => Builtin::Nil,
                };
                match s_set_payload(
                    (f - 1) as nat,
                    st,
                    id,
                    Value::Native(native),
                    b,
                    args,
                    span,
                ) {
                    (st1, Ok(_)) => (st1, Ok(())),
                    (st1, Err(e)) => (st1, Err(built_from(st1.heap, class, b, e))),
                }
            },
            Some(init) => match s_call_method(
                (f - 1) as nat,
                st,
                Value::Instance(id),
                init,
                args,
                span,
            ) {
                (st1, Ok(_)) => (st1, Ok(())),
                (st1, Err(e)) => (st1, Err(e)),
            },
        }
    }
}

/// Initializes an instance's fields, then runs its constructor.
pub open spec fn s_build(
    f: nat,
    st: St,
    class: ObjId,
    id: ObjId,
    args: Seq<Value>,
    span: Span,
) -> Out<()>
    decreases f,
{
    if f == 0 {
        (st, Err(too_far(span)))
    } else {
        let chain = lineage(st.heap, class, st.heap.cells.len());
        match s_init_fields((f - 1) as nat, st, chain, class, id, span, chain.len() as int) {
            (st1, Err(e)) => (st1, Err(e)),
            (st1, Ok(_)) => s_initialize((f - 1) as nat, st1, class, id, args, span),
        }
    }
}

/// An instance with nothing in it yet, described where a description is waiting.
pub open spec fn s_new_instance(st: St, class: ObjId) -> St {
    let id = st.heap.next_id();
    let h = st.heap.with_new(
        ObjV::Instance(InstanceV { class, fields: Seq::empty(), payload: None }),
    );
    St {
        heap: match st.pending {
            Some(ty) => h.described(id, ty),
            None => h,
        },
        pending: None,
        ..st
    }
}

/// Makes an instance of a class.
pub open spec fn s_call_class(f: nat, st: St, class: ObjId, args: Seq<Value>, span: Span) -> Out<Value>
    decreases f,
{
    if f == 0 {
        (st, Err(too_far(span)))
    } else {
        match st.heap.class(class).builtin {
            Some(b) => s_construct_builtin((f - 1) as nat, st, class, b, args, span),
            None => {
                let id = st.heap.next_id();
                let (st1, r) = s_build(
                    (f - 1) as nat,
                    held(rooted(s_new_instance(st, class), Value::Instance(id)), args),
                    class,
                    id,
                    args,
                    span,
                );
                (
                    released(st1, st.temps.len() as int),
                    match r {
                        Ok(_) => Ok(Value::Instance(id)),
                        Err(e) => Err(e),
                    },
                )
            },
        }
    }
}

impl Interp {
    fn construct_builtin(&mut self, id: ObjId, b: Builtin, args: Vec<Value>, span: Span, fuel: u64) -> (r:
        Result<Value, QuinceError>)
        ensures
            (final(self)@, res(r)) == s_construct_builtin(
                fuel as nat,
                old(self)@,
                id,
                b,
                args@,
                span,
            ),
        decreases fuel,
    {
        if fuel == 0 {
            return Err(too_far_error(span));
        }
        if args.len() == 1 {
            if let Some(op) = op_of_conversion(b) {
                if let Some(method) = self.heap.slot_of(args[0], op) {
                    let none: Vec<Value> = Vec::new();
                    assert(none@ =~= Seq::empty());
                    let v = self.call_op(method, args[0], none, fuel - 1)?;
                    let held = self.heap.base(v);
                    if self.heap.class_of(held) != self.heap.builtin_class(b) {
                        let expected = with_article(b.name());
                        return Err(self.heap.op_returned(op, args[0], expected.as_str(), v));
                    }
                    return Ok(v);
                }
            }
        }
        match self.heap.class_slot(id, Op::Init) {
            None => {
                let noun = with_article(b.name());
                let help = cat3(
                    "there is no value a ",
                    b.name(),
                    " could be made from — `fn` is how one is written",
                );
                Err(helped_type_error(cat2("cannot make ", noun.as_str()), span, help.as_str()))
            },
            Some(init) => self.call(init, args, span, fuel - 1),
        }
    }

    /// Gives an instance of a class extending a builtin the value it is.
    pub(crate) fn set_payload(
        &mut self,
        id: ObjId,
        init: Value,
        b: Builtin,
        args: Vec<Value>,
        span: Span,
        fuel: u64,
    ) -> (r: Result<Value, QuinceError>)
        ensures
            (final(self)@, res(r)) == s_set_payload(
                fuel as nat,
                old(self)@,
                id,
                init,
                b,
                args@,
                span,
            ),
        decreases fuel,
    {
        if self.heap.payload(id).is_some() {
            let name = self.heap.class_name(self.heap.instance_class(id));
            let noun = with_article(name.as_str());
            let mut help = cat3(noun.as_str(), " is given its ", b.name());
            help.append(" once, and this would replace it");
            return Err(
                helped_type_error(
                    cat2("`super.init` was already called for this ", name.as_str()),
                    span,
                    help.as_str(),
                ),
            );
        }
        if fuel == 0 {
            return Err(too_far_error(span));
        }
        let v = self.call(init, args, span, fuel - 1)?;
        if self.heap.frozen(id) {
            return Err(frozen(&self.heap, Value::Instance(id), span));
        }
        self.heap.put_payload(id, v);
        Ok(Value::Nil)
    }

    fn field_set(&mut self, field: &FieldDecl, v: Value, id: ObjId, span: Span) -> (r: Result<
        (),
        QuinceError,
    >)
        ensures
            (final(self)@, res(r)) == s_field_set(old(self)@, field_decl_v(*field), v, id, span),
    {
        if field.bind.freezes() {
            self.heap.freeze(v);
        }
        if self.heap.frozen(id) {
            return Err(frozen(&self.heap, Value::Instance(id), span));
        }
        self.heap.put_field(id, field.name.as_str(), v);
        Ok(())
    }

    fn class_fields(
        &mut self,
        fields: &Vec<FieldDecl>,
        env: ObjId,
        id: ObjId,
        span: Span,
        fuel: u64,
    ) -> (r: Result<(), QuinceError>)
        ensures
            (final(self)@, res(r)) == s_class_fields(
                fuel as nat,
                old(self)@,
                field_decls_v(fields@),
                env,
                id,
                span,
                0,
            ),
        decreases fuel,
    {
        let ghost all = field_decls_v(fields@);
        let ghost goal = s_class_fields(fuel as nat, self@, all, env, id, span, 0);
        let mut left: u64 = fuel;
        let mut i: usize = 0;
        while i < fields.len()
            invariant
                left <= fuel,
                i <= fields@.len(),
                all == field_decls_v(fields@),
                goal == s_class_fields(fuel as nat, old(self)@, all, env, id, span, 0),
                goal == s_class_fields(left as nat, self@, all, env, id, span, i as int),
            decreases fields@.len() - i,
        {
            if left == 0 {
                return Err(too_far_error(span));
            }
            left -= 1;
            let field = &fields[i];
            assert(all[i as int] == field_decl_v(*field));
            let v = self.initial(
                field.name.as_str(),
                field.name_span,
                &field.ty,
                &field.value,
                env,
                left,
            )?;
            self.field_set(field, v, id, span)?;
            i += 1;
        }
        Ok(())
    }

    fn own_fields(&mut self, c: ObjId, class: ObjId, id: ObjId, span: Span, fuel: u64) -> (r: Result<
        (),
        QuinceError,
    >)
        ensures
            (final(self)@, res(r)) == s_own_fields(fuel as nat, old(self)@, c, class, id, span),
        decreases fuel,
    {
        let decl = match self.heap.class_decl(c) {
            Some(decl) => decl,
            None => {
                return Ok(());
            },
        };
        assert(class_decl_v(*decl).fields == field_decls_v(decl.fields@));
        if fuel == 0 {
            return Err(too_far_error(span));
        }
        let env = self.heap.class_env(c);
        let frame = if c == class {
            self.heap.bindings_for(id)
        } else {
            let none: Vec<Binding> = Vec::new();
            assert(bindings_v(none@) =~= Seq::empty());
            none
        };
        let ghost model = bindings_v(frame@);
        let ghost frames = frames_v(self.bindings@);
        self.bindings.push(frame);
        assert(frames_v(self.bindings@) =~= frames.push(model));
        let r = self.class_fields(&decl.fields, env, id, span, fuel - 1);
        let ghost after = frames_v(self.bindings@);
        self.bindings.pop();
        assert(frames_v(self.bindings@) =~= popped(after));
        r
    }

    fn init_fields(
        &mut self,
        chain: &Vec<ObjId>,
        class: ObjId,
        id: ObjId,
        span: Span,
        fuel: u64,
    ) -> (r: Result<(), QuinceError>)
        ensures
            (final(self)@, res(r)) == s_init_fields(
                fuel as nat,
                old(self)@,
                chain@,
                class,
                id,
                span,
                chain@.len() as int,
            ),
        decreases fuel,
    {
        let ghost goal = s_init_fields(
            fuel as nat,
            self@,
            chain@,
            class,
            id,
            span,
            chain@.len() as int,
        );
        let mut left: u64 = fuel;
        let mut n: usize = chain.len();
        while n > 0
            invariant
                left <= fuel,
                n <= chain@.len(),
                goal == s_init_fields(
                    fuel as nat,
                    old(self)@,
                    chain@,
                    class,
                    id,
                    span,
                    chain@.len() as int,
                ),
                goal == s_init_fields(left as nat, self@, chain@, class, id, span, n as int),
            decreases n,
        {
            if left == 0 {
                return Err(too_far_error(span));
            }
            left -= 1;
            self.own_fields(chain[n - 1], class, id, span, left)?;
            n -= 1;
        }
        Ok(())
    }

    fn bare_arity(&self, class: ObjId, given: usize, span: Span) -> (r: Result<(), QuinceError>)
        ensures
            res(r) == bare_arity(self@.heap, class, given as nat, span),
    {
        let name = self.heap.class_name(class);
        match check_arity(name.as_str(), 0, given, span) {
            Ok(_) => Ok(()),
            Err(e) => {
                if self.heap.method_in(class, "init").is_some() {
                    Err(
                        e.with_help(
                            cat3(
                                "`",
                                name.as_str(),
                                "` has a method `init`, but only `op init` runs when a class is constructed",
                            ),
                        ),
                    )
                } else {
                    Err(e)
                }
            },
        }
    }

    fn initialize(&mut self, class: ObjId, id: ObjId, args: Vec<Value>, span: Span, fuel: u64) -> (r:
        Result<(), QuinceError>)
        ensures
            (final(self)@, res(r)) == s_initialize(
                fuel as nat,
                old(self)@,
                class,
                id,
                args@,
                span,
            ),
        decreases fuel,
    {
        if fuel == 0 {
            return Err(too_far_error(span));
        }
        match self.heap.class_slot(class, Op::Init) {
            None => self.bare_arity(class, args.len(), span),
            Some(Value::Native(native)) => {
                let b = match self.heap.builtin_base(class) {
                    Some(b) => b,
                    None => Builtin::Nil,
                };
                match self.set_payload(id, Value::Native(native), b, args, span, fuel - 1) {
                    Ok(_) => Ok(()),
                    Err(e) => {
                        let name = self.heap.class_name(class);
                        let mut help = cat5(
                            "`",
                            name.as_str(),
                            "` extends `",
                            b.name(),
                            "`, so it is built from whatever a ",
                        );
                        help.append(b.name());
                        help.append(" is");
                        Err(e.with_help(help))
                    },
                }
            },
            Some(init) => {
                let _answer = self.call_method(
                    Value::Instance(id),
                    init,
                    args,
                    span,
                    fuel - 1,
                )?;
                Ok(())
            },
        }
    }

    fn build(&mut self, class: ObjId, id: ObjId, args: Vec<Value>, span: Span, fuel: u64) -> (r:
        Result<(), QuinceError>)
        ensures
            (final(self)@, res(r)) == s_build(
                fuel as nat,
                old(self)@,
                class,
                id,
                args@,
                span,
            ),
        decreases fuel,
    {
        if fuel == 0 {
            return Err(too_far_error(span));
        }
        let chain = self.heap.lineage(class);
        self.init_fields(&chain, class, id, span, fuel - 1)?;
        self.initialize(class, id, args, span, fuel - 1)
    }

    fn new_instance(&mut self, class: ObjId) -> (id: ObjId)
        ensures
            id == old(self)@.heap.next_id(),
            final(self)@ == s_new_instance(old(self)@, class),
    {
        let fields: Vec<Named> = Vec::new();
        assert(nameds_v(fields@) =~= Seq::empty());
        let id = self.heap.add_object(Object::Instance(Instance { class, fields, payload: None }));
        let header = self.take_pending();
        if let Some(ty) = header {
            self.heap.describe(id, ty);
        }
        id
    }

    fn call_class(&mut self, class: ObjId, args: Vec<Value>, span: Span, fuel: u64) -> (r: Result<
        Value,
        QuinceError,
    >)
        ensures
            (final(self)@, res(r)) == s_call_class(
                fuel as nat,
                old(self)@,
                class,
                args@,
                span,
            ),
        decreases fuel,
    {
        if fuel == 0 {
            return Err(too_far_error(span));
        }
        if let Some(b) = self.heap.class_builtin(class) {
            return self.construct_builtin(class, b, args, span, fuel - 1);
        }
        let mark: usize = self.temps.len();
        let id = self.new_instance(class);
        self.root(Value::Instance(id));
        self.hold(&args);
        let r = self.build(class, id, args, span, fuel - 1);
        self.release(mark);
        match r {
            Ok(_) => Ok(Value::Instance(id)),
            Err(e) => Err(e),
        }
    }
}

} // verus!
