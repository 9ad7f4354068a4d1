//! What calling does: how arguments reach parameters, what a call gives, and what a class makes.

use crate::error::{ErrV, ErrorKind};
use crate::interp::call::{
    entered, s_bind_param, s_bind_params, s_build, s_call, s_call_class, s_call_function,
    s_call_method, s_fill_defaults, s_init_fields, s_initialize, s_invoke, s_map_items,
    s_new_instance, s_run_body,
};
use crate::interp::dispatch::{
    fill_from, filled, first_named, param_names, param_place, positional, required, s_arrange,
    ArrangedV, ShapeV,
};
use crate::interp::eval::s_eval;
use crate::interp::exec::{s_exec, s_return, s_statement, s_stmts, Flow};
use crate::interp::declare::{block_scope, s_read};
use crate::interp::sound::sound;
use crate::interp::state::{held, rooted, s_collect, with_heap, MAX_DEPTH, St};
use crate::interp::statements::{lemma_own_name_reads, lemma_scope_kept, returns_name};
use crate::runtime::class::{class_of, lineage};
use crate::runtime::heap::{law_a_new_object_moves_nothing, HeapV};
use crate::runtime::object::{FunctionV, InstanceV, ObjV};
use crate::runtime::scope::{
    declared, law_a_declared_name_is_found, law_declaring_a_name_leaves_the_others, var_of,
};
use crate::runtime::value::{ObjId, Value};
use crate::syntax::ast::{Bind, CallArgV, Op, ParamV};
use crate::syntax::token::Span;
use vstd::prelude::*;

verus! {

// -- what a call gives ------------------------------------------------------------------------

/// A body that returns gives what it returned; one that runs to its end gives nil; one that
/// fails fails the call with an error of the same kind and message.
pub proof fn law_a_call_gives_what_its_body_returns(f: nat, st: St, fun: FunctionV, scope: ObjId)
    ensures
        ({
            let inner = St {
                depth: crate::interp::call::deeper(st.depth),
                reaching: st.reaching.push(fun.owner),
                ..st
            };
            let (after, flow) = s_stmts(f, inner, fun.decl.body.stmts, scope, 0);
            let (end, r) = s_run_body(f + 1, st, fun, scope);
            &&& flow is Ok && flow->Ok_0 is Return ==> r == Ok::<Value, ErrV>(flow->Ok_0->Return_0)
            &&& flow is Ok && flow->Ok_0 is Normal ==> r == Ok::<Value, ErrV>(Value::Nil)
            &&& flow is Err ==> r is Err && r->Err_0.kind == flow->Err_0.kind && r->Err_0.message
                == flow->Err_0.message
            &&& end.out == after.out
            &&& end.heap == after.heap
            &&& end.depth == st.depth
        }),
{
}

/// A call with more or fewer arguments than there are parameters is refused and runs nothing.
pub proof fn law_a_wrong_count_of_arguments_is_refused(f: nat, st: St, id: ObjId, fun: FunctionV, args: Seq<Value>, span: Span)
    requires
        st.heap.function(id) == Some(fun),
        args.len() != fun.decl.params.len(),
    ensures
        s_call_function(f, st, id, args, span).0 == st,
        s_call_function(f, st, id, args, span).1 is Err,
        s_call_function(f, st, id, args, span).1->Err_0.kind == ErrorKind::Type,
        s_call_function(f, st, id, args, span).1->Err_0.span == span,
{
}

/// A call that goes too deep is refused and runs nothing.
pub proof fn law_a_call_too_deep_is_refused(f: nat, st: St, id: ObjId, fun: FunctionV, args: Seq<Value>, span: Span)
    requires
        st.heap.function(id) == Some(fun),
        args.len() == fun.decl.params.len(),
        st.depth >= MAX_DEPTH,
    ensures
        s_call_function(f, st, id, args, span).0 == st,
        s_call_function(f, st, id, args, span).1 is Err,
        s_call_function(f, st, id, args, span).1->Err_0.kind == ErrorKind::Recursion,
{
}

/// Whether parameters take their arguments as they are: none has a type or freezes what it is
/// given, and no two have one name.
pub open spec fn take_as_given(params: Seq<ParamV>) -> bool {
    &&& forall|i: int| 0 <= i < params.len() ==> (#[trigger] params[i]).ty is None && params[i].bind != Bind::Const
    &&& forall|i: int, j: int|
        0 <= i < j < params.len() ==> (#[trigger] params[i]).name != (#[trigger] params[j]).name
}

/// A heap with the parameters from `i` on declared in a scope, each with its argument.
spec fn all_bound(h: HeapV, params: Seq<ParamV>, args: Seq<Value>, scope: ObjId, i: int) -> HeapV
    decreases params.len() - i,
{
    if i < 0 || i >= params.len() {
        h
    } else {
        all_bound(
            declared(h, scope, params[i].name, args[i], params[i].bind, None),
            params,
            args,
            scope,
            i + 1,
        )
    }
}

/// What declaring parameters leaves: each has its argument, from the first on.
proof fn lemma_all_bound(h: HeapV, params: Seq<ParamV>, args: Seq<Value>, scope: ObjId, i: int)
    requires
        take_as_given(params),
        args.len() == params.len(),
        0 <= i <= params.len(),
        h.obj(scope) is Some,
        h.obj(scope)->0 is Scope,
        forall|k: int|
            0 <= k < i ==> var_of(h, scope, (#[trigger] params[k]).name) is Some && var_of(
                h,
                scope,
                params[k].name,
            )->0.value == Some(args[k]),
    ensures
        ({
            let after = all_bound(h, params, args, scope, i);
            &&& after.obj(scope) is Some
            &&& after.obj(scope)->0 is Scope
            &&& after.scope(scope).parent == h.scope(scope).parent
            &&& after.cells.len() == h.cells.len()
            &&& forall|k: int|
                0 <= k < params.len() ==> var_of(after, scope, (#[trigger] params[k]).name) is Some && var_of(
                    after,
                    scope,
                    params[k].name,
                )->0.value == Some(args[k])
        }),
    decreases params.len() - i,
{
    if i < params.len() {
        let p = params[i];
        let next = declared(h, scope, p.name, args[i], p.bind, None);
        law_a_declared_name_is_found(h, scope, p.name, args[i], p.bind, None);
        assert forall|k: int| 0 <= k < i + 1 implies var_of(next, scope, (#[trigger] params[k]).name) is Some
            && var_of(next, scope, params[k].name)->0.value == Some(args[k]) by {
            if k < i {
                law_declaring_a_name_leaves_the_others(
                    h,
                    scope,
                    p.name,
                    args[i],
                    p.bind,
                    None,
                    scope,
                    params[k].name,
                );
            }
        }
        lemma_all_bound(next, params, args, scope, i + 1);
    }
}

/// Binding parameters that take their arguments as they are declares each with its argument.
proof fn lemma_bound(f: nat, st: St, params: Seq<ParamV>, args: Seq<Value>, scope: ObjId, span: Span, i: int)
    requires
        take_as_given(params),
        args.len() == params.len(),
        0 <= i <= params.len(),
        f >= params.len() - i,
    ensures
        s_bind_params(f, st, params, args, scope, span, i) == (
            with_heap(st, all_bound(st.heap, params, args, scope, i)),
            Ok::<(), ErrV>(()),
        ),
    decreases params.len() - i,
{
    if i < params.len() {
        let p = params[i];
        assert(p.ty is None && p.bind != Bind::Const);
        let st1 = with_heap(st, declared(st.heap, scope, p.name, args[i], p.bind, None));
        assert(s_bind_param((f - 1) as nat, st, p, args[i], scope, span) == (st1, Ok::<(), ErrV>(())));
        lemma_bound((f - 1) as nat, st1, params, args, scope, span, i + 1);
    }
}

/// A body that returns a name of its own scope gives the value of that name.
proof fn lemma_body_returns(f: nat, st: St, fun: FunctionV, scope: ObjId, name: Seq<char>, v: Value, at: Span)
    requires
        st.scopes.len() > 0,
        st.scopes.last() == scope,
        st.heap.cell(scope) is Some,
        st.heap.scope(scope).parent is Some,
        var_of(st.heap, scope, name) is Some,
        var_of(st.heap, scope, name)->0.value == Some(v),
        fun.decl.body.stmts == seq![returns_name(name, at)],
    ensures
        s_run_body(f + 6, st, fun, scope).1 == Ok::<Value, ErrV>(v),
{
    let inner = St {
        depth: crate::interp::call::deeper(st.depth),
        reaching: st.reaching.push(fun.owner),
        ..st
    };
    lemma_scope_kept(inner, scope);
    let kept = s_collect(inner);
    assert(kept.heap.scope(scope) == st.heap.scope(scope));
    assert(var_of(kept.heap, scope, name) == var_of(st.heap, scope, name));
    let s = returns_name(name, at);
    lemma_returned(f, inner, scope, name, v, at);
    assert(fun.decl.body.stmts[0] == s);
    assert(s_stmts(f + 5, inner, fun.decl.body.stmts, scope, 0).1 == Ok::<Flow, ErrV>(Flow::Return(v)));
}

proof fn lemma_returned(f: nat, st: St, scope: ObjId, name: Seq<char>, v: Value, at: Span)
    requires
        s_collect(st).heap.cell(scope) is Some,
        s_collect(st).heap.scope(scope).parent is Some,
        var_of(s_collect(st).heap, scope, name) is Some,
        var_of(s_collect(st).heap, scope, name)->0.value == Some(v),
    ensures
        s_exec(f + 4, st, returns_name(name, at), scope).1 == Ok::<Flow, ErrV>(Flow::Return(v)),
{
    let kept = s_collect(st);
    let s = returns_name(name, at);
    let e = s.kind->Return_0->0;
    lemma_own_name_reads(kept, scope, name, v, at);
    assert(s_eval(f + 1, kept, e, scope) == s_read(kept, name, scope, at));
    assert(s_return(f + 2, kept, s.kind->Return_0, s.span, scope) == (
        kept,
        Ok::<Flow, ErrV>(Flow::Return(v)),
    ));
    assert(s_statement(f + 3, kept, s, scope) == s_return(f + 2, kept, s.kind->Return_0, s.span, scope));
}

proof fn lemma_invoked(f: nat, st: St, fun: FunctionV, args: Seq<Value>, scope: ObjId, span: Span, st1: St, v: Value)
    requires
        s_bind_params(f, st, fun.decl.params, args, scope, span, 0) == (st1, Ok::<(), ErrV>(())),
        s_run_body(f, st1, fun, scope).1 == Ok::<Value, ErrV>(v),
        fun.decl.result is None,
    ensures
        s_invoke(f + 1, st, fun, args, scope, span).1 == Ok::<Value, ErrV>(v),
{
}

/// Inside a call each parameter has its argument, in the scope of the call.
proof fn lemma_bound_inside(f: nat, st: St, fun: FunctionV, args: Seq<Value>, span: Span, k: int)
    requires
        sound(st.heap, st.globals),
        st.heap.cells.len() < usize::MAX,
        args.len() == fun.decl.params.len(),
        take_as_given(fun.decl.params),
        0 <= k < args.len(),
        f >= args.len(),
    ensures
        ({
            let scope = st.heap.next_id();
            let (st1, r) = s_bind_params(f, entered(st, fun, args), fun.decl.params, args, scope, span, 0);
            let var = var_of(st1.heap, scope, fun.decl.params[k].name);
            &&& r == Ok::<(), ErrV>(())
            &&& st1.scopes.len() > 0
            &&& st1.scopes.last() == scope
            &&& st1.heap.cell(scope) is Some
            &&& st1.heap.scope(scope).parent is Some
            &&& var is Some
            &&& var->0.value == Some(args[k])
        }),
{
    let params = fun.decl.params;
    let scope = st.heap.next_id();
    let made = block_scope(param_names(params), fun.decl.body.stmts, fun.env);
    law_a_new_object_moves_nothing(st.heap, made);
    let inside = entered(st, fun, args);
    assert(inside.heap == st.heap.with_new(made));
    assert(inside.heap.obj(scope) == Some(made));
    lemma_bound(f, inside, params, args, scope, span, 0);
    lemma_all_bound(inside.heap, params, args, scope, 0);
    assert(params[k].name == params[k].name);
}

proof fn lemma_called(f: nat, st: St, id: ObjId, fun: FunctionV, args: Seq<Value>, span: Span, v: Value)
    requires
        st.heap.function(id) == Some(fun),
        args.len() == fun.decl.params.len(),
        st.depth < MAX_DEPTH,
        s_invoke(f, entered(st, fun, args), fun, args, st.heap.next_id(), span).1 == Ok::<Value, ErrV>(v),
    ensures
        s_call_function(f + 1, st, id, args, span).1 == Ok::<Value, ErrV>(v),
{
}

/// Each parameter reads, in the body, as the argument in its place: a function that returns its
/// `k`th parameter, called, gives its `k`th argument.
#[verifier::spinoff_prover]
pub proof fn law_a_parameter_reads_as_its_argument(
    f: nat,
    st: St,
    id: ObjId,
    fun: FunctionV,
    args: Seq<Value>,
    span: Span,
    k: int,
    at: Span,
)
    requires
        sound(st.heap, st.globals),
        st.heap.cells.len() < usize::MAX,
        st.heap.function(id) == Some(fun),
        args.len() == fun.decl.params.len(),
        st.depth < MAX_DEPTH,
        take_as_given(fun.decl.params),
        0 <= k < args.len(),
        fun.decl.result is None,
        fun.decl.body.stmts == seq![returns_name(fun.decl.params[k].name, at)],
        f >= args.len(),
    ensures
        s_call_function(f + 8, st, id, args, span).1 == Ok::<Value, ErrV>(args[k]),
{
    let scope = st.heap.next_id();
    let inside = entered(st, fun, args);
    let st1 = s_bind_params(f + 6, inside, fun.decl.params, args, scope, span, 0).0;
    lemma_bound_inside(f + 6, st, fun, args, span, k);
    lemma_body_returns(f, st1, fun, scope, fun.decl.params[k].name, args[k], at);
    lemma_invoked(f + 6, inside, fun, args, scope, span, st1, args[k]);
    lemma_called(f + 7, st, id, fun, args, span, args[k]);
}

/// A call lets go of what it entered: the scopes, the values held and the depth are as they
/// were, whatever the call gives.
pub proof fn law_a_call_leaves_what_it_entered(f: nat, st: St, id: ObjId, args: Seq<Value>, span: Span)
    ensures
        s_call(f, st, Value::Function(id), args, span).0.scopes =~= st.scopes,
        s_call(f, st, Value::Function(id), args, span).0.temps =~= st.temps,
        s_call(f, st, Value::Function(id), args, span).0.depth == st.depth,
{
    crate::interp::steady::law_a_call_leaves_what_is_held(f, st, Value::Function(id), args, span);
}

/// Only functions, methods, classes and builtins are called.
pub proof fn law_nothing_else_is_called(f: nat, st: St, target: Value, args: Seq<Value>, span: Span)
    requires
        f > 0,
        target is Nil || target is Bool || target is Int || target is Float || target is Str || target is List
            || target is Tuple || target is Dict || target is Instance || target is Module,
    ensures
        s_call(f, st, target, args, span).0 == st,
        s_call(f, st, target, args, span).1 is Err,
        s_call(f, st, target, args, span).1->Err_0.kind == ErrorKind::Type,
{
}

/// A bound method is called as the method is on what it is bound to.
pub proof fn law_a_bound_method_is_called_on_its_receiver(f: nat, st: St, id: ObjId, receiver: Value, method: Value, args: Seq<Value>, span: Span)
    requires
        st.heap.obj(id) == Some(ObjV::BoundMethod { receiver, method }),
    ensures
        s_call(f + 1, st, Value::BoundMethod(id), args, span) == s_call_method(
            f,
            st,
            receiver,
            method,
            args,
            span,
        ),
{
}

/// A method is handed its receiver in front of its arguments.
pub proof fn law_a_method_is_handed_its_receiver_first(
    f: nat,
    st: St,
    receiver: Value,
    id: ObjId,
    fun: FunctionV,
    args: Seq<Value>,
    span: Span,
)
    requires
        st.heap.function(id) == Some(fun),
        fun.decl.params.len() == args.len() + 1,
    ensures
        s_call_method(f + 1, st, receiver, Value::Function(id), args, span) == s_call(
            f,
            st,
            Value::Function(id),
            seq![receiver] + args,
            span,
        ),
        (seq![receiver] + args)[0] == receiver,
{
}

// -- arguments and parameters --------------------------------------------------------------------

/// Where arguments are given by place alone, each goes to the parameter in its place, and the
/// parameters behind them get none.
pub proof fn law_arguments_by_place_go_to_the_parameters_in_order(params: Seq<ParamV>, args: Seq<CallArgV>, values: Seq<Value>)
    requires
        args.len() == values.len() || args.len() == 0,
        first_named(args, 0) is None,
    ensures
        values.len() > params.len() ==> filled(params, args, values) is Err,
        values.len() <= params.len() ==> {
            &&& filled(params, args, values) is Ok
            &&& filled(params, args, values)->Ok_0.len() == params.len()
            &&& forall|j: int|
                0 <= j < params.len() ==> #[trigger] filled(params, args, values)->Ok_0[j] == if j < values.len() {
                    Some(values[j])
                } else {
                    None
                }
        },
{
    lemma_all_leading(args, 0);
}

proof fn lemma_all_leading(args: Seq<CallArgV>, from: int)
    requires
        0 <= from <= args.len(),
        first_named(args, from) is None,
    ensures
        crate::interp::dispatch::leading(args, from) == args.len(),
    decreases args.len() - from,
{
    if from < args.len() {
        lemma_all_leading(args, from + 1);
    }
}

proof fn lemma_param_place(params: Seq<ParamV>, name: Seq<char>, from: int)
    requires
        0 <= from,
    ensures
        match param_place(params, name, from) {
            Some(i) => from <= i < params.len() && params[i].name == name,
            None => forall|i: int| from <= i < params.len() ==> (#[trigger] params[i]).name != name,
        },
    decreases params.len() - from,
{
    if from < params.len() && params[from].name != name {
        lemma_param_place(params, name, from + 1);
    }
}

/// What filling in arguments by name leaves: what was filled stays, and each argument by name
/// stands at the parameter of its name.
proof fn lemma_filled_by_name(params: Seq<ParamV>, args: Seq<CallArgV>, values: Seq<Value>, i: int, held: Seq<Option<Value>>)
    requires
        0 <= i,
        args.len() == values.len(),
        held.len() == params.len(),
        fill_from(params, args, values, i, held) is Ok,
    ensures
        ({
            let r = fill_from(params, args, values, i, held)->Ok_0;
            &&& r.len() == params.len()
            &&& forall|j: int| 0 <= j < params.len() && held[j] is Some ==> #[trigger] r[j] == held[j]
            &&& forall|k: int|
                i <= k < args.len() ==> (#[trigger] args[k]).name is Some && exists|j: int|
                    0 <= j < params.len() && params[j].name == args[k].name->0 && #[trigger] r[j] == Some(values[k])
        }),
    decreases args.len() - i,
{
    if i < args.len() {
        let name = args[i].name->0;
        lemma_param_place(params, name, 0);
        let j = param_place(params, name, 0)->0;
        let next = held.update(j, Some(values[i]));
        lemma_filled_by_name(params, args, values, i + 1, next);
        let r = fill_from(params, args, values, i, held)->Ok_0;
        assert(r == fill_from(params, args, values, i + 1, next)->Ok_0);
        assert(next[j] is Some);
        assert(r[j] == next[j]);
        assert forall|x: int| 0 <= x < params.len() && held[x] is Some implies #[trigger] r[x] == held[x] by {
            assert(next[x] == held[x]);
        }
        assert forall|k: int| i <= k < args.len() implies (#[trigger] args[k]).name is Some && exists|x: int|
            0 <= x < params.len() && params[x].name == args[k].name->0 && #[trigger] r[x] == Some(values[k]) by {
            if k == i {
                assert(params[j].name == args[k].name->0 && r[j] == Some(values[k]));
            }
        }
    }
}

/// An argument given by name goes to the parameter of that name; the ones in front of it go to
/// the parameters in order. No argument is lost and no parameter is given two.
pub proof fn law_an_argument_by_name_goes_to_its_parameter(params: Seq<ParamV>, args: Seq<CallArgV>, values: Seq<Value>, k: int)
    requires
        args.len() == values.len(),
        0 <= k < args.len(),
        filled(params, args, values) is Ok,
    ensures
        ({
            let r = filled(params, args, values)->Ok_0;
            &&& r.len() == params.len()
            &&& exists|j: int|
                0 <= j < params.len() && #[trigger] r[j] == Some(values[k]) && (args[k].name is Some ==> params[j].name
                    == args[k].name->0) && (args[k].name is None ==> j == k)
        }),
{
    let n = positional(args, values);
    lemma_leading(args, 0);
    let held = Seq::new(
        params.len(),
        |j: int|
            if j < n && j < values.len() {
                Some(values[j])
            } else {
                None
            },
    );
    lemma_filled_by_name(params, args, values, n, held);
    let r = filled(params, args, values)->Ok_0;
    if k < n {
        assert(held[k] is Some);
        assert(r[k] == Some(values[k]));
    } else {
        assert(args[k].name is Some);
    }
}

proof fn lemma_leading(args: Seq<CallArgV>, from: int)
    requires
        0 <= from <= args.len(),
    ensures
        from <= crate::interp::dispatch::leading(args, from) <= args.len(),
        forall|i: int| from <= i < crate::interp::dispatch::leading(args, from) ==> (#[trigger] args[i]).name is None,
    decreases args.len() - from,
{
    if from < args.len() && args[from].name is None {
        lemma_leading(args, from + 1);
    }
}

/// A parameter that was given an argument takes it; one that was not takes what its default is,
/// evaluated where the function was declared, and is refused where it has none.
pub proof fn law_a_default_stands_in_for_what_was_not_given(
    f: nat,
    st: St,
    params: Seq<ParamV>,
    held: Seq<Option<Value>>,
    env: ObjId,
    name: Seq<char>,
    span: Span,
    i: int,
    so_far: Seq<Value>,
)
    requires
        0 <= i < params.len(),
        i < held.len(),
    ensures
        held[i] is Some ==> s_fill_defaults(f + 1, st, params, held, env, name, span, i, so_far)
            == s_fill_defaults(f, st, params, held, env, name, span, i + 1, so_far.push(held[i]->0)),
        held[i] is None && params[i].default is None ==> s_fill_defaults(
            f + 1,
            st,
            params,
            held,
            env,
            name,
            span,
            i,
            so_far,
        ).1 is Err,
        held[i] is None && params[i].default is Some ==> ({
            let (st1, r) = s_eval(f, st, params[i].default->0, env);
            &&& r is Ok ==> s_fill_defaults(f + 1, st, params, held, env, name, span, i, so_far)
                == s_fill_defaults(
                f,
                rooted(st1, r->Ok_0),
                params,
                held,
                env,
                name,
                span,
                i + 1,
                so_far.push(r->Ok_0),
            )
            &&& r is Err ==> s_fill_defaults(f + 1, st, params, held, env, name, span, i, so_far) == (
                st1,
                Err::<Seq<Value>, ErrV>(r->Err_0),
            )
        }),
{
}

/// Arguments given by place to parameters without defaults are handed on just as they are.
pub proof fn law_plain_arguments_are_handed_on(shape: ShapeV, args: Seq<CallArgV>, values: Seq<Value>, name: Seq<char>, span: Span)
    requires
        !shape.receiver,
        first_named(args, 0) is None,
        required(shape.decl.params, shape.decl.params.len() as int) == shape.decl.params.len(),
    ensures
        values.len() == shape.decl.params.len() ==> s_arrange(Some(shape), args, values, name, span) == Ok::<
            ArrangedV,
            ErrV,
        >(ArrangedV::Done(values)),
        values.len() != shape.decl.params.len() ==> s_arrange(Some(shape), args, values, name, span) is Err,
{
}

// -- what a class makes ---------------------------------------------------------------------------

/// Calling a class gives a new instance: one that was not there before.
pub proof fn law_a_class_makes_a_new_instance(f: nat, st: St, class: ObjId, args: Seq<Value>, span: Span)
    requires
        f > 0,
        sound(st.heap, st.globals),
        st.heap.cells.len() < usize::MAX,
        st.heap.class(class).builtin is None,
        s_call_class(f, st, class, args, span).1 is Ok,
    ensures
        s_call_class(f, st, class, args, span).1->Ok_0 is Instance,
        st.heap.cell(s_call_class(f, st, class, args, span).1->Ok_0->Instance_0) is None,
{
    law_a_new_object_moves_nothing(
        st.heap,
        ObjV::Instance(InstanceV { class, fields: Seq::empty(), payload: None }),
    );
}

/// A new instance is of the class that was called, and starts with no fields and no value of
/// its own.
pub proof fn law_a_new_instance_is_of_its_class(st: St, class: ObjId)
    requires
        sound(st.heap, st.globals),
        st.heap.cells.len() < usize::MAX,
    ensures
        ({
            let h = s_new_instance(st, class).heap;
            let made = h.instance(st.heap.next_id());
            &&& h.obj(st.heap.next_id()) is Some
            &&& h.obj(st.heap.next_id())->0 is Instance
            &&& made.class == class
            &&& made.fields.len() == 0
            &&& made.payload is None
            &&& class_of(h, Value::Instance(st.heap.next_id())) == class
        }),
{
    law_a_new_object_moves_nothing(
        st.heap,
        ObjV::Instance(InstanceV { class, fields: Seq::empty(), payload: None }),
    );
}

/// Making an instance fills in the fields that its classes declare and then runs the
/// constructor; neither is passed over, and the constructor finds the fields filled.
pub proof fn law_fields_are_filled_before_the_constructor_runs(
    f: nat,
    st: St,
    class: ObjId,
    id: ObjId,
    args: Seq<Value>,
    span: Span,
)
    ensures
        ({
            let chain = lineage(st.heap, class, st.heap.cells.len());
            let (st1, r) = s_init_fields(f, st, chain, class, id, span, chain.len() as int);
            &&& r is Ok ==> s_build(f + 1, st, class, id, args, span) == s_initialize(f, st1, class, id, args, span)
            &&& r is Err ==> s_build(f + 1, st, class, id, args, span) == (st1, r)
        }),
{
}

/// A constructor that a class writes is called on the instance with the arguments of the call;
/// what it gives is let go of.
pub proof fn law_a_constructor_is_called_on_the_instance(
    f: nat,
    st: St,
    class: ObjId,
    id: ObjId,
    args: Seq<Value>,
    span: Span,
    init: Value,
)
    requires
        st.heap.class_slot(class, Op::Init) == Some(init),
        !(init is Native),
    ensures
        ({
            let (st1, r) = s_call_method(f, st, Value::Instance(id), init, args, span);
            &&& s_initialize(f + 1, st, class, id, args, span).0 == st1
            &&& r is Ok ==> s_initialize(f + 1, st, class, id, args, span).1 == Ok::<(), ErrV>(())
            &&& r is Err ==> s_initialize(f + 1, st, class, id, args, span).1 == Err::<(), ErrV>(r->Err_0)
        }),
{
}

/// A class without a constructor is called without arguments.
pub proof fn law_a_class_without_a_constructor_takes_nothing(
    f: nat,
    st: St,
    class: ObjId,
    id: ObjId,
    args: Seq<Value>,
    span: Span,
)
    requires
        f > 0,
        st.heap.class_slot(class, Op::Init) is None,
    ensures
        s_initialize(f, st, class, id, args, span).0 == st,
        s_initialize(f, st, class, id, args, span).1 is Ok <==> args.len() == 0,
{
}

/// The field initializers of a class that is extended run before those of the class that
/// extends it.
pub proof fn law_fields_of_the_parent_come_first(
    f: nat,
    st: St,
    chain: Seq<ObjId>,
    class: ObjId,
    id: ObjId,
    span: Span,
    n: int,
)
    requires
        0 < n <= chain.len(),
        crate::interp::call::s_own_fields(f, st, chain[n - 1], class, id, span).1 is Ok,
    ensures
        s_init_fields(f + 1, st, chain, class, id, span, n) == s_init_fields(
            f,
            crate::interp::call::s_own_fields(f, st, chain[n - 1], class, id, span).0,
            chain,
            class,
            id,
            span,
            n - 1,
        ),
        s_init_fields(f, st, chain, class, id, span, 0) == (st, Ok::<(), ErrV>(())),
{
}

/// The line of classes of a class starts with itself, and goes on with the line of the class it
/// extends.
pub proof fn law_the_line_of_a_class_starts_with_itself(h: HeapV, id: ObjId, n: nat)
    requires
        n > 0,
    ensures
        lineage(h, id, n).len() > 0,
        lineage(h, id, n)[0] == id,
        h.class(id).parent is Some ==> lineage(h, id, n).skip(1) =~= lineage(
            h,
            h.class(id).parent->0,
            (n - 1) as nat,
        ),
        h.class(id).parent is None ==> lineage(h, id, n).len() == 1,
{
}

// -- mapping ----------------------------------------------------------------------------------------

/// `map` hands each item in turn to the function, and adds what it gives behind what it gave
/// for the items in front.
pub proof fn law_map_adds_what_the_function_gives(
    f: nat,
    st: St,
    source: ObjId,
    function: Value,
    into: ObjId,
    span: Span,
    i: int,
    st1: St,
    v: Value,
)
    requires
        0 <= i < st.heap.list(source).len(),
        s_call(f, st, function, seq![st.heap.list(source)[i]], span) == (st1, Ok::<Value, ErrV>(v)),
        st1.heap.obj(into) is Some,
        st1.heap.obj(into)->0 is List,
    ensures
        exists|next: St|
            s_map_items(f + 1, st, source, function, into, span, i) == #[trigger] s_map_items(
                f,
                next,
                source,
                function,
                into,
                span,
                i + 1,
            ) && next.heap.list(into) == st1.heap.list(into).push(v) && next.out == st1.out,
        s_map_items(f, st, source, function, into, span, st.heap.list(source).len() as int) == (
            st,
            Ok::<Value, ErrV>(Value::List(into)),
        ),
{
    let s = st1.heap.list(into);
    let next = with_heap(st1, st1.heap.with_object(into, ObjV::List(s.push(v))));
    assert(s_map_items(f + 1, st, source, function, into, span, i) == s_map_items(
        f,
        next,
        source,
        function,
        into,
        span,
        i + 1,
    ));
}

} // verus!
