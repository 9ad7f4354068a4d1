//! How calls, parameters, fields and subscripts are evaluated, step by step.

use crate::error::{ErrV, ErrorKind};
use crate::interp::call::{
    entered, param_bound, s_bind_param, s_bind_params, s_call, s_call_class, s_call_evaluated,
    s_call_function, s_call_native, s_class_fields, s_field_set, s_invoke, s_reach, s_run_body,
};
use crate::interp::coerce::{s_coerced, s_initial};
use crate::interp::dispatch::selected;
use crate::interp::eval::{
    arg_exprs, entries_from, pair_exprs, s_call_expr, s_dict_literal, s_eval, s_values,
};
use crate::interp::fit::unwritten;
use crate::interp::index::s_resolve_index;
use crate::interp::sound::sound;
use crate::interp::state::{rooted, St};
use crate::runtime::heap::{law_a_new_object_moves_nothing, HeapV};
use crate::runtime::object::{Entry, FunctionV, ObjV};
use crate::runtime::value::{ObjId, Value};
use crate::syntax::ast::{CallArgV, ExprKindV, ExprV, FieldDeclV, PairV, ParamV};
use crate::syntax::token::Span;
use vstd::prelude::*;

verus! {

// -- subscripts ---------------------------------------------------------------------------------------

/// An int selects a place of what it subscripts just where it counts one from the start, or from
/// the end where it is negative; nothing else selects one.
pub proof fn law_what_a_subscript_selects(h: HeapV, index: Value, len: nat, what: Seq<char>, span: Span)
    ensures
        ({
            let r = s_resolve_index(h, index, len, what, span);
            &&& !(index is Int) ==> r is Err && r->Err_0.kind == ErrorKind::Type
            &&& index is Int ==> (r is Ok <==> -(len as int) <= index->Int_0 < len)
            &&& index is Int && r is Ok ==> 0 <= r->Ok_0 < len && (r->Ok_0 == index->Int_0 || r->Ok_0 == index->Int_0
                + len)
            &&& index is Int && r is Err ==> r->Err_0.kind == ErrorKind::Index
        }),
{
}

// -- calls --------------------------------------------------------------------------------------------

/// A call evaluates what it calls before its arguments, and then its arguments in order.
pub proof fn law_a_callee_is_evaluated_before_its_arguments(
    f: nat,
    st: St,
    e: ExprV,
    callee: ExprV,
    args: Seq<CallArgV>,
    env: ObjId,
    st1: St,
    target: Value,
    st2: St,
    values: Seq<Value>,
)
    requires
        e.kind == (ExprKindV::Call { callee: Box::new(callee), args }),
        callee.kind is Var,
        s_eval(f + 1, st, callee, env) == (st1, Ok::<Value, ErrV>(target)),
        s_values(
            f,
            rooted(St { pending: None, ..st1 }, target),
            arg_exprs(args),
            env,
            st1.temps.len() as int,
            0,
            Seq::empty(),
        ) == (st2, Ok::<Seq<Value>, ErrV>(values)),
    ensures
        s_eval(f + 3, st, e, env) == s_reach(f, st2, target, args, values, st1.pending, e.span),
        arg_exprs(args).len() == args.len(),
        forall|i: int| 0 <= i < args.len() ==> #[trigger] arg_exprs(args)[i] == args[i].value,
{
    assert(s_eval(f + 3, st, e, env) == s_call_expr(f + 2, st, callee, args, e.span, env));
    assert(s_call_expr(f + 2, st, callee, args, e.span, env) == s_call_evaluated(f + 1, st1, target, args, env, e.span));
}

/// What is called decides how: a set of functions by the one that fits, a function by its body,
/// a builtin by itself, and a class by making an instance.
pub proof fn law_what_is_called_decides_how(f: nat, st: St, target: Value, args: Seq<Value>, span: Span, chosen: Value)
    ensures
        target is Overload && selected(st.heap, target, Seq::empty(), args, false, span) == Ok::<Value, ErrV>(chosen)
            ==> s_call(f + 1, st, target, args, span) == s_call(f, st, chosen, args, span),
        target is Overload && selected(st.heap, target, Seq::empty(), args, false, span) is Err ==> s_call(
            f + 1,
            st,
            target,
            args,
            span,
        ).0 == st && s_call(f + 1, st, target, args, span).1 is Err,
        target is Function ==> s_call(f + 1, st, target, args, span) == s_call_function(
            f,
            st,
            target->Function_0,
            args,
            span,
        ),
        target is Native ==> s_call(f + 1, st, target, args, span) == s_call_native(
            f,
            st,
            target->Native_0,
            args,
            span,
        ),
        target is Class ==> s_call(f + 1, st, target, args, span) == s_call_class(f, st, target->Class_0, args, span),
{
}

/// A function runs in a new scope inside the one it was declared in, wherever it is called from.
pub proof fn law_a_function_runs_where_it_was_declared(st: St, fun: FunctionV, args: Seq<Value>)
    requires
        sound(st.heap, st.globals),
        st.heap.cells.len() < usize::MAX,
    ensures
        ({
            let inner = entered(st, fun, args);
            let scope = st.heap.next_id();
            &&& st.heap.cell(scope) is None
            &&& inner.heap.scope(scope).parent == Some(fun.env)
            &&& inner.scopes.last() == scope
            &&& inner.out == st.out
        }),
{
    let made = crate::interp::declare::block_scope(
        crate::interp::dispatch::param_names(fun.decl.params),
        fun.decl.body.stmts,
        fun.env,
    );
    law_a_new_object_moves_nothing(st.heap, made);
    assert(st.heap.with_new(made).obj(st.heap.next_id()) == Some(made));
}

/// A parameter with a stated type is given its argument as that type makes it, and one without
/// is given it as it is.
pub proof fn law_a_parameter_is_given_its_argument(
    f: nat,
    st: St,
    p: ParamV,
    v: Value,
    scope: ObjId,
    span: Span,
    st1: St,
    given: Value,
)
    ensures
        p.ty is None ==> s_bind_param(f, st, p, v, scope, span) == (param_bound(st, p, v, scope), Ok::<(), ErrV>(())),
        p.ty is Some && s_coerced(f, st, p.ty->0, v, "`"@ + p.name + "`"@, span, unwritten()) == (
            st1,
            Ok::<Value, ErrV>(given),
        ) ==> s_bind_param(f + 1, st, p, v, scope, span) == (
            param_bound(st1, p, given, scope),
            Ok::<(), ErrV>(()),
        ),
        p.ty is Some && s_coerced(f, st, p.ty->0, v, "`"@ + p.name + "`"@, span, unwritten()).1 is Err ==> s_bind_param(
            f + 1,
            st,
            p,
            v,
            scope,
            span,
        ).1 is Err,
{
}

/// A function with a stated result gives what its body returned as that type makes it; one
/// without gives it as it is.
#[verifier::spinoff_prover]
pub proof fn law_a_result_is_what_its_type_makes_of_it(
    f: nat,
    st: St,
    fun: FunctionV,
    args: Seq<Value>,
    scope: ObjId,
    span: Span,
    st1: St,
    st2: St,
    v: Value,
)
    requires
        s_bind_params(f, st, fun.decl.params, args, scope, span, 0) == (st1, Ok::<(), ErrV>(())),
        s_run_body(f, st1, fun, scope) == (st2, Ok::<Value, ErrV>(v)),
    ensures
        fun.decl.result is None ==> s_invoke(f + 1, st, fun, args, scope, span) == (st2, Ok::<Value, ErrV>(v)),
        fun.decl.result is Some ==> s_invoke(f + 1, st, fun, args, scope, span) == s_coerced(
            f,
            st2,
            fun.decl.result->0,
            v,
            "`"@ + fun.decl.name + "`\u{2019}s return"@,
            span,
            unwritten(),
        ),
{
}

/// An argument that its parameter refuses stops the call: the body does not run.
pub proof fn law_a_refused_argument_runs_nothing(
    f: nat,
    st: St,
    fun: FunctionV,
    args: Seq<Value>,
    scope: ObjId,
    span: Span,
    st1: St,
    e: ErrV,
)
    requires
        s_bind_params(f, st, fun.decl.params, args, scope, span, 0) == (st1, Err::<(), ErrV>(e)),
    ensures
        s_invoke(f + 1, st, fun, args, scope, span) == (st1, Err::<Value, ErrV>(e)),
{
}

// -- fields -------------------------------------------------------------------------------------------

/// The fields of a class are filled in the order they are declared, each with the value of its
/// initializer, evaluated where the class was declared.
pub proof fn law_fields_are_filled_in_order(
    f: nat,
    st: St,
    fields: Seq<FieldDeclV>,
    env: ObjId,
    id: ObjId,
    span: Span,
    i: int,
    st1: St,
    v: Value,
    st2: St,
)
    requires
        0 <= i < fields.len(),
        s_initial(f, st, fields[i].name, fields[i].name_span, fields[i].ty, fields[i].value, env) == (
            st1,
            Ok::<Value, ErrV>(v),
        ),
        s_field_set(st1, fields[i], v, id, span) == (st2, Ok::<(), ErrV>(())),
    ensures
        s_class_fields(f + 1, st, fields, env, id, span, i) == s_class_fields(f, st2, fields, env, id, span, i + 1),
{
}

// -- dict literals ------------------------------------------------------------------------------------

/// A dict literal evaluates each key and then its value, pair by pair, and is a new dict of what
/// they make.
pub proof fn law_a_dict_literal_is_evaluated_pair_by_pair(
    f: nat,
    st: St,
    e: ExprV,
    pairs: Seq<PairV>,
    env: ObjId,
    st1: St,
    values: Seq<Value>,
    entries: Seq<Entry>,
)
    requires
        e.kind == ExprKindV::Dict(pairs),
        s_values(f, st, pair_exprs(pairs), env, st.temps.len() as int, 0, Seq::empty()) == (
            st1,
            Ok::<Seq<Value>, ErrV>(values),
        ),
        entries_from(st1.heap, values, e.span, 0, Seq::empty()) == Ok::<Seq<Entry>, ErrV>(entries),
        sound(st1.heap, st1.globals),
        st1.heap.cells.len() < usize::MAX,
    ensures
        pair_exprs(pairs).len() == 2 * pairs.len(),
        forall|i: int|
            0 <= i < pairs.len() ==> pair_exprs(pairs)[2 * i] == (#[trigger] pairs[i]).key && pair_exprs(pairs)[2 * i
                + 1] == pairs[i].value,
        ({
            let (after, r) = s_eval(f + 2, st, e, env);
            &&& r is Ok && r->Ok_0 is Dict
            &&& after.heap.obj(r->Ok_0->Dict_0) == Some(ObjV::Dict(entries))
            &&& st1.heap.cell(r->Ok_0->Dict_0) is None
        }),
{
    assert(s_eval(f + 2, st, e, env) == s_dict_literal(f + 1, st, pairs, e.span, env));
    law_a_new_object_moves_nothing(st1.heap, ObjV::Dict(entries));
    assert forall|i: int| 0 <= i < pairs.len() implies pair_exprs(pairs)[2 * i] == (#[trigger] pairs[i]).key
        && pair_exprs(pairs)[2 * i + 1] == pairs[i].value by {
        assert((2 * i) / 2 == i && (2 * i) % 2 == 0);
        assert((2 * i + 1) / 2 == i && (2 * i + 1) % 2 == 1);
    }
}

} // verus!
