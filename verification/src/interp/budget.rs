//! That a larger budget of steps changes no answer that a smaller one gave.

use crate::compiled;
use crate::error::ErrorKind;
use crate::interp::api::{answer, s_entry, s_prompted};
use crate::interp::call::{
    converter_of, deeper, entered, method_arity, method_receiver, native_arity, s_arranged,
    s_bind_param, s_bind_params, s_build, s_call, s_call_class, s_call_evaluated, s_call_function,
    s_call_method, s_call_native, s_class_fields, s_construct_builtin, s_field_set,
    s_fill_defaults, s_init_fields, s_initialize, s_invoke, s_map_items, s_map_list,
    s_new_instance, s_own_fields, s_reach, s_reach_attr, s_run_body, s_set_payload,
};
use crate::interp::coerce::{
    conversion, s_coerced, s_constructed, s_default_instance, s_default_items, s_default_of,
    s_evaluated_as, s_initial, s_settled, s_widen, s_widen_all, s_zero, unknown_type,
};
use crate::interp::declare::{block_scope, s_read};
use crate::interp::dict::{dict_get, keys_of, values_in};
use crate::interp::dispatch::{
    callable_name, called_name, params_after, s_arrange, selected, shape_for, shape_for_method,
    ArrangedV, ShapeV,
};
use crate::interp::error::{s_check_arity, s_reify, Spans};
use crate::interp::eval::{
    arg_exprs, dot_spans, is_simple, pair_exprs, s_applied_call, s_applied_expr, s_assign,
    s_assign_expr, s_assign_field, s_assign_index, s_assign_op_expr, s_binary_expr, s_bracket_call,
    s_build_with, s_built_generic, s_call_expr, s_combined, s_dict_literal, s_eval, s_field_expr,
    s_index_expr, s_is_expr, s_list_literal, s_logical_expr, s_method_call, s_op_field, s_op_index,
    s_op_var, s_pair, s_slice_expr, s_store_var, s_super, s_super_call, s_super_target,
    s_unary_expr, s_values, slice_exprs,
};
use crate::interp::exec::{
    is_declaration, s_block, s_block_with, s_declaration, s_exec, s_expr_stmt, s_for, s_if,
    s_items, s_iterate, s_let, s_return, s_scoped, s_statement, s_stmts, s_throw_stmt, s_try,
    s_while, Flow,
};
use crate::interp::files::{loaded_place, s_resolve_import};
use crate::interp::fit::{
    caret, class_named, declared_by, names, produced_by, rebound_by, unwritten, WrittenV,
};
use crate::interp::generic::{inferred_header, substituted};
use crate::interp::module::{loading, s_import, s_load_module, s_program, s_run_module};
use crate::interp::native::arg;
use crate::interp::object::{s_attr, Attr};
use crate::interp::operator::{
    asked, binary_op_for, is_ordering, op_body, op_for, slot_for, specific_for, Asked,
};
use crate::interp::ops::{
    is_frozen, items_of, s_arith, s_asked_compare, s_asked_order, s_base_contains, s_base_equals,
    s_binary, s_bool_op, s_call_op, s_compare, s_computed, s_contains, s_entries_equal, s_equals,
    s_index_get, s_index_put, s_is_truthy, s_items_equal, s_search, s_unary, unary_slot, PutSpans,
};
use crate::interp::params::{
    bindings_for, checked_arguments, current, fixed_params, reified, s_type_arity, type_params,
};
use crate::interp::show::{
    s_base_text, s_display, s_entry_texts, s_item_texts, s_repr, s_string_op, string_op, Ask,
};
use crate::interp::state::{
    held, popped, released, rooted, s_collect, with_heap, with_new, MAX_DEPTH, St,
};
use crate::runtime::class::{base, builtin_base, lineage, slot_of};
use crate::runtime::heap::at_index;
use crate::runtime::object::{Class, Entry, FunctionV, ObjV};
use crate::runtime::scope::{declared, holder, var_of};
use crate::runtime::types::holds;
use crate::runtime::value::{is_shipped, Builtin, Native, ObjId, Value};
use crate::syntax::ast::{
    BinaryOp, Bind, BlockV, CallArgV, ExprKindV, ExprV, FieldDeclV, ImportNameV, LogicalOp, Op,
    PairV, ParamV, StmtKindV, StmtV, TypeExprV, TypeNameV, UnaryOp,
};
use crate::syntax::token::Span;
use crate::text::digits;
use crate::interp::module::law_a_program_runs_in_two_parts;
use crate::error::ErrV;
use crate::interp::state::{FUEL, Out};
use crate::interp::steady::law_a_program_leaves_what_is_held;
use vstd::prelude::*;

verus! {

/// Whether an evaluation ran out of the steps it may take.
pub open spec fn spent<T>(r: Result<T, ErrV>) -> bool {
    r is Err && r->Err_0.kind == ErrorKind::Budget
}

proof fn more_prompted(f: nat, larger: nat, st: St, s: StmtV, env: ObjId)
    requires
        f <= larger,
    ensures
        spent(s_prompted(f, st, s, env).1) || s_prompted(larger, st, s, env) == s_prompted(f, st, s, env),
{
    match s.kind {
        StmtKindV::Expr(e) => {
            more_eval(f, larger, s_collect(st), e, env);
        },
        _ => {
            more_exec(f, larger, st, s, env);
        },
    }
}

proof fn more_entry(
    f: nat,
    larger: nat,
    st: St,
    program: Seq<StmtV>,
    env: ObjId,
    mark: int,
    i: int,
    last: Option<Value>,
)
    requires
        f <= larger,
    ensures
        spent(s_entry(f, st, program, env, mark, i, last).1) || s_entry(larger, st, program, env, mark, i, last) == s_entry(f, st, program, env, mark, i, last),
    decreases f,
{
    if !(i < 0 || i >= program.len()) && f > 0 {
        more_prompted((f - 1) as nat, (larger - 1) as nat, st, program[i], env);
        match s_prompted((f - 1) as nat, st, program[i], env) {
            (st1, Err(e)) => {},
            (st1, Ok(v)) => {
                more_entry(
                    (f - 1) as nat,
                    (larger - 1) as nat,
                    held(released(st1, mark), answer(v)),
                    program,
                    env,
                    mark,
                    i + 1,
                    v,
                );
            },
        }
    }
}

#[verifier::rlimit(50)]
proof fn more_fill_defaults(
    f: nat,
    larger: nat,
    st: St,
    params: Seq<ParamV>,
    filled: Seq<Option<Value>>,
    env: ObjId,
    name: Seq<char>,
    span: Span,
    i: int,
    so_far: Seq<Value>,
)
    requires
        f <= larger,
    ensures
        spent(s_fill_defaults(f, st, params, filled, env, name, span, i, so_far).1) || s_fill_defaults(larger, st, params, filled, env, name, span, i, so_far) == s_fill_defaults(f, st, params, filled, env, name, span, i, so_far),
    decreases f,
{
    if !(i < 0 || i >= params.len() || i >= filled.len()) && f > 0 {
        match filled[i] {
            Some(v) => {
                more_fill_defaults(
                    (f - 1) as nat,
                    (larger - 1) as nat,
                    st,
                    params,
                    filled,
                    env,
                    name,
                    span,
                    i + 1,
                    so_far.push(v),
                );
            },
            None => {
                match params[i].default {
                    None => {},
                    Some(e) => {
                        more_eval((f - 1) as nat, (larger - 1) as nat, st, e, env);
                        match s_eval((f - 1) as nat, st, e, env) {
                            (st1, Ok(v)) => {
                                more_fill_defaults(
                                    (f - 1) as nat,
                                    (larger - 1) as nat,
                                    rooted(st1, v),
                                    params,
                                    filled,
                                    env,
                                    name,
                                    span,
                                    i + 1,
                                    so_far.push(v),
                                );
                            },
                            (st1, Err(e)) => {},
                        }
                    },
                }
            },
        }
    }
}

proof fn more_arranged(
    f: nat,
    larger: nat,
    st: St,
    hold: Seq<Value>,
    shape: Option<ShapeV>,
    args: Seq<CallArgV>,
    values: Seq<Value>,
    name: Seq<char>,
    span: Span,
)
    requires
        f <= larger,
    ensures
        spent(s_arranged(f, st, hold, shape, args, values, name, span).1) || s_arranged(larger, st, hold, shape, args, values, name, span) == s_arranged(f, st, hold, shape, args, values, name, span),
    decreases f,
{
    match s_arrange(shape, args, values, name, span) {
        Err(e) => {},
        Ok(ArrangedV::Done(v)) => {},
        Ok(ArrangedV::Filled(filled)) => {
            match shape {
                None => {},
                Some(s) => {
                    if f > 0 {
                        more_fill_defaults(
                            (f - 1) as nat,
                            (larger - 1) as nat,
                            held(held(st, hold), values),
                            params_after(s.decl.params, s.receiver),
                            filled,
                            s.env,
                            name,
                            span,
                            0,
                            Seq::empty(),
                        );
                        let (st1, r) = s_fill_defaults((f - 1) as nat, held(held(st, hold), values), params_after(s.decl.params, s.receiver), filled, s.env, name, span, 0, Seq::empty());
                    }
                },
            }
        },
    }
}

proof fn more_reach(
    f: nat,
    larger: nat,
    st: St,
    target: Value,
    args: Seq<CallArgV>,
    values: Seq<Value>,
    header: Option<TypeExprV>,
    span: Span,
)
    requires
        f <= larger,
    ensures
        spent(s_reach(f, st, target, args, values, header, span).1) || s_reach(larger, st, target, args, values, header, span) == s_reach(f, st, target, args, values, header, span),
    decreases f,
{
    if f > 0 {
        match shape_for(st.heap, target, args, values, span) {
            Err(e) => {},
            Ok(shape) => {
                more_arranged(
                    (f - 1) as nat,
                    (larger - 1) as nat,
                    st,
                    seq![target],
                    shape,
                    args,
                    values,
                    called_name(st.heap, target),
                    span,
                );
                match s_arranged((f - 1) as nat, st, seq![target], shape, args, values, called_name(st.heap, target), span) {
                    (st1, Err(e)) => {},
                    (st1, Ok(given)) => {
                        more_call(
                            (f - 1) as nat,
                            (larger - 1) as nat,
                            St { pending: header, ..st1 },
                            target,
                            given,
                            span,
                        );
                        let (st2, r) = s_call((f - 1) as nat, St { pending: header, ..st1 }, target, given, span);
                    },
                }
            },
        }
    }
}

proof fn more_call_evaluated(
    f: nat,
    larger: nat,
    st: St,
    target: Value,
    args: Seq<CallArgV>,
    env: ObjId,
    span: Span,
)
    requires
        f <= larger,
    ensures
        spent(s_call_evaluated(f, st, target, args, env, span).1) || s_call_evaluated(larger, st, target, args, env, span) == s_call_evaluated(f, st, target, args, env, span),
    decreases f,
{
    if f > 0 {
        more_values(
            (f - 1) as nat,
            (larger - 1) as nat,
            rooted(St { pending: None, ..st }, target),
            arg_exprs(args),
            env,
            st.temps.len() as int,
            0,
            Seq::empty(),
        );
        match s_values((f - 1) as nat, rooted(St { pending: None, ..st }, target), arg_exprs(args), env, st.temps.len() as int, 0, Seq::empty()) {
            (st1, Err(e)) => {},
            (st1, Ok(values)) => {
                more_reach((f - 1) as nat, (larger - 1) as nat, st1, target, args, values, st.pending, span);
            },
        }
    }
}

#[verifier::rlimit(50)]
proof fn more_reach_attr(
    f: nat,
    larger: nat,
    st: St,
    receiver: Value,
    attr: Attr,
    args: Seq<CallArgV>,
    values: Seq<Value>,
    span: Span,
)
    requires
        f <= larger,
    ensures
        spent(s_reach_attr(f, st, receiver, attr, args, values, span).1) || s_reach_attr(larger, st, receiver, attr, args, values, span) == s_reach_attr(f, st, receiver, attr, args, values, span),
    decreases f,
{
    if f > 0 {
        match attr {
            Attr::Field(v) => {
                more_reach((f - 1) as nat, (larger - 1) as nat, st, v, args, values, None, span);
            },
            Attr::Method(m) => {
                match shape_for_method(st.heap, m, args, values, true, span) {
                    Err(e) => {},
                    Ok(shape) => {
                        more_arranged(
                            (f - 1) as nat,
                            (larger - 1) as nat,
                            st,
                            seq![receiver, m],
                            shape,
                            args,
                            values,
                            callable_name(st.heap, m),
                            span,
                        );
                        match s_arranged((f - 1) as nat, st, seq![receiver, m], shape, args, values, callable_name(st.heap, m), span) {
                            (st1, Err(e)) => {},
                            (st1, Ok(given)) => {
                                more_call_method(
                                    (f - 1) as nat,
                                    (larger - 1) as nat,
                                    st1,
                                    receiver,
                                    m,
                                    given,
                                    span,
                                );
                            },
                        }
                    },
                }
            },
        }
    }
}

proof fn more_call(f: nat, larger: nat, st: St, target: Value, args: Seq<Value>, span: Span)
    requires
        f <= larger,
    ensures
        spent(s_call(f, st, target, args, span).1) || s_call(larger, st, target, args, span) == s_call(f, st, target, args, span),
    decreases f,
{
    if f > 0 {
        match target {
            Value::Overload(_) => {
                match selected(st.heap, target, Seq::empty(), args, false, span) {
                    Err(e) => {},
                    Ok(chosen) => {
                        more_call((f - 1) as nat, (larger - 1) as nat, st, chosen, args, span);
                    },
                }
            },
            Value::Native(native) => {
                more_call_native((f - 1) as nat, (larger - 1) as nat, st, native, args, span);
            },
            Value::Function(id) => {
                more_call_function((f - 1) as nat, (larger - 1) as nat, st, id, args, span);
            },
            Value::BoundMethod(id) => {
                more_call_method(
                    (f - 1) as nat,
                    (larger - 1) as nat,
                    st,
                    st.heap.bound(id).0,
                    st.heap.bound(id).1,
                    args,
                    span,
                );
            },
            Value::Class(id) => {
                more_call_class((f - 1) as nat, (larger - 1) as nat, st, id, args, span);
            },
            _ => {},
        }
    }
}

#[verifier::rlimit(50)]
proof fn more_bind_param(f: nat, larger: nat, st: St, p: ParamV, v: Value, scope: ObjId, span: Span)
    requires
        f <= larger,
    ensures
        spent(s_bind_param(f, st, p, v, scope, span).1) || s_bind_param(larger, st, p, v, scope, span) == s_bind_param(f, st, p, v, scope, span),
    decreases f,
{
    match p.ty {
        None => {},
        Some(ty) => {
            if f > 0 {
                more_coerced(
                    (f - 1) as nat,
                    (larger - 1) as nat,
                    st,
                    ty,
                    v,
                    "`"@ + p.name + "`"@,
                    span,
                    unwritten(),
                );
            }
        },
    }
}

proof fn more_bind_params(
    f: nat,
    larger: nat,
    st: St,
    params: Seq<ParamV>,
    args: Seq<Value>,
    scope: ObjId,
    span: Span,
    i: int,
)
    requires
        f <= larger,
    ensures
        spent(s_bind_params(f, st, params, args, scope, span, i).1) || s_bind_params(larger, st, params, args, scope, span, i) == s_bind_params(f, st, params, args, scope, span, i),
    decreases f,
{
    if !(i < 0 || i >= params.len() || i >= args.len()) && f > 0 {
        more_bind_param((f - 1) as nat, (larger - 1) as nat, st, params[i], args[i], scope, span);
        match s_bind_param((f - 1) as nat, st, params[i], args[i], scope, span) {
            (st1, Ok(_)) => {
                more_bind_params((f - 1) as nat, (larger - 1) as nat, st1, params, args, scope, span, i + 1);
            },
            (st1, Err(e)) => {},
        }
    }
}

proof fn more_run_body(f: nat, larger: nat, st: St, fun: FunctionV, scope: ObjId)
    requires
        f <= larger,
    ensures
        spent(s_run_body(f, st, fun, scope).1) || s_run_body(larger, st, fun, scope) == s_run_body(f, st, fun, scope),
    decreases f,
{
    if f > 0 {
        more_stmts(
            (f - 1) as nat,
            (larger - 1) as nat,
            St { depth: deeper(st.depth), reaching: st.reaching.push(fun.owner), ..st },
            fun.decl.body.stmts,
            scope,
            0,
        );
        let (st1, r) = s_stmts((f - 1) as nat, St { depth: deeper(st.depth), reaching: st.reaching.push(fun.owner), ..st }, fun.decl.body.stmts, scope, 0);
        let st2 = St { depth: st.depth, reaching: popped(st1.reaching), ..st1 };
    }
}

proof fn more_invoke(
    f: nat,
    larger: nat,
    st: St,
    fun: FunctionV,
    args: Seq<Value>,
    scope: ObjId,
    span: Span,
)
    requires
        f <= larger,
    ensures
        spent(s_invoke(f, st, fun, args, scope, span).1) || s_invoke(larger, st, fun, args, scope, span) == s_invoke(f, st, fun, args, scope, span),
    decreases f,
{
    if f > 0 {
        more_bind_params((f - 1) as nat, (larger - 1) as nat, st, fun.decl.params, args, scope, span, 0);
        match s_bind_params((f - 1) as nat, st, fun.decl.params, args, scope, span, 0) {
            (st1, Err(e)) => {},
            (st1, Ok(_)) => {
                more_run_body((f - 1) as nat, (larger - 1) as nat, st1, fun, scope);
                match s_run_body((f - 1) as nat, st1, fun, scope) {
                    (st2, Err(e)) => {},
                    (st2, Ok(v)) => {
                        match fun.decl.result {
                            None => {},
                            Some(ty) => {
                                more_coerced(
                                    (f - 1) as nat,
                                    (larger - 1) as nat,
                                    st2,
                                    ty,
                                    v,
                                    "`"@ + fun.decl.name + "`\u{2019}s return"@,
                                    span,
                                    unwritten(),
                                );
                            },
                        }
                    },
                }
            },
        }
    }
}

proof fn more_call_function(f: nat, larger: nat, st: St, id: ObjId, args: Seq<Value>, span: Span)
    requires
        f <= larger,
    ensures
        spent(s_call_function(f, st, id, args, span).1) || s_call_function(larger, st, id, args, span) == s_call_function(f, st, id, args, span),
    decreases f,
{
    match st.heap.function(id) {
        None => {},
        Some(fun) => {
            match s_check_arity(fun.decl.name, fun.decl.params.len(), args.len(), span) {
                Err(e) => {},
                Ok(_) => {
                    if !(st.depth >= MAX_DEPTH) && f > 0 {
                        more_invoke(
                            (f - 1) as nat,
                            (larger - 1) as nat,
                            entered(st, fun, args),
                            fun,
                            args,
                            st.heap.next_id(),
                            span,
                        );
                        let (st1, r) = s_invoke((f - 1) as nat, entered(st, fun, args), fun, args, st.heap.next_id(), span);
                    }
                },
            }
        },
    }
}

proof fn more_map_items(
    f: nat,
    larger: nat,
    st: St,
    source: ObjId,
    function: Value,
    into: ObjId,
    span: Span,
    i: int,
)
    requires
        f <= larger,
    ensures
        spent(s_map_items(f, st, source, function, into, span, i).1) || s_map_items(larger, st, source, function, into, span, i) == s_map_items(f, st, source, function, into, span, i),
    decreases f,
{
    match at_index(st.heap.list(source), i) {
        None => {},
        Some(item) => {
            if f > 0 {
                more_call((f - 1) as nat, (larger - 1) as nat, st, function, seq![item], span);
                match s_call((f - 1) as nat, st, function, seq![item], span) {
                    (st1, Err(e)) => {},
                    (st1, Ok(v)) => {
                        more_map_items(
                            (f - 1) as nat,
                            (larger - 1) as nat,
                            with_heap(st1, match st1.heap.obj(into) { Some(ObjV::List(s)) => st1.heap.with_object(into, ObjV::List(s.push(v))), _ => st1.heap }),
                            source,
                            function,
                            into,
                            span,
                            i + 1,
                        );
                    },
                }
            }
        },
    }
}

proof fn more_map_list(f: nat, larger: nat, st: St, target: Value, function: Value, span: Span)
    requires
        f <= larger,
    ensures
        spent(s_map_list(f, st, target, function, span).1) || s_map_list(larger, st, target, function, span) == s_map_list(f, st, target, function, span),
    decreases f,
{
    match base(st.heap, target) {
        Value::List(source) => {
            if f > 0 {
                let into = st.heap.next_id();
                more_map_items(
                    (f - 1) as nat,
                    (larger - 1) as nat,
                    held(with_new(st, ObjV::List(Seq::empty())), seq![Value::List(into), target, function]),
                    source,
                    function,
                    into,
                    span,
                    0,
                );
                let (st1, r) = s_map_items((f - 1) as nat, held(with_new(st, ObjV::List(Seq::empty())), seq![Value::List(into), target, function]), source, function, into, span, 0);
            }
        },
        _ => {},
    }
}

#[verifier::rlimit(50)]
proof fn more_call_native(f: nat, larger: nat, st: St, native: Native, args: Seq<Value>, span: Span)
    requires
        f <= larger,
    ensures
        spent(s_call_native(f, st, native, args, span).1) || s_call_native(larger, st, native, args, span) == s_call_native(f, st, native, args, span),
    decreases f,
{
    match native_arity(native, args.len(), span) {
        Err(e) => {},
        Ok(_) => {
            if f > 0 {
                match native {
                    Native::Print => {
                        more_display(
                            (f - 1) as nat,
                            (larger - 1) as nat,
                            st,
                            arg(args, 0),
                            false,
                            Ask::Class,
                        );
                    },
                    Native::ToStr => {
                        more_display(
                            (f - 1) as nat,
                            (larger - 1) as nat,
                            st,
                            arg(args, 0),
                            false,
                            Ask::Class,
                        );
                    },
                    Native::ToBool => {
                        more_is_truthy((f - 1) as nat, (larger - 1) as nat, st, arg(args, 0));
                    },
                    Native::MapList => {
                        more_map_list(
                            (f - 1) as nat,
                            (larger - 1) as nat,
                            st,
                            arg(args, 0),
                            arg(args, 1),
                            span,
                        );
                    },
                    _ => {},
                }
            }
        },
    }
}

proof fn more_call_method(
    f: nat,
    larger: nat,
    st: St,
    receiver: Value,
    method: Value,
    args: Seq<Value>,
    span: Span,
)
    requires
        f <= larger,
    ensures
        spent(s_call_method(f, st, receiver, method, args, span).1) || s_call_method(larger, st, receiver, method, args, span) == s_call_method(f, st, receiver, method, args, span),
    decreases f,
{
    match selected(st.heap, method, Seq::empty(), args, true, span) {
        Err(e) => {},
        Ok(m) => {
            match method_arity(st.heap, m, args.len(), span) {
                Err(e) => {},
                Ok(_) => {
                    match method_receiver(st, m, receiver, span) {
                        Err(e) => {},
                        Ok(first) => {
                            if f > 0 {
                                more_call(
                                    (f - 1) as nat,
                                    (larger - 1) as nat,
                                    st,
                                    m,
                                    seq![first] + args,
                                    span,
                                );
                            }
                        },
                    }
                },
            }
        },
    }
}

proof fn more_construct_builtin(
    f: nat,
    larger: nat,
    st: St,
    id: ObjId,
    b: Builtin,
    args: Seq<Value>,
    span: Span,
)
    requires
        f <= larger,
    ensures
        spent(s_construct_builtin(f, st, id, b, args, span).1) || s_construct_builtin(larger, st, id, b, args, span) == s_construct_builtin(f, st, id, b, args, span),
    decreases f,
{
    if f > 0 {
        match converter_of(st.heap, b, args) {
            Some((op, method)) => {
                more_call_op((f - 1) as nat, (larger - 1) as nat, st, method, args[0], Seq::empty());
            },
            None => {
                match st.heap.class_slot(id, Op::Init) {
                    None => {},
                    Some(init) => {
                        more_call((f - 1) as nat, (larger - 1) as nat, st, init, args, span);
                    },
                }
            },
        }
    }
}

proof fn more_set_payload(
    f: nat,
    larger: nat,
    st: St,
    id: ObjId,
    init: Value,
    b: Builtin,
    args: Seq<Value>,
    span: Span,
)
    requires
        f <= larger,
    ensures
        spent(s_set_payload(f, st, id, init, b, args, span).1) || s_set_payload(larger, st, id, init, b, args, span) == s_set_payload(f, st, id, init, b, args, span),
    decreases f,
{
    if !(st.heap.instance(id).payload is Some) && f > 0 {
        more_call((f - 1) as nat, (larger - 1) as nat, st, init, args, span);
    }
}

proof fn more_class_fields(
    f: nat,
    larger: nat,
    st: St,
    fields: Seq<FieldDeclV>,
    env: ObjId,
    id: ObjId,
    span: Span,
    i: int,
)
    requires
        f <= larger,
    ensures
        spent(s_class_fields(f, st, fields, env, id, span, i).1) || s_class_fields(larger, st, fields, env, id, span, i) == s_class_fields(f, st, fields, env, id, span, i),
    decreases f,
{
    if !(i < 0 || i >= fields.len()) && f > 0 {
        more_initial(
            (f - 1) as nat,
            (larger - 1) as nat,
            st,
            fields[i].name,
            fields[i].name_span,
            fields[i].ty,
            fields[i].value,
            env,
        );
        match s_initial((f - 1) as nat, st, fields[i].name, fields[i].name_span, fields[i].ty, fields[i].value, env) {
            (st1, Err(e)) => {},
            (st1, Ok(v)) => {
                match s_field_set(st1, fields[i], v, id, span) {
                    (st2, Err(e)) => {},
                    (st2, Ok(_)) => {
                        more_class_fields(
                            (f - 1) as nat,
                            (larger - 1) as nat,
                            st2,
                            fields,
                            env,
                            id,
                            span,
                            i + 1,
                        );
                    },
                }
            },
        }
    }
}

proof fn more_own_fields(f: nat, larger: nat, st: St, c: ObjId, class: ObjId, id: ObjId, span: Span)
    requires
        f <= larger,
    ensures
        spent(s_own_fields(f, st, c, class, id, span).1) || s_own_fields(larger, st, c, class, id, span) == s_own_fields(f, st, c, class, id, span),
    decreases f,
{
    match st.heap.class(c).decl {
        None => {},
        Some(decl) => {
            if f > 0 {
                let frame = if c == class { bindings_for(st.heap, id) } else { Seq::empty() };
                more_class_fields(
                    (f - 1) as nat,
                    (larger - 1) as nat,
                    St { bindings: st.bindings.push(frame), ..st },
                    decl.fields,
                    st.heap.class(c).env,
                    id,
                    span,
                    0,
                );
                let (st1, r) = s_class_fields((f - 1) as nat, St { bindings: st.bindings.push(frame), ..st }, decl.fields, st.heap.class(c).env, id, span, 0);
            }
        },
    }
}

proof fn more_init_fields(
    f: nat,
    larger: nat,
    st: St,
    chain: Seq<ObjId>,
    class: ObjId,
    id: ObjId,
    span: Span,
    n: int,
)
    requires
        f <= larger,
    ensures
        spent(s_init_fields(f, st, chain, class, id, span, n).1) || s_init_fields(larger, st, chain, class, id, span, n) == s_init_fields(f, st, chain, class, id, span, n),
    decreases f,
{
    if !(n <= 0 || n > chain.len()) && f > 0 {
        more_own_fields((f - 1) as nat, (larger - 1) as nat, st, chain[n - 1], class, id, span);
        match s_own_fields((f - 1) as nat, st, chain[n - 1], class, id, span) {
            (st1, Err(e)) => {},
            (st1, Ok(_)) => {
                more_init_fields((f - 1) as nat, (larger - 1) as nat, st1, chain, class, id, span, n - 1);
            },
        }
    }
}

proof fn more_initialize(
    f: nat,
    larger: nat,
    st: St,
    class: ObjId,
    id: ObjId,
    args: Seq<Value>,
    span: Span,
)
    requires
        f <= larger,
    ensures
        spent(s_initialize(f, st, class, id, args, span).1) || s_initialize(larger, st, class, id, args, span) == s_initialize(f, st, class, id, args, span),
    decreases f,
{
    if f > 0 {
        match st.heap.class_slot(class, Op::Init) {
            None => {},
            Some(Value::Native(native)) => {
                let b = match builtin_base(st.heap, class, st.heap.cells.len()) { Some(b) => b, None => Builtin::Nil };
                more_set_payload(
                    (f - 1) as nat,
                    (larger - 1) as nat,
                    st,
                    id,
                    Value::Native(native),
                    b,
                    args,
                    span,
                );
            },
            Some(init) => {
                more_call_method(
                    (f - 1) as nat,
                    (larger - 1) as nat,
                    st,
                    Value::Instance(id),
                    init,
                    args,
                    span,
                );
            },
        }
    }
}

proof fn more_build(
    f: nat,
    larger: nat,
    st: St,
    class: ObjId,
    id: ObjId,
    args: Seq<Value>,
    span: Span,
)
    requires
        f <= larger,
    ensures
        spent(s_build(f, st, class, id, args, span).1) || s_build(larger, st, class, id, args, span) == s_build(f, st, class, id, args, span),
    decreases f,
{
    if f > 0 {
        let chain = lineage(st.heap, class, st.heap.cells.len());
        more_init_fields((f - 1) as nat, (larger - 1) as nat, st, chain, class, id, span, chain.len() as int);
        match s_init_fields((f - 1) as nat, st, chain, class, id, span, chain.len() as int) {
            (st1, Err(e)) => {},
            (st1, Ok(_)) => {
                more_initialize((f - 1) as nat, (larger - 1) as nat, st1, class, id, args, span);
            },
        }
    }
}

proof fn more_call_class(f: nat, larger: nat, st: St, class: ObjId, args: Seq<Value>, span: Span)
    requires
        f <= larger,
    ensures
        spent(s_call_class(f, st, class, args, span).1) || s_call_class(larger, st, class, args, span) == s_call_class(f, st, class, args, span),
    decreases f,
{
    if f > 0 {
        match st.heap.class(class).builtin {
            Some(b) => {
                more_construct_builtin((f - 1) as nat, (larger - 1) as nat, st, class, b, args, span);
            },
            None => {
                let id = st.heap.next_id();
                more_build(
                    (f - 1) as nat,
                    (larger - 1) as nat,
                    held(rooted(s_new_instance(st, class), Value::Instance(id)), args),
                    class,
                    id,
                    args,
                    span,
                );
                let (st1, r) = s_build((f - 1) as nat, held(rooted(s_new_instance(st, class), Value::Instance(id)), args), class, id, args, span);
            },
        }
    }
}

proof fn more_constructed(f: nat, larger: nat, st: St, ty: TypeExprV, v: Value, span: Span)
    requires
        f <= larger,
    ensures
        spent(s_constructed(f, st, ty, v, span).1) || s_constructed(larger, st, ty, v, span) == s_constructed(f, st, ty, v, span),
    decreases f,
{
    match conversion(st, ty, v) {
        None => {},
        Some((id, explicit)) => {
            if !(explicit) && f > 0 {
                more_call((f - 1) as nat, (larger - 1) as nat, st, Value::Class(id), seq![v], span);
            }
        },
    }
}

proof fn more_widen_all(
    f: nat,
    larger: nat,
    st: St,
    ty: TypeExprV,
    values: Seq<Value>,
    what: Seq<char>,
    span: Span,
    i: int,
    so_far: Seq<Value>,
)
    requires
        f <= larger,
    ensures
        spent(s_widen_all(f, st, ty, values, what, span, i, so_far).1) || s_widen_all(larger, st, ty, values, what, span, i, so_far) == s_widen_all(f, st, ty, values, what, span, i, so_far),
    decreases f,
{
    if !(i < 0 || i >= values.len()) && f > 0 {
        more_coerced((f - 1) as nat, (larger - 1) as nat, st, ty, values[i], what, span, unwritten());
        match s_coerced((f - 1) as nat, st, ty, values[i], what, span, unwritten()) {
            (st1, Ok(v)) => {
                more_widen_all(
                    (f - 1) as nat,
                    (larger - 1) as nat,
                    rooted(st1, v),
                    ty,
                    values,
                    what,
                    span,
                    i + 1,
                    so_far.push(v),
                );
            },
            (st1, Err(e)) => {},
        }
    }
}

#[verifier::rlimit(50)]
proof fn more_widen(f: nat, larger: nat, st: St, ty: TypeExprV, v: Value, span: Span)
    requires
        f <= larger,
    ensures
        spent(s_widen(f, st, ty, v, span).1) || s_widen(larger, st, ty, v, span) == s_widen(f, st, ty, v, span),
    decreases f,
{
    let mark = st.temps.len() as int;
    if f > 0 {
        match base(st.heap, v) {
            Value::List(id) => {
                if names(ty, "list"@) && ty.args.len() > 0 {
                    more_widen_all(
                        (f - 1) as nat,
                        (larger - 1) as nat,
                        rooted(st, v),
                        ty.args[0],
                        st.heap.list(id),
                        "the item"@,
                        span,
                        0,
                        Seq::empty(),
                    );
                }
            },
            Value::Dict(id) => {
                if names(ty, "dict"@) && ty.args.len() > 1 {
                    more_widen_all(
                        (f - 1) as nat,
                        (larger - 1) as nat,
                        rooted(st, v),
                        ty.args[1],
                        values_in(st.heap.dict(id)),
                        "the value"@,
                        span,
                        0,
                        Seq::empty(),
                    );
                }
            },
            _ => {},
        }
    }
}

proof fn more_settled(f: nat, larger: nat, st: St, ty: TypeExprV, v: Value, span: Span)
    requires
        f <= larger,
    ensures
        spent(s_settled(f, st, ty, v, span).1) || s_settled(larger, st, ty, v, span) == s_settled(f, st, ty, v, span),
    decreases f,
{
    if f > 0 {
        more_widen((f - 1) as nat, (larger - 1) as nat, st, ty, v, span);
    }
}

proof fn more_coerced(
    f: nat,
    larger: nat,
    st: St,
    ty: TypeExprV,
    v: Value,
    what: Seq<char>,
    span: Span,
    w: WrittenV,
)
    requires
        f <= larger,
    ensures
        spent(s_coerced(f, st, ty, v, what, span, w).1) || s_coerced(larger, st, ty, v, what, span, w) == s_coerced(f, st, ty, v, what, span, w),
    decreases f,
{
    let at = caret(w, span);
    let t = substituted(ty, current(st));
    if f > 0 {
        match unknown_type(st, t) {
            Some(name) => {},
            None => {
                if holds(st.heap, t, v) {
                    more_settled((f - 1) as nat, (larger - 1) as nat, st, t, v, at);
                } else {
                    more_constructed((f - 1) as nat, (larger - 1) as nat, st, t, v, at);
                    match s_constructed((f - 1) as nat, st, t, v, at) {
                        (st1, Err(e)) => {},
                        (st1, Ok(Some(built))) => {
                            more_settled((f - 1) as nat, (larger - 1) as nat, st1, t, built, at);
                        },
                        (st1, Ok(None)) => {},
                    }
                }
            },
        }
    }
}

proof fn more_default_of(f: nat, larger: nat, st: St, ty: TypeExprV, field: Seq<char>, span: Span)
    requires
        f <= larger,
    ensures
        spent(s_default_of(f, st, ty, field, span).1) || s_default_of(larger, st, ty, field, span) == s_default_of(f, st, ty, field, span),
    decreases f,
{
    if f > 0 && !(ty.nullable) {
        match ty.name {
            TypeNameV::Named(name) => {
                if name == "tuple"@ {
                    more_default_items(
                        (f - 1) as nat,
                        (larger - 1) as nat,
                        st,
                        ty.args,
                        field,
                        span,
                        0,
                        Seq::empty(),
                    );
                } else {
                    match s_zero(st, name) {
                        Some((st1, v)) => {},
                        None => {
                            more_default_instance((f - 1) as nat, (larger - 1) as nat, st, name, field, span);
                        },
                    }
                }
            },
            _ => {},
        }
    }
}

proof fn more_default_instance(f: nat, larger: nat, st: St, name: Seq<char>, field: Seq<char>, span: Span)
    requires
        f <= larger,
    ensures
        spent(s_default_instance(f, st, name, field, span).1) || s_default_instance(larger, st, name, field, span) == s_default_instance(f, st, name, field, span),
    decreases f,
{
    match class_named(st, name) {
        None => {},
        Some(id) => {
            if f > 0 {
                more_call((f - 1) as nat, (larger - 1) as nat, st, Value::Class(id), Seq::empty(), span);
            }
        },
    }
}

proof fn more_default_items(
    f: nat,
    larger: nat,
    st: St,
    args: Seq<TypeExprV>,
    field: Seq<char>,
    span: Span,
    i: int,
    so_far: Seq<Value>,
)
    requires
        f <= larger,
    ensures
        spent(s_default_items(f, st, args, field, span, i, so_far).1) || s_default_items(larger, st, args, field, span, i, so_far) == s_default_items(f, st, args, field, span, i, so_far),
    decreases f,
{
    if !(i < 0 || i >= args.len()) && f > 0 {
        if args[i].name is Pack {
            more_default_items((f - 1) as nat, (larger - 1) as nat, st, args, field, span, i + 1, so_far);
        } else {
            more_default_of(
                (f - 1) as nat,
                (larger - 1) as nat,
                st,
                args[i],
                field + "["@ + digits(i as nat) + "]"@,
                span,
            );
            match s_default_of((f - 1) as nat, st, args[i], field + "["@ + digits(i as nat) + "]"@, span) {
                (st1, Ok(v)) => {
                    more_default_items(
                        (f - 1) as nat,
                        (larger - 1) as nat,
                        st1,
                        args,
                        field,
                        span,
                        i + 1,
                        so_far.push(v),
                    );
                },
                (st1, Err(e)) => {},
            }
        }
    }
}

proof fn more_evaluated_as(f: nat, larger: nat, st: St, ty: Option<TypeExprV>, e: ExprV, env: ObjId)
    requires
        f <= larger,
    ensures
        spent(s_evaluated_as(f, st, ty, e, env).1) || s_evaluated_as(larger, st, ty, e, env) == s_evaluated_as(f, st, ty, e, env),
    decreases f,
{
    if f > 0 {
        match inferred_header(ty, e) {
            None => {
                more_eval((f - 1) as nat, (larger - 1) as nat, st, e, env);
            },
            Some(header) => {
                more_eval(
                    (f - 1) as nat,
                    (larger - 1) as nat,
                    St { pending: Some(substituted(header, current(st))), ..st },
                    e,
                    env,
                );
                let (st1, r) = s_eval((f - 1) as nat, St { pending: Some(substituted(header, current(st))), ..st }, e, env);
            },
        }
    }
}

#[verifier::rlimit(50)]
proof fn more_initial(
    f: nat,
    larger: nat,
    st: St,
    name: Seq<char>,
    name_span: Span,
    ty: Option<TypeExprV>,
    value: Option<ExprV>,
    env: ObjId,
)
    requires
        f <= larger,
    ensures
        spent(s_initial(f, st, name, name_span, ty, value, env).1) || s_initial(larger, st, name, name_span, ty, value, env) == s_initial(f, st, name, name_span, ty, value, env),
    decreases f,
{
    if f > 0 {
        match value {
            Some(e) => {
                more_evaluated_as((f - 1) as nat, (larger - 1) as nat, st, ty, e, env);
                match s_evaluated_as((f - 1) as nat, st, ty, e, env) {
                    (st1, Err(x)) => {},
                    (st1, Ok(v)) => {
                        match ty {
                            None => {},
                            Some(t) => {
                                more_coerced(
                                    (f - 1) as nat,
                                    (larger - 1) as nat,
                                    st1,
                                    t,
                                    v,
                                    "`"@ + name + "`"@,
                                    e.span,
                                    declared_by(e),
                                );
                            },
                        }
                    },
                }
            },
            None => {
                match ty {
                    None => {},
                    Some(t) => {
                        more_default_of(
                            (f - 1) as nat,
                            (larger - 1) as nat,
                            st,
                            substituted(t, current(st)),
                            name,
                            name_span,
                        );
                        match s_default_of((f - 1) as nat, st, substituted(t, current(st)), name, name_span) {
                            (st1, Err(x)) => {},
                            (st1, Ok(v)) => {
                                more_coerced(
                                    (f - 1) as nat,
                                    (larger - 1) as nat,
                                    st1,
                                    t,
                                    v,
                                    "`"@ + name + "`"@,
                                    name_span,
                                    unwritten(),
                                );
                            },
                        }
                    },
                }
            },
        }
    }
}

proof fn more_values(
    f: nat,
    larger: nat,
    st: St,
    es: Seq<ExprV>,
    env: ObjId,
    mark: int,
    i: int,
    so_far: Seq<Value>,
)
    requires
        f <= larger,
    ensures
        spent(s_values(f, st, es, env, mark, i, so_far).1) || s_values(larger, st, es, env, mark, i, so_far) == s_values(f, st, es, env, mark, i, so_far),
    decreases f,
{
    if !(i < 0 || i >= es.len()) && f > 0 {
        more_eval((f - 1) as nat, (larger - 1) as nat, st, es[i], env);
        match s_eval((f - 1) as nat, st, es[i], env) {
            (st1, Ok(v)) => {
                more_values(
                    (f - 1) as nat,
                    (larger - 1) as nat,
                    rooted(st1, v),
                    es,
                    env,
                    mark,
                    i + 1,
                    so_far.push(v),
                );
            },
            (st1, Err(e)) => {},
        }
    }
}

proof fn more_pair(f: nat, larger: nat, st: St, a: ExprV, b: ExprV, env: ObjId)
    requires
        f <= larger,
    ensures
        spent(s_pair(f, st, a, b, env).1) || s_pair(larger, st, a, b, env) == s_pair(f, st, a, b, env),
    decreases f,
{
    if f > 0 {
        more_eval((f - 1) as nat, (larger - 1) as nat, st, a, env);
        match s_eval((f - 1) as nat, st, a, env) {
            (st1, Err(e)) => {},
            (st1, Ok(x)) => {
                more_eval((f - 1) as nat, (larger - 1) as nat, rooted(st1, x), b, env);
                let (st2, r) = s_eval((f - 1) as nat, rooted(st1, x), b, env);
                let st3 = released(st2, st1.temps.len() as int);
            },
        }
    }
}

proof fn more_list_literal(f: nat, larger: nat, st: St, items: Seq<ExprV>, env: ObjId)
    requires
        f <= larger,
    ensures
        spent(s_list_literal(f, st, items, env).1) || s_list_literal(larger, st, items, env) == s_list_literal(f, st, items, env),
    decreases f,
{
    if f > 0 {
        more_values(
            (f - 1) as nat,
            (larger - 1) as nat,
            st,
            items,
            env,
            st.temps.len() as int,
            0,
            Seq::empty(),
        );
    }
}

proof fn more_dict_literal(f: nat, larger: nat, st: St, pairs: Seq<PairV>, span: Span, env: ObjId)
    requires
        f <= larger,
    ensures
        spent(s_dict_literal(f, st, pairs, span, env).1) || s_dict_literal(larger, st, pairs, span, env) == s_dict_literal(f, st, pairs, span, env),
    decreases f,
{
    if f > 0 {
        more_values(
            (f - 1) as nat,
            (larger - 1) as nat,
            st,
            pair_exprs(pairs),
            env,
            st.temps.len() as int,
            0,
            Seq::empty(),
        );
    }
}

proof fn more_unary_expr(
    f: nat,
    larger: nat,
    st: St,
    op: UnaryOp,
    rhs: ExprV,
    span: Span,
    env: ObjId,
)
    requires
        f <= larger,
    ensures
        spent(s_unary_expr(f, st, op, rhs, span, env).1) || s_unary_expr(larger, st, op, rhs, span, env) == s_unary_expr(f, st, op, rhs, span, env),
    decreases f,
{
    if f > 0 {
        more_eval((f - 1) as nat, (larger - 1) as nat, st, rhs, env);
        match s_eval((f - 1) as nat, st, rhs, env) {
            (st1, Err(e)) => {},
            (st1, Ok(v)) => {
                more_unary((f - 1) as nat, (larger - 1) as nat, st1, op, v, span);
            },
        }
    }
}

proof fn more_binary_expr(
    f: nat,
    larger: nat,
    st: St,
    op: BinaryOp,
    lhs: ExprV,
    rhs: ExprV,
    span: Span,
    env: ObjId,
)
    requires
        f <= larger,
    ensures
        spent(s_binary_expr(f, st, op, lhs, rhs, span, env).1) || s_binary_expr(larger, st, op, lhs, rhs, span, env) == s_binary_expr(f, st, op, lhs, rhs, span, env),
    decreases f,
{
    if f > 0 {
        more_pair((f - 1) as nat, (larger - 1) as nat, st, lhs, rhs, env);
        match s_pair((f - 1) as nat, st, lhs, rhs, env) {
            (st1, Err(e)) => {},
            (st1, Ok((a, b))) => {
                more_binary(
                    (f - 1) as nat,
                    (larger - 1) as nat,
                    st1,
                    op,
                    a,
                    b,
                    Spans { lhs: lhs.span, rhs: rhs.span, whole: span },
                );
            },
        }
    }
}

proof fn more_logical_expr(
    f: nat,
    larger: nat,
    st: St,
    op: LogicalOp,
    lhs: ExprV,
    rhs: ExprV,
    env: ObjId,
)
    requires
        f <= larger,
    ensures
        spent(s_logical_expr(f, st, op, lhs, rhs, env).1) || s_logical_expr(larger, st, op, lhs, rhs, env) == s_logical_expr(f, st, op, lhs, rhs, env),
    decreases f,
{
    if f > 0 {
        more_eval((f - 1) as nat, (larger - 1) as nat, st, lhs, env);
        match s_eval((f - 1) as nat, st, lhs, env) {
            (st1, Err(e)) => {},
            (st1, Ok(v)) => {
                more_is_truthy((f - 1) as nat, (larger - 1) as nat, st1, v);
                match s_is_truthy((f - 1) as nat, st1, v) {
                    (st2, Err(e)) => {},
                    (st2, Ok(truthy)) => {
                        if !(truthy == (op == LogicalOp::Or)) {
                            more_eval((f - 1) as nat, (larger - 1) as nat, st2, rhs, env);
                        }
                    },
                }
            },
        }
    }
}

proof fn more_is_expr(f: nat, larger: nat, st: St, value: ExprV, ty: TypeExprV, env: ObjId)
    requires
        f <= larger,
    ensures
        spent(s_is_expr(f, st, value, ty, env).1) || s_is_expr(larger, st, value, ty, env) == s_is_expr(f, st, value, ty, env),
    decreases f,
{
    if f > 0 {
        more_eval((f - 1) as nat, (larger - 1) as nat, st, value, env);
    }
}

proof fn more_index_expr(
    f: nat,
    larger: nat,
    st: St,
    target: ExprV,
    index: ExprV,
    span: Span,
    env: ObjId,
)
    requires
        f <= larger,
    ensures
        spent(s_index_expr(f, st, target, index, span, env).1) || s_index_expr(larger, st, target, index, span, env) == s_index_expr(f, st, target, index, span, env),
    decreases f,
{
    if f > 0 {
        more_pair((f - 1) as nat, (larger - 1) as nat, st, target, index, env);
        match s_pair((f - 1) as nat, st, target, index, env) {
            (st1, Err(e)) => {},
            (st1, Ok((t, i))) => {
                if !(t is Class) {
                    more_index_get((f - 1) as nat, (larger - 1) as nat, st1, t, i, span);
                }
            },
        }
    }
}

proof fn more_slice_expr(
    f: nat,
    larger: nat,
    st: St,
    target: ExprV,
    start: Option<Box<ExprV>>,
    end: Option<Box<ExprV>>,
    span: Span,
    env: ObjId,
)
    requires
        f <= larger,
    ensures
        spent(s_slice_expr(f, st, target, start, end, span, env).1) || s_slice_expr(larger, st, target, start, end, span, env) == s_slice_expr(f, st, target, start, end, span, env),
    decreases f,
{
    if f > 0 {
        more_values(
            (f - 1) as nat,
            (larger - 1) as nat,
            st,
            slice_exprs(target, start, end),
            env,
            st.temps.len() as int,
            0,
            Seq::empty(),
        );
    }
}

proof fn more_field_expr(
    f: nat,
    larger: nat,
    st: St,
    target: ExprV,
    name: Seq<char>,
    span: Span,
    env: ObjId,
)
    requires
        f <= larger,
    ensures
        spent(s_field_expr(f, st, target, name, span, env).1) || s_field_expr(larger, st, target, name, span, env) == s_field_expr(f, st, target, name, span, env),
    decreases f,
{
    if f > 0 {
        more_eval((f - 1) as nat, (larger - 1) as nat, st, target, env);
    }
}

proof fn more_method_call(
    f: nat,
    larger: nat,
    st: St,
    target: ExprV,
    name: Seq<char>,
    callee: Span,
    args: Seq<CallArgV>,
    span: Span,
    env: ObjId,
)
    requires
        f <= larger,
    ensures
        spent(s_method_call(f, st, target, name, callee, args, span, env).1) || s_method_call(larger, st, target, name, callee, args, span, env) == s_method_call(f, st, target, name, callee, args, span, env),
    decreases f,
{
    if f > 0 {
        more_eval((f - 1) as nat, (larger - 1) as nat, st, target, env);
        match s_eval((f - 1) as nat, st, target, env) {
            (st1, Err(e)) => {},
            (st1, Ok(receiver)) => {
                match s_attr(st1, receiver, name, dot_spans(target.span, callee)) {
                    Err(e) => {},
                    Ok(attr) => {
                        more_values(
                            (f - 1) as nat,
                            (larger - 1) as nat,
                            rooted(rooted(st1, receiver), attr.found()),
                            arg_exprs(args),
                            env,
                            st1.temps.len() as int,
                            0,
                            Seq::empty(),
                        );
                        match s_values((f - 1) as nat, rooted(rooted(st1, receiver), attr.found()), arg_exprs(args), env, st1.temps.len() as int, 0, Seq::empty()) {
                            (st2, Err(e)) => {},
                            (st2, Ok(values)) => {
                                more_reach_attr(
                                    (f - 1) as nat,
                                    (larger - 1) as nat,
                                    st2,
                                    receiver,
                                    attr,
                                    args,
                                    values,
                                    span,
                                );
                            },
                        }
                    },
                }
            },
        }
    }
}

#[verifier::rlimit(50)]
proof fn more_super_call(
    f: nat,
    larger: nat,
    st: St,
    name: Seq<char>,
    callee: Span,
    args: Seq<CallArgV>,
    span: Span,
    env: ObjId,
)
    requires
        f <= larger,
    ensures
        spent(s_super_call(f, st, name, callee, args, span, env).1) || s_super_call(larger, st, name, callee, args, span, env) == s_super_call(f, st, name, callee, args, span, env),
    decreases f,
{
    if f > 0 {
        match s_super(st, callee, env) {
            (st1, Err(e)) => {},
            (st1, Ok((class, receiver))) => {
                match s_super_target(st1, class, receiver, name, callee) {
                    Err(e) => {},
                    Ok(target) => {
                        more_values(
                            (f - 1) as nat,
                            (larger - 1) as nat,
                            rooted(rooted(st1, receiver), target.0),
                            arg_exprs(args),
                            env,
                            st1.temps.len() as int,
                            0,
                            Seq::empty(),
                        );
                        match s_values((f - 1) as nat, rooted(rooted(st1, receiver), target.0), arg_exprs(args), env, st1.temps.len() as int, 0, Seq::empty()) {
                            (st2, Err(e)) => {},
                            (st2, Ok(values)) => {
                                match target.1 {
                                    Some((id, b)) => {
                                        more_set_payload(
                                            (f - 1) as nat,
                                            (larger - 1) as nat,
                                            st2,
                                            id,
                                            target.0,
                                            b,
                                            values,
                                            span,
                                        );
                                    },
                                    None => {
                                        more_reach_attr(
                                            (f - 1) as nat,
                                            (larger - 1) as nat,
                                            st2,
                                            receiver,
                                            Attr::Method(target.0),
                                            args,
                                            values,
                                            span,
                                        );
                                    },
                                }
                            },
                        }
                    },
                }
            },
        }
    }
}

proof fn more_built_generic(
    f: nat,
    larger: nat,
    st: St,
    class: ObjId,
    type_args: Seq<ExprV>,
    args: Seq<CallArgV>,
    span: Span,
    env: ObjId,
)
    requires
        f <= larger,
    ensures
        spent(s_built_generic(f, st, class, type_args, args, span, env).1) || s_built_generic(larger, st, class, type_args, args, span, env) == s_built_generic(f, st, class, type_args, args, span, env),
    decreases f,
{
    if f > 0 {
        match s_type_arity(st.heap, class, type_args.len(), span) {
            Err(e) => {},
            Ok(_) => {
                more_values(
                    (f - 1) as nat,
                    (larger - 1) as nat,
                    st,
                    type_args,
                    env,
                    st.temps.len() as int,
                    0,
                    Seq::empty(),
                );
                match s_values((f - 1) as nat, st, type_args, env, st.temps.len() as int, 0, Seq::empty()) {
                    (st1, Err(e)) => {},
                    (st1, Ok(values)) => {
                        more_build_with(
                            (f - 1) as nat,
                            (larger - 1) as nat,
                            st1,
                            class,
                            values,
                            type_args,
                            args,
                            span,
                            env,
                        );
                    },
                }
            },
        }
    }
}

proof fn more_build_with(
    f: nat,
    larger: nat,
    st: St,
    class: ObjId,
    values: Seq<Value>,
    type_args: Seq<ExprV>,
    args: Seq<CallArgV>,
    span: Span,
    env: ObjId,
)
    requires
        f <= larger,
    ensures
        spent(s_build_with(f, st, class, values, type_args, args, span, env).1) || s_build_with(larger, st, class, values, type_args, args, span, env) == s_build_with(f, st, class, values, type_args, args, span, env),
    decreases f,
{
    let params = type_params(st.heap, class);
    if f > 0 {
        match s_type_arity(st.heap, class, type_args.len(), span) {
            Err(e) => {},
            Ok(_) => {
                match checked_arguments(st, values, type_args, st.heap.class(class).name, params, fixed_params(params), env, 0, Seq::empty()) {
                    Err(e) => {},
                    Ok(bound) => {
                        more_call_evaluated(
                            (f - 1) as nat,
                            (larger - 1) as nat,
                            St { pending: Some(reified(st.heap, class, bound)), ..st },
                            Value::Class(class),
                            args,
                            env,
                            span,
                        );
                        let (st1, r) = s_call_evaluated((f - 1) as nat, St { pending: Some(reified(st.heap, class, bound)), ..st }, Value::Class(class), args, env, span);
                    },
                }
            },
        }
    }
}

#[verifier::rlimit(50)]
proof fn more_bracket_call(
    f: nat,
    larger: nat,
    st: St,
    target: ExprV,
    index: ExprV,
    callee: Span,
    args: Seq<CallArgV>,
    span: Span,
    env: ObjId,
)
    requires
        f <= larger,
    ensures
        spent(s_bracket_call(f, st, target, index, callee, args, span, env).1) || s_bracket_call(larger, st, target, index, callee, args, span, env) == s_bracket_call(f, st, target, index, callee, args, span, env),
    decreases f,
{
    if f > 0 {
        more_eval((f - 1) as nat, (larger - 1) as nat, st, target, env);
        match s_eval((f - 1) as nat, st, target, env) {
            (st1, Err(e)) => {},
            (st1, Ok(Value::Class(class))) => {
                more_built_generic(
                    (f - 1) as nat,
                    (larger - 1) as nat,
                    st1,
                    class,
                    seq![index],
                    args,
                    span,
                    env,
                );
            },
            (st1, Ok(t)) => {
                more_eval((f - 1) as nat, (larger - 1) as nat, rooted(st1, t), index, env);
                let (st2, r) = s_eval((f - 1) as nat, rooted(st1, t), index, env);
                let st3 = released(st2, st1.temps.len() as int);
                match r {
                    Err(e) => {},
                    Ok(i) => {
                        more_index_get((f - 1) as nat, (larger - 1) as nat, st3, t, i, callee);
                        match s_index_get((f - 1) as nat, st3, t, i, callee) {
                            (st4, Err(e)) => {},
                            (st4, Ok(v)) => {
                                more_call_evaluated(
                                    (f - 1) as nat,
                                    (larger - 1) as nat,
                                    st4,
                                    v,
                                    args,
                                    env,
                                    span,
                                );
                            },
                        }
                    },
                }
            },
        }
    }
}

proof fn more_applied_call(
    f: nat,
    larger: nat,
    st: St,
    target: ExprV,
    type_args: Seq<ExprV>,
    callee: Span,
    args: Seq<CallArgV>,
    span: Span,
    env: ObjId,
)
    requires
        f <= larger,
    ensures
        spent(s_applied_call(f, st, target, type_args, callee, args, span, env).1) || s_applied_call(larger, st, target, type_args, callee, args, span, env) == s_applied_call(f, st, target, type_args, callee, args, span, env),
    decreases f,
{
    if f > 0 {
        more_eval((f - 1) as nat, (larger - 1) as nat, st, target, env);
        match s_eval((f - 1) as nat, st, target, env) {
            (st1, Err(e)) => {},
            (st1, Ok(Value::Class(class))) => {
                more_built_generic(
                    (f - 1) as nat,
                    (larger - 1) as nat,
                    st1,
                    class,
                    type_args,
                    args,
                    span,
                    env,
                );
            },
            (st1, Ok(t)) => {},
        }
    }
}

#[verifier::rlimit(50)]
proof fn more_call_expr(
    f: nat,
    larger: nat,
    st: St,
    callee: ExprV,
    args: Seq<CallArgV>,
    span: Span,
    env: ObjId,
)
    requires
        f <= larger,
    ensures
        spent(s_call_expr(f, st, callee, args, span, env).1) || s_call_expr(larger, st, callee, args, span, env) == s_call_expr(f, st, callee, args, span, env),
    decreases f,
{
    if f > 0 {
        match callee.kind {
            ExprKindV::Field { target, name } => {
                more_method_call(
                    (f - 1) as nat,
                    (larger - 1) as nat,
                    st,
                    *target,
                    name,
                    callee.span,
                    args,
                    span,
                    env,
                );
            },
            ExprKindV::Super { name } => {
                more_super_call((f - 1) as nat, (larger - 1) as nat, st, name, callee.span, args, span, env);
            },
            ExprKindV::Index { target, index } => {
                more_bracket_call(
                    (f - 1) as nat,
                    (larger - 1) as nat,
                    st,
                    *target,
                    *index,
                    callee.span,
                    args,
                    span,
                    env,
                );
            },
            ExprKindV::TypeArgs { target, args: type_args } => {
                more_applied_call(
                    (f - 1) as nat,
                    (larger - 1) as nat,
                    st,
                    *target,
                    type_args,
                    callee.span,
                    args,
                    span,
                    env,
                );
            },
            _ => {
                more_eval((f - 1) as nat, (larger - 1) as nat, st, callee, env);
                match s_eval((f - 1) as nat, st, callee, env) {
                    (st1, Err(e)) => {},
                    (st1, Ok(v)) => {
                        more_call_evaluated((f - 1) as nat, (larger - 1) as nat, st1, v, args, env, span);
                    },
                }
            },
        }
    }
}

proof fn more_applied_expr(f: nat, larger: nat, st: St, target: ExprV, span: Span, env: ObjId)
    requires
        f <= larger,
    ensures
        spent(s_applied_expr(f, st, target, span, env).1) || s_applied_expr(larger, st, target, span, env) == s_applied_expr(f, st, target, span, env),
    decreases f,
{
    if f > 0 {
        more_eval((f - 1) as nat, (larger - 1) as nat, st, target, env);
    }
}

proof fn more_store_var(
    f: nat,
    larger: nat,
    st: St,
    name: Seq<char>,
    v: Value,
    span: Span,
    w: WrittenV,
    env: ObjId,
)
    requires
        f <= larger,
    ensures
        spent(s_store_var(f, st, name, v, span, w, env).1) || s_store_var(larger, st, name, v, span, w, env) == s_store_var(f, st, name, v, span, w, env),
    decreases f,
{
    match holder(st.heap, env, name, st.heap.cells.len()) {
        None => {},
        Some(scope) => {
            match var_of(st.heap, scope, name) {
                None => {},
                Some(var) => {
                    if !(!var.bind.is_mutable()) {
                        match var.ty {
                            None => {},
                            Some(ty) => {
                                if f > 0 {
                                    more_coerced(
                                        (f - 1) as nat,
                                        (larger - 1) as nat,
                                        st,
                                        ty,
                                        v,
                                        "`"@ + name + "`"@,
                                        span,
                                        w,
                                    );
                                }
                            },
                        }
                    }
                },
            }
        },
    }
}

proof fn more_assign_index(
    f: nat,
    larger: nat,
    st: St,
    target: ExprV,
    index: ExprV,
    v: Value,
    value: Span,
    whole: Span,
    env: ObjId,
)
    requires
        f <= larger,
    ensures
        spent(s_assign_index(f, st, target, index, v, value, whole, env).1) || s_assign_index(larger, st, target, index, v, value, whole, env) == s_assign_index(f, st, target, index, v, value, whole, env),
    decreases f,
{
    if f > 0 {
        more_pair((f - 1) as nat, (larger - 1) as nat, rooted(st, v), target, index, env);
        let (st1, r) = s_pair((f - 1) as nat, rooted(st, v), target, index, env);
        let st2 = released(st1, st.temps.len() as int);
        match r {
            Err(e) => {},
            Ok((t, i)) => {
                more_index_put(
                    (f - 1) as nat,
                    (larger - 1) as nat,
                    st2,
                    t,
                    i,
                    v,
                    PutSpans { index: index.span, value, whole },
                );
            },
        }
    }
}

proof fn more_assign_field(
    f: nat,
    larger: nat,
    st: St,
    target: ExprV,
    name: Seq<char>,
    v: Value,
    whole: Span,
    env: ObjId,
)
    requires
        f <= larger,
    ensures
        spent(s_assign_field(f, st, target, name, v, whole, env).1) || s_assign_field(larger, st, target, name, v, whole, env) == s_assign_field(f, st, target, name, v, whole, env),
    decreases f,
{
    if f > 0 {
        more_eval((f - 1) as nat, (larger - 1) as nat, rooted(st, v), target, env);
        let (st1, r) = s_eval((f - 1) as nat, rooted(st, v), target, env);
        let st2 = released(st1, st.temps.len() as int);
    }
}

#[verifier::rlimit(50)]
proof fn more_assign(
    f: nat,
    larger: nat,
    st: St,
    target: ExprV,
    v: Value,
    value: ExprV,
    env: ObjId,
)
    requires
        f <= larger,
    ensures
        spent(s_assign(f, st, target, v, value, env).1) || s_assign(larger, st, target, v, value, env) == s_assign(f, st, target, v, value, env),
    decreases f,
{
    if f > 0 {
        match target.kind {
            ExprKindV::Var(name) => {
                more_store_var(
                    (f - 1) as nat,
                    (larger - 1) as nat,
                    st,
                    name,
                    v,
                    target.span,
                    rebound_by(value),
                    env,
                );
            },
            ExprKindV::Index { target: collection, index } => {
                more_assign_index(
                    (f - 1) as nat,
                    (larger - 1) as nat,
                    st,
                    *collection,
                    *index,
                    v,
                    value.span,
                    target.span,
                    env,
                );
            },
            ExprKindV::Field { target: object, name } => {
                more_assign_field(
                    (f - 1) as nat,
                    (larger - 1) as nat,
                    st,
                    *object,
                    name,
                    v,
                    target.span,
                    env,
                );
            },
            _ => {},
        }
    }
}

proof fn more_assign_expr(f: nat, larger: nat, st: St, target: ExprV, value: ExprV, env: ObjId)
    requires
        f <= larger,
    ensures
        spent(s_assign_expr(f, st, target, value, env).1) || s_assign_expr(larger, st, target, value, env) == s_assign_expr(f, st, target, value, env),
    decreases f,
{
    if f > 0 {
        more_eval((f - 1) as nat, (larger - 1) as nat, st, value, env);
        match s_eval((f - 1) as nat, st, value, env) {
            (st1, Err(e)) => {},
            (st1, Ok(v)) => {
                more_assign((f - 1) as nat, (larger - 1) as nat, st1, target, v, value, env);
            },
        }
    }
}

proof fn more_combined(
    f: nat,
    larger: nat,
    st: St,
    op: BinaryOp,
    before: Value,
    hold: Seq<Value>,
    target: Span,
    value: ExprV,
    span: Span,
    env: ObjId,
)
    requires
        f <= larger,
    ensures
        spent(s_combined(f, st, op, before, hold, target, value, span, env).1) || s_combined(larger, st, op, before, hold, target, value, span, env) == s_combined(f, st, op, before, hold, target, value, span, env),
    decreases f,
{
    if f > 0 {
        more_eval((f - 1) as nat, (larger - 1) as nat, held(rooted(st, before), hold), value, env);
        let (st1, r) = s_eval((f - 1) as nat, held(rooted(st, before), hold), value, env);
        match r {
            Err(e) => {},
            Ok(v) => {
                more_binary(
                    (f - 1) as nat,
                    (larger - 1) as nat,
                    st1,
                    op,
                    before,
                    v,
                    Spans { lhs: target, rhs: value.span, whole: span },
                );
                let (st2, made) = s_binary((f - 1) as nat, st1, op, before, v, Spans { lhs: target, rhs: value.span, whole: span });
            },
        }
    }
}

proof fn more_op_var(
    f: nat,
    larger: nat,
    st: St,
    op: BinaryOp,
    name: Seq<char>,
    target: Span,
    value: ExprV,
    span: Span,
    env: ObjId,
)
    requires
        f <= larger,
    ensures
        spent(s_op_var(f, st, op, name, target, value, span, env).1) || s_op_var(larger, st, op, name, target, value, span, env) == s_op_var(f, st, op, name, target, value, span, env),
    decreases f,
{
    if f > 0 {
        match s_read(st, name, env, target) {
            (st1, Err(e)) => {},
            (st1, Ok(before)) => {
                more_combined(
                    (f - 1) as nat,
                    (larger - 1) as nat,
                    st1,
                    op,
                    before,
                    Seq::empty(),
                    target,
                    value,
                    span,
                    env,
                );
                match s_combined((f - 1) as nat, st1, op, before, Seq::empty(), target, value, span, env) {
                    (st2, Err(e)) => {},
                    (st2, Ok(v)) => {
                        more_store_var(
                            (f - 1) as nat,
                            (larger - 1) as nat,
                            st2,
                            name,
                            v,
                            target,
                            produced_by(span),
                            env,
                        );
                    },
                }
            },
        }
    }
}

#[verifier::spinoff_prover]
proof fn more_op_index(
    f: nat,
    larger: nat,
    st: St,
    op: BinaryOp,
    collection: ExprV,
    index: ExprV,
    target: Span,
    value: ExprV,
    span: Span,
    env: ObjId,
)
    requires
        f <= larger,
    ensures
        spent(s_op_index(f, st, op, collection, index, target, value, span, env).1) || s_op_index(larger, st, op, collection, index, target, value, span, env) == s_op_index(f, st, op, collection, index, target, value, span, env),
    decreases f,
{
    if f > 0 {
        more_pair((f - 1) as nat, (larger - 1) as nat, st, collection, index, env);
        match s_pair((f - 1) as nat, st, collection, index, env) {
            (st1, Err(e)) => {},
            (st1, Ok((t, i))) => {
                more_index_get((f - 1) as nat, (larger - 1) as nat, st1, t, i, target);
                match s_index_get((f - 1) as nat, st1, t, i, target) {
                    (st2, Err(e)) => {},
                    (st2, Ok(before)) => {
                        more_combined(
                            (f - 1) as nat,
                            (larger - 1) as nat,
                            st2,
                            op,
                            before,
                            seq![t, i],
                            target,
                            value,
                            span,
                            env,
                        );
                        match s_combined((f - 1) as nat, st2, op, before, seq![t, i], target, value, span, env) {
                            (st3, Err(e)) => {},
                            (st3, Ok(v)) => {
                                more_index_put(
                                    (f - 1) as nat,
                                    (larger - 1) as nat,
                                    st3,
                                    t,
                                    i,
                                    v,
                                    PutSpans { index: index.span, value: span, whole: target },
                                );
                            },
                        }
                    },
                }
            },
        }
    }
}

proof fn more_op_field(
    f: nat,
    larger: nat,
    st: St,
    op: BinaryOp,
    object: ExprV,
    name: Seq<char>,
    target: Span,
    value: ExprV,
    span: Span,
    env: ObjId,
)
    requires
        f <= larger,
    ensures
        spent(s_op_field(f, st, op, object, name, target, value, span, env).1) || s_op_field(larger, st, op, object, name, target, value, span, env) == s_op_field(f, st, op, object, name, target, value, span, env),
    decreases f,
{
    if f > 0 {
        more_eval((f - 1) as nat, (larger - 1) as nat, st, object, env);
        match s_eval((f - 1) as nat, st, object, env) {
            (st1, Err(e)) => {},
            (st1, Ok(o)) => {
                match s_attr(st1, o, name, dot_spans(object.span, target)) {
                    Err(e) => {},
                    Ok(attr) => {
                        more_combined(
                            (f - 1) as nat,
                            (larger - 1) as nat,
                            st1,
                            op,
                            attr.found(),
                            seq![o],
                            target,
                            value,
                            span,
                            env,
                        );
                    },
                }
            },
        }
    }
}

proof fn more_assign_op_expr(
    f: nat,
    larger: nat,
    st: St,
    op: BinaryOp,
    target: ExprV,
    value: ExprV,
    span: Span,
    env: ObjId,
)
    requires
        f <= larger,
    ensures
        spent(s_assign_op_expr(f, st, op, target, value, span, env).1) || s_assign_op_expr(larger, st, op, target, value, span, env) == s_assign_op_expr(f, st, op, target, value, span, env),
    decreases f,
{
    if f > 0 {
        match target.kind {
            ExprKindV::Var(name) => {
                more_op_var((f - 1) as nat, (larger - 1) as nat, st, op, name, target.span, value, span, env);
            },
            ExprKindV::Index { target: collection, index } => {
                more_op_index(
                    (f - 1) as nat,
                    (larger - 1) as nat,
                    st,
                    op,
                    *collection,
                    *index,
                    target.span,
                    value,
                    span,
                    env,
                );
            },
            ExprKindV::Field { target: object, name } => {
                more_op_field(
                    (f - 1) as nat,
                    (larger - 1) as nat,
                    st,
                    op,
                    *object,
                    name,
                    target.span,
                    value,
                    span,
                    env,
                );
            },
            _ => {},
        }
    }
}

#[verifier::rlimit(50)]
proof fn more_eval(f: nat, larger: nat, st: St, e: ExprV, env: ObjId)
    requires
        f <= larger,
    ensures
        spent(s_eval(f, st, e, env).1) || s_eval(larger, st, e, env) == s_eval(f, st, e, env),
    decreases f,
{
    if !(is_simple(e)) && f > 0 {
        let g = (f - 1) as nat;
        match e.kind {
            ExprKindV::List(items) => {
                more_list_literal(g, (larger - 1) as nat, st, items, env);
            },
            ExprKindV::Dict(pairs) => {
                more_dict_literal(g, (larger - 1) as nat, st, pairs, e.span, env);
            },
            ExprKindV::Unary { op, rhs } => {
                more_unary_expr(g, (larger - 1) as nat, st, op, *rhs, e.span, env);
            },
            ExprKindV::Binary { op, lhs, rhs } => {
                more_binary_expr(g, (larger - 1) as nat, st, op, *lhs, *rhs, e.span, env);
            },
            ExprKindV::Logical { op, lhs, rhs } => {
                more_logical_expr(g, (larger - 1) as nat, st, op, *lhs, *rhs, env);
            },
            ExprKindV::Call { callee, args } => {
                more_call_expr(g, (larger - 1) as nat, st, *callee, args, e.span, env);
            },
            ExprKindV::Index { target, index } => {
                more_index_expr(g, (larger - 1) as nat, st, *target, *index, e.span, env);
            },
            ExprKindV::TypeArgs { target, args } => {
                more_applied_expr(g, (larger - 1) as nat, st, *target, e.span, env);
            },
            ExprKindV::Slice { target, start, end } => {
                more_slice_expr(g, (larger - 1) as nat, st, *target, start, end, e.span, env);
            },
            ExprKindV::Field { target, name } => {
                more_field_expr(g, (larger - 1) as nat, st, *target, name, e.span, env);
            },
            ExprKindV::Assign { target, value } => {
                more_assign_expr(g, (larger - 1) as nat, st, *target, *value, env);
            },
            ExprKindV::AssignOp { op, target, value } => {
                more_assign_op_expr(g, (larger - 1) as nat, st, op, *target, *value, e.span, env);
            },
            ExprKindV::Is { value, ty } => {
                more_is_expr(g, (larger - 1) as nat, st, *value, ty, env);
            },
            _ => {},
        }
    }
}

proof fn more_stmts(f: nat, larger: nat, st: St, stmts: Seq<StmtV>, env: ObjId, i: int)
    requires
        f <= larger,
    ensures
        spent(s_stmts(f, st, stmts, env, i).1) || s_stmts(larger, st, stmts, env, i) == s_stmts(f, st, stmts, env, i),
    decreases f,
{
    if !(i < 0 || i >= stmts.len()) && f > 0 {
        more_exec((f - 1) as nat, (larger - 1) as nat, st, stmts[i], env);
        match s_exec((f - 1) as nat, st, stmts[i], env) {
            (st1, Ok(Flow::Normal)) => {
                more_stmts((f - 1) as nat, (larger - 1) as nat, st1, stmts, env, i + 1);
            },
            (st1, r) => {},
        }
    }
}

proof fn more_scoped(f: nat, larger: nat, st: St, stmts: Seq<StmtV>, scope: ObjId, span: Span)
    requires
        f <= larger,
    ensures
        spent(s_scoped(f, st, stmts, scope, span).1) || s_scoped(larger, st, stmts, scope, span) == s_scoped(f, st, stmts, scope, span),
    decreases f,
{
    if f > 0 {
        more_stmts(
            (f - 1) as nat,
            (larger - 1) as nat,
            St { scopes: st.scopes.push(scope), ..st },
            stmts,
            scope,
            0,
        );
        let (st1, r) = s_stmts((f - 1) as nat, St { scopes: st.scopes.push(scope), ..st }, stmts, scope, 0);
    }
}

proof fn more_block(f: nat, larger: nat, st: St, block: BlockV, env: ObjId)
    requires
        f <= larger,
    ensures
        spent(s_block(f, st, block, env).1) || s_block(larger, st, block, env) == s_block(f, st, block, env),
    decreases f,
{
    if f > 0 {
        more_scoped(
            (f - 1) as nat,
            (larger - 1) as nat,
            with_new(st, block_scope(Seq::empty(), block.stmts, env)),
            block.stmts,
            st.heap.next_id(),
            block.span,
        );
    }
}

proof fn more_block_with(
    f: nat,
    larger: nat,
    st: St,
    name: Seq<char>,
    v: Value,
    block: BlockV,
    env: ObjId,
)
    requires
        f <= larger,
    ensures
        spent(s_block_with(f, st, name, v, block, env).1) || s_block_with(larger, st, name, v, block, env) == s_block_with(f, st, name, v, block, env),
    decreases f,
{
    if f > 0 {
        let scope = st.heap.next_id();
        let st1 = with_new(st, block_scope(seq![name], block.stmts, env));
        more_scoped(
            (f - 1) as nat,
            (larger - 1) as nat,
            with_heap(st1, declared(st1.heap, scope, name, v, Bind::Let, None)),
            block.stmts,
            scope,
            block.span,
        );
    }
}

proof fn more_while(f: nat, larger: nat, st: St, cond: ExprV, body: BlockV, env: ObjId)
    requires
        f <= larger,
    ensures
        spent(s_while(f, st, cond, body, env).1) || s_while(larger, st, cond, body, env) == s_while(f, st, cond, body, env),
    decreases f,
{
    if f > 0 {
        more_eval((f - 1) as nat, (larger - 1) as nat, st, cond, env);
        match s_eval((f - 1) as nat, st, cond, env) {
            (st1, Err(e)) => {},
            (st1, Ok(v)) => {
                more_is_truthy((f - 1) as nat, (larger - 1) as nat, st1, v);
                match s_is_truthy((f - 1) as nat, st1, v) {
                    (st2, Err(e)) => {},
                    (st2, Ok(false)) => {},
                    (st2, Ok(true)) => {
                        more_block((f - 1) as nat, (larger - 1) as nat, st2, body, env);
                        match s_block((f - 1) as nat, st2, body, env) {
                            (st3, Ok(Flow::Normal)) => {
                                more_while((f - 1) as nat, (larger - 1) as nat, st3, cond, body, env);
                            },
                            (st3, r) => {},
                        }
                    },
                }
            },
        }
    }
}

proof fn more_iterate(
    f: nat,
    larger: nat,
    st: St,
    name: Seq<char>,
    items: Seq<Value>,
    body: BlockV,
    env: ObjId,
    i: int,
)
    requires
        f <= larger,
    ensures
        spent(s_iterate(f, st, name, items, body, env, i).1) || s_iterate(larger, st, name, items, body, env, i) == s_iterate(f, st, name, items, body, env, i),
    decreases f,
{
    if !(i < 0 || i >= items.len()) && f > 0 {
        more_block_with((f - 1) as nat, (larger - 1) as nat, st, name, items[i], body, env);
        match s_block_with((f - 1) as nat, st, name, items[i], body, env) {
            (st1, Ok(Flow::Normal)) => {
                more_iterate((f - 1) as nat, (larger - 1) as nat, st1, name, items, body, env, i + 1);
            },
            (st1, r) => {},
        }
    }
}

proof fn more_items(f: nat, larger: nat, st: St, v: Value, span: Span)
    requires
        f <= larger,
    ensures
        spent(s_items(f, st, v, span).1) || s_items(larger, st, v, span) == s_items(f, st, v, span),
    decreases f,
{
    if f > 0 {
        match slot_of(st.heap, v, Op::Iter) {
            Some(method) => {
                more_call_op((f - 1) as nat, (larger - 1) as nat, st, method, v, Seq::empty());
            },
            None => {},
        }
    }
}

proof fn more_for(
    f: nat,
    larger: nat,
    st: St,
    name: Seq<char>,
    iter: ExprV,
    body: BlockV,
    env: ObjId,
)
    requires
        f <= larger,
    ensures
        spent(s_for(f, st, name, iter, body, env).1) || s_for(larger, st, name, iter, body, env) == s_for(f, st, name, iter, body, env),
    decreases f,
{
    if f > 0 {
        more_eval((f - 1) as nat, (larger - 1) as nat, st, iter, env);
        match s_eval((f - 1) as nat, st, iter, env) {
            (st1, Err(e)) => {},
            (st1, Ok(v)) => {
                more_items((f - 1) as nat, (larger - 1) as nat, st1, v, iter.span);
                match s_items((f - 1) as nat, st1, v, iter.span) {
                    (st2, Err(e)) => {},
                    (st2, Ok(items)) => {
                        more_iterate(
                            (f - 1) as nat,
                            (larger - 1) as nat,
                            held(st2, items),
                            name,
                            items,
                            body,
                            env,
                            0,
                        );
                        let (st3, r) = s_iterate((f - 1) as nat, held(st2, items), name, items, body, env, 0);
                    },
                }
            },
        }
    }
}

proof fn more_let(
    f: nat,
    larger: nat,
    st: St,
    name: Seq<char>,
    name_span: Span,
    ty: Option<TypeExprV>,
    value: Option<ExprV>,
    bind: Bind,
    env: ObjId,
)
    requires
        f <= larger,
    ensures
        spent(s_let(f, st, name, name_span, ty, value, bind, env).1) || s_let(larger, st, name, name_span, ty, value, bind, env) == s_let(f, st, name, name_span, ty, value, bind, env),
    decreases f,
{
    if f > 0 {
        more_initial((f - 1) as nat, (larger - 1) as nat, st, name, name_span, ty, value, env);
    }
}

proof fn more_if(
    f: nat,
    larger: nat,
    st: St,
    cond: ExprV,
    consequent: BlockV,
    otherwise: Option<Box<StmtV>>,
    env: ObjId,
)
    requires
        f <= larger,
    ensures
        spent(s_if(f, st, cond, consequent, otherwise, env).1) || s_if(larger, st, cond, consequent, otherwise, env) == s_if(f, st, cond, consequent, otherwise, env),
    decreases f,
{
    if f > 0 {
        more_eval((f - 1) as nat, (larger - 1) as nat, st, cond, env);
        match s_eval((f - 1) as nat, st, cond, env) {
            (st1, Err(e)) => {},
            (st1, Ok(v)) => {
                more_is_truthy((f - 1) as nat, (larger - 1) as nat, st1, v);
                match s_is_truthy((f - 1) as nat, st1, v) {
                    (st2, Err(e)) => {},
                    (st2, Ok(true)) => {
                        more_block((f - 1) as nat, (larger - 1) as nat, st2, consequent, env);
                    },
                    (st2, Ok(false)) => {
                        match otherwise {
                            Some(s) => {
                                more_exec((f - 1) as nat, (larger - 1) as nat, st2, *s, env);
                            },
                            None => {},
                        }
                    },
                }
            },
        }
    }
}

proof fn more_try(
    f: nat,
    larger: nat,
    st: St,
    body: BlockV,
    binding: Seq<char>,
    handler: BlockV,
    env: ObjId,
)
    requires
        f <= larger,
    ensures
        spent(s_try(f, st, body, binding, handler, env).1) || s_try(larger, st, body, binding, handler, env) == s_try(f, st, body, binding, handler, env),
    decreases f,
{
    if f > 0 {
        more_block((f - 1) as nat, (larger - 1) as nat, st, body, env);
        match s_block((f - 1) as nat, st, body, env) {
            (st1, Ok(flow)) => {},
            (st1, Err(e)) => {
                if !(e.kind == ErrorKind::Budget) {
                    let (st2, caught) = s_reify(st1, e);
                    more_block_with((f - 1) as nat, (larger - 1) as nat, st2, binding, caught, handler, env);
                }
            },
        }
    }
}

proof fn more_throw_stmt(f: nat, larger: nat, st: St, value: ExprV, span: Span, env: ObjId)
    requires
        f <= larger,
    ensures
        spent(s_throw_stmt(f, st, value, span, env).1) || s_throw_stmt(larger, st, value, span, env) == s_throw_stmt(f, st, value, span, env),
    decreases f,
{
    if f > 0 {
        more_eval((f - 1) as nat, (larger - 1) as nat, st, value, env);
    }
}

proof fn more_return(f: nat, larger: nat, st: St, value: Option<ExprV>, span: Span, env: ObjId)
    requires
        f <= larger,
    ensures
        spent(s_return(f, st, value, span, env).1) || s_return(larger, st, value, span, env) == s_return(f, st, value, span, env),
    decreases f,
{
    if f > 0 {
        match value {
            None => {},
            Some(e) => {
                more_eval((f - 1) as nat, (larger - 1) as nat, st, e, env);
            },
        }
    }
}

proof fn more_expr_stmt(f: nat, larger: nat, st: St, e: ExprV, env: ObjId)
    requires
        f <= larger,
    ensures
        spent(s_expr_stmt(f, st, e, env).1) || s_expr_stmt(larger, st, e, env) == s_expr_stmt(f, st, e, env),
    decreases f,
{
    if f > 0 {
        more_eval((f - 1) as nat, (larger - 1) as nat, st, e, env);
    }
}

proof fn more_declaration(f: nat, larger: nat, st: St, kind: StmtKindV, span: Span, env: ObjId)
    requires
        f <= larger,
    ensures
        spent(s_declaration(f, st, kind, span, env).1) || s_declaration(larger, st, kind, span, env) == s_declaration(f, st, kind, span, env),
    decreases f,
{
    if f > 0 {
        match kind {
            StmtKindV::Let { name, name_span, ty, value, bind, visibility } => {
                more_let((f - 1) as nat, (larger - 1) as nat, st, name, name_span, ty, value, bind, env);
            },
            StmtKindV::Fn(decl) => {},
            StmtKindV::Class(decl) => {},
            StmtKindV::Extend { target, target_span, methods } => {},
            StmtKindV::Import { module, module_span, names } => {
                more_import((f - 1) as nat, (larger - 1) as nat, st, module, module_span, names, env);
            },
            _ => {},
        }
    }
}

proof fn more_statement(f: nat, larger: nat, st: St, s: StmtV, env: ObjId)
    requires
        f <= larger,
    ensures
        spent(s_statement(f, st, s, env).1) || s_statement(larger, st, s, env) == s_statement(f, st, s, env),
    decreases f,
{
    if f > 0 {
        if is_declaration(s.kind) {
            more_declaration((f - 1) as nat, (larger - 1) as nat, st, s.kind, s.span, env);
        } else {
            match s.kind {
                StmtKindV::Expr(e) => {
                    more_expr_stmt((f - 1) as nat, (larger - 1) as nat, st, e, env);
                },
                StmtKindV::If { cond, consequent, otherwise } => {
                    more_if((f - 1) as nat, (larger - 1) as nat, st, cond, consequent, otherwise, env);
                },
                StmtKindV::While { cond, body } => {
                    more_while((f - 1) as nat, (larger - 1) as nat, st, cond, body, env);
                },
                StmtKindV::For { var, iter, body } => {
                    more_for((f - 1) as nat, (larger - 1) as nat, st, var, iter, body, env);
                },
                StmtKindV::Return(value) => {
                    more_return((f - 1) as nat, (larger - 1) as nat, st, value, s.span, env);
                },
                StmtKindV::Try { body, binding, handler } => {
                    more_try((f - 1) as nat, (larger - 1) as nat, st, body, binding, handler, env);
                },
                StmtKindV::Throw(value) => {
                    more_throw_stmt((f - 1) as nat, (larger - 1) as nat, st, value, s.span, env);
                },
                StmtKindV::Block(block) => {
                    more_block((f - 1) as nat, (larger - 1) as nat, st, block, env);
                },
                _ => {},
            }
        }
    }
}

proof fn more_exec(f: nat, larger: nat, st: St, s: StmtV, env: ObjId)
    requires
        f <= larger,
    ensures
        spent(s_exec(f, st, s, env).1) || s_exec(larger, st, s, env) == s_exec(f, st, s, env),
    decreases f,
{
    if f > 0 {
        more_statement((f - 1) as nat, (larger - 1) as nat, s_collect(st), s, env);
    }
}

proof fn more_program(f: nat, larger: nat, st: St, program: Seq<StmtV>, env: ObjId, i: int)
    requires
        f <= larger,
    ensures
        spent(s_program(f, st, program, env, i).1) || s_program(larger, st, program, env, i) == s_program(f, st, program, env, i),
    decreases f,
{
    if !(i < 0 || i >= program.len()) && f > 0 {
        more_exec((f - 1) as nat, (larger - 1) as nat, st, program[i], env);
        match s_exec((f - 1) as nat, st, program[i], env) {
            (st1, Ok(_)) => {
                more_program((f - 1) as nat, (larger - 1) as nat, st1, program, env, i + 1);
            },
            (st1, Err(e)) => {},
        }
    }
}

proof fn more_run_module(
    f: nat,
    larger: nat,
    st: St,
    name: Seq<char>,
    path: Seq<char>,
    text: Seq<char>,
)
    requires
        f <= larger,
    ensures
        spent(s_run_module(f, st, name, path, text).1) || s_run_module(larger, st, name, path, text) == s_run_module(f, st, name, path, text),
    decreases f,
{
    match compiled(text) {
        Err(e) => {},
        Ok(program) => {
            if f > 0 {
                let scope = st.heap.next_id();
                more_program(
                    (f - 1) as nat,
                    (larger - 1) as nat,
                    loading(st, name, path, program),
                    program,
                    scope,
                    0,
                );
                let (st1, r) = s_program((f - 1) as nat, loading(st, name, path, program), program, scope, 0);
                let st2 = St { loading: popped(st1.loading), ..st1 };
            }
        },
    }
}

proof fn more_load_module(f: nat, larger: nat, st: St, name: Seq<char>, span: Span, env: ObjId)
    requires
        f <= larger,
    ensures
        spent(s_load_module(f, st, name, span, env).1) || s_load_module(larger, st, name, span, env) == s_load_module(f, st, name, span, env),
    decreases f,
{
    if !(is_shipped(name)) {
        match s_resolve_import(st, name, env, span) {
            Err(e) => {},
            Ok(i) => {
                match loaded_place(st.loaded, st.files[i].path, 0) {
                    Some(at) => {},
                    None => {
                        if f > 0 {
                            more_run_module(
                                (f - 1) as nat,
                                (larger - 1) as nat,
                                st,
                                name,
                                st.files[i].path,
                                st.files[i].text,
                            );
                        }
                    },
                }
            },
        }
    }
}

proof fn more_import(
    f: nat,
    larger: nat,
    st: St,
    module: Seq<char>,
    span: Span,
    names: Option<Seq<ImportNameV>>,
    env: ObjId,
)
    requires
        f <= larger,
    ensures
        spent(s_import(f, st, module, span, names, env).1) || s_import(larger, st, module, span, names, env) == s_import(f, st, module, span, names, env),
    decreases f,
{
    if f > 0 {
        more_load_module((f - 1) as nat, (larger - 1) as nat, st, module, span, env);
    }
}

proof fn more_call_op(
    f: nat,
    larger: nat,
    st: St,
    method: Value,
    receiver: Value,
    args: Seq<Value>,
)
    requires
        f <= larger,
    ensures
        spent(s_call_op(f, st, method, receiver, args).1) || s_call_op(larger, st, method, receiver, args) == s_call_op(f, st, method, receiver, args),
    decreases f,
{
    if f > 0 {
        more_call_method(
            (f - 1) as nat,
            (larger - 1) as nat,
            held(rooted(st, receiver), args),
            receiver,
            method,
            args,
            op_body(st.heap, method),
        );
        let (st1, r) = s_call_method((f - 1) as nat, held(rooted(st, receiver), args), receiver, method, args, op_body(st.heap, method));
    }
}

proof fn more_bool_op(
    f: nat,
    larger: nat,
    st: St,
    op: Op,
    method: Value,
    receiver: Value,
    args: Seq<Value>,
)
    requires
        f <= larger,
    ensures
        spent(s_bool_op(f, st, op, method, receiver, args).1) || s_bool_op(larger, st, op, method, receiver, args) == s_bool_op(f, st, op, method, receiver, args),
    decreases f,
{
    if f > 0 {
        more_call_op((f - 1) as nat, (larger - 1) as nat, st, method, receiver, args);
    }
}

proof fn more_is_truthy(f: nat, larger: nat, st: St, v: Value)
    requires
        f <= larger,
    ensures
        spent(s_is_truthy(f, st, v).1) || s_is_truthy(larger, st, v) == s_is_truthy(f, st, v),
    decreases f,
{
    match slot_of(st.heap, v, Op::Bool) {
        None => {},
        Some(method) => {
            if f > 0 {
                more_bool_op((f - 1) as nat, (larger - 1) as nat, st, Op::Bool, method, v, Seq::empty());
            }
        },
    }
}

proof fn more_equals(f: nat, larger: nat, st: St, lhs: Value, rhs: Value)
    requires
        f <= larger,
    ensures
        spent(s_equals(f, st, lhs, rhs).1) || s_equals(larger, st, lhs, rhs) == s_equals(f, st, lhs, rhs),
    decreases f,
{
    if f > 0 {
        match asked(st.heap, Op::Eq, lhs, rhs) {
            Some(found) => {
                more_bool_op(
                    (f - 1) as nat,
                    (larger - 1) as nat,
                    st,
                    Op::Eq,
                    found.method,
                    found.receiver,
                    seq![found.other],
                );
            },
            None => {
                more_base_equals(
                    (f - 1) as nat,
                    (larger - 1) as nat,
                    st,
                    base(st.heap, lhs),
                    base(st.heap, rhs),
                );
            },
        }
    }
}

proof fn more_base_equals(f: nat, larger: nat, st: St, a: Value, b: Value)
    requires
        f <= larger,
    ensures
        spent(s_base_equals(f, st, a, b).1) || s_base_equals(larger, st, a, b) == s_base_equals(f, st, a, b),
    decreases f,
{
    if f > 0 {
        match (a, b) {
            (Value::List(x), Value::List(y)) => {
                if !(x == y) && !(st.heap.list(x).len() != st.heap.list(y).len()) {
                    more_items_equal((f - 1) as nat, (larger - 1) as nat, st, a, b, 0);
                }
            },
            (Value::Tuple(x), Value::Tuple(y)) => {
                if !(x == y) && !(st.heap.tuple(x).len() != st.heap.tuple(y).len()) {
                    more_items_equal((f - 1) as nat, (larger - 1) as nat, st, a, b, 0);
                }
            },
            (Value::Dict(x), Value::Dict(y)) => {
                if !(x == y) && !(st.heap.dict(x).len() != st.heap.dict(y).len()) {
                    more_entries_equal(
                        (f - 1) as nat,
                        (larger - 1) as nat,
                        st,
                        x,
                        y,
                        keys_of(st.heap.dict(x)),
                        0,
                    );
                }
            },
            _ => {},
        }
    }
}

proof fn more_items_equal(f: nat, larger: nat, st: St, a: Value, b: Value, i: int)
    requires
        f <= larger,
    ensures
        spent(s_items_equal(f, st, a, b, i).1) || s_items_equal(larger, st, a, b, i) == s_items_equal(f, st, a, b, i),
    decreases f,
{
    match (at_index(items_of(st.heap, a), i), at_index(items_of(st.heap, b), i)) {
        (Some(x), Some(y)) => {
            if f > 0 {
                more_equals((f - 1) as nat, (larger - 1) as nat, st, x, y);
                match s_equals((f - 1) as nat, st, x, y) {
                    (st1, Ok(true)) => {
                        more_items_equal((f - 1) as nat, (larger - 1) as nat, st1, a, b, i + 1);
                    },
                    (st1, r) => {},
                }
            }
        },
        _ => {},
    }
}

proof fn more_entries_equal(f: nat, larger: nat, st: St, a: ObjId, b: ObjId, keys: Seq<Value>, i: int)
    requires
        f <= larger,
    ensures
        spent(s_entries_equal(f, st, a, b, keys, i).1) || s_entries_equal(larger, st, a, b, keys, i) == s_entries_equal(f, st, a, b, keys, i),
    decreases f,
{
    match at_index(keys, i) {
        None => {},
        Some(key) => {
            match (dict_get(st.heap, st.heap.dict(a), key), dict_get(st.heap, st.heap.dict(b), key)) {
                (Some(x), Some(y)) => {
                    if f > 0 {
                        more_equals((f - 1) as nat, (larger - 1) as nat, st, x, y);
                        match s_equals((f - 1) as nat, st, x, y) {
                            (st1, Ok(true)) => {
                                more_entries_equal(
                                    (f - 1) as nat,
                                    (larger - 1) as nat,
                                    st1,
                                    a,
                                    b,
                                    keys,
                                    i + 1,
                                );
                            },
                            (st1, r) => {},
                        }
                    }
                },
                _ => {},
            }
        },
    }
}

proof fn more_unary(f: nat, larger: nat, st: St, op: UnaryOp, v: Value, span: Span)
    requires
        f <= larger,
    ensures
        spent(s_unary(f, st, op, v, span).1) || s_unary(larger, st, op, v, span) == s_unary(f, st, op, v, span),
    decreases f,
{
    if f > 0 {
        if op == UnaryOp::Not {
            more_is_truthy((f - 1) as nat, (larger - 1) as nat, st, v);
        } else {
            match slot_of(st.heap, v, unary_slot(op)) {
                Some(method) => {
                    more_call_op((f - 1) as nat, (larger - 1) as nat, st, method, v, Seq::empty());
                },
                None => {},
            }
        }
    }
}

proof fn more_asked_compare(
    f: nat,
    larger: nat,
    st: St,
    op: BinaryOp,
    slot: Op,
    found: Asked,
    lhs: Value,
    rhs: Value,
    spans: Spans,
)
    requires
        f <= larger,
    ensures
        spent(s_asked_compare(f, st, op, slot, found, lhs, rhs, spans).1) || s_asked_compare(larger, st, op, slot, found, lhs, rhs, spans) == s_asked_compare(f, st, op, slot, found, lhs, rhs, spans),
    decreases f,
{
    if f > 0 {
        match binary_op_for(st.heap, op, slot, found, lhs, rhs, spans) {
            Err(e) => {},
            Ok(method) => {
                more_bool_op(
                    (f - 1) as nat,
                    (larger - 1) as nat,
                    st,
                    slot,
                    method,
                    found.receiver,
                    seq![found.other],
                );
            },
        }
    }
}

proof fn more_asked_order(
    f: nat,
    larger: nat,
    st: St,
    op: BinaryOp,
    found: Asked,
    lhs: Value,
    rhs: Value,
    spans: Spans,
)
    requires
        f <= larger,
    ensures
        spent(s_asked_order(f, st, op, found, lhs, rhs, spans).1) || s_asked_order(larger, st, op, found, lhs, rhs, spans) == s_asked_order(f, st, op, found, lhs, rhs, spans),
    decreases f,
{
    if f > 0 {
        match binary_op_for(st.heap, op, Op::Cmp, found, lhs, rhs, spans) {
            Err(e) => {},
            Ok(method) => {
                more_call_op(
                    (f - 1) as nat,
                    (larger - 1) as nat,
                    st,
                    method,
                    found.receiver,
                    seq![found.other],
                );
            },
        }
    }
}

proof fn more_compare(
    f: nat,
    larger: nat,
    st: St,
    op: BinaryOp,
    lhs: Value,
    rhs: Value,
    spans: Spans,
)
    requires
        f <= larger,
    ensures
        spent(s_compare(f, st, op, lhs, rhs, spans).1) || s_compare(larger, st, op, lhs, rhs, spans) == s_compare(f, st, op, lhs, rhs, spans),
    decreases f,
{
    if f > 0 && !(!is_ordering(op)) {
        if specific_for(op) is Some && asked(st.heap, specific_for(op)->0, lhs, rhs) is Some {
            more_asked_compare(
                (f - 1) as nat,
                (larger - 1) as nat,
                st,
                op,
                specific_for(op)->0,
                asked(st.heap, specific_for(op)->0, lhs, rhs)->0,
                lhs,
                rhs,
                spans,
            );
        } else {
            match asked(st.heap, Op::Cmp, lhs, rhs) {
                Some(found) => {
                    more_asked_order((f - 1) as nat, (larger - 1) as nat, st, op, found, lhs, rhs, spans);
                },
                None => {},
            }
        }
    }
}

proof fn more_arith(
    f: nat,
    larger: nat,
    st: St,
    op: BinaryOp,
    lhs: Value,
    rhs: Value,
    spans: Spans,
)
    requires
        f <= larger,
    ensures
        spent(s_arith(f, st, op, lhs, rhs, spans).1) || s_arith(larger, st, op, lhs, rhs, spans) == s_arith(f, st, op, lhs, rhs, spans),
    decreases f,
{
    if f > 0 {
        match slot_for(op) {
            None => {},
            Some(slot) => {
                match asked(st.heap, slot, lhs, rhs) {
                    None => {},
                    Some(found) => {
                        match binary_op_for(st.heap, op, slot, found, lhs, rhs, spans) {
                            Err(e) => {},
                            Ok(method) => {
                                more_call_op(
                                    (f - 1) as nat,
                                    (larger - 1) as nat,
                                    st,
                                    method,
                                    found.receiver,
                                    seq![found.other],
                                );
                            },
                        }
                    },
                }
            },
        }
    }
}

proof fn more_computed(
    f: nat,
    larger: nat,
    st: St,
    op: BinaryOp,
    lhs: Value,
    rhs: Value,
    spans: Spans,
)
    requires
        f <= larger,
    ensures
        spent(s_computed(f, st, op, lhs, rhs, spans).1) || s_computed(larger, st, op, lhs, rhs, spans) == s_computed(f, st, op, lhs, rhs, spans),
    decreases f,
{
    if f > 0 {
        more_compare((f - 1) as nat, (larger - 1) as nat, st, op, lhs, rhs, spans);
        match s_compare((f - 1) as nat, st, op, lhs, rhs, spans) {
            (st1, Err(e)) => {},
            (st1, Ok(Some(v))) => {},
            (st1, Ok(None)) => {
                more_arith((f - 1) as nat, (larger - 1) as nat, st1, op, lhs, rhs, spans);
            },
        }
    }
}

proof fn more_binary(
    f: nat,
    larger: nat,
    st: St,
    op: BinaryOp,
    lhs: Value,
    rhs: Value,
    spans: Spans,
)
    requires
        f <= larger,
    ensures
        spent(s_binary(f, st, op, lhs, rhs, spans).1) || s_binary(larger, st, op, lhs, rhs, spans) == s_binary(f, st, op, lhs, rhs, spans),
    decreases f,
{
    if f > 0 {
        if op == BinaryOp::Eq || op == BinaryOp::Ne {
            more_equals((f - 1) as nat, (larger - 1) as nat, st, lhs, rhs);
        } else {
            if op == BinaryOp::In {
                more_contains((f - 1) as nat, (larger - 1) as nat, st, rhs, lhs, spans.whole);
            } else {
                more_computed((f - 1) as nat, (larger - 1) as nat, st, op, lhs, rhs, spans);
            }
        }
    }
}

proof fn more_search(f: nat, larger: nat, st: St, base: Value, needle: Value, i: int)
    requires
        f <= larger,
    ensures
        spent(s_search(f, st, base, needle, i).1) || s_search(larger, st, base, needle, i) == s_search(f, st, base, needle, i),
    decreases f,
{
    match at_index(items_of(st.heap, base), i) {
        None => {},
        Some(item) => {
            if f > 0 {
                more_equals((f - 1) as nat, (larger - 1) as nat, st, item, needle);
                match s_equals((f - 1) as nat, st, item, needle) {
                    (st1, Ok(false)) => {
                        more_search((f - 1) as nat, (larger - 1) as nat, st1, base, needle, i + 1);
                    },
                    (st1, r) => {},
                }
            }
        },
    }
}

proof fn more_base_contains(f: nat, larger: nat, st: St, haystack: Value, needle: Value, span: Span)
    requires
        f <= larger,
    ensures
        spent(s_base_contains(f, st, haystack, needle, span).1) || s_base_contains(larger, st, haystack, needle, span) == s_base_contains(f, st, haystack, needle, span),
    decreases f,
{
    let held = base(st.heap, haystack);
    if f > 0 {
        if held is List || held is Tuple {
            more_search((f - 1) as nat, (larger - 1) as nat, st, held, needle, 0);
        }
    }
}

proof fn more_contains(f: nat, larger: nat, st: St, haystack: Value, needle: Value, span: Span)
    requires
        f <= larger,
    ensures
        spent(s_contains(f, st, haystack, needle, span).1) || s_contains(larger, st, haystack, needle, span) == s_contains(f, st, haystack, needle, span),
    decreases f,
{
    if f > 0 {
        match slot_of(st.heap, haystack, Op::Contains) {
            Some(method) => {
                match op_for(st.heap, Op::Contains, method, haystack, seq![needle], span) {
                    Ok(chosen) => {
                        more_bool_op(
                            (f - 1) as nat,
                            (larger - 1) as nat,
                            st,
                            Op::Contains,
                            chosen,
                            haystack,
                            seq![needle],
                        );
                    },
                    Err(e) => {},
                }
            },
            None => {
                more_base_contains((f - 1) as nat, (larger - 1) as nat, st, haystack, needle, span);
            },
        }
        let (st1, r) = match slot_of(st.heap, haystack, Op::Contains) { Some(method) => match op_for(st.heap, Op::Contains, method, haystack, seq![needle], span) { Ok(chosen) => s_bool_op((f - 1) as nat, st, Op::Contains, chosen, haystack, seq![needle]), Err(e) => (st, Err(e)) }, None => s_base_contains((f - 1) as nat, st, haystack, needle, span) };
    }
}

proof fn more_index_get(f: nat, larger: nat, st: St, target: Value, index: Value, span: Span)
    requires
        f <= larger,
    ensures
        spent(s_index_get(f, st, target, index, span).1) || s_index_get(larger, st, target, index, span) == s_index_get(f, st, target, index, span),
    decreases f,
{
    if f > 0 {
        match slot_of(st.heap, target, Op::Get) {
            Some(method) => {
                match op_for(st.heap, Op::Get, method, target, seq![index], span) {
                    Ok(chosen) => {
                        more_call_op((f - 1) as nat, (larger - 1) as nat, st, chosen, target, seq![index]);
                    },
                    Err(e) => {},
                }
            },
            None => {},
        }
    }
}

proof fn more_index_put(
    f: nat,
    larger: nat,
    st: St,
    target: Value,
    index: Value,
    v: Value,
    at: PutSpans,
)
    requires
        f <= larger,
    ensures
        spent(s_index_put(f, st, target, index, v, at).1) || s_index_put(larger, st, target, index, v, at) == s_index_put(f, st, target, index, v, at),
    decreases f,
{
    if f > 0 {
        match slot_of(st.heap, target, Op::Put) {
            Some(method) => {
                if !(is_frozen(st.heap, target)) {
                    match op_for(st.heap, Op::Put, method, target, seq![index, v], at.whole) {
                        Err(e) => {},
                        Ok(chosen) => {
                            more_call_op(
                                (f - 1) as nat,
                                (larger - 1) as nat,
                                st,
                                chosen,
                                target,
                                seq![index, v],
                            );
                        },
                    }
                }
            },
            None => {},
        }
    }
}

proof fn more_string_op(f: nat, larger: nat, st: St, method: Value, v: Value)
    requires
        f <= larger,
    ensures
        spent(s_string_op(f, st, method, v).1) || s_string_op(larger, st, method, v) == s_string_op(f, st, method, v),
    decreases f,
{
    if f > 0 {
        more_call_op((f - 1) as nat, (larger - 1) as nat, st, method, v, Seq::empty());
    }
}

proof fn more_item_texts(
    f: nat,
    larger: nat,
    st: St,
    held: Value,
    color: bool,
    ask: Ask,
    i: int,
    so_far: Seq<Seq<char>>,
)
    requires
        f <= larger,
    ensures
        spent(s_item_texts(f, st, held, color, ask, i, so_far).1) || s_item_texts(larger, st, held, color, ask, i, so_far) == s_item_texts(f, st, held, color, ask, i, so_far),
    decreases f,
{
    match at_index(items_of(st.heap, held), i) {
        None => {},
        Some(item) => {
            if f > 0 {
                more_repr((f - 1) as nat, (larger - 1) as nat, st, item, color, ask);
                match s_repr((f - 1) as nat, st, item, color, ask) {
                    (st1, Err(e)) => {},
                    (st1, Ok(text)) => {
                        more_item_texts(
                            (f - 1) as nat,
                            (larger - 1) as nat,
                            st1,
                            held,
                            color,
                            ask,
                            i + 1,
                            so_far.push(text),
                        );
                    },
                }
            }
        },
    }
}

proof fn more_entry_texts(
    f: nat,
    larger: nat,
    st: St,
    entries: Seq<Entry>,
    color: bool,
    ask: Ask,
    i: int,
    so_far: Seq<Seq<char>>,
)
    requires
        f <= larger,
    ensures
        spent(s_entry_texts(f, st, entries, color, ask, i, so_far).1) || s_entry_texts(larger, st, entries, color, ask, i, so_far) == s_entry_texts(f, st, entries, color, ask, i, so_far),
    decreases f,
{
    if !(i < 0 || i >= entries.len()) && f > 0 {
        more_repr((f - 1) as nat, (larger - 1) as nat, st, entries[i].key, color, ask);
        match s_repr((f - 1) as nat, st, entries[i].key, color, ask) {
            (st1, Err(e)) => {},
            (st1, Ok(key)) => {
                more_repr((f - 1) as nat, (larger - 1) as nat, st1, entries[i].value, color, ask);
                match s_repr((f - 1) as nat, st1, entries[i].value, color, ask) {
                    (st2, Err(e)) => {},
                    (st2, Ok(value)) => {
                        more_entry_texts(
                            (f - 1) as nat,
                            (larger - 1) as nat,
                            st2,
                            entries,
                            color,
                            ask,
                            i + 1,
                            so_far.push(key + ": "@ + value),
                        );
                    },
                }
            },
        }
    }
}

proof fn more_base_text(f: nat, larger: nat, st: St, v: Value, color: bool, ask: Ask)
    requires
        f <= larger,
    ensures
        spent(s_base_text(f, st, v, color, ask).1) || s_base_text(larger, st, v, color, ask) == s_base_text(f, st, v, color, ask),
    decreases f,
{
    let held = base(st.heap, v);
    if f > 0 {
        match held {
            Value::List(_) => {
                more_item_texts((f - 1) as nat, (larger - 1) as nat, st, held, color, ask, 0, Seq::empty());
            },
            Value::Tuple(_) => {
                more_item_texts((f - 1) as nat, (larger - 1) as nat, st, held, color, ask, 0, Seq::empty());
            },
            Value::Dict(id) => {
                more_entry_texts(
                    (f - 1) as nat,
                    (larger - 1) as nat,
                    st,
                    st.heap.dict(id),
                    color,
                    ask,
                    0,
                    Seq::empty(),
                );
            },
            _ => {},
        }
    }
}

proof fn more_display(f: nat, larger: nat, st: St, v: Value, color: bool, ask: Ask)
    requires
        f <= larger,
    ensures
        spent(s_display(f, st, v, color, ask).1) || s_display(larger, st, v, color, ask) == s_display(f, st, v, color, ask),
    decreases f,
{
    if f > 0 {
        match string_op(st.heap, v, ask) {
            Some(method) => {
                more_string_op((f - 1) as nat, (larger - 1) as nat, st, method, v);
            },
            None => {
                more_base_text((f - 1) as nat, (larger - 1) as nat, st, v, color, ask);
            },
        }
    }
}

proof fn more_repr(f: nat, larger: nat, st: St, v: Value, color: bool, ask: Ask)
    requires
        f <= larger,
    ensures
        spent(s_repr(f, st, v, color, ask).1) || s_repr(larger, st, v, color, ask) == s_repr(f, st, v, color, ask),
    decreases f,
{
    if f > 0 {
        match base(st.heap, v) {
            Value::Str(id) => {
                if !(string_op(st.heap, v, ask) is None) {
                    more_display((f - 1) as nat, (larger - 1) as nat, st, v, color, ask);
                }
            },
            _ => {
                more_display((f - 1) as nat, (larger - 1) as nat, st, v, color, ask);
            },
        }
    }
}

// -- laws ----------------------------------------------------------------------------------

/// A larger budget changes nothing of what a program does, unless the smaller was spent.
pub proof fn law_a_larger_budget_changes_no_result(f: nat, g: nat, st: St, program: Seq<StmtV>, env: ObjId)
    requires
        f <= g,
    ensures
        spent(s_program(f, st, program, env, 0).1) || s_program(g, st, program, env, 0) == s_program(
            f,
            st,
            program,
            env,
            0,
        ),
{
    more_program(f, g, st, program, env, 0);
}

/// A larger budget changes nothing of what an expression is, unless the smaller was spent.
pub proof fn law_a_larger_budget_changes_no_value(f: nat, g: nat, st: St, e: ExprV, env: ObjId)
    requires
        f <= g,
    ensures
        spent(s_eval(f, st, e, env).1) || s_eval(g, st, e, env) == s_eval(f, st, e, env),
{
    more_eval(f, g, st, e, env);
}

/// What a run of a program does.
pub open spec fn ran(st: St, program: Seq<StmtV>) -> Out<()> {
    s_program(FUEL as nat, st, program, st.globals, 0)
}

/// Running two programs one after the other does what running them as one does, and the
/// second is not reached where the first fails; unless running them as one takes more steps
/// than a run may.
pub proof fn law_two_runs_do_what_one_does(st: St, a: Seq<StmtV>, b: Seq<StmtV>)
    ensures
        spent(ran(st, a + b).1) || ran(st, a + b) == match ran(st, a) {
            (st1, Ok(_)) => s_program(FUEL as nat, st1, b, st.globals, 0),
            (st1, Err(e)) => (st1, Err::<(), ErrV>(e)),
        },
        ran(st, a).0.globals == st.globals,
{
    law_a_program_runs_in_two_parts(FUEL as nat, st, a, b, st.globals);
    law_a_program_leaves_what_is_held(FUEL as nat, st, a, st.globals);
    let (st1, r) = ran(st, a);
    if r is Ok {
        let left = if FUEL as nat >= a.len() { (FUEL as nat - a.len()) as nat } else { 0 };
        if FUEL as nat >= a.len() {
            more_program(left, FUEL as nat, st1, b, st.globals, 0);
        }
    }
}

} // verus!
