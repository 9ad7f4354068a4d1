//! What a program cannot unbalance: whatever it does, and however it fails, the scopes it
//! entered are left, the values held for it are let go, and its calls are counted back.

use crate::compiled;
use crate::error::{ErrV, ErrorKind};
use crate::interp::api::{answer, s_entry, s_prompted};
use crate::interp::call::{
    converter_of, deeper, entered, left_again, method_arity, method_receiver, native_arity,
    s_arranged, s_bind_param, s_bind_params, s_build, s_call, s_call_class, s_call_evaluated,
    s_call_function, s_call_method, s_call_native, s_class_fields, s_construct_builtin,
    s_field_set, s_fill_defaults, s_init_fields, s_initialize, s_invoke, s_map_items, s_map_list,
    s_new_instance, s_own_fields, s_reach, s_reach_attr, s_run_body, s_set_payload,
};
use crate::interp::coerce::{
    conversion, s_coerced, s_constructed, s_default_instance, s_default_items, s_default_of,
    s_evaluated_as, s_initial, s_settled, s_widen, s_widen_all, s_zero, unknown_type,
};
use crate::interp::declare::{
    block_scope, empty_class, extension_put, filled_slots, inherited_slots, s_add_extension,
    s_add_extensions, s_declare_class, s_declare_fn, s_enclosing, s_extend, s_inherit, s_inherited,
    s_make_class, s_may_extend_all, s_merged, s_methods, s_parent_of, s_read,
};
use crate::interp::dict::{dict_get, keys_of, values_in};
use crate::interp::dispatch::{
    callable_name, called_name, params_after, s_arrange, selected, shape_for, shape_for_method,
    ArrangedV, ShapeV,
};
use crate::interp::error::{s_check_arity, s_reify, Spans};
use crate::interp::eval::{
    arg_exprs, dot_spans, is_simple, pair_exprs, s_applied_call, s_applied_expr, s_assign,
    s_assign_expr, s_assign_field, s_assign_index, s_assign_op_expr, s_binary_expr, s_bracket_call,
    s_build_with, s_built_generic, s_call_expr, s_combined, s_dict_literal, s_eval, s_field_expr,
    s_index_expr, s_is_expr, s_list_literal, s_logical_expr, s_method_call, s_op_field, s_op_index,
    s_op_var, s_pair, s_simple, s_slice_expr, s_store_field, s_store_var, s_super, s_super_call,
    s_super_expr, s_super_target, s_unary_expr, s_values, slice_exprs,
};
use crate::interp::exec::{
    is_declaration, s_block, s_block_with, s_declaration, s_exec, s_expr_stmt, s_for, s_if,
    s_items, s_iterate, s_let, s_return, s_scoped, s_statement, s_stmts, s_throw_stmt, s_try,
    s_while, Flow,
};
use crate::interp::files::{loaded_place, s_resolve_import};
use crate::interp::fit::{
    caret, class_named, declared_by, names, produced_by, rebound_by, unwritten, WrittenV,
};
use crate::interp::generic::{inferred_header, substituted};
use crate::interp::library::{
    file_text, s_asked_file, s_library, s_line, s_next, s_put_file, s_seed, text_in,
};
use crate::interp::module::{
    loading, s_bind_import, s_import, s_load_module, s_load_shipped, s_program, s_run_module,
};
use crate::interp::native::{
    arg, s_cased, s_char_texts, s_join, s_keys, s_plain_native, s_pop, s_push, s_remove, s_split,
    s_texts, s_to_dict, s_to_list, s_type, s_values_of,
};
use crate::interp::object::{extension, s_attr, Attr, DotSpans};
use crate::interp::operator::{
    asked, binary_op_for, is_ordering, op_body, op_for, s_plain_binary, s_text_op, slot_for,
    specific_for, Asked,
};
use crate::interp::ops::{
    is_frozen, items_of, s_arith, s_asked_compare, s_asked_order, s_base_contains, s_base_equals,
    s_binary, s_bool_op, s_call_op, s_compare, s_computed, s_contains, s_entries_equal, s_equals,
    s_index_get, s_index_put, s_is_truthy, s_items_equal, s_plain_index, s_put_entry, s_put_item,
    s_search, s_slice, s_unary, s_unasked_compare, unary_slot, PutSpans,
};
use crate::interp::params::{
    bindings_for, checked_arguments, const_binding, current, fixed_params, reified, s_constant,
    s_type_arity, type_params,
};
use crate::interp::show::{
    s_base_text, s_display, s_entry_texts, s_item_texts, s_repr, s_string_op, string_op, Ask,
};
use crate::interp::state::{
    held, popped, released, rooted, s_collect, s_list, s_text, with_heap, with_new, MAX_DEPTH, St,
};
use crate::runtime::class::{base, builtin_base, lineage, method_in, slot_of};
use crate::runtime::heap::at_index;
use crate::runtime::object::{lookup, put, Class, ClassV, Entry, FunctionV, NamedV, ObjV};
use crate::runtime::scope::{declared, holder, var_of};
use crate::runtime::types::holds;
use crate::runtime::value::{is_shipped, Builtin, Native, ObjId, Value};
use crate::syntax::ast::{
    BinaryOp, Bind, BlockV, CallArgV, ClassDeclV, ConstArgV, ExprKindV, ExprV, FieldDeclV, FnDeclV,
    ImportNameV, LogicalOp, Op, PairV, ParamV, StmtKindV, StmtV, TypeExprV, TypeNameV, UnaryOp,
};
use crate::syntax::token::Span;
use crate::text::{digits, pieces};
use crate::interp::sound::{group_keeps, keeps, lemma_keeps_itself, lemma_made_keeps, sound};
use crate::lsp::rows::rows;
use vstd::prelude::*;

verus! {

broadcast use group_keeps;

/// Whether a state holds what another held: the same scopes, values, classes, calls, type
/// arguments and files in progress; and whether the heap was kept sound.
pub open spec fn steady(a: St, b: St) -> bool {
    &&& a.scopes =~= b.scopes
    &&& a.temps =~= b.temps
    &&& a.reaching =~= b.reaching
    &&& a.depth == b.depth
    &&& a.bindings =~= b.bindings
    &&& a.loading =~= b.loading
    &&& a.globals == b.globals
    &&& keeps(a.heap, b.heap, a.globals)
}

/// Whether a state holds what another held, and more values.
pub open spec fn growing(a: St, b: St) -> bool {
    &&& a.scopes =~= b.scopes
    &&& a.temps.len() <= b.temps.len()
    &&& a.temps =~= b.temps.subrange(0, a.temps.len() as int)
    &&& a.reaching =~= b.reaching
    &&& a.depth == b.depth
    &&& a.bindings =~= b.bindings
    &&& a.loading =~= b.loading
    &&& a.globals == b.globals
    &&& keeps(a.heap, b.heap, a.globals)
}

proof fn lemma_prompted(f: nat, st: St, s: StmtV, env: ObjId)
    ensures
        steady(st, s_prompted(f, st, s, env).0),
{
    lemma_keeps_itself(st.heap, st.globals);
    match s.kind {
        StmtKindV::Expr(e) => {
            lemma_eval(f, s_collect(st), e, env);
        },
        _ => {
            lemma_exec(f, st, s, env);
        },
    }
}

proof fn lemma_entry(
    f: nat,
    st: St,
    program: Seq<StmtV>,
    env: ObjId,
    mark: int,
    i: int,
    last: Option<Value>,
)
    requires
        0 <= mark <= st.temps.len(),
    ensures
        steady(released(st, mark), s_entry(f, st, program, env, mark, i, last).0),
    decreases f,
{
    lemma_keeps_itself(st.heap, st.globals);
    if !(i < 0 || i >= program.len()) && f > 0 {
        lemma_prompted((f - 1) as nat, st, program[i], env);
        match s_prompted((f - 1) as nat, st, program[i], env) {
            (st1, Err(e)) => {},
            (st1, Ok(v)) => {
                lemma_entry(
                    (f - 1) as nat,
                    held(released(st1, mark), answer(v)),
                    program,
                    env,
                    mark,
                    i + 1,
                    v,
                );
            },
        }
    }
}

#[verifier::rlimit(50)]
proof fn lemma_fill_defaults(
    f: nat,
    st: St,
    params: Seq<ParamV>,
    filled: Seq<Option<Value>>,
    env: ObjId,
    name: Seq<char>,
    span: Span,
    i: int,
    so_far: Seq<Value>,
)
    ensures
        growing(st, s_fill_defaults(f, st, params, filled, env, name, span, i, so_far).0),
    decreases f,
{
    lemma_keeps_itself(st.heap, st.globals);
    if !(i < 0 || i >= params.len() || i >= filled.len()) && f > 0 {
        match filled[i] {
            Some(v) => {
                lemma_fill_defaults(
                    (f - 1) as nat,
                    st,
                    params,
                    filled,
                    env,
                    name,
                    span,
                    i + 1,
                    so_far.push(v),
                );
            },
            None => {
                match params[i].default {
                    None => {},
                    Some(e) => {
                        lemma_eval((f - 1) as nat, st, e, env);
                        match s_eval((f - 1) as nat, st, e, env) {
                            (st1, Ok(v)) => {
                                lemma_fill_defaults(
                                    (f - 1) as nat,
                                    rooted(st1, v),
                                    params,
                                    filled,
                                    env,
                                    name,
                                    span,
                                    i + 1,
                                    so_far.push(v),
                                );
                            },
                            (st1, Err(e)) => {},
                        }
                    },
                }
            },
        }
    }
}

proof fn lemma_arranged(
    f: nat,
    st: St,
    hold: Seq<Value>,
    shape: Option<ShapeV>,
    args: Seq<CallArgV>,
    values: Seq<Value>,
    name: Seq<char>,
    span: Span,
)
    ensures
        steady(st, s_arranged(f, st, hold, shape, args, values, name, span).0),
    decreases f,
{
    lemma_keeps_itself(st.heap, st.globals);
    match s_arrange(shape, args, values, name, span) {
        Err(e) => {},
        Ok(ArrangedV::Done(v)) => {},
        Ok(ArrangedV::Filled(filled)) => {
            match shape {
                None => {},
                Some(s) => {
                    if f > 0 {
                        lemma_fill_defaults(
                            (f - 1) as nat,
                            held(held(st, hold), values),
                            params_after(s.decl.params, s.receiver),
                            filled,
                            s.env,
                            name,
                            span,
                            0,
                            Seq::empty(),
                        );
                        let (st1, r) = s_fill_defaults((f - 1) as nat, held(held(st, hold), values), params_after(s.decl.params, s.receiver), filled, s.env, name, span, 0, Seq::empty());
                    }
                },
            }
        },
    }
}

proof fn lemma_reach(
    f: nat,
    st: St,
    target: Value,
    args: Seq<CallArgV>,
    values: Seq<Value>,
    header: Option<TypeExprV>,
    span: Span,
)
    ensures
        steady(st, s_reach(f, st, target, args, values, header, span).0),
    decreases f,
{
    lemma_keeps_itself(st.heap, st.globals);
    if f > 0 {
        match shape_for(st.heap, target, args, values, span) {
            Err(e) => {},
            Ok(shape) => {
                lemma_arranged(
                    (f - 1) as nat,
                    st,
                    seq![target],
                    shape,
                    args,
                    values,
                    called_name(st.heap, target),
                    span,
                );
                match s_arranged((f - 1) as nat, st, seq![target], shape, args, values, called_name(st.heap, target), span) {
                    (st1, Err(e)) => {},
                    (st1, Ok(given)) => {
                        lemma_call((f - 1) as nat, St { pending: header, ..st1 }, target, given, span);
                        let (st2, r) = s_call((f - 1) as nat, St { pending: header, ..st1 }, target, given, span);
                    },
                }
            },
        }
    }
}

proof fn lemma_call_evaluated(f: nat, st: St, target: Value, args: Seq<CallArgV>, env: ObjId, span: Span)
    ensures
        steady(st, s_call_evaluated(f, st, target, args, env, span).0),
    decreases f,
{
    lemma_keeps_itself(st.heap, st.globals);
    if f > 0 {
        lemma_values(
            (f - 1) as nat,
            rooted(St { pending: None, ..st }, target),
            arg_exprs(args),
            env,
            st.temps.len() as int,
            0,
            Seq::empty(),
        );
        match s_values((f - 1) as nat, rooted(St { pending: None, ..st }, target), arg_exprs(args), env, st.temps.len() as int, 0, Seq::empty()) {
            (st1, Err(e)) => {},
            (st1, Ok(values)) => {
                lemma_reach((f - 1) as nat, st1, target, args, values, st.pending, span);
            },
        }
    }
}

#[verifier::rlimit(50)]
proof fn lemma_reach_attr(
    f: nat,
    st: St,
    receiver: Value,
    attr: Attr,
    args: Seq<CallArgV>,
    values: Seq<Value>,
    span: Span,
)
    ensures
        steady(st, s_reach_attr(f, st, receiver, attr, args, values, span).0),
    decreases f,
{
    lemma_keeps_itself(st.heap, st.globals);
    if f > 0 {
        match attr {
            Attr::Field(v) => {
                lemma_reach((f - 1) as nat, st, v, args, values, None, span);
            },
            Attr::Method(m) => {
                match shape_for_method(st.heap, m, args, values, true, span) {
                    Err(e) => {},
                    Ok(shape) => {
                        lemma_arranged(
                            (f - 1) as nat,
                            st,
                            seq![receiver, m],
                            shape,
                            args,
                            values,
                            callable_name(st.heap, m),
                            span,
                        );
                        match s_arranged((f - 1) as nat, st, seq![receiver, m], shape, args, values, callable_name(st.heap, m), span) {
                            (st1, Err(e)) => {},
                            (st1, Ok(given)) => {
                                lemma_call_method((f - 1) as nat, st1, receiver, m, given, span);
                            },
                        }
                    },
                }
            },
        }
    }
}

proof fn lemma_call(f: nat, st: St, target: Value, args: Seq<Value>, span: Span)
    ensures
        steady(st, s_call(f, st, target, args, span).0),
    decreases f,
{
    lemma_keeps_itself(st.heap, st.globals);
    if f > 0 {
        match target {
            Value::Overload(_) => {
                match selected(st.heap, target, Seq::empty(), args, false, span) {
                    Err(e) => {},
                    Ok(chosen) => {
                        lemma_call((f - 1) as nat, st, chosen, args, span);
                    },
                }
            },
            Value::Native(native) => {
                lemma_call_native((f - 1) as nat, st, native, args, span);
            },
            Value::Function(id) => {
                lemma_call_function((f - 1) as nat, st, id, args, span);
            },
            Value::BoundMethod(id) => {
                lemma_call_method((f - 1) as nat, st, st.heap.bound(id).0, st.heap.bound(id).1, args, span);
            },
            Value::Class(id) => {
                lemma_call_class((f - 1) as nat, st, id, args, span);
            },
            _ => {},
        }
    }
}

#[verifier::rlimit(50)]
proof fn lemma_bind_param(f: nat, st: St, p: ParamV, v: Value, scope: ObjId, span: Span)
    ensures
        steady(st, s_bind_param(f, st, p, v, scope, span).0),
    decreases f,
{
    lemma_keeps_itself(st.heap, st.globals);
    match p.ty {
        None => {},
        Some(ty) => {
            if f > 0 {
                lemma_coerced((f - 1) as nat, st, ty, v, "`"@ + p.name + "`"@, span, unwritten());
            }
        },
    }
}

proof fn lemma_bind_params(
    f: nat,
    st: St,
    params: Seq<ParamV>,
    args: Seq<Value>,
    scope: ObjId,
    span: Span,
    i: int,
)
    ensures
        steady(st, s_bind_params(f, st, params, args, scope, span, i).0),
    decreases f,
{
    lemma_keeps_itself(st.heap, st.globals);
    if !(i < 0 || i >= params.len() || i >= args.len()) && f > 0 {
        lemma_bind_param((f - 1) as nat, st, params[i], args[i], scope, span);
        match s_bind_param((f - 1) as nat, st, params[i], args[i], scope, span) {
            (st1, Ok(_)) => {
                lemma_bind_params((f - 1) as nat, st1, params, args, scope, span, i + 1);
            },
            (st1, Err(e)) => {},
        }
    }
}

proof fn lemma_run_body(f: nat, st: St, fun: FunctionV, scope: ObjId)
    ensures
        steady(st, s_run_body(f, st, fun, scope).0),
    decreases f,
{
    lemma_keeps_itself(st.heap, st.globals);
    if f > 0 {
        lemma_stmts(
            (f - 1) as nat,
            St { depth: deeper(st.depth), reaching: st.reaching.push(fun.owner), ..st },
            fun.decl.body.stmts,
            scope,
            0,
        );
        let (st1, r) = s_stmts((f - 1) as nat, St { depth: deeper(st.depth), reaching: st.reaching.push(fun.owner), ..st }, fun.decl.body.stmts, scope, 0);
        let st2 = St { depth: st.depth, reaching: popped(st1.reaching), ..st1 };
    }
}

proof fn lemma_invoke(f: nat, st: St, fun: FunctionV, args: Seq<Value>, scope: ObjId, span: Span)
    ensures
        steady(st, s_invoke(f, st, fun, args, scope, span).0),
    decreases f,
{
    lemma_keeps_itself(st.heap, st.globals);
    if f > 0 {
        lemma_bind_params((f - 1) as nat, st, fun.decl.params, args, scope, span, 0);
        match s_bind_params((f - 1) as nat, st, fun.decl.params, args, scope, span, 0) {
            (st1, Err(e)) => {},
            (st1, Ok(_)) => {
                lemma_run_body((f - 1) as nat, st1, fun, scope);
                match s_run_body((f - 1) as nat, st1, fun, scope) {
                    (st2, Err(e)) => {},
                    (st2, Ok(v)) => {
                        match fun.decl.result {
                            None => {},
                            Some(ty) => {
                                lemma_coerced(
                                    (f - 1) as nat,
                                    st2,
                                    ty,
                                    v,
                                    "`"@ + fun.decl.name + "`\u{2019}s return"@,
                                    span,
                                    unwritten(),
                                );
                            },
                        }
                    },
                }
            },
        }
    }
}

/// What a call entered is left again.
proof fn lemma_left(st: St, fun: FunctionV, args: Seq<Value>, st1: St)
    requires
        steady(entered(st, fun, args), st1),
    ensures
        steady(st, left_again(st1, st)),
{
    lemma_keeps_itself(st.heap, st.globals);
}

proof fn lemma_call_function(f: nat, st: St, id: ObjId, args: Seq<Value>, span: Span)
    ensures
        steady(st, s_call_function(f, st, id, args, span).0),
    decreases f,
{
    lemma_keeps_itself(st.heap, st.globals);
    match st.heap.function(id) {
        None => {},
        Some(fun) => {
            match s_check_arity(fun.decl.name, fun.decl.params.len(), args.len(), span) {
                Err(e) => {},
                Ok(_) => {
                    if !(st.depth >= MAX_DEPTH) && f > 0 {
                        lemma_invoke(
                            (f - 1) as nat,
                            entered(st, fun, args),
                            fun,
                            args,
                            st.heap.next_id(),
                            span,
                        );
                        let (st1, r) = s_invoke(
                            (f - 1) as nat,
                            entered(st, fun, args),
                            fun,
                            args,
                            st.heap.next_id(),
                            span,
                        );
                        lemma_left(st, fun, args, st1);
                    }
                },
            }
        },
    }
}

proof fn lemma_map_items(
    f: nat,
    st: St,
    source: ObjId,
    function: Value,
    into: ObjId,
    span: Span,
    i: int,
)
    ensures
        steady(st, s_map_items(f, st, source, function, into, span, i).0),
    decreases f,
{
    lemma_keeps_itself(st.heap, st.globals);
    match at_index(st.heap.list(source), i) {
        None => {},
        Some(item) => {
            if f > 0 {
                lemma_call((f - 1) as nat, st, function, seq![item], span);
                match s_call((f - 1) as nat, st, function, seq![item], span) {
                    (st1, Err(e)) => {},
                    (st1, Ok(v)) => {
                        lemma_map_items(
                            (f - 1) as nat,
                            with_heap(st1, match st1.heap.obj(into) { Some(ObjV::List(s)) => st1.heap.with_object(into, ObjV::List(s.push(v))), _ => st1.heap }),
                            source,
                            function,
                            into,
                            span,
                            i + 1,
                        );
                    },
                }
            }
        },
    }
}

proof fn lemma_map_list(f: nat, st: St, target: Value, function: Value, span: Span)
    ensures
        steady(st, s_map_list(f, st, target, function, span).0),
    decreases f,
{
    lemma_keeps_itself(st.heap, st.globals);
    match base(st.heap, target) {
        Value::List(source) => {
            if f > 0 {
                let into = st.heap.next_id();
                lemma_map_items(
                    (f - 1) as nat,
                    held(with_new(st, ObjV::List(Seq::empty())), seq![Value::List(into), target, function]),
                    source,
                    function,
                    into,
                    span,
                    0,
                );
                let (st1, r) = s_map_items((f - 1) as nat, held(with_new(st, ObjV::List(Seq::empty())), seq![Value::List(into), target, function]), source, function, into, span, 0);
            }
        },
        _ => {},
    }
}

proof fn lemma_call_native(f: nat, st: St, native: Native, args: Seq<Value>, span: Span)
    ensures
        steady(st, s_call_native(f, st, native, args, span).0),
    decreases f,
{
    lemma_keeps_itself(st.heap, st.globals);
    match native_arity(native, args.len(), span) {
        Err(e) => {},
        Ok(_) => {
            if f > 0 {
                match native {
                    Native::Print => {
                        lemma_display((f - 1) as nat, st, arg(args, 0), false, Ask::Class);
                    },
                    Native::ToStr => {
                        lemma_display((f - 1) as nat, st, arg(args, 0), false, Ask::Class);
                    },
                    Native::ToBool => {
                        lemma_is_truthy((f - 1) as nat, st, arg(args, 0));
                    },
                    Native::MapList => {
                        lemma_map_list((f - 1) as nat, st, arg(args, 0), arg(args, 1), span);
                    },
                    _ => {
                        lemma_plain_native(st, native, args, span);
                    },
                }
            }
        },
    }
}

proof fn lemma_call_method(
    f: nat,
    st: St,
    receiver: Value,
    method: Value,
    args: Seq<Value>,
    span: Span,
)
    ensures
        steady(st, s_call_method(f, st, receiver, method, args, span).0),
    decreases f,
{
    lemma_keeps_itself(st.heap, st.globals);
    match selected(st.heap, method, Seq::empty(), args, true, span) {
        Err(e) => {},
        Ok(m) => {
            match method_arity(st.heap, m, args.len(), span) {
                Err(e) => {},
                Ok(_) => {
                    match method_receiver(st, m, receiver, span) {
                        Err(e) => {},
                        Ok(first) => {
                            if f > 0 {
                                lemma_call((f - 1) as nat, st, m, seq![first] + args, span);
                            }
                        },
                    }
                },
            }
        },
    }
}

proof fn lemma_construct_builtin(f: nat, st: St, id: ObjId, b: Builtin, args: Seq<Value>, span: Span)
    ensures
        steady(st, s_construct_builtin(f, st, id, b, args, span).0),
    decreases f,
{
    lemma_keeps_itself(st.heap, st.globals);
    if f > 0 {
        match converter_of(st.heap, b, args) {
            Some((op, method)) => {
                lemma_call_op((f - 1) as nat, st, method, args[0], Seq::empty());
            },
            None => {
                match st.heap.class_slot(id, Op::Init) {
                    None => {},
                    Some(init) => {
                        lemma_call((f - 1) as nat, st, init, args, span);
                    },
                }
            },
        }
    }
}

proof fn lemma_set_payload(
    f: nat,
    st: St,
    id: ObjId,
    init: Value,
    b: Builtin,
    args: Seq<Value>,
    span: Span,
)
    ensures
        steady(st, s_set_payload(f, st, id, init, b, args, span).0),
    decreases f,
{
    lemma_keeps_itself(st.heap, st.globals);
    if !(st.heap.instance(id).payload is Some) && f > 0 {
        lemma_call((f - 1) as nat, st, init, args, span);
    }
}

proof fn lemma_field_set(st: St, field: FieldDeclV, v: Value, id: ObjId, span: Span)
    ensures
        steady(st, s_field_set(st, field, v, id, span).0),
{
    lemma_keeps_itself(st.heap, st.globals);
}

proof fn lemma_class_fields(
    f: nat,
    st: St,
    fields: Seq<FieldDeclV>,
    env: ObjId,
    id: ObjId,
    span: Span,
    i: int,
)
    ensures
        steady(st, s_class_fields(f, st, fields, env, id, span, i).0),
    decreases f,
{
    lemma_keeps_itself(st.heap, st.globals);
    if !(i < 0 || i >= fields.len()) && f > 0 {
        lemma_initial(
            (f - 1) as nat,
            st,
            fields[i].name,
            fields[i].name_span,
            fields[i].ty,
            fields[i].value,
            env,
        );
        match s_initial((f - 1) as nat, st, fields[i].name, fields[i].name_span, fields[i].ty, fields[i].value, env) {
            (st1, Err(e)) => {},
            (st1, Ok(v)) => {
                lemma_field_set(st1, fields[i], v, id, span);
                match s_field_set(st1, fields[i], v, id, span) {
                    (st2, Err(e)) => {},
                    (st2, Ok(_)) => {
                        lemma_class_fields((f - 1) as nat, st2, fields, env, id, span, i + 1);
                    },
                }
            },
        }
    }
}

proof fn lemma_own_fields(f: nat, st: St, c: ObjId, class: ObjId, id: ObjId, span: Span)
    ensures
        steady(st, s_own_fields(f, st, c, class, id, span).0),
    decreases f,
{
    lemma_keeps_itself(st.heap, st.globals);
    match st.heap.class(c).decl {
        None => {},
        Some(decl) => {
            if f > 0 {
                let frame = if c == class { bindings_for(st.heap, id) } else { Seq::empty() };
                lemma_class_fields(
                    (f - 1) as nat,
                    St { bindings: st.bindings.push(frame), ..st },
                    decl.fields,
                    st.heap.class(c).env,
                    id,
                    span,
                    0,
                );
                let (st1, r) = s_class_fields((f - 1) as nat, St { bindings: st.bindings.push(frame), ..st }, decl.fields, st.heap.class(c).env, id, span, 0);
            }
        },
    }
}

proof fn lemma_init_fields(
    f: nat,
    st: St,
    chain: Seq<ObjId>,
    class: ObjId,
    id: ObjId,
    span: Span,
    n: int,
)
    ensures
        steady(st, s_init_fields(f, st, chain, class, id, span, n).0),
    decreases f,
{
    lemma_keeps_itself(st.heap, st.globals);
    if !(n <= 0 || n > chain.len()) && f > 0 {
        lemma_own_fields((f - 1) as nat, st, chain[n - 1], class, id, span);
        match s_own_fields((f - 1) as nat, st, chain[n - 1], class, id, span) {
            (st1, Err(e)) => {},
            (st1, Ok(_)) => {
                lemma_init_fields((f - 1) as nat, st1, chain, class, id, span, n - 1);
            },
        }
    }
}

proof fn lemma_initialize(f: nat, st: St, class: ObjId, id: ObjId, args: Seq<Value>, span: Span)
    ensures
        steady(st, s_initialize(f, st, class, id, args, span).0),
    decreases f,
{
    lemma_keeps_itself(st.heap, st.globals);
    if f > 0 {
        match st.heap.class_slot(class, Op::Init) {
            None => {},
            Some(Value::Native(native)) => {
                let b = match builtin_base(st.heap, class, st.heap.cells.len()) { Some(b) => b, None => Builtin::Nil };
                lemma_set_payload((f - 1) as nat, st, id, Value::Native(native), b, args, span);
            },
            Some(init) => {
                lemma_call_method((f - 1) as nat, st, Value::Instance(id), init, args, span);
            },
        }
    }
}

proof fn lemma_build(f: nat, st: St, class: ObjId, id: ObjId, args: Seq<Value>, span: Span)
    ensures
        steady(st, s_build(f, st, class, id, args, span).0),
    decreases f,
{
    lemma_keeps_itself(st.heap, st.globals);
    if f > 0 {
        let chain = lineage(st.heap, class, st.heap.cells.len());
        lemma_init_fields((f - 1) as nat, st, chain, class, id, span, chain.len() as int);
        match s_init_fields((f - 1) as nat, st, chain, class, id, span, chain.len() as int) {
            (st1, Err(e)) => {},
            (st1, Ok(_)) => {
                lemma_initialize((f - 1) as nat, st1, class, id, args, span);
            },
        }
    }
}

proof fn lemma_new_instance(st: St, class: ObjId)
    ensures
        steady(st, s_new_instance(st, class)),
{
    lemma_keeps_itself(st.heap, st.globals);
}

proof fn lemma_call_class(f: nat, st: St, class: ObjId, args: Seq<Value>, span: Span)
    ensures
        steady(st, s_call_class(f, st, class, args, span).0),
    decreases f,
{
    lemma_keeps_itself(st.heap, st.globals);
    if f > 0 {
        match st.heap.class(class).builtin {
            Some(b) => {
                lemma_construct_builtin((f - 1) as nat, st, class, b, args, span);
            },
            None => {
                let id = st.heap.next_id();
                lemma_new_instance(st, class);
                lemma_build(
                    (f - 1) as nat,
                    held(rooted(s_new_instance(st, class), Value::Instance(id)), args),
                    class,
                    id,
                    args,
                    span,
                );
                let (st1, r) = s_build((f - 1) as nat, held(rooted(s_new_instance(st, class), Value::Instance(id)), args), class, id, args, span);
            },
        }
    }
}

proof fn lemma_constructed(f: nat, st: St, ty: TypeExprV, v: Value, span: Span)
    ensures
        steady(st, s_constructed(f, st, ty, v, span).0),
    decreases f,
{
    lemma_keeps_itself(st.heap, st.globals);
    match conversion(st, ty, v) {
        None => {},
        Some((id, explicit)) => {
            if !(explicit) && f > 0 {
                lemma_call((f - 1) as nat, st, Value::Class(id), seq![v], span);
            }
        },
    }
}

proof fn lemma_widen_all(
    f: nat,
    st: St,
    ty: TypeExprV,
    values: Seq<Value>,
    what: Seq<char>,
    span: Span,
    i: int,
    so_far: Seq<Value>,
)
    ensures
        growing(st, s_widen_all(f, st, ty, values, what, span, i, so_far).0),
    decreases f,
{
    lemma_keeps_itself(st.heap, st.globals);
    if !(i < 0 || i >= values.len()) && f > 0 {
        lemma_coerced((f - 1) as nat, st, ty, values[i], what, span, unwritten());
        match s_coerced((f - 1) as nat, st, ty, values[i], what, span, unwritten()) {
            (st1, Ok(v)) => {
                lemma_widen_all(
                    (f - 1) as nat,
                    rooted(st1, v),
                    ty,
                    values,
                    what,
                    span,
                    i + 1,
                    so_far.push(v),
                );
            },
            (st1, Err(e)) => {},
        }
    }
}

#[verifier::rlimit(50)]
proof fn lemma_widen(f: nat, st: St, ty: TypeExprV, v: Value, span: Span)
    ensures
        steady(st, s_widen(f, st, ty, v, span).0),
    decreases f,
{
    lemma_keeps_itself(st.heap, st.globals);
    let mark = st.temps.len() as int;
    if f > 0 {
        match base(st.heap, v) {
            Value::List(id) => {
                if names(ty, "list"@) && ty.args.len() > 0 {
                    lemma_widen_all(
                        (f - 1) as nat,
                        rooted(st, v),
                        ty.args[0],
                        st.heap.list(id),
                        "the item"@,
                        span,
                        0,
                        Seq::empty(),
                    );
                }
            },
            Value::Dict(id) => {
                if names(ty, "dict"@) && ty.args.len() > 1 {
                    lemma_widen_all(
                        (f - 1) as nat,
                        rooted(st, v),
                        ty.args[1],
                        values_in(st.heap.dict(id)),
                        "the value"@,
                        span,
                        0,
                        Seq::empty(),
                    );
                }
            },
            _ => {},
        }
    }
}

proof fn lemma_settled(f: nat, st: St, ty: TypeExprV, v: Value, span: Span)
    ensures
        steady(st, s_settled(f, st, ty, v, span).0),
    decreases f,
{
    lemma_keeps_itself(st.heap, st.globals);
    if f > 0 {
        lemma_widen((f - 1) as nat, st, ty, v, span);
    }
}

proof fn lemma_coerced(
    f: nat,
    st: St,
    ty: TypeExprV,
    v: Value,
    what: Seq<char>,
    span: Span,
    w: WrittenV,
)
    ensures
        steady(st, s_coerced(f, st, ty, v, what, span, w).0),
    decreases f,
{
    lemma_keeps_itself(st.heap, st.globals);
    let at = caret(w, span);
    let t = substituted(ty, current(st));
    if f > 0 {
        match unknown_type(st, t) {
            Some(name) => {},
            None => {
                if holds(st.heap, t, v) {
                    lemma_settled((f - 1) as nat, st, t, v, at);
                } else {
                    lemma_constructed((f - 1) as nat, st, t, v, at);
                    match s_constructed((f - 1) as nat, st, t, v, at) {
                        (st1, Err(e)) => {},
                        (st1, Ok(Some(built))) => {
                            lemma_settled((f - 1) as nat, st1, t, built, at);
                        },
                        (st1, Ok(None)) => {},
                    }
                }
            },
        }
    }
}

proof fn lemma_default_of(f: nat, st: St, ty: TypeExprV, field: Seq<char>, span: Span)
    ensures
        steady(st, s_default_of(f, st, ty, field, span).0),
    decreases f,
{
    lemma_keeps_itself(st.heap, st.globals);
    if f > 0 && !(ty.nullable) {
        match ty.name {
            TypeNameV::Named(name) => {
                if name == "tuple"@ {
                    lemma_default_items((f - 1) as nat, st, ty.args, field, span, 0, Seq::empty());
                } else {
                    match s_zero(st, name) {
                        Some((st1, v)) => {},
                        None => {
                            lemma_default_instance((f - 1) as nat, st, name, field, span);
                        },
                    }
                }
            },
            _ => {},
        }
    }
}

proof fn lemma_default_instance(f: nat, st: St, name: Seq<char>, field: Seq<char>, span: Span)
    ensures
        steady(st, s_default_instance(f, st, name, field, span).0),
    decreases f,
{
    lemma_keeps_itself(st.heap, st.globals);
    match class_named(st, name) {
        None => {},
        Some(id) => {
            if f > 0 {
                lemma_call((f - 1) as nat, st, Value::Class(id), Seq::empty(), span);
            }
        },
    }
}

proof fn lemma_default_items(
    f: nat,
    st: St,
    args: Seq<TypeExprV>,
    field: Seq<char>,
    span: Span,
    i: int,
    so_far: Seq<Value>,
)
    ensures
        steady(st, s_default_items(f, st, args, field, span, i, so_far).0),
    decreases f,
{
    lemma_keeps_itself(st.heap, st.globals);
    if !(i < 0 || i >= args.len()) && f > 0 {
        if args[i].name is Pack {
            lemma_default_items((f - 1) as nat, st, args, field, span, i + 1, so_far);
        } else {
            lemma_default_of((f - 1) as nat, st, args[i], field + "["@ + digits(i as nat) + "]"@, span);
            match s_default_of((f - 1) as nat, st, args[i], field + "["@ + digits(i as nat) + "]"@, span) {
                (st1, Ok(v)) => {
                    lemma_default_items((f - 1) as nat, st1, args, field, span, i + 1, so_far.push(v));
                },
                (st1, Err(e)) => {},
            }
        }
    }
}

proof fn lemma_evaluated_as(f: nat, st: St, ty: Option<TypeExprV>, e: ExprV, env: ObjId)
    ensures
        steady(st, s_evaluated_as(f, st, ty, e, env).0),
    decreases f,
{
    lemma_keeps_itself(st.heap, st.globals);
    if f > 0 {
        match inferred_header(ty, e) {
            None => {
                lemma_eval((f - 1) as nat, st, e, env);
            },
            Some(header) => {
                lemma_eval(
                    (f - 1) as nat,
                    St { pending: Some(substituted(header, current(st))), ..st },
                    e,
                    env,
                );
                let (st1, r) = s_eval((f - 1) as nat, St { pending: Some(substituted(header, current(st))), ..st }, e, env);
            },
        }
    }
}

#[verifier::rlimit(50)]
proof fn lemma_initial(
    f: nat,
    st: St,
    name: Seq<char>,
    name_span: Span,
    ty: Option<TypeExprV>,
    value: Option<ExprV>,
    env: ObjId,
)
    ensures
        steady(st, s_initial(f, st, name, name_span, ty, value, env).0),
    decreases f,
{
    lemma_keeps_itself(st.heap, st.globals);
    if f > 0 {
        match value {
            Some(e) => {
                lemma_evaluated_as((f - 1) as nat, st, ty, e, env);
                match s_evaluated_as((f - 1) as nat, st, ty, e, env) {
                    (st1, Err(x)) => {},
                    (st1, Ok(v)) => {
                        match ty {
                            None => {},
                            Some(t) => {
                                lemma_coerced(
                                    (f - 1) as nat,
                                    st1,
                                    t,
                                    v,
                                    "`"@ + name + "`"@,
                                    e.span,
                                    declared_by(e),
                                );
                            },
                        }
                    },
                }
            },
            None => {
                match ty {
                    None => {},
                    Some(t) => {
                        lemma_default_of((f - 1) as nat, st, substituted(t, current(st)), name, name_span);
                        match s_default_of((f - 1) as nat, st, substituted(t, current(st)), name, name_span) {
                            (st1, Err(x)) => {},
                            (st1, Ok(v)) => {
                                lemma_coerced(
                                    (f - 1) as nat,
                                    st1,
                                    t,
                                    v,
                                    "`"@ + name + "`"@,
                                    name_span,
                                    unwritten(),
                                );
                            },
                        }
                    },
                }
            },
        }
    }
}

proof fn lemma_read(st: St, name: Seq<char>, env: ObjId, span: Span)
    ensures
        steady(st, s_read(st, name, env, span).0),
{
    lemma_keeps_itself(st.heap, st.globals);
    match holder(st.heap, env, name, st.heap.cells.len()) {
        Some(scope) => {
            if st.heap.scope(scope).parent is None && const_binding(st, name) is Some {
                lemma_constant(st, const_binding(st, name)->0);
                let (st1, v) = s_constant(st, const_binding(st, name)->0);
            }
        },
        None => {
            match const_binding(st, name) {
                Some(c) => {
                    lemma_constant(st, c);
                    let (st1, v) = s_constant(st, c);
                },
                None => {},
            }
        },
    }
}

proof fn lemma_merged(st: St, existing: Value, new: Value, receiver: bool)
    ensures
        steady(st, s_merged(st, existing, new, receiver).0),
{
    lemma_keeps_itself(st.heap, st.globals);
}

proof fn lemma_inherited(st: St, own: Value, theirs: Value)
    ensures
        steady(st, s_inherited(st, own, theirs).0),
{
    lemma_keeps_itself(st.heap, st.globals);
}

proof fn lemma_declare_fn(st: St, decl: FnDeclV, env: ObjId)
    ensures
        steady(st, s_declare_fn(st, decl, env)),
{
    lemma_keeps_itself(st.heap, st.globals);
    let st1 = with_new(st, ObjV::Function(FunctionV { decl, env, owner: None }));
    let f = Value::Function(st.heap.next_id());
    match var_of(st1.heap, env, decl.name) {
        Some(var) => {
            match var.value {
                Some(Value::Function(old)) => {
                    lemma_merged(st1, Value::Function(old), f, false);
                },
                Some(Value::Overload(old)) => {
                    lemma_merged(st1, Value::Overload(old), f, false);
                },
                _ => {},
            }
        },
        None => {},
    }
    let (st2, v) = match var_of(st1.heap, env, decl.name) { Some(var) => match var.value { Some(Value::Function(old)) => s_merged(st1, Value::Function(old), f, false), Some(Value::Overload(old)) => s_merged(st1, Value::Overload(old), f, false), _ => (st1, f) }, None => (st1, f) };
}

proof fn lemma_methods(
    st: St,
    decls: Seq<FnDeclV>,
    env: ObjId,
    owner: ObjId,
    i: int,
    table: Seq<NamedV>,
)
    ensures
        steady(st, s_methods(st, decls, env, owner, i, table).0),
    decreases decls.len() - i,
{
    lemma_keeps_itself(st.heap, st.globals);
    if !(i < 0 || i >= decls.len()) {
        let st1 = with_new(st, ObjV::Function(FunctionV { decl: decls[i], env, owner: Some(owner) }));
        let f = Value::Function(st.heap.next_id());
        match lookup(table, decls[i].name) {
            Some(held) => {
                lemma_merged(st1, held, f, true);
            },
            None => {},
        }
        let (st2, v) = match lookup(table, decls[i].name) { Some(held) => s_merged(st1, held, f, true), None => (st1, f) };
        lemma_methods(st2, decls, env, owner, i + 1, put(table, decls[i].name, v));
    }
}

proof fn lemma_inherit(st: St, parent: ObjId, i: int, table: Seq<NamedV>)
    ensures
        steady(st, s_inherit(st, parent, i, table).0),
    decreases table.len() - i,
{
    lemma_keeps_itself(st.heap, st.globals);
    if !(i < 0 || i >= table.len()) {
        match method_in(st.heap, parent, table[i].name, st.heap.cells.len()) {
            Some(theirs) => {
                if table[i].name == "init"@ {
                    lemma_inherit(st, parent, i + 1, table);
                } else {
                    lemma_inherited(st, table[i].value, theirs);
                    let (st1, v) = s_inherited(st, table[i].value, theirs);
                    lemma_inherit(
                        st1,
                        parent,
                        i + 1,
                        table.update(i, NamedV { name: table[i].name, value: v }),
                    );
                }
            },
            None => {
                lemma_inherit(st, parent, i + 1, table);
            },
        }
    }
}

proof fn lemma_parent_of(st: St, decl: ClassDeclV, env: ObjId)
    ensures
        steady(st, s_parent_of(st, decl, env).0),
{
    lemma_keeps_itself(st.heap, st.globals);
    match decl.parent {
        None => {},
        Some(parent) => {
            lemma_read(st, parent, env, decl.parent_span);
        },
    }
}

proof fn lemma_enclosing(st: St, parent: Option<ObjId>, env: ObjId)
    ensures
        steady(st, s_enclosing(st, parent, env).0),
{
    lemma_keeps_itself(st.heap, st.globals);
}

proof fn lemma_make_class(st: St, decl: ClassDeclV, parent: Option<ObjId>, env: ObjId)
    ensures
        steady(st, s_make_class(st, decl, parent, env)),
{
    lemma_keeps_itself(st.heap, st.globals);
    lemma_enclosing(st, parent, env);
    let (st1, scope) = s_enclosing(st, parent, env);
    let id = st1.heap.next_id();
    let st2 = with_new(st1, ObjV::Class(empty_class(decl, parent, scope)));
    lemma_methods(st2, decl.methods, scope, id, 0, Seq::empty());
    let (st3, own) = s_methods(st2, decl.methods, scope, id, 0, Seq::empty());
    match parent {
        Some(above) => {
            lemma_inherit(st3, above, 0, own);
        },
        None => {},
    }
    let (st4, table) = match parent { Some(above) => s_inherit(st3, above, 0, own), None => (st3, own) };
    let slots = filled_slots(decl.methods, table, inherited_slots(st4.heap, parent), decl.methods.len() as int);
    let made = ClassV { methods: table, slots, ..empty_class(decl, parent, scope) };
    lemma_made_keeps(
        st.heap,
        st1.heap,
        st4.heap,
        ObjV::Class(empty_class(decl, parent, scope)),
        ObjV::Class(made),
        st.globals,
    );
    let h5 = st4.heap.with_object(id, ObjV::Class(made));
}

proof fn lemma_declare_class(st: St, decl: ClassDeclV, env: ObjId)
    ensures
        steady(st, s_declare_class(st, decl, env).0),
{
    lemma_keeps_itself(st.heap, st.globals);
    lemma_parent_of(st, decl, env);
    match s_parent_of(st, decl, env) {
        (st1, Err(e)) => {},
        (st1, Ok(parent)) => {
            lemma_make_class(st1, decl, parent, env);
        },
    }
}

proof fn lemma_add_extension(st: St, id: ObjId, decl: FnDeclV, env: ObjId)
    ensures
        steady(st, s_add_extension(st, id, decl, env)),
{
    lemma_keeps_itself(st.heap, st.globals);
    let st1 = with_new(st, ObjV::Function(FunctionV { decl, env, owner: None }));
    let f = Value::Function(st.heap.next_id());
    match extension(st1.extensions, id, decl.name, 0) {
        Some(held) => {
            lemma_merged(st1, held, f, true);
        },
        None => {},
    }
    let (st2, v) = match extension(st1.extensions, id, decl.name, 0) { Some(held) => s_merged(st1, held, f, true), None => (st1, f) };
    let st3 = St { extensions: extension_put(st2.extensions, id, decl.name, v), ..st2 };
}

proof fn lemma_add_extensions(st: St, id: ObjId, decls: Seq<FnDeclV>, env: ObjId, i: int)
    ensures
        steady(st, s_add_extensions(st, id, decls, env, i)),
    decreases decls.len() - i,
{
    lemma_keeps_itself(st.heap, st.globals);
    if !(i < 0 || i >= decls.len()) {
        lemma_add_extension(st, id, decls[i], env);
        lemma_add_extensions(s_add_extension(st, id, decls[i], env), id, decls, env, i + 1);
    }
}

proof fn lemma_extend(st: St, target: Seq<char>, span: Span, methods: Seq<FnDeclV>, env: ObjId)
    ensures
        steady(st, s_extend(st, target, span, methods, env).0),
{
    lemma_keeps_itself(st.heap, st.globals);
    lemma_read(st, target, env, span);
    match s_read(st, target, env, span) {
        (st1, Err(e)) => {},
        (st1, Ok(Value::Class(id))) => {
            match s_may_extend_all(st1, id, methods, span, 0) {
                Ok(_) => {
                    lemma_add_extensions(st1, id, methods, env, 0);
                },
                Err(e) => {},
            }
        },
        (st1, Ok(v)) => {},
    }
}

proof fn lemma_reify(st: St, e: ErrV)
    ensures
        steady(st, s_reify(st, e).0),
{
    lemma_keeps_itself(st.heap, st.globals);
}

proof fn lemma_values(
    f: nat,
    st: St,
    es: Seq<ExprV>,
    env: ObjId,
    mark: int,
    i: int,
    so_far: Seq<Value>,
)
    requires
        0 <= mark <= st.temps.len(),
    ensures
        steady(released(st, mark), s_values(f, st, es, env, mark, i, so_far).0),
    decreases f,
{
    lemma_keeps_itself(st.heap, st.globals);
    if !(i < 0 || i >= es.len()) && f > 0 {
        lemma_eval((f - 1) as nat, st, es[i], env);
        match s_eval((f - 1) as nat, st, es[i], env) {
            (st1, Ok(v)) => {
                lemma_values((f - 1) as nat, rooted(st1, v), es, env, mark, i + 1, so_far.push(v));
            },
            (st1, Err(e)) => {},
        }
    }
}

proof fn lemma_pair(f: nat, st: St, a: ExprV, b: ExprV, env: ObjId)
    ensures
        steady(st, s_pair(f, st, a, b, env).0),
    decreases f,
{
    lemma_keeps_itself(st.heap, st.globals);
    if f > 0 {
        lemma_eval((f - 1) as nat, st, a, env);
        match s_eval((f - 1) as nat, st, a, env) {
            (st1, Err(e)) => {},
            (st1, Ok(x)) => {
                lemma_eval((f - 1) as nat, rooted(st1, x), b, env);
                let (st2, r) = s_eval((f - 1) as nat, rooted(st1, x), b, env);
                let st3 = released(st2, st1.temps.len() as int);
            },
        }
    }
}

proof fn lemma_list_literal(f: nat, st: St, items: Seq<ExprV>, env: ObjId)
    ensures
        steady(st, s_list_literal(f, st, items, env).0),
    decreases f,
{
    lemma_keeps_itself(st.heap, st.globals);
    if f > 0 {
        lemma_values((f - 1) as nat, st, items, env, st.temps.len() as int, 0, Seq::empty());
    }
}

proof fn lemma_dict_literal(f: nat, st: St, pairs: Seq<PairV>, span: Span, env: ObjId)
    ensures
        steady(st, s_dict_literal(f, st, pairs, span, env).0),
    decreases f,
{
    lemma_keeps_itself(st.heap, st.globals);
    if f > 0 {
        lemma_values((f - 1) as nat, st, pair_exprs(pairs), env, st.temps.len() as int, 0, Seq::empty());
    }
}

proof fn lemma_unary_expr(f: nat, st: St, op: UnaryOp, rhs: ExprV, span: Span, env: ObjId)
    ensures
        steady(st, s_unary_expr(f, st, op, rhs, span, env).0),
    decreases f,
{
    lemma_keeps_itself(st.heap, st.globals);
    if f > 0 {
        lemma_eval((f - 1) as nat, st, rhs, env);
        match s_eval((f - 1) as nat, st, rhs, env) {
            (st1, Err(e)) => {},
            (st1, Ok(v)) => {
                lemma_unary((f - 1) as nat, st1, op, v, span);
            },
        }
    }
}

proof fn lemma_binary_expr(
    f: nat,
    st: St,
    op: BinaryOp,
    lhs: ExprV,
    rhs: ExprV,
    span: Span,
    env: ObjId,
)
    ensures
        steady(st, s_binary_expr(f, st, op, lhs, rhs, span, env).0),
    decreases f,
{
    lemma_keeps_itself(st.heap, st.globals);
    if f > 0 {
        lemma_pair((f - 1) as nat, st, lhs, rhs, env);
        match s_pair((f - 1) as nat, st, lhs, rhs, env) {
            (st1, Err(e)) => {},
            (st1, Ok((a, b))) => {
                lemma_binary(
                    (f - 1) as nat,
                    st1,
                    op,
                    a,
                    b,
                    Spans { lhs: lhs.span, rhs: rhs.span, whole: span },
                );
            },
        }
    }
}

proof fn lemma_logical_expr(f: nat, st: St, op: LogicalOp, lhs: ExprV, rhs: ExprV, env: ObjId)
    ensures
        steady(st, s_logical_expr(f, st, op, lhs, rhs, env).0),
    decreases f,
{
    lemma_keeps_itself(st.heap, st.globals);
    if f > 0 {
        lemma_eval((f - 1) as nat, st, lhs, env);
        match s_eval((f - 1) as nat, st, lhs, env) {
            (st1, Err(e)) => {},
            (st1, Ok(v)) => {
                lemma_is_truthy((f - 1) as nat, st1, v);
                match s_is_truthy((f - 1) as nat, st1, v) {
                    (st2, Err(e)) => {},
                    (st2, Ok(truthy)) => {
                        if !(truthy == (op == LogicalOp::Or)) {
                            lemma_eval((f - 1) as nat, st2, rhs, env);
                        }
                    },
                }
            },
        }
    }
}

proof fn lemma_is_expr(f: nat, st: St, value: ExprV, ty: TypeExprV, env: ObjId)
    ensures
        steady(st, s_is_expr(f, st, value, ty, env).0),
    decreases f,
{
    lemma_keeps_itself(st.heap, st.globals);
    if f > 0 {
        lemma_eval((f - 1) as nat, st, value, env);
    }
}

proof fn lemma_index_expr(f: nat, st: St, target: ExprV, index: ExprV, span: Span, env: ObjId)
    ensures
        steady(st, s_index_expr(f, st, target, index, span, env).0),
    decreases f,
{
    lemma_keeps_itself(st.heap, st.globals);
    if f > 0 {
        lemma_pair((f - 1) as nat, st, target, index, env);
        match s_pair((f - 1) as nat, st, target, index, env) {
            (st1, Err(e)) => {},
            (st1, Ok((t, i))) => {
                if !(t is Class) {
                    lemma_index_get((f - 1) as nat, st1, t, i, span);
                }
            },
        }
    }
}

proof fn lemma_slice_expr(
    f: nat,
    st: St,
    target: ExprV,
    start: Option<Box<ExprV>>,
    end: Option<Box<ExprV>>,
    span: Span,
    env: ObjId,
)
    ensures
        steady(st, s_slice_expr(f, st, target, start, end, span, env).0),
    decreases f,
{
    lemma_keeps_itself(st.heap, st.globals);
    if f > 0 {
        lemma_values(
            (f - 1) as nat,
            st,
            slice_exprs(target, start, end),
            env,
            st.temps.len() as int,
            0,
            Seq::empty(),
        );
        match s_values((f - 1) as nat, st, slice_exprs(target, start, end), env, st.temps.len() as int, 0, Seq::empty()) {
            (st1, Err(e)) => {},
            (st1, Ok(values)) => {
                lemma_slice(
                    st1,
                    crate::interp::native::arg(values, 0),
                    if start is Some { at_index(values, 1) } else { None },
                    if end is Some { at_index(values, if start is Some { 2 } else { 1 }) } else { None },
                    span,
                );
            },
        }
    }
}

proof fn lemma_field_expr(f: nat, st: St, target: ExprV, name: Seq<char>, span: Span, env: ObjId)
    ensures
        steady(st, s_field_expr(f, st, target, name, span, env).0),
    decreases f,
{
    lemma_keeps_itself(st.heap, st.globals);
    if f > 0 {
        lemma_eval((f - 1) as nat, st, target, env);
    }
}

proof fn lemma_super(st: St, span: Span, env: ObjId)
    ensures
        steady(st, s_super(st, span, env).0),
{
    lemma_keeps_itself(st.heap, st.globals);
    lemma_read(st, "super"@, env, span);
    match s_read(st, "super"@, env, span) {
        (st1, Err(e)) => {},
        (st1, Ok(Value::Class(class))) => {
            lemma_read(st1, "self"@, env, span);
        },
        (st1, Ok(_)) => {},
    }
}

proof fn lemma_super_expr(st: St, name: Seq<char>, span: Span, env: ObjId)
    ensures
        steady(st, s_super_expr(st, name, span, env).0),
{
    lemma_keeps_itself(st.heap, st.globals);
    lemma_super(st, span, env);
}

proof fn lemma_method_call(
    f: nat,
    st: St,
    target: ExprV,
    name: Seq<char>,
    callee: Span,
    args: Seq<CallArgV>,
    span: Span,
    env: ObjId,
)
    ensures
        steady(st, s_method_call(f, st, target, name, callee, args, span, env).0),
    decreases f,
{
    lemma_keeps_itself(st.heap, st.globals);
    if f > 0 {
        lemma_eval((f - 1) as nat, st, target, env);
        match s_eval((f - 1) as nat, st, target, env) {
            (st1, Err(e)) => {},
            (st1, Ok(receiver)) => {
                match s_attr(st1, receiver, name, dot_spans(target.span, callee)) {
                    Err(e) => {},
                    Ok(attr) => {
                        lemma_values(
                            (f - 1) as nat,
                            rooted(rooted(st1, receiver), attr.found()),
                            arg_exprs(args),
                            env,
                            st1.temps.len() as int,
                            0,
                            Seq::empty(),
                        );
                        match s_values((f - 1) as nat, rooted(rooted(st1, receiver), attr.found()), arg_exprs(args), env, st1.temps.len() as int, 0, Seq::empty()) {
                            (st2, Err(e)) => {},
                            (st2, Ok(values)) => {
                                lemma_reach_attr((f - 1) as nat, st2, receiver, attr, args, values, span);
                            },
                        }
                    },
                }
            },
        }
    }
}

#[verifier::rlimit(50)]
proof fn lemma_super_call(
    f: nat,
    st: St,
    name: Seq<char>,
    callee: Span,
    args: Seq<CallArgV>,
    span: Span,
    env: ObjId,
)
    ensures
        steady(st, s_super_call(f, st, name, callee, args, span, env).0),
    decreases f,
{
    lemma_keeps_itself(st.heap, st.globals);
    if f > 0 {
        lemma_super(st, callee, env);
        match s_super(st, callee, env) {
            (st1, Err(e)) => {},
            (st1, Ok((class, receiver))) => {
                match s_super_target(st1, class, receiver, name, callee) {
                    Err(e) => {},
                    Ok(target) => {
                        lemma_values(
                            (f - 1) as nat,
                            rooted(rooted(st1, receiver), target.0),
                            arg_exprs(args),
                            env,
                            st1.temps.len() as int,
                            0,
                            Seq::empty(),
                        );
                        match s_values((f - 1) as nat, rooted(rooted(st1, receiver), target.0), arg_exprs(args), env, st1.temps.len() as int, 0, Seq::empty()) {
                            (st2, Err(e)) => {},
                            (st2, Ok(values)) => {
                                match target.1 {
                                    Some((id, b)) => {
                                        lemma_set_payload((f - 1) as nat, st2, id, target.0, b, values, span);
                                    },
                                    None => {
                                        lemma_reach_attr(
                                            (f - 1) as nat,
                                            st2,
                                            receiver,
                                            Attr::Method(target.0),
                                            args,
                                            values,
                                            span,
                                        );
                                    },
                                }
                            },
                        }
                    },
                }
            },
        }
    }
}

proof fn lemma_built_generic(
    f: nat,
    st: St,
    class: ObjId,
    type_args: Seq<ExprV>,
    args: Seq<CallArgV>,
    span: Span,
    env: ObjId,
)
    ensures
        steady(st, s_built_generic(f, st, class, type_args, args, span, env).0),
    decreases f,
{
    lemma_keeps_itself(st.heap, st.globals);
    if f > 0 {
        match s_type_arity(st.heap, class, type_args.len(), span) {
            Err(e) => {},
            Ok(_) => {
                lemma_values((f - 1) as nat, st, type_args, env, st.temps.len() as int, 0, Seq::empty());
                match s_values((f - 1) as nat, st, type_args, env, st.temps.len() as int, 0, Seq::empty()) {
                    (st1, Err(e)) => {},
                    (st1, Ok(values)) => {
                        lemma_build_with((f - 1) as nat, st1, class, values, type_args, args, span, env);
                    },
                }
            },
        }
    }
}

proof fn lemma_build_with(
    f: nat,
    st: St,
    class: ObjId,
    values: Seq<Value>,
    type_args: Seq<ExprV>,
    args: Seq<CallArgV>,
    span: Span,
    env: ObjId,
)
    ensures
        steady(st, s_build_with(f, st, class, values, type_args, args, span, env).0),
    decreases f,
{
    lemma_keeps_itself(st.heap, st.globals);
    let params = type_params(st.heap, class);
    if f > 0 {
        match s_type_arity(st.heap, class, type_args.len(), span) {
            Err(e) => {},
            Ok(_) => {
                match checked_arguments(st, values, type_args, st.heap.class(class).name, params, fixed_params(params), env, 0, Seq::empty()) {
                    Err(e) => {},
                    Ok(bound) => {
                        lemma_call_evaluated(
                            (f - 1) as nat,
                            St { pending: Some(reified(st.heap, class, bound)), ..st },
                            Value::Class(class),
                            args,
                            env,
                            span,
                        );
                        let (st1, r) = s_call_evaluated((f - 1) as nat, St { pending: Some(reified(st.heap, class, bound)), ..st }, Value::Class(class), args, env, span);
                    },
                }
            },
        }
    }
}

proof fn lemma_bracket_call(
    f: nat,
    st: St,
    target: ExprV,
    index: ExprV,
    callee: Span,
    args: Seq<CallArgV>,
    span: Span,
    env: ObjId,
)
    ensures
        steady(st, s_bracket_call(f, st, target, index, callee, args, span, env).0),
    decreases f,
{
    lemma_keeps_itself(st.heap, st.globals);
    if f > 0 {
        lemma_eval((f - 1) as nat, st, target, env);
        match s_eval((f - 1) as nat, st, target, env) {
            (st1, Err(e)) => {},
            (st1, Ok(Value::Class(class))) => {
                lemma_built_generic((f - 1) as nat, st1, class, seq![index], args, span, env);
            },
            (st1, Ok(t)) => {
                lemma_eval((f - 1) as nat, rooted(st1, t), index, env);
                let (st2, r) = s_eval((f - 1) as nat, rooted(st1, t), index, env);
                let st3 = released(st2, st1.temps.len() as int);
                assert(steady(st, st3));
                match r {
                    Err(e) => {},
                    Ok(i) => {
                        lemma_index_get((f - 1) as nat, st3, t, i, callee);
                        match s_index_get((f - 1) as nat, st3, t, i, callee) {
                            (st4, Err(e)) => {},
                            (st4, Ok(v)) => {
                                lemma_call_evaluated((f - 1) as nat, st4, v, args, env, span);
                            },
                        }
                    },
                }
            },
        }
    }
}

proof fn lemma_applied_call(
    f: nat,
    st: St,
    target: ExprV,
    type_args: Seq<ExprV>,
    callee: Span,
    args: Seq<CallArgV>,
    span: Span,
    env: ObjId,
)
    ensures
        steady(st, s_applied_call(f, st, target, type_args, callee, args, span, env).0),
    decreases f,
{
    lemma_keeps_itself(st.heap, st.globals);
    if f > 0 {
        lemma_eval((f - 1) as nat, st, target, env);
        match s_eval((f - 1) as nat, st, target, env) {
            (st1, Err(e)) => {},
            (st1, Ok(Value::Class(class))) => {
                lemma_built_generic((f - 1) as nat, st1, class, type_args, args, span, env);
            },
            (st1, Ok(t)) => {},
        }
    }
}

proof fn lemma_call_expr(f: nat, st: St, callee: ExprV, args: Seq<CallArgV>, span: Span, env: ObjId)
    ensures
        steady(st, s_call_expr(f, st, callee, args, span, env).0),
    decreases f,
{
    lemma_keeps_itself(st.heap, st.globals);
    if f > 0 {
        match callee.kind {
            ExprKindV::Field { target, name } => {
                lemma_method_call((f - 1) as nat, st, *target, name, callee.span, args, span, env);
            },
            ExprKindV::Super { name } => {
                lemma_super_call((f - 1) as nat, st, name, callee.span, args, span, env);
            },
            ExprKindV::Index { target, index } => {
                lemma_bracket_call((f - 1) as nat, st, *target, *index, callee.span, args, span, env);
            },
            ExprKindV::TypeArgs { target, args: type_args } => {
                lemma_applied_call((f - 1) as nat, st, *target, type_args, callee.span, args, span, env);
            },
            _ => {
                lemma_eval((f - 1) as nat, st, callee, env);
                match s_eval((f - 1) as nat, st, callee, env) {
                    (st1, Err(e)) => {},
                    (st1, Ok(v)) => {
                        lemma_call_evaluated((f - 1) as nat, st1, v, args, env, span);
                    },
                }
            },
        }
    }
}

proof fn lemma_applied_expr(f: nat, st: St, target: ExprV, span: Span, env: ObjId)
    ensures
        steady(st, s_applied_expr(f, st, target, span, env).0),
    decreases f,
{
    lemma_keeps_itself(st.heap, st.globals);
    if f > 0 {
        lemma_eval((f - 1) as nat, st, target, env);
    }
}

proof fn lemma_store_var(
    f: nat,
    st: St,
    name: Seq<char>,
    v: Value,
    span: Span,
    w: WrittenV,
    env: ObjId,
)
    ensures
        steady(st, s_store_var(f, st, name, v, span, w, env).0),
    decreases f,
{
    lemma_keeps_itself(st.heap, st.globals);
    match holder(st.heap, env, name, st.heap.cells.len()) {
        None => {},
        Some(scope) => {
            match var_of(st.heap, scope, name) {
                None => {},
                Some(var) => {
                    if !(!var.bind.is_mutable()) {
                        match var.ty {
                            None => {},
                            Some(ty) => {
                                if f > 0 {
                                    lemma_coerced((f - 1) as nat, st, ty, v, "`"@ + name + "`"@, span, w);
                                }
                            },
                        }
                    }
                },
            }
        },
    }
}

proof fn lemma_store_field(st: St, object: Value, name: Seq<char>, v: Value, at: DotSpans)
    ensures
        steady(st, s_store_field(st, object, name, v, at).0),
{
    lemma_keeps_itself(st.heap, st.globals);
}

proof fn lemma_assign_index(
    f: nat,
    st: St,
    target: ExprV,
    index: ExprV,
    v: Value,
    value: Span,
    whole: Span,
    env: ObjId,
)
    ensures
        steady(st, s_assign_index(f, st, target, index, v, value, whole, env).0),
    decreases f,
{
    lemma_keeps_itself(st.heap, st.globals);
    if f > 0 {
        lemma_pair((f - 1) as nat, rooted(st, v), target, index, env);
        let (st1, r) = s_pair((f - 1) as nat, rooted(st, v), target, index, env);
        let st2 = released(st1, st.temps.len() as int);
        match r {
            Err(e) => {},
            Ok((t, i)) => {
                lemma_index_put((f - 1) as nat, st2, t, i, v, PutSpans { index: index.span, value, whole });
            },
        }
    }
}

proof fn lemma_assign_field(
    f: nat,
    st: St,
    target: ExprV,
    name: Seq<char>,
    v: Value,
    whole: Span,
    env: ObjId,
)
    ensures
        steady(st, s_assign_field(f, st, target, name, v, whole, env).0),
    decreases f,
{
    lemma_keeps_itself(st.heap, st.globals);
    if f > 0 {
        lemma_eval((f - 1) as nat, rooted(st, v), target, env);
        let (st1, r) = s_eval((f - 1) as nat, rooted(st, v), target, env);
        let st2 = released(st1, st.temps.len() as int);
        match r {
            Err(e) => {},
            Ok(object) => {
                lemma_store_field(st2, object, name, v, dot_spans(target.span, whole));
            },
        }
    }
}

proof fn lemma_assign(f: nat, st: St, target: ExprV, v: Value, value: ExprV, env: ObjId)
    ensures
        steady(st, s_assign(f, st, target, v, value, env).0),
    decreases f,
{
    lemma_keeps_itself(st.heap, st.globals);
    if f > 0 {
        match target.kind {
            ExprKindV::Var(name) => {
                lemma_store_var((f - 1) as nat, st, name, v, target.span, rebound_by(value), env);
            },
            ExprKindV::Index { target: collection, index } => {
                lemma_assign_index((f - 1) as nat, st, *collection, *index, v, value.span, target.span, env);
            },
            ExprKindV::Field { target: object, name } => {
                lemma_assign_field((f - 1) as nat, st, *object, name, v, target.span, env);
            },
            _ => {},
        }
    }
}

proof fn lemma_assign_expr(f: nat, st: St, target: ExprV, value: ExprV, env: ObjId)
    ensures
        steady(st, s_assign_expr(f, st, target, value, env).0),
    decreases f,
{
    lemma_keeps_itself(st.heap, st.globals);
    if f > 0 {
        lemma_eval((f - 1) as nat, st, value, env);
        match s_eval((f - 1) as nat, st, value, env) {
            (st1, Err(e)) => {},
            (st1, Ok(v)) => {
                lemma_assign((f - 1) as nat, st1, target, v, value, env);
            },
        }
    }
}

proof fn lemma_combined(
    f: nat,
    st: St,
    op: BinaryOp,
    before: Value,
    hold: Seq<Value>,
    target: Span,
    value: ExprV,
    span: Span,
    env: ObjId,
)
    ensures
        steady(st, s_combined(f, st, op, before, hold, target, value, span, env).0),
    decreases f,
{
    lemma_keeps_itself(st.heap, st.globals);
    if f > 0 {
        lemma_eval((f - 1) as nat, held(rooted(st, before), hold), value, env);
        let (st1, r) = s_eval((f - 1) as nat, held(rooted(st, before), hold), value, env);
        match r {
            Err(e) => {},
            Ok(v) => {
                lemma_binary(
                    (f - 1) as nat,
                    st1,
                    op,
                    before,
                    v,
                    Spans { lhs: target, rhs: value.span, whole: span },
                );
                let (st2, made) = s_binary((f - 1) as nat, st1, op, before, v, Spans { lhs: target, rhs: value.span, whole: span });
            },
        }
    }
}

proof fn lemma_op_var(
    f: nat,
    st: St,
    op: BinaryOp,
    name: Seq<char>,
    target: Span,
    value: ExprV,
    span: Span,
    env: ObjId,
)
    ensures
        steady(st, s_op_var(f, st, op, name, target, value, span, env).0),
    decreases f,
{
    lemma_keeps_itself(st.heap, st.globals);
    if f > 0 {
        lemma_read(st, name, env, target);
        match s_read(st, name, env, target) {
            (st1, Err(e)) => {},
            (st1, Ok(before)) => {
                lemma_combined((f - 1) as nat, st1, op, before, Seq::empty(), target, value, span, env);
                match s_combined((f - 1) as nat, st1, op, before, Seq::empty(), target, value, span, env) {
                    (st2, Err(e)) => {},
                    (st2, Ok(v)) => {
                        lemma_store_var((f - 1) as nat, st2, name, v, target, produced_by(span), env);
                    },
                }
            },
        }
    }
}

proof fn lemma_op_index(
    f: nat,
    st: St,
    op: BinaryOp,
    collection: ExprV,
    index: ExprV,
    target: Span,
    value: ExprV,
    span: Span,
    env: ObjId,
)
    ensures
        steady(st, s_op_index(f, st, op, collection, index, target, value, span, env).0),
    decreases f,
{
    lemma_keeps_itself(st.heap, st.globals);
    if f > 0 {
        lemma_pair((f - 1) as nat, st, collection, index, env);
        match s_pair((f - 1) as nat, st, collection, index, env) {
            (st1, Err(e)) => {},
            (st1, Ok((t, i))) => {
                lemma_index_get((f - 1) as nat, st1, t, i, target);
                match s_index_get((f - 1) as nat, st1, t, i, target) {
                    (st2, Err(e)) => {},
                    (st2, Ok(before)) => {
                        lemma_combined((f - 1) as nat, st2, op, before, seq![t, i], target, value, span, env);
                        match s_combined((f - 1) as nat, st2, op, before, seq![t, i], target, value, span, env) {
                            (st3, Err(e)) => {},
                            (st3, Ok(v)) => {
                                lemma_index_put(
                                    (f - 1) as nat,
                                    st3,
                                    t,
                                    i,
                                    v,
                                    PutSpans { index: index.span, value: span, whole: target },
                                );
                            },
                        }
                    },
                }
            },
        }
    }
}

proof fn lemma_op_field(
    f: nat,
    st: St,
    op: BinaryOp,
    object: ExprV,
    name: Seq<char>,
    target: Span,
    value: ExprV,
    span: Span,
    env: ObjId,
)
    ensures
        steady(st, s_op_field(f, st, op, object, name, target, value, span, env).0),
    decreases f,
{
    lemma_keeps_itself(st.heap, st.globals);
    if f > 0 {
        lemma_eval((f - 1) as nat, st, object, env);
        match s_eval((f - 1) as nat, st, object, env) {
            (st1, Err(e)) => {},
            (st1, Ok(o)) => {
                match s_attr(st1, o, name, dot_spans(object.span, target)) {
                    Err(e) => {},
                    Ok(attr) => {
                        lemma_combined(
                            (f - 1) as nat,
                            st1,
                            op,
                            attr.found(),
                            seq![o],
                            target,
                            value,
                            span,
                            env,
                        );
                        match s_combined((f - 1) as nat, st1, op, attr.found(), seq![o], target, value, span, env) {
                            (st2, Err(e)) => {},
                            (st2, Ok(v)) => {
                                lemma_store_field(st2, o, name, v, dot_spans(object.span, target));
                            },
                        }
                    },
                }
            },
        }
    }
}

proof fn lemma_assign_op_expr(
    f: nat,
    st: St,
    op: BinaryOp,
    target: ExprV,
    value: ExprV,
    span: Span,
    env: ObjId,
)
    ensures
        steady(st, s_assign_op_expr(f, st, op, target, value, span, env).0),
    decreases f,
{
    lemma_keeps_itself(st.heap, st.globals);
    if f > 0 {
        match target.kind {
            ExprKindV::Var(name) => {
                lemma_op_var((f - 1) as nat, st, op, name, target.span, value, span, env);
            },
            ExprKindV::Index { target: collection, index } => {
                lemma_op_index((f - 1) as nat, st, op, *collection, *index, target.span, value, span, env);
            },
            ExprKindV::Field { target: object, name } => {
                lemma_op_field((f - 1) as nat, st, op, *object, name, target.span, value, span, env);
            },
            _ => {},
        }
    }
}

proof fn lemma_simple(st: St, e: ExprV, env: ObjId)
    ensures
        steady(st, s_simple(st, e, env).0),
{
    lemma_keeps_itself(st.heap, st.globals);
    match e.kind {
        ExprKindV::Int(n) => {},
        ExprKindV::Float(bits) => {},
        ExprKindV::Str(text) => {},
        ExprKindV::Bool(b) => {},
        ExprKindV::Var(name) => {
            lemma_read(st, name, env, e.span);
        },
        ExprKindV::Super { name } => {
            lemma_super_expr(st, name, e.span, env);
        },
        _ => {},
    }
}

#[verifier::rlimit(50)]
proof fn lemma_eval(f: nat, st: St, e: ExprV, env: ObjId)
    ensures
        steady(st, s_eval(f, st, e, env).0),
    decreases f,
{
    lemma_keeps_itself(st.heap, st.globals);
    if is_simple(e) {
        lemma_simple(st, e, env);
    } else {
        if f > 0 {
            let g = (f - 1) as nat;
            match e.kind {
                ExprKindV::List(items) => {
                    lemma_list_literal(g, st, items, env);
                },
                ExprKindV::Dict(pairs) => {
                    lemma_dict_literal(g, st, pairs, e.span, env);
                },
                ExprKindV::Unary { op, rhs } => {
                    lemma_unary_expr(g, st, op, *rhs, e.span, env);
                },
                ExprKindV::Binary { op, lhs, rhs } => {
                    lemma_binary_expr(g, st, op, *lhs, *rhs, e.span, env);
                },
                ExprKindV::Logical { op, lhs, rhs } => {
                    lemma_logical_expr(g, st, op, *lhs, *rhs, env);
                },
                ExprKindV::Call { callee, args } => {
                    lemma_call_expr(g, st, *callee, args, e.span, env);
                },
                ExprKindV::Index { target, index } => {
                    lemma_index_expr(g, st, *target, *index, e.span, env);
                },
                ExprKindV::TypeArgs { target, args } => {
                    lemma_applied_expr(g, st, *target, e.span, env);
                },
                ExprKindV::Slice { target, start, end } => {
                    lemma_slice_expr(g, st, *target, start, end, e.span, env);
                },
                ExprKindV::Field { target, name } => {
                    lemma_field_expr(g, st, *target, name, e.span, env);
                },
                ExprKindV::Assign { target, value } => {
                    lemma_assign_expr(g, st, *target, *value, env);
                },
                ExprKindV::AssignOp { op, target, value } => {
                    lemma_assign_op_expr(g, st, op, *target, *value, e.span, env);
                },
                ExprKindV::Is { value, ty } => {
                    lemma_is_expr(g, st, *value, ty, env);
                },
                _ => {},
            }
        }
    }
}

proof fn lemma_stmts(f: nat, st: St, stmts: Seq<StmtV>, env: ObjId, i: int)
    ensures
        steady(st, s_stmts(f, st, stmts, env, i).0),
    decreases f,
{
    lemma_keeps_itself(st.heap, st.globals);
    if !(i < 0 || i >= stmts.len()) && f > 0 {
        lemma_exec((f - 1) as nat, st, stmts[i], env);
        match s_exec((f - 1) as nat, st, stmts[i], env) {
            (st1, Ok(Flow::Normal)) => {
                lemma_stmts((f - 1) as nat, st1, stmts, env, i + 1);
            },
            (st1, r) => {},
        }
    }
}

proof fn lemma_scoped(f: nat, st: St, stmts: Seq<StmtV>, scope: ObjId, span: Span)
    ensures
        steady(st, s_scoped(f, st, stmts, scope, span).0),
    decreases f,
{
    lemma_keeps_itself(st.heap, st.globals);
    if f > 0 {
        lemma_stmts((f - 1) as nat, St { scopes: st.scopes.push(scope), ..st }, stmts, scope, 0);
        let (st1, r) = s_stmts((f - 1) as nat, St { scopes: st.scopes.push(scope), ..st }, stmts, scope, 0);
    }
}

proof fn lemma_block(f: nat, st: St, block: BlockV, env: ObjId)
    ensures
        steady(st, s_block(f, st, block, env).0),
    decreases f,
{
    lemma_keeps_itself(st.heap, st.globals);
    if f > 0 {
        lemma_scoped(
            (f - 1) as nat,
            with_new(st, block_scope(Seq::empty(), block.stmts, env)),
            block.stmts,
            st.heap.next_id(),
            block.span,
        );
    }
}

proof fn lemma_block_with(f: nat, st: St, name: Seq<char>, v: Value, block: BlockV, env: ObjId)
    ensures
        steady(st, s_block_with(f, st, name, v, block, env).0),
    decreases f,
{
    lemma_keeps_itself(st.heap, st.globals);
    if f > 0 {
        let scope = st.heap.next_id();
        let st1 = with_new(st, block_scope(seq![name], block.stmts, env));
        lemma_scoped(
            (f - 1) as nat,
            with_heap(st1, declared(st1.heap, scope, name, v, Bind::Let, None)),
            block.stmts,
            scope,
            block.span,
        );
    }
}

proof fn lemma_while(f: nat, st: St, cond: ExprV, body: BlockV, env: ObjId)
    ensures
        steady(st, s_while(f, st, cond, body, env).0),
    decreases f,
{
    lemma_keeps_itself(st.heap, st.globals);
    if f > 0 {
        lemma_eval((f - 1) as nat, st, cond, env);
        match s_eval((f - 1) as nat, st, cond, env) {
            (st1, Err(e)) => {},
            (st1, Ok(v)) => {
                lemma_is_truthy((f - 1) as nat, st1, v);
                match s_is_truthy((f - 1) as nat, st1, v) {
                    (st2, Err(e)) => {},
                    (st2, Ok(false)) => {},
                    (st2, Ok(true)) => {
                        lemma_block((f - 1) as nat, st2, body, env);
                        match s_block((f - 1) as nat, st2, body, env) {
                            (st3, Ok(Flow::Normal)) => {
                                lemma_while((f - 1) as nat, st3, cond, body, env);
                            },
                            (st3, r) => {},
                        }
                    },
                }
            },
        }
    }
}

proof fn lemma_iterate(
    f: nat,
    st: St,
    name: Seq<char>,
    items: Seq<Value>,
    body: BlockV,
    env: ObjId,
    i: int,
)
    ensures
        steady(st, s_iterate(f, st, name, items, body, env, i).0),
    decreases f,
{
    lemma_keeps_itself(st.heap, st.globals);
    if !(i < 0 || i >= items.len()) && f > 0 {
        lemma_block_with((f - 1) as nat, st, name, items[i], body, env);
        match s_block_with((f - 1) as nat, st, name, items[i], body, env) {
            (st1, Ok(Flow::Normal)) => {
                lemma_iterate((f - 1) as nat, st1, name, items, body, env, i + 1);
            },
            (st1, r) => {},
        }
    }
}

proof fn lemma_items(f: nat, st: St, v: Value, span: Span)
    ensures
        steady(st, s_items(f, st, v, span).0),
    decreases f,
{
    lemma_keeps_itself(st.heap, st.globals);
    if f > 0 {
        match slot_of(st.heap, v, Op::Iter) {
            Some(method) => {
                lemma_call_op((f - 1) as nat, st, method, v, Seq::empty());
            },
            None => {},
        }
    }
}

proof fn lemma_for(f: nat, st: St, name: Seq<char>, iter: ExprV, body: BlockV, env: ObjId)
    ensures
        steady(st, s_for(f, st, name, iter, body, env).0),
    decreases f,
{
    lemma_keeps_itself(st.heap, st.globals);
    if f > 0 {
        lemma_eval((f - 1) as nat, st, iter, env);
        match s_eval((f - 1) as nat, st, iter, env) {
            (st1, Err(e)) => {},
            (st1, Ok(v)) => {
                lemma_items((f - 1) as nat, st1, v, iter.span);
                match s_items((f - 1) as nat, st1, v, iter.span) {
                    (st2, Err(e)) => {},
                    (st2, Ok(items)) => {
                        lemma_iterate((f - 1) as nat, held(st2, items), name, items, body, env, 0);
                        let (st3, r) = s_iterate((f - 1) as nat, held(st2, items), name, items, body, env, 0);
                    },
                }
            },
        }
    }
}

proof fn lemma_let(
    f: nat,
    st: St,
    name: Seq<char>,
    name_span: Span,
    ty: Option<TypeExprV>,
    value: Option<ExprV>,
    bind: Bind,
    env: ObjId,
)
    ensures
        steady(st, s_let(f, st, name, name_span, ty, value, bind, env).0),
    decreases f,
{
    lemma_keeps_itself(st.heap, st.globals);
    if f > 0 {
        lemma_initial((f - 1) as nat, st, name, name_span, ty, value, env);
    }
}

proof fn lemma_if(
    f: nat,
    st: St,
    cond: ExprV,
    consequent: BlockV,
    otherwise: Option<Box<StmtV>>,
    env: ObjId,
)
    ensures
        steady(st, s_if(f, st, cond, consequent, otherwise, env).0),
    decreases f,
{
    lemma_keeps_itself(st.heap, st.globals);
    if f > 0 {
        lemma_eval((f - 1) as nat, st, cond, env);
        match s_eval((f - 1) as nat, st, cond, env) {
            (st1, Err(e)) => {},
            (st1, Ok(v)) => {
                lemma_is_truthy((f - 1) as nat, st1, v);
                match s_is_truthy((f - 1) as nat, st1, v) {
                    (st2, Err(e)) => {},
                    (st2, Ok(true)) => {
                        lemma_block((f - 1) as nat, st2, consequent, env);
                    },
                    (st2, Ok(false)) => {
                        match otherwise {
                            Some(s) => {
                                lemma_exec((f - 1) as nat, st2, *s, env);
                            },
                            None => {},
                        }
                    },
                }
            },
        }
    }
}

proof fn lemma_try(
    f: nat,
    st: St,
    body: BlockV,
    binding: Seq<char>,
    handler: BlockV,
    env: ObjId,
)
    ensures
        steady(st, s_try(f, st, body, binding, handler, env).0),
    decreases f,
{
    lemma_keeps_itself(st.heap, st.globals);
    if f > 0 {
        lemma_block((f - 1) as nat, st, body, env);
        match s_block((f - 1) as nat, st, body, env) {
            (st1, Ok(flow)) => {},
            (st1, Err(e)) => {
                if !(e.kind == ErrorKind::Budget) {
                    lemma_reify(st1, e);
                    let (st2, caught) = s_reify(st1, e);
                    lemma_block_with((f - 1) as nat, st2, binding, caught, handler, env);
                }
            },
        }
    }
}

proof fn lemma_throw_stmt(f: nat, st: St, value: ExprV, span: Span, env: ObjId)
    ensures
        steady(st, s_throw_stmt(f, st, value, span, env).0),
    decreases f,
{
    lemma_keeps_itself(st.heap, st.globals);
    if f > 0 {
        lemma_eval((f - 1) as nat, st, value, env);
    }
}

proof fn lemma_return(f: nat, st: St, value: Option<ExprV>, span: Span, env: ObjId)
    ensures
        steady(st, s_return(f, st, value, span, env).0),
    decreases f,
{
    lemma_keeps_itself(st.heap, st.globals);
    if f > 0 {
        match value {
            None => {},
            Some(e) => {
                lemma_eval((f - 1) as nat, st, e, env);
            },
        }
    }
}

proof fn lemma_expr_stmt(f: nat, st: St, e: ExprV, env: ObjId)
    ensures
        steady(st, s_expr_stmt(f, st, e, env).0),
    decreases f,
{
    lemma_keeps_itself(st.heap, st.globals);
    if f > 0 {
        lemma_eval((f - 1) as nat, st, e, env);
    }
}

proof fn lemma_declaration(f: nat, st: St, kind: StmtKindV, span: Span, env: ObjId)
    ensures
        steady(st, s_declaration(f, st, kind, span, env).0),
    decreases f,
{
    lemma_keeps_itself(st.heap, st.globals);
    if f > 0 {
        match kind {
            StmtKindV::Let { name, name_span, ty, value, bind, visibility } => {
                lemma_let((f - 1) as nat, st, name, name_span, ty, value, bind, env);
            },
            StmtKindV::Fn(decl) => {
                lemma_declare_fn(st, *decl, env);
            },
            StmtKindV::Class(decl) => {
                lemma_declare_class(st, *decl, env);
            },
            StmtKindV::Extend { target, target_span, methods } => {
                lemma_extend(st, target, target_span, methods, env);
            },
            StmtKindV::Import { module, module_span, names } => {
                lemma_import((f - 1) as nat, st, module, module_span, names, env);
            },
            _ => {},
        }
    }
}

proof fn lemma_statement(f: nat, st: St, s: StmtV, env: ObjId)
    ensures
        steady(st, s_statement(f, st, s, env).0),
    decreases f,
{
    lemma_keeps_itself(st.heap, st.globals);
    if f > 0 {
        if is_declaration(s.kind) {
            lemma_declaration((f - 1) as nat, st, s.kind, s.span, env);
        } else {
            match s.kind {
                StmtKindV::Expr(e) => {
                    lemma_expr_stmt((f - 1) as nat, st, e, env);
                },
                StmtKindV::If { cond, consequent, otherwise } => {
                    lemma_if((f - 1) as nat, st, cond, consequent, otherwise, env);
                },
                StmtKindV::While { cond, body } => {
                    lemma_while((f - 1) as nat, st, cond, body, env);
                },
                StmtKindV::For { var, iter, body } => {
                    lemma_for((f - 1) as nat, st, var, iter, body, env);
                },
                StmtKindV::Return(value) => {
                    lemma_return((f - 1) as nat, st, value, s.span, env);
                },
                StmtKindV::Try { body, binding, handler } => {
                    lemma_try((f - 1) as nat, st, body, binding, handler, env);
                },
                StmtKindV::Throw(value) => {
                    lemma_throw_stmt((f - 1) as nat, st, value, s.span, env);
                },
                StmtKindV::Block(block) => {
                    lemma_block((f - 1) as nat, st, block, env);
                },
                _ => {},
            }
        }
    }
}

proof fn lemma_exec(f: nat, st: St, s: StmtV, env: ObjId)
    ensures
        steady(st, s_exec(f, st, s, env).0),
    decreases f,
{
    lemma_keeps_itself(st.heap, st.globals);
    if f > 0 {
        lemma_statement((f - 1) as nat, s_collect(st), s, env);
    }
}

proof fn lemma_next(st: St)
    ensures
        steady(st, s_next(st).0),
{
    lemma_keeps_itself(st.heap, st.globals);
}

proof fn lemma_seed(st: St, v: Value, span: Span)
    ensures
        steady(st, s_seed(st, v, span).0),
{
    lemma_keeps_itself(st.heap, st.globals);
}

proof fn lemma_line(st: St)
    ensures
        steady(st, s_line(st).0),
{
    lemma_keeps_itself(st.heap, st.globals);
}

proof fn lemma_asked_file(st: St, native: Native, v: Value, span: Span)
    ensures
        steady(st, s_asked_file(st, native, v, span).0),
{
    lemma_keeps_itself(st.heap, st.globals);
    match text_in(st.heap, v) {
        None => {},
        Some(path) => {
            match file_text(st.files, path) {
                None => {},
                Some(text) => {
                    if !(native == Native::Exists) && native == Native::Lines {
                        lemma_texts(st, rows(text), 0, Seq::empty());
                        let (st1, items) = s_texts(st, rows(text), 0, Seq::empty());
                        let (st2, v) = s_list(st1, items);
                    }
                },
            }
        },
    }
}

proof fn lemma_put_file(st: St, native: Native, v: Value, w: Value, span: Span)
    ensures
        steady(st, s_put_file(st, native, v, w, span).0),
{
    lemma_keeps_itself(st.heap, st.globals);
}

proof fn lemma_library(st: St, native: Native, args: Seq<Value>, span: Span)
    ensures
        steady(st, s_library(st, native, args, span).0),
{
    lemma_keeps_itself(st.heap, st.globals);
    let first = arg(args, 0);
    match native {
        Native::Abs => {},
        Native::Floor => {},
        Native::Next => {
            lemma_next(st);
        },
        Native::Seed => {
            lemma_seed(st, first, span);
        },
        Native::Line => {
            lemma_line(st);
        },
        Native::Append | Native::Write => {
            lemma_put_file(st, native, first, arg(args, 1), span);
        },
        _ => {
            lemma_asked_file(st, native, first, span);
        },
    }
}

proof fn lemma_program(f: nat, st: St, program: Seq<StmtV>, env: ObjId, i: int)
    ensures
        steady(st, s_program(f, st, program, env, i).0),
    decreases f,
{
    lemma_keeps_itself(st.heap, st.globals);
    if !(i < 0 || i >= program.len()) && f > 0 {
        lemma_exec((f - 1) as nat, st, program[i], env);
        match s_exec((f - 1) as nat, st, program[i], env) {
            (st1, Ok(_)) => {
                lemma_program((f - 1) as nat, st1, program, env, i + 1);
            },
            (st1, Err(e)) => {},
        }
    }
}

proof fn lemma_run_module(f: nat, st: St, name: Seq<char>, path: Seq<char>, text: Seq<char>)
    ensures
        steady(st, s_run_module(f, st, name, path, text).0),
    decreases f,
{
    lemma_keeps_itself(st.heap, st.globals);
    match compiled(text) {
        Err(e) => {},
        Ok(program) => {
            if f > 0 {
                let scope = st.heap.next_id();
                lemma_program((f - 1) as nat, loading(st, name, path, program), program, scope, 0);
                let (st1, r) = s_program((f - 1) as nat, loading(st, name, path, program), program, scope, 0);
                let st2 = St { loading: popped(st1.loading), ..st1 };
            }
        },
    }
}

proof fn lemma_load_shipped(st: St, name: Seq<char>)
    ensures
        steady(st, s_load_shipped(st, name).0),
{
    lemma_keeps_itself(st.heap, st.globals);
}

proof fn lemma_load_module(f: nat, st: St, name: Seq<char>, span: Span, env: ObjId)
    ensures
        steady(st, s_load_module(f, st, name, span, env).0),
    decreases f,
{
    lemma_keeps_itself(st.heap, st.globals);
    if is_shipped(name) {
        lemma_load_shipped(st, name);
        let (st1, id) = s_load_shipped(st, name);
    } else {
        match s_resolve_import(st, name, env, span) {
            Err(e) => {},
            Ok(i) => {
                match loaded_place(st.loaded, st.files[i].path, 0) {
                    Some(at) => {},
                    None => {
                        if f > 0 {
                            lemma_run_module((f - 1) as nat, st, name, st.files[i].path, st.files[i].text);
                        }
                    },
                }
            },
        }
    }
}

proof fn lemma_bind_import(
    st: St,
    module: Seq<char>,
    id: ObjId,
    names: Option<Seq<ImportNameV>>,
    env: ObjId,
)
    ensures
        steady(st, s_bind_import(st, module, id, names, env).0),
{
    lemma_keeps_itself(st.heap, st.globals);
}

proof fn lemma_import(
    f: nat,
    st: St,
    module: Seq<char>,
    span: Span,
    names: Option<Seq<ImportNameV>>,
    env: ObjId,
)
    ensures
        steady(st, s_import(f, st, module, span, names, env).0),
    decreases f,
{
    lemma_keeps_itself(st.heap, st.globals);
    if f > 0 {
        lemma_load_module((f - 1) as nat, st, module, span, env);
        match s_load_module((f - 1) as nat, st, module, span, env) {
            (st1, Err(e)) => {},
            (st1, Ok(id)) => {
                lemma_bind_import(st1, module, id, names, env);
            },
        }
    }
}

proof fn lemma_type(st: St, v: Value)
    ensures
        steady(st, s_type(st, v).0),
{
    lemma_keeps_itself(st.heap, st.globals);
}

proof fn lemma_char_texts(st: St, text: Seq<char>, i: int, so_far: Seq<Value>)
    ensures
        steady(st, s_char_texts(st, text, i, so_far).0),
    decreases text.len() - i,
{
    lemma_keeps_itself(st.heap, st.globals);
    if !(i < 0 || i >= text.len()) {
        let (st1, v) = s_text(st, seq![text[i]]);
        lemma_char_texts(st1, text, i + 1, so_far.push(v));
    }
}

proof fn lemma_to_list(st: St, args: Seq<Value>, span: Span)
    ensures
        steady(st, s_to_list(st, args, span).0),
{
    lemma_keeps_itself(st.heap, st.globals);
    if !(args.len() == 0) && !(args.len() > 1) {
        match base(st.heap, args[0]) {
            Value::List(id) => {},
            Value::Tuple(id) => {},
            Value::Dict(id) => {},
            Value::Str(id) => {
                lemma_char_texts(st, st.heap.text(id), 0, Seq::empty());
                let (st1, items) = s_char_texts(st, st.heap.text(id), 0, Seq::empty());
                let (st2, v) = s_list(st1, items);
            },
            _ => {},
        }
    }
}

proof fn lemma_to_dict(st: St, args: Seq<Value>, span: Span)
    ensures
        steady(st, s_to_dict(st, args, span).0),
{
    lemma_keeps_itself(st.heap, st.globals);
}

proof fn lemma_push(st: St, target: Value, item: Value, span: Span)
    ensures
        steady(st, s_push(st, target, item, span).0),
{
    lemma_keeps_itself(st.heap, st.globals);
}

proof fn lemma_pop(st: St, target: Value, span: Span)
    ensures
        steady(st, s_pop(st, target, span).0),
{
    lemma_keeps_itself(st.heap, st.globals);
}

proof fn lemma_keys(st: St, target: Value, span: Span)
    ensures
        steady(st, s_keys(st, target, span).0),
{
    lemma_keeps_itself(st.heap, st.globals);
}

proof fn lemma_values_of(st: St, target: Value, span: Span)
    ensures
        steady(st, s_values_of(st, target, span).0),
{
    lemma_keeps_itself(st.heap, st.globals);
}

proof fn lemma_remove(st: St, target: Value, key: Value, span: Span)
    ensures
        steady(st, s_remove(st, target, key, span).0),
{
    lemma_keeps_itself(st.heap, st.globals);
}

proof fn lemma_cased(st: St, native: Native, target: Value, span: Span)
    ensures
        steady(st, s_cased(st, native, target, span).0),
{
    lemma_keeps_itself(st.heap, st.globals);
}

proof fn lemma_texts(st: St, texts: Seq<Seq<char>>, i: int, so_far: Seq<Value>)
    ensures
        steady(st, s_texts(st, texts, i, so_far).0),
    decreases texts.len() - i,
{
    lemma_keeps_itself(st.heap, st.globals);
    if !(i < 0 || i >= texts.len()) {
        let (st1, v) = s_text(st, texts[i]);
        lemma_texts(st1, texts, i + 1, so_far.push(v));
    }
}

proof fn lemma_split(st: St, target: Value, sep: Value, span: Span)
    ensures
        steady(st, s_split(st, target, sep, span).0),
{
    lemma_keeps_itself(st.heap, st.globals);
    match (base(st.heap, target), base(st.heap, sep)) {
        (Value::Str(id), Value::Str(by)) => {
            if !(st.heap.text(by).len() == 0) {
                lemma_texts(st, pieces(st.heap.text(id), st.heap.text(by), 0), 0, Seq::empty());
                let (st1, items) = s_texts(st, pieces(st.heap.text(id), st.heap.text(by), 0), 0, Seq::empty());
                let (st2, v) = s_list(st1, items);
            }
        },
        (Value::Str(_), _) => {},
        _ => {},
    }
}

proof fn lemma_join(st: St, target: Value, list: Value, span: Span)
    ensures
        steady(st, s_join(st, target, list, span).0),
{
    lemma_keeps_itself(st.heap, st.globals);
}

#[verifier::rlimit(50)]
proof fn lemma_plain_native(st: St, native: Native, args: Seq<Value>, span: Span)
    ensures
        steady(st, s_plain_native(st, native, args, span).0),
{
    lemma_keeps_itself(st.heap, st.globals);
    let first = arg(args, 0);
    let second = arg(args, 1);
    match native {
        Native::Len => {},
        Native::Type => {
            lemma_type(st, first);
        },
        Native::ToInt => {},
        Native::ToFloat => {},
        Native::ToList => {
            lemma_to_list(st, args, span);
        },
        Native::ToDict => {
            lemma_to_dict(st, args, span);
        },
        Native::Push => {
            lemma_push(st, first, second, span);
        },
        Native::Pop => {
            lemma_pop(st, first, span);
        },
        Native::Keys => {
            lemma_keys(st, first, span);
        },
        Native::Values => {
            lemma_values_of(st, first, span);
        },
        Native::Remove => {
            lemma_remove(st, first, second, span);
        },
        Native::Split => {
            lemma_split(st, first, second, span);
        },
        Native::Join => {
            lemma_join(st, first, second, span);
        },
        Native::Abs | Native::Floor | Native::Append | Native::Exists | Native::Line | Native::Lines | Native::Read | Native::Write | Native::Next | Native::Seed => {
            lemma_library(st, native, args, span);
        },
        _ => {
            lemma_cased(st, native, first, span);
        },
    }
}

proof fn lemma_text_op(
    st: St,
    op: BinaryOp,
    x: Seq<char>,
    y: Seq<char>,
    lhs: Value,
    rhs: Value,
    spans: Spans,
)
    ensures
        steady(st, s_text_op(st, op, x, y, lhs, rhs, spans).0),
{
    lemma_keeps_itself(st.heap, st.globals);
}

proof fn lemma_plain_binary(st: St, op: BinaryOp, lhs: Value, rhs: Value, spans: Spans)
    ensures
        steady(st, s_plain_binary(st, op, lhs, rhs, spans).0),
{
    lemma_keeps_itself(st.heap, st.globals);
    let a = base(st.heap, lhs);
    let b = base(st.heap, rhs);
    match (a, b) {
        (Value::Str(x), Value::Str(y)) => {
            lemma_text_op(st, op, st.heap.text(x), st.heap.text(y), lhs, rhs, spans);
        },
        (Value::List(x), Value::List(y)) => {},
        (Value::Int(x), Value::Int(y)) => {},
        _ => {},
    }
}

proof fn lemma_call_op(f: nat, st: St, method: Value, receiver: Value, args: Seq<Value>)
    ensures
        steady(st, s_call_op(f, st, method, receiver, args).0),
    decreases f,
{
    lemma_keeps_itself(st.heap, st.globals);
    if f > 0 {
        lemma_call_method(
            (f - 1) as nat,
            held(rooted(st, receiver), args),
            receiver,
            method,
            args,
            op_body(st.heap, method),
        );
        let (st1, r) = s_call_method((f - 1) as nat, held(rooted(st, receiver), args), receiver, method, args, op_body(st.heap, method));
    }
}

proof fn lemma_bool_op(f: nat, st: St, op: Op, method: Value, receiver: Value, args: Seq<Value>)
    ensures
        steady(st, s_bool_op(f, st, op, method, receiver, args).0),
    decreases f,
{
    lemma_keeps_itself(st.heap, st.globals);
    if f > 0 {
        lemma_call_op((f - 1) as nat, st, method, receiver, args);
    }
}

proof fn lemma_is_truthy(f: nat, st: St, v: Value)
    ensures
        steady(st, s_is_truthy(f, st, v).0),
    decreases f,
{
    lemma_keeps_itself(st.heap, st.globals);
    match slot_of(st.heap, v, Op::Bool) {
        None => {},
        Some(method) => {
            if f > 0 {
                lemma_bool_op((f - 1) as nat, st, Op::Bool, method, v, Seq::empty());
            }
        },
    }
}

proof fn lemma_equals(f: nat, st: St, lhs: Value, rhs: Value)
    ensures
        steady(st, s_equals(f, st, lhs, rhs).0),
    decreases f,
{
    lemma_keeps_itself(st.heap, st.globals);
    if f > 0 {
        match asked(st.heap, Op::Eq, lhs, rhs) {
            Some(found) => {
                lemma_bool_op((f - 1) as nat, st, Op::Eq, found.method, found.receiver, seq![found.other]);
            },
            None => {
                lemma_base_equals((f - 1) as nat, st, base(st.heap, lhs), base(st.heap, rhs));
            },
        }
    }
}

proof fn lemma_base_equals(f: nat, st: St, a: Value, b: Value)
    ensures
        steady(st, s_base_equals(f, st, a, b).0),
    decreases f,
{
    lemma_keeps_itself(st.heap, st.globals);
    if f > 0 {
        match (a, b) {
            (Value::List(x), Value::List(y)) => {
                if !(x == y) && !(st.heap.list(x).len() != st.heap.list(y).len()) {
                    lemma_items_equal((f - 1) as nat, st, a, b, 0);
                }
            },
            (Value::Tuple(x), Value::Tuple(y)) => {
                if !(x == y) && !(st.heap.tuple(x).len() != st.heap.tuple(y).len()) {
                    lemma_items_equal((f - 1) as nat, st, a, b, 0);
                }
            },
            (Value::Dict(x), Value::Dict(y)) => {
                if !(x == y) && !(st.heap.dict(x).len() != st.heap.dict(y).len()) {
                    lemma_entries_equal((f - 1) as nat, st, x, y, keys_of(st.heap.dict(x)), 0);
                }
            },
            _ => {},
        }
    }
}

proof fn lemma_items_equal(f: nat, st: St, a: Value, b: Value, i: int)
    ensures
        steady(st, s_items_equal(f, st, a, b, i).0),
    decreases f,
{
    lemma_keeps_itself(st.heap, st.globals);
    match (at_index(items_of(st.heap, a), i), at_index(items_of(st.heap, b), i)) {
        (Some(x), Some(y)) => {
            if f > 0 {
                lemma_equals((f - 1) as nat, st, x, y);
                match s_equals((f - 1) as nat, st, x, y) {
                    (st1, Ok(true)) => {
                        lemma_items_equal((f - 1) as nat, st1, a, b, i + 1);
                    },
                    (st1, r) => {},
                }
            }
        },
        _ => {},
    }
}

proof fn lemma_entries_equal(f: nat, st: St, a: ObjId, b: ObjId, keys: Seq<Value>, i: int)
    ensures
        steady(st, s_entries_equal(f, st, a, b, keys, i).0),
    decreases f,
{
    lemma_keeps_itself(st.heap, st.globals);
    match at_index(keys, i) {
        None => {},
        Some(key) => {
            match (dict_get(st.heap, st.heap.dict(a), key), dict_get(st.heap, st.heap.dict(b), key)) {
                (Some(x), Some(y)) => {
                    if f > 0 {
                        lemma_equals((f - 1) as nat, st, x, y);
                        match s_equals((f - 1) as nat, st, x, y) {
                            (st1, Ok(true)) => {
                                lemma_entries_equal((f - 1) as nat, st1, a, b, keys, i + 1);
                            },
                            (st1, r) => {},
                        }
                    }
                },
                _ => {},
            }
        },
    }
}

proof fn lemma_unary(f: nat, st: St, op: UnaryOp, v: Value, span: Span)
    ensures
        steady(st, s_unary(f, st, op, v, span).0),
    decreases f,
{
    lemma_keeps_itself(st.heap, st.globals);
    if f > 0 {
        if op == UnaryOp::Not {
            lemma_is_truthy((f - 1) as nat, st, v);
        } else {
            match slot_of(st.heap, v, unary_slot(op)) {
                Some(method) => {
                    lemma_call_op((f - 1) as nat, st, method, v, Seq::empty());
                },
                None => {},
            }
        }
    }
}

proof fn lemma_asked_compare(
    f: nat,
    st: St,
    op: BinaryOp,
    slot: Op,
    found: Asked,
    lhs: Value,
    rhs: Value,
    spans: Spans,
)
    ensures
        steady(st, s_asked_compare(f, st, op, slot, found, lhs, rhs, spans).0),
    decreases f,
{
    lemma_keeps_itself(st.heap, st.globals);
    if f > 0 {
        match binary_op_for(st.heap, op, slot, found, lhs, rhs, spans) {
            Err(e) => {},
            Ok(method) => {
                lemma_bool_op((f - 1) as nat, st, slot, method, found.receiver, seq![found.other]);
            },
        }
    }
}

proof fn lemma_asked_order(
    f: nat,
    st: St,
    op: BinaryOp,
    found: Asked,
    lhs: Value,
    rhs: Value,
    spans: Spans,
)
    ensures
        steady(st, s_asked_order(f, st, op, found, lhs, rhs, spans).0),
    decreases f,
{
    lemma_keeps_itself(st.heap, st.globals);
    if f > 0 {
        match binary_op_for(st.heap, op, Op::Cmp, found, lhs, rhs, spans) {
            Err(e) => {},
            Ok(method) => {
                lemma_call_op((f - 1) as nat, st, method, found.receiver, seq![found.other]);
            },
        }
    }
}

proof fn lemma_unasked_compare(st: St, op: BinaryOp, lhs: Value, rhs: Value, spans: Spans)
    ensures
        steady(st, s_unasked_compare(st, op, lhs, rhs, spans).0),
{
    lemma_keeps_itself(st.heap, st.globals);
}

proof fn lemma_compare(f: nat, st: St, op: BinaryOp, lhs: Value, rhs: Value, spans: Spans)
    ensures
        steady(st, s_compare(f, st, op, lhs, rhs, spans).0),
    decreases f,
{
    lemma_keeps_itself(st.heap, st.globals);
    if f > 0 && !(!is_ordering(op)) {
        if specific_for(op) is Some && asked(st.heap, specific_for(op)->0, lhs, rhs) is Some {
            lemma_asked_compare(
                (f - 1) as nat,
                st,
                op,
                specific_for(op)->0,
                asked(st.heap, specific_for(op)->0, lhs, rhs)->0,
                lhs,
                rhs,
                spans,
            );
        } else {
            match asked(st.heap, Op::Cmp, lhs, rhs) {
                Some(found) => {
                    lemma_asked_order((f - 1) as nat, st, op, found, lhs, rhs, spans);
                },
                None => {
                    lemma_unasked_compare(st, op, lhs, rhs, spans);
                },
            }
        }
    }
}

proof fn lemma_arith(f: nat, st: St, op: BinaryOp, lhs: Value, rhs: Value, spans: Spans)
    ensures
        steady(st, s_arith(f, st, op, lhs, rhs, spans).0),
    decreases f,
{
    lemma_keeps_itself(st.heap, st.globals);
    if f > 0 {
        match slot_for(op) {
            None => {},
            Some(slot) => {
                match asked(st.heap, slot, lhs, rhs) {
                    None => {},
                    Some(found) => {
                        match binary_op_for(st.heap, op, slot, found, lhs, rhs, spans) {
                            Err(e) => {},
                            Ok(method) => {
                                lemma_call_op((f - 1) as nat, st, method, found.receiver, seq![found.other]);
                            },
                        }
                    },
                }
            },
        }
    }
}

proof fn lemma_computed(f: nat, st: St, op: BinaryOp, lhs: Value, rhs: Value, spans: Spans)
    ensures
        steady(st, s_computed(f, st, op, lhs, rhs, spans).0),
    decreases f,
{
    lemma_keeps_itself(st.heap, st.globals);
    if f > 0 {
        lemma_compare((f - 1) as nat, st, op, lhs, rhs, spans);
        match s_compare((f - 1) as nat, st, op, lhs, rhs, spans) {
            (st1, Err(e)) => {},
            (st1, Ok(Some(v))) => {},
            (st1, Ok(None)) => {
                lemma_arith((f - 1) as nat, st1, op, lhs, rhs, spans);
                match s_arith((f - 1) as nat, st1, op, lhs, rhs, spans) {
                    (st2, Err(e)) => {},
                    (st2, Ok(Some(v))) => {},
                    (st2, Ok(None)) => {
                        lemma_plain_binary(st2, op, lhs, rhs, spans);
                    },
                }
            },
        }
    }
}

proof fn lemma_binary(f: nat, st: St, op: BinaryOp, lhs: Value, rhs: Value, spans: Spans)
    ensures
        steady(st, s_binary(f, st, op, lhs, rhs, spans).0),
    decreases f,
{
    lemma_keeps_itself(st.heap, st.globals);
    if f > 0 {
        if op == BinaryOp::Eq || op == BinaryOp::Ne {
            lemma_equals((f - 1) as nat, st, lhs, rhs);
        } else {
            if op == BinaryOp::In {
                lemma_contains((f - 1) as nat, st, rhs, lhs, spans.whole);
            } else {
                lemma_computed((f - 1) as nat, st, op, lhs, rhs, spans);
            }
        }
    }
}

proof fn lemma_search(f: nat, st: St, base: Value, needle: Value, i: int)
    ensures
        steady(st, s_search(f, st, base, needle, i).0),
    decreases f,
{
    lemma_keeps_itself(st.heap, st.globals);
    match at_index(items_of(st.heap, base), i) {
        None => {},
        Some(item) => {
            if f > 0 {
                lemma_equals((f - 1) as nat, st, item, needle);
                match s_equals((f - 1) as nat, st, item, needle) {
                    (st1, Ok(false)) => {
                        lemma_search((f - 1) as nat, st1, base, needle, i + 1);
                    },
                    (st1, r) => {},
                }
            }
        },
    }
}

proof fn lemma_base_contains(f: nat, st: St, haystack: Value, needle: Value, span: Span)
    ensures
        steady(st, s_base_contains(f, st, haystack, needle, span).0),
    decreases f,
{
    lemma_keeps_itself(st.heap, st.globals);
    let held = base(st.heap, haystack);
    if f > 0 {
        if held is List || held is Tuple {
            lemma_search((f - 1) as nat, st, held, needle, 0);
        }
    }
}

proof fn lemma_contains(f: nat, st: St, haystack: Value, needle: Value, span: Span)
    ensures
        steady(st, s_contains(f, st, haystack, needle, span).0),
    decreases f,
{
    lemma_keeps_itself(st.heap, st.globals);
    if f > 0 {
        match slot_of(st.heap, haystack, Op::Contains) {
            Some(method) => {
                match op_for(st.heap, Op::Contains, method, haystack, seq![needle], span) {
                    Ok(chosen) => {
                        lemma_bool_op((f - 1) as nat, st, Op::Contains, chosen, haystack, seq![needle]);
                    },
                    Err(e) => {},
                }
            },
            None => {
                lemma_base_contains((f - 1) as nat, st, haystack, needle, span);
            },
        }
        let (st1, r) = match slot_of(st.heap, haystack, Op::Contains) { Some(method) => match op_for(st.heap, Op::Contains, method, haystack, seq![needle], span) { Ok(chosen) => s_bool_op((f - 1) as nat, st, Op::Contains, chosen, haystack, seq![needle]), Err(e) => (st, Err(e)) }, None => s_base_contains((f - 1) as nat, st, haystack, needle, span) };
    }
}

proof fn lemma_plain_index(st: St, target: Value, index: Value, span: Span)
    ensures
        steady(st, s_plain_index(st, target, index, span).0),
{
    lemma_keeps_itself(st.heap, st.globals);
}

proof fn lemma_index_get(f: nat, st: St, target: Value, index: Value, span: Span)
    ensures
        steady(st, s_index_get(f, st, target, index, span).0),
    decreases f,
{
    lemma_keeps_itself(st.heap, st.globals);
    if f > 0 {
        match slot_of(st.heap, target, Op::Get) {
            Some(method) => {
                match op_for(st.heap, Op::Get, method, target, seq![index], span) {
                    Ok(chosen) => {
                        lemma_call_op((f - 1) as nat, st, chosen, target, seq![index]);
                    },
                    Err(e) => {},
                }
            },
            None => {
                lemma_plain_index(st, target, index, span);
            },
        }
    }
}

proof fn lemma_slice(st: St, target: Value, start: Option<Value>, end: Option<Value>, span: Span)
    ensures
        steady(st, s_slice(st, target, start, end, span).0),
{
    lemma_keeps_itself(st.heap, st.globals);
}

proof fn lemma_put_entry(st: St, id: ObjId, target: Value, index: Value, v: Value, at: PutSpans)
    ensures
        steady(st, s_put_entry(st, id, target, index, v, at).0),
{
    lemma_keeps_itself(st.heap, st.globals);
}

proof fn lemma_put_item(st: St, target: Value, index: Value, v: Value, at: PutSpans)
    ensures
        steady(st, s_put_item(st, target, index, v, at).0),
{
    lemma_keeps_itself(st.heap, st.globals);
}

proof fn lemma_index_put(f: nat, st: St, target: Value, index: Value, v: Value, at: PutSpans)
    ensures
        steady(st, s_index_put(f, st, target, index, v, at).0),
    decreases f,
{
    lemma_keeps_itself(st.heap, st.globals);
    if f > 0 {
        match slot_of(st.heap, target, Op::Put) {
            Some(method) => {
                if !(is_frozen(st.heap, target)) {
                    match op_for(st.heap, Op::Put, method, target, seq![index, v], at.whole) {
                        Err(e) => {},
                        Ok(chosen) => {
                            lemma_call_op((f - 1) as nat, st, chosen, target, seq![index, v]);
                        },
                    }
                }
            },
            None => {
                match base(st.heap, target) {
                    Value::Dict(id) => {
                        lemma_put_entry(st, id, target, index, v, at);
                    },
                    _ => {
                        lemma_put_item(st, target, index, v, at);
                    },
                }
            },
        }
    }
}

proof fn lemma_constant(st: St, c: ConstArgV)
    ensures
        steady(st, s_constant(st, c).0),
{
    lemma_keeps_itself(st.heap, st.globals);
}

proof fn lemma_string_op(f: nat, st: St, method: Value, v: Value)
    ensures
        steady(st, s_string_op(f, st, method, v).0),
    decreases f,
{
    lemma_keeps_itself(st.heap, st.globals);
    if f > 0 {
        lemma_call_op((f - 1) as nat, st, method, v, Seq::empty());
    }
}

proof fn lemma_item_texts(
    f: nat,
    st: St,
    held: Value,
    color: bool,
    ask: Ask,
    i: int,
    so_far: Seq<Seq<char>>,
)
    ensures
        steady(st, s_item_texts(f, st, held, color, ask, i, so_far).0),
    decreases f,
{
    lemma_keeps_itself(st.heap, st.globals);
    match at_index(items_of(st.heap, held), i) {
        None => {},
        Some(item) => {
            if f > 0 {
                lemma_repr((f - 1) as nat, st, item, color, ask);
                match s_repr((f - 1) as nat, st, item, color, ask) {
                    (st1, Err(e)) => {},
                    (st1, Ok(text)) => {
                        lemma_item_texts((f - 1) as nat, st1, held, color, ask, i + 1, so_far.push(text));
                    },
                }
            }
        },
    }
}

proof fn lemma_entry_texts(
    f: nat,
    st: St,
    entries: Seq<Entry>,
    color: bool,
    ask: Ask,
    i: int,
    so_far: Seq<Seq<char>>,
)
    ensures
        steady(st, s_entry_texts(f, st, entries, color, ask, i, so_far).0),
    decreases f,
{
    lemma_keeps_itself(st.heap, st.globals);
    if !(i < 0 || i >= entries.len()) && f > 0 {
        lemma_repr((f - 1) as nat, st, entries[i].key, color, ask);
        match s_repr((f - 1) as nat, st, entries[i].key, color, ask) {
            (st1, Err(e)) => {},
            (st1, Ok(key)) => {
                lemma_repr((f - 1) as nat, st1, entries[i].value, color, ask);
                match s_repr((f - 1) as nat, st1, entries[i].value, color, ask) {
                    (st2, Err(e)) => {},
                    (st2, Ok(value)) => {
                        lemma_entry_texts(
                            (f - 1) as nat,
                            st2,
                            entries,
                            color,
                            ask,
                            i + 1,
                            so_far.push(key + ": "@ + value),
                        );
                    },
                }
            },
        }
    }
}

proof fn lemma_base_text(f: nat, st: St, v: Value, color: bool, ask: Ask)
    ensures
        steady(st, s_base_text(f, st, v, color, ask).0),
    decreases f,
{
    lemma_keeps_itself(st.heap, st.globals);
    let held = base(st.heap, v);
    if f > 0 {
        match held {
            Value::List(_) => {
                lemma_item_texts((f - 1) as nat, st, held, color, ask, 0, Seq::empty());
            },
            Value::Tuple(_) => {
                lemma_item_texts((f - 1) as nat, st, held, color, ask, 0, Seq::empty());
            },
            Value::Dict(id) => {
                lemma_entry_texts((f - 1) as nat, st, st.heap.dict(id), color, ask, 0, Seq::empty());
            },
            _ => {},
        }
    }
}

proof fn lemma_display(f: nat, st: St, v: Value, color: bool, ask: Ask)
    ensures
        steady(st, s_display(f, st, v, color, ask).0),
    decreases f,
{
    lemma_keeps_itself(st.heap, st.globals);
    if f > 0 {
        match string_op(st.heap, v, ask) {
            Some(method) => {
                lemma_string_op((f - 1) as nat, st, method, v);
            },
            None => {
                lemma_base_text((f - 1) as nat, st, v, color, ask);
            },
        }
    }
}

proof fn lemma_repr(f: nat, st: St, v: Value, color: bool, ask: Ask)
    ensures
        steady(st, s_repr(f, st, v, color, ask).0),
    decreases f,
{
    lemma_keeps_itself(st.heap, st.globals);
    if f > 0 {
        match base(st.heap, v) {
            Value::Str(id) => {
                if !(string_op(st.heap, v, ask) is None) {
                    lemma_display((f - 1) as nat, st, v, color, ask);
                }
            },
            _ => {
                lemma_display((f - 1) as nat, st, v, color, ask);
            },
        }
    }
}

// -- laws ----------------------------------------------------------------------------------

/// Whatever an expression does, and however it fails, what was held is held again.
pub proof fn law_an_expression_leaves_what_is_held(f: nat, st: St, e: ExprV, env: ObjId)
    ensures
        steady(st, s_eval(f, st, e, env).0),
{
    lemma_eval(f, st, e, env);
}

/// Whatever a statement does, and however it fails, what was held is held again.
pub proof fn law_a_statement_leaves_what_is_held(f: nat, st: St, s: StmtV, env: ObjId)
    ensures
        steady(st, s_exec(f, st, s, env).0),
{
    lemma_exec(f, st, s, env);
}

/// Whatever a call does, and however it fails, what was held is held again.
pub proof fn law_a_call_leaves_what_is_held(f: nat, st: St, target: Value, args: Seq<Value>, span: Span)
    ensures
        steady(st, s_call(f, st, target, args, span).0),
{
    lemma_call(f, st, target, args, span);
}

/// Whatever a program does, and however it fails, what was held is held again.
pub proof fn law_a_program_leaves_what_is_held(f: nat, st: St, program: Seq<StmtV>, env: ObjId)
    ensures
        steady(st, s_program(f, st, program, env, 0).0),
{
    lemma_program(f, st, program, env, 0);
}

/// Whatever an entry at a prompt does, and however it fails, what was held is held again.
pub proof fn law_an_entry_leaves_what_is_held(f: nat, st: St, program: Seq<StmtV>, env: ObjId)
    ensures
        steady(st, s_entry(f, st, program, env, st.temps.len() as int, 0, None).0),
{
    lemma_entry(f, st, program, env, st.temps.len() as int, 0, None);
}

/// However a program runs, and however it fails, the heap it runs on stays sound, as long as it
/// has no more places than a machine can count.
pub proof fn law_running_keeps_the_heap_sound(f: nat, st: St, program: Seq<StmtV>, env: ObjId)
    requires
        sound(st.heap, st.globals),
        s_program(f, st, program, env, 0).0.heap.cells.len() <= usize::MAX,
    ensures
        sound(s_program(f, st, program, env, 0).0.heap, st.globals),
        s_program(f, st, program, env, 0).0.globals == st.globals,
{
    lemma_program(f, st, program, env, 0);
    reveal(keeps);
}

/// However an entry at a prompt runs, and however it fails, the heap stays sound.
pub proof fn law_an_entry_keeps_the_heap_sound(f: nat, st: St, program: Seq<StmtV>, env: ObjId)
    requires
        sound(st.heap, st.globals),
        s_entry(f, st, program, env, st.temps.len() as int, 0, None).0.heap.cells.len() <= usize::MAX,
    ensures
        sound(
            s_entry(f, st, program, env, st.temps.len() as int, 0, None).0.heap,
            st.globals,
        ),
        s_entry(f, st, program, env, st.temps.len() as int, 0, None).0.globals == st.globals,
{
    lemma_entry(f, st, program, env, st.temps.len() as int, 0, None);
    reveal(keeps);
}

} // verus!
