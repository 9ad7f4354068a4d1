//! What literals, method calls, conversions, type arguments, extensions and the modules that the
//! language ships are for.

use crate::compiled;
use crate::error::{ErrV, ErrorKind};
use crate::interp::api::{drawn, next_seed, s_less_than, s_prompted};
use crate::interp::call::{
    s_arranged, s_call, s_call_method, s_call_native, s_construct_builtin, s_new_instance,
    s_reach_attr, s_set_payload,
};
use crate::interp::declare::{
    extension_place, s_add_extension, s_declare_class, s_declare_fn, s_extend, s_may_extend_all,
    s_read,
};
use crate::interp::dict::{
    dict_get, dict_put, law_a_dict_gives_back_what_was_put, law_putting_leaves_the_other_keys,
    s_key_of, same_key,
};
use crate::interp::dispatch::{shape_for_method, ShapeV};
use crate::interp::error::Spans;
use crate::interp::eval::{
    arg_exprs, dot_spans, entries_from, s_bound, s_combined, s_eval, s_method_call, s_op_index,
    s_pair, s_super, s_super_expr, s_values,
};
use crate::interp::exec::{s_declaration, s_exec, s_statement, Flow};
use crate::interp::files::{loaded_place, unexported};
use crate::interp::fit::has_type;
use crate::interp::generic::inferred_header;
use crate::interp::library::{s_line, s_next, s_seed, unbroken};
use crate::interp::module::{finished, forgotten, loading, s_import, s_program, s_run_module};
use crate::interp::native::{s_plain_native, texts_of};
use crate::interp::object::{extension, is_withheld, s_attr, s_may_extend, s_super_method, Attr};
use crate::interp::ops::{s_binary, s_call_op, s_index_get, s_index_put, s_unary, PutSpans};
use crate::interp::params::{
    checked_argument, const_argument, descends_by_name, is_constant, s_type_arity, satisfies,
    type_params,
};
use crate::interp::sound::sound;
use crate::interp::state::{rooted, s_collect, ExtensionV, LoadedV, St, WithheldV};
use crate::runtime::class::{base, class_of, descends_named, slot_of, type_text};
use crate::runtime::heap::{law_a_new_object_moves_nothing, payload_put, HeapV};
use crate::runtime::object::{Entry, FunctionV, InstanceV, ObjV};
use crate::runtime::value::{Builtin, Native, ObjId, Value};
use crate::syntax::ast::{
    BinaryOp, CallArgV, ConstArgV, ExprKindV, ExprV, FnDeclV, Op, StmtKindV, StmtV, TypeExprV,
    TypeNameV, TypeParamV, UnaryOp, Visibility,
};
use crate::syntax::token::Span;
use crate::text::joined;
use vstd::prelude::*;

verus! {

// -- dict literals ------------------------------------------------------------------------------------

proof fn lemma_entries_kept(h: HeapV, values: Seq<Value>, span: Span, i: int, so_far: Seq<Entry>, key: Value)
    requires
        0 <= i,
        forall|k: int|
            i <= k && 2 * k + 1 < values.len() && s_key_of(h, #[trigger] values[2 * k], span) is Ok ==> !same_key(
                h,
                s_key_of(h, values[2 * k], span)->Ok_0,
                key,
            ),
    ensures
        entries_from(h, values, span, i, so_far) is Ok ==> dict_get(
            h,
            entries_from(h, values, span, i, so_far)->Ok_0,
            key,
        ) == dict_get(h, so_far, key),
    decreases values.len() - 2 * i,
{
    if 2 * i + 1 < values.len() {
        if let Ok(own) = s_key_of(h, values[2 * i], span) {
            assert(!same_key(h, own, key));
            law_putting_leaves_the_other_keys(h, so_far, own, values[2 * i + 1], key);
            lemma_entries_kept(h, values, span, i + 1, dict_put(h, so_far, own, values[2 * i + 1]), key);
        }
    }
}

proof fn lemma_entry_stands(h: HeapV, values: Seq<Value>, span: Span, i: int, so_far: Seq<Entry>, j: int, key: Value)
    requires
        0 <= i <= j,
        2 * j + 1 < values.len(),
        s_key_of(h, values[2 * j], span) == Ok::<Value, ErrV>(key),
        same_key(h, key, key),
        forall|k: int|
            j < k && 2 * k + 1 < values.len() && s_key_of(h, #[trigger] values[2 * k], span) is Ok ==> !same_key(
                h,
                s_key_of(h, values[2 * k], span)->Ok_0,
                key,
            ),
    ensures
        entries_from(h, values, span, i, so_far) is Ok ==> dict_get(
            h,
            entries_from(h, values, span, i, so_far)->Ok_0,
            key,
        ) == Some(values[2 * j + 1]),
    decreases j - i,
{
    if let Ok(own) = s_key_of(h, values[2 * i], span) {
        let next = dict_put(h, so_far, own, values[2 * i + 1]);
        if i < j {
            lemma_entry_stands(h, values, span, i + 1, next, j, key);
        } else {
            law_a_dict_gives_back_what_was_put(h, so_far, own, values[2 * i + 1]);
            assert forall|k: int|
                i + 1 <= k && 2 * k + 1 < values.len() && s_key_of(h, #[trigger] values[2 * k], span) is Ok implies !same_key(
                h,
                s_key_of(h, values[2 * k], span)->Ok_0,
                key,
            ) by {}
            lemma_entries_kept(h, values, span, i + 1, next, key);
        }
    }
}

/// A dict literal holds, under each of its keys, the value written behind that key; where a key
/// is written twice, the later value.
pub proof fn law_a_dict_literal_holds_its_pairs(h: HeapV, values: Seq<Value>, span: Span, j: int, key: Value)
    requires
        0 <= j,
        2 * j + 1 < values.len(),
        s_key_of(h, values[2 * j], span) == Ok::<Value, ErrV>(key),
        same_key(h, key, key),
        forall|k: int|
            j < k && 2 * k + 1 < values.len() && s_key_of(h, #[trigger] values[2 * k], span) is Ok ==> !same_key(
                h,
                s_key_of(h, values[2 * k], span)->Ok_0,
                key,
            ),
        entries_from(h, values, span, 0, Seq::empty()) is Ok,
    ensures
        dict_get(h, entries_from(h, values, span, 0, Seq::empty())->Ok_0, key) == Some(values[2 * j + 1]),
{
    lemma_entry_stands(h, values, span, 0, Seq::empty(), j, key);
}

// -- calls of members ---------------------------------------------------------------------------------

/// A call of a method evaluates what it is called on, then its arguments, and calls the method
/// on that receiver with them.
pub proof fn law_a_method_call_goes_to_its_receiver(
    f: nat,
    st: St,
    receiver: Value,
    m: Value,
    args: Seq<CallArgV>,
    values: Seq<Value>,
    span: Span,
    shape: Option<ShapeV>,
    st1: St,
    given: Seq<Value>,
)
    requires
        shape_for_method(st.heap, m, args, values, true, span) == Ok::<Option<ShapeV>, ErrV>(shape),
        s_arranged(
            f,
            st,
            seq![receiver, m],
            shape,
            args,
            values,
            crate::interp::dispatch::callable_name(st.heap, m),
            span,
        ) == (st1, Ok::<Seq<Value>, ErrV>(given)),
    ensures
        s_reach_attr(f + 1, st, receiver, Attr::Method(m), args, values, span) == s_call_method(
            f,
            st1,
            receiver,
            m,
            given,
            span,
        ),
{
}

/// `super.name` is the method of the class above, bound to `self`.
pub proof fn law_super_is_bound_to_self(
    st: St,
    name: Seq<char>,
    span: Span,
    env: ObjId,
    above: ObjId,
    me: Value,
    m: Value,
)
    requires
        s_read(st, "super"@, env, span) == (st, Ok::<Value, ErrV>(Value::Class(above))),
        s_read(st, "self"@, env, span) == (st, Ok::<Value, ErrV>(me)),
        s_super_method(st, above, name, span) == Ok::<Value, ErrV>(m),
        sound(st.heap, st.globals),
        st.heap.cells.len() < usize::MAX,
    ensures
        ({
            let (after, r) = s_super_expr(st, name, span, env);
            &&& r is Ok
            &&& r->Ok_0 is BoundMethod
            &&& after.heap.obj(r->Ok_0->BoundMethod_0) == Some(ObjV::BoundMethod { receiver: me, method: m })
        }),
{
    let made = ObjV::BoundMethod { receiver: me, method: m };
    law_a_new_object_moves_nothing(st.heap, made);
    assert(s_super(st, span, env) == (st, Ok::<(ObjId, Value), ErrV>((above, me))));
}

/// A dot hands a field out as it is, and a method bound to what it was reached on.
pub proof fn law_a_dot_binds_a_method(st: St, receiver: Value, v: Value)
    requires
        sound(st.heap, st.globals),
        st.heap.cells.len() < usize::MAX,
    ensures
        s_bound(st, receiver, Attr::Field(v)) == (st, v),
        ({
            let (after, r) = s_bound(st, receiver, Attr::Method(v));
            &&& r is BoundMethod
            &&& after.heap.obj(r->BoundMethod_0) == Some(ObjV::BoundMethod { receiver, method: v })
        }),
{
    law_a_new_object_moves_nothing(st.heap, ObjV::BoundMethod { receiver, method: v });
}

/// A compound assignment through a subscript reads what stands there, combines it with the
/// value, and writes the result to the same place.
#[verifier::spinoff_prover]
pub proof fn law_a_compound_assignment_writes_where_it_read(
    f: nat,
    st: St,
    op: BinaryOp,
    collection: ExprV,
    index: ExprV,
    target: Span,
    value: ExprV,
    span: Span,
    env: ObjId,
    st1: St,
    t: Value,
    i: Value,
    st2: St,
    before: Value,
    st3: St,
    v: Value,
)
    requires
        s_pair(f, st, collection, index, env) == (st1, Ok::<(Value, Value), ErrV>((t, i))),
        s_index_get(f, st1, t, i, target) == (st2, Ok::<Value, ErrV>(before)),
        s_combined(f, st2, op, before, seq![t, i], target, value, span, env) == (st3, Ok::<Value, ErrV>(v)),
    ensures
        s_op_index(f + 1, st, op, collection, index, target, value, span, env) == s_index_put(
            f,
            st3,
            t,
            i,
            v,
            PutSpans { index: index.span, value: span, whole: target },
        ),
{
}

// -- what a class answers -----------------------------------------------------------------------------

/// `op neg` answers a minus in front, and `op bitnot` a tilde.
pub proof fn law_a_class_answers_a_prefix(f: nat, st: St, op: UnaryOp, v: Value, span: Span, method: Value, st1: St, answer: Value)
    requires
        op == UnaryOp::Neg || op == UnaryOp::BitNot,
        slot_of(st.heap, v, if op == UnaryOp::Neg { Op::Neg } else { Op::BitNot }) == Some(method),
        s_call_op(f, st, method, v, Seq::empty()) == (st1, Ok::<Value, ErrV>(answer)),
    ensures
        s_unary(f + 1, st, op, v, span) == (st1, Ok::<Value, ErrV>(answer)),
{
}

/// Whether an op answers the conversion to a builtin type.
pub open spec fn converts(b: Builtin, op: Op) -> bool {
    ||| b == Builtin::Int && op == Op::Int
    ||| b == Builtin::Float && op == Op::Float
    ||| b == Builtin::Str && op == Op::Str
    ||| b == Builtin::Bool && op == Op::Bool
    ||| b == Builtin::List && op == Op::List
    ||| b == Builtin::Dict && op == Op::Dict
}

/// A conversion to a builtin type is answered by the op of that type, where the class of what is
/// converted declares it, and only with a value of that type.
pub proof fn law_a_class_answers_a_conversion(
    f: nat,
    st: St,
    id: ObjId,
    b: Builtin,
    op: Op,
    v: Value,
    span: Span,
    method: Value,
    st1: St,
    answer: Value,
)
    requires
        converts(b, op),
        slot_of(st.heap, v, op) == Some(method),
        s_call_op(f, st, method, v, Seq::empty()) == (st1, Ok::<Value, ErrV>(answer)),
    ensures
        ({
            let (after, r) = s_construct_builtin(f + 1, st, id, b, seq![v], span);
            let fits = class_of(st1.heap, base(st1.heap, answer)) == st1.heap.builtin_class(b);
            &&& after == st1
            &&& fits ==> r == Ok::<Value, ErrV>(answer)
            &&& !fits ==> r is Err && r->Err_0.kind == ErrorKind::Type
        }),
{
    assert(seq![v][0] == v);
}

/// `super.init` of a builtin type gives an instance the value it is, once: afterwards the
/// instance is that value, and a second time is refused.
pub proof fn law_an_instance_is_given_its_value_once(
    f: nat,
    st: St,
    id: ObjId,
    init: Value,
    b: Builtin,
    args: Seq<Value>,
    span: Span,
    st1: St,
    v: Value,
)
    requires
        s_call(f, st, init, args, span) == (st1, Ok::<Value, ErrV>(v)),
        st1.heap.obj(id) is Some,
        st1.heap.obj(id)->0 is Instance,
        !st1.heap.frozen(id),
    ensures
        st.heap.instance(id).payload is None ==> {
            let (after, r) = s_set_payload(f + 1, st, id, init, b, args, span);
            &&& r == Ok::<Value, ErrV>(Value::Nil)
            &&& base(after.heap, Value::Instance(id)) == v
        },
        st.heap.instance(id).payload is Some ==> s_set_payload(f + 1, st, id, init, b, args, span).0 == st
            && s_set_payload(f + 1, st, id, init, b, args, span).1 is Err,
{
    lemma_payload(st1.heap, id, v);
    if st.heap.instance(id).payload is None {
        assert(s_set_payload(f + 1, st, id, init, b, args, span) == (
            crate::interp::state::with_heap(st1, payload_put(st1.heap, id, v)),
            Ok::<Value, ErrV>(Value::Nil),
        ));
    }
}

proof fn lemma_payload(h: HeapV, id: ObjId, v: Value)
    requires
        h.obj(id) is Some,
        h.obj(id)->0 is Instance,
    ensures
        base(payload_put(h, id, v), Value::Instance(id)) == v,
{
}

// -- type arguments -----------------------------------------------------------------------------------

/// A type argument meets a bound where it is the very type or a class that extends it; `any`
/// is met by all, and a constant meets none but that.
pub proof fn law_what_meets_a_bound(st: St, bound: TypeExprV, arg: TypeExprV)
    ensures
        bound.name is Any ==> satisfies(st, bound, arg),
        bound.name is Named && arg.name is Named ==> (satisfies(st, bound, arg) <==> bound.name->Named_0
            == arg.name->Named_0 || descends_by_name(st, arg.name->Named_0, bound.name->Named_0)),
        bound.name is Named && arg.name is Const ==> !satisfies(st, bound, arg),
{
}

/// A type parameter takes a class that meets its bound, and nothing else.
pub proof fn law_a_type_parameter_takes_a_class(st: St, v: Value, e: ExprV, whose: Seq<char>, param: TypeParamV, env: ObjId)
    requires
        param.kind is Type,
    ensures
        !(v is Class) ==> checked_argument(st, v, e, whose, param, env) is Err,
        v is Class && param.kind->bound is None ==> checked_argument(st, v, e, whose, param, env) is Ok,
        v is Class && param.kind->bound is Some ==> (checked_argument(st, v, e, whose, param, env) is Ok
            <==> satisfies(
            st,
            param.kind->bound->0,
            crate::interp::params::reified(st.heap, v->Class_0, Seq::empty()),
        )),
{
}

/// A class without type parameters takes no type arguments; one without a pack takes as many as
/// it has parameters.
pub proof fn law_type_arguments_are_counted(h: HeapV, class: ObjId, given: nat, span: Span)
    ensures
        type_params(h, class).len() == 0 ==> s_type_arity(h, class, given, span) is Err,
        type_params(h, class).len() > 0 && crate::interp::generic::pack_at(type_params(h, class), 0) is None
            ==> (s_type_arity(h, class, given, span) is Ok <==> given == type_params(h, class).len()),
{
}

// -- extensions ---------------------------------------------------------------------------------------

proof fn lemma_extension_place(s: Seq<ExtensionV>, class: ObjId, name: Seq<char>, from: int)
    requires
        0 <= from <= s.len(),
    ensures
        match extension_place(s, class, name, from) {
            Some(i) => from <= i < s.len() && s[i].class == class && s[i].name == name && extension(
                s,
                class,
                name,
                from,
            ) == Some(s[i].method),
            None => extension(s, class, name, from) is None,
        },
    decreases s.len() - from,
{
    if from < s.len() && !(s[from].class == class && s[from].name == name) {
        lemma_extension_place(s, class, name, from + 1);
    }
}

proof fn lemma_extension_new(s: Seq<ExtensionV>, one: ExtensionV, class: ObjId, name: Seq<char>, from: int)
    requires
        0 <= from <= s.len(),
    ensures
        extension(s, class, name, from) is Some ==> extension(s.push(one), class, name, from) == extension(
            s,
            class,
            name,
            from,
        ),
        extension(s, class, name, from) is None ==> extension(s.push(one), class, name, from) == if one.class == class
            && one.name == name {
            Some(one.method)
        } else {
            None
        },
    decreases s.len() - from,
{
    if from < s.len() {
        assert(s.push(one)[from] == s[from]);
        lemma_extension_new(s, one, class, name, from + 1);
    } else {
        assert(s.push(one)[from] == one);
        assert(extension(s.push(one), class, name, from + 1) is None);
    }
}

/// A method that is added to a class is found on it under its name, with the declaration that
/// was added; what was added to other classes, or under other names, stays.
pub proof fn law_an_added_method_is_found(st: St, id: ObjId, decl: FnDeclV, env: ObjId, class: ObjId, name: Seq<char>)
    requires
        sound(st.heap, st.globals),
        st.heap.cells.len() < usize::MAX,
        decl.op is None,
        extension(st.extensions, id, decl.name, 0) is None,
    ensures
        ({
            let after = s_add_extension(st, id, decl, env);
            let found = extension(after.extensions, id, decl.name, 0);
            &&& found is Some
            &&& found->0 is Function
            &&& after.heap.function(found->0->Function_0) == Some(FunctionV { decl, env, owner: None })
            &&& class != id || name != decl.name ==> extension(after.extensions, class, name, 0) == extension(
                st.extensions,
                class,
                name,
                0,
            )
        }),
{
    let made = ObjV::Function(FunctionV { decl, env, owner: None });
    law_a_new_object_moves_nothing(st.heap, made);
    let one = ExtensionV { class: id, name: decl.name, method: Value::Function(st.heap.next_id()) };
    lemma_extension_place(st.extensions, id, decl.name, 0);
    lemma_extension_new(st.extensions, one, id, decl.name, 0);
    lemma_extension_new(st.extensions, one, class, name, 0);
    assert(st.heap.with_new(made).obj(st.heap.next_id()) == Some(made));
}

proof fn lemma_may_extend_all(st: St, id: ObjId, decls: Seq<FnDeclV>, span: Span, from: int)
    requires
        0 <= from <= decls.len(),
    ensures
        s_may_extend_all(st, id, decls, span, from) is Ok <==> forall|i: int|
            from <= i < decls.len() ==> s_may_extend(st, id, #[trigger] decls[i], span) is Ok,
    decreases decls.len() - from,
{
    if from < decls.len() {
        lemma_may_extend_all(st, id, decls, span, from + 1);
    }
}

/// An `extend` block is taken whole or not at all: where one of its methods is refused, and
/// where what it extends is no class, nothing is added.
pub proof fn law_an_extension_is_taken_whole_or_not_at_all(
    st: St,
    target: Seq<char>,
    span: Span,
    methods: Seq<FnDeclV>,
    env: ObjId,
    v: Value,
)
    requires
        s_read(st, target, env, span) == (st, Ok::<Value, ErrV>(v)),
    ensures
        s_extend(st, target, span, methods, env).1 is Err ==> s_extend(st, target, span, methods, env).0 == st,
        s_extend(st, target, span, methods, env).1 is Ok <==> v is Class && forall|i: int|
            0 <= i < methods.len() ==> s_may_extend(st, v->Class_0, #[trigger] methods[i], span) is Ok,
{
    if let Value::Class(id) = v {
        lemma_may_extend_all(st, id, methods, span, 0);
    }
}

// -- declarations -------------------------------------------------------------------------------------

/// A function statement declares its function, a class statement its class, an `extend` its
/// methods and an `import` its names, and the statements behind it go on.
pub proof fn law_a_declaration_declares(f: nat, st: St, s: StmtV, env: ObjId)
    ensures
        ({
            let (after, r) = s_exec(f + 3, st, s, env);
            let st0 = s_collect(st);
            match s.kind {
                StmtKindV::Fn(decl) => after == s_declare_fn(st0, *decl, env) && r == Ok::<Flow, ErrV>(Flow::Normal),
                StmtKindV::Class(decl) => after == s_declare_class(st0, *decl, env).0 && (r is Ok <==> s_declare_class(
                    st0,
                    *decl,
                    env,
                ).1 is Ok) && (r is Ok ==> r->Ok_0 == Flow::Normal),
                StmtKindV::Extend { target, target_span, methods } => after == s_extend(
                    st0,
                    target,
                    target_span,
                    methods,
                    env,
                ).0 && (r is Ok <==> s_extend(st0, target, target_span, methods, env).1 is Ok),
                StmtKindV::Import { module, module_span, names } => after == s_import(
                    f,
                    st0,
                    module,
                    module_span,
                    names,
                    env,
                ).0 && (r is Ok <==> s_import(f, st0, module, module_span, names, env).1 is Ok),
                _ => true,
            }
        }),
{
    let st0 = s_collect(st);
    assert(s_exec(f + 3, st, s, env) == s_statement(f + 2, st0, s, env));
    if crate::interp::exec::is_declaration(s.kind) {
        assert(s_statement(f + 2, st0, s, env) == s_declaration(f + 1, st0, s.kind, s.span, env));
    }
}

// -- modules ------------------------------------------------------------------------------------------

proof fn lemma_loaded_place(s: Seq<LoadedV>, path: Seq<char>, from: int)
    requires
        0 <= from <= s.len(),
    ensures
        match loaded_place(s, path, from) {
            Some(i) => from <= i < s.len() && s[i].path == path && forall|k: int|
                from <= k < i ==> (#[trigger] s[k]).path != path,
            None => forall|k: int| from <= k < s.len() ==> (#[trigger] s[k]).path != path,
        },
    decreases s.len() - from,
{
    if from < s.len() && s[from].path != path {
        lemma_loaded_place(s, path, from + 1);
    }
}

/// A module that has run to its end is loaded from then on, with the scope it ran in; the other
/// modules are as they were.
pub proof fn law_a_finished_module_is_loaded(s: Seq<LoadedV>, path: Seq<char>, i: int)
    requires
        loaded_place(s, path, 0) == Some(i),
    ensures
        loaded_place(finished(s, path), path, 0) == Some(i),
        finished(s, path)[i].done,
        finished(s, path)[i].scope == s[i].scope,
        forall|k: int| 0 <= k < s.len() && k != i ==> #[trigger] finished(s, path)[k] == s[k],
        finished(s, path).len() == s.len(),
{
    lemma_loaded_place(s, path, 0);
    let t = finished(s, path);
    lemma_loaded_place(t, path, 0);
    match loaded_place(t, path, 0) {
        Some(k) => {
            if k < i {
                assert(t[k] == s[k]);
                assert(s[k].path != path);
            } else if i < k {
                assert(t[i].path == path);
            }
        },
        None => {
            assert(t[i].path == path);
        },
    }
}

/// A random number is never negative, and is the same after the same seed.
pub proof fn law_random_numbers_follow_their_seed(a: St, b: St, n: Value, span: Span)
    requires
        n is Int,
    ensures
        s_next(a).1 is Ok,
        s_next(a).1->Ok_0 is Int,
        s_next(a).1->Ok_0->Int_0 >= 0,
        a.rng == b.rng ==> s_next(a).1 == s_next(b).1 && s_next(a).0.rng == s_next(b).0.rng,
        s_next(s_seed(a, n, span).0).1 == s_next(s_seed(b, n, span).0).1,
{
    let d = drawn(next_seed(a.rng));
    assert(0 <= d / 2 <= i64::MAX);
}

/// `line` gives the next line of the input, without its line break, and leaves the rest; at the
/// end it gives nil.
pub proof fn law_line_gives_the_next_line(st: St)
    requires
        sound(st.heap, st.globals),
        st.heap.cells.len() < usize::MAX,
    ensures
        st.input.len() == 0 ==> s_line(st) == (st, Ok::<Value, ErrV>(Value::Nil)),
        st.input.len() > 0 ==> {
            let (after, r) = s_line(st);
            let k = st.input.len() - after.input.len();
            &&& r is Ok && r->Ok_0 is Str
            &&& 0 < k <= st.input.len()
            &&& after.input == st.input.skip(k)
            &&& after.heap.text(r->Ok_0->Str_0) == unbroken(st.input.take(k))
            &&& after.input.len() > 0 ==> st.input[k - 1] == '\n'
            &&& forall|i: int| 0 <= i < k - 1 ==> #[trigger] st.input[i] != '\n'
        },
{
    if st.input.len() > 0 {
        lemma_line(st.input, 0);
        let k = crate::interp::api::line_end(st.input, 0);
        let made = ObjV::Str(unbroken(st.input.take(k)));
        law_a_new_object_moves_nothing(st.heap, made);
        assert(st.heap.with_new(made).obj(st.heap.next_id()) == Some(made));
    }
}

proof fn lemma_line(s: Seq<char>, i: int)
    requires
        0 <= i <= s.len(),
    ensures
        ({
            let k = crate::interp::api::line_end(s, i);
            &&& i <= k <= s.len()
            &&& i < s.len() ==> i < k
            &&& k < s.len() ==> s[k - 1] == '\n'
            &&& forall|j: int| i <= j < k - 1 ==> #[trigger] s[j] != '\n'
        }),
    decreases s.len() - i,
{
    if i < s.len() && s[i] != '\n' {
        lemma_line(s, i + 1);
    }
}

// -- comparing and prompting --------------------------------------------------------------------------

/// Sorting asks whether one value is less than another just as `<` does.
pub proof fn law_sorting_asks_less_than(f: nat, st: St, x: Value, y: Value, span: Span, st1: St, b: bool)
    requires
        s_binary(f, st, BinaryOp::Lt, x, y, Spans { lhs: span, rhs: span, whole: span }) == (
            st1,
            Ok::<Value, ErrV>(Value::Bool(b)),
        ),
    ensures
        s_less_than(f, st, x, y, span) == (st1, Ok::<bool, ErrV>(b)),
{
}

/// At a prompt an expression answers with its value, and any other statement with none.
pub proof fn law_a_prompt_answers_an_expression(f: nat, st: St, s: StmtV, env: ObjId)
    ensures
        ({
            let (after, r) = s_prompted(f, st, s, env);
            match s.kind {
                StmtKindV::Expr(e) => after == s_eval(f, s_collect(st), e, env).0 && (r is Ok ==> r->Ok_0 is Some
                    && s_eval(f, s_collect(st), e, env).1 == Ok::<Value, ErrV>(r->Ok_0->0)),
                _ => after == s_exec(f, st, s, env).0 && (r is Ok ==> r->Ok_0 is None),
            }
        }),
{
}

// -- calls --------------------------------------------------------------------------------------------

/// A call of a member evaluates what it is called on, finds the member there, evaluates the
/// arguments, and calls that member of that receiver with them.
pub proof fn law_a_member_is_called_on_what_it_was_found_on(
    f: nat,
    st: St,
    target: ExprV,
    name: Seq<char>,
    callee: Span,
    args: Seq<CallArgV>,
    span: Span,
    env: ObjId,
    st1: St,
    receiver: Value,
    attr: Attr,
    st2: St,
    values: Seq<Value>,
)
    requires
        s_eval(f, st, target, env) == (st1, Ok::<Value, ErrV>(receiver)),
        s_attr(st1, receiver, name, dot_spans(target.span, callee)) == Ok::<Attr, ErrV>(attr),
        s_values(
            f,
            rooted(rooted(st1, receiver), attr.found()),
            arg_exprs(args),
            env,
            st1.temps.len() as int,
            0,
            Seq::empty(),
        ) == (st2, Ok::<Seq<Value>, ErrV>(values)),
    ensures
        s_method_call(f + 1, st, target, name, callee, args, span, env) == s_reach_attr(
            f,
            st2,
            receiver,
            attr,
            args,
            values,
            span,
        ),
{
}

/// A builtin that takes a number of arguments refuses any other number, and does nothing.
pub proof fn law_a_builtin_counts_its_arguments(f: nat, st: St, native: Native, args: Seq<Value>, span: Span)
    requires
        native.takes() is Some,
        args.len() != native.takes()->0,
    ensures
        s_call_native(f, st, native, args, span).0 == st,
        s_call_native(f, st, native, args, span).1 is Err,
{
}

// -- keys ---------------------------------------------------------------------------------------------

/// What can be a key of a dict: nil, bools, ints, texts, and floats that are numbers; no list,
/// dict, tuple or function, and nothing whose class says itself what equals it.
pub proof fn law_what_can_be_a_key(h: HeapV, v: Value, span: Span)
    ensures
        slot_of(h, v, Op::Eq) is Some ==> s_key_of(h, v, span) is Err,
        slot_of(h, v, Op::Eq) is None ==> {
            let held = base(h, v);
            &&& held is Nil || held is Bool || held is Int || held is Str ==> s_key_of(h, v, span) == Ok::<Value, ErrV>(
                held,
            )
            &&& held is Float ==> (s_key_of(h, v, span) is Ok <==> !crate::float::is_nan(held->Float_0))
            &&& held is List || held is Dict || held is Tuple || held is Function || held is Instance ==> s_key_of(
                h,
                v,
                span,
            ) is Err
        },
{
}

/// Texts are the same key just where they have the same characters, ints where they are the
/// same, and none is the key of the other.
pub proof fn law_which_keys_are_the_same(h: HeapV, a: ObjId, b: ObjId, m: i64, n: i64)
    ensures
        same_key(h, Value::Str(a), Value::Str(b)) <==> h.text(a) == h.text(b),
        same_key(h, Value::Int(m), Value::Int(n)) <==> m == n,
        !same_key(h, Value::Str(a), Value::Int(n)),
        !same_key(h, Value::Nil, Value::Int(n)),
        !same_key(h, Value::Bool(true), Value::Bool(false)),
        !same_key(h, Value::Bool(true), Value::Int(1)),
{
}

// -- described instances ------------------------------------------------------------------------------

/// A new instance is of its class, holds nothing yet, and is described by the type arguments
/// that were waiting for it, which wait for no other.
pub proof fn law_a_new_instance_is_described(st: St, class: ObjId, ty: TypeExprV)
    requires
        st.pending == Some(ty),
        sound(st.heap, st.globals),
        st.heap.cells.len() < usize::MAX,
    ensures
        ({
            let after = s_new_instance(st, class);
            let id = st.heap.next_id();
            &&& after.heap.descriptor(id) == Some(ty)
            &&& after.heap.instance(id).class == class
            &&& after.heap.instance(id).fields.len() == 0
            &&& after.heap.instance(id).payload is None
            &&& after.pending is None
        }),
{
    let made = ObjV::Instance(InstanceV { class, fields: Seq::empty(), payload: None });
    law_a_new_object_moves_nothing(st.heap, made);
    assert(st.heap.with_new(made).obj(st.heap.next_id()) == Some(made));
    assert(st.heap.with_new(made).cell(st.heap.next_id()) is Some);
}

/// A type beside a binding describes what the binding constructs only where the type says its
/// arguments and the value is a bare construction of the very class that it names.
pub proof fn law_an_annotation_describes_a_bare_construction(ty: TypeExprV, value: ExprV, name: Seq<char>)
    requires
        ty.name == TypeNameV::Named(name),
    ensures
        !ty.applied ==> inferred_header(Some(ty), value) is None,
        inferred_header(None, value) is None,
        inferred_header(Some(ty), value) is Some ==> inferred_header(Some(ty), value)->0.args == ty.args
            && inferred_header(Some(ty), value)->0.name == ty.name,
        ty.applied ==> (inferred_header(Some(ty), value) is Some <==> match value.kind {
            ExprKindV::Call { callee, args } => callee.kind == ExprKindV::Var(name),
            _ => false,
        }),
{
}

/// A `const` parameter takes a constant of the kind it says, and becomes that constant.
pub proof fn law_a_const_parameter_takes_a_constant(
    h: HeapV,
    v: Value,
    e: ExprV,
    whose: Seq<char>,
    param: TypeParamV,
    ty: TypeExprV,
    env: ObjId,
)
    ensures
        !is_constant(h, env, e) ==> const_argument(h, v, e, whose, param, ty, env) is Err,
        v is List || v is Dict || v is Class || v is Nil ==> const_argument(h, v, e, whose, param, ty, env) is Err,
        const_argument(h, v, e, whose, param, ty, env) is Ok && v is Int ==> const_argument(
            h,
            v,
            e,
            whose,
            param,
            ty,
            env,
        )->Ok_0.name == TypeNameV::Const(ConstArgV::Int(v->Int_0)),
        is_constant(h, env, e) && v is Int && ty.name == TypeNameV::Named("int"@) ==> const_argument(
            h,
            v,
            e,
            whose,
            param,
            ty,
            env,
        ) is Ok,
        is_constant(h, env, e) && v is Bool && ty.name == TypeNameV::Named("int"@) ==> const_argument(
            h,
            v,
            e,
            whose,
            param,
            ty,
            env,
        ) is Err,
{
    reveal_strlit("int");
    reveal_strlit("bool");
    assert("int"@.len() != "bool"@.len());
}

// -- what other files do not see ----------------------------------------------------------------------

proof fn lemma_withheld(s: Seq<WithheldV>, scope: ObjId, name: Seq<char>, from: int)
    requires
        0 <= from <= s.len(),
    ensures
        is_withheld(s, scope, name, from) <==> exists|k: int|
            from <= k < s.len() && (#[trigger] s[k]).scope == scope && s[k].name == name,
    decreases s.len() - from,
{
    if from < s.len() {
        lemma_withheld(s, scope, name, from + 1);
    }
}

/// Whether a statement declares a name as private.
pub open spec fn keeps_private(s: StmtV, name: Seq<char>) -> bool {
    match s.kind {
        StmtKindV::Let { name: own, visibility, .. } => own == name && visibility == Visibility::Private,
        StmtKindV::Fn(decl) => decl.name == name && decl.visibility == Visibility::Private,
        StmtKindV::Class(decl) => decl.name == name && decl.visibility == Visibility::Private,
        _ => false,
    }
}

/// A file withholds just the names that it declares as private.
pub proof fn law_private_names_are_withheld(program: Seq<StmtV>, scope: ObjId, n: int, name: Seq<char>)
    requires
        0 <= n <= program.len(),
    ensures
        is_withheld(unexported(program, scope, n), scope, name, 0) <==> exists|k: int|
            0 <= k < n && keeps_private(#[trigger] program[k], name),
    decreases n,
{
    let all = unexported(program, scope, n);
    lemma_withheld(all, scope, name, 0);
    if n > 0 {
        let before = unexported(program, scope, n - 1);
        lemma_withheld(before, scope, name, 0);
        law_private_names_are_withheld(program, scope, n - 1, name);
        if exists|k: int| 0 <= k < before.len() && (#[trigger] before[k]).scope == scope && before[k].name == name {
            let k = choose|k: int|
                0 <= k < before.len() && (#[trigger] before[k]).scope == scope && before[k].name == name;
            assert(all[k] == before[k]);
        }
        if keeps_private(program[n - 1], name) {
            assert(all[before.len() as int] == (WithheldV { scope, name }));
        }
        if exists|k: int| 0 <= k < all.len() && (#[trigger] all[k]).scope == scope && all[k].name == name {
            let k = choose|k: int| 0 <= k < all.len() && (#[trigger] all[k]).scope == scope && all[k].name == name;
            if k < before.len() {
                assert(before[k] == all[k]);
            } else {
                assert(keeps_private(program[n - 1], name));
            }
        }
    }
}

/// A file that fails is as if it had never been imported: another import of it runs it again.
/// One that succeeds is not run again.
pub proof fn law_a_module_counts_once_it_has_run(
    f: nat,
    st: St,
    name: Seq<char>,
    path: Seq<char>,
    text: Seq<char>,
)
    ensures
        ({
            let (after, r) = s_run_module(f + 1, st, name, path, text);
            match compiled(text) {
                Err(_) => after == st && r is Err,
                Ok(program) => {
                    let (ran, done) = s_program(
                        f,
                        loading(st, name, path, program),
                        program,
                        st.heap.next_id(),
                        0,
                    );
                    &&& r is Ok <==> done is Ok
                    &&& r is Ok ==> r->Ok_0 == st.heap.next_id() && after.loaded == finished(ran.loaded, path)
                    &&& r is Err ==> after.loaded == forgotten(ran.loaded, path)
                    &&& after.heap == ran.heap && after.out == ran.out
                },
            }
        }),
{
}

// -- more of the builtins -----------------------------------------------------------------------------

proof fn lemma_texts_of(h: HeapV, items: Seq<Value>, texts: Seq<Seq<char>>, i: int, so_far: Seq<Seq<char>>)
    requires
        0 <= i <= items.len(),
        items.len() == texts.len(),
        so_far == texts.take(i),
        forall|k: int|
            0 <= k < items.len() ==> base(h, #[trigger] items[k]) is Str && h.text(base(h, items[k])->Str_0)
                == texts[k],
    ensures
        texts_of(h, items, i, so_far) == Ok::<Seq<Seq<char>>, Value>(texts),
    decreases items.len() - i,
{
    if i < items.len() {
        assert(base(h, items[i]) is Str);
        assert(so_far.push(texts[i]) =~= texts.take(i + 1));
        lemma_texts_of(h, items, texts, i + 1, so_far.push(texts[i]));
    } else {
        assert(texts.take(i) =~= texts);
    }
}

/// `join` puts the text it is called on between the texts of a list, in order, into a new text.
pub proof fn law_join_puts_a_text_between_others(f: nat, st: St, target: Value, list: Value, sep: ObjId, id: ObjId, texts: Seq<Seq<char>>, span: Span)
    requires
        base(st.heap, target) == Value::Str(sep),
        base(st.heap, list) == Value::List(id),
        st.heap.list(id).len() == texts.len(),
        forall|k: int|
            0 <= k < texts.len() ==> base(st.heap, #[trigger] st.heap.list(id)[k]) is Str && st.heap.text(
                base(st.heap, st.heap.list(id)[k])->Str_0,
            ) == texts[k],
        sound(st.heap, st.globals),
        st.heap.cells.len() < usize::MAX,
    ensures
        ({
            let (after, r) = s_call_native(f + 1, st, Native::Join, seq![target, list], span);
            &&& r is Ok
            &&& r->Ok_0 is Str
            &&& after.heap.text(r->Ok_0->Str_0) == joined(texts, st.heap.text(sep))
        }),
{
    assert(texts.take(0) =~= Seq::empty());
    lemma_texts_of(st.heap, st.heap.list(id), texts, 0, Seq::empty());
    let made = ObjV::Str(joined(texts, st.heap.text(sep)));
    law_a_new_object_moves_nothing(st.heap, made);
    assert(s_call_native(f + 1, st, Native::Join, seq![target, list], span) == s_plain_native(
        st,
        Native::Join,
        seq![target, list],
        span,
    ));
    assert(seq![target, list][0] == target && seq![target, list][1] == list);
    assert(st.heap.with_new(made).obj(st.heap.next_id()) == Some(made));
}

/// `float` keeps a float, makes an int the float nearest to it, and refuses what is no number.
pub proof fn law_float_keeps_a_float(f: nat, st: St, v: Value, span: Span)
    ensures
        ({
            let (after, r) = s_call_native(f + 1, st, Native::ToFloat, seq![v], span);
            let held = base(st.heap, v);
            &&& after == st
            &&& held is Float ==> r == Ok::<Value, ErrV>(held)
            &&& held is Int ==> r == Ok::<Value, ErrV>(Value::Float(crate::float::int_bits(held->Int_0 as int)))
            &&& held is Nil || held is Bool || held is List || held is Dict ==> r is Err && r->Err_0.kind
                == ErrorKind::Type
        }),
{
}

/// `is` tells what a value is: a value of a builtin type is of that type and of no other, an
/// instance is of its own class, and nil is of a type just where the type admits it.
pub proof fn law_is_tells_what_a_value_is(h: HeapV, ty: TypeExprV, name: Seq<char>, v: Value)
    requires
        ty.name == TypeNameV::Named(name),
        ty.args.len() == 0,
    ensures
        v == Value::Nil ==> (has_type(h, ty, v) <==> ty.nullable),
        v != Value::Nil && type_text(h, v) == name ==> has_type(h, ty, v),
        v != Value::Nil && type_text(h, v) != name && !descends_named(h, class_of(h, v), name, h.cells.len())
            ==> !has_type(h, ty, v),
        v is Instance && h.class(h.instance(v->Instance_0).class).name == name ==> has_type(h, ty, v),
{
}

} // verus!
