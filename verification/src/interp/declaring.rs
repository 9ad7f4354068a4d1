//! What declarations, stated types, errors and imports are for.

use crate::error::{class_name_of, ErrV, ErrorKind};
use crate::float::int_bits;
use crate::interp::call::s_call;
use crate::interp::coerce::{
    conversion, s_coerced, s_constructed, s_default_of, s_evaluated_as, s_initial, s_settled,
    s_widen, unknown_type,
};
use crate::interp::declare::{s_declare_fn, s_parent};
use crate::interp::error::{
    caught_class, descends_from_error, error_class, s_check_arity, s_reify, s_throw,
};
use crate::interp::exec::{let_bound, s_let, Flow};
use crate::interp::files::{file_place, import_path, loaded_place};
use crate::interp::fit::{names, WrittenV};
use crate::interp::generic::substituted;
use crate::interp::module::{imported, names_declared, s_bind_import, s_load_module};
use crate::interp::object::{
    declared_reach, extension, is_withheld, module_value, own_field, s_attr, s_find_method,
    s_may_extend, s_may_import, s_may_reach, s_super_method, Attr, DotSpans,
};
use crate::interp::params::current;
use crate::interp::sound::sound;
use crate::interp::state::St;
use crate::runtime::class::{descends, method_in};
use crate::runtime::heap::{
    frozen_by, law_a_new_object_moves_nothing, law_freezing_keeps_contents,
    lemma_root_is_reachable, Follow, HeapV,
};
use crate::runtime::object::{lookup, opt_handle, FunctionV, NamedV, ObjV, VarV};
use crate::runtime::scope::{
    declared, law_a_declared_name_is_found, law_declaring_a_name_leaves_the_others, module_of,
    var_of,
};
use crate::runtime::types::holds;
use crate::runtime::value::{is_shipped, ObjId, Value};
use crate::syntax::ast::{Bind, ExprV, FnDeclV, ImportNameV, Openness, TypeExprV, Visibility};
use crate::syntax::token::Span;
use vstd::prelude::*;

verus! {

// -- bindings ---------------------------------------------------------------------------------------

/// A binding without a stated type gives its name the value of its initializer, in the scope it
/// stands in, and leaves what every other name there holds. A `const` freezes the value.
pub proof fn law_a_binding_gives_its_name_the_value(
    f: nat,
    st: St,
    name: Seq<char>,
    at: Span,
    e: ExprV,
    bind: Bind,
    env: ObjId,
    st1: St,
    v: Value,
    other: Seq<char>,
)
    requires
        s_evaluated_as(f, st, None, e, env) == (st1, Ok::<Value, ErrV>(v)),
        st1.heap.obj(env) is Some,
        st1.heap.obj(env)->0 is Scope,
    ensures
        ({
            let (after, r) = s_let(f + 2, st, name, at, None, Some(e), bind, env);
            &&& r == Ok::<Flow, ErrV>(Flow::Normal)
            &&& var_of(after.heap, env, name) == Some(VarV { name, value: Some(v), bind, ty: None })
            &&& other != name ==> var_of(after.heap, env, other) == var_of(st1.heap, env, other)
            &&& after.out == st1.out
        }),
{
    assert(s_initial(f + 1, st, name, at, None, Some(e), env) == (st1, Ok::<Value, ErrV>(v)));
    law_freezing_keeps_contents(st1.heap, v, env);
    let h = if bind.does_freeze() {
        frozen_by(st1.heap, v)
    } else {
        st1.heap
    };
    law_a_declared_name_is_found(h, env, name, v, bind, None);
    if other != name {
        law_declaring_a_name_leaves_the_others(h, env, name, v, bind, None, env, other);
    }
}

/// What a `const` binds is frozen, and what `let` and `final` bind is as frozen as it was.
pub proof fn law_a_const_freezes_what_it_binds(st: St, name: Seq<char>, ty: Option<TypeExprV>, v: Value, bind: Bind, env: ObjId, id: ObjId)
    requires
        opt_handle(v).contains(id),
        st.heap.cell(id) is Some,
        st.heap.cell(env) is Some,
        id != env,
    ensures
        bind == Bind::Const ==> let_bound(st, name, ty, v, bind, env).heap.frozen(id),
        bind != Bind::Const ==> let_bound(st, name, ty, v, bind, env).heap.frozen(id) == st.heap.frozen(id),
{
    if bind == Bind::Const {
        lemma_root_is_reachable(st.heap.cells, Follow::Contents, opt_handle(v), id);
        let h = frozen_by(st.heap, v);
        assert(h.frozen(id));
    }
}

/// A function that is declared in a scope stands there under its name, with the declaration it
/// was given and the scope it closes over, where nothing stood under that name.
pub proof fn law_a_function_stands_under_its_name(st: St, decl: FnDeclV, env: ObjId)
    requires
        sound(st.heap, st.globals),
        st.heap.cells.len() < usize::MAX,
        st.heap.obj(env) is Some,
        st.heap.obj(env)->0 is Scope,
        var_of(st.heap, env, decl.name) is None || var_of(st.heap, env, decl.name)->0.value is None,
    ensures
        ({
            let after = s_declare_fn(st, decl, env);
            let var = var_of(after.heap, env, decl.name);
            &&& var is Some
            &&& var->0.value is Some
            &&& var->0.value->0 is Function
            &&& after.heap.function(var->0.value->0->Function_0) == Some(FunctionV { decl, env, owner: None })
            &&& !var->0.bind.is_mutable()
        }),
{
    let made = ObjV::Function(FunctionV { decl, env, owner: None });
    law_a_new_object_moves_nothing(st.heap, made);
    let h1 = st.heap.with_new(made);
    let id = st.heap.next_id();
    assert(h1.cell(env) == st.heap.cell(env));
    law_a_declared_name_is_found(h1, env, decl.name, Value::Function(id), Bind::Final, None);
    assert(h1.obj(id) == Some(made));
    assert(id != env);
}

// -- classes ------------------------------------------------------------------------------------------

/// A class extends another class that is open to it, and nothing else: no value that is not a
/// class, no `final` and no `sealed` one. A `complete` class may be extended.
pub proof fn law_what_a_class_may_extend(h: HeapV, name: Seq<char>, parent: Seq<char>, v: Value, span: Span)
    ensures
        s_parent(h, name, parent, v, span) is Ok ==> v == Value::Class(s_parent(h, name, parent, v, span)->Ok_0),
        v is Class && h.class(v->Class_0).builtin is None ==> (s_parent(h, name, parent, v, span) is Ok <==> h.class(
            v->Class_0,
        ).openness == Openness::Open || h.class(v->Class_0).openness == Openness::Complete),
        s_parent(h, name, parent, v, span) is Err ==> s_parent(h, name, parent, v, span)->Err_0.kind
            == ErrorKind::Type,
{
}

/// Who reaches a member that a class declares: everybody where it is not closed; only methods of
/// the class where it is private; those and methods of classes that extend it where it is
/// protected.
pub proof fn law_who_reaches_a_member(st: St, class: ObjId, name: Seq<char>, span: Span, visibility: Visibility, owner: ObjId)
    requires
        declared_reach(st.heap, class, name, st.heap.cells.len()) == Some((visibility, owner)),
    ensures
        ({
            let inside = st.reaching.len() > 0 && st.reaching.last() is Some;
            let from = st.reaching.last()->0;
            let reached = s_may_reach(st, class, name, span) is Ok;
            &&& visibility == Visibility::Public || visibility == Visibility::Unsaid ==> reached
            &&& visibility == Visibility::Private ==> (reached <==> inside && from == owner)
            &&& visibility == Visibility::Protected ==> (reached <==> inside && (from == owner || descends(
                st.heap,
                from,
                owner,
                st.heap.cells.len(),
            )))
            &&& !reached ==> s_may_reach(st, class, name, span)->Err_0.kind == ErrorKind::Visibility
        }),
{
}

/// A method is added to a class just where the class is open to that, does not have it and was
/// not given it before: a `complete` and a `sealed` class take none.
pub proof fn law_what_may_be_added_to_a_class(st: St, id: ObjId, decl: FnDeclV, span: Span)
    requires
        decl.op is None,
    ensures
        s_may_extend(st, id, decl, span) is Ok <==> {
            &&& st.heap.class(id).openness == Openness::Open || st.heap.class(id).openness == Openness::Final
            &&& method_in(st.heap, id, decl.name, st.heap.cells.len()) is None
            &&& extension(st.extensions, id, decl.name, 0) is None
        },
        s_may_extend(st, id, decl, span) is Err ==> s_may_extend(st, id, decl, span)->Err_0.kind == ErrorKind::Type,
{
}

/// No op that a class already answers is added to it, and no op at all to a closed class.
pub proof fn law_no_op_is_replaced_from_outside(st: St, id: ObjId, decl: FnDeclV, span: Span)
    requires
        decl.op is Some,
        st.heap.class_slot(id, decl.op->0) is Some || st.heap.class(id).openness == Openness::Sealed || st.heap.class(
            id,
        ).openness == Openness::Complete,
    ensures
        s_may_extend(st, id, decl, span) is Err,
{
}

/// `super.name` is the method that the class above answers to under that name, and is refused
/// where it answers to none.
pub proof fn law_super_is_the_class_above(st: St, above: ObjId, name: Seq<char>, span: Span)
    ensures
        s_find_method(st, above, name) is Some ==> s_super_method(st, above, name, span) == Ok::<Value, ErrV>(
            s_find_method(st, above, name)->0,
        ),
        s_find_method(st, above, name) is None ==> s_super_method(st, above, name, span) is Err && s_super_method(
            st,
            above,
            name,
            span,
        )->Err_0.kind == ErrorKind::Attr,
        method_in(st.heap, above, name, st.heap.cells.len()) is Some ==> s_super_method(st, above, name, span)
            == Ok::<Value, ErrV>(method_in(st.heap, above, name, st.heap.cells.len())->0),
{
}

/// A dot on a module hands out what the module declares and exports; on a value it finds its
/// field, or else the method of its class; anything else is refused.
pub proof fn law_what_a_dot_finds(st: St, v: Value, name: Seq<char>, at: DotSpans)
    ensures
        ({
            let r = s_attr(st, v, name, at);
            &&& v is Module && r is Ok ==> Some(r->Ok_0.found()) == module_value(st.heap, v->Module_0, name)
                && !is_withheld(st.withheld, v->Module_0, name, 0)
            &&& v is Module && module_value(st.heap, v->Module_0, name) is Some && !is_withheld(
                st.withheld,
                v->Module_0,
                name,
                0,
            ) ==> r is Ok
            &&& v is Instance && own_field(st.heap, v, name) is None && r is Ok ==> r->Ok_0 is Method && Some(
                r->Ok_0.found(),
            ) == s_find_method(st, st.heap.instance(v->Instance_0).class, name)
            &&& v is Instance && own_field(st.heap, v, name) is None && s_find_method(
                st,
                st.heap.instance(v->Instance_0).class,
                name,
            ) is None ==> r is Err && r->Err_0.kind == ErrorKind::Attr
        }),
{
}

// -- stated types ---------------------------------------------------------------------------------------

/// A value that holds a type without arguments is what it was once it is bound to that type,
/// except that an int becomes the float nearest to it where the type is `float`; nothing else
/// changes, unless the type is `const`, which freezes it.
pub proof fn law_a_value_that_fits_is_kept(
    f: nat,
    st: St,
    ty: TypeExprV,
    v: Value,
    what: Seq<char>,
    span: Span,
    w: WrittenV,
)
    requires
        ({
            let t = substituted(ty, current(st));
            &&& unknown_type(st, t) is None
            &&& holds(st.heap, t, v)
            &&& t.args.len() == 0
            &&& !t.frozen
        }),
    ensures
        ({
            let t = substituted(ty, current(st));
            let (after, r) = s_coerced(f + 3, st, ty, v, what, span, w);
            &&& after == st
            &&& !(v is Int && names(t, "float"@)) ==> r == Ok::<Value, ErrV>(v)
            &&& v is Int && names(t, "float"@) ==> r == Ok::<Value, ErrV>(
                Value::Float(int_bits(v->Int_0 as int)),
            )
        }),
{
    let t = substituted(ty, current(st));
    let at = crate::interp::fit::caret(w, span);
    assert(s_widen(f + 1, st, t, v, at) == (st, Ok::<(), ErrV>(())));
    assert(s_settled(f + 2, st, t, v, at).0 == st);
}

/// A value that does not hold a stated type, and that no constructor of the type takes, is
/// refused, and nothing changes.
pub proof fn law_a_value_that_does_not_fit_is_refused(
    f: nat,
    st: St,
    ty: TypeExprV,
    v: Value,
    what: Seq<char>,
    span: Span,
    w: WrittenV,
)
    requires
        !holds(st.heap, substituted(ty, current(st)), v),
        conversion(st, substituted(ty, current(st)), v) matches Some(found) ==> found.1,
    ensures
        s_coerced(f + 2, st, ty, v, what, span, w).0 == st,
        s_coerced(f + 2, st, ty, v, what, span, w).1 is Err,
{
}

/// A value that does not hold a stated class becomes what the class's constructor makes of it,
/// where one takes it and is not `explicit`: binding it calls the class with it.
pub proof fn law_a_stated_class_is_called_with_the_value(
    f: nat,
    st: St,
    ty: TypeExprV,
    v: Value,
    what: Seq<char>,
    span: Span,
    w: WrittenV,
    id: ObjId,
    st1: St,
    built: Value,
)
    requires
        ({
            let t = substituted(ty, current(st));
            &&& unknown_type(st, t) is None
            &&& !holds(st.heap, t, v)
            &&& conversion(st, t, v) == Some((id, false))
            &&& t.args.len() == 0
            &&& !t.frozen
            &&& !(built is Int)
        }),
        s_call(f + 1, st, Value::Class(id), seq![v], crate::interp::fit::caret(w, span)) == (
            st1,
            Ok::<Value, ErrV>(built),
        ),
    ensures
        s_coerced(f + 3, st, ty, v, what, span, w) == (st1, Ok::<Value, ErrV>(built)),
{
    let t = substituted(ty, current(st));
    let at = crate::interp::fit::caret(w, span);
    assert(s_constructed(f + 2, st, t, v, at) == (st1, Ok::<Option<Value>, ErrV>(Some(built))));
    assert(s_widen(f + 1, st1, t, built, at) == (st1, Ok::<(), ErrV>(())));
    assert(s_settled(f + 2, st1, t, built, at) == (st1, Ok::<Value, ErrV>(built)));
}

/// What a name of a stated type holds before it is given anything: nil where the type admits
/// it, and otherwise zero, false, or an empty text, list or dict of its own.
pub proof fn law_what_a_type_starts_from(f: nat, st: St, ty: TypeExprV, field: Seq<char>, span: Span)
    requires
        sound(st.heap, st.globals),
        st.heap.cells.len() < usize::MAX,
    ensures
        ({
            let (after, r) = s_default_of(f + 1, st, ty, field, span);
            let word = ty.name->Named_0;
            let named = ty.name is Named && !ty.nullable;
            &&& ty.nullable ==> after == st && r == Ok::<Value, ErrV>(Value::Nil)
            &&& named && word == "int"@ ==> after == st && r == Ok::<Value, ErrV>(Value::Int(0))
            &&& named && word == "float"@ ==> after == st && r == Ok::<Value, ErrV>(Value::Float(0))
            &&& named && word == "bool"@ ==> after == st && r == Ok::<Value, ErrV>(Value::Bool(false))
            &&& named && word == "string"@ ==> r is Ok && r->Ok_0 is Str && after.heap.obj(r->Ok_0->Str_0) == Some(
                ObjV::Str(Seq::empty()),
            )
            &&& named && word == "list"@ ==> r is Ok && r->Ok_0 is List && after.heap.obj(r->Ok_0->List_0) == Some(
                ObjV::List(Seq::empty()),
            )
            &&& named && word == "dict"@ ==> r is Ok && r->Ok_0 is Dict && after.heap.obj(r->Ok_0->Dict_0) == Some(
                ObjV::Dict(Seq::empty()),
            )
        }),
{
    law_a_new_object_moves_nothing(st.heap, ObjV::Str(Seq::empty()));
    law_a_new_object_moves_nothing(st.heap, ObjV::List(Seq::empty()));
    law_a_new_object_moves_nothing(st.heap, ObjV::Dict(Seq::empty()));
    reveal_strlit("int");
    reveal_strlit("float");
    reveal_strlit("bool");
    reveal_strlit("string");
    reveal_strlit("list");
    reveal_strlit("dict");
    reveal_strlit("tuple");
    assert("int"@.len() == 3 && "float"@.len() == 5 && "bool"@.len() == 4 && "string"@.len() == 6);
    assert("list"@.len() == 4 && "dict"@.len() == 4 && "tuple"@.len() == 5);
    assert("float"@[0] == 'f' && "tuple"@[0] == 't');
    assert("bool"@[0] == 'b' && "list"@[0] == 'l' && "dict"@[0] == 'd');
}

// -- errors ---------------------------------------------------------------------------------------------

/// An instance that is thrown is the one that is caught: a handler binds the very value, and the
/// error carries the name of its class.
pub proof fn law_what_is_thrown_is_caught(st: St, later: St, id: ObjId, span: Span)
    requires
        descends_from_error(st, st.heap.instance(id).class),
    ensures
        s_reify(later, s_throw(st, Value::Instance(id), span)) == (later, Value::Instance(id)),
        s_throw(st, Value::Instance(id), span).kind == ErrorKind::Thrown,
        s_throw(st, Value::Instance(id), span).class == Some(st.heap.class(st.heap.instance(id).class).name),
        s_throw(st, Value::Instance(id), span).span == span,
{
}

/// Nothing is thrown that is not an instance of a class that extends `Error`: such a `throw` is
/// itself refused.
pub proof fn law_only_errors_are_thrown(st: St, v: Value, span: Span)
    requires
        !(v is Instance) || !descends_from_error(st, st.heap.instance(v->Instance_0).class),
    ensures
        s_throw(st, v, span).kind == ErrorKind::Type,
        s_throw(st, v, span).payload is None,
{
}

/// A thrown error says what the instance holds as its message, where that is a text.
pub proof fn law_an_error_says_its_message(st: St, id: ObjId, text: ObjId, span: Span)
    requires
        descends_from_error(st, st.heap.instance(id).class),
        lookup(st.heap.instance(id).fields, "message"@) == Some(Value::Str(text)),
    ensures
        s_throw(st, Value::Instance(id), span).message == st.heap.text(text),
{
}

/// An error of the language that is caught is bound as a new instance of the class of its kind,
/// whose `message` is the text of the error and whose `kind` is the name of that class.
pub proof fn law_a_caught_error_tells_what_happened(st: St, e: ErrV)
    requires
        e.payload is None,
        sound(st.heap, st.globals),
        st.heap.cells.len() + 2 < usize::MAX,
    ensures
        ({
            let (after, v) = s_reify(st, e);
            let made = after.heap.instance(v->Instance_0);
            let message = lookup(made.fields, "message"@);
            let kind = lookup(made.fields, "kind"@);
            &&& v is Instance
            &&& error_class(st.error_classes, e.kind, 0) is Some ==> Some(made.class) == error_class(
                st.error_classes,
                e.kind,
                0,
            )
            &&& message is Some && message->0 is Str && after.heap.text(message->0->Str_0) == e.message
            &&& kind is Some && kind->0 is Str
            &&& class_name_of(e.kind) is Some ==> after.heap.text(kind->0->Str_0) == class_name_of(e.kind)->0
            &&& after.out == st.out
        }),
{
    reveal_strlit("message");
    reveal_strlit("kind");
    assert("message"@.len() != "kind"@.len());
    let a = ObjV::Str(e.message);
    let b = ObjV::Str(crate::interp::error::caught_name(e.kind));
    let h1 = st.heap.with_new(a);
    let h2 = h1.with_new(b);
    law_a_new_object_moves_nothing(st.heap, a);
    law_a_new_object_moves_nothing(h1, b);
    let (after, v) = s_reify(st, e);
    let fields = seq![
        NamedV { name: "message"@, value: Value::Str(st.heap.next_id()) },
        NamedV { name: "kind"@, value: Value::Str(h1.next_id()) },
    ];
    let made = ObjV::Instance(
        crate::runtime::object::InstanceV { class: caught_class(st, e.kind), fields, payload: None },
    );
    law_a_new_object_moves_nothing(h2, made);
    assert(after.heap == h2.with_new(made));
    assert(after.heap.obj(h2.next_id()) == Some(made));
    assert(h1.obj(st.heap.next_id()) == Some(a));
    assert(h2.cell(st.heap.next_id()) == h1.cell(st.heap.next_id()));
    assert(h2.obj(h1.next_id()) == Some(b));
    assert(h2.cell(st.heap.next_id()) is Some);
    assert(h2.cell(h1.next_id()) is Some);
    assert(after.heap.cell(st.heap.next_id()) == h2.cell(st.heap.next_id()));
    assert(after.heap.cell(h1.next_id()) == h2.cell(h1.next_id()));
    assert(fields[0].name == "message"@);
    assert(fields[1].name == "kind"@);
    reveal_with_fuel(crate::runtime::object::place, 3);
    assert(lookup(fields, "message"@) == Some(fields[0].value));
    assert(lookup(fields, "kind"@) == Some(fields[1].value));
}

/// A call has as many arguments as are taken, or is refused.
pub proof fn law_arguments_are_counted(name: Seq<char>, taken: nat, passed: nat, span: Span)
    ensures
        s_check_arity(name, taken, passed, span) is Ok <==> taken == passed,
        taken != passed ==> s_check_arity(name, taken, passed, span)->Err_0.span == span,
{
}

// -- modules ----------------------------------------------------------------------------------------------

/// A module that was loaded is not loaded again: another import of it is the same module, and
/// runs nothing. One that is still being loaded is refused.
pub proof fn law_a_module_is_loaded_once(f: nat, st: St, name: Seq<char>, span: Span, env: ObjId, file: int, at: int)
    requires
        !is_shipped(name),
        file_place(st.files, import_path(st.heap, name, env), 0) == Some(file),
        loaded_place(st.loaded, st.files[file].path, 0) == Some(at),
    ensures
        s_load_module(f, st, name, span, env).0 == st,
        st.loaded[at].done ==> s_load_module(f, st, name, span, env).1 == Ok::<ObjId, ErrV>(st.loaded[at].scope),
        !st.loaded[at].done ==> s_load_module(f, st, name, span, env).1 is Err && s_load_module(
            f,
            st,
            name,
            span,
            env,
        ).1->Err_0.kind == ErrorKind::Import,
{
}

/// A module that is nowhere is refused.
pub proof fn law_a_module_that_is_nowhere_is_refused(f: nat, st: St, name: Seq<char>, span: Span, env: ObjId)
    requires
        !is_shipped(name),
        file_place(st.files, import_path(st.heap, name, env), 0) is None,
    ensures
        s_load_module(f, st, name, span, env).0 == st,
        s_load_module(f, st, name, span, env).1 is Err,
        s_load_module(f, st, name, span, env).1->Err_0.kind == ErrorKind::Import,
{
}

/// A bare import binds the module under its name, in the file that imports it.
pub proof fn law_an_import_binds_the_module(st: St, module: Seq<char>, id: ObjId, env: ObjId)
    requires
        st.heap.obj(module_of(st.heap, env)) is Some,
        st.heap.obj(module_of(st.heap, env))->0 is Scope,
    ensures
        ({
            let (after, r) = s_bind_import(st, module, id, None, env);
            let var = var_of(after.heap, module_of(st.heap, env), module);
            &&& r == Ok::<(), ErrV>(())
            &&& var is Some
            &&& var->0.value == Some(Value::Module(id))
        }),
{
    law_a_declared_name_is_found(
        st.heap,
        module_of(st.heap, env),
        module,
        Value::Module(id),
        Bind::Final,
        None,
    );
}

proof fn lemma_imported(st: St, module: Seq<char>, id: ObjId, list: Seq<ImportNameV>, i: int, so_far: Seq<Value>)
    requires
        0 <= i <= list.len(),
        so_far.len() == i,
        forall|k: int| 0 <= k < i ==> module_value(st.heap, id, (#[trigger] list[k]).name) == Some(so_far[k]),
        forall|k: int| 0 <= k < i ==> !is_withheld(st.withheld, id, (#[trigger] list[k]).name, 0),
    ensures
        ({
            let r = imported(st, module, id, list, i, so_far);
            &&& r is Ok ==> r->Ok_0.len() == list.len() && (forall|k: int|
                0 <= k < list.len() ==> module_value(st.heap, id, (#[trigger] list[k]).name) == Some(
                    r->Ok_0[k],
                ) && !is_withheld(st.withheld, id, list[k].name, 0))
            &&& r is Err ==> exists|k: int|
                0 <= k < list.len() && (module_value(st.heap, id, (#[trigger] list[k]).name) is None
                    || is_withheld(st.withheld, id, list[k].name, 0))
        }),
    decreases list.len() - i,
{
    if i < list.len() {
        if module_value(st.heap, id, list[i].name) is Some && s_may_import(st, id, list[i].name, list[i].span) is Ok {
            let v = module_value(st.heap, id, list[i].name)->0;
            lemma_imported(st, module, id, list, i + 1, so_far.push(v));
        } else {
            assert(module_value(st.heap, id, list[i].name) is None || is_withheld(
                st.withheld,
                id,
                list[i].name,
                0,
            ));
        }
    }
}

proof fn lemma_names_declared(h: HeapV, into: ObjId, list: Seq<ImportNameV>, values: Seq<Value>, i: int, k: int)
    requires
        0 <= i <= list.len(),
        values.len() == list.len(),
        0 <= k < list.len(),
        h.obj(into) is Some,
        h.obj(into)->0 is Scope,
        forall|a: int, b: int| 0 <= a < b < list.len() ==> #[trigger] list[a].name != #[trigger] list[b].name,
        k < i ==> var_of(h, into, list[k].name) is Some && var_of(h, into, list[k].name)->0.value == Some(values[k]),
    ensures
        ({
            let var = var_of(names_declared(h, into, list, values, i), into, list[k].name);
            var is Some && var->0.value == Some(values[k])
        }),
    decreases list.len() - i,
{
    if i < list.len() {
        let next = declared(h, into, list[i].name, values[i], Bind::Final, None);
        law_a_declared_name_is_found(h, into, list[i].name, values[i], Bind::Final, None);
        if k < i {
            assert(list[k].name != list[i].name);
            law_declaring_a_name_leaves_the_others(
                h,
                into,
                list[i].name,
                values[i],
                Bind::Final,
                None,
                into,
                list[k].name,
            );
        }
        lemma_names_declared(next, into, list, values, i + 1, k);
    }
}

/// An import of names gives each of them, in the file that imports them, the value it has in
/// the module; it is refused just where the module does not declare one of them or keeps it to
/// itself, and binds nothing.
pub proof fn law_an_import_binds_what_the_module_declares(
    st: St,
    module: Seq<char>,
    id: ObjId,
    list: Seq<ImportNameV>,
    env: ObjId,
    k: int,
)
    requires
        st.heap.obj(module_of(st.heap, env)) is Some,
        st.heap.obj(module_of(st.heap, env))->0 is Scope,
        forall|a: int, b: int| 0 <= a < b < list.len() ==> #[trigger] list[a].name != #[trigger] list[b].name,
        0 <= k < list.len(),
    ensures
        ({
            let (after, r) = s_bind_import(st, module, id, Some(list), env);
            let var = var_of(after.heap, module_of(st.heap, env), list[k].name);
            &&& r is Ok ==> var is Some && var->0.value == module_value(st.heap, id, list[k].name) && var->0.value
                is Some
            &&& r is Err ==> after == st
            &&& r is Ok <==> forall|i: int|
                0 <= i < list.len() ==> module_value(st.heap, id, (#[trigger] list[i]).name) is Some && !is_withheld(
                    st.withheld,
                    id,
                    list[i].name,
                    0,
                )
        }),
{
    lemma_imported(st, module, id, list, 0, Seq::empty());
    let got = imported(st, module, id, list, 0, Seq::empty());
    if got is Ok {
        lemma_names_declared(st.heap, module_of(st.heap, env), list, got->Ok_0, 0, k);
    }
}

} // verus!
