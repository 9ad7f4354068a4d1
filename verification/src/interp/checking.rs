//! What is refused, what a class is made of, and how values are laid out.

use crate::error::{class_name_of, ErrV, ErrorKind};
use crate::interp::declare::s_methods;
use crate::interp::eval::s_store_field;
use crate::interp::fit::{first_unheld, names, offending, offending_item, WrittenV};
use crate::interp::object::{s_may_reach, DotSpans};
use crate::interp::ops::{s_index_put, s_put_entry, s_put_item, PutSpans};
use crate::interp::pretty::{
    bytes, is_laid_out, padding, s_laid_out, s_line_of, s_pretty, MAX_WIDTH,
};
use crate::interp::show::{s_display, s_repr, Ask};
use crate::interp::state::{with_new, St};
use crate::runtime::class::{base, slot_of};
use crate::runtime::heap::{law_a_new_object_moves_nothing, HeapV};
use crate::runtime::object::{lookup, place, put, FunctionV, NamedV, ObjV};
use crate::runtime::types::holds;
use crate::runtime::value::{ObjId, Value};
use crate::syntax::ast::{FnDeclV, Op, TypeExprV};
use crate::syntax::token::Span;
use crate::text::contains;
use vstd::prelude::*;

verus! {

// -- what does not hold -------------------------------------------------------------------------------

/// Of some values the first that does not hold a type is found, and none is where all hold it.
pub proof fn law_the_first_that_does_not_hold_is_found(h: HeapV, ty: TypeExprV, values: Seq<Value>, from: int)
    requires
        0 <= from <= values.len(),
    ensures
        match first_unheld(h, ty, values, from) {
            Some(i) => from <= i < values.len() && !holds(h, ty, values[i]) && forall|k: int|
                from <= k < i ==> holds(h, ty, #[trigger] values[k]),
            None => forall|k: int| from <= k < values.len() ==> holds(h, ty, #[trigger] values[k]),
        },
    decreases values.len() - from,
{
    if from < values.len() && holds(h, ty, values[from]) {
        law_the_first_that_does_not_hold_is_found(h, ty, values, from + 1);
    }
}

/// A list is refused for an item just where one of its items does not hold the type.
pub proof fn law_a_list_is_refused_for_an_item(h: HeapV, ty: TypeExprV, v: Value, id: ObjId, span: Span, w: WrittenV)
    requires
        base(h, v) == Value::List(id),
        names(ty, "list"@),
        ty.args.len() > 0,
    ensures
        offending(h, ty, v, span, w) is Some <==> exists|i: int|
            0 <= i < h.list(id).len() && !holds(h, ty.args[0], #[trigger] h.list(id)[i]),
        offending(h, ty, v, span, w) is Some ==> offending(h, ty, v, span, w)->0.kind == ErrorKind::Type,
    decreases ty,
{
    let items = h.list(id);
    law_the_first_that_does_not_hold_is_found(h, ty.args[0], items, 0);
    assert(offending(h, ty, v, span, w) == offending_item(h, ty, items, span, w));
    if let Some(i) = first_unheld(h, ty.args[0], items, 0) {
        assert(!holds(h, ty.args[0], items[i]));
        let inside = crate::interp::fit::within(w, crate::interp::fit::element(w, i));
        let at = crate::interp::fit::caret(inside, span);
        lemma_refusal_kind(h, ty.args[0], items[i], at, inside);
    }
}

proof fn lemma_refusal_kind(h: HeapV, ty: TypeExprV, v: Value, span: Span, w: WrittenV)
    ensures
        offending(h, ty, v, span, w) is Some ==> offending(h, ty, v, span, w)->0.kind == ErrorKind::Type,
    decreases ty,
{
    match base(h, v) {
        Value::List(id) => {
            if names(ty, "list"@) && ty.args.len() > 0 {
                if let Some(i) = first_unheld(h, ty.args[0], h.list(id), 0) {
                    let inside = crate::interp::fit::within(w, crate::interp::fit::element(w, i));
                    let at = crate::interp::fit::caret(inside, span);
                    lemma_refusal_kind(h, ty.args[0], h.list(id)[i], at, inside);
                }
            }
        },
        Value::Dict(id) => {
            if names(ty, "dict"@) && ty.args.len() > 1 {
                let values = crate::interp::dict::values_in(h.dict(id));
                if let Some(i) = first_unheld(h, ty.args[1], values, 0) {
                    let inside = crate::interp::fit::within(
                        w,
                        crate::interp::fit::pair_value(crate::interp::fit::pair_of(w, values.len(), i)),
                    );
                    let at = crate::interp::fit::caret(inside, span);
                    lemma_refusal_kind(h, ty.args[1], values[i], at, inside);
                }
            }
        },
        _ => {},
    }
}

// -- what is frozen -----------------------------------------------------------------------------------

/// Nothing is written through a subscript of a frozen list or dict: the write is refused, and
/// nothing changes.
pub proof fn law_a_frozen_container_is_not_written(f: nat, st: St, target: Value, index: Value, v: Value, at: PutSpans, id: ObjId)
    requires
        slot_of(st.heap, target, Op::Put) is None,
        base(st.heap, target) == Value::List(id) || base(st.heap, target) == Value::Dict(id),
        st.heap.frozen(id),
    ensures
        s_index_put(f + 1, st, target, index, v, at).0 == st,
        s_index_put(f + 1, st, target, index, v, at).1 is Err,
{
    if base(st.heap, target) == Value::List(id) {
        assert(s_index_put(f + 1, st, target, index, v, at) == s_put_item(st, target, index, v, at));
    } else {
        assert(s_index_put(f + 1, st, target, index, v, at) == s_put_entry(st, id, target, index, v, at));
    }
}

/// No field of a frozen instance is written, nor one that may not be reached, nor any of a
/// value that is no instance; nothing changes then.
pub proof fn law_a_refused_field_is_not_written(st: St, object: Value, name: Seq<char>, v: Value, at: DotSpans)
    requires
        !(object is Instance) || st.heap.frozen(object->Instance_0) || s_may_reach(
            st,
            st.heap.instance(object->Instance_0).class,
            name,
            at.name,
        ) is Err,
    ensures
        s_store_field(st, object, name, v, at).0 == st,
        s_store_field(st, object, name, v, at).1 is Err,
{
}

// -- kinds of error -----------------------------------------------------------------------------------

/// Every kind of error that can be caught has a class of its own name, and a `throw`, a text
/// that is no program and a program that takes too long have none.
pub proof fn law_which_errors_are_caught_as_classes(kind: ErrorKind)
    ensures
        kind == ErrorKind::Syntax || kind == ErrorKind::Declaration || kind == ErrorKind::Budget || kind
            == ErrorKind::Thrown <==> class_name_of(kind) is None,
{
}

// -- what a class is made of --------------------------------------------------------------------------

proof fn lemma_place(s: Seq<NamedV>, name: Seq<char>, from: int)
    requires
        0 <= from <= s.len(),
    ensures
        match place(s, name, from) {
            Some(i) => from <= i < s.len() && s[i].name == name && forall|k: int|
                from <= k < i ==> (#[trigger] s[k]).name != name,
            None => forall|k: int| from <= k < s.len() ==> (#[trigger] s[k]).name != name,
        },
    decreases s.len() - from,
{
    if from < s.len() && s[from].name != name {
        lemma_place(s, name, from + 1);
    }
}

/// A value put under a name is found there, and what stands under the other names stays.
pub proof fn law_a_named_value_is_found(s: Seq<NamedV>, name: Seq<char>, v: Value, other: Seq<char>)
    ensures
        lookup(put(s, name, v), name) == Some(v),
        other != name ==> lookup(put(s, name, v), other) == lookup(s, other),
{
    let t = put(s, name, v);
    lemma_place(s, name, 0);
    lemma_place(s, other, 0);
    lemma_place(t, name, 0);
    lemma_place(t, other, 0);
    match place(s, name, 0) {
        Some(i) => {
            assert(t[i] == (NamedV { name, value: v }));
            if let Some(k) = place(t, name, 0) {
                if k < i {
                    assert(t[k] == s[k]);
                }
            }
            if other != name {
                match (place(s, other, 0), place(t, other, 0)) {
                    (Some(a), Some(b)) => {
                        assert(t[a].name == other);
                        assert(s[b].name == t[b].name);
                    },
                    (Some(a), None) => {
                        assert(t[a].name == other);
                    },
                    (None, Some(b)) => {
                        assert(s[b].name == t[b].name);
                    },
                    _ => {},
                }
            }
        },
        None => {
            let n = s.len() as int;
            assert(t[n] == (NamedV { name, value: v }));
            if let Some(k) = place(t, name, 0) {
                if k < n {
                    assert(t[k] == s[k]);
                }
            }
            if other != name {
                match (place(s, other, 0), place(t, other, 0)) {
                    (Some(a), Some(b)) => {
                        assert(t[a] == s[a]);
                        if b < n {
                            assert(t[b] == s[b]);
                        }
                    },
                    (Some(a), None) => {
                        assert(t[a] == s[a]);
                    },
                    (None, Some(b)) => {
                        if b < n {
                            assert(t[b] == s[b]);
                        }
                    },
                    _ => {},
                }
            }
        },
    }
}

/// What a table of methods holds for the first `n` of some declarations.
pub open spec fn holds_methods(h: HeapV, table: Seq<NamedV>, decls: Seq<FnDeclV>, env: ObjId, owner: ObjId, n: int) -> bool {
    &&& forall|k: int|
        0 <= k < n ==> {
            let held = lookup(table, (#[trigger] decls[k]).name);
            &&& held is Some
            &&& held->0 is Function
            &&& h.cell(held->0->Function_0) is Some
            &&& h.function(held->0->Function_0) == Some(FunctionV { decl: decls[k], env, owner: Some(owner) })
        }
    &&& forall|k: int| n <= k < decls.len() ==> lookup(table, (#[trigger] decls[k]).name) is None
}

proof fn lemma_methods(st: St, decls: Seq<FnDeclV>, env: ObjId, owner: ObjId, i: int, table: Seq<NamedV>)
    requires
        0 <= i <= decls.len(),
        st.heap.tidy(),
        st.heap.cells.len() + decls.len() - i <= usize::MAX,
        forall|a: int, b: int| 0 <= a < b < decls.len() ==> (#[trigger] decls[a]).name != (#[trigger] decls[b]).name,
        holds_methods(st.heap, table, decls, env, owner, i),
    ensures
        ({
            let (after, made) = s_methods(st, decls, env, owner, i, table);
            holds_methods(after.heap, made, decls, env, owner, decls.len() as int)
        }),
    decreases decls.len() - i,
{
    if i < decls.len() {
        let object = ObjV::Function(FunctionV { decl: decls[i], env, owner: Some(owner) });
        law_a_new_object_moves_nothing(st.heap, object);
        let st1 = with_new(st, object);
        let id = st.heap.next_id();
        let v = Value::Function(id);
        let next = put(table, decls[i].name, v);
        assert(lookup(table, decls[i].name) is None);
        assert(st1.heap.obj(id) == Some(object));
        assert(holds_methods(st1.heap, next, decls, env, owner, i + 1)) by {
            assert forall|k: int| 0 <= k < i + 1 implies {
                let held = lookup(next, (#[trigger] decls[k]).name);
                &&& held is Some
                &&& held->0 is Function
                &&& st1.heap.cell(held->0->Function_0) is Some
                &&& st1.heap.function(held->0->Function_0) == Some(
                    FunctionV { decl: decls[k], env, owner: Some(owner) },
                )
            } by {
                law_a_named_value_is_found(table, decls[i].name, v, decls[k].name);
                if k < i {
                    assert(decls[k].name != decls[i].name);
                    let held = lookup(table, decls[k].name);
                    assert(st.heap.cell(held->0->Function_0) is Some);
                    assert(st1.heap.cell(held->0->Function_0) == st.heap.cell(held->0->Function_0));
                }
            }
            assert forall|k: int| i + 1 <= k < decls.len() implies lookup(next, (#[trigger] decls[k]).name) is None by {
                law_a_named_value_is_found(table, decls[i].name, v, decls[k].name);
                assert(decls[i].name != decls[k].name);
            }
        }
        lemma_methods(st1, decls, env, owner, i + 1, next);
    }
}

/// Each method that a class declares stands in its table under its own name, as it was declared
/// and as a method of that class.
pub proof fn law_each_declared_method_stands_under_its_name(st: St, decls: Seq<FnDeclV>, env: ObjId, owner: ObjId, k: int)
    requires
        0 <= k < decls.len(),
        st.heap.tidy(),
        st.heap.cells.len() + decls.len() <= usize::MAX,
        forall|a: int, b: int| 0 <= a < b < decls.len() ==> (#[trigger] decls[a]).name != (#[trigger] decls[b]).name,
    ensures
        ({
            let (after, table) = s_methods(st, decls, env, owner, 0, Seq::empty());
            let held = lookup(table, decls[k].name);
            &&& held is Some
            &&& held->0 is Function
            &&& after.heap.function(held->0->Function_0) == Some(
                FunctionV { decl: decls[k], env, owner: Some(owner) },
            )
        }),
{
    let none = Seq::<NamedV>::empty();
    assert forall|j: int| 0 <= j < decls.len() implies lookup(none, (#[trigger] decls[j]).name) is None by {
        lemma_place(none, decls[j].name, 0);
    }
    lemma_methods(st, decls, env, owner, 0, none);
    let (after, table) = s_methods(st, decls, env, owner, 0, none);
    assert(decls[k].name == decls[k].name);
}

// -- layout -------------------------------------------------------------------------------------------

/// A prompt shows on one line what fits on one, and anything that is not a container; a
/// container that does not fit is laid out.
pub proof fn law_a_prompt_lays_out_what_does_not_fit(f: nat, st: St, v: Value, color: bool, ask: Ask, st1: St, bare: Seq<char>)
    requires
        s_display(f, st, v, false, ask) == (st1, Ok::<Seq<char>, ErrV>(bare)),
    ensures
        bytes(bare) <= MAX_WIDTH && !contains(bare, "\n"@) ==> s_pretty(f, st, v, color, ask) == s_display(
            f,
            st1,
            v,
            color,
            ask,
        ),
        !is_laid_out(st1.heap, v, ask) ==> s_pretty(f, st, v, color, ask) == s_display(f, st1, v, color, ask),
        bytes(bare) > MAX_WIDTH && is_laid_out(st1.heap, v, ask) ==> s_pretty(f, st, v, color, ask) == s_laid_out(
            f,
            st1,
            v,
            color,
            0,
            ask,
        ),
{
}

/// Laid out, an item that holds no others stands on a line of its own, indented four spaces
/// deeper than what it is in.
pub proof fn law_an_item_stands_on_its_own_line(f: nat, st: St, v: Value, color: bool, indent: nat, ask: Ask, st1: St, text: Seq<char>)
    requires
        !is_laid_out(st.heap, v, ask),
        s_repr(f, st, v, color, ask) == (st1, Ok::<Seq<char>, ErrV>(text)),
    ensures
        ({
            let (after, r) = s_line_of(f + 1, st, v, color, indent, ask, padding(indent + 1));
            &&& after == st1
            &&& r is Ok
            &&& r->Ok_0.len() == 4 * (indent + 1) + text.len()
            &&& r->Ok_0.skip(4 * (indent + 1) as int) == text
            &&& forall|i: int| 0 <= i < 4 * (indent + 1) ==> #[trigger] r->Ok_0[i] == ' '
        }),
{
    let pad = padding(indent + 1);
    assert(pad.len() == 4 * (indent + 1));
    assert((pad + text).skip(pad.len() as int) =~= text);
}

} // verus!
